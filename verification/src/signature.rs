//! Function signatures as the signature database reports them.

use crate::client::SignatureItem;
use vstd::prelude::*;

verus! {

/// The number of characters in the text of a selector.
pub const SELECTOR_LENGTH: usize = 8;

/// Terminal colour in which the selector of a signature is shown.
pub const BLUE: &'static str = "\x1b[38;5;39m";

/// Terminal colour in which the text of a signature is shown.
pub const GRAY: &'static str = "\x1b[38;5;248m";

/// A function signature with its digest and selector.
#[derive(Debug, Clone, PartialEq)]
pub struct Signature {
    /// The signature as a human writes it.
    pub text: String,
    /// The digest of the signature, as the database reported it.
    pub hash: String,
    /// The selector: the first eight characters of the digest.
    pub selector: String,
}

/// The selector that belongs to a digest: its first eight characters, or all
/// of it where it has fewer.
pub open spec fn selector_of(hash: Seq<char>) -> Seq<char> {
    if hash.len() <= SELECTOR_LENGTH {
        hash
    } else {
        hash.subrange(0, SELECTOR_LENGTH as int)
    }
}

/// The line that shows a signature with the given digest and text on a
/// terminal.
pub open spec fn signature_line(hash: Seq<char>, text: Seq<char>) -> Seq<char> {
    BLUE@ + "["@ + selector_of(hash) + "]: "@ + GRAY@ + text
}

/// The first eight characters of `hash`, or all of it where it has fewer.
fn selector_text(hash: &str) -> (r: String)
    ensures
        r@ == selector_of(hash@),
{
    let n = hash.unicode_len();
    let keep = if n < SELECTOR_LENGTH {
        n
    } else {
        SELECTOR_LENGTH
    };
    assert(hash@.subrange(0, keep as int) =~= selector_of(hash@));
    String::from_str(hash.substring_char(0, keep))
}

impl Signature {
    /// The selector is the one that belongs to the digest.
    pub open spec fn wf(&self) -> bool {
        self.selector@ == selector_of(self.hash@)
    }

    /// The signature is the one that `item` stands for.
    pub open spec fn stands_for(&self, item: SignatureItem) -> bool {
        &&& self.text == item.text
        &&& self.hash == item.hash
        &&& self.wf()
    }

    /// A copy that is equal to the signature field by field.
    pub fn duplicate(&self) -> (r: Signature)
        ensures
            r == *self,
    {
        Signature {
            text: self.text.clone(),
            hash: self.hash.clone(),
            selector: self.selector.clone(),
        }
    }

    /// Makes a signature of its text and digest; the selector is taken from
    /// the digest.
    pub fn new(text: String, hash: String) -> (r: Signature)
        ensures
            r.text == text,
            r.hash == hash,
            r.wf(),
    {
        let selector = selector_text(hash.as_str());
        Signature { text, hash, selector }
    }

    /// The line that shows the signature on a terminal: the selector in
    /// blue between brackets, then the text in gray.
    pub fn to_string(&self) -> (r: String)
        ensures
            r@ == signature_line(self.hash@, self.text@),
    {
        let shown = selector_text(self.hash.as_str());
        let mut line = String::from_str(BLUE);
        line.append("[");
        line.append(shown.as_str());
        line.append("]: ");
        line.append(GRAY);
        line.append(self.text.as_str());
        line
    }
}

impl From<SignatureItem> for Signature {
    /// The signature that an entry of the database stands for.
    fn from(item: SignatureItem) -> (r: Signature)
        ensures
            r.stands_for(item),
    {
        Signature::new(item.text, item.hash)
    }
}

/// A converted signature holds a selector string of its own making, which no
/// spec function can name: the contract of `from` speaks of the fields.
impl vstd::std_specs::convert::FromSpecImpl<SignatureItem> for Signature {
    open spec fn obeys_from_spec() -> bool {
        false
    }

    open spec fn from_spec(item: SignatureItem) -> Signature {
        arbitrary()
    }
}

impl<'a> From<&'a SignatureItem> for Signature {
    /// The signature that an entry of the database stands for; the entry is
    /// left as it is.
    fn from(item: &'a SignatureItem) -> (r: Signature)
        ensures
            r.stands_for(*item),
    {
        Signature::new(item.text.clone(), item.hash.clone())
    }
}

/// As for the conversion of an owned entry.
impl<'a> vstd::std_specs::convert::FromSpecImpl<&'a SignatureItem> for Signature {
    open spec fn obeys_from_spec() -> bool {
        false
    }

    open spec fn from_spec(item: &'a SignatureItem) -> Signature {
        arbitrary()
    }
}

} // verus!
