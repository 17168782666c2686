//! Contract bytecode and the scan that recovers selector candidates from it.
//!
//! The scan does not disassemble. It looks at every position of the code for a
//! fixed opcode pattern and reads the four bytes behind it.

use crate::codec::{
    decode_hex, encode_hex, hex_decoded, hex_digit_char, hex_digit_value, hex_encoded, hex_failure,
    is_hex_text, is_lower_hex_char, lemma_hex_encoded_is_canonical, HexError,
};
use crate::selectors::SelectorSet;
use vstd::prelude::*;
use vstd::utf8::encode_utf8;

verus! {

/// Opcode of `JUMPI`, which closes one branch of a dispatcher.
pub const JUMPI: u8 = 0x57;

/// Opcode of `DUP1`, which copies the selector under test.
pub const DUP1: u8 = 0x80;

/// Opcode of `PUSH4`, which carries a four-byte literal.
pub const PUSH4: u8 = 0x63;

/// The bytecode of a contract.
#[derive(Debug)]
pub struct Bytecode {
    /// The raw bytes.
    pub inner: Vec<u8>,
}

/// Why a text does not make bytecode.
#[derive(Debug)]
pub enum BytecodeDecodeError {
    /// The text is not hexadecimal.
    NotHex(HexError),
    /// The source of the text could not be read; the reason is given.
    Unreadable(String),
}

/// `text` without the `0x` mark, if it starts with one. One mark is
/// dropped and no more: what follows it has to be digits.
pub open spec fn without_hex_prefix(text: Seq<u8>) -> Seq<u8> {
    if text.len() >= 2 && text[0] == 0x30 && text[1] == 0x78 {
        text.skip(2)
    } else {
        text
    }
}

/// The digits of a bytecode text: its bytes without a leading `0x` mark.
pub open spec fn bytecode_digits(text: Seq<char>) -> Seq<u8> {
    without_hex_prefix(encode_utf8(text))
}

/// Whether `c` has the Unicode property White_Space, as `char::is_whitespace`
/// tells it. Which characters have it is not written out here.
pub uninterp spec fn white_space(c: char) -> bool;

/// `text` without the White_Space characters that it starts with.
pub open spec fn trimmed_start(text: Seq<char>) -> Seq<char>
    decreases text.len(),
{
    if text.len() > 0 && white_space(text[0]) {
        trimmed_start(text.skip(1))
    } else {
        text
    }
}

/// `text` without the White_Space characters that it ends with.
pub open spec fn trimmed_end(text: Seq<char>) -> Seq<char>
    decreases text.len(),
{
    if text.len() > 0 && white_space(text.last()) {
        trimmed_end(text.drop_last())
    } else {
        text
    }
}

/// What is left of `text` once the White_Space at its two ends is dropped.
pub open spec fn trimmed(text: Seq<char>) -> Seq<char> {
    trimmed_end(trimmed_start(text))
}

/// Calls `str::trim`.
///
/// Trusted: the result is the text without the White_Space characters at
/// its start and at its end, so that it neither starts nor ends with one.
/// What lies between the two ends stays as it is.
#[verifier::external_body]
fn trim_text(text: &str) -> (r: &str)
    ensures
        r@ == trimmed(text@),
        r@.len() > 0 ==> !white_space(r@[0]) && !white_space(r@.last()),
{
    text.trim()
}

/// The canonical text of the four bytes of `code` that start at `at`.
pub open spec fn selector_at(code: Seq<u8>, at: int) -> Seq<char> {
    hex_encoded(code.subrange(at, at + 4))
}

/// The anchor `JUMPI DUP1 PUSH4` stands at `p`, and the four bytes behind it
/// lie inside `code`.
pub open spec fn anchor_at(code: Seq<u8>, p: int) -> bool {
    &&& 0 <= p
    &&& p + 7 <= code.len()
    &&& code[p] == JUMPI
    &&& code[p + 1] == DUP1
    &&& code[p + 2] == PUSH4
}

/// A `PUSH4` byte stands at `p`, and the four bytes behind it lie inside
/// `code`.
pub open spec fn push4_at(code: Seq<u8>, p: int) -> bool {
    &&& 0 <= p
    &&& p + 5 <= code.len()
    &&& code[p] == PUSH4
}

/// The selectors behind the anchors of `code`.
pub open spec fn anchored_selectors(code: Seq<u8>) -> Set<Seq<char>> {
    Set::new(
        |s: Seq<char>| exists|p: int| #[trigger] anchor_at(code, p) && s == selector_at(code, p + 3),
    )
}

/// The four-byte literals behind the `PUSH4` bytes of `code`.
pub open spec fn pushed_literals(code: Seq<u8>) -> Set<Seq<char>> {
    Set::new(
        |s: Seq<char>| exists|p: int| #[trigger] push4_at(code, p) && s == selector_at(code, p + 1),
    )
}

/// What a scan of `code` finds: the anchored selectors, and in a deep scan
/// every pushed four-byte literal as well.
pub open spec fn scan(code: Seq<u8>, deep: bool) -> Set<Seq<char>> {
    if deep {
        anchored_selectors(code).union(pushed_literals(code))
    } else {
        anchored_selectors(code)
    }
}

/// The anchored selectors whose anchor stands before `limit`.
spec fn anchored_below(code: Seq<u8>, limit: int) -> Set<Seq<char>> {
    Set::new(
        |s: Seq<char>|
            exists|p: int| #[trigger] anchor_at(code, p) && p < limit && s == selector_at(code, p + 3),
    )
}

/// The pushed literals whose `PUSH4` stands before `limit`.
spec fn pushed_below(code: Seq<u8>, limit: int) -> Set<Seq<char>> {
    Set::new(
        |s: Seq<char>|
            exists|p: int| #[trigger] push4_at(code, p) && p < limit && s == selector_at(code, p + 1),
    )
}

proof fn lemma_anchored_step(code: Seq<u8>, p: int)
    ensures
        anchored_below(code, p + 1) == if anchor_at(code, p) {
            anchored_below(code, p).insert(selector_at(code, p + 3))
        } else {
            anchored_below(code, p)
        },
{
    let next = anchored_below(code, p + 1);
    let now = anchored_below(code, p);
    assert forall|s: Seq<char>| now.contains(s) implies next.contains(s) by {
        let q = choose|q: int| #[trigger] anchor_at(code, q) && q < p && s == selector_at(code, q + 3);
        assert(anchor_at(code, q) && q < p + 1);
    }
    assert forall|s: Seq<char>| next.contains(s) && !now.contains(s) implies anchor_at(code, p) && s
        == selector_at(code, p + 3) by {
        let q = choose|q: int|
            #[trigger] anchor_at(code, q) && q < p + 1 && s == selector_at(code, q + 3);
        if q < p {
            assert(anchor_at(code, q) && q < p);
        }
    }
    if anchor_at(code, p) {
        assert(next.contains(selector_at(code, p + 3)));
        assert(next =~= now.insert(selector_at(code, p + 3)));
    } else {
        assert(next =~= now);
    }
}

proof fn lemma_pushed_step(code: Seq<u8>, p: int)
    ensures
        pushed_below(code, p + 1) == if push4_at(code, p) {
            pushed_below(code, p).insert(selector_at(code, p + 1))
        } else {
            pushed_below(code, p)
        },
{
    let next = pushed_below(code, p + 1);
    let now = pushed_below(code, p);
    assert forall|s: Seq<char>| now.contains(s) implies next.contains(s) by {
        let q = choose|q: int| #[trigger] push4_at(code, q) && q < p && s == selector_at(code, q + 1);
        assert(push4_at(code, q) && q < p + 1);
    }
    assert forall|s: Seq<char>| next.contains(s) && !now.contains(s) implies push4_at(code, p) && s
        == selector_at(code, p + 1) by {
        let q = choose|q: int|
            #[trigger] push4_at(code, q) && q < p + 1 && s == selector_at(code, q + 1);
        if q < p {
            assert(push4_at(code, q) && q < p);
        }
    }
    if push4_at(code, p) {
        assert(next.contains(selector_at(code, p + 1)));
        assert(next =~= now.insert(selector_at(code, p + 1)));
    } else {
        assert(next =~= now);
    }
}

proof fn lemma_anchored_all(code: Seq<u8>, limit: int)
    requires
        limit + 7 > code.len(),
    ensures
        anchored_below(code, limit) == anchored_selectors(code),
{
    assert forall|s: Seq<char>| anchored_selectors(code).contains(s) implies anchored_below(
        code,
        limit,
    ).contains(s) by {
        let q = choose|q: int| #[trigger] anchor_at(code, q) && s == selector_at(code, q + 3);
        assert(anchor_at(code, q) && q < limit);
    }
    assert(anchored_below(code, limit) =~= anchored_selectors(code));
}

proof fn lemma_pushed_all(code: Seq<u8>, limit: int)
    requires
        limit + 5 > code.len(),
    ensures
        pushed_below(code, limit) == pushed_literals(code),
{
    assert forall|s: Seq<char>| pushed_literals(code).contains(s) implies pushed_below(
        code,
        limit,
    ).contains(s) by {
        let q = choose|q: int| #[trigger] push4_at(code, q) && s == selector_at(code, q + 1);
        assert(push4_at(code, q) && q < limit);
    }
    assert(pushed_below(code, limit) =~= pushed_literals(code));
}

impl Bytecode {
    /// Decodes hexadecimal text, with or without a leading `0x`, into
    /// bytecode.
    ///
    /// The digits may be of either case. Anything else in the text, a
    /// second `0x` among it, or an odd number of digits, is an error.
    pub fn try_from(text: String) -> (r: Result<Bytecode, BytecodeDecodeError>)
        ensures
            r is Ok <==> is_hex_text(bytecode_digits(text@)),
            r matches Ok(code) ==> code.inner@ == hex_decoded(bytecode_digits(text@)),
            r matches Err(e) ==> e matches BytecodeDecodeError::NotHex(why) && hex_failure(
                bytecode_digits(text@),
                why,
            ),
    {
        let bytes = text.as_str().as_bytes();
        let n = bytes.len();
        let start: usize = if n >= 2 && bytes[0] == 0x30 && bytes[1] == 0x78 {
            2
        } else {
            0
        };
        assert(without_hex_prefix(bytes@) =~= bytes@.subrange(start as int, n as int));
        match decode_hex(vstd::slice::slice_subrange(bytes, start, n)) {
            Ok(inner) => Ok(Bytecode { inner }),
            Err(why) => Err(BytecodeDecodeError::NotHex(why)),
        }
    }

    /// Decodes the contents of a file that holds bytecode as text: the
    /// White_Space around the text is dropped, the rest is decoded as by
    /// `try_from`.
    pub fn from_file_text(contents: &str) -> (r: Result<Bytecode, BytecodeDecodeError>)
        ensures
            r is Ok <==> is_hex_text(bytecode_digits(trimmed(contents@))),
            r matches Ok(code) ==> code.inner@ == hex_decoded(bytecode_digits(trimmed(contents@))),
            r matches Err(e) ==> e matches BytecodeDecodeError::NotHex(why) && hex_failure(
                bytecode_digits(trimmed(contents@)),
                why,
            ),
    {
        Bytecode::try_from(String::from_str(trim_text(contents)))
    }

    /// Scans the code for selector candidates.
    ///
    /// The result holds the four bytes behind every `JUMPI DUP1 PUSH4`
    /// anchor. With `deep` it also holds the four bytes behind every `PUSH4`
    /// byte, anchored or not. Code too short for a pattern yields nothing.
    pub fn find_function_selectors(&self, deep: bool) -> (found: SelectorSet)
        ensures
            found@ == scan(self.inner@, deep),
    {
        let mut found = SelectorSet::new();
        self.collect_anchored(&mut found);
        if deep {
            self.collect_pushed(&mut found);
        }
        assert(found@ =~= scan(self.inner@, deep));
        found
    }

    /// The anchor pass: adds to `found` the selector behind every anchor.
    pub fn collect_anchored(&self, found: &mut SelectorSet)
        ensures
            final(found)@ == old(found)@.union(anchored_selectors(self.inner@)),
    {
        let code = self.inner.as_slice();
        let n = code.len();
        let ghost start = found@;
        let mut p: usize = 0;
        assert(anchored_below(code@, 0) =~= Set::<Seq<char>>::empty());
        assert(found@ =~= start.union(anchored_below(code@, 0)));
        while n >= 7 && p <= n - 7
            invariant
                code@ == self.inner@,
                n == code@.len(),
                n >= 7 ==> p <= n - 7 + 1,
                found@ == start.union(anchored_below(code@, p as int)),
            decreases n - p,
        {
            proof {
                lemma_anchored_step(code@, p as int);
            }
            if code[p] == JUMPI && code[p + 1] == DUP1 && code[p + 2] == PUSH4 {
                let text = encode_hex(vstd::slice::slice_subrange(code, p + 3, p + 7));
                found.insert(text);
            }
            p += 1;
            assert(found@ =~= start.union(anchored_below(code@, p as int)));
        }
        proof {
            lemma_anchored_all(code@, p as int);
        }
    }

    /// The deep pass: adds to `found` the four bytes behind every `PUSH4`.
    pub fn collect_pushed(&self, found: &mut SelectorSet)
        ensures
            final(found)@ == old(found)@.union(pushed_literals(self.inner@)),
    {
        let code = self.inner.as_slice();
        let n = code.len();
        let ghost start = found@;
        let mut p: usize = 0;
        assert(pushed_below(code@, 0) =~= Set::<Seq<char>>::empty());
        assert(found@ =~= start.union(pushed_below(code@, 0)));
        while n >= 5 && p <= n - 5
            invariant
                code@ == self.inner@,
                n == code@.len(),
                n >= 5 ==> p <= n - 5 + 1,
                found@ == start.union(pushed_below(code@, p as int)),
            decreases n - p,
        {
            proof {
                lemma_pushed_step(code@, p as int);
            }
            if code[p] == PUSH4 {
                let text = encode_hex(vstd::slice::slice_subrange(code, p + 1, p + 5));
                found.insert(text);
            }
            p += 1;
            assert(found@ =~= start.union(pushed_below(code@, p as int)));
        }
        proof {
            lemma_pushed_all(code@, p as int);
        }
    }
}

impl core::ops::Deref for Bytecode {
    type Target = Vec<u8>;

    /// The raw bytes.
    fn deref(&self) -> (r: &Vec<u8>)
        ensures
            r == &self.inner,
    {
        &self.inner
    }
}

/// Trimming drops nothing but White_Space, and only at the two ends: what
/// is left is a part of the text in one piece, it neither starts nor ends
/// with White_Space, and all before and behind it is White_Space.
pub proof fn lemma_trimmed(text: Seq<char>)
    ensures
        exists|from: int, to: int|
            {
                &&& 0 <= from <= to <= text.len()
                &&& #[trigger] text.subrange(from, to) == trimmed(text)
                &&& forall|i: int| 0 <= i < from ==> white_space(#[trigger] text[i])
                &&& forall|i: int| to <= i < text.len() ==> white_space(#[trigger] text[i])
            },
        trimmed(text).len() > 0 ==> !white_space(trimmed(text)[0]) && !white_space(
            trimmed(text).last(),
        ),
{
    lemma_trimmed_start(text);
    let from = choose|from: int|
        {
            &&& 0 <= from <= text.len()
            &&& #[trigger] text.subrange(from, text.len() as int) == trimmed_start(text)
            &&& forall|i: int| 0 <= i < from ==> white_space(#[trigger] text[i])
        };
    let rest = trimmed_start(text);
    lemma_trimmed_end(rest);
    let kept = choose|kept: int|
        {
            &&& 0 <= kept <= rest.len()
            &&& #[trigger] rest.subrange(0, kept) == trimmed_end(rest)
            &&& forall|i: int| kept <= i < rest.len() ==> white_space(#[trigger] rest[i])
        };
    let to = from + kept;
    assert(text.subrange(from, to) =~= rest.subrange(0, kept));
    assert forall|i: int| to <= i < text.len() implies white_space(#[trigger] text[i]) by {
        assert(rest[i - from] == text[i]);
    }
}

/// What `trimmed_start` leaves is the text from some position on; all
/// before that position is White_Space, and what is left does not start with
/// White_Space.
proof fn lemma_trimmed_start(text: Seq<char>)
    ensures
        exists|from: int|
            {
                &&& 0 <= from <= text.len()
                &&& #[trigger] text.subrange(from, text.len() as int) == trimmed_start(text)
                &&& forall|i: int| 0 <= i < from ==> white_space(#[trigger] text[i])
            },
        trimmed_start(text).len() > 0 ==> !white_space(trimmed_start(text)[0]),
    decreases text.len(),
{
    if text.len() > 0 && white_space(text[0]) {
        let tail = text.skip(1);
        lemma_trimmed_start(tail);
        let from = choose|from: int|
            {
                &&& 0 <= from <= tail.len()
                &&& #[trigger] tail.subrange(from, tail.len() as int) == trimmed_start(tail)
                &&& forall|i: int| 0 <= i < from ==> white_space(#[trigger] tail[i])
            };
        assert(text.subrange(from + 1, text.len() as int) =~= tail.subrange(
            from,
            tail.len() as int,
        ));
        assert forall|i: int| 0 <= i < from + 1 implies white_space(#[trigger] text[i]) by {
            if i > 0 {
                assert(tail[i - 1] == text[i]);
            }
        }
    } else {
        assert(text.subrange(0, text.len() as int) =~= text);
    }
}

/// What `trimmed_end` leaves is the text up to some position; all from that
/// position on is White_Space, and what is left does not end with
/// White_Space and starts as the text does.
proof fn lemma_trimmed_end(text: Seq<char>)
    ensures
        exists|to: int|
            {
                &&& 0 <= to <= text.len()
                &&& #[trigger] text.subrange(0, to) == trimmed_end(text)
                &&& forall|i: int| to <= i < text.len() ==> white_space(#[trigger] text[i])
            },
        trimmed_end(text).len() > 0 ==> !white_space(trimmed_end(text).last()) && trimmed_end(
            text,
        )[0] == text[0],
    decreases text.len(),
{
    if text.len() > 0 && white_space(text.last()) {
        let head = text.drop_last();
        lemma_trimmed_end(head);
        let to = choose|to: int|
            {
                &&& 0 <= to <= head.len()
                &&& #[trigger] head.subrange(0, to) == trimmed_end(head)
                &&& forall|i: int| to <= i < head.len() ==> white_space(#[trigger] head[i])
            };
        assert(text.subrange(0, to) =~= head.subrange(0, to));
        assert forall|i: int| to <= i < text.len() implies white_space(#[trigger] text[i]) by {
            if i < head.len() {
                assert(head[i] == text[i]);
            }
        }
    } else {
        assert(text.subrange(0, text.len() as int) =~= text);
    }
}

/// A text that neither starts nor ends with White_Space is left as it is.
pub proof fn lemma_trimmed_of_clean_text(text: Seq<char>)
    requires
        text.len() > 0 ==> !white_space(text[0]) && !white_space(text.last()),
    ensures
        trimmed(text) == text,
{
}

/// The encoded text of any bytes, with the `0x` mark or without it, is a
/// bytecode text and decodes to those bytes.
pub proof fn lemma_encoded_bytes_decode(bytes: Seq<u8>)
    ensures
        is_hex_text(bytecode_digits("0x"@ + hex_encoded(bytes))),
        hex_decoded(bytecode_digits("0x"@ + hex_encoded(bytes))) == bytes,
        is_hex_text(bytecode_digits(hex_encoded(bytes))),
        hex_decoded(bytecode_digits(hex_encoded(bytes))) == bytes,
{
    reveal_strlit("0x");
    let digits = hex_encoded(bytes);
    lemma_hex_encoded_is_canonical(bytes);
    let marked = "0x"@ + digits;
    assert forall|i: int| 0 <= i < digits.len() implies '\0' <= #[trigger] digits[i]
        <= '\u{7f}' by {
        assert(is_lower_hex_char(digits[i]));
    }
    assert forall|i: int| 0 <= i < marked.len() implies '\0' <= #[trigger] marked[i]
        <= '\u{7f}' by {
        if i >= 2 {
            assert(marked[i] == digits[i - 2]);
        }
    }
    vstd::utf8::is_ascii_chars_encode_utf8(digits);
    vstd::utf8::is_ascii_chars_encode_utf8(marked);
    let plain = encode_utf8(digits);
    let raw = encode_utf8(marked);
    assert forall|i: int| 0 <= i < plain.len() implies #[trigger] plain[i] == digits[i] as u8 by {
        assert(digits[i] as u8 == plain[i]);
    }
    assert forall|i: int| 0 <= i < plain.len() implies raw[i + 2] == #[trigger] plain[i] by {
        assert(marked[i + 2] as u8 == raw[i + 2]);
        assert(marked[i + 2] == digits[i]);
    }
    assert(marked[0] as u8 == raw[0] && marked[1] as u8 == raw[1]);
    assert(without_hex_prefix(raw) =~= plain);
    lemma_encoded_digits_decode(bytes, plain);
    // An encoding starts with a digit, not with a mark.
    if plain.len() >= 2 {
        assert(is_lower_hex_char(digits[1]));
        assert(plain[1] == digits[1] as u8);
        assert(plain[1] != 0x78);
    }
    assert(without_hex_prefix(plain) =~= plain);
}

/// The bytes of an encoded text are digits that decode to what was encoded.
proof fn lemma_encoded_digits_decode(bytes: Seq<u8>, plain: Seq<u8>)
    requires
        plain.len() == 2 * bytes.len(),
        forall|i: int| 0 <= i < plain.len() ==> #[trigger] plain[i] == hex_encoded(bytes)[i] as u8,
    ensures
        is_hex_text(plain),
        hex_decoded(plain) == bytes,
{
    assert forall|i: int| 0 <= i < plain.len() implies {
        &&& (#[trigger] hex_digit_value(plain[i])) is Some
        &&& i % 2 == 0 ==> hex_digit_value(plain[i]).unwrap() == bytes[i / 2] / 16
        &&& i % 2 == 1 ==> hex_digit_value(plain[i]).unwrap() == bytes[i / 2] % 16
    } by {
        let byte = bytes[i / 2];
        let nibble: u8 = if i % 2 == 0 {
            byte / 16
        } else {
            byte % 16
        };
        assert(nibble < 16);
        assert(hex_encoded(bytes)[i] == hex_digit_char(nibble));
        assert(plain[i] == hex_digit_char(nibble) as u8);
    }
    assert forall|k: int| 0 <= k < bytes.len() implies #[trigger] hex_decoded(plain)[k]
        == bytes[k] by {
        let high = hex_digit_value(plain[2 * k]);
        let low = hex_digit_value(plain[2 * k + 1]);
        assert(high is Some && high.unwrap() == bytes[(2 * k) / 2] / 16);
        assert(low is Some && low.unwrap() == bytes[(2 * k + 1) / 2] % 16);
        assert((2 * k) / 2 == k && (2 * k + 1) / 2 == k);
        assert(bytes[k] / 16 * 16 + bytes[k] % 16 == bytes[k]);
    }
    assert(hex_decoded(plain) =~= bytes);
}

/// Every anchor that fits inside the code yields its selector, deep scan or
/// not.
pub proof fn lemma_anchor_is_found(code: Seq<u8>, p: int, deep: bool)
    requires
        anchor_at(code, p),
    ensures
        scan(code, deep).contains(selector_at(code, p + 3)),
{
}

/// Code shorter than an anchor with its selector yields nothing, unless a
/// deep scan meets a `PUSH4` with four bytes behind it.
pub proof fn lemma_short_code_yields_nothing(code: Seq<u8>, deep: bool)
    requires
        code.len() < 7,
        deep ==> forall|p: int| !push4_at(code, p),
    ensures
        scan(code, deep) == Set::<Seq<char>>::empty(),
{
    assert forall|s: Seq<char>| !anchored_selectors(code).contains(s) by {
        assert(forall|p: int| !anchor_at(code, p));
    }
    assert(scan(code, deep) =~= Set::<Seq<char>>::empty());
}

/// Two scans of the same bytes with the same depth find the same set.
pub proof fn lemma_scan_is_repeatable(
    code: Bytecode,
    again: Bytecode,
    deep: bool,
    first: SelectorSet,
    second: SelectorSet,
)
    requires
        code.inner@ == again.inner@,
        call_ensures(Bytecode::find_function_selectors, (&code, deep), first),
        call_ensures(Bytecode::find_function_selectors, (&again, deep), second),
    ensures
        first@ == second@,
{
}

/// Whatever a scan finds is a selector in canonical form: eight lower-case
/// hexadecimal digits.
pub proof fn lemma_found_selectors_are_canonical(code: Seq<u8>, deep: bool, selector: Seq<char>)
    requires
        scan(code, deep).contains(selector),
    ensures
        selector.len() == 8,
        forall|i: int| 0 <= i < 8 ==> is_lower_hex_char(#[trigger] selector[i]),
{
    if anchored_selectors(code).contains(selector) {
        let p = choose|p: int| #[trigger] anchor_at(code, p) && selector == selector_at(code, p + 3);
        lemma_hex_encoded_is_canonical(code.subrange(p + 3, p + 7));
    } else {
        let p = choose|p: int| #[trigger] push4_at(code, p) && selector == selector_at(code, p + 1);
        lemma_hex_encoded_is_canonical(code.subrange(p + 1, p + 5));
    }
}

/// Anchors whose windows overlap are matched each on its own: both
/// selectors are found.
pub proof fn lemma_overlapping_anchors_both_found(code: Seq<u8>, p: int, q: int, deep: bool)
    requires
        anchor_at(code, p),
        anchor_at(code, q),
        p < q < p + 7,
    ensures
        scan(code, deep).contains(selector_at(code, p + 3)),
        scan(code, deep).contains(selector_at(code, q + 3)),
{
}

/// A deep scan finds all that a plain scan finds.
pub proof fn lemma_deep_scan_is_superset(code: Seq<u8>)
    ensures
        scan(code, false).subset_of(scan(code, true)),
{
}

/// Every anchored selector is also a pushed literal, so a deep scan finds
/// exactly the pushed literals.
pub proof fn lemma_deep_scan_is_pushed_literals(code: Seq<u8>)
    ensures
        anchored_selectors(code).subset_of(pushed_literals(code)),
        scan(code, true) == pushed_literals(code),
{
    assert forall|s: Seq<char>| anchored_selectors(code).contains(s) implies pushed_literals(
        code,
    ).contains(s) by {
        let p = choose|p: int| #[trigger] anchor_at(code, p) && s == selector_at(code, p + 3);
        assert(push4_at(code, p + 2));
    }
    assert(scan(code, true) =~= pushed_literals(code));
}

} // verus!
