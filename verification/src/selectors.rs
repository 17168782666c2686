//! The set of selectors that a scan finds.

use vstd::prelude::*;

verus! {

/// A set of selectors, each in its canonical text form.
///
/// The set keeps its members in the order in which they were first
/// inserted, and never holds the same text twice.
#[derive(Debug)]
pub struct SelectorSet {
    items: Vec<String>,
}

/// The texts of `items`, in order.
pub open spec fn texts_of(items: Seq<String>) -> Seq<Seq<char>> {
    Seq::new(items.len(), |i: int| items[i]@)
}

/// `text` between double quotes.
pub open spec fn quoted(text: Seq<char>) -> Seq<char> {
    "\""@ + text + "\""@
}

/// The texts, each between double quotes, with a comma and a space between
/// one and the next.
pub open spec fn listed(texts: Seq<Seq<char>>) -> Seq<char>
    decreases texts.len(),
{
    if texts.len() == 0 {
        Seq::empty()
    } else if texts.len() == 1 {
        quoted(texts[0])
    } else {
        listed(texts.drop_last()) + ", "@ + quoted(texts.last())
    }
}

/// The line that shows a set with the given members: the list of the
/// members between braces.
pub open spec fn selectors_line(texts: Seq<Seq<char>>) -> Seq<char> {
    "{"@ + listed(texts) + "}"@
}

impl View for SelectorSet {
    type V = Set<Seq<char>>;

    closed spec fn view(&self) -> Set<Seq<char>> {
        texts_of(self.items@).to_set()
    }
}

impl SelectorSet {
    #[verifier::type_invariant]
    spec fn distinct(self) -> bool {
        texts_of(self.items@).no_duplicates()
    }

    /// The members in insertion order.
    pub closed spec fn ordered(&self) -> Seq<Seq<char>> {
        texts_of(self.items@)
    }

    /// The set is finite, and is what its ordered members hold.
    pub proof fn lemma_view(&self)
        ensures
            self@.finite(),
            self@ == self.ordered().to_set(),
            self@.len() <= self.ordered().len(),
    {
        vstd::seq_lib::seq_to_set_is_finite(texts_of(self.items@));
        texts_of(self.items@).lemma_cardinality_of_set();
    }

    /// The empty set.
    pub fn new() -> (r: Self)
        ensures
            r@ == Set::<Seq<char>>::empty(),
            r.ordered() == Seq::<Seq<char>>::empty(),
    {
        let r = SelectorSet { items: Vec::new() };
        assert(texts_of(r.items@) =~= Seq::<Seq<char>>::empty());
        assert(r@ =~= Set::<Seq<char>>::empty());
        r
    }

    /// The number of members.
    pub fn len(&self) -> (n: usize)
        ensures
            n == self@.len(),
            n == self.ordered().len(),
    {
        proof {
            use_type_invariant(self);
            texts_of(self.items@).unique_seq_to_set();
        }
        self.items.len()
    }

    /// Whether the set has no member.
    pub fn is_empty(&self) -> (b: bool)
        ensures
            b <==> self@ == Set::<Seq<char>>::empty(),
    {
        proof {
            use_type_invariant(self);
            texts_of(self.items@).unique_seq_to_set();
            self.lemma_view();
            if self@.len() == 0 {
                self@.lemma_len0_is_empty();
            }
        }
        self.items.len() == 0
    }

    /// Whether `selector` is a member.
    pub fn contains(&self, selector: &str) -> (b: bool)
        ensures
            b <==> self@.contains(selector@),
    {
        let wanted = String::from_str(selector);
        let mut i: usize = 0;
        while i < self.items.len()
            invariant
                i <= self.items@.len(),
                wanted@ == selector@,
                forall|k: int| 0 <= k < i ==> self.items@[k]@ != selector@,
            decreases self.items@.len() - i,
        {
            if self.items[i] == wanted {
                assert(texts_of(self.items@)[i as int] == selector@);
                return true;
            }
            i += 1;
        }
        assert(!texts_of(self.items@).contains(selector@));
        false
    }

    /// Makes `selector` a member. Returns whether it was new.
    pub fn insert(&mut self, selector: String) -> (fresh: bool)
        ensures
            final(self)@ == old(self)@.insert(selector@),
            fresh <==> !old(self)@.contains(selector@),
            final(self).ordered() == if fresh {
                old(self).ordered().push(selector@)
            } else {
                old(self).ordered()
            },
    {
        if self.contains(selector.as_str()) {
            assert(self@.insert(selector@) =~= self@);
            false
        } else {
            proof {
                use_type_invariant(&*self);
                texts_of(self.items@).lemma_push_to_set_commute(selector@);
            }
            // The vector leaves the set while it grows: the set itself is
            // only ever assigned a vector without repeats.
            let ghost before = self.items@;
            let mut items: Vec<String> = Vec::new();
            assert(texts_of(items@) =~= Seq::<Seq<char>>::empty());
            core::mem::swap(&mut self.items, &mut items);
            items.push(selector);
            assert(texts_of(items@) =~= texts_of(before).push(selector@));
            core::mem::swap(&mut self.items, &mut items);
            true
        }
    }

    /// The line that shows the set: its members in insertion order, each
    /// between double quotes, the whole between braces.
    pub fn to_string(&self) -> (line: String)
        ensures
            line@ == selectors_line(self.ordered()),
    {
        let mut line = String::from_str("{");
        let mut i: usize = 0;
        assert(texts_of(self.items@).take(0) =~= Seq::<Seq<char>>::empty());
        assert(line@ =~= "{"@ + listed(texts_of(self.items@).take(0)));
        while i < self.items.len()
            invariant
                i <= self.items@.len(),
                line@ == "{"@ + listed(texts_of(self.items@).take(i as int)),
            decreases self.items@.len() - i,
        {
            let ghost shown = texts_of(self.items@).take(i as int);
            let ghost next = texts_of(self.items@).take(i + 1);
            assert(next.drop_last() =~= shown);
            assert(next.last() == self.items@[i as int]@);
            if i > 0 {
                line.append(", ");
            }
            line.append("\"");
            line.append(self.items[i].as_str());
            line.append("\"");
            assert(line@ =~= "{"@ + listed(next));
            i += 1;
        }
        assert(texts_of(self.items@).take(i as int) =~= texts_of(self.items@));
        line.append("}");
        line
    }

    /// The members, in insertion order.
    pub fn to_vec(&self) -> (r: Vec<String>)
        ensures
            texts_of(r@) == self.ordered(),
            texts_of(r@).no_duplicates(),
            texts_of(r@).to_set() == self@,
    {
        proof {
            use_type_invariant(self);
        }
        let mut r: Vec<String> = Vec::new();
        let mut i: usize = 0;
        while i < self.items.len()
            invariant
                i <= self.items@.len(),
                r@.len() == i,
                forall|k: int| 0 <= k < i ==> r@[k]@ == self.items@[k]@,
            decreases self.items@.len() - i,
        {
            r.push(self.items[i].clone());
            i += 1;
        }
        assert(texts_of(r@) =~= texts_of(self.items@));
        r
    }
}

} // verus!
