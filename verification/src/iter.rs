//! Walking the values of a hash set.
use vstd::prelude::*;

verus! {

/// Reversing a sequence keeps its values and their distinctness.
pub(crate) proof fn lemma_reverse_keeps<A>(s: Seq<A>)
    ensures
        s.reverse().to_set() == s.to_set(),
        s.reverse().len() == s.len(),
        s.no_duplicates() ==> s.reverse().no_duplicates(),
{
    let r = s.reverse();
    assert forall|x: A| #[trigger] r.to_set().contains(x) implies s.to_set().contains(x) by {
        let i = choose|i: int| 0 <= i < r.len() && #[trigger] r[i] == x;
        assert(s[s.len() - 1 - i] == x);
    }
    assert forall|x: A| #[trigger] s.to_set().contains(x) implies r.to_set().contains(x) by {
        let i = choose|i: int| 0 <= i < s.len() && #[trigger] s[i] == x;
        assert(r[s.len() - 1 - i] == x);
    }
    assert(r.to_set() =~= s.to_set());
    if s.no_duplicates() {
        assert forall|i: int, j: int| 0 <= i < r.len() && 0 <= j < r.len() && i != j
            implies #[trigger] r[i] != #[trigger] r[j] by {
            assert(r[i] == s[s.len() - 1 - i]);
            assert(r[j] == s[s.len() - 1 - j]);
        }
    }
}

/// An iterator over the values of a set, by reference.
///
/// Its view is the sequence of values still to come, in the order `next`
/// hands them out.
pub struct Iter<'a, A> {
    rest: Vec<&'a A>,
}

impl<'a, A> View for Iter<'a, A> {
    type V = Seq<A>;

    closed spec fn view(&self) -> Seq<A> {
        self.rest@.unref().reverse()
    }
}

impl<'a, A> Iter<'a, A> {
    /// An iterator that hands out the given values, last first.
    pub(crate) fn from_items(items: Vec<&'a A>) -> (it: Self)
        ensures
            it@ == items@.unref().reverse(),
            it@.to_set() == items@.unref().to_set(),
            it@.len() == items@.len(),
            items@.unref().no_duplicates() ==> it@.no_duplicates(),
    {
        proof {
            lemma_reverse_keeps(items@.unref());
        }
        Iter { rest: items }
    }

    /// Hand out the next value, if any is left.
    pub fn next(&mut self) -> (item: Option<&'a A>)
        ensures
            old(self)@.len() > 0 ==> {
                &&& item matches Some(v) && *v == old(self)@[0]
                &&& final(self)@ == old(self)@.drop_first()
            },
            old(self)@.len() == 0 ==> item is None && final(self)@ == old(self)@,
    {
        let ghost before = self.rest@;
        let item = self.rest.pop();
        proof {
            if before.len() > 0 {
                assert(self.rest@.unref().reverse() =~= before.unref().reverse().drop_first());
            }
        }
        item
    }
}

/// An iterator that hands out the values of a set it has taken over.
///
/// Its view is the sequence of values still to come, in the order `next`
/// hands them out.
pub struct ConsumingIter<A> {
    rest: Vec<A>,
}

impl<A> View for ConsumingIter<A> {
    type V = Seq<A>;

    closed spec fn view(&self) -> Seq<A> {
        self.rest@.reverse()
    }
}

impl<A> ConsumingIter<A> {
    /// An iterator that hands out the given values, last first.
    pub(crate) fn from_values(values: Vec<A>) -> (it: Self)
        ensures
            it@.to_set() == values@.to_set(),
            it@.len() == values@.len(),
            values@.no_duplicates() ==> it@.no_duplicates(),
    {
        proof {
            lemma_reverse_keeps(values@);
        }
        ConsumingIter { rest: values }
    }

    /// Hand out the next value, if any is left.
    pub fn next(&mut self) -> (item: Option<A>)
        ensures
            old(self)@.len() > 0 ==> {
                &&& item == Some(old(self)@[0])
                &&& final(self)@ == old(self)@.drop_first()
            },
            old(self)@.len() == 0 ==> item is None && final(self)@ == old(self)@,
    {
        let ghost before = self.rest@;
        let item = self.rest.pop();
        proof {
            if before.len() > 0 {
                assert(self.rest@.reverse() =~= before.reverse().drop_first());
            }
        }
        item
    }
}

} // verus!
