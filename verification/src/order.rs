//! Ordering of hash sets: equal sets compare equal, and other sets compare
//! as the sequences of values that their iterators hand out,
//! lexicographically.
use vstd::prelude::*;
use vstd::std_specs::cmp::OrdSpec;
use vstd::std_specs::cmp::PartialOrdSpec;
use vstd::std_specs::cmp::PartialOrdSpecImpl;
use core::cmp::Ordering;
use crate::hashset::HashSet;
use crate::hashset::obeys_set_model;
use crate::iter::Iter;
use vstd::laws_cmp::obeys_cmp;
use vstd::laws_cmp::obeys_cmp_ord;
use vstd::laws_cmp::obeys_cmp_partial_ord;
use vstd::laws_cmp::obeys_partial_cmp_spec_properties;
use vstd::laws_eq::obeys_concrete_eq;
use vstd::laws_eq::obeys_eq_spec_properties;

verus! {

/// Lexicographic comparison of two sequences under a partial order on
/// their values: the first pair that does not compare equal decides, and
/// otherwise the shorter sequence comes first.
pub open spec fn lex_partial_order<A: PartialOrd>(a: Seq<A>, b: Seq<A>) -> Option<Ordering>
    decreases a.len(),
{
    if a.len() == 0 {
        if b.len() == 0 {
            Some(Ordering::Equal)
        } else {
            Some(Ordering::Less)
        }
    } else if b.len() == 0 {
        Some(Ordering::Greater)
    } else {
        match a[0].partial_cmp_spec(&b[0]) {
            Some(Ordering::Equal) => lex_partial_order(a.drop_first(), b.drop_first()),
            decided => decided,
        }
    }
}

/// Lexicographic comparison of two sequences under a total order on their
/// values.
pub open spec fn lex_total_order<A: Ord>(a: Seq<A>, b: Seq<A>) -> Ordering
    decreases a.len(),
{
    if a.len() == 0 {
        if b.len() == 0 {
            Ordering::Equal
        } else {
            Ordering::Less
        }
    } else if b.len() == 0 {
        Ordering::Greater
    } else {
        match a[0].cmp_spec(&b[0]) {
            Ordering::Equal => lex_total_order(a.drop_first(), b.drop_first()),
            decided => decided,
        }
    }
}

/// Compares what two iterators hand out, under a partial order.
#[verifier::loop_isolation(false)]
fn compare_partially<'a, A: PartialOrd>(x: Iter<'a, A>, y: Iter<'a, A>) -> (r: Option<Ordering>)
    ensures
        A::obeys_partial_cmp_spec() ==> r == lex_partial_order(x@, y@),
{
    let ghost x0 = x@;
    let ghost y0 = y@;
    let mut x = x;
    let mut y = y;
    loop
        invariant
            A::obeys_partial_cmp_spec() ==> lex_partial_order(x@, y@) == lex_partial_order(x0, y0),
        decreases x@.len(),
    {
        let ghost xs = x@;
        let ghost ys = y@;
        let a = x.next();
        let b = y.next();
        match a {
            None => {
                match b {
                    None => {
                        return Some(Ordering::Equal);
                    },
                    Some(_) => {
                        return Some(Ordering::Less);
                    },
                }
            },
            Some(av) => {
                match b {
                    None => {
                        return Some(Ordering::Greater);
                    },
                    Some(bv) => {
                        let c = av.partial_cmp(bv);
                        match c {
                            Some(Ordering::Equal) => {
                                assert(x@ == xs.drop_first() && y@ == ys.drop_first());
                            },
                            _ => {
                                return c;
                            },
                        }
                    },
                }
            },
        }
    }
}

/// Compares what two iterators hand out, under a total order.
#[verifier::loop_isolation(false)]
fn compare_totally<'a, A: Ord>(x: Iter<'a, A>, y: Iter<'a, A>) -> (r: Ordering)
    ensures
        A::obeys_cmp_spec() ==> r == lex_total_order(x@, y@),
{
    let ghost x0 = x@;
    let ghost y0 = y@;
    let mut x = x;
    let mut y = y;
    loop
        invariant
            A::obeys_cmp_spec() ==> lex_total_order(x@, y@) == lex_total_order(x0, y0),
        decreases x@.len(),
    {
        let ghost xs = x@;
        let ghost ys = y@;
        let a = x.next();
        let b = y.next();
        match a {
            None => {
                match b {
                    None => {
                        return Ordering::Equal;
                    },
                    Some(_) => {
                        return Ordering::Less;
                    },
                }
            },
            Some(av) => {
                match b {
                    None => {
                        return Ordering::Greater;
                    },
                    Some(bv) => {
                        let c = av.cmp(bv);
                        match c {
                            Ordering::Equal => {
                                assert(x@ == xs.drop_first() && y@ == ys.drop_first());
                            },
                            _ => {
                                return c;
                            },
                        }
                    },
                }
            },
        }
    }
}

/// The order of two sets under a partial order on their values: equal sets
/// are equal, and other sets compare as the sequences their iterators hand
/// out.
pub open spec fn set_partial_order<A: PartialOrd, S>(a: &HashSet<A, S>, b: &HashSet<A, S>) -> Option<Ordering> {
    if a@ == b@ {
        Some(Ordering::Equal)
    } else {
        lex_partial_order(a.iteration_order(), b.iteration_order())
    }
}

/// The order of two sets under a total order on their values: equal sets
/// are equal, and other sets compare as the sequences their iterators hand
/// out.
pub open spec fn set_total_order<A: Ord, S>(a: &HashSet<A, S>, b: &HashSet<A, S>) -> Ordering {
    if a@ == b@ {
        Ordering::Equal
    } else {
        lex_total_order(a.iteration_order(), b.iteration_order())
    }
}

/// The opposite answer to a comparison.
pub open spec fn flipped(o: Ordering) -> Ordering {
    match o {
        Ordering::Less => Ordering::Greater,
        Ordering::Equal => Ordering::Equal,
        Ordering::Greater => Ordering::Less,
    }
}

/// Under a lawful total order, comparing the other way round gives the
/// opposite answer.
pub proof fn lemma_lex_total_flips<A: Ord>(x: Seq<A>, y: Seq<A>)
    requires
        obeys_cmp::<A>(),
    ensures
        lex_total_order(y, x) == flipped(lex_total_order(x, y)),
    decreases x.len(),
{
    if x.len() > 0 && y.len() > 0 {
        reveal(obeys_cmp_ord);
        reveal(obeys_partial_cmp_spec_properties);
        reveal(obeys_cmp_partial_ord);
        reveal(obeys_eq_spec_properties);
        let p = x[0].partial_cmp_spec(&y[0]);
        let q = y[0].partial_cmp_spec(&x[0]);
        assert(p == Some(x[0].cmp_spec(&y[0])));
        assert(q == Some(y[0].cmp_spec(&x[0])));
        lemma_lex_total_flips(x.drop_first(), y.drop_first());
    }
}

/// Under a lawful total order whose equality is identity, sequences that
/// compare equal are the same sequence.
pub proof fn lemma_lex_total_equal<A: Ord>(x: Seq<A>, y: Seq<A>)
    requires
        obeys_cmp::<A>(),
        obeys_concrete_eq::<A>(),
        lex_total_order(x, y) == Ordering::Equal,
    ensures
        x == y,
    decreases x.len(),
{
    if x.len() > 0 && y.len() > 0 {
        reveal(obeys_cmp_ord);
        reveal(obeys_cmp_partial_ord);
        reveal(obeys_concrete_eq);
        assert(x[0].partial_cmp_spec(&y[0]) == Some(x[0].cmp_spec(&y[0])));
        assert(x[0] == y[0]);
        lemma_lex_total_equal(x.drop_first(), y.drop_first());
        assert(x =~= seq![x[0]] + x.drop_first());
        assert(y =~= seq![y[0]] + y.drop_first());
    }
}

/// Under a lawful total order, the partial comparison of two sequences is
/// their total comparison.
pub proof fn lemma_lex_partial_is_total<A: Ord>(x: Seq<A>, y: Seq<A>)
    requires
        obeys_cmp::<A>(),
    ensures
        lex_partial_order(x, y) == Some(lex_total_order(x, y)),
    decreases x.len(),
{
    if x.len() > 0 && y.len() > 0 {
        reveal(obeys_cmp_ord);
        assert(x[0].partial_cmp_spec(&y[0]) == Some(x[0].cmp_spec(&y[0])));
        lemma_lex_partial_is_total(x.drop_first(), y.drop_first());
    }
}

/// Comparing two sets the other way round gives the opposite answer.
pub proof fn law_order_flips<A: Ord, S>(a: &HashSet<A, S>, b: &HashSet<A, S>)
    requires
        obeys_cmp::<A>(),
    ensures
        set_total_order(b, a) == flipped(set_total_order(a, b)),
{
    if a@ != b@ {
        lemma_lex_total_flips(a.iteration_order(), b.iteration_order());
    }
}

/// Under a lawful total order on the values, the partial comparison of two
/// sets is their total comparison.
pub proof fn law_partial_order_agrees<A: Ord, S>(a: &HashSet<A, S>, b: &HashSet<A, S>)
    requires
        obeys_cmp::<A>(),
    ensures
        set_partial_order(a, b) == Some(set_total_order(a, b)),
{
    if a@ != b@ {
        lemma_lex_partial_is_total(a.iteration_order(), b.iteration_order());
    }
}

/// Under a lawful partial order no value lies below itself, so a nonempty set
/// whose values all lie below another set's values is not that set.
proof fn lemma_partial_below_means_unequal<A: PartialOrd>(s: Set<A>, t: Set<A>)
    requires
        obeys_partial_cmp_spec_properties::<A>(),
        s != Set::<A>::empty(),
        forall|v: A, w: A| #[trigger] s.contains(v) && #[trigger] t.contains(w)
            ==> v.partial_cmp_spec(&w) == Some(Ordering::Less),
    ensures
        s != t,
{
    if s == t {
        assert(exists|v: A| s.contains(v)) by {
            if !(exists|v: A| s.contains(v)) {
                assert(s =~= Set::<A>::empty());
            }
        }
        let v = choose|v: A| s.contains(v);
        assert(v.partial_cmp_spec(&v) == Some(Ordering::Less));
        reveal(obeys_partial_cmp_spec_properties);
        assert(v.partial_cmp_spec(&v) == Some(Ordering::Greater));
    }
}

/// Under a lawful total order no value lies below itself, so a nonempty set
/// whose values all lie below another set's values is not that set.
proof fn lemma_total_below_means_unequal<A: Ord>(s: Set<A>, t: Set<A>)
    requires
        obeys_cmp::<A>(),
        s != Set::<A>::empty(),
        forall|v: A, w: A| #[trigger] s.contains(v) && #[trigger] t.contains(w)
            ==> v.cmp_spec(&w) == Ordering::Less,
    ensures
        s != t,
{
    reveal(obeys_cmp_ord);
    assert forall|v: A, w: A| #[trigger] s.contains(v) && #[trigger] t.contains(w)
        implies v.partial_cmp_spec(&w) == Some(Ordering::Less) by {
        assert(v.partial_cmp_spec(&w) == Some(v.cmp_spec(&w)));
    }
    lemma_partial_below_means_unequal(s, t);
}

/// A sequence holding the values of a nonempty set has a first value, and
/// that value is in the set.
proof fn lemma_nonempty_has_first<A>(x: Seq<A>, s: Set<A>)
    requires
        x.to_set() == s,
        s != Set::<A>::empty(),
    ensures
        x.len() > 0,
        s.contains(x[0]),
{
    if x.len() == 0 {
        assert(x.to_set() =~= Set::<A>::empty());
    }
    assert(x.to_set().contains(x[0]));
}

/// Under a total order, the first position where two sequences differ
/// decides their comparison.
proof fn lemma_lex_total_first_difference<A: Ord>(x: Seq<A>, y: Seq<A>, k: int)
    requires
        0 <= k < x.len(),
        k < y.len(),
        forall|i: int| 0 <= i < k ==> #[trigger] x[i].cmp_spec(&y[i]) == Ordering::Equal,
        x[k].cmp_spec(&y[k]) != Ordering::Equal,
    ensures
        lex_total_order(x, y) == x[k].cmp_spec(&y[k]),
    decreases k,
{
    if k > 0 {
        assert(x[0].cmp_spec(&y[0]) == Ordering::Equal);
        assert forall|i: int| 0 <= i < k - 1 implies #[trigger] x.drop_first()[i].cmp_spec(&y.drop_first()[i]) == Ordering::Equal by {
            assert(x[i + 1].cmp_spec(&y[i + 1]) == Ordering::Equal);
        }
        lemma_lex_total_first_difference(x.drop_first(), y.drop_first(), k - 1);
    }
}

/// Under a total order, a sequence that matches the start of a longer one
/// comes first.
proof fn lemma_lex_total_prefix<A: Ord>(x: Seq<A>, y: Seq<A>)
    requires
        x.len() < y.len(),
        forall|i: int| 0 <= i < x.len() ==> #[trigger] x[i].cmp_spec(&y[i]) == Ordering::Equal,
    ensures
        lex_total_order(x, y) == Ordering::Less,
    decreases x.len(),
{
    if x.len() > 0 {
        assert(x[0].cmp_spec(&y[0]) == Ordering::Equal);
        assert forall|i: int| 0 <= i < x.len() - 1 implies #[trigger] x.drop_first()[i].cmp_spec(&y.drop_first()[i]) == Ordering::Equal by {
            assert(x[i + 1].cmp_spec(&y[i + 1]) == Ordering::Equal);
        }
        lemma_lex_total_prefix(x.drop_first(), y.drop_first());
    }
}

/// Under a partial order, the first position where two sequences do not
/// compare equal decides their comparison.
proof fn lemma_lex_partial_first_difference<A: PartialOrd>(x: Seq<A>, y: Seq<A>, k: int)
    requires
        0 <= k < x.len(),
        k < y.len(),
        forall|i: int| 0 <= i < k ==> #[trigger] x[i].partial_cmp_spec(&y[i]) == Some(Ordering::Equal),
        x[k].partial_cmp_spec(&y[k]) != Some(Ordering::Equal),
    ensures
        lex_partial_order(x, y) == x[k].partial_cmp_spec(&y[k]),
    decreases k,
{
    if k > 0 {
        assert(x[0].partial_cmp_spec(&y[0]) == Some(Ordering::Equal));
        assert forall|i: int| 0 <= i < k - 1 implies #[trigger] x.drop_first()[i].partial_cmp_spec(&y.drop_first()[i]) == Some(Ordering::Equal) by {
            assert(x[i + 1].partial_cmp_spec(&y[i + 1]) == Some(Ordering::Equal));
        }
        lemma_lex_partial_first_difference(x.drop_first(), y.drop_first(), k - 1);
    }
}

/// Under a partial order, a sequence that matches the start of a longer one
/// comes first.
proof fn lemma_lex_partial_prefix<A: PartialOrd>(x: Seq<A>, y: Seq<A>)
    requires
        x.len() < y.len(),
        forall|i: int| 0 <= i < x.len() ==> #[trigger] x[i].partial_cmp_spec(&y[i]) == Some(Ordering::Equal),
    ensures
        lex_partial_order(x, y) == Some(Ordering::Less),
    decreases x.len(),
{
    if x.len() > 0 {
        assert(x[0].partial_cmp_spec(&y[0]) == Some(Ordering::Equal));
        assert forall|i: int| 0 <= i < x.len() - 1 implies #[trigger] x.drop_first()[i].partial_cmp_spec(&y.drop_first()[i]) == Some(Ordering::Equal) by {
            assert(x[i + 1].partial_cmp_spec(&y[i + 1]) == Some(Ordering::Equal));
        }
        lemma_lex_partial_prefix(x.drop_first(), y.drop_first());
    }
}

/// Two unequal sets compare by the first position where their iteration
/// sequences differ, whatever their sizes: the set whose value there is
/// smaller comes first.
pub proof fn law_order_first_difference<A: Ord, S>(a: &HashSet<A, S>, b: &HashSet<A, S>, k: int)
    requires
        a@ != b@,
        0 <= k < a.iteration_order().len(),
        k < b.iteration_order().len(),
        forall|i: int| 0 <= i < k ==> #[trigger] a.iteration_order()[i].cmp_spec(&b.iteration_order()[i]) == Ordering::Equal,
    ensures
        a.iteration_order()[k].cmp_spec(&b.iteration_order()[k]) == Ordering::Less ==> set_total_order(a, b) == Ordering::Less,
        a.iteration_order()[k].cmp_spec(&b.iteration_order()[k]) == Ordering::Greater ==> set_total_order(a, b) == Ordering::Greater,
{
    if a.iteration_order()[k].cmp_spec(&b.iteration_order()[k]) != Ordering::Equal {
        lemma_lex_total_first_difference(a.iteration_order(), b.iteration_order(), k);
    }
}

/// Of two unequal sets, one whose iteration sequence matches the start of
/// the other's comes first.
pub proof fn law_order_prefix<A: Ord, S>(a: &HashSet<A, S>, b: &HashSet<A, S>)
    requires
        a@ != b@,
        a.iteration_order().len() < b.iteration_order().len(),
        forall|i: int| 0 <= i < a.iteration_order().len() ==> #[trigger] a.iteration_order()[i].cmp_spec(&b.iteration_order()[i]) == Ordering::Equal,
    ensures
        set_total_order(a, b) == Ordering::Less,
{
    lemma_lex_total_prefix(a.iteration_order(), b.iteration_order());
}

/// Of two unequal sets under a partial order, one whose iteration sequence
/// matches the start of the other's comes first.
pub proof fn law_partial_order_prefix<A: PartialOrd, S>(a: &HashSet<A, S>, b: &HashSet<A, S>)
    requires
        a@ != b@,
        a.iteration_order().len() < b.iteration_order().len(),
        forall|i: int| 0 <= i < a.iteration_order().len() ==> #[trigger] a.iteration_order()[i].partial_cmp_spec(&b.iteration_order()[i]) == Some(Ordering::Equal),
    ensures
        set_partial_order(a, b) == Some(Ordering::Less),
{
    lemma_lex_partial_prefix(a.iteration_order(), b.iteration_order());
}

/// Of two unequal sets under a partial order, the first position where
/// their iteration sequences do not compare equal decides, whatever their
/// sizes.
pub proof fn law_partial_order_first_difference<A: PartialOrd, S>(a: &HashSet<A, S>, b: &HashSet<A, S>, k: int)
    requires
        a@ != b@,
        0 <= k < a.iteration_order().len(),
        k < b.iteration_order().len(),
        forall|i: int| 0 <= i < k ==> #[trigger] a.iteration_order()[i].partial_cmp_spec(&b.iteration_order()[i]) == Some(Ordering::Equal),
        a.iteration_order()[k].partial_cmp_spec(&b.iteration_order()[k]) != Some(Ordering::Equal),
    ensures
        set_partial_order(a, b) == a.iteration_order()[k].partial_cmp_spec(&b.iteration_order()[k]),
{
    lemma_lex_partial_first_difference(a.iteration_order(), b.iteration_order(), k);
}

/// Of two unequal sets, each handing out at least one value, the one whose
/// values all lie below all the other's values comes first.
pub proof fn law_order_all_below<A: Ord, S>(a: &HashSet<A, S>, b: &HashSet<A, S>)
    requires
        a@ != b@,
        a.iteration_order().len() > 0,
        b.iteration_order().len() > 0,
        forall|i: int, j: int| 0 <= i < a.iteration_order().len() && 0 <= j < b.iteration_order().len()
            ==> #[trigger] a.iteration_order()[i].cmp_spec(&b.iteration_order()[j]) == Ordering::Less,
    ensures
        set_total_order(a, b) == Ordering::Less,
        obeys_cmp::<A>() ==> set_total_order(b, a) == Ordering::Greater,
{
    assert(a.iteration_order()[0].cmp_spec(&b.iteration_order()[0]) == Ordering::Less);
    lemma_lex_total_first_difference(a.iteration_order(), b.iteration_order(), 0);
    if obeys_cmp::<A>() {
        law_order_flips(a, b);
    }
}

impl<A: std::hash::Hash + Eq + Clone + PartialOrd, S: std::hash::BuildHasher> PartialOrd for HashSet<A, S> {
    fn partial_cmp(&self, other: &Self) -> (r: Option<Ordering>)
        ensures
            obeys_set_model::<A, S>() && A::obeys_partial_cmp_spec() ==> {
                &&& (self@ == other@ ==> r == Some(Ordering::Equal))
                &&& (obeys_partial_cmp_spec_properties::<A>() && self@ != Set::<A>::empty()
                    && other@ != Set::<A>::empty()
                    && (forall|v: A, w: A| #[trigger] self@.contains(v) && #[trigger] other@.contains(w)
                        ==> v.partial_cmp_spec(&w) == Some(Ordering::Less))
                    ==> r == Some(Ordering::Less))
            },
    {
        let x = self.iter();
        let y = other.iter();
        if self.test_eq(other) {
            proof {
                if obeys_set_model::<A, S>() && obeys_partial_cmp_spec_properties::<A>()
                    && self@ != Set::<A>::empty()
                    && (forall|v: A, w: A| #[trigger] self@.contains(v) && #[trigger] other@.contains(w)
                        ==> v.partial_cmp_spec(&w) == Some(Ordering::Less)) {
                    lemma_partial_below_means_unequal(self@, other@);
                }
            }
            Some(Ordering::Equal)
        } else {
            let r = compare_partially(x, y);
            proof {
                if obeys_set_model::<A, S>() && A::obeys_partial_cmp_spec()
                    && obeys_partial_cmp_spec_properties::<A>() && self@ != Set::<A>::empty()
                    && other@ != Set::<A>::empty()
                    && (forall|v: A, w: A| #[trigger] self@.contains(v) && #[trigger] other@.contains(w)
                        ==> v.partial_cmp_spec(&w) == Some(Ordering::Less)) {
                    self.lemma_finite();
                    other.lemma_finite();
                    lemma_nonempty_has_first(x@, self@);
                    lemma_nonempty_has_first(y@, other@);
                    assert(self@.contains(x@[0]));
                    assert(other@.contains(y@[0]));
                    assert(x@[0].partial_cmp_spec(&y@[0]) == Some(Ordering::Less));
                    lemma_lex_partial_first_difference(x@, y@, 0);
                }
            }
            r
        }
    }
}

impl<A: std::hash::Hash + Eq + Clone + PartialOrd, S: std::hash::BuildHasher> PartialOrdSpecImpl for HashSet<A, S> {
    open spec fn obeys_partial_cmp_spec() -> bool {
        obeys_set_model::<A, S>() && A::obeys_partial_cmp_spec()
    }

    open spec fn partial_cmp_spec(&self, other: &Self) -> Option<Ordering> {
        set_partial_order(self, other)
    }
}

impl<A: std::hash::Hash + Eq + Clone + Ord, S: std::hash::BuildHasher> HashSet<A, S> {
    /// Compare two sets: equal sets are equal, and other sets compare as
    /// the sequences of values that their iterators hand out,
    /// lexicographically.
    pub fn cmp(&self, other: &Self) -> (r: Ordering)
        ensures
            obeys_set_model::<A, S>() && A::obeys_cmp_spec() ==> r == set_total_order(self, other),
            obeys_set_model::<A, S>() && obeys_cmp::<A>() && obeys_concrete_eq::<A>() ==> (
            r == Ordering::Equal <==> self@ == other@),
            obeys_set_model::<A, S>() && obeys_cmp::<A>() && self@ != Set::<A>::empty()
                && other@ != Set::<A>::empty()
                && (forall|v: A, w: A| #[trigger] self@.contains(v) && #[trigger] other@.contains(w)
                    ==> v.cmp_spec(&w) == Ordering::Less)
                ==> r == Ordering::Less,
    {
        let x = self.iter();
        let y = other.iter();
        if self.test_eq(other) {
            proof {
                if obeys_set_model::<A, S>() && obeys_cmp::<A>() && self@ != Set::<A>::empty()
                    && (forall|v: A, w: A| #[trigger] self@.contains(v) && #[trigger] other@.contains(w)
                        ==> v.cmp_spec(&w) == Ordering::Less) {
                    lemma_total_below_means_unequal(self@, other@);
                }
            }
            Ordering::Equal
        } else {
            let r = compare_totally(x, y);
            proof {
                if obeys_set_model::<A, S>() && obeys_cmp::<A>() && self@ != Set::<A>::empty()
                    && other@ != Set::<A>::empty()
                    && (forall|v: A, w: A| #[trigger] self@.contains(v) && #[trigger] other@.contains(w)
                        ==> v.cmp_spec(&w) == Ordering::Less) {
                    reveal(obeys_cmp_ord);
                    self.lemma_finite();
                    other.lemma_finite();
                    lemma_nonempty_has_first(x@, self@);
                    lemma_nonempty_has_first(y@, other@);
                    assert(self@.contains(x@[0]));
                    assert(other@.contains(y@[0]));
                    assert(x@[0].cmp_spec(&y@[0]) == Ordering::Less);
                    lemma_lex_total_first_difference(x@, y@, 0);
                }
                if obeys_set_model::<A, S>() && obeys_cmp::<A>() && obeys_concrete_eq::<A>()
                    && r == Ordering::Equal {
                    reveal(obeys_cmp_ord);
                    lemma_lex_total_equal(x@, y@);
                    assert(self@ == other@);
                }
            }
            r
        }
    }
}

} // verus!
