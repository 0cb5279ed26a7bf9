//! Laws of the hash set, stated over the views that the operations'
//! contracts speak of.
use vstd::prelude::*;
use crate::hashset::HashSet;
use crate::hashset::symmetric_difference;
use crate::hashset::union_all;

verus! {

/// After inserting a value, the set contains it, and everything it held
/// before is still there.
pub proof fn law_insert_contains<A, S>(set: &HashSet<A, S>, a: A)
    ensures
        set@.insert(a).contains(a),
        set@.subset_of(set@.insert(a)),
{
}

/// Inserting grows the size by one exactly when the value was absent.
pub proof fn law_insert_len<A, S>(set: &HashSet<A, S>, a: A)
    ensures
        set@.insert(a).len() == if set@.contains(a) { set@.len() } else { set@.len() + 1 },
{
    set.lemma_finite();
    if set@.contains(a) {
        assert(set@.insert(a) =~= set@);
    }
}

/// After removing a value, the set no longer contains it, and removing
/// shrinks the size by one exactly when the value was present.
pub proof fn law_remove_len<A, S>(set: &HashSet<A, S>, a: A)
    ensures
        !set@.remove(a).contains(a),
        set@.remove(a).len() == if set@.contains(a) { set@.len() - 1 } else { set@.len() as int },
{
    set.lemma_finite();
    if !set@.contains(a) {
        assert(set@.remove(a) =~= set@);
    }
}

/// Removing a value just inserted into a set that lacked it gives the set back.
pub proof fn law_insert_then_remove<A, S>(set: &HashSet<A, S>, a: A)
    requires
        !set@.contains(a),
    ensures
        set@.insert(a).remove(a) == set@,
{
    assert(set@.insert(a).remove(a) =~= set@);
}

/// The order of insertions does not matter, and inserting a value already
/// present changes neither the set nor its size.
pub proof fn law_insert_order<A, S>(set: &HashSet<A, S>, a: A, b: A)
    ensures
        set@.insert(a).insert(b) == set@.insert(b).insert(a),
        set@.insert(a).insert(b).len() == set@.insert(b).insert(a).len(),
        set@.insert(a).insert(a) == set@.insert(a),
        set@.contains(a) ==> set@.insert(a) == set@ && set@.insert(a).len() == set@.len(),
{
    assert(set@.insert(a).insert(b) =~= set@.insert(b).insert(a));
    assert(set@.insert(a).insert(a) =~= set@.insert(a));
    if set@.contains(a) {
        assert(set@.insert(a) =~= set@);
    }
}

/// Union is commutative, associative and idempotent, and the empty set is
/// its identity.
pub proof fn law_union<A, S>(a: &HashSet<A, S>, b: &HashSet<A, S>, c: &HashSet<A, S>)
    ensures
        a@.union(b@) == b@.union(a@),
        a@.union(b@).union(c@) == a@.union(b@.union(c@)),
        a@.union(a@) == a@,
        a@.union(Set::empty()) == a@,
        a@.subset_of(a@.union(b@)),
        b@.subset_of(a@.union(b@)),
{
    assert(a@.union(b@) =~= b@.union(a@));
    assert(a@.union(b@).union(c@) =~= a@.union(b@.union(c@)));
    assert(a@.union(a@) =~= a@);
    assert(a@.union(Set::empty()) =~= a@);
}

/// Intersection is commutative and idempotent, is a subset of both sides,
/// and meets the empty set in the empty set.
pub proof fn law_intersection<A, S>(a: &HashSet<A, S>, b: &HashSet<A, S>)
    ensures
        a@.intersect(b@) == b@.intersect(a@),
        a@.intersect(a@) == a@,
        a@.intersect(b@).subset_of(a@),
        a@.intersect(b@).subset_of(b@),
        a@.intersect(Set::empty()) == Set::<A>::empty(),
        a@.intersect(b@).len() <= a@.len(),
        a@.intersect(b@).len() <= b@.len(),
{
    a.lemma_finite();
    b.lemma_finite();
    vstd::set_lib::lemma_len_subset(a@.intersect(b@), a@);
    vstd::set_lib::lemma_len_subset(a@.intersect(b@), b@);
    assert(a@.intersect(b@) =~= b@.intersect(a@));
    assert(a@.intersect(a@) =~= a@);
    assert(a@.intersect(Set::empty()) =~= Set::<A>::empty());
}

/// The difference of two sets (the values in exactly one of them) is
/// commutative, empty for a set with itself, leaves a set unchanged against
/// the empty set, and undoes itself.
pub proof fn law_difference<A, S>(a: &HashSet<A, S>, b: &HashSet<A, S>)
    ensures
        symmetric_difference(a@, b@) == symmetric_difference(b@, a@),
        symmetric_difference(a@, a@) == Set::<A>::empty(),
        symmetric_difference(a@, Set::empty()) == a@,
        symmetric_difference(symmetric_difference(a@, b@), b@) == a@,
        symmetric_difference(a@, b@) == a@.union(b@).difference(a@.intersect(b@)),
        symmetric_difference(a@, b@).len() == a@.len() + b@.len() - 2 * a@.intersect(b@).len(),
{
    a.lemma_finite();
    b.lemma_finite();
    let da = a@.difference(b@);
    let db = b@.difference(a@);
    vstd::set_lib::lemma_set_difference_len(a@, b@);
    vstd::set_lib::lemma_set_difference_len(b@, a@);
    assert(b@.intersect(a@) =~= a@.intersect(b@));
    vstd::set_lib::lemma_len_subset(da, a@);
    vstd::set_lib::lemma_len_subset(db, b@);
    assert(da.disjoint(db));
    vstd::set_lib::lemma_set_disjoint_lens(da, db);
    assert(symmetric_difference(a@, b@) == da + db);
    assert(symmetric_difference(a@, b@) =~= symmetric_difference(b@, a@));
    assert(symmetric_difference(a@, a@) =~= Set::<A>::empty());
    assert(symmetric_difference(a@, Set::empty()) =~= a@);
    assert(symmetric_difference(symmetric_difference(a@, b@), b@) =~= a@);
    assert(symmetric_difference(a@, b@) =~= a@.union(b@).difference(a@.intersect(b@)));
}

/// Being a subset is reflexive and transitive, and two sets that are subsets
/// of each other are equal.
pub proof fn law_subset<A, S>(a: &HashSet<A, S>, b: &HashSet<A, S>, c: &HashSet<A, S>)
    ensures
        a@.subset_of(a@),
        a@.subset_of(b@) && b@.subset_of(c@) ==> a@.subset_of(c@),
        a@.subset_of(b@) && b@.subset_of(a@) ==> a@ == b@,
{
    if a@.subset_of(b@) && b@.subset_of(a@) {
        assert(a@ =~= b@);
    }
}

/// A proper subset is a subset, is smaller, and no set is a proper subset
/// of itself.
pub proof fn law_proper_subset<A, S>(a: &HashSet<A, S>, b: &HashSet<A, S>)
    ensures
        a@.subset_of(b@) && a@ != b@ ==> a@.len() < b@.len(),
        !(a@.subset_of(a@) && a@ != a@),
{
    a.lemma_finite();
    b.lemma_finite();
    if a@.subset_of(b@) && a@ != b@ {
        vstd::set_lib::lemma_len_subset(a@, b@);
        if a@.len() == b@.len() {
            vstd::set_lib::lemma_subset_equality(a@, b@);
        }
    }
}

/// Sets of the same size one of which contains the other are equal: the
/// test that equality makes.
pub proof fn law_equal_sizes_and_subset<A, S>(a: &HashSet<A, S>, b: &HashSet<A, S>)
    requires
        a@.len() == b@.len(),
        a@.subset_of(b@),
    ensures
        a@ == b@,
{
    a.lemma_finite();
    b.lemma_finite();
    vstd::set_lib::lemma_subset_equality(a@, b@);
}

/// A filter whose predicate never rejects a value keeps the whole set, and
/// one whose predicate never accepts a value leaves it empty.
pub proof fn law_retain_extremes<A, F: Fn(&A) -> bool>(before: Set<A>, after: Set<A>, f: F)
    requires
        after.subset_of(before),
        forall|a: A| #[trigger] before.contains(a) ==> {
            &&& after.contains(a) ==> call_ensures(f, (&a,), true)
            &&& !after.contains(a) ==> call_ensures(f, (&a,), false)
        },
    ensures
        (forall|a: A| before.contains(a) ==> !call_ensures(f, (&a,), false)) ==> after == before,
        (forall|a: A| before.contains(a) ==> !call_ensures(f, (&a,), true)) ==> after == Set::<A>::empty(),
{
    if forall|a: A| before.contains(a) ==> !call_ensures(f, (&a,), false) {
        assert(after =~= before);
    }
    if forall|a: A| before.contains(a) ==> !call_ensures(f, (&a,), true) {
        assert(after =~= Set::<A>::empty());
    }
}

/// Intersection and union absorb each other.
pub proof fn law_absorption<A, S>(a: &HashSet<A, S>, b: &HashSet<A, S>)
    ensures
        a@.union(a@.intersect(b@)) == a@,
        a@.intersect(a@.union(b@)) == a@,
{
    assert(a@.union(a@.intersect(b@)) =~= a@);
    assert(a@.intersect(a@.union(b@)) =~= a@);
}

/// A value is in the union of several sets exactly when one of them holds it.
pub proof fn law_unions_membership<A>(sets: Seq<Set<A>>, x: A)
    ensures
        union_all(sets).contains(x) <==> exists|i: int| 0 <= i < sets.len() && #[trigger] sets[i].contains(x),
    decreases sets.len(),
{
    if sets.len() > 0 {
        law_unions_membership(sets.drop_first(), x);
        if union_all(sets.drop_first()).contains(x) {
            let i = choose|i: int| 0 <= i < sets.drop_first().len() && #[trigger] sets.drop_first()[i].contains(x);
            assert(sets[i + 1].contains(x));
        }
        if exists|i: int| 0 <= i < sets.len() && #[trigger] sets[i].contains(x) {
            let i = choose|i: int| 0 <= i < sets.len() && #[trigger] sets[i].contains(x);
            if i > 0 {
                assert(sets.drop_first()[i - 1].contains(x));
            }
        }
    }
}

/// A set built from a list of values is no larger than the list, and is as
/// large as the list when no value repeats.
pub proof fn law_from_list_len<A>(values: Seq<A>)
    ensures
        values.to_set().len() <= values.len(),
        values.no_duplicates() ==> values.to_set().len() == values.len(),
{
    values.lemma_cardinality_of_set();
    if values.no_duplicates() {
        values.unique_seq_to_set();
    }
}

} // verus!
