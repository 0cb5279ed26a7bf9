//! The hash set and its operations.
use vstd::prelude::*;
use vstd::std_specs::hash::obeys_key_model;
use vstd::std_specs::hash::builds_valid_hashers;
use vstd::std_specs::hash::set_contains_borrowed_key;
use vstd::std_specs::hash::sets_borrowed_key_to_key;
use vstd::std_specs::hash::spec_hash_keys_iter;
use vstd::std_specs::hash::into_iter_hash_keys;
use vstd::std_specs::iter::IteratorSpec;
use crate::iter::ConsumingIter;
use crate::iter::Iter;
use crate::std_calls::set_drain;
use crate::std_calls::table_make_mut;
use crate::std_calls::set_hasher;
use crate::std_calls::set_replace;
use crate::std_calls::set_take;
use crate::std_calls::set_with_hasher;

verus! {

broadcast use vstd::std_specs::hash::group_hash_axioms;

/// The element type and the hasher behave as a hash table expects: hashing
/// is deterministic, `==` on elements coincides with identity, cloning an
/// element gives back an identical one, and the hasher builds hashers that
/// agree on equal input.
pub open spec fn obeys_set_model<A, S>() -> bool {
    obeys_key_model::<A>() && builds_valid_hashers::<S>()
}

/// The values in exactly one of `a` and `b`.
pub open spec fn symmetric_difference<A>(a: Set<A>, b: Set<A>) -> Set<A> {
    a.difference(b).union(b.difference(a))
}

/// Every value of `set` is a clone of a value of `originals`, and every
/// value of `originals` has a clone in `set`.
pub open spec fn holds_clones_of<A: Clone>(set: Set<A>, originals: Set<A>) -> bool {
    &&& forall|x: A| #[trigger] set.contains(x) ==> exists|y: A| originals.contains(y) && #[trigger] cloned(y, x)
    &&& forall|y: A| #[trigger] originals.contains(y) ==> exists|x: A| set.contains(x) && #[trigger] cloned(y, x)
}

/// Adding a clone of one more original keeps a set of clones.
proof fn lemma_clones_step<A: Clone>(before: Set<A>, after: Set<A>, done: Set<A>, original: A, copy: A)
    requires
        holds_clones_of(before, done),
        after == before.insert(copy),
        cloned(original, copy),
    ensures
        holds_clones_of(after, done.insert(original)),
{
    let now = done.insert(original);
    assert forall|x: A| #[trigger] after.contains(x)
        implies exists|y: A| now.contains(y) && #[trigger] cloned(y, x) by {
        if x == copy {
            assert(now.contains(original));
        } else {
            assert(before.contains(x));
            let y = choose|y: A| done.contains(y) && #[trigger] cloned(y, x);
            assert(now.contains(y));
        }
    }
    assert forall|y: A| #[trigger] now.contains(y)
        implies exists|x: A| after.contains(x) && #[trigger] cloned(y, x) by {
        if y == original {
            assert(after.contains(copy));
        } else {
            let x = choose|x: A| before.contains(x) && #[trigger] cloned(y, x);
            assert(after.contains(x));
        }
    }
}

/// The union of a sequence of sets.
pub open spec fn union_all<A>(sets: Seq<Set<A>>) -> Set<A>
    decreases sets.len(),
{
    if sets.len() == 0 {
        Set::empty()
    } else {
        sets[0].union(union_all(sets.drop_first()))
    }
}

/// The values from position `k - 1` on are those from position `k` on, and
/// the value at `k - 1`.
pub(crate) proof fn lemma_skip_to_set<A>(all: Seq<A>, k: int)
    requires
        0 < k <= all.len(),
    ensures
        all.skip(k - 1).to_set() == all.skip(k).to_set().insert(all[k - 1]),
{
    assert forall|x: A| all.skip(k - 1).to_set().contains(x)
        implies #[trigger] all.skip(k).to_set().insert(all[k - 1]).contains(x) by {
        let i = choose|i: int| 0 <= i < all.skip(k - 1).len() && #[trigger] all.skip(k - 1)[i] == x;
        if i > 0 {
            assert(all.skip(k)[i - 1] == x);
        }
    }
    assert forall|x: A| #[trigger] all.skip(k).to_set().insert(all[k - 1]).contains(x)
        implies all.skip(k - 1).to_set().contains(x) by {
        if x == all[k - 1] {
            assert(all.skip(k - 1)[0] == x);
        } else {
            let i = choose|i: int| 0 <= i < all.skip(k).len() && #[trigger] all.skip(k)[i] == x;
            assert(all.skip(k - 1)[i + 1] == x);
        }
    }
    assert(all.skip(k - 1).to_set() =~= all.skip(k).to_set().insert(all[k - 1]));
}

/// In a sequence without duplicates, the value at `k - 1` is not among the
/// values from position `k` on.
pub(crate) proof fn lemma_no_dup_not_in_rest<A>(all: Seq<A>, k: int)
    requires
        0 < k <= all.len(),
        all.no_duplicates(),
    ensures
        !all.skip(k).to_set().contains(all[k - 1]),
{
    if all.skip(k).to_set().contains(all[k - 1]) {
        let i = choose|i: int| 0 <= i < all.skip(k).len() && #[trigger] all.skip(k)[i] == all[k - 1];
        assert(all[k + i] == all[k - 1]);
    }
}

/// Advances an iterator by one item.
pub(crate) fn advance<I: Iterator>(it: &mut I) -> (item: Option<I::Item>)
    ensures
        (*old(it)).obeys_prophetic_iter_laws() ==> {
            if (*old(it)).remaining().len() > 0 {
                &&& (*final(it)).remaining() == (*old(it)).remaining().drop_first()
                &&& item == Some((*old(it)).remaining()[0])
            } else {
                &&& (*final(it)).remaining() == (*old(it)).remaining()
                &&& item is None
            }
        },
{
    it.next()
}

/// References to the values of a table, each once, in the table's order.
pub(crate) fn table_items<A, S>(table: &std::collections::HashSet<A, S>) -> (items: Vec<&A>)
    ensures
        obeys_key_model::<A>() && builds_valid_hashers::<S>() ==> {
            &&& items@.unref() == into_iter_hash_keys(spec_hash_keys_iter(table))
            &&& items@.unref().to_set() == table@
            &&& items@.unref().no_duplicates()
            &&& items@.len() == table@.len()
        },
{
    let n = table.len();
    let mut it = table.iter();
    let ghost all = it.remaining();
    let mut out: Vec<&A> = Vec::new();
    let mut i: usize = 0;
    while i < n
        invariant
            i <= n,
            out@.len() <= i,
            it.remaining().len() + out@.len() == all.len(),
            it.remaining() == all.skip(out@.len() as int),
            out@ == all.take(out@.len() as int),
            obeys_key_model::<A>() && builds_valid_hashers::<S>() ==> {
                &&& all.unref() == into_iter_hash_keys(spec_hash_keys_iter(table))
                &&& all.unref().to_set() == table@
                &&& all.unref().no_duplicates()
                &&& all.len() == n
                &&& out@.len() == i
            },
        ensures
            obeys_key_model::<A>() && builds_valid_hashers::<S>() ==> out@ == all,
        decreases n - i,
    {
        match advance(&mut it) {
            None => {
                assert(out@ =~= all);
                break;
            }
            Some(value) => {
                out.push(value);
            }
        }
        i = i + 1;
    }
    proof {
        if obeys_key_model::<A>() && builds_valid_hashers::<S>() {
            assert(out@ =~= all);
        }
    }
    out
}

/// A hash set.
///
/// Its view is the set of values it holds. The table is shared between a
/// set and its clones; the first change to a shared table copies it, so a
/// change to one set never shows in another.
#[verifier::reject_recursive_types(S)]
#[derive(Debug)]
pub struct HashSet<A, S = std::collections::hash_map::RandomState> {
    root: std::sync::Arc<std::collections::HashSet<A, S>>,
}

impl<A, S> View for HashSet<A, S> {
    type V = Set<A>;

    closed spec fn view(&self) -> Set<A> {
        self.root@
    }
}

impl<A, S> HashSet<A, S> {
    /// The order in which `iter` hands out the values of this set.
    pub closed spec fn iteration_order(&self) -> Seq<A> {
        into_iter_hash_keys(spec_hash_keys_iter(&*self.root)).reverse()
    }

    /// The values of a set are finitely many.
    pub proof fn lemma_finite(&self)
        ensures
            self@.finite(),
    {
        broadcast use vstd::seq_lib::seq_to_set_is_finite;
        assert(spec_hash_keys_iter(&*self.root).remaining().unref().to_set() == self@);
    }

    /// Test whether a set is empty.
    pub fn is_empty(&self) -> (empty: bool)
        ensures
            obeys_set_model::<A, S>() ==> (empty <==> self@ == Set::<A>::empty()),
    {
        proof {
            self.lemma_finite();
            if self@.len() == 0 {
                self@.lemma_len0_is_empty();
            }
        }
        self.len() == 0
    }

    /// Get the size of a set.
    pub fn len(&self) -> (size: usize)
        ensures
            obeys_set_model::<A, S>() ==> size == self@.len(),
    {
        self.root.len()
    }
}

impl<A: std::hash::Hash + Eq + Clone> HashSet<A, std::collections::hash_map::RandomState> {
    /// Construct an empty set.
    pub fn new() -> (set: Self)
        ensures
            set@ == Set::<A>::empty(),
    {
        HashSet { root: std::sync::Arc::new(std::collections::HashSet::new()) }
    }

    /// Construct a set with a single value.
    pub fn singleton(a: A) -> (set: Self)
        ensures
            obeys_set_model::<A, std::collections::hash_map::RandomState>() ==> set@ == Set::<A>::empty().insert(a),
    {
        HashSet::new().update(a)
    }
}

impl<A: std::hash::Hash + Eq + Clone, S: std::hash::BuildHasher> HashSet<A, S> {
    /// Construct an empty hash set using the provided hasher.
    pub fn with_hasher(hasher: S) -> (set: Self)
        ensures
            set@ == Set::<A>::empty(),
    {
        HashSet { root: std::sync::Arc::new(set_with_hasher(hasher)) }
    }

    /// Get a reference to the set's hasher.
    pub fn hasher(&self) -> &S {
        set_hasher(&*self.root)
    }

    /// Construct an empty hash set using the same hasher as the current hash set.
    pub fn new_from<A1: std::hash::Hash + Eq + Clone>(&self) -> (set: HashSet<A1, S>)
        where S: Clone,
        ensures
            set@ == Set::<A1>::empty(),
    {
        HashSet { root: std::sync::Arc::new(set_with_hasher(self.hasher().clone())) }
    }

    /// References to the values of the set, each once.
    pub(crate) fn item_refs(&self) -> (items: Vec<&A>)
        ensures
            obeys_set_model::<A, S>() ==> {
                &&& items@.unref().to_set() == self@
                &&& items@.unref().no_duplicates()
                &&& items@.len() == self@.len()
            },
    {
        table_items(&*self.root)
    }

    /// Get an iterator over the values in a hash set.
    ///
    /// No particular order is promised, but the same set, and every clone
    /// of it, hands out its values in the same order every time. Equal sets
    /// whose tables were built differently may hand them out in different
    /// orders.
    pub fn iter(&self) -> (it: Iter<'_, A>)
        ensures
            obeys_set_model::<A, S>() ==> {
                &&& it@ == self.iteration_order()
                &&& it@.to_set() == self@
                &&& it@.no_duplicates()
                &&& it@.len() == self@.len()
            },
    {
        let items = table_items(&*self.root);
        let it = Iter::from_items(items);
        proof {
            if obeys_set_model::<A, S>() {
                assert(it@ == items@.unref().reverse());
            }
        }
        it
    }

    /// Turn the set into an iterator that hands out its values.
    ///
    /// No particular order is promised.
    pub fn into_iter(self) -> (it: ConsumingIter<A>)
        where S: Clone,
        ensures
            obeys_set_model::<A, S>() ==> {
                &&& it@.to_set() == self@
                &&& it@.no_duplicates()
                &&& it@.len() == self@.len()
            },
    {
        let mut set = self;
        proof {
            set.lemma_finite();
        }
        let values = set_drain(table_make_mut(&mut set.root));
        proof {
            if obeys_set_model::<A, S>() {
                values@.unique_seq_to_set();
            }
        }
        ConsumingIter::from_values(values)
    }

    /// Test if a value is part of a set.
    pub fn contains<BA: std::hash::Hash + Eq + ?Sized>(&self, a: &BA) -> (found: bool)
        where A: std::borrow::Borrow<BA>,
        ensures
            obeys_set_model::<A, S>() ==> found == set_contains_borrowed_key(self@, a),
    {
        self.root.contains(a)
    }

    /// Insert a value into a set.
    ///
    /// Gives back the equal value that was already there, if any.
    pub fn insert(&mut self, a: A) -> (replaced: Option<A>)
        where S: Clone,
        ensures
            obeys_set_model::<A, S>() ==> {
                &&& final(self)@ == old(self)@.insert(a)
                &&& (replaced is Some <==> old(self)@.contains(a))
                &&& (replaced matches Some(v) ==> v == a)
                &&& final(self)@.len() == old(self)@.len() + if replaced is None { 1int } else { 0int }
            },
    {
        proof {
            self.lemma_finite();
        }
        let replaced = set_replace(table_make_mut(&mut self.root), a);
        proof {
            if obeys_set_model::<A, S>() && replaced is Some {
                assert(self@ =~= old(self)@);
            }
        }
        replaced
    }

    /// Remove a value from a set if it exists.
    pub fn remove<BA: std::hash::Hash + Eq + ?Sized>(&mut self, a: &BA) -> (removed: Option<A>)
        where A: std::borrow::Borrow<BA>, S: Clone,
        ensures
            obeys_set_model::<A, S>() ==> {
                &&& (removed is Some <==> set_contains_borrowed_key(old(self)@, a))
                &&& (removed matches Some(v) ==> {
                    &&& sets_borrowed_key_to_key(old(self)@, a, &v)
                    &&& old(self)@.contains(v)
                    &&& final(self)@ == old(self)@.remove(v)
                })
                &&& (removed is None ==> final(self)@ == old(self)@)
                &&& final(self)@.len() == old(self)@.len() - if removed is Some { 1int } else { 0int }
            },
    {
        proof {
            self.lemma_finite();
        }
        set_take(table_make_mut(&mut self.root), a)
    }

    /// Construct a new set from the current set with the given value added.
    ///
    /// The current set is left as it was; the new one starts from a copy of
    /// its table.
    pub fn update(&self, a: A) -> (set: Self)
        where S: Clone,
        ensures
            obeys_set_model::<A, S>() ==> set@ == self@.insert(a),
    {
        let mut out = self.clone();
        out.insert(a);
        out
    }

    /// Construct a new set with the given value removed if it's in the set.
    ///
    /// The current set is left as it was; the new one starts from a copy of
    /// its table.
    pub fn without<BA: std::hash::Hash + Eq + ?Sized>(&self, a: &BA) -> (set: Self)
        where A: std::borrow::Borrow<BA>, S: Clone,
        ensures
            obeys_set_model::<A, S>() ==> {
                &&& set_contains_borrowed_key(self@, a) ==> exists|v: A| {
                    &&& sets_borrowed_key_to_key(self@, a, &v)
                    &&& self@.contains(v)
                    &&& #[trigger] self@.remove(v) == set@
                }
                &&& !set_contains_borrowed_key(self@, a) ==> set@ == self@
            },
    {
        let mut out = self.clone();
        let removed = out.remove(a);
        proof {
            if obeys_set_model::<A, S>() {
                if let Some(v) = removed {
                    assert(self@.remove(v) == out@);
                }
            }
        }
        out
    }

    /// Insert each of the given values into the set.
    pub fn extend(&mut self, values: Vec<A>)
        where S: Clone,
        ensures
            obeys_set_model::<A, S>() ==> final(self)@ == old(self)@.union(values@.to_set()),
    {
        let mut values = values;
        let ghost all = values@;
        let ghost start = self@;
        while values.len() > 0
            invariant
                values@.len() <= all.len(),
                values@ == all.take(values@.len() as int),
                obeys_set_model::<A, S>() ==> self@ == start.union(all.skip(values@.len() as int).to_set()),
            decreases values@.len(),
        {
            let k = values.len();
            let v = values.pop().unwrap();
            proof {
                lemma_skip_to_set(all, k as int);
                assert(v == all[k - 1]);
            }
            self.insert(v);
            proof {
                if obeys_set_model::<A, S>() {
                    assert(self@ =~= start.union(all.skip(values@.len() as int).to_set()));
                }
            }
        }
        proof {
            assert(all.skip(0) =~= all);
        }
    }

    /// Insert a clone of each of the given values into an empty set.
    pub(crate) fn fill_with_clones(&mut self, items: &Vec<&A>)
        where S: Clone,
        requires
            old(self)@ == Set::<A>::empty(),
        ensures
            obeys_set_model::<A, S>() ==> holds_clones_of(final(self)@, items@.unref().to_set()),
    {
        let ghost originals = items@.unref();
        let mut i: usize = 0;
        while i < items.len()
            invariant
                i <= items@.len(),
                originals == items@.unref(),
                obeys_set_model::<A, S>() ==> holds_clones_of(self@, originals.take(i as int).to_set()),
            decreases items@.len() - i,
        {
            let c = A::clone(items[i]);
            let ghost before = self@;
            self.insert(c);
            proof {
                if obeys_set_model::<A, S>() {
                    assert(originals.take(i + 1) =~= originals.take(i as int).push(originals[i as int]));
                    originals.take(i as int).lemma_push_to_set_commute(originals[i as int]);
                    lemma_clones_step(before, self@, originals.take(i as int).to_set(), originals[i as int], c);
                }
            }
            i = i + 1;
        }
        proof {
            assert(originals.take(items@.len() as int) =~= originals);
        }
    }

    /// Filter out values from a set which don't satisfy a predicate.
    pub fn retain<F: Fn(&A) -> bool>(&mut self, f: F)
        where S: Clone,
        requires
            forall|a: A| old(self)@.contains(a) || !obeys_set_model::<A, S>() ==> #[trigger] call_requires(f, (&a,)),
        ensures
            obeys_set_model::<A, S>() ==> {
                &&& final(self)@.subset_of(old(self)@)
                &&& forall|a: A| #[trigger] old(self)@.contains(a) ==> {
                    &&& final(self)@.contains(a) ==> call_ensures(f, (&a,), true)
                    &&& !final(self)@.contains(a) ==> call_ensures(f, (&a,), false)
                }
            },
    {
        let ghost start = self@;
        let mut values = set_drain(table_make_mut(&mut self.root));
        let ghost all = values@;
        while values.len() > 0
            invariant
                values@.len() <= all.len(),
                values@ == all.take(values@.len() as int),
                forall|a: A| start.contains(a) || !obeys_set_model::<A, S>() ==> #[trigger] call_requires(f, (&a,)),
                obeys_set_model::<A, S>() ==> {
                    &&& all.to_set() == start
                    &&& all.no_duplicates()
                    &&& self@.subset_of(all.skip(values@.len() as int).to_set())
                    &&& forall|j: int| values@.len() <= j < all.len() ==> {
                        &&& self@.contains(#[trigger] all[j]) ==> call_ensures(f, (&all[j],), true)
                        &&& !self@.contains(all[j]) ==> call_ensures(f, (&all[j],), false)
                    }
                },
            decreases values@.len(),
        {
            let k = values.len();
            let v = values.pop().unwrap();
            proof {
                lemma_skip_to_set(all, k as int);
                assert(v == all[k - 1]);
                if obeys_set_model::<A, S>() {
                    assert(all.to_set().contains(all[k - 1]));
                    assert(start.contains(v));
                    lemma_no_dup_not_in_rest(all, k as int);
                }
                assert(start.contains(v) || !obeys_set_model::<A, S>());
                assert(call_requires(f, (&v,)));
            }
            let keep = f(&v);
            if keep {
                self.insert(v);
            }
            proof {
                if obeys_set_model::<A, S>() {
                    assert forall|j: int| values@.len() <= j < all.len() implies {
                        &&& self@.contains(#[trigger] all[j]) ==> call_ensures(f, (&all[j],), true)
                        &&& !self@.contains(all[j]) ==> call_ensures(f, (&all[j],), false)
                    } by {
                        if j > k - 1 {
                            assert(all.skip(k as int).to_set().contains(all[j])) by {
                                assert(all.skip(k as int)[j - k] == all[j]);
                            }
                        }
                    }
                }
            }
        }
        proof {
            if obeys_set_model::<A, S>() {
                assert(all.skip(0) =~= all);
                assert forall|a: A| #[trigger] start.contains(a) implies {
                    &&& self@.contains(a) ==> call_ensures(f, (&a,), true)
                    &&& !self@.contains(a) ==> call_ensures(f, (&a,), false)
                } by {
                    assert(all.to_set().contains(a));
                    let j = choose|j: int| 0 <= j < all.len() && #[trigger] all[j] == a;
                }
            }
        }
    }

    /// Construct the union of two sets.
    pub fn union(self, other: Self) -> (set: Self)
        where S: Clone,
        ensures
            obeys_set_model::<A, S>() ==> set@ == self@.union(other@),
    {
        let mut out = self;
        let mut other = other;
        let values = set_drain(table_make_mut(&mut other.root));
        out.extend(values);
        out
    }

    /// Construct the union of multiple sets.
    pub fn unions(sets: Vec<Self>) -> (set: Self)
        where S: Default + Clone,
        ensures
            obeys_set_model::<A, S>() ==> set@ == union_all(sets@.map_values(|s: Self| s@)),
    {
        let mut sets = sets;
        let ghost all = sets@;
        let ghost views = all.map_values(|s: Self| s@);
        let mut out = HashSet::with_hasher(S::default());
        proof {
            assert(views.skip(all.len() as int) =~= Seq::<Set<A>>::empty());
        }
        while sets.len() > 0
            invariant
                sets@.len() <= all.len(),
                sets@ == all.take(sets@.len() as int),
                views == all.map_values(|s: Self| s@),
                obeys_set_model::<A, S>() ==> out@ == union_all(views.skip(sets@.len() as int)),
            decreases sets@.len(),
        {
            let k = sets.len();
            let next = sets.pop().unwrap();
            proof {
                assert(next == all[k - 1]);
                assert(views.skip(k - 1).drop_first() =~= views.skip(k as int));
                assert(views.skip(k - 1)[0] == next@);
            }
            out = out.union(next);
            proof {
                if obeys_set_model::<A, S>() {
                    assert(out@ =~= union_all(views.skip(k - 1)));
                }
            }
        }
        proof {
            assert(views.skip(0) =~= views);
        }
        out
    }

    /// Construct the difference between two sets: the values that are in
    /// exactly one of them.
    pub fn difference(self, other: Self) -> (set: Self)
        where S: Clone,
        ensures
            obeys_set_model::<A, S>() ==> set@ == symmetric_difference(self@, other@),
    {
        let ghost start = self@;
        let ghost theirs = other@;
        let mut out = self;
        let mut other = other;
        let mut values = set_drain(table_make_mut(&mut other.root));
        let ghost all = values@;
        proof {
            assert(all.skip(all.len() as int).to_set() =~= Set::<A>::empty());
            assert(start =~= symmetric_difference(start, Set::<A>::empty()));
        }
        while values.len() > 0
            invariant
                values@.len() <= all.len(),
                values@ == all.take(values@.len() as int),
                obeys_set_model::<A, S>() ==> {
                    &&& all.to_set() == theirs
                    &&& all.no_duplicates()
                    &&& out@ == symmetric_difference(start, all.skip(values@.len() as int).to_set())
                },
            decreases values@.len(),
        {
            let k = values.len();
            let v = values.pop().unwrap();
            proof {
                lemma_skip_to_set(all, k as int);
                assert(v == all[k - 1]);
                if obeys_set_model::<A, S>() {
                    lemma_no_dup_not_in_rest(all, k as int);
                }
            }
            let removed = out.remove(&v);
            if removed.is_none() {
                out.insert(v);
            }
            proof {
                if obeys_set_model::<A, S>() {
                    assert(out@ =~= symmetric_difference(start, all.skip(values@.len() as int).to_set()));
                }
            }
        }
        proof {
            assert(all.skip(0) =~= all);
        }
        out
    }

    /// Construct the intersection of two sets.
    pub fn intersection(self, other: Self) -> (set: Self)
        where S: Clone,
        ensures
            obeys_set_model::<A, S>() ==> set@ == self@.intersect(other@),
    {
        let ghost start = self@;
        let ghost theirs = other@;
        let mut out = self;
        let mut other = other;
        let mut values = set_drain(table_make_mut(&mut other.root));
        let ghost all = values@;
        let mut kept: Vec<A> = Vec::new();
        proof {
            assert(all.skip(all.len() as int).to_set() =~= Set::<A>::empty());
            assert(kept@.to_set() =~= Set::<A>::empty());
        }
        while values.len() > 0
            invariant
                values@.len() <= all.len(),
                values@ == all.take(values@.len() as int),
                out@ == start,
                obeys_set_model::<A, S>() ==> {
                    &&& all.to_set() == theirs
                    &&& kept@.to_set() == start.intersect(all.skip(values@.len() as int).to_set())
                },
            decreases values@.len(),
        {
            let k = values.len();
            let v = values.pop().unwrap();
            proof {
                lemma_skip_to_set(all, k as int);
                assert(v == all[k - 1]);
            }
            let ghost before = kept@;
            if out.contains(&v) {
                kept.push(v);
                proof {
                    before.lemma_push_to_set_commute(v);
                }
            }
            proof {
                if obeys_set_model::<A, S>() {
                    assert(kept@.to_set() =~= start.intersect(all.skip(values@.len() as int).to_set()));
                }
            }
        }
        proof {
            assert(all.skip(0) =~= all);
        }
        table_make_mut(&mut out.root).clear();
        out.extend(kept);
        proof {
            if obeys_set_model::<A, S>() {
                assert(out@ =~= start.intersect(theirs));
            }
        }
        out
    }

    /// Test whether two sets hold the same values.
    pub(crate) fn test_eq(&self, other: &Self) -> (equal: bool)
        ensures
            obeys_set_model::<A, S>() ==> (equal <==> self@ == other@),
    {
        if self.len() != other.len() {
            return false;
        }
        proof {
            self.lemma_finite();
            other.lemma_finite();
        }
        let sub = self.is_subset(other);
        proof {
            if obeys_set_model::<A, S>() && sub {
                vstd::set_lib::lemma_subset_equality(self@, other@);
            }
        }
        sub
    }

    /// Test whether a set is a subset of another set, meaning that all
    /// values in our set must also be in the other set.
    pub fn is_subset(&self, other: &Self) -> (subset: bool)
        ensures
            obeys_set_model::<A, S>() ==> (subset <==> self@.subset_of(other@)),
    {
        let items = table_items(&*self.root);
        let mut i: usize = 0;
        while i < items.len()
            invariant
                i <= items@.len(),
                obeys_set_model::<A, S>() ==> {
                    &&& items@.unref().to_set() == self@
                    &&& forall|j: int| 0 <= j < i ==> other@.contains(*items@[j])
                },
            decreases items@.len() - i,
        {
            if !other.root.contains(items[i]) {
                proof {
                    if obeys_set_model::<A, S>() {
                        assert(items@.unref()[i as int] == *items@[i as int]);
                        assert(self@.contains(*items@[i as int]));
                    }
                }
                return false;
            }
            i = i + 1;
        }
        proof {
            if obeys_set_model::<A, S>() {
                assert forall|x: A| self@.contains(x) implies other@.contains(x) by {
                    assert(items@.unref().to_set().contains(x));
                    let j = choose|j: int| 0 <= j < items@.unref().len() && #[trigger] items@.unref()[j] == x;
                }
            }
        }
        true
    }

    /// Test whether a set is a proper subset of another set, meaning that
    /// all values in our set must also be in the other set. A proper subset
    /// must also be smaller than the other set.
    pub fn is_proper_subset(&self, other: &Self) -> (proper: bool)
        ensures
            obeys_set_model::<A, S>() ==> (proper <==> (self@.subset_of(other@) && self@ != other@)),
    {
        proof {
            self.lemma_finite();
            other.lemma_finite();
            if obeys_set_model::<A, S>() && self@.subset_of(other@) && self@.len() == other@.len() {
                vstd::set_lib::lemma_subset_equality(self@, other@);
            }
        }
        self.len() != other.len() && self.is_subset(other)
    }
}

/// A clone shares the table of the set it was made from, so it holds the
/// same values and hands them out in the same order; a later change to
/// either one copies the table first and leaves the other as it was.
impl<A: Clone, S> Clone for HashSet<A, S> {
    fn clone(&self) -> (copy: Self)
        ensures
            copy@ == self@,
            copy.iteration_order() == self.iteration_order(),
    {
        HashSet { root: self.root.clone() }
    }
}

} // verus!
