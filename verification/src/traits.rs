//! Standard traits of the hash set: equality, defaults, operators and
//! conversions.
use vstd::prelude::*;
use vstd::std_specs::cmp::PartialEqSpec;
use vstd::std_specs::convert::FromSpecImpl;
use vstd::std_specs::ops::AddSpecImpl;
use vstd::std_specs::ops::MulSpecImpl;
use vstd::std_specs::btree::key_obeys_cmp_spec;
use vstd::std_specs::iter::IteratorSpec;
use crate::hashset::advance;
use crate::hashset::holds_clones_of;
use crate::hashset::table_items;
use crate::hashset::HashSet;
use crate::hashset::obeys_set_model;
use crate::std_calls::set_drain;

verus! {

broadcast use {vstd::std_specs::hash::group_hash_axioms, vstd::std_specs::btree::group_btree_axioms};

/// The owned strings of `owned` spell exactly the borrowed strings of `borrowed`.
pub open spec fn spells_same<'a>(owned: Set<String>, borrowed: Set<&'a str>) -> bool {
    &&& forall|x: String| #[trigger] owned.contains(x) ==> exists|s: &'a str| borrowed.contains(s) && s@ == x@
    &&& forall|s: &'a str| #[trigger] borrowed.contains(s) ==> exists|x: String| owned.contains(x) && s@ == x@
}

/// References to the values of a slice, in order.
fn refs_of<A>(items: &[A]) -> (refs: Vec<&A>)
    ensures
        refs@.unref() == items@,
{
    let mut refs: Vec<&A> = Vec::new();
    let mut i: usize = 0;
    while i < items.len()
        invariant
            i <= items@.len(),
            refs@.len() == i,
            forall|j: int| 0 <= j < i ==> *#[trigger] refs@[j] == items@[j],
        decreases items@.len() - i,
    {
        refs.push(&items[i]);
        i = i + 1;
    }
    assert(refs@.unref() =~= items@);
    refs
}

/// References to the values of an ordered set, each once, in order.
fn ordered_items<A: Ord>(set: &std::collections::BTreeSet<A>) -> (items: Vec<&A>)
    ensures
        key_obeys_cmp_spec::<A>() ==> {
            &&& items@.unref().to_set() == set@
            &&& items@.unref().no_duplicates()
        },
{
    let n = set.len();
    let mut it = set.iter();
    let ghost all = it.remaining();
    let mut out: Vec<&A> = Vec::new();
    let mut i: usize = 0;
    while i < n
        invariant
            i <= n,
            out@.len() <= i,
            it.remaining().len() + out@.len() == all.len(),
            it.remaining() == all.skip(out@.len() + 0int),
            out@ == all.take(out@.len() + 0int),
            key_obeys_cmp_spec::<A>() ==> {
                &&& all.unref().to_set() == set@
                &&& all.unref().no_duplicates()
                &&& all.len() == n
                &&& out@.len() == i
            },
        ensures
            key_obeys_cmp_spec::<A>() ==> out@ == all,
        decreases n - i,
    {
        match advance(&mut it) {
            None => {
                assert(out@ =~= all);
                break;
            }
            Some(value) => {
                out.push(value);
            }
        }
        i = i + 1;
    }
    proof {
        if key_obeys_cmp_spec::<A>() {
            assert(out@ =~= all);
        }
    }
    out
}

impl<A: std::hash::Hash + Eq + Clone, S: std::hash::BuildHasher> PartialEq for HashSet<A, S> {
    fn eq(&self, other: &Self) -> (equal: bool)
        ensures
            obeys_set_model::<A, S>() ==> (equal <==> (self@.subset_of(other@) && other@.subset_of(self@))),
    {
        let equal = self.test_eq(other);
        proof {
            if obeys_set_model::<A, S>() && self@.subset_of(other@) && other@.subset_of(self@) {
                assert(self@ =~= other@);
            }
        }
        equal
    }
}

/// Two sets are equal exactly when each holds every value of the other:
/// equality is reflexive, symmetric and transitive, and does not depend on
/// how or in what order the sets were built.
pub proof fn law_equality<A: std::hash::Hash + Eq + Clone, S: std::hash::BuildHasher>(
    a: &HashSet<A, S>,
    b: &HashSet<A, S>,
    c: &HashSet<A, S>,
)
    ensures
        a.eq_spec(b) <==> (forall|v: A| a@.contains(v) <==> b@.contains(v)),
        a.eq_spec(b) ==> a@.len() == b@.len(),
        a.eq_spec(a),
        a.eq_spec(b) <==> b.eq_spec(a),
        a.eq_spec(b) && b.eq_spec(c) ==> a.eq_spec(c),
{
    if forall|v: A| a@.contains(v) <==> b@.contains(v) {
        assert(a@ =~= b@);
    }
}

impl<A: std::hash::Hash + Eq + Clone, S: std::hash::BuildHasher> vstd::std_specs::cmp::PartialEqSpecImpl for HashSet<A, S> {
    open spec fn obeys_eq_spec() -> bool {
        obeys_set_model::<A, S>()
    }

    open spec fn eq_spec(&self, other: &Self) -> bool {
        self@ == other@
    }
}

impl<A: std::hash::Hash + Eq + Clone, S: std::hash::BuildHasher> Eq for HashSet<A, S> {
}

impl<A: std::hash::Hash + Eq + Clone, S: std::hash::BuildHasher + Default> Default for HashSet<A, S> {
    fn default() -> (set: Self)
        ensures
            set@ == Set::<A>::empty(),
    {
        HashSet::with_hasher(S::default())
    }
}

impl<A: std::hash::Hash + Eq + Clone, S: std::hash::BuildHasher + Clone> core::ops::Add for HashSet<A, S> {
    type Output = HashSet<A, S>;

    fn add(self, other: Self) -> (set: Self::Output)
        ensures
            obeys_set_model::<A, S>() ==> set@ == self@.union(other@),
    {
        self.union(other)
    }
}

impl<A: std::hash::Hash + Eq + Clone, S: std::hash::BuildHasher + Clone> AddSpecImpl for HashSet<A, S> {
    open spec fn obeys_add_spec() -> bool {
        false
    }

    open spec fn add_req(self, other: Self) -> bool {
        true
    }

    open spec fn add_spec(self, other: Self) -> Self {
        arbitrary()
    }
}

impl<A: std::hash::Hash + Eq + Clone, S: std::hash::BuildHasher + Clone> core::ops::Mul for HashSet<A, S> {
    type Output = HashSet<A, S>;

    fn mul(self, other: Self) -> (set: Self::Output)
        ensures
            obeys_set_model::<A, S>() ==> set@ == self@.intersect(other@),
    {
        self.intersection(other)
    }
}

impl<A: std::hash::Hash + Eq + Clone, S: std::hash::BuildHasher + Clone> MulSpecImpl for HashSet<A, S> {
    open spec fn obeys_mul_spec() -> bool {
        false
    }

    open spec fn mul_req(self, other: Self) -> bool {
        true
    }

    open spec fn mul_spec(self, other: Self) -> Self {
        arbitrary()
    }
}

impl<'a, A: std::hash::Hash + Eq + Clone, S: std::hash::BuildHasher + Clone> core::ops::Add for &'a HashSet<A, S> {
    type Output = HashSet<A, S>;

    fn add(self, other: Self) -> (set: Self::Output)
        ensures
            obeys_set_model::<A, S>() ==> set@ == self@.union(other@),
    {
        self.clone().union(other.clone())
    }
}

impl<'a, A: std::hash::Hash + Eq + Clone, S: std::hash::BuildHasher + Clone> AddSpecImpl for &'a HashSet<A, S> {
    open spec fn obeys_add_spec() -> bool {
        false
    }

    open spec fn add_req(self, other: Self) -> bool {
        true
    }

    open spec fn add_spec(self, other: Self) -> HashSet<A, S> {
        arbitrary()
    }
}

impl<'a, A: std::hash::Hash + Eq + Clone, S: std::hash::BuildHasher + Clone> core::ops::Mul for &'a HashSet<A, S> {
    type Output = HashSet<A, S>;

    fn mul(self, other: Self) -> (set: Self::Output)
        ensures
            obeys_set_model::<A, S>() ==> set@ == self@.intersect(other@),
    {
        self.clone().intersection(other.clone())
    }
}

impl<'a, A: std::hash::Hash + Eq + Clone, S: std::hash::BuildHasher + Clone> MulSpecImpl for &'a HashSet<A, S> {
    open spec fn obeys_mul_spec() -> bool {
        false
    }

    open spec fn mul_req(self, other: Self) -> bool {
        true
    }

    open spec fn mul_spec(self, other: Self) -> HashSet<A, S> {
        arbitrary()
    }
}

impl<A: std::hash::Hash + Eq + Clone, S: std::hash::BuildHasher + Default + Clone> From<Vec<A>> for HashSet<A, S> {
    fn from(vec: Vec<A>) -> (set: Self)
        ensures
            obeys_set_model::<A, S>() ==> set@ == vec@.to_set(),
    {
        let mut set = HashSet::with_hasher(S::default());
        set.extend(vec);
        proof {
            if obeys_set_model::<A, S>() {
                assert(set@ =~= vec@.to_set());
            }
        }
        set
    }
}

impl<A: std::hash::Hash + Eq + Clone, S: std::hash::BuildHasher + Default + Clone> FromSpecImpl<Vec<A>> for HashSet<A, S> {
    open spec fn obeys_from_spec() -> bool {
        false
    }

    open spec fn from_spec(vec: Vec<A>) -> Self {
        arbitrary()
    }
}

impl<'a, A: std::hash::Hash + Eq + Clone, S: std::hash::BuildHasher + Default + Clone> From<&'a [A]> for HashSet<A, S> {
    fn from(slice: &'a [A]) -> (set: Self)
        ensures
            obeys_set_model::<A, S>() ==> holds_clones_of(set@, slice@.to_set()),
    {
        let mut set = HashSet::with_hasher(S::default());
        set.fill_with_clones(&refs_of(slice));
        set
    }
}

impl<'a, A: std::hash::Hash + Eq + Clone, S: std::hash::BuildHasher + Default + Clone> FromSpecImpl<&'a [A]> for HashSet<A, S> {
    open spec fn obeys_from_spec() -> bool {
        false
    }

    open spec fn from_spec(slice: &'a [A]) -> Self {
        arbitrary()
    }
}

impl<'a, A: std::hash::Hash + Eq + Clone, S: std::hash::BuildHasher + Default + Clone> From<&'a Vec<A>> for HashSet<A, S> {
    fn from(vec: &'a Vec<A>) -> (set: Self)
        ensures
            obeys_set_model::<A, S>() ==> holds_clones_of(set@, vec@.to_set()),
    {
        let mut set = HashSet::with_hasher(S::default());
        set.fill_with_clones(&refs_of(vec.as_slice()));
        set
    }
}

impl<'a, A: std::hash::Hash + Eq + Clone, S: std::hash::BuildHasher + Default + Clone> FromSpecImpl<&'a Vec<A>> for HashSet<A, S> {
    open spec fn obeys_from_spec() -> bool {
        false
    }

    open spec fn from_spec(vec: &'a Vec<A>) -> Self {
        arbitrary()
    }
}

impl<A: std::hash::Hash + Eq + Clone, S: std::hash::BuildHasher + Default + Clone> From<std::collections::HashSet<A>> for HashSet<A, S> {
    fn from(hash_set: std::collections::HashSet<A>) -> (set: Self)
        ensures
            obeys_set_model::<A, S>() ==> set@ == hash_set@,
    {
        let mut source = hash_set;
        let values = set_drain(&mut source);
        let mut set = HashSet::with_hasher(S::default());
        set.extend(values);
        proof {
            if obeys_set_model::<A, S>() {
                assert(set@ =~= hash_set@);
            }
        }
        set
    }
}

impl<A: std::hash::Hash + Eq + Clone, S: std::hash::BuildHasher + Default + Clone> FromSpecImpl<std::collections::HashSet<A>> for HashSet<A, S> {
    open spec fn obeys_from_spec() -> bool {
        false
    }

    open spec fn from_spec(hash_set: std::collections::HashSet<A>) -> Self {
        arbitrary()
    }
}

impl<'a, A: std::hash::Hash + Eq + Clone, S: std::hash::BuildHasher + Default + Clone> From<&'a std::collections::HashSet<A>> for HashSet<A, S> {
    fn from(hash_set: &'a std::collections::HashSet<A>) -> (set: Self)
        ensures
            obeys_set_model::<A, S>() ==> holds_clones_of(set@, hash_set@),
    {
        let mut set = HashSet::with_hasher(S::default());
        set.fill_with_clones(&table_items(hash_set));
        set
    }
}

impl<'a, A: std::hash::Hash + Eq + Clone, S: std::hash::BuildHasher + Default + Clone> FromSpecImpl<&'a std::collections::HashSet<A>> for HashSet<A, S> {
    open spec fn obeys_from_spec() -> bool {
        false
    }

    open spec fn from_spec(hash_set: &'a std::collections::HashSet<A>) -> Self {
        arbitrary()
    }
}

impl<'a, A: std::hash::Hash + Eq + Clone + Ord, S: std::hash::BuildHasher + Default + Clone> From<&'a std::collections::BTreeSet<A>> for HashSet<A, S> {
    fn from(btree_set: &'a std::collections::BTreeSet<A>) -> (set: Self)
        ensures
            obeys_set_model::<A, S>() && key_obeys_cmp_spec::<A>() ==> holds_clones_of(set@, btree_set@),
    {
        let mut set = HashSet::with_hasher(S::default());
        set.fill_with_clones(&ordered_items(btree_set));
        set
    }
}

impl<'a, A: std::hash::Hash + Eq + Clone + Ord, S: std::hash::BuildHasher + Default + Clone> FromSpecImpl<&'a std::collections::BTreeSet<A>> for HashSet<A, S> {
    open spec fn obeys_from_spec() -> bool {
        false
    }

    open spec fn from_spec(btree_set: &'a std::collections::BTreeSet<A>) -> Self {
        arbitrary()
    }
}

impl<'s, 'a, SA: std::hash::BuildHasher, SB: std::hash::BuildHasher + Default + Clone> From<&'s HashSet<&'a str, SA>> for HashSet<String, SB> {
    fn from(set: &'s HashSet<&'a str, SA>) -> (owned: Self)
        ensures
            obeys_set_model::<&'a str, SA>() && obeys_set_model::<String, SB>() ==> spells_same(owned@, set@),
    {
        let items = set.item_refs();
        let ghost borrowed = items@.unref();
        let mut owned = HashSet::with_hasher(SB::default());
        let mut i: usize = 0;
        while i < items.len()
            invariant
                i <= items@.len(),
                borrowed == items@.unref(),
                obeys_set_model::<String, SB>() ==> spells_same(owned@, borrowed.take(i as int).to_set()),
            decreases items@.len() - i,
        {
            let s: &str = *items[i];
            let x: String = s.to_owned();
            let ghost before = owned@;
            owned.insert(x);
            proof {
                if obeys_set_model::<String, SB>() {
                    let done = borrowed.take(i as int).to_set();
                    let now = borrowed.take(i + 1).to_set();
                    assert(borrowed.take(i + 1) =~= borrowed.take(i as int).push(borrowed[i as int]));
                    borrowed.take(i as int).lemma_push_to_set_commute(borrowed[i as int]);
                    assert forall|y: String| #[trigger] owned@.contains(y)
                        implies exists|t: &'a str| now.contains(t) && t@ == y@ by {
                        if y == x {
                            assert(now.contains(borrowed[i as int]));
                        } else {
                            let t = choose|t: &'a str| done.contains(t) && t@ == y@;
                            assert(now.contains(t));
                        }
                    }
                    assert forall|t: &'a str| #[trigger] now.contains(t)
                        implies exists|y: String| owned@.contains(y) && t@ == y@ by {
                        if done.contains(t) {
                            let y = choose|y: String| before.contains(y) && t@ == y@;
                            assert(owned@.contains(y));
                        } else {
                            assert(owned@.contains(x));
                        }
                    }
                }
            }
            i = i + 1;
        }
        proof {
            assert(borrowed.take(items@.len() as int) =~= borrowed);
        }
        owned
    }
}

impl<'s, 'a, SA: std::hash::BuildHasher, SB: std::hash::BuildHasher + Default + Clone> FromSpecImpl<&'s HashSet<&'a str, SA>> for HashSet<String, SB> {
    open spec fn obeys_from_spec() -> bool {
        false
    }

    open spec fn from_spec(set: &'s HashSet<&'a str, SA>) -> Self {
        arbitrary()
    }
}

} // verus!
