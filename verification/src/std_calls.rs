//! Calls into `std::collections::HashSet` that vstd gives no specification.
use vstd::prelude::*;
use vstd::std_specs::hash::obeys_key_model;
use vstd::std_specs::hash::builds_valid_hashers;
use vstd::std_specs::hash::set_contains_borrowed_key;
use vstd::std_specs::hash::sets_borrowed_key_to_key;

verus! {

/// Calls `std::collections::HashSet::replace`.
///
/// Trusted: when the element type and the hasher obey the hash-table model,
/// the value is in the table afterwards and nothing else changed; the
/// result is `Some` exactly when an equal value was there before, and that
/// value (being equal) is identical to the one handed in.
#[verifier::external_body]
pub(crate) fn set_replace<A: std::hash::Hash + Eq, S: std::hash::BuildHasher>(
    set: &mut std::collections::HashSet<A, S>,
    value: A,
) -> (replaced: Option<A>)
    ensures
        obeys_key_model::<A>() && builds_valid_hashers::<S>() ==> {
            &&& final(set)@ == old(set)@.insert(value)
            &&& (replaced is Some <==> old(set)@.contains(value))
            &&& (replaced matches Some(v) ==> v == value)
        },
{
    set.replace(value)
}

/// Calls `std::collections::HashSet::take`.
///
/// Trusted: under the hash-table model, when the table holds a value equal
/// to `key`, that value is removed and handed back; otherwise the table is
/// unchanged and the result is `None`.
#[verifier::external_body]
pub(crate) fn set_take<
    A: std::borrow::Borrow<Q> + std::hash::Hash + Eq,
    S: std::hash::BuildHasher,
    Q: std::hash::Hash + Eq + ?Sized,
>(set: &mut std::collections::HashSet<A, S>, key: &Q) -> (taken: Option<A>)
    ensures
        obeys_key_model::<A>() && builds_valid_hashers::<S>() ==> {
            &&& (taken is Some <==> set_contains_borrowed_key(old(set)@, key))
            &&& (taken matches Some(v) ==> {
                &&& sets_borrowed_key_to_key(old(set)@, key, &v)
                &&& old(set)@.contains(v)
                &&& final(set)@ == old(set)@.remove(v)
            })
            &&& (taken is None ==> final(set)@ == old(set)@)
        },
{
    set.take(key)
}

/// Calls `std::collections::HashSet::with_hasher`.
///
/// Trusted: the table it makes is empty.
#[verifier::external_body]
pub(crate) fn set_with_hasher<A, S>(hasher: S) -> (set: std::collections::HashSet<A, S>)
    ensures
        set@ == Set::<A>::empty(),
{
    std::collections::HashSet::with_hasher(hasher)
}

/// Calls `std::collections::HashSet::hasher`.
///
/// It hands back the hasher the table was made with. The table's hasher has
/// no model in vstd's specification of `HashSet`, and a name for it would be
/// generic in the element and hasher types, so nothing is stated of it.
#[verifier::external_body]
pub(crate) fn set_hasher<A, S>(set: &std::collections::HashSet<A, S>) -> (hasher: &S) {
    set.hasher()
}

/// Calls `std::sync::Arc::make_mut` on a shared table.
///
/// Trusted: the reference handed out is to the table itself when no other
/// handle shares it, and to a fresh clone of it otherwise; either way it
/// holds the same values (given that cloning an element gives back an equal
/// element, part of the hash-table model), and what is written through it is
/// what the handle holds afterwards.
#[verifier::external_body]
pub(crate) fn table_make_mut<A: Clone, S: Clone>(
    table: &mut std::sync::Arc<std::collections::HashSet<A, S>>,
) -> (owned: &mut std::collections::HashSet<A, S>)
    ensures
        obeys_key_model::<A>() ==> (*owned)@ == (*old(table))@,
        *final(table) == *final(owned),
{
    std::sync::Arc::make_mut(table)
}

/// Calls `std::collections::HashSet::drain`, collecting what it yields.
///
/// Trusted: under the hash-table model the table is empty afterwards, and
/// the values handed out are those it held, each once, in some order.
#[verifier::external_body]
pub(crate) fn set_drain<A, S>(set: &mut std::collections::HashSet<A, S>) -> (values: Vec<A>)
    ensures
        obeys_key_model::<A>() && builds_valid_hashers::<S>() ==> {
            &&& final(set)@ == Set::<A>::empty()
            &&& values@.to_set() == old(set)@
            &&& values@.no_duplicates()
        },
{
    set.drain().collect()
}

} // verus!
