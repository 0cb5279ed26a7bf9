//! An unordered set of values, kept in a hash table.
//!
//! The set is modelled by a `Set<A>` (its view, `s@`).  Every contract that
//! speaks of the view holds when the element type and the hasher behave as
//! a hash table expects (see [`hashset::obeys_set_model`]): hashing is
//! deterministic, `==` coincides with identity, `clone` gives back an equal
//! value, and the hasher builds hashers that agree on equal inputs.

pub mod hashset;
pub mod iter;
pub mod laws;
pub mod order;
pub mod traits;
mod std_calls;
