# im_hashset

An unordered set of values kept in a hash table, with set algebra
(union, intersection, the difference of values in exactly one of two sets,
subset tests), filtering, conversions and iteration, verified with Verus.

Layout:

- `src/hashset.rs` — the `HashSet` type, its view (`Set<A>`), and its
  operations with their contracts.
- `src/iter.rs` — `Iter` and `ConsumingIter`, whose views are the values
  still to come.
- `src/traits.rs` — equality, `Default`, the `+` / `*` operators and the
  `From` conversions.
- `src/order.rs` — ordering of sets by the sequences their iterators hand
  out.
- `src/laws.rs` — laws of the set operations as proof functions.
- `src/std_calls.rs` — the calls into `std::collections::HashSet` that vstd
  gives no specification, each with the contract it is trusted to meet.
- `app/` — what needs ordinary Rust: the `hashset!` macro, standard
  `Iterator` adapters, collecting from any iterator, and a `quickcheck`
  generator.

The contracts speak of the view whenever the element type and the hasher
obey the hash-table model of vstd (`obeys_set_model`): hashing is
deterministic, `==` coincides with identity and `clone` gives back an equal
value. vstd establishes this for the primitive types and `RandomState`.

Costs: a set and its clones share one table, so `clone` is cheap and a clone
iterates in the same order as its source; equal sets whose tables were built
differently may iterate in different orders, though they always compare
equal. The first change to a shared
table copies the whole table, so `update`, `without` and any change to a
clone take time linear in the size of the set; `retain` takes the values out
and puts back those it keeps, hashing them again.
