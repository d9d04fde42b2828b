# globin

Interning of values that implement `Hash` and `Eq`: every distinct value is stored once, and
every request for an equal value hands out a handle to that stored copy. Handles compare and
hash by identity, weak handles do not keep a value stored, and a registry keeps one interner
per type, in the order the interners were added.

## Layout

- `src/` is the verified library.
  - `interner.rs`: `TypedInterner<T>`, the store of one type's values with their counts of
    references, and the `InternRef` trait.
  - `interned.rs`: `Interned<T>` (a counted handle) and `Weak<T>`, with the constructors
    `from_owned`, `from_box`, `from_ref` and `slice_from_array`.
  - `order.rs`: ordering of handles by their values.
  - `weak_map.rs`: `WeakMapExt`, cleaning maps keyed by weak handles.
  - `registry.rs`: the `Interner` trait and `InternerRegistry`, keyed by an integer per type.
  - `laws.rs`: properties that span several operations, proved.
  - `outside.rs`, `std_calls.rs`: the trusted declarations of the calls into `ahash`,
    `indexmap` and the standard library.
- `app/` is the global, thread-safe face: the `INTERNERS` registry behind a lock, handles
  that give their value back when dropped, type-keyed access to the interners, and `serde`.
- `tests/` runs the library on concrete values.

The library keeps the counts of references itself: a handle is made only by its interner
(`from_*`, `get`, `intern`, `share`, `Weak::upgrade`) and given back with `drop_value`, so the
interner knows when the last handle of a value is gone and removes the value.

Every function that looks values up by content requires `internable::<T>()`: that `T`'s
`Hash` agrees with its `Eq`, the condition every hash set of `T` depends on, and beyond that
that `Eq` is equality of the values themselves (two values that compare equal are the same
value, so an `Eq` that ignores a field is outside the contracts) and that a clone equals its
original. The verifier's model of hash maps has no such fact for `Arc` keys, so verified code
can only pass it on as a precondition; it is not a proved fact.

Ids are never reused, not even across interners of one type: the registry keeps an id floor
at or above every id handed out by an interner it removed, and gives that floor to `init`
when it makes a new interner, which starts from it (`TypedInterner::starting_at`). A weak
handle to a value of a removed interner therefore stays dead.
