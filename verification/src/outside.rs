//! Trusted declarations for the calls into `ahash` and `indexmap`.

use indexmap::IndexSet;
use vstd::prelude::*;

verus! {

/// `ahash::RandomState`, the hasher of the registry's key set.
#[verifier::external_type_specification]
#[verifier::external_body]
pub struct ExAHashState(ahash::RandomState);

/// `indexmap::IndexSet`: a hash set that keeps its items in insertion order.
#[verifier::external_type_specification]
#[verifier::external_body]
#[verifier::reject_recursive_types(T)]
#[verifier::reject_recursive_types(S)]
pub struct ExIndexSet<T, S>(IndexSet<T, S>);

/// The keys held by a key set, in their order.
pub uninterp spec fn registered_keys(s: IndexSet<u64, ahash::RandomState>) -> Seq<u64>;

/// `ahash::RandomState::new`: a hasher with random keys; nothing is stated of them.
#[verifier::external_body]
pub(crate) fn new_hasher() -> ahash::RandomState {
    ahash::RandomState::new()
}

/// `IndexSet::with_hasher`: an empty set.
#[verifier::external_body]
pub(crate) fn keys_with_hasher(hasher: ahash::RandomState) -> (r: IndexSet<u64, ahash::RandomState>)
    ensures
        registered_keys(r) == Seq::<u64>::empty(),
{
    IndexSet::with_hasher(hasher)
}

/// `IndexSet::len`: the number of keys.
#[verifier::external_body]
pub(crate) fn keys_len(s: &IndexSet<u64, ahash::RandomState>) -> (r: usize)
    ensures
        r == registered_keys(*s).len(),
{
    s.len()
}

/// `IndexSet::get_index_of`: the position of `key`, or `None` when it is not in the set.
#[verifier::external_body]
pub(crate) fn keys_index_of(s: &IndexSet<u64, ahash::RandomState>, key: u64) -> (r: Option<usize>)
    ensures
        match r {
            Some(i) => i < registered_keys(*s).len() && registered_keys(*s)[i as int] == key,
            None => !registered_keys(*s).contains(key),
        },
{
    s.get_index_of(&key)
}

/// `IndexSet::insert_full`: a key not in the set yet goes at the end; one already there stays
/// where it is. Returns its position and whether it was new.
#[verifier::external_body]
pub(crate) fn keys_insert_full(s: &mut IndexSet<u64, ahash::RandomState>, key: u64) -> (r: (usize, bool))
    ensures
        registered_keys(*old(s)).contains(key) ==> {
            &&& registered_keys(*final(s)) == registered_keys(*old(s))
            &&& !r.1
            &&& r.0 < registered_keys(*old(s)).len()
            &&& registered_keys(*old(s))[r.0 as int] == key
        },
        !registered_keys(*old(s)).contains(key) ==> {
            &&& registered_keys(*final(s)) == registered_keys(*old(s)).push(key)
            &&& r.1
            &&& r.0 == registered_keys(*old(s)).len()
        },
{
    s.insert_full(key)
}

/// `IndexSet::shift_remove_index`: removes the key at position `i`, keeping the order of the
/// others; `None` and no change when `i` is past the end.
#[verifier::external_body]
pub(crate) fn keys_shift_remove_index(s: &mut IndexSet<u64, ahash::RandomState>, i: usize) -> (r: Option<u64>)
    ensures
        i < registered_keys(*old(s)).len() ==> {
            &&& r == Some(registered_keys(*old(s))[i as int])
            &&& registered_keys(*final(s)) == registered_keys(*old(s)).remove(i as int)
        },
        i >= registered_keys(*old(s)).len() ==> {
            &&& r is None
            &&& registered_keys(*final(s)) == registered_keys(*old(s))
        },
{
    s.shift_remove_index(i)
}

} // verus!
