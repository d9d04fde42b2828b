//! Trusted declarations for standard-library calls that vstd does not specify, or specifies
//! only for the standard hasher.

use std::collections::HashMap;
use std::hash::{Hash, Hasher};
use std::sync::Arc;
use vstd::prelude::*;
use vstd::std_specs::hash::obeys_key_model;

use crate::interned::{Intern, Interned, Weak};
use crate::interner::{internable, TypedInterner};
use crate::weak_map::{is_alive, keep_alive_and};

verus! {

/// `<Arc<T> as Clone>::clone`: the clone points to the same allocation, so it holds the same
/// value.
#[verifier::external_body]
pub(crate) fn arc_clone<T: ?Sized>(a: &Arc<T>) -> (r: Arc<T>)
    ensures
        r == *a,
{
    Arc::clone(a)
}

/// `<Arc<T> as From<Box<T>>>::from`: moves the boxed value into a new allocation unchanged.
#[verifier::external_body]
pub(crate) fn arc_from_box<T: ?Sized>(b: Box<T>) -> (r: Arc<T>)
    ensures
        &*r == &*b,
{
    Arc::from(b)
}

/// `<Arc<[T]> as From<[T; N]>>::from`: moves the array's elements into a new slice
/// allocation, in order.
#[verifier::external_body]
pub(crate) fn arc_slice_from_array<T, const N: usize>(a: [T; N]) -> (r: Arc<[T]>)
    ensures
        &*r == vstd::array::spec_array_as_slice(&a),
{
    Arc::from(a)
}

/// `<Box<[T]> as From<&[T]>>::from`: a new boxed slice holding clones of the elements, in
/// order.
#[verifier::external_body]
pub(crate) fn box_slice_from<T: Clone>(s: &[T]) -> (r: Box<[T]>)
    ensures
        (&*r)@.len() == s@.len(),
        forall|i: int| 0 <= i < s@.len() ==> cloned::<T>(s@[i], #[trigger] (&*r)@[i]),
{
    Box::from(s)
}

/// `<Box<str> as From<&str>>::from`: a new boxed copy of the text.
#[verifier::external_body]
pub(crate) fn box_str_from(s: &str) -> (r: Box<str>)
    ensures
        &*r == s,
{
    Box::from(s)
}

/// `HashMap::with_hasher`: an empty map hashing with `hasher`.
#[verifier::external_body]
pub(crate) fn map_with_hasher<K, V>(hasher: ahash::RandomState) -> (map: HashMap<K, V, ahash::RandomState>)
    ensures
        map@.dom().is_empty(),
{
    HashMap::with_hasher(hasher)
}

/// `HashMap::len`: the number of entries.
#[verifier::external_body]
pub(crate) fn map_len<K, V>(m: &HashMap<K, V, ahash::RandomState>) -> (r: usize)
    ensures
        r == m@.len(),
{
    m.len()
}

/// `HashMap::get` for integer keys: the value under `id`, if any.
#[verifier::external_body]
pub(crate) fn map_get<V>(m: &HashMap<u64, V, ahash::RandomState>, id: u64) -> (r: Option<&V>)
    ensures
        match r {
            Some(v) => m@.contains_key(id) && *v == m@[id],
            None => !m@.contains_key(id),
        },
{
    m.get(&id)
}

/// `HashMap::keys` for integer keys, collected: every key once, in the map's order.
#[verifier::external_body]
pub(crate) fn map_keys<V>(m: &HashMap<u64, V, ahash::RandomState>) -> (r: Vec<u64>)
    ensures
        r@.no_duplicates(),
        r@.to_set() == m@.dom(),
{
    m.keys().copied().collect()
}

/// `HashMap::insert`: when the key type obeys the hash-table model, `v` goes under `k`, and
/// what was there is returned.
#[verifier::external_body]
pub(crate) fn map_insert<K: Eq + Hash, V>(m: &mut HashMap<K, V, ahash::RandomState>, k: K, v: V) -> (r: Option<V>)
    ensures
        obeys_key_model::<K>() ==> final(m)@ == old(m)@.insert(k, v),
        obeys_key_model::<K>() ==> match r {
            Some(prev) => old(m)@.contains_key(k) && prev == old(m)@[k],
            None => !old(m)@.contains_key(k),
        },
{
    m.insert(k, v)
}

/// `HashMap::remove`: when the key type obeys the hash-table model, the entry under `k` is
/// taken out and its value returned.
#[verifier::external_body]
pub(crate) fn map_remove<K: Eq + Hash, V>(m: &mut HashMap<K, V, ahash::RandomState>, k: &K) -> (r: Option<V>)
    ensures
        obeys_key_model::<K>() ==> final(m)@ == old(m)@.remove(*k),
        obeys_key_model::<K>() ==> match r {
            Some(prev) => old(m)@.contains_key(*k) && prev == old(m)@[*k],
            None => !old(m)@.contains_key(*k),
        },
{
    m.remove(k)
}

/// `HashMap::<Arc<T>, u64>::get::<T>`, looking a key up by the value it points to
/// (`Arc<T>: Borrow<T>`, and `Arc`'s `Hash` and `Eq` are those of `T`). When the key type
/// obeys the hash-table model, the result is the id stored under a key pointing to a value
/// equal to `v`, and `None` exactly when there is no such key.
#[verifier::external_body]
pub(crate) fn get_by_value<T: ?Sized + Eq + Hash>(m: &HashMap<Arc<T>, u64, ahash::RandomState>, v: &T) -> (r: Option<u64>)
    ensures
        obeys_key_model::<Arc<T>>() ==> match r {
            Some(id) => exists|k: Arc<T>| #[trigger] m@.contains_key(k) && &*k == v && m@[k] == id,
            None => forall|k: Arc<T>| #[trigger] m@.contains_key(k) ==> &*k != v,
        },
{
    m.get(v).copied()
}

/// `HashMap::capacity`: how many entries the map holds without reallocating. Its exact value
/// depends on the allocator; what is stated is that it is at least the number of entries the
/// map already holds.
#[verifier::external_body]
pub(crate) fn map_capacity<K, V>(m: &HashMap<K, V, ahash::RandomState>) -> (r: usize)
    ensures
        r >= m@.len(),
{
    m.capacity()
}

/// `HashMap::shrink_to_fit`: only the allocation changes, the entries stay.
#[verifier::external_body]
pub(crate) fn map_shrink_to_fit<K: Eq + Hash, V>(m: &mut HashMap<K, V, ahash::RandomState>)
    ensures
        final(m)@ == old(m)@,
{
    m.shrink_to_fit()
}

/// `HashMap::shrink_to`: only the allocation changes, the entries stay.
#[verifier::external_body]
pub(crate) fn map_shrink_to<K: Eq + Hash, V>(m: &mut HashMap<K, V, ahash::RandomState>, min_capacity: usize)
    ensures
        final(m)@ == old(m)@,
{
    m.shrink_to(min_capacity)
}

/// `HashMap::retain` with the predicate `is_alive`: keeps exactly the entries whose key's
/// value is still stored.
#[verifier::external_body]
pub(crate) fn retain_alive_keys<K: ?Sized + Intern, V, S>(
    m: &mut HashMap<Weak<K>, V, S>,
    interner: &TypedInterner<K>,
)
    requires
        interner.wf(),
    ensures
        final(m)@ == old(m)@.restrict(
            old(m)@.dom().filter(|k: Weak<K>| interner@.contains_key(k.id())),
        ),
{
    m.retain(|key, _| is_alive(key, interner))
}

/// `HashMap::retain` with the predicate `keep_alive_and`. `retain` calls the predicate once on
/// each entry and keeps exactly the entries for which it says `true`, with their values as the
/// predicate left them. So, by `keep_alive_and`'s contract: an entry whose key is dead goes;
/// an entry whose key is alive stays exactly when `f`, given a handle to the key's value and
/// the entry's value, says `true`, and it then holds what `f` left; every call leaves the
/// interner as it was.
#[verifier::external_body]
pub(crate) fn retain_alive_keys_and<K: ?Sized + Intern, V, S, F: FnMut(&Interned<K>, &mut V) -> bool>(
    m: &mut HashMap<Weak<K>, V, S>,
    interner: &mut TypedInterner<K>,
    f: F,
)
    requires
        old(interner).wf(),
        internable::<K>(),
        old(interner).counts_below_limit(),
        forall|h: &Interned<K>, v: &mut V| #[trigger] call_requires(f, (h, v)),
    ensures
        final(interner).wf(),
        final(interner)@ == old(interner)@,
        final(interner).next_fresh() == old(interner).next_fresh(),
        final(interner).same_names(old(interner)),
        final(m)@.dom().subset_of(old(m)@.dom()),
        forall|k: Weak<K>| #[trigger] final(m)@.contains_key(k) ==> old(interner)@.contains_key(k.id()),
        forall|k: Weak<K>|
            #![trigger old(m)@.contains_key(k)]
            old(m)@.contains_key(k) && !old(interner)@.contains_key(k.id())
                ==> !final(m)@.contains_key(k),
        forall|k: Weak<K>|
            #![trigger final(m)@.contains_key(k)]
            old(m)@.contains_key(k) && old(interner)@.contains_key(k.id())
                && final(m)@.contains_key(k) ==> exists|h: Interned<K>, x: &mut V|
                {
                    &&& #[trigger] call_ensures(f, (&h, x), true)
                    &&& h.id() == k.id()
                    &&& h.arc() == old(interner)@[k.id()].value
                    &&& mut_ref_current(x) == old(m)@[k]
                    &&& mut_ref_future(x) == final(m)@[k]
                },
        forall|k: Weak<K>|
            #![trigger old(m)@.contains_key(k)]
            old(m)@.contains_key(k) && old(interner)@.contains_key(k.id())
                && !final(m)@.contains_key(k) ==> exists|h: Interned<K>, x: &mut V|
                {
                    &&& #[trigger] call_ensures(f, (&h, x), false)
                    &&& h.id() == k.id()
                    &&& h.arc() == old(interner)@[k.id()].value
                    &&& mut_ref_current(x) == old(m)@[k]
                },
{
    let mut f = f;
    m.retain(|key, value| keep_alive_and(key, value, interner, &mut f))
}

/// `u64`'s `Hash::hash` feeds the integer to the hasher; nothing is stated of the hasher's
/// state afterwards.
pub assume_specification<H: Hasher>[ <u64 as Hash>::hash::<H> ](v: &u64, state: &mut H);

} // verus!
