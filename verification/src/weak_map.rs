//! Maps keyed by weak handles: dropping the entries whose value is no longer stored.

use std::collections::HashMap;
use vstd::prelude::*;

use crate::interned::{Intern, Interned, Weak};
use crate::interner::{internable, TypedInterner};
use crate::std_calls::{retain_alive_keys, retain_alive_keys_and};

verus! {

/// Whether the value `key` was made from is still stored.
pub(crate) fn is_alive<K: ?Sized + Intern>(key: &Weak<K>, interner: &TypedInterner<K>) -> (r: bool)
    requires
        interner.wf(),
    ensures
        r == interner@.contains_key(key.id()),
{
    !key.dead(interner)
}

/// Decides whether the entry under `key` stays: only when its value is still stored and `f`,
/// given a handle to that value, says so. The handle is given back afterwards, so the
/// interner ends as it began.
pub(crate) fn keep_alive_and<K: ?Sized + Intern, V, F: FnMut(&Interned<K>, &mut V) -> bool>(
    key: &Weak<K>,
    value: &mut V,
    interner: &mut TypedInterner<K>,
    f: &mut F,
) -> (r: bool)
    requires
        old(interner).wf(),
        internable::<K>(),
        old(interner).counts_below_limit(),
        forall|h: &Interned<K>, v: &mut V| #[trigger] call_requires(*old(f), (h, v)),
    ensures
        final(interner).wf(),
        final(interner)@ == old(interner)@,
        final(interner).next_fresh() == old(interner).next_fresh(),
        final(interner).same_names(old(interner)),
        !old(interner)@.contains_key(key.id()) ==> {
            &&& !r
            &&& *final(value) == *old(value)
        },
        old(interner)@.contains_key(key.id()) ==> exists|h: Interned<K>, x: &mut V|
            {
                &&& #[trigger] call_ensures(*old(f), (&h, x), r)
                &&& h.id() == key.id()
                &&& h.arc() == old(interner)@[key.id()].value
                &&& mut_ref_current(x) == *old(value)
                &&& mut_ref_future(x) == *final(value)
            },
{
    match key.upgrade(interner) {
        Some(h) => {
            proof {
                old(interner).lemma_stored_counts(key.id());
            }
            let keep = f(&h, value);
            interner.drop_value(h);
            proof {
                assert(interner@ =~= old(interner)@);
            }
            keep
        },
        None => false,
    }
}

/// Cleaning up maps whose keys are [`Weak`] handles; the map is seen as its entries.
pub trait WeakMapExt<K: ?Sized + Intern, V>: View<V = Map<Weak<K>, V>> {
    /// Removes the entries whose key is dead, keeping the others.
    fn retain_alive(&mut self, interner: &TypedInterner<K>)
        requires
            interner.wf(),
        ensures
            final(self)@ == old(self)@.restrict(
                old(self)@.dom().filter(|k: Weak<K>| interner@.contains_key(k.id())),
            ),
    ;

    /// Removes the entries whose key is dead or for which `f` says `false`.
    fn retain_alive_and<F: FnMut(&Interned<K>, &mut V) -> bool>(
        &mut self,
        interner: &mut TypedInterner<K>,
        f: F,
    )
        requires
            old(interner).wf(),
            internable::<K>(),
            old(interner).counts_below_limit(),
            forall|h: &Interned<K>, v: &mut V| #[trigger] call_requires(f, (h, v)),
        ensures
            final(interner).wf(),
            final(interner)@ == old(interner)@,
            final(interner).next_fresh() == old(interner).next_fresh(),
            final(interner).same_names(old(interner)),
            final(self)@.dom().subset_of(old(self)@.dom()),
            forall|k: Weak<K>| #[trigger] final(self)@.contains_key(k) ==> old(interner)@.contains_key(k.id()),
            forall|k: Weak<K>|
                #![trigger old(self)@.contains_key(k)]
                old(self)@.contains_key(k) && !old(interner)@.contains_key(k.id())
                    ==> !final(self)@.contains_key(k),
            forall|k: Weak<K>|
                #![trigger final(self)@.contains_key(k)]
                old(self)@.contains_key(k) && old(interner)@.contains_key(k.id())
                    && final(self)@.contains_key(k) ==> exists|h: Interned<K>, x: &mut V|
                    {
                        &&& #[trigger] call_ensures(f, (&h, x), true)
                        &&& h.id() == k.id()
                        &&& h.arc() == old(interner)@[k.id()].value
                        &&& mut_ref_current(x) == old(self)@[k]
                        &&& mut_ref_future(x) == final(self)@[k]
                    },
            forall|k: Weak<K>|
                #![trigger old(self)@.contains_key(k)]
                old(self)@.contains_key(k) && old(interner)@.contains_key(k.id())
                    && !final(self)@.contains_key(k) ==> exists|h: Interned<K>, x: &mut V|
                    {
                        &&& #[trigger] call_ensures(f, (&h, x), false)
                        &&& h.id() == k.id()
                        &&& h.arc() == old(interner)@[k.id()].value
                        &&& mut_ref_current(x) == old(self)@[k]
                    },
    ;
}

impl<K: ?Sized + Intern, V, S> WeakMapExt<K, V> for HashMap<Weak<K>, V, S> {
    fn retain_alive(&mut self, interner: &TypedInterner<K>) {
        retain_alive_keys(self, interner)
    }

    fn retain_alive_and<F: FnMut(&Interned<K>, &mut V) -> bool>(
        &mut self,
        interner: &mut TypedInterner<K>,
        f: F,
    ) {
        retain_alive_keys_and(self, interner, f)
    }
}

} // verus!
