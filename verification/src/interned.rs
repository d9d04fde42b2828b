//! Handles to interned values, and weak handles that do not keep a value stored.

use std::collections::HashMap;
use std::hash::{Hash, Hasher};
use std::marker::PhantomData;
use std::ops::Deref;
use std::sync::Arc;
use vstd::prelude::*;

use crate::interner::{internable, InternRef, TypedInterner};
use crate::std_calls::{arc_from_box, arc_slice_from_array};

verus! {

/// Everything that can be interned: values are looked up by `Hash` and `Eq`, and shared
/// between threads.
pub trait Intern: Hash + Eq + Send + Sync + 'static {}

impl<T: ?Sized + Hash + Eq + Send + Sync + 'static> Intern for T {}

/// A handle to a value stored once in a [`TypedInterner`].
///
/// Each handle is one of the stored value's references. Handles are made by the interner,
/// which counts them, and given back to it with [`TypedInterner::drop_value`]; two handles
/// from the same interner are equal exactly when their values are equal.
pub struct Interned<T: ?Sized + Intern> {
    id: u64,
    value: Arc<T>,
}

impl<T: ?Sized + Intern> Interned<T> {
    /// The identity of the stored value this handle refers to.
    pub closed spec fn id(&self) -> u64 {
        self.id
    }

    /// The shared allocation of the value.
    pub closed spec fn arc(&self) -> Arc<T> {
        self.value
    }

    pub(crate) fn new(id: u64, value: Arc<T>) -> (r: Self)
        ensures
            r.id() == id,
            r.arc() == value,
    {
        Interned { id, value }
    }

    pub(crate) fn id_of(&self) -> (r: u64)
        ensures
            r == self.id(),
    {
        self.id
    }

    pub(crate) fn into_arc(self) -> (r: Arc<T>)
        ensures
            r == self.arc(),
    {
        self.value
    }

    /// The interned value.
    pub fn get(&self) -> (r: &T)
        ensures
            r == &*self.arc(),
    {
        &*self.value
    }

    /// A weak handle to the same stored value.
    pub fn downgrade(this: &Self) -> (r: Weak<T>)
        ensures
            r.id() == this.id(),
    {
        Weak { id: this.id, marker: PhantomData }
    }

    /// Interns a boxed value, or hands out the value stored already that equals it.
    pub fn from_box(interner: &mut TypedInterner<T>, value: Box<T>) -> (r: Self)
        requires
            old(interner).wf(),
            internable::<T>(),
            old(interner).counts_below_limit(),
            old(interner).has_fresh_id(),
        ensures
            final(interner).interned_from(old(interner), &*value, &r),
    {
        match interner.get(&*value) {
            Some(h) => h,
            None => interner.intern(arc_from_box(value)),
        }
    }

    /// Interns a copy of `value` made by [`InternRef::intern_ref`], or hands out the value
    /// stored already that equals it.
    pub fn from_ref(interner: &mut TypedInterner<T>, value: &T) -> (r: Self)
        where
            T: InternRef,
        requires
            old(interner).wf(),
            internable::<T>(),
            old(interner).counts_below_limit(),
            old(interner).has_fresh_id(),
        ensures
            final(interner).wf(),
            final(interner).same_names(old(interner)),
            final(interner).holds(&r),
            old(interner).interns(value) ==> final(interner).interned_from(old(interner), value, &r),
            !old(interner).interns(value) ==> exists|b: Box<T>| {
                &&& #[trigger] call_ensures(T::intern_ref, (value,), b)
                &&& final(interner).interned_from(old(interner), &*b, &r)
            },
    {
        match interner.get(value) {
            Some(h) => h,
            None => {
                let b = value.intern_ref();
                let ghost copy = b;
                let r = interner.intern(arc_from_box(b));
                assert(interner.interned_from(old(interner), &*copy, &r));
                r
            },
        }
    }
}

impl<T: Intern> Interned<T> {
    /// Interns `value`, or hands out the value stored already that equals it (`value` is then
    /// dropped).
    pub fn from_owned(interner: &mut TypedInterner<T>, value: T) -> (r: Self)
        requires
            old(interner).wf(),
            internable::<T>(),
            old(interner).counts_below_limit(),
            old(interner).has_fresh_id(),
        ensures
            final(interner).interned_from(old(interner), &value, &r),
    {
        match interner.get(&value) {
            Some(h) => h,
            None => interner.intern(Arc::new(value)),
        }
    }
}

impl<T: Intern> Interned<[T]> {
    /// Interns the elements of an array as a slice, or hands out the slice stored already that
    /// equals them.
    pub fn slice_from_array<const N: usize>(interner: &mut TypedInterner<[T]>, value: [T; N]) -> (r: Self)
        requires
            old(interner).wf(),
            internable::<[T]>(),
            old(interner).counts_below_limit(),
            old(interner).has_fresh_id(),
        ensures
            final(interner).interned_from(old(interner), vstd::array::spec_array_as_slice(&value), &r),
            (&*r.arc())@ == value@,
    {
        broadcast use vstd::array::group_array_axioms;
        let slice: &[T] = &value;
        let found = interner.get(slice);
        match found {
            Some(h) => h,
            None => interner.intern(arc_slice_from_array(value)),
        }
    }
}

impl<T: ?Sized + Intern> Deref for Interned<T> {
    type Target = T;

    fn deref(&self) -> (r: &T)
        ensures
            r == &*self.arc(),
    {
        &*self.value
    }
}

impl<T: ?Sized + Intern> PartialEq for Interned<T> {
    fn eq(&self, other: &Self) -> (r: bool) {
        self.id == other.id
    }
}

impl<T: ?Sized + Intern> vstd::std_specs::cmp::PartialEqSpecImpl for Interned<T> {
    open spec fn obeys_eq_spec() -> bool {
        true
    }

    open spec fn eq_spec(&self, other: &Self) -> bool {
        self.id() == other.id()
    }
}

impl<T: ?Sized + Intern> Eq for Interned<T> {}

impl<T: ?Sized + Intern> PartialEq<Weak<T>> for Interned<T> {
    fn eq(&self, other: &Weak<T>) -> (r: bool) {
        self.id == other.id
    }
}

impl<T: ?Sized + Intern> vstd::std_specs::cmp::PartialEqSpecImpl<Weak<T>> for Interned<T> {
    open spec fn obeys_eq_spec() -> bool {
        true
    }

    open spec fn eq_spec(&self, other: &Weak<T>) -> bool {
        self.id() == other.id()
    }
}

impl<T: ?Sized + Intern> Hash for Interned<T> {
    fn hash<H: Hasher>(&self, state: &mut H) {
        self.id.hash(state);
    }
}

/// A handle that does not keep its value stored.
///
/// Once the last [`Interned`] of the value is given back, the weak handle is dead for good: it
/// compares equal only to weak handles of that same stored value, never to a handle of the
/// equal value interned again later.
pub struct Weak<T: ?Sized> {
    id: u64,
    marker: PhantomData<Arc<T>>,
}

impl<T: ?Sized> Weak<T> {
    /// The identity of the stored value this weak handle was made from; 0 for one that
    /// never was.
    pub closed spec fn id(&self) -> u64 {
        self.id
    }
}

impl<T> Weak<T> {
    /// A weak handle to no value; it never upgrades.
    pub fn new() -> (r: Self)
        ensures
            r.id() == 0,
    {
        Weak { id: 0, marker: PhantomData }
    }
}

impl<T> Default for Weak<T> {
    fn default() -> (r: Self)
        ensures
            r.id() == 0,
    {
        Self::new()
    }
}

impl<T: ?Sized + Intern> Weak<T> {
    /// Whether the weak handle can no longer be upgraded: its value is not stored (any more).
    pub fn dead(&self, interner: &TypedInterner<T>) -> (r: bool)
        requires
            interner.wf(),
        ensures
            r == !interner@.contains_key(self.id()),
    {
        interner.strong_count(self.id) <= 1
    }

    /// A new handle to the value, when it is still stored.
    pub fn upgrade(&self, interner: &mut TypedInterner<T>) -> (r: Option<Interned<T>>)
        requires
            old(interner).wf(),
            old(interner).counts_below_limit(),
        ensures
            final(interner).wf(),
            final(interner).same_names(old(interner)),
            final(interner).next_fresh() == old(interner).next_fresh(),
            old(interner)@.contains_key(self.id()) ==> {
                &&& r matches Some(h)
                &&& h.id() == self.id()
                &&& h.arc() == old(interner)@[self.id()].value
                &&& final(interner)@ == crate::interner::with_one_more(old(interner)@, self.id())
            },
            !old(interner)@.contains_key(self.id()) ==> r is None && final(interner)@ == old(interner)@,
    {
        if self.dead(interner) {
            return None;
        }
        interner.upgrade_id(self.id)
    }
}

impl<T: ?Sized> Clone for Weak<T> {
    fn clone(&self) -> (r: Self)
        ensures
            r.id() == self.id(),
    {
        Weak { id: self.id, marker: PhantomData }
    }
}

impl<T: ?Sized> PartialEq for Weak<T> {
    fn eq(&self, other: &Self) -> (r: bool) {
        self.id == other.id
    }
}

impl<T: ?Sized> vstd::std_specs::cmp::PartialEqSpecImpl for Weak<T> {
    open spec fn obeys_eq_spec() -> bool {
        true
    }

    open spec fn eq_spec(&self, other: &Self) -> bool {
        self.id() == other.id()
    }
}

impl<T: ?Sized> Eq for Weak<T> {}

impl<T: ?Sized + Intern> PartialEq<Interned<T>> for Weak<T> {
    fn eq(&self, other: &Interned<T>) -> (r: bool) {
        self.id == other.id
    }
}

impl<T: ?Sized + Intern> vstd::std_specs::cmp::PartialEqSpecImpl<Interned<T>> for Weak<T> {
    open spec fn obeys_eq_spec() -> bool {
        true
    }

    open spec fn eq_spec(&self, other: &Interned<T>) -> bool {
        self.id() == other.id()
    }
}

impl<T: ?Sized> Hash for Weak<T> {
    fn hash<H: Hasher>(&self, state: &mut H) {
        self.id.hash(state);
    }
}

} // verus!
