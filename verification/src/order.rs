//! Ordering of handles: the order of their values, with a handle always equal to itself.

use std::cmp::Ordering;
use vstd::prelude::*;
use vstd::std_specs::cmp::{OrdSpec, PartialOrdSpec};

use crate::interned::{Intern, Interned};
use crate::interner::TypedInterner;

verus! {

impl<T: ?Sized + Intern + PartialOrd> PartialOrd for Interned<T> {
    fn partial_cmp(&self, other: &Self) -> (r: Option<Ordering>) {
        if self.id_of() == other.id_of() {
            Some(Ordering::Equal)
        } else {
            self.get().partial_cmp(other.get())
        }
    }
}

impl<T: ?Sized + Intern + PartialOrd> vstd::std_specs::cmp::PartialOrdSpecImpl for Interned<T> {
    open spec fn obeys_partial_cmp_spec() -> bool {
        T::obeys_partial_cmp_spec()
    }

    open spec fn partial_cmp_spec(&self, other: &Self) -> Option<Ordering> {
        if self.id() == other.id() {
            Some(Ordering::Equal)
        } else {
            T::partial_cmp_spec(&*self.arc(), &*other.arc())
        }
    }
}

impl<T: ?Sized + Intern + Ord> Interned<T> {
    /// The total order of the values; a handle compares equal to itself without looking at
    /// its value.
    pub fn cmp(&self, other: &Self) -> (r: Ordering)
        ensures
            self.id() == other.id() ==> r == Ordering::Equal,
            self.id() != other.id() && T::obeys_cmp_spec() ==> r == T::cmp_spec(
                &*self.arc(),
                &*other.arc(),
            ),
    {
        if self.id_of() == other.id_of() {
            Ordering::Equal
        } else {
            self.get().cmp(other.get())
        }
    }
}

/// Comparing two handles of one interner is comparing their values, as long as every value
/// compares equal to itself.
pub proof fn lemma_order_is_value_order<T: ?Sized + Intern + PartialOrd>(
    interner: &TypedInterner<T>,
    a: &Interned<T>,
    b: &Interned<T>,
)
    requires
        interner.wf(),
        interner.holds(a),
        interner.holds(b),
        forall|x: &T| #[trigger] T::partial_cmp_spec(x, x) == Some(Ordering::Equal),
    ensures
        a.partial_cmp_spec(b) == T::partial_cmp_spec(&*a.arc(), &*b.arc()),
{
    if a.id() == b.id() {
        assert(T::partial_cmp_spec(&*a.arc(), &*a.arc()) == Some(Ordering::Equal));
    }
}

} // verus!
