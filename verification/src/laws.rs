//! Properties of the library that span several operations.

use vstd::prelude::*;
use vstd::std_specs::cmp::PartialEqSpec;

use crate::interned::{Intern, Interned, Weak};
use crate::interner::{extra_refs, root_duplicates, with_one_less, with_one_more, Slot, TypedInterner};
use crate::registry::{count_empty_in, keep_marked, Interner};

verus! {

/// Two handles from one interner are equal exactly when their values are equal.
pub proof fn lemma_handles_equal_iff_values_equal<T: ?Sized + Intern>(
    interner: &TypedInterner<T>,
    a: &Interned<T>,
    b: &Interned<T>,
)
    requires
        interner.wf(),
        interner.holds(a),
        interner.holds(b),
    ensures
        (a.id() == b.id()) <==> (&*a.arc() == &*b.arc()),
{
    if &*a.arc() == &*b.arc() {
        interner.lemma_ids_unique(a.id(), b.id());
    }
}

/// `==` on handles is an equivalence: every handle equals itself, the order of the two sides
/// does not matter, and equality carries over.
pub proof fn lemma_handle_eq_is_equivalence<T: ?Sized + Intern>(
    a: &Interned<T>,
    b: &Interned<T>,
    c: &Interned<T>,
)
    ensures
        a.eq_spec(a),
        a.eq_spec(b) == b.eq_spec(a),
        a.eq_spec(b) && b.eq_spec(c) ==> a.eq_spec(c),
{
}

/// `==` on two handles held by one interner answers whether their values are equal: handles
/// to different values are never equal, and handles to equal values always are.
pub proof fn lemma_handle_eq_iff_values_equal<T: ?Sized + Intern>(
    interner: &TypedInterner<T>,
    a: &Interned<T>,
    b: &Interned<T>,
)
    requires
        interner.wf(),
        interner.holds(a),
        interner.holds(b),
    ensures
        a.eq_spec(b) <==> (&*a.arc() == &*b.arc()),
{
    lemma_handles_equal_iff_values_equal(interner, a, b);
}

/// `==` on weak handles is an equivalence.
pub proof fn lemma_weak_eq_is_equivalence<T: ?Sized>(x: &Weak<T>, y: &Weak<T>, z: &Weak<T>)
    ensures
        x.eq_spec(x),
        x.eq_spec(y) == y.eq_spec(x),
        x.eq_spec(y) && y.eq_spec(z) ==> x.eq_spec(z),
{
}

/// Weak handles made from two handles held by one interner are equal exactly when the
/// handles' values are equal; this stays so after the values are gone, since it depends on
/// nothing but the two weak handles.
pub proof fn lemma_weak_eq_iff_values_equal<T: ?Sized + Intern>(
    interner: &TypedInterner<T>,
    a: &Interned<T>,
    b: &Interned<T>,
    wa: &Weak<T>,
    wb: &Weak<T>,
)
    requires
        interner.wf(),
        interner.holds(a),
        interner.holds(b),
        wa.id() == a.id(),
        wb.id() == b.id(),
    ensures
        wa.eq_spec(wb) <==> (&*a.arc() == &*b.arc()),
{
    lemma_handles_equal_iff_values_equal(interner, a, b);
}

/// Comparing a handle with a weak handle does not depend on the side each stands on, and
/// gives what comparing the handle's own weak handle (`Interned::downgrade`) with it gives; a
/// handle equals its own weak handle.
pub proof fn lemma_handle_weak_eq_agrees<T: ?Sized + Intern>(h: &Interned<T>, d: &Weak<T>, w: &Weak<T>)
    requires
        d.id() == h.id(),
    ensures
        h.eq_spec(w) == w.eq_spec(h),
        h.eq_spec(w) == d.eq_spec(w),
        h.eq_spec(d),
        d.eq_spec(h),
{
}

/// A handle held by an interner equals a weak handle made from another handle held there
/// exactly when the two values are equal, from either side.
pub proof fn lemma_handle_weak_eq_iff_values_equal<T: ?Sized + Intern>(
    interner: &TypedInterner<T>,
    a: &Interned<T>,
    b: &Interned<T>,
    wb: &Weak<T>,
)
    requires
        interner.wf(),
        interner.holds(a),
        interner.holds(b),
        wb.id() == b.id(),
    ensures
        a.eq_spec(wb) <==> (&*a.arc() == &*b.arc()),
        wb.eq_spec(a) <==> (&*a.arc() == &*b.arc()),
{
    lemma_handles_equal_iff_values_equal(interner, a, b);
}

/// Interning a value equal to that of a handle already handed out gives a handle to the same
/// stored value: no second copy is made.
pub proof fn lemma_interning_again_finds_the_stored_value<T: ?Sized + Intern>(
    before: &TypedInterner<T>,
    after: &TypedInterner<T>,
    v: &T,
    r: &Interned<T>,
    h: &Interned<T>,
)
    requires
        before.wf(),
        before.holds(h),
        &*h.arc() == v,
        after.interned_from(before, v, r),
    ensures
        r.id() == h.id(),
        r.arc() == h.arc(),
        after@.len() == before@.len(),
{
    assert(before@.contains_key(h.id()));
    assert(before.interns(v));
    before.lemma_ids_unique(r.id(), h.id());
    assert(after@.dom() =~= before@.dom());
}

/// Handing out one more handle and giving it back leaves the interner as it was.
pub proof fn lemma_share_then_drop<T: ?Sized>(m: Map<u64, Slot<T>>, id: u64)
    requires
        m.contains_key(id),
        m[id].strong < usize::MAX,
    ensures
        with_one_less(with_one_more(m, id), id) == m,
{
    assert(with_one_less(with_one_more(m, id), id) =~= m);
}

/// A weak handle whose value is no longer stored stays dead: interning any value, even an
/// equal one, stores it under a different id.
pub proof fn lemma_dead_weak_stays_dead<T: ?Sized + Intern>(
    before: &TypedInterner<T>,
    after: &TypedInterner<T>,
    v: &T,
    r: &Interned<T>,
    w: &Weak<T>,
)
    requires
        after.interned_from(before, v, r),
        w.id() < before.next_fresh(),
        !before@.contains_key(w.id()),
    ensures
        !after@.contains_key(w.id()),
        r.id() != w.id(),
        w.id() < after.next_fresh(),
{
}

/// A weak handle whose value is no longer stored stays dead when a handle is handed out for a
/// stored value (by `share`, `get` or `upgrade`) or given back (by `drop_value`).
pub proof fn lemma_dead_weak_stays_dead_without_interning<T: ?Sized>(
    m: Map<u64, Slot<T>>,
    id: u64,
    dead: u64,
)
    requires
        m.contains_key(id),
        !m.contains_key(dead),
    ensures
        !with_one_more(m, id).contains_key(dead),
        !with_one_less(m, id).contains_key(dead),
        !m.remove(id).contains_key(dead),
{
}

/// Giving back one of two handles to a value keeps the value stored: the other handle is still
/// held, weak handles to the value stay alive, and as many values are stored as before.
pub proof fn lemma_give_back_one_of_two<T: ?Sized + Intern>(
    before: &TypedInterner<T>,
    after: &TypedInterner<T>,
    given: &Interned<T>,
    kept: &Interned<T>,
)
    requires
        before.wf(),
        before.holds(given),
        before.holds(kept),
        given.id() == kept.id(),
        before@[given.id()].strong > 2,
        after@ == with_one_less(before@, given.id()),
    ensures
        after.holds(kept),
        after@[kept.id()].value == before@[kept.id()].value,
        after@.len() == before@.len(),
{
    assert(after@.dom() =~= before@.dom());
}

/// Weak handles made from two held handles are equal exactly when the handles' values are
/// equal, and a weak handle equals a held handle exactly when it equals that handle's weak
/// handle.
pub proof fn lemma_weak_equal_iff_values_equal<T: ?Sized + Intern>(
    interner: &TypedInterner<T>,
    a: &Interned<T>,
    b: &Interned<T>,
    wa: &Weak<T>,
    wb: &Weak<T>,
)
    requires
        interner.wf(),
        interner.holds(a),
        interner.holds(b),
        wa.id() == a.id(),
        wb.id() == b.id(),
    ensures
        (wa.id() == wb.id()) <==> (&*a.arc() == &*b.arc()),
        (wa.id() == b.id()) <==> (wa.id() == wb.id()),
{
    lemma_handles_equal_iff_values_equal(interner, a, b);
}

/// The handle interning hands out refers to a value equal to the one given.
pub proof fn lemma_interned_value_is_the_given_one<T: ?Sized + Intern>(
    before: &TypedInterner<T>,
    after: &TypedInterner<T>,
    v: &T,
    r: &Interned<T>,
)
    requires
        after.interned_from(before, v, r),
    ensures
        &*r.arc() == v,
        after.holds(r),
        before.interns(v) ==> after@.len() == before@.len(),
        !before.interns(v) ==> after@.len() == before@.len() + 1,
{
}

/// A weak handle to a value of an interner the registry removed stays dead in any interner
/// made for the same key afterwards: its id is below the removed interner's id bound, the
/// registry's id floor is at or above that bound (`retain_empty`, `remove_empty`), and the new
/// interner starts at the floor (`get_or_init` hands it to `init`). So it is not stored there,
/// never equals a handle held there, and every value stored there later gets a larger id.
pub proof fn lemma_dead_weak_stays_dead_after_removal<T: ?Sized + Intern>(
    removed: &TypedInterner<T>,
    floor: u64,
    made: &TypedInterner<T>,
    w: &Weak<T>,
)
    requires
        w.id() < removed.next_fresh(),
        removed.next_fresh() <= floor,
        floor <= made.first_fresh(),
        made.wf(),
    ensures
        !made@.contains_key(w.id()),
        w.id() < made.next_fresh(),
        forall|h: Interned<T>| made.holds(&h) ==> h.id() != w.id(),
{
    made.lemma_below_first_not_stored(w.id());
    made.lemma_first_below_next();
}

/// A weak handle made by `Weak::new` refers to no value: it is dead in every interner.
pub proof fn lemma_new_weak_is_dead<T: ?Sized + Intern>(interner: &TypedInterner<T>, w: &Weak<T>)
    requires
        interner.wf(),
        w.id() == 0,
    ensures
        !interner@.contains_key(w.id()),
{
    if interner@.contains_key(0) {
        interner.lemma_stored_counts(0);
    }
}

/// A weak handle made from a handle still held upgrades to a handle to the same value.
pub proof fn lemma_downgrade_then_upgrade<T: ?Sized + Intern>(
    interner: &TypedInterner<T>,
    h: &Interned<T>,
    w: &Weak<T>,
)
    requires
        interner.holds(h),
        w.id() == h.id(),
    ensures
        interner@.contains_key(w.id()),
        interner@[w.id()].value == h.arc(),
{
}

/// The duplicates of all stored values are those of any one of them plus those of the rest.
pub proof fn lemma_duplicates_split<T: ?Sized>(m: Map<u64, Slot<T>>, id: u64)
    requires
        m.dom().finite(),
        m.contains_key(id),
    ensures
        root_duplicates(m) == extra_refs(m[id].strong) + root_duplicates(m.remove(id)),
    decreases m.dom().len(),
{
    let c = m.dom().choose();
    if c != id {
        lemma_duplicates_split(m.remove(c), id);
        lemma_duplicates_split(m.remove(id), c);
        assert(m.remove(c).remove(id) =~= m.remove(id).remove(c));
    }
}

/// Each handle handed out to a value that is stored already adds one duplicate.
pub proof fn lemma_one_more_handle_one_more_duplicate<T: ?Sized>(m: Map<u64, Slot<T>>, id: u64)
    requires
        m.dom().finite(),
        m.contains_key(id),
        2 <= m[id].strong < usize::MAX,
    ensures
        root_duplicates(with_one_more(m, id)) == root_duplicates(m) + 1,
{
    assert(with_one_more(m, id).dom() =~= m.dom());
    lemma_duplicates_split(m, id);
    lemma_duplicates_split(with_one_more(m, id), id);
    assert(with_one_more(m, id).remove(id) =~= m.remove(id));
}

/// Storing a new value, with the interner's reference and one handle, adds no duplicate.
pub proof fn lemma_new_value_no_duplicate<T: ?Sized>(m: Map<u64, Slot<T>>, id: u64, s: Slot<T>)
    requires
        m.dom().finite(),
        !m.contains_key(id),
        s.strong == 2,
    ensures
        root_duplicates(m.insert(id, s)) == root_duplicates(m),
{
    lemma_duplicates_split(m.insert(id, s), id);
    assert(m.insert(id, s).remove(id) =~= m);
}

/// After the empty interners are removed, none is empty, and as many are left as were not
/// empty.
pub proof fn lemma_no_empty_after_removal<I: Interner>(s: Seq<I>, kept: Seq<bool>)
    requires
        kept.len() == s.len(),
        forall|i: int| 0 <= i < s.len() ==> kept[i] == (#[trigger] s[i].stored() != 0),
    ensures
        count_empty_in(keep_marked(s, kept)) == 0,
        keep_marked(s, kept).len() + count_empty_in(s) == s.len(),
    decreases s.len(),
{
    if s.len() > 0 {
        lemma_no_empty_after_removal(s.drop_last(), kept.drop_last());
        let rest = keep_marked(s.drop_last(), kept.drop_last());
        if kept.last() {
            assert(rest.push(s.last()).drop_last() =~= rest);
        }
    }
}

} // verus!
