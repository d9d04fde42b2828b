//! The store of interned values of one type.

use std::collections::HashMap;
use std::sync::Arc;
use vstd::prelude::*;
use vstd::std_specs::hash::obeys_key_model;

use crate::interned::{Intern, Interned};
use crate::outside::new_hasher;
use crate::std_calls::{
    arc_clone, box_slice_from, box_str_from, get_by_value, map_capacity, map_get, map_insert,
    map_keys, map_len, map_remove, map_shrink_to, map_shrink_to_fit, map_with_hasher,
};

verus! {

broadcast use vstd::std_specs::hash::group_hash_axioms;

/// Values that can be interned from a reference: a boxed copy of the value can be made.
///
/// Sized values are copied with `Clone`; slices of cloneable elements and `str` are copied
/// into a new box. Other unsized types can implement it themselves.
pub trait InternRef: Intern {
    /// A boxed copy of the value.
    fn intern_ref(&self) -> Box<Self>;
}

impl<T: Intern + Clone> InternRef for T {
    fn intern_ref(&self) -> (r: Box<Self>)
        ensures
            cloned::<T>(*self, *r),
    {
        Box::new(self.clone())
    }
}

impl<T: Intern + Clone> InternRef for [T] {
    fn intern_ref(&self) -> (r: Box<Self>)
        ensures
            (&*r)@.len() == self@.len(),
            forall|i: int| 0 <= i < self@.len() ==> cloned::<T>(self@[i], #[trigger] (&*r)@[i]),
    {
        box_slice_from(self)
    }
}

impl InternRef for str {
    fn intern_ref(&self) -> (r: Box<Self>)
        ensures
            &*r == self,
    {
        box_str_from(self)
    }
}

/// One stored value with its count of references: the interner's own plus one per handle.
pub struct Slot<T: ?Sized> {
    pub value: Arc<T>,
    pub strong: usize,
}

/// The hash-table model holds for `Arc<T>` keys: `T`'s `Hash` is deterministic and agrees with
/// its `Eq`, and `Eq` is equality of the values themselves, so two values that compare equal
/// are the same value (an `Eq` that ignores a field falls outside this), and a clone is equal
/// to what it was cloned from. vstd states this for no `Arc` key type, so verified code can
/// only pass it on as a precondition; unverified callers meet it by such a `Hash` and `Eq`.
pub open spec fn internable<T: ?Sized>() -> bool {
    obeys_key_model::<Arc<T>>()
}

/// The map of ids to slots after one more reference to `id`.
pub open spec fn with_one_more<T: ?Sized>(m: Map<u64, Slot<T>>, id: u64) -> Map<u64, Slot<T>> {
    m.insert(id, Slot { value: m[id].value, strong: (m[id].strong + 1) as usize })
}

/// The map of ids to slots after one reference fewer to `id`.
pub open spec fn with_one_less<T: ?Sized>(m: Map<u64, Slot<T>>, id: u64) -> Map<u64, Slot<T>> {
    m.insert(id, Slot { value: m[id].value, strong: (m[id].strong - 1) as usize })
}

/// How many references to a stored value count as duplicates: all beyond the interner's own
/// and the first handle's.
pub open spec fn extra_refs(strong: usize) -> nat {
    if strong >= 2 { (strong - 2) as nat } else { 0 }
}

/// The duplicates of the values stored under `ids`, summed in order.
pub open spec fn duplicates_over<T: ?Sized>(m: Map<u64, Slot<T>>, ids: Seq<u64>) -> nat
    decreases ids.len(),
{
    if ids.len() == 0 {
        0
    } else {
        duplicates_over(m, ids.drop_last()) + extra_refs(m[ids.last()].strong)
    }
}

/// The duplicates of all stored values.
pub open spec fn root_duplicates<T: ?Sized>(m: Map<u64, Slot<T>>) -> nat
    decreases m.dom().len(),
    when m.dom().finite()
{
    if m.dom().len() == 0 {
        0
    } else {
        let id = m.dom().choose();
        extra_refs(m[id].strong) + root_duplicates(m.remove(id))
    }
}

/// Taking out the entry at `j` takes its duplicates out of the sum.
proof fn lemma_duplicates_remove<T: ?Sized>(m: Map<u64, Slot<T>>, ids: Seq<u64>, j: int)
    requires
        0 <= j < ids.len(),
    ensures
        duplicates_over(m, ids) == extra_refs(m[ids[j]].strong) + duplicates_over(m, ids.remove(j)),
    decreases ids.len(),
{
    if j == ids.len() - 1 {
        assert(ids.remove(j) =~= ids.drop_last());
    } else {
        lemma_duplicates_remove(m, ids.drop_last(), j);
        assert(ids.drop_last().remove(j) =~= ids.remove(j).drop_last());
    }
}

/// Summing over any enumeration of the stored ids gives the duplicates of all stored values.
proof fn lemma_duplicates_enumeration<T: ?Sized>(m: Map<u64, Slot<T>>, ids: Seq<u64>)
    requires
        m.dom().finite(),
        ids.no_duplicates(),
        ids.to_set() == m.dom(),
    ensures
        duplicates_over(m, ids) == root_duplicates(m),
    decreases m.dom().len(),
{
    if m.dom().len() == 0 {
        if ids.len() > 0 {
            assert(ids.to_set().contains(ids[0]));
        }
    } else {
        let id = m.dom().choose();
        assert(ids.to_set().contains(id));
        let j = ids.index_of(id);
        lemma_duplicates_remove(m, ids, j);
        let rest = ids.remove(j);
        let m2 = m.remove(id);
        assert forall|k: int, l: int| 0 <= k < l < rest.len() implies rest[k] != rest[l] by {
            if k < j {
                if l < j {} else { assert(ids[k] != ids[l + 1]); }
            } else {
                assert(ids[k + 1] != ids[l + 1]);
            }
        }
        assert forall|x: u64| rest.to_set().contains(x) <==> m2.dom().contains(x) by {
            if rest.to_set().contains(x) {
                let k = rest.index_of(x);
                if k < j { assert(ids[k] == x); } else { assert(ids[k + 1] == x); }
                assert(ids.to_set().contains(x));
            }
            if m2.dom().contains(x) {
                assert(ids.to_set().contains(x));
                let k = ids.index_of(x);
                if k < j { assert(rest[k] == x); } else { assert(rest[k - 1] == x); }
            }
        }
        assert(rest.to_set() =~= m2.dom());
        lemma_duplicates_enumeration(m2, rest);
        assert forall|k: int| 0 <= k < rest.len() implies m2[rest[k]] == m[rest[k]] by {}
        lemma_duplicates_same_entries(m, m2, rest);
    }
}

/// The sum only reads the entries of the ids summed over.
proof fn lemma_duplicates_same_entries<T: ?Sized>(m1: Map<u64, Slot<T>>, m2: Map<u64, Slot<T>>, ids: Seq<u64>)
    requires
        forall|k: int| 0 <= k < ids.len() ==> m1[ids[k]] == m2[ids[k]],
    ensures
        duplicates_over(m1, ids) == duplicates_over(m2, ids),
    decreases ids.len(),
{
    if ids.len() > 0 {
        lemma_duplicates_same_entries(m1, m2, ids.drop_last());
    }
}

/// A prefix of the sum is at most the whole sum.
proof fn lemma_duplicates_prefix<T: ?Sized>(m: Map<u64, Slot<T>>, ids: Seq<u64>, i: int)
    requires
        0 <= i <= ids.len(),
    ensures
        duplicates_over(m, ids.take(i)) <= duplicates_over(m, ids),
    decreases ids.len(),
{
    if i < ids.len() {
        lemma_duplicates_prefix(m, ids.drop_last(), i);
        assert(ids.drop_last().take(i) =~= ids.take(i));
    } else {
        assert(ids.take(i) =~= ids);
    }
}

/// The interner of one type: every distinct value is stored once, under an id that is never
/// reused, with its count of references.
pub struct TypedInterner<T: ?Sized + Intern> {
    values: HashMap<Arc<T>, u64, ahash::RandomState>,
    slots: HashMap<u64, Slot<T>, ahash::RandomState>,
    first_id: u64,
    next_id: u64,
    name: String,
    original_name: &'static str,
}

impl<T: ?Sized + Intern> View for TypedInterner<T> {
    type V = Map<u64, Slot<T>>;

    closed spec fn view(&self) -> Map<u64, Slot<T>> {
        self.slots@
    }
}

impl<T: ?Sized + Intern> TypedInterner<T> {
    /// Both indexes agree, every stored value has at least the interner's reference and one
    /// handle, and every id in use lies from the first id up to below the next fresh id.
    pub closed spec fn wf(&self) -> bool {
        &&& 1 <= self.first_id <= self.next_id
        &&& self.values@.dom().finite()
        &&& self.slots@.dom().finite()
        &&& forall|k: Arc<T>| #[trigger]
            self.values@.contains_key(k) ==> {
                &&& self.slots@.contains_key(self.values@[k])
                &&& self.slots@[self.values@[k]].value == k
            }
        &&& forall|id: u64| #[trigger]
            self.slots@.contains_key(id) ==> {
                &&& self.first_id <= id < self.next_id
                &&& self.slots@[id].strong >= 2
                &&& self.values@.contains_key(self.slots@[id].value)
                &&& self.values@[self.slots@[id].value] == id
            }
    }

    /// The id the next newly stored value will get; no id at or above it was handed out.
    pub closed spec fn next_fresh(&self) -> u64 {
        self.next_id
    }

    /// The first id this interner hands out; no id below it is ever stored here, so a weak
    /// handle from an interner that ended below it never comes back to life in this one.
    pub closed spec fn first_fresh(&self) -> u64 {
        self.first_id
    }

    pub closed spec fn name_view(&self) -> Seq<char> {
        self.name@
    }

    pub closed spec fn original_name_view(&self) -> Seq<char> {
        self.original_name@
    }

    /// Some stored value equals `v`.
    pub open spec fn interns(&self, v: &T) -> bool {
        exists|id: u64| #[trigger] self@.contains_key(id) && &*self@[id].value == v
    }

    /// `h` refers to a value stored here.
    pub open spec fn holds(&self, h: &Interned<T>) -> bool {
        &&& self@.contains_key(h.id())
        &&& self@[h.id()].value == h.arc()
    }

    /// No count of references is at the limit past which `Arc` aborts.
    pub open spec fn counts_below_limit(&self) -> bool {
        forall|id: u64| #[trigger] self@.contains_key(id) ==> self@[id].strong < isize::MAX
    }

    /// Ids are left for a value not stored yet.
    pub open spec fn has_fresh_id(&self) -> bool {
        self.next_fresh() < u64::MAX
    }

    /// Everything but the stored values and the next fresh id is unchanged between `self` and
    /// `other`: the names and the first id.
    pub open spec fn same_names(&self, other: &Self) -> bool {
        &&& self.name_view() == other.name_view()
        &&& self.original_name_view() == other.original_name_view()
        &&& self.first_fresh() == other.first_fresh()
    }

    /// `self` is `old` after handing out `r` for the value `v`: the handle to the equal value
    /// stored already, with one more reference, or else to `v` itself, newly stored under the
    /// next fresh id with the interner's reference and `r`'s.
    pub open spec fn interned_from(&self, old: &Self, v: &T, r: &Interned<T>) -> bool {
        &&& self.wf()
        &&& self.same_names(old)
        &&& self.holds(r)
        &&& &*r.arc() == v
        &&& old.interns(v) ==> {
            &&& old@.contains_key(r.id())
            &&& self@ == with_one_more(old@, r.id())
            &&& self.next_fresh() == old.next_fresh()
            &&& self@.len() == old@.len()
        }
        &&& !old.interns(v) ==> {
            &&& r.id() == old.next_fresh()
            &&& self@ == old@.insert(r.id(), Slot { value: r.arc(), strong: 2 })
            &&& self.next_fresh() == old.next_fresh() + 1
            &&& self@.len() == old@.len() + 1
        }
    }

    /// Finitely many values are stored.
    pub proof fn lemma_finite(&self)
        requires
            self.wf(),
        ensures
            self@.dom().finite(),
    {
    }

    /// Every stored value has the interner's reference and at least one handle's, under an id
    /// between 1 and the next fresh id.
    pub proof fn lemma_stored_counts(&self, id: u64)
        requires
            self.wf(),
            self@.contains_key(id),
        ensures
            self@[id].strong >= 2,
            1 <= id < self.next_fresh(),
    {
    }

    /// Two stored values at different ids are different.
    pub proof fn lemma_ids_unique(&self, a: u64, b: u64)
        requires
            self.wf(),
            self@.contains_key(a),
            self@.contains_key(b),
            &*self@[a].value == &*self@[b].value,
        ensures
            a == b,
    {
        assert(self.values@[self.slots@[a].value] == a);
        assert(self.values@[self.slots@[b].value] == b);
    }

    /// The two indexes hold as many entries as each other: each stored value has one id.
    proof fn lemma_index_sizes(&self)
        requires
            self.wf(),
        ensures
            self.values@.len() == self@.len(),
    {
        let f = |k: Arc<T>| self.values@[k];
        assert(vstd::relations::injective_on(f, self.values@.dom())) by {
            assert forall|a: Arc<T>, b: Arc<T>|
                self.values@.dom().contains(a) && self.values@.dom().contains(b) && #[trigger] f(a)
                    == #[trigger] f(b) implies a == b by {
                assert(self.slots@[self.values@[a]].value == a);
                assert(self.slots@[self.values@[b]].value == b);
            }
        }
        assert(self.values@.dom().map(f) =~= self.slots@.dom()) by {
            assert forall|id: u64| #[trigger] self.slots@.dom().contains(id) implies self.values@.dom().map(
                f,
            ).contains(id) by {
                let k = self.slots@[id].value;
                assert(self.values@.dom().contains(k) && f(k) == id);
            }
        }
        vstd::set_lib::lemma_map_size(self.values@.dom(), self.slots@.dom(), f);
    }

    /// Looks `v` up; when it is stored, hands out one more handle to the stored value.
    pub fn get(&mut self, v: &T) -> (r: Option<Interned<T>>)
        requires
            old(self).wf(),
            internable::<T>(),
            old(self).counts_below_limit(),
        ensures
            final(self).wf(),
            final(self).next_fresh() == old(self).next_fresh(),
            final(self).same_names(old(self)),
            final(self)@.dom() == old(self)@.dom(),
            match r {
                Some(h) => {
                    &&& old(self).interns(v)
                    &&& old(self)@.contains_key(h.id())
                    &&& h.arc() == old(self)@[h.id()].value
                    &&& &*h.arc() == v
                    &&& final(self)@ == with_one_more(old(self)@, h.id())
                },
                None => {
                    &&& !old(self).interns(v)
                    &&& final(self)@ == old(self)@
                },
            },
    {
        match get_by_value(&self.values, v) {
            Some(id) => {
                let ghost k = choose|k: Arc<T>| #[trigger]
                    self.values@.contains_key(k) && &*k == v && self.values@[k] == id;
                assert(self.slots@.contains_key(id));
                let slot = map_get(&self.slots, id).unwrap();
                assert(old(self)@.contains_key(id));
                assert(slot.strong < isize::MAX);
                let value = arc_clone(&slot.value);
                let strong = slot.strong + 1;
                map_insert(&mut self.slots, id, Slot { value: arc_clone(&value), strong });
                proof {
                    assert(self.slots@ =~= with_one_more(old(self)@, id));
                    assert(self@.dom() =~= old(self)@.dom());
                }
                Some(Interned::new(id, value))
            },
            None => {
                proof {
                    if old(self).interns(v) {
                        let id = choose|id: u64| #[trigger]
                            old(self)@.contains_key(id) && &*old(self)@[id].value == v;
                        assert(self.values@.contains_key(self.slots@[id].value));
                    }
                }
                None
            },
        }
    }
}

impl<T: ?Sized + Intern> TypedInterner<T> {
    /// An empty interner whose name, and original name, is `original_name` (by default the
    /// type's name), handing out ids from 1.
    pub fn new(original_name: &'static str) -> (r: Self)
        ensures
            r.wf(),
            r@ == Map::<u64, Slot<T>>::empty(),
            r.original_name_view() == original_name@,
            r.name_view() == original_name@,
            r.first_fresh() == 1,
            r.next_fresh() == 1,
    {
        Self::starting_at(original_name, 1)
    }

    /// An empty interner named `original_name` that hands out ids from `first_id` on. An
    /// interner that replaces a removed one starts at or above the removed one's next fresh
    /// id, so weak handles to the removed one's values stay dead.
    pub fn starting_at(original_name: &'static str, first_id: u64) -> (r: Self)
        requires
            first_id >= 1,
        ensures
            r.wf(),
            r@ == Map::<u64, Slot<T>>::empty(),
            r.original_name_view() == original_name@,
            r.name_view() == original_name@,
            r.first_fresh() == first_id,
            r.next_fresh() == first_id,
    {
        TypedInterner {
            values: map_with_hasher(new_hasher()),
            slots: map_with_hasher(new_hasher()),
            first_id,
            next_id: first_id,
            name: original_name.to_owned(),
            original_name,
        }
    }

    /// The first id is at most the next fresh one.
    pub proof fn lemma_first_below_next(&self)
        requires
            self.wf(),
        ensures
            1 <= self.first_fresh() <= self.next_fresh(),
    {
    }

    /// No id below the first one is stored.
    pub proof fn lemma_below_first_not_stored(&self, id: u64)
        requires
            self.wf(),
            id < self.first_fresh(),
        ensures
            !self@.contains_key(id),
    {
    }

    /// Stores `value` unless an equal value is stored already, and hands out one more handle
    /// to the stored value. When an equal value was stored, `value` is dropped.
    pub fn intern(&mut self, value: Arc<T>) -> (r: Interned<T>)
        requires
            old(self).wf(),
            internable::<T>(),
            old(self).counts_below_limit(),
            old(self).has_fresh_id(),
        ensures
            final(self).interned_from(old(self), &*value, &r),
    {
        match self.get(&*value) {
            Some(h) => h,
            None => {
                let id = self.next_id;
                self.next_id = self.next_id + 1;
                proof {
                    assert forall|k: Arc<T>| #[trigger] self.values@.contains_key(k) implies k != value by {
                        assert(self.slots@.contains_key(self.values@[k]));
                        if k == value {
                            assert(old(self)@.contains_key(self.values@[k]));
                            assert(&*old(self)@[self.values@[k]].value == &*value);
                        }
                    }
                }
                map_insert(&mut self.values, arc_clone(&value), id);
                map_insert(&mut self.slots, id, Slot { value: arc_clone(&value), strong: 2 });
                proof {
                    assert(self.slots@ =~= old(self)@.insert(id, Slot { value: value, strong: 2 }));
                }
                Interned::new(id, value)
            },
        }
    }

    /// Hands out one more handle to the value `h` refers to.
    pub fn share(&mut self, h: &Interned<T>) -> (r: Interned<T>)
        requires
            old(self).wf(),
            old(self).holds(h),
            old(self).counts_below_limit(),
        ensures
            final(self).wf(),
            final(self).same_names(old(self)),
            final(self).next_fresh() == old(self).next_fresh(),
            r.id() == h.id(),
            r.arc() == h.arc(),
            final(self)@ == with_one_more(old(self)@, h.id()),
    {
        let id = h.id_of();
        let slot = map_get(&self.slots, id).unwrap();
        assert(old(self)@.contains_key(id));
        let strong = slot.strong + 1;
        let value = arc_clone(&slot.value);
        map_insert(&mut self.slots, id, Slot { value: arc_clone(&value), strong });
        proof {
            assert(self.slots@ =~= with_one_more(old(self)@, id));
        }
        Interned::new(id, value)
    }

    /// Gives a handle back. When it was the last one, the value is no longer stored and its
    /// last reference is returned, to be dropped by the caller; otherwise the count goes down
    /// by one and `None` is returned.
    pub fn drop_value(&mut self, h: Interned<T>) -> (r: Option<Arc<T>>)
        requires
            old(self).wf(),
            internable::<T>(),
            old(self).holds(&h),
        ensures
            final(self).wf(),
            final(self).same_names(old(self)),
            final(self).next_fresh() == old(self).next_fresh(),
            old(self)@[h.id()].strong == 2 ==> {
                &&& r == Some(h.arc())
                &&& final(self)@ == old(self)@.remove(h.id())
                &&& !final(self).interns(&*h.arc())
                &&& final(self)@.len() == old(self)@.len() - 1
            },
            old(self)@[h.id()].strong > 2 ==> {
                &&& r is None
                &&& final(self)@ == with_one_less(old(self)@, h.id())
                &&& final(self)@.len() == old(self)@.len()
            },
    {
        let id = h.id_of();
        let value = h.into_arc();
        assert(old(self)@.contains_key(id));
        let strong = map_get(&self.slots, id).unwrap().strong;
        if strong <= 1 {
            proof {
                assert(false);
            }
            None
        } else if strong == 2 {
            map_remove(&mut self.slots, &id);
            map_remove(&mut self.values, &value);
            proof {
                assert(self.slots@ =~= old(self)@.remove(id));
                assert forall|k: Arc<T>| #[trigger] self.values@.contains_key(k) implies {
                    &&& self.slots@.contains_key(self.values@[k])
                    &&& self.slots@[self.values@[k]].value == k
                } by {
                    assert(old(self).values@.contains_key(k));
                    if self.values@[k] == id {
                        assert(old(self)@[id].value == k);
                    }
                }
                if self.interns(&*value) {
                    let j = choose|j: u64| #[trigger]
                        self@.contains_key(j) && &*self@[j].value == &*value;
                    old(self).lemma_ids_unique(j, id);
                }
            }
            Some(value)
        } else {
            let slot = map_get(&self.slots, id).unwrap();
            let kept = arc_clone(&slot.value);
            map_insert(&mut self.slots, id, Slot { value: kept, strong: strong - 1 });
            proof {
                assert(self.slots@ =~= with_one_less(old(self)@, id));
            }
            None
        }
    }

    /// The number of references to the value stored under `id`, or 0 when none is.
    pub fn strong_count(&self, id: u64) -> (r: usize)
        requires
            self.wf(),
        ensures
            self@.contains_key(id) ==> r == self@[id].strong && r >= 2,
            !self@.contains_key(id) ==> r == 0,
    {
        match map_get(&self.slots, id) {
            Some(slot) => slot.strong,
            None => 0,
        }
    }

    /// Hands out one more handle to the value stored under `id`, if one is.
    pub fn upgrade_id(&mut self, id: u64) -> (r: Option<Interned<T>>)
        requires
            old(self).wf(),
            old(self).counts_below_limit(),
        ensures
            final(self).wf(),
            final(self).same_names(old(self)),
            final(self).next_fresh() == old(self).next_fresh(),
            old(self)@.contains_key(id) ==> {
                &&& r matches Some(h)
                &&& h.id() == id
                &&& h.arc() == old(self)@[id].value
                &&& final(self)@ == with_one_more(old(self)@, id)
            },
            !old(self)@.contains_key(id) ==> r is None && final(self)@ == old(self)@,
    {
        match map_get(&self.slots, id) {
            Some(slot) => {
                assert(old(self)@.contains_key(id));
                let strong = slot.strong + 1;
                let value = arc_clone(&slot.value);
                map_insert(&mut self.slots, id, Slot { value: arc_clone(&value), strong });
                proof {
                    assert(self.slots@ =~= with_one_more(old(self)@, id));
                    assert(self@.dom() =~= old(self)@.dom());
                }
                Some(Interned::new(id, value))
            },
            None => None,
        }
    }

    /// The name shown for this interner.
    pub fn name(&self) -> (r: &str)
        ensures
            r@ == self.name_view(),
    {
        self.name.as_str()
    }

    /// Replaces the shown name and returns the previous one.
    pub fn rename(&mut self, name: String) -> (r: String)
        ensures
            r@ == old(self).name_view(),
            final(self).name_view() == name@,
            final(self).original_name_view() == old(self).original_name_view(),
            final(self)@ == old(self)@,
            final(self).next_fresh() == old(self).next_fresh(),
            final(self).first_fresh() == old(self).first_fresh(),
            old(self).wf() ==> final(self).wf(),
    {
        let mut name = name;
        std::mem::swap(&mut self.name, &mut name);
        name
    }

    /// The name given by default: the type's name.
    pub fn original_name(&self) -> (r: &'static str)
        ensures
            r@ == self.original_name_view(),
    {
        self.original_name
    }

    /// Gives the interner its original name again.
    pub fn reset_name(&mut self)
        ensures
            final(self).name_view() == old(self).original_name_view(),
            final(self).original_name_view() == old(self).original_name_view(),
            final(self)@ == old(self)@,
            final(self).next_fresh() == old(self).next_fresh(),
            final(self).first_fresh() == old(self).first_fresh(),
            old(self).wf() ==> final(self).wf(),
    {
        self.name = self.original_name.to_owned();
    }

    /// The id the next newly stored value will get.
    pub fn next_fresh_id(&self) -> (r: u64)
        ensures
            r == self.next_fresh(),
    {
        self.next_id
    }

    /// The number of stored values.
    pub fn len(&self) -> (r: usize)
        requires
            self.wf(),
        ensures
            r == self@.len(),
    {
        map_len(&self.slots)
    }

    /// Whether no value is stored.
    pub fn is_empty(&self) -> (r: bool)
        requires
            self.wf(),
        ensures
            r == (self@.len() == 0),
    {
        map_len(&self.slots) == 0
    }

    /// The total number of handles beyond the first one to each stored value: the copies that
    /// interning saved.
    pub fn sum_root_duplicates(&self) -> (r: usize)
        requires
            self.wf(),
            root_duplicates(self@) <= usize::MAX,
        ensures
            r == root_duplicates(self@),
    {
        let ids = map_keys(&self.slots);
        let mut acc: usize = 0;
        let mut i: usize = 0;
        while i < ids.len()
            invariant
                self.wf(),
                root_duplicates(self@) <= usize::MAX,
                ids@.no_duplicates(),
                ids@.to_set() == self@.dom(),
                i <= ids@.len(),
                acc == duplicates_over(self@, ids@.take(i as int)),
            decreases ids@.len() - i,
        {
            let id = ids[i];
            proof {
                lemma_duplicates_prefix(self@, ids@, i + 1);
                lemma_duplicates_enumeration(self@, ids@);
                assert(ids@.take(i + 1).drop_last() =~= ids@.take(i as int));
                assert(ids@.take(i + 1).last() == id);
                assert(ids@.to_set().contains(id));
            }
            let slot = map_get(&self.slots, id).unwrap();
            assert(self@.contains_key(id));
            assert(duplicates_over(self@, ids@.take(i + 1)) == acc + extra_refs(slot.strong));
            acc = acc + (slot.strong - 2);
            i = i + 1;
        }
        proof {
            assert(ids@.take(i as int) =~= ids@);
            lemma_duplicates_enumeration(self@, ids@);
        }
        acc
    }

    /// How many values can be stored without either index reallocating: the smaller of the
    /// two indexes' capacities (see [`TypedInterner::smaller_capacity`]), and so at least the
    /// number of values stored. The capacities themselves depend on the allocator.
    pub fn capacity(&self) -> (r: usize)
        ensures
            self.wf() ==> r >= self@.len(),
    {
        let by_value = map_capacity(&self.values);
        let by_id = map_capacity(&self.slots);
        proof {
            if self.wf() {
                self.lemma_index_sizes();
            }
        }
        Self::smaller_capacity(by_value, by_id)
    }

    /// The room left by two indexes, of which every new value takes a place in both: the
    /// smaller of their capacities.
    pub fn smaller_capacity(by_value: usize, by_id: usize) -> (r: usize)
        ensures
            r == (if by_value < by_id { by_value } else { by_id }),
    {
        if by_value < by_id {
            by_value
        } else {
            by_id
        }
    }

    /// Releases unused memory; the stored values stay.
    pub fn shrink_to_fit(&mut self)
        ensures
            final(self)@ == old(self)@,
            final(self).next_fresh() == old(self).next_fresh(),
            final(self).same_names(old(self)),
            old(self).wf() ==> final(self).wf(),
    {
        map_shrink_to_fit(&mut self.values);
        map_shrink_to_fit(&mut self.slots);
    }

    /// Releases memory down to room for `min_capacity` values; the stored values stay.
    pub fn shrink_to(&mut self, min_capacity: usize)
        ensures
            final(self)@ == old(self)@,
            final(self).next_fresh() == old(self).next_fresh(),
            final(self).same_names(old(self)),
            old(self).wf() ==> final(self).wf(),
    {
        map_shrink_to(&mut self.values, min_capacity);
        map_shrink_to(&mut self.slots, min_capacity);
    }

    /// Makes room for `additional` more values; the stored values stay.
    pub fn reserve(&mut self, additional: usize)
        ensures
            final(self)@ == old(self)@,
            final(self).next_fresh() == old(self).next_fresh(),
            final(self).same_names(old(self)),
            old(self).wf() ==> final(self).wf(),
    {
        self.values.reserve(additional);
        self.slots.reserve(additional);
    }
}

} // verus!
