//! The registry of interners, one per type, kept in the order they were added.

use indexmap::IndexSet;
use vstd::prelude::*;

use crate::interned::Intern;
use crate::interner::{root_duplicates, TypedInterner};
use crate::outside::{
    keys_index_of, keys_insert_full, keys_len, keys_shift_remove_index, keys_with_hasher,
    new_hasher, registered_keys,
};

verus! {

/// An interner seen without its value type: its name, its size and its memory.
pub trait Interner: Send + Sync {
    /// The interner's invariant holds.
    spec fn valid(&self) -> bool;

    /// The number of stored values.
    spec fn stored(&self) -> nat;

    /// The sum over stored values of their handles beyond the first.
    spec fn duplicates(&self) -> nat;

    /// The name shown for the interner.
    spec fn name_text(&self) -> Seq<char>;

    /// The name it had when it was made.
    spec fn original_name_text(&self) -> Seq<char>;

    /// A bound on the ids the interner has handed out: every one is below it.
    spec fn id_bound(&self) -> nat;

    /// The bound on the ids handed out so far.
    fn next_fresh_id(&self) -> (r: u64)
        ensures
            r == self.id_bound(),
    ;

    /// The name shown for the interner.
    fn name(&self) -> (r: &str)
        ensures
            r@ == self.name_text(),
    ;

    /// Replaces the name and returns the previous one; nothing else changes.
    fn rename(&mut self, name: String) -> (r: String)
        ensures
            r@ == old(self).name_text(),
            final(self).name_text() == name@,
            final(self).original_name_text() == old(self).original_name_text(),
            final(self).stored() == old(self).stored(),
            final(self).duplicates() == old(self).duplicates(),
            old(self).valid() ==> final(self).valid(),
    ;

    /// The name the interner had when it was made.
    fn original_name(&self) -> (r: &'static str)
        ensures
            r@ == self.original_name_text(),
    ;

    /// Gives the interner its original name again.
    fn reset_name(&mut self)
        ensures
            final(self).name_text() == old(self).original_name_text(),
            final(self).original_name_text() == old(self).original_name_text(),
            final(self).stored() == old(self).stored(),
            final(self).duplicates() == old(self).duplicates(),
            old(self).valid() ==> final(self).valid(),
    {
        let original = self.original_name();
        self.rename(original.to_owned());
    }

    /// The number of stored values, including ones no handle uses any more.
    fn len(&self) -> (r: usize)
        requires
            self.valid(),
        ensures
            r == self.stored(),
    ;

    /// Whether no value is stored.
    fn is_empty(&self) -> (r: bool)
        requires
            self.valid(),
        ensures
            r == (self.stored() == 0),
    ;

    /// The total number of handles beyond the first one to each stored value.
    fn sum_root_duplicates(&self) -> (r: usize)
        requires
            self.valid(),
            self.duplicates() <= usize::MAX,
        ensures
            r == self.duplicates(),
    ;

    /// How many values can be stored without reallocating: at least as many as are stored.
    fn capacity(&self) -> (r: usize)
        ensures
            self.valid() ==> r >= self.stored(),
    ;

    /// Releases unused memory; the stored values stay.
    fn shrink_to_fit(&mut self)
        ensures
            final(self).name_text() == old(self).name_text(),
            final(self).original_name_text() == old(self).original_name_text(),
            final(self).stored() == old(self).stored(),
            final(self).duplicates() == old(self).duplicates(),
            old(self).valid() ==> final(self).valid(),
    ;

    /// Releases memory down to room for `min_capacity` values; the stored values stay.
    fn shrink_to(&mut self, min_capacity: usize)
        ensures
            final(self).name_text() == old(self).name_text(),
            final(self).original_name_text() == old(self).original_name_text(),
            final(self).stored() == old(self).stored(),
            final(self).duplicates() == old(self).duplicates(),
            old(self).valid() ==> final(self).valid(),
    ;

    /// Makes room for `additional` more values; the stored values stay.
    fn reserve(&mut self, additional: usize)
        ensures
            final(self).name_text() == old(self).name_text(),
            final(self).original_name_text() == old(self).original_name_text(),
            final(self).stored() == old(self).stored(),
            final(self).duplicates() == old(self).duplicates(),
            old(self).valid() ==> final(self).valid(),
    ;
}

impl<T: ?Sized + Intern> Interner for TypedInterner<T> {
    open spec fn valid(&self) -> bool {
        self.wf()
    }

    open spec fn stored(&self) -> nat {
        self@.len()
    }

    open spec fn duplicates(&self) -> nat {
        root_duplicates(self@)
    }

    open spec fn name_text(&self) -> Seq<char> {
        self.name_view()
    }

    open spec fn original_name_text(&self) -> Seq<char> {
        self.original_name_view()
    }

    open spec fn id_bound(&self) -> nat {
        self.next_fresh() as nat
    }

    fn next_fresh_id(&self) -> (r: u64) {
        TypedInterner::next_fresh_id(self)
    }

    fn name(&self) -> (r: &str) {
        TypedInterner::name(self)
    }

    fn rename(&mut self, name: String) -> (r: String) {
        TypedInterner::rename(self, name)
    }

    fn original_name(&self) -> (r: &'static str) {
        TypedInterner::original_name(self)
    }

    fn len(&self) -> (r: usize) {
        TypedInterner::len(self)
    }

    fn is_empty(&self) -> (r: bool) {
        TypedInterner::is_empty(self)
    }

    fn sum_root_duplicates(&self) -> (r: usize) {
        TypedInterner::sum_root_duplicates(self)
    }

    fn capacity(&self) -> (r: usize) {
        TypedInterner::capacity(self)
    }

    fn shrink_to_fit(&mut self) {
        TypedInterner::shrink_to_fit(self)
    }

    fn shrink_to(&mut self, min_capacity: usize) {
        TypedInterner::shrink_to(self, min_capacity)
    }

    fn reserve(&mut self, additional: usize) {
        TypedInterner::reserve(self, additional)
    }
}

/// A boxed interner is an interner: it describes itself, and acts, as the one inside.
impl<I: Interner + ?Sized> Interner for Box<I> {
    open spec fn valid(&self) -> bool {
        (**self).valid()
    }

    open spec fn stored(&self) -> nat {
        (**self).stored()
    }

    open spec fn duplicates(&self) -> nat {
        (**self).duplicates()
    }

    open spec fn name_text(&self) -> Seq<char> {
        (**self).name_text()
    }

    open spec fn original_name_text(&self) -> Seq<char> {
        (**self).original_name_text()
    }

    open spec fn id_bound(&self) -> nat {
        (**self).id_bound()
    }

    fn next_fresh_id(&self) -> (r: u64) {
        (**self).next_fresh_id()
    }

    fn name(&self) -> (r: &str) {
        (**self).name()
    }

    fn rename(&mut self, name: String) -> (r: String) {
        (**self).rename(name)
    }

    fn original_name(&self) -> (r: &'static str) {
        (**self).original_name()
    }

    fn len(&self) -> (r: usize) {
        (**self).len()
    }

    fn is_empty(&self) -> (r: bool) {
        (**self).is_empty()
    }

    fn sum_root_duplicates(&self) -> (r: usize) {
        (**self).sum_root_duplicates()
    }

    fn capacity(&self) -> (r: usize) {
        (**self).capacity()
    }

    fn shrink_to_fit(&mut self) {
        (**self).shrink_to_fit()
    }

    fn shrink_to(&mut self, min_capacity: usize) {
        (**self).shrink_to(min_capacity)
    }

    fn reserve(&mut self, additional: usize) {
        (**self).reserve(additional)
    }
}

/// The number of empty interners in `s`.
pub open spec fn count_empty_in<I: Interner>(s: Seq<I>) -> nat
    decreases s.len(),
{
    if s.len() == 0 {
        0
    } else {
        count_empty_in(s.drop_last()) + if s.last().stored() == 0 {
            1nat
        } else {
            0nat
        }
    }
}

/// `kept` marks which positions of `s` stay; the result is the marked items, in order.
pub open spec fn keep_marked<A>(s: Seq<A>, kept: Seq<bool>) -> Seq<A>
    decreases s.len(),
{
    if s.len() == 0 {
        Seq::empty()
    } else {
        let rest = keep_marked(s.drop_last(), kept.drop_last());
        if kept.last() {
            rest.push(s.last())
        } else {
            rest
        }
    }
}

/// Marking one more item appends it to the kept items exactly when it is marked.
proof fn lemma_keep_marked_push<A>(s: Seq<A>, kept: Seq<bool>, x: A, b: bool)
    requires
        s.len() == kept.len(),
    ensures
        keep_marked(s.push(x), kept.push(b)) == if b {
            keep_marked(s, kept).push(x)
        } else {
            keep_marked(s, kept)
        },
{
    assert(s.push(x).drop_last() =~= s);
    assert(kept.push(b).drop_last() =~= kept);
}

/// Two sequences that agree on every marked item keep the same items.
proof fn lemma_keep_marked_agree<A>(s: Seq<A>, t: Seq<A>, kept: Seq<bool>)
    requires
        s.len() == t.len(),
        kept.len() == s.len(),
        forall|i: int| 0 <= i < s.len() && kept[i] ==> #[trigger] s[i] == t[i],
    ensures
        keep_marked(s, kept) == keep_marked(t, kept),
    decreases s.len(),
{
    if s.len() > 0 {
        lemma_keep_marked_agree(s.drop_last(), t.drop_last(), kept.drop_last());
        if kept.last() {
            assert(s[s.len() - 1] == t[t.len() - 1]);
        }
    }
}

/// When every call of `f` answers `false` and leaves its interner as it was, an item asked
/// about is marked `false` and left as it was.
proof fn lemma_answer_refuses<I: Interner, F: FnMut(&mut I) -> bool>(
    f: F,
    olds: Seq<I>,
    after: Seq<I>,
    kept: Seq<bool>,
    i: int,
)
    requires
        forall|x: &mut I, b: bool| #[trigger]
            call_ensures(f, (x,), b) ==> !b && mut_ref_future(x) == mut_ref_current(x),
        forall|p: spec_fn(I, I, bool) -> bool, k: int|
            (forall|x: &mut I, b: bool| #[trigger]
                call_ensures(f, (x,), b) ==> p(mut_ref_current(x), mut_ref_future(x), b))
                && 0 <= k < kept.len() && olds[k].stored() == 0
                ==> #[trigger] p(olds[k], after[k], kept[k]),
        0 <= i < kept.len(),
        olds[i].stored() == 0,
    ensures
        !kept[i],
        after[i] == olds[i],
{
    let p = |a: I, b: I, k: bool| !k && b == a;
    assert forall|x: &mut I, b: bool| #[trigger]
        call_ensures(f, (x,), b) implies p(mut_ref_current(x), mut_ref_future(x), b) by {
    }
    lemma_apply_answer(f, p, olds, after, kept, i);
}

/// Every interner kept from a sequence of valid interners is valid.
proof fn lemma_keep_marked_valid<I: Interner>(s: Seq<I>, kept: Seq<bool>)
    requires
        kept.len() == s.len(),
        forall|i: int| 0 <= i < s.len() ==> #[trigger] s[i].valid(),
    ensures
        forall|j: int| 0 <= j < keep_marked(s, kept).len() ==> #[trigger] keep_marked(s, kept)[j].valid(),
    decreases s.len(),
{
    if s.len() > 0 {
        let rest = keep_marked(s.drop_last(), kept.drop_last());
        lemma_keep_marked_valid(s.drop_last(), kept.drop_last());
        assert(s.drop_last().len() == s.len() - 1);
        assert forall|j: int| 0 <= j < keep_marked(s, kept).len() implies #[trigger] keep_marked(s, kept)[j].valid() by {
            if j < rest.len() {
                assert(keep_marked(s, kept)[j] == rest[j]);
            } else {
                assert(s[s.len() - 1].valid());
            }
        }
    }
}

/// When every call of `f` keeps a valid interner valid, interners that each went through such
/// a call are all valid if they all were.
proof fn lemma_calls_keep_valid<I: Interner, F: FnMut(&mut I)>(f: F, olds: Seq<I>, news: Seq<I>)
    requires
        olds.len() == news.len(),
        forall|q: spec_fn(I, I) -> bool, j: int|
            (forall|x: &mut I| #[trigger]
                call_ensures(f, (x,), ()) ==> q(mut_ref_current(x), mut_ref_future(x)))
                && 0 <= j < olds.len() ==> #[trigger] q(olds[j], news[j]),
    ensures
        (forall|j: int| 0 <= j < olds.len() ==> #[trigger] olds[j].valid())
            && (forall|x: &mut I| #[trigger]
                call_ensures(f, (x,), ()) && mut_ref_current(x).valid() ==> mut_ref_future(x).valid())
            ==> forall|j: int| 0 <= j < news.len() ==> #[trigger] news[j].valid(),
{
    let p = |a: I, b: I| a.valid() ==> b.valid();
    assert forall|j: int|
        (forall|i: int| 0 <= i < olds.len() ==> #[trigger] olds[i].valid())
            && (forall|x: &mut I| #[trigger]
                call_ensures(f, (x,), ()) && mut_ref_current(x).valid() ==> mut_ref_future(x).valid())
            && 0 <= j < news.len() implies #[trigger] news[j].valid() by {
        assert forall|x: &mut I| #[trigger] call_ensures(f, (x,), ()) implies p(mut_ref_current(x), mut_ref_future(x)) by {
        }
        lemma_each_call_holds(f, p, olds, news, j);
        assert(olds[j].valid());
    }
}

/// When every call of `f` keeps a valid interner valid, the interners kept after asking `f`
/// about the empty ones are all valid if all were before.
proof fn lemma_answers_keep_valid<I: Interner, F: FnMut(&mut I) -> bool>(
    f: F,
    olds: Seq<I>,
    after: Seq<I>,
    kept: Seq<bool>,
)
    requires
        kept.len() == olds.len(),
        after.len() == olds.len(),
        forall|i: int|
            0 <= i < kept.len() && #[trigger] olds[i].stored() != 0 ==> {
                &&& kept[i]
                &&& after[i] == olds[i]
            },
        forall|p: spec_fn(I, I, bool) -> bool, k: int|
            (forall|x: &mut I, b: bool| #[trigger]
                call_ensures(f, (x,), b) ==> p(mut_ref_current(x), mut_ref_future(x), b))
                && 0 <= k < kept.len() && olds[k].stored() == 0
                ==> #[trigger] p(olds[k], after[k], kept[k]),
    ensures
        (forall|j: int| 0 <= j < olds.len() ==> #[trigger] olds[j].valid())
            && (forall|x: &mut I, b: bool| #[trigger]
                call_ensures(f, (x,), b) && mut_ref_current(x).valid() ==> mut_ref_future(x).valid())
            ==> forall|j: int| 0 <= j < keep_marked(after, kept).len() ==> #[trigger] keep_marked(after, kept)[j].valid(),
{
    let p = |a: I, b: I, k: bool| a.valid() ==> b.valid();
    assert forall|j: int|
        (forall|i: int| 0 <= i < olds.len() ==> #[trigger] olds[i].valid())
            && (forall|x: &mut I, b: bool| #[trigger]
                call_ensures(f, (x,), b) && mut_ref_current(x).valid() ==> mut_ref_future(x).valid())
            && 0 <= j < keep_marked(after, kept).len() implies #[trigger] keep_marked(after, kept)[j].valid() by {
        assert forall|x: &mut I, b: bool| #[trigger] call_ensures(f, (x,), b) implies p(mut_ref_current(x), mut_ref_future(x), b) by {
        }
        assert forall|i: int| 0 <= i < after.len() implies #[trigger] after[i].valid() by {
            assert(olds[i].valid());
            if olds[i].stored() == 0 {
                lemma_apply_answer(f, p, olds, after, kept, i);
            }
        }
        lemma_keep_marked_valid(after, kept);
    }
}

/// Applies a fact about every call of `f` to the item at `k`.
proof fn lemma_each_call_holds<I, F: FnMut(&mut I)>(
    f: F,
    p: spec_fn(I, I) -> bool,
    olds: Seq<I>,
    news: Seq<I>,
    k: int,
)
    requires
        forall|q: spec_fn(I, I) -> bool, j: int|
            (forall|x: &mut I| #[trigger]
                call_ensures(f, (x,), ()) ==> q(mut_ref_current(x), mut_ref_future(x)))
                && 0 <= j < olds.len() ==> #[trigger] q(olds[j], news[j]),
        forall|x: &mut I| #[trigger] call_ensures(f, (x,), ()) ==> p(mut_ref_current(x), mut_ref_future(x)),
        0 <= k < olds.len(),
    ensures
        p(olds[k], news[k]),
{
}

/// Applies a fact about every call of `f` to the item at `i`.
proof fn lemma_apply_answer<I: Interner, F: FnMut(&mut I) -> bool>(
    f: F,
    p: spec_fn(I, I, bool) -> bool,
    olds: Seq<I>,
    after: Seq<I>,
    kept: Seq<bool>,
    i: int,
)
    requires
        forall|q: spec_fn(I, I, bool) -> bool, k: int|
            (forall|x: &mut I, b: bool| #[trigger]
                call_ensures(f, (x,), b) ==> q(mut_ref_current(x), mut_ref_future(x), b))
                && 0 <= k < kept.len() && olds[k].stored() == 0
                ==> #[trigger] q(olds[k], after[k], kept[k]),
        forall|x: &mut I, b: bool| #[trigger]
            call_ensures(f, (x,), b) ==> p(mut_ref_current(x), mut_ref_future(x), b),
        0 <= i < kept.len(),
        olds[i].stored() == 0,
    ensures
        p(olds[i], after[i], kept[i]),
{
}

/// Taking an item out of a sequence without repetitions leaves one without repetitions.
proof fn lemma_remove_no_duplicates<A>(s: Seq<A>, j: int)
    requires
        s.no_duplicates(),
        0 <= j < s.len(),
    ensures
        s.remove(j).no_duplicates(),
{
    let r = s.remove(j);
    assert forall|a: int, b: int| 0 <= a < r.len() && 0 <= b < r.len() && a != b implies r[a] != r[b] by {
        let sa = if a < j { a } else { a + 1 };
        let sb = if b < j { b } else { b + 1 };
        assert(r[a] == s[sa]);
        assert(r[b] == s[sb]);
    }
}

/// The registry of interners, each under the key of its value type, in the order they were
/// added.
pub struct InternerRegistry<I: Interner> {
    keys: IndexSet<u64, ahash::RandomState>,
    interners: Vec<I>,
    id_floor: u64,
}

impl<I: Interner> InternerRegistry<I> {
    /// The keys, in the order their interners were added.
    pub closed spec fn keys(&self) -> Seq<u64> {
        registered_keys(self.keys)
    }

    /// The interners, in the order of the keys.
    pub closed spec fn interners(&self) -> Seq<I> {
        self.interners@
    }

    /// The id a newly made interner starts from: at or above the id bound of every interner
    /// removed so far.
    pub closed spec fn id_floor(&self) -> u64 {
        self.id_floor
    }

    /// One interner per key, no key twice, and ids start from 1.
    pub open spec fn wf(&self) -> bool {
        &&& self.keys().len() == self.interners().len()
        &&& self.keys().no_duplicates()
        &&& self.id_floor() >= 1
    }

    /// Every interner's invariant holds.
    pub open spec fn all_valid(&self) -> bool {
        forall|i: int| 0 <= i < self.interners().len() ==> #[trigger] self.interners()[i].valid()
    }

    /// A registry with no interners.
    pub fn new() -> (r: Self)
        ensures
            r.wf(),
            r.keys() == Seq::<u64>::empty(),
            r.interners() == Seq::<I>::empty(),
    {
        InternerRegistry { keys: keys_with_hasher(new_hasher()), interners: Vec::new(), id_floor: 1 }
    }

    /// The number of registered interners, including empty ones.
    pub fn len(&self) -> (r: usize)
        requires
            self.wf(),
        ensures
            r == self.interners().len(),
    {
        keys_len(&self.keys)
    }

    /// Whether no interner is registered.
    pub fn is_empty(&self) -> (r: bool)
        requires
            self.wf(),
        ensures
            r == (self.interners().len() == 0),
    {
        keys_len(&self.keys) == 0
    }

    /// The number of registered interners that store no value.
    pub fn count_empty(&self) -> (r: usize)
        requires
            self.wf(),
            self.all_valid(),
        ensures
            r == count_empty_in(self.interners()),
    {
        let mut n: usize = 0;
        let mut i: usize = 0;
        while i < self.interners.len()
            invariant
                self.wf(),
                self.all_valid(),
                i <= self.interners@.len(),
                n == count_empty_in(self.interners@.take(i as int)),
                n <= i,
            decreases self.interners@.len() - i,
        {
            assert(self.interners@.take(i + 1).drop_last() =~= self.interners@.take(i as int));
            if self.interners[i].is_empty() {
                n = n + 1;
            }
            i = i + 1;
        }
        assert(self.interners@.take(i as int) =~= self.interners@);
        n
    }

    /// Whether some registered interner stores no value.
    pub fn any_empty(&self) -> (r: bool)
        requires
            self.wf(),
            self.all_valid(),
        ensures
            r == exists|i: int| 0 <= i < self.interners().len() && #[trigger] self.interners()[i].stored() == 0,
    {
        let mut i: usize = 0;
        while i < self.interners.len()
            invariant
                self.wf(),
                self.all_valid(),
                i <= self.interners@.len(),
                forall|j: int| 0 <= j < i ==> #[trigger] self.interners@[j].stored() != 0,
            decreases self.interners@.len() - i,
        {
            if self.interners[i].is_empty() {
                return true;
            }
            i = i + 1;
        }
        false
    }

    /// Removes every interner that stores no value and for which `f` says `false`; interners
    /// that store values always stay, and `f` is asked about the empty ones only, in the
    /// order they were added, and may change them. The order of the remaining interners is
    /// kept. `after` is each interner as it is once `f` has been asked: a non-empty one is
    /// untouched, and whatever holds between an interner before and after any one call of `f`
    /// and that call's answer holds between an empty one, its `after` and its mark.
    pub fn retain_empty<F: FnMut(&mut I) -> bool>(&mut self, f: F)
        requires
            old(self).wf(),
            old(self).all_valid(),
            forall|x: &mut I| #[trigger] call_requires(f, (x,)),
        ensures
            final(self).wf(),
            final(self).id_floor() >= old(self).id_floor(),
            old(self).all_valid() && (forall|x: &mut I, b: bool| #[trigger] call_ensures(f, (x,), b) && mut_ref_current(x).valid() ==> mut_ref_future(x).valid()) ==> final(self).all_valid(),
            exists|kept: Seq<bool>, after: Seq<I>| {
                &&& kept.len() == old(self).interners().len()
                &&& after.len() == old(self).interners().len()
                &&& forall|i: int|
                    0 <= i < kept.len() && !kept[i] ==> final(self).id_floor() >= #[trigger] after[i].id_bound()
                &&& forall|i: int|
                    0 <= i < kept.len() && #[trigger] old(self).interners()[i].stored() != 0 ==> {
                        &&& kept[i]
                        &&& after[i] == old(self).interners()[i]
                    }
                &&& forall|p: spec_fn(I, I, bool) -> bool, i: int|
                    (forall|x: &mut I, b: bool| #[trigger]
                        call_ensures(f, (x,), b) ==> p(mut_ref_current(x), mut_ref_future(x), b))
                        && 0 <= i < kept.len() && old(self).interners()[i].stored() == 0
                        ==> #[trigger] p(old(self).interners()[i], after[i], kept[i])
                &&& final(self).keys() == keep_marked(old(self).keys(), kept)
                &&& final(self).interners() == keep_marked(after, kept)
            },
    {
        let ghost f0 = f;
        let mut f = f;
        let ghost old_keys = self.keys();
        let ghost old_ints = self.interners();
        let ghost mut kept: Seq<bool> = Seq::empty();
        let ghost mut after: Seq<I> = Seq::empty();
        let ghost mut i: int = 0;
        let mut j: usize = 0;
        assert(old_keys.take(0) =~= Seq::<u64>::empty());
        assert(old_keys.skip(0) =~= old_keys);
        assert(old_ints.skip(0) =~= old_ints);
        while j < self.interners.len()
            invariant
                f == f0,
                self.id_floor() >= old(self).id_floor(),
                self.id_floor() >= 1,
                forall|k: int| 0 <= k < i && !kept[k] ==> self.id_floor() >= #[trigger] after[k].id_bound(),
                0 <= i <= old_ints.len(),
                old_keys.len() == old_ints.len(),
                kept.len() == i,
                after.len() == i,
                j == keep_marked(after, kept).len(),
                self.keys() == keep_marked(old_keys.take(i), kept) + old_keys.skip(i),
                self.interners() == keep_marked(after, kept) + old_ints.skip(i),
                keep_marked(old_keys.take(i), kept).len() == keep_marked(after, kept).len(),
                self.keys().no_duplicates(),
                forall|k: int| 0 <= k < old_ints.len() ==> #[trigger] old_ints[k].valid(),
                forall|k: int|
                    0 <= k < i && #[trigger] old_ints[k].stored() != 0 ==> {
                        &&& kept[k]
                        &&& after[k] == old_ints[k]
                    },
                forall|p: spec_fn(I, I, bool) -> bool, k: int|
                    (forall|x: &mut I, b: bool| #[trigger]
                        call_ensures(f, (x,), b) ==> p(mut_ref_current(x), mut_ref_future(x), b))
                        && 0 <= k < i && old_ints[k].stored() == 0
                        ==> #[trigger] p(old_ints[k], after[k], kept[k]),
                forall|x: &mut I| #[trigger] call_requires(f, (x,)),
            decreases self.interners@.len() - j,
        {
            assert(self.interners@[j as int] == old_ints[i]);
            assert(self.keys()[j as int] == old_keys[i]);
            let ghost before_call = self.interners@;
            let mut interner = self.interners.remove(j);
            let keep = if interner.is_empty() {
                f(&mut interner)
            } else {
                true
            };
            proof {
                lemma_keep_marked_push(after, kept, interner, keep);
                lemma_keep_marked_push(old_keys.take(i), kept, old_keys[i], keep);
                assert(old_keys.take(i + 1) =~= old_keys.take(i).push(old_keys[i]));
            }
            if keep {
                self.interners.insert(j, interner);
                j = j + 1;
            } else {
                let bound = interner.next_fresh_id();
                if bound > self.id_floor {
                    self.id_floor = bound;
                }
                let ghost keys_before = self.keys();
                keys_shift_remove_index(&mut self.keys, j);
                proof {
                    lemma_remove_no_duplicates(keys_before, j as int);
                }
            }
            proof {
                let ghost prev_after = after;
                let ghost prev_kept = kept;
                kept = kept.push(keep);
                after = after.push(interner);
                i = i + 1;
                assert(old_ints.skip(i - 1) =~= seq![old_ints[i - 1]] + old_ints.skip(i));
                assert(self.keys() =~= keep_marked(old_keys.take(i), kept) + old_keys.skip(i));
                assert(self.interners() =~= keep_marked(after, kept) + old_ints.skip(i));
                assert forall|p: spec_fn(I, I, bool) -> bool, k: int|
                    (forall|x: &mut I, b: bool| #[trigger]
                        call_ensures(f, (x,), b) ==> p(mut_ref_current(x), mut_ref_future(x), b))
                        && 0 <= k < i && old_ints[k].stored() == 0
                        implies #[trigger] p(old_ints[k], after[k], kept[k]) by {
                    if k < i - 1 {
                        assert(after[k] == prev_after[k] && kept[k] == prev_kept[k]);
                    }
                }
                assert forall|k: int| 0 <= k < i && !kept[k] implies self.id_floor() >= #[trigger] after[k].id_bound() by {
                    if k < i - 1 {
                        assert(after[k] == prev_after[k] && kept[k] == prev_kept[k]);
                    }
                }
            }
        }
        proof {
            assert(old_keys.take(i) =~= old_keys);
            assert(old_ints.skip(i) =~= Seq::<I>::empty());
            assert(self.keys() =~= keep_marked(old_keys, kept));
            assert(self.interners() =~= keep_marked(after, kept));
            lemma_answers_keep_valid(f0, old_ints, after, kept);
        }
    }

    /// Removes every interner that stores no value, keeping the order of the others.
    pub fn remove_empty(&mut self)
        requires
            old(self).wf(),
            old(self).all_valid(),
        ensures
            final(self).wf(),
            final(self).all_valid(),
            final(self).id_floor() >= old(self).id_floor(),
            forall|i: int|
                0 <= i < old(self).interners().len() && #[trigger] old(self).interners()[i].stored() == 0
                    ==> final(self).id_floor() >= old(self).interners()[i].id_bound(),
            exists|kept: Seq<bool>| {
                &&& kept.len() == old(self).interners().len()
                &&& forall|i: int|
                    0 <= i < kept.len() ==> kept[i] == (#[trigger] old(self).interners()[i].stored() != 0)
                &&& final(self).keys() == keep_marked(old(self).keys(), kept)
                &&& final(self).interners() == keep_marked(old(self).interners(), kept)
            },
    {
        let never = |interner: &mut I| -> (keep: bool)
            ensures
                !keep,
                *final(interner) == *old(interner),
            { false };
        self.retain_empty(never);
        proof {
            let ghost olds = old(self).interners();
            let (kept, after) = choose|kept: Seq<bool>, after: Seq<I>| {
                &&& kept.len() == olds.len()
                &&& after.len() == olds.len()
                &&& forall|i: int|
                    0 <= i < kept.len() && !kept[i] ==> self.id_floor() >= #[trigger] after[i].id_bound()
                &&& forall|i: int|
                    0 <= i < kept.len() && #[trigger] olds[i].stored() != 0 ==> {
                        &&& kept[i]
                        &&& after[i] == olds[i]
                    }
                &&& forall|p: spec_fn(I, I, bool) -> bool, i: int|
                    (forall|x: &mut I, b: bool| #[trigger]
                        call_ensures(never, (x,), b) ==> p(mut_ref_current(x), mut_ref_future(x), b))
                        && 0 <= i < kept.len() && olds[i].stored() == 0
                        ==> #[trigger] p(olds[i], after[i], kept[i])
                &&& self.keys() == keep_marked(old(self).keys(), kept)
                &&& self.interners() == keep_marked(after, kept)
            };
            assert forall|i: int| 0 <= i < kept.len() implies kept[i] == (#[trigger] olds[i].stored() != 0) by {
                if olds[i].stored() == 0 {
                    lemma_answer_refuses(never, olds, after, kept, i);
                }
            }
            assert forall|i: int| 0 <= i < after.len() && kept[i] implies #[trigger] after[i] == olds[i] by {
                assert(kept[i] == (olds[i].stored() != 0));
            }
            lemma_keep_marked_agree(after, olds, kept);
            lemma_keep_marked_valid(olds, kept);
            assert forall|i: int|
                0 <= i < olds.len() && #[trigger] olds[i].stored() == 0 implies self.id_floor() >= olds[i].id_bound() by {
                lemma_answer_refuses(never, olds, after, kept, i);
            }
        }
    }

    /// Calls `f` on every registered interner, the most recently added first, and returns
    /// what the calls returned, in the order they were made.
    pub fn for_each<R, F: FnMut(&I) -> R>(&self, f: F) -> (r: Vec<R>)
        requires
            self.wf(),
            forall|x: &I| #[trigger] call_requires(f, (x,)),
        ensures
            r@.len() == self.interners().len(),
            forall|j: int|
                0 <= j < r@.len() ==> call_ensures(
                    f,
                    (&self.interners()[self.interners().len() - 1 - j],),
                    #[trigger] r@[j],
                ),
    {
        let ghost f0 = f;
        let mut f = f;
        let mut results: Vec<R> = Vec::new();
        let mut i: usize = self.interners.len();
        while i > 0
            invariant
                f == f0,
                i <= self.interners@.len(),
                results@.len() == self.interners@.len() - i,
                forall|x: &I| #[trigger] call_requires(f, (x,)),
                forall|j: int|
                    0 <= j < results@.len() ==> call_ensures(
                        f,
                        (&self.interners@[self.interners@.len() - 1 - j],),
                        #[trigger] results@[j],
                    ),
            decreases i,
        {
            i = i - 1;
            let out = f(&self.interners[i]);
            results.push(out);
        }
        results
    }

    /// Calls `f` on every registered interner, the most recently added first, letting it
    /// change them; the keys stay as they are. Whatever holds between an interner before and
    /// after any one call of `f` holds between each registered interner before and after.
    pub fn for_each_mut<F: FnMut(&mut I)>(&mut self, f: F)
        requires
            old(self).wf(),
            forall|x: &mut I| #[trigger] call_requires(f, (x,)),
        ensures
            final(self).wf(),
            final(self).keys() == old(self).keys(),
            final(self).id_floor() == old(self).id_floor(),
            final(self).interners().len() == old(self).interners().len(),
            forall|p: spec_fn(I, I) -> bool, k: int|
                (forall|x: &mut I| #[trigger]
                    call_ensures(f, (x,), ()) ==> p(mut_ref_current(x), mut_ref_future(x)))
                    && 0 <= k < old(self).interners().len() ==> #[trigger] p(
                    old(self).interners()[k],
                    final(self).interners()[k],
                ),
            old(self).all_valid() && (forall|x: &mut I| #[trigger] call_ensures(f, (x,), ()) && mut_ref_current(x).valid() ==> mut_ref_future(x).valid()) ==> final(self).all_valid(),
    {
        let ghost f0 = f;
        let mut f = f;
        let ghost before = self.interners@;
        let ghost n = before.len();
        // The interners are taken off the end one at a time, handed to `f` and kept in
        // `visited`, so that the last one there is the first interner; then they are put back.
        let mut visited: Vec<I> = Vec::new();
        while self.interners.len() > 0
            invariant
                self.keys() == old(self).keys(),
                self.id_floor() == old(self).id_floor(),
                before == old(self).interners(),
                f == f0,
                n == before.len(),
                self.interners@ == before.take(self.interners@.len() as int),
                self.interners@.len() + visited@.len() == n,
                forall|x: &mut I| #[trigger] call_requires(f, (x,)),
                forall|p: spec_fn(I, I) -> bool, j: int|
                    (forall|x: &mut I| #[trigger]
                        call_ensures(f, (x,), ()) ==> p(mut_ref_current(x), mut_ref_future(x)))
                        && 0 <= j < visited@.len() ==> #[trigger] p(before[n - 1 - j], visited@[j]),
            decreases self.interners@.len(),
        {
            let mut interner = self.interners.pop().unwrap();
            f(&mut interner);
            visited.push(interner);
            proof {
                assert(self.interners@ =~= before.take(self.interners@.len() as int));
            }
        }
        while visited.len() > 0
            invariant
                self.keys() == old(self).keys(),
                self.id_floor() == old(self).id_floor(),
                before == old(self).interners(),
                f == f0,
                n == before.len(),
                self.interners@.len() + visited@.len() == n,
                forall|p: spec_fn(I, I) -> bool, j: int|
                    (forall|x: &mut I| #[trigger]
                        call_ensures(f, (x,), ()) ==> p(mut_ref_current(x), mut_ref_future(x)))
                        && 0 <= j < visited@.len() ==> #[trigger] p(before[n - 1 - j], visited@[j]),
                forall|p: spec_fn(I, I) -> bool, k: int|
                    (forall|x: &mut I| #[trigger]
                        call_ensures(f, (x,), ()) ==> p(mut_ref_current(x), mut_ref_future(x)))
                        && 0 <= k < self.interners@.len() ==> #[trigger] p(
                        before[k],
                        self.interners@[k],
                    ),
            decreases visited@.len(),
        {
            let ghost pending = visited@;
            let ghost placed = self.interners@;
            let interner = visited.pop().unwrap();
            self.interners.push(interner);
            proof {
                assert forall|p: spec_fn(I, I) -> bool, k: int|
                    (forall|x: &mut I| #[trigger]
                        call_ensures(f, (x,), ()) ==> p(mut_ref_current(x), mut_ref_future(x)))
                        && 0 <= k < self.interners@.len() implies #[trigger] p(
                        before[k],
                        self.interners@[k],
                    ) by {
                    if k < placed.len() {
                        assert(self.interners@[k] == placed[k]);
                    } else {
                        let j = pending.len() - 1;
                        assert(p(before[n - 1 - j], pending[j]));
                        assert(self.interners@[k] == pending[j]);
                    }
                }
            }
        }
        proof {
            lemma_calls_keep_valid(f0, before, self.interners@);
        }
    }

    /// The position of the interner under `key`, if there is one.
    pub fn position(&self, key: u64) -> (r: Option<usize>)
        requires
            self.wf(),
        ensures
            match r {
                Some(i) => i < self.keys().len() && self.keys()[i as int] == key,
                None => !self.keys().contains(key),
            },
    {
        keys_index_of(&self.keys, key)
    }

    /// Calls `f` on the interner under `key` and returns what it returns; `None` when no
    /// interner is registered under `key`.
    pub fn get<R, F: FnOnce(&I) -> Option<R>>(&self, key: u64, f: F) -> (r: Option<R>)
        requires
            self.wf(),
            forall|x: &I| #[trigger] call_requires(f, (x,)),
        ensures
            !self.keys().contains(key) ==> r is None,
            forall|i: int|
                0 <= i < self.keys().len() && #[trigger] self.keys()[i] == key ==> call_ensures(
                    f,
                    (&self.interners()[i],),
                    r,
                ),
    {
        match keys_index_of(&self.keys, key) {
            Some(i) => {
                proof {
                    assert forall|k: int| 0 <= k < self.keys().len() && #[trigger] self.keys()[k] == key implies k == i by {
                        if k != i {
                            assert(self.keys()[k] != self.keys()[i as int]);
                        }
                    }
                }
                f(&self.interners[i])
            },
            None => None,
        }
    }

    /// Calls `f` on the interner under `key`, letting it change the interner, and returns what
    /// it returns; `None`, and no change, when no interner is registered under `key`.
    #[verifier::spinoff_prover]
    pub fn get_mut<R, F: FnOnce(&mut I) -> Option<R>>(&mut self, key: u64, f: F) -> (r: Option<R>)
        requires
            old(self).wf(),
            forall|x: &mut I| #[trigger] call_requires(f, (x,)),
        ensures
            final(self).wf(),
            final(self).id_floor() == old(self).id_floor(),
            old(self).all_valid() && (forall|x: &mut I, v: Option<R>| #[trigger] call_ensures(f, (x,), v) && mut_ref_current(x).valid() ==> mut_ref_future(x).valid()) ==> final(self).all_valid(),
            final(self).keys() == old(self).keys(),
            final(self).interners().len() == old(self).interners().len(),
            !old(self).keys().contains(key) ==> r is None && final(self).interners() == old(self).interners(),
            forall|i: int|
                0 <= i < old(self).keys().len() && old(self).keys()[i] != key ==> #[trigger] final(self).interners()[i]
                    == old(self).interners()[i],
            forall|i: int|
                0 <= i < old(self).keys().len() && #[trigger] old(self).keys()[i] == key ==> exists|x: &mut I| {
                    &&& #[trigger] call_ensures(f, (x,), r)
                    &&& mut_ref_current(x) == old(self).interners()[i]
                    &&& mut_ref_future(x) == final(self).interners()[i]
                },
    {
        match keys_index_of(&self.keys, key) {
            Some(i) => {
                proof {
                    assert forall|k: int| 0 <= k < old(self).keys().len() && #[trigger] old(self).keys()[k] == key implies k == i by {
                        if k != i {
                            assert(old(self).keys()[k] != old(self).keys()[i as int]);
                        }
                    }
                }
                f(&mut self.interners[i])
            },
            None => None,
        }
    }

    /// Calls `f` on the interner at position `i` and returns what it returns.
    fn apply_at<R, F: FnOnce(&mut I) -> R>(&mut self, i: usize, f: F) -> (r: R)
        requires
            old(self).wf(),
            i < old(self).interners().len(),
            forall|x: &mut I| #[trigger] call_requires(f, (x,)),
        ensures
            final(self).wf(),
            final(self).id_floor() == old(self).id_floor(),
            final(self).keys() == old(self).keys(),
            final(self).interners().len() == old(self).interners().len(),
            forall|k: int|
                0 <= k < old(self).interners().len() && k != i ==> #[trigger] final(self).interners()[k]
                    == old(self).interners()[k],
            exists|x: &mut I| {
                &&& #[trigger] call_ensures(f, (x,), r)
                &&& mut_ref_current(x) == old(self).interners()[i as int]
                &&& mut_ref_future(x) == final(self).interners()[i as int]
            },
    {
        f(&mut self.interners[i])
    }

    /// The position of the interner under `key`; when there is none, `init` makes one from the
    /// registry's id floor, and it is added last.
    fn position_or_init<G: FnOnce(u64) -> I>(&mut self, key: u64, init: G) -> (r: usize)
        requires
            old(self).wf(),
            call_requires(init, (old(self).id_floor(),)),
        ensures
            final(self).wf(),
            final(self).id_floor() == old(self).id_floor(),
            r < final(self).keys().len(),
            final(self).keys()[r as int] == key,
            old(self).keys().contains(key) ==> {
                &&& final(self).keys() == old(self).keys()
                &&& final(self).interners() == old(self).interners()
            },
            !old(self).keys().contains(key) ==> {
                &&& final(self).keys() == old(self).keys().push(key)
                &&& r == old(self).keys().len()
                &&& final(self).interners().drop_last() == old(self).interners()
                &&& call_ensures(init, (old(self).id_floor(),), final(self).interners().last())
            },
    {
        match keys_index_of(&self.keys, key) {
            Some(i) => i,
            None => {
                let fresh = init(self.id_floor);
                let (i, _) = keys_insert_full(&mut self.keys, key);
                self.interners.push(fresh);
                proof {
                    assert(self.interners@.drop_last() =~= old(self).interners());
                    assert forall|a: int, b: int| 0 <= a < b < self.keys().len() implies self.keys()[a] != self.keys()[b] by {
                        if b == self.keys().len() - 1 {
                            assert(old(self).keys()[a] != key);
                        } else {
                            assert(old(self).keys()[a] != old(self).keys()[b]);
                        }
                    }
                }
                i
            },
        }
    }

    /// Calls `f` on the interner under `key` and returns what it returns; when no interner is
    /// registered under `key`, one is made first by `init`, given the id to start from, and
    /// added last.
    #[verifier::spinoff_prover]
    pub fn get_or_init<R, G: FnOnce(u64) -> I, F: FnOnce(&mut I) -> R>(&mut self, key: u64, init: G, f: F) -> (r: R)
        requires
            old(self).wf(),
            call_requires(init, (old(self).id_floor(),)),
            forall|x: &mut I| #[trigger] call_requires(f, (x,)),
        ensures
            final(self).wf(),
            final(self).id_floor() == old(self).id_floor(),
            old(self).all_valid() && (forall|x: I| #[trigger] call_ensures(init, (old(self).id_floor(),), x) ==> x.valid()) && (forall|x: &mut I, v: R| #[trigger] call_ensures(f, (x,), v) && mut_ref_current(x).valid() ==> mut_ref_future(x).valid()) ==> final(self).all_valid(),
            old(self).keys().contains(key) ==> final(self).keys() == old(self).keys(),
            !old(self).keys().contains(key) ==> final(self).keys() == old(self).keys().push(key),
            final(self).interners().len() == final(self).keys().len(),
            forall|i: int|
                0 <= i < old(self).keys().len() && old(self).keys()[i] != key ==> #[trigger] final(self).interners()[i]
                    == old(self).interners()[i],
            exists|i: int| {
                &&& 0 <= i < final(self).keys().len()
                &&& #[trigger] final(self).keys()[i] == key
                &&& exists|x: &mut I| {
                    &&& #[trigger] call_ensures(f, (x,), r)
                    &&& mut_ref_future(x) == final(self).interners()[i]
                    &&& old(self).keys().contains(key) ==> mut_ref_current(x) == old(self).interners()[i]
                    &&& !old(self).keys().contains(key) ==> call_ensures(init, (old(self).id_floor(),), mut_ref_current(x))
                }
            },
    {
        let i = self.position_or_init(key, init);
        proof {
            if old(self).all_valid() && (forall|x: I| #[trigger] call_ensures(init, (old(self).id_floor(),), x) ==> x.valid()) {
                assert forall|k: int| 0 <= k < self.interners().len() implies #[trigger] self.interners()[k].valid() by {
                    if !old(self).keys().contains(key) && k == self.interners().len() - 1 {
                        assert(self.interners()[k] == self.interners().last());
                    } else if !old(self).keys().contains(key) {
                        assert(self.interners()[k] == self.interners().drop_last()[k]);
                    }
                }
            }
        }
        self.apply_at(i, f)
    }

    /// Renames the interner under `key` (made first by `init`, given the id to start from, when
    /// there is none) and returns
    /// its previous name.
    pub fn rename<G: FnOnce(u64) -> I>(&mut self, key: u64, init: G, name: String) -> (r: String)
        requires
            old(self).wf(),
            call_requires(init, (old(self).id_floor(),)),
        ensures
            final(self).wf(),
            final(self).id_floor() == old(self).id_floor(),
            old(self).all_valid() && (forall|x: I| #[trigger] call_ensures(init, (old(self).id_floor(),), x) ==> x.valid()) ==> final(self).all_valid(),
            old(self).keys().contains(key) ==> final(self).keys() == old(self).keys(),
            !old(self).keys().contains(key) ==> final(self).keys() == old(self).keys().push(key),
            exists|i: int| {
                &&& 0 <= i < final(self).keys().len()
                &&& #[trigger] final(self).keys()[i] == key
                &&& final(self).interners()[i].name_text() == name@
                &&& old(self).keys().contains(key) ==> r@ == old(self).interners()[i].name_text()
                &&& !old(self).keys().contains(key) ==> exists|fresh: I| {
                    &&& #[trigger] call_ensures(init, (old(self).id_floor(),), fresh)
                    &&& r@ == fresh.name_text()
                }
            },
            forall|i: int|
                0 <= i < old(self).keys().len() && old(self).keys()[i] != key ==> #[trigger] final(self).interners()[i]
                    == old(self).interners()[i],
    {
        let i = self.position_or_init(key, init);
        let ghost before = self.interners@[i as int];
        let ghost placed = self.interners@;
        let previous = self.interners[i].rename(name);
        assert(self.keys()[i as int] == key);
        proof {
            if old(self).all_valid() && (forall|x: I| #[trigger] call_ensures(init, (old(self).id_floor(),), x) ==> x.valid()) {
                assert(before.valid()) by {
                    if !old(self).keys().contains(key) {
                        assert(placed.last() == before);
                    } else {
                        assert(placed == old(self).interners());
                    }
                }
                assert forall|k: int| 0 <= k < self.interners().len() implies #[trigger] self.interners()[k].valid() by {
                    if k != i {
                        assert(self.interners()[k] == placed[k]);
                        if k < old(self).interners().len() {
                            assert(placed[k] == old(self).interners()[k]);
                        }
                    }
                }
            }
        }
        previous
    }
}

} // verus!
