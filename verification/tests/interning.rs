use globin::{Interned, TypedInterner, Weak};
use std::collections::hash_map::DefaultHasher;
use std::hash::{Hash, Hasher};
use std::sync::Arc;

fn numbers() -> TypedInterner<u64> {
    TypedInterner::new("u64")
}

#[test]
fn equal_values_share_one_handle() {
    let mut interner = numbers();
    let a = Interned::from_owned(&mut interner, 7u64);
    let b = Interned::from_owned(&mut interner, 7u64);
    let c = Interned::from_owned(&mut interner, 8u64);
    assert!(a == b);
    assert!(a != c);
    assert_eq!(*a, 7);
    assert_eq!(*c, 8);
    assert_eq!(interner.len(), 2);
}

#[test]
fn strings_from_ref_are_interned_once() {
    let mut interner: TypedInterner<str> = TypedInterner::new("str");
    let a = Interned::from_ref(&mut interner, "hello");
    let b = Interned::from_ref(&mut interner, "hello");
    let c = Interned::from_box(&mut interner, String::from("hello").into_boxed_str());
    assert!(a == b);
    assert!(a == c);
    assert_eq!(&*a, "hello");
    assert_eq!(interner.len(), 1);
    assert_eq!(interner.sum_root_duplicates(), 2);
}

#[test]
fn dropping_the_last_handle_deinterns() {
    let mut interner = numbers();
    let a = Interned::from_owned(&mut interner, 1u64);
    let b = interner.share(&a);
    assert_eq!(interner.strong_count(a_id(&interner)), 3);
    assert!(interner.drop_value(b).is_none());
    assert_eq!(interner.len(), 1);
    let last = interner.drop_value(a);
    assert_eq!(last.as_deref(), Some(&1u64));
    assert_eq!(interner.len(), 0);
    assert!(interner.is_empty());
}

fn a_id(interner: &TypedInterner<u64>) -> u64 {
    // the first value stored gets id 1
    let _ = interner;
    1
}

#[test]
fn get_finds_only_stored_values() {
    let mut interner = numbers();
    assert!(interner.get(&3).is_none());
    let a = Interned::from_owned(&mut interner, 3u64);
    let found = interner.get(&3).expect("3 is stored");
    assert!(found == a);
    assert_eq!(interner.sum_root_duplicates(), 1);
    assert!(interner.get(&4).is_none());
}

#[test]
fn intern_keeps_the_first_copy() {
    let mut interner = numbers();
    let first = Arc::new(10u64);
    let a = interner.intern(first.clone());
    let b = interner.intern(Arc::new(10u64));
    assert!(a == b);
    assert_eq!(interner.len(), 1);
    assert_eq!(*b, 10);
}

#[test]
fn weak_handles_die_with_the_value() {
    let mut interner = numbers();
    let a = Interned::from_owned(&mut interner, 42u64);
    let w = Interned::downgrade(&a);
    assert!(a == w);
    assert!(w == a);
    assert!(!w.dead(&interner));
    let up = w.upgrade(&mut interner).expect("alive");
    assert!(up == a);
    interner.drop_value(up);
    interner.drop_value(a);
    assert!(w.dead(&interner));
    assert!(w.upgrade(&mut interner).is_none());
    let again = Interned::from_owned(&mut interner, 42u64);
    assert!(again != w);
    assert!(w.dead(&interner));
}

#[test]
fn new_weak_never_upgrades_and_equals_other_new_weaks() {
    let mut interner = numbers();
    let w: Weak<u64> = Weak::new();
    assert!(w.dead(&interner));
    assert!(w.upgrade(&mut interner).is_none());
    assert!(w == Weak::new());
    let a = Interned::from_owned(&mut interner, 0u64);
    assert!(a != w);
}

#[test]
fn slices_from_arrays() {
    let mut interner: TypedInterner<[u8]> = TypedInterner::new("[u8]");
    let a = Interned::slice_from_array(&mut interner, [1u8, 2, 3]);
    let b = Interned::from_ref(&mut interner, &[1u8, 2, 3][..]);
    let c = Interned::slice_from_array(&mut interner, [1u8, 2]);
    assert!(a == b);
    assert!(a != c);
    assert_eq!(&*a, &[1u8, 2, 3][..]);
    assert_eq!(interner.len(), 2);
}

#[test]
fn ordering_follows_the_values() {
    let mut interner = numbers();
    let a = Interned::from_owned(&mut interner, 1u64);
    let b = Interned::from_owned(&mut interner, 2u64);
    let a2 = interner.share(&a);
    assert_eq!(a.partial_cmp(&b), Some(std::cmp::Ordering::Less));
    assert_eq!(b.partial_cmp(&a), Some(std::cmp::Ordering::Greater));
    assert_eq!(a.partial_cmp(&a2), Some(std::cmp::Ordering::Equal));
    assert_eq!(a.cmp(&b), std::cmp::Ordering::Less);
    assert_eq!(a.cmp(&a2), std::cmp::Ordering::Equal);
    assert!(a < b);
}

#[test]
fn equal_handles_hash_equally() {
    let mut interner = numbers();
    let a = Interned::from_owned(&mut interner, 9u64);
    let b = Interned::from_owned(&mut interner, 9u64);
    let mut ha = DefaultHasher::new();
    let mut hb = DefaultHasher::new();
    a.hash(&mut ha);
    b.hash(&mut hb);
    assert_eq!(ha.finish(), hb.finish());
    let w = Interned::downgrade(&a);
    let mut hw = DefaultHasher::new();
    w.hash(&mut hw);
    assert_eq!(hw.finish(), ha.finish());
}

#[test]
fn names_can_change_and_reset() {
    let mut interner = numbers();
    assert_eq!(interner.name(), "u64");
    let old = interner.rename(String::from("numbers"));
    assert_eq!(old, "u64");
    assert_eq!(interner.name(), "numbers");
    assert_eq!(interner.original_name(), "u64");
    interner.reset_name();
    assert_eq!(interner.name(), "u64");
}

#[test]
fn capacity_covers_every_stored_value() {
    let mut interner = numbers();
    let mut handles = Vec::new();
    for n in 0..50u64 {
        handles.push(Interned::from_owned(&mut interner, n));
    }
    assert_eq!(interner.len(), 50);
    assert!(interner.capacity() >= 50);
}

#[test]
fn memory_operations_keep_values() {
    let mut interner = numbers();
    let a = Interned::from_owned(&mut interner, 5u64);
    interner.reserve(100);
    assert!(interner.capacity() >= 100);
    interner.shrink_to(10);
    interner.shrink_to_fit();
    assert_eq!(interner.len(), 1);
    let b = Interned::from_owned(&mut interner, 5u64);
    assert!(a == b);
}

#[test]
fn sharing_and_giving_back_leaves_the_interner_as_it_was() {
    let mut interner = numbers();
    let a = Interned::from_owned(&mut interner, 11u64);
    let before_len = interner.len();
    let before_dups = interner.sum_root_duplicates();
    let b = interner.share(&a);
    assert_eq!(interner.sum_root_duplicates(), before_dups + 1);
    assert!(interner.drop_value(b).is_none());
    assert_eq!(interner.len(), before_len);
    assert_eq!(interner.sum_root_duplicates(), before_dups);
    assert_eq!(interner.strong_count(1), 2);
}

#[test]
fn a_new_value_adds_no_duplicate() {
    let mut interner = numbers();
    let _a = Interned::from_owned(&mut interner, 1u64);
    let _b = Interned::from_owned(&mut interner, 1u64);
    assert_eq!(interner.sum_root_duplicates(), 1);
    let _c = Interned::from_owned(&mut interner, 2u64);
    assert_eq!(interner.sum_root_duplicates(), 1);
    assert_eq!(interner.len(), 2);
}

#[test]
fn ids_are_never_reused() {
    let mut interner = numbers();
    let a = Interned::from_owned(&mut interner, 5u64);
    let w = Interned::downgrade(&a);
    interner.drop_value(a);
    assert_eq!(interner.strong_count(1), 0);
    let b = Interned::from_owned(&mut interner, 5u64);
    assert_eq!(interner.strong_count(1), 0);
    assert_eq!(interner.strong_count(2), 2);
    assert!(b != w);
}

#[test]
fn nested_interned_values() {
    let mut leaves = numbers();
    let mut lists: TypedInterner<Vec<Interned<u64>>> = TypedInterner::new("lists");
    let one = Interned::from_owned(&mut leaves, 1u64);
    let two = Interned::from_owned(&mut leaves, 2u64);
    let one_again = leaves.share(&one);
    let two_again = leaves.share(&two);
    let x = Interned::from_owned(&mut lists, vec![one, two]);
    let y = Interned::from_owned(&mut lists, vec![one_again, two_again]);
    assert!(x == y);
    assert_eq!(lists.len(), 1);
    assert_eq!(leaves.len(), 2);
    assert_eq!(*x[0], 1);
}

#[test]
fn dropping_handles_of_different_values_only_removes_those() {
    let mut interner = numbers();
    let a = Interned::from_owned(&mut interner, 1u64);
    let b = Interned::from_owned(&mut interner, 2u64);
    let back = interner.drop_value(a);
    assert_eq!(back.map(|v| *v), Some(1));
    assert_eq!(interner.len(), 1);
    assert!(interner.get(&1).is_none());
    let found = interner.get(&2).unwrap();
    assert!(found == b);
}

#[test]
fn size_follows_storing_and_giving_back() {
    let mut interner = numbers();
    let a = Interned::from_owned(&mut interner, 1u64);
    assert_eq!(interner.len(), 1);
    let b = Interned::from_owned(&mut interner, 2u64);
    assert_eq!(interner.len(), 2);
    let c = Interned::from_owned(&mut interner, 1u64);
    assert_eq!(interner.len(), 2);
    assert!(interner.drop_value(c).is_none());
    assert_eq!(interner.len(), 2);
    assert!(interner.drop_value(a).is_some());
    assert_eq!(interner.len(), 1);
    assert!(interner.drop_value(b).is_some());
    assert_eq!(interner.len(), 0);
}

#[test]
fn weak_handles_are_equal_exactly_for_equal_values() {
    let mut interner = numbers();
    let a = Interned::from_owned(&mut interner, 4u64);
    let b = Interned::from_owned(&mut interner, 4u64);
    let c = Interned::from_owned(&mut interner, 5u64);
    let wa = Interned::downgrade(&a);
    let wb = Interned::downgrade(&b);
    let wc = Interned::downgrade(&c);
    assert!(wa == wb);
    assert!(wa != wc);
    assert!(wa == b);
    assert!(wc != a);
}

#[test]
fn room_is_the_smaller_capacity() {
    assert_eq!(TypedInterner::<u64>::smaller_capacity(3, 7), 3);
    assert_eq!(TypedInterner::<u64>::smaller_capacity(9, 4), 4);
    assert_eq!(TypedInterner::<u64>::smaller_capacity(5, 5), 5);
}
