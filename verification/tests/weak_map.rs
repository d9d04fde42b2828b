use globin::{Interned, TypedInterner, Weak, WeakMapExt};
use std::collections::HashMap;

#[test]
fn retain_alive_drops_dead_keys() {
    let mut interner: TypedInterner<u64> = TypedInterner::new("u64");
    let a = Interned::from_owned(&mut interner, 1u64);
    let b = Interned::from_owned(&mut interner, 2u64);
    let mut map: HashMap<Weak<u64>, &str> = HashMap::new();
    map.insert(Interned::downgrade(&a), "one");
    map.insert(Interned::downgrade(&b), "two");
    interner.drop_value(b);
    map.retain_alive(&interner);
    assert_eq!(map.len(), 1);
    assert_eq!(map.get(&Interned::downgrade(&a)), Some(&"one"));
}

#[test]
fn retain_alive_and_also_asks_the_predicate() {
    let mut interner: TypedInterner<u64> = TypedInterner::new("u64");
    let a = Interned::from_owned(&mut interner, 1u64);
    let b = Interned::from_owned(&mut interner, 2u64);
    let c = Interned::from_owned(&mut interner, 3u64);
    let mut map: HashMap<Weak<u64>, u32> = HashMap::new();
    map.insert(Interned::downgrade(&a), 0);
    map.insert(Interned::downgrade(&b), 0);
    map.insert(Interned::downgrade(&c), 0);
    interner.drop_value(c);
    let before = interner.len();
    map.retain_alive_and(&mut interner, |key, count| {
        *count += 1;
        **key != 2
    });
    assert_eq!(interner.len(), before);
    assert_eq!(map.len(), 1);
    assert_eq!(map.get(&Interned::downgrade(&a)), Some(&1));
    assert_eq!(interner.sum_root_duplicates(), 0);
}
