use globin::{Interned, Interner, InternerRegistry, TypedInterner};

fn named(name: &'static str, first_id: u64) -> TypedInterner<u64> {
    TypedInterner::starting_at(name, first_id)
}

fn registry_with(names: &[&'static str]) -> InternerRegistry<TypedInterner<u64>> {
    let mut registry = InternerRegistry::new();
    for (key, name) in names.iter().enumerate() {
        registry.get_or_init(key as u64, |first| named(name, first), |_| ());
    }
    registry
}

#[test]
fn registry_counts_interners() {
    let registry = registry_with(&["a", "b", "c"]);
    assert_eq!(registry.len(), 3);
    assert!(!registry.is_empty());
    assert_eq!(registry.count_empty(), 3);
    assert!(registry.any_empty());
    let empty: InternerRegistry<TypedInterner<u64>> = InternerRegistry::new();
    assert_eq!(empty.len(), 0);
    assert!(empty.is_empty());
    assert_eq!(empty.count_empty(), 0);
    assert!(!empty.any_empty());
}

#[test]
fn remove_empty_keeps_the_others_in_order() {
    let mut registry = registry_with(&["a", "b", "c", "d"]);
    registry.get_mut(1, |interner| Some(Interned::from_owned(interner, 10u64))).unwrap();
    registry.get_mut(3, |interner| Some(Interned::from_owned(interner, 30u64))).unwrap();
    assert_eq!(registry.count_empty(), 2);
    registry.remove_empty();
    assert_eq!(registry.len(), 2);
    assert_eq!(registry.count_empty(), 0);
    assert!(!registry.any_empty());
    let mut names = Vec::new();
    registry.for_each(|interner| names.push(interner.name().to_string()));
    assert_eq!(names, vec!["d".to_string(), "b".to_string()]);
    assert_eq!(registry.position(3), Some(1));
    assert_eq!(registry.position(0), None);
}

#[test]
fn retain_empty_may_change_the_interners_it_keeps() {
    let mut registry = registry_with(&["a", "b"]);
    registry.retain_empty(|interner| {
        let keep = interner.name() == "a";
        let renamed = format!("{}!", interner.name());
        interner.rename(renamed);
        keep
    });
    let mut names = Vec::new();
    registry.for_each(|interner| names.push(interner.name().to_string()));
    assert_eq!(names, vec!["a!".to_string()]);
}

#[test]
fn retain_empty_asks_only_about_empty_interners() {
    let mut registry = registry_with(&["keep", "drop", "full"]);
    registry.get_mut(2, |interner| Some(Interned::from_owned(interner, 1u64))).unwrap();
    let mut asked = Vec::new();
    registry.retain_empty(|interner| {
        let name = interner.name().to_string();
        name == "keep"
    });
    registry.for_each(|interner| asked.push(interner.name().to_string()));
    assert_eq!(asked, vec!["full".to_string(), "keep".to_string()]);
}

#[test]
fn for_each_mut_visits_newest_first() {
    let mut registry = registry_with(&["x", "y", "z"]);
    let mut order = Vec::new();
    registry.for_each_mut(|interner| {
        order.push(interner.name().to_string());
        interner.rename(format!("{}!", interner.name()));
    });
    assert_eq!(order, vec!["z", "y", "x"]);
    let mut names = Vec::new();
    registry.for_each(|interner| names.push(interner.name().to_string()));
    assert_eq!(names, vec!["z!", "y!", "x!"]);
}

#[test]
fn get_reports_missing_interners() {
    let registry = registry_with(&["a"]);
    assert_eq!(registry.get(0, |interner| Some(interner.name().to_string())), Some("a".to_string()));
    assert_eq!(registry.get(5, |interner| Some(interner.name().to_string())), None);
    let mut registry = registry;
    assert_eq!(registry.get_mut(5, |_| Some(1)), None::<i32>);
    assert_eq!(registry.len(), 1);
}

#[test]
fn get_or_init_creates_once() {
    let mut registry: InternerRegistry<TypedInterner<u64>> = InternerRegistry::new();
    let made = registry.get_or_init(7, |first| named("seven", first), |interner| interner.name().to_string());
    assert_eq!(made, "seven");
    let again = registry.get_or_init(7, |first| named("other", first), |interner| interner.name().to_string());
    assert_eq!(again, "seven");
    assert_eq!(registry.len(), 1);
}

#[test]
fn rename_returns_the_previous_name() {
    let mut registry = registry_with(&["a"]);
    let old = registry.rename(0, |first| named("unused", first), String::from("alpha"));
    assert_eq!(old, "a");
    assert_eq!(registry.get(0, |interner| Some(interner.name().to_string())), Some("alpha".to_string()));
    let fresh = registry.rename(9, |first| named("nine", first), String::from("renamed"));
    assert_eq!(fresh, "nine");
    assert_eq!(registry.len(), 2);
    registry.get_mut(9, |interner| {
        interner.reset_name();
        Some(())
    });
    assert_eq!(registry.get(9, |interner| Some(interner.original_name())), Some("nine"));
    assert_eq!(registry.get(9, |interner| Some(interner.name().to_string())), Some("nine".to_string()));
}

fn describe<I: Interner>(interner: &I) -> (String, usize, bool, usize) {
    (interner.name().to_string(), interner.len(), interner.is_empty(), interner.sum_root_duplicates())
}

#[test]
fn interners_seen_through_the_trait() {
    let mut typed = named("numbers", 1);
    let a = Interned::from_owned(&mut typed, 4u64);
    let _b = typed.share(&a);
    assert_eq!(describe(&typed), ("numbers".to_string(), 1, false, 1));
    let old = Interner::rename(&mut typed, String::from("n"));
    assert_eq!(old, "numbers");
    Interner::reset_name(&mut typed);
    assert_eq!(Interner::name(&typed), "numbers");
    Interner::reserve(&mut typed, 8);
    assert!(Interner::capacity(&typed) >= 8);
    Interner::shrink_to(&mut typed, 0);
    Interner::shrink_to_fit(&mut typed);
    assert_eq!(Interner::original_name(&typed), "numbers");
    assert_eq!(describe(&typed).1, 1);
}

#[test]
fn for_each_returns_the_answers_newest_first() {
    let registry = registry_with(&["a", "b", "c"]);
    let names = registry.for_each(|interner| interner.name().to_string());
    assert_eq!(names, vec!["c".to_string(), "b".to_string(), "a".to_string()]);
}

#[test]
fn weak_handles_stay_dead_when_an_interner_is_made_again() {
    let mut registry: InternerRegistry<TypedInterner<u64>> = InternerRegistry::new();
    let first = registry.get_or_init(0, |first| named("numbers", first), |interner| Interned::from_owned(interner, 5u64));
    let weak = Interned::downgrade(&first);
    registry.get_mut(0, |interner| interner.drop_value(first).map(|_| ()));
    registry.remove_empty();
    assert_eq!(registry.len(), 0);
    let (same, dead, upgraded) = registry.get_or_init(
        0,
        |first| named("numbers", first),
        |interner| {
            let second = Interned::from_owned(interner, 6u64);
            let same = second == weak;
            let dead = weak.dead(interner);
            let upgraded = weak.upgrade(interner).is_some();
            (same, dead, upgraded)
        },
    );
    assert!(!same);
    assert!(dead);
    assert!(!upgraded);
}
