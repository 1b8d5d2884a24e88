use steel_tracker::category::detect_entity_subtype;
use steel_tracker::name_list::{clone_names, contains_name, push_unique};
use steel_tracker::string_map::StringMap;
use steel_tracker::text::{precedes, same_text};

fn names(items: &[&str]) -> Vec<String> {
    items.iter().map(|s| s.to_string()).collect()
}

#[test]
fn same_text_compares_characters() {
    assert!(same_text("tick", "tick"));
    assert!(same_text("", ""));
    assert!(!same_text("tick", "Tick"));
    assert!(!same_text("tick", "ticks"));
    assert!(!same_text("tick", ""));
    assert!(same_text("gr\u{fc}n", "gr\u{fc}n"));
    assert!(!same_text("gr\u{fc}n", "grun"));
}

#[test]
fn precedes_is_case_sensitive_byte_order() {
    assert!(precedes("Base", "Foo"));
    assert!(!precedes("Foo", "Base"));
    assert!(!precedes("Foo", "Foo"));
    assert!(precedes("Foo", "FooBar"));
    assert!(!precedes("FooBar", "Foo"));
    assert!(precedes("", "A"));
    assert!(!precedes("", ""));
    // Upper case sorts before lower case.
    assert!(precedes("Zebra", "apple"));
    assert!(!precedes("apple", "Zebra"));
}

#[test]
fn precedes_agrees_with_the_standard_order() {
    let samples = ["", "A", "B", "a", "ab", "abc", "b", "Foo", "foo", "FooBar", "\u{e9}t\u{e9}", "z"];
    for a in samples {
        for b in samples {
            assert_eq!(precedes(a, b), a < b);
        }
    }
}

#[test]
fn push_unique_keeps_first_seen_order() {
    let mut list = names(&["tick", "damage"]);
    push_unique(&mut list, "tick".to_string());
    assert_eq!(list, names(&["tick", "damage"]));
    push_unique(&mut list, "travel".to_string());
    assert_eq!(list, names(&["tick", "damage", "travel"]));
    assert!(contains_name(&list, "damage"));
    assert!(!contains_name(&list, "Damage"));
    assert_eq!(clone_names(&list), list);
}

#[test]
fn string_map_insert_get_replace() {
    let mut map: StringMap<String> = StringMap::new();
    assert!(map.get("barrel").is_none());
    assert!(!map.contains_key("barrel"));
    map.insert("barrel".to_string(), "BarrelBlock".to_string());
    map.insert("stone".to_string(), "StoneBlock".to_string());
    assert_eq!(map.get("barrel"), Some(&"BarrelBlock".to_string()));
    assert_eq!(map.get("stone"), Some(&"StoneBlock".to_string()));
    assert!(map.get("BARREL").is_none());
    map.insert("barrel".to_string(), "Other".to_string());
    assert_eq!(map.get("barrel"), Some(&"Other".to_string()));
    assert_eq!(map.get("stone"), Some(&"StoneBlock".to_string()));
    assert!(map.contains_key("stone"));
}

#[test]
fn string_map_append_starts_and_extends_lists() {
    let mut map: StringMap<Vec<String>> = StringMap::new();
    map.append("Base", "Foo".to_string());
    map.append("Other", "Bar".to_string());
    map.append("Base", "Baz".to_string());
    assert_eq!(map.get("Base"), Some(&names(&["Foo", "Baz"])));
    assert_eq!(map.get("Other"), Some(&names(&["Bar"])));
    assert!(map.get("Foo").is_none());
}

#[test]
fn entity_subtypes_follow_the_priority_order() {
    assert_eq!(detect_entity_subtype("MeleeAttackGoal"), "ai_goal");
    assert_eq!(detect_entity_subtype("WalkTask"), "ai_brain");
    assert_eq!(detect_entity_subtype("NearestPlayerSensor"), "ai_brain");
    assert_eq!(detect_entity_subtype("WorkMemory"), "ai_brain");
    assert_eq!(detect_entity_subtype("Control"), "ai_control");
    assert_eq!(detect_entity_subtype("LookControl"), "ai_control");
    assert_eq!(detect_entity_subtype("MoveControl"), "ai_control");
    assert_eq!(detect_entity_subtype("BirdNavigation"), "ai_pathing");
    assert_eq!(detect_entity_subtype("LandPathNodeMaker"), "ai_pathing");
    assert_eq!(detect_entity_subtype("ZombieEntity"), "entity");
    assert_eq!(detect_entity_subtype("Entity"), "entity");
    assert_eq!(detect_entity_subtype("Zombie"), "other");
    assert_eq!(detect_entity_subtype(""), "other");
    assert_eq!(detect_entity_subtype("goal"), "other");
    // The goal rule comes before the entity rule and needs the suffix at the end.
    assert_eq!(detect_entity_subtype("GoalEntity"), "entity");
    assert_eq!(detect_entity_subtype("EntityGoal"), "ai_goal");
}
