use steel_tracker::registry_parser::{
    build_class_mapping, collect_registrations, join_entry, parse_generated_blocks,
    parse_generated_items, BlockEntry, ClassesJson, ItemEntry,
};
use steel_tracker::string_map::StringMap;

fn table(pairs: &[(&str, &str)]) -> StringMap<String> {
    let mut map = StringMap::new();
    for (key, value) in pairs {
        map.insert(key.to_string(), value.to_string());
    }
    map
}

fn block(name: &str, class: &str) -> BlockEntry {
    BlockEntry { name: name.to_string(), class: class.to_string() }
}

fn item(name: &str, class: &str) -> ItemEntry {
    ItemEntry { name: name.to_string(), class: class.to_string() }
}

fn text(value: &str) -> Option<String> {
    Some(value.to_string())
}

#[test]
fn generated_blocks_are_read_with_folded_ids() {
    let content = "registry.register(vanilla_blocks :: BARREL , Box :: new (BarrelBlock :: new (a)));\n\
        registry.register(vanilla_blocks::OAK_LOG, Box::new(LogBlock::new(b)));\n\
        registry.register(vanilla_items::ITEMS.stone, Box::new(StoneItem::new(c)));";
    let table = parse_generated_blocks(content);
    assert_eq!(table.get("barrel"), Some(&"BarrelBlock".to_string()));
    assert_eq!(table.get("oak_log"), Some(&"LogBlock".to_string()));
    assert_eq!(table.get("BARREL"), None);
    assert_eq!(table.get("stone"), None);
}

#[test]
fn generated_items_are_read_as_spelled() {
    let content = "vanilla_items :: ITEMS . stone , Box :: new (BlockItemBehavior :: new (x));\n\
        vanilla_items::ITEMS.Oak_Log, Box::new(LogItem)";
    let table = parse_generated_items(content);
    assert_eq!(table.get("stone"), Some(&"BlockItemBehavior".to_string()));
    assert_eq!(table.get("Oak_Log"), Some(&"LogItem".to_string()));
    assert_eq!(table.get("oak_log"), None);
}

#[test]
fn a_later_registration_replaces_an_earlier_one() {
    let content = "vanilla_blocks::BARREL, Box::new(First::new()); vanilla_blocks::Barrel, Box::new(Second::new())";
    assert_eq!(parse_generated_blocks(content).get("barrel"), Some(&"Second".to_string()));
}

#[test]
fn text_without_registrations_gives_an_empty_table() {
    assert_eq!(parse_generated_blocks("").get("barrel"), None);
    assert_eq!(parse_generated_blocks("vanilla_blocks::BARREL, Box::new(").get("barrel"), None);
    assert_eq!(parse_generated_items("vanilla_blocks::BARREL, Box::new(A::b").get("BARREL"), None);
}

#[test]
fn registrations_need_both_groups() {
    let found = vec![
        vec![text("whole"), text("BARREL"), text("BarrelBlock")],
        vec![text("whole"), text("STONE")],
        vec![text("whole"), None, text("Lost")],
        vec![text("whole"), text("DIRT"), None],
        vec![],
    ];
    let folded = collect_registrations(&found, true);
    assert_eq!(folded.get("barrel"), Some(&"BarrelBlock".to_string()));
    assert_eq!(folded.get("BARREL"), None);
    assert_eq!(folded.get("stone"), None);
    assert_eq!(folded.get("dirt"), None);
    let exact = collect_registrations(&found, false);
    assert_eq!(exact.get("BARREL"), Some(&"BarrelBlock".to_string()));
    assert_eq!(exact.get("barrel"), None);
}

#[test]
fn join_correctness() {
    let registry = ClassesJson {
        blocks: vec![
            block("BARREL", "net.minecraft.block.BarrelBlock"),
            block("FURNACE", "net.minecraft.block.FurnaceBlock"),
        ],
        items: Vec::new(),
    };
    let generated = table(&[("barrel", "BarrelBlock")]);
    let (blocks, items) = build_class_mapping(&registry, &generated, &StringMap::new());
    assert_eq!(blocks.get("net.minecraft.block.BarrelBlock"), Some(&"BarrelBlock".to_string()));
    assert!(!blocks.contains_key("net.minecraft.block.FurnaceBlock"));
    assert!(!blocks.contains_key("BarrelBlock"));
    assert!(!items.contains_key("net.minecraft.block.BarrelBlock"));
}

#[test]
fn the_families_are_joined_independently() {
    let registry = ClassesJson {
        blocks: vec![block("barrel", "BarrelBlock"), block("stone", "StoneBlock")],
        items: vec![item("stone", "StoneItem"), item("STICK", "StickItem"), item("barrel", "BarrelItem")],
    };
    let generated_blocks = table(&[("barrel", "SteelBarrel")]);
    let generated_items = table(&[("stone", "SteelStone"), ("stick", "SteelStick")]);
    let (blocks, items) = build_class_mapping(&registry, &generated_blocks, &generated_items);
    assert_eq!(blocks.get("BarrelBlock"), Some(&"SteelBarrel".to_string()));
    assert_eq!(blocks.get("StoneBlock"), None);
    assert_eq!(items.get("StoneItem"), Some(&"SteelStone".to_string()));
    // Item ids are compared as spelled.
    assert_eq!(items.get("StickItem"), None);
    assert_eq!(items.get("BarrelItem"), None);
}

#[test]
fn a_later_entry_of_a_class_replaces_an_earlier_one() {
    let registry = ClassesJson {
        blocks: vec![block("oak_log", "PillarBlock"), block("birch_log", "PillarBlock"), block("gone", "PillarBlock")],
        items: Vec::new(),
    };
    let generated = table(&[("oak_log", "OakLog"), ("birch_log", "BirchLog")]);
    let (blocks, _) = build_class_mapping(&registry, &generated, &StringMap::new());
    assert_eq!(blocks.get("PillarBlock"), Some(&"BirchLog".to_string()));
}

#[test]
fn join_entry_adds_only_what_resolves() {
    let generated = table(&[("barrel", "BarrelBlock")]);
    let mut mapping: StringMap<String> = StringMap::new();
    join_entry(&mut mapping, "BARREL", "RefBarrel", &generated, false);
    assert_eq!(mapping.get("RefBarrel"), None);
    join_entry(&mut mapping, "BARREL", "RefBarrel", &generated, true);
    assert_eq!(mapping.get("RefBarrel"), Some(&"BarrelBlock".to_string()));
    join_entry(&mut mapping, "barrel", "Other", &generated, false);
    assert_eq!(mapping.get("Other"), Some(&"BarrelBlock".to_string()));
}

#[test]
fn generated_code_joins_with_the_registry() {
    let registry = ClassesJson {
        blocks: vec![block("barrel", "net.minecraft.block.BarrelBlock")],
        items: vec![item("stone", "net.minecraft.item.BlockItem")],
    };
    let blocks = parse_generated_blocks("vanilla_blocks :: BARREL , Box :: new (BarrelBlock :: new (x))");
    let items = parse_generated_items("vanilla_items :: ITEMS . stone , Box :: new (BlockItemBehavior :: new (y))");
    let (block_mapping, item_mapping) = build_class_mapping(&registry, &blocks, &items);
    assert_eq!(block_mapping.get("net.minecraft.block.BarrelBlock"), Some(&"BarrelBlock".to_string()));
    assert_eq!(item_mapping.get("net.minecraft.item.BlockItem"), Some(&"BlockItemBehavior".to_string()));
}
