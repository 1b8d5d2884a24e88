use steel_tracker::coverage::{CoverageTarget, MethodTable, MethodTables};
use steel_tracker::pipeline::{
    collect_reference_classes, collect_target_classes, track_coverage, Inputs, SourceSet,
};
use steel_tracker::registry_parser::{BlockEntry, ClassesJson, ItemEntry};
use steel_tracker::string_map::StringMap;
use steel_tracker::types::{ClassMethods, ClassTracking, ImplementationStatus, MethodTracking};

fn names(items: &[&str]) -> Vec<String> {
    items.iter().map(|s| s.to_string()).collect()
}

fn class(name: &str, category: &str, methods: &[&str], concrete: bool) -> ClassMethods {
    ClassMethods {
        class_name: name.to_string(),
        class_type: category.to_string(),
        methods: names(methods),
        is_real_class: concrete,
    }
}

fn method_table(entries: &[(&str, Option<&str>)]) -> MethodTable {
    let mut table = StringMap::new();
    for (method, target) in entries {
        let target = match target {
            Some(name) => CoverageTarget::Mapped(name.to_string()),
            None => CoverageTarget::KnownGap,
        };
        table.insert(method.to_string(), target);
    }
    table
}

fn tracking(name: &str, category: &str, methods: &[(&str, ImplementationStatus)]) -> ClassTracking {
    ClassTracking {
        class_name: name.to_string(),
        class_type: category.to_string(),
        methods: methods
            .iter()
            .map(|(method, status)| MethodTracking { method_name: method.to_string(), status: *status })
            .collect(),
    }
}

fn inputs() -> Inputs {
    Inputs {
        reference: SourceSet {
            blocks: names(&[
                "class Block { void onUse() {} void randomTick() {} }",
                "class BarrelBlock extends Block { void onUse() {} void onBroken() {} void helper() {} }",
            ]),
            items: names(&["class StoneItem { void useOnBlock() {} void use() {} }"]),
            entities: names(&[
                "class LivingEntity { void tick() {} }\n\
                 class ZombieEntity extends LivingEntity { void tick() {} void damage() {} }\n\
                 class WanderGoal { void start() {} void tick() {} }",
            ]),
        },
        target: SourceSet {
            blocks: names(&["impl SteelBarrel { fn use_without_item(&self) {} }"]),
            items: names(&["impl SteelStone { fn use_on(&self) {} }"]),
            entities: names(&["impl ZombieEntity { fn tick(&mut self) {} }\nimpl WanderGoal { fn start(&self) {} }"]),
        },
        registry: ClassesJson {
            blocks: vec![
                BlockEntry { name: "barrel".to_string(), class: "BarrelBlock".to_string() },
                BlockEntry { name: "air".to_string(), class: "Block".to_string() },
            ],
            items: vec![ItemEntry { name: "stone".to_string(), class: "StoneItem".to_string() }],
        },
        generated_blocks: "vanilla_blocks :: BARREL , Box :: new (SteelBarrel :: new (x))".to_string(),
        generated_items: "vanilla_items :: ITEMS . stone , Box :: new (SteelStone :: new (y))".to_string(),
        tables: MethodTables {
            block: method_table(&[("onUse", Some("use_without_item")), ("onBroken", None)]),
            item: method_table(&[("useOnBlock", Some("use_on")), ("use", None)]),
            entity: method_table(&[("tick", Some("tick")), ("damage", None)]),
            goal: method_table(&[("start", None), ("tick", None)]),
        },
    }
}

#[test]
fn reference_classes_are_tagged_by_place_and_name() {
    let classes = collect_reference_classes(&inputs().reference);
    assert_eq!(
        classes,
        vec![
            class("Block", "block", &["onUse", "randomTick"], false),
            class("BarrelBlock", "block", &["onUse", "onBroken", "helper"], true),
            class("StoneItem", "item", &["useOnBlock", "use"], true),
            class("LivingEntity", "entity", &["tick"], false),
            class("ZombieEntity", "entity", &["tick", "damage"], true),
            class("WanderGoal", "ai_goal", &["start", "tick"], true),
        ]
    );
}

#[test]
fn target_classes_are_tagged_by_place() {
    let classes = collect_target_classes(&inputs().target);
    assert_eq!(
        classes,
        vec![
            class("SteelBarrel", "block", &["use_without_item"], true),
            class("SteelStone", "item", &["use_on"], true),
            class("ZombieEntity", "entity", &["tick"], true),
            class("WanderGoal", "entity", &["start"], true),
        ]
    );
}

#[test]
fn a_run_reports_every_concrete_class_with_tracked_methods() {
    let done = ImplementationStatus::Implemented;
    let open = ImplementationStatus::NotImplemented;
    let outputs = track_coverage(inputs());
    assert_eq!(outputs.reference_classes.len(), 6);
    assert_eq!(outputs.target_classes.len(), 4);
    assert_eq!(
        outputs.analysis.classes,
        vec![
            tracking("BarrelBlock", "block", &[("onUse", done), ("onBroken", open)]),
            tracking("StoneItem", "item", &[("useOnBlock", done), ("use", open)]),
            tracking("WanderGoal", "ai_goal", &[("start", open), ("tick", open)]),
            tracking("ZombieEntity", "entity", &[("tick", done), ("damage", open)]),
        ]
    );
}

#[test]
fn two_runs_on_the_same_inputs_agree() {
    let first = track_coverage(inputs());
    let second = track_coverage(inputs());
    assert_eq!(first.reference_classes, second.reference_classes);
    assert_eq!(first.target_classes, second.target_classes);
    assert_eq!(first.analysis, second.analysis);
}
