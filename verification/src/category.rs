//! Categories: the tag that a type carries into the analysis.

use crate::text::{ends_with, is_suffix};
use crate::types::{ClassMethods, ClassSummary};
use vstd::prelude::*;

verus! {

/// Placeable objects; resolved through the block family of the registry.
pub const BLOCK: &'static str = "block";

/// Item-like objects; resolved through the item family of the registry.
pub const ITEM: &'static str = "item";

/// Entities proper.
pub const ENTITY: &'static str = "entity";

/// Goals of an entity's behaviour.
pub const AI_GOAL: &'static str = "ai_goal";

/// Parts of an entity's brain: tasks, sensors and memories.
pub const AI_BRAIN: &'static str = "ai_brain";

/// Controls of an entity's movement and gaze.
pub const AI_CONTROL: &'static str = "ai_control";

/// Navigation and path finding.
pub const AI_PATHING: &'static str = "ai_pathing";

/// Whatever among the entities follows no naming convention.
pub const OTHER: &'static str = "other";

/// The category of a type found among the entities, by the convention of its
/// name. The first rule that applies decides: goals, then the parts of a brain,
/// then controls, then pathing, then entities proper; what is left is `other`.
pub open spec fn entity_subtype(class_name: Seq<char>) -> Seq<char> {
    if is_suffix("Goal"@, class_name) {
        AI_GOAL@
    } else if is_suffix("Task"@, class_name) || is_suffix("Sensor"@, class_name) || is_suffix(
        "Memory"@,
        class_name,
    ) {
        AI_BRAIN@
    } else if is_suffix("Control"@, class_name) {
        AI_CONTROL@
    } else if is_suffix("Navigation"@, class_name) || is_suffix("PathNodeMaker"@, class_name) {
        AI_PATHING@
    } else if is_suffix("Entity"@, class_name) {
        ENTITY@
    } else {
        OTHER@
    }
}

/// The category of a type found among the entities.
pub fn detect_entity_subtype(class_name: &str) -> (category: String)
    ensures
        category@ == entity_subtype(class_name@),
{
    if ends_with(class_name, "Goal") {
        AI_GOAL.to_owned()
    } else if ends_with(class_name, "Task") || ends_with(class_name, "Sensor") || ends_with(
        class_name,
        "Memory",
    ) {
        AI_BRAIN.to_owned()
    } else if ends_with(class_name, "Control") {
        AI_CONTROL.to_owned()
    } else if ends_with(class_name, "Navigation") || ends_with(class_name, "PathNodeMaker") {
        AI_PATHING.to_owned()
    } else if ends_with(class_name, "Entity") {
        ENTITY.to_owned()
    } else {
        OTHER.to_owned()
    }
}

/// The summary with the given tag.
pub open spec fn tagged(class: ClassSummary, category: Seq<char>) -> ClassSummary {
    ClassSummary { class_type: category, ..class }
}

/// The summaries, each with the given tag.
pub open spec fn with_category(classes: Seq<ClassSummary>, category: Seq<char>) -> Seq<
    ClassSummary,
> {
    Seq::new(classes.len(), |i: int| tagged(classes[i], category))
}

/// The summaries, each with the entity category that its name calls for.
pub open spec fn with_entity_categories(classes: Seq<ClassSummary>) -> Seq<ClassSummary> {
    Seq::new(classes.len(), |i: int| tagged(classes[i], entity_subtype(classes[i].class_name)))
}

/// Tags every class with the given category.
pub fn assign_category(classes: &mut Vec<ClassMethods>, category: &str)
    ensures
        final(classes).deep_view() == with_category(old(classes).deep_view(), category@),
{
    let mut i: usize = 0;
    while i < classes.len()
        invariant
            i <= classes@.len(),
            classes@.len() == old(classes)@.len(),
            forall|j: int|
                0 <= j < i ==> (#[trigger] classes@[j])@ == tagged(old(classes)@[j]@, category@),
            forall|j: int| i <= j < classes@.len() ==> #[trigger] classes@[j] == old(classes)@[j],
        decreases classes@.len() - i,
    {
        classes[i].class_type = category.to_owned();
        i += 1;
    }
    assert(classes.deep_view() =~= with_category(old(classes).deep_view(), category@));
}

/// Tags every class with the entity category that its name calls for.
pub fn assign_entity_categories(classes: &mut Vec<ClassMethods>)
    ensures
        final(classes).deep_view() == with_entity_categories(old(classes).deep_view()),
{
    let mut i: usize = 0;
    while i < classes.len()
        invariant
            i <= classes@.len(),
            classes@.len() == old(classes)@.len(),
            forall|j: int|
                0 <= j < i ==> (#[trigger] classes@[j])@ == tagged(
                    old(classes)@[j]@,
                    entity_subtype(old(classes)@[j]@.class_name),
                ),
            forall|j: int| i <= j < classes@.len() ==> #[trigger] classes@[j] == old(classes)@[j],
        decreases classes@.len() - i,
    {
        let category = detect_entity_subtype(classes[i].class_name.as_str());
        classes[i].class_type = category;
        i += 1;
    }
    assert(classes.deep_view() =~= with_entity_categories(old(classes).deep_view()));
}

} // verus!
