//! One run from source texts to the report.

use crate::category::{
    assign_category, assign_entity_categories, with_category, with_entity_categories, BLOCK,
    ENTITY, ITEM,
};
use crate::coverage::{
    index_targets, report, target_index, Analyzer, Equivalences, MethodTables, References,
};
use crate::extractors::java_extractor::{java_classes, parse_java_files_unfiltered};
use crate::extractors::rust_extractor::{parse_rust_files_unfiltered, rust_classes};
use crate::registry_parser::{
    build_class_mapping, generated_registrations, join, parse_generated_blocks,
    parse_generated_items, ClassesJson, Registry, BLOCK_IDS_FOLDED, BLOCK_REGISTRATION,
    ITEM_IDS_FOLDED, ITEM_REGISTRATION,
};
use crate::types::{AnalysisResult, ClassMethods, ClassSummary, CoverageRecord};
use vstd::prelude::*;

verus! {

/// The source texts of one codebase, by the place they were found in.
pub struct SourceSet {
    pub blocks: Vec<String>,
    pub items: Vec<String>,
    pub entities: Vec<String>,
}

/// What a [`SourceSet`] holds.
pub struct SourceTexts {
    pub blocks: Seq<Seq<char>>,
    pub items: Seq<Seq<char>>,
    pub entities: Seq<Seq<char>>,
}

impl View for SourceSet {
    type V = SourceTexts;

    open spec fn view(&self) -> SourceTexts {
        SourceTexts {
            blocks: self.blocks.deep_view(),
            items: self.items.deep_view(),
            entities: self.entities.deep_view(),
        }
    }
}

/// Everything that a run works from.
pub struct Inputs {
    /// The reference codebase, under the class grammar.
    pub reference: SourceSet,
    /// The reimplementation, under the implementation-block grammar.
    pub target: SourceSet,
    pub registry: ClassesJson,
    /// The generated code that registers blocks.
    pub generated_blocks: String,
    /// The generated code that registers items.
    pub generated_items: String,
    pub tables: MethodTables,
}

/// What an [`Inputs`] holds.
pub struct Given {
    pub reference: SourceTexts,
    pub target: SourceTexts,
    pub registry: Registry,
    pub generated_blocks: Seq<char>,
    pub generated_items: Seq<char>,
    pub tables: Equivalences,
}

impl View for Inputs {
    type V = Given;

    open spec fn view(&self) -> Given {
        Given {
            reference: self.reference@,
            target: self.target@,
            registry: self.registry@,
            generated_blocks: self.generated_blocks@,
            generated_items: self.generated_items@,
            tables: self.tables@,
        }
    }
}

/// What a run yields.
pub struct Outputs {
    /// The types of the reference codebase, tagged and classified.
    pub reference_classes: Vec<ClassMethods>,
    /// The types of the reimplementation, tagged.
    pub target_classes: Vec<ClassMethods>,
    pub analysis: AnalysisResult,
}

/// What an [`Outputs`] holds.
pub struct Outcome {
    pub reference_classes: Seq<ClassSummary>,
    pub target_classes: Seq<ClassSummary>,
    pub analysis: Seq<CoverageRecord>,
}

impl View for Outputs {
    type V = Outcome;

    open spec fn view(&self) -> Outcome {
        Outcome {
            reference_classes: self.reference_classes.deep_view(),
            target_classes: self.target_classes.deep_view(),
            analysis: self.analysis@,
        }
    }
}

/// The types of the reference codebase: those of each place classified among
/// themselves, blocks first, then items, then the entities, each tagged by its
/// place, the entities by their names.
pub open spec fn reference_classes(sources: SourceTexts) -> Seq<ClassSummary> {
    with_category(java_classes(sources.blocks), BLOCK@) + with_category(
        java_classes(sources.items),
        ITEM@,
    ) + with_entity_categories(java_classes(sources.entities))
}

/// The types of the reimplementation: blocks first, then items, then
/// entities, each tagged by its place.
pub open spec fn target_classes(sources: SourceTexts) -> Seq<ClassSummary> {
    with_category(rust_classes(sources.blocks), BLOCK@) + with_category(
        rust_classes(sources.items),
        ITEM@,
    ) + with_category(rust_classes(sources.entities), ENTITY@)
}

/// What the analyzer of a run holds: the tables as given, the class mapping of
/// each family as the registry and the generated code give it, and the index
/// of the reimplementation's types.
pub open spec fn references(given: Given) -> References {
    References {
        tables: given.tables,
        block_mapping: join(
            given.registry.blocks,
            generated_registrations(BLOCK_REGISTRATION@, given.generated_blocks, BLOCK_IDS_FOLDED),
            BLOCK_IDS_FOLDED,
        ),
        item_mapping: join(
            given.registry.items,
            generated_registrations(ITEM_REGISTRATION@, given.generated_items, ITEM_IDS_FOLDED),
            ITEM_IDS_FOLDED,
        ),
        targets: target_index(target_classes(given.target)),
    }
}

/// What a run on the given inputs yields.
pub open spec fn outcome(given: Given) -> Outcome {
    Outcome {
        reference_classes: reference_classes(given.reference),
        target_classes: target_classes(given.target),
        analysis: report(references(given), reference_classes(given.reference)),
    }
}

/// Two runs on the same inputs yield the same types and the same report, record
/// for record and in the same order.
pub proof fn lemma_runs_agree(given: Given, first: Outcome, second: Outcome)
    requires
        first == outcome(given),
        second == outcome(given),
    ensures
        first == second,
{
}

/// Extracts and tags the types of the reference codebase.
pub fn collect_reference_classes(sources: &SourceSet) -> (classes: Vec<ClassMethods>)
    ensures
        classes.deep_view() == reference_classes(sources@),
{
    let mut classes = parse_java_files_unfiltered(&sources.blocks);
    assign_category(&mut classes, BLOCK);
    let mut items = parse_java_files_unfiltered(&sources.items);
    assign_category(&mut items, ITEM);
    let mut entities = parse_java_files_unfiltered(&sources.entities);
    assign_entity_categories(&mut entities);
    let ghost blocks_part = classes.deep_view();
    let ghost items_part = items.deep_view();
    let ghost entities_part = entities.deep_view();
    classes.append(&mut items);
    classes.append(&mut entities);
    assert(classes.deep_view() =~= blocks_part + items_part + entities_part);
    classes
}

/// Extracts and tags the types of the reimplementation.
pub fn collect_target_classes(sources: &SourceSet) -> (classes: Vec<ClassMethods>)
    ensures
        classes.deep_view() == target_classes(sources@),
{
    let mut classes = parse_rust_files_unfiltered(&sources.blocks);
    assign_category(&mut classes, BLOCK);
    let mut items = parse_rust_files_unfiltered(&sources.items);
    assign_category(&mut items, ITEM);
    let mut entities = parse_rust_files_unfiltered(&sources.entities);
    assign_category(&mut entities, ENTITY);
    let ghost blocks_part = classes.deep_view();
    let ghost items_part = items.deep_view();
    let ghost entities_part = entities.deep_view();
    classes.append(&mut items);
    classes.append(&mut entities);
    assert(classes.deep_view() =~= blocks_part + items_part + entities_part);
    classes
}

/// Runs the whole analysis: extraction on both sides, the registry join, and
/// the coverage report.
pub fn track_coverage(inputs: Inputs) -> (outputs: Outputs)
    ensures
        outputs@ == outcome(inputs@),
{
    let reference_classes = collect_reference_classes(&inputs.reference);
    let target_classes = collect_target_classes(&inputs.target);
    let generated_blocks = parse_generated_blocks(inputs.generated_blocks.as_str());
    let generated_items = parse_generated_items(inputs.generated_items.as_str());
    let (block_mapping, item_mapping) = build_class_mapping(
        &inputs.registry,
        &generated_blocks,
        &generated_items,
    );
    let targets = index_targets(&target_classes);
    let analyzer = Analyzer { tables: inputs.tables, block_mapping, item_mapping, targets };
    let analysis = analyzer.analyze(&reference_classes);
    Outputs { reference_classes, target_classes, analysis }
}

} // verus!
