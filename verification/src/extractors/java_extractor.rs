//! Declarations of a corpus under the class grammar.

use crate::extractors::captures::{corpus_matches, Grammar};
use crate::extractors::type_graph::{aggregate, classify, TypeGraph};
use crate::types::{ClassMethods, ClassSummary};
use vstd::prelude::*;

verus! {

/// The classes that the given source texts declare, in the order in which
/// they were first seen: each with its methods, untagged, and marked concrete
/// unless a class of the same texts extends or implements it.
pub open spec fn java_classes(sources: Seq<Seq<char>>) -> Seq<ClassSummary> {
    classify(aggregate(corpus_matches(Grammar::Java, sources)))
}

/// Extracts the classes that the given source texts declare and classifies
/// them against each other.
pub fn parse_java_files_unfiltered(sources: &Vec<String>) -> (classes: Vec<ClassMethods>)
    ensures
        classes.deep_view() == java_classes(sources.deep_view()),
{
    let graph = TypeGraph::of_corpus(Grammar::Java, sources);
    graph.classify()
}

} // verus!
