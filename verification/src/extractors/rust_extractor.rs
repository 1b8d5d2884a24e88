//! Declarations of a corpus under the implementation-block grammar.

use crate::extractors::captures::{corpus_matches, Grammar};
use crate::extractors::type_graph::{aggregate, all_concrete, TypeGraph};
use crate::types::{ClassMethods, ClassSummary};
use vstd::prelude::*;

verus! {

/// The types that the given source texts implement functions for, in the
/// order in which they were first seen: each with its functions, untagged and
/// concrete.
pub open spec fn rust_classes(sources: Seq<Seq<char>>) -> Seq<ClassSummary> {
    all_concrete(aggregate(corpus_matches(Grammar::Rust, sources)))
}

/// Extracts the types that the given source texts implement functions for.
pub fn parse_rust_files_unfiltered(sources: &Vec<String>) -> (classes: Vec<ClassMethods>)
    ensures
        classes.deep_view() == rust_classes(sources.deep_view()),
{
    let graph = TypeGraph::of_corpus(Grammar::Rust, sources);
    graph.all_concrete()
}

} // verus!
