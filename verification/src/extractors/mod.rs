//! From source text to classified type declarations.

pub mod captures;
pub mod java_extractor;
pub mod rust_extractor;
pub mod type_graph;

pub use java_extractor::parse_java_files_unfiltered;
pub use rust_extractor::parse_rust_files_unfiltered;
