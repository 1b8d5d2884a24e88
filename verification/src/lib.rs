//! Structural coverage tracking: which methods of a reference codebase have a
//! counterpart in a reimplementation.
//!
//! Declarations are extracted from both codebases, reference classes are
//! resolved to their reimplementations through a registry, and a method
//! equivalence table decides, method by method, what is implemented.

pub mod category;
pub mod coverage;
pub mod extractors;
pub mod name_list;
pub mod pipeline;
pub mod registry_parser;
pub mod string_map;
pub mod summary;
pub mod text;
pub mod types;

pub use category::detect_entity_subtype;
pub use extractors::{parse_java_files_unfiltered, parse_rust_files_unfiltered};
pub use types::{
    AnalysisResult, ClassInfo, ClassMethods, ClassTracking, ImplementationStatus, MethodTracking,
};
