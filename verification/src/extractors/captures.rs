//! Running a declaration query over one source file and reading its matches.

use tree_sitter::{Language, Parser, Query, QueryCursor, StreamingIterator};
use tree_sitter_java::LANGUAGE as JAVA_GRAMMAR;
use tree_sitter_rust::LANGUAGE as RUST_GRAMMAR;
use vstd::prelude::*;

verus! {

/// The source grammars that declarations are extracted from.
#[derive(Debug, Clone, Copy, PartialEq, Eq, Structural)]
pub enum Grammar {
    /// Single inheritance with interfaces: class declarations.
    Java,
    /// Implementation blocks of a named type; no inheritance.
    Rust,
}

/// The query that finds, under the Java grammar, each method of each class
/// together with the class's name, superclass and interfaces.
pub const JAVA_DECLARATIONS: &'static str = r#"
(class_declaration
  name: (identifier) @class_name
  (superclass (type_identifier) @extends)?
  (super_interfaces (type_list (type_identifier) @implements))*
  body: (class_body
    (method_declaration
      name: (identifier) @method_name)))
"#;

/// The query that finds, under the Rust grammar, each function of each
/// implementation block together with the block's type.
pub const RUST_DECLARATIONS: &'static str = r#"
(impl_item
  type: (type_identifier) @type_name
  body: (declaration_list
    (function_item
      name: (identifier) @method_name)))
"#;

/// The declaration query of a grammar.
pub open spec fn declaration_pattern(grammar: Grammar) -> Seq<char> {
    match grammar {
        Grammar::Java => JAVA_DECLARATIONS@,
        Grammar::Rust => RUST_DECLARATIONS@,
    }
}

/// What a capture of a declaration query stands for.
#[derive(Debug, Clone, Copy, PartialEq, Eq, Structural)]
pub enum CaptureRole {
    TypeName,
    Supertype,
    Interface,
    MethodName,
}

/// The role of the capture with the given index: captures are numbered in the
/// order in which the declaration query of the grammar names them.
pub open spec fn role_of(grammar: Grammar, index: u32) -> Option<CaptureRole> {
    match grammar {
        Grammar::Java => if index == 0 {
            Some(CaptureRole::TypeName)
        } else if index == 1 {
            Some(CaptureRole::Supertype)
        } else if index == 2 {
            Some(CaptureRole::Interface)
        } else if index == 3 {
            Some(CaptureRole::MethodName)
        } else {
            None
        },
        Grammar::Rust => if index == 0 {
            Some(CaptureRole::TypeName)
        } else if index == 1 {
            Some(CaptureRole::MethodName)
        } else {
            None
        },
    }
}

/// The role of the capture with the given index.
pub fn capture_role(grammar: Grammar, index: u32) -> (role: Option<CaptureRole>)
    ensures
        role == role_of(grammar, index),
{
    match grammar {
        Grammar::Java => if index == 0 {
            Some(CaptureRole::TypeName)
        } else if index == 1 {
            Some(CaptureRole::Supertype)
        } else if index == 2 {
            Some(CaptureRole::Interface)
        } else if index == 3 {
            Some(CaptureRole::MethodName)
        } else {
            None
        },
        Grammar::Rust => if index == 0 {
            Some(CaptureRole::TypeName)
        } else if index == 1 {
            Some(CaptureRole::MethodName)
        } else {
            None
        },
    }
}

/// One raw extraction match: the facts found at one declaration site.
#[derive(Debug, Clone, PartialEq, Eq)]
pub struct ExtractionMatch {
    pub class_name: String,
    /// Empty where the match carries no method.
    pub method_name: String,
    pub supertype: Option<String>,
    pub interfaces: Vec<String>,
}

/// What an [`ExtractionMatch`] holds.
pub struct MatchFacts {
    pub class_name: Seq<char>,
    pub method_name: Seq<char>,
    pub supertype: Option<Seq<char>>,
    pub interfaces: Seq<Seq<char>>,
}

impl View for ExtractionMatch {
    type V = MatchFacts;

    open spec fn view(&self) -> MatchFacts {
        MatchFacts {
            class_name: self.class_name@,
            method_name: self.method_name@,
            supertype: self.supertype.deep_view(),
            interfaces: self.interfaces.deep_view(),
        }
    }
}

impl DeepView for ExtractionMatch {
    type V = MatchFacts;

    open spec fn deep_view(&self) -> MatchFacts {
        self@
    }
}

/// The match that no capture has contributed to yet.
pub open spec fn no_facts() -> MatchFacts {
    MatchFacts {
        class_name: Seq::empty(),
        method_name: Seq::empty(),
        supertype: None,
        interfaces: Seq::empty(),
    }
}

/// `facts` after one more capture: a later type name, supertype or method name
/// replaces an earlier one, interfaces accumulate in order. A capture without a
/// role or without readable text changes nothing.
pub open spec fn with_capture(
    facts: MatchFacts,
    role: Option<CaptureRole>,
    text: Option<Seq<char>>,
) -> MatchFacts {
    match (role, text) {
        (Some(CaptureRole::TypeName), Some(t)) => MatchFacts { class_name: t, ..facts },
        (Some(CaptureRole::Supertype), Some(t)) => MatchFacts { supertype: Some(t), ..facts },
        (Some(CaptureRole::Interface), Some(t)) => MatchFacts {
            interfaces: facts.interfaces.push(t),
            ..facts
        },
        (Some(CaptureRole::MethodName), Some(t)) => MatchFacts { method_name: t, ..facts },
        _ => facts,
    }
}

/// The facts that the captures of one match carry.
pub open spec fn decode(grammar: Grammar, captures: Seq<(u32, Option<Seq<char>>)>) -> MatchFacts
    decreases captures.len(),
{
    if captures.len() == 0 {
        no_facts()
    } else {
        with_capture(
            decode(grammar, captures.drop_last()),
            role_of(grammar, captures.last().0),
            captures.last().1,
        )
    }
}

/// Reads the captures of one match into an [`ExtractionMatch`].
pub fn decode_match(grammar: Grammar, captures: &Vec<(u32, Option<String>)>) -> (found:
    ExtractionMatch)
    ensures
        found@ == decode(grammar, captures.deep_view()),
{
    let mut found = ExtractionMatch {
        class_name: String::new(),
        method_name: String::new(),
        supertype: None,
        interfaces: Vec::new(),
    };
    assert(found@.interfaces =~= Seq::empty());
    assert(captures.deep_view().take(0) =~= Seq::empty());
    let mut i: usize = 0;
    while i < captures.len()
        invariant
            i <= captures@.len(),
            found@ == decode(grammar, captures.deep_view().take(i as int)),
        decreases captures@.len() - i,
    {
        let ghost before = found@;
        let ghost seen = captures.deep_view().take(i + 1);
        assert(seen.drop_last() =~= captures.deep_view().take(i as int));
        assert(seen.last() == (captures@[i as int].0, captures@[i as int].1.deep_view()));
        if let Some(text) = &captures[i].1 {
            match capture_role(grammar, captures[i].0) {
                Some(CaptureRole::TypeName) => {
                    found.class_name = text.clone();
                },
                Some(CaptureRole::Supertype) => {
                    found.supertype = Some(text.clone());
                },
                Some(CaptureRole::Interface) => {
                    found.interfaces.push(text.clone());
                    assert(found@.interfaces =~= before.interfaces.push(text@));
                },
                Some(CaptureRole::MethodName) => {
                    found.method_name = text.clone();
                },
                None => {},
            }
        }
        i += 1;
    }
    assert(captures.deep_view().take(i as int) =~= captures.deep_view());
    found
}

/// What the syntax-tree query engine finds for `pattern` in `source` parsed
/// under `grammar`: per match, in the order found, its captures as pairs of
/// capture index and captured text (no text where the captured bytes are not
/// UTF-8). `None` where the engine refuses the grammar, the pattern or the
/// source.
pub uninterp spec fn query_captures(grammar: Grammar, pattern: Seq<char>, source: Seq<char>)
    -> Option<Seq<Seq<(u32, Option<Seq<char>>)>>>;

/// Parses `source` with `tree_sitter::Parser::parse` under the grammar of
/// `tree_sitter_java` or `tree_sitter_rust`, compiles `pattern` with
/// `tree_sitter::Query::new` and walks `tree_sitter::QueryCursor::matches` over
/// the root node, reading each capture with `Node::utf8_text`. The result is
/// named, not described, and only for the declaration query of the grammar,
/// which has no predicates for the engine to evaluate.
#[verifier::external_body]
pub(crate) fn run_query(grammar: Grammar, pattern: &str, source: &str) -> (found: Option<
    Vec<Vec<(u32, Option<String>)>>,
>)
    requires
        pattern@ == declaration_pattern(grammar),
    ensures
        found.deep_view() == query_captures(grammar, pattern@, source@),
{
    let language = Language::new(match grammar {
        Grammar::Java => JAVA_GRAMMAR,
        Grammar::Rust => RUST_GRAMMAR,
    });
    let mut parser = Parser::new();
    parser.set_language(&language).ok()?;
    let query = Query::new(&language, pattern).ok()?;
    let tree = parser.parse(source, None)?;
    let mut cursor = QueryCursor::new();
    let mut matches = cursor.matches(&query, tree.root_node(), source.as_bytes());
    let mut found = Vec::new();
    while let Some(m) = matches.next() {
        found.push(m.captures().iter().map(|c| (c.index, c.node.utf8_text(source.as_bytes()).ok().map(str::to_string))).collect());
    }
    Some(found)
}

/// Whether a match counts under the grammar: an implementation block
/// contributes only through its functions, so under that grammar a match
/// without a method is dropped.
pub open spec fn admits(grammar: Grammar, facts: MatchFacts) -> bool {
    grammar == Grammar::Java || facts.method_name.len() > 0
}

/// The matches that a query run yields: each decoded, those kept that the
/// grammar admits, in the order found.
pub open spec fn decoded_matches(
    grammar: Grammar,
    found: Seq<Seq<(u32, Option<Seq<char>>)>>,
) -> Seq<MatchFacts>
    decreases found.len(),
{
    if found.len() == 0 {
        Seq::empty()
    } else if admits(grammar, decode(grammar, found.last())) {
        decoded_matches(grammar, found.drop_last()).push(decode(grammar, found.last()))
    } else {
        decoded_matches(grammar, found.drop_last())
    }
}

/// The matches of the grammar's declaration query in one source text; none
/// where the engine refuses the source.
pub open spec fn source_matches(grammar: Grammar, source: Seq<char>) -> Seq<MatchFacts> {
    match query_captures(grammar, declaration_pattern(grammar), source) {
        Some(found) => decoded_matches(grammar, found),
        None => Seq::empty(),
    }
}

/// The matches of a corpus: those of each source text, in the order of the texts.
pub open spec fn corpus_matches(grammar: Grammar, sources: Seq<Seq<char>>) -> Seq<MatchFacts>
    decreases sources.len(),
{
    if sources.len() == 0 {
        Seq::empty()
    } else {
        corpus_matches(grammar, sources.drop_last()) + source_matches(grammar, sources.last())
    }
}

/// Reads the matches of a query run, keeping those that the grammar admits.
pub fn decode_matches(grammar: Grammar, found: &Vec<Vec<(u32, Option<String>)>>) -> (matches: Vec<
    ExtractionMatch,
>)
    ensures
        matches.deep_view() == decoded_matches(grammar, found.deep_view()),
{
    let mut matches: Vec<ExtractionMatch> = Vec::new();
    let mut i: usize = 0;
    assert(found.deep_view().take(0) =~= Seq::empty());
    assert(matches.deep_view() =~= Seq::empty());
    while i < found.len()
        invariant
            i <= found@.len(),
            matches.deep_view() == decoded_matches(grammar, found.deep_view().take(i as int)),
        decreases found@.len() - i,
    {
        let ghost seen = found.deep_view().take(i + 1);
        let ghost kept = matches.deep_view();
        assert(seen.drop_last() =~= found.deep_view().take(i as int));
        assert(seen.last() == found@[i as int].deep_view());
        let one = decode_match(grammar, &found[i]);
        let admitted = match grammar {
            Grammar::Java => true,
            Grammar::Rust => !one.method_name.as_str().is_empty(),
        };
        if admitted {
            matches.push(one);
            assert(matches.deep_view() =~= kept.push(one@));
        }
        i += 1;
    }
    assert(found.deep_view().take(i as int) =~= found.deep_view());
    matches
}

/// Extracts the declaration matches of one source text.
pub fn extract_matches(grammar: Grammar, source: &str) -> (matches: Vec<ExtractionMatch>)
    ensures
        matches.deep_view() == source_matches(grammar, source@),
{
    let pattern = match grammar {
        Grammar::Java => JAVA_DECLARATIONS,
        Grammar::Rust => RUST_DECLARATIONS,
    };
    match run_query(grammar, pattern, source) {
        Some(found) => decode_matches(grammar, &found),
        None => {
            let none: Vec<ExtractionMatch> = Vec::new();
            assert(none.deep_view() =~= Seq::empty());
            none
        },
    }
}

} // verus!
