use steel_tracker::extractors::captures::{
    capture_role, decode_match, decode_matches, extract_matches, CaptureRole, ExtractionMatch,
    Grammar,
};
use steel_tracker::extractors::type_graph::TypeGraph;
use steel_tracker::extractors::{parse_java_files_unfiltered, parse_rust_files_unfiltered};
use steel_tracker::types::{ClassInfo, ClassMethods};

fn names(items: &[&str]) -> Vec<String> {
    items.iter().map(|s| s.to_string()).collect()
}

fn found(class: &str, method: &str, supertype: Option<&str>, interfaces: &[&str]) -> ExtractionMatch {
    ExtractionMatch {
        class_name: class.to_string(),
        method_name: method.to_string(),
        supertype: supertype.map(|s| s.to_string()),
        interfaces: names(interfaces),
    }
}

fn summary(class: &str, methods: &[&str], concrete: bool) -> ClassMethods {
    ClassMethods {
        class_name: class.to_string(),
        class_type: String::new(),
        methods: names(methods),
        is_real_class: concrete,
    }
}

fn capture(index: u32, text: &str) -> (u32, Option<String>) {
    (index, Some(text.to_string()))
}

fn declarations(graph: &TypeGraph) -> Vec<ClassInfo> {
    (0..graph.len()).map(|i| graph.get(i).expect("within the graph").clone()).collect()
}

#[test]
fn capture_roles_follow_the_query_of_each_grammar() {
    assert_eq!(capture_role(Grammar::Java, 0), Some(CaptureRole::TypeName));
    assert_eq!(capture_role(Grammar::Java, 1), Some(CaptureRole::Supertype));
    assert_eq!(capture_role(Grammar::Java, 2), Some(CaptureRole::Interface));
    assert_eq!(capture_role(Grammar::Java, 3), Some(CaptureRole::MethodName));
    assert_eq!(capture_role(Grammar::Java, 4), None);
    assert_eq!(capture_role(Grammar::Rust, 0), Some(CaptureRole::TypeName));
    assert_eq!(capture_role(Grammar::Rust, 1), Some(CaptureRole::MethodName));
    assert_eq!(capture_role(Grammar::Rust, 2), None);
}

#[test]
fn decode_reads_java_captures() {
    let captures = vec![
        capture(0, "Foo"),
        capture(1, "Base"),
        capture(2, "Tickable"),
        capture(2, "Damageable"),
        capture(3, "tick"),
    ];
    assert_eq!(
        decode_match(Grammar::Java, &captures),
        found("Foo", "tick", Some("Base"), &["Tickable", "Damageable"])
    );
}

#[test]
fn decode_lets_a_later_capture_replace_an_earlier_one() {
    let captures = vec![capture(0, "Foo"), capture(3, "tick"), capture(0, "Bar"), capture(3, "run")];
    assert_eq!(decode_match(Grammar::Java, &captures), found("Bar", "run", None, &[]));
}

#[test]
fn decode_passes_over_unknown_and_unreadable_captures() {
    let captures = vec![capture(0, "Foo"), capture(9, "noise"), (3, None), (1, None)];
    assert_eq!(decode_match(Grammar::Java, &captures), found("Foo", "", None, &[]));
    assert_eq!(decode_match(Grammar::Java, &Vec::new()), found("", "", None, &[]));
}

#[test]
fn decode_reads_rust_captures() {
    let captures = vec![capture(0, "Foo"), capture(1, "tick")];
    assert_eq!(decode_match(Grammar::Rust, &captures), found("Foo", "tick", None, &[]));
    // Under this grammar the second capture is the method, and there are no ancestors.
    let captures = vec![capture(0, "Foo"), capture(2, "Tickable"), capture(3, "tick")];
    assert_eq!(decode_match(Grammar::Rust, &captures), found("Foo", "", None, &[]));
}

#[test]
fn decode_matches_drops_rust_matches_without_a_method() {
    let runs = vec![
        vec![capture(0, "Foo"), capture(1, "tick")],
        vec![capture(0, "Bar")],
        vec![capture(0, "Baz"), capture(1, "run")],
    ];
    assert_eq!(
        decode_matches(Grammar::Rust, &runs),
        vec![found("Foo", "tick", None, &[]), found("Baz", "run", None, &[])]
    );
    // Under the class grammar such a match still brings its type.
    let runs = vec![vec![capture(0, "Foo"), capture(1, "Base")], vec![capture(0, "Bar"), capture(3, "run")]];
    assert_eq!(
        decode_matches(Grammar::Java, &runs),
        vec![found("Foo", "", Some("Base"), &[]), found("Bar", "run", None, &[])]
    );
}

#[test]
fn extract_matches_finds_java_methods_with_their_class() {
    let source = "package a;\n\
        class Base { void tick() {} }\n\
        class Foo extends Base implements Tickable, Damageable {\n\
            void tick() {}\n\
            int damage(int x) { return x; }\n\
        }\n\
        class Empty {}\n\
        interface Tickable { void tick(); }\n\
        class One implements Tickable { void run() {} }\n";
    assert_eq!(
        extract_matches(Grammar::Java, source),
        vec![
            found("Base", "tick", None, &[]),
            found("Foo", "tick", Some("Base"), &["Tickable"]),
            found("Foo", "tick", Some("Base"), &["Damageable"]),
            found("Foo", "damage", Some("Base"), &["Tickable"]),
            found("Foo", "damage", Some("Base"), &["Damageable"]),
            found("One", "run", None, &["Tickable"]),
        ]
    );
}

#[test]
fn extract_matches_finds_rust_functions_with_their_type() {
    let source = "struct Foo;\n\
        impl Foo { fn tick(&self) {} fn damage(&self) {} }\n\
        impl Tick for Foo { fn run(&self) {} }\n\
        fn free() {}\n";
    assert_eq!(
        extract_matches(Grammar::Rust, source),
        vec![
            found("Foo", "tick", None, &[]),
            found("Foo", "damage", None, &[]),
            found("Foo", "run", None, &[]),
        ]
    );
}

#[test]
fn extract_matches_of_text_without_declarations_is_empty() {
    assert_eq!(extract_matches(Grammar::Java, ""), Vec::new());
    assert_eq!(extract_matches(Grammar::Java, "not a declaration at all"), Vec::new());
    assert_eq!(extract_matches(Grammar::Rust, "class Foo { void tick() {} }"), Vec::new());
}

#[test]
fn merge_idempotence() {
    let one = found("Foo", "tick", Some("Base"), &["Tickable", "Damageable"]);
    let mut once = TypeGraph::new();
    once.absorb(&one);
    let mut twice = TypeGraph::new();
    twice.absorb(&one);
    twice.absorb(&one);
    assert_eq!(declarations(&once), declarations(&twice));
    assert_eq!(
        declarations(&twice),
        vec![ClassInfo {
            name: "Foo".to_string(),
            methods: names(&["tick"]),
            extends: Some("Base".to_string()),
            implements: names(&["Tickable", "Damageable"]),
        }]
    );

    let mut decl = ClassInfo {
        name: "Foo".to_string(),
        methods: names(&["run"]),
        extends: None,
        implements: names(&["Damageable"]),
    };
    decl.merge(&one);
    let after_one = decl.clone();
    decl.merge(&one);
    assert_eq!(decl, after_one);
    assert_eq!(decl.methods, names(&["run", "tick"]));
    assert_eq!(decl.implements, names(&["Damageable", "Tickable"]));
}

#[test]
fn non_destructive_merge() {
    let mut graph = TypeGraph::new();
    graph.absorb(&found("Foo", "tick", Some("Base"), &["Tickable"]));
    graph.absorb(&found("Foo", "damage", None, &[]));
    let decl = graph.get(0).expect("one declaration");
    assert_eq!(decl.extends, Some("Base".to_string()));
    assert_eq!(decl.implements, names(&["Tickable"]));
    assert_eq!(decl.methods, names(&["tick", "damage"]));
}

#[test]
fn a_present_supertype_replaces_the_known_one() {
    let mut graph = TypeGraph::new();
    graph.absorb(&found("Foo", "tick", Some("Base"), &[]));
    graph.absorb(&found("Foo", "tick", Some("Other"), &[]));
    assert_eq!(graph.get(0).expect("one declaration").extends, Some("Other".to_string()));
    assert_eq!(graph.len(), 1);
}

#[test]
fn a_match_without_a_type_name_is_discarded() {
    let mut graph = TypeGraph::new();
    graph.absorb(&found("", "tick", Some("Base"), &["Tickable"]));
    assert_eq!(graph.len(), 0);
    graph.absorb(&found("Foo", "tick", None, &[]));
    graph.absorb(&found("", "damage", None, &[]));
    assert_eq!(declarations(&graph).len(), 1);
    assert_eq!(graph.get(0).expect("one declaration").methods, names(&["tick"]));
    assert_eq!(graph.get(1), None);
}

#[test]
fn a_match_without_a_method_still_brings_its_ancestors() {
    let mut graph = TypeGraph::new();
    graph.absorb(&found("Foo", "", Some("Base"), &["Tickable"]));
    let decl = graph.get(0).expect("one declaration");
    assert_eq!(decl.name, "Foo");
    assert!(decl.methods.is_empty());
    assert_eq!(decl.extends, Some("Base".to_string()));
    assert_eq!(decl.implements, names(&["Tickable"]));
}

#[test]
fn aggregate_keeps_first_seen_order_and_collapses_repeats() {
    let matches = vec![
        found("Foo", "tick", Some("Base"), &["Tickable"]),
        found("Base", "tick", None, &[]),
        found("Foo", "tick", Some("Base"), &["Damageable"]),
        found("Foo", "damage", Some("Base"), &["Tickable", "Tickable"]),
        found("Base", "run", None, &[]),
    ];
    let graph = TypeGraph::aggregate(&matches);
    assert_eq!(
        declarations(&graph),
        vec![
            ClassInfo {
                name: "Foo".to_string(),
                methods: names(&["tick", "damage"]),
                extends: Some("Base".to_string()),
                implements: names(&["Tickable", "Damageable"]),
            },
            ClassInfo {
                name: "Base".to_string(),
                methods: names(&["tick", "run"]),
                extends: None,
                implements: Vec::new(),
            },
        ]
    );
    assert_eq!(graph.position("Base"), Some(1));
    assert_eq!(graph.position("base"), None);
}

#[test]
fn classification_correctness() {
    let graph = TypeGraph::aggregate(&vec![
        found("A", "tick", None, &[]),
        found("B", "tick", Some("A"), &[]),
    ]);
    assert_eq!(
        graph.classify(),
        vec![summary("A", &["tick"], false), summary("B", &["tick"], true)]
    );
}

#[test]
fn classification_does_not_depend_on_the_order_of_the_matches() {
    let graph = TypeGraph::aggregate(&vec![
        found("B", "tick", Some("A"), &[]),
        found("A", "tick", None, &[]),
    ]);
    assert_eq!(
        graph.classify(),
        vec![summary("B", &["tick"], true), summary("A", &["tick"], false)]
    );
}

#[test]
fn interfaces_and_unseen_ancestors_count_for_the_child_index() {
    let graph = TypeGraph::aggregate(&vec![
        found("Mob", "tick", Some("Living"), &["Tickable"]),
        found("Living", "tick", Some("Entity"), &[]),
        found("Tickable", "tick", None, &[]),
        found("Cow", "moo", Some("Mob"), &["Tickable", "Mob"]),
        found("Lone", "run", None, &[]),
    ]);
    let index = graph.child_index();
    assert_eq!(index.get("Living"), Some(&names(&["Mob"])));
    assert_eq!(index.get("Tickable"), Some(&names(&["Mob", "Cow"])));
    assert_eq!(index.get("Entity"), Some(&names(&["Living"])));
    // Named both as supertype and as interface, the child is filed once.
    assert_eq!(index.get("Mob"), Some(&names(&["Cow"])));
    assert_eq!(index.get("Cow"), None);
    assert_eq!(index.get("Lone"), None);
    assert_eq!(
        graph.classify(),
        vec![
            summary("Mob", &["tick"], false),
            summary("Living", &["tick"], false),
            summary("Tickable", &["tick"], false),
            summary("Cow", &["moo"], true),
            summary("Lone", &["run"], true),
        ]
    );
}

#[test]
fn a_graph_without_inheritance_is_all_concrete() {
    let graph = TypeGraph::aggregate(&vec![
        found("Foo", "tick", None, &[]),
        found("Bar", "run", None, &[]),
    ]);
    assert_eq!(graph.all_concrete(), graph.classify());
    assert_eq!(
        graph.all_concrete(),
        vec![summary("Foo", &["tick"], true), summary("Bar", &["run"], true)]
    );
    assert_eq!(TypeGraph::new().classify(), Vec::new());
}

#[test]
fn java_classes_are_gathered_across_files() {
    let sources = vec![
        "class Foo extends Base { void tick() {} }".to_string(),
        "this file does not parse as a class {{{".to_string(),
        "class Base { void tick() {} void run() {} }\nclass Foo { void damage() {} }".to_string(),
    ];
    assert_eq!(
        parse_java_files_unfiltered(&sources),
        vec![
            summary("Foo", &["tick", "damage"], true),
            summary("Base", &["tick", "run"], false),
        ]
    );
    assert_eq!(parse_java_files_unfiltered(&Vec::new()), Vec::new());
}

#[test]
fn rust_types_are_gathered_across_files_and_always_concrete() {
    let sources = vec![
        "impl Foo { fn tick(&self) {} }\nimpl Base { fn run() {} }".to_string(),
        "impl Tick for Foo { fn tick(&self) {} fn damage(&self) {} }".to_string(),
    ];
    assert_eq!(
        parse_rust_files_unfiltered(&sources),
        vec![summary("Foo", &["tick", "damage"], true), summary("Base", &["run"], true)]
    );
}
