use kozue::ir::{
    ArrowType, Diagram, Direction, Edge, GraphDiagram, LineStyle, LineWeight, Message, Node,
    NodeKind, Participant, ParticipantKind, SequenceDiagram, SequenceItem, StateDiagram,
};
use kozue::lsp::server::{Action, Server};
use kozue::lsp::{
    detect_language, detect_language_of_path, hover, hover_for_word, identifier_at, parse_to_ir,
    to_lsp_diagnostics, DslDiagnostic, Language, Secondary, Severity,
};
use kozue::position::Position;

fn uri(name: &str) -> String {
    format!("file:///tmp/{name}")
}

fn node(id: &str, label: &str) -> Node {
    Node { id: id.to_string(), label: label.to_string(), kind: NodeKind::Default }
}

fn edge(from: &str, to: &str) -> Edge {
    Edge {
        from: from.to_string(),
        to: to.to_string(),
        label: None,
        arrow: ArrowType::Triangle,
        from_arrow: ArrowType::Plain,
        line: LineStyle::Solid,
        weight: LineWeight::Normal,
        from_port: None,
        to_port: None,
    }
}

/// The diagram of `graph d { a: "..." b: "..." a -> b }`.
fn dsl_graph(a: &str, b: &str) -> Diagram {
    Diagram::Graph(GraphDiagram {
        direction: Direction::Down,
        nodes: vec![node("a", a), node("b", b)],
        edges: vec![edge("a", "b")],
        containers: vec![],
    })
}

/// What the frontend for kozue's own language reports of a document.
fn dsl_error(message: &str, span: std::ops::Range<usize>) -> DslDiagnostic {
    DslDiagnostic { message: message.to_string(), span, secondary: None }
}

fn duplicate_error() -> DslDiagnostic {
    DslDiagnostic {
        message: "duplicate id `a`".to_string(),
        span: 21..22,
        secondary: Some(Secondary { span: 12..13, message: "first declared here".to_string() }),
    }
}

#[test]
fn detect_by_extension() {
    assert_eq!(
        detect_language(&uri("a.kozue"), None),
        Some(Language::Kozue)
    );
    assert_eq!(detect_language(&uri("a.kzd"), None), Some(Language::Kozue));
    assert_eq!(
        detect_language(&uri("a.mmd"), None),
        Some(Language::Mermaid)
    );
    assert_eq!(
        detect_language(&uri("a.mermaid"), None),
        Some(Language::Mermaid)
    );
    for ext in ["puml", "plantuml", "pu", "iuml"] {
        assert_eq!(
            detect_language(&uri(&format!("a.{ext}")), None),
            Some(Language::Plantuml),
            "ext {ext}"
        );
    }
}

#[test]
fn detect_is_case_insensitive() {
    assert_eq!(
        detect_language(&uri("A.KOZUE"), None),
        Some(Language::Kozue)
    );
    assert_eq!(
        detect_language(&uri("A.Mermaid"), None),
        Some(Language::Mermaid)
    );
}

#[test]
fn detect_unknown_extension_is_none() {
    // Unknown extension → None → server publishes empty diagnostics
    // (no silent language guessing).
    assert_eq!(detect_language(&uri("a.txt"), None), None);
    assert_eq!(detect_language(&uri("a"), None), None);
}

#[test]
fn detect_init_lang_is_fallback_only() {
    // A `.txt` file with an explicit override is honoured (fallback).
    assert_eq!(
        detect_language(&uri("a.txt"), Some("mermaid")),
        Some(Language::Mermaid)
    );
    // But a known extension is primary: the override must NOT trample it,
    // so a mixed-language workspace keeps per-file detection.
    assert_eq!(
        detect_language(&uri("a.kozue"), Some("plantuml")),
        Some(Language::Kozue)
    );
}

#[test]
fn detect_unknown_init_lang_falls_back_to_extension() {
    assert_eq!(
        detect_language(&uri("a.kozue"), Some("nonsense")),
        Some(Language::Kozue)
    );
    assert_eq!(detect_language(&uri("a.txt"), Some("nonsense")), None);
}

#[test]
fn detect_reads_the_path_of_a_uri() {
    // The query and the fragment are no part of the path.
    assert_eq!(
        detect_language("http://host/a.mmd?x=a.puml#b.kozue", None),
        Some(Language::Mermaid)
    );
    assert_eq!(detect_language("no uri a.mmd", None), None);
    assert_eq!(
        detect_language("no uri a.mmd", Some("kozue")),
        Some(Language::Kozue)
    );
    assert_eq!(
        detect_language_of_path(Some("/tmp/a.pu"), Some("kozue")),
        Some(Language::Plantuml)
    );
    assert_eq!(detect_language_of_path(None, None), None);
}

#[test]
fn valid_input_has_no_diagnostics() {
    let kozue = "graph d {\n  a: \"A\"\n  b: \"B\"\n  a -> b\n}";
    assert!(to_lsp_diagnostics(&uri("a.kozue"), kozue, Language::Kozue, &vec![]).is_empty());
    let mermaid = "flowchart TD\n  A --> B\n";
    assert!(to_lsp_diagnostics(&uri("a.mmd"), mermaid, Language::Mermaid, &vec![]).is_empty());
    let plantuml = "@startuml\nA -> B\n@enduml\n";
    assert!(to_lsp_diagnostics(&uri("a.puml"), plantuml, Language::Plantuml, &vec![]).is_empty());
}

#[test]
fn kozue_error_is_reported_with_span_and_severity() {
    let bad = "this is not valid kozue";
    let errors = vec![dsl_error("unexpected `this`", 0..4)];
    let diags = to_lsp_diagnostics(&uri("a.kozue"), bad, Language::Kozue, &errors);
    assert!(!diags.is_empty());
    let d = &diags[0];
    assert_eq!(d.severity, Severity::Error);
    assert!(!d.message.is_empty());
    // Span must be a valid position on line 0.
    assert_eq!(d.range.start.line, 0);
    assert_eq!(d.range.end, Position { line: 0, character: 4 });
}

#[test]
fn kozue_duplicate_id_surfaces_related_information() {
    // Duplicate declaration carries a "first declared here" secondary label
    // that must be attached as related_information (no data loss).
    let dup = "graph d {\n  a: \"A\"\n  a: \"B\"\n}";
    let diags =
        to_lsp_diagnostics(&uri("a.kozue"), dup, Language::Kozue, &vec![duplicate_error()]);
    let related: Vec<_> = diags
        .iter()
        .filter_map(|d| d.related_information.as_ref())
        .collect();
    assert!(
        !related.is_empty(),
        "duplicate id should carry related_information"
    );
    assert_eq!(related[0].message, "first declared here");
}

#[test]
fn mermaid_error_uses_byte_span() {
    // A multi-byte prefix ensures the byte-vs-char distinction matters:
    // the error position must be computed via SpanUnit::Byte.
    let bad = "flowchart TD\n  A --> ??? invalid";
    let diags = to_lsp_diagnostics(&uri("a.mmd"), bad, Language::Mermaid, &vec![]);
    assert!(!diags.is_empty());
    assert_eq!(diags[0].severity, Severity::Error);
}

#[test]
fn mermaid_error_behind_wide_characters_is_found_by_its_bytes() {
    let bad = "flowchart TD\n  %% あいう\n  A --> A";
    let diags = to_lsp_diagnostics(&uri("a.mmd"), bad, Language::Mermaid, &vec![]);
    assert_eq!(diags.len(), 1);
    assert_eq!(diags[0].range.start, Position { line: 2, character: 0 });
}

#[test]
fn plantuml_error_is_reported() {
    let bad = "not a plantuml diagram";
    let diags = to_lsp_diagnostics(&uri("a.puml"), bad, Language::Plantuml, &vec![]);
    assert!(!diags.is_empty());
    assert_eq!(diags[0].severity, Severity::Error);
}

#[test]
fn cjk_dsl_error_does_not_panic_and_ranges_are_sane() {
    // DSL spans are char indices; byte-slicing them would panic
    // on multi-byte input. Must produce clean diagnostics instead.
    let bad = "graph d {\n  a: \"あいうえお\" @\n}";
    let errors = vec![dsl_error("unexpected `@`", 23..24), dsl_error("unexpected end", 26..40)];
    let diags = to_lsp_diagnostics(&uri("a.kozue"), bad, Language::Kozue, &errors);
    assert!(!diags.is_empty());
    for d in &diags {
        // A well-formed range never has end before start on the same line.
        if d.range.start.line == d.range.end.line {
            assert!(d.range.end.character >= d.range.start.character);
        }
    }
    assert_eq!(diags[0].range.start, Position { line: 1, character: 13 });
}

#[test]
fn diagnostic_source_is_kozue() {
    let bad = "not valid";
    let errors = vec![dsl_error("unexpected `not`", 0..3)];
    let diags = to_lsp_diagnostics(&uri("a.kozue"), bad, Language::Kozue, &errors);
    assert!(!diags.is_empty());
    assert_eq!(diags[0].source, "kozue");
}

#[test]
fn related_information_location_points_at_this_document() {
    let dup = "graph d {\n  a: \"A\"\n  a: \"B\"\n}";
    let u = uri("dup.kozue");
    let diags = to_lsp_diagnostics(&u, dup, Language::Kozue, &vec![duplicate_error()]);
    let related = diags
        .iter()
        .find_map(|d| d.related_information.as_ref())
        .expect("expected related information");
    assert_eq!(related.uri, u);
    // Should point somewhere non-trivial (not the default zero range only).
    assert_eq!(related.range.start, Position { line: 1, character: 2 });
}

#[test]
fn identifier_at_start_of_word() {
    let text = "foo bar";
    // byte 0 → start of "foo"
    let (range, word) = identifier_at(text, 0).unwrap();
    assert_eq!(word, "foo");
    assert_eq!(range, 0..3);
}

#[test]
fn identifier_at_middle_of_word() {
    let text = "hello world";
    // byte 2 → inside "hello"
    let (range, word) = identifier_at(text, 2).unwrap();
    assert_eq!(word, "hello");
    assert_eq!(range, 0..5);
}

#[test]
fn identifier_at_end_of_word() {
    let text = "abc xyz";
    // byte 2 → last char of "abc"
    let (range, word) = identifier_at(text, 2).unwrap();
    assert_eq!(word, "abc");
    assert_eq!(range, 0..3);
}

#[test]
fn identifier_at_whitespace_is_none() {
    let text = "foo bar";
    // byte 3 → space
    assert!(identifier_at(text, 3).is_none());
}

#[test]
fn identifier_at_stops_at_hyphen() {
    // `-` is not an identifier char (matches the DSL lexer). In `a->b` the
    // word under the cursor on `a` is just "a", so node lookup succeeds.
    let text = "a->b";
    let (range, word) = identifier_at(text, 0).unwrap();
    assert_eq!(word, "a");
    assert_eq!(range, 0..1);
    // Cursor on the trailing `b`.
    let (_, word) = identifier_at(text, 3).unwrap();
    assert_eq!(word, "b");
}

#[test]
fn identifier_at_counts_bytes() {
    let text = "あ foo";
    assert_eq!(identifier_at(text, 4), Some((4..7, "foo".to_string())));
    assert_eq!(identifier_at(text, 1), None);
    assert_eq!(identifier_at(text, 7), None);
    assert_eq!(identifier_at(text, 90), None);
}

#[test]
fn hover_works_for_mermaid_via_shared_ir() {
    // Mermaid parses to the same IR, so hover_for_word resolves its nodes.
    let src = "flowchart TD\n  a --> b";
    let diagram = parse_to_ir(src, Language::Mermaid, None).expect("mermaid parses");
    assert!(hover_for_word(&diagram, &"a".to_string()).is_some());
}

#[test]
fn hover_for_word_unknown_id_is_none() {
    let diagram = dsl_graph("A", "B");
    assert!(hover_for_word(&diagram, &"z".to_string()).is_none());
}

#[test]
fn hover_for_word_graph_node_returns_markdown() {
    let diagram = dsl_graph("Alpha", "Beta");
    let md = hover_for_word(&diagram, &"a".to_string()).unwrap();
    assert!(md.contains("node"), "expected 'node' in: {md}");
    assert!(md.contains("Alpha"), "expected label in: {md}");
    assert_eq!(md, "**node** `a`\n\nLabel: Alpha");
}

#[test]
fn hover_for_word_sequence_participant_returns_markdown() {
    let participant = |id: &str, label: &str| Participant {
        id: id.to_string(),
        label: label.to_string(),
        kind: ParticipantKind::Default,
    };
    let diagram = Diagram::Sequence(SequenceDiagram {
        participants: vec![participant("alice", "Alice"), participant("bob", "Bob")],
        items: vec![SequenceItem::Message(Message {
            from: "alice".to_string(),
            to: "bob".to_string(),
            label: Some("hi".to_string()),
            line: LineStyle::Solid,
            arrow: ArrowType::Triangle,
        })],
    });
    let md = hover_for_word(&diagram, &"alice".to_string()).unwrap();
    assert!(
        md.contains("participant"),
        "expected 'participant' in: {md}"
    );
    assert!(md.contains("Alice"), "expected label in: {md}");
}

#[test]
fn hover_for_word_of_another_diagram_is_none() {
    let diagram = Diagram::State(StateDiagram { states: vec![], transitions: vec![] });
    assert!(hover_for_word(&diagram, &"a".to_string()).is_none());
}

#[test]
fn hover_finds_the_word_under_the_position() {
    let src = "flowchart TD\n  abc[Label] --> d\n";
    let (text, range) =
        hover(src, Language::Mermaid, Position { line: 1, character: 3 }, None).unwrap();
    assert_eq!(text, "**node** `abc`\n\nLabel: Label");
    assert_eq!(range.start, Position { line: 1, character: 2 });
    assert_eq!(range.end, Position { line: 1, character: 5 });
    assert!(hover(src, Language::Mermaid, Position { line: 0, character: 0 }, None).is_none());
    assert!(hover(src, Language::Plantuml, Position { line: 1, character: 3 }, None).is_none());
    let dsl = Some(dsl_graph("A", "B"));
    assert!(hover("a -> b", Language::Kozue, Position { line: 0, character: 0 }, dsl).is_some());
}

#[test]
fn a_document_is_read_back_until_it_is_closed() {
    let mut server = Server::new();
    let u = uri("a.mmd");
    assert_eq!(
        server.did_open(u.clone(), "one".to_string()),
        Action::Publish {
            uri: u.clone(),
            text: "one".to_string(),
            lang: Some(Language::Mermaid),
        }
    );
    assert_eq!(server.formatting_request(&u), None);
    assert_eq!(server.hover_request(&u), Some(("one".to_string(), Language::Mermaid)));
    // The last of several full-text changes counts.
    assert_eq!(
        server.did_change(u.clone(), vec!["two".to_string(), "three".to_string()]),
        Action::Publish {
            uri: u.clone(),
            text: "three".to_string(),
            lang: Some(Language::Mermaid),
        }
    );
    assert_eq!(server.did_change(u.clone(), vec![]), Action::Nothing);
    assert_eq!(server.hover_request(&u), Some(("three".to_string(), Language::Mermaid)));
    assert_eq!(
        server.did_save(u.clone()),
        Action::Publish {
            uri: u.clone(),
            text: "three".to_string(),
            lang: Some(Language::Mermaid),
        }
    );
    assert_eq!(server.did_close(u.clone()), Action::Clear { uri: u.clone() });
    assert_eq!(server.hover_request(&u), None);
    assert_eq!(server.did_save(u.clone()), Action::Nothing);
}

#[test]
fn the_language_of_the_session_is_a_fallback() {
    let mut server = Server::new();
    server.initialize(Some("kozue".to_string()));
    server.did_open(uri("a.txt"), "text".to_string());
    server.did_open(uri("b.mmd"), "other".to_string());
    assert_eq!(
        server.formatting_request(&uri("a.txt")),
        Some("text".to_string())
    );
    assert_eq!(
        server.hover_request(&uri("b.mmd")),
        Some(("other".to_string(), Language::Mermaid))
    );
}
