use kozue::ir::{
    ArrowType, Diagram, Direction, Edge, GraphDiagram, LineStyle, LineWeight, Node, NodeKind,
};
use kozue::lsp::{DslDiagnostic, Secondary};
use kozue::position::SpanUnit;
use kozue::wasm::{
    check_impl, format_diagnostic, format_secondary, parse_any, parse_by_name, parse_lang, Lang,
};

const KOZUE_MINIMAL: &str = "diagram d {\n  direction down\n  a: \"A\"\n  b: \"B\"\n  a -> b\n}";
const MERMAID_MINIMAL: &str = "sequenceDiagram\n  participant A as Alice\n  participant B\n  A->>B: hello\n  B-->>A: reply\n";
const PLANTUML_MINIMAL: &str =
    "@startuml\nparticipant Alice\nparticipant Bob\nAlice -> Bob : hi\n@enduml\n";

/// The diagram of `KOZUE_MINIMAL`.
fn kozue_minimal() -> Result<Diagram, Vec<DslDiagnostic>> {
    let node = |id: &str, label: &str| Node {
        id: id.to_string(),
        label: label.to_string(),
        kind: NodeKind::Default,
    };
    Ok(Diagram::Graph(GraphDiagram {
        direction: Direction::Down,
        nodes: vec![node("a", "A"), node("b", "B")],
        edges: vec![Edge {
            from: "a".to_string(),
            to: "b".to_string(),
            label: None,
            arrow: ArrowType::Triangle,
            from_arrow: ArrowType::Plain,
            line: LineStyle::Solid,
            weight: LineWeight::Normal,
            from_port: None,
            to_port: None,
        }],
        containers: vec![],
    }))
}

#[test]
fn check_impl_valid_input_ok() {
    assert!(check_impl(KOZUE_MINIMAL, "kozue", kozue_minimal()).is_ok());
    assert!(check_impl(MERMAID_MINIMAL, "mermaid", Err(vec![])).is_ok());
    assert!(check_impl(PLANTUML_MINIMAL, "plantuml", Err(vec![])).is_ok());
}

#[test]
fn check_impl_invalid_input_err_contains_line() {
    let bad = "this is not valid kozue syntax at all";
    let found = DslDiagnostic {
        message: "unexpected `this`".to_string(),
        span: 0..4,
        secondary: None,
    };
    let err = check_impl(bad, "kozue", Err(vec![found])).expect_err("should fail on invalid input");
    assert!(
        err.contains("line"),
        "error message should contain 'line', got: {err}"
    );
}

#[test]
fn cjk_dsl_error_does_not_panic() {
    // DSL spans are character indices, so byte-slicing them would panic on
    // multi-byte input and abort the wasm module. Must return a clean Err
    // instead.
    let bad = "diagram d {\n  a: \"あいうえお\" @\n}";
    let found = DslDiagnostic {
        message: "unexpected `@`".to_string(),
        span: 25..26,
        secondary: None,
    };
    let err = check_impl(bad, "kozue", Err(vec![found]))
        .expect_err("invalid DSL must error, not panic");
    assert!(err.contains("line"), "got: {err}");
    assert!(err.contains("line 2, column 14"), "got: {err}");
}

#[test]
fn dsl_secondary_label_is_surfaced() {
    // Duplicate declaration carries a "first declared here" secondary label
    // that must not be silently dropped (project data-loss principle).
    let dup = "diagram d {\n  a: \"A\"\n  a: \"B\"\n}";
    let found = DslDiagnostic {
        message: "duplicate id `a`".to_string(),
        span: 23..24,
        secondary: Some(Secondary { span: 14..15, message: "first declared here".to_string() }),
    };
    let err = check_impl(dup, "kozue", Err(vec![found])).expect_err("duplicate id must error");
    assert!(
        err.contains("note at line"),
        "secondary label must be surfaced: {err}"
    );
}

#[test]
fn parse_lang_unknown_returns_err() {
    let result = parse_lang("unknown-lang");
    assert!(result.is_err());
    let msg = result.unwrap_err();
    assert!(msg.contains("unknown language"), "got: {msg}");
}

#[test]
fn svg_impl_unknown_lang_returns_err() {
    let result = parse_by_name(KOZUE_MINIMAL, "wat", kozue_minimal());
    assert!(result.is_err());
}

#[test]
fn png_impl_unknown_lang_returns_err() {
    let result = parse_by_name(KOZUE_MINIMAL, "unknown", kozue_minimal());
    assert!(result.is_err());
}

#[test]
fn languages_are_found_by_name() {
    assert_eq!(parse_lang("kozue"), Ok(Lang::Kozue));
    assert_eq!(parse_lang("mermaid"), Ok(Lang::Mermaid));
    assert_eq!(parse_lang("plantuml"), Ok(Lang::Plantuml));
    assert!(parse_lang("Kozue").is_err());
}

#[test]
fn each_language_has_its_frontend() {
    assert!(matches!(
        parse_any(MERMAID_MINIMAL, Lang::Mermaid, Err(vec![])),
        Ok(Diagram::Sequence(_))
    ));
    assert!(matches!(
        parse_any(PLANTUML_MINIMAL, Lang::Plantuml, Err(vec![])),
        Ok(Diagram::Sequence(_))
    ));
    assert!(matches!(
        parse_any(KOZUE_MINIMAL, Lang::Kozue, kozue_minimal()),
        Ok(Diagram::Graph(_))
    ));
    assert!(parse_any(PLANTUML_MINIMAL, Lang::Mermaid, Err(vec![])).is_err());
}

#[test]
fn errors_name_line_and_column() {
    let input = "あ\nxy";
    assert_eq!(
        format_diagnostic(input, "bad", &(4..5), SpanUnit::Byte),
        "error at line 2, column 1: bad"
    );
    assert_eq!(
        format_secondary(input, "first", &(1..2), SpanUnit::Char),
        "  note at line 1, column 2: first"
    );
}
