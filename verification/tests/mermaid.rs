use kozue::ir::{
    ArrowType, ClassDiagram, ClassNode, ClassRelation, Diagram, Direction, EndMarker, Endpoint,
    ErDiagram, ErEntity, LineStyle, LineWeight, Node, NodeKind, Participant, SequenceItem, State,
    StateDiagram,
};
use kozue::mermaid::scan::extract_bracket_with_rest;
use kozue::mermaid::{parse, parse_document};

trait HasId {
    fn key(&self) -> &str;
}

impl HasId for Node {
    fn key(&self) -> &str {
        &self.id
    }
}

impl HasId for Participant {
    fn key(&self) -> &str {
        &self.id
    }
}

impl HasId for State {
    fn key(&self) -> &str {
        &self.id
    }
}

impl HasId for ClassNode {
    fn key(&self) -> &str {
        &self.id
    }
}

impl HasId for ErEntity {
    fn key(&self) -> &str {
        &self.id
    }
}

fn by_id<'a, T: HasId>(items: &'a [T], id: &str) -> &'a T {
    items.iter().find(|item| item.key() == id).expect("no such id")
}

fn has_id<T: HasId>(items: &[T], id: &str) -> bool {
    items.iter().any(|item| item.key() == id)
}


#[test]
fn parse_document_has_no_mermaid_name() {
    let document = parse_document("flowchart TD\n  A --> B\n").unwrap();
    assert_eq!(document.metadata.name, None);
    assert!(document.extensions.is_empty());
    assert_eq!(
        parse("flowchart TD\n  A --> B\n").unwrap(),
        document.into_diagram()
    );
}

#[test]
fn flowchart_td_basic() {
    let src = "flowchart TD\n  A[開始] --> B[処理]\n  B --> C[終了]\n";
    let d = parse(src).expect("should parse");
    let Diagram::Graph(g) = d else {
        panic!("expected Graph")
    };
    assert_eq!(g.direction, Direction::Down);
    assert_eq!(g.nodes.len(), 3);
    assert_eq!(by_id(&g.nodes, "A").label, "開始");
    assert_eq!(by_id(&g.nodes, "B").label, "処理");
    assert_eq!(by_id(&g.nodes, "C").label, "終了");
    assert_eq!(g.edges.len(), 2);
}

#[test]
fn flowchart_tb_is_down() {
    let src = "flowchart TB\n  A --> B\n";
    let d = parse(src).expect("should parse");
    let Diagram::Graph(g) = d else { panic!() };
    assert_eq!(g.direction, Direction::Down);
}

#[test]
fn flowchart_lr() {
    let src = "flowchart LR\n  A --> B\n";
    let d = parse(src).expect("should parse");
    let Diagram::Graph(g) = d else { panic!() };
    assert_eq!(g.direction, Direction::Right);
}

#[test]
fn graph_keyword_accepted() {
    let src = "graph TD\n  A --> B\n";
    let d = parse(src).expect("should parse `graph` keyword");
    let Diagram::Graph(g) = d else { panic!() };
    assert_eq!(g.direction, Direction::Down);
}

#[test]
fn last_explicit_label_wins() {
    let src = "flowchart TD\n  A[First] --> B\n  A[Second] --> C\n";
    let d = parse(src).expect("should parse");
    let Diagram::Graph(g) = d else { panic!() };
    assert_eq!(by_id(&g.nodes, "A").label, "Second");
}

#[test]
fn bare_node_autodeclared_with_id_as_label() {
    let src = "flowchart TD\n  A --> B\n";
    let d = parse(src).expect("should parse");
    let Diagram::Graph(g) = d else { panic!() };
    assert_eq!(by_id(&g.nodes, "A").label, "A");
    assert_eq!(by_id(&g.nodes, "B").label, "B");
}

#[test]
fn pipe_label_on_edge() {
    let src = "flowchart TD\n  A -->|OK| B\n";
    let d = parse(src).expect("should parse");
    let Diagram::Graph(g) = d else { panic!() };
    assert_eq!(g.edges[0].label.as_deref(), Some("OK"));
}

#[test]
fn space_label_on_edge() {
    let src = "flowchart TD\n  A -- yes --> B\n";
    let d = parse(src).expect("should parse");
    let Diagram::Graph(g) = d else { panic!() };
    assert_eq!(g.edges[0].label.as_deref(), Some("yes"));
}

#[test]
fn no_arrow_edge() {
    let src = "flowchart TD\n  A --- B\n";
    let d = parse(src).expect("should parse");
    let Diagram::Graph(g) = d else { panic!() };
    assert_eq!(g.edges[0].arrow, ArrowType::Plain);
}

#[test]
fn dotted_directed_edge() {
    let src = "flowchart TD\n  A -.-> B\n";
    let d = parse(src).expect("should parse");
    let Diagram::Graph(g) = d else { panic!() };
    assert_eq!(g.edges[0].arrow, ArrowType::Triangle);
    assert_eq!(g.edges[0].from_arrow, ArrowType::Plain);
    assert_eq!(g.edges[0].line, LineStyle::Dotted);
    assert_eq!(g.edges[0].weight, LineWeight::Normal);
}

#[test]
fn dotted_directed_edge_with_pipe_label() {
    let src = "flowchart TD\n  A -.->|maybe| B\n";
    let d = parse(src).expect("should parse");
    let Diagram::Graph(g) = d else { panic!() };
    assert_eq!(g.edges[0].label.as_deref(), Some("maybe"));
    assert_eq!(g.edges[0].line, LineStyle::Dotted);
    assert_eq!(g.edges[0].arrow, ArrowType::Triangle);
}

#[test]
fn dotted_undirected_edge() {
    let src = "flowchart TD\n  A -.- B\n";
    let d = parse(src).expect("should parse");
    let Diagram::Graph(g) = d else { panic!() };
    assert_eq!(g.edges[0].arrow, ArrowType::Plain);
    assert_eq!(g.edges[0].from_arrow, ArrowType::Plain);
    assert_eq!(g.edges[0].line, LineStyle::Dotted);
}

#[test]
fn dotted_undirected_edge_with_pipe_label() {
    let src = "flowchart TD\n  A -.-|note| B\n";
    let d = parse(src).expect("should parse");
    let Diagram::Graph(g) = d else { panic!() };
    assert_eq!(g.edges[0].label.as_deref(), Some("note"));
    assert_eq!(g.edges[0].arrow, ArrowType::Plain);
    assert_eq!(g.edges[0].line, LineStyle::Dotted);
}

#[test]
fn thick_directed_edge() {
    let src = "flowchart TD\n  A ==> B\n";
    let d = parse(src).expect("should parse");
    let Diagram::Graph(g) = d else { panic!() };
    assert_eq!(g.edges[0].arrow, ArrowType::Triangle);
    assert_eq!(g.edges[0].line, LineStyle::Solid);
    assert_eq!(g.edges[0].weight, LineWeight::Thick);
}

#[test]
fn thick_directed_edge_with_pipe_label() {
    let src = "flowchart TD\n  A ==>|go| B\n";
    let d = parse(src).expect("should parse");
    let Diagram::Graph(g) = d else { panic!() };
    assert_eq!(g.edges[0].label.as_deref(), Some("go"));
    assert_eq!(g.edges[0].weight, LineWeight::Thick);
}

#[test]
fn thick_undirected_edge() {
    let src = "flowchart TD\n  A === B\n";
    let d = parse(src).expect("should parse");
    let Diagram::Graph(g) = d else { panic!() };
    assert_eq!(g.edges[0].arrow, ArrowType::Plain);
    assert_eq!(g.edges[0].weight, LineWeight::Thick);
}

#[test]
fn thick_undirected_edge_with_pipe_label() {
    let src = "flowchart TD\n  A ===|link| B\n";
    let d = parse(src).expect("should parse");
    let Diagram::Graph(g) = d else { panic!() };
    assert_eq!(g.edges[0].label.as_deref(), Some("link"));
    assert_eq!(g.edges[0].arrow, ArrowType::Plain);
    assert_eq!(g.edges[0].weight, LineWeight::Thick);
}

#[test]
fn bidirectional_edge() {
    let src = "flowchart TD\n  A <--> B\n";
    let d = parse(src).expect("should parse");
    let Diagram::Graph(g) = d else { panic!() };
    assert_eq!(g.edges[0].arrow, ArrowType::Triangle);
    assert_eq!(g.edges[0].from_arrow, ArrowType::Triangle);
    assert_eq!(g.edges[0].line, LineStyle::Solid);
    assert_eq!(g.edges[0].weight, LineWeight::Normal);
}

#[test]
fn bidirectional_edge_with_pipe_label() {
    let src = "flowchart TD\n  A <-->|both| B\n";
    let d = parse(src).expect("should parse");
    let Diagram::Graph(g) = d else { panic!() };
    assert_eq!(g.edges[0].label.as_deref(), Some("both"));
    assert_eq!(g.edges[0].arrow, ArrowType::Triangle);
    assert_eq!(g.edges[0].from_arrow, ArrowType::Triangle);
}

#[test]
fn dotted_undirected_is_not_shadowed_by_dotted_directed_prefix_overlap() {
    // `-.-` is a byte-prefix of `-.->`; both forms must resolve correctly.
    let src = "flowchart TD\n  A -.- B\n  C -.-> D\n";
    let d = parse(src).expect("should parse");
    let Diagram::Graph(g) = d else { panic!() };
    assert_eq!(g.edges[0].arrow, ArrowType::Plain);
    assert_eq!(g.edges[0].line, LineStyle::Dotted);
    assert_eq!(g.edges[1].arrow, ArrowType::Triangle);
    assert_eq!(g.edges[1].line, LineStyle::Dotted);
}

#[test]
fn thick_undirected_is_not_shadowed_by_thick_directed_prefix_overlap() {
    let src = "flowchart TD\n  A === B\n  C ==> D\n";
    let d = parse(src).expect("should parse");
    let Diagram::Graph(g) = d else { panic!() };
    assert_eq!(g.edges[0].arrow, ArrowType::Plain);
    assert_eq!(g.edges[0].weight, LineWeight::Thick);
    assert_eq!(g.edges[1].arrow, ArrowType::Triangle);
    assert_eq!(g.edges[1].weight, LineWeight::Thick);
}

#[test]
fn bidirectional_is_not_shadowed_by_directed_arrow() {
    let src = "flowchart TD\n  A <--> B\n  C --> D\n";
    let d = parse(src).expect("should parse");
    let Diagram::Graph(g) = d else { panic!() };
    assert_eq!(g.edges[0].from_arrow, ArrowType::Triangle);
    assert_eq!(g.edges[1].from_arrow, ArrowType::Plain);
}

#[test]
fn new_edge_operators_are_recognised_in_chains() {
    let src = "flowchart TD\n  A -.-> B ==> C\n";
    let d = parse(src).expect("should parse");
    let Diagram::Graph(g) = d else { panic!() };
    assert_eq!(g.edges.len(), 2);
    assert_eq!(g.edges[0].line, LineStyle::Dotted);
    assert_eq!(g.edges[1].weight, LineWeight::Thick);
}

#[test]
fn self_loop_in_flowchart_is_error() {
    let src = "flowchart TD\n  A --> A\n";
    let errs = parse(src).expect_err("self-loop should be error");
    assert!(
        errs.iter()
            .any(|e| e.message.contains("self-loops are not supported")),
        "got: {errs:?}"
    );
}

#[test]
fn direction_rl_is_left() {
    let src = "graph RL\n  A --> B\n";
    let Diagram::Graph(graph) = parse(src).expect("RL should parse") else {
        panic!("expected graph")
    };
    assert_eq!(graph.direction, Direction::Left);
}

#[test]
fn direction_bt_is_up() {
    let src = "flowchart BT\n  A --> B\n";
    let Diagram::Graph(graph) = parse(src).expect("BT should parse") else {
        panic!("expected graph")
    };
    assert_eq!(graph.direction, Direction::Up);
}

#[test]
fn semicolon_in_flowchart_is_unsupported() {
    let src = "flowchart TD\n  A --> B; B --> C\n";
    let errs = parse(src).expect_err("semicolon should be unsupported");
    assert!(
        errs.iter().any(|e| e.message.contains("semicolon")),
        "got: {errs:?}"
    );
}

#[test]
fn comment_lines_are_ignored() {
    let src = "flowchart TD\n  %% this is a comment\n  A --> B\n";
    let d = parse(src).expect("comments should be ignored");
    let Diagram::Graph(g) = d else { panic!() };
    assert_eq!(g.nodes.len(), 2);
}

#[test]
fn supported_node_shapes_map_to_semantic_kinds() {
    let src = "flowchart TD\n  A\n  B[rectangle]\n  C(rounded)\n  D((circle))\n  E{diamond}\n";
    let d = parse(src).expect("node shapes should parse");
    let Diagram::Graph(g) = d else { panic!() };
    assert_eq!(by_id(&g.nodes, "A").kind, NodeKind::Default);
    assert_eq!(by_id(&g.nodes, "B").kind, NodeKind::Rectangle);
    assert_eq!(by_id(&g.nodes, "C").kind, NodeKind::RoundedRectangle);
    assert_eq!(by_id(&g.nodes, "D").kind, NodeKind::Circle);
    assert_eq!(by_id(&g.nodes, "E").kind, NodeKind::Diamond);
}

#[test]
fn standalone_node_shapes_reject_trailing_tokens() {
    for declaration in [
        "A[rect] garbage",
        "A(round) garbage",
        "A((circle)) garbage",
        "A{diamond} garbage",
    ] {
        let source = format!("flowchart TD\n  {declaration}\n");
        let errors = parse(&source).expect_err("trailing tokens must be rejected");
        assert!(
            errors
                .iter()
                .any(|error| error.message.contains("syntax error")),
            "got: {errors:?}"
        );
    }
}

#[test]
fn unsupported_long_node_delimiters_have_exact_spans_standalone_and_on_edges() {
    for (shape, delimiter) in [
        ("A(((double)))", "((("),
        ("A{{hexagon}}", "{{"),
        ("A@{ shape: circle }", "@{"),
    ] {
        for statement in [shape.to_string(), format!("X --> {shape}")] {
            let source = format!("flowchart TD\n  {statement}\n");
            let errors = parse(&source).expect_err("shape must be unsupported");
            let start = source.find(delimiter).unwrap();
            assert!(
                errors.iter().any(|error| {
                    error.message.contains("unsupported")
                        && error.span == (start..start + delimiter.len())
                }),
                "expected exact span for {statement:?}, got: {errors:?}"
            );
        }
    }
}

#[test]
fn explicit_declarations_update_in_place_and_bare_references_do_not_overwrite() {
    let src = "flowchart TD\n  A[first] --> B(round) --> C\n  A --> D\n  A((last)) --> E\n  B --> E\n  B[later] --> E\n";
    let Diagram::Graph(graph) = parse(src).expect("flowchart should parse") else {
        panic!("expected graph")
    };
    assert_eq!(by_id(&graph.nodes, "A").label, "last");
    assert_eq!(by_id(&graph.nodes, "A").kind, NodeKind::Circle);
    assert_eq!(by_id(&graph.nodes, "B").label, "later");
    assert_eq!(by_id(&graph.nodes, "B").kind, NodeKind::Rectangle);
    assert_eq!(by_id(&graph.nodes, "C").kind, NodeKind::Default);
    assert_eq!(
        graph.nodes.iter().map(|n| n.id.as_str()).collect::<Vec<_>>(),
        ["A", "B", "C", "D", "E"]
    );
}

#[test]
fn sequence_basic() {
    let src = "sequenceDiagram\n  participant A as Alice\n  participant B\n  A->>B: こんにちは\n  B-->>A: 返事\n";
    let d = parse(src).expect("should parse");
    let Diagram::Sequence(s) = d else { panic!() };
    assert_eq!(s.participants.len(), 2);
    assert_eq!(by_id(&s.participants, "A").label, "Alice");
    assert_eq!(by_id(&s.participants, "B").label, "B");
    assert_eq!(s.items.len(), 2);
    let SequenceItem::Message(ref m0) = s.items[0] else {
        panic!()
    };
    assert_eq!(m0.line, LineStyle::Solid);
    assert_eq!(m0.label.as_deref(), Some("こんにちは"));
    let SequenceItem::Message(ref m1) = s.items[1] else {
        panic!()
    };
    assert_eq!(m1.line, LineStyle::Dashed);
}

#[test]
fn sequence_autodeclare_participant() {
    // Participants not declared via `participant` are auto-declared on first message.
    let src = "sequenceDiagram\n  A->>B: hello\n";
    let d = parse(src).expect("should parse");
    let Diagram::Sequence(s) = d else { panic!() };
    assert_eq!(s.participants.len(), 2);
    assert!(has_id(&s.participants, "A"));
    assert!(has_id(&s.participants, "B"));
}

#[test]
fn sequence_self_message() {
    let src = "sequenceDiagram\n  participant A\n  A->>A: 考える\n";
    let d = parse(src).expect("should parse");
    let Diagram::Sequence(s) = d else { panic!() };
    assert_eq!(s.items.len(), 1);
    let SequenceItem::Message(ref m) = s.items[0] else {
        panic!()
    };
    assert_eq!(m.from.as_str(), "A");
    assert_eq!(m.to.as_str(), "A");
}

#[test]
fn sequence_open_arrow_maps_to_triangle() {
    // `->` maps to Solid + Triangle (compat: open arrow not rendered as open).
    let src = "sequenceDiagram\n  A->B: msg\n";
    let d = parse(src).expect("should parse");
    let Diagram::Sequence(s) = d else { panic!() };
    let SequenceItem::Message(ref m) = s.items[0] else {
        panic!()
    };
    assert_eq!(m.line, LineStyle::Solid);
    assert_eq!(m.arrow, ArrowType::Triangle);
}

#[test]
fn sequence_dashed_open_arrow_maps_to_dashed_triangle() {
    let src = "sequenceDiagram\n  A-->B: msg\n";
    let d = parse(src).expect("should parse");
    let Diagram::Sequence(s) = d else { panic!() };
    let SequenceItem::Message(ref m) = s.items[0] else {
        panic!()
    };
    assert_eq!(m.line, LineStyle::Dashed);
    assert_eq!(m.arrow, ArrowType::Triangle);
}

#[test]
fn note_is_unsupported() {
    let src = "sequenceDiagram\n  participant A\n  Note over A: text\n  A->>A: ok\n";
    let errs = parse(src).expect_err("Note should be unsupported");
    assert!(
        errs.iter()
            .any(|e| e.message.contains("unsupported")
                && e.message.to_lowercase().contains("note")),
        "got: {errs:?}"
    );
}

#[test]
fn loop_is_unsupported() {
    let src = "sequenceDiagram\n  participant A\n  loop every second\n    A->>A: tick\n  end\n";
    let errs = parse(src).expect_err("loop should be unsupported");
    assert!(
        errs.iter()
            .any(|e| e.message.contains("unsupported") && e.message.contains("loop")),
        "got: {errs:?}"
    );
}

#[test]
fn semicolon_in_sequence_is_unsupported() {
    let src = "sequenceDiagram\n  A->>B: hello; B->>A: world\n";
    let errs = parse(src).expect_err("semicolon should be unsupported");
    assert!(
        errs.iter().any(|e| e.message.contains("semicolon")),
        "got: {errs:?}"
    );
}

#[test]
fn multiple_errors_collected() {
    let src = "flowchart TD\n  classDef foo fill:red\n  A --> B\n  end\n  style A fill:red\n";
    let errs = parse(src).expect_err("should have errors");
    assert!(errs.len() >= 2, "expected multiple errors, got: {errs:?}");
}

#[test]
fn chain_three_nodes() {
    let src = "flowchart TD\n  A --> B --> C\n";
    let d = parse(src).expect("chain should parse");
    let Diagram::Graph(g) = d else { panic!() };
    assert_eq!(g.nodes.len(), 3, "expected 3 nodes");
    assert_eq!(g.edges.len(), 2, "expected 2 edges from chain A-->B-->C");
    assert_eq!(g.edges[0].from.as_str(), "A");
    assert_eq!(g.edges[0].to.as_str(), "B");
    assert_eq!(g.edges[1].from.as_str(), "B");
    assert_eq!(g.edges[1].to.as_str(), "C");
}

#[test]
fn chain_four_nodes() {
    let src = "flowchart TD\n  A --> B --> C --> D\n";
    let d = parse(src).expect("four-node chain should parse");
    let Diagram::Graph(g) = d else { panic!() };
    assert_eq!(g.edges.len(), 3);
    assert_eq!(g.edges[0].from.as_str(), "A");
    assert_eq!(g.edges[2].to.as_str(), "D");
}

#[test]
fn chain_with_pipe_label() {
    // Mixed chain: A -->|x| B --> C
    let src = "flowchart TD\n  A -->|x| B --> C\n";
    let d = parse(src).expect("mixed chain should parse");
    let Diagram::Graph(g) = d else { panic!() };
    assert_eq!(g.edges.len(), 2);
    assert_eq!(g.edges[0].label.as_deref(), Some("x"));
    assert_eq!(g.edges[1].label, None);
    assert_eq!(g.edges[1].from.as_str(), "B");
    assert_eq!(g.edges[1].to.as_str(), "C");
}

#[test]
fn pipe_label_with_pipe_in_content_is_error() {
    // `A -->|a|b| B` — the label closes at the first `|`, leaving `b` as
    // surplus tokens before ` B`, which should error.
    let src = "flowchart TD\n  A -->|a|b| B\n";
    // After fix 2, `b|` is not a valid node so parse_node_with_label returns None,
    // meaning try_parse_edge_chain returns None (not an edge), falling through to
    // "unrecognised statement" — still an error, just a different message.
    // The important invariant: it must NOT silently produce label="a", to="b".
    let result = parse(src);
    match result {
        Err(_) => {} // any error is correct
        Ok(d) => {
            let Diagram::Graph(g) = d else { panic!() };
            // If it somehow parsed, assert it didn't incorrectly set to="b".
            for e in &g.edges {
                assert_ne!(
                    e.to.as_str(),
                    "b",
                    "pipe label bug: to-node was incorrectly set to `b`"
                );
            }
        }
    }
}

#[test]
fn stadium_node_is_unsupported() {
    let src = "flowchart TD\n  A([丸い])\n";
    let errs = parse(src).expect_err("stadium shape should be unsupported");
    assert!(
        errs.iter().any(|e| e.message.contains("unsupported")),
        "got: {errs:?}"
    );
    let start = src.find("([").unwrap();
    assert!(errs.iter().any(|error| error.span == (start..start + 2)));
}

#[test]
fn circle_and_diamond_are_supported_at_edge_endpoints() {
    let source = "flowchart TD\n  A{decision} --> B((circle))\n";
    let Diagram::Graph(graph) = parse(source).expect("shapes should parse") else {
        panic!("expected graph")
    };
    assert_eq!(by_id(&graph.nodes, "A").kind, NodeKind::Diamond);
    assert_eq!(by_id(&graph.nodes, "A").label, "decision");
    assert_eq!(by_id(&graph.nodes, "B").kind, NodeKind::Circle);
    assert_eq!(by_id(&graph.nodes, "B").label, "circle");
}

#[test]
fn remaining_compound_node_shapes_are_unsupported() {
    for source in [
        "flowchart TD\n  A --> B[[subroutine]]\n",
        "flowchart TD\n  A --> B[(database)]\n",
    ] {
        let errors = parse(source).expect_err("shape should be unsupported");
        assert!(errors
            .iter()
            .any(|error| error.message.contains("unsupported")));
    }
}

#[test]
fn compound_shape_tokens_inside_supported_labels_are_allowed() {
    let src = "flowchart TD\n  A[text ([ok])] --> B\n  B -->|Map {key} [[value]]| C\n";
    let Diagram::Graph(graph) = parse(src).expect("label text should not select a shape")
    else {
        panic!("expected graph")
    };
    assert_eq!(by_id(&graph.nodes, "A").label, "text ([ok])");
    assert_eq!(by_id(&graph.nodes, "A").kind, NodeKind::Rectangle);
    assert_eq!(graph.edges[1].label.as_deref(), Some("Map {key} [[value]]"));
}

#[test]
fn multi_target_ampersand_is_unsupported() {
    let src = "flowchart TD\n  A --> B & C\n";
    let errs = parse(src).expect_err("multi-target & should be unsupported");
    assert!(
        errs.iter()
            .any(|e| e.message.contains("unsupported") && e.message.contains("&")),
        "got: {errs:?}"
    );
}

fn state(d: &Diagram) -> &StateDiagram {
    match d {
        Diagram::State(s) => s,
        other => panic!("expected state diagram, got {other:?}"),
    }
}

#[test]
fn state_basic_v2() {
    let src =
        "stateDiagram-v2\n  [*] --> Idle\n  Idle --> Running : start\n  Running --> [*]\n";
    let d = parse(src).expect("should parse");
    let s = state(&d);
    assert!(has_id(&s.states, "Idle"));
    assert!(has_id(&s.states, "Running"));
    assert_eq!(s.transitions.len(), 3);
    assert_eq!(s.transitions[0].from, Endpoint::Initial);
    assert_eq!(s.transitions[0].to, Endpoint::State("Idle".into()));
    assert_eq!(s.transitions[1].label.as_deref(), Some("start"));
    assert_eq!(s.transitions[2].to, Endpoint::Final);
}

#[test]
fn state_plain_header_also_accepted() {
    let src = "stateDiagram\n  [*] --> A\n  A --> [*]\n";
    let d = parse(src).expect("plain stateDiagram header should parse");
    assert_eq!(state(&d).transitions.len(), 2);
}

#[test]
fn state_quoted_description_and_alias() {
    let src = "stateDiagram-v2\n  state \"Long Name\" as s1\n  [*] --> s1\n";
    let d = parse(src).expect("should parse");
    let s = state(&d);
    assert_eq!(by_id(&s.states, "s1").label, "Long Name");
}

#[test]
fn state_bare_declaration() {
    let src = "stateDiagram-v2\n  state Alone\n  [*] --> Alone\n";
    let d = parse(src).expect("should parse");
    let s = state(&d);
    assert_eq!(by_id(&s.states, "Alone").label, "Alone");
}

#[test]
fn state_transition_without_label() {
    let src = "stateDiagram-v2\n  A --> B\n";
    let d = parse(src).expect("should parse");
    assert_eq!(state(&d).transitions[0].label, None);
}

#[test]
fn state_initial_to_final_is_error() {
    let src = "stateDiagram-v2\n  [*] --> [*]\n";
    let errs = parse(src).expect_err("[*] --> [*] should be rejected");
    assert!(
        errs.iter().any(|e| e.message.contains("[*] --> [*]")),
        "got: {errs:?}"
    );
}

#[test]
fn state_composite_is_unsupported() {
    let src = "stateDiagram-v2\n  state Outer {\n    [*] --> Inner\n  }\n";
    let errs = parse(src).expect_err("composite state should be unsupported");
    assert!(
        errs.iter()
            .any(|e| e.message.contains("unsupported") && e.message.contains("composite")),
        "got: {errs:?}"
    );
}

#[test]
fn state_fork_join_is_unsupported() {
    let src = "stateDiagram-v2\n  state fork_state <<fork>>\n";
    let errs = parse(src).expect_err("fork should be unsupported");
    assert!(
        errs.iter().any(|e| e.message.contains("unsupported")),
        "got: {errs:?}"
    );
}

#[test]
fn state_direction_is_unsupported() {
    let src = "stateDiagram-v2\n  direction LR\n  [*] --> A\n";
    let errs = parse(src).expect_err("direction should be unsupported");
    assert!(
        errs.iter()
            .any(|e| e.message.contains("unsupported") && e.message.contains("direction")),
        "got: {errs:?}"
    );
}

#[test]
fn state_note_is_unsupported() {
    let src = "stateDiagram-v2\n  [*] --> A\n  note right of A : hi\n";
    let errs = parse(src).expect_err("note should be unsupported");
    assert!(
        errs.iter()
            .any(|e| e.message.contains("unsupported") && e.message.contains("note")),
        "got: {errs:?}"
    );
}

#[test]
fn state_description_assignment_is_unsupported() {
    let src = "stateDiagram-v2\n  state s\n  s : some description\n";
    let errs = parse(src).expect_err("state-description text should be rejected");
    assert!(!errs.is_empty(), "got: {errs:?}");
}

#[test]
fn state_duplicate_declaration_is_error() {
    let src = "stateDiagram-v2\n  state \"A\" as x\n  state \"B\" as x\n";
    let errs = parse(src).expect_err("duplicate decl should error");
    assert!(
        errs.iter().any(|e| e.message.contains("duplicate")),
        "got: {errs:?}"
    );
}

#[test]
fn state_auto_declares_referenced_states() {
    let src = "stateDiagram-v2\n  A --> B\n  B --> C\n";
    let d = parse(src).expect("should parse");
    let s = state(&d);
    for id in ["A", "B", "C"] {
        assert!(has_id(&s.states, id), "missing {id}");
    }
}

#[test]
fn state_id_colliding_with_keyword_is_a_transition() {
    // `note` / `direction` are legal Mermaid state ids; as a transition
    // source they must be parsed as states, not misreported as unsupported.
    let src = "stateDiagram-v2\n  note --> A\n  direction --> B\n";
    let d = parse(src).expect("keyword-named states should parse");
    let s = state(&d);
    assert!(has_id(&s.states, "note"));
    assert!(has_id(&s.states, "direction"));
    assert_eq!(s.transitions.len(), 2);
}

#[test]
fn state_non_ascii_unrecognised_line_does_not_panic() {
    // A non-ASCII bare line must yield a diagnostic, not a byte-boundary panic.
    let src = "stateDiagram-v2\n  ああ\n";
    let errs = parse(src).expect_err("non-ascii bare line should error");
    assert!(!errs.is_empty());
}

fn class_diagram(d: &Diagram) -> &ClassDiagram {
    match d {
        Diagram::Class(c) => c,
        other => panic!("expected class diagram, got {other:?}"),
    }
}

#[test]
fn class_basic_block_and_relation() {
    let src = r#"classDiagram
  class Animal {
    +String name
    +makeSound() void
  }
  class Dog {
    +bark() void
  }
  Dog <|-- Animal
"#;
    let d = parse(src).expect("should parse");
    let c = class_diagram(&d);
    assert_eq!(c.classes.len(), 2);
    assert!(by_id(&c.classes, "Animal").attributes[0].contains("name"));
    assert_eq!(by_id(&c.classes, "Animal").methods[0], "+makeSound(): void");
    assert_eq!(c.relations.len(), 1);
    assert_eq!(c.relations[0].from.as_str(), "Dog");
    assert_eq!(c.relations[0].to.as_str(), "Animal");
    assert_eq!(c.relations[0].from_marker, EndMarker::HollowTriangle);
    assert_eq!(c.relations[0].to_marker, EndMarker::Plain);
}

#[test]
fn class_mermaid_direction_inheritance() {
    let src = "classDiagram\n  Dog <|-- Animal\n";
    let d = parse(src).expect("should parse");
    let c = class_diagram(&d);
    assert_eq!(c.relations[0].from.as_str(), "Dog");
    assert_eq!(c.relations[0].to.as_str(), "Animal");
    assert_eq!(c.relations[0].from_marker, EndMarker::HollowTriangle);
    assert_eq!(c.relations[0].to_marker, EndMarker::Plain);
    assert_eq!(c.relations[0].line, LineStyle::Solid);
}

/// Helper: parse a single-relation classDiagram body and return the relation.
fn class_one_relation(rel_line: &str) -> ClassRelation {
    let src = format!("classDiagram\n  {rel_line}\n");
    let d = parse(&src).unwrap_or_else(|e| panic!("`{rel_line}` should parse: {e:?}"));
    let c = class_diagram(&d);
    assert_eq!(c.relations.len(), 1, "`{rel_line}` produced != 1 relation");
    c.relations[0].clone()
}

#[test]
fn class_all_connector_directions_are_accepted() {
    // Every token, forward and reverse, must parse and place the marker on
    // the end the glyph points at. (token, from_marker, to_marker, line)
    let cases: &[(&str, EndMarker, EndMarker, LineStyle)] = &[
        (
            "A <|-- B",
            EndMarker::HollowTriangle,
            EndMarker::Plain,
            LineStyle::Solid,
        ),
        (
            "A --|> B",
            EndMarker::Plain,
            EndMarker::HollowTriangle,
            LineStyle::Solid,
        ),
        (
            "A <|.. B",
            EndMarker::HollowTriangle,
            EndMarker::Plain,
            LineStyle::Dashed,
        ),
        (
            "A ..|> B",
            EndMarker::Plain,
            EndMarker::HollowTriangle,
            LineStyle::Dashed,
        ),
        (
            "A *-- B",
            EndMarker::FilledDiamond,
            EndMarker::Plain,
            LineStyle::Solid,
        ),
        (
            "A --* B",
            EndMarker::Plain,
            EndMarker::FilledDiamond,
            LineStyle::Solid,
        ),
        (
            "A o-- B",
            EndMarker::HollowDiamond,
            EndMarker::Plain,
            LineStyle::Solid,
        ),
        (
            "A --o B",
            EndMarker::Plain,
            EndMarker::HollowDiamond,
            LineStyle::Solid,
        ),
        (
            "A --> B",
            EndMarker::Plain,
            EndMarker::OpenArrow,
            LineStyle::Solid,
        ),
        (
            "A <-- B",
            EndMarker::OpenArrow,
            EndMarker::Plain,
            LineStyle::Solid,
        ),
        (
            "A ..> B",
            EndMarker::Plain,
            EndMarker::OpenArrow,
            LineStyle::Dashed,
        ),
        (
            "A <.. B",
            EndMarker::OpenArrow,
            EndMarker::Plain,
            LineStyle::Dashed,
        ),
        ("A -- B", EndMarker::Plain, EndMarker::Plain, LineStyle::Solid),
        (
            "A .. B",
            EndMarker::Plain,
            EndMarker::Plain,
            LineStyle::Dashed,
        ),
    ];
    for &(line, from_m, to_m, ls) in cases {
        let r = class_one_relation(line);
        assert_eq!(r.from.as_str(), "A", "`{line}` from");
        assert_eq!(r.to.as_str(), "B", "`{line}` to");
        assert_eq!(r.from_marker, from_m, "`{line}` from_marker");
        assert_eq!(r.to_marker, to_m, "`{line}` to_marker");
        assert_eq!(r.line, ls, "`{line}` line");
    }
}

#[test]
fn class_forward_and_reverse_tokens_are_mirror_images() {
    // `A <|-- B` and `B --|> A` describe the same UML relation; swapping
    // from/to must yield swapped markers with the same line style.
    for (fwd, rev) in [
        ("A <|-- B", "B --|> A"),
        ("A *-- B", "B --* A"),
        ("A o-- B", "B --o A"),
        ("A --> B", "B <-- A"),
        ("A ..|> B", "B <|.. A"),
        ("A ..> B", "B <.. A"),
    ] {
        let f = class_one_relation(fwd);
        let r = class_one_relation(rev);
        assert_eq!(f.from, r.to, "{fwd} / {rev}: endpoints must swap");
        assert_eq!(f.to, r.from, "{fwd} / {rev}: endpoints must swap");
        assert_eq!(
            f.from_marker, r.to_marker,
            "{fwd} / {rev}: markers must mirror"
        );
        assert_eq!(
            f.to_marker, r.from_marker,
            "{fwd} / {rev}: markers must mirror"
        );
        assert_eq!(f.line, r.line, "{fwd} / {rev}: line style must match");
    }
}

#[test]
fn class_stereotype_annotation() {
    let src = "classDiagram\n  <<interface>> Shape\n  class Shape\n";
    let d = parse(src).expect("should parse");
    let c = class_diagram(&d);
    assert_eq!(by_id(&c.classes, "Shape").stereotype.as_deref(), Some("interface"));
}

#[test]
fn class_multiplicity_and_label() {
    let src = "classDiagram\n  Customer \"1\" --> \"*\" Order : places\n";
    let d = parse(src).expect("should parse");
    let c = class_diagram(&d);
    let r = &c.relations[0];
    assert_eq!(r.from_mult.as_deref(), Some("1"));
    assert_eq!(r.to_mult.as_deref(), Some("*"));
    assert_eq!(r.label.as_deref(), Some("places"));
}

#[test]
fn class_colon_omitted_member_notation() {
    // F2: `ClassName : member` form, implicit class creation, `()` decides
    // method vs attribute.
    let src = "classDiagram\n  Animal : +String name\n  Animal : +move() void\n";
    let d = parse(src).expect("should parse");
    let c = class_diagram(&d);
    assert!(has_id(&c.classes, "Animal"), "class auto-created");
    assert_eq!(by_id(&c.classes, "Animal").attributes, vec!["+String name"]);
    assert_eq!(by_id(&c.classes, "Animal").methods, vec!["+move(): void"]);
}

#[test]
fn class_colon_omitted_does_not_break_relation_label() {
    // A labelled relation must still be parsed as a relation, not a member.
    let src = "classDiagram\n  A --> B : uses\n";
    let d = parse(src).expect("should parse");
    let c = class_diagram(&d);
    assert_eq!(c.relations.len(), 1);
    assert_eq!(c.relations[0].label.as_deref(), Some("uses"));
    assert!(by_id(&c.classes, "A").attributes.is_empty());
}

#[test]
fn class_single_line_inline_block() {
    // F3: `{` and `}` on the same line, members split by `;`.
    let src = "classDiagram\n  class Point { +x: int; +y: int; +dist(): float }\n";
    let d = parse(src).expect("should parse");
    let c = class_diagram(&d);
    assert_eq!(by_id(&c.classes, "Point").attributes, vec!["+x: int", "+y: int"]);
    assert_eq!(by_id(&c.classes, "Point").methods, vec!["+dist(): float"]);
}

#[test]
fn class_namespace_is_unsupported() {
    let src = "classDiagram\n  namespace Foo {\n    class A\n  }\n";
    let errs = parse(src).expect_err("namespace should be unsupported");
    assert!(
        errs.iter()
            .any(|e| e.message.contains("unsupported") && e.message.contains("namespace")),
        "got: {errs:?}"
    );
}

#[test]
fn class_generics_are_unsupported() {
    let src = "classDiagram\n  class Box~T~\n";
    let errs = parse(src).expect_err("generics should be unsupported");
    assert!(
        errs.iter()
            .any(|e| e.message.contains("unsupported") && e.message.contains("generic")),
        "got: {errs:?}"
    );
}

#[test]
fn class_self_relation_is_error() {
    let src = "classDiagram\n  A --> A\n";
    let errs = parse(src).expect_err("self relation should be an error");
    assert!(
        errs.iter().any(|e| e.message.contains("self relations")),
        "got: {errs:?}"
    );
}

fn er_diagram(d: &Diagram) -> &ErDiagram {
    match d {
        Diagram::Er(e) => e,
        other => panic!("expected er diagram, got {other:?}"),
    }
}

#[test]
fn er_basic_relation() {
    let src = "erDiagram\n  CUSTOMER ||--o{ ORDER : places\n";
    let d = parse(src).expect("should parse");
    let e = er_diagram(&d);
    assert_eq!(e.entities.len(), 2);
    assert_eq!(e.relations.len(), 1);
    let r = &e.relations[0];
    assert_eq!(r.from.as_str(), "CUSTOMER");
    assert_eq!(r.to.as_str(), "ORDER");
    assert_eq!(r.from_marker, EndMarker::ErOne);
    assert_eq!(r.to_marker, EndMarker::ErZeroOrMany);
    assert_eq!(r.line, LineStyle::Solid);
    assert_eq!(r.label.as_deref(), Some("places"));
}

#[test]
fn er_entity_block_with_attributes() {
    let src = r#"erDiagram
  CUSTOMER {
    string name PK
    string email "unique"
  }
"#;
    let d = parse(src).expect("should parse");
    let e = er_diagram(&d);
    let entity = &by_id(&e.entities, "CUSTOMER");
    assert_eq!(entity.attributes.len(), 2);
    assert_eq!(entity.attributes[0].type_text, "string");
    assert_eq!(entity.attributes[0].name, "name");
    assert_eq!(entity.attributes[0].keys, vec!["PK".to_string()]);
    assert_eq!(entity.attributes[1].comment.as_deref(), Some("unique"));
}

#[test]
fn er_single_line_inline_entity_block() {
    // F3: inline `NAME { a; b }` with `;`-separated attributes.
    let src = "erDiagram\n  ORDER { int id PK; int customer_id FK }\n";
    let d = parse(src).expect("should parse");
    let e = er_diagram(&d);
    let entity = &by_id(&e.entities, "ORDER");
    assert_eq!(entity.attributes.len(), 2);
    assert_eq!(entity.attributes[0].name, "id");
    assert_eq!(entity.attributes[0].keys, vec!["PK".to_string()]);
    assert_eq!(entity.attributes[1].name, "customer_id");
    assert_eq!(entity.attributes[1].keys, vec!["FK".to_string()]);
}

#[test]
fn er_non_identifying_dashed_relation() {
    let src = "erDiagram\n  A o|..|o B : maybe\n";
    let d = parse(src).expect("should parse");
    let e = er_diagram(&d);
    assert_eq!(e.relations[0].line, LineStyle::Dashed);
}

#[test]
fn er_unrecognised_line_is_error() {
    let src = "erDiagram\n  this is not valid\n";
    let errs = parse(src).expect_err("should error");
    assert!(!errs.is_empty());
}

#[test]
fn er_self_relation_is_error() {
    let src = "erDiagram\n  A ||--|| A : self\n";
    let errs = parse(src).expect_err("self relation should be an error");
    assert!(
        errs.iter().any(|e| e.message.contains("self relations")),
        "got: {errs:?}"
    );
}

#[test]
fn subgraph_basic_builds_container() {
    // `B` is first mentioned at the top level (in `A --> B`), so it is
    // *not* a member of `one` despite being re-mentioned inside it —
    // only `C`, first mentioned inside the subgraph, is a member.
    let src = "flowchart TD\n  A --> B\n  subgraph one\n    B --> C\n  end\n";
    let Diagram::Graph(g) = parse(src).expect("should parse") else {
        panic!("expected graph")
    };
    assert_eq!(g.nodes.len(), 3);
    assert_eq!(g.containers.len(), 1);
    let c = &g.containers[0];
    assert_eq!(c.id.as_str(), "one");
    assert_eq!(c.label, None);
    assert_eq!(
        c.members.iter().map(|m| m.as_str()).collect::<Vec<_>>(),
        vec!["C"]
    );
    assert!(c.children.is_empty());
}

#[test]
fn subgraph_nested_builds_container_tree() {
    let src = "flowchart TD\n  subgraph outer\n    A --> B\n    subgraph inner\n      B --> C\n    end\n  end\n";
    let Diagram::Graph(g) = parse(src).expect("should parse") else {
        panic!("expected graph")
    };
    assert_eq!(g.containers.len(), 1);
    let outer = &g.containers[0];
    assert_eq!(outer.id.as_str(), "outer");
    assert_eq!(
        outer.members.iter().map(|m| m.as_str()).collect::<Vec<_>>(),
        vec!["A", "B"]
    );
    assert_eq!(outer.children.len(), 1);
    let inner = &outer.children[0];
    assert_eq!(inner.id.as_str(), "inner");
    assert_eq!(
        inner.members.iter().map(|m| m.as_str()).collect::<Vec<_>>(),
        vec!["C"]
    );
}

#[test]
fn subgraph_title_forms() {
    // `id [Title]`
    let src = "flowchart TD\n  subgraph one [My Title]\n    A\n  end\n";
    let Diagram::Graph(g) = parse(src).expect("should parse") else {
        panic!("expected graph")
    };
    assert_eq!(g.containers[0].id.as_str(), "one");
    assert_eq!(g.containers[0].label.as_deref(), Some("My Title"));

    // bare single-token id (no brackets).
    let src2 = "flowchart TD\n  subgraph one\n    A\n  end\n";
    let Diagram::Graph(g2) = parse(src2).expect("should parse") else {
        panic!("expected graph")
    };
    assert_eq!(g2.containers[0].id.as_str(), "one");
    assert_eq!(g2.containers[0].label, None);

    // bare multiword title (no brackets) — the whole text becomes the id.
    let src3 = "flowchart TD\n  subgraph Multi Word Title\n    A\n  end\n";
    let Diagram::Graph(g3) = parse(src3).expect("should parse") else {
        panic!("expected graph")
    };
    assert_eq!(g3.containers[0].id.as_str(), "Multi Word Title");
    assert_eq!(g3.containers[0].label, None);
}

#[test]
fn subgraph_first_mention_wins_membership() {
    // `A` is first mentioned at the top level, before any subgraph opens;
    // its later re-mention inside `one` must not reassign it.
    let src = "flowchart TD\n  A --> B\n  subgraph one\n    A --> C\n  end\n";
    let Diagram::Graph(g) = parse(src).expect("should parse") else {
        panic!("expected graph")
    };
    assert_eq!(
        g.containers[0]
            .members
            .iter()
            .map(|m| m.as_str())
            .collect::<Vec<_>>(),
        vec!["C"]
    );
}

#[test]
fn subgraph_remention_in_another_subgraph_does_not_reassign() {
    // `B` is first mentioned inside `one`; a later mention inside `two`
    // must not move it, and must not be an error.
    let src = "flowchart TD\n  subgraph one\n    A --> B\n  end\n  subgraph two\n    B --> C\n  end\n";
    let Diagram::Graph(g) = parse(src).expect("should parse") else {
        panic!("expected graph")
    };
    let one = g
        .containers
        .iter()
        .find(|c| c.id.as_str() == "one")
        .unwrap();
    let two = g
        .containers
        .iter()
        .find(|c| c.id.as_str() == "two")
        .unwrap();
    assert!(one.members.iter().any(|m| m.as_str() == "B"));
    assert!(!two.members.iter().any(|m| m.as_str() == "B"));
    assert!(two.members.iter().any(|m| m.as_str() == "C"));
}

#[test]
fn subgraph_unmatched_end_is_error() {
    let src = "flowchart TD\n  A --> B\n  end\n";
    let errs = parse(src).expect_err("unmatched end should fail");
    assert!(errs.iter().any(|e| e.message.contains("unmatched `end`")));
}

#[test]
fn subgraph_unclosed_at_eof_is_error() {
    let src = "flowchart TD\n  subgraph one\n    A --> B\n";
    let errs = parse(src).expect_err("unclosed subgraph should fail");
    assert!(errs
        .iter()
        .any(|e| e.message.contains("missing a closing `end`")));
}

#[test]
fn subgraph_empty_is_error() {
    let src = "flowchart TD\n  A\n  subgraph one\n  end\n";
    let errs = parse(src).expect_err("empty subgraph should fail");
    assert!(errs.iter().any(|e| e.message.contains("has no members")));
}

#[test]
fn subgraph_direction_inside_is_unsupported() {
    let src = "flowchart TD\n  subgraph one\n    direction LR\n    A --> B\n  end\n";
    let errs = parse(src).expect_err("direction inside subgraph should be unsupported");
    assert!(errs
        .iter()
        .any(|e| e.message.contains("unsupported") && e.message.contains("direction")));
}

#[test]
fn subgraph_node_named_direction_is_not_a_direction_override() {
    // Only `direction <LR|RL|TB|BT|TD>` is the per-subgraph override; a
    // node that happens to be named `direction` parses the same in and
    // out of a subgraph.
    let src = "flowchart TD\n  subgraph one\n    direction --> B\n  end\n";
    let Diagram::Graph(graph) = parse(src).expect("should parse") else {
        panic!("expected graph")
    };
    assert!(has_id(&graph.nodes, "direction"));
    assert_eq!(graph.containers.len(), 1);
    assert_eq!(
        graph.containers[0]
            .members
            .iter()
            .map(|m| m.as_str())
            .collect::<Vec<_>>(),
        vec!["direction", "B"]
    );
}

#[test]
fn subgraph_collision_diagnostics() {
    // duplicate subgraph id.
    let src = "flowchart TD\n  subgraph one\n    A\n  end\n  subgraph one\n    B\n  end\n";
    let errs = parse(src).expect_err("duplicate subgraph id should fail");
    assert!(errs
        .iter()
        .any(|e| e.message.contains("duplicate subgraph id")));

    // subgraph id colliding with a node id.
    let src2 = "flowchart TD\n  one --> B\n  subgraph one\n    C\n  end\n";
    let errs2 = parse(src2).expect_err("subgraph/node collision should fail");
    assert!(errs2
        .iter()
        .any(|e| e.message.contains("collides with a node")));
}

#[test]
fn a_bracket_ends_where_it_is_balanced() {
    let chars: Vec<char> = " (a(b))c".chars().collect();
    let (inner, rest) = extract_bracket_with_rest(&chars, '(', ')').expect("balanced");
    assert_eq!(inner, "a(b)");
    assert_eq!(rest, ['c']);
    assert!(extract_bracket_with_rest(&chars, '[', ']').is_none());
    // One character cannot both open and close.
    let chars: Vec<char> = "|a|b".chars().collect();
    assert!(extract_bracket_with_rest(&chars, '|', '|').is_none());
}
