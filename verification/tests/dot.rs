use kozue::dot::class::{arrow_shape, relation_stmt};
use kozue::dot::{edge_stmt, quote, render, RenderError, FINAL_ID, INITIAL_ID};
use kozue::ir::{
    ArrowType, ClassDiagram, ClassNode, ClassRelation, Diagram, Direction, Edge, EndMarker,
    Endpoint, ErAttribute, ErDiagram, ErEntity, ErRelation, GraphDiagram, LineStyle, LineWeight,
    Node, NodeKind, SequenceDiagram, State, StateDiagram, Transition,
};

fn text(s: &str) -> Option<String> {
    Some(s.to_string())
}

fn node(id: &str, label: &str) -> Node {
    Node { id: id.to_string(), label: label.to_string(), kind: NodeKind::Default }
}

fn edge(from: &str, to: &str, label: Option<String>, arrow: ArrowType) -> Edge {
    Edge {
        from: from.to_string(),
        to: to.to_string(),
        label,
        arrow,
        from_arrow: ArrowType::Plain,
        line: LineStyle::Solid,
        weight: LineWeight::Normal,
        from_port: None,
        to_port: None,
    }
}

fn graph(direction: Direction) -> GraphDiagram {
    GraphDiagram { direction, nodes: vec![], edges: vec![], containers: vec![] }
}

fn class(id: &str) -> ClassNode {
    ClassNode {
        id: id.to_string(),
        name: id.to_string(),
        stereotype: None,
        attributes: vec![],
        methods: vec![],
    }
}

fn relation(
    from: &str,
    to: &str,
    from_marker: EndMarker,
    to_marker: EndMarker,
    line: LineStyle,
    label: Option<String>,
    from_mult: Option<String>,
    to_mult: Option<String>,
) -> ClassRelation {
    ClassRelation {
        from: from.to_string(),
        to: to.to_string(),
        from_marker,
        to_marker,
        line,
        label,
        from_mult,
        to_mult,
    }
}

fn sample_class_diagram() -> ClassDiagram {
    let mut animal = class("Animal");
    animal.stereotype = text("abstract");
    animal.attributes.push("+name: String".to_string());
    animal.methods.push("+speak(): void".to_string());

    let mut dog = class("Dog");
    dog.methods.push("+bark(): void".to_string());

    let mut kennel = class("Kennel");
    kennel.attributes.push("+capacity: Int".to_string());

    ClassDiagram {
        direction: Direction::Down,
        classes: vec![animal, dog, kennel],
        relations: vec![
            // Dog --|> Animal (inheritance: hollow triangle at the `to` end).
            relation(
                "Dog",
                "Animal",
                EndMarker::Plain,
                EndMarker::HollowTriangle,
                LineStyle::Solid,
                None,
                None,
                None,
            ),
            // Kennel *-- Dog (composition: filled diamond at the `from` end).
            relation(
                "Kennel",
                "Dog",
                EndMarker::FilledDiamond,
                EndMarker::Plain,
                LineStyle::Dashed,
                text("houses"),
                text("1"),
                text("*"),
            ),
        ],
    }
}

fn entity(id: &str, name: &str, attribute: ErAttribute) -> ErEntity {
    ErEntity { id: id.to_string(), name: name.to_string(), attributes: vec![attribute] }
}

fn sample_er_diagram() -> ErDiagram {
    ErDiagram {
        entities: vec![
            entity(
                "Customer",
                "CUSTOMER",
                ErAttribute {
                    type_text: "int".to_string(),
                    name: "id".to_string(),
                    keys: vec!["PK".to_string()],
                    comment: None,
                },
            ),
            entity(
                "Order",
                "ORDER",
                ErAttribute {
                    type_text: "int".to_string(),
                    name: "customer_id".to_string(),
                    keys: vec!["FK".to_string()],
                    comment: text("references Customer"),
                },
            ),
        ],
        // CUSTOMER ||--o{ ORDER : places
        relations: vec![ErRelation {
            from: "Customer".to_string(),
            to: "Order".to_string(),
            from_marker: EndMarker::ErOne,
            to_marker: EndMarker::ErZeroOrMany,
            label: text("places"),
            line: LineStyle::Solid,
        }],
    }
}

#[test]
fn known_arrow_line_and_marker_mappings_are_preserved() {
    assert_eq!(
        edge_stmt("a", "b", &None, ArrowType::Triangle),
        "  \"a\" -> \"b\";\n"
    );
    assert!(edge_stmt("a", "b", &None, ArrowType::Plain).contains("dir=none"));
    for (marker, expected) in [
        (EndMarker::Plain, "none"),
        (EndMarker::HollowTriangle, "empty"),
        (EndMarker::OpenArrow, "vee"),
        (EndMarker::FilledDiamond, "diamond"),
        (EndMarker::HollowDiamond, "odiamond"),
        (EndMarker::ErOne, "tee"),
        (EndMarker::ErMany, "crow"),
        (EndMarker::ErZeroOrOne, "odottee"),
        (EndMarker::ErOneOrMany, "teecrow"),
        (EndMarker::ErZeroOrMany, "odotcrow"),
    ] {
        assert_eq!(arrow_shape(marker), expected);
    }
    assert!(relation_stmt(&relation(
        "a",
        "b",
        EndMarker::Plain,
        EndMarker::Plain,
        LineStyle::Dashed,
        None,
        None,
        None,
    ))
    .unwrap()
    .contains("style=dashed"));
}

#[test]
fn class_render_uses_record_shape_and_markers() {
    let dot = render(&Diagram::Class(sample_class_diagram())).expect("class render");
    assert!(
        dot.contains("shape=record"),
        "class nodes are records: {dot}"
    );
    assert!(dot.contains("Animal"), "class name must appear: {dot}");
    assert!(
        dot.contains("+speak(): void"),
        "method row must appear: {dot}"
    );
    assert!(
        dot.contains("arrowhead=empty"),
        "inheritance uses a hollow triangle head: {dot}"
    );
    assert!(
        dot.contains("arrowtail=diamond"),
        "composition uses a filled diamond tail: {dot}"
    );
    assert!(dot.contains("style=dashed"), "dashed relation: {dot}");
    assert!(
        dot.contains("taillabel=\"1\"") && dot.contains("headlabel=\"*\""),
        "multiplicities must appear: {dot}"
    );
    assert!(dot.contains("dir=both"), "both ends must be styled: {dot}");
}

#[test]
fn class_render_does_not_fall_back_to_unsupported() {
    let err = render(&Diagram::Class(sample_class_diagram()));
    assert!(err.is_ok());
}

#[test]
fn class_render_dangling_relation_is_error() {
    let mut cd = sample_class_diagram();
    cd.relations.push(relation(
        "Dog",
        "Ghost",
        EndMarker::Plain,
        EndMarker::Plain,
        LineStyle::Solid,
        None,
        None,
        None,
    ));
    let err = render(&Diagram::Class(cd)).unwrap_err();
    assert_eq!(
        err,
        RenderError::DanglingEdge {
            node_id: "Ghost".into()
        }
    );
}

#[test]
fn class_render_is_deterministic() {
    let d = Diagram::Class(sample_class_diagram());
    assert_eq!(render(&d).unwrap(), render(&d).unwrap());
}

#[test]
fn er_render_uses_html_table_and_crowsfoot_markers() {
    let dot = render(&Diagram::Er(sample_er_diagram())).expect("er render");
    assert!(dot.contains("shape=plaintext"), "er nodes: {dot}");
    assert!(dot.contains("<TABLE"), "html table label: {dot}");
    assert!(dot.contains("CUSTOMER"), "entity name must appear: {dot}");
    assert!(
        dot.contains("customer_id"),
        "attribute row must appear: {dot}"
    );
    assert!(dot.contains("arrowtail=tee"), "ErOne maps to tee: {dot}");
    assert!(
        dot.contains("arrowhead=odotcrow"),
        "ErZeroOrMany maps to odotcrow: {dot}"
    );
    assert!(dot.contains("label=\"places\""), "relation label: {dot}");
}

#[test]
fn er_render_dangling_relation_is_error() {
    let mut ed = sample_er_diagram();
    ed.relations.push(ErRelation {
        from: "Customer".to_string(),
        to: "Ghost".to_string(),
        from_marker: EndMarker::Plain,
        to_marker: EndMarker::Plain,
        label: None,
        line: LineStyle::Solid,
    });
    let err = render(&Diagram::Er(ed)).unwrap_err();
    assert_eq!(
        err,
        RenderError::DanglingEdge {
            node_id: "Ghost".into()
        }
    );
}

#[test]
fn er_render_is_deterministic() {
    let d = Diagram::Er(sample_er_diagram());
    assert_eq!(render(&d).unwrap(), render(&d).unwrap());
}

#[test]
fn graph_renders_nodes_and_edges() {
    let mut g = graph(Direction::Down);
    g.nodes.push(node("a", "Start"));
    g.nodes.push(node("b", "End"));
    g.edges.push(edge("a", "b", Some("go".into()), ArrowType::Triangle));
    let dot = render(&Diagram::Graph(g)).unwrap();
    assert!(dot.starts_with("digraph {\n"));
    assert!(dot.contains("  rankdir=TB;\n"));
    assert!(dot.contains("  \"a\" [label=\"Start\"];\n"));
    assert!(dot.contains("  \"a\" -> \"b\" [label=\"go\"];\n"));
    assert!(dot.ends_with("}\n"));
}

#[test]
fn graph_and_class_map_all_four_rank_directions() {
    for (direction, rankdir) in [
        (Direction::Down, "TB"),
        (Direction::Right, "LR"),
        (Direction::Up, "BT"),
        (Direction::Left, "RL"),
    ] {
        let graph_dot = render(&Diagram::Graph(graph(direction))).unwrap();
        assert!(graph_dot.contains(&format!("  rankdir={rankdir};\n")));

        let mut class = sample_class_diagram();
        class.direction = direction;
        let class_dot = render(&Diagram::Class(class)).unwrap();
        assert!(class_dot.contains(&format!("  rankdir={rankdir};\n")));
    }
}

#[test]
fn none_arrow_emits_dir_none() {
    let mut g = graph(Direction::Down);
    g.nodes.push(node("a", "A"));
    g.nodes.push(node("b", "B"));
    g.edges.push(edge("a", "b", None, ArrowType::Plain));
    let dot = render(&Diagram::Graph(g)).unwrap();
    assert!(dot.contains("  \"a\" -> \"b\" [dir=none];\n"));
}

#[test]
fn dangling_edge_is_error() {
    let mut g = graph(Direction::Down);
    g.nodes.push(node("a", "A"));
    g.edges.push(edge("a", "ghost", None, ArrowType::Triangle));
    let err = render(&Diagram::Graph(g)).unwrap_err();
    assert_eq!(
        err,
        RenderError::DanglingEdge {
            node_id: "ghost".into()
        }
    );
}

#[test]
fn state_emits_pseudostates_only_when_used() {
    let s = StateDiagram {
        states: vec![State { id: "idle".to_string(), label: "Idle".to_string() }],
        transitions: vec![
            Transition {
                from: Endpoint::Initial,
                to: Endpoint::State("idle".into()),
                label: None,
            },
            Transition {
                from: Endpoint::State("idle".into()),
                to: Endpoint::Final,
                label: None,
            },
        ],
    };
    let dot = render(&Diagram::State(s)).unwrap();
    assert!(dot.contains(&format!("  {} [shape=point", quote(INITIAL_ID))));
    assert!(dot.contains(&format!("  {} [shape=doublecircle", quote(FINAL_ID))));
    assert!(dot.contains(&format!("  {} -> \"idle\";\n", quote(INITIAL_ID))));
}

#[test]
fn pseudostates_that_are_not_used_are_not_there() {
    let s = StateDiagram {
        states: vec![State { id: "idle".to_string(), label: "Idle".to_string() }],
        transitions: vec![],
    };
    let dot = render(&Diagram::State(s)).unwrap();
    assert!(!dot.contains(INITIAL_ID));
    assert!(!dot.contains(FINAL_ID));
}

#[test]
fn sequence_is_unsupported() {
    let seq = SequenceDiagram { participants: vec![], items: vec![] };
    let err = render(&Diagram::Sequence(seq)).unwrap_err();
    assert_eq!(err, RenderError::UnsupportedDiagram { kind: "sequence" });
}

#[test]
fn render_is_deterministic() {
    let mut g = graph(Direction::Down);
    g.nodes.push(node("a", "A"));
    g.nodes.push(node("b", "B"));
    g.edges.push(edge("a", "b", Some("x".into()), ArrowType::Triangle));
    let d = Diagram::Graph(g);
    assert_eq!(render(&d).unwrap(), render(&d).unwrap());
}

#[test]
fn a_dotted_relation_is_an_error() {
    let mut cd = sample_class_diagram();
    cd.relations[0].line = LineStyle::Dotted;
    let err = render(&Diagram::Class(cd)).unwrap_err();
    assert_eq!(err, RenderError::UnknownLineStyle { line: "Dotted".to_string() });
    assert_eq!(err.to_string(), "unsupported DOT line style: Dotted");
}

#[test]
fn a_transition_to_an_unknown_state_is_an_error() {
    let s = StateDiagram {
        states: vec![],
        transitions: vec![Transition {
            from: Endpoint::Initial,
            to: Endpoint::State("ghost".into()),
            label: None,
        }],
    };
    assert_eq!(
        render(&Diagram::State(s)).unwrap_err(),
        RenderError::DanglingEdge { node_id: "ghost".to_string() }
    );
}

#[test]
fn errors_have_texts() {
    let word = || "x".to_string();
    let texts: Vec<String> = vec![
        RenderError::UnsupportedDiagram { kind: "sequence" }.to_string(),
        RenderError::DanglingEdge { node_id: word() }.to_string(),
        RenderError::UnknownEndpoint { endpoint: word() }.to_string(),
        RenderError::UnknownDirection { direction: word() }.to_string(),
        RenderError::UnknownNodeKind { kind: word() }.to_string(),
        RenderError::UnknownArrowType { arrow: word() }.to_string(),
        RenderError::UnknownEndMarker { marker: word() }.to_string(),
    ];
    assert_eq!(
        texts,
        [
            "DOT export does not support sequence diagrams",
            "edge references undeclared node `x`",
            "unresolved transition endpoint: x",
            "unsupported DOT rank direction: x",
            "unsupported DOT graph node kind: x",
            "unsupported DOT arrow type: x",
            "unsupported DOT end marker: x",
        ]
    );
}

#[test]
fn every_parsed_diagram_but_a_sequence_is_shown() {
    for source in [
        "flowchart TD\n  A -.->|x| B((y)) ==> C\n  subgraph one\n    D\n  end\n",
        "stateDiagram-v2\n  [*] --> A\n  A --> [*]\n",
        "classDiagram\n  A <|-- B\n  B ..> C\n",
        "erDiagram\n  A ||..o{ B : has\n",
    ] {
        let diagram = kozue::mermaid::parse(source).expect("should parse");
        assert!(render(&diagram).is_ok(), "{source}");
    }
    let diagram = kozue::plantuml::parse("@startuml\n[*] --> A\n@enduml\n").expect("should parse");
    assert!(render(&diagram).is_ok());
}
