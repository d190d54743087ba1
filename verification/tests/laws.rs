//! What holds of every diagram, on examples.

use kozue::ir::{ArrowType, Diagram, EndMarker, Endpoint, LineStyle, NodeKind, SequenceItem};
use kozue::plantuml::comments::mask_comments;
use kozue::{mermaid, plantuml};

fn graph(source: &str) -> kozue::ir::GraphDiagram {
    match mermaid::parse(source).expect(source) {
        Diagram::Graph(g) => g,
        other => panic!("{other:?}"),
    }
}

fn sequence(d: Diagram) -> kozue::ir::SequenceDiagram {
    match d {
        Diagram::Sequence(s) => s,
        other => panic!("{other:?}"),
    }
}

fn class(source: &str) -> kozue::ir::ClassDiagram {
    match mermaid::parse(source).expect(source) {
        Diagram::Class(c) => c,
        other => panic!("{other:?}"),
    }
}

#[test]
fn edges_join_nodes_that_are_there() {
    let g = graph("graph RL\nA --> B[b] -.-> C\nsubgraph one [First]\nD\nA\nend");
    let ids: Vec<&str> = g.nodes.iter().map(|n| n.id.as_str()).collect();
    assert_eq!(ids, ["A", "B", "C", "D"]);
    for e in &g.edges {
        assert!(ids.contains(&e.from.as_str()) && ids.contains(&e.to.as_str()));
        assert_ne!(e.from, e.to);
    }
    // `A` was mentioned before the group was opened.
    assert_eq!(g.containers[0].members, ["D"]);
}

#[test]
fn the_last_declaration_of_a_node_wins() {
    let g = graph("graph TD\nA[first] --> B\nA((second))\nA --> C");
    assert_eq!(g.nodes[0].label, "second");
    assert_eq!(g.nodes[0].kind, NodeKind::Circle);
    assert_eq!(g.nodes[1].label, "B");
    assert_eq!(g.nodes[1].kind, NodeKind::Default);
}

#[test]
fn nodes_keep_the_order_of_their_first_mention() {
    let g = graph("graph TD\nz --> b\na --> z\nb[x]\nm");
    let ids: Vec<&str> = g.nodes.iter().map(|n| n.id.as_str()).collect();
    assert_eq!(ids, ["z", "b", "a", "m"]);
}

#[test]
fn identifiers_are_ascii() {
    assert_eq!(graph("graph TD\na_1 --> B2[開始]").nodes.len(), 2);
    assert!(mermaid::parse("graph TD\n開始 --> B").is_err());
    // PlantUML names may hold other letters.
    let s = sequence(plantuml::parse("@startuml\n開始 -> 終-了_2\n@enduml").expect("names"));
    assert_eq!(s.participants[0].id, "開始");
    assert_eq!(s.participants[1].id, "終-了_2");
}

#[test]
fn white_space_is_that_of_unicode() {
    let g = graph("graph TD\n\u{3000}A \u{2003}-->\u{a0}B\u{85}");
    assert_eq!((g.nodes.len(), g.edges.len()), (2, 1));
    for c in (0..0x1_1000u32).filter_map(char::from_u32).filter(|c| *c != '\n') {
        let source = format!("graph TD\n{c}A{c}");
        let accepted = match mermaid::parse(&source) {
            Ok(Diagram::Graph(g)) => g.nodes[0].id == "A",
            _ => false,
        };
        assert_eq!(accepted, c.is_whitespace(), "{c:?}");
    }
}

#[test]
fn letters_and_digits_are_those_of_unicode() {
    for c in (0..0x1_1000u32).filter_map(char::from_u32) {
        let accepted = plantuml::parse(&format!("@startuml\n[*] --> a{c}b\n@enduml"));
        let expected = c.is_alphanumeric() || c == '_' || c == '-';
        match accepted {
            Ok(Diagram::State(s)) if c != '\'' => {
                assert!(expected || c == ':', "{c:?}");
                let name = if c == ':' { "a".to_string() } else { format!("a{c}b") };
                assert_eq!(s.states[0].id, name);
            }
            _ => assert!(!expected, "{c:?}"),
        }
    }
}

#[test]
fn the_first_participant_wins() {
    let s = sequence(
        mermaid::parse("sequenceDiagram\nA->>B: x\nparticipant A as Alice\nparticipant C as Carol\nparticipant C as other\n")
            .expect("participants"),
    );
    let labels: Vec<&str> = s.participants.iter().map(|p| p.label.as_str()).collect();
    assert_eq!(labels, ["A", "B", "Carol"]);
}

#[test]
fn messages_are_kept_in_order() {
    let source = "@startuml\nA -> B : one\nend\nB --> A\nA ->> A : three\n@enduml";
    let s = sequence(plantuml::parse(source).expect("messages"));
    let found: Vec<_> = s
        .items
        .iter()
        .map(|SequenceItem::Message(m)| (m.label.as_deref(), m.line, m.arrow))
        .collect();
    assert_eq!(
        found,
        [
            (Some("one"), LineStyle::Solid, ArrowType::Triangle),
            (None, LineStyle::Dashed, ArrowType::Triangle),
            (Some("three"), LineStyle::Solid, ArrowType::Triangle),
        ]
    );
}

#[test]
fn transitions_are_kept_and_states_are_there() {
    let d = mermaid::parse("stateDiagram\n[*] --> A\nstate \"b\" as B\nA --> B : x\nB --> [*]");
    let Ok(Diagram::State(s)) = d else { panic!("{d:?}") };
    let states: Vec<(&str, &str)> =
        s.states.iter().map(|s| (s.id.as_str(), s.label.as_str())).collect();
    assert_eq!(states, [("B", "b"), ("A", "A")]);
    assert_eq!(s.transitions.len(), 3);
    assert_eq!(s.transitions[0].from, Endpoint::Initial);
    assert_eq!(s.transitions[2].to, Endpoint::Final);
}

#[test]
fn turned_connectors_have_turned_markers() {
    for (there, back) in [
        ("<|--", "--|>"),
        ("<|..", "..|>"),
        ("*--", "--*"),
        ("o--", "--o"),
        ("<--", "-->"),
        ("<..", "..>"),
        ("--", "--"),
        ("..", ".."),
    ] {
        let a = &class(&format!("classDiagram\nA {there} B")).relations[0];
        let b = &class(&format!("classDiagram\nA {back} B")).relations[0];
        assert_eq!((a.from_marker, a.to_marker), (b.to_marker, b.from_marker));
        assert_eq!(a.line, b.line);
    }
}

#[test]
fn every_statement_of_a_class_diagram_is_kept() {
    let c = class(
        "classDiagram\ndirection lr\n<<interface>> A\nclass B { +x: int; run() }\nclass C {\n-y\n<<enum>>\n}\nB \"1\" *-- \"many\" C : has\nA : go(a, b) void\n",
    );
    assert_eq!(c.direction, kozue::ir::Direction::Right);
    let ids: Vec<&str> = c.classes.iter().map(|c| c.id.as_str()).collect();
    assert_eq!(ids, ["A", "B", "C"]);
    assert_eq!(c.classes[0].stereotype.as_deref(), Some("interface"));
    assert_eq!(c.classes[0].methods, ["go(a, b): void"]);
    assert_eq!(c.classes[1].attributes, ["+x: int"]);
    assert_eq!(c.classes[1].methods, ["run()"]);
    assert_eq!(c.classes[2].attributes, ["-y"]);
    assert_eq!(c.classes[2].stereotype.as_deref(), Some("enum"));
    let r = &c.relations[0];
    assert_eq!((r.from.as_str(), r.to.as_str()), ("B", "C"));
    assert_eq!((r.from_marker, r.to_marker), (EndMarker::FilledDiamond, EndMarker::Plain));
    assert_eq!((r.from_mult.as_deref(), r.to_mult.as_deref()), (Some("1"), Some("many")));
    assert_eq!(r.label.as_deref(), Some("has"));
}

#[test]
fn every_statement_of_an_er_diagram_is_kept() {
    let d = mermaid::parse(
        "erDiagram\nA ||--o{ B : has\nA { int id PK \"the key\"; string name }\nC }|..|o A\n",
    );
    let Ok(Diagram::Er(e)) = d else { panic!("{d:?}") };
    let ids: Vec<&str> = e.entities.iter().map(|e| e.id.as_str()).collect();
    assert_eq!(ids, ["A", "B", "C"]);
    let first = &e.entities[0].attributes[0];
    assert_eq!((first.type_text.as_str(), first.name.as_str()), ("int", "id"));
    assert_eq!(first.keys, ["PK"]);
    assert_eq!(first.comment.as_deref(), Some("the key"));
    assert_eq!(e.entities[0].attributes.len(), 2);
    let markers: Vec<_> =
        e.relations.iter().map(|r| (r.from_marker, r.to_marker, r.line)).collect();
    assert_eq!(
        markers,
        [
            (EndMarker::ErOne, EndMarker::ErZeroOrMany, LineStyle::Solid),
            (EndMarker::ErOneOrMany, EndMarker::ErZeroOrOne, LineStyle::Dashed),
        ]
    );
}

#[test]
fn a_mark_moves_the_errors_and_nothing_else() {
    for source in ["@startuml\nnote over A\n@enduml\n", "@startuml\nA -> B : hi\n@enduml\n"] {
        let marked = format!("\u{feff}{source}");
        match (plantuml::parse(source), plantuml::parse(&marked)) {
            (Ok(a), Ok(b)) => assert_eq!(a, b),
            (Err(a), Err(b)) => {
                assert_eq!(a[0].span, 10..21);
                assert_eq!(b[0].span, 13..24);
                assert_eq!(&marked[b[0].span.clone()], "note over A");
                assert_eq!(a[0].message, b[0].message);
                assert_eq!(a.len(), b.len());
            }
            other => panic!("{other:?}"),
        }
    }
    // Mermaid offsets count from behind the mark.
    for source in ["graph TD\nA & B\n", "graph TD\nA --> B\n"] {
        let marked = format!("\u{feff}{source}");
        match (mermaid::parse(source), mermaid::parse(&marked)) {
            (Ok(a), Ok(b)) => assert_eq!(a, b),
            (Err(a), Err(b)) => {
                assert_eq!(a[0].span, b[0].span);
                assert_eq!(a[0].message, b[0].message);
                assert_eq!(a.len(), b.len());
            }
            other => panic!("{other:?}"),
        }
    }
}

#[test]
fn no_group_is_empty_however_deep() {
    let g = graph("graph TD\nsubgraph a\nsubgraph b\nX\nend\nend");
    assert!(g.containers[0].members.is_empty());
    assert_eq!(g.containers[0].children[0].members, ["X"]);
    let errors = mermaid::parse("graph TD\nsubgraph a\nX\nsubgraph b\nend\nend").unwrap_err();
    assert_eq!(errors[0].message, "subgraph `b` has no members");
}

#[test]
fn errors_lie_in_the_source() {
    for source in [
        "\u{feff}graph TD\n  あ\n\n  A --> B & C\nsubgraph x\n",
        "sequenceDiagram x\nloop あ\n…",
        "classDiagram\nclass A {\n あ~T~",
        "erDiagram\nA {\n あ",
        "@startuml\n…\n/' あ",
        "\u{feff}@startuml\n…\n/' あ",
    ] {
        let (text, errors) = if source.contains("@startuml") {
            (source, plantuml::parse(source).expect_err(source))
        } else {
            (source.trim_start_matches('\u{feff}'), mermaid::parse(source).expect_err(source))
        };
        assert!(!errors.is_empty());
        for e in errors {
            assert!(e.span.start < e.span.end && e.span.end <= text.len(), "{e:?}");
            assert!(text.is_char_boundary(e.span.start) && text.is_char_boundary(e.span.end));
        }
    }
}

#[test]
fn masking_keeps_places() {
    let source: Vec<char> = "a 'あ\n\"'x\" /' b\nc '/ d".chars().collect();
    let (masked, open) = mask_comments(&source);
    let masked: String = masked.iter().collect();
    assert_eq!(masked, "a     \n\"'x\"     \n     d");
    assert!(open.is_none());
}
