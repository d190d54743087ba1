use kozue::excalidraw::elements::{
    add_bound_element, text_columns, BoundElementRef, Element, Extra, Place, TextExtra,
};
use kozue::excalidraw::{render, RenderError};
use kozue::ir::{
    ArrowType, EndMarker, Endpoint, LineStyle, LineWeight, NodeKind, ParticipantKind,
};
use kozue::layout::{
    ClassLayout, Compartment, CompartmentBox, ContainerLayout, EdgeLayout, FinalLayout,
    GraphLayout, MessageLayout, NodeLayout, ParticipantLayout, RelationLayout, SemanticLayout,
    SequenceLayout, StateBox, StateLayout, TransitionLayout,
};

type Layout = SemanticLayout<(), (), (), ()>;

fn text(s: &str) -> Option<String> {
    Some(s.to_string())
}

fn node(id: &str, label: &str) -> NodeLayout<()> {
    NodeLayout { id: id.to_string(), label: label.to_string(), kind: NodeKind::Default, rect: () }
}

fn edge(from: &str, to: &str, arrow: ArrowType) -> EdgeLayout<()> {
    EdgeLayout {
        from: from.to_string(),
        to: to.to_string(),
        label: None,
        arrow,
        from_arrow: ArrowType::Plain,
        line: LineStyle::Solid,
        weight: LineWeight::Normal,
        from_port: None,
        to_port: None,
        path: (),
    }
}

fn two_nodes(a: &str, b: &str, e: EdgeLayout<()>) -> GraphLayout<(), ()> {
    GraphLayout { containers: vec![], nodes: vec![node("a", a), node("b", b)], edges: vec![e] }
}

fn graph_two_node_layout() -> Layout {
    SemanticLayout::Graph(two_nodes("Alpha", "Beta", edge("a", "b", ArrowType::Triangle)))
}

fn graph_undirected_layout() -> Layout {
    SemanticLayout::Graph(two_nodes("A", "B", edge("a", "b", ArrowType::Plain)))
}

fn graph_presentation_layout(
    from_arrow: ArrowType,
    line: LineStyle,
    weight: LineWeight,
) -> Layout {
    let e = EdgeLayout { from_arrow, line, weight, ..edge("a", "b", ArrowType::Triangle) };
    SemanticLayout::Graph(two_nodes("A", "B", e))
}

fn graph_with_container_layout() -> Layout {
    let mut g = two_nodes("Alpha", "Beta", edge("a", "b", ArrowType::Triangle));
    g.containers.push(ContainerLayout { id: "x".to_string(), label: text("Group"), rect: () });
    SemanticLayout::Graph(g)
}

fn named(id: &str) -> Endpoint {
    Endpoint::State(id.to_string())
}

fn transition(from: Endpoint, to: Endpoint, label: Option<String>) -> TransitionLayout<()> {
    TransitionLayout { from, to, label, path: () }
}

fn state_basic_layout() -> Layout {
    let state = |id: &str, label: &str| StateBox {
        id: id.to_string(),
        label: label.to_string(),
        rect: (),
    };
    SemanticLayout::State(StateLayout {
        states: vec![state("idle", "Idle"), state("active", "Active")],
        initial: Some(()),
        final_state: Some(FinalLayout { outer: (), inner: () }),
        transitions: vec![
            transition(Endpoint::Initial, named("idle"), None),
            transition(named("idle"), named("active"), text("start")),
            transition(named("active"), Endpoint::Final, None),
        ],
    })
}

fn sequence() -> SequenceLayout<(), ()> {
    let participant = |id: &str, label: &str| ParticipantLayout {
        id: id.to_string(),
        label: label.to_string(),
        kind: ParticipantKind::Default,
        place: (),
    };
    SequenceLayout {
        participants: vec![participant("a", "Alice"), participant("b", "Bob")],
        messages: vec![MessageLayout {
            from: "a".to_string(),
            to: "b".to_string(),
            label: text("hi"),
            line: LineStyle::Solid,
            arrow: ArrowType::Triangle,
            path: (),
        }],
    }
}

fn seq_layout() -> Layout {
    SemanticLayout::Sequence(sequence())
}

fn class_box(
    id: &str,
    title: &str,
    stereotype: Option<String>,
    rows: &[&str],
) -> CompartmentBox<()> {
    CompartmentBox {
        id: id.to_string(),
        title: title.to_string(),
        stereotype,
        compartments: rows.iter().map(|r| Compartment { rows: vec![r.to_string()] }).collect(),
        rect: (),
    }
}

fn relation(from: &str, to: &str, markers: (EndMarker, EndMarker)) -> RelationLayout<()> {
    RelationLayout {
        from: from.to_string(),
        to: to.to_string(),
        from_marker: markers.0,
        to_marker: markers.1,
        line: LineStyle::Solid,
        label: None,
        from_mult: None,
        to_mult: None,
        path: (),
    }
}

fn class_boxes() -> ClassLayout<(), ()> {
    ClassLayout {
        boxes: vec![
            class_box(
                "Animal",
                "Animal",
                text("abstract"),
                &["+name: String", "+speak(): void"],
            ),
            class_box("Dog", "Dog", None, &["+bark(): void"]),
            class_box("Kennel", "Kennel", None, &["+capacity: Int"]),
        ],
        relations: vec![
            relation("Dog", "Animal", (EndMarker::Plain, EndMarker::HollowTriangle)),
            RelationLayout {
                line: LineStyle::Dashed,
                label: text("houses"),
                from_mult: text("1"),
                to_mult: text("*"),
                ..relation("Kennel", "Dog", (EndMarker::FilledDiamond, EndMarker::Plain))
            },
        ],
    }
}

fn class_layout() -> Layout {
    SemanticLayout::Class(class_boxes())
}

fn er_layout() -> Layout {
    SemanticLayout::Er(ClassLayout {
        boxes: vec![
            class_box("Customer", "CUSTOMER", None, &["PK int id"]),
            class_box("Order", "ORDER", None, &["FK int customer_id"]),
        ],
        relations: vec![RelationLayout {
            label: text("places"),
            ..relation("Customer", "Order", (EndMarker::ErOne, EndMarker::ErZeroOrMany))
        }],
    })
}

fn elements(layout: &Layout) -> Vec<Element> {
    render(layout).expect("render").elements
}

fn find<'a>(elements: &'a [Element], id: &str) -> &'a Element {
    elements.iter().find(|e| e.id == id).expect("element present")
}

fn text_of(e: &Element) -> &TextExtra {
    let Extra::Text(t) = &e.extra else {
        panic!("expected text")
    };
    t
}

fn texts(elements: &[Element]) -> Vec<String> {
    elements
        .iter()
        .filter_map(|e| match &e.extra {
            Extra::Text(t) => Some(t.text.clone()),
            _ => None,
        })
        .collect()
}

fn heads(e: &Element) -> (Option<&'static str>, Option<&'static str>) {
    let Extra::Arrow(a) = &e.extra else {
        panic!("expected arrow")
    };
    (a.start_arrowhead, a.end_arrowhead)
}

fn bindings(e: &Element) -> (Option<&str>, Option<&str>) {
    let Extra::Arrow(a) = &e.extra else {
        panic!("expected arrow")
    };
    (a.start_binding.as_deref(), a.end_binding.as_deref())
}

fn bound_ids(e: &Element) -> Vec<&str> {
    e.bound_elements.as_ref().expect("boundElements").iter().map(|b| b.id.as_str()).collect()
}

#[test]
fn graph_render_produces_valid_envelope() {
    let layout = graph_two_node_layout();
    let state = render(&layout).expect("graph render");
    assert_eq!(state.kind, "excalidraw");
    assert_eq!(state.version, 2);
    assert!(!state.elements.is_empty());
}

#[test]
fn graph_render_node_rectangle_has_bound_text_label() {
    let elements = elements(&graph_two_node_layout());

    let rect = find(&elements, "n0");
    assert_eq!(rect.kind, "rectangle");
    let bound = rect.bound_elements.as_ref().expect("boundElements");
    assert_eq!(bound[0].id, "n0-text");
    assert_eq!(bound[0].kind, "text");

    let label = find(&elements, "n0-text");
    assert_eq!(label.kind, "text");
    assert_eq!(text_of(label).container_id.as_deref(), Some("n0"));
    // The label text must be the display label ("Alpha"), not the id ("a").
    assert_eq!(text_of(label).text, "Alpha");
    assert_eq!(text_of(label).original_text, "Alpha");
}

#[test]
fn graph_render_edge_arrow_geometry_and_bindings() {
    let elements = elements(&graph_two_node_layout());

    let arrow = find(&elements, "e0");
    assert_eq!(arrow.kind, "arrow");
    assert_eq!(arrow.place, Place::Path(0));
    assert_eq!(bindings(arrow), (Some("n0"), Some("n1")));
    assert_eq!(heads(arrow), (None, Some("triangle")));

    // Both endpoint rectangles must record the arrow as a bound element.
    assert!(bound_ids(find(&elements, "n0")).contains(&"e0"));
    assert!(bound_ids(find(&elements, "n1")).contains(&"e0"));
}

#[test]
fn graph_render_undirected_edge_has_null_end_arrowhead() {
    let elements = elements(&graph_undirected_layout());
    assert_eq!(heads(find(&elements, "e0")).1, None);
}

#[test]
fn graph_render_from_arrow_maps_to_start_arrowhead_arrow() {
    let layout =
        graph_presentation_layout(ArrowType::Triangle, LineStyle::Solid, LineWeight::Normal);
    let elements = elements(&layout);
    assert_eq!(heads(find(&elements, "e0")).0, Some("arrow"));
}

#[test]
fn graph_render_line_maps_to_stroke_style() {
    for (line, expected) in [
        (LineStyle::Solid, "solid"),
        (LineStyle::Dashed, "dashed"),
        (LineStyle::Dotted, "dotted"),
    ] {
        let layout = graph_presentation_layout(ArrowType::Plain, line, LineWeight::Normal);
        let elements = elements(&layout);
        assert_eq!(find(&elements, "e0").stroke_style, expected, "line {line:?}");
    }
}

#[test]
fn graph_render_thick_weight_maps_to_stroke_width_two() {
    let layout =
        graph_presentation_layout(ArrowType::Plain, LineStyle::Solid, LineWeight::Thick);
    let elements = elements(&layout);
    assert_eq!(find(&elements, "e0").stroke_width, 2);
}

#[test]
fn graph_render_default_presentation_edge_is_unchanged() {
    let elements = elements(&graph_two_node_layout());
    let arrow = find(&elements, "e0");
    assert_eq!(heads(arrow).0, None);
    assert_eq!(arrow.stroke_style, "solid");
    assert_eq!(arrow.stroke_width, 1);
}

#[test]
fn graph_with_no_containers_has_no_container_elements() {
    let elements = elements(&graph_two_node_layout());
    assert!(
        !elements.iter().any(|e| e.id == "c0"),
        "no container element expected"
    );
}

#[test]
fn graph_container_emits_dashed_rectangle_and_label_before_nodes() {
    let elements = elements(&graph_with_container_layout());

    let rect = find(&elements, "c0");
    assert_eq!(rect.kind, "rectangle");
    assert_eq!(rect.stroke_style, "dashed");
    assert_eq!(rect.background_color, "transparent");

    let label = find(&elements, "c0-label");
    assert_eq!(label.kind, "text");
    assert_eq!(text_of(label).text, "Group");

    let c0_index = elements.iter().position(|e| e.id == "c0").unwrap();
    let n0_index = elements.iter().position(|e| e.id == "n0").unwrap();
    assert!(
        c0_index < n0_index,
        "container element must be emitted before node elements"
    );
}

#[test]
fn lib_graph_render_is_deterministic() {
    let layout = graph_two_node_layout();
    let first = render(&layout).expect("render 1");
    let second = render(&layout).expect("render 2");
    assert_eq!(
        first, second,
        "same input must produce byte-identical output"
    );
}

#[test]
fn lib_state_render_is_deterministic() {
    let layout = state_basic_layout();
    let first = render(&layout).expect("render 1");
    let second = render(&layout).expect("render 2");
    assert_eq!(first, second, "state render must be deterministic");
}

#[test]
fn lib_sequence_render_is_deterministic() {
    let layout = seq_layout();
    let first = render(&layout).expect("render 1");
    let second = render(&layout).expect("render 2");
    assert_eq!(first, second, "sequence render must be deterministic");
}

#[test]
fn seeds_are_index_plus_one_and_unique() {
    let elements = elements(&graph_two_node_layout());
    for (i, el) in elements.iter().enumerate() {
        assert_eq!(el.seed, (i + 1) as u64, "seed must be index+1");
    }
}

#[test]
fn state_render_has_pseudostates() {
    let elements = elements(&state_basic_layout());

    let initial = find(&elements, "initial");
    assert_eq!(initial.kind, "ellipse");
    assert_eq!(initial.background_color, "#1e1e1e");
    assert_eq!(initial.fill_style, "solid");

    let outer = find(&elements, "final-outer");
    assert_eq!(outer.background_color, "transparent");

    let inner = find(&elements, "final-inner");
    assert_eq!(inner.background_color, "#1e1e1e");
    assert_eq!(inner.fill_style, "solid");

    // Transitions target the outer ring, never the decorative inner dot.
    for e in elements.iter().filter(|e| e.kind == "arrow") {
        assert_ne!(bindings(e).0, Some("final-inner"));
        assert_ne!(bindings(e).1, Some("final-inner"));
    }
}

#[test]
fn state_render_node_label_is_display_label() {
    let elements = elements(&state_basic_layout());
    assert_eq!(text_of(find(&elements, "n0-text")).text, "Idle");
}

#[test]
fn sequence_render_has_lifeline_and_header() {
    let elements = elements(&seq_layout());

    assert_eq!(find(&elements, "n0").kind, "rectangle");

    let lifeline = find(&elements, "n0-lifeline");
    assert_eq!(lifeline.kind, "line");
    assert_eq!(lifeline.stroke_style, "dashed");

    assert_eq!(text_of(find(&elements, "n0-text")).text, "Alice");
}

#[test]
fn sequence_render_message_arrow_has_no_bindings() {
    let elements = elements(&seq_layout());
    let arrow = find(&elements, "e0");
    assert_eq!(bindings(arrow), (None, None));
    assert_eq!(arrow.place, Place::Path(0));
}

#[test]
fn dangling_graph_edge_is_an_error() {
    let mut gl = two_nodes("Alpha", "Beta", edge("a", "b", ArrowType::Triangle));
    gl.edges[0].to = "does-not-exist".into();
    let layout: Layout = SemanticLayout::Graph(gl);
    let err = render(&layout).unwrap_err();
    assert_eq!(
        err,
        RenderError::DanglingEdge {
            node_id: "does-not-exist".to_string()
        }
    );
}

#[test]
fn dangling_sequence_message_is_an_error() {
    let mut sl = sequence();
    sl.messages[0].to = "does-not-exist".into();
    let layout: Layout = SemanticLayout::Sequence(sl);
    let err = render(&layout).unwrap_err();
    assert_eq!(
        err,
        RenderError::DanglingEdge {
            node_id: "does-not-exist".to_string()
        }
    );
}

#[test]
fn render_error_display_mentions_kind() {
    let e = RenderError::UnsupportedDiagram { kind: "sequence" };
    assert!(e.to_string().contains("sequence"));
}

#[test]
fn dangling_edge_error_display_mentions_node_id() {
    let e = RenderError::DanglingEdge {
        node_id: "missing_node".to_string(),
    };
    assert!(e.to_string().contains("missing_node"));
}

#[test]
fn unknown_endpoint_error_display_mentions_description() {
    let e = RenderError::UnknownEndpoint {
        description: "Initial pseudostate not present".to_string(),
    };
    assert!(e.to_string().contains("Initial"));
}

#[test]
fn class_render_has_boxes_dividers_and_texts() {
    let elements = elements(&class_layout());

    assert_eq!(find(&elements, "n0").kind, "rectangle");

    assert!(
        elements.iter().any(|e| e.kind == "line"),
        "compartment divider lines must be present"
    );

    assert!(text_of(find(&elements, "n0-title")).text.contains("Animal"));

    assert!(
        texts(&elements).iter().any(|t| t.contains("+speak(): void")),
        "method row text must appear"
    );
}

#[test]
fn class_render_arrowheads_are_approximated() {
    let elements = elements(&class_layout());

    assert_eq!(heads(find(&elements, "e0")).1, Some("triangle_outline"));

    let compose = find(&elements, "e1");
    assert_eq!(heads(compose).0, Some("diamond"));
    assert_eq!(compose.stroke_style, "dashed");
}

#[test]
fn class_render_multiplicities_are_free_texts() {
    let elements = elements(&class_layout());
    assert!(texts(&elements).iter().any(|t| t == "1"));
    assert!(texts(&elements).iter().any(|t| t == "*"));
}

#[test]
fn class_scene_is_deterministic() {
    let layout = class_layout();
    let first = render(&layout).expect("render 1");
    let second = render(&layout).expect("render 2");
    assert_eq!(first, second, "class render must be deterministic");
}

#[test]
fn er_render_has_entity_rows_and_crowsfoot_approximation() {
    let elements = elements(&er_layout());

    assert!(
        texts(&elements).iter().any(|t| t.contains("customer_id")),
        "attribute row text must appear"
    );

    assert_eq!(heads(find(&elements, "e0")), (Some("bar"), Some("dot")));
}

#[test]
fn er_scene_is_deterministic() {
    let layout = er_layout();
    let first = render(&layout).expect("render 1");
    let second = render(&layout).expect("render 2");
    assert_eq!(first, second, "er render must be deterministic");
}

#[test]
fn class_scene_with_dangling_relation_is_error() {
    let mut cl = class_boxes();
    cl.relations[0].to = "does-not-exist".into();
    let layout: Layout = SemanticLayout::Class(cl);
    let err = render(&layout).unwrap_err();
    assert_eq!(
        err,
        RenderError::DanglingEdge {
            node_id: "does-not-exist".to_string()
        }
    );
}

#[test]
fn references_go_both_ways_and_ids_are_distinct() {
    for layout in [
        graph_with_container_layout(),
        state_basic_layout(),
        seq_layout(),
        class_layout(),
        er_layout(),
    ] {
        let elements = elements(&layout);
        for (i, e) in elements.iter().enumerate() {
            assert!(elements[..i].iter().all(|other| other.id != e.id), "{}", e.id);
            match &e.extra {
                Extra::Text(t) => {
                    if let Some(c) = &t.container_id {
                        assert!(bound_ids(find(&elements, c)).contains(&e.id.as_str()));
                    }
                }
                Extra::Arrow(a) => {
                    for b in a.start_binding.iter().chain(a.end_binding.iter()) {
                        assert!(bound_ids(find(&elements, b)).contains(&e.id.as_str()));
                    }
                }
                _ => {}
            }
        }
    }
}

#[test]
fn binding_twice_is_binding_once() {
    let mut elements = elements(&graph_two_node_layout());
    let before = bound_ids(find(&elements, "n0")).len();
    for _ in 0..2 {
        add_bound_element(
            &mut elements,
            &"n0".to_string(),
            BoundElementRef { id: "x".to_string(), kind: "arrow" },
        );
    }
    assert_eq!(bound_ids(find(&elements, "n0")).len(), before + 1);
}

#[test]
fn an_empty_label_is_one_column_wide() {
    assert_eq!(text_columns(""), 1);
    assert_eq!(text_columns("入力"), 2);
}

#[test]
fn a_participant_of_a_kind_shows_it() {
    let mut s = sequence();
    s.participants[0].kind = ParticipantKind::Database;
    let elements = elements(&SemanticLayout::Sequence(s));
    assert_eq!(text_of(find(&elements, "n0-stereotype")).text, "«database»");
    assert!(!elements.iter().any(|e| e.id == "n1-stereotype"));
}

#[test]
fn a_transition_to_a_state_that_is_not_there_is_an_error() {
    let layout: Layout = SemanticLayout::State(StateLayout {
        states: vec![],
        initial: Some(()),
        final_state: None,
        transitions: vec![transition(Endpoint::Initial, named("ghost"), None)],
    });
    assert_eq!(
        render(&layout).unwrap_err(),
        RenderError::UnknownEndpoint {
            description: "state \"ghost\" not found in layout".to_string()
        }
    );
}

#[test]
fn other_errors_have_texts() {
    let word = || "x".to_string();
    assert!(RenderError::UnknownNodeKind { description: word() }.to_string().ends_with(": x"));
    assert!(RenderError::InvalidSemantic { description: word() }.to_string().ends_with(": x"));
    assert!(RenderError::Serialization { message: word() }.to_string().ends_with(": x"));
}
