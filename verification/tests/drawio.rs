use kozue::drawio::class::{class_box_value, drawio_arrow};
use kozue::drawio::graph::{graph_edge_style, port_exit_entry};
use kozue::drawio::sequence::{participant_cell_value, ColumnText, MessageText};
use kozue::drawio::{render, waypoints_xml, PointText, RectText, RenderError, RouteText};
use kozue::ir::{
    ArrowType, EndMarker, Endpoint, LineStyle, LineWeight, NodeKind, ParticipantKind, Port,
};
use kozue::layout::{
    ClassLayout, Compartment, CompartmentBox, ContainerLayout, EdgeLayout, FinalLayout,
    GraphLayout, MessageLayout, NodeLayout, ParticipantLayout, RelationLayout, SemanticLayout,
    SequenceLayout, StateBox, StateLayout, TransitionLayout,
};

type Layout = SemanticLayout<RectText, RouteText, ColumnText, MessageText>;

fn text(s: &str) -> Option<String> {
    Some(s.to_string())
}

/// A coordinate, with the margin around the scene added to it.
fn at(v: f64) -> String {
    format!("{:.2}", v + 20.0)
}

fn rect(x: f64, y: f64, width: f64, height: f64) -> RectText {
    RectText { x: at(x), y: at(y), width: format!("{width:.2}"), height: format!("{height:.2}") }
}

fn points(points: &[(f64, f64)]) -> Vec<PointText> {
    points.iter().map(|&(x, y)| PointText { x: at(x), y: at(y) }).collect()
}

fn straight() -> RouteText {
    RouteText { points: points(&[(40.0, 40.0), (40.0, 80.0)]) }
}

fn node(i: usize, id: &str, label: &str) -> NodeLayout<RectText> {
    NodeLayout {
        id: id.to_string(),
        label: label.to_string(),
        kind: NodeKind::Default,
        rect: rect(0.0, 80.0 * i as f64, 80.0, 40.0),
    }
}

fn edge(from: &str, to: &str, label: Option<String>, arrow: ArrowType) -> EdgeLayout<RouteText> {
    EdgeLayout {
        from: from.to_string(),
        to: to.to_string(),
        label,
        arrow,
        from_arrow: ArrowType::Plain,
        line: LineStyle::Solid,
        weight: LineWeight::Normal,
        from_port: None,
        to_port: None,
        path: straight(),
    }
}

fn graph(nodes: Vec<NodeLayout<RectText>>, edges: Vec<EdgeLayout<RouteText>>) -> Layout {
    SemanticLayout::Graph(GraphLayout { containers: vec![], nodes, edges })
}

fn graph_two_node_layout() -> Layout {
    graph(
        vec![node(0, "a", "Alpha"), node(1, "b", "Beta")],
        vec![edge("a", "b", None, ArrowType::Triangle)],
    )
}

fn graph_with_container_layout() -> Layout {
    SemanticLayout::Graph(GraphLayout {
        containers: vec![ContainerLayout {
            id: "x".to_string(),
            label: text("Group"),
            rect: rect(-10.0, -10.0, 100.0, 60.0),
        }],
        nodes: vec![node(0, "a", "Alpha"), node(1, "b", "Beta")],
        edges: vec![edge("a", "b", None, ArrowType::Triangle)],
    })
}

fn state(i: usize, id: &str, label: &str) -> StateBox<RectText> {
    StateBox {
        id: id.to_string(),
        label: label.to_string(),
        rect: rect(0.0, 80.0 * i as f64, 80.0, 40.0),
    }
}

fn named(id: &str) -> Endpoint {
    Endpoint::State(id.to_string())
}

fn transition(from: Endpoint, to: Endpoint, label: Option<String>) -> TransitionLayout<RouteText> {
    TransitionLayout { from, to, label, path: straight() }
}

fn state_basic_layout() -> Layout {
    SemanticLayout::State(StateLayout {
        states: vec![state(0, "idle", "Idle"), state(1, "active", "Active")],
        initial: Some(rect(30.0, -40.0, 20.0, 20.0)),
        final_state: Some(FinalLayout {
            outer: rect(30.0, 160.0, 24.0, 24.0),
            inner: rect(36.0, 166.0, 12.0, 12.0),
        }),
        transitions: vec![
            transition(Endpoint::Initial, named("idle"), None),
            transition(named("idle"), named("active"), text("start")),
            transition(named("active"), Endpoint::Final, None),
        ],
    })
}

fn state_self_loop_layout() -> Layout {
    SemanticLayout::State(StateLayout {
        states: vec![state(0, "s", "S")],
        initial: Some(rect(30.0, -40.0, 20.0, 20.0)),
        final_state: None,
        transitions: vec![
            transition(Endpoint::Initial, named("s"), None),
            transition(named("s"), named("s"), text("self")),
        ],
    })
}

const HEADER_Y: f64 = 0.0;
const COLUMN_HEIGHT: f64 = 248.0;
const MESSAGE_Y: f64 = 80.0;

fn participant(i: usize, id: &str, label: &str) -> ParticipantLayout<ColumnText> {
    ParticipantLayout {
        id: id.to_string(),
        label: label.to_string(),
        kind: ParticipantKind::Default,
        place: ColumnText {
            rect: rect(120.0 * i as f64, HEADER_Y, 80.0, COLUMN_HEIGHT),
            size: "40.00".to_string(),
        },
    }
}

fn seq_layout() -> Layout {
    let share = format!("{:.6}", (MESSAGE_Y - HEADER_Y) / COLUMN_HEIGHT);
    SemanticLayout::Sequence(SequenceLayout {
        participants: vec![participant(0, "a", "Alice"), participant(1, "b", "Bob")],
        messages: vec![MessageLayout {
            from: "a".to_string(),
            to: "b".to_string(),
            label: text("hi"),
            line: LineStyle::Solid,
            arrow: ArrowType::Triangle,
            path: MessageText {
                points: points(&[(40.0, MESSAGE_Y), (160.0, MESSAGE_Y)]),
                exit_y: share.clone(),
                entry_y: share,
            },
        }],
    })
}

fn class_box(
    i: usize,
    id: &str,
    title: &str,
    stereotype: Option<String>,
    rows: &[&str],
) -> CompartmentBox<RectText> {
    CompartmentBox {
        id: id.to_string(),
        title: title.to_string(),
        stereotype,
        compartments: rows.iter().map(|r| Compartment { rows: vec![r.to_string()] }).collect(),
        rect: rect(0.0, 120.0 * i as f64, 120.0, 80.0),
    }
}

fn relation(from: &str, to: &str, markers: (EndMarker, EndMarker)) -> RelationLayout<RouteText> {
    RelationLayout {
        from: from.to_string(),
        to: to.to_string(),
        from_marker: markers.0,
        to_marker: markers.1,
        line: LineStyle::Solid,
        label: None,
        from_mult: None,
        to_mult: None,
        path: straight(),
    }
}

fn class_boxes() -> ClassLayout<RectText, RouteText> {
    ClassLayout {
        boxes: vec![
            class_box(
                0,
                "Animal",
                "Animal",
                text("abstract"),
                &["+name: String", "+speak(): void"],
            ),
            class_box(1, "Dog", "Dog", None, &["+bark(): void"]),
            class_box(2, "Kennel", "Kennel", None, &["+capacity: Int"]),
        ],
        relations: vec![
            relation("Dog", "Animal", (EndMarker::Plain, EndMarker::HollowTriangle)),
            RelationLayout {
                line: LineStyle::Dashed,
                label: text("houses"),
                from_mult: text("1"),
                to_mult: text("*"),
                ..relation("Kennel", "Dog", (EndMarker::FilledDiamond, EndMarker::Plain))
            },
        ],
    }
}

fn class_layout() -> Layout {
    SemanticLayout::Class(class_boxes())
}

fn er_layout() -> Layout {
    SemanticLayout::Er(ClassLayout {
        boxes: vec![
            class_box(0, "Customer", "CUSTOMER", None, &["PK int id"]),
            class_box(1, "Order", "ORDER", None, &["FK int customer_id"]),
        ],
        relations: vec![RelationLayout {
            label: text("places"),
            ..relation("Customer", "Order", (EndMarker::ErOne, EndMarker::ErZeroOrMany))
        }],
    })
}

#[test]
fn class_render_produces_box_with_compartments() {
    let layout = class_layout();
    let xml = render(&layout).expect("class render");
    assert!(xml.starts_with("<mxfile>"));
    assert!(
        xml.contains("rounded=1"),
        "class boxes are rounded rects: {xml}"
    );
    assert!(xml.contains("Animal"), "class name must appear: {xml}");
    assert!(
        xml.contains("+speak(): void"),
        "method compartment row must appear: {xml}"
    );
    assert!(
        xml.contains("&lt;hr"),
        "compartments are hr-separated (entity-escaped HTML): {xml}"
    );
}

#[test]
fn class_render_maps_end_markers() {
    let layout = class_layout();
    let xml = render(&layout).expect("class render");
    assert!(
        xml.contains("endArrow=block;endFill=0"),
        "inheritance is a hollow block arrow: {xml}"
    );
    assert!(
        xml.contains("startArrow=diamond;startFill=1"),
        "composition is a filled diamond: {xml}"
    );
    assert!(xml.contains("dashed=1;"), "dashed relation: {xml}");
}

#[test]
fn class_render_multiplicities_are_child_cells() {
    let layout = class_layout();
    let xml = render(&layout).expect("class render");
    assert!(xml.contains("value=\"1\""), "from_mult label: {xml}");
    assert!(xml.contains("value=\"*\""), "to_mult label: {xml}");
    assert!(
        xml.contains("edgeLabel"),
        "mult labels are edgeLabel cells: {xml}"
    );
}

#[test]
fn lib_class_render_is_deterministic() {
    let layout = class_layout();
    let xml1 = render(&layout).expect("render 1");
    let xml2 = render(&layout).expect("render 2");
    assert_eq!(xml1, xml2, "class render must be deterministic");
}

#[test]
fn er_render_produces_box_and_crowsfoot_markers() {
    let layout = er_layout();
    let xml = render(&layout).expect("er render");
    assert!(xml.contains("CUSTOMER"), "entity name must appear: {xml}");
    assert!(
        xml.contains("customer_id"),
        "attribute row must appear: {xml}"
    );
    assert!(
        xml.contains("startArrow=ERone"),
        "ErOne maps to ERone: {xml}"
    );
    assert!(
        xml.contains("endArrow=ERzeroToMany"),
        "ErZeroOrMany maps to ERzeroToMany: {xml}"
    );
    assert!(xml.contains("value=\"places\""), "relation label: {xml}");
}

#[test]
fn lib_er_render_is_deterministic() {
    let layout = er_layout();
    let xml1 = render(&layout).expect("render 1");
    let xml2 = render(&layout).expect("render 2");
    assert_eq!(xml1, xml2, "er render must be deterministic");
}

#[test]
fn lib_class_render_dangling_relation_is_error() {
    let mut cl = class_boxes();
    cl.relations[0].to = "does-not-exist".into();
    let layout: Layout = SemanticLayout::Class(cl);
    let err = render(&layout).unwrap_err();
    assert_eq!(
        err,
        RenderError::DanglingEdge {
            node_id: "does-not-exist".to_string()
        }
    );
}

#[test]
fn graph_render_produces_mxfile_skeleton() {
    let layout = graph_two_node_layout();
    let xml = render(&layout).expect("graph render");
    assert!(xml.starts_with("<mxfile>"), "must start with <mxfile>");
    assert!(xml.ends_with("</mxfile>\n"), "must end with </mxfile>");
    assert!(
        xml.contains("id=\"kozue\""),
        "diagram must have fixed id=kozue"
    );
    assert!(xml.contains("id=\"0\""), "root cell 0 must be present");
    assert!(xml.contains("id=\"1\""), "root cell 1 must be present");
    assert!(xml.contains("id=\"n0\""), "first node must be n0");
    assert!(xml.contains("id=\"n1\""), "second node must be n1");
    assert!(xml.contains("id=\"e0\""), "first edge must be e0");
    assert!(xml.contains("source=\"n0\""), "edge must have source");
    assert!(xml.contains("target=\"n1\""), "edge must have target");
}

#[test]
fn graph_with_no_containers_is_byte_identical() {
    let with_empty = graph_two_node_layout();
    let SemanticLayout::Graph(g) = &with_empty else {
        unreachable!()
    };
    assert!(g.containers.is_empty());
    let xml = render(&with_empty).expect("render");
    assert!(!xml.contains(" id=\"c0\""), "no container cell: {xml}");
}

#[test]
fn graph_container_emits_dashed_backdrop_cell_before_nodes() {
    let layout = graph_with_container_layout();
    let xml = render(&layout).expect("render");
    assert!(
        xml.contains("<mxCell id=\"c0\" value=\"Group\" style=\"rounded=0;dashed=1;"),
        "{xml}"
    );
    let c0 = xml.find("id=\"c0\"").expect("container cell present");
    let n0 = xml.find("id=\"n0\"").expect("node cell present");
    assert!(c0 < n0, "container cell must be emitted before node cells");
}

#[test]
fn graph_render_is_deterministic() {
    let layout = graph_two_node_layout();
    let xml1 = render(&layout).expect("render 1");
    let xml2 = render(&layout).expect("render 2");
    assert_eq!(xml1, xml2, "same input must produce byte-identical output");
}

#[test]
fn graph_render_node_value_is_label_not_id() {
    // Node id="a", label="Alpha": the mxCell value must be "Alpha", not "a".
    let layout = graph_two_node_layout();
    let xml = render(&layout).expect("render");
    assert!(
        xml.contains("value=\"Alpha\""),
        "node value must be display label: {xml}"
    );
    assert!(
        xml.contains("value=\"Beta\""),
        "second node value must be display label: {xml}"
    );
}

#[test]
fn graph_render_node_label_is_xml_escaped() {
    // Node with display label that contains XML-special characters.
    let layout = graph(vec![node(0, "x", "A < B & C \"quoted\"")], vec![]);
    let xml = render(&layout).expect("render");
    assert!(
        xml.contains("&lt;"),
        "< in node label must be escaped: {xml}"
    );
    assert!(
        xml.contains("&amp;"),
        "& in node label must be escaped: {xml}"
    );
    assert!(
        xml.contains("&quot;"),
        "\" in node label must be escaped: {xml}"
    );
    assert!(
        !xml.contains("\"A < B"),
        "raw special chars must not appear unescaped: {xml}"
    );
}

#[test]
fn graph_render_node_label_japanese() {
    let layout = graph(
        vec![node(0, "a", "入力"), node(1, "b", "出力")],
        vec![edge("a", "b", Some("処理".into()), ArrowType::Triangle)],
    );
    let xml = render(&layout).expect("render");
    assert!(
        xml.contains("value=\"入力\""),
        "Japanese node label must appear: {xml}"
    );
    assert!(
        xml.contains("value=\"出力\""),
        "Japanese node label must appear: {xml}"
    );
    assert!(
        xml.contains("value=\"処理\""),
        "Japanese edge label must appear: {xml}"
    );
}

#[test]
fn graph_render_edge_value_is_label() {
    let layout = graph(
        vec![node(0, "a", "A"), node(1, "b", "B")],
        vec![edge("a", "b", Some("myLabel".into()), ArrowType::Triangle)],
    );
    let xml = render(&layout).expect("render");
    assert!(
        xml.contains("value=\"myLabel\""),
        "edge value must be its label: {xml}"
    );
}

#[test]
fn graph_render_undirected_edge_has_no_arrowhead_style() {
    let layout = graph(
        vec![node(0, "a", "A"), node(1, "b", "B")],
        vec![edge("a", "b", None, ArrowType::Plain)],
    );
    let xml = render(&layout).expect("render");
    assert!(
        xml.contains("endArrow=none;"),
        "undirected edge must have endArrow=none: {xml}"
    );
}

#[test]
fn graph_render_directed_edge_does_not_have_endarrow_none() {
    let layout = graph(
        vec![node(0, "a", "A"), node(1, "b", "B")],
        vec![edge("a", "b", None, ArrowType::Triangle)],
    );
    let xml = render(&layout).expect("render");
    assert!(
        !xml.contains("endArrow=none"),
        "directed edge must not have endArrow=none: {xml}"
    );
}

#[test]
fn graph_edge_default_presentation_style_is_unchanged() {
    assert_eq!(
        graph_edge_style(
            ArrowType::Triangle,
            ArrowType::Plain,
            LineStyle::Solid,
            LineWeight::Normal,
            None,
            None,
        ),
        "edgeStyle=orthogonalEdgeStyle;"
    );
    assert_eq!(
        graph_edge_style(
            ArrowType::Plain,
            ArrowType::Plain,
            LineStyle::Solid,
            LineWeight::Normal,
            None,
            None,
        ),
        "edgeStyle=orthogonalEdgeStyle;endArrow=none;"
    );
}

#[test]
fn graph_edge_from_arrow_maps_to_start_arrow_classic() {
    let style = graph_edge_style(
        ArrowType::Triangle,
        ArrowType::Triangle,
        LineStyle::Solid,
        LineWeight::Normal,
        None,
        None,
    );
    assert!(style.contains("startArrow=classic;"), "style: {style}");
}

#[test]
fn graph_edge_line_maps_to_dashed_and_dotted() {
    let dashed = graph_edge_style(
        ArrowType::Triangle,
        ArrowType::Plain,
        LineStyle::Dashed,
        LineWeight::Normal,
        None,
        None,
    );
    assert!(dashed.contains("dashed=1;"), "dashed style: {dashed}");
    assert!(!dashed.contains("dashPattern"));

    let dotted = graph_edge_style(
        ArrowType::Triangle,
        ArrowType::Plain,
        LineStyle::Dotted,
        LineWeight::Normal,
        None,
        None,
    );
    assert!(
        dotted.contains("dashed=1;dashPattern=1 4;"),
        "dotted style: {dotted}"
    );
}

#[test]
fn graph_edge_thick_weight_maps_to_stroke_width() {
    let style = graph_edge_style(
        ArrowType::Triangle,
        ArrowType::Plain,
        LineStyle::Solid,
        LineWeight::Thick,
        None,
        None,
    );
    assert!(style.contains("strokeWidth=3;"), "style: {style}");
}

#[test]
fn graph_edge_ports_append_exit_entry_in_fixed_order() {
    let style = graph_edge_style(
        ArrowType::Triangle,
        ArrowType::Plain,
        LineStyle::Solid,
        LineWeight::Normal,
        Some(Port::East),
        Some(Port::West),
    );
    assert_eq!(
        style,
        "edgeStyle=orthogonalEdgeStyle;\
         exitX=1;exitY=0.5;exitDx=0;exitDy=0;\
         entryX=0;entryY=0.5;entryDx=0;entryDy=0;"
    );
}

#[test]
fn graph_edge_ports_render_through_full_pipeline() {
    let mut e = edge("a", "b", None, ArrowType::Triangle);
    e.from_port = Some(Port::East);
    e.to_port = Some(Port::West);
    let layout = graph(vec![node(0, "a", "A"), node(1, "b", "B")], vec![e]);
    let xml = render(&layout).expect("render");
    assert!(xml.contains("exitX=1;exitY=0.5;"), "{xml}");
    assert!(xml.contains("entryX=0;entryY=0.5;"), "{xml}");
}

#[test]
fn graph_render_new_edge_attrs_produce_byte_identical_default_case() {
    let layout = graph(
        vec![node(0, "a", "A"), node(1, "b", "B")],
        vec![edge("a", "b", None, ArrowType::Triangle)],
    );
    let xml = render(&layout).expect("render");
    assert!(xml.contains("style=\"edgeStyle=orthogonalEdgeStyle;\""));
    assert!(!xml.contains("startArrow"));
    assert!(!xml.contains("dashed"));
    assert!(!xml.contains("strokeWidth"));
}

#[test]
fn state_render_has_initial_and_final() {
    let layout = state_basic_layout();
    let xml = render(&layout).expect("state render");
    assert!(xml.contains("id=\"initial\""), "initial pseudostate cell");
    assert!(xml.contains("id=\"final\""), "final pseudostate cell");
    assert!(
        xml.contains("ellipse;fillColor=#000000"),
        "initial is filled ellipse"
    );
    assert!(
        xml.contains("id=\"final_inner\""),
        "final has an inner filled dot cell"
    );
    assert!(
        xml.contains("id=\"final_inner\" value=\"\" \
         style=\"ellipse;fillColor=#000000;strokeColor=#000000;\" vertex=\"1\" parent=\"final\""),
        "inner dot is a child of the outer ring so they move together"
    );
    assert!(
        !xml.contains("target=\"final_inner\""),
        "transitions target the outer ring, never the decorative inner dot"
    );
    assert!(
        xml.contains("ellipse;fillColor=none;strokeColor=#000000;"),
        "final outer ring is an unfilled ellipse"
    );
    assert!(
        !xml.contains("shape=doubleEllipse"),
        "final must not be a single solid doubleEllipse blob"
    );
    assert!(
        xml.contains("source=\"initial\""),
        "transition from initial"
    );
    assert!(xml.contains("target=\"final\""), "transition to final");
    assert!(xml.contains("id=\"n0\""), "first named state is n0");
    assert!(xml.contains("id=\"n1\""), "second named state is n1");
}

#[test]
fn state_render_node_value_is_label_not_id() {
    let layout = state_basic_layout();
    let xml = render(&layout).expect("state render");
    // state idle: "Idle" => value="Idle", not value="idle"
    assert!(
        xml.contains("value=\"Idle\""),
        "state value must be display label: {xml}"
    );
    assert!(
        xml.contains("value=\"Active\""),
        "state value must be display label: {xml}"
    );
    assert!(
        !xml.contains("value=\"idle\""),
        "raw state ID must not appear as value: {xml}"
    );
}

#[test]
fn state_render_transition_value_is_label() {
    let layout = state_basic_layout();
    let xml = render(&layout).expect("state render");
    // idle -> active : "start" => transition value="start"
    assert!(
        xml.contains("value=\"start\""),
        "transition value must be its label: {xml}"
    );
}

#[test]
fn state_render_self_loop_style() {
    let layout = state_self_loop_layout();
    let xml = render(&layout).expect("state render");
    assert!(xml.contains("exitX=1"), "self-loop must have exit style");
    assert!(xml.contains("entryX=1"), "self-loop must have entry style");
}

#[test]
fn state_render_is_deterministic() {
    let layout = state_basic_layout();
    let xml1 = render(&layout).expect("render 1");
    let xml2 = render(&layout).expect("render 2");
    assert_eq!(xml1, xml2, "state render must be deterministic");
}

#[test]
fn sequence_render_produces_umllifeline_vertices() {
    let layout = seq_layout();
    let xml = render(&layout).expect("sequence render");
    assert!(xml.starts_with("<mxfile>"));
    assert!(xml.contains("id=\"n0\""), "first participant is n0");
    assert!(xml.contains("id=\"n1\""), "second participant is n1");
    assert!(
        xml.contains("shape=umlLifeline"),
        "participants are umlLifeline vertices: {xml}"
    );
    // Values are display labels, not ids.
    assert!(xml.contains("value=\"Alice\""), "participant label Alice");
    assert!(xml.contains("value=\"Bob\""), "participant label Bob");
    assert!(
        !xml.contains("value=\"a\""),
        "raw participant id must not leak as a value"
    );
}

#[test]
fn sequence_render_message_is_pinned_and_connected() {
    let layout = seq_layout();
    let xml = render(&layout).expect("sequence render");
    assert!(xml.contains("id=\"e0\""), "message is e0");
    assert!(
        xml.contains("source=\"n0\" target=\"n1\""),
        "message connects source lifeline to target lifeline: {xml}"
    );
    assert!(
        xml.contains("exitY=") && xml.contains("entryY="),
        "message endpoints are pinned via exitY/entryY: {xml}"
    );
    assert!(
        xml.contains("exitPerimeter=0") && xml.contains("entryPerimeter=0"),
        "fixed connection points bypass perimeter routing: {xml}"
    );
    assert!(xml.contains("value=\"hi\""), "message label is emitted");
}

#[test]
fn sequence_render_exit_fraction_matches_message_y() {
    // The exitY fraction actually *emitted in the XML* must reproduce the
    // semantic message y: frac * vertex_height + vertex_y ≈ route[0].y.
    let layout = seq_layout();
    let xml = render(&layout).expect("sequence render");
    let after = xml.split("exitY=").nth(1).expect("exitY in rendered style");
    let frac: f64 = after
        .split(';')
        .next()
        .unwrap()
        .parse()
        .expect("exitY parses as f64");
    let reconstructed = frac * COLUMN_HEIGHT + HEADER_Y;
    assert!(
        (reconstructed - MESSAGE_Y).abs() < 0.1,
        "rendered exitY must reconstruct message y within 0.1px: got {reconstructed}, want {MESSAGE_Y}"
    );
}

#[test]
fn sequence_render_is_deterministic() {
    let layout = seq_layout();
    let xml1 = render(&layout).expect("render 1");
    let xml2 = render(&layout).expect("render 2");
    assert_eq!(xml1, xml2, "sequence render must be deterministic");
}

#[test]
fn render_error_display() {
    let e = RenderError::UnsupportedDiagram { kind: "sequence" };
    let msg = e.to_string();
    assert!(
        msg.contains("sequence"),
        "error message must mention the kind"
    );
}

#[test]
fn dangling_edge_error_display() {
    let e = RenderError::DanglingEdge {
        node_id: "missing_node".to_string(),
    };
    let msg = e.to_string();
    assert!(
        msg.contains("missing_node"),
        "error must mention the node id: {msg}"
    );
}

#[test]
fn unknown_endpoint_error_display() {
    let e = RenderError::UnknownEndpoint {
        description: "Initial pseudostate not present".to_string(),
    };
    let msg = e.to_string();
    assert!(
        msg.contains("Initial"),
        "error must mention the description: {msg}"
    );
}

#[test]
fn waypoints_xml_empty_for_two_point_route() {
    let route = points(&[(0.0, 0.0), (10.0, 10.0)]);
    let s = waypoints_xml(&route);
    assert!(s.is_empty(), "two-point route must produce no waypoints");
}

#[test]
fn waypoints_xml_emits_interior_points_with_margin() {
    let route = points(&[(0.0, 0.0), (5.0, 0.0), (5.0, 10.0), (10.0, 10.0)]);
    let s = waypoints_xml(&route);
    assert!(
        s.contains("<Array as=\"points\">"),
        "must have Array element: {s}"
    );
    assert!(s.contains("<mxPoint"), "must have mxPoint elements: {s}");
    // Interior points are (5,0) and (5,10), with +20 margin -> (25,20) and (25,30)
    assert!(
        s.contains("x=\"25.00\" y=\"20.00\""),
        "first interior point with margin: {s}"
    );
    assert!(
        s.contains("x=\"25.00\" y=\"30.00\""),
        "second interior point with margin: {s}"
    );
}

#[test]
fn a_route_without_points_has_no_waypoints() {
    assert_eq!(waypoints_xml(&vec![]), "");
}

#[test]
fn node_value_and_edge_value_are_xml_escaped() {
    let layout = graph(
        vec![node(0, "p", "A < B & \"C\""), node(1, "q", "Normal")],
        vec![edge("p", "q", Some("x > y & z".into()), ArrowType::Triangle)],
    );
    let xml = render(&layout).expect("render");
    assert!(
        xml.contains("value=\"A &lt; B &amp; &quot;C&quot;\""),
        "node label must be XML-escaped: {xml}"
    );
    assert!(
        xml.contains("value=\"x &gt; y &amp; z\""),
        "edge label must be XML-escaped: {xml}"
    );
}

#[test]
fn node_value_japanese_and_special_chars_in_edge() {
    let layout = graph(
        vec![node(0, "a", "入力<データ>"), node(1, "b", "出力")],
        vec![edge("a", "b", Some("送信 & 受信".into()), ArrowType::Triangle)],
    );
    let xml = render(&layout).expect("render");
    assert!(
        xml.contains("value=\"入力&lt;データ&gt;\""),
        "Japanese + XML escape in node: {xml}"
    );
    assert!(
        xml.contains("value=\"送信 &amp; 受信\""),
        "Japanese + XML escape in edge: {xml}"
    );
}

#[test]
fn an_edge_to_an_unknown_node_is_an_error() {
    let layout = graph(
        vec![node(0, "a", "A")],
        vec![edge("a", "ghost", None, ArrowType::Triangle)],
    );
    assert_eq!(
        render(&layout).unwrap_err(),
        RenderError::DanglingEdge { node_id: "ghost".to_string() }
    );
}

#[test]
fn a_transition_to_a_pseudostate_that_is_not_there_is_an_error() {
    let layout: Layout = SemanticLayout::State(StateLayout {
        states: vec![state(0, "s", "S")],
        initial: None,
        final_state: None,
        transitions: vec![transition(Endpoint::Initial, named("s"), None)],
    });
    let err = render(&layout).unwrap_err();
    assert!(matches!(err, RenderError::UnknownEndpoint { .. }));
    assert!(err.to_string().contains("Initial pseudostate"));
}

#[test]
fn a_participant_shows_what_kind_it_is() {
    assert_eq!(participant_cell_value("A & B", ParticipantKind::Default), "A &amp; B");
    assert_eq!(
        participant_cell_value("Bob & Co", ParticipantKind::Actor),
        "<i>«actor»</i><br>Bob &amp; Co"
    );
}

#[test]
fn markers_and_ports_have_names() {
    assert_eq!(drawio_arrow(EndMarker::Plain), ("none", 0));
    assert_eq!(drawio_arrow(EndMarker::FilledDiamond), ("diamond", 1));
    assert_eq!(
        port_exit_entry("exit", Port::North),
        "exitX=0.5;exitY=0;exitDx=0;exitDy=0;"
    );
    assert_eq!(
        class_box_value(&class_box(0, "A", "A<B>", text("x"), &["r & s"])),
        "<div style=\"text-align:center\">&#171;x&#187;</div>\
         <div style=\"text-align:center\"><b>A&lt;B&gt;</b></div><hr size=\"1\"/>r &amp; s"
    );
}
