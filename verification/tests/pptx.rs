use kozue::ir::{ArrowType, Endpoint, LineStyle, LineWeight, NodeKind, ParticipantKind};
use kozue::layout::{
    ClassLayout, EdgeLayout, FinalLayout, GraphLayout, MessageLayout, NodeLayout,
    ParticipantLayout, SemanticLayout, SequenceLayout, StateBox, StateLayout, TransitionLayout,
};
use kozue::pptx::shapes::{connector_shape, is_collinear, PointEmu, RectEmu, RouteEmu};
use kozue::pptx::{render, HeaderEmu, PathEmu, RenderError};

type Layout = SemanticLayout<RectEmu, PathEmu, HeaderEmu, PathEmu>;

const EMU: i64 = 9525;

fn text(s: &str) -> Option<String> {
    Some(s.to_string())
}

fn rect(x: i64, y: i64, width: i64, height: i64) -> RectEmu {
    RectEmu {
        x: (x + 20) * EMU,
        y: (y + 20) * EMU,
        width: width * EMU,
        height: height * EMU,
    }
}

fn route(points: &[(i64, i64)]) -> RouteEmu {
    let xs: Vec<i64> = points.iter().map(|p| p.0).collect();
    let ys: Vec<i64> = points.iter().map(|p| p.1).collect();
    let (x0, x1) = (*xs.iter().min().unwrap(), *xs.iter().max().unwrap());
    let (y0, y1) = (*ys.iter().min().unwrap(), *ys.iter().max().unwrap());
    let (first, last) = (points[0], points[points.len() - 1]);
    RouteEmu {
        points: points
            .iter()
            .map(|&(x, y)| PointEmu { x: (x - x0) * EMU, y: (y - y0) * EMU })
            .collect(),
        frame: rect(x0, y0, x1 - x0, y1 - y0),
        has_area: x1 > x0 && y1 > y0,
        across: (last.0 - first.0).abs() * EMU,
        down: (last.1 - first.1).abs() * EMU,
        leftward: last.0 < first.0,
        upward: last.1 < first.1,
    }
}

fn path(points: &[(i64, i64)], label_box: Option<RectEmu>) -> PathEmu {
    PathEmu { route: route(points), label_box }
}

fn straight() -> PathEmu {
    path(&[(40, 40), (40, 80)], Some(rect(30, 50, 20, 12)))
}

fn node(i: i64, id: &str, label: &str) -> NodeLayout<RectEmu> {
    NodeLayout {
        id: id.to_string(),
        label: label.to_string(),
        kind: NodeKind::Default,
        rect: rect(0, 80 * i, 80, 40),
    }
}

fn edge(from: &str, to: &str, label: Option<String>) -> EdgeLayout<PathEmu> {
    EdgeLayout {
        from: from.to_string(),
        to: to.to_string(),
        label,
        arrow: ArrowType::Triangle,
        from_arrow: ArrowType::Plain,
        line: LineStyle::Solid,
        weight: LineWeight::Normal,
        from_port: None,
        to_port: None,
        path: straight(),
    }
}

fn graph(nodes: Vec<NodeLayout<RectEmu>>, edges: Vec<EdgeLayout<PathEmu>>) -> Layout {
    SemanticLayout::Graph(GraphLayout { containers: vec![], nodes, edges })
}

fn graph_two_node_layout() -> Layout {
    graph(vec![node(0, "a", "Alpha"), node(1, "b", "Beta")], vec![edge("a", "b", None)])
}

fn state(i: i64, id: &str, label: &str) -> StateBox<RectEmu> {
    StateBox { id: id.to_string(), label: label.to_string(), rect: rect(0, 80 * i, 80, 40) }
}

fn named(id: &str) -> Endpoint {
    Endpoint::State(id.to_string())
}

fn transition(from: Endpoint, to: Endpoint, label: Option<String>) -> TransitionLayout<PathEmu> {
    TransitionLayout { from, to, label, path: straight() }
}

fn state_basic_layout() -> Layout {
    SemanticLayout::State(StateLayout {
        states: vec![state(0, "idle", "Idle"), state(1, "active", "Active")],
        initial: Some(rect(30, -40, 20, 20)),
        final_state: Some(FinalLayout {
            outer: rect(30, 160, 24, 24),
            inner: rect(36, 166, 12, 12),
        }),
        transitions: vec![
            transition(Endpoint::Initial, named("idle"), None),
            transition(named("idle"), named("active"), text("start")),
            transition(named("active"), Endpoint::Final, None),
        ],
    })
}

fn participant(i: i64, id: &str, label: &str) -> ParticipantLayout<HeaderEmu> {
    ParticipantLayout {
        id: id.to_string(),
        label: label.to_string(),
        kind: ParticipantKind::Default,
        place: HeaderEmu {
            header: rect(120 * i, 0, 80, 40),
            lifeline: route(&[(120 * i + 40, 40), (120 * i + 40, 200)]),
        },
    }
}

fn seq_layout() -> Layout {
    SemanticLayout::Sequence(SequenceLayout {
        participants: vec![participant(0, "a", "Alice"), participant(1, "b", "Bob")],
        messages: vec![MessageLayout {
            from: "a".to_string(),
            to: "b".to_string(),
            label: text("hi"),
            line: LineStyle::Solid,
            arrow: ArrowType::Triangle,
            path: path(&[(40, 80), (160, 80)], Some(rect(90, 70, 20, 12))),
        }],
    })
}

fn assert_valid_zip_shape(bytes: &[u8]) {
    assert!(
        bytes.starts_with(b"PK\x03\x04"),
        "pptx bytes must start with a ZIP local file header signature"
    );
    assert!(
        bytes.windows(4).any(|w| w == b"PK\x05\x06"),
        "pptx bytes must contain an End Of Central Directory signature"
    );
    assert!(!bytes.is_empty());
}

#[test]
fn render_graph_produces_valid_zip() {
    let layout = graph_two_node_layout();
    let bytes = render(&layout).expect("graph render");
    assert_valid_zip_shape(&bytes);
}

#[test]
fn render_state_produces_valid_zip() {
    let layout = state_basic_layout();
    let bytes = render(&layout).expect("state render");
    assert_valid_zip_shape(&bytes);
}

#[test]
fn render_sequence_produces_valid_zip() {
    let layout = seq_layout();
    let bytes = render(&layout).expect("sequence render");
    assert_valid_zip_shape(&bytes);
}

#[test]
fn render_graph_is_deterministic() {
    let layout = graph_two_node_layout();
    let b1 = render(&layout).expect("render 1");
    let b2 = render(&layout).expect("render 2");
    assert_eq!(b1, b2, "same input must produce byte-identical output");
}

#[test]
fn render_state_is_deterministic() {
    let layout = state_basic_layout();
    let b1 = render(&layout).expect("render 1");
    let b2 = render(&layout).expect("render 2");
    assert_eq!(b1, b2);
}

#[test]
fn render_sequence_is_deterministic() {
    let layout = seq_layout();
    let b1 = render(&layout).expect("render 1");
    let b2 = render(&layout).expect("render 2");
    assert_eq!(b1, b2);
}

#[test]
fn graph_slide_contains_node_labels_and_shapes() {
    let layout = graph_two_node_layout();
    let bytes = render(&layout).expect("render");
    let text = String::from_utf8_lossy(&bytes);
    assert!(text.contains("<p:sp>"), "must contain rectangle shapes");
    assert!(text.contains("<p:cxnSp>"), "must contain a connector");
    assert!(
        text.contains("Alpha"),
        "node label must appear in slide1.xml"
    );
    assert!(
        text.contains("Beta"),
        "node label must appear in slide1.xml"
    );
}

#[test]
fn graph_node_label_is_xml_escaped() {
    let layout = graph(vec![node(0, "x", "A < B & C \"quoted\"")], vec![]);
    let bytes = render(&layout).expect("render");
    let text = String::from_utf8_lossy(&bytes);
    assert!(text.contains("&lt;"), "< must be escaped");
    assert!(text.contains("&amp;"), "& must be escaped");
    assert!(text.contains("&quot;"), "\" must be escaped");
}

#[test]
fn graph_edge_label_is_rendered() {
    let layout =
        graph(vec![node(0, "a", "A"), node(1, "b", "B")], vec![edge("a", "b", text("yes"))]);
    let bytes = render(&layout).expect("render");
    let text = String::from_utf8_lossy(&bytes);
    assert!(
        text.contains("<a:t>yes</a:t>"),
        "edge label must be rendered in a label box"
    );
}

#[test]
fn self_transition_uses_polyline_custgeom() {
    // A self-loop transition has a bent route (out-and-back), so it must be
    // emitted as a custGeom polyline rather than collapsing to a line.
    let layout: Layout = SemanticLayout::State(StateLayout {
        states: vec![state(0, "active", "Active")],
        initial: None,
        final_state: None,
        transitions: vec![TransitionLayout {
            from: named("active"),
            to: named("active"),
            label: text("tick"),
            path: path(&[(80, 30), (100, 30), (100, 10), (80, 10)], Some(rect(90, 14, 20, 12))),
        }],
    });
    let bytes = render(&layout).expect("render");
    let text = String::from_utf8_lossy(&bytes);
    assert!(
        text.contains("<a:custGeom>"),
        "self-loop must render as a custGeom polyline, not a straight line"
    );
    assert!(
        text.contains("<a:t>tick</a:t>"),
        "self-loop label must be rendered"
    );
}

#[test]
fn state_slide_contains_initial_and_final_ellipses() {
    let layout = state_basic_layout();
    let bytes = render(&layout).expect("render");
    let text = String::from_utf8_lossy(&bytes);
    assert!(
        text.contains("prst=\"ellipse\""),
        "pseudostates are ellipses"
    );
    assert!(text.contains("Idle"));
    assert!(text.contains("Active"));
    // Transition labels are rendered as white-filled label boxes on top of
    // the connector (state_basic_layout gives the idle->active edge "start").
    assert!(
        text.contains("start"),
        "transition label must appear in slide1.xml"
    );
}

#[test]
fn sequence_slide_contains_participant_labels_and_lifelines() {
    let layout = seq_layout();
    let bytes = render(&layout).expect("render");
    let text = String::from_utf8_lossy(&bytes);
    assert!(text.contains("Alice"));
    assert!(text.contains("Bob"));
    assert!(
        text.contains("prstDash val=\"dash\""),
        "lifeline must be dashed"
    );
}

#[test]
fn lib_render_error_display_mentions_kind() {
    let e = RenderError::UnsupportedDiagram { kind: "sequence" };
    assert!(e.to_string().contains("sequence"));
}

#[test]
fn lib_dangling_edge_error_display() {
    let e = RenderError::DanglingEdge {
        node_id: "missing".to_string(),
    };
    assert!(e.to_string().contains("missing"));
}

#[test]
fn lib_unknown_endpoint_error_display() {
    let e = RenderError::UnknownEndpoint {
        description: "Initial pseudostate not present".to_string(),
    };
    assert!(e.to_string().contains("Initial"));
}

#[test]
fn pptx_declares_presentation_content_type() {
    let layout = graph_two_node_layout();
    let bytes = render(&layout).expect("render");
    let text = String::from_utf8_lossy(&bytes);
    assert!(
        text.contains("presentationml.presentation.main+xml"),
        "Content_Types must declare the presentation part"
    );
    assert!(
        text.contains("presentationml.slide+xml"),
        "Content_Types must declare the slide part"
    );
}

#[test]
fn shapes_are_numbered_from_two() {
    let bytes = render(&graph_two_node_layout()).expect("render");
    let text = String::from_utf8_lossy(&bytes);
    assert!(text.contains("<p:cNvPr id=\"2\" name=\"Node 0\"/>"));
    assert!(text.contains("<p:cNvPr id=\"3\" name=\"Node 1\"/>"));
    assert!(text.contains("<p:cNvPr id=\"4\" name=\"Edge 0\"/>"));
    assert!(text.contains("<a:off x=\"190500\" y=\"190500\"/>"));
}

#[test]
fn an_edge_without_a_route_is_an_error() {
    let mut e = edge("a", "b", None);
    e.path.route.points.clear();
    let layout = graph(vec![node(0, "a", "A"), node(1, "b", "B")], vec![e]);
    assert_eq!(
        render(&layout).unwrap_err(),
        RenderError::DanglingEdge { node_id: "a".to_string() }
    );
}

#[test]
fn an_end_that_is_not_there_is_an_error() {
    let layout = graph(vec![node(0, "a", "A")], vec![edge("a", "ghost", None)]);
    assert_eq!(
        render(&layout).unwrap_err(),
        RenderError::DanglingEdge { node_id: "ghost".to_string() }
    );
    let layout: Layout = SemanticLayout::State(StateLayout {
        states: vec![],
        initial: Some(rect(0, 0, 20, 20)),
        final_state: None,
        transitions: vec![transition(Endpoint::Initial, Endpoint::Final, None)],
    });
    assert_eq!(
        render(&layout).unwrap_err(),
        RenderError::UnknownEndpoint {
            description: "Final pseudostate referenced but not present in layout".to_string()
        }
    );
}

#[test]
fn boxes_with_compartments_are_not_shown() {
    let layout: Layout = SemanticLayout::Class(ClassLayout { boxes: vec![], relations: vec![] });
    assert_eq!(
        render(&layout).unwrap_err(),
        RenderError::UnsupportedDiagram { kind: "unknown" }
    );
}

#[test]
fn a_route_on_one_line_is_a_straight_connector() {
    let slanted = route(&[(0, 0), (10, 10), (20, 20)]);
    assert!(slanted.has_area && is_collinear(&slanted.points));
    let xml = connector_shape(2, "Edge 0", &slanted, false, true);
    assert!(xml.starts_with("<p:cxnSp><p:nvCxnSpPr><p:cNvPr id=\"2\" name=\"Edge 0\"/>"));
    assert!(xml.contains("prst=\"straightConnector1\"") && !xml.contains("custGeom"));

    let bent = route(&[(0, 0), (10, 10), (20, 21)]);
    assert!(!is_collinear(&bent.points));
    let xml = connector_shape(2, "Edge 0", &bent, false, true);
    assert!(xml.starts_with("<p:sp>") && xml.contains("<a:custGeom>"));

    // The first two points coincide.
    assert!(!is_collinear(&route(&[(0, 0), (0, 0), (10, 0), (10, 10)]).points));
}
