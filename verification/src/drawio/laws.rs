//! What the documents show.
use crate::drawio::class::{
    class_boxes, escaped, marker_arrow, multiplicity, relation_style, relations, sections,
};
use crate::drawio::{
    connector, document, edge_label, footer, header, label_value, vertex, waypoints,
    waypoints_before, PointTextView, RectTextView, RouteTextView,
};
use crate::drawio::graph::{containers, edge_style, edges, node_shape, nodes, port_style};
use crate::drawio::sequence::{
    message_style, messages, participant_value, participants, ColumnTextView, MessageTextView,
};
use crate::drawio::state::{endpoint_id, pseudostates, states, transitions};
use crate::escape::xml_text;
use crate::ir::{
    key_index, lemma_key_from, ArrowType, EndMarker, EndpointView, LineStyle, LineWeight,
    NodeKind, ParticipantKind, Port, State,
};
use crate::layout::{
    ClassLayoutView, CompartmentBoxView, CompartmentView, ContainerLayoutView, EdgeLayoutView,
    FinalLayoutView, GraphLayoutView, MessageLayoutView, NodeLayoutView, ParticipantLayoutView,
    RelationLayoutView, SemanticLayoutView, SequenceLayoutView, StateBoxView, StateLayoutView,
    TransitionLayoutView,
};
use crate::parts::{
    holds, lemma_holds, lemma_holds_more, lemma_starts_holds, lemma_starts_more,
    lemma_starts_self, lemma_starts_trans, starts,
};
use crate::text::{decimal, join_first};
use vstd::prelude::*;

verus! {

// ---------------------------------------------------------------------------
// Cells
// ---------------------------------------------------------------------------

/// A box as it is written: its id, what it shows, how it looks, what it stands in and
/// where it lies.
pub open spec fn written_box(
    id: Seq<char>,
    value: Seq<char>,
    style: Seq<char>,
    parent: Seq<char>,
    rect: RectTextView,
) -> Seq<char> {
    "        <mxCell id=\""@ + id + "\" value=\""@ + value + "\" style=\""@ + style
        + "\" vertex=\"1\" parent=\""@ + parent + "\">\n          <mxGeometry x=\""@ + rect.x
        + "\" y=\""@ + rect.y + "\" width=\""@ + rect.width + "\" height=\""@ + rect.height
        + "\" as=\"geometry\"/>\n        </mxCell>\n"@
}

/// The points from `i` on, without the last one, each as it is written.
pub open spec fn written_bends(points: Seq<PointTextView>, i: int) -> Seq<char>
    decreases points.len() - i,
{
    if i >= points.len() - 1 {
        Seq::empty()
    } else {
        "\n              <mxPoint x=\""@ + points[i].x + "\" y=\""@ + points[i].y + "\"/>"@
            + written_bends(points, i + 1)
    }
}

/// A connector as it is written: its id, its label, how it looks, the cells it leads
/// from and to, and the points between its ends.
pub open spec fn written_connector(
    id: Seq<char>,
    value: Seq<char>,
    style: Seq<char>,
    source: Seq<char>,
    target: Seq<char>,
    points: Seq<PointTextView>,
) -> Seq<char> {
    "        <mxCell id=\""@ + id + "\" value=\""@ + value + "\" style=\""@ + style
        + "\" edge=\"1\" source=\""@ + source + "\" target=\""@ + target
        + "\" parent=\"1\">\n          <mxGeometry relative=\"1\" as=\"geometry\""@ + (
    if points.len() <= 2 {
        "/>\n        </mxCell>\n"@
    } else {
        ">"@ + ("\n            <Array as=\"points\">"@ + written_bends(points, 1)
            + "\n            </Array>"@) + "\n          </mxGeometry>\n        </mxCell>\n"@
    })
}

/// A label on a connector as it is written.
pub open spec fn written_label(
    id: Seq<char>,
    value: Seq<char>,
    parent: Seq<char>,
    position: Seq<char>,
) -> Seq<char> {
    "        <mxCell id=\""@ + id + "\" value=\""@ + value
        + "\" style=\"edgeLabel;html=1;align=center;verticalAlign=middle;\" vertex=\"1\" connectable=\"0\" parent=\""@
        + parent + "\">\n          <mxGeometry "@ + position
        + "relative=\"1\" as=\"geometry\">\n            <mxPoint as=\"offset\"/>\n          </mxGeometry>\n        </mxCell>\n"@
}

proof fn lemma_nine(
    o: Seq<char>,
    a: Seq<char>,
    b: Seq<char>,
    c: Seq<char>,
    d: Seq<char>,
    e: Seq<char>,
    f: Seq<char>,
    g: Seq<char>,
    h: Seq<char>,
    i: Seq<char>,
)
    ensures
        o + a + b + c + d + e + f + g + h + i == o + (a + b + c + d + e + f + g + h + i),
{
    assert(o + a + b + c + d + e + f + g + h + i =~= o + (a + b + c + d + e + f + g + h + i));
}

proof fn lemma_vertex(
    out: Seq<char>,
    id: Seq<char>,
    value: Seq<char>,
    style: Seq<char>,
    parent: Seq<char>,
    rect: RectTextView,
)
    ensures
        vertex(out, id, value, style, parent, rect) == out + written_box(
            id,
            value,
            style,
            parent,
            rect,
        ),
{
    let first = "        <mxCell id=\""@ + id + "\" value=\""@ + value + "\" style=\""@ + style
        + "\" vertex=\"1\" parent=\""@ + parent + "\">\n          <mxGeometry x=\""@;
    lemma_nine(
        out,
        "        <mxCell id=\""@,
        id,
        "\" value=\""@,
        value,
        "\" style=\""@,
        style,
        "\" vertex=\"1\" parent=\""@,
        parent,
        "\">\n          <mxGeometry x=\""@,
    );
    lemma_nine(
        out,
        first,
        rect.x,
        "\" y=\""@,
        rect.y,
        "\" width=\""@,
        rect.width,
        "\" height=\""@,
        rect.height,
        "\" as=\"geometry\"/>\n        </mxCell>\n"@,
    );
}

proof fn lemma_bends(points: Seq<PointTextView>, n: int)
    requires
        1 <= n <= points.len() - 1,
    ensures
        waypoints_before(points, n) + written_bends(points, n)
            == "\n            <Array as=\"points\">"@ + written_bends(points, 1),
    decreases n,
{
    if n > 1 {
        lemma_bends(points, n - 1);
        let w = waypoints_before(points, n - 1);
        let r = written_bends(points, n);
        let x = points[n - 1].x;
        let y = points[n - 1].y;
        let a = "\n              <mxPoint x=\""@;
        let b = "\" y=\""@;
        let c = "\"/>"@;
        assert(w + a + x + b + y + c + r =~= w + (a + x + b + y + c + r));
    }
}

proof fn lemma_connector(
    out: Seq<char>,
    id: Seq<char>,
    value: Seq<char>,
    style: Seq<char>,
    ends: (Seq<char>, Seq<char>),
    points: Seq<PointTextView>,
)
    ensures
        connector(out, id, value, style, ends, points) == out + written_connector(
            id,
            value,
            style,
            ends.0,
            ends.1,
            points,
        ),
{
    let first = "        <mxCell id=\""@ + id + "\" value=\""@ + value + "\" style=\""@ + style
        + "\" edge=\"1\" source=\""@ + ends.0 + "\" target=\""@;
    let last = "\" parent=\"1\">\n          <mxGeometry relative=\"1\" as=\"geometry\""@;
    lemma_nine(
        out,
        "        <mxCell id=\""@,
        id,
        "\" value=\""@,
        value,
        "\" style=\""@,
        style,
        "\" edge=\"1\" source=\""@,
        ends.0,
        "\" target=\""@,
    );
    if points.len() <= 2 {
        let end = "/>\n        </mxCell>\n"@;
        assert(out + first + ends.1 + last + end =~= out + (first + ends.1 + last + end));
    } else {
        let n = points.len() - 1;
        lemma_bends(points, n);
        assert(waypoints_before(points, n) + written_bends(points, n) =~= waypoints_before(
            points,
            n,
        ));
        let w = waypoints(points);
        let end = "\n          </mxGeometry>\n        </mxCell>\n"@;
        assert(out + first + ends.1 + last + ">"@ + w + end =~= out + (first + ends.1 + last + (
        ">"@ + w + end)));
    }
}

proof fn lemma_edge_label(
    out: Seq<char>,
    id: Seq<char>,
    value: Seq<char>,
    parent: Seq<char>,
    position: Seq<char>,
)
    ensures
        edge_label(out, id, value, parent, position) == out + written_label(
            id,
            value,
            parent,
            position,
        ),
{
    let first = "        <mxCell id=\""@;
    let second = "\" style=\"edgeLabel;html=1;align=center;verticalAlign=middle;\" vertex=\"1\" connectable=\"0\" parent=\""@;
    let third = "\">\n          <mxGeometry "@;
    let last = "relative=\"1\" as=\"geometry\">\n            <mxPoint as=\"offset\"/>\n          </mxGeometry>\n        </mxCell>\n"@;
    lemma_nine(
        out,
        first,
        id,
        "\" value=\""@,
        value,
        second,
        parent,
        third,
        position,
        last,
    );
}

/// A text that another follows begins it, and the other stands in it.
proof fn lemma_added(out: Seq<char>, more: Seq<char>)
    ensures
        starts(out + more, out),
        holds(out + more, more),
{
    lemma_starts_self(out, more);
    assert(out + more =~= out + more + Seq::empty());
    lemma_holds(out + more, out, more, Seq::empty());
}

/// What is shown for a label: nothing where there is none.
pub open spec fn shown(label: Option<Seq<char>>) -> Seq<char> {
    match label {
        Some(l) => xml_text(l),
        None => Seq::empty(),
    }
}

proof fn lemma_shown(label: Option<Seq<char>>)
    ensures
        label_value(label) == shown(label),
{
    reveal_strlit("");
    if label is None {
        assert(xml_text(""@) =~= Seq::empty());
    }
}

// ---------------------------------------------------------------------------
// Graphs
// ---------------------------------------------------------------------------

/// How a node of each kind looks.
pub open spec fn node_look(kind: NodeKind) -> Seq<char> {
    match kind {
        NodeKind::Rectangle => "rounded=0;whiteSpace=wrap;html=1;"@,
        NodeKind::Circle => "ellipse;whiteSpace=wrap;html=1;"@,
        NodeKind::Diamond => "rhombus;whiteSpace=wrap;html=1;"@,
        _ => "rounded=1;whiteSpace=wrap;html=1;"@,
    }
}

/// The node at `i` as it is written.
pub open spec fn written_node(ns: Seq<NodeLayoutView<RectTextView>>, i: int) -> Seq<char> {
    written_box(
        "n"@ + decimal(i),
        xml_text(ns[i].label),
        node_look(ns[i].kind),
        "1"@,
        ns[i].rect,
    )
}

proof fn lemma_node_look(kind: NodeKind)
    ensures
        node_shape(kind) + ";whiteSpace=wrap;html=1;"@ == node_look(kind),
{
    reveal_strlit("rounded=0");
    reveal_strlit("rounded=1");
    reveal_strlit("ellipse");
    reveal_strlit("rhombus");
    reveal_strlit(";whiteSpace=wrap;html=1;");
    reveal_strlit("rounded=0;whiteSpace=wrap;html=1;");
    reveal_strlit("rounded=1;whiteSpace=wrap;html=1;");
    reveal_strlit("ellipse;whiteSpace=wrap;html=1;");
    reveal_strlit("rhombus;whiteSpace=wrap;html=1;");
    assert(node_shape(kind) + ";whiteSpace=wrap;html=1;"@ =~= node_look(kind));
}

proof fn lemma_nodes(out: Seq<char>, ns: Seq<NodeLayoutView<RectTextView>>, n: int)
    requires
        0 <= n <= ns.len(),
    ensures
        starts(nodes(out, ns, n), out),
        forall|i: int| 0 <= i < n ==> holds(nodes(out, ns, n), #[trigger] written_node(ns, i)),
    decreases n,
{
    if n > 0 {
        let before = nodes(out, ns, n - 1);
        lemma_nodes(out, ns, n - 1);
        lemma_node_look(ns[n - 1].kind);
        let b = written_node(ns, n - 1);
        lemma_vertex(
            before,
            "n"@ + decimal(n - 1),
            xml_text(ns[n - 1].label),
            node_look(ns[n - 1].kind),
            "1"@,
            ns[n - 1].rect,
        );
        lemma_added(before, b);
        lemma_starts_trans(before + b, before, out);
        assert forall|i: int| 0 <= i < n implies holds(
            nodes(out, ns, n),
            #[trigger] written_node(ns, i),
        ) by {
            if i < n - 1 {
                lemma_holds_more(before, written_node(ns, i), b);
            }
        }
    } else {
        lemma_starts_self(out, out);
    }
}

/// The container at `i` as it is written.
pub open spec fn written_container(cs: Seq<ContainerLayoutView<RectTextView>>, i: int) -> Seq<char> {
    written_box(
        "c"@ + decimal(i),
        shown(cs[i].label),
        "rounded=0;dashed=1;fillColor=none;verticalAlign=top;align=left;spacingLeft=6;spacingTop=4;html=1;"@,
        "1"@,
        cs[i].rect,
    )
}

proof fn lemma_containers(out: Seq<char>, cs: Seq<ContainerLayoutView<RectTextView>>, n: int)
    requires
        0 <= n <= cs.len(),
    ensures
        starts(containers(out, cs, n), out),
        forall|i: int|
            0 <= i < n ==> holds(containers(out, cs, n), #[trigger] written_container(cs, i)),
    decreases n,
{
    if n > 0 {
        let before = containers(out, cs, n - 1);
        lemma_containers(out, cs, n - 1);
        lemma_shown(cs[n - 1].label);
        let b = written_container(cs, n - 1);
        lemma_vertex(
            before,
            "c"@ + decimal(n - 1),
            shown(cs[n - 1].label),
            "rounded=0;dashed=1;fillColor=none;verticalAlign=top;align=left;spacingLeft=6;spacingTop=4;html=1;"@,
            "1"@,
            cs[n - 1].rect,
        );
        lemma_added(before, b);
        lemma_starts_trans(before + b, before, out);
        assert forall|i: int| 0 <= i < n implies holds(
            containers(out, cs, n),
            #[trigger] written_container(cs, i),
        ) by {
            if i < n - 1 {
                lemma_holds_more(before, written_container(cs, i), b);
            }
        }
    } else {
        lemma_starts_self(out, out);
    }
}

/// Where an edge leaves a box by a port.
pub open spec fn leaving(port: Option<Port>) -> Seq<char> {
    match port {
        Some(Port::North) => "exitX=0.5;exitY=0;exitDx=0;exitDy=0;"@,
        Some(Port::East) => "exitX=1;exitY=0.5;exitDx=0;exitDy=0;"@,
        Some(Port::South) => "exitX=0.5;exitY=1;exitDx=0;exitDy=0;"@,
        Some(Port::West) => "exitX=0;exitY=0.5;exitDx=0;exitDy=0;"@,
        None => ""@,
    }
}

/// Where an edge reaches a box by a port.
pub open spec fn reaching(port: Option<Port>) -> Seq<char> {
    match port {
        Some(Port::North) => "entryX=0.5;entryY=0;entryDx=0;entryDy=0;"@,
        Some(Port::East) => "entryX=1;entryY=0.5;entryDx=0;entryDy=0;"@,
        Some(Port::South) => "entryX=0.5;entryY=1;entryDx=0;entryDy=0;"@,
        Some(Port::West) => "entryX=0;entryY=0.5;entryDx=0;entryDy=0;"@,
        None => ""@,
    }
}

/// How an edge looks: whether it has a head at its end and at its start, how its line is
/// drawn, how thick it is, and the ports at which it leaves and arrives.
pub open spec fn edge_look(e: EdgeLayoutView<RouteTextView>) -> Seq<char> {
    "edgeStyle=orthogonalEdgeStyle;"@ + (if e.arrow == ArrowType::Plain {
        "endArrow=none;"@
    } else {
        ""@
    }) + (if e.from_arrow == ArrowType::Triangle {
        "startArrow=classic;"@
    } else {
        ""@
    }) + (match e.line {
        LineStyle::Solid => ""@,
        LineStyle::Dashed => "dashed=1;"@,
        LineStyle::Dotted => "dashed=1;dashPattern=1 4;"@,
    }) + (match e.weight {
        LineWeight::Normal => ""@,
        LineWeight::Thick => "strokeWidth=3;"@,
    }) + leaving(e.from_port) + reaching(e.to_port)
}

proof fn lemma_leaving(port: Port)
    ensures
        port_style("exit"@, port) == leaving(Some(port)),
{
    reveal_strlit("exit");
    reveal_strlit("X=");
    reveal_strlit("Y=");
    reveal_strlit(";");
    reveal_strlit("0");
    reveal_strlit("1");
    reveal_strlit("0.5");
    reveal_strlit("Dx=0;");
    reveal_strlit("Dy=0;");
    reveal_strlit("exitX=0.5;exitY=0;exitDx=0;exitDy=0;");
    reveal_strlit("exitX=1;exitY=0.5;exitDx=0;exitDy=0;");
    reveal_strlit("exitX=0.5;exitY=1;exitDx=0;exitDy=0;");
    reveal_strlit("exitX=0;exitY=0.5;exitDx=0;exitDy=0;");
    assert(port_style("exit"@, port) =~= leaving(Some(port)));
}

proof fn lemma_reaching(port: Port)
    ensures
        port_style("entry"@, port) == reaching(Some(port)),
{
    reveal_strlit("entry");
    reveal_strlit("X=");
    reveal_strlit("Y=");
    reveal_strlit(";");
    reveal_strlit("0");
    reveal_strlit("1");
    reveal_strlit("0.5");
    reveal_strlit("Dx=0;");
    reveal_strlit("Dy=0;");
    reveal_strlit("entryX=0.5;entryY=0;entryDx=0;entryDy=0;");
    reveal_strlit("entryX=1;entryY=0.5;entryDx=0;entryDy=0;");
    reveal_strlit("entryX=0.5;entryY=1;entryDx=0;entryDy=0;");
    reveal_strlit("entryX=0;entryY=0.5;entryDx=0;entryDy=0;");
    assert(port_style("entry"@, port) =~= reaching(Some(port)));
}

proof fn lemma_edge_look(e: EdgeLayoutView<RouteTextView>)
    ensures
        edge_style(e.arrow, e.from_arrow, e.line, e.weight, e.from_port, e.to_port) == edge_look(e),
{
    assert forall|s: Seq<char>| #[trigger] (s + ""@) == s by {
        reveal_strlit("");
        assert(s + ""@ =~= s);
    }
    if let Some(p) = e.from_port {
        lemma_leaving(p);
    }
    if let Some(p) = e.to_port {
        lemma_reaching(p);
    }
}

/// Whether the connector `e` at `i` is written, from the box at `s` to the box at `t`.
pub open spec fn joins(
    text: Seq<char>,
    i: int,
    value: Seq<char>,
    style: Seq<char>,
    s: int,
    t: int,
    points: Seq<PointTextView>,
) -> bool {
    holds(
        text,
        written_connector(
            "e"@ + decimal(i),
            value,
            style,
            "n"@ + decimal(s),
            "n"@ + decimal(t),
            points,
        ),
    )
}

/// Whether the edge at `i` is written, between the nodes it names.
pub open spec fn edge_shown(
    text: Seq<char>,
    g: GraphLayoutView<RectTextView, RouteTextView>,
    i: int,
) -> bool {
    exists|s: int, t: int|
        0 <= s < g.nodes.len() && 0 <= t < g.nodes.len() && g.nodes[s].id == g.edges[i].from
            && g.nodes[t].id == g.edges[i].to && #[trigger] joins(
            text,
            i,
            shown(g.edges[i].label),
            edge_look(g.edges[i]),
            s,
            t,
            g.edges[i].path.points,
        )
}

proof fn lemma_edges(out: Seq<char>, g: GraphLayoutView<RectTextView, RouteTextView>, i: int)
    requires
        0 <= i <= g.edges.len(),
    ensures
        edges(out, g, i) matches Ok(text) ==> starts(text, out) && forall|j: int|
            i <= j < g.edges.len() ==> #[trigger] edge_shown(text, g, j),
    decreases g.edges.len() - i,
{
    if i >= g.edges.len() {
        lemma_starts_self(out, footer());
    } else {
        let e = g.edges[i];
        lemma_key_from(g.nodes, e.from, 0);
        lemma_key_from(g.nodes, e.to, 0);
        if let Ok(text) = edges(out, g, i) {
            let s = key_index(g.nodes, e.from)->0;
            let t = key_index(g.nodes, e.to)->0;
            lemma_shown(e.label);
            lemma_edge_look(e);
            let (source, target) = ("n"@ + decimal(s), "n"@ + decimal(t));
            let id = "e"@ + decimal(i);
            let c = written_connector(
                id,
                shown(e.label),
                edge_look(e),
                source,
                target,
                e.path.points,
            );
            lemma_connector(
                out,
                id,
                shown(e.label),
                edge_look(e),
                (source, target),
                e.path.points,
            );
            lemma_edges(out + c, g, i + 1);
            lemma_starts_more(text, out, c);
            assert(joins(text, i, shown(e.label), edge_look(e), s, t, e.path.points));
            assert(edge_shown(text, g, i));
        }
    }
}

/// The document of a graph shows every container, every node and every edge: each box
/// with its own label, look and place, and each edge from the node it leaves to the node
/// it reaches, with its own label, look and bends.
pub proof fn law_graph_cells(g: GraphLayoutView<RectTextView, RouteTextView>)
    ensures
        document(SemanticLayoutView::Graph(g)) matches Ok(text) ==> {
            &&& forall|i: int|
                0 <= i < g.containers.len() ==> holds(
                    text,
                    #[trigger] written_container(g.containers, i),
                )
            &&& forall|i: int|
                0 <= i < g.nodes.len() ==> holds(text, #[trigger] written_node(g.nodes, i))
            &&& forall|i: int| 0 <= i < g.edges.len() ==> #[trigger] edge_shown(text, g, i)
        },
{
    let cs = containers(header(), g.containers, g.containers.len() as int);
    let ns = nodes(cs, g.nodes, g.nodes.len() as int);
    lemma_containers(header(), g.containers, g.containers.len() as int);
    lemma_nodes(cs, g.nodes, g.nodes.len() as int);
    lemma_edges(ns, g, 0);
    if let Ok(text) = document(SemanticLayoutView::Graph(g)) {
        lemma_starts_trans(text, ns, cs);
        assert forall|i: int| 0 <= i < g.containers.len() implies holds(
            text,
            #[trigger] written_container(g.containers, i),
        ) by {
            lemma_starts_holds(text, cs, written_container(g.containers, i));
        }
        assert forall|i: int| 0 <= i < g.nodes.len() implies holds(
            text,
            #[trigger] written_node(g.nodes, i),
        ) by {
            lemma_starts_holds(text, ns, written_node(g.nodes, i));
        }
    }
}

// ---------------------------------------------------------------------------
// State diagrams
// ---------------------------------------------------------------------------

/// The state at `i` as it is written.
pub open spec fn written_state(ss: Seq<StateBoxView<RectTextView>>, i: int) -> Seq<char> {
    written_box(
        "n"@ + decimal(i),
        xml_text(ss[i].label),
        "rounded=1;whiteSpace=wrap;html=1;"@,
        "1"@,
        ss[i].rect,
    )
}

proof fn lemma_states(out: Seq<char>, ss: Seq<StateBoxView<RectTextView>>, n: int)
    requires
        0 <= n <= ss.len(),
    ensures
        starts(states(out, ss, n), out),
        forall|i: int| 0 <= i < n ==> holds(states(out, ss, n), #[trigger] written_state(ss, i)),
    decreases n,
{
    if n > 0 {
        let before = states(out, ss, n - 1);
        lemma_states(out, ss, n - 1);
        let b = written_state(ss, n - 1);
        lemma_vertex(
            before,
            "n"@ + decimal(n - 1),
            xml_text(ss[n - 1].label),
            "rounded=1;whiteSpace=wrap;html=1;"@,
            "1"@,
            ss[n - 1].rect,
        );
        lemma_added(before, b);
        lemma_starts_trans(before + b, before, out);
        assert forall|i: int| 0 <= i < n implies holds(
            states(out, ss, n),
            #[trigger] written_state(ss, i),
        ) by {
            if i < n - 1 {
                lemma_holds_more(before, written_state(ss, i), b);
            }
        }
    } else {
        lemma_starts_self(out, out);
    }
}

/// The dot of the initial pseudostate as it is written.
pub open spec fn written_initial(rect: RectTextView) -> Seq<char> {
    written_box(
        "initial"@,
        ""@,
        "ellipse;fillColor=#000000;strokeColor=#000000;"@,
        "1"@,
        rect,
    )
}

/// The ring of the final pseudostate, and the dot inside it, as they are written.
pub open spec fn written_final(f: FinalLayoutView<RectTextView>) -> Seq<char> {
    written_box(
        "final"@,
        ""@,
        "ellipse;fillColor=none;strokeColor=#000000;"@,
        "1"@,
        f.outer,
    ) + written_box(
        "final_inner"@,
        ""@,
        "ellipse;fillColor=#000000;strokeColor=#000000;"@,
        "final"@,
        f.inner,
    )
}

proof fn lemma_pseudostates(out: Seq<char>, s: StateLayoutView<RectTextView, RouteTextView>)
    ensures
        starts(pseudostates(out, s), out),
        s.initial matches Some(r) ==> holds(pseudostates(out, s), written_initial(r)),
        s.final_state matches Some(f) ==> holds(pseudostates(out, s), written_final(f)),
{
    let dot = "ellipse;fillColor=#000000;strokeColor=#000000;"@;
    let ring = "ellipse;fillColor=none;strokeColor=#000000;"@;
    lemma_starts_self(out, out);
    let begun = match s.initial {
        Some(r) => out + written_initial(r),
        None => out,
    };
    if let Some(r) = s.initial {
        lemma_vertex(out, "initial"@, ""@, dot, "1"@, r);
        lemma_added(out, written_initial(r));
    }
    if let Some(f) = s.final_state {
        let outer = written_box("final"@, ""@, ring, "1"@, f.outer);
        let inner = written_box("final_inner"@, ""@, dot, "final"@, f.inner);
        lemma_vertex(begun, "final"@, ""@, ring, "1"@, f.outer);
        lemma_vertex(begun + outer, "final_inner"@, ""@, dot, "final"@, f.inner);
        assert(begun + outer + inner =~= begun + (outer + inner));
        lemma_added(begun, outer + inner);
        lemma_starts_trans(pseudostates(out, s), begun, out);
        if let Some(r) = s.initial {
            lemma_starts_holds(pseudostates(out, s), begun, written_initial(r));
        }
    }
}

/// Whether `cell` is the id of the cell for one end of a transition: that of the box of
/// the state, or that of the pseudostate.
pub open spec fn stands_for(
    cell: Seq<char>,
    s: StateLayoutView<RectTextView, RouteTextView>,
    e: EndpointView,
) -> bool {
    match e {
        EndpointView::State(id) => exists|k: int|
            0 <= k < s.states.len() && (#[trigger] s.states[k]).id == id && cell == "n"@ + decimal(
                k,
            ),
        EndpointView::Initial => cell == "initial"@ && s.initial is Some,
        EndpointView::Final => cell == "final"@ && s.final_state is Some,
    }
}

/// How a transition looks: one from a state to itself leaves it on the right and comes
/// back at the upper right corner.
pub open spec fn transition_look(t: TransitionLayoutView<RouteTextView>) -> Seq<char> {
    if t.from == t.to && t.from is State {
        "edgeStyle=orthogonalEdgeStyle;exitX=1;exitY=0.5;exitDx=0;exitDy=0;entryX=1;entryY=0;entryDx=0;entryDy=0;"@
    } else {
        "edgeStyle=orthogonalEdgeStyle;"@
    }
}

/// Whether the connector at `i` is written, from the cell `source` to the cell `target`.
pub open spec fn leads(
    text: Seq<char>,
    i: int,
    t: TransitionLayoutView<RouteTextView>,
    source: Seq<char>,
    target: Seq<char>,
) -> bool {
    holds(
        text,
        written_connector(
            "e"@ + decimal(i),
            shown(t.label),
            transition_look(t),
            source,
            target,
            t.path.points,
        ),
    )
}

/// Whether the transition at `i` is written, between the cells for its ends.
pub open spec fn transition_shown(
    text: Seq<char>,
    s: StateLayoutView<RectTextView, RouteTextView>,
    i: int,
) -> bool {
    exists|source: Seq<char>, target: Seq<char>|
        stands_for(source, s, s.transitions[i].from) && stands_for(target, s, s.transitions[i].to)
            && #[trigger] leads(text, i, s.transitions[i], source, target)
}

proof fn lemma_endpoint(s: StateLayoutView<RectTextView, RouteTextView>, e: EndpointView)
    ensures
        endpoint_id(s, e) matches Ok(cell) ==> stands_for(cell, s, e),
{
    if let EndpointView::State(id) = e {
        lemma_key_from(s.states, id, 0);
    }
}

proof fn lemma_transitions(
    out: Seq<char>,
    s: StateLayoutView<RectTextView, RouteTextView>,
    i: int,
)
    requires
        0 <= i <= s.transitions.len(),
    ensures
        transitions(out, s, i) matches Ok(text) ==> starts(text, out) && forall|j: int|
            i <= j < s.transitions.len() ==> #[trigger] transition_shown(text, s, j),
    decreases s.transitions.len() - i,
{
    if i >= s.transitions.len() {
        lemma_starts_self(out, footer());
    } else {
        let t = s.transitions[i];
        lemma_endpoint(s, t.from);
        lemma_endpoint(s, t.to);
        if let Ok(text) = transitions(out, s, i) {
            let source = endpoint_id(s, t.from)->Ok_0;
            let target = endpoint_id(s, t.to)->Ok_0;
            lemma_shown(t.label);
            let id = "e"@ + decimal(i);
            let c = written_connector(
                id,
                shown(t.label),
                transition_look(t),
                source,
                target,
                t.path.points,
            );
            lemma_connector(
                out,
                id,
                shown(t.label),
                transition_look(t),
                (source, target),
                t.path.points,
            );
            lemma_transitions(out + c, s, i + 1);
            lemma_starts_more(text, out, c);
            assert(leads(text, i, t, source, target));
            assert(transition_shown(text, s, i));
        }
    }
}

/// The document of a state diagram shows every state, the pseudostates and every
/// transition, each from the cell it leaves to the cell it reaches.
pub proof fn law_state_cells(s: StateLayoutView<RectTextView, RouteTextView>)
    ensures
        document(SemanticLayoutView::State(s)) matches Ok(text) ==> {
            &&& forall|i: int|
                0 <= i < s.states.len() ==> holds(text, #[trigger] written_state(s.states, i))
            &&& s.initial matches Some(r) ==> holds(text, written_initial(r))
            &&& s.final_state matches Some(f) ==> holds(text, written_final(f))
            &&& forall|i: int|
                0 <= i < s.transitions.len() ==> #[trigger] transition_shown(text, s, i)
        },
{
    let ss = states(header(), s.states, s.states.len() as int);
    let ps = pseudostates(ss, s);
    lemma_states(header(), s.states, s.states.len() as int);
    lemma_pseudostates(ss, s);
    lemma_transitions(ps, s, 0);
    if let Ok(text) = document(SemanticLayoutView::State(s)) {
        lemma_starts_trans(text, ps, ss);
        assert forall|i: int| 0 <= i < s.states.len() implies holds(
            text,
            #[trigger] written_state(s.states, i),
        ) by {
            lemma_starts_holds(text, ss, written_state(s.states, i));
        }
        if let Some(r) = s.initial {
            lemma_starts_holds(text, ps, written_initial(r));
        }
        if let Some(f) = s.final_state {
            lemma_starts_holds(text, ps, written_final(f));
        }
    }
}

// ---------------------------------------------------------------------------
// Sequences
// ---------------------------------------------------------------------------

/// What stands above the name of a participant.
pub open spec fn participant_note(kind: ParticipantKind) -> Seq<char> {
    match kind {
        ParticipantKind::Default => ""@,
        ParticipantKind::Actor => "<i>«actor»</i><br>"@,
        ParticipantKind::Boundary => "<i>«boundary»</i><br>"@,
        ParticipantKind::Control => "<i>«control»</i><br>"@,
        ParticipantKind::Entity => "<i>«entity»</i><br>"@,
        ParticipantKind::Database => "<i>«database»</i><br>"@,
        ParticipantKind::Collections => "<i>«collections»</i><br>"@,
        ParticipantKind::Queue => "<i>«queue»</i><br>"@,
    }
}

proof fn lemma_participant_note(kind: ParticipantKind)
    ensures
        (match crate::excalidraw::sequence::stereotype(kind) {
            Some(st) => "<i>"@ + st + "</i><br>"@,
            None => Seq::empty(),
        }) == participant_note(kind),
{
    reveal_strlit("");
    reveal_strlit("<i>");
    reveal_strlit("</i><br>");
    reveal_strlit("«actor»");
    reveal_strlit("«boundary»");
    reveal_strlit("«control»");
    reveal_strlit("«entity»");
    reveal_strlit("«database»");
    reveal_strlit("«collections»");
    reveal_strlit("«queue»");
    reveal_strlit("<i>«actor»</i><br>");
    reveal_strlit("<i>«boundary»</i><br>");
    reveal_strlit("<i>«control»</i><br>");
    reveal_strlit("<i>«entity»</i><br>");
    reveal_strlit("<i>«database»</i><br>");
    reveal_strlit("<i>«collections»</i><br>");
    reveal_strlit("<i>«queue»</i><br>");
    assert((match crate::excalidraw::sequence::stereotype(kind) {
        Some(st) => "<i>"@ + st + "</i><br>"@,
        None => Seq::empty(),
    }) =~= participant_note(kind));
}

/// The participant at `i` as it is written.
pub open spec fn written_participant(
    ps: Seq<ParticipantLayoutView<ColumnTextView>>,
    i: int,
) -> Seq<char> {
    written_box(
        "n"@ + decimal(i),
        participant_note(ps[i].kind) + xml_text(ps[i].label),
        "shape=umlLifeline;perimeter=lifelinePerimeter;size="@ + ps[i].place.size
            + ";container=0;collapsible=0;whiteSpace=wrap;html=1;"@,
        "1"@,
        ps[i].place.rect,
    )
}

proof fn lemma_participants(out: Seq<char>, ps: Seq<ParticipantLayoutView<ColumnTextView>>, n: int)
    requires
        0 <= n <= ps.len(),
    ensures
        starts(participants(out, ps, n), out),
        forall|i: int|
            0 <= i < n ==> holds(participants(out, ps, n), #[trigger] written_participant(ps, i)),
    decreases n,
{
    if n > 0 {
        let before = participants(out, ps, n - 1);
        lemma_participants(out, ps, n - 1);
        let b = written_participant(ps, n - 1);
        let p = ps[n - 1];
        lemma_participant_note(p.kind);
        assert(participant_value(p.label, p.kind) =~= participant_note(p.kind) + xml_text(p.label));
        lemma_vertex(
            before,
            "n"@ + decimal(n - 1),
            participant_note(p.kind) + xml_text(p.label),
            "shape=umlLifeline;perimeter=lifelinePerimeter;size="@ + p.place.size
                + ";container=0;collapsible=0;whiteSpace=wrap;html=1;"@,
            "1"@,
            p.place.rect,
        );
        lemma_added(before, b);
        lemma_starts_trans(before + b, before, out);
        assert forall|i: int| 0 <= i < n implies holds(
            participants(out, ps, n),
            #[trigger] written_participant(ps, i),
        ) by {
            if i < n - 1 {
                lemma_holds_more(before, written_participant(ps, i), b);
            }
        }
    } else {
        lemma_starts_self(out, out);
    }
}

/// How a message looks: whether it is dashed, the heights at which it leaves and
/// arrives, and whether it has a head.
pub open spec fn message_look(m: MessageLayoutView<MessageTextView>) -> Seq<char> {
    "edgeStyle=none;html=1;"@ + (if m.line == LineStyle::Dashed {
        "dashed=1;"@
    } else {
        ""@
    }) + "exitX=0.5;exitY="@ + m.path.exit_y
        + ";exitDx=0;exitDy=0;exitPerimeter=0;entryX=0.5;entryY="@ + m.path.entry_y
        + ";entryDx=0;entryDy=0;entryPerimeter=0;"@ + (if m.arrow == ArrowType::Plain {
        "endArrow=none;"@
    } else {
        ""@
    })
}

proof fn lemma_message_look(m: MessageLayoutView<MessageTextView>)
    ensures
        message_style(m) == message_look(m),
{
    assert forall|s: Seq<char>| #[trigger] (s + ""@) == s by {
        reveal_strlit("");
        assert(s + ""@ =~= s);
    }
}

/// The label that stands on the line of a message: none where it leads back to its
/// sender.
pub open spec fn on_the_line(m: MessageLayoutView<MessageTextView>) -> Option<Seq<char>> {
    if m.from == m.to {
        None
    } else {
        m.label
    }
}

/// Whether the message at `i` is written, between the participants it names. The label
/// of one to itself is a cell of its own.
pub open spec fn message_shown(
    text: Seq<char>,
    s: SequenceLayoutView<ColumnTextView, MessageTextView>,
    i: int,
) -> bool {
    let m = s.messages[i];
    &&& exists|a: int, b: int|
        0 <= a < s.participants.len() && 0 <= b < s.participants.len() && s.participants[a].id
            == m.from && s.participants[b].id == m.to && #[trigger] joins(
            text,
            i,
            shown(on_the_line(m)),
            message_look(m),
            a,
            b,
            m.path.points,
        )
    &&& m.from == m.to && m.label is Some ==> holds(
        text,
        written_label(
            "e"@ + decimal(i) + "_label"@,
            shown(m.label),
            "e"@ + decimal(i),
            Seq::empty(),
        ),
    )
}

proof fn lemma_messages(
    out: Seq<char>,
    s: SequenceLayoutView<ColumnTextView, MessageTextView>,
    i: int,
)
    requires
        0 <= i <= s.messages.len(),
    ensures
        messages(out, s, i) matches Ok(text) ==> starts(text, out) && forall|j: int|
            i <= j < s.messages.len() ==> #[trigger] message_shown(text, s, j),
    decreases s.messages.len() - i,
{
    if i >= s.messages.len() {
        lemma_starts_self(out, footer());
    } else {
        let m = s.messages[i];
        lemma_key_from(s.participants, m.from, 0);
        lemma_key_from(s.participants, m.to, 0);
        if let Ok(text) = messages(out, s, i) {
            let a = key_index(s.participants, m.from)->0;
            let b = key_index(s.participants, m.to)->0;
            reveal_strlit("");
            assert(""@ =~= Seq::<char>::empty());
            lemma_shown(m.label);
            lemma_message_look(m);
            let value = shown(on_the_line(m));
            let (source, target) = ("n"@ + decimal(a), "n"@ + decimal(b));
            let id = "e"@ + decimal(i);
            let c = written_connector(id, value, message_look(m), source, target, m.path.points);
            lemma_connector(
                out,
                id,
                value,
                message_look(m),
                (source, target),
                m.path.points,
            );
            if m.from == m.to && m.label is Some {
                let l = written_label(id + "_label"@, shown(m.label), id, Seq::empty());
                lemma_edge_label(out + c, id + "_label"@, shown(m.label), id, Seq::empty());
                lemma_messages(out + c + l, s, i + 1);
                lemma_starts_more(text, out + c, l);
            } else {
                lemma_messages(out + c, s, i + 1);
            }
            lemma_starts_more(text, out, c);
            assert(joins(text, i, value, message_look(m), a, b, m.path.points));
            assert(message_shown(text, s, i));
        }
    }
}

/// The document of a sequence shows every participant and every message, each from its
/// sender to its receiver.
pub proof fn law_sequence_cells(s: SequenceLayoutView<ColumnTextView, MessageTextView>)
    ensures
        document(SemanticLayoutView::Sequence(s)) matches Ok(text) ==> {
            &&& forall|i: int|
                0 <= i < s.participants.len() ==> holds(
                    text,
                    #[trigger] written_participant(s.participants, i),
                )
            &&& forall|i: int|
                0 <= i < s.messages.len() ==> #[trigger] message_shown(text, s, i)
        },
{
    let ps = participants(header(), s.participants, s.participants.len() as int);
    lemma_participants(header(), s.participants, s.participants.len() as int);
    lemma_messages(ps, s, 0);
    if let Ok(text) = document(SemanticLayoutView::Sequence(s)) {
        assert forall|i: int| 0 <= i < s.participants.len() implies holds(
            text,
            #[trigger] written_participant(s.participants, i),
        ) by {
            lemma_starts_holds(text, ps, written_participant(s.participants, i));
        }
    }
}

// ---------------------------------------------------------------------------
// Class and entity-relationship diagrams
// ---------------------------------------------------------------------------

/// Rows below one another.
pub open spec fn written_rows(rows: Seq<Seq<char>>, n: int) -> Seq<char>
    decreases n,
{
    if n <= 0 {
        Seq::empty()
    } else if n == 1 {
        xml_text(rows[0])
    } else {
        written_rows(rows, n - 1) + "<br/>"@ + xml_text(rows[n - 1])
    }
}

/// The first `n` compartments, each below a rule.
pub open spec fn written_compartments(cs: Seq<CompartmentView>, n: int) -> Seq<char>
    decreases n,
{
    if n <= 0 {
        Seq::empty()
    } else {
        written_compartments(cs, n - 1) + ("<hr size=\"1\"/>"@ + written_rows(
            cs[n - 1].rows,
            cs[n - 1].rows.len() as int,
        ))
    }
}

/// What a box shows: its stereotype, where it has one, its title and its compartments.
pub open spec fn written_content(b: CompartmentBoxView<RectTextView>) -> Seq<char> {
    (match b.stereotype {
        Some(st) => "<div style=\"text-align:center\">&#171;"@ + xml_text(st) + "&#187;</div>"@,
        None => Seq::empty(),
    }) + "<div style=\"text-align:center\"><b>"@ + xml_text(b.title) + "</b></div>"@
        + written_compartments(b.compartments, b.compartments.len() as int)
}

proof fn lemma_rows(rows: Seq<Seq<char>>, n: int)
    requires
        0 <= n <= rows.len(),
    ensures
        join_first(escaped(rows), "<br/>"@, n) == written_rows(rows, n),
    decreases n,
{
    if n > 1 {
        lemma_rows(rows, n - 1);
    }
}

proof fn lemma_sections(out: Seq<char>, cs: Seq<CompartmentView>, n: int)
    requires
        0 <= n <= cs.len(),
    ensures
        sections(out, cs, n) == out + written_compartments(cs, n),
    decreases n,
{
    if n > 0 {
        lemma_sections(out, cs, n - 1);
        let rows = cs[n - 1].rows;
        lemma_rows(rows, rows.len() as int);
        let w = written_compartments(cs, n - 1);
        let t = written_rows(rows, rows.len() as int);
        let h = "<hr size=\"1\"/>"@;
        assert(out + w + h + t =~= out + (w + (h + t)));
    } else {
        assert(out + Seq::empty() =~= out);
    }
}

/// The box at `i` as it is written.
pub open spec fn written_class(bs: Seq<CompartmentBoxView<RectTextView>>, i: int) -> Seq<char> {
    written_box(
        "n"@ + decimal(i),
        xml_text(written_content(bs[i])),
        "rounded=1;whiteSpace=wrap;html=1;align=left;verticalAlign=top;spacingLeft=6;spacingTop=4;spacingBottom=4;"@,
        "1"@,
        bs[i].rect,
    )
}

proof fn lemma_class_boxes(out: Seq<char>, bs: Seq<CompartmentBoxView<RectTextView>>, n: int)
    requires
        0 <= n <= bs.len(),
    ensures
        starts(class_boxes(out, bs, n), out),
        forall|i: int|
            0 <= i < n ==> holds(class_boxes(out, bs, n), #[trigger] written_class(bs, i)),
    decreases n,
{
    if n > 0 {
        let before = class_boxes(out, bs, n - 1);
        lemma_class_boxes(out, bs, n - 1);
        let b = written_class(bs, n - 1);
        let x = bs[n - 1];
        let top = match x.stereotype {
            Some(st) => "<div style=\"text-align:center\">&#171;"@ + xml_text(st)
                + "&#187;</div>"@,
            None => Seq::empty(),
        };
        lemma_sections(
            top + "<div style=\"text-align:center\"><b>"@ + xml_text(x.title) + "</b></div>"@,
            x.compartments,
            x.compartments.len() as int,
        );
        lemma_vertex(
            before,
            "n"@ + decimal(n - 1),
            xml_text(written_content(x)),
            "rounded=1;whiteSpace=wrap;html=1;align=left;verticalAlign=top;spacingLeft=6;spacingTop=4;spacingBottom=4;"@,
            "1"@,
            x.rect,
        );
        lemma_added(before, b);
        lemma_starts_trans(before + b, before, out);
        assert forall|i: int| 0 <= i < n implies holds(
            class_boxes(out, bs, n),
            #[trigger] written_class(bs, i),
        ) by {
            if i < n - 1 {
                lemma_holds_more(before, written_class(bs, i), b);
            }
        }
    } else {
        lemma_starts_self(out, out);
    }
}

/// The head for a marker, and whether it is filled.
pub open spec fn head(m: EndMarker) -> (Seq<char>, int) {
    match m {
        EndMarker::Plain => ("none"@, 0),
        EndMarker::HollowTriangle => ("block"@, 0),
        EndMarker::OpenArrow => ("open"@, 0),
        EndMarker::FilledDiamond => ("diamond"@, 1),
        EndMarker::HollowDiamond => ("diamond"@, 0),
        EndMarker::ErOne => ("ERone"@, 0),
        EndMarker::ErMany => ("ERmany"@, 0),
        EndMarker::ErZeroOrOne => ("ERzeroToOne"@, 0),
        EndMarker::ErOneOrMany => ("ERoneToMany"@, 0),
        EndMarker::ErZeroOrMany => ("ERzeroToMany"@, 0),
    }
}

/// How a relation looks: whether it is dashed, the head of its first end at the start
/// and that of its second at the end.
pub open spec fn relation_look(r: RelationLayoutView<RouteTextView>) -> Seq<char> {
    "edgeStyle=none;html=1;"@ + (if r.line == LineStyle::Dashed {
        "dashed=1;"@
    } else {
        ""@
    }) + "startArrow="@ + head(r.from_marker).0 + ";startFill="@ + decimal(head(r.from_marker).1)
        + ";endArrow="@ + head(r.to_marker).0 + ";endFill="@ + decimal(head(r.to_marker).1) + ";"@
}

proof fn lemma_relation_look(r: RelationLayoutView<RouteTextView>)
    ensures
        relation_style(r) == relation_look(r),
{
    assert forall|s: Seq<char>| #[trigger] (s + ""@) == s by {
        reveal_strlit("");
        assert(s + ""@ =~= s);
    }
    assert(head(r.from_marker).0 == marker_arrow(r.from_marker).0);
    assert(head(r.to_marker).0 == marker_arrow(r.to_marker).0);
}

/// A multiplicity at one end of the connector at `i`, as it is written.
pub open spec fn written_multiplicity(
    i: int,
    side: Seq<char>,
    mult: Seq<char>,
    position: Seq<char>,
) -> Seq<char> {
    written_label("e"@ + decimal(i) + "-mult-"@ + side, xml_text(mult), "e"@ + decimal(i), position)
}

/// Whether the relation at `i` is written, between the boxes it names, with each
/// multiplicity at the end it belongs to.
pub open spec fn relation_shown(
    text: Seq<char>,
    l: ClassLayoutView<RectTextView, RouteTextView>,
    i: int,
) -> bool {
    let r = l.relations[i];
    &&& exists|s: int, t: int|
        0 <= s < l.boxes.len() && 0 <= t < l.boxes.len() && l.boxes[s].id == r.from && l.boxes[t].id
            == r.to && #[trigger] joins(
            text,
            i,
            shown(r.label),
            relation_look(r),
            s,
            t,
            r.path.points,
        )
    &&& r.from_mult matches Some(m) ==> holds(
        text,
        written_multiplicity(i, "from"@, m, "x=\"-1.00\" "@),
    )
    &&& r.to_mult matches Some(m) ==> holds(
        text,
        written_multiplicity(i, "to"@, m, "x=\"1.00\" "@),
    )
}

/// What a multiplicity adds to a text.
pub open spec fn added_multiplicity(
    i: int,
    side: Seq<char>,
    mult: Option<Seq<char>>,
    position: Seq<char>,
) -> Seq<char> {
    match mult {
        Some(m) => written_multiplicity(i, side, m, position),
        None => Seq::empty(),
    }
}

proof fn lemma_multiplicity(
    out: Seq<char>,
    i: int,
    side: Seq<char>,
    mult: Option<Seq<char>>,
    position: Seq<char>,
)
    ensures
        multiplicity(out, "e"@ + decimal(i), side, mult, position) == out + added_multiplicity(
            i,
            side,
            mult,
            position,
        ),
{
    match mult {
        Some(m) => {
            let e = "e"@ + decimal(i);
            lemma_edge_label(out, e + "-mult-"@ + side, xml_text(m), e, position);
        },
        None => {
            assert(out + Seq::empty() =~= out);
        },
    }
}

proof fn lemma_relations(out: Seq<char>, l: ClassLayoutView<RectTextView, RouteTextView>, i: int)
    requires
        0 <= i <= l.relations.len(),
    ensures
        relations(out, l, i) matches Ok(text) ==> starts(text, out) && forall|j: int|
            i <= j < l.relations.len() ==> #[trigger] relation_shown(text, l, j),
    decreases l.relations.len() - i,
{
    if i >= l.relations.len() {
        lemma_starts_self(out, footer());
    } else {
        let r = l.relations[i];
        lemma_key_from(l.boxes, r.from, 0);
        lemma_key_from(l.boxes, r.to, 0);
        if let Ok(text) = relations(out, l, i) {
            let s = key_index(l.boxes, r.from)->0;
            let t = key_index(l.boxes, r.to)->0;
            lemma_shown(r.label);
            lemma_relation_look(r);
            let (source, target) = ("n"@ + decimal(s), "n"@ + decimal(t));
            let id = "e"@ + decimal(i);
            let c = written_connector(
                id,
                shown(r.label),
                relation_look(r),
                source,
                target,
                r.path.points,
            );
            lemma_connector(
                out,
                id,
                shown(r.label),
                relation_look(r),
                (source, target),
                r.path.points,
            );
            let a = added_multiplicity(i, "from"@, r.from_mult, "x=\"-1.00\" "@);
            let b = added_multiplicity(i, "to"@, r.to_mult, "x=\"1.00\" "@);
            lemma_multiplicity(out + c, i, "from"@, r.from_mult, "x=\"-1.00\" "@);
            lemma_multiplicity(out + c + a, i, "to"@, r.to_mult, "x=\"1.00\" "@);
            lemma_relations(out + c + a + b, l, i + 1);
            lemma_starts_more(text, out + c + a, b);
            lemma_starts_more(text, out + c, a);
            lemma_starts_more(text, out, c);
            assert(joins(text, i, shown(r.label), relation_look(r), s, t, r.path.points));
            assert(relation_shown(text, l, i));
        }
    }
}

/// The document of a class diagram or of an entity-relationship diagram shows every box
/// with all it holds, and every relation between the boxes it names.
pub proof fn law_class_cells(l: ClassLayoutView<RectTextView, RouteTextView>)
    ensures
        document(SemanticLayoutView::Er(l)) == document(SemanticLayoutView::Class(l)),
        document(SemanticLayoutView::Class(l)) matches Ok(text) ==> {
            &&& forall|i: int|
                0 <= i < l.boxes.len() ==> holds(text, #[trigger] written_class(l.boxes, i))
            &&& forall|i: int|
                0 <= i < l.relations.len() ==> #[trigger] relation_shown(text, l, i)
        },
{
    let bs = class_boxes(header(), l.boxes, l.boxes.len() as int);
    lemma_class_boxes(header(), l.boxes, l.boxes.len() as int);
    lemma_relations(bs, l, 0);
    if let Ok(text) = document(SemanticLayoutView::Class(l)) {
        assert forall|i: int| 0 <= i < l.boxes.len() implies holds(
            text,
            #[trigger] written_class(l.boxes, i),
        ) by {
            lemma_starts_holds(text, bs, written_class(l.boxes, i));
        }
    }
}

} // verus!
