//! Graphs.
use crate::drawio::{
    box_id, connector, connector_id, dangling, dangling_error, escape_label, footer, header,
    label_value, mxfile_footer, mxfile_header, push_connector, push_vertex, text_view, vertex,
    xml_escape, RectText, RectTextView, RenderError, RenderErrorView, RouteText, RouteTextView,
    TextView,
};
use crate::escape::xml_text;
use crate::ir::{has_key, key_index, position, ArrowType, LineStyle, LineWeight, NodeKind, Port};
use crate::layout::{
    graph_connected, ContainerLayoutView, GraphLayout, GraphLayoutView, NodeLayout, NodeLayoutView,
};
use crate::text::{concat, decimal, numbered};
use vstd::prelude::*;

verus! {

// ---------------------------------------------------------------------------
// Containers and nodes
// ---------------------------------------------------------------------------

/// The style of a container: a dashed frame behind everything else.
pub open spec fn container_style() -> Seq<char> {
    "rounded=0;dashed=1;fillColor=none;verticalAlign=top;align=left;spacingLeft=6;spacingTop=4;html=1;"@
}

/// The first `n` containers after the text `out`.
pub open spec fn containers(
    out: Seq<char>,
    cs: Seq<ContainerLayoutView<RectTextView>>,
    n: int,
) -> Seq<char>
    decreases n,
{
    if n <= 0 {
        out
    } else {
        vertex(
            containers(out, cs, n - 1),
            "c"@ + decimal(n - 1),
            label_value(cs[n - 1].label),
            container_style(),
            "1"@,
            cs[n - 1].rect,
        )
    }
}

/// The shape of a node.
pub open spec fn node_shape(kind: NodeKind) -> Seq<char> {
    match kind {
        NodeKind::Default => "rounded=1"@,
        NodeKind::RoundedRectangle => "rounded=1"@,
        NodeKind::Rectangle => "rounded=0"@,
        NodeKind::Circle => "ellipse"@,
        NodeKind::Diamond => "rhombus"@,
    }
}

/// The first `n` nodes after the text `out`.
pub open spec fn nodes(out: Seq<char>, ns: Seq<NodeLayoutView<RectTextView>>, n: int) -> Seq<char>
    decreases n,
{
    if n <= 0 {
        out
    } else {
        vertex(
            nodes(out, ns, n - 1),
            box_id(n - 1),
            xml_text(ns[n - 1].label),
            node_shape(ns[n - 1].kind) + ";whiteSpace=wrap;html=1;"@,
            "1"@,
            ns[n - 1].rect,
        )
    }
}

fn push_node(out: &mut String, i: usize, node: &NodeLayout<RectText>)
    ensures
        final(out)@ == vertex(
            old(out)@,
            box_id(i as int),
            xml_text(node.label@),
            node_shape(node.kind) + ";whiteSpace=wrap;html=1;"@,
            "1"@,
            node.rect@,
        ),
{
    let shape: &'static str = match node.kind {
        NodeKind::Default => "rounded=1",
        NodeKind::RoundedRectangle => "rounded=1",
        NodeKind::Rectangle => "rounded=0",
        NodeKind::Circle => "ellipse",
        NodeKind::Diamond => "rhombus",
    };
    let id = numbered("n", i);
    let value = xml_escape(node.label.as_str());
    let style = concat(shape, ";whiteSpace=wrap;html=1;");
    push_vertex(out, id.as_str(), value.as_str(), style.as_str(), "1", &node.rect);
}

// ---------------------------------------------------------------------------
// Edges
// ---------------------------------------------------------------------------

/// Where on a side a port is: across and down.
pub open spec fn port_position(port: Port) -> (Seq<char>, Seq<char>) {
    match port {
        Port::North => ("0.5"@, "0"@),
        Port::East => ("1"@, "0.5"@),
        Port::South => ("0.5"@, "1"@),
        Port::West => ("0"@, "0.5"@),
    }
}

/// The style that attaches one end of an edge to a port.
pub open spec fn port_style(prefix: Seq<char>, port: Port) -> Seq<char> {
    prefix + "X="@ + port_position(port).0 + ";"@ + prefix + "Y="@ + port_position(port).1 + ";"@
        + prefix + "Dx=0;"@ + prefix + "Dy=0;"@
}

/// The style that attaches one end of an edge to a port.
pub fn port_exit_entry(prefix: &str, port: Port) -> (r: String)
    ensures
        r@ == port_style(prefix@, port),
{
    let (x, y): (&'static str, &'static str) = match port {
        Port::North => ("0.5", "0"),
        Port::East => ("1", "0.5"),
        Port::South => ("0.5", "1"),
        Port::West => ("0", "0.5"),
    };
    let mut out = String::from_str(prefix);
    out.append("X=");
    out.append(x);
    out.append(";");
    out.append(prefix);
    out.append("Y=");
    out.append(y);
    out.append(";");
    out.append(prefix);
    out.append("Dx=0;");
    out.append(prefix);
    out.append("Dy=0;");
    out
}

/// The style with the one that attaches an end to a port, where there is one.
pub open spec fn with_port(style: Seq<char>, prefix: Seq<char>, port: Option<Port>) -> Seq<char> {
    match port {
        Some(p) => style + port_style(prefix, p),
        None => style,
    }
}

/// The style of an edge. What is as usual is not mentioned.
pub open spec fn edge_style(
    arrow: ArrowType,
    from_arrow: ArrowType,
    line: LineStyle,
    weight: LineWeight,
    from_port: Option<Port>,
    to_port: Option<Port>,
) -> Seq<char> {
    let plain = "edgeStyle=orthogonalEdgeStyle;"@;
    let ended = if arrow == ArrowType::Plain {
        plain + "endArrow=none;"@
    } else {
        plain
    };
    let started = if from_arrow == ArrowType::Triangle {
        ended + "startArrow=classic;"@
    } else {
        ended
    };
    let lined = match line {
        LineStyle::Solid => started,
        LineStyle::Dashed => started + "dashed=1;"@,
        LineStyle::Dotted => started + "dashed=1;dashPattern=1 4;"@,
    };
    let weighted = match weight {
        LineWeight::Normal => lined,
        LineWeight::Thick => lined + "strokeWidth=3;"@,
    };
    with_port(with_port(weighted, "exit"@, from_port), "entry"@, to_port)
}

/// The style of an edge.
pub fn graph_edge_style(
    arrow: ArrowType,
    from_arrow: ArrowType,
    line: LineStyle,
    weight: LineWeight,
    from_port: Option<Port>,
    to_port: Option<Port>,
) -> (r: String)
    ensures
        r@ == edge_style(arrow, from_arrow, line, weight, from_port, to_port),
{
    let mut style = String::from_str("edgeStyle=orthogonalEdgeStyle;");
    if arrow == ArrowType::Plain {
        style.append("endArrow=none;");
    }
    if from_arrow == ArrowType::Triangle {
        style.append("startArrow=classic;");
    }
    match line {
        LineStyle::Solid => {},
        LineStyle::Dashed => {
            style.append("dashed=1;");
        },
        LineStyle::Dotted => {
            style.append("dashed=1;dashPattern=1 4;");
        },
    }
    match weight {
        LineWeight::Normal => {},
        LineWeight::Thick => {
            style.append("strokeWidth=3;");
        },
    }
    match from_port {
        Some(p) => {
            let s = port_exit_entry("exit", p);
            style.append(s.as_str());
        },
        None => {},
    }
    match to_port {
        Some(p) => {
            let s = port_exit_entry("entry", p);
            style.append(s.as_str());
        },
        None => {},
    }
    style
}

/// The edges from `i` on after the text `out`, and the end of the document.
pub open spec fn edges(
    out: Seq<char>,
    g: GraphLayoutView<RectTextView, RouteTextView>,
    i: int,
) -> TextView
    decreases g.edges.len() - i,
{
    if i >= g.edges.len() {
        Ok(out + footer())
    } else {
        let e = g.edges[i];
        match key_index(g.nodes, e.from) {
            Some(source) => match key_index(g.nodes, e.to) {
                Some(target) => edges(
                    connector(
                        out,
                        connector_id(i),
                        label_value(e.label),
                        edge_style(
                            e.arrow,
                            e.from_arrow,
                            e.line,
                            e.weight,
                            e.from_port,
                            e.to_port,
                        ),
                        (box_id(source), box_id(target)),
                        e.path.points,
                    ),
                    g,
                    i + 1,
                ),
                None => dangling(e.to),
            },
            None => dangling(e.from),
        }
    }
}

/// The document of a graph: its containers, its nodes and its edges.
pub open spec fn graph_document(g: GraphLayoutView<RectTextView, RouteTextView>) -> TextView {
    edges(
        nodes(
            containers(header(), g.containers, g.containers.len() as int),
            g.nodes,
            g.nodes.len() as int,
        ),
        g,
        0,
    )
}

/// The document of a graph.
pub fn render_graph(g: &GraphLayout<RectText, RouteText>) -> (r: Result<String, RenderError>)
    ensures
        text_view(r) == graph_document(g@),
{
    let ghost v = g@;
    let mut out = mxfile_header();
    let mut j: usize = 0;
    while j < g.containers.len()
        invariant
            j <= g.containers@.len(),
            v == g@,
            out@ == containers(header(), v.containers, j as int),
        decreases g.containers@.len() - j,
    {
        let c = &g.containers[j];
        assert(v.containers[j as int] == c@);
        let id = numbered("c", j);
        let value = escape_label(&c.label);
        push_vertex(
            &mut out,
            id.as_str(),
            value.as_str(),
            "rounded=0;dashed=1;fillColor=none;verticalAlign=top;align=left;spacingLeft=6;spacingTop=4;html=1;",
            "1",
            &c.rect,
        );
        j = j + 1;
    }
    let ghost framed = out@;
    let mut k: usize = 0;
    while k < g.nodes.len()
        invariant
            k <= g.nodes@.len(),
            v == g@,
            out@ == nodes(framed, v.nodes, k as int),
        decreases g.nodes@.len() - k,
    {
        push_node(&mut out, k, &g.nodes[k]);
        k = k + 1;
    }
    let mut i: usize = 0;
    while i < g.edges.len()
        invariant
            i <= g.edges@.len(),
            v == g@,
            graph_document(v) == edges(out@, v, i as int),
        decreases g.edges@.len() - i,
    {
        let e = &g.edges[i];
        assert(v.edges[i as int] == e@);
        let source: usize = match position(g.nodes.as_slice(), &e.from) {
            Some(k) => k,
            None => {
                return Err(dangling_error(&e.from));
            },
        };
        let target: usize = match position(g.nodes.as_slice(), &e.to) {
            Some(k) => k,
            None => {
                return Err(dangling_error(&e.to));
            },
        };
        let id = numbered("e", i);
        let value = escape_label(&e.label);
        let style = graph_edge_style(
            e.arrow,
            e.from_arrow,
            e.line,
            e.weight,
            e.from_port,
            e.to_port,
        );
        let source_id = numbered("n", source);
        let target_id = numbered("n", target);
        push_connector(
            &mut out,
            id.as_str(),
            value.as_str(),
            style.as_str(),
            (source_id.as_str(), target_id.as_str()),
            &e.path.points,
        );
        i = i + 1;
    }
    out.append(mxfile_footer());
    Ok(out)
}

proof fn lemma_edges(
    out: Seq<char>,
    g: GraphLayoutView<RectTextView, RouteTextView>,
    i: int,
)
    requires
        0 <= i <= g.edges.len(),
        forall|k: int|
            0 <= k < i ==> has_key(g.nodes, (#[trigger] g.edges[k]).from) && has_key(
                g.nodes,
                g.edges[k].to,
            ),
    ensures
        edges(out, g, i) is Ok <==> graph_connected(g),
        edges(out, g, i) matches Err(e) ==> (e matches RenderErrorView::DanglingEdge { node_id }
            && !has_key(g.nodes, node_id)),
    decreases g.edges.len() - i,
{
    if i < g.edges.len() {
        let e = g.edges[i];
        if let Some(source) = key_index(g.nodes, e.from) {
            if let Some(target) = key_index(g.nodes, e.to) {
                lemma_edges(
                    connector(
                        out,
                        connector_id(i),
                        label_value(e.label),
                        edge_style(
                            e.arrow,
                            e.from_arrow,
                            e.line,
                            e.weight,
                            e.from_port,
                            e.to_port,
                        ),
                        (box_id(source), box_id(target)),
                        e.path.points,
                    ),
                    g,
                    i + 1,
                );
            }
        }
    }
}

/// A graph is shown exactly if both ends of every edge are nodes. Otherwise the
/// error names an end that is none.
pub proof fn law_connected_graphs_are_shown(g: GraphLayoutView<RectTextView, RouteTextView>)
    ensures
        graph_document(g) is Ok <==> graph_connected(g),
        graph_document(g) matches Err(e) ==> (e matches RenderErrorView::DanglingEdge { node_id }
            && !has_key(g.nodes, node_id)),
{
    lemma_edges(
        nodes(
            containers(header(), g.containers, g.containers.len() as int),
            g.nodes,
            g.nodes.len() as int,
        ),
        g,
        0,
    );
}

} // verus!
