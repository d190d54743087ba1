//! Graphs.
use crate::excalidraw::elements::{
    add_bound_element, arrow, bind, link, make_arrow, make_rect_with_roundness, make_text,
    make_text_aligned, rect, text, text_aligned, ArrowExtra, ArrowExtraView, BoundElementRef,
    Element, ElementView, Place,
};
use crate::excalidraw::{scene_view, RenderError, RenderErrorView, SceneView};
use crate::ir::{key_index, position, ArrowType, LineStyle, LineWeight, NodeKind};
use crate::layout::{
    ContainerLayout, ContainerLayoutView, EdgeLayout, EdgeLayoutView, GraphLayout,
    GraphLayoutView, NodeLayout, NodeLayoutView,
};
use crate::text::{concat, decimal, lemma_views_push, numbered, opt_view, views};
use vstd::prelude::*;

verus! {

/// The id of the box at `i`.
pub open spec fn box_id(i: int) -> Seq<char> {
    "n"@ + decimal(i)
}

/// The id of the path at `i`.
pub open spec fn path_id(i: int) -> Seq<char> {
    "e"@ + decimal(i)
}

/// A box with its label bound to it.
pub open spec fn labelled_box(
    out: Seq<ElementView>,
    i: int,
    shape: ElementView,
    label: Seq<char>,
) -> Seq<ElementView> {
    let label_id = box_id(i) + "-text"@;
    out.push(
        ElementView { bound_elements: Some(seq![link(label_id, "text"@)]), ..shape },
    ).push(text(label_id, Some(box_id(i)), label, Place::BoxLabel(i as usize)))
}

/// Adds a box with its label bound to it.
pub fn push_labelled_box(out: &mut Vec<Element>, i: usize, shape: Element, label: &String)
    ensures
        views(final(out)@) == labelled_box(views(old(out)@), i as int, shape@, label@),
{
    broadcast use lemma_views_push;

    let id = numbered("n", i);
    let label_id = concat(id.as_str(), "-text");
    let mut shape = shape;
    let mut bound: Vec<BoundElementRef> = Vec::new();
    bound.push(BoundElementRef { id: label_id.clone(), kind: "text" });
    assert(views(bound@) =~= seq![link(label_id@, "text"@)]);
    shape.bound_elements = Some(bound);
    out.push(shape);
    out.push(make_text(label_id, Some(id), label.as_str(), Place::BoxLabel(i)));
}

/// The label of the path at `i`, bound to it.
pub open spec fn path_label(out: Seq<ElementView>, i: int, label: Option<Seq<char>>) -> Seq<
    ElementView,
> {
    match label {
        Some(l) => {
            let label_id = path_id(i) + "-text"@;
            bind(
                out.push(text(label_id, Some(path_id(i)), l, Place::PathLabel(i as usize))),
                path_id(i),
                link(label_id, "text"@),
            )
        },
        None => out,
    }
}

/// Adds the label of the path at `i`, bound to it.
pub fn push_path_label(out: &mut Vec<Element>, i: usize, label: &Option<String>)
    ensures
        views(final(out)@) == path_label(views(old(out)@), i as int, opt_view(*label)),
{
    broadcast use lemma_views_push;

    match label {
        Some(l) => {
            let id = numbered("e", i);
            let label_id = concat(id.as_str(), "-text");
            out.push(
                make_text(label_id.clone(), Some(id.clone()), l.as_str(), Place::PathLabel(i)),
            );
            add_bound_element(out, &id, BoundElementRef { id: label_id, kind: "text" });
        },
        None => {},
    }
}

/// The path at `i` as an arrow that is bound to the elements at its ends.
pub open spec fn bound_path(
    out: Seq<ElementView>,
    i: int,
    source: Seq<char>,
    target: Seq<char>,
    heads: (Option<Seq<char>>, Option<Seq<char>>),
    style: Seq<char>,
    width: u8,
) -> Seq<ElementView> {
    let a = arrow(
        path_id(i),
        Place::Path(i as usize),
        ArrowExtraView {
            start_binding: Some(source),
            end_binding: Some(target),
            start_arrowhead: heads.0,
            end_arrowhead: heads.1,
        },
        style,
        width,
    );
    bind(
        bind(out.push(a), source, link(path_id(i), "arrow"@)),
        target,
        link(path_id(i), "arrow"@),
    )
}

/// Adds the path at `i` as an arrow that is bound to the elements at its ends.
pub fn push_bound_path(
    out: &mut Vec<Element>,
    i: usize,
    source: String,
    target: String,
    heads: (Option<&'static str>, Option<&'static str>),
    style: &'static str,
    width: u8,
)
    ensures
        views(final(out)@) == bound_path(
            views(old(out)@),
            i as int,
            source@,
            target@,
            (opt_view(heads.0), opt_view(heads.1)),
            style@,
            width,
        ),
{
    broadcast use lemma_views_push;

    let id = numbered("e", i);
    out.push(
        make_arrow(
            id.clone(),
            Place::Path(i),
            ArrowExtra {
                start_binding: Some(source.clone()),
                end_binding: Some(target.clone()),
                start_arrowhead: heads.0,
                end_arrowhead: heads.1,
            },
            style,
            width,
        ),
    );
    add_bound_element(out, &source, BoundElementRef { id: id.clone(), kind: "arrow" });
    add_bound_element(out, &target, BoundElementRef { id, kind: "arrow" });
}

// ---------------------------------------------------------------------------
// Containers
// ---------------------------------------------------------------------------

/// The container at `i`: a dashed rectangle, and its label where it has one.
pub open spec fn container<RV>(out: Seq<ElementView>, i: int, c: ContainerLayoutView<RV>) -> Seq<
    ElementView,
> {
    let id = "c"@ + decimal(i);
    let framed = out.push(
        ElementView {
            stroke_style: "dashed"@,
            ..rect(id, Place::Container(i as usize), None)
        },
    );
    match c.label {
        Some(l) => framed.push(
            text_aligned(
                id + "-label"@,
                None,
                l,
                Place::ContainerLabel(i as usize),
                "left"@,
                "top"@,
            ),
        ),
        None => framed,
    }
}

/// The first `n` containers.
pub open spec fn containers<RV>(cs: Seq<ContainerLayoutView<RV>>, n: int) -> Seq<ElementView>
    decreases n,
{
    if n <= 0 {
        Seq::empty()
    } else {
        container(containers(cs, n - 1), n - 1, cs[n - 1])
    }
}

fn push_container<R: View>(out: &mut Vec<Element>, i: usize, c: &ContainerLayout<R>)
    ensures
        views(final(out)@) == container(views(old(out)@), i as int, c@),
{
    broadcast use lemma_views_push;

    let id = numbered("c", i);
    let mut frame = make_rect_with_roundness(id.clone(), Place::Container(i), None);
    frame.stroke_style = "dashed";
    out.push(frame);
    match &c.label {
        Some(l) => {
            out.push(
                make_text_aligned(
                    concat(id.as_str(), "-label"),
                    None,
                    l.as_str(),
                    Place::ContainerLabel(i),
                    "left",
                    "top",
                ),
            );
        },
        None => {},
    }
}

// ---------------------------------------------------------------------------
// Nodes
// ---------------------------------------------------------------------------

/// The kind of the element that shows a node.
pub open spec fn node_shape(kind: NodeKind) -> Seq<char> {
    match kind {
        NodeKind::Circle => "ellipse"@,
        NodeKind::Diamond => "diamond"@,
        _ => "rectangle"@,
    }
}

/// How the corners of a node are rounded.
pub open spec fn node_roundness(kind: NodeKind) -> Option<u8> {
    match kind {
        NodeKind::Default => Some(3u8),
        NodeKind::RoundedRectangle => Some(3u8),
        _ => None,
    }
}

/// The first `n` nodes after the elements `out`.
pub open spec fn nodes<RV>(out: Seq<ElementView>, ns: Seq<NodeLayoutView<RV>>, n: int) -> Seq<
    ElementView,
>
    decreases n,
{
    if n <= 0 {
        out
    } else {
        let node = ns[n - 1];
        labelled_box(
            nodes(out, ns, n - 1),
            n - 1,
            ElementView {
                kind: node_shape(node.kind),
                ..rect(box_id(n - 1), Place::Box((n - 1) as usize), node_roundness(node.kind))
            },
            node.label,
        )
    }
}

fn push_node<R: View>(out: &mut Vec<Element>, i: usize, node: &NodeLayout<R>)
    ensures
        views(final(out)@) == labelled_box(
            views(old(out)@),
            i as int,
            (ElementView {
                kind: node_shape(node.kind),
                ..rect(box_id(i as int), Place::Box(i), node_roundness(node.kind))
            }),
            node.label@,
        ),
{
    let (kind, roundness): (&'static str, Option<u8>) = match node.kind {
        NodeKind::Default => ("rectangle", Some(3)),
        NodeKind::RoundedRectangle => ("rectangle", Some(3)),
        NodeKind::Rectangle => ("rectangle", None),
        NodeKind::Circle => ("ellipse", None),
        NodeKind::Diamond => ("diamond", None),
    };
    let mut shape = make_rect_with_roundness(numbered("n", i), Place::Box(i), roundness);
    shape.kind = kind;
    push_labelled_box(out, i, shape, &node.label);
}

// ---------------------------------------------------------------------------
// Edges
// ---------------------------------------------------------------------------

/// The error about a box that is not there.
pub open spec fn dangling(id: Seq<char>) -> SceneView {
    Err(RenderErrorView::DanglingEdge { node_id: id })
}

/// How the line of an edge is drawn.
pub open spec fn edge_style(line: LineStyle) -> Seq<char> {
    match line {
        LineStyle::Dashed => "dashed"@,
        LineStyle::Dotted => "dotted"@,
        LineStyle::Solid => "solid"@,
    }
}

/// The heads of an edge.
pub open spec fn edge_heads<CV>(e: EdgeLayoutView<CV>) -> (Option<Seq<char>>, Option<Seq<char>>) {
    (
        if e.from_arrow == ArrowType::Plain {
            None
        } else {
            Some("arrow"@)
        },
        if e.arrow == ArrowType::Plain {
            None
        } else {
            Some("triangle"@)
        },
    )
}

/// The edge at `i`, between the boxes at `source` and `target`.
pub open spec fn edge<CV>(
    out: Seq<ElementView>,
    i: int,
    source: int,
    target: int,
    e: EdgeLayoutView<CV>,
) -> Seq<ElementView> {
    path_label(
        bound_path(
            out,
            i,
            box_id(source),
            box_id(target),
            edge_heads(e),
            edge_style(e.line),
            if e.weight == LineWeight::Thick {
                2
            } else {
                1
            },
        ),
        i,
        e.label,
    )
}

/// The edges from `i` on after the elements `out`.
pub open spec fn edges<RV, CV>(out: Seq<ElementView>, g: GraphLayoutView<RV, CV>, i: int) -> SceneView
    decreases g.edges.len() - i,
{
    if i >= g.edges.len() {
        Ok(out)
    } else {
        let e = g.edges[i];
        match key_index(g.nodes, e.from) {
            Some(source) => match key_index(g.nodes, e.to) {
                Some(target) => edges(edge(out, i, source, target, e), g, i + 1),
                None => dangling(e.to),
            },
            None => dangling(e.from),
        }
    }
}

/// The elements of a graph: its containers, its nodes and its edges.
pub open spec fn graph_scene<RV, CV>(g: GraphLayoutView<RV, CV>) -> SceneView {
    edges(
        nodes(containers(g.containers, g.containers.len() as int), g.nodes, g.nodes.len() as int),
        g,
        0,
    )
}

fn push_edge<C: View>(
    out: &mut Vec<Element>,
    i: usize,
    source: usize,
    target: usize,
    e: &EdgeLayout<C>,
)
    ensures
        views(final(out)@) == edge(
            views(old(out)@),
            i as int,
            source as int,
            target as int,
            e@,
        ),
{
    let start: Option<&'static str> = if e.from_arrow == ArrowType::Plain {
        None
    } else {
        Some("arrow")
    };
    let end: Option<&'static str> = if e.arrow == ArrowType::Plain {
        None
    } else {
        Some("triangle")
    };
    let style: &'static str = match e.line {
        LineStyle::Dashed => "dashed",
        LineStyle::Dotted => "dotted",
        LineStyle::Solid => "solid",
    };
    let width: u8 = if e.weight == LineWeight::Thick {
        2
    } else {
        1
    };
    push_bound_path(
        out,
        i,
        numbered("n", source),
        numbered("n", target),
        (start, end),
        style,
        width,
    );
    push_path_label(out, i, &e.label);
}

/// The error about a box that is not there.
pub fn dangling_error(id: &String) -> (r: RenderError)
    ensures
        Err::<Seq<ElementView>, RenderErrorView>(r@) == dangling(id@),
{
    RenderError::DanglingEdge { node_id: id.clone() }
}

/// The elements of a graph.
pub fn render_graph<R: View, C: View>(g: &GraphLayout<R, C>) -> (r: Result<
    Vec<Element>,
    RenderError,
>)
    ensures
        scene_view(r) == graph_scene(g@),
{
    let ghost m = g@;
    let mut out: Vec<Element> = Vec::new();
    assert(views(out@) =~= Seq::<ElementView>::empty());
    let mut j: usize = 0;
    while j < g.containers.len()
        invariant
            j <= g.containers@.len(),
            m == g@,
            views(out@) == containers(m.containers, j as int),
        decreases g.containers@.len() - j,
    {
        push_container(&mut out, j, &g.containers[j]);
        j = j + 1;
    }
    let ghost framed = views(out@);
    let mut k: usize = 0;
    while k < g.nodes.len()
        invariant
            k <= g.nodes@.len(),
            m == g@,
            views(out@) == nodes(framed, m.nodes, k as int),
        decreases g.nodes@.len() - k,
    {
        push_node(&mut out, k, &g.nodes[k]);
        k = k + 1;
    }
    let mut i: usize = 0;
    while i < g.edges.len()
        invariant
            i <= g.edges@.len(),
            m == g@,
            graph_scene(m) == edges(views(out@), m, i as int),
        decreases g.edges@.len() - i,
    {
        let e = &g.edges[i];
        assert(m.edges[i as int] == e@);
        let source: usize = match position(g.nodes.as_slice(), &e.from) {
            Some(k) => k,
            None => {
                return Err(dangling_error(&e.from));
            },
        };
        let target: usize = match position(g.nodes.as_slice(), &e.to) {
            Some(k) => k,
            None => {
                return Err(dangling_error(&e.to));
            },
        };
        push_edge(&mut out, i, source, target, e);
        i = i + 1;
    }
    Ok(out)
}

} // verus!
