//! What the scenes show.
use crate::excalidraw::class::{
    class_boxes, class_scene, multiplicity, relation, relations, sections,
};
use crate::excalidraw::elements::{
    bind, link, ArrowExtraView, BoundElementRefView, ElementView, ExtraView, Place, TextExtraView,
};
use crate::excalidraw::{exported, seeded};
use crate::excalidraw::graph::{
    bound_path, containers, edge_heads, edge_style, edges, graph_scene, labelled_box, nodes,
    path_label,
};
use crate::excalidraw::sequence::{message, messages, participants, sequence_scene};
use crate::excalidraw::state::{endpoint_id, pseudostates, state_scene, states, transitions};
use crate::ir::{
    key_index, lemma_key_from, ArrowType, EndMarker, EndpointView, LineStyle, LineWeight,
    NodeKind, ParticipantKind,
};
use crate::layout::{
    ClassLayoutView, CompartmentBoxView, CompartmentView, ContainerLayoutView, EdgeLayoutView,
    GraphLayoutView, MessageLayoutView, NodeLayoutView, ParticipantLayoutView, RelationLayoutView,
    SemanticLayoutView, SequenceLayoutView, StateBoxView, StateLayoutView,
};
use crate::text::{decimal, join_first};
use vstd::prelude::*;

verus! {

// ---------------------------------------------------------------------------
// Elements
// ---------------------------------------------------------------------------

/// Whether `b` is `a`, but for what is bound to it and for its seed.
pub open spec fn looks(a: ElementView, b: ElementView) -> bool {
    b == (ElementView { bound_elements: b.bound_elements, seed: b.seed, ..a })
}

/// Whether a scene shows the element `e`.
pub open spec fn shows(scene: Seq<ElementView>, e: ElementView) -> bool {
    exists|k: int| 0 <= k < scene.len() && looks(e, #[trigger] scene[k])
}

/// Whether `b` shows what `a` does, in the same order, and may show more behind it.
spec fn extends(a: Seq<ElementView>, b: Seq<ElementView>) -> bool {
    a.len() <= b.len() && forall|k: int| 0 <= k < a.len() ==> looks(a[k], #[trigger] b[k])
}

proof fn lemma_extends(a: Seq<ElementView>, b: Seq<ElementView>, c: Seq<ElementView>)
    requires
        extends(a, b),
        extends(b, c),
    ensures
        extends(a, c),
{
    assert forall|k: int| 0 <= k < a.len() implies looks(a[k], #[trigger] c[k]) by {
        assert(looks(a[k], b[k]));
    }
}

proof fn lemma_shows(a: Seq<ElementView>, b: Seq<ElementView>, e: ElementView)
    requires
        extends(a, b),
        shows(a, e),
    ensures
        shows(b, e),
{
    let k = choose|k: int| 0 <= k < a.len() && looks(e, #[trigger] a[k]);
    assert(looks(a[k], b[k]));
}

proof fn lemma_pushed(out: Seq<ElementView>, e: ElementView, drawn: ElementView)
    requires
        looks(e, drawn),
    ensures
        extends(out, out.push(drawn)),
        shows(out.push(drawn), e),
{
    assert(out.push(drawn)[out.len() as int] == drawn);
}

proof fn lemma_bound(out: Seq<ElementView>, owner: Seq<char>, r: BoundElementRefView)
    ensures
        extends(out, bind(out, owner, r)),
{
    lemma_key_from(out, owner, 0);
}

/// An element as it usually looks.
pub open spec fn usual(id: Seq<char>, kind: Seq<char>, place: Place, extra: ExtraView) -> ElementView {
    ElementView {
        id,
        kind,
        place,
        stroke_color: "#1e1e1e"@,
        background_color: "transparent"@,
        fill_style: "hachure"@,
        stroke_width: 1,
        stroke_style: "solid"@,
        roughness: 1,
        opacity: 100,
        group_ids: Seq::empty(),
        roundness: None,
        seed: 0,
        version: 1,
        is_deleted: false,
        bound_elements: None,
        locked: false,
        extra,
    }
}

/// A text that is centred, in the element `container`.
pub open spec fn centred(
    id: Seq<char>,
    container: Option<Seq<char>>,
    text: Seq<char>,
    place: Place,
) -> ElementView {
    usual(
        id,
        "text"@,
        place,
        ExtraView::Text(
            TextExtraView {
                container_id: container,
                text,
                original_text: text,
                font_family: 1,
                text_align: "center"@,
                vertical_align: "middle"@,
            },
        ),
    )
}

/// A text in the upper left corner of where it stands.
pub open spec fn cornered(id: Seq<char>, text: Seq<char>, place: Place) -> ElementView {
    usual(
        id,
        "text"@,
        place,
        ExtraView::Text(
            TextExtraView {
                container_id: None,
                text,
                original_text: text,
                font_family: 1,
                text_align: "left"@,
                vertical_align: "top"@,
            },
        ),
    )
}

/// The path at `i` from the element `from` to the element `to`.
pub open spec fn drawn_path(
    i: int,
    from: Option<Seq<char>>,
    to: Option<Seq<char>>,
    start: Option<Seq<char>>,
    end: Option<Seq<char>>,
    style: Seq<char>,
    width: u8,
) -> ElementView {
    ElementView {
        stroke_style: style,
        stroke_width: width,
        ..usual(
            "e"@ + decimal(i),
            "arrow"@,
            Place::Path(i as usize),
            ExtraView::Arrow(
                ArrowExtraView {
                    start_binding: from,
                    end_binding: to,
                    start_arrowhead: start,
                    end_arrowhead: end,
                },
            ),
        )
    }
}

/// The label of the path at `i`.
pub open spec fn drawn_label(i: int, label: Seq<char>) -> ElementView {
    centred(
        "e"@ + decimal(i) + "-text"@,
        Some("e"@ + decimal(i)),
        label,
        Place::PathLabel(i as usize),
    )
}

proof fn lemma_labelled(out: Seq<ElementView>, i: int, shape: ElementView, label: Seq<char>)
    ensures
        ({
            let after = labelled_box(out, i, shape, label);
            &&& extends(out, after)
            &&& shows(after, shape)
            &&& shows(
                after,
                centred(
                    "n"@ + decimal(i) + "-text"@,
                    Some("n"@ + decimal(i)),
                    label,
                    Place::BoxLabel(i as usize),
                ),
            )
        }),
{
    let id = "n"@ + decimal(i);
    let bound = ElementView { bound_elements: Some(seq![link(id + "-text"@, "text"@)]), ..shape };
    lemma_pushed(out, shape, bound);
    let t = centred(id + "-text"@, Some(id), label, Place::BoxLabel(i as usize));
    lemma_pushed(out.push(bound), t, t);
    lemma_shows(out.push(bound), out.push(bound).push(t), shape);
    lemma_extends(out, out.push(bound), out.push(bound).push(t));
}

proof fn lemma_path_label(out: Seq<ElementView>, i: int, label: Option<Seq<char>>)
    ensures
        extends(out, path_label(out, i, label)),
        label matches Some(l) ==> shows(path_label(out, i, label), drawn_label(i, l)),
{
    if let Some(l) = label {
        let e = drawn_label(i, l);
        let pushed = out.push(e);
        lemma_pushed(out, e, e);
        let r = link("e"@ + decimal(i) + "-text"@, "text"@);
        lemma_bound(pushed, "e"@ + decimal(i), r);
        let after = bind(pushed, "e"@ + decimal(i), r);
        lemma_extends(out, pushed, after);
        lemma_shows(pushed, after, e);
    }
}

proof fn lemma_bound_path(
    out: Seq<ElementView>,
    i: int,
    source: Seq<char>,
    target: Seq<char>,
    heads: (Option<Seq<char>>, Option<Seq<char>>),
    style: Seq<char>,
    width: u8,
)
    ensures
        ({
            let after = bound_path(out, i, source, target, heads, style, width);
            &&& extends(out, after)
            &&& shows(
                after,
                drawn_path(i, Some(source), Some(target), heads.0, heads.1, style, width),
            )
        }),
{
    let e = drawn_path(i, Some(source), Some(target), heads.0, heads.1, style, width);
    let a = out.push(e);
    lemma_pushed(out, e, e);
    let r = link("e"@ + decimal(i), "arrow"@);
    lemma_bound(a, source, r);
    let b = bind(a, source, r);
    lemma_bound(b, target, r);
    let c = bind(b, target, r);
    lemma_extends(out, a, b);
    lemma_extends(out, b, c);
    lemma_shows(a, b, e);
    lemma_shows(b, c, e);
}

/// The seeds of a scene count its elements from one on, and nothing else of them
/// changes.
pub proof fn law_seeds_count(elements: Seq<ElementView>)
    ensures
        seeded(elements).len() == elements.len(),
        forall|i: int|
            0 <= i < elements.len() ==> (#[trigger] seeded(elements)[i]).seed == i + 1 && looks(
                elements[i],
                seeded(elements)[i],
            ) && seeded(elements)[i].bound_elements == elements[i].bound_elements,
{
}

proof fn lemma_seeded(elements: Seq<ElementView>)
    ensures
        extends(elements, seeded(elements)),
{
}

// ---------------------------------------------------------------------------
// Graphs
// ---------------------------------------------------------------------------

/// The shape of a node.
pub open spec fn drawn_node(i: int, kind: NodeKind) -> ElementView {
    ElementView {
        roundness: match kind {
            NodeKind::Default => Some(3u8),
            NodeKind::RoundedRectangle => Some(3u8),
            _ => None,
        },
        ..usual(
            "n"@ + decimal(i),
            match kind {
                NodeKind::Circle => "ellipse"@,
                NodeKind::Diamond => "diamond"@,
                _ => "rectangle"@,
            },
            Place::Box(i as usize),
            ExtraView::Shape,
        )
    }
}

/// The label of the box at `i`.
pub open spec fn box_label(i: int, label: Seq<char>) -> ElementView {
    centred(
        "n"@ + decimal(i) + "-text"@,
        Some("n"@ + decimal(i)),
        label,
        Place::BoxLabel(i as usize),
    )
}

/// Whether the node at `i` is in a scene, with its label.
pub open spec fn node_shown<RV>(scene: Seq<ElementView>, ns: Seq<NodeLayoutView<RV>>, i: int) -> bool {
    shows(scene, drawn_node(i, ns[i].kind)) && shows(scene, box_label(i, ns[i].label))
}

proof fn lemma_nodes<RV>(out: Seq<ElementView>, ns: Seq<NodeLayoutView<RV>>, n: int)
    requires
        0 <= n <= ns.len(),
    ensures
        extends(out, nodes(out, ns, n)),
        forall|i: int| 0 <= i < n ==> #[trigger] node_shown(nodes(out, ns, n), ns, i),
    decreases n,
{
    if n > 0 {
        let before = nodes(out, ns, n - 1);
        let after = nodes(out, ns, n);
        lemma_nodes(out, ns, n - 1);
        lemma_labelled(before, n - 1, drawn_node(n - 1, ns[n - 1].kind), ns[n - 1].label);
        lemma_extends(out, before, after);
        assert forall|i: int| 0 <= i < n implies #[trigger] node_shown(after, ns, i) by {
            if i < n - 1 {
                assert(node_shown(before, ns, i));
                lemma_shows(before, after, drawn_node(i, ns[i].kind));
                lemma_shows(before, after, box_label(i, ns[i].label));
            }
        }
    }
}

/// The frame of the container at `i`.
pub open spec fn drawn_frame(i: int) -> ElementView {
    ElementView {
        stroke_style: "dashed"@,
        ..usual(
            "c"@ + decimal(i),
            "rectangle"@,
            Place::Container(i as usize),
            ExtraView::Shape,
        )
    }
}

/// The label of the container at `i`.
pub open spec fn frame_label(i: int, label: Seq<char>) -> ElementView {
    cornered("c"@ + decimal(i) + "-label"@, label, Place::ContainerLabel(i as usize))
}

/// Whether the container at `i` is in a scene, with its label.
pub open spec fn container_shown<RV>(
    scene: Seq<ElementView>,
    cs: Seq<ContainerLayoutView<RV>>,
    i: int,
) -> bool {
    shows(scene, drawn_frame(i)) && (cs[i].label matches Some(l) ==> shows(scene, frame_label(i, l)))
}

proof fn lemma_containers<RV>(cs: Seq<ContainerLayoutView<RV>>, n: int)
    requires
        0 <= n <= cs.len(),
    ensures
        forall|i: int| 0 <= i < n ==> #[trigger] container_shown(containers(cs, n), cs, i),
    decreases n,
{
    if n > 0 {
        let before = containers(cs, n - 1);
        let after = containers(cs, n);
        lemma_containers(cs, n - 1);
        let f = drawn_frame(n - 1);
        let framed = before.push(f);
        lemma_pushed(before, f, f);
        if let Some(l) = cs[n - 1].label {
            let t = frame_label(n - 1, l);
            lemma_pushed(framed, t, t);
            lemma_shows(framed, after, f);
            lemma_extends(before, framed, after);
        }
        assert forall|i: int| 0 <= i < n implies #[trigger] container_shown(after, cs, i) by {
            if i < n - 1 {
                assert(container_shown(before, cs, i));
                lemma_shows(before, after, drawn_frame(i));
                if let Some(l) = cs[i].label {
                    lemma_shows(before, after, frame_label(i, l));
                }
            }
        }
    }
}

/// The path of an edge from the box at `s` to the box at `t`: with a head at its start
/// and at its end as it says, its line drawn as it says, and twice as wide where it is
/// thick.
pub open spec fn drawn_edge<CV>(i: int, e: EdgeLayoutView<CV>, s: int, t: int) -> ElementView {
    drawn_path(
        i,
        Some("n"@ + decimal(s)),
        Some("n"@ + decimal(t)),
        if e.from_arrow == ArrowType::Plain {
            None
        } else {
            Some("arrow"@)
        },
        if e.arrow == ArrowType::Plain {
            None
        } else {
            Some("triangle"@)
        },
        match e.line {
            LineStyle::Dashed => "dashed"@,
            LineStyle::Dotted => "dotted"@,
            LineStyle::Solid => "solid"@,
        },
        if e.weight == LineWeight::Thick {
            2
        } else {
            1
        },
    )
}

/// Whether the edge at `i` is in a scene, between the nodes it names, with its label.
pub open spec fn edge_shown<RV, CV>(
    scene: Seq<ElementView>,
    g: GraphLayoutView<RV, CV>,
    i: int,
) -> bool {
    let e = g.edges[i];
    &&& exists|s: int, t: int|
        0 <= s < g.nodes.len() && 0 <= t < g.nodes.len() && g.nodes[s].id == e.from && g.nodes[t].id
            == e.to && shows(scene, #[trigger] drawn_edge(i, e, s, t))
    &&& e.label matches Some(l) ==> shows(scene, drawn_label(i, l))
}

proof fn lemma_edges<RV, CV>(out: Seq<ElementView>, g: GraphLayoutView<RV, CV>, i: int)
    requires
        0 <= i <= g.edges.len(),
    ensures
        edges(out, g, i) matches Ok(scene) ==> extends(out, scene) && forall|j: int|
            i <= j < g.edges.len() ==> #[trigger] edge_shown(scene, g, j),
    decreases g.edges.len() - i,
{
    if i < g.edges.len() {
        let e = g.edges[i];
        lemma_key_from(g.nodes, e.from, 0);
        lemma_key_from(g.nodes, e.to, 0);
        if let Ok(scene) = edges(out, g, i) {
            let s = key_index(g.nodes, e.from)->0;
            let t = key_index(g.nodes, e.to)->0;
            let d = drawn_edge(i, e, s, t);
            let width: u8 = if e.weight == LineWeight::Thick {
                2
            } else {
                1
            };
            let (source, target) = ("n"@ + decimal(s), "n"@ + decimal(t));
            let a = bound_path(out, i, source, target, edge_heads(e), edge_style(e.line), width);
            lemma_bound_path(out, i, source, target, edge_heads(e), edge_style(e.line), width);
            let b = path_label(a, i, e.label);
            lemma_path_label(a, i, e.label);
            lemma_edges(b, g, i + 1);
            lemma_extends(out, a, b);
            lemma_extends(out, b, scene);
            lemma_shows(a, b, d);
            lemma_shows(b, scene, d);
            if let Some(l) = e.label {
                lemma_shows(b, scene, drawn_label(i, l));
            }
            assert(edge_shown(scene, g, i));
        }
    }
}

/// The scene of a graph shows every container, every node and every edge: each box with
/// its own shape and label, and each edge from the node it leaves to the node it
/// reaches, with its own label and look.
pub proof fn law_graph_is_shown<RV, CV, HV, MV>(g: GraphLayoutView<RV, CV>)
    ensures
        exported::<RV, CV, HV, MV>(SemanticLayoutView::Graph(g)) matches Ok(x) ==> {
            &&& forall|i: int|
                0 <= i < g.containers.len() ==> #[trigger] container_shown(
                    x.elements,
                    g.containers,
                    i,
                )
            &&& forall|i: int|
                0 <= i < g.nodes.len() ==> #[trigger] node_shown(x.elements, g.nodes, i)
            &&& forall|i: int| 0 <= i < g.edges.len() ==> #[trigger] edge_shown(x.elements, g, i)
        },
{
    let cs = containers(g.containers, g.containers.len() as int);
    let ns = nodes(cs, g.nodes, g.nodes.len() as int);
    lemma_containers(g.containers, g.containers.len() as int);
    lemma_nodes(cs, g.nodes, g.nodes.len() as int);
    lemma_edges(ns, g, 0);
    if let Ok(scene) = graph_scene(g) {
        let all = seeded(scene);
        lemma_seeded(scene);
        lemma_extends(ns, scene, all);
        lemma_extends(cs, ns, all);
        assert forall|i: int| 0 <= i < g.containers.len() implies #[trigger] container_shown(
            all,
            g.containers,
            i,
        ) by {
            assert(container_shown(cs, g.containers, i));
            lemma_shows(cs, all, drawn_frame(i));
            if let Some(l) = g.containers[i].label {
                lemma_shows(cs, all, frame_label(i, l));
            }
        }
        assert forall|i: int| 0 <= i < g.nodes.len() implies #[trigger] node_shown(
            all,
            g.nodes,
            i,
        ) by {
            assert(node_shown(ns, g.nodes, i));
            lemma_shows(ns, all, drawn_node(i, g.nodes[i].kind));
            lemma_shows(ns, all, box_label(i, g.nodes[i].label));
        }
        assert forall|i: int| 0 <= i < g.edges.len() implies #[trigger] edge_shown(all, g, i) by {
            assert(edge_shown(scene, g, i));
            let e = g.edges[i];
            let (s, t) = choose|s: int, t: int|
                0 <= s < g.nodes.len() && 0 <= t < g.nodes.len() && g.nodes[s].id == e.from
                    && g.nodes[t].id == e.to && shows(scene, #[trigger] drawn_edge(i, e, s, t));
            lemma_shows(scene, all, drawn_edge(i, e, s, t));
            if let Some(l) = e.label {
                lemma_shows(scene, all, drawn_label(i, l));
            }
        }
    }
}

// ---------------------------------------------------------------------------
// State diagrams
// ---------------------------------------------------------------------------

/// The box of the state at `i`.
pub open spec fn rounded_box(i: int) -> ElementView {
    ElementView {
        roundness: Some(3u8),
        ..usual("n"@ + decimal(i), "rectangle"@, Place::Box(i as usize), ExtraView::Shape)
    }
}

/// Whether the state at `i` is in a scene, with its label.
pub open spec fn state_shown<RV>(scene: Seq<ElementView>, ss: Seq<StateBoxView<RV>>, i: int) -> bool {
    shows(scene, rounded_box(i)) && shows(scene, box_label(i, ss[i].label))
}

proof fn lemma_states<RV>(ss: Seq<StateBoxView<RV>>, n: int)
    requires
        0 <= n <= ss.len(),
    ensures
        forall|i: int| 0 <= i < n ==> #[trigger] state_shown(states(ss, n), ss, i),
    decreases n,
{
    if n > 0 {
        let before = states(ss, n - 1);
        let after = states(ss, n);
        lemma_states(ss, n - 1);
        lemma_labelled(before, n - 1, rounded_box(n - 1), ss[n - 1].label);
        assert forall|i: int| 0 <= i < n implies #[trigger] state_shown(after, ss, i) by {
            if i < n - 1 {
                assert(state_shown(before, ss, i));
                lemma_shows(before, after, rounded_box(i));
                lemma_shows(before, after, box_label(i, ss[i].label));
            }
        }
    }
}

/// A dot.
pub open spec fn dot(id: Seq<char>, place: Place) -> ElementView {
    ElementView {
        background_color: "#1e1e1e"@,
        fill_style: "solid"@,
        ..usual(id, "ellipse"@, place, ExtraView::Shape)
    }
}

/// Whether the pseudostates are in a scene: a dot for the initial one, a ring and a dot
/// for the final one.
pub open spec fn pseudostates_shown<RV, CV>(
    scene: Seq<ElementView>,
    s: StateLayoutView<RV, CV>,
) -> bool {
    &&& s.initial is Some ==> shows(scene, dot("initial"@, Place::Initial))
    &&& s.final_state is Some ==> shows(
        scene,
        usual("final-outer"@, "ellipse"@, Place::FinalOuter, ExtraView::Shape),
    ) && shows(scene, dot("final-inner"@, Place::FinalInner))
}

proof fn lemma_pseudostates<RV, CV>(out: Seq<ElementView>, s: StateLayoutView<RV, CV>)
    ensures
        extends(out, pseudostates(out, s)),
        pseudostates_shown(pseudostates(out, s), s),
{
    let d = dot("initial"@, Place::Initial);
    let begun = if s.initial is Some {
        out.push(d)
    } else {
        out
    };
    lemma_pushed(out, d, d);
    if s.final_state is Some {
        let ring = usual("final-outer"@, "ellipse"@, Place::FinalOuter, ExtraView::Shape);
        let inner = dot("final-inner"@, Place::FinalInner);
        let a = begun.push(ring);
        let b = a.push(inner);
        lemma_pushed(begun, ring, ring);
        lemma_pushed(a, inner, inner);
        lemma_extends(begun, a, b);
        lemma_extends(out, begun, b);
        lemma_shows(a, b, ring);
        if s.initial is Some {
            lemma_shows(begun, b, d);
        }
    }
}

/// Whether `id` is that of the element for one end of a transition.
pub open spec fn stands_for<RV, CV>(
    id: Seq<char>,
    s: StateLayoutView<RV, CV>,
    e: EndpointView,
) -> bool {
    match e {
        EndpointView::State(name) => exists|k: int|
            0 <= k < s.states.len() && (#[trigger] s.states[k]).id == name && id == "n"@ + decimal(
                k,
            ),
        EndpointView::Initial => id == "initial"@ && s.initial is Some,
        EndpointView::Final => id == "final-outer"@ && s.final_state is Some,
    }
}

/// The path of a transition.
pub open spec fn drawn_transition(i: int, from: Seq<char>, to: Seq<char>) -> ElementView {
    drawn_path(i, Some(from), Some(to), None, Some("triangle"@), "solid"@, 1)
}

/// Whether the transition at `i` is in a scene, between its ends, with its label.
pub open spec fn transition_shown<RV, CV>(
    scene: Seq<ElementView>,
    s: StateLayoutView<RV, CV>,
    i: int,
) -> bool {
    let t = s.transitions[i];
    &&& exists|from: Seq<char>, to: Seq<char>|
        stands_for(from, s, t.from) && stands_for(to, s, t.to) && shows(
            scene,
            #[trigger] drawn_transition(i, from, to),
        )
    &&& t.label matches Some(l) ==> shows(scene, drawn_label(i, l))
}

proof fn lemma_endpoint<RV, CV>(s: StateLayoutView<RV, CV>, e: EndpointView)
    ensures
        endpoint_id(s, e) matches Ok(id) ==> stands_for(id, s, e),
{
    if let EndpointView::State(id) = e {
        lemma_key_from(s.states, id, 0);
    }
}

proof fn lemma_transitions<RV, CV>(out: Seq<ElementView>, s: StateLayoutView<RV, CV>, i: int)
    requires
        0 <= i <= s.transitions.len(),
    ensures
        transitions(out, s, i) matches Ok(scene) ==> extends(out, scene) && forall|j: int|
            i <= j < s.transitions.len() ==> #[trigger] transition_shown(scene, s, j),
    decreases s.transitions.len() - i,
{
    if i < s.transitions.len() {
        let t = s.transitions[i];
        lemma_endpoint(s, t.from);
        lemma_endpoint(s, t.to);
        if let Ok(scene) = transitions(out, s, i) {
            let from = endpoint_id(s, t.from)->Ok_0;
            let to = endpoint_id(s, t.to)->Ok_0;
            let d = drawn_transition(i, from, to);
            let heads = (None::<Seq<char>>, Some("triangle"@));
            let a = bound_path(out, i, from, to, heads, "solid"@, 1);
            lemma_bound_path(out, i, from, to, heads, "solid"@, 1);
            let b = path_label(a, i, t.label);
            lemma_path_label(a, i, t.label);
            lemma_transitions(b, s, i + 1);
            lemma_extends(out, a, b);
            lemma_extends(out, b, scene);
            lemma_shows(a, b, d);
            lemma_shows(b, scene, d);
            if let Some(l) = t.label {
                lemma_shows(b, scene, drawn_label(i, l));
            }
            assert(transition_shown(scene, s, i));
        }
    }
}

/// The scene of a state diagram shows every state, the pseudostates and every
/// transition, each from the element it leaves to the one it reaches.
pub proof fn law_states_are_shown<RV, CV, HV, MV>(s: StateLayoutView<RV, CV>)
    ensures
        exported::<RV, CV, HV, MV>(SemanticLayoutView::State(s)) matches Ok(x) ==> {
            &&& forall|i: int|
                0 <= i < s.states.len() ==> #[trigger] state_shown(x.elements, s.states, i)
            &&& pseudostates_shown(x.elements, s)
            &&& forall|i: int|
                0 <= i < s.transitions.len() ==> #[trigger] transition_shown(x.elements, s, i)
        },
{
    let ss = states(s.states, s.states.len() as int);
    let ps = pseudostates(ss, s);
    lemma_states(s.states, s.states.len() as int);
    lemma_pseudostates(ss, s);
    lemma_transitions(ps, s, 0);
    if let Ok(scene) = state_scene(s) {
        let all = seeded(scene);
        lemma_seeded(scene);
        lemma_extends(ps, scene, all);
        lemma_extends(ss, ps, all);
        assert forall|i: int| 0 <= i < s.states.len() implies #[trigger] state_shown(
            all,
            s.states,
            i,
        ) by {
            assert(state_shown(ss, s.states, i));
            lemma_shows(ss, all, rounded_box(i));
            lemma_shows(ss, all, box_label(i, s.states[i].label));
        }
        if s.initial is Some {
            lemma_shows(ps, all, dot("initial"@, Place::Initial));
        }
        if s.final_state is Some {
            lemma_shows(
                ps,
                all,
                usual("final-outer"@, "ellipse"@, Place::FinalOuter, ExtraView::Shape),
            );
            lemma_shows(ps, all, dot("final-inner"@, Place::FinalInner));
        }
        assert forall|i: int| 0 <= i < s.transitions.len() implies #[trigger] transition_shown(
            all,
            s,
            i,
        ) by {
            assert(transition_shown(scene, s, i));
            let t = s.transitions[i];
            let (from, to) = choose|from: Seq<char>, to: Seq<char>|
                stands_for(from, s, t.from) && stands_for(to, s, t.to) && shows(
                    scene,
                    #[trigger] drawn_transition(i, from, to),
                );
            lemma_shows(scene, all, drawn_transition(i, from, to));
            if let Some(l) = t.label {
                lemma_shows(scene, all, drawn_label(i, l));
            }
        }
    }
}

// ---------------------------------------------------------------------------
// Sequences
// ---------------------------------------------------------------------------

/// The header of the participant at `i`.
pub open spec fn drawn_header(i: int) -> ElementView {
    ElementView {
        roundness: Some(3u8),
        group_ids: seq!["participant-"@ + decimal(i)],
        ..usual("n"@ + decimal(i), "rectangle"@, Place::Box(i as usize), ExtraView::Shape)
    }
}

/// The lifeline of the participant at `i`.
pub open spec fn drawn_lifeline(i: int) -> ElementView {
    ElementView {
        stroke_style: "dashed"@,
        group_ids: seq!["participant-"@ + decimal(i)],
        ..usual(
            "n"@ + decimal(i) + "-lifeline"@,
            "line"@,
            Place::Lifeline(i as usize),
            ExtraView::Line,
        )
    }
}

/// What stands above the label of a participant of each kind.
pub open spec fn kind_note(kind: ParticipantKind) -> Option<Seq<char>> {
    match kind {
        ParticipantKind::Default => None,
        ParticipantKind::Actor => Some("«actor»"@),
        ParticipantKind::Boundary => Some("«boundary»"@),
        ParticipantKind::Control => Some("«control»"@),
        ParticipantKind::Entity => Some("«entity»"@),
        ParticipantKind::Database => Some("«database»"@),
        ParticipantKind::Collections => Some("«collections»"@),
        ParticipantKind::Queue => Some("«queue»"@),
    }
}

/// The note above the label of the participant at `i`.
pub open spec fn drawn_note(i: int, note: Seq<char>) -> ElementView {
    centred("n"@ + decimal(i) + "-stereotype"@, None, note, Place::Stereotype(i as usize))
}

/// Whether the participant at `i` is in a scene, with its label, its lifeline and the
/// note for its kind.
pub open spec fn participant_shown<HV>(
    scene: Seq<ElementView>,
    ps: Seq<ParticipantLayoutView<HV>>,
    i: int,
) -> bool {
    &&& shows(scene, drawn_header(i))
    &&& shows(scene, box_label(i, ps[i].label))
    &&& shows(scene, drawn_lifeline(i))
    &&& kind_note(ps[i].kind) matches Some(note) ==> shows(scene, drawn_note(i, note))
}

proof fn lemma_participant_shown<HV>(
    a: Seq<ElementView>,
    b: Seq<ElementView>,
    ps: Seq<ParticipantLayoutView<HV>>,
    i: int,
)
    requires
        extends(a, b),
        participant_shown(a, ps, i),
    ensures
        participant_shown(b, ps, i),
{
    lemma_shows(a, b, drawn_header(i));
    lemma_shows(a, b, box_label(i, ps[i].label));
    lemma_shows(a, b, drawn_lifeline(i));
    if let Some(note) = kind_note(ps[i].kind) {
        lemma_shows(a, b, drawn_note(i, note));
    }
}

proof fn lemma_participants<HV>(ps: Seq<ParticipantLayoutView<HV>>, n: int)
    requires
        0 <= n <= ps.len(),
    ensures
        forall|i: int| 0 <= i < n ==> #[trigger] participant_shown(participants(ps, n), ps, i),
    decreases n,
{
    if n > 0 {
        let before = participants(ps, n - 1);
        let after = participants(ps, n);
        lemma_participants(ps, n - 1);
        let i = n - 1;
        let p = ps[i];
        let id = "n"@ + decimal(i);
        let h = drawn_header(i);
        let bound = ElementView {
            bound_elements: Some(seq![link(id + "-text"@, "text"@)]),
            ..h
        };
        let a = before.push(bound);
        lemma_pushed(before, h, bound);
        let b = match kind_note(p.kind) {
            Some(note) => a.push(drawn_note(i, note)),
            None => a,
        };
        if let Some(note) = kind_note(p.kind) {
            lemma_pushed(a, drawn_note(i, note), drawn_note(i, note));
        }
        let t = box_label(i, p.label);
        let c = b.push(t);
        lemma_pushed(b, t, t);
        let l = drawn_lifeline(i);
        let d = c.push(l);
        lemma_pushed(c, l, l);
        assert(after == d);
        lemma_extends(b, c, d);
        lemma_extends(a, b, d);
        lemma_extends(before, a, d);
        lemma_shows(a, d, h);
        lemma_shows(c, d, t);
        if let Some(note) = kind_note(p.kind) {
            lemma_shows(b, d, drawn_note(i, note));
        }
        assert forall|j: int| 0 <= j < n implies #[trigger] participant_shown(after, ps, j) by {
            if j < n - 1 {
                lemma_participant_shown(before, after, ps, j);
            }
        }
    }
}

/// The path of a message: dashed where it says so, with a head at its end where it has
/// one.
pub open spec fn drawn_message<MV>(i: int, m: MessageLayoutView<MV>) -> ElementView {
    drawn_path(
        i,
        None,
        None,
        None,
        if m.arrow == ArrowType::Plain {
            None
        } else {
            Some("triangle"@)
        },
        if m.line == LineStyle::Dashed {
            "dashed"@
        } else {
            "solid"@
        },
        1,
    )
}

/// Whether the message at `i` is in a scene, with its label.
pub open spec fn message_shown<HV, MV>(
    scene: Seq<ElementView>,
    s: SequenceLayoutView<HV, MV>,
    i: int,
) -> bool {
    &&& shows(scene, drawn_message(i, s.messages[i]))
    &&& s.messages[i].label matches Some(l) ==> shows(scene, drawn_label(i, l))
}

proof fn lemma_messages<HV, MV>(out: Seq<ElementView>, s: SequenceLayoutView<HV, MV>, i: int)
    requires
        0 <= i <= s.messages.len(),
    ensures
        messages(out, s, i) matches Ok(scene) ==> extends(out, scene) && forall|j: int|
            i <= j < s.messages.len() ==> #[trigger] message_shown(scene, s, j),
    decreases s.messages.len() - i,
{
    if i < s.messages.len() {
        let m = s.messages[i];
        if let Ok(scene) = messages(out, s, i) {
            let d = drawn_message(i, m);
            let a = out.push(d);
            lemma_pushed(out, d, d);
            let b = path_label(a, i, m.label);
            lemma_path_label(a, i, m.label);
            assert(message(out, i, m) == b);
            lemma_messages(b, s, i + 1);
            lemma_extends(out, a, b);
            lemma_extends(out, b, scene);
            lemma_shows(a, b, d);
            lemma_shows(b, scene, d);
            if let Some(l) = m.label {
                lemma_shows(b, scene, drawn_label(i, l));
            }
            assert(message_shown(scene, s, i));
        }
    }
}

/// The scene of a sequence shows every participant and every message.
pub proof fn law_sequence_is_shown<RV, CV, HV, MV>(s: SequenceLayoutView<HV, MV>)
    ensures
        exported::<RV, CV, HV, MV>(SemanticLayoutView::Sequence(s)) matches Ok(x) ==> {
            &&& forall|i: int|
                0 <= i < s.participants.len() ==> #[trigger] participant_shown(
                    x.elements,
                    s.participants,
                    i,
                )
            &&& forall|i: int|
                0 <= i < s.messages.len() ==> #[trigger] message_shown(x.elements, s, i)
        },
{
    let ps = participants(s.participants, s.participants.len() as int);
    lemma_participants(s.participants, s.participants.len() as int);
    lemma_messages(ps, s, 0);
    if let Ok(scene) = sequence_scene(s) {
        let all = seeded(scene);
        lemma_seeded(scene);
        lemma_extends(ps, scene, all);
        assert forall|i: int| 0 <= i < s.participants.len() implies #[trigger] participant_shown(
            all,
            s.participants,
            i,
        ) by {
            lemma_participant_shown(ps, all, s.participants, i);
        }
        assert forall|i: int| 0 <= i < s.messages.len() implies #[trigger] message_shown(
            all,
            s,
            i,
        ) by {
            assert(message_shown(scene, s, i));
            lemma_shows(scene, all, drawn_message(i, s.messages[i]));
            if let Some(l) = s.messages[i].label {
                lemma_shows(scene, all, drawn_label(i, l));
            }
        }
    }
}

// ---------------------------------------------------------------------------
// Class and entity-relationship diagrams
// ---------------------------------------------------------------------------

/// The title of a box, below its stereotype where it has one.
pub open spec fn drawn_title<RV>(i: int, b: CompartmentBoxView<RV>) -> ElementView {
    centred(
        "n"@ + decimal(i) + "-title"@,
        None,
        match b.stereotype {
            Some(st) => "\u{ab}"@ + st + "\u{bb}"@ + "\n"@ + b.title,
            None => b.title,
        },
        Place::Title(i as usize),
    )
}

/// Lines below one another.
pub open spec fn lines_of(rows: Seq<Seq<char>>, n: int) -> Seq<char>
    decreases n,
{
    if n <= 0 {
        Seq::empty()
    } else if n == 1 {
        rows[0]
    } else {
        lines_of(rows, n - 1) + "\n"@ + rows[n - 1]
    }
}

proof fn lemma_lines_of(rows: Seq<Seq<char>>, n: int)
    requires
        0 <= n <= rows.len(),
    ensures
        join_first(rows, "\n"@, n) == lines_of(rows, n),
    decreases n,
{
    if n > 1 {
        lemma_lines_of(rows, n - 1);
    }
}

/// The rows of the compartment at `c` of the box at `i`.
pub open spec fn drawn_section(i: int, c: int, rows: Seq<Seq<char>>) -> ElementView {
    cornered(
        "n"@ + decimal(i) + "-sect"@ + decimal(c),
        lines_of(rows, rows.len() as int),
        Place::Section(i as usize, c as usize),
    )
}

/// The line above the compartment at `c` of the box at `i`.
pub open spec fn drawn_divider(i: int, c: int) -> ElementView {
    usual(
        "n"@ + decimal(i) + "-div"@ + decimal(c),
        "line"@,
        Place::Divider(i as usize, c as usize),
        ExtraView::Line,
    )
}

/// Whether the compartment at `c` is in a scene, with all its rows.
pub open spec fn section_shown(
    scene: Seq<ElementView>,
    i: int,
    cs: Seq<CompartmentView>,
    c: int,
) -> bool {
    shows(scene, drawn_divider(i, c)) && shows(scene, drawn_section(i, c, cs[c].rows))
}

proof fn lemma_section_shown(
    a: Seq<ElementView>,
    b: Seq<ElementView>,
    i: int,
    cs: Seq<CompartmentView>,
    c: int,
)
    requires
        extends(a, b),
        section_shown(a, i, cs, c),
    ensures
        section_shown(b, i, cs, c),
{
    lemma_shows(a, b, drawn_divider(i, c));
    lemma_shows(a, b, drawn_section(i, c, cs[c].rows));
}

proof fn lemma_sections(out: Seq<ElementView>, i: int, cs: Seq<CompartmentView>, n: int)
    requires
        0 <= n <= cs.len(),
    ensures
        extends(out, sections(out, i, cs, n)),
        forall|c: int|
            0 <= c < n ==> #[trigger] section_shown(sections(out, i, cs, n), i, cs, c),
    decreases n,
{
    if n > 0 {
        let before = sections(out, i, cs, n - 1);
        let after = sections(out, i, cs, n);
        lemma_sections(out, i, cs, n - 1);
        let rows = cs[n - 1].rows;
        lemma_lines_of(rows, rows.len() as int);
        let d = drawn_divider(i, n - 1);
        let t = drawn_section(i, n - 1, rows);
        let a = before.push(d);
        lemma_pushed(before, d, d);
        lemma_pushed(a, t, t);
        assert(after == a.push(t));
        lemma_shows(a, after, d);
        lemma_extends(before, a, after);
        lemma_extends(out, before, after);
        assert forall|c: int| 0 <= c < n implies #[trigger] section_shown(after, i, cs, c) by {
            if c < n - 1 {
                lemma_section_shown(before, after, i, cs, c);
            }
        }
    }
}

/// Whether the box at `i` is in a scene, with its title and all its compartments.
pub open spec fn box_shown<RV>(
    scene: Seq<ElementView>,
    bs: Seq<CompartmentBoxView<RV>>,
    i: int,
) -> bool {
    &&& shows(scene, rounded_box(i))
    &&& shows(scene, drawn_title(i, bs[i]))
    &&& forall|c: int|
        0 <= c < bs[i].compartments.len() ==> #[trigger] section_shown(
            scene,
            i,
            bs[i].compartments,
            c,
        )
}

proof fn lemma_box_shown<RV>(
    a: Seq<ElementView>,
    b: Seq<ElementView>,
    bs: Seq<CompartmentBoxView<RV>>,
    i: int,
)
    requires
        extends(a, b),
        box_shown(a, bs, i),
    ensures
        box_shown(b, bs, i),
{
    lemma_shows(a, b, rounded_box(i));
    lemma_shows(a, b, drawn_title(i, bs[i]));
    assert forall|c: int| 0 <= c < bs[i].compartments.len() implies #[trigger] section_shown(
        b,
        i,
        bs[i].compartments,
        c,
    ) by {
        lemma_section_shown(a, b, i, bs[i].compartments, c);
    }
}

proof fn lemma_class_boxes<RV>(bs: Seq<CompartmentBoxView<RV>>, n: int)
    requires
        0 <= n <= bs.len(),
    ensures
        forall|i: int| 0 <= i < n ==> #[trigger] box_shown(class_boxes(bs, n), bs, i),
    decreases n,
{
    if n > 0 {
        let before = class_boxes(bs, n - 1);
        let after = class_boxes(bs, n);
        lemma_class_boxes(bs, n - 1);
        let i = n - 1;
        let r = rounded_box(i);
        let t = drawn_title(i, bs[i]);
        let a = before.push(r);
        let b = a.push(t);
        lemma_pushed(before, r, r);
        lemma_pushed(a, t, t);
        let cs = bs[i].compartments;
        lemma_sections(b, i, cs, cs.len() as int);
        assert(after == sections(b, i, cs, cs.len() as int));
        lemma_extends(a, b, after);
        lemma_extends(before, a, after);
        lemma_shows(a, after, r);
        lemma_shows(b, after, t);
        assert forall|j: int| 0 <= j < n implies #[trigger] box_shown(after, bs, j) by {
            if j < n - 1 {
                lemma_box_shown(before, after, bs, j);
            }
        }
    }
}

/// The head that comes nearest to a marker.
pub open spec fn nearest_head(m: EndMarker) -> Option<Seq<char>> {
    match m {
        EndMarker::Plain => None,
        EndMarker::HollowTriangle => Some("triangle_outline"@),
        EndMarker::OpenArrow => Some("arrow"@),
        EndMarker::FilledDiamond => Some("diamond"@),
        EndMarker::HollowDiamond => Some("diamond_outline"@),
        EndMarker::ErOne => Some("bar"@),
        EndMarker::ErMany => Some("triangle"@),
        EndMarker::ErZeroOrOne => Some("dot"@),
        EndMarker::ErOneOrMany => Some("triangle"@),
        EndMarker::ErZeroOrMany => Some("dot"@),
    }
}

/// The path of a relation from the box at `s` to the box at `t`.
pub open spec fn drawn_relation<CV>(i: int, r: RelationLayoutView<CV>, s: int, t: int) -> ElementView {
    drawn_path(
        i,
        Some("n"@ + decimal(s)),
        Some("n"@ + decimal(t)),
        nearest_head(r.from_marker),
        nearest_head(r.to_marker),
        if r.line == LineStyle::Dashed {
            "dashed"@
        } else {
            "solid"@
        },
        1,
    )
}

/// The multiplicity at the start of the path at `i`.
pub open spec fn start_multiplicity(i: int, mult: Seq<char>) -> ElementView {
    centred("e"@ + decimal(i) + "-mult-from"@, None, mult, Place::PathStart(i as usize))
}

/// The multiplicity at the end of the path at `i`.
pub open spec fn end_multiplicity(i: int, mult: Seq<char>) -> ElementView {
    centred("e"@ + decimal(i) + "-mult-to"@, None, mult, Place::PathEnd(i as usize))
}

/// Whether what a relation says is in a scene: its label, and each multiplicity at the
/// end it belongs to.
pub open spec fn relation_said<CV>(
    scene: Seq<ElementView>,
    i: int,
    r: RelationLayoutView<CV>,
) -> bool {
    &&& r.label matches Some(l) ==> shows(scene, drawn_label(i, l))
    &&& r.from_mult matches Some(m) ==> shows(scene, start_multiplicity(i, m))
    &&& r.to_mult matches Some(m) ==> shows(scene, end_multiplicity(i, m))
}

/// Whether the relation at `i` is in a scene, between the boxes it names.
pub open spec fn relation_shown<RV, CV>(
    scene: Seq<ElementView>,
    l: ClassLayoutView<RV, CV>,
    i: int,
) -> bool {
    let r = l.relations[i];
    &&& exists|s: int, t: int|
        0 <= s < l.boxes.len() && 0 <= t < l.boxes.len() && l.boxes[s].id == r.from && l.boxes[t].id
            == r.to && shows(scene, #[trigger] drawn_relation(i, r, s, t))
    &&& relation_said(scene, i, r)
}

proof fn lemma_relation_said<CV>(
    a: Seq<ElementView>,
    b: Seq<ElementView>,
    i: int,
    r: RelationLayoutView<CV>,
)
    requires
        extends(a, b),
        relation_said(a, i, r),
    ensures
        relation_said(b, i, r),
{
    if let Some(l) = r.label {
        lemma_shows(a, b, drawn_label(i, l));
    }
    if let Some(m) = r.from_mult {
        lemma_shows(a, b, start_multiplicity(i, m));
    }
    if let Some(m) = r.to_mult {
        lemma_shows(a, b, end_multiplicity(i, m));
    }
}

proof fn lemma_relation<CV>(
    out: Seq<ElementView>,
    i: int,
    s: int,
    t: int,
    r: RelationLayoutView<CV>,
)
    ensures
        extends(out, relation(out, i, s, t, r)),
        shows(relation(out, i, s, t, r), drawn_relation(i, r, s, t)),
        relation_said(relation(out, i, s, t, r), i, r),
{
    let d = drawn_relation(i, r, s, t);
    let style = if r.line == LineStyle::Dashed {
        "dashed"@
    } else {
        "solid"@
    };
    let (source, target) = ("n"@ + decimal(s), "n"@ + decimal(t));
    let heads = (nearest_head(r.from_marker), nearest_head(r.to_marker));
    let a = bound_path(out, i, source, target, heads, style, 1);
    lemma_bound_path(out, i, source, target, heads, style, 1);
    let b = path_label(a, i, r.label);
    lemma_path_label(a, i, r.label);
    lemma_extends(out, a, b);
    lemma_shows(a, b, d);
    let c = multiplicity(b, i, r.from_mult, "-mult-from"@, Place::PathStart(i as usize));
    if let Some(m) = r.from_mult {
        let e = start_multiplicity(i, m);
        lemma_pushed(b, e, e);
    }
    let f = multiplicity(c, i, r.to_mult, "-mult-to"@, Place::PathEnd(i as usize));
    if let Some(m) = r.to_mult {
        let e = end_multiplicity(i, m);
        lemma_pushed(c, e, e);
    }
    assert(f == relation(out, i, s, t, r));
    lemma_extends(b, c, f);
    lemma_extends(out, b, f);
    lemma_shows(b, f, d);
    if let Some(l) = r.label {
        lemma_shows(b, f, drawn_label(i, l));
    }
    if let Some(m) = r.from_mult {
        lemma_shows(c, f, start_multiplicity(i, m));
    }
}

proof fn lemma_relations<RV, CV>(out: Seq<ElementView>, l: ClassLayoutView<RV, CV>, i: int)
    requires
        0 <= i <= l.relations.len(),
    ensures
        relations(out, l, i) matches Ok(scene) ==> extends(out, scene) && forall|j: int|
            i <= j < l.relations.len() ==> #[trigger] relation_shown(scene, l, j),
    decreases l.relations.len() - i,
{
    if i < l.relations.len() {
        let r = l.relations[i];
        lemma_key_from(l.boxes, r.from, 0);
        lemma_key_from(l.boxes, r.to, 0);
        if let Ok(scene) = relations(out, l, i) {
            let s = key_index(l.boxes, r.from)->0;
            let t = key_index(l.boxes, r.to)->0;
            let b = relation(out, i, s, t, r);
            lemma_relation(out, i, s, t, r);
            lemma_relations(b, l, i + 1);
            lemma_extends(out, b, scene);
            lemma_shows(b, scene, drawn_relation(i, r, s, t));
            lemma_relation_said(b, scene, i, r);
            assert(relation_shown(scene, l, i));
        }
    }
}

/// The scene of a class diagram or of an entity-relationship diagram shows every box
/// with all it holds, and every relation between the boxes it names.
pub proof fn law_classes_are_shown<RV, CV, HV, MV>(l: ClassLayoutView<RV, CV>)
    ensures
        exported::<RV, CV, HV, MV>(SemanticLayoutView::Er(l)) == exported::<RV, CV, HV, MV>(
            SemanticLayoutView::Class(l),
        ),
        exported::<RV, CV, HV, MV>(SemanticLayoutView::Class(l)) matches Ok(x) ==> {
            &&& forall|i: int|
                0 <= i < l.boxes.len() ==> #[trigger] box_shown(x.elements, l.boxes, i)
            &&& forall|i: int|
                0 <= i < l.relations.len() ==> #[trigger] relation_shown(x.elements, l, i)
        },
{
    let bs = class_boxes(l.boxes, l.boxes.len() as int);
    lemma_class_boxes(l.boxes, l.boxes.len() as int);
    lemma_relations(bs, l, 0);
    if let Ok(scene) = class_scene(l) {
        let all = seeded(scene);
        lemma_seeded(scene);
        lemma_extends(bs, scene, all);
        assert forall|i: int| 0 <= i < l.boxes.len() implies #[trigger] box_shown(
            all,
            l.boxes,
            i,
        ) by {
            lemma_box_shown(bs, all, l.boxes, i);
        }
        assert forall|i: int| 0 <= i < l.relations.len() implies #[trigger] relation_shown(
            all,
            l,
            i,
        ) by {
            assert(relation_shown(scene, l, i));
            let r = l.relations[i];
            let (s, t) = choose|s: int, t: int|
                0 <= s < l.boxes.len() && 0 <= t < l.boxes.len() && l.boxes[s].id == r.from
                    && l.boxes[t].id == r.to && shows(
                    scene,
                    #[trigger] drawn_relation(i, r, s, t),
                );
            lemma_shows(scene, all, drawn_relation(i, r, s, t));
            lemma_relation_said(scene, all, i, r);
        }
    }
}

} // verus!
