//! How the elements of a scene refer to each other.
use crate::excalidraw::class::{
    arrowhead, class_boxes, class_scene, multiplicity, relation, relations, sections, title,
};
use crate::excalidraw::elements::{
    arrow, bind, ellipse, line, link, rect, text, text_aligned, with_bound, ArrowExtraView,
    BoundElementRefView, ElementView, ExtraView, Place,
};
use crate::excalidraw::{exported, layout_scene, seeded, RenderErrorView};
use crate::excalidraw::graph::{
    bound_path, box_id, containers, edge, edge_heads, edge_style, edges, graph_scene,
    labelled_box, node_roundness, node_shape, nodes, path_id, path_label,
};
use crate::excalidraw::sequence::{message, messages, participants, sequence_scene, stereotype};
use crate::excalidraw::state::{endpoint_id, pseudostates, state_scene, states, transitions};
use crate::ir::{
    has_key, key_index, lemma_key_from, ArrowType, EndpointView, LineStyle, LineWeight, Named,
};
use crate::layout::{
    classes_connected, connected, end_there, graph_connected, sequence_connected,
    states_connected, ClassLayoutView, CompartmentBoxView, CompartmentView, ContainerLayoutView,
    GraphLayoutView, NodeLayoutView, ParticipantLayoutView, SemanticLayoutView,
    SequenceLayoutView, StateBoxView, StateLayoutView,
};
use crate::sound::{grown, lemma_grown, lemma_has_key};
use crate::text::{decimal, joined};
use vstd::prelude::*;

verus! {

// ---------------------------------------------------------------------------
// Bindings
// ---------------------------------------------------------------------------

/// Whether `r` is among the elements that are bound to `e`.
pub open spec fn holds(e: ElementView, r: BoundElementRefView) -> bool {
    e.bound_elements matches Some(v) && v.contains(r)
}

/// Whether there is an element `owner` that `r` is bound to.
pub open spec fn listed(out: Seq<ElementView>, owner: Seq<char>, r: BoundElementRefView) -> bool {
    exists|k: int| 0 <= k < out.len() && (#[trigger] out[k]).id == owner && holds(out[k], r)
}

/// Whether the elements that `e` names list it in turn: the container of a text,
/// and both ends of an arrow.
pub open spec fn answered(out: Seq<ElementView>, e: ElementView) -> bool {
    match e.extra {
        ExtraView::Text(t) => t.container_id matches Some(c) ==> listed(
            out,
            c,
            link(e.id, "text"@),
        ),
        ExtraView::Arrow(a) => {
            &&& a.start_binding matches Some(b) ==> listed(out, b, link(e.id, "arrow"@))
            &&& a.end_binding matches Some(b) ==> listed(out, b, link(e.id, "arrow"@))
        },
        _ => true,
    }
}

/// Whether every reference in a scene goes both ways.
pub open spec fn mutual(out: Seq<ElementView>) -> bool {
    forall|i: int| 0 <= i < out.len() ==> answered(out, #[trigger] out[i])
}

/// `b` begins with the elements of `a`, to which more may be bound.
pub open spec fn kept(a: Seq<ElementView>, b: Seq<ElementView>) -> bool {
    &&& a.len() <= b.len()
    &&& forall|i: int|
        0 <= i < a.len() ==> (#[trigger] b[i]).id == a[i].id && b[i].extra == a[i].extra
    &&& forall|i: int, r: BoundElementRefView|
        0 <= i < a.len() && #[trigger] holds(a[i], r) ==> holds(b[i], r)
}

proof fn lemma_kept_trans(a: Seq<ElementView>, b: Seq<ElementView>, c: Seq<ElementView>)
    requires
        kept(a, b),
        kept(b, c),
    ensures
        kept(a, c),
{
    assert forall|i: int| 0 <= i < a.len() implies (#[trigger] c[i]).id == a[i].id && c[i].extra
        == a[i].extra by {
        assert(b[i].id == a[i].id);
    }
    assert forall|i: int, r: BoundElementRefView|
        0 <= i < a.len() && #[trigger] holds(a[i], r) implies holds(c[i], r) by {
        assert(holds(b[i], r));
    }
}

/// What was listed stays listed, and what was answered stays answered.
proof fn lemma_kept(a: Seq<ElementView>, b: Seq<ElementView>)
    requires
        kept(a, b),
    ensures
        forall|owner: Seq<char>, r: BoundElementRefView| #[trigger]
            listed(a, owner, r) ==> listed(b, owner, r),
        forall|e: ElementView| #[trigger] answered(a, e) ==> answered(b, e),
        forall|id: Seq<char>| #[trigger] has_key(a, id) ==> has_key(b, id),
{
    assert forall|owner: Seq<char>, r: BoundElementRefView| #[trigger]
        listed(a, owner, r) implies listed(b, owner, r) by {
        let k = choose|k: int| 0 <= k < a.len() && (#[trigger] a[k]).id == owner && holds(a[k], r);
        assert(b[k].id == owner && holds(b[k], r));
    }
    assert(grown(a, b));
    lemma_grown(a, b);
}

proof fn lemma_push(out: Seq<ElementView>, e: ElementView)
    ensures
        kept(out, out.push(e)),
        has_key(out.push(e), e.id),
        mutual(out) && answered(out.push(e), e) ==> mutual(out.push(e)),
{
    let after = out.push(e);
    lemma_kept(out, after);
    assert(after[out.len() as int].key() == e.id);
    lemma_has_key(after, out.len() as int);
    if mutual(out) && answered(after, e) {
        assert forall|i: int| 0 <= i < after.len() implies answered(after, #[trigger] after[i]) by {
            if i < out.len() {
                assert(answered(out, out[i]));
            }
        }
    }
}

/// Binding keeps everything, and the owner lists what was bound to it.
proof fn lemma_bind(out: Seq<ElementView>, owner: Seq<char>, r: BoundElementRefView)
    ensures
        bind(out, owner, r).len() == out.len(),
        kept(out, bind(out, owner, r)),
        mutual(out) ==> mutual(bind(out, owner, r)),
        has_key(out, owner) ==> listed(bind(out, owner, r), owner, r),
{
    let after = bind(out, owner, r);
    lemma_key_from(out, owner, 0);
    assert forall|e: ElementView, x: BoundElementRefView| #[trigger]
        holds(e, x) implies holds(with_bound(e, r), x) by {
        let v = e.bound_elements->0;
        let j = choose|j: int| 0 <= j < v.len() && v[j] == x;
        if !v.contains(r) {
            assert(v.push(r)[j] == x);
        }
    }
    assert forall|e: ElementView| #[trigger] holds(with_bound(e, r), r) by {
        match e.bound_elements {
            Some(v) => {
                if !v.contains(r) {
                    assert(v.push(r)[v.len() as int] == r);
                }
            },
            None => {
                assert(seq![r][0] == r);
            },
        }
    }
    assert(kept(out, after));
    lemma_kept(out, after);
    if mutual(out) {
        assert forall|i: int| 0 <= i < after.len() implies answered(after, #[trigger] after[i]) by {
            assert(answered(out, out[i]));
            assert(answered(after, out[i]));
            assert(after[i].id == out[i].id && after[i].extra == out[i].extra);
        }
    }
    if let Some(i) = key_index(out, owner) {
        assert(after[i] == with_bound(out[i], r));
        assert(after[i].id == owner && holds(after[i], r));
    }
}

proof fn lemma_labelled_box(
    out: Seq<ElementView>,
    i: int,
    shape: ElementView,
    label: Seq<char>,
)
    requires
        mutual(out),
        shape.id == box_id(i),
        shape.extra is Shape,
    ensures
        mutual(labelled_box(out, i, shape, label)),
        kept(out, labelled_box(out, i, shape, label)),
        has_key(labelled_box(out, i, shape, label), box_id(i)),
{
    let label_id = box_id(i) + "-text"@;
    let r = link(label_id, "text"@);
    let owner = ElementView { bound_elements: Some(seq![r]), ..shape };
    let a = out.push(owner);
    let t = text(label_id, Some(box_id(i)), label, Place::BoxLabel(i as usize));
    let b = a.push(t);
    lemma_push(out, owner);
    lemma_push(a, t);
    lemma_kept_trans(out, a, b);
    lemma_kept(a, b);
    assert(b[out.len() as int].id == box_id(i) && holds(b[out.len() as int], r)) by {
        assert(seq![r][0] == r);
    }
    assert(listed(b, box_id(i), r));
}

proof fn lemma_path_label(out: Seq<ElementView>, i: int, label: Option<Seq<char>>)
    requires
        mutual(out),
        has_key(out, path_id(i)),
    ensures
        mutual(path_label(out, i, label)),
        kept(out, path_label(out, i, label)),
{
    if let Some(l) = label {
        let label_id = path_id(i) + "-text"@;
        let r = link(label_id, "text"@);
        let t = text(label_id, Some(path_id(i)), l, Place::PathLabel(i as usize));
        let a = out.push(t);
        let b = bind(a, path_id(i), r);
        lemma_push(out, t);
        lemma_kept(out, a);
        lemma_bind(a, path_id(i), r);
        lemma_kept_trans(out, a, b);
        lemma_kept(out, b);
        assert forall|k: int| 0 <= k < b.len() implies answered(b, #[trigger] b[k]) by {
            if k < out.len() {
                assert(answered(out, out[k]));
                assert(answered(b, out[k]));
                assert(b[k].id == out[k].id && b[k].extra == out[k].extra);
            } else {
                assert(b[k].id == a[k].id && b[k].extra == a[k].extra);
            }
        }
    } else {
        lemma_kept_self(out);
    }
}

proof fn lemma_kept_self(out: Seq<ElementView>)
    ensures
        kept(out, out),
{
}

proof fn lemma_bound_path(
    out: Seq<ElementView>,
    i: int,
    source: Seq<char>,
    target: Seq<char>,
    heads: (Option<Seq<char>>, Option<Seq<char>>),
    style: Seq<char>,
    width: u8,
)
    requires
        mutual(out),
        has_key(out, source),
        has_key(out, target),
    ensures
        mutual(bound_path(out, i, source, target, heads, style, width)),
        kept(out, bound_path(out, i, source, target, heads, style, width)),
        has_key(bound_path(out, i, source, target, heads, style, width), path_id(i)),
{
    let e = arrow(
        path_id(i),
        Place::Path(i as usize),
        ArrowExtraView {
            start_binding: Some(source),
            end_binding: Some(target),
            start_arrowhead: heads.0,
            end_arrowhead: heads.1,
        },
        style,
        width,
    );
    let r = link(path_id(i), "arrow"@);
    let a = out.push(e);
    let b = bind(a, source, r);
    let c = bind(b, target, r);
    lemma_push(out, e);
    lemma_kept(out, a);
    lemma_bind(a, source, r);
    lemma_kept(a, b);
    lemma_bind(b, target, r);
    lemma_kept(b, c);
    lemma_kept_trans(out, a, b);
    lemma_kept_trans(out, b, c);
    lemma_kept_trans(a, b, c);
    lemma_kept(out, c);
    assert forall|k: int| 0 <= k < c.len() implies answered(c, #[trigger] c[k]) by {
        if k < out.len() {
            assert(answered(out, out[k]));
            assert(answered(c, out[k]));
            assert(c[k].id == out[k].id && c[k].extra == out[k].extra);
        } else {
            assert(c[k].id == a[k].id && c[k].extra == a[k].extra);
        }
    }
}

// ---------------------------------------------------------------------------
// Graphs
// ---------------------------------------------------------------------------

proof fn lemma_containers<RV>(cs: Seq<ContainerLayoutView<RV>>, n: int)
    ensures
        mutual(containers(cs, n)),
    decreases n,
{
    if n > 0 {
        lemma_containers(cs, n - 1);
        let out = containers(cs, n - 1);
        let i = n - 1;
        let id = "c"@ + decimal(i);
        let frame = ElementView {
            stroke_style: "dashed"@,
            ..rect(id, Place::Container(i as usize), None)
        };
        lemma_push(out, frame);
        if let Some(l) = cs[n - 1].label {
            lemma_push(
                out.push(frame),
                text_aligned(
                    id + "-label"@,
                    None,
                    l,
                    Place::ContainerLabel(i as usize),
                    "left"@,
                    "top"@,
                ),
            );
        }
    }
}

proof fn lemma_nodes<RV>(out: Seq<ElementView>, ns: Seq<NodeLayoutView<RV>>, n: int)
    requires
        mutual(out),
    ensures
        mutual(nodes(out, ns, n)),
        forall|i: int| 0 <= i < n ==> has_key(nodes(out, ns, n), #[trigger] box_id(i)),
    decreases n,
{
    if n > 0 {
        lemma_nodes(out, ns, n - 1);
        let node = ns[n - 1];
        let shape = ElementView {
            kind: node_shape(node.kind),
            ..rect(box_id(n - 1), Place::Box((n - 1) as usize), node_roundness(node.kind))
        };
        lemma_labelled_box(nodes(out, ns, n - 1), n - 1, shape, node.label);
        lemma_kept(nodes(out, ns, n - 1), nodes(out, ns, n));
    }
}

proof fn lemma_edges<RV, CV>(out: Seq<ElementView>, g: GraphLayoutView<RV, CV>, i: int)
    requires
        mutual(out),
        forall|k: int| 0 <= k < g.nodes.len() ==> has_key(out, #[trigger] box_id(k)),
        0 <= i <= g.edges.len(),
        forall|k: int|
            0 <= k < i ==> has_key(g.nodes, (#[trigger] g.edges[k]).from) && has_key(
                g.nodes,
                g.edges[k].to,
            ),
    ensures
        edges(out, g, i) is Ok <==> graph_connected(g),
        edges(out, g, i) matches Ok(scene) ==> mutual(scene),
        edges(out, g, i) matches Err(e) ==> (e matches RenderErrorView::DanglingEdge { node_id }
            && !has_key(g.nodes, node_id)),
    decreases g.edges.len() - i,
{
    if i < g.edges.len() {
        let e = g.edges[i];
        lemma_key_from(g.nodes, e.from, 0);
        lemma_key_from(g.nodes, e.to, 0);
        if let Some(source) = key_index(g.nodes, e.from) {
            if let Some(target) = key_index(g.nodes, e.to) {
                let width: u8 = if e.weight == LineWeight::Thick {
                    2
                } else {
                    1
                };
                let a = bound_path(
                    out,
                    i,
                    box_id(source),
                    box_id(target),
                    edge_heads(e),
                    edge_style(e.line),
                    width,
                );
                lemma_bound_path(
                    out,
                    i,
                    box_id(source),
                    box_id(target),
                    edge_heads(e),
                    edge_style(e.line),
                    width,
                );
                lemma_path_label(a, i, e.label);
                let b = edge(out, i, source, target, e);
                lemma_kept(out, a);
                lemma_kept(a, b);
                lemma_edges(b, g, i + 1);
            }
        }
    }
}

/// A graph has a scene exactly if both ends of every edge are nodes, and every
/// reference in the scene goes both ways. Otherwise the error names an end that
/// is no node.
pub proof fn law_graph_scene<RV, CV>(g: GraphLayoutView<RV, CV>)
    ensures
        graph_scene(g) is Ok <==> graph_connected(g),
        graph_scene(g) matches Ok(scene) ==> mutual(scene),
        graph_scene(g) matches Err(e) ==> (e matches RenderErrorView::DanglingEdge { node_id }
            && !has_key(g.nodes, node_id)),
{
    let a = containers(g.containers, g.containers.len() as int);
    lemma_containers(g.containers, g.containers.len() as int);
    lemma_nodes(a, g.nodes, g.nodes.len() as int);
    lemma_edges(nodes(a, g.nodes, g.nodes.len() as int), g, 0);
}

// ---------------------------------------------------------------------------
// State machines
// ---------------------------------------------------------------------------

proof fn lemma_states<RV>(ss: Seq<StateBoxView<RV>>, n: int)
    ensures
        mutual(states(ss, n)),
        forall|i: int| 0 <= i < n ==> has_key(states(ss, n), #[trigger] box_id(i)),
    decreases n,
{
    if n > 0 {
        lemma_states(ss, n - 1);
        lemma_labelled_box(
            states(ss, n - 1),
            n - 1,
            rect(box_id(n - 1), Place::Box((n - 1) as usize), Some(3u8)),
            ss[n - 1].label,
        );
        lemma_kept(states(ss, n - 1), states(ss, n));
    }
}

proof fn lemma_pseudostates<RV, CV>(out: Seq<ElementView>, s: StateLayoutView<RV, CV>)
    requires
        mutual(out),
    ensures
        mutual(pseudostates(out, s)),
        kept(out, pseudostates(out, s)),
        s.initial is Some ==> has_key(pseudostates(out, s), "initial"@),
        s.final_state is Some ==> has_key(pseudostates(out, s), "final-outer"@),
{
    let i = ellipse("initial"@, Place::Initial, true);
    let a = match s.initial {
        Some(_) => out.push(i),
        None => out,
    };
    lemma_kept_self(out);
    lemma_push(out, i);
    let o = ellipse("final-outer"@, Place::FinalOuter, false);
    let b = a.push(o);
    let d = ellipse("final-inner"@, Place::FinalInner, true);
    lemma_push(a, o);
    lemma_push(b, d);
    lemma_kept_trans(a, b, b.push(d));
    lemma_kept_trans(out, a, b.push(d));
    lemma_kept(a, b.push(d));
    lemma_kept(b, b.push(d));
}

/// The id of the element of an end that is there is in the scene.
proof fn lemma_endpoint<RV, CV>(out: Seq<ElementView>, s: StateLayoutView<RV, CV>, e: EndpointView)
    requires
        forall|k: int| 0 <= k < s.states.len() ==> has_key(out, #[trigger] box_id(k)),
        s.initial is Some ==> has_key(out, "initial"@),
        s.final_state is Some ==> has_key(out, "final-outer"@),
    ensures
        endpoint_id(s, e) is Ok <==> end_there(s, e),
        endpoint_id(s, e) matches Ok(id) ==> has_key(out, id),
{
    if let EndpointView::State(id) = e {
        lemma_key_from(s.states, id, 0);
    }
}

proof fn lemma_transitions<RV, CV>(out: Seq<ElementView>, s: StateLayoutView<RV, CV>, i: int)
    requires
        mutual(out),
        forall|k: int| 0 <= k < s.states.len() ==> has_key(out, #[trigger] box_id(k)),
        s.initial is Some ==> has_key(out, "initial"@),
        s.final_state is Some ==> has_key(out, "final-outer"@),
        0 <= i <= s.transitions.len(),
        forall|k: int|
            0 <= k < i ==> end_there(s, (#[trigger] s.transitions[k]).from) && end_there(
                s,
                s.transitions[k].to,
            ),
    ensures
        transitions(out, s, i) is Ok <==> states_connected(s),
        transitions(out, s, i) matches Ok(scene) ==> mutual(scene),
        transitions(out, s, i) matches Err(e) ==> e is UnknownEndpoint,
    decreases s.transitions.len() - i,
{
    if i < s.transitions.len() {
        let t = s.transitions[i];
        lemma_endpoint(out, s, t.from);
        lemma_endpoint(out, s, t.to);
        if let Ok(source) = endpoint_id(s, t.from) {
            if let Ok(target) = endpoint_id(s, t.to) {
                let heads = (None, Some("triangle"@));
                let a = bound_path(out, i, source, target, heads, "solid"@, 1);
                let b = path_label(a, i, t.label);
                lemma_bound_path(out, i, source, target, heads, "solid"@, 1);
                lemma_path_label(a, i, t.label);
                lemma_kept(out, a);
                lemma_kept(a, b);
                lemma_transitions(b, s, i + 1);
            }
        }
    }
}

/// A state machine has a scene exactly if both ends of every transition are
/// there, and every reference in the scene goes both ways.
pub proof fn law_state_scene<RV, CV>(s: StateLayoutView<RV, CV>)
    ensures
        state_scene(s) is Ok <==> states_connected(s),
        state_scene(s) matches Ok(scene) ==> mutual(scene),
        state_scene(s) matches Err(e) ==> e is UnknownEndpoint,
{
    let a = states(s.states, s.states.len() as int);
    lemma_states(s.states, s.states.len() as int);
    lemma_pseudostates(a, s);
    lemma_kept(a, pseudostates(a, s));
    lemma_transitions(pseudostates(a, s), s, 0);
}

// ---------------------------------------------------------------------------
// Sequences
// ---------------------------------------------------------------------------

proof fn lemma_participants<HV>(ps: Seq<ParticipantLayoutView<HV>>, n: int)
    ensures
        mutual(participants(ps, n)),
    decreases n,
{
    if n > 0 {
        lemma_participants(ps, n - 1);
        let out = participants(ps, n - 1);
        let i = n - 1;
        let p = ps[i];
        let id = box_id(i);
        let label_id = id + "-text"@;
        let r = link(label_id, "text"@);
        let group = seq!["participant-"@ + decimal(i)];
        let head = ElementView {
            group_ids: group,
            bound_elements: Some(seq![r]),
            ..rect(id, Place::Box(i as usize), Some(3u8))
        };
        let a = out.push(head);
        lemma_push(out, head);
        let b = match stereotype(p.kind) {
            Some(st) => a.push(
                text(id + "-stereotype"@, None, st, Place::Stereotype(i as usize)),
            ),
            None => a,
        };
        if let Some(st) = stereotype(p.kind) {
            lemma_push(a, text(id + "-stereotype"@, None, st, Place::Stereotype(i as usize)));
        }
        let t = text(label_id, Some(id), p.label, Place::BoxLabel(i as usize));
        let c = b.push(t);
        assert(c[out.len() as int].id == id && holds(c[out.len() as int], r)) by {
            assert(seq![r][0] == r);
        }
        assert(listed(c, id, r));
        lemma_push(b, t);
        lemma_push(
            c,
            ElementView {
                group_ids: group,
                ..line(id + "-lifeline"@, Place::Lifeline(i as usize), true)
            },
        );
    }
}

proof fn lemma_messages<HV, MV>(out: Seq<ElementView>, s: SequenceLayoutView<HV, MV>, i: int)
    requires
        mutual(out),
        0 <= i <= s.messages.len(),
        forall|k: int|
            0 <= k < i ==> has_key(s.participants, (#[trigger] s.messages[k]).from) && has_key(
                s.participants,
                s.messages[k].to,
            ),
    ensures
        messages(out, s, i) is Ok <==> sequence_connected(s),
        messages(out, s, i) matches Ok(scene) ==> mutual(scene),
        messages(out, s, i) matches Err(e) ==> (e matches RenderErrorView::DanglingEdge { node_id }
            && !has_key(s.participants, node_id)),
    decreases s.messages.len() - i,
{
    if i < s.messages.len() {
        let m = s.messages[i];
        if has_key(s.participants, m.from) && has_key(s.participants, m.to) {
            let e = arrow(
                path_id(i),
                Place::Path(i as usize),
                ArrowExtraView {
                    start_binding: None,
                    end_binding: None,
                    start_arrowhead: None,
                    end_arrowhead: if m.arrow == ArrowType::Plain {
                        None
                    } else {
                        Some("triangle"@)
                    },
                },
                if m.line == LineStyle::Dashed {
                    "dashed"@
                } else {
                    "solid"@
                },
                1,
            );
            lemma_push(out, e);
            lemma_path_label(out.push(e), i, m.label);
            lemma_messages(message(out, i, m), s, i + 1);
        }
    }
}

/// A sequence has a scene exactly if both ends of every message are
/// participants, and every reference in the scene goes both ways. Otherwise the
/// error names an end that is no participant.
pub proof fn law_sequence_scene<HV, MV>(s: SequenceLayoutView<HV, MV>)
    ensures
        sequence_scene(s) is Ok <==> sequence_connected(s),
        sequence_scene(s) matches Ok(scene) ==> mutual(scene),
        sequence_scene(s) matches Err(e) ==> (e matches RenderErrorView::DanglingEdge { node_id }
            && !has_key(s.participants, node_id)),
{
    lemma_participants(s.participants, s.participants.len() as int);
    lemma_messages(participants(s.participants, s.participants.len() as int), s, 0);
}

// ---------------------------------------------------------------------------
// Classes and entities
// ---------------------------------------------------------------------------

proof fn lemma_sections(out: Seq<ElementView>, i: int, cs: Seq<CompartmentView>, n: int)
    requires
        mutual(out),
    ensures
        mutual(sections(out, i, cs, n)),
        kept(out, sections(out, i, cs, n)),
    decreases n,
{
    lemma_kept_self(out);
    if n > 0 {
        lemma_sections(out, i, cs, n - 1);
        let c = n - 1;
        let a = sections(out, i, cs, n - 1);
        let d = line(
            box_id(i) + "-div"@ + decimal(c),
            Place::Divider(i as usize, c as usize),
            false,
        );
        let t = text_aligned(
            box_id(i) + "-sect"@ + decimal(c),
            None,
            joined(cs[c].rows, "\n"@),
            Place::Section(i as usize, c as usize),
            "left"@,
            "top"@,
        );
        lemma_push(a, d);
        lemma_push(a.push(d), t);
        lemma_kept_trans(a, a.push(d), a.push(d).push(t));
        lemma_kept_trans(out, a, a.push(d).push(t));
    }
}

proof fn lemma_class_boxes<RV>(bs: Seq<CompartmentBoxView<RV>>, n: int)
    ensures
        mutual(class_boxes(bs, n)),
        forall|i: int| 0 <= i < n ==> has_key(class_boxes(bs, n), #[trigger] box_id(i)),
    decreases n,
{
    if n > 0 {
        lemma_class_boxes(bs, n - 1);
        let i = n - 1;
        let out = class_boxes(bs, n - 1);
        let b = bs[i];
        let frame = rect(box_id(i), Place::Box(i as usize), Some(3u8));
        let head = text(box_id(i) + "-title"@, None, title(b), Place::Title(i as usize));
        let framed = out.push(frame);
        let headed = framed.push(head);
        lemma_push(out, frame);
        lemma_push(framed, head);
        lemma_sections(headed, i, b.compartments, b.compartments.len() as int);
        let after = class_boxes(bs, n);
        lemma_kept_trans(out, framed, headed);
        lemma_kept_trans(out, headed, after);
        lemma_kept_trans(framed, headed, after);
        lemma_kept(out, after);
        lemma_kept(framed, after);
    }
}

proof fn lemma_multiplicity(
    out: Seq<ElementView>,
    i: int,
    mult: Option<Seq<char>>,
    suffix: Seq<char>,
    place: Place,
)
    requires
        mutual(out),
    ensures
        mutual(multiplicity(out, i, mult, suffix, place)),
        kept(out, multiplicity(out, i, mult, suffix, place)),
{
    lemma_kept_self(out);
    if let Some(m) = mult {
        lemma_push(out, text(path_id(i) + suffix, None, m, place));
    }
}

proof fn lemma_relations<RV, CV>(out: Seq<ElementView>, l: ClassLayoutView<RV, CV>, i: int)
    requires
        mutual(out),
        forall|k: int| 0 <= k < l.boxes.len() ==> has_key(out, #[trigger] box_id(k)),
        0 <= i <= l.relations.len(),
        forall|k: int|
            0 <= k < i ==> has_key(l.boxes, (#[trigger] l.relations[k]).from) && has_key(
                l.boxes,
                l.relations[k].to,
            ),
    ensures
        relations(out, l, i) is Ok <==> classes_connected(l),
        relations(out, l, i) matches Ok(scene) ==> mutual(scene),
        relations(out, l, i) matches Err(e) ==> (e matches RenderErrorView::DanglingEdge {
            node_id,
        } && !has_key(l.boxes, node_id)),
    decreases l.relations.len() - i,
{
    if i < l.relations.len() {
        let r = l.relations[i];
        lemma_key_from(l.boxes, r.from, 0);
        lemma_key_from(l.boxes, r.to, 0);
        if let Some(source) = key_index(l.boxes, r.from) {
            if let Some(target) = key_index(l.boxes, r.to) {
                let heads = (arrowhead(r.from_marker), arrowhead(r.to_marker));
                let style = if r.line == LineStyle::Dashed {
                    "dashed"@
                } else {
                    "solid"@
                };
                let a = bound_path(out, i, box_id(source), box_id(target), heads, style, 1);
                let b = path_label(a, i, r.label);
                let c = multiplicity(
                    b,
                    i,
                    r.from_mult,
                    "-mult-from"@,
                    Place::PathStart(i as usize),
                );
                let d = relation(out, i, source, target, r);
                lemma_bound_path(out, i, box_id(source), box_id(target), heads, style, 1);
                lemma_path_label(a, i, r.label);
                lemma_multiplicity(
                    b,
                    i,
                    r.from_mult,
                    "-mult-from"@,
                    Place::PathStart(i as usize),
                );
                lemma_multiplicity(c, i, r.to_mult, "-mult-to"@, Place::PathEnd(i as usize));
                lemma_kept_trans(out, a, b);
                lemma_kept_trans(out, b, c);
                lemma_kept_trans(out, c, d);
                lemma_kept(out, d);
                lemma_relations(d, l, i + 1);
            }
        }
    }
}

/// Boxes have a scene exactly if both ends of every relation are boxes, and every
/// reference in the scene goes both ways. Otherwise the error names an end that
/// is no box.
pub proof fn law_class_scene<RV, CV>(l: ClassLayoutView<RV, CV>)
    ensures
        class_scene(l) is Ok <==> classes_connected(l),
        class_scene(l) matches Ok(scene) ==> mutual(scene),
        class_scene(l) matches Err(e) ==> (e matches RenderErrorView::DanglingEdge { node_id }
            && !has_key(l.boxes, node_id)),
{
    lemma_class_boxes(l.boxes, l.boxes.len() as int);
    lemma_relations(class_boxes(l.boxes, l.boxes.len() as int), l, 0);
}

// ---------------------------------------------------------------------------
// Layouts
// ---------------------------------------------------------------------------

/// Numbering the elements keeps what they refer to.
proof fn lemma_seeded(scene: Seq<ElementView>)
    requires
        mutual(scene),
    ensures
        mutual(seeded(scene)),
{
    let after = seeded(scene);
    assert(kept(scene, after));
    lemma_kept(scene, after);
    assert forall|i: int| 0 <= i < after.len() implies answered(after, #[trigger] after[i]) by {
        assert(answered(scene, scene[i]));
        assert(answered(after, scene[i]));
    }
}

/// A layout is exported exactly if what it connects is there. Then every
/// reference between elements goes both ways, and the elements are numbered from
/// one on.
pub proof fn law_exported<RV, CV, HV, MV>(layout: SemanticLayoutView<RV, CV, HV, MV>)
    ensures
        exported(layout) is Ok <==> connected(layout),
        exported(layout) matches Ok(state) ==> mutual(state.elements) && forall|i: int|
            0 <= i < state.elements.len() ==> (#[trigger] state.elements[i]).seed == i + 1,
{
    match layout {
        SemanticLayoutView::Graph(g) => {
            law_graph_scene(g);
        },
        SemanticLayoutView::State(s) => {
            law_state_scene(s);
        },
        SemanticLayoutView::Sequence(s) => {
            law_sequence_scene(s);
        },
        SemanticLayoutView::Class(c) => {
            law_class_scene(c);
        },
        SemanticLayoutView::Er(c) => {
            law_class_scene(c);
        },
    }
    if let Ok(scene) = layout_scene(layout) {
        lemma_seeded(scene);
    }
}

} // verus!
