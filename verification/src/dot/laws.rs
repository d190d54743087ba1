//! What the documents show.
use crate::dot::class::{
    class_fields, class_stmts, class_title, marker_shape, record_label, relation_attributes,
    relation_statement, relation_stmts, rows_first, with_attribute,
};
use crate::dot::{
    document, edge_attributes, edge_statement, edge_stmts, end_id, graph_document,
    law_complete_diagrams_are_shown, node_stmts, pseudostate_stmts, rank_direction,
    shape_attributes, state_document, state_stmts, transition_statement, transition_stmts,
    uses_final, uses_initial,
};
use crate::dot::er::{
    as_class_relation, attribute_row, attribute_rows, entity_stmts, er_relation_stmts,
};
use crate::escape::{dot_quoted, law_dot_quoted, record_text, xml_text};
use crate::ir::{
    ArrowType, ClassDiagramView, ClassNodeView, ClassRelationView, DiagramView, Direction,
    EndMarker, EndpointView, ErAttributeView, ErDiagramView, ErEntityView, GraphDiagramView,
    LineStyle, NodeKind, NodeView, StateDiagramView, StateView, TransitionView,
};
use crate::parts::{
    holds, lemma_holds, lemma_holds_more, lemma_starts_holds, lemma_starts_more,
    lemma_starts_more_of, lemma_starts_self, lemma_starts_trans, starts,
};
use crate::sound::known_end;
use crate::text::{join_first, joined};
use vstd::prelude::*;

verus! {

// ---------------------------------------------------------------------------
// Graphs
// ---------------------------------------------------------------------------

proof fn lemma_edge_parts(from: Seq<char>, to: Seq<char>, label: Option<Seq<char>>, arrow: ArrowType)
    ensures
        edge_statement(from, to, label, arrow) == "  "@ + dot_quoted(from) + " -> "@ + dot_quoted(
            to,
        ) + (match label {
            Some(l) => if arrow == ArrowType::Plain {
                " [label="@ + dot_quoted(l) + " dir=none];\n"@
            } else {
                " [label="@ + dot_quoted(l) + "];\n"@
            },
            None => if arrow == ArrowType::Plain {
                " [dir=none];\n"@
            } else {
                ";\n"@
            },
        }),
{
    reveal_with_fuel(join_first, 3);
    reveal_strlit(" [label=");
    reveal_strlit(" dir=none];\n");
    reveal_strlit("];\n");
    reveal_strlit(" [dir=none];\n");
    reveal_strlit(" [");
    reveal_strlit("label=");
    reveal_strlit("dir=none");
    reveal_strlit(" ");
    let said = edge_statement(from, to, label, arrow);
    let attributes = edge_attributes(label, arrow);
    match label {
        Some(l) => {
            assert(attributes[0] == "label="@ + dot_quoted(l));
            if arrow == ArrowType::Plain {
                assert(attributes.len() == 2);
                assert(said =~= "  "@ + dot_quoted(from) + " -> "@ + dot_quoted(to) + (" [label="@
                    + dot_quoted(l) + " dir=none];\n"@));
            } else {
                assert(attributes.len() == 1);
                assert(said =~= "  "@ + dot_quoted(from) + " -> "@ + dot_quoted(to) + (" [label="@
                    + dot_quoted(l) + "];\n"@));
            }
        },
        None => {
            if arrow == ArrowType::Plain {
                assert(attributes.len() == 1);
                assert(said =~= "  "@ + dot_quoted(from) + " -> "@ + dot_quoted(to)
                    + " [dir=none];\n"@);
            }
        },
    }
}

proof fn lemma_nodes_held(out: Seq<char>, nodes: Seq<NodeView>, n: int)
    requires
        0 <= n <= nodes.len(),
    ensures
        starts(node_stmts(out, nodes, n), out),
        forall|i: int|
            #![trigger nodes[i]]
            0 <= i < n ==> holds(
                node_stmts(out, nodes, n),
                "  "@ + dot_quoted(nodes[i].id) + " [label="@ + dot_quoted(nodes[i].label) + (
                match nodes[i].kind {
                    NodeKind::Default => ""@,
                    NodeKind::Rectangle => " shape=box style=\"\""@,
                    NodeKind::RoundedRectangle => " shape=box style=rounded"@,
                    NodeKind::Circle => " shape=circle style=\"\""@,
                    NodeKind::Diamond => " shape=diamond style=\"\""@,
                }) + "];\n"@,
            ),
    decreases n,
{
    if n <= 0 {
        lemma_starts_self(out, Seq::empty());
    } else {
        lemma_nodes_held(out, nodes, n - 1);
        let before = node_stmts(out, nodes, n - 1);
        let node = nodes[n - 1];
        let line = "  "@ + dot_quoted(node.id) + " [label="@ + dot_quoted(node.label)
            + shape_attributes(node.kind) + "];\n"@;
        assert(node_stmts(out, nodes, n) =~= before + line);
        lemma_starts_more_of(before, out, line);
        assert forall|i: int| #![trigger nodes[i]] 0 <= i < n implies holds(
            node_stmts(out, nodes, n),
            "  "@ + dot_quoted(nodes[i].id) + " [label="@ + dot_quoted(nodes[i].label) + (
            match nodes[i].kind {
                NodeKind::Default => ""@,
                NodeKind::Rectangle => " shape=box style=\"\""@,
                NodeKind::RoundedRectangle => " shape=box style=rounded"@,
                NodeKind::Circle => " shape=circle style=\"\""@,
                NodeKind::Diamond => " shape=diamond style=\"\""@,
            }) + "];\n"@,
        ) by {
            if i == n - 1 {
                lemma_holds(before + line + Seq::empty(), before, line, Seq::empty());
                assert(before + line + Seq::empty() =~= before + line);
            } else {
                lemma_holds_more(
                    before,
                    "  "@ + dot_quoted(nodes[i].id) + " [label="@ + dot_quoted(nodes[i].label)
                        + shape_attributes(nodes[i].kind) + "];\n"@,
                    line,
                );
            }
        }
    }
}

/// The document of a graph shows every node with its id, its label and its shape,
/// and the direction.
pub proof fn law_nodes_are_shown(g: GraphDiagramView, i: int)
    requires
        0 <= i < g.nodes.len(),
    ensures
        document(DiagramView::Graph(g)) matches Ok(text) ==> {
            &&& holds(
                text,
                "  "@ + dot_quoted(g.nodes[i].id) + " [label="@ + dot_quoted(g.nodes[i].label) + (
                match g.nodes[i].kind {
                    NodeKind::Default => ""@,
                    NodeKind::Rectangle => " shape=box style=\"\""@,
                    NodeKind::RoundedRectangle => " shape=box style=rounded"@,
                    NodeKind::Circle => " shape=circle style=\"\""@,
                    NodeKind::Diamond => " shape=diamond style=\"\""@,
                }) + "];\n"@,
            )
            &&& starts(
                text,
                "digraph {\n"@ + "  rankdir="@ + (match g.direction {
                    Direction::Down => "TB"@,
                    Direction::Right => "LR"@,
                    Direction::Up => "BT"@,
                    Direction::Left => "RL"@,
                }) + ";\n"@,
            )
        },
{
    let head = "digraph {\n"@ + "  rankdir="@ + rank_direction(g.direction) + ";\n"@;
    let full = head + "  node [shape=box style=rounded];\n"@;
    let nodes = node_stmts(full, g.nodes, g.nodes.len() as int);
    lemma_nodes_held(full, g.nodes, g.nodes.len() as int);
    lemma_edges_held(nodes, g, 0);
    if let Ok(text) = graph_document(g) {
        lemma_starts_trans(text, nodes, full);
        lemma_starts_more(text, head, "  node [shape=box style=rounded];\n"@);
        let _ = g.nodes[i];
        lemma_starts_holds(
            text,
            nodes,
            "  "@ + dot_quoted(g.nodes[i].id) + " [label="@ + dot_quoted(g.nodes[i].label)
                + shape_attributes(g.nodes[i].kind) + "];\n"@,
        );
    }
}

proof fn lemma_edges_held(out: Seq<char>, g: GraphDiagramView, i: int)
    requires
        0 <= i,
    ensures
        edge_stmts(out, g, i) matches Ok(text) ==> starts(text, out) && forall|j: int|
            #![trigger g.edges[j]]
            i <= j < g.edges.len() ==> holds(
                text,
                edge_statement(g.edges[j].from, g.edges[j].to, g.edges[j].label, g.edges[j].arrow),
            ),
    decreases g.edges.len() - i,
{
    if i >= g.edges.len() {
        lemma_starts_self(out, "}\n"@);
    } else {
        let e = g.edges[i];
        let line = edge_statement(e.from, e.to, e.label, e.arrow);
        lemma_edges_held(out + line, g, i + 1);
        if let Ok(text) = edge_stmts(out, g, i) {
            lemma_starts_more(text, out, line);
        }
    }
}

/// The document of a graph shows every edge with its ends, in their order, its
/// label where it has one, and that it has no head where it has none.
pub proof fn law_edges_are_shown(g: GraphDiagramView, i: int)
    requires
        0 <= i < g.edges.len(),
    ensures
        document(DiagramView::Graph(g)) matches Ok(text) ==> holds(
            text,
            "  "@ + dot_quoted(g.edges[i].from) + " -> "@ + dot_quoted(g.edges[i].to) + (
            match g.edges[i].label {
                Some(l) => if g.edges[i].arrow == ArrowType::Plain {
                    " [label="@ + dot_quoted(l) + " dir=none];\n"@
                } else {
                    " [label="@ + dot_quoted(l) + "];\n"@
                },
                None => if g.edges[i].arrow == ArrowType::Plain {
                    " [dir=none];\n"@
                } else {
                    ";\n"@
                },
            }),
        ),
{
    let head = "digraph {\n"@ + "  rankdir="@ + rank_direction(g.direction) + ";\n"@
        + "  node [shape=box style=rounded];\n"@;
    let e = g.edges[i];
    lemma_edges_held(node_stmts(head, g.nodes, g.nodes.len() as int), g, 0);
    lemma_edge_parts(e.from, e.to, e.label, e.arrow);
}

// ---------------------------------------------------------------------------
// State diagrams
// ---------------------------------------------------------------------------

proof fn lemma_states_held(out: Seq<char>, states: Seq<StateView>, n: int)
    requires
        0 <= n <= states.len(),
    ensures
        starts(state_stmts(out, states, n), out),
        forall|i: int|
            #![trigger states[i]]
            0 <= i < n ==> holds(
                state_stmts(out, states, n),
                "  "@ + dot_quoted(states[i].id) + " [label="@ + dot_quoted(states[i].label)
                    + "];\n"@,
            ),
    decreases n,
{
    if n <= 0 {
        lemma_starts_self(out, Seq::empty());
    } else {
        lemma_states_held(out, states, n - 1);
        let before = state_stmts(out, states, n - 1);
        let line = "  "@ + dot_quoted(states[n - 1].id) + " [label="@ + dot_quoted(
            states[n - 1].label,
        ) + "];\n"@;
        assert(state_stmts(out, states, n) =~= before + line);
        lemma_starts_more_of(before, out, line);
        assert forall|i: int| #![trigger states[i]] 0 <= i < n implies holds(
            state_stmts(out, states, n),
            "  "@ + dot_quoted(states[i].id) + " [label="@ + dot_quoted(states[i].label) + "];\n"@,
        ) by {
            if i == n - 1 {
                lemma_holds(before + line + Seq::empty(), before, line, Seq::empty());
                assert(before + line + Seq::empty() =~= before + line);
            } else {
                lemma_holds_more(
                    before,
                    "  "@ + dot_quoted(states[i].id) + " [label="@ + dot_quoted(states[i].label)
                        + "];\n"@,
                    line,
                );
            }
        }
    }
}

/// How an end of a transition is written: a state by its id, and the two
/// pseudostates by ids of their own.
pub open spec fn written_end(e: EndpointView) -> Seq<char> {
    match e {
        EndpointView::Initial => "__initial__"@,
        EndpointView::Final => "__final__"@,
        EndpointView::State(id) => id,
    }
}

/// A transition as a line of the document.
pub open spec fn written_transition(t: TransitionView) -> Seq<char> {
    let ends = "  "@ + dot_quoted(written_end(t.from)) + " -> "@ + dot_quoted(written_end(t.to));
    match t.label {
        Some(l) => ends + " [label="@ + dot_quoted(l) + "];\n"@,
        None => ends + ";\n"@,
    }
}

proof fn lemma_transition_parts(s: StateDiagramView, t: TransitionView)
    ensures
        transition_statement(s, t) matches Ok(line) ==> line == written_transition(t),
{
    if let Ok(line) = transition_statement(s, t) {
        lemma_edge_parts(
            end_id(s, t.from)->Ok_0,
            end_id(s, t.to)->Ok_0,
            t.label,
            ArrowType::Triangle,
        );
        assert(line =~= written_transition(t));
    }
}

/// The lines of the transitions from `i` on.
pub open spec fn transition_lines(ts: Seq<TransitionView>, i: int) -> Seq<char>
    decreases ts.len() - i,
{
    if 0 <= i < ts.len() {
        written_transition(ts[i]) + transition_lines(ts, i + 1)
    } else {
        Seq::empty()
    }
}

proof fn lemma_transitions_held(out: Seq<char>, s: StateDiagramView, i: int)
    requires
        0 <= i,
    ensures
        transition_stmts(out, s, i) matches Ok(text) ==> {
            &&& starts(text, out)
            &&& text == out + transition_lines(s.transitions, i) + "}\n"@
            &&& forall|j: int|
                #![trigger s.transitions[j]]
                i <= j < s.transitions.len() ==> holds(text, written_transition(s.transitions[j]))
        },
    decreases s.transitions.len() - i,
{
    if i >= s.transitions.len() {
        lemma_starts_self(out, "}\n"@);
        assert(out + Seq::<char>::empty() =~= out);
    } else {
        let t = s.transitions[i];
        lemma_transition_parts(s, t);
        if let Ok(line) = transition_statement(s, t) {
            lemma_transitions_held(out + line, s, i + 1);
            if let Ok(text) = transition_stmts(out, s, i) {
                lemma_starts_more(text, out, line);
                assert(text =~= out + transition_lines(s.transitions, i) + "}\n"@);
            }
        }
    }
}

/// The document of a state diagram shows every state with its id and its label, and
/// every transition with its ends, in their order, and the label that it has. A
/// label is shown behind `label=`, in quotes.
pub proof fn law_states_and_transitions_are_shown(s: StateDiagramView)
    ensures
        document(DiagramView::State(s)) matches Ok(text) ==> {
            &&& forall|i: int|
                #![trigger s.states[i]]
                0 <= i < s.states.len() ==> holds(
                    text,
                    "  "@ + dot_quoted(s.states[i].id) + " [label="@ + dot_quoted(
                        s.states[i].label,
                    ) + "];\n"@,
                )
            &&& forall|i: int|
                #![trigger s.transitions[i]]
                0 <= i < s.transitions.len() ==> holds(text, written_transition(s.transitions[i]))
            &&& forall|i: int|
                #![trigger s.transitions[i]]
                0 <= i < s.transitions.len() ==> (s.transitions[i].label matches Some(l) ==> holds(
                    written_transition(s.transitions[i]),
                    "label="@ + dot_quoted(l),
                ))
        },
{
    let head = "digraph {\n"@ + "  rankdir=TB;\n"@ + "  node [shape=box style=rounded];\n"@;
    let begun = pseudostate_stmts(head, s.transitions);
    let states = state_stmts(begun, s.states, s.states.len() as int);
    lemma_states_held(begun, s.states, s.states.len() as int);
    lemma_transitions_held(states, s, 0);
    if let Ok(text) = state_document(s) {
        assert forall|i: int| #![trigger s.states[i]] 0 <= i < s.states.len() implies holds(
            text,
            "  "@ + dot_quoted(s.states[i].id) + " [label="@ + dot_quoted(s.states[i].label)
                + "];\n"@,
        ) by {
            lemma_starts_holds(
                text,
                states,
                "  "@ + dot_quoted(s.states[i].id) + " [label="@ + dot_quoted(s.states[i].label)
                    + "];\n"@,
            );
        }
        assert forall|i: int|
            #![trigger s.transitions[i]]
            0 <= i < s.transitions.len() implies (s.transitions[i].label matches Some(l) ==> holds(
            written_transition(s.transitions[i]),
            "label="@ + dot_quoted(l),
        )) by {
            let t = s.transitions[i];
            if let Some(l) = t.label {
                reveal_strlit(" [label=");
                reveal_strlit("label=");
                reveal_strlit(" [");
                let ends = "  "@ + dot_quoted(written_end(t.from)) + " -> "@ + dot_quoted(
                    written_end(t.to),
                );
                assert(written_transition(t) =~= (ends + " ["@) + ("label="@ + dot_quoted(l))
                    + "];\n"@);
                lemma_holds(
                    written_transition(t),
                    ends + " ["@,
                    "label="@ + dot_quoted(l),
                    "];\n"@,
                );
            }
        }
    }
}

/// Two lines of the same transition are equal only where the labels are.
proof fn lemma_written_label(t: TransitionView, u: TransitionView)
    requires
        t.from == u.from,
        t.to == u.to,
        written_transition(t) == written_transition(u),
    ensures
        t.label == u.label,
{
    reveal_strlit(" [label=");
    reveal_strlit("];\n");
    reveal_strlit(";\n");
    let ends = "  "@ + dot_quoted(written_end(t.from)) + " -> "@ + dot_quoted(written_end(t.to));
    let n = ends.len() as int;
    let a = written_transition(t);
    let b = written_transition(u);
    match (t.label, u.label) {
        (Some(l), Some(m)) => {
            assert(a.subrange(n + 8, a.len() - 3) =~= dot_quoted(l));
            assert(b.subrange(n + 8, b.len() - 3) =~= dot_quoted(m));
            law_dot_quoted(l, m);
        },
        (Some(_), None) => {
            assert(a[n] == ' ');
            assert(b[n] == ';');
        },
        (None, Some(_)) => {
            assert(a[n] == ';');
            assert(b[n] == ' ');
        },
        (None, None) => {},
    }
}

proof fn lemma_lines_tell_labels(ts: Seq<TransitionView>, us: Seq<TransitionView>, k: int, i: int)
    requires
        ts.len() == us.len(),
        0 <= k <= i < ts.len(),
        forall|j: int| 0 <= j < ts.len() && j != i ==> ts[j] == us[j],
        ts[i].from == us[i].from,
        ts[i].to == us[i].to,
        transition_lines(ts, k) == transition_lines(us, k),
    ensures
        ts[i].label == us[i].label,
    decreases i - k,
{
    let a = transition_lines(ts, k);
    if k < i {
        let line = written_transition(ts[k]);
        assert(a.skip(line.len() as int) =~= transition_lines(ts, k + 1));
        assert(a.skip(line.len() as int) =~= transition_lines(us, k + 1));
        lemma_lines_tell_labels(ts, us, k + 1, i);
    } else {
        lemma_same_lines(ts, us, i + 1);
        let rest = transition_lines(ts, i + 1);
        assert(a.take(a.len() - rest.len()) =~= written_transition(ts[i]));
        assert(a.take(a.len() - rest.len()) =~= written_transition(us[i]));
        lemma_written_label(ts[i], us[i]);
    }
}

proof fn lemma_same_lines(ts: Seq<TransitionView>, us: Seq<TransitionView>, k: int)
    requires
        ts.len() == us.len(),
        forall|j: int| k <= j < ts.len() ==> ts[j] == us[j],
        0 <= k,
    ensures
        transition_lines(ts, k) == transition_lines(us, k),
    decreases ts.len() - k,
{
    if k < ts.len() {
        lemma_same_lines(ts, us, k + 1);
    }
}

/// State diagrams that differ in the label of one transition alone, in what it says
/// or in whether it is there, have different documents.
pub proof fn law_labels_are_told_apart(s: StateDiagramView, i: int, label: Option<Seq<char>>)
    requires
        0 <= i < s.transitions.len(),
        document(DiagramView::State(s)) is Ok,
        label != s.transitions[i].label,
    ensures
        ({
            let other = StateDiagramView {
                transitions: s.transitions.update(
                    i,
                    TransitionView { label, ..s.transitions[i] },
                ),
                ..s
            };
            &&& document(DiagramView::State(other)) is Ok
            &&& document(DiagramView::State(other)) != document(DiagramView::State(s))
        }),
{
    let us = s.transitions.update(i, TransitionView { label, ..s.transitions[i] });
    let other = StateDiagramView { transitions: us, ..s };
    law_complete_diagrams_are_shown(DiagramView::State(s));
    assert forall|k: int| 0 <= k < us.len() implies known_end(s.states, (#[trigger] us[k]).from)
        && known_end(s.states, us[k].to) by {
        assert(us[k].from == s.transitions[k].from);
    }
    law_complete_diagrams_are_shown(DiagramView::State(other));
    assert(uses_initial(us) == uses_initial(s.transitions)) by {
        if uses_initial(us) {
            let k = choose|k: int|
                0 <= k < us.len() && ((#[trigger] us[k]).from is Initial || us[k].to is Initial);
            assert(s.transitions[k].from == us[k].from);
        }
        if uses_initial(s.transitions) {
            let k = choose|k: int|
                0 <= k < us.len() && ((#[trigger] s.transitions[k]).from is Initial
                    || s.transitions[k].to is Initial);
            assert(s.transitions[k].from == us[k].from);
        }
    }
    assert(uses_final(us) == uses_final(s.transitions)) by {
        if uses_final(us) {
            let k = choose|k: int|
                0 <= k < us.len() && ((#[trigger] us[k]).from is Final || us[k].to is Final);
            assert(s.transitions[k].from == us[k].from);
        }
        if uses_final(s.transitions) {
            let k = choose|k: int|
                0 <= k < us.len() && ((#[trigger] s.transitions[k]).from is Final
                    || s.transitions[k].to is Final);
            assert(s.transitions[k].from == us[k].from);
        }
    }
    let head = "digraph {\n"@ + "  rankdir=TB;\n"@ + "  node [shape=box style=rounded];\n"@;
    let states = state_stmts(
        pseudostate_stmts(head, s.transitions),
        s.states,
        s.states.len() as int,
    );
    lemma_transitions_held(states, s, 0);
    lemma_transitions_held(states, other, 0);
    if document(DiagramView::State(other)) == document(DiagramView::State(s)) {
        let text = document(DiagramView::State(s))->Ok_0;
        reveal_strlit("}\n");
        assert(text.subrange(states.len() as int, text.len() - 2) =~= transition_lines(
            s.transitions,
            0,
        ));
        assert(text.subrange(states.len() as int, text.len() - 2) =~= transition_lines(us, 0));
        lemma_lines_tell_labels(s.transitions, us, 0, i);
    }
}

// ---------------------------------------------------------------------------
// Class and entity-relationship diagrams
// ---------------------------------------------------------------------------

/// How Graphviz names the head for a marker.
pub open spec fn named_head(m: EndMarker) -> Seq<char> {
    match m {
        EndMarker::Plain => "none"@,
        EndMarker::HollowTriangle => "empty"@,
        EndMarker::OpenArrow => "vee"@,
        EndMarker::FilledDiamond => "diamond"@,
        EndMarker::HollowDiamond => "odiamond"@,
        EndMarker::ErOne => "tee"@,
        EndMarker::ErMany => "crow"@,
        EndMarker::ErZeroOrOne => "odottee"@,
        EndMarker::ErOneOrMany => "teecrow"@,
        EndMarker::ErZeroOrMany => "odotcrow"@,
    }
}

/// The text behind `name`, in quotes, where there is one.
pub open spec fn said_behind(name: Seq<char>, value: Option<Seq<char>>) -> Seq<char> {
    match value {
        Some(v) => name + dot_quoted(v),
        None => ""@,
    }
}

/// A relation as a line of the document: its ends in their order, the marker of the
/// first at the tail and of the second at the head, whether it is dashed, its label,
/// and the multiplicities beside the ends they belong to.
pub open spec fn written_relation(r: ClassRelationView) -> Seq<char> {
    "  "@ + dot_quoted(r.from) + " -> "@ + dot_quoted(r.to) + " [dir=both arrowtail="@ + named_head(
        r.from_marker,
    ) + " arrowhead="@ + named_head(r.to_marker) + (if r.line == LineStyle::Dashed {
        " style=dashed"@
    } else {
        ""@
    }) + said_behind(" label="@, r.label) + said_behind(" taillabel="@, r.from_mult) + said_behind(
        " headlabel="@,
        r.to_mult,
    ) + "];\n"@
}

/// One more part, behind a space.
proof fn lemma_join_push(parts: Seq<Seq<char>>, x: Seq<char>)
    requires
        parts.len() > 0,
    ensures
        joined(parts.push(x), " "@) == joined(parts, " "@) + " "@ + x,
{
    let all = parts.push(x);
    lemma_join_same(parts, all, " "@, parts.len() as int);
}

proof fn lemma_join_same(a: Seq<Seq<char>>, b: Seq<Seq<char>>, sep: Seq<char>, n: int)
    requires
        0 <= n <= a.len(),
        n <= b.len(),
        forall|i: int| 0 <= i < n ==> a[i] == b[i],
    ensures
        join_first(a, sep, n) == join_first(b, sep, n),
    decreases n,
{
    if n > 1 {
        lemma_join_same(a, b, sep, n - 1);
    }
}

proof fn lemma_join_attribute(parts: Seq<Seq<char>>, name: Seq<char>, value: Option<Seq<char>>)
    requires
        parts.len() > 0,
    ensures
        with_attribute(parts, name, value).len() > 0,
        joined(with_attribute(parts, name, value), " "@) == joined(parts, " "@) + said_behind(
            " "@ + name,
            value,
        ),
{
    reveal_strlit("");
    match value {
        Some(v) => {
            lemma_join_push(parts, name + dot_quoted(v));
            assert(joined(parts, " "@) + " "@ + (name + dot_quoted(v)) =~= joined(parts, " "@) + (
            " "@ + name + dot_quoted(v)));
        },
        None => {
            assert(joined(parts, " "@) + ""@ =~= joined(parts, " "@));
        },
    }
}

/// How the attributes that every relation has begin.
proof fn lemma_marked(tail: Seq<char>, head: Seq<char>)
    ensures
        ({
            let three = Seq::empty().push("dir=both"@).push("arrowtail="@ + tail).push(
                "arrowhead="@ + head,
            );
            " ["@ + joined(three, " "@) == " [dir=both arrowtail="@ + tail + " arrowhead="@ + head
        }),
{
    reveal_strlit(" ");
    reveal_strlit(" [");
    reveal_strlit("dir=both");
    reveal_strlit("arrowtail=");
    reveal_strlit("arrowhead=");
    reveal_strlit(" [dir=both arrowtail=");
    reveal_strlit(" arrowhead=");
    let one = Seq::empty().push("dir=both"@);
    let two = one.push("arrowtail="@ + tail);
    lemma_join_push(one, "arrowtail="@ + tail);
    lemma_join_push(two, "arrowhead="@ + head);
    assert(joined(one, " "@) == "dir=both"@);
    assert(" ["@ + ("dir=both"@ + " "@ + ("arrowtail="@ + tail) + " "@ + ("arrowhead="@ + head))
        =~= " [dir=both arrowtail="@ + tail + " arrowhead="@ + head);
}

proof fn lemma_names()
    ensures
        " "@ + "label="@ == " label="@,
        " "@ + "taillabel="@ == " taillabel="@,
        " "@ + "headlabel="@ == " headlabel="@,
        " "@ + "style=dashed"@ == " style=dashed"@,
{
    reveal_strlit(" ");
    reveal_strlit("label=");
    reveal_strlit("taillabel=");
    reveal_strlit("headlabel=");
    reveal_strlit("style=dashed");
    reveal_strlit(" label=");
    reveal_strlit(" taillabel=");
    reveal_strlit(" headlabel=");
    reveal_strlit(" style=dashed");
    assert(" "@ + "label="@ =~= " label="@);
    assert(" "@ + "taillabel="@ =~= " taillabel="@);
    assert(" "@ + "headlabel="@ =~= " headlabel="@);
    assert(" "@ + "style=dashed"@ =~= " style=dashed"@);
}

proof fn lemma_relation_attributes(r: ClassRelationView)
    ensures
        ({
            let three = Seq::empty().push("dir=both"@).push(
                "arrowtail="@ + named_head(r.from_marker),
            ).push("arrowhead="@ + named_head(r.to_marker));
            joined(relation_attributes(r), " "@) == joined(three, " "@) + (if r.line
                == LineStyle::Dashed {
                " style=dashed"@
            } else {
                ""@
            }) + said_behind(" label="@, r.label) + said_behind(" taillabel="@, r.from_mult)
                + said_behind(" headlabel="@, r.to_mult)
        }),
{
    lemma_names();
    reveal_strlit("");
    let three = Seq::empty().push("dir=both"@).push("arrowtail="@ + named_head(r.from_marker)).push(
        "arrowhead="@ + named_head(r.to_marker),
    );
    assert(named_head(r.from_marker) == marker_shape(r.from_marker));
    assert(named_head(r.to_marker) == marker_shape(r.to_marker));
    let drawn = if r.line == LineStyle::Dashed {
        three.push("style=dashed"@)
    } else {
        three
    };
    if r.line == LineStyle::Dashed {
        lemma_join_push(three, "style=dashed"@);
        assert(joined(drawn, " "@) =~= joined(three, " "@) + (" "@ + "style=dashed"@));
    } else {
        assert(joined(drawn, " "@) =~= joined(three, " "@) + ""@);
    }
    let labelled = with_attribute(drawn, "label="@, r.label);
    lemma_join_attribute(drawn, "label="@, r.label);
    let tailed = with_attribute(labelled, "taillabel="@, r.from_mult);
    lemma_join_attribute(labelled, "taillabel="@, r.from_mult);
    lemma_join_attribute(tailed, "headlabel="@, r.to_mult);
}

proof fn lemma_relation_parts(r: ClassRelationView)
    ensures
        relation_statement(r) matches Ok(line) ==> line == written_relation(r),
{
    let tail = named_head(r.from_marker);
    let head = named_head(r.to_marker);
    let three = Seq::empty().push("dir=both"@).push("arrowtail="@ + tail).push(
        "arrowhead="@ + head,
    );
    lemma_marked(tail, head);
    lemma_relation_attributes(r);
    if let Ok(line) = relation_statement(r) {
        let ends = "  "@ + dot_quoted(r.from) + " -> "@ + dot_quoted(r.to);
        let begun = joined(three, " "@);
        let dashes = if r.line == LineStyle::Dashed {
            " style=dashed"@
        } else {
            ""@
        };
        let a = said_behind(" label="@, r.label);
        let b = said_behind(" taillabel="@, r.from_mult);
        let c = said_behind(" headlabel="@, r.to_mult);
        assert(line == ends + " ["@ + (begun + dashes + a + b + c) + "];\n"@);
        assert(ends + " ["@ + (begun + dashes + a + b + c) =~= ends + (" ["@ + begun) + dashes + a
            + b + c);
        let x = " [dir=both arrowtail="@;
        let y = " arrowhead="@;
        assert(ends + (x + tail + y + head) =~= ends + x + tail + y + head);
    }
}

proof fn lemma_relations_held(out: Seq<char>, c: ClassDiagramView, i: int)
    requires
        0 <= i,
    ensures
        relation_stmts(out, c, i) matches Ok(text) ==> starts(text, out) && forall|j: int|
            #![trigger c.relations[j]]
            i <= j < c.relations.len() ==> holds(text, written_relation(c.relations[j])),
    decreases c.relations.len() - i,
{
    if i >= c.relations.len() {
        lemma_starts_self(out, "}\n"@);
    } else {
        lemma_relation_parts(c.relations[i]);
        if let Ok(line) = relation_statement(c.relations[i]) {
            lemma_relations_held(out + line, c, i + 1);
            if let Ok(text) = relation_stmts(out, c, i) {
                lemma_starts_more(text, out, line);
            }
        }
    }
}

proof fn lemma_er_relations_held(out: Seq<char>, e: ErDiagramView, i: int)
    requires
        0 <= i,
    ensures
        er_relation_stmts(out, e, i) matches Ok(text) ==> starts(text, out) && forall|j: int|
            #![trigger e.relations[j]]
            i <= j < e.relations.len() ==> holds(
                text,
                written_relation(as_class_relation(e.relations[j])),
            ),
    decreases e.relations.len() - i,
{
    if i >= e.relations.len() {
        lemma_starts_self(out, "}\n"@);
    } else {
        lemma_relation_parts(as_class_relation(e.relations[i]));
        if let Ok(line) = relation_statement(as_class_relation(e.relations[i])) {
            lemma_er_relations_held(out + line, e, i + 1);
            if let Ok(text) = er_relation_stmts(out, e, i) {
                lemma_starts_more(text, out, line);
            }
        }
    }
}

/// The document of a class diagram shows every relation.
pub proof fn law_relations_are_shown(c: ClassDiagramView, i: int)
    requires
        0 <= i < c.relations.len(),
    ensures
        document(DiagramView::Class(c)) matches Ok(text) ==> holds(
            text,
            written_relation(c.relations[i]),
        ),
{
    let head = "digraph {\n"@ + "  rankdir="@ + rank_direction(c.direction) + ";\n"@
        + "  node [shape=record];\n"@;
    lemma_relations_held(class_stmts(head, c.classes, c.classes.len() as int), c, 0);
    let _ = c.relations[i];
}

/// The document of an entity-relationship diagram shows every relation: its ends, its
/// markers, whether it is dashed, and its label.
pub proof fn law_er_relations_are_shown(e: ErDiagramView, i: int)
    requires
        0 <= i < e.relations.len(),
    ensures
        document(DiagramView::Er(e)) matches Ok(text) ==> holds(
            text,
            written_relation(
                ClassRelationView {
                    from: e.relations[i].from,
                    to: e.relations[i].to,
                    from_marker: e.relations[i].from_marker,
                    to_marker: e.relations[i].to_marker,
                    line: e.relations[i].line,
                    label: e.relations[i].label,
                    from_mult: None,
                    to_mult: None,
                },
            ),
        ),
{
    let head = "digraph {\n"@ + "  rankdir=TB;\n"@ + "  node [shape=plaintext];\n"@;
    lemma_er_relations_held(entity_stmts(head, e.entities, e.entities.len() as int), e, 0);
    let _ = e.relations[i];
}

/// Rows of a class, each ended by a mark that aligns it to the left.
pub open spec fn written_rows(rows: Seq<Seq<char>>, n: int) -> Seq<char>
    decreases n,
{
    if n <= 0 {
        Seq::empty()
    } else {
        written_rows(rows, n - 1) + (record_text(rows[n - 1]) + "\\l"@)
    }
}

/// A compartment with rows, where there are any.
pub open spec fn compartment(rows: Seq<Seq<char>>) -> Seq<char> {
    if rows.len() > 0 {
        "|"@ + written_rows(rows, rows.len() as int)
    } else {
        ""@
    }
}

/// A class as a line of the document: its id, its stereotype where it has one, its
/// name, its attributes and its methods, in this order.
pub open spec fn written_class(c: ClassNodeView) -> Seq<char> {
    "  "@ + dot_quoted(c.id) + " [label=\"{"@ + (match c.stereotype {
        Some(st) => "\u{ab}"@ + record_text(st) + "\u{bb}\\n"@,
        None => ""@,
    }) + record_text(c.name) + compartment(c.attributes) + compartment(c.methods) + "}\"];\n"@
}

proof fn lemma_rows(rows: Seq<Seq<char>>, n: int)
    requires
        0 <= n <= rows.len(),
    ensures
        rows_first(rows, n) == written_rows(rows, n),
    decreases n,
{
    if n > 0 {
        lemma_rows(rows, n - 1);
        let w = written_rows(rows, n - 1);
        let t = record_text(rows[n - 1]);
        assert(w + t + "\\l"@ =~= w + (t + "\\l"@));
    }
}

proof fn lemma_join_bar(parts: Seq<Seq<char>>, x: Seq<char>)
    requires
        parts.len() > 0,
    ensures
        joined(parts.push(x), "|"@) == joined(parts, "|"@) + "|"@ + x,
{
    let all = parts.push(x);
    lemma_join_same(parts, all, "|"@, parts.len() as int);
}

proof fn lemma_class_fields(c: ClassNodeView)
    ensures
        joined(class_fields(c), "|"@) == class_title(c) + compartment(c.attributes) + compartment(
            c.methods,
        ),
{
    reveal_strlit("");
    let titled = Seq::empty().push(class_title(c));
    let t = class_title(c);
    let (a, m) = (compartment(c.attributes), compartment(c.methods));
    lemma_rows(c.attributes, c.attributes.len() as int);
    lemma_rows(c.methods, c.methods.len() as int);
    let (ra, rm) = (
        written_rows(c.attributes, c.attributes.len() as int),
        written_rows(c.methods, c.methods.len() as int),
    );
    assert(joined(titled, "|"@) == t);
    let with = if c.attributes.len() > 0 {
        titled.push(ra)
    } else {
        titled
    };
    if c.attributes.len() > 0 {
        lemma_join_bar(titled, ra);
        assert(t + "|"@ + ra =~= t + a);
    } else {
        assert(t =~= t + a);
    }
    if c.methods.len() > 0 {
        lemma_join_bar(with, rm);
        assert(t + a + "|"@ + rm =~= t + a + m);
    } else {
        assert(t + a =~= t + a + m);
    }
}

proof fn lemma_class_line(out: Seq<char>, c: ClassNodeView)
    ensures
        out + "  "@ + dot_quoted(c.id) + " [label=\""@ + record_label(c) + "\"];\n"@ == out
            + written_class(c),
{
    lemma_class_fields(c);
    reveal_strlit("");
    let st = match c.stereotype {
        Some(st) => "\u{ab}"@ + record_text(st) + "\u{bb}\\n"@,
        None => ""@,
    };
    let n = record_text(c.name);
    assert(class_title(c) =~= st + n);
    let (a, m) = (compartment(c.attributes), compartment(c.methods));
    lemma_class_marks();
    lemma_class_regroup(
        out,
        "  "@,
        dot_quoted(c.id),
        " [label=\""@,
        "{"@,
        st,
        n,
        a,
        m,
        "}"@,
        "\"];\n"@,
    );
}

proof fn lemma_class_marks()
    ensures
        " [label=\""@ + "{"@ == " [label=\"{"@,
        "}"@ + "\"];\n"@ == "}\"];\n"@,
{
    reveal_strlit(" [label=\"");
    reveal_strlit("{");
    reveal_strlit(" [label=\"{");
    reveal_strlit("}");
    reveal_strlit("\"];\n");
    reveal_strlit("}\"];\n");
    assert(" [label=\""@ + "{"@ =~= " [label=\"{"@);
    assert("}"@ + "\"];\n"@ =~= "}\"];\n"@);
}

proof fn lemma_class_regroup(
    o: Seq<char>,
    i: Seq<char>,
    d: Seq<char>,
    l: Seq<char>,
    b: Seq<char>,
    st: Seq<char>,
    n: Seq<char>,
    a: Seq<char>,
    m: Seq<char>,
    c: Seq<char>,
    e: Seq<char>,
)
    ensures
        o + i + d + l + (b + (st + n + a + m) + c) + e == o + (i + d + (l + b) + st + n + a + m + (c
            + e)),
{
    assert(o + i + d + l + (b + (st + n + a + m) + c) + e =~= o + (i + d + (l + b) + st + n + a + m
        + (c + e)));
}

proof fn lemma_classes_held(out: Seq<char>, classes: Seq<ClassNodeView>, n: int)
    requires
        0 <= n <= classes.len(),
    ensures
        starts(class_stmts(out, classes, n), out),
        forall|i: int|
            #![trigger classes[i]]
            0 <= i < n ==> holds(class_stmts(out, classes, n), written_class(classes[i])),
    decreases n,
{
    if n > 0 {
        let before = class_stmts(out, classes, n - 1);
        lemma_classes_held(out, classes, n - 1);
        let w = written_class(classes[n - 1]);
        lemma_class_line(before, classes[n - 1]);
        lemma_starts_self(before, w);
        lemma_starts_trans(before + w, before, out);
        assert(before + w =~= before + w + Seq::empty());
        lemma_holds(before + w, before, w, Seq::empty());
        assert forall|i: int| #![trigger classes[i]] 0 <= i < n implies holds(
            class_stmts(out, classes, n),
            written_class(classes[i]),
        ) by {
            if i < n - 1 {
                lemma_holds_more(before, written_class(classes[i]), w);
            }
        }
    } else {
        lemma_starts_self(out, out);
    }
}

/// The document of a class diagram shows every class with its stereotype, its name, all
/// its attributes and all its methods.
pub proof fn law_classes_are_shown(c: ClassDiagramView, i: int)
    requires
        0 <= i < c.classes.len(),
    ensures
        document(DiagramView::Class(c)) matches Ok(text) ==> holds(
            text,
            written_class(c.classes[i]),
        ),
{
    let head = "digraph {\n"@ + "  rankdir="@ + rank_direction(c.direction) + ";\n"@
        + "  node [shape=record];\n"@;
    let n = c.classes.len() as int;
    lemma_classes_held(head, c.classes, n);
    lemma_relations_held(class_stmts(head, c.classes, n), c, 0);
    let _ = c.classes[i];
    if let Ok(text) = document(DiagramView::Class(c)) {
        lemma_starts_holds(text, class_stmts(head, c.classes, n), written_class(c.classes[i]));
    }
}

/// An attribute of an entity as a row of its table: its keys, its type, its name and
/// its comment, in this order.
pub open spec fn written_attribute(a: ErAttributeView) -> Seq<char> {
    "<TR><TD>"@ + xml_text(joined(a.keys, ","@)) + "</TD><TD ALIGN=\"LEFT\">"@ + xml_text(
        a.type_text,
    ) + "</TD><TD ALIGN=\"LEFT\">"@ + xml_text(a.name) + "</TD><TD ALIGN=\"LEFT\">"@ + (
    match a.comment {
        Some(c) => xml_text(c),
        None => Seq::empty(),
    }) + "</TD></TR>"@
}

/// The rows of the first `n` attributes.
pub open spec fn written_attributes(attributes: Seq<ErAttributeView>, n: int) -> Seq<char>
    decreases n,
{
    if n <= 0 {
        Seq::empty()
    } else {
        written_attributes(attributes, n - 1) + written_attribute(attributes[n - 1])
    }
}

/// An entity as a line of the document: its id, its name and its attributes.
pub open spec fn written_entity(e: ErEntityView) -> Seq<char> {
    "  "@ + dot_quoted(e.id) + " [label=<"@ + (
    "<TABLE BORDER=\"0\" CELLBORDER=\"1\" CELLSPACING=\"0\" CELLPADDING=\"4\">"@
        + "<TR><TD COLSPAN=\"4\" BGCOLOR=\"LIGHTGREY\"><B>"@ + xml_text(e.name)
        + "</B></TD></TR>"@) + written_attributes(e.attributes, e.attributes.len() as int)
        + "</TABLE>"@ + ">];\n"@
}

proof fn lemma_attribute_row(out: Seq<char>, a: ErAttributeView)
    ensures
        attribute_row(out, a) == out + written_attribute(a),
{
    reveal_strlit("");
    assert(xml_text(""@) =~= Seq::empty());
    let k = xml_text(joined(a.keys, ","@));
    let t = xml_text(a.type_text);
    let n = xml_text(a.name);
    let c = match a.comment {
        Some(c) => xml_text(c),
        None => Seq::empty(),
    };
    let b = "</TD><TD ALIGN=\"LEFT\">"@;
    let (f, l) = ("<TR><TD>"@, "</TD></TR>"@);
    assert(out + f + k + b + t + b + n + b + c + l =~= out + (f + k + b + t + b + n + b + c + l));
}

proof fn lemma_attribute_rows(out: Seq<char>, attributes: Seq<ErAttributeView>, n: int)
    requires
        0 <= n <= attributes.len(),
    ensures
        attribute_rows(out, attributes, n) == out + written_attributes(attributes, n),
    decreases n,
{
    if n > 0 {
        lemma_attribute_rows(out, attributes, n - 1);
        let w = written_attributes(attributes, n - 1);
        let r = written_attribute(attributes[n - 1]);
        lemma_attribute_row(out + w, attributes[n - 1]);
        assert(out + w + r =~= out + (w + r));
    } else {
        assert(out + Seq::empty() =~= out);
    }
}

proof fn lemma_entities_held(out: Seq<char>, entities: Seq<ErEntityView>, n: int)
    requires
        0 <= n <= entities.len(),
    ensures
        starts(entity_stmts(out, entities, n), out),
        forall|i: int|
            #![trigger entities[i]]
            0 <= i < n ==> holds(entity_stmts(out, entities, n), written_entity(entities[i])),
    decreases n,
{
    if n > 0 {
        let before = entity_stmts(out, entities, n - 1);
        lemma_entities_held(out, entities, n - 1);
        let e = entities[n - 1];
        let w = written_entity(e);
        let top = "<TABLE BORDER=\"0\" CELLBORDER=\"1\" CELLSPACING=\"0\" CELLPADDING=\"4\">"@
            + "<TR><TD COLSPAN=\"4\" BGCOLOR=\"LIGHTGREY\"><B>"@ + xml_text(e.name)
            + "</B></TD></TR>"@;
        let rows = written_attributes(e.attributes, e.attributes.len() as int);
        lemma_attribute_rows(top, e.attributes, e.attributes.len() as int);
        let (i, d, l) = ("  "@, dot_quoted(e.id), " [label=<"@);
        let (x, y) = ("</TABLE>"@, ">];\n"@);
        assert(before + i + d + l + (top + rows + x) + y =~= before + (i + d + l + top + rows + x
            + y));
        lemma_starts_self(before, w);
        lemma_starts_trans(before + w, before, out);
        assert(before + w =~= before + w + Seq::empty());
        lemma_holds(before + w, before, w, Seq::empty());
        assert forall|i: int| #![trigger entities[i]] 0 <= i < n implies holds(
            entity_stmts(out, entities, n),
            written_entity(entities[i]),
        ) by {
            if i < n - 1 {
                lemma_holds_more(before, written_entity(entities[i]), w);
            }
        }
    } else {
        lemma_starts_self(out, out);
    }
}

/// The document of an entity-relationship diagram shows every entity with its name and
/// all its attributes.
pub proof fn law_entities_are_shown(e: ErDiagramView, i: int)
    requires
        0 <= i < e.entities.len(),
    ensures
        document(DiagramView::Er(e)) matches Ok(text) ==> holds(
            text,
            written_entity(e.entities[i]),
        ),
{
    let head = "digraph {\n"@ + "  rankdir=TB;\n"@ + "  node [shape=plaintext];\n"@;
    let n = e.entities.len() as int;
    lemma_entities_held(head, e.entities, n);
    lemma_er_relations_held(entity_stmts(head, e.entities, n), e, 0);
    let _ = e.entities[i];
    if let Ok(text) = document(DiagramView::Er(e)) {
        lemma_starts_holds(text, entity_stmts(head, e.entities, n), written_entity(e.entities[i]));
    }
}

/// The document of a graph and of a class diagram says which way it runs.
pub proof fn law_direction_is_shown(g: GraphDiagramView, c: ClassDiagramView)
    ensures
        document(DiagramView::Graph(g)) matches Ok(text) ==> starts(
            text,
            "digraph {\n"@ + "  rankdir="@ + written_direction(g.direction) + ";\n"@,
        ),
        document(DiagramView::Class(c)) matches Ok(text) ==> starts(
            text,
            "digraph {\n"@ + "  rankdir="@ + written_direction(c.direction) + ";\n"@,
        ),
{
    let a = "digraph {\n"@ + "  rankdir="@ + written_direction(g.direction) + ";\n"@;
    let b = "  node [shape=box style=rounded];\n"@;
    let n = g.nodes.len() as int;
    lemma_nodes_held(a + b, g.nodes, n);
    lemma_edges_held(node_stmts(a + b, g.nodes, n), g, 0);
    lemma_starts_self(a, b);
    if let Ok(text) = document(DiagramView::Graph(g)) {
        lemma_starts_trans(text, node_stmts(a + b, g.nodes, n), a + b);
        lemma_starts_trans(text, a + b, a);
    }
    let x = "digraph {\n"@ + "  rankdir="@ + written_direction(c.direction) + ";\n"@;
    let y = "  node [shape=record];\n"@;
    let k = c.classes.len() as int;
    lemma_classes_held(x + y, c.classes, k);
    lemma_relations_held(class_stmts(x + y, c.classes, k), c, 0);
    lemma_starts_self(x, y);
    if let Ok(text) = document(DiagramView::Class(c)) {
        lemma_starts_trans(text, class_stmts(x + y, c.classes, k), x + y);
        lemma_starts_trans(text, x + y, x);
    }
}

/// How a direction is written.
pub open spec fn written_direction(d: Direction) -> Seq<char> {
    match d {
        Direction::Down => "TB"@,
        Direction::Right => "LR"@,
        Direction::Up => "BT"@,
        Direction::Left => "RL"@,
    }
}

} // verus!
