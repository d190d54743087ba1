//! Diagrams as Graphviz DOT documents.
//!
//! What is declared comes first, in the order of declaration, then what connects
//! it. Text that comes from a diagram is always escaped. Graphviz would add a
//! node for an id that is not declared, so an edge with such an end is an error.
use crate::dot::class::{
    class_document, class_stmts, relation_statement, relation_stmts, render_class,
};
use crate::dot::er::{as_class_relation, entity_stmts, er_document, er_relation_stmts, render_er};
use crate::escape::{dot_quoted, escape_record, escape_xml, quote_dot, record_text, xml_text};
use crate::ir::{
    has_key, position, ArrowType, ClassDiagramView, Diagram, DiagramView, Direction, Endpoint,
    EndpointView, ErDiagramView, GraphDiagram, GraphDiagramView, LineStyle, Node, NodeKind,
    NodeView, StateDiagram, StateDiagramView, StateView, Transition, TransitionView,
};
use crate::mermaid::mermaid;
use crate::plantuml::plantuml;
use crate::sound::known_end;
use crate::text::{concat, concat3, join, joined, lemma_views_push, opt_view, views};
use vstd::prelude::*;

pub mod class;
pub mod er;
pub mod laws;

verus! {

/// Why a diagram cannot be exported.
#[derive(Debug, Clone, PartialEq, Eq)]
pub enum RenderError {
    /// There is no way to show a diagram of this kind.
    UnsupportedDiagram {
        /// The kind.
        kind: &'static str,
    },
    /// An edge, a transition or a relation names what is not declared.
    DanglingEdge {
        /// The id that is not declared.
        node_id: String,
    },
    /// There is no way to show this end of a transition.
    UnknownEndpoint {
        /// The end.
        endpoint: String,
    },
    /// There is no way to lay a diagram out in this direction.
    UnknownDirection {
        /// The direction.
        direction: String,
    },
    /// There is no way to show a node of this kind.
    UnknownNodeKind {
        /// The kind.
        kind: String,
    },
    /// There is no way to show this head of an arrow.
    UnknownArrowType {
        /// The head.
        arrow: String,
    },
    /// There is no way to draw the line of a relation so.
    UnknownLineStyle {
        /// How it is to be drawn.
        line: String,
    },
    /// There is no way to show this marker.
    UnknownEndMarker {
        /// The marker.
        marker: String,
    },
}

/// The model of [`RenderError`].
#[verifier::ext_equal]
pub enum RenderErrorView {
    UnsupportedDiagram { kind: Seq<char> },
    DanglingEdge { node_id: Seq<char> },
    UnknownEndpoint { endpoint: Seq<char> },
    UnknownDirection { direction: Seq<char> },
    UnknownNodeKind { kind: Seq<char> },
    UnknownArrowType { arrow: Seq<char> },
    UnknownLineStyle { line: Seq<char> },
    UnknownEndMarker { marker: Seq<char> },
}

impl View for RenderError {
    type V = RenderErrorView;

    open spec fn view(&self) -> RenderErrorView {
        match self {
            RenderError::UnsupportedDiagram { kind } => RenderErrorView::UnsupportedDiagram {
                kind: kind@,
            },
            RenderError::DanglingEdge { node_id } => RenderErrorView::DanglingEdge {
                node_id: node_id@,
            },
            RenderError::UnknownEndpoint { endpoint } => RenderErrorView::UnknownEndpoint {
                endpoint: endpoint@,
            },
            RenderError::UnknownDirection { direction } => RenderErrorView::UnknownDirection {
                direction: direction@,
            },
            RenderError::UnknownNodeKind { kind } => RenderErrorView::UnknownNodeKind {
                kind: kind@,
            },
            RenderError::UnknownArrowType { arrow } => RenderErrorView::UnknownArrowType {
                arrow: arrow@,
            },
            RenderError::UnknownLineStyle { line } => RenderErrorView::UnknownLineStyle {
                line: line@,
            },
            RenderError::UnknownEndMarker { marker } => RenderErrorView::UnknownEndMarker {
                marker: marker@,
            },
        }
    }
}

/// What an error says.
pub open spec fn error_text(e: RenderErrorView) -> Seq<char> {
    match e {
        RenderErrorView::UnsupportedDiagram { kind } => "DOT export does not support "@ + kind
            + " diagrams"@,
        RenderErrorView::DanglingEdge { node_id } => "edge references undeclared node `"@ + node_id
            + "`"@,
        RenderErrorView::UnknownEndpoint { endpoint } => "unresolved transition endpoint: "@
            + endpoint,
        RenderErrorView::UnknownDirection { direction } => "unsupported DOT rank direction: "@
            + direction,
        RenderErrorView::UnknownNodeKind { kind } => "unsupported DOT graph node kind: "@ + kind,
        RenderErrorView::UnknownArrowType { arrow } => "unsupported DOT arrow type: "@ + arrow,
        RenderErrorView::UnknownLineStyle { line } => "unsupported DOT line style: "@ + line,
        RenderErrorView::UnknownEndMarker { marker } => "unsupported DOT end marker: "@ + marker,
    }
}

impl RenderError {
    /// What the error says.
    pub fn to_string(&self) -> (r: String)
        ensures
            r@ == error_text(self@),
    {
        match self {
            RenderError::UnsupportedDiagram { kind } => concat3(
                "DOT export does not support ",
                *kind,
                " diagrams",
            ),
            RenderError::DanglingEdge { node_id } => concat3(
                "edge references undeclared node `",
                node_id.as_str(),
                "`",
            ),
            RenderError::UnknownEndpoint { endpoint } => concat(
                "unresolved transition endpoint: ",
                endpoint.as_str(),
            ),
            RenderError::UnknownDirection { direction } => concat(
                "unsupported DOT rank direction: ",
                direction.as_str(),
            ),
            RenderError::UnknownNodeKind { kind } => concat(
                "unsupported DOT graph node kind: ",
                kind.as_str(),
            ),
            RenderError::UnknownArrowType { arrow } => concat(
                "unsupported DOT arrow type: ",
                arrow.as_str(),
            ),
            RenderError::UnknownLineStyle { line } => concat(
                "unsupported DOT line style: ",
                line.as_str(),
            ),
            RenderError::UnknownEndMarker { marker } => concat(
                "unsupported DOT end marker: ",
                marker.as_str(),
            ),
        }
    }
}

/// A text, or why there is none.
pub type TextView = Result<Seq<char>, RenderErrorView>;

/// The model of a text, or of why there is none.
pub open spec fn text_view(r: Result<String, RenderError>) -> TextView {
    match r {
        Ok(s) => Ok(s@),
        Err(e) => Err(e@),
    }
}

/// The error about an id that is not declared.
pub open spec fn dangling(id: Seq<char>) -> TextView {
    Err(RenderErrorView::DanglingEdge { node_id: id })
}

/// The error about an id that is not declared.
pub fn dangling_error(id: &String) -> (r: RenderError)
    ensures
        Err::<Seq<char>, RenderErrorView>(r@) == dangling(id@),
{
    RenderError::DanglingEdge { node_id: id.clone() }
}

// ---------------------------------------------------------------------------
// Escaping
// ---------------------------------------------------------------------------

/// Wraps `s` in double quotes, escaping what is special inside a DOT string.
pub fn quote(s: &str) -> (r: String)
    ensures
        r@ == dot_quoted(s@),
{
    quote_dot(s)
}

/// Escapes the characters that mean something inside a DOT record label.
pub fn record_escape(s: &str) -> (r: String)
    ensures
        r@ == record_text(s@),
{
    escape_record(s)
}

/// Escapes `& < > "` for an HTML-like label.
pub fn html_escape(s: &str) -> (r: String)
    ensures
        r@ == xml_text(s@),
{
    escape_xml(s)
}

/// Appends `s` in double quotes.
pub fn push_quoted(out: &mut String, s: &str)
    ensures
        final(out)@ == old(out)@ + dot_quoted(s@),
{
    let q = quote(s);
    out.append(q.as_str());
}

// ---------------------------------------------------------------------------
// Graphs
// ---------------------------------------------------------------------------

/// The rank direction for a direction.
pub open spec fn rank_direction(d: Direction) -> Seq<char> {
    match d {
        Direction::Down => "TB"@,
        Direction::Right => "LR"@,
        Direction::Up => "BT"@,
        Direction::Left => "RL"@,
    }
}

/// The rank direction for a direction.
pub fn rankdir(direction: Direction) -> (r: &'static str)
    ensures
        r@ == rank_direction(direction),
{
    match direction {
        Direction::Down => "TB",
        Direction::Right => "LR",
        Direction::Up => "BT",
        Direction::Left => "RL",
    }
}

/// The attributes that give a node its shape.
pub open spec fn shape_attributes(kind: NodeKind) -> Seq<char> {
    match kind {
        NodeKind::Default => ""@,
        NodeKind::Rectangle => " shape=box style=\"\""@,
        NodeKind::RoundedRectangle => " shape=box style=rounded"@,
        NodeKind::Circle => " shape=circle style=\"\""@,
        NodeKind::Diamond => " shape=diamond style=\"\""@,
    }
}

/// The first `n` nodes after the text `out`.
pub open spec fn node_stmts(out: Seq<char>, nodes: Seq<NodeView>, n: int) -> Seq<char>
    decreases n,
{
    if n <= 0 {
        out
    } else {
        let node = nodes[n - 1];
        node_stmts(out, nodes, n - 1) + "  "@ + dot_quoted(node.id) + " [label="@ + dot_quoted(
            node.label,
        ) + shape_attributes(node.kind) + "];\n"@
    }
}

/// The attributes of an edge.
pub open spec fn edge_attributes(label: Option<Seq<char>>, arrow: ArrowType) -> Seq<Seq<char>> {
    let labelled = match label {
        Some(l) => Seq::empty().push("label="@ + dot_quoted(l)),
        None => Seq::empty(),
    };
    if arrow == ArrowType::Plain {
        labelled.push("dir=none"@)
    } else {
        labelled
    }
}

/// An edge.
pub open spec fn edge_statement(
    from: Seq<char>,
    to: Seq<char>,
    label: Option<Seq<char>>,
    arrow: ArrowType,
) -> Seq<char> {
    let attributes = edge_attributes(label, arrow);
    let ends = "  "@ + dot_quoted(from) + " -> "@ + dot_quoted(to);
    if attributes.len() == 0 {
        ends + ";\n"@
    } else {
        ends + " ["@ + joined(attributes, " "@) + "];\n"@
    }
}

/// The edges from `i` on after the text `out`, and the end of the document.
pub open spec fn edge_stmts(out: Seq<char>, g: GraphDiagramView, i: int) -> TextView
    decreases g.edges.len() - i,
{
    if i >= g.edges.len() {
        Ok(out + "}\n"@)
    } else {
        let e = g.edges[i];
        if !has_key(g.nodes, e.from) {
            dangling(e.from)
        } else if !has_key(g.nodes, e.to) {
            dangling(e.to)
        } else {
            edge_stmts(out + edge_statement(e.from, e.to, e.label, e.arrow), g, i + 1)
        }
    }
}

/// The document of a graph.
pub open spec fn graph_document(g: GraphDiagramView) -> TextView {
    let head = "digraph {\n"@ + "  rankdir="@ + rank_direction(g.direction) + ";\n"@
        + "  node [shape=box style=rounded];\n"@;
    edge_stmts(node_stmts(head, g.nodes, g.nodes.len() as int), g, 0)
}

/// An edge.
pub fn edge_stmt(from: &str, to: &str, label: &Option<String>, arrow: ArrowType) -> (r: String)
    ensures
        r@ == edge_statement(from@, to@, opt_view(*label), arrow),
{
    broadcast use lemma_views_push;

    let mut attributes: Vec<String> = Vec::new();
    assert(views(attributes@) =~= Seq::<Seq<char>>::empty());
    match label {
        Some(l) => {
            let mut a = String::from_str("label=");
            push_quoted(&mut a, l.as_str());
            attributes.push(a);
        },
        None => {},
    }
    if arrow == ArrowType::Plain {
        attributes.push(String::from_str("dir=none"));
    }
    assert(views(attributes@) == edge_attributes(opt_view(*label), arrow));
    let mut out = String::from_str("  ");
    push_quoted(&mut out, from);
    out.append(" -> ");
    push_quoted(&mut out, to);
    if attributes.len() == 0 {
        out.append(";\n");
    } else {
        out.append(" [");
        let all = join(&attributes, " ");
        out.append(all.as_str());
        out.append("];\n");
    }
    out
}

fn push_node(out: &mut String, node: &Node)
    ensures
        final(out)@ == old(out)@ + "  "@ + dot_quoted(node.id@) + " [label="@ + dot_quoted(
            node.label@,
        ) + shape_attributes(node.kind) + "];\n"@,
{
    out.append("  ");
    push_quoted(out, node.id.as_str());
    out.append(" [label=");
    push_quoted(out, node.label.as_str());
    let attributes: &'static str = match node.kind {
        NodeKind::Default => "",
        NodeKind::Rectangle => " shape=box style=\"\"",
        NodeKind::RoundedRectangle => " shape=box style=rounded",
        NodeKind::Circle => " shape=circle style=\"\"",
        NodeKind::Diamond => " shape=diamond style=\"\"",
    };
    out.append(attributes);
    out.append("];\n");
}

/// The document of a graph.
pub fn render_graph(g: &GraphDiagram) -> (r: Result<String, RenderError>)
    ensures
        text_view(r) == graph_document(g@),
{
    let ghost v = g@;
    let mut out = String::from_str("digraph {\n");
    out.append("  rankdir=");
    out.append(rankdir(g.direction));
    out.append(";\n");
    out.append("  node [shape=box style=rounded];\n");
    let ghost head = out@;
    let mut k: usize = 0;
    while k < g.nodes.len()
        invariant
            k <= g.nodes@.len(),
            v == g@,
            out@ == node_stmts(head, v.nodes, k as int),
        decreases g.nodes@.len() - k,
    {
        push_node(&mut out, &g.nodes[k]);
        k = k + 1;
    }
    let mut i: usize = 0;
    while i < g.edges.len()
        invariant
            i <= g.edges@.len(),
            v == g@,
            graph_document(v) == edge_stmts(out@, v, i as int),
        decreases g.edges@.len() - i,
    {
        let e = &g.edges[i];
        assert(v.edges[i as int] == e@);
        if position(g.nodes.as_slice(), &e.from).is_none() {
            return Err(dangling_error(&e.from));
        }
        if position(g.nodes.as_slice(), &e.to).is_none() {
            return Err(dangling_error(&e.to));
        }
        let stmt = edge_stmt(e.from.as_str(), e.to.as_str(), &e.label, e.arrow);
        out.append(stmt.as_str());
        i = i + 1;
    }
    out.append("}\n");
    Ok(out)
}

// ---------------------------------------------------------------------------
// State diagrams
// ---------------------------------------------------------------------------

/// The id of the initial pseudostate.
pub const INITIAL_ID: &'static str = "__initial__";

/// The id of the final pseudostate.
pub const FINAL_ID: &'static str = "__final__";

/// Whether a transition starts or ends at the initial pseudostate.
pub open spec fn uses_initial(ts: Seq<TransitionView>) -> bool {
    exists|i: int| 0 <= i < ts.len() && ((#[trigger] ts[i]).from is Initial || ts[i].to is Initial)
}

/// Whether a transition starts or ends at the final pseudostate.
pub open spec fn uses_final(ts: Seq<TransitionView>) -> bool {
    exists|i: int| 0 <= i < ts.len() && ((#[trigger] ts[i]).from is Final || ts[i].to is Final)
}

/// The pseudostates that are used, after the text `out`.
pub open spec fn pseudostate_stmts(out: Seq<char>, ts: Seq<TransitionView>) -> Seq<char> {
    let started = if uses_initial(ts) {
        out + "  "@ + dot_quoted(INITIAL_ID@) + " [shape=point width=0.2];\n"@
    } else {
        out
    };
    if uses_final(ts) {
        started + "  "@ + dot_quoted(FINAL_ID@)
            + " [shape=doublecircle label=\"\" width=0.2];\n"@
    } else {
        started
    }
}

/// The first `n` states after the text `out`.
pub open spec fn state_stmts(out: Seq<char>, states: Seq<StateView>, n: int) -> Seq<char>
    decreases n,
{
    if n <= 0 {
        out
    } else {
        state_stmts(out, states, n - 1) + "  "@ + dot_quoted(states[n - 1].id) + " [label="@
            + dot_quoted(states[n - 1].label) + "];\n"@
    }
}

/// The id of one end of a transition.
pub open spec fn end_id(s: StateDiagramView, e: EndpointView) -> TextView {
    match e {
        EndpointView::Initial => Ok(INITIAL_ID@),
        EndpointView::Final => Ok(FINAL_ID@),
        EndpointView::State(id) => if has_key(s.states, id) {
            Ok(id)
        } else {
            dangling(id)
        },
    }
}

/// A transition.
pub open spec fn transition_statement(s: StateDiagramView, t: TransitionView) -> TextView {
    match end_id(s, t.from) {
        Ok(from) => match end_id(s, t.to) {
            Ok(to) => Ok(edge_statement(from, to, t.label, ArrowType::Triangle)),
            Err(e) => Err(e),
        },
        Err(e) => Err(e),
    }
}

/// The transitions from `i` on after the text `out`, and the end of the
/// document.
pub open spec fn transition_stmts(out: Seq<char>, s: StateDiagramView, i: int) -> TextView
    decreases s.transitions.len() - i,
{
    if i >= s.transitions.len() {
        Ok(out + "}\n"@)
    } else {
        match transition_statement(s, s.transitions[i]) {
            Ok(t) => transition_stmts(out + t, s, i + 1),
            Err(e) => Err(e),
        }
    }
}

/// The document of a state diagram.
pub open spec fn state_document(s: StateDiagramView) -> TextView {
    let head = "digraph {\n"@ + "  rankdir=TB;\n"@ + "  node [shape=box style=rounded];\n"@;
    transition_stmts(
        state_stmts(pseudostate_stmts(head, s.transitions), s.states, s.states.len() as int),
        s,
        0,
    )
}

fn find_initial(ts: &Vec<Transition>) -> (r: bool)
    ensures
        r == uses_initial(views(ts@)),
{
    let ghost all = views(ts@);
    let mut i: usize = 0;
    while i < ts.len()
        invariant
            i <= ts@.len(),
            all == views(ts@),
            forall|k: int| 0 <= k < i ==> !((#[trigger] all[k]).from is Initial || all[k].to is Initial),
        decreases ts@.len() - i,
    {
        assert(all[i as int] == ts@[i as int]@);
        let found = match (&ts[i].from, &ts[i].to) {
            (Endpoint::Initial, _) => true,
            (_, Endpoint::Initial) => true,
            _ => false,
        };
        if found {
            return true;
        }
        i = i + 1;
    }
    false
}

fn find_final(ts: &Vec<Transition>) -> (r: bool)
    ensures
        r == uses_final(views(ts@)),
{
    let ghost all = views(ts@);
    let mut i: usize = 0;
    while i < ts.len()
        invariant
            i <= ts@.len(),
            all == views(ts@),
            forall|k: int| 0 <= k < i ==> !((#[trigger] all[k]).from is Final || all[k].to is Final),
        decreases ts@.len() - i,
    {
        assert(all[i as int] == ts@[i as int]@);
        let found = match (&ts[i].from, &ts[i].to) {
            (Endpoint::Final, _) => true,
            (_, Endpoint::Final) => true,
            _ => false,
        };
        if found {
            return true;
        }
        i = i + 1;
    }
    false
}

/// The id of one end of a transition.
pub fn endpoint_id(s: &StateDiagram, e: &Endpoint) -> (r: Result<String, RenderError>)
    ensures
        text_view(r) == end_id(s@, e@),
{
    match e {
        Endpoint::Initial => Ok(String::from_str(INITIAL_ID)),
        Endpoint::Final => Ok(String::from_str(FINAL_ID)),
        Endpoint::State(id) => if position(s.states.as_slice(), id).is_some() {
            Ok(id.clone())
        } else {
            Err(dangling_error(id))
        },
    }
}

/// A transition.
pub fn transition_stmt(s: &StateDiagram, t: &Transition) -> (r: Result<String, RenderError>)
    ensures
        text_view(r) == transition_statement(s@, t@),
{
    match endpoint_id(s, &t.from) {
        Ok(from) => match endpoint_id(s, &t.to) {
            Ok(to) => Ok(edge_stmt(from.as_str(), to.as_str(), &t.label, ArrowType::Triangle)),
            Err(e) => Err(e),
        },
        Err(e) => Err(e),
    }
}

/// The document of a state diagram.
pub fn render_state(s: &StateDiagram) -> (r: Result<String, RenderError>)
    ensures
        text_view(r) == state_document(s@),
{
    let ghost v = s@;
    let mut out = String::from_str("digraph {\n");
    out.append("  rankdir=TB;\n");
    out.append("  node [shape=box style=rounded];\n");
    if find_initial(&s.transitions) {
        out.append("  ");
        push_quoted(&mut out, INITIAL_ID);
        out.append(" [shape=point width=0.2];\n");
    }
    if find_final(&s.transitions) {
        out.append("  ");
        push_quoted(&mut out, FINAL_ID);
        out.append(" [shape=doublecircle label=\"\" width=0.2];\n");
    }
    let ghost head = out@;
    let mut k: usize = 0;
    while k < s.states.len()
        invariant
            k <= s.states@.len(),
            v == s@,
            out@ == state_stmts(head, v.states, k as int),
        decreases s.states@.len() - k,
    {
        out.append("  ");
        push_quoted(&mut out, s.states[k].id.as_str());
        out.append(" [label=");
        push_quoted(&mut out, s.states[k].label.as_str());
        out.append("];\n");
        k = k + 1;
    }
    let mut i: usize = 0;
    while i < s.transitions.len()
        invariant
            i <= s.transitions@.len(),
            v == s@,
            state_document(v) == transition_stmts(out@, v, i as int),
        decreases s.transitions@.len() - i,
    {
        assert(v.transitions[i as int] == s.transitions@[i as int]@);
        match transition_stmt(s, &s.transitions[i]) {
            Ok(t) => {
                out.append(t.as_str());
            },
            Err(e) => {
                return Err(e);
            },
        }
        i = i + 1;
    }
    out.append("}\n");
    Ok(out)
}

// ---------------------------------------------------------------------------
// All diagrams
// ---------------------------------------------------------------------------

/// The document of a diagram.
pub open spec fn document(d: DiagramView) -> TextView {
    match d {
        DiagramView::Graph(g) => graph_document(g),
        DiagramView::State(s) => state_document(s),
        DiagramView::Sequence(_) => Err(
            RenderErrorView::UnsupportedDiagram { kind: "sequence"@ },
        ),
        DiagramView::Class(c) => class_document(c),
        DiagramView::Er(e) => er_document(e),
    }
}

/// Exports a diagram as a DOT document.
pub fn render(diagram: &Diagram) -> (r: Result<String, RenderError>)
    ensures
        text_view(r) == document(diagram@),
{
    match diagram {
        Diagram::Graph(g) => render_graph(g),
        Diagram::State(s) => render_state(s),
        Diagram::Sequence(_) => Err(RenderError::UnsupportedDiagram { kind: "sequence" }),
        Diagram::Class(c) => render_class(c),
        Diagram::Er(e) => render_er(e),
    }
}

// ---------------------------------------------------------------------------
// Laws
// ---------------------------------------------------------------------------

/// Whether a diagram declares the id `id`.
pub open spec fn declares(d: DiagramView, id: Seq<char>) -> bool {
    match d {
        DiagramView::Graph(g) => has_key(g.nodes, id),
        DiagramView::State(s) => has_key(s.states, id),
        DiagramView::Sequence(s) => has_key(s.participants, id),
        DiagramView::Class(c) => has_key(c.classes, id),
        DiagramView::Er(e) => has_key(e.entities, id),
    }
}

/// Whether a diagram can be shown: it is no sequence, what it connects is
/// declared, and no relation is dotted.
pub open spec fn complete(d: DiagramView) -> bool {
    match d {
        DiagramView::Graph(g) => forall|i: int|
            0 <= i < g.edges.len() ==> has_key(g.nodes, (#[trigger] g.edges[i]).from) && has_key(
                g.nodes,
                g.edges[i].to,
            ),
        DiagramView::State(s) => forall|i: int|
            0 <= i < s.transitions.len() ==> known_end(
                s.states,
                (#[trigger] s.transitions[i]).from,
            ) && known_end(s.states, s.transitions[i].to),
        DiagramView::Sequence(_) => false,
        DiagramView::Class(c) => forall|i: int|
            0 <= i < c.relations.len() ==> has_key(c.classes, (#[trigger] c.relations[i]).from)
                && has_key(c.classes, c.relations[i].to) && c.relations[i].line
                != LineStyle::Dotted,
        DiagramView::Er(e) => forall|i: int|
            0 <= i < e.relations.len() ==> has_key(e.entities, (#[trigger] e.relations[i]).from)
                && has_key(e.entities, e.relations[i].to) && e.relations[i].line
                != LineStyle::Dotted,
    }
}

proof fn lemma_edge_stmts(out: Seq<char>, g: GraphDiagramView, i: int)
    requires
        0 <= i <= g.edges.len(),
        forall|k: int|
            0 <= k < i ==> has_key(g.nodes, (#[trigger] g.edges[k]).from) && has_key(
                g.nodes,
                g.edges[k].to,
            ),
    ensures
        edge_stmts(out, g, i) is Ok <==> complete(DiagramView::Graph(g)),
        edge_stmts(out, g, i) matches Err(e) ==> (e matches RenderErrorView::DanglingEdge {
            node_id,
        } && !has_key(g.nodes, node_id)),
    decreases g.edges.len() - i,
{
    if i < g.edges.len() {
        let e = g.edges[i];
        if has_key(g.nodes, e.from) && has_key(g.nodes, e.to) {
            lemma_edge_stmts(out + edge_statement(e.from, e.to, e.label, e.arrow), g, i + 1);
        }
    }
}

proof fn lemma_transition_stmts(out: Seq<char>, s: StateDiagramView, i: int)
    requires
        0 <= i <= s.transitions.len(),
        forall|k: int|
            0 <= k < i ==> known_end(s.states, (#[trigger] s.transitions[k]).from) && known_end(
                s.states,
                s.transitions[k].to,
            ),
    ensures
        transition_stmts(out, s, i) is Ok <==> complete(DiagramView::State(s)),
        transition_stmts(out, s, i) matches Err(e) ==> (e matches RenderErrorView::DanglingEdge {
            node_id,
        } && !has_key(s.states, node_id)),
    decreases s.transitions.len() - i,
{
    if i < s.transitions.len() {
        if let Ok(t) = transition_statement(s, s.transitions[i]) {
            lemma_transition_stmts(out + t, s, i + 1);
        }
    }
}

proof fn lemma_relation_stmts(out: Seq<char>, c: ClassDiagramView, i: int)
    requires
        0 <= i <= c.relations.len(),
        forall|k: int|
            0 <= k < i ==> has_key(c.classes, (#[trigger] c.relations[k]).from) && has_key(
                c.classes,
                c.relations[k].to,
            ) && c.relations[k].line != LineStyle::Dotted,
    ensures
        relation_stmts(out, c, i) is Ok <==> complete(DiagramView::Class(c)),
        relation_stmts(out, c, i) matches Err(RenderErrorView::DanglingEdge { node_id })
            ==> !has_key(c.classes, node_id),
    decreases c.relations.len() - i,
{
    if i < c.relations.len() {
        if let Ok(t) = relation_statement(c.relations[i]) {
            if has_key(c.classes, c.relations[i].from) && has_key(c.classes, c.relations[i].to) {
                lemma_relation_stmts(out + t, c, i + 1);
            }
        }
    }
}

proof fn lemma_er_relation_stmts(out: Seq<char>, e: ErDiagramView, i: int)
    requires
        0 <= i <= e.relations.len(),
        forall|k: int|
            0 <= k < i ==> has_key(e.entities, (#[trigger] e.relations[k]).from) && has_key(
                e.entities,
                e.relations[k].to,
            ) && e.relations[k].line != LineStyle::Dotted,
    ensures
        er_relation_stmts(out, e, i) is Ok <==> complete(DiagramView::Er(e)),
        er_relation_stmts(out, e, i) matches Err(RenderErrorView::DanglingEdge { node_id })
            ==> !has_key(e.entities, node_id),
    decreases e.relations.len() - i,
{
    if i < e.relations.len() {
        if let Ok(t) = relation_statement(as_class_relation(e.relations[i])) {
            if has_key(e.entities, e.relations[i].from) && has_key(e.entities, e.relations[i].to) {
                lemma_er_relation_stmts(out + t, e, i + 1);
            }
        }
    }
}

/// A diagram is shown exactly if it is complete, and an id that is reported as
/// undeclared is undeclared.
pub proof fn law_complete_diagrams_are_shown(d: DiagramView)
    ensures
        document(d) is Ok <==> complete(d),
        document(d) matches Err(RenderErrorView::DanglingEdge { node_id }) ==> !declares(
            d,
            node_id,
        ),
{
    match d {
        DiagramView::Graph(g) => {
            let head = "digraph {\n"@ + "  rankdir="@ + rank_direction(g.direction) + ";\n"@
                + "  node [shape=box style=rounded];\n"@;
            lemma_edge_stmts(node_stmts(head, g.nodes, g.nodes.len() as int), g, 0);
        },
        DiagramView::State(s) => {
            let head = "digraph {\n"@ + "  rankdir=TB;\n"@
                + "  node [shape=box style=rounded];\n"@;
            lemma_transition_stmts(
                state_stmts(
                    pseudostate_stmts(head, s.transitions),
                    s.states,
                    s.states.len() as int,
                ),
                s,
                0,
            );
        },
        DiagramView::Sequence(_) => {},
        DiagramView::Class(c) => {
            let head = "digraph {\n"@ + "  rankdir="@ + rank_direction(c.direction) + ";\n"@
                + "  node [shape=record];\n"@;
            lemma_relation_stmts(class_stmts(head, c.classes, c.classes.len() as int), c, 0);
        },
        DiagramView::Er(e) => {
            let head = "digraph {\n"@ + "  rankdir=TB;\n"@ + "  node [shape=plaintext];\n"@;
            lemma_er_relation_stmts(entity_stmts(head, e.entities, e.entities.len() as int), e, 0);
        },
    }
}

/// Every diagram that a frontend accepts is shown, unless it is a sequence.
pub proof fn law_accepted_diagrams_are_shown(source: Seq<char>)
    ensures
        mermaid(source) matches Ok(d) ==> (document(d) is Ok <==> d !is Sequence),
        plantuml(source) matches Ok(d) ==> (document(d) is Ok <==> d !is Sequence),
{
    crate::mermaid::law_accepted_is_sound(source);
    crate::plantuml::law_accepted_is_sound(source);
    if let Ok(d) = mermaid(source) {
        law_complete_diagrams_are_shown(d);
    }
    if let Ok(d) = plantuml(source) {
        law_complete_diagrams_are_shown(d);
    }
}

} // verus!
