//! Flowcharts: nodes, edges and subgraphs, statement by statement.
use crate::diag::{
    conclude, diagnostic, parsed, report, verdict, Diagnostic, DiagnosticView, ParsedView,
};
use crate::ir::{
    distinct_keys, has_key, key_from, key_index, lemma_container_view, lemma_distinct_push,
    lemma_distinct_update, lemma_key_from, position, Container, ContainerView, Diagram,
    DiagramView, Direction, Edge, EdgeView, GraphDiagram, GraphDiagramView, Identified, Named,
    Node, NodeKind, NodeView,
};
use crate::lines::{
    after_keyword, indent, lemma_indent, line_wf, lines_wf, strip_keyword_ci, Line, LineView,
};
use crate::mermaid::chain::{
    edge_chain, lemma_edge_chain_some, lemma_edge_chain_within, mention, try_parse_edge_chain,
    FlowchartEdge, FlowchartEdgeView, Mention, MentionView,
};
use crate::mermaid::edges::{node_decl, try_parse_node_decl, Stroke};
use crate::offsets::{byte_len_of, lemma_byte_len_cut};
use crate::sound::{
    all_filled, all_ids, all_members, filled, group_ids, group_members, grown,
    lemma_groups_prefix, lemma_groups_push, lemma_grown, lemma_has_key, lines_within, loop_free,
    owed, within,
};
use crate::table::Table;
use crate::text::{
    at_most, char_index, clip, contains_char, copy_opt, decimal, ends, ends_with_char, equals,
    find_char, first_word, first_word_of, has_char, has_prefix, lead_len, lemma_past_white,
    lemma_views_push, opt_view, past_white, push_decimal, same_string, starts_with, surround,
    take, to_string, to_upper, trim, trim_of, upper, views,
};
use vstd::multiset::Multiset;
use vstd::prelude::*;

verus! {

// ---------------------------------------------------------------------------
// The state of a flowchart that is being read
// ---------------------------------------------------------------------------

/// What is known of a node besides its id.
pub struct NodeSpec {
    /// The text it shows.
    pub label: String,
    /// Its shape.
    pub kind: NodeKind,
}

/// The model of [`NodeSpec`].
#[verifier::ext_equal]
pub struct NodeSpecView {
    pub label: Seq<char>,
    pub kind: NodeKind,
}

impl View for NodeSpec {
    type V = NodeSpecView;

    open spec fn view(&self) -> NodeSpecView {
        NodeSpecView { label: self.label@, kind: self.kind }
    }
}

/// An edge and the line that it stands on.
pub struct RawEdge {
    from: String,
    to: String,
    label: Option<String>,
    stroke: Stroke,
    start: usize,
    end: usize,
}

/// The model of [`RawEdge`].
#[verifier::ext_equal]
pub struct RawEdgeView {
    pub from: Seq<char>,
    pub to: Seq<char>,
    pub label: Option<Seq<char>>,
    pub stroke: Stroke,
    pub start: int,
    pub end: int,
}

impl View for RawEdge {
    type V = RawEdgeView;

    closed spec fn view(&self) -> RawEdgeView {
        RawEdgeView {
            from: self.from@,
            to: self.to@,
            label: opt_view(self.label),
            stroke: self.stroke,
            start: self.start as int,
            end: self.end as int,
        }
    }
}

/// A subgraph that is not closed yet.
pub struct ContainerBuilder {
    id: String,
    label: Option<String>,
    members: Vec<String>,
    children: Vec<Container>,
    start: usize,
    end: usize,
}

/// The model of [`ContainerBuilder`].
#[verifier::ext_equal]
pub struct ContainerBuilderView {
    pub group: ContainerView,
    pub start: int,
    pub end: int,
}

impl View for ContainerBuilder {
    type V = ContainerBuilderView;

    closed spec fn view(&self) -> ContainerBuilderView {
        ContainerBuilderView {
            group: ContainerView {
                id: self.id@,
                label: opt_view(self.label),
                members: views(self.members@),
                children: views(self.children@),
            },
            start: self.start as int,
            end: self.end as int,
        }
    }
}

/// A `subgraph` line.
pub struct GroupDecl {
    id: String,
    start: usize,
    end: usize,
}

/// The model of [`GroupDecl`].
#[verifier::ext_equal]
pub struct GroupDeclView {
    pub id: Seq<char>,
    pub start: int,
    pub end: int,
}

impl View for GroupDecl {
    type V = GroupDeclView;

    closed spec fn view(&self) -> GroupDeclView {
        GroupDeclView { id: self.id@, start: self.start as int, end: self.end as int }
    }
}

impl Named for GroupDeclView {
    open spec fn key(self) -> Seq<char> {
        self.id
    }
}

impl Identified for GroupDecl {
    fn id(&self) -> (r: &String) {
        &self.id
    }
}

/// A flowchart that is being read.
pub struct Flow {
    nodes: Table<NodeSpec>,
    edges: Vec<RawEdge>,
    stack: Vec<ContainerBuilder>,
    roots: Vec<Container>,
    decls: Vec<GroupDecl>,
    anonymous: usize,
    errors: Vec<Diagnostic>,
}

/// The model of [`Flow`].
#[verifier::ext_equal]
pub struct FlowView {
    /// The nodes, in the order in which they were first named.
    pub nodes: Seq<(Seq<char>, NodeSpecView)>,
    /// The edges.
    pub edges: Seq<RawEdgeView>,
    /// The subgraphs that are open, the innermost one last.
    pub stack: Seq<ContainerBuilderView>,
    /// The outermost subgraphs that are closed.
    pub roots: Seq<ContainerView>,
    /// The `subgraph` lines.
    pub decls: Seq<GroupDeclView>,
    /// The number of subgraphs without a name.
    pub anonymous: int,
    /// The errors.
    pub errors: Seq<DiagnosticView>,
}

impl View for Flow {
    type V = FlowView;

    closed spec fn view(&self) -> FlowView {
        FlowView {
            nodes: self.nodes@,
            edges: views(self.edges@),
            stack: views(self.stack@),
            roots: views(self.roots@),
            decls: views(self.decls@),
            anonymous: self.anonymous as int,
            errors: views(self.errors@),
        }
    }
}

/// Nothing read yet.
pub open spec fn flow_start(errors: Seq<DiagnosticView>) -> FlowView {
    FlowView {
        nodes: Seq::empty(),
        edges: Seq::empty(),
        stack: Seq::empty(),
        roots: Seq::empty(),
        decls: Seq::empty(),
        anonymous: 0,
        errors,
    }
}

// ---------------------------------------------------------------------------
// What a statement does
// ---------------------------------------------------------------------------

/// The error `message` about the line `l`.
pub open spec fn flow_error(st: FlowView, message: Seq<char>, l: LineView) -> FlowView {
    FlowView { errors: st.errors.push(diagnostic(message, l.start, l.end)), ..st }
}

/// What a mention says of its node.
pub open spec fn said_of(m: MentionView) -> NodeSpecView {
    NodeSpecView {
        label: match m.label {
            Some(l) => l,
            None => m.id,
        },
        kind: m.kind,
    }
}

/// A mention declares its node where it is the first one; where it has a shape,
/// it says anew what the node shows.
pub open spec fn named_node(nodes: Seq<(Seq<char>, NodeSpecView)>, m: MentionView) -> Seq<
    (Seq<char>, NodeSpecView),
> {
    match key_index(nodes, m.id) {
        Some(i) => if m.kind != NodeKind::Default {
            nodes.update(i, (nodes[i].0, said_of(m)))
        } else {
            nodes
        },
        None => nodes.push((m.id, said_of(m))),
    }
}

/// The innermost open subgraph with one more member.
pub open spec fn with_member(stack: Seq<ContainerBuilderView>, id: Seq<char>) -> Seq<
    ContainerBuilderView,
> {
    if stack.len() == 0 {
        stack
    } else {
        let top = stack.last();
        stack.drop_last().push(
            ContainerBuilderView {
                group: ContainerView { members: top.group.members.push(id), ..top.group },
                ..top
            },
        )
    }
}

/// A mention: the first one of a node makes it a member of the innermost open
/// subgraph, and no later one moves it.
pub open spec fn ensure_node(st: FlowView, m: MentionView) -> FlowView {
    FlowView {
        nodes: named_node(st.nodes, m),
        stack: if has_key(st.nodes, m.id) {
            st.stack
        } else {
            with_member(st.stack, m.id)
        },
        ..st
    }
}

/// The first `n` of the edges that the line `l` holds.
pub open spec fn add_edges(st: FlowView, edges: Seq<FlowchartEdgeView>, n: int, l: LineView) -> FlowView
    decreases n,
{
    if n <= 0 {
        st
    } else {
        let e = edges[n - 1];
        let before = ensure_node(ensure_node(add_edges(st, edges, n - 1, l), e.from), e.to);
        FlowView {
            edges: before.edges.push(
                RawEdgeView {
                    from: e.from.id,
                    to: e.to.id,
                    label: e.edge_label,
                    stroke: e.stroke,
                    start: l.start,
                    end: l.end,
                },
            ),
            ..before
        }
    }
}

/// The id and the title of a subgraph: `id [Title]`, or the whole text as the
/// id.
pub open spec fn subgraph_header(rest: Seq<char>) -> (Seq<char>, Option<Seq<char>>) {
    match char_index(rest, '[') {
        Some(k) => if ends(rest, ']') && trim(rest.take(k)).len() > 0 {
            (trim(rest.take(k)), Some(trim(rest.subrange(k + 1, rest.len() - 1))))
        } else {
            (rest, None)
        },
        None => (rest, None),
    }
}

/// The line opens a subgraph with the header `rest`.
pub open spec fn open_group(st: FlowView, rest: Seq<char>, l: LineView) -> FlowView {
    let (id, label) = if rest.len() == 0 {
        ("subGraph"@ + decimal(st.anonymous), None)
    } else {
        subgraph_header(rest)
    };
    FlowView {
        anonymous: if rest.len() == 0 {
            st.anonymous + 1
        } else {
            st.anonymous
        },
        decls: st.decls.push(GroupDeclView { id, start: l.start, end: l.end }),
        stack: st.stack.push(
            ContainerBuilderView {
                group: ContainerView {
                    id,
                    label,
                    members: Seq::empty(),
                    children: Seq::empty(),
                },
                start: l.start,
                end: l.end,
            },
        ),
        ..st
    }
}

/// The line closes the innermost open subgraph.
pub open spec fn close_group(st: FlowView, l: LineView) -> FlowView {
    if st.stack.len() == 0 {
        flow_error(st, "unmatched `end` (no open subgraph to close)"@, l)
    } else {
        let b = st.stack.last();
        let rest = st.stack.drop_last();
        let errors = if b.group.members.len() == 0 && b.group.children.len() == 0 {
            st.errors.push(
                diagnostic("subgraph `"@ + b.group.id + "` has no members"@, b.start, b.end),
            )
        } else {
            st.errors
        };
        if rest.len() == 0 {
            FlowView { stack: rest, roots: st.roots.push(b.group), errors, ..st }
        } else {
            let p = rest.last();
            FlowView {
                stack: rest.drop_last().push(
                    ContainerBuilderView {
                        group: ContainerView { children: p.group.children.push(b.group), ..p.group },
                        ..p
                    },
                ),
                errors,
                ..st
            }
        }
    }
}

/// Whether the line sets the direction of a subgraph.
pub open spec fn sets_direction(t: Seq<char>) -> bool {
    match after_keyword(t, "direction"@) {
        Some(rest) => {
            let d = upper(trim(rest));
            d == "LR"@ || d == "RL"@ || d == "TB"@ || d == "BT"@ || d == "TD"@
        },
        None => false,
    }
}

/// Whether the line is about styling.
pub open spec fn is_styling(t: Seq<char>) -> bool {
    has_prefix(t, "classDef"@) || has_prefix(t, "class "@) || has_prefix(t, "style "@)
        || has_prefix(t, "linkStyle"@) || has_prefix(t, "click "@)
}

/// A statement that is no subgraph line: edges, a node, or an error.
pub open spec fn flow_statement(st: FlowView, t: Seq<char>, l: LineView) -> FlowView {
    let at = l.start + indent(l.text);
    if has_char(t, ';') {
        flow_error(
            st,
            "unsupported: semicolon statement separator; use newlines instead (kozue does not support this yet)"@,
            l,
        )
    } else {
        match edge_chain(t, at) {
            Some(Ok(edges)) => add_edges(st, edges, edges.len() as int, l),
            Some(Err(d)) => FlowView { errors: st.errors.push(d), ..st },
            None => match node_decl(t) {
                Some(n) => ensure_node(st, mention(n)),
                None => flow_error(
                    st,
                    "syntax error: unrecognised statement `"@ + at_most(t, 40) + "`"@,
                    l,
                ),
            },
        }
    }
}

/// What the line `l` does.
pub open spec fn flow_line(st: FlowView, l: LineView) -> FlowView {
    let t = trim(l.text);
    match after_keyword(t, "subgraph"@) {
        Some(rest) => open_group(st, trim(rest), l),
        None => if t == "end"@ {
            close_group(st, l)
        } else if st.stack.len() > 0 && sets_direction(t) {
            flow_error(
                st,
                "unsupported: direction (inside subgraph) (kozue does not support this yet)"@,
                l,
            )
        } else if is_styling(t) {
            flow_error(
                st,
                "unsupported: "@ + first_word(t, "style"@) + " (kozue does not support this yet)"@,
                l,
            )
        } else {
            flow_statement(st, t, l)
        },
    }
}

/// What the first `n` lines do.
pub open spec fn flow_lines(st: FlowView, lines: Seq<LineView>, n: int) -> FlowView
    decreases n,
{
    if n <= 0 {
        st
    } else {
        flow_line(flow_lines(st, lines, n - 1), lines[n - 1])
    }
}

// ---------------------------------------------------------------------------
// What the whole text comes to
// ---------------------------------------------------------------------------

/// An error for each of the first `n` subgraphs that are still open.
pub open spec fn open_errors(
    errors: Seq<DiagnosticView>,
    stack: Seq<ContainerBuilderView>,
    n: int,
) -> Seq<DiagnosticView>
    decreases n,
{
    if n <= 0 {
        errors
    } else {
        let b = stack[n - 1];
        open_errors(errors, stack, n - 1).push(
            diagnostic(
                "subgraph `"@ + b.group.id + "` is missing a closing `end`"@,
                b.start,
                b.end,
            ),
        )
    }
}

/// An error for each of the first `n` `subgraph` lines whose id an earlier one
/// has.
pub open spec fn duplicate_errors(
    errors: Seq<DiagnosticView>,
    decls: Seq<GroupDeclView>,
    n: int,
) -> Seq<DiagnosticView>
    decreases n,
{
    if n <= 0 {
        errors
    } else {
        let d = decls[n - 1];
        let before = duplicate_errors(errors, decls, n - 1);
        if key_index(decls, d.id) == Some(n - 1) {
            before
        } else {
            before.push(diagnostic("duplicate subgraph id `"@ + d.id + "`"@, d.start, d.end))
        }
    }
}

/// An error for each of the first `n` `subgraph` lines whose id a node has.
pub open spec fn collision_errors(
    errors: Seq<DiagnosticView>,
    decls: Seq<GroupDeclView>,
    nodes: Seq<(Seq<char>, NodeSpecView)>,
    n: int,
) -> Seq<DiagnosticView>
    decreases n,
{
    if n <= 0 {
        errors
    } else {
        let d = decls[n - 1];
        let before = collision_errors(errors, decls, nodes, n - 1);
        if has_key(nodes, d.id) {
            before.push(
                diagnostic(
                    "subgraph id `"@ + d.id + "` collides with a node of the same name"@,
                    d.start,
                    d.end,
                ),
            )
        } else {
            before
        }
    }
}

/// An error for each of the first `n` edges that ends where it begins.
pub open spec fn loop_errors(errors: Seq<DiagnosticView>, edges: Seq<RawEdgeView>, n: int) -> Seq<
    DiagnosticView,
>
    decreases n,
{
    if n <= 0 {
        errors
    } else {
        let e = edges[n - 1];
        let before = loop_errors(errors, edges, n - 1);
        if e.from == e.to {
            before.push(
                diagnostic(
                    "self-loops are not supported in flowchart diagrams (edge `"@ + e.from
                        + "` --> `"@ + e.to + "`)"@,
                    e.start,
                    e.end,
                ),
            )
        } else {
            before
        }
    }
}

/// An edge of the diagram.
pub open spec fn edge_of(e: RawEdgeView) -> EdgeView {
    EdgeView {
        from: e.from,
        to: e.to,
        label: e.label,
        arrow: e.stroke.arrow,
        from_arrow: e.stroke.from_arrow,
        line: e.stroke.line,
        weight: e.stroke.weight,
        from_port: None,
        to_port: None,
    }
}

/// Those of the first `n` edges that do not end where they begin.
pub open spec fn kept_edges(edges: Seq<RawEdgeView>, n: int) -> Seq<EdgeView>
    decreases n,
{
    if n <= 0 {
        Seq::empty()
    } else if edges[n - 1].from == edges[n - 1].to {
        kept_edges(edges, n - 1)
    } else {
        kept_edges(edges, n - 1).push(edge_of(edges[n - 1]))
    }
}

/// The nodes of the diagram.
pub open spec fn nodes_of(nodes: Seq<(Seq<char>, NodeSpecView)>) -> Seq<NodeView> {
    Seq::new(
        nodes.len(),
        |i: int| NodeView { id: nodes[i].0, label: nodes[i].1.label, kind: nodes[i].1.kind },
    )
}

/// All errors of a flowchart that has been read.
pub open spec fn flow_errors(st: FlowView) -> Seq<DiagnosticView> {
    let decls = st.decls.len() as int;
    loop_errors(
        collision_errors(
            duplicate_errors(
                open_errors(st.errors, st.stack, st.stack.len() as int),
                st.decls,
                decls,
            ),
            st.decls,
            st.nodes,
            decls,
        ),
        st.edges,
        st.edges.len() as int,
    )
}

/// The graph of a flowchart that has been read.
pub open spec fn flow_graph(st: FlowView, direction: Direction) -> GraphDiagramView {
    GraphDiagramView {
        direction,
        nodes: nodes_of(st.nodes),
        edges: kept_edges(st.edges, st.edges.len() as int),
        containers: st.roots,
    }
}

/// What the flowchart `lines` comes to.
pub open spec fn flowchart(
    lines: Seq<LineView>,
    direction: Direction,
    errors: Seq<DiagnosticView>,
) -> ParsedView {
    let st = flow_lines(flow_start(errors), lines, lines.len() as int);
    verdict(DiagramView::Graph(flow_graph(st, direction)), flow_errors(st))
}

// ---------------------------------------------------------------------------
// Reading
// ---------------------------------------------------------------------------

/// The id and the title of a subgraph: `id [Title]`, or the whole text as the
/// id.
pub fn parse_subgraph_header(rest: &[char]) -> (r: (String, Option<String>))
    ensures
        r.0@ == subgraph_header(rest@).0,
        opt_view(r.1) == subgraph_header(rest@).1,
{
    match find_char(rest, '[') {
        Some(k) => {
            if ends_with_char(rest, ']') {
                let id_part = trim_of(take(rest, k));
                if id_part.len() > 0 {
                    let len: usize = rest.len();
                    assert(k + 1 <= len - 1);
                    let title = trim_of(vstd::slice::slice_subrange(rest, k + 1, len - 1));
                    return (to_string(id_part), Some(to_string(title)));
                }
            }
        },
        None => {},
    }
    (to_string(rest), None)
}

fn is_direction(t: &[char]) -> (r: bool)
    ensures
        r == sets_direction(t@),
{
    match strip_keyword_ci(t, "direction") {
        Some(rest) => {
            let d = to_upper(trim_of(rest));
            let d = d.as_slice();
            equals(d, "LR") || equals(d, "RL") || equals(d, "TB") || equals(d, "BT") || equals(
                d,
                "TD",
            )
        },
        None => false,
    }
}

impl Flow {
    closed spec fn wf(self) -> bool {
        self.nodes.wf()
    }

    fn new(errors: Vec<Diagnostic>) -> (r: Self)
        ensures
            r.wf(),
            r@ == flow_start(views(errors@)),
    {
        let r = Flow {
            nodes: Table::new(),
            edges: Vec::new(),
            stack: Vec::new(),
            roots: Vec::new(),
            decls: Vec::new(),
            anonymous: 0,
            errors,
        };
        assert(r@ =~= flow_start(views(errors@)));
        r
    }

    fn error(&mut self, message: String, l: &Line)
        requires
            old(self).wf(),
        ensures
            final(self).wf(),
            final(self)@ == flow_error(old(self)@, message@, l@),
    {
        report(&mut self.errors, message, l.start, l.end);
    }

    fn ensure_node(&mut self, m: Mention)
        requires
            old(self).wf(),
        ensures
            final(self).wf(),
            final(self)@ == ensure_node(old(self)@, m@),
    {
        broadcast use lemma_views_push;

        let label = match m.label {
            Some(l) => l,
            None => m.id.clone(),
        };
        match self.nodes.find(&m.id) {
            Some(i) => {
                if m.kind != NodeKind::Default {
                    self.nodes.set(i, NodeSpec { label, kind: m.kind });
                }
            },
            None => {
                let member = m.id.clone();
                self.nodes.add_new(m.id, NodeSpec { label, kind: m.kind });
                let ghost stack = views(self.stack@);
                match self.stack.pop() {
                    Some(top) => {
                        let mut top = top;
                        assert(views(self.stack@) =~= stack.drop_last());
                        top.members.push(member);
                        self.stack.push(top);
                    },
                    None => {},
                }
            },
        }
    }

    fn add_edges(&mut self, edges: Vec<FlowchartEdge>, l: &Line)
        requires
            old(self).wf(),
        ensures
            final(self).wf(),
            final(self)@ == add_edges(old(self)@, views(edges@), edges@.len() as int, l@),
    {
        broadcast use lemma_views_push;

        let mut i: usize = 0;
        let ghost start = self@;
        let mut edges = edges;
        let ghost all = views(edges@);
        while i < edges.len()
            invariant
                i <= edges@.len(),
                self.wf(),
                all == views(edges@),
                self@ == add_edges(start, all, i as int, l@),
            decreases edges@.len() - i,
        {
            let e = &edges[i];
            let label = copy_opt(&e.edge_label);
            let from = e.from.id.clone();
            let to = e.to.id.clone();
            let stroke = e.stroke;
            self.ensure_node(e.from.copy());
            self.ensure_node(e.to.copy());
            self.edges.push(
                RawEdge { from, to, label, stroke, start: l.start, end: l.end },
            );
            i = i + 1;
        }
    }

    fn open_group(&mut self, rest: &[char], l: &Line)
        requires
            old(self).wf(),
            old(self)@.anonymous < usize::MAX,
        ensures
            final(self).wf(),
            final(self)@ == open_group(old(self)@, rest@, l@),
    {
        broadcast use lemma_views_push;

        let (id, label) = if rest.len() == 0 {
            let mut id = String::from_str("subGraph");
            push_decimal(&mut id, self.anonymous);
            self.anonymous = self.anonymous + 1;
            (id, None)
        } else {
            parse_subgraph_header(rest)
        };
        self.decls.push(GroupDecl { id: id.clone(), start: l.start, end: l.end });
        let b = ContainerBuilder {
            id,
            label,
            members: Vec::new(),
            children: Vec::new(),
            start: l.start,
            end: l.end,
        };
        assert(views(b.members@) =~= Seq::<Seq<char>>::empty());
        assert(views(b.children@) =~= Seq::<ContainerView>::empty());
        self.stack.push(b);
    }

    fn close_group(&mut self, l: &Line)
        requires
            old(self).wf(),
        ensures
            final(self).wf(),
            final(self)@ == close_group(old(self)@, l@),
    {
        broadcast use {lemma_views_push, lemma_container_view};

        let ghost stack = views(self.stack@);
        match self.stack.pop() {
            Some(b) => {
                assert(views(self.stack@) =~= stack.drop_last());
                if b.members.len() == 0 && b.children.len() == 0 {
                    let mut message = String::from_str("subgraph `");
                    message.append(b.id.as_str());
                    message.append("` has no members");
                    report(&mut self.errors, message, b.start, b.end);
                }
                let c = Container {
                    id: b.id,
                    label: b.label,
                    members: b.members,
                    children: b.children,
                };
                assert(c@ =~= b@.group);
                let ghost rest = views(self.stack@);
                match self.stack.pop() {
                    Some(p) => {
                        let mut p = p;
                        assert(views(self.stack@) =~= rest.drop_last());
                        p.children.push(c);
                        self.stack.push(p);
                    },
                    None => {
                        self.roots.push(c);
                    },
                }
            },
            None => {
                self.error(String::from_str("unmatched `end` (no open subgraph to close)"), l);
            },
        }
    }

    fn statement(&mut self, t: &[char], l: &Line)
        requires
            old(self).wf(),
            t@ == trim(l.text@),
            line_wf(l@),
        ensures
            final(self).wf(),
            final(self)@ == flow_statement(old(self)@, t@, l@),
    {
        broadcast use lemma_views_push;

        if contains_char(t, ';') {
            self.error(
                String::from_str(
                    "unsupported: semicolon statement separator; use newlines instead (kozue does not support this yet)",
                ),
                l,
            );
            return;
        }
        proof {
            lemma_indent(l.text@);
            lemma_past_white(l.text@, 0);
            lemma_byte_len_cut(l.text@, past_white(l.text@, 0));
        }
        let at: usize = l.start + byte_len_of(take(l.text, lead_len(l.text)));
        match try_parse_edge_chain(t, at) {
            Some(Ok(edges)) => {
                self.add_edges(edges, l);
            },
            Some(Err(d)) => {
                self.errors.push(d);
            },
            None => match try_parse_node_decl(t) {
                Some(n) => {
                    self.ensure_node(Mention { id: n.id, label: n.label, kind: n.kind });
                },
                None => {
                    self.error(
                        surround("syntax error: unrecognised statement `", clip(t, 40), "`"),
                        l,
                    );
                },
            },
        }
    }

    fn line(&mut self, l: &Line)
        requires
            old(self).wf(),
            old(self)@.anonymous < usize::MAX,
            line_wf(l@),
        ensures
            final(self).wf(),
            final(self)@ == flow_line(old(self)@, l@),
    {
        let t = trim_of(l.text);
        match strip_keyword_ci(t, "subgraph") {
            Some(rest) => {
                self.open_group(trim_of(rest), l);
                return;
            },
            None => {},
        }
        if equals(t, "end") {
            self.close_group(l);
        } else if self.stack.len() > 0 && is_direction(t) {
            self.error(
                String::from_str(
                    "unsupported: direction (inside subgraph) (kozue does not support this yet)",
                ),
                l,
            );
        } else if starts_with(t, "classDef") || starts_with(t, "class ") || starts_with(t, "style ")
            || starts_with(t, "linkStyle") || starts_with(t, "click ") {
            let feature = first_word_of(t, "style");
            self.error(
                surround("unsupported: ", feature.as_slice(), " (kozue does not support this yet)"),
                l,
            );
        } else {
            self.statement(t, l);
        }
    }

    fn check_open(&mut self)
        requires
            old(self).wf(),
        ensures
            final(self).wf(),
            final(self)@ == (FlowView {
                errors: open_errors(
                    old(self)@.errors,
                    old(self)@.stack,
                    old(self)@.stack.len() as int,
                ),
                ..old(self)@
            }),
    {
        let ghost start = self@;
        let mut i: usize = 0;
        while i < self.stack.len()
            invariant
                i <= self.stack@.len(),
                self.wf(),
                self@.stack == start.stack,
                self@ == (FlowView {
                    errors: open_errors(start.errors, start.stack, i as int),
                    ..start
                }),
            decreases self.stack@.len() - i,
        {
            let b = &self.stack[i];
            let mut message = String::from_str("subgraph `");
            message.append(b.id.as_str());
            message.append("` is missing a closing `end`");
            assert(start.stack[i as int] == b@);
            let from: usize = b.start;
            let to: usize = b.end;
            report(&mut self.errors, message, from, to);
            i = i + 1;
        }
    }

    fn check_duplicates(&mut self)
        requires
            old(self).wf(),
        ensures
            final(self).wf(),
            final(self)@ == (FlowView {
                errors: duplicate_errors(
                    old(self)@.errors,
                    old(self)@.decls,
                    old(self)@.decls.len() as int,
                ),
                ..old(self)@
            }),
    {
        let ghost start = self@;
        let mut i: usize = 0;
        while i < self.decls.len()
            invariant
                i <= self.decls@.len(),
                self.wf(),
                self@.decls == start.decls,
                self@ == (FlowView {
                    errors: duplicate_errors(start.errors, start.decls, i as int),
                    ..start
                }),
            decreases self.decls@.len() - i,
        {
            let d = &self.decls[i];
            assert(start.decls[i as int] == d@);
            let first = position(self.decls.as_slice(), &d.id);
            proof {
                lemma_key_from(start.decls, d.id@, 0);
            }
            let duplicate = match first {
                Some(k) => k != i,
                None => true,
            };
            if duplicate {
                let mut message = String::from_str("duplicate subgraph id `");
                message.append(d.id.as_str());
                message.append("`");
                let from: usize = d.start;
                let to: usize = d.end;
                report(&mut self.errors, message, from, to);
            }
            i = i + 1;
        }
    }

    fn check_collisions(&mut self)
        requires
            old(self).wf(),
        ensures
            final(self).wf(),
            final(self)@ == (FlowView {
                errors: collision_errors(
                    old(self)@.errors,
                    old(self)@.decls,
                    old(self)@.nodes,
                    old(self)@.decls.len() as int,
                ),
                ..old(self)@
            }),
    {
        let ghost start = self@;
        let mut i: usize = 0;
        while i < self.decls.len()
            invariant
                i <= self.decls@.len(),
                self.wf(),
                self@.decls == start.decls,
                self@ == (FlowView {
                    errors: collision_errors(start.errors, start.decls, start.nodes, i as int),
                    ..start
                }),
            decreases self.decls@.len() - i,
        {
            let d = &self.decls[i];
            assert(start.decls[i as int] == d@);
            if self.nodes.find(&d.id).is_some() {
                let mut message = String::from_str("subgraph id `");
                message.append(d.id.as_str());
                message.append("` collides with a node of the same name");
                let from: usize = d.start;
                let to: usize = d.end;
                report(&mut self.errors, message, from, to);
            }
            i = i + 1;
        }
    }

    fn build_nodes(&self) -> (r: Vec<Node>)
        requires
            self.wf(),
        ensures
            views(r@) == nodes_of(self@.nodes),
    {
        broadcast use lemma_views_push;

        let mut out: Vec<Node> = Vec::new();
        let mut i: usize = 0;
        let n: usize = self.nodes.len();
        while i < n
            invariant
                i <= n,
                n == self.nodes@.len(),
                self.wf(),
                views(out@) == nodes_of(self.nodes@).take(i as int),
            decreases n - i,
        {
            let spec_of = self.nodes.value_at(i);
            out.push(
                Node {
                    id: self.nodes.id_at(i).clone(),
                    label: spec_of.label.clone(),
                    kind: spec_of.kind,
                },
            );
            assert(nodes_of(self.nodes@).take(i as int).push(nodes_of(self.nodes@)[i as int])
                =~= nodes_of(self.nodes@).take(i + 1));
            i = i + 1;
        }
        assert(nodes_of(self.nodes@).take(n as int) =~= nodes_of(self.nodes@));
        out
    }

    fn finish(self, direction: Direction) -> (r: Result<Diagram, Vec<Diagnostic>>)
        requires
            self.wf(),
        ensures
            parsed(r) == verdict(
                DiagramView::Graph(flow_graph(self@, direction)),
                flow_errors(self@),
            ),
    {
        broadcast use lemma_views_push;

        let mut st = self;
        let ghost start = st@;
        st.check_open();
        st.check_duplicates();
        st.check_collisions();
        let nodes = st.build_nodes();
        let Flow { nodes: _, edges: raw, stack: _, roots, decls: _, anonymous: _, errors } = st;
        let mut errors = errors;
        let ghost before = views(errors@);
        let mut edges: Vec<Edge> = Vec::new();
        let mut i: usize = 0;
        assert(views(edges@) =~= Seq::<EdgeView>::empty());
        while i < raw.len()
            invariant
                i <= raw@.len(),
                views(raw@) == start.edges,
                views(errors@) == loop_errors(before, start.edges, i as int),
                views(edges@) == kept_edges(start.edges, i as int),
            decreases raw@.len() - i,
        {
            broadcast use lemma_views_push;

            let e = &raw[i];
            assert(start.edges[i as int] == e@);
            if same_string(&e.from, &e.to) {
                let mut message = String::from_str(
                    "self-loops are not supported in flowchart diagrams (edge `",
                );
                message.append(e.from.as_str());
                message.append("` --> `");
                message.append(e.to.as_str());
                message.append("`)");
                report(&mut errors, message, e.start, e.end);
            } else {
                edges.push(
                    Edge {
                        from: e.from.clone(),
                        to: e.to.clone(),
                        label: copy_opt(&e.label),
                        arrow: e.stroke.arrow,
                        from_arrow: e.stroke.from_arrow,
                        line: e.stroke.line,
                        weight: e.stroke.weight,
                        from_port: None,
                        to_port: None,
                    },
                );
            }
            i = i + 1;
        }
        let graph = GraphDiagram { direction, nodes, edges, containers: roots };
        assert(graph@ =~= flow_graph(start, direction));
        conclude(Diagram::Graph(graph), errors)
    }
}

/// The subgraphs without a name are no more than the lines.
proof fn lemma_anonymous(st: FlowView, lines: Seq<LineView>, n: int)
    requires
        0 <= n <= lines.len(),
        st.anonymous == 0,
    ensures
        0 <= flow_lines(st, lines, n).anonymous <= n,
    decreases n,
{
    if n > 0 {
        lemma_anonymous(st, lines, n - 1);
        let before = flow_lines(st, lines, n - 1);
        let l = lines[n - 1];
        let t = trim(l.text);
        if let Some(Ok(edges)) = edge_chain(t, l.start + indent(l.text)) {
            lemma_add_edges_keeps(before, edges, edges.len() as int, l);
        }
    }
}

proof fn lemma_add_edges_keeps(
    st: FlowView,
    edges: Seq<FlowchartEdgeView>,
    n: int,
    l: LineView,
)
    ensures
        add_edges(st, edges, n, l).anonymous == st.anonymous,
    decreases n,
{
    if n > 0 {
        lemma_add_edges_keeps(st, edges, n - 1, l);
    }
}

/// Reads the statements of a flowchart; `errors` are those found before.
pub fn parse_flowchart(
    lines: &[Line],
    direction: Direction,
    errors: Vec<Diagnostic>,
) -> (r: Result<Diagram, Vec<Diagnostic>>)
    requires
        lines_wf(views(lines@)),
    ensures
        parsed(r) == flowchart(views(lines@), direction, views(errors@)),
{
    let mut st = Flow::new(errors);
    let ghost start = st@;
    let ghost all = views(lines@);
    let mut i: usize = 0;
    while i < lines.len()
        invariant
            i <= lines@.len(),
            lines_wf(all),
            all == views(lines@),
            start.anonymous == 0,
            st.wf(),
            st@ == flow_lines(start, all, i as int),
        decreases lines@.len() - i,
    {
        proof {
            lemma_anonymous(start, all, i as int);
            assert(line_wf(all[i as int]));
        }
        let len: usize = lines.len();
        st.line(&lines[i]);
        i = i + 1;
    }
    st.finish(direction)
}


// ---------------------------------------------------------------------------
// Laws
// ---------------------------------------------------------------------------

/// The groups that are open.
pub open spec fn open_groups(stack: Seq<ContainerBuilderView>) -> Seq<ContainerView> {
    Seq::new(stack.len(), |i: int| stack[i].group)
}

/// The ids of the nodes that are in a group.
pub open spec fn grouped(st: FlowView) -> Multiset<Seq<char>> {
    all_members(st.roots, st.roots.len() as int).add(
        all_members(open_groups(st.stack), st.stack.len() as int),
    )
}

/// The ids of the groups.
pub open spec fn group_names(st: FlowView) -> Multiset<Seq<char>> {
    all_ids(st.roots, st.roots.len() as int).add(
        all_ids(open_groups(st.stack), st.stack.len() as int),
    )
}

/// The ids on the first `n` `subgraph` lines.
pub open spec fn decl_ids(decls: Seq<GroupDeclView>, n: int) -> Multiset<Seq<char>>
    decreases n,
{
    if 0 < n <= decls.len() {
        decl_ids(decls, n - 1).insert(decls[n - 1].id)
    } else {
        Multiset::empty()
    }
}

/// No group that is closed is empty.
pub open spec fn closed_filled(st: FlowView) -> bool {
    &&& all_filled(st.roots, st.roots.len() as int)
    &&& forall|i: int|
        0 <= i < st.stack.len() ==> all_filled(
            (#[trigger] st.stack[i]).group.children,
            st.stack[i].group.children.len() as int,
        )
}

/// What holds after every line of a source of `len` bytes.
pub open spec fn flow_ok(st: FlowView, len: int) -> bool {
    &&& distinct_keys(st.nodes)
    &&& forall|i: int|
        0 <= i < st.edges.len() ==> has_key(st.nodes, (#[trigger] st.edges[i]).from) && has_key(
            st.nodes,
            st.edges[i].to,
        )
    &&& forall|i: int|
        0 <= i < st.edges.len() ==> 0 <= (#[trigger] st.edges[i]).start <= st.edges[i].end <= len
    &&& forall|i: int|
        0 <= i < st.stack.len() ==> 0 <= (#[trigger] st.stack[i]).start <= st.stack[i].end <= len
    &&& forall|i: int|
        0 <= i < st.decls.len() ==> 0 <= (#[trigger] st.decls[i]).start <= st.decls[i].end <= len
    &&& forall|id: Seq<char>|
        (#[trigger] grouped(st).count(id)) <= 1 && (grouped(st).count(id) > 0 ==> has_key(
            st.nodes,
            id,
        ))
    &&& group_names(st) == decl_ids(st.decls, st.decls.len() as int)
    &&& st.errors.len() == 0 ==> closed_filled(st)
    &&& within(st.errors, len)
}

/// Naming a node keeps the ids distinct and in their order.
proof fn lemma_named_node(nodes: Seq<(Seq<char>, NodeSpecView)>, m: MentionView)
    requires
        distinct_keys(nodes),
    ensures
        distinct_keys(named_node(nodes, m)),
        grown(nodes, named_node(nodes, m)),
        has_key(named_node(nodes, m), m.id),
{
    lemma_key_from(nodes, m.id, 0);
    let after = named_node(nodes, m);
    match key_index(nodes, m.id) {
        Some(i) => {
            lemma_distinct_update(nodes, i, (nodes[i].0, said_of(m)));
            lemma_has_key(after, i);
        },
        None => {
            lemma_distinct_push(nodes, (m.id, said_of(m)));
            lemma_has_key(after, nodes.len() as int);
        },
    }
}

/// What a new member adds to the innermost open group.
proof fn lemma_with_member(stack: Seq<ContainerBuilderView>, id: Seq<char>)
    requires
        stack.len() > 0,
    ensures
        all_members(open_groups(with_member(stack, id)), stack.len() as int) == all_members(
            open_groups(stack),
            stack.len() as int,
        ).insert(id),
        all_ids(open_groups(with_member(stack, id)), stack.len() as int) == all_ids(
            open_groups(stack),
            stack.len() as int,
        ),
{
    let n = stack.len() as int;
    let a = open_groups(stack);
    let b = open_groups(with_member(stack, id));
    lemma_groups_prefix(a, b, n - 1);
    vstd::seq_lib::to_multiset_build(a[n - 1].members, id);
    assert(b[n - 1].members == a[n - 1].members.push(id));
    assert(b[n - 1].children == a[n - 1].children);
    assert(group_members(b[n - 1]) =~= group_members(a[n - 1]).insert(id));
    assert(group_ids(b[n - 1]) == group_ids(a[n - 1]));
    assert(all_members(b, n) == all_members(b, n - 1).add(group_members(b[n - 1])));
    assert(all_members(a, n) == all_members(a, n - 1).add(group_members(a[n - 1])));
    assert(all_ids(b, n) == all_ids(b, n - 1).add(group_ids(b[n - 1])));
    assert(all_ids(a, n) == all_ids(a, n - 1).add(group_ids(a[n - 1])));
    assert(all_members(b, n) =~= all_members(a, n).insert(id));
}

proof fn lemma_ensure_node(st: FlowView, m: MentionView, len: int)
    requires
        flow_ok(st, len),
    ensures
        flow_ok(ensure_node(st, m), len),
        has_key(ensure_node(st, m).nodes, m.id),
        grown(st.nodes, ensure_node(st, m).nodes),
        ensure_node(st, m).edges == st.edges,
{
    let after = ensure_node(st, m);
    lemma_named_node(st.nodes, m);
    lemma_grown(st.nodes, after.nodes);
    if !has_key(st.nodes, m.id) && st.stack.len() > 0 {
        lemma_with_member(st.stack, m.id);
        assert(grouped(after) =~= grouped(st).insert(m.id));
        assert(grouped(st).count(m.id) == 0);
        assert forall|id: Seq<char>|
            (#[trigger] grouped(after).count(id)) <= 1 && (grouped(after).count(id) > 0 ==> has_key(
                after.nodes,
                id,
            )) by {
            assert(grouped(st).count(id) <= 1);
        }
    } else {
        assert forall|id: Seq<char>|
            (#[trigger] grouped(after).count(id)) <= 1 && (grouped(after).count(id) > 0 ==> has_key(
                after.nodes,
                id,
            )) by {
            assert(grouped(st).count(id) <= 1);
        }
    }
}

proof fn lemma_add_edges(
    st: FlowView,
    edges: Seq<FlowchartEdgeView>,
    n: int,
    l: LineView,
    len: int,
)
    requires
        flow_ok(st, len),
        0 <= l.start <= l.end <= len,
    ensures
        flow_ok(add_edges(st, edges, n, l), len),
        grown(st.nodes, add_edges(st, edges, n, l).nodes),
    decreases n,
{
    if n > 0 {
        lemma_add_edges(st, edges, n - 1, l, len);
        let e = edges[n - 1];
        let a = add_edges(st, edges, n - 1, l);
        let b = ensure_node(a, e.from);
        let c = ensure_node(b, e.to);
        lemma_ensure_node(a, e.from, len);
        lemma_ensure_node(b, e.to, len);
        lemma_grown(b.nodes, c.nodes);
        let after = add_edges(st, edges, n, l);
        assert(grouped(after) == grouped(c));
        assert(group_names(after) == group_names(c));
    }
}

proof fn lemma_open_group(st: FlowView, rest: Seq<char>, l: LineView, len: int)
    requires
        flow_ok(st, len),
        0 <= l.start <= l.end <= len,
    ensures
        flow_ok(open_group(st, rest, l), len),
{
    let after = open_group(st, rest, l);
    let g = after.stack.last().group;
    assert(open_groups(after.stack) =~= open_groups(st.stack).push(g));
    lemma_groups_push(open_groups(st.stack), g);
    assert(g.members.to_multiset() =~= Multiset::empty()) by {
        g.members.to_multiset_ensures();
    }
    assert(group_members(g) =~= Multiset::empty());
    assert(group_ids(g) =~= Multiset::singleton(g.id));
    assert(grouped(after) =~= grouped(st));
    lemma_decl_prefix(st.decls, after.decls, st.decls.len() as int);
    assert(group_names(after) =~= decl_ids(after.decls, after.decls.len() as int));
}

proof fn lemma_decl_prefix(a: Seq<GroupDeclView>, b: Seq<GroupDeclView>, n: int)
    requires
        0 <= n <= a.len(),
        n <= b.len(),
        forall|i: int| 0 <= i < n ==> a[i] == b[i],
    ensures
        decl_ids(a, n) == decl_ids(b, n),
    decreases n,
{
    if n > 0 {
        lemma_decl_prefix(a, b, n - 1);
    }
}

proof fn lemma_close_group(st: FlowView, l: LineView, len: int)
    requires
        flow_ok(st, len),
        0 <= l.start <= l.end <= len,
    ensures
        flow_ok(close_group(st, l), len),
{
    let after = close_group(st, l);
    lemma_close_filled(st, l);
    if st.stack.len() > 0 {
        let n = st.stack.len() as int;
        let a = open_groups(st.stack);
        let g = st.stack.last().group;
        let b = open_groups(after.stack);
        assert(within(after.errors, len)) by {
            assert(0 <= st.stack[n - 1].start <= st.stack[n - 1].end <= len);
        }
        assert forall|i: int| 0 <= i < after.stack.len() implies 0 <= (#[trigger] after.stack[i]).start
            <= after.stack[i].end <= len by {
            assert(0 <= st.stack[i].start <= st.stack[i].end <= len);
        }
        if n == 1 {
            lemma_groups_push(st.roots, g);
            assert(all_members(a, 1) =~= group_members(g)) by {
                assert(all_members(a, 0) =~= Multiset::empty());
            }
            assert(all_ids(a, 1) =~= group_ids(g)) by {
                assert(all_ids(a, 0) =~= Multiset::empty());
            }
            assert(grouped(after) =~= grouped(st));
            assert(group_names(after) =~= group_names(st));
        } else {
            lemma_groups_prefix(a, b, n - 2);
            let p = a[n - 2];
            lemma_groups_push(p.children, g);
            assert(b[n - 2].children == p.children.push(g));
            assert(group_members(b[n - 2]) =~= group_members(p).add(group_members(g)));
            assert(group_ids(b[n - 2]) =~= group_ids(p).add(group_ids(g)));
            assert(all_members(b, n - 1) =~= all_members(b, n - 2).add(group_members(b[n - 2])));
            assert(a[n - 1] == g);
            assert(all_members(a, n) == all_members(a, n - 1).add(group_members(g)));
            assert(all_members(a, n - 1) == all_members(a, n - 2).add(group_members(p)));
            assert(all_ids(b, n - 1) =~= all_ids(b, n - 2).add(group_ids(b[n - 2])));
            assert(all_ids(a, n) == all_ids(a, n - 1).add(group_ids(g)));
            assert(all_ids(a, n - 1) == all_ids(a, n - 2).add(group_ids(p)));
            assert(grouped(after) =~= grouped(st));
            assert(group_names(after) =~= group_names(st));
        }
        assert forall|id: Seq<char>|
            (#[trigger] grouped(after).count(id)) <= 1 && (grouped(after).count(id) > 0 ==> has_key(
                after.nodes,
                id,
            )) by {
            assert(grouped(st).count(id) <= 1);
        }
    } else {
        lemma_flow_error(st, after.errors.last(), len);
    }
}

/// A group that is closed without an error is not empty.
proof fn lemma_close_filled(st: FlowView, l: LineView)
    requires
        st.errors.len() == 0 ==> closed_filled(st),
    ensures
        close_group(st, l).errors.len() == 0 ==> closed_filled(close_group(st, l)),
{
    let after = close_group(st, l);
    if st.stack.len() > 0 && after.errors.len() == 0 {
        let n = st.stack.len() as int;
        let g = st.stack[n - 1].group;
        assert(filled(g));
        if n == 1 {
            lemma_groups_push(st.roots, g);
        } else {
            lemma_groups_push(st.stack[n - 2].group.children, g);
            assert forall|i: int| 0 <= i < after.stack.len() implies all_filled(
                (#[trigger] after.stack[i]).group.children,
                after.stack[i].group.children.len() as int,
            ) by {
                if i < n - 2 {
                    assert(after.stack[i] == st.stack[i]);
                }
            }
        }
    }
}

/// Another diagnostic changes nothing else.
proof fn lemma_flow_error(st: FlowView, d: DiagnosticView, len: int)
    requires
        flow_ok(st, len),
        0 <= d.start <= d.end <= len,
    ensures
        flow_ok((FlowView { errors: st.errors.push(d), ..st }), len),
{
    let after = FlowView { errors: st.errors.push(d), ..st };
    assert(grouped(after) == grouped(st));
    assert(group_names(after) == group_names(st));
}

/// What a line comes to.
proof fn lemma_flow_line(st: FlowView, l: LineView, len: int)
    requires
        flow_ok(st, len),
        line_wf(l),
        l.end <= len,
    ensures
        flow_ok(flow_line(st, l), len),
        grown(st.nodes, flow_line(st, l).nodes),
{
    let t = trim(l.text);
    let after = flow_line(st, l);
    lemma_indent(l.text);
    match after_keyword(t, "subgraph"@) {
        Some(rest) => {
            lemma_open_group(st, trim(rest), l, len);
        },
        None => {
            if t == "end"@ {
                lemma_close_group(st, l, len);
            } else if (st.stack.len() > 0 && sets_direction(t)) || is_styling(t) || has_char(
                t,
                ';',
            ) {
                lemma_flow_error(st, after.errors.last(), len);
            } else {
                let at = l.start + indent(l.text);
                match edge_chain(t, at) {
                    Some(Ok(edges)) => {
                        lemma_add_edges(st, edges, edges.len() as int, l, len);
                    },
                    Some(Err(d)) => {
                        lemma_edge_chain_within(t, at);
                        lemma_flow_error(st, d, len);
                    },
                    None => match node_decl(t) {
                        Some(n) => {
                            lemma_ensure_node(st, mention(n), len);
                        },
                        None => {
                            lemma_flow_error(st, after.errors.last(), len);
                        },
                    },
                }
            }
        },
    }
}

/// Whatever the lines say, no node is named twice, both ends of an edge are
/// nodes, a node is in one group at most, and the errors are within the source.
/// Until there is an error, no group that is closed is empty. Nodes keep their
/// order.
pub proof fn law_flow_lines(
    errors: Seq<DiagnosticView>,
    lines: Seq<LineView>,
    n: int,
    len: int,
)
    requires
        lines_within(lines, len),
        within(errors, len),
        0 <= n <= lines.len(),
    ensures
        flow_ok(flow_lines(flow_start(errors), lines, n), len),
        n > 0 ==> grown(
            flow_lines(flow_start(errors), lines, n - 1).nodes,
            flow_lines(flow_start(errors), lines, n).nodes,
        ),
    decreases n,
{
    let st = flow_start(errors);
    if n > 0 {
        law_flow_lines(errors, lines, n - 1, len);
        lemma_flow_line(flow_lines(st, lines, n - 1), lines[n - 1], len);
    } else {
        assert(grouped(st) =~= Multiset::empty());
        assert(group_names(st) =~= Multiset::empty());
    }
}

proof fn lemma_open_errors(
    errors: Seq<DiagnosticView>,
    stack: Seq<ContainerBuilderView>,
    n: int,
    len: int,
)
    requires
        within(errors, len),
        0 <= n <= stack.len(),
        forall|i: int|
            0 <= i < stack.len() ==> 0 <= (#[trigger] stack[i]).start <= stack[i].end <= len,
    ensures
        within(open_errors(errors, stack, n), len),
        open_errors(errors, stack, n).len() == errors.len() + n,
    decreases n,
{
    if n > 0 {
        lemma_open_errors(errors, stack, n - 1, len);
    }
}

proof fn lemma_duplicate_errors(
    errors: Seq<DiagnosticView>,
    decls: Seq<GroupDeclView>,
    n: int,
    len: int,
)
    requires
        within(errors, len),
        0 <= n <= decls.len(),
        forall|i: int|
            0 <= i < decls.len() ==> 0 <= (#[trigger] decls[i]).start <= decls[i].end <= len,
    ensures
        within(duplicate_errors(errors, decls, n), len),
        duplicate_errors(errors, decls, n).len() >= errors.len(),
        duplicate_errors(errors, decls, n).len() == errors.len() ==> forall|i: int|
            0 <= i < n ==> key_index(decls, (#[trigger] decls[i]).id) == Some(i),
    decreases n,
{
    if n > 0 {
        lemma_duplicate_errors(errors, decls, n - 1, len);
    }
}

proof fn lemma_collision_errors(
    errors: Seq<DiagnosticView>,
    decls: Seq<GroupDeclView>,
    nodes: Seq<(Seq<char>, NodeSpecView)>,
    n: int,
    len: int,
)
    requires
        within(errors, len),
        0 <= n <= decls.len(),
        forall|i: int|
            0 <= i < decls.len() ==> 0 <= (#[trigger] decls[i]).start <= decls[i].end <= len,
    ensures
        within(collision_errors(errors, decls, nodes, n), len),
        collision_errors(errors, decls, nodes, n).len() >= errors.len(),
        collision_errors(errors, decls, nodes, n).len() == errors.len() ==> forall|i: int|
            0 <= i < n ==> !has_key(nodes, (#[trigger] decls[i]).id),
    decreases n,
{
    if n > 0 {
        lemma_collision_errors(errors, decls, nodes, n - 1, len);
    }
}

proof fn lemma_loop_errors(
    errors: Seq<DiagnosticView>,
    edges: Seq<RawEdgeView>,
    nodes: Seq<NodeView>,
    n: int,
    len: int,
)
    requires
        within(errors, len),
        0 <= n <= edges.len(),
        forall|i: int|
            0 <= i < edges.len() ==> 0 <= (#[trigger] edges[i]).start <= edges[i].end <= len,
        forall|i: int|
            0 <= i < edges.len() ==> has_key(nodes, (#[trigger] edges[i]).from) && has_key(
                nodes,
                edges[i].to,
            ),
    ensures
        within(loop_errors(errors, edges, n), len),
        loop_errors(errors, edges, n).len() >= errors.len(),
        forall|i: int|
            0 <= i < kept_edges(edges, n).len() ==> has_key(
                nodes,
                (#[trigger] kept_edges(edges, n)[i]).from,
            ) && has_key(nodes, kept_edges(edges, n)[i].to) && kept_edges(edges, n)[i].from
                != kept_edges(edges, n)[i].to,
    decreases n,
{
    if n > 0 {
        lemma_loop_errors(errors, edges, nodes, n - 1, len);
    }
}

/// The ids on `subgraph` lines that are all different occur once each.
proof fn lemma_decl_ids(decls: Seq<GroupDeclView>, n: int)
    requires
        0 <= n <= decls.len(),
    ensures
        forall|id: Seq<char>|
            (#[trigger] decl_ids(decls, n).count(id)) > 0 ==> exists|i: int|
                0 <= i < n && (#[trigger] decls[i]).id == id,
        (forall|i: int| 0 <= i < n ==> key_index(decls, (#[trigger] decls[i]).id) == Some(i))
            ==> forall|id: Seq<char>| (#[trigger] decl_ids(decls, n).count(id)) <= 1,
    decreases n,
{
    if n > 0 {
        lemma_decl_ids(decls, n - 1);
        let d = decls[n - 1];
        assert forall|id: Seq<char>| (#[trigger] decl_ids(decls, n).count(id)) > 0 implies exists|
            i: int,
        |
            0 <= i < n && (#[trigger] decls[i]).id == id by {
            if id == d.id {
                assert(decls[n - 1].id == id);
            } else {
                assert(decl_ids(decls, n - 1).count(id) > 0);
                let i = choose|i: int| 0 <= i < n - 1 && (#[trigger] decls[i]).id == id;
                assert(decls[i].id == id);
            }
        }
        if forall|i: int| 0 <= i < n ==> key_index(decls, (#[trigger] decls[i]).id) == Some(i) {
            assert forall|id: Seq<char>| (#[trigger] decl_ids(decls, n).count(id)) <= 1 by {
                assert(decl_ids(decls, n - 1).count(id) <= 1);
                if id == d.id && decl_ids(decls, n - 1).count(id) > 0 {
                    let i = choose|i: int| 0 <= i < n - 1 && (#[trigger] decls[i]).id == id;
                    assert(key_index(decls, decls[i].id) == Some(i));
                    assert(key_index(decls, decls[n - 1].id) == Some(n - 1));
                }
            }
        }
    }
}

/// A flowchart that is accepted is sound and has no edge from a node to itself.
/// One that is refused has an error, and all errors are within the source.
pub proof fn law_flowchart(
    lines: Seq<LineView>,
    direction: Direction,
    errors: Seq<DiagnosticView>,
    len: int,
)
    requires
        lines_within(lines, len),
        within(errors, len),
    ensures
        owed(flowchart(lines, direction, errors), len),
        flowchart(lines, direction, errors) matches Ok(d) ==> d is Graph && loop_free(d),
{
    let st = flow_lines(flow_start(errors), lines, lines.len() as int);
    law_flow_lines(errors, lines, lines.len() as int, len);
    let g = flow_graph(st, direction);
    let decls = st.decls.len() as int;
    let e1 = open_errors(st.errors, st.stack, st.stack.len() as int);
    let e2 = duplicate_errors(e1, st.decls, decls);
    let e3 = collision_errors(e2, st.decls, st.nodes, decls);
    assert forall|id: Seq<char>| #[trigger] has_key(st.nodes, id) == has_key(g.nodes, id) by {
        lemma_same_ids(st.nodes, id, 0);
    }
    assert(distinct_keys(g.nodes)) by {
        assert forall|i: int, j: int| 0 <= i < j < g.nodes.len() implies g.nodes[i].key()
            != g.nodes[j].key() by {
            assert(st.nodes[i].key() != st.nodes[j].key());
        }
    }
    lemma_open_errors(st.errors, st.stack, st.stack.len() as int, len);
    lemma_duplicate_errors(e1, st.decls, decls, len);
    lemma_collision_errors(e2, st.decls, st.nodes, decls, len);
    lemma_loop_errors(e3, st.edges, g.nodes, st.edges.len() as int, len);
    if flow_errors(st).len() == 0 {
        lemma_decl_ids(st.decls, decls);
        let members = all_members(g.containers, g.containers.len() as int);
        let ids = all_ids(g.containers, g.containers.len() as int);
        assert(grouped(st) =~= members);
        assert(group_names(st) =~= ids);
        assert forall|id: Seq<char>|
            (#[trigger] members.count(id)) <= 1 && (members.count(id) > 0 ==> has_key(
                g.nodes,
                id,
            )) by {
            assert(grouped(st).count(id) <= 1);
        }
        assert forall|id: Seq<char>|
            (#[trigger] ids.count(id)) <= 1 && (ids.count(id) > 0 ==> !has_key(g.nodes, id)) by {
            assert(decl_ids(st.decls, decls).count(id) <= 1);
            if ids.count(id) > 0 {
                let i = choose|i: int| 0 <= i < decls && (#[trigger] st.decls[i]).id == id;
                assert(!has_key(st.nodes, st.decls[i].id));
            }
        }
    }
}

proof fn lemma_same_ids(nodes: Seq<(Seq<char>, NodeSpecView)>, id: Seq<char>, i: int)
    requires
        0 <= i <= nodes.len(),
    ensures
        key_from(nodes, id, i) == key_from(nodes_of(nodes), id, i),
    decreases nodes.len() - i,
{
    if i < nodes.len() {
        lemma_same_ids(nodes, id, i + 1);
    }
}

/// The last shape and label that a node is given are the ones it keeps.
pub proof fn law_last_declaration_wins(nodes: Seq<(Seq<char>, NodeSpecView)>, m: MentionView)
    requires
        m.kind != NodeKind::Default,
    ensures
        key_index(named_node(nodes, m), m.id) matches Some(i) && named_node(nodes, m)[i].1
            == said_of(m),
{
    lemma_key_from(nodes, m.id, 0);
    let after = named_node(nodes, m);
    lemma_key_from(after, m.id, 0);
    match key_index(nodes, m.id) {
        Some(i) => {
            lemma_found_again(nodes, after, m.id, 0);
        },
        None => {
            assert(after[nodes.len() as int].key() == m.id);
        },
    }
}

proof fn lemma_found_again<M: Named>(s: Seq<M>, t: Seq<M>, id: Seq<char>, from: int)
    requires
        grown(s, t),
        0 <= from <= s.len(),
        key_from(s, id, from) is Some,
    ensures
        key_from(t, id, from) == key_from(s, id, from),
    decreases s.len() - from,
{
    if s[from].key() != id {
        lemma_found_again(s, t, id, from + 1);
    } else {
        assert(t[from].key() == s[from].key());
    }
}

/// A bare mention of a node that is known changes nothing, neither its label nor
/// the group it is in.
pub proof fn law_bare_mention_changes_nothing(st: FlowView, m: MentionView)
    requires
        m.kind == NodeKind::Default,
        has_key(st.nodes, m.id),
    ensures
        ensure_node(st, m) == st,
{
}

/// A node belongs to the subgraph that is open when it is first mentioned: a
/// later mention leaves all subgraphs as they are.
pub proof fn law_first_mention_wins(st: FlowView, m: MentionView)
    ensures
        has_key(st.nodes, m.id) ==> ensure_node(st, m).stack == st.stack && ensure_node(
            st,
            m,
        ).roots == st.roots,
        !has_key(st.nodes, m.id) && st.stack.len() > 0 ==> ensure_node(
            st,
            m,
        ).stack.last().group.members == st.stack.last().group.members.push(m.id),
{
}

/// The edges on a line of a flowchart.
pub open spec fn edges_on(l: LineView) -> Seq<EdgeView> {
    let t = trim(l.text);
    if after_keyword(t, "subgraph"@) is Some || t == "end"@ || is_styling(t) || has_char(t, ';') {
        Seq::empty()
    } else {
        match edge_chain(t, l.start + indent(l.text)) {
            Some(Ok(edges)) => Seq::new(edges.len(), |i: int| chain_edge(edges[i])),
            _ => Seq::empty(),
        }
    }
}

/// An edge of a chain as it is drawn.
pub open spec fn chain_edge(e: FlowchartEdgeView) -> EdgeView {
    EdgeView {
        from: e.from.id,
        to: e.to.id,
        label: e.edge_label,
        arrow: e.stroke.arrow,
        from_arrow: e.stroke.from_arrow,
        line: e.stroke.line,
        weight: e.stroke.weight,
        from_port: None,
        to_port: None,
    }
}

/// The edges on the first `n` lines.
pub open spec fn edges_of(lines: Seq<LineView>, n: int) -> Seq<EdgeView>
    decreases n,
{
    if n <= 0 {
        Seq::empty()
    } else {
        edges_of(lines, n - 1) + edges_on(lines[n - 1])
    }
}

/// Whether a line of a flowchart is understood: it opens or closes a subgraph,
/// it holds edges, or it declares a node.
pub open spec fn understood(l: LineView) -> bool {
    let t = trim(l.text);
    after_keyword(t, "subgraph"@) is Some || t == "end"@ || edges_on(l).len() > 0 || node_decl(t)
        is Some
}

/// The edges as they are drawn.
pub open spec fn drawn_edges(edges: Seq<RawEdgeView>) -> Seq<EdgeView> {
    Seq::new(edges.len(), |i: int| edge_of(edges[i]))
}

proof fn lemma_edges_added(
    st: FlowView,
    edges: Seq<FlowchartEdgeView>,
    n: int,
    l: LineView,
)
    requires
        0 <= n <= edges.len(),
    ensures
        drawn_edges(add_edges(st, edges, n, l).edges) == drawn_edges(st.edges) + Seq::new(
            n as nat,
            |i: int| chain_edge(edges[i]),
        ),
        add_edges(st, edges, n, l).errors == st.errors,
    decreases n,
{
    let after = add_edges(st, edges, n, l);
    if n > 0 {
        lemma_edges_added(st, edges, n - 1, l);
        let before = add_edges(st, edges, n - 1, l);
        assert(drawn_edges(after.edges) =~= drawn_edges(before.edges).push(
            chain_edge(edges[n - 1]),
        ));
        assert(Seq::new(n as nat, |i: int| chain_edge(edges[i])) =~= Seq::new(
            (n - 1) as nat,
            |i: int| chain_edge(edges[i]),
        ).push(chain_edge(edges[n - 1])));
    }
    assert(drawn_edges(after.edges) =~= drawn_edges(st.edges) + Seq::new(
        n as nat,
        |i: int| chain_edge(edges[i]),
    ));
}

proof fn lemma_line_counts(st: FlowView, l: LineView)
    ensures
        flow_line(st, l).errors.len() >= st.errors.len(),
        flow_line(st, l).errors.len() == st.errors.len() ==> understood(l) && drawn_edges(
            flow_line(st, l).edges,
        ) == drawn_edges(st.edges) + edges_on(l),
{
    let t = trim(l.text);
    let at = l.start + indent(l.text);
    let after = flow_line(st, l);
    lemma_edge_chain_some(t, at);
    if after_keyword(t, "subgraph"@) is None && t != "end"@ && !has_char(t, ';') {
        if let Some(Ok(edges)) = edge_chain(t, at) {
            lemma_edges_added(st, edges, edges.len() as int, l);
            assert(edges_on(l).len() > 0 || is_styling(t));
        }
    }
    assert(drawn_edges(st.edges) + Seq::<EdgeView>::empty() =~= drawn_edges(st.edges));
}

proof fn lemma_flow_counts(errors: Seq<DiagnosticView>, lines: Seq<LineView>, n: int)
    requires
        0 <= n <= lines.len(),
    ensures
        flow_lines(flow_start(errors), lines, n).errors.len() >= errors.len(),
        flow_lines(flow_start(errors), lines, n).errors.len() == errors.len() ==> drawn_edges(
            flow_lines(flow_start(errors), lines, n).edges,
        ) == edges_of(lines, n) && forall|i: int| 0 <= i < n ==> understood(#[trigger] lines[i]),
    decreases n,
{
    if n > 0 {
        lemma_flow_counts(errors, lines, n - 1);
        lemma_line_counts(flow_lines(flow_start(errors), lines, n - 1), lines[n - 1]);
    } else {
        assert(drawn_edges(Seq::<RawEdgeView>::empty()) =~= Seq::<EdgeView>::empty());
    }
}

proof fn lemma_kept(errors: Seq<DiagnosticView>, edges: Seq<RawEdgeView>, n: int)
    requires
        0 <= n <= edges.len(),
    ensures
        loop_errors(errors, edges, n).len() >= errors.len(),
        loop_errors(errors, edges, n).len() == errors.len() ==> kept_edges(edges, n) == drawn_edges(
            edges.take(n),
        ),
    decreases n,
{
    if n > 0 {
        lemma_kept(errors, edges, n - 1);
        assert(drawn_edges(edges.take(n)) =~= drawn_edges(edges.take(n - 1)).push(
            edge_of(edges[n - 1]),
        ));
    } else {
        assert(kept_edges(edges, n) =~= drawn_edges(edges.take(n)));
    }
}

/// No line of an accepted flowchart is passed over: every line is understood,
/// and the edges of the diagram are the edges on the lines, in their order.
pub proof fn law_no_line_is_passed_over(
    lines: Seq<LineView>,
    direction: Direction,
    errors: Seq<DiagnosticView>,
    len: int,
)
    requires
        lines_within(lines, len),
        within(errors, len),
    ensures
        flowchart(lines, direction, errors) matches Ok(DiagramView::Graph(g)) ==> g.edges
            == edges_of(lines, lines.len() as int) && forall|i: int|
            0 <= i < lines.len() ==> understood(#[trigger] lines[i]),
{
    let n = lines.len() as int;
    let st = flow_lines(flow_start(errors), lines, n);
    law_flow_lines(errors, lines, n, len);
    lemma_flow_counts(errors, lines, n);
    let decls = st.decls.len() as int;
    let e1 = open_errors(st.errors, st.stack, st.stack.len() as int);
    let e2 = duplicate_errors(e1, st.decls, decls);
    let e3 = collision_errors(e2, st.decls, st.nodes, decls);
    lemma_open_errors(st.errors, st.stack, st.stack.len() as int, len);
    lemma_duplicate_errors(e1, st.decls, decls, len);
    lemma_collision_errors(e2, st.decls, st.nodes, decls, len);
    lemma_kept(e3, st.edges, st.edges.len() as int);
    assert(st.edges.take(st.edges.len() as int) =~= st.edges);
}

} // verus!
