//! Flowchart edge statements, chains such as `A --> B --> C` among them.
use crate::diag::{diagnostic, Diagnostic, DiagnosticView};
use crate::ir::NodeKind;
use crate::mermaid::edges::{
    bad_shape, edge_ahead, edge_segment, lemma_bad_shape, lemma_edge_segment, lemma_node_ref,
    node_ref, parse_node_with_label, parse_one_edge_segment, starts_with_edge_operator,
    unsupported_node_shape_after_id, unsupported_node_shape_message, NodeRefView,
    SegmentParseError, SegmentParseErrorView, Stroke,
};
use crate::mermaid::scan::{
    lemma_tail_offset, lemma_tail_trans, lemma_tail_trim, offset_of_tail, tail_of, tail_offset,
};
use crate::offsets::{byte_len, byte_len_of};
use crate::text::{
    at_most, clip, copy_opt, lemma_trim_start_twice, lemma_views_push, opt_view, surround,
    trim_start, trim_start_of, views,
};
use vstd::prelude::*;

verus! {

/// A node as a statement names it.
pub struct Mention {
    /// The id.
    pub id: String,
    /// The label in the brackets.
    pub label: Option<String>,
    /// The shape that the brackets stand for.
    pub kind: NodeKind,
}

/// The model of [`Mention`].
#[verifier::ext_equal]
pub struct MentionView {
    pub id: Seq<char>,
    pub label: Option<Seq<char>>,
    pub kind: NodeKind,
}

impl View for Mention {
    type V = MentionView;

    open spec fn view(&self) -> MentionView {
        MentionView { id: self.id@, label: opt_view(self.label), kind: self.kind }
    }
}

/// The node that `n` names.
pub open spec fn mention(n: NodeRefView) -> MentionView {
    MentionView { id: n.id, label: n.label, kind: n.kind }
}

impl Mention {
    /// A copy.
    pub fn copy(&self) -> (r: Self)
        ensures
            r@ == self@,
    {
        Mention { id: self.id.clone(), label: copy_opt(&self.label), kind: self.kind }
    }
}

/// One hop of an edge statement.
pub struct FlowchartEdge {
    /// The source.
    pub from: Mention,
    /// The target.
    pub to: Mention,
    /// The text on the edge.
    pub edge_label: Option<String>,
    /// What the operator stands for.
    pub stroke: Stroke,
}

/// The model of [`FlowchartEdge`].
#[verifier::ext_equal]
pub struct FlowchartEdgeView {
    pub from: MentionView,
    pub to: MentionView,
    pub edge_label: Option<Seq<char>>,
    pub stroke: Stroke,
}

impl View for FlowchartEdge {
    type V = FlowchartEdgeView;

    open spec fn view(&self) -> FlowchartEdgeView {
        FlowchartEdgeView {
            from: self.from@,
            to: self.to@,
            edge_label: opt_view(self.edge_label),
            stroke: self.stroke,
        }
    }
}

/// What an edge statement is read as: nothing, an error, or edges.
pub type ChainView = Option<Result<Seq<FlowchartEdgeView>, DiagnosticView>>;

/// The model of what an edge statement is read as.
pub open spec fn chain_view(r: Option<Result<Vec<FlowchartEdge>, Diagnostic>>) -> ChainView {
    match r {
        Some(Ok(v)) => Some(Ok(views(v@))),
        Some(Err(d)) => Some(Err(d@)),
        None => None,
    }
}

/// The error `message` about `line` as a whole.
pub open spec fn line_error(message: Seq<char>, line: Seq<char>, offset: int) -> ChainView {
    Some(Err(diagnostic(message, offset, offset + byte_len(line))))
}

/// What the rest `cur` of `line` adds to the edges `acc`, the last of which
/// ended at `from`; `offset` is the byte offset of `line`.
pub open spec fn chain_from(
    line: Seq<char>,
    offset: int,
    cur: Seq<char>,
    from: MentionView,
    acc: Seq<FlowchartEdgeView>,
) -> ChainView
    decreases cur.len(),
{
    proof {
        lemma_edge_segment(cur);
        if let Some(Ok(seg)) = edge_segment(cur) {
            lemma_tail_trim(seg.to.rest);
        }
    }
    match edge_segment(cur) {
        Some(Ok(seg)) => {
            let to = mention(seg.to);
            let edges = acc.push(
                FlowchartEdgeView { from, to, edge_label: seg.edge_label, stroke: seg.stroke },
            );
            let next = trim_start(seg.to.rest);
            if next.len() == 0 {
                Some(Ok(edges))
            } else if edge_ahead(next) {
                chain_from(line, offset, next, to, edges)
            } else {
                line_error(
                    "syntax error: unexpected tokens after edge: `"@ + at_most(next, 40) + "`"@,
                    line,
                    offset,
                )
            }
        },
        Some(Err(SegmentParseErrorView::Message(m))) => line_error(m, line, offset),
        Some(Err(SegmentParseErrorView::UnsupportedShape { relative_start, delimiter_len })) => {
            let start = offset + tail_offset(cur, line) + relative_start;
            Some(
                Err(
                    diagnostic(
                        "unsupported: this compound Mermaid node shape is not supported by kozue"@,
                        start,
                        start + delimiter_len,
                    ),
                ),
            )
        },
        None => if cur.len() == 0 {
            if acc.len() == 0 {
                None
            } else {
                Some(Ok(acc))
            }
        } else {
            line_error(
                "syntax error: unexpected tokens in edge: `"@ + at_most(cur, 40) + "`"@,
                line,
                offset,
            )
        },
    }
}

/// What the edge statement `line` at byte `offset` is read as.
pub open spec fn edge_chain(line: Seq<char>, offset: int) -> ChainView {
    match bad_shape(line) {
        Some((at, len)) => Some(
            Err(
                diagnostic(
                    "unsupported: this compound Mermaid node shape is not supported by kozue"@,
                    offset + at,
                    offset + at + len,
                ),
            ),
        ),
        None => match node_ref(line) {
            Some(n) => {
                let rest = trim_start(n.rest);
                if edge_ahead(rest) {
                    chain_from(line, offset, rest, mention(n), Seq::empty())
                } else {
                    None
                }
            },
            None => None,
        },
    }
}

fn whole_line(message: String, line: &[char], offset: usize) -> (r: Option<
    Result<Vec<FlowchartEdge>, Diagnostic>,
>)
    requires
        offset + byte_len(line@) <= usize::MAX,
    ensures
        chain_view(r) == line_error(message@, line@, offset as int),
{
    let end: usize = offset + byte_len_of(line);
    Some(Err(Diagnostic::new(message, offset..end)))
}

/// What the edge statement `line` at byte `offset` is read as.
pub fn try_parse_edge_chain(line: &[char], offset: usize) -> (r: Option<
    Result<Vec<FlowchartEdge>, Diagnostic>,
>)
    requires
        offset + byte_len(line@) <= usize::MAX,
    ensures
        chain_view(r) == edge_chain(line@, offset as int),
{
    broadcast use lemma_views_push;

    proof {
        lemma_bad_shape(line@);
    }
    match unsupported_node_shape_after_id(line) {
        Some((at, len)) => {
            return Some(
                Err(
                    Diagnostic::new(
                        unsupported_node_shape_message(),
                        offset + at..offset + at + len,
                    ),
                ),
            );
        },
        None => {},
    }
    let (first, rest) = match parse_node_with_label(line) {
        Some(n) => (Mention { id: n.id, label: n.label, kind: n.kind }, n.rest),
        None => {
            return None;
        },
    };
    let mut cur = trim_start_of(rest);
    if !starts_with_edge_operator(cur) {
        return None;
    }
    let mut from: Mention = first;
    let mut edges: Vec<FlowchartEdge> = Vec::new();
    proof {
        lemma_node_ref(line@);
        lemma_tail_trim(rest@);
        lemma_tail_trans(cur@, rest@, line@);
        lemma_trim_start_twice(rest@);
        assert(views(edges@) =~= Seq::<FlowchartEdgeView>::empty());
    }
    loop
        invariant
            offset + byte_len(line@) <= usize::MAX,
            tail_of(cur@, line@),
            trim_start(cur@) == cur@,
            chain_from(line@, offset as int, cur@, from@, views(edges@)) == edge_chain(
                line@,
                offset as int,
            ),
        decreases cur@.len(),
    {
        broadcast use lemma_views_push;

        proof {
            lemma_edge_segment(cur@);
            lemma_tail_offset(cur@, line@);
        }
        match parse_one_edge_segment(cur) {
            Some(Ok(seg)) => {
                let rest = seg.to.rest;
                let to = Mention { id: seg.to.id, label: seg.to.label, kind: seg.to.kind };
                let next_from = to.copy();
                edges.push(
                    FlowchartEdge { from, to, edge_label: seg.edge_label, stroke: seg.stroke },
                );
                from = next_from;
                proof {
                    lemma_tail_trim(rest@);
                    lemma_tail_trans(rest@, cur@, line@);
                    lemma_tail_trans(trim_start(rest@), rest@, line@);
                    lemma_trim_start_twice(rest@);
                }
                cur = trim_start_of(rest);
                if cur.len() == 0 {
                    return Some(Ok(edges));
                }
                if !starts_with_edge_operator(cur) {
                    let message = surround(
                        "syntax error: unexpected tokens after edge: `",
                        clip(cur, 40),
                        "`",
                    );
                    return whole_line(message, line, offset);
                }
            },
            Some(Err(SegmentParseError::Message(message))) => {
                return whole_line(message, line, offset);
            },
            Some(Err(SegmentParseError::UnsupportedShape { relative_start, delimiter_len })) => {
                let start: usize = offset + offset_of_tail(cur, line) + relative_start;
                return Some(
                    Err(
                        Diagnostic::new(
                            unsupported_node_shape_message(),
                            start..start + delimiter_len,
                        ),
                    ),
                );
            },
            None => {
                if cur.len() == 0 {
                    if edges.len() == 0 {
                        return None;
                    }
                    return Some(Ok(edges));
                }
                let message = surround(
                    "syntax error: unexpected tokens in edge: `",
                    clip(cur, 40),
                    "`",
                );
                return whole_line(message, line, offset);
            },
        }
    }
}

proof fn lemma_chain_within(
    line: Seq<char>,
    offset: int,
    cur: Seq<char>,
    from: MentionView,
    acc: Seq<FlowchartEdgeView>,
)
    requires
        0 <= offset,
        tail_of(cur, line),
        trim_start(cur) == cur,
    ensures
        chain_from(line, offset, cur, from, acc) matches Some(Err(d)) ==> offset <= d.start <= d.end
            <= offset + byte_len(line),
    decreases cur.len(),
{
    lemma_edge_segment(cur);
    lemma_tail_offset(cur, line);
    if let Some(Ok(seg)) = edge_segment(cur) {
        lemma_tail_trim(seg.to.rest);
        let next = trim_start(seg.to.rest);
        lemma_tail_trans(next, seg.to.rest, cur);
        lemma_tail_trans(next, cur, line);
        lemma_trim_start_twice(seg.to.rest);
        if next.len() > 0 && edge_ahead(next) {
            lemma_chain_within(
                line,
                offset,
                next,
                mention(seg.to),
                acc.push(
                    FlowchartEdgeView {
                        from,
                        to: mention(seg.to),
                        edge_label: seg.edge_label,
                        stroke: seg.stroke,
                    },
                ),
            );
        }
    }
}

/// An error in a chain is about the line.
pub proof fn lemma_edge_chain_within(line: Seq<char>, offset: int)
    requires
        0 <= offset,
    ensures
        edge_chain(line, offset) matches Some(Err(d)) ==> offset <= d.start <= d.end <= offset
            + byte_len(line),
{
    lemma_bad_shape(line);
    lemma_node_ref(line);
    if let Some(n) = node_ref(line) {
        lemma_tail_trim(n.rest);
        lemma_tail_trans(trim_start(n.rest), n.rest, line);
        lemma_trim_start_twice(n.rest);
        lemma_chain_within(line, offset, trim_start(n.rest), mention(n), Seq::empty());
    }
}

proof fn lemma_chain_some(
    line: Seq<char>,
    offset: int,
    cur: Seq<char>,
    from: MentionView,
    acc: Seq<FlowchartEdgeView>,
)
    ensures
        chain_from(line, offset, cur, from, acc) matches Some(Ok(edges)) ==> edges.len() > 0,
    decreases cur.len(),
{
    lemma_edge_segment(cur);
    if let Some(Ok(seg)) = edge_segment(cur) {
        lemma_tail_trim(seg.to.rest);
        let next = trim_start(seg.to.rest);
        if next.len() > 0 && edge_ahead(next) {
            lemma_chain_some(
                line,
                offset,
                next,
                mention(seg.to),
                acc.push(
                    FlowchartEdgeView {
                        from,
                        to: mention(seg.to),
                        edge_label: seg.edge_label,
                        stroke: seg.stroke,
                    },
                ),
            );
        }
    }
}

/// A chain has an edge.
pub proof fn lemma_edge_chain_some(line: Seq<char>, offset: int)
    ensures
        edge_chain(line, offset) matches Some(Ok(edges)) ==> edges.len() > 0,
{
    if let Some(n) = node_ref(line) {
        lemma_chain_some(line, offset, trim_start(n.rest), mention(n), Seq::empty());
    }
}

} // verus!
