//! Flowchart nodes and edges: one statement at a time.
use crate::ir::{ArrowType, LineStyle, LineWeight, Message, NodeKind};
use crate::mermaid::scan::{
    bracket, circle, extract_bracket_with_rest, extract_circle_with_rest, extract_pipe_label,
    ident, lemma_bracket, lemma_ident, lemma_pipe_label, lemma_tail_offset, lemma_tail_skip,
    lemma_tail_trans, lemma_tail_trim, offset_of_tail, pipe_label, split_id, tail_of, tail_offset,
};
use crate::offsets::{byte_len, lemma_byte_len_at_least};
use crate::text::{
    after_prefix, at_most, begins, blank, clip, contains_text, find_text, has_prefix, has_text,
    is_blank, lemma_text_from, occurs_at, opt_view, push_chars, skip, starts_with,
    starts_with_char, strip_prefix, take, text_index, to_string, trim, trim_of, trim_start,
    trim_start_of,
};
use vstd::prelude::*;

verus! {

// ---------------------------------------------------------------------------
// Nodes
// ---------------------------------------------------------------------------

/// A node as it is written: an id, perhaps with a label in the brackets of a
/// shape, and what follows it.
pub struct NodeRef<'a> {
    /// The id.
    pub id: String,
    /// The label in the brackets.
    pub label: Option<String>,
    /// The shape that the brackets stand for.
    pub kind: NodeKind,
    /// What follows.
    pub rest: &'a [char],
}

/// The model of [`NodeRef`].
#[verifier::ext_equal]
pub struct NodeRefView {
    pub id: Seq<char>,
    pub label: Option<Seq<char>>,
    pub kind: NodeKind,
    pub rest: Seq<char>,
}

impl<'a> View for NodeRef<'a> {
    type V = NodeRefView;

    open spec fn view(&self) -> NodeRefView {
        NodeRefView {
            id: self.id@,
            label: opt_view(self.label),
            kind: self.kind,
            rest: self.rest@,
        }
    }
}

/// The node `id` with what the brackets held.
pub open spec fn shaped(
    id: Seq<char>,
    content: Option<(Seq<char>, Seq<char>)>,
    kind: NodeKind,
) -> Option<NodeRefView> {
    match content {
        Some((label, rest)) => Some(NodeRefView { id, label: Some(label), kind, rest }),
        None => None,
    }
}

/// The node at the start of `s`.
pub open spec fn node_ref(s: Seq<char>) -> Option<NodeRefView> {
    match ident(s) {
        Some((id, after)) => {
            let rest = trim_start(after);
            if begins(rest, '[') {
                shaped(id, bracket(rest, '[', ']'), NodeKind::Rectangle)
            } else if has_prefix(rest, "(["@) {
                None
            } else if has_prefix(rest, "(("@) {
                shaped(id, circle(rest), NodeKind::Circle)
            } else if begins(rest, '(') {
                shaped(id, bracket(rest, '(', ')'), NodeKind::RoundedRectangle)
            } else if begins(rest, '{') {
                shaped(id, bracket(rest, '{', '}'), NodeKind::Diamond)
            } else {
                Some(NodeRefView { id, label: None, kind: NodeKind::Default, rest })
            }
        },
        None => None,
    }
}

pub proof fn lemma_node_ref(s: Seq<char>)
    ensures
        node_ref(s) matches Some(n) ==> tail_of(n.rest, s) && n.rest.len() < s.len(),
{
    lemma_ident(s);
    if let Some((_, after)) = ident(s) {
        let rest = trim_start(after);
        lemma_tail_trim(after);
        lemma_tail_trans(rest, after, s);
        lemma_bracket(rest, '[', ']');
        lemma_bracket(rest, '(', ')');
        lemma_bracket(rest, '{', '}');
        if let Some(n) = node_ref(s) {
            if n.label is Some {
                lemma_tail_trans(n.rest, rest, s);
            }
        }
    }
}

fn shape<'a>(id: String, content: Option<(String, &'a [char])>, kind: NodeKind) -> (r: Option<
    NodeRef<'a>,
>)
    ensures
        opt_view(r) == shaped(id@, opt_view(content), kind),
{
    match content {
        Some((label, rest)) => Some(NodeRef { id, label: Some(label), kind, rest }),
        None => None,
    }
}

/// The node at the start of `s`.
pub fn parse_node_with_label<'a>(s: &'a [char]) -> (r: Option<NodeRef<'a>>)
    ensures
        opt_view(r) == node_ref(s@),
{
    match split_id(s) {
        Some((id, after)) => {
            let rest = trim_start_of(after);
            if starts_with_char(rest, '[') {
                shape(id, extract_bracket_with_rest(rest, '[', ']'), NodeKind::Rectangle)
            } else if starts_with(rest, "([") {
                None
            } else if starts_with(rest, "((") {
                shape(id, extract_circle_with_rest(rest), NodeKind::Circle)
            } else if starts_with_char(rest, '(') {
                shape(id, extract_bracket_with_rest(rest, '(', ')'), NodeKind::RoundedRectangle)
            } else if starts_with_char(rest, '{') {
                shape(id, extract_bracket_with_rest(rest, '{', '}'), NodeKind::Diamond)
            } else {
                Some(NodeRef { id, label: None, kind: NodeKind::Default, rest })
            }
        },
        None => None,
    }
}

/// The length of the brackets of a shape that is not drawn, at the start of `s`.
pub open spec fn undrawn_shape(s: Seq<char>) -> int {
    if has_prefix(s, "((("@) {
        3
    } else if has_prefix(s, "{{"@) || has_prefix(s, "@{"@) || has_prefix(s, "(["@) || has_prefix(
        s,
        "[["@,
    ) || has_prefix(s, "[("@) || has_prefix(s, "[/"@) || has_prefix(s, "[\\"@) {
        2
    } else {
        0
    }
}

/// Where `s` is an id with the brackets of a shape that is not drawn: the byte
/// offset of the brackets, and their length.
pub open spec fn bad_shape(s: Seq<char>) -> Option<(int, int)> {
    match ident(s) {
        Some((_, after)) => {
            let rest = trim_start(after);
            if undrawn_shape(rest) > 0 {
                Some((tail_offset(rest, s), undrawn_shape(rest)))
            } else {
                None
            }
        },
        None => None,
    }
}

/// The brackets lie within the text.
pub proof fn lemma_bad_shape(s: Seq<char>)
    ensures
        bad_shape(s) matches Some((at, len)) ==> 0 <= at && 0 < len && at + len <= byte_len(s),
{
    lemma_ident(s);
    if let Some((_, after)) = ident(s) {
        let rest = trim_start(after);
        lemma_tail_trim(after);
        lemma_tail_trans(rest, after, s);
        lemma_tail_offset(rest, s);
        lemma_byte_len_at_least(rest);
        reveal_strlit("(((");
        reveal_strlit("{{");
        reveal_strlit("@{");
        reveal_strlit("([");
        reveal_strlit("[[");
        reveal_strlit("[(");
        reveal_strlit("[/");
        reveal_strlit("[\\");
    }
}

/// A byte offset and a length as mathematical integers.
pub open spec fn opt_place(o: Option<(usize, usize)>) -> Option<(int, int)> {
    match o {
        Some((a, b)) => Some((a as int, b as int)),
        None => None,
    }
}

/// Where `s` is an id with the brackets of a shape that is not drawn: the byte
/// offset of the brackets, and their length.
pub fn unsupported_node_shape_after_id(s: &[char]) -> (r: Option<(usize, usize)>)
    requires
        byte_len(s@) <= usize::MAX,
    ensures
        opt_place(r) == bad_shape(s@),
{
    match split_id(s) {
        Some((_, after)) => {
            let rest = trim_start_of(after);
            proof {
                lemma_ident(s@);
                lemma_tail_trim(after@);
                lemma_tail_trans(rest@, after@, s@);
            }
            if starts_with(rest, "(((") {
                Some((offset_of_tail(rest, s), 3))
            } else if starts_with(rest, "{{") || starts_with(rest, "@{") || starts_with(rest, "([")
                || starts_with(rest, "[[") || starts_with(rest, "[(") || starts_with(rest, "[/")
                || starts_with(rest, "[\\") {
                Some((offset_of_tail(rest, s), 2))
            } else {
                None
            }
        },
        None => None,
    }
}

/// The message about a shape that is not drawn.
pub fn unsupported_node_shape_message() -> (r: String)
    ensures
        r@ == "unsupported: this compound Mermaid node shape is not supported by kozue"@,
{
    String::from_str("unsupported: this compound Mermaid node shape is not supported by kozue")
}

/// Whether `s` holds one of the arrows that make a line an edge.
pub open spec fn has_arrow(s: Seq<char>) -> bool {
    has_text(s, "-->"@) || has_text(s, "---"@) || has_text(s, "->>"@) || has_text(s, "-->>"@)
        || has_text(s, "->"@) || has_text(s, "-.-"@) || has_text(s, "==>"@) || has_text(s, "==="@)
}

/// A node statement: the whole line is one node.
pub open spec fn node_decl(s: Seq<char>) -> Option<NodeRefView> {
    if has_arrow(s) {
        None
    } else {
        match ident(s) {
            Some((id, after)) => {
                let rest = trim(after);
                if rest.len() == 0 {
                    Some(NodeRefView { id, label: None, kind: NodeKind::Default, rest })
                } else if begins(rest, '[') {
                    alone(shaped(id, bracket(rest, '[', ']'), NodeKind::Rectangle))
                } else if has_prefix(rest, "(("@) {
                    alone(shaped(id, circle(rest), NodeKind::Circle))
                } else if begins(rest, '(') {
                    alone(shaped(id, bracket(rest, '(', ')'), NodeKind::RoundedRectangle))
                } else if begins(rest, '{') {
                    alone(shaped(id, bracket(rest, '{', '}'), NodeKind::Diamond))
                } else {
                    None
                }
            },
            None => None,
        }
    }
}

/// The node, where nothing but white space follows it.
pub open spec fn alone(n: Option<NodeRefView>) -> Option<NodeRefView> {
    match n {
        Some(n) => if blank(n.rest) {
            Some(n)
        } else {
            None
        },
        None => None,
    }
}

fn if_alone<'a>(n: Option<NodeRef<'a>>) -> (r: Option<NodeRef<'a>>)
    ensures
        opt_view(r) == alone(opt_view(n)),
{
    match n {
        Some(n) => if is_blank(n.rest) {
            Some(n)
        } else {
            None
        },
        None => None,
    }
}

/// A node statement: the whole line is one node.
pub fn try_parse_node_decl<'a>(s: &'a [char]) -> (r: Option<NodeRef<'a>>)
    ensures
        opt_view(r) == node_decl(s@),
{
    if contains_text(s, "-->") || contains_text(s, "---") || contains_text(s, "->>")
        || contains_text(s, "-->>") || contains_text(s, "->") || contains_text(s, "-.-")
        || contains_text(s, "==>") || contains_text(s, "===") {
        return None;
    }
    match split_id(s) {
        Some((id, after)) => {
            let rest = trim_of(after);
            if rest.len() == 0 {
                Some(NodeRef { id, label: None, kind: NodeKind::Default, rest })
            } else if starts_with_char(rest, '[') {
                if_alone(shape(id, extract_bracket_with_rest(rest, '[', ']'), NodeKind::Rectangle))
            } else if starts_with(rest, "((") {
                if_alone(shape(id, extract_circle_with_rest(rest), NodeKind::Circle))
            } else if starts_with_char(rest, '(') {
                if_alone(
                    shape(
                        id,
                        extract_bracket_with_rest(rest, '(', ')'),
                        NodeKind::RoundedRectangle,
                    ),
                )
            } else if starts_with_char(rest, '{') {
                if_alone(shape(id, extract_bracket_with_rest(rest, '{', '}'), NodeKind::Diamond))
            } else {
                None
            }
        },
        None => None,
    }
}

// ---------------------------------------------------------------------------
// Edge operators
// ---------------------------------------------------------------------------

/// What an edge operator stands for.
#[derive(Clone, Copy)]
pub struct Stroke {
    /// The head at the target.
    pub arrow: ArrowType,
    /// The head at the source.
    pub from_arrow: ArrowType,
    /// How the line is drawn.
    pub line: LineStyle,
    /// How heavy the line is.
    pub weight: LineWeight,
}

/// An edge operator: how it is written, and what it stands for.
#[verifier::ext_equal]
pub struct Operator {
    pub token: Seq<char>,
    pub stroke: Stroke,
}

/// The edge operator at the start of `s`. An operator that begins another one
/// comes after it.
pub open spec fn operator(s: Seq<char>) -> Option<Operator> {
    if has_prefix(s, "<-->"@) {
        Some(
            Operator {
                token: "<-->"@,
                stroke: Stroke {
                    arrow: ArrowType::Triangle,
                    from_arrow: ArrowType::Triangle,
                    line: LineStyle::Solid,
                    weight: LineWeight::Normal,
                },
            },
        )
    } else if has_prefix(s, "-.->"@) {
        Some(
            Operator {
                token: "-.->"@,
                stroke: Stroke {
                    arrow: ArrowType::Triangle,
                    from_arrow: ArrowType::Plain,
                    line: LineStyle::Dotted,
                    weight: LineWeight::Normal,
                },
            },
        )
    } else if has_prefix(s, "-.-"@) {
        Some(
            Operator {
                token: "-.-"@,
                stroke: Stroke {
                    arrow: ArrowType::Plain,
                    from_arrow: ArrowType::Plain,
                    line: LineStyle::Dotted,
                    weight: LineWeight::Normal,
                },
            },
        )
    } else if has_prefix(s, "==>"@) {
        Some(
            Operator {
                token: "==>"@,
                stroke: Stroke {
                    arrow: ArrowType::Triangle,
                    from_arrow: ArrowType::Plain,
                    line: LineStyle::Solid,
                    weight: LineWeight::Thick,
                },
            },
        )
    } else if has_prefix(s, "==="@) {
        Some(
            Operator {
                token: "==="@,
                stroke: Stroke {
                    arrow: ArrowType::Plain,
                    from_arrow: ArrowType::Plain,
                    line: LineStyle::Solid,
                    weight: LineWeight::Thick,
                },
            },
        )
    } else if has_prefix(s, "-->"@) {
        Some(Operator { token: "-->"@, stroke: arrow_stroke() })
    } else if has_prefix(s, "---"@) {
        Some(Operator { token: "---"@, stroke: line_stroke() })
    } else {
        None
    }
}

/// What `-->` stands for.
pub open spec fn arrow_stroke() -> Stroke {
    Stroke {
        arrow: ArrowType::Triangle,
        from_arrow: ArrowType::Plain,
        line: LineStyle::Solid,
        weight: LineWeight::Normal,
    }
}

/// What `---` stands for.
pub open spec fn line_stroke() -> Stroke {
    Stroke {
        arrow: ArrowType::Plain,
        from_arrow: ArrowType::Plain,
        line: LineStyle::Solid,
        weight: LineWeight::Normal,
    }
}

/// An operator is not empty, and stands at the start of the text.
pub proof fn lemma_operator(s: Seq<char>)
    ensures
        operator(s) matches Some(op) ==> 0 < op.token.len() && has_prefix(s, op.token),
{
    reveal_strlit("<-->");
    reveal_strlit("-.->");
    reveal_strlit("-.-");
    reveal_strlit("==>");
    reveal_strlit("===");
    reveal_strlit("-->");
    reveal_strlit("---");
}

/// Whether `s` begins with an edge operator, or with the start of a labelled
/// one.
pub open spec fn edge_ahead(s: Seq<char>) -> bool {
    operator(s) is Some || has_prefix(s, "-- "@)
}

/// The edge operator at the start of `s`.
pub fn find_operator(s: &[char]) -> (r: Option<(&'static str, Stroke)>)
    ensures
        match r {
            Some((token, stroke)) => operator(s@) == Some(Operator { token: token@, stroke }),
            None => operator(s@) is None,
        },
{
    if starts_with(s, "<-->") {
        Some(
            (
                "<-->",
                Stroke {
                    arrow: ArrowType::Triangle,
                    from_arrow: ArrowType::Triangle,
                    line: LineStyle::Solid,
                    weight: LineWeight::Normal,
                },
            ),
        )
    } else if starts_with(s, "-.->") {
        Some(
            (
                "-.->",
                Stroke {
                    arrow: ArrowType::Triangle,
                    from_arrow: ArrowType::Plain,
                    line: LineStyle::Dotted,
                    weight: LineWeight::Normal,
                },
            ),
        )
    } else if starts_with(s, "-.-") {
        Some(
            (
                "-.-",
                Stroke {
                    arrow: ArrowType::Plain,
                    from_arrow: ArrowType::Plain,
                    line: LineStyle::Dotted,
                    weight: LineWeight::Normal,
                },
            ),
        )
    } else if starts_with(s, "==>") {
        Some(
            (
                "==>",
                Stroke {
                    arrow: ArrowType::Triangle,
                    from_arrow: ArrowType::Plain,
                    line: LineStyle::Solid,
                    weight: LineWeight::Thick,
                },
            ),
        )
    } else if starts_with(s, "===") {
        Some(
            (
                "===",
                Stroke {
                    arrow: ArrowType::Plain,
                    from_arrow: ArrowType::Plain,
                    line: LineStyle::Solid,
                    weight: LineWeight::Thick,
                },
            ),
        )
    } else if starts_with(s, "-->") {
        Some(
            (
                "-->",
                Stroke {
                    arrow: ArrowType::Triangle,
                    from_arrow: ArrowType::Plain,
                    line: LineStyle::Solid,
                    weight: LineWeight::Normal,
                },
            ),
        )
    } else if starts_with(s, "---") {
        Some(
            (
                "---",
                Stroke {
                    arrow: ArrowType::Plain,
                    from_arrow: ArrowType::Plain,
                    line: LineStyle::Solid,
                    weight: LineWeight::Normal,
                },
            ),
        )
    } else {
        None
    }
}

/// Whether `s` begins with an edge operator, or with the start of a labelled
/// one.
pub fn starts_with_edge_operator(s: &[char]) -> (r: bool)
    ensures
        r == edge_ahead(s@),
{
    find_operator(s).is_some() || starts_with(s, "-- ")
}

// ---------------------------------------------------------------------------
// Edge segments
// ---------------------------------------------------------------------------

/// An operator with its target: the `--> B` of `A --> B`.
pub struct EdgeSegment<'a> {
    /// The target.
    pub to: NodeRef<'a>,
    /// The text on the edge.
    pub edge_label: Option<String>,
    /// What the operator stands for.
    pub stroke: Stroke,
}

/// The model of [`EdgeSegment`].
#[verifier::ext_equal]
pub struct EdgeSegmentView {
    pub to: NodeRefView,
    pub edge_label: Option<Seq<char>>,
    pub stroke: Stroke,
}

impl<'a> View for EdgeSegment<'a> {
    type V = EdgeSegmentView;

    open spec fn view(&self) -> EdgeSegmentView {
        EdgeSegmentView {
            to: self.to@,
            edge_label: opt_view(self.edge_label),
            stroke: self.stroke,
        }
    }
}

/// Why a segment is refused.
pub enum SegmentParseError {
    /// For the reason given.
    Message(String),
    /// The target has a shape that is not drawn.
    UnsupportedShape {
        /// The byte offset of the brackets within the segment.
        relative_start: usize,
        /// The length of the brackets.
        delimiter_len: usize,
    },
}

/// The model of [`SegmentParseError`].
pub enum SegmentParseErrorView {
    Message(Seq<char>),
    UnsupportedShape { relative_start: int, delimiter_len: int },
}

impl View for SegmentParseError {
    type V = SegmentParseErrorView;

    open spec fn view(&self) -> SegmentParseErrorView {
        match *self {
            SegmentParseError::Message(m) => SegmentParseErrorView::Message(m@),
            SegmentParseError::UnsupportedShape { relative_start, delimiter_len } => {
                SegmentParseErrorView::UnsupportedShape {
                    relative_start: relative_start as int,
                    delimiter_len: delimiter_len as int,
                }
            },
        }
    }
}

/// What a segment is read as: nothing, an error, or a segment.
pub type SegmentView = Option<Result<EdgeSegmentView, SegmentParseErrorView>>;

/// The model of what a segment is read as.
pub open spec fn segment_view(
    r: Option<Result<EdgeSegment, SegmentParseError>>,
) -> SegmentView {
    match r {
        Some(Ok(s)) => Some(Ok(s@)),
        Some(Err(e)) => Some(Err(e@)),
        None => None,
    }
}

/// The error about two targets.
pub open spec fn multi_target() -> SegmentParseErrorView {
    SegmentParseErrorView::Message(
        "unsupported: multi-target edge (`&`); split into separate edge lines instead"@,
    )
}

/// The error about two targets.
pub fn multi_target_error() -> (r: SegmentParseError)
    ensures
        r@ == multi_target(),
{
    SegmentParseError::Message(
        String::from_str(
            "unsupported: multi-target edge (`&`); split into separate edge lines instead",
        ),
    )
}

/// The error about a target `node` of a shape that is not drawn, where `node`
/// is a tail of `segment`.
pub open spec fn segment_shape_error(segment: Seq<char>, node: Seq<char>) -> Option<
    SegmentParseErrorView,
> {
    match bad_shape(node) {
        Some((at, len)) => Some(
            SegmentParseErrorView::UnsupportedShape {
                relative_start: tail_offset(node, segment) + at,
                delimiter_len: len,
            },
        ),
        None => None,
    }
}

/// The brackets lie within the segment.
pub proof fn lemma_segment_shape_error(segment: Seq<char>, node: Seq<char>)
    requires
        tail_of(node, segment),
    ensures
        segment_shape_error(segment, node) matches Some(
            SegmentParseErrorView::UnsupportedShape { relative_start, delimiter_len },
        ) ==> 0 <= relative_start && 0 < delimiter_len && relative_start + delimiter_len
            <= byte_len(segment),
{
    lemma_bad_shape(node);
    lemma_tail_offset(node, segment);
}

/// The error about a target `node` of a shape that is not drawn.
pub fn unsupported_segment_error(segment: &[char], node: &[char]) -> (r: Option<SegmentParseError>)
    requires
        tail_of(node@, segment@),
        byte_len(segment@) <= usize::MAX,
    ensures
        opt_view(r) == segment_shape_error(segment@, node@),
{
    proof {
        lemma_tail_offset(node@, segment@);
        lemma_bad_shape(node@);
    }
    match unsupported_node_shape_after_id(node) {
        Some((at, len)) => {
            let node_start: usize = offset_of_tail(node, segment);
            Some(
                SegmentParseError::UnsupportedShape {
                    relative_start: node_start + at,
                    delimiter_len: len,
                },
            )
        },
        None => None,
    }
}

/// The target after an operator that was written `token`, with the label
/// between bars where there is one; `segment` is the segment as a whole.
pub open spec fn edge_target(
    segment: Seq<char>,
    op_rest: Seq<char>,
    token: Seq<char>,
    stroke: Stroke,
) -> SegmentView {
    let o = trim_start(op_rest);
    if begins(o, '|') {
        match pipe_label(o) {
            Some((label, after_label)) => {
                let target = trim_start(after_label);
                match segment_shape_error(segment, target) {
                    Some(e) => Some(Err(e)),
                    None => match node_ref(target) {
                        Some(n) => with_target(n, Some(label), stroke),
                        None => Some(
                            Err(
                                SegmentParseErrorView::Message(
                                    "syntax error: expected node identifier after `"@ + token + "|"@
                                        + label + "|`, got `"@ + at_most(target, 20) + "`"@,
                                ),
                            ),
                        ),
                    },
                }
            },
            None => None,
        }
    } else if begins(o, '&') {
        Some(Err(multi_target()))
    } else {
        match segment_shape_error(segment, o) {
            Some(e) => Some(Err(e)),
            None => match node_ref(o) {
                Some(n) => with_target(n, None, stroke),
                None => None,
            },
        }
    }
}

/// The segment with the target `n`, unless a second target follows.
pub open spec fn with_target(n: NodeRefView, label: Option<Seq<char>>, stroke: Stroke) -> SegmentView {
    let rest = trim_start(n.rest);
    if begins(rest, '&') {
        Some(Err(multi_target()))
    } else {
        Some(
            Ok(
                EdgeSegmentView {
                    to: NodeRefView { id: n.id, label: n.label, kind: n.kind, rest },
                    edge_label: label,
                    stroke,
                },
            ),
        )
    }
}

/// What a target leaves is a shorter tail; a refused shape lies within the
/// segment.
pub proof fn lemma_edge_target(
    segment: Seq<char>,
    op_rest: Seq<char>,
    token: Seq<char>,
    stroke: Stroke,
)
    requires
        tail_of(op_rest, segment),
    ensures
        edge_target(segment, op_rest, token, stroke) matches Some(Ok(s)) ==> tail_of(
            s.to.rest,
            segment,
        ) && s.to.rest.len() < op_rest.len(),
        edge_target(segment, op_rest, token, stroke) matches Some(
            Err(SegmentParseErrorView::UnsupportedShape { relative_start, delimiter_len }),
        ) ==> 0 <= relative_start && 0 < delimiter_len && relative_start + delimiter_len
            <= byte_len(segment),
{
    let o = trim_start(op_rest);
    lemma_tail_trim(op_rest);
    lemma_tail_trans(o, op_rest, segment);
    if begins(o, '|') {
        lemma_pipe_label(o);
        if let Some((label, after_label)) = pipe_label(o) {
            let target = trim_start(after_label);
            lemma_tail_trim(after_label);
            lemma_tail_trans(after_label, o, segment);
            lemma_tail_trans(target, after_label, segment);
            lemma_segment_shape_error(segment, target);
            lemma_node_ref(target);
            if let Some(n) = node_ref(target) {
                lemma_tail_trim(n.rest);
                lemma_tail_trans(n.rest, target, segment);
                lemma_tail_trans(trim_start(n.rest), n.rest, segment);
            }
        }
    } else if !begins(o, '&') {
        lemma_segment_shape_error(segment, o);
        lemma_node_ref(o);
        if let Some(n) = node_ref(o) {
            lemma_tail_trim(n.rest);
            lemma_tail_trans(n.rest, o, segment);
            lemma_tail_trans(trim_start(n.rest), n.rest, segment);
        }
    }
}

fn finish_target<'a>(n: NodeRef<'a>, label: Option<String>, stroke: Stroke) -> (r: Option<
    Result<EdgeSegment<'a>, SegmentParseError>,
>)
    ensures
        segment_view(r) == with_target(n@, opt_view(label), stroke),
{
    let rest = trim_start_of(n.rest);
    if starts_with_char(rest, '&') {
        Some(Err(multi_target_error()))
    } else {
        Some(
            Ok(
                EdgeSegment {
                    to: NodeRef { id: n.id, label: n.label, kind: n.kind, rest },
                    edge_label: label,
                    stroke,
                },
            ),
        )
    }
}

/// The target after an operator that was written `token`, with the label
/// between bars where there is one; `segment` is the segment as a whole.
pub fn parse_edge_target<'a>(
    segment: &'a [char],
    op_rest: &'a [char],
    token: &str,
    stroke: Stroke,
) -> (r: Option<Result<EdgeSegment<'a>, SegmentParseError>>)
    requires
        tail_of(op_rest@, segment@),
        byte_len(segment@) <= usize::MAX,
    ensures
        segment_view(r) == edge_target(segment@, op_rest@, token@, stroke),
{
    let o = trim_start_of(op_rest);
    proof {
        lemma_tail_trim(op_rest@);
        lemma_tail_trans(o@, op_rest@, segment@);
    }
    if starts_with_char(o, '|') {
        match extract_pipe_label(o) {
            Some((label, after_label)) => {
                let target = trim_start_of(after_label);
                proof {
                    lemma_pipe_label(o@);
                    lemma_tail_trim(after_label@);
                    lemma_tail_trans(after_label@, o@, segment@);
                    lemma_tail_trans(target@, after_label@, segment@);
                }
                match unsupported_segment_error(segment, target) {
                    Some(e) => Some(Err(e)),
                    None => match parse_node_with_label(target) {
                        Some(n) => finish_target(n, Some(label), stroke),
                        None => {
                            let mut message = String::from_str(
                                "syntax error: expected node identifier after `",
                            );
                            message.append(token);
                            message.append("|");
                            message.append(label.as_str());
                            message.append("|`, got `");
                            push_chars(&mut message, clip(target, 20));
                            message.append("`");
                            Some(Err(SegmentParseError::Message(message)))
                        },
                    },
                }
            },
            None => None,
        }
    } else if starts_with_char(o, '&') {
        Some(Err(multi_target_error()))
    } else {
        match unsupported_segment_error(segment, o) {
            Some(e) => Some(Err(e)),
            None => match parse_node_with_label(o) {
                Some(n) => finish_target(n, None, stroke),
                None => None,
            },
        }
    }
}

/// A label that is not empty.
pub open spec fn some_text(s: Seq<char>) -> Option<Seq<char>> {
    if s.len() == 0 {
        None
    } else {
        Some(s)
    }
}

/// A label that is not empty.
pub fn nonempty(s: &[char]) -> (r: Option<String>)
    ensures
        opt_view(r) == some_text(s@),
{
    if s.len() == 0 {
        None
    } else {
        Some(to_string(s))
    }
}

/// The segment with another label.
pub open spec fn relabelled(s: SegmentView, label: Option<Seq<char>>) -> SegmentView {
    match s {
        Some(Ok(seg)) => Some(
            Ok(EdgeSegmentView { to: seg.to, edge_label: label, stroke: seg.stroke }),
        ),
        other => other,
    }
}

/// The segment `-- label -->` or `-- label ---` in `t`, at whose arrow, at
/// index `k` of `r`, the label ends; `r` is what follows the `-- `.
pub open spec fn labelled_segment(
    t: Seq<char>,
    r: Seq<char>,
    k: int,
    token: Seq<char>,
    stroke: Stroke,
) -> SegmentView {
    relabelled(edge_target(t, r.skip(k + 3), token, stroke), some_text(trim(r.take(k))))
}

/// The segment at the start of `rest`.
pub open spec fn edge_segment(rest: Seq<char>) -> SegmentView {
    let t = trim_start(rest);
    if begins(t, '&') {
        Some(Err(multi_target()))
    } else {
        match operator(t) {
            Some(op) => edge_target(t, t.skip(op.token.len() as int), op.token, op.stroke),
            None => match after_prefix(t, "-- "@) {
                Some(r) => match text_index(r, "-->"@) {
                    Some(k) => labelled_segment(t, r, k, "-->"@, arrow_stroke()),
                    None => match text_index(r, "---"@) {
                        Some(k) => labelled_segment(t, r, k, "---"@, line_stroke()),
                        None => None,
                    },
                },
                None => None,
            },
        }
    }
}

/// The tail after the arrow at index `k` of what follows `-- `.
proof fn lemma_after_arrow(t: Seq<char>, r: Seq<char>, k: int, token: Seq<char>)
    requires
        after_prefix(t, "-- "@) == Some(r),
        0 <= k < r.len(),
        occurs_at(r, token, k),
        token.len() == 3,
    ensures
        k + 3 <= r.len(),
        tail_of(r.skip(k + 3), t),
        r.skip(k + 3).len() < t.len(),
{
    reveal_strlit("-- ");
    lemma_tail_skip(t, 3);
    lemma_tail_skip(r, k + 3);
    lemma_tail_trans(r.skip(k + 3), r, t);
}

/// A segment leaves a shorter tail; a refused shape lies within the text.
pub proof fn lemma_edge_segment(rest: Seq<char>)
    ensures
        edge_segment(rest) matches Some(Ok(s)) ==> tail_of(s.to.rest, rest) && s.to.rest.len()
            < rest.len(),
        trim_start(rest) == rest ==> (edge_segment(rest) matches Some(
            Err(SegmentParseErrorView::UnsupportedShape { relative_start, delimiter_len }),
        ) ==> 0 <= relative_start && 0 < delimiter_len && relative_start + delimiter_len
            <= byte_len(rest)),
{
    let t = trim_start(rest);
    lemma_tail_trim(rest);
    if !begins(t, '&') {
        lemma_operator(t);
        match operator(t) {
            Some(op) => {
                lemma_tail_skip(t, op.token.len() as int);
                lemma_edge_target(t, t.skip(op.token.len() as int), op.token, op.stroke);
                if let Some(Ok(s)) = edge_segment(rest) {
                    lemma_tail_trans(s.to.rest, t, rest);
                }
            },
            None => {
                if let Some(r) = after_prefix(t, "-- "@) {
                    lemma_text_from(r, "-->"@, 0);
                    lemma_text_from(r, "---"@, 0);
                    reveal_strlit("-->");
                    reveal_strlit("---");
                    if let Some(k) = text_index(r, "-->"@) {
                        lemma_after_arrow(t, r, k, "-->"@);
                        lemma_edge_target(t, r.skip(k + 3), "-->"@, arrow_stroke());
                    } else if let Some(k) = text_index(r, "---"@) {
                        lemma_after_arrow(t, r, k, "---"@);
                        lemma_edge_target(t, r.skip(k + 3), "---"@, line_stroke());
                    }
                    if let Some(Ok(s)) = edge_segment(rest) {
                        lemma_tail_trans(s.to.rest, t, rest);
                    }
                }
            },
        }
    }
}

fn relabel<'a>(
    s: Option<Result<EdgeSegment<'a>, SegmentParseError>>,
    label: Option<String>,
) -> (r: Option<Result<EdgeSegment<'a>, SegmentParseError>>)
    ensures
        segment_view(r) == relabelled(segment_view(s), opt_view(label)),
{
    match s {
        Some(Ok(seg)) => Some(
            Ok(EdgeSegment { to: seg.to, edge_label: label, stroke: seg.stroke }),
        ),
        Some(Err(e)) => Some(Err(e)),
        None => None,
    }
}

/// The segment at the start of `rest`.
pub fn parse_one_edge_segment<'a>(rest: &'a [char]) -> (r: Option<
    Result<EdgeSegment<'a>, SegmentParseError>,
>)
    requires
        byte_len(rest@) <= usize::MAX,
    ensures
        segment_view(r) == edge_segment(rest@),
{
    let t = trim_start_of(rest);
    proof {
        lemma_tail_trim(rest@);
        lemma_tail_offset(t@, rest@);
    }
    if starts_with_char(t, '&') {
        return Some(Err(multi_target_error()));
    }
    match find_operator(t) {
        Some((token, stroke)) => {
            proof {
                lemma_operator(t@);
                lemma_tail_skip(t@, token@.len() as int);
            }
            let op_rest = skip(t, token.unicode_len());
            return parse_edge_target(t, op_rest, token, stroke);
        },
        None => {},
    }
    match strip_prefix(t, "-- ") {
        Some(r) => {
            proof {
                reveal_strlit("-->");
                reveal_strlit("---");
            }
            match find_text(r, "-->") {
                Some(k) => {
                    proof {
                        lemma_after_arrow(t@, r@, k as int, "-->"@);
                    }
                    let len: usize = r.len();
                    let label = nonempty(trim_of(take(r, k)));
                    return relabel(
                        parse_edge_target(
                            t,
                            skip(r, k + 3),
                            "-->",
                            Stroke {
                                arrow: ArrowType::Triangle,
                                from_arrow: ArrowType::Plain,
                                line: LineStyle::Solid,
                                weight: LineWeight::Normal,
                            },
                        ),
                        label,
                    );
                },
                None => {},
            }
            match find_text(r, "---") {
                Some(k) => {
                    proof {
                        lemma_after_arrow(t@, r@, k as int, "---"@);
                    }
                    let len: usize = r.len();
                    let label = nonempty(trim_of(take(r, k)));
                    relabel(
                        parse_edge_target(
                            t,
                            skip(r, k + 3),
                            "---",
                            Stroke {
                                arrow: ArrowType::Plain,
                                from_arrow: ArrowType::Plain,
                                line: LineStyle::Solid,
                                weight: LineWeight::Normal,
                            },
                        ),
                        label,
                    )
                },
                None => None,
            }
        },
        None => None,
    }
}

} // verus!
