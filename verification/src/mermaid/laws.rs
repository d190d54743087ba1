//! Flowchart lines as they are written, and what is read from them.
use crate::ir::{ArrowType, EdgeView, LineStyle, LineWeight, NodeKind};
use crate::lines::{after_keyword, indent, Line, LineView};
use crate::mermaid::chain::{chain_from, edge_chain, mention, FlowchartEdgeView, MentionView};
use crate::mermaid::edges::{
    arrow_stroke, bad_shape, edge_ahead, edge_segment, edge_target, has_arrow, line_stroke,
    node_decl, node_ref, operator, Stroke,
};
use crate::mermaid::flowchart::{
    add_edges, edge_of, flow_line, is_styling, kept_edges, sets_direction, FlowView, RawEdgeView,
};
use crate::mermaid::scan::{bracket, circle, close_from, ident};
use crate::text::{
    after_prefix, before_white, begins, blank, char_index, has_prefix, ident_char,
    lemma_char_from, lemma_past_ident, lemma_text_from, lemma_trim_len, occurs_at, past_ident,
    past_white, text_from, text_index, trim, trim_start, upper, upper_char, white_space,
};
use vstd::prelude::*;

verus! {

// ---------------------------------------------------------------------------
// Nodes
// ---------------------------------------------------------------------------

/// Whether `s` is an id: letters, digits and underscores.
pub open spec fn is_id(s: Seq<char>) -> bool {
    s.len() > 0 && forall|i: int|
        0 <= i < s.len() ==> 'a' <= #[trigger] s[i] <= 'z' || 'A' <= s[i] <= 'Z' || '0' <= s[i]
            <= '9' || s[i] == '_'
}

/// The brackets of a node, with the label in them.
pub enum Shape {
    /// No brackets.
    Bare,
    /// `[label]`
    Square(Seq<char>),
    /// `(label)`
    Round(Seq<char>),
    /// `((label))`
    DoubleRound(Seq<char>),
    /// `{label}`
    Curly(Seq<char>),
}

/// A node as it is written.
pub struct Written {
    pub id: Seq<char>,
    pub shape: Shape,
}

/// The brackets as text.
pub open spec fn brackets(s: Shape) -> Seq<char> {
    match s {
        Shape::Bare => Seq::empty(),
        Shape::Square(l) => seq!['['] + l + seq![']'],
        Shape::Round(l) => seq!['('] + l + seq![')'],
        Shape::DoubleRound(l) => seq!['(', '('] + l + seq![')', ')'],
        Shape::Curly(l) => seq!['{'] + l + seq!['}'],
    }
}

/// The node as text.
pub open spec fn node_text(n: Written) -> Seq<char> {
    n.id + brackets(n.shape)
}

/// Whether `l` holds neither of two characters.
pub open spec fn free_of(l: Seq<char>, a: char, b: char) -> bool {
    forall|i: int| 0 <= i < l.len() ==> #[trigger] l[i] != a && l[i] != b
}

/// Whether a node is written as a node can be: with an id, and with a label that holds
/// none of its brackets and does not begin another kind of bracket.
pub open spec fn writable(n: Written) -> bool {
    is_id(n.id) && match n.shape {
        Shape::Bare => true,
        Shape::Square(l) => free_of(l, '[', ']') && !(l.len() > 0 && (l[0] == '(' || l[0] == '/'
            || l[0] == '\\')),
        Shape::Round(l) => free_of(l, '(', ')') && !(l.len() > 0 && l[0] == '['),
        Shape::DoubleRound(l) => free_of(l, '(', ')'),
        Shape::Curly(l) => free_of(l, '{', '}'),
    }
}

/// What a node that is so written says: its id, its label, and its shape.
pub open spec fn said(n: Written) -> MentionView {
    match n.shape {
        Shape::Bare => MentionView { id: n.id, label: None, kind: NodeKind::Default },
        Shape::Square(l) => MentionView { id: n.id, label: Some(l), kind: NodeKind::Rectangle },
        Shape::Round(l) => MentionView {
            id: n.id,
            label: Some(l),
            kind: NodeKind::RoundedRectangle,
        },
        Shape::DoubleRound(l) => MentionView { id: n.id, label: Some(l), kind: NodeKind::Circle },
        Shape::Curly(l) => MentionView { id: n.id, label: Some(l), kind: NodeKind::Diamond },
    }
}

/// Whether `tail` is nothing, or a space and then `r`, which begins an operator.
spec fn trails(tail: Seq<char>, r: Seq<char>) -> bool {
    ||| tail.len() == 0 && r.len() == 0
    ||| tail == seq![' '] + r && r.len() > 0 && (r[0] == '-' || r[0] == '=' || r[0] == '<')
}

pub proof fn lemma_trimmed(s: Seq<char>)
    requires
        s.len() > 0 ==> !white_space(s[0]),
    ensures
        trim_start(s) == s,
{
    assert(past_white(s, 0) == 0);
    assert(s.skip(0) =~= s);
}

pub proof fn lemma_trim_space(r: Seq<char>)
    requires
        r.len() > 0,
        !white_space(r[0]),
    ensures
        trim_start(seq![' '] + r) == r,
{
    let s = seq![' '] + r;
    reveal_with_fuel(past_white, 3);
    assert(white_space(s[0]));
    assert(s[1] == r[0]);
    assert(past_white(s, 0) == 1);
    assert(s.skip(1) =~= r);
}

proof fn lemma_trails(tail: Seq<char>, r: Seq<char>)
    requires
        trails(tail, r),
    ensures
        trim_start(tail) == r,
        trim_start(r) == r,
{
    lemma_trimmed(r);
    if tail.len() == 0 {
        lemma_trimmed(tail);
        assert(tail =~= r);
    } else {
        lemma_trim_space(r);
    }
}

/// A text does not begin with `p` where a character differs.
pub proof fn lemma_no_prefix(t: Seq<char>, p: Seq<char>, j: int)
    requires
        0 <= j < p.len(),
        j < t.len() ==> t[j] != p[j],
    ensures
        !has_prefix(t, p),
{
    if has_prefix(t, p) {
        assert(t.subrange(0, p.len() as int)[j] == t[j]);
    }
}

pub proof fn lemma_prefix(p: Seq<char>, rest: Seq<char>)
    ensures
        has_prefix(p + rest, p),
        (p + rest).skip(p.len() as int) == rest,
{
    assert((p + rest).subrange(0, p.len() as int) =~= p);
    assert((p + rest).skip(p.len() as int) =~= rest);
}

/// The id in front of a text is read as the id.
pub proof fn lemma_reads_id(id: Seq<char>, rest: Seq<char>)
    requires
        is_id(id),
        rest.len() > 0 ==> !ident_char(rest[0]),
    ensures
        ident(id + rest) == Some((id, rest)),
{
    let t = id + rest;
    assert(t[0] == id[0]);
    lemma_trimmed(t);
    lemma_past_ident(t, 0);
    let n = past_ident(t, 0);
    if n < id.len() {
        assert(t[n] == id[n]);
    }
    if n > id.len() {
        assert(ident_char(t[id.len() as int]));
        assert(t[id.len() as int] == rest[0]);
    }
    assert(n == id.len());
    assert(t.take(n) =~= id);
    assert(t.skip(n) =~= rest);
}

/// Characters that are no brackets lead nowhere.
proof fn lemma_close_plain(s: Seq<char>, open: char, close: char, i: int, j: int, depth: int)
    requires
        0 <= i <= j <= s.len(),
        forall|k: int| i <= k < j ==> s[k] != open && s[k] != close,
    ensures
        close_from(s, open, close, i, depth) == close_from(s, open, close, j, depth),
    decreases j - i,
{
    if i < j {
        lemma_close_plain(s, open, close, i + 1, j, depth);
    }
}

/// A label in brackets is read as the label.
proof fn lemma_reads_bracket(l: Seq<char>, open: char, close: char, rest: Seq<char>)
    requires
        open != close,
        !white_space(open),
        free_of(l, open, close),
    ensures
        bracket(seq![open] + l + seq![close] + rest, open, close) == Some((l, rest)),
{
    let t = seq![open] + l + seq![close] + rest;
    let n = l.len() as int;
    lemma_trimmed(t);
    assert forall|k: int| 1 <= k < n + 1 implies t[k] != open && t[k] != close by {
        assert(t[k] == l[k - 1]);
    }
    lemma_close_plain(t, open, close, 1, n + 1, 1);
    assert(t[n + 1] == close);
    assert(t.subrange(1, n + 1) =~= l);
    assert(t.skip(n + 2) =~= rest);
}

/// A label in double round brackets is read as the label.
proof fn lemma_reads_circle(l: Seq<char>, rest: Seq<char>)
    requires
        free_of(l, '(', ')'),
    ensures
        circle(seq!['(', '('] + l + seq![')', ')'] + rest) == Some((l, rest)),
{
    let t = seq!['(', '('] + l + seq![')', ')'] + rest;
    let n = l.len() as int;
    lemma_trimmed(t);
    assert(t[1] == '(');
    assert(close_from(t, '(', ')', 1, 1) == close_from(t, '(', ')', 2, 2));
    assert forall|k: int| 2 <= k < n + 2 implies t[k] != '(' && t[k] != ')' by {
        assert(t[k] == l[k - 2]);
    }
    lemma_close_plain(t, '(', ')', 2, n + 2, 2);
    assert(t[n + 2] == ')');
    assert(t[n + 3] == ')');
    assert(close_from(t, '(', ')', n + 2, 2) == close_from(t, '(', ')', n + 3, 1));
    let content = t.subrange(1, n + 3);
    assert(bracket(t, '(', ')') == Some((content, t.skip(n + 4))));
    assert(t.skip(n + 4) =~= rest);
    assert(content.subrange(1, content.len() - 1) =~= l);
    assert(content.skip(1)[n] == ')');
}

/// A node is read as what it says, and what follows it is left.
proof fn lemma_reads_node(n: Written, tail: Seq<char>, r: Seq<char>)
    requires
        writable(n),
        trails(tail, r),
    ensures
        node_ref(node_text(n) + tail) matches Some(x) && mention(x) == said(n) && trim_start(x.rest)
            == r,
        bad_shape(node_text(n) + tail) is None,
{
    let s = node_text(n) + tail;
    let after = brackets(n.shape) + tail;
    assert(s =~= n.id + after);
    lemma_reads_id(n.id, after);
    lemma_trails(tail, r);
    let rest = trim_start(after);
    if n.shape is Bare {
        assert(after =~= tail);
    } else {
        lemma_trimmed(after);
    }
    reveal_strlit("(((");
    reveal_strlit("{{");
    reveal_strlit("@{");
    reveal_strlit("([");
    reveal_strlit("((");
    reveal_strlit("[[");
    reveal_strlit("[(");
    reveal_strlit("[/");
    reveal_strlit("[\\");
    match n.shape {
        Shape::Bare => {
            lemma_no_prefix(rest, "((("@, 0);
            lemma_no_prefix(rest, "{{"@, 0);
            lemma_no_prefix(rest, "@{"@, 0);
            lemma_no_prefix(rest, "(["@, 0);
            lemma_no_prefix(rest, "(("@, 0);
            lemma_no_prefix(rest, "[["@, 0);
            lemma_no_prefix(rest, "[("@, 0);
            lemma_no_prefix(rest, "[/"@, 0);
            lemma_no_prefix(rest, "[\\"@, 0);
        },
        Shape::Square(l) => {
            assert(after =~= seq!['['] + l + seq![']'] + tail);
            lemma_reads_bracket(l, '[', ']', tail);
            lemma_no_prefix(rest, "((("@, 0);
            lemma_no_prefix(rest, "{{"@, 0);
            lemma_no_prefix(rest, "@{"@, 0);
            lemma_no_prefix(rest, "(["@, 0);
            assert(rest[1] == (if l.len() > 0 {
                l[0]
            } else {
                ']'
            }));
            lemma_no_prefix(rest, "[["@, 1);
            lemma_no_prefix(rest, "[("@, 1);
            lemma_no_prefix(rest, "[/"@, 1);
            lemma_no_prefix(rest, "[\\"@, 1);
        },
        Shape::Round(l) => {
            assert(after =~= seq!['('] + l + seq![')'] + tail);
            lemma_reads_bracket(l, '(', ')', tail);
            assert(rest[1] == (if l.len() > 0 {
                l[0]
            } else {
                ')'
            }));
            lemma_no_prefix(rest, "((("@, 1);
            lemma_no_prefix(rest, "(("@, 1);
            lemma_no_prefix(rest, "(["@, 1);
            lemma_no_prefix(rest, "{{"@, 0);
            lemma_no_prefix(rest, "@{"@, 0);
            lemma_no_prefix(rest, "[["@, 0);
            lemma_no_prefix(rest, "[("@, 0);
            lemma_no_prefix(rest, "[/"@, 0);
            lemma_no_prefix(rest, "[\\"@, 0);
        },
        Shape::DoubleRound(l) => {
            assert(after =~= seq!['(', '('] + l + seq![')', ')'] + tail);
            lemma_reads_circle(l, tail);
            assert(rest[1] == '(');
            assert(rest[2] == (if l.len() > 0 {
                l[0]
            } else {
                ')'
            }));
            assert(rest.subrange(0, 2) =~= "(("@);
            lemma_no_prefix(rest, "((("@, 2);
            lemma_no_prefix(rest, "(["@, 1);
            lemma_no_prefix(rest, "{{"@, 0);
            lemma_no_prefix(rest, "@{"@, 0);
            lemma_no_prefix(rest, "[["@, 0);
            lemma_no_prefix(rest, "[("@, 0);
            lemma_no_prefix(rest, "[/"@, 0);
            lemma_no_prefix(rest, "[\\"@, 0);
        },
        Shape::Curly(l) => {
            assert(after =~= seq!['{'] + l + seq!['}'] + tail);
            lemma_reads_bracket(l, '{', '}', tail);
            assert(rest[1] == (if l.len() > 0 {
                l[0]
            } else {
                '}'
            }));
            lemma_no_prefix(rest, "{{"@, 1);
            lemma_no_prefix(rest, "((("@, 0);
            lemma_no_prefix(rest, "(["@, 0);
            lemma_no_prefix(rest, "(("@, 0);
            lemma_no_prefix(rest, "@{"@, 0);
            lemma_no_prefix(rest, "[["@, 0);
            lemma_no_prefix(rest, "[("@, 0);
            lemma_no_prefix(rest, "[/"@, 0);
            lemma_no_prefix(rest, "[\\"@, 0);
        },
    }
}

// ---------------------------------------------------------------------------
// Links
// ---------------------------------------------------------------------------

/// An edge operator.
pub enum Op {
    /// `-->`
    Arrow,
    /// `---`
    Line,
    /// `-.->`
    DottedArrow,
    /// `-.-`
    Dotted,
    /// `==>`
    ThickArrow,
    /// `===`
    Thick,
    /// `<-->`
    Both,
}

/// An operator as text.
pub open spec fn op_text(o: Op) -> Seq<char> {
    match o {
        Op::Arrow => "-->"@,
        Op::Line => "---"@,
        Op::DottedArrow => "-.->"@,
        Op::Dotted => "-.-"@,
        Op::ThickArrow => "==>"@,
        Op::Thick => "==="@,
        Op::Both => "<-->"@,
    }
}

/// Whether an edge looks as its operator says: a head at the target where the operator
/// ends in `>`, a head at the source where it begins with `<`, dotted, and thick.
pub open spec fn looks_like(o: Op, s: Stroke) -> bool {
    &&& s.arrow == (match o {
        Op::Arrow => ArrowType::Triangle,
        Op::DottedArrow => ArrowType::Triangle,
        Op::ThickArrow => ArrowType::Triangle,
        Op::Both => ArrowType::Triangle,
        _ => ArrowType::Plain,
    })
    &&& s.from_arrow == (if o is Both {
        ArrowType::Triangle
    } else {
        ArrowType::Plain
    })
    &&& s.line == (if o is DottedArrow || o is Dotted {
        LineStyle::Dotted
    } else {
        LineStyle::Solid
    })
    &&& s.weight == (if o is ThickArrow || o is Thick {
        LineWeight::Thick
    } else {
        LineWeight::Normal
    })
}

/// The label of an edge, and how it is written.
pub enum Words {
    /// No label.
    Nothing,
    /// `-->|label|`
    Bars(Seq<char>),
    /// `-- label -->`
    Between(Seq<char>),
}

/// An operator with its label and its target.
pub struct Link {
    pub op: Op,
    pub words: Words,
    pub to: Written,
}

/// A link as text.
pub open spec fn link_text(l: Link) -> Seq<char> {
    match l.words {
        Words::Nothing => op_text(l.op) + seq![' '] + node_text(l.to),
        Words::Bars(w) => op_text(l.op) + seq!['|'] + w + seq!['|', ' '] + node_text(l.to),
        Words::Between(w) => "-- "@ + w + seq![' '] + "-->"@ + seq![' '] + node_text(l.to),
    }
}

/// Whether `w` holds no `-->`.
pub open spec fn arrowless(w: Seq<char>) -> bool {
    forall|i: int|
        0 <= i && i + 2 < w.len() ==> !(#[trigger] w[i] == '-' && w[i + 1] == '-' && w[i + 2]
            == '>')
}

/// Whether a link is written as a link can be. A label between bars holds no bar. One
/// inside an arrow is not empty, has no white space at its ends and holds no arrow.
pub open spec fn linkable(l: Link) -> bool {
    writable(l.to) && match l.words {
        Words::Nothing => true,
        Words::Bars(w) => forall|i: int| 0 <= i < w.len() ==> w[i] != '|',
        Words::Between(w) => l.op is Arrow && w.len() > 0 && !white_space(w[0]) && !white_space(
            w[w.len() - 1],
        ) && arrowless(w),
    }
}

/// The label that is read.
pub open spec fn label_of(w: Words) -> Option<Seq<char>> {
    match w {
        Words::Nothing => None,
        Words::Bars(w) => Some(w),
        Words::Between(w) => Some(w),
    }
}

proof fn lemma_reads_op(o: Op, x: Seq<char>)
    requires
        x.len() > 0,
        x[0] == ' ' || x[0] == '|',
    ensures
        operator(op_text(o) + x) matches Some(op) && op.token == op_text(o) && looks_like(
            o,
            op.stroke,
        ),
{
    reveal_strlit("<-->");
    reveal_strlit("-.->");
    reveal_strlit("-.-");
    reveal_strlit("==>");
    reveal_strlit("===");
    reveal_strlit("-->");
    reveal_strlit("---");
    let t = op_text(o) + x;
    lemma_prefix(op_text(o), x);
    match o {
        Op::Both => {},
        Op::DottedArrow => {
            lemma_no_prefix(t, "<-->"@, 0);
        },
        Op::Dotted => {
            lemma_no_prefix(t, "<-->"@, 0);
            assert(t[3] == x[0]);
            lemma_no_prefix(t, "-.->"@, 3);
        },
        Op::ThickArrow => {
            lemma_no_prefix(t, "<-->"@, 0);
            lemma_no_prefix(t, "-.->"@, 0);
            lemma_no_prefix(t, "-.-"@, 0);
        },
        Op::Thick => {
            lemma_no_prefix(t, "<-->"@, 0);
            lemma_no_prefix(t, "-.->"@, 0);
            lemma_no_prefix(t, "-.-"@, 0);
            lemma_no_prefix(t, "==>"@, 2);
        },
        Op::Arrow => {
            lemma_no_prefix(t, "<-->"@, 0);
            lemma_no_prefix(t, "-.->"@, 1);
            lemma_no_prefix(t, "-.-"@, 1);
            lemma_no_prefix(t, "==>"@, 0);
            lemma_no_prefix(t, "==="@, 0);
        },
        Op::Line => {
            lemma_no_prefix(t, "<-->"@, 0);
            lemma_no_prefix(t, "-.->"@, 1);
            lemma_no_prefix(t, "-.-"@, 1);
            lemma_no_prefix(t, "==>"@, 0);
            lemma_no_prefix(t, "==="@, 0);
            lemma_no_prefix(t, "-->"@, 2);
        },
    }
}

proof fn lemma_op_starts(o: Op)
    ensures
        op_text(o).len() >= 3,
        op_text(o)[0] == '-' || op_text(o)[0] == '=' || op_text(o)[0] == '<',
{
    reveal_strlit("<-->");
    reveal_strlit("-.->");
    reveal_strlit("-.-");
    reveal_strlit("==>");
    reveal_strlit("===");
    reveal_strlit("-->");
    reveal_strlit("---");
}

/// A node behind an operator is read as its target.
proof fn lemma_reads_target(
    segment: Seq<char>,
    token: Seq<char>,
    stroke: Stroke,
    n: Written,
    tail: Seq<char>,
    r: Seq<char>,
)
    requires
        writable(n),
        trails(tail, r),
    ensures
        edge_target(segment, seq![' '] + (node_text(n) + tail), token, stroke) matches Some(Ok(s))
            && mention(s.to) == said(n) && s.to.rest == r && s.edge_label is None && s.stroke
            == stroke,
{
    let node = node_text(n) + tail;
    assert(node[0] == n.id[0]);
    assert(ident_char(node[0]));
    lemma_trim_space(node);
    lemma_reads_node(n, tail, r);
}

/// A label between bars and a node behind an operator are read as its label and its
/// target.
proof fn lemma_reads_barred(
    segment: Seq<char>,
    token: Seq<char>,
    stroke: Stroke,
    w: Seq<char>,
    n: Written,
    tail: Seq<char>,
    r: Seq<char>,
)
    requires
        writable(n),
        trails(tail, r),
        forall|i: int| 0 <= i < w.len() ==> w[i] != '|',
    ensures
        edge_target(
            segment,
            seq!['|'] + w + seq!['|', ' '] + (node_text(n) + tail),
            token,
            stroke,
        ) matches Some(Ok(s)) && mention(s.to) == said(n) && s.to.rest == r && s.edge_label == Some(
            w,
        ) && s.stroke == stroke,
{
    let node = node_text(n) + tail;
    let o = seq!['|'] + w + seq!['|', ' '] + node;
    lemma_trimmed(o);
    let inner = o.skip(1);
    lemma_char_from(inner, '|', 0);
    let k = w.len() as int;
    assert(inner[k] == '|');
    assert forall|j: int| 0 <= j < k implies inner[j] != '|' by {
        assert(inner[j] == w[j]);
    }
    assert(char_index(inner, '|') == Some(k));
    assert(inner.take(k) =~= w);
    assert(inner.skip(k + 1) =~= seq![' '] + node);
    assert(node[0] == n.id[0]);
    assert(ident_char(node[0]));
    lemma_trim_space(node);
    lemma_reads_node(n, tail, r);
}

/// A label inside an arrow ends at the arrow.
proof fn lemma_arrow_found(w: Seq<char>, rest: Seq<char>)
    requires
        arrowless(w),
    ensures
        text_index(w + seq![' '] + "-->"@ + rest, "-->"@) == Some((w.len() + 1) as int),
{
    reveal_strlit("-->");
    let p = "-->"@;
    let r = w + seq![' '] + p + rest;
    let n = (w.len() + 1) as int;
    assert(r.subrange(n, n + 3) =~= p);
    assert forall|i: int| 0 <= i < n implies !occurs_at(r, p, i) by {
        if occurs_at(r, p, i) {
            let x = r.subrange(i, i + 3);
            assert(x[0] == '-' && x[1] == '-' && x[2] == '>');
            assert(r[i] == '-' && r[i + 1] == '-' && r[i + 2] == '>');
            assert(r[n - 1] == ' ');
            assert(r[n] == '-' && r[n + 1] == '-');
            if i + 2 < w.len() {
                assert(w[i] == r[i] && w[i + 1] == r[i + 1] && w[i + 2] == r[i + 2]);
            }
        }
    }
    lemma_found_at(r, p, 0, n);
}

/// The first place at which `p` stands.
pub proof fn lemma_found_at(s: Seq<char>, p: Seq<char>, i: int, n: int)
    requires
        0 <= i <= n < s.len(),
        occurs_at(s, p, n),
        forall|k: int| i <= k < n ==> !occurs_at(s, p, k),
    ensures
        text_from(s, p, i) == Some(n),
    decreases n - i,
{
    if i < n {
        lemma_found_at(s, p, i + 1, n);
    }
}

pub proof fn lemma_trim_word(w: Seq<char>)
    requires
        w.len() > 0,
        !white_space(w[0]),
        !white_space(w[w.len() - 1]),
    ensures
        trim(w + seq![' ']) == w,
{
    let s = w + seq![' '];
    lemma_trimmed(s);
    let n = w.len() as int;
    assert(white_space(s[n]));
    assert(s[n - 1] == w[n - 1]);
    assert(before_white(s, n) == n);
    assert(before_white(s, n + 1) == n);
    assert(s.take(n) =~= w);
}

/// A link is read as one segment: its target, its label in full, and its looks.
proof fn lemma_reads_link(l: Link, tail: Seq<char>, r: Seq<char>)
    requires
        linkable(l),
        trails(tail, r),
    ensures
        edge_segment(link_text(l) + tail) matches Some(Ok(s)) && mention(s.to) == said(l.to)
            && s.to.rest == r && s.edge_label == label_of(l.words) && looks_like(l.op, s.stroke),
        edge_ahead(link_text(l) + tail),
        trails(seq![' '] + (link_text(l) + tail), link_text(l) + tail),
{
    let t = link_text(l) + tail;
    let node = node_text(l.to) + tail;
    lemma_op_starts(l.op);
    reveal_strlit("-- ");
    assert(t[0] == '-' || t[0] == '=' || t[0] == '<');
    lemma_trimmed(t);
    match l.words {
        Words::Nothing => {
            let x = seq![' '] + node;
            assert(t =~= op_text(l.op) + x);
            lemma_reads_op(l.op, x);
            lemma_prefix(op_text(l.op), x);
            lemma_reads_target(t, op_text(l.op), operator(t)->0.stroke, l.to, tail, r);
        },
        Words::Bars(w) => {
            let x = seq!['|'] + w + seq!['|', ' '] + node;
            assert(t =~= op_text(l.op) + x);
            assert(x[0] == '|');
            lemma_reads_op(l.op, x);
            lemma_prefix(op_text(l.op), x);
            lemma_reads_barred(t, op_text(l.op), operator(t)->0.stroke, w, l.to, tail, r);
        },
        Words::Between(w) => {
            reveal_strlit("-->");
            let x = w + seq![' '] + "-->"@ + (seq![' '] + node);
            assert(t =~= "-- "@ + x);
            lemma_no_operator(x);
            lemma_arrow_found(w, seq![' '] + node);
            let k = (w.len() + 1) as int;
            assert(x.take(k) =~= w + seq![' ']);
            assert(x.skip(k + 3) =~= seq![' '] + node);
            lemma_trim_word(w);
            lemma_reads_target(t, "-->"@, arrow_stroke(), l.to, tail, r);
        },
    }
}

// ---------------------------------------------------------------------------
// Lines
// ---------------------------------------------------------------------------

/// The links from `i` on as text, each behind a space.
pub open spec fn links_text(links: Seq<Link>, i: int) -> Seq<char>
    decreases links.len() - i,
{
    if 0 <= i < links.len() {
        seq![' '] + (link_text(links[i]) + links_text(links, i + 1))
    } else {
        Seq::empty()
    }
}

/// The source of the link at `i`.
pub open spec fn source_of(first: Written, links: Seq<Link>, i: int) -> Written {
    if i == 0 {
        first
    } else {
        links[i - 1].to
    }
}

/// Whether an edge is what a link says, from the node before it.
pub open spec fn edge_as_written(e: FlowchartEdgeView, from: Written, l: Link) -> bool {
    &&& e.from == said(from)
    &&& e.to == said(l.to)
    &&& e.edge_label == label_of(l.words)
    &&& looks_like(l.op, e.stroke)
}

proof fn lemma_links_trail(links: Seq<Link>, i: int)
    requires
        0 <= i <= links.len(),
        forall|j: int| 0 <= j < links.len() ==> linkable(#[trigger] links[j]),
    ensures
        i < links.len() ==> trails(
            links_text(links, i),
            link_text(links[i]) + links_text(links, i + 1),
        ),
        i == links.len() ==> trails(links_text(links, i), Seq::empty()),
{
    if i < links.len() {
        lemma_op_starts(links[i].op);
        reveal_strlit("-- ");
    }
}

proof fn lemma_reads_links(
    line: Seq<char>,
    offset: int,
    first: Written,
    links: Seq<Link>,
    i: int,
    acc: Seq<FlowchartEdgeView>,
)
    requires
        0 <= i < links.len(),
        acc.len() == i,
        forall|j: int| 0 <= j < links.len() ==> linkable(#[trigger] links[j]),
        forall|j: int|
            0 <= j < i ==> edge_as_written(#[trigger] acc[j], source_of(first, links, j), links[j]),
    ensures
        ({
            let cur = link_text(links[i]) + links_text(links, i + 1);
            chain_from(line, offset, cur, said(source_of(first, links, i)), acc) matches Some(
                Ok(edges),
            ) && edges.len() == links.len() && forall|j: int|
                0 <= j < links.len() ==> edge_as_written(
                    #[trigger] edges[j],
                    source_of(first, links, j),
                    links[j],
                )
        }),
    decreases links.len() - i,
{
    let l = links[i];
    let tail = links_text(links, i + 1);
    let cur = link_text(l) + tail;
    let from = said(source_of(first, links, i));
    let r = if i + 1 < links.len() {
        link_text(links[i + 1]) + links_text(links, i + 2)
    } else {
        Seq::empty()
    };
    lemma_links_trail(links, i + 1);
    lemma_reads_link(l, tail, r);
    let seg = edge_segment(cur)->0->Ok_0;
    let e = FlowchartEdgeView {
        from,
        to: mention(seg.to),
        edge_label: seg.edge_label,
        stroke: seg.stroke,
    };
    let edges = acc.push(e);
    lemma_trails(tail, r);
    assert forall|j: int| 0 <= j < i + 1 implies edge_as_written(
        #[trigger] edges[j],
        source_of(first, links, j),
        links[j],
    ) by {
        if j < i {
            assert(edges[j] == acc[j]);
        }
    }
    if i + 1 < links.len() {
        lemma_links_trail(links, i + 2);
        let r2 = if i + 2 < links.len() {
            link_text(links[i + 2]) + links_text(links, i + 3)
        } else {
            Seq::empty()
        };
        lemma_reads_link(links[i + 1], links_text(links, i + 2), r2);
        lemma_reads_links(line, offset, first, links, i + 1, edges);
    }
}

/// A line that is written as a node and links is read as one edge for each link, in
/// their order: from the node before it to its target, with its label in full, and as
/// its operator looks. The nodes are read with their labels and shapes.
pub proof fn law_written_edges_are_read(first: Written, links: Seq<Link>, offset: int)
    requires
        writable(first),
        links.len() > 0,
        forall|i: int| 0 <= i < links.len() ==> linkable(#[trigger] links[i]),
    ensures
        edge_chain(node_text(first) + links_text(links, 0), offset) matches Some(Ok(edges))
            && edges.len() == links.len() && forall|i: int|
            0 <= i < links.len() ==> edge_as_written(
                #[trigger] edges[i],
                source_of(first, links, i),
                links[i],
            ),
{
    let line = node_text(first) + links_text(links, 0);
    let cur = link_text(links[0]) + links_text(links, 1);
    lemma_links_trail(links, 0);
    lemma_links_trail(links, 1);
    lemma_reads_node(first, links_text(links, 0), cur);
    let r = if 1 < links.len() {
        link_text(links[1]) + links_text(links, 2)
    } else {
        Seq::empty()
    };
    lemma_reads_link(links[0], links_text(links, 1), r);
    lemma_reads_links(line, offset, first, links, 0, Seq::empty());
}

/// `a -- l --> b` is read as one edge from `a` to `b` with the label `l`, however many
/// words that has.
pub proof fn law_label_inside_an_arrow_is_read_in_full(
    a: Seq<char>,
    l: Seq<char>,
    b: Seq<char>,
    offset: int,
)
    requires
        is_id(a),
        is_id(b),
        l.len() > 0,
        !white_space(l[0]),
        !white_space(l[l.len() - 1]),
        arrowless(l),
    ensures
        edge_chain(a + " -- "@ + l + " --> "@ + b, offset) matches Some(Ok(edges)) && edges.len()
            == 1 && edges[0].from.id == a && edges[0].to.id == b && edges[0].edge_label == Some(l)
            && edges[0].stroke.arrow == ArrowType::Triangle,
{
    let first = Written { id: a, shape: Shape::Bare };
    let to = Written { id: b, shape: Shape::Bare };
    let links = seq![Link { op: Op::Arrow, words: Words::Between(l), to }];
    law_written_edges_are_read(first, links, offset);
    reveal_strlit(" -- ");
    reveal_strlit("-- ");
    reveal_strlit(" --> ");
    reveal_strlit("-->");
    assert(links_text(links, 1) =~= Seq::empty());
    assert(node_text(first) + links_text(links, 0) =~= a + " -- "@ + l + " --> "@ + b);
    let edges = edge_chain(a + " -- "@ + l + " --> "@ + b, offset)->0->Ok_0;
    assert(edge_as_written(edges[0], source_of(first, links, 0), links[0]));
}

/// Whether `w` holds no `---`.
pub open spec fn lineless(w: Seq<char>) -> bool {
    forall|i: int|
        0 <= i && i + 2 < w.len() ==> !(#[trigger] w[i] == '-' && w[i + 1] == '-' && w[i + 2]
            == '-')
}

/// A label inside a line ends at the line, and no arrow follows.
proof fn lemma_line_found(l: Seq<char>, b: Seq<char>)
    requires
        arrowless(l),
        lineless(l),
        is_id(b),
    ensures
        ({
            let x = l + seq![' '] + "---"@ + (seq![' '] + b);
            &&& text_index(x, "-->"@) is None
            &&& text_index(x, "---"@) == Some((l.len() + 1) as int)
        }),
{
    reveal_strlit("-->");
    reveal_strlit("---");
    let x = l + seq![' '] + "---"@ + (seq![' '] + b);
    let n = (l.len() + 1) as int;
    assert(x[n - 1] == ' ' && x[n] == '-' && x[n + 1] == '-' && x[n + 2] == '-' && x[n + 3]
        == ' ');
    lemma_text_from(x, "-->"@, 0);
    if let Some(k) = text_index(x, "-->"@) {
        let y = x.subrange(k, k + 3);
        assert(y[0] == '-' && y[1] == '-' && y[2] == '>');
        assert(x[k] == '-' && x[k + 1] == '-' && x[k + 2] == '>');
        if k + 2 < l.len() {
            assert(l[k] == x[k] && l[k + 1] == x[k + 1] && l[k + 2] == x[k + 2]);
        } else if k > n + 3 {
            assert(x[k] == b[k - n - 4]);
        }
        assert(false);
    }
    assert(x.subrange(n, n + 3) =~= "---"@);
    assert forall|i: int| 0 <= i < n implies !occurs_at(x, "---"@, i) by {
        if occurs_at(x, "---"@, i) {
            let y = x.subrange(i, i + 3);
            assert(y[0] == '-' && y[1] == '-' && y[2] == '-');
            assert(x[i] == '-' && x[i + 1] == '-' && x[i + 2] == '-');
            if i + 2 < l.len() {
                assert(l[i] == x[i] && l[i + 1] == x[i + 1] && l[i + 2] == x[i + 2]);
            }
        }
    }
    lemma_found_at(x, "---"@, 0, n);
}

/// Two dashes and a space are no operator.
proof fn lemma_no_operator(x: Seq<char>)
    ensures
        operator("-- "@ + x) is None,
        after_prefix("-- "@ + x, "-- "@) == Some(x),
        trim_start("-- "@ + x) == "-- "@ + x,
        !begins("-- "@ + x, '&'),
        trails(seq![' '] + ("-- "@ + x), "-- "@ + x),
{
    reveal_strlit("-- ");
    reveal_strlit("<-->");
    reveal_strlit("-.->");
    reveal_strlit("-.-");
    reveal_strlit("==>");
    reveal_strlit("===");
    reveal_strlit("-->");
    reveal_strlit("---");
    let t = "-- "@ + x;
    lemma_trimmed(t);
    lemma_prefix("-- "@, x);
    assert(t[2] == ' ');
    lemma_no_prefix(t, "<-->"@, 0);
    lemma_no_prefix(t, "-.->"@, 1);
    lemma_no_prefix(t, "-.-"@, 1);
    lemma_no_prefix(t, "==>"@, 0);
    lemma_no_prefix(t, "==="@, 0);
    lemma_no_prefix(t, "-->"@, 2);
    lemma_no_prefix(t, "---"@, 2);
}

/// `a -- l --- b` is read as one edge without a head from `a` to `b` with the label
/// `l`, however many words that has.
pub proof fn law_label_inside_a_line_is_read_in_full(
    a: Seq<char>,
    l: Seq<char>,
    b: Seq<char>,
    offset: int,
)
    requires
        is_id(a),
        is_id(b),
        l.len() > 0,
        !white_space(l[0]),
        !white_space(l[l.len() - 1]),
        arrowless(l),
        lineless(l),
    ensures
        edge_chain(a + " -- "@ + l + " --- "@ + b, offset) matches Some(Ok(edges)) && edges.len()
            == 1 && edges[0].from.id == a && edges[0].to.id == b && edges[0].edge_label == Some(l)
            && edges[0].stroke.arrow == ArrowType::Plain,
{
    let first = Written { id: a, shape: Shape::Bare };
    let to = Written { id: b, shape: Shape::Bare };
    let x = l + seq![' '] + "---"@ + (seq![' '] + b);
    let t = "-- "@ + x;
    let line = a + " -- "@ + l + " --- "@ + b;
    assert(line == node_text(first) + (seq![' '] + t)) by {
        reveal_strlit(" -- ");
        reveal_strlit("-- ");
        reveal_strlit(" --- ");
        reveal_strlit("---");
        assert(line =~= node_text(first) + (seq![' '] + t));
    }
    lemma_no_operator(x);
    lemma_reads_node(first, seq![' '] + t, t);
    lemma_line_found(l, b);
    let n = (l.len() + 1) as int;
    assert("---"@.len() == 3) by {
        reveal_strlit("---");
    }
    assert(x.take(n) =~= l + seq![' ']);
    assert(node_text(to) + Seq::<char>::empty() =~= b);
    assert(x.skip(n + 3) =~= seq![' '] + (node_text(to) + Seq::empty()));
    lemma_trim_word(l);
    lemma_reads_target(t, "---"@, line_stroke(), to, Seq::empty(), Seq::empty());
    lemma_trimmed(Seq::empty());
    assert(edge_segment(t) is Some);
    let seg = edge_segment(t)->0->Ok_0;
    assert(seg.edge_label == Some(l));
    assert(trim_start(seg.to.rest).len() == 0);
}

// ---------------------------------------------------------------------------
// Diagrams
// ---------------------------------------------------------------------------

/// Whether no keyword begins as `id` does.
pub open spec fn unlike_keywords(id: Seq<char>) -> bool {
    id.len() > 0 && id[0] != 's' && id[0] != 'S' && id[0] != 'd' && id[0] != 'D' && id[0] != 'c'
        && id[0] != 'l'
}

proof fn lemma_no_keyword(t: Seq<char>, k: Seq<char>)
    requires
        t.len() > 0,
        k.len() > 0,
        upper_char(t[0]) != upper_char(k[0]),
    ensures
        after_keyword(t, k) is None,
{
    if after_keyword(t, k) is Some {
        assert(upper(t.take(k.len() as int))[0] == upper_char(t[0]));
        assert(upper(k)[0] == upper_char(k[0]));
    }
}

proof fn lemma_plain_line(t: Seq<char>)
    requires
        unlike_keywords(t),
        'a' <= t[0] <= 'z' || 'A' <= t[0] <= 'Z' || '0' <= t[0] <= '9' || t[0] == '_',
    ensures
        after_keyword(t, "subgraph"@) is None,
        !sets_direction(t),
        !is_styling(t),
{
    reveal_strlit("subgraph");
    reveal_strlit("direction");
    reveal_strlit("classDef");
    reveal_strlit("class ");
    reveal_strlit("style ");
    reveal_strlit("linkStyle");
    reveal_strlit("click ");
    assert(upper_char('s') == 'S');
    assert(upper_char('d') == 'D');
    lemma_no_keyword(t, "subgraph"@);
    lemma_no_keyword(t, "direction"@);
    lemma_no_prefix(t, "classDef"@, 0);
    lemma_no_prefix(t, "class "@, 0);
    lemma_no_prefix(t, "style "@, 0);
    lemma_no_prefix(t, "linkStyle"@, 0);
    lemma_no_prefix(t, "click "@, 0);
}

/// Whether an edge of a flowchart is what a link says, from the node before it.
pub open spec fn raw_as_written(e: RawEdgeView, from: Written, l: Link) -> bool {
    &&& e.from == from.id
    &&& e.to == l.to.id
    &&& e.label == label_of(l.words)
    &&& looks_like(l.op, e.stroke)
}

proof fn lemma_edges_appended(
    st: FlowView,
    edges: Seq<FlowchartEdgeView>,
    n: int,
    l: LineView,
    i: int,
)
    requires
        0 <= n <= edges.len(),
    ensures
        ({
            let after = add_edges(st, edges, n, l);
            &&& after.edges.len() == st.edges.len() + n
            &&& after.errors == st.errors
            &&& 0 <= i < st.edges.len() ==> after.edges[i] == st.edges[i]
            &&& 0 <= i < n ==> {
                let e = after.edges[st.edges.len() + i];
                &&& e.from == edges[i].from.id
                &&& e.to == edges[i].to.id
                &&& e.label == edges[i].edge_label
                &&& e.stroke == edges[i].stroke
            }
        }),
    decreases n,
{
    if n > 0 {
        lemma_edges_appended(st, edges, n - 1, l, i);
    }
}

/// A line of a flowchart that is written as a node and links adds one edge for each
/// link, behind the edges that are there and in their order, each with its ends, its
/// label in full and its looks. It is no error.
pub proof fn law_written_line_adds_its_edges(
    st: FlowView,
    l: LineView,
    first: Written,
    links: Seq<Link>,
    i: int,
)
    requires
        writable(first),
        unlike_keywords(first.id),
        links.len() > 0,
        forall|j: int| 0 <= j < links.len() ==> linkable(#[trigger] links[j]),
        trim(l.text) == node_text(first) + links_text(links, 0),
        forall|j: int| 0 <= j < trim(l.text).len() ==> trim(l.text)[j] != ';',
    ensures
        ({
            let after = flow_line(st, l);
            &&& after.errors == st.errors
            &&& after.edges.len() == st.edges.len() + links.len()
            &&& 0 <= i < st.edges.len() ==> after.edges[i] == st.edges[i]
            &&& 0 <= i < links.len() ==> raw_as_written(
                after.edges[st.edges.len() + i],
                source_of(first, links, i),
                links[i],
            )
        }),
{
    let t = trim(l.text);
    let at = l.start + indent(l.text);
    assert(t[0] == first.id[0]);
    lemma_plain_line(t);
    lemma_char_from(t, ';', 0);
    law_written_edges_are_read(first, links, at);
    let edges = edge_chain(t, at)->0->Ok_0;
    lemma_edges_appended(st, edges, edges.len() as int, l, i);
    if 0 <= i < links.len() {
        assert(edge_as_written(edges[i], source_of(first, links, i), links[i]));
    }
    assert(t != "end"@) by {
        reveal_strlit("end");
        if t == "end"@ {
            if t.len() == 3 {
                lemma_op_starts(links[0].op);
                reveal_strlit("-- ");
                assert(links_text(links, 0).len() >= 4);
            }
        }
    }
}

/// Every edge of a flowchart that does not end where it begins is an edge of the
/// graph, with its ends, its label and its looks.
pub proof fn law_edges_are_kept(edges: Seq<RawEdgeView>, n: int, i: int)
    requires
        0 <= i < n <= edges.len(),
        edges[i].from != edges[i].to,
    ensures
        exists|k: int|
            0 <= k < kept_edges(edges, n).len() && #[trigger] kept_edges(edges, n)[k] == (EdgeView {
                from: edges[i].from,
                to: edges[i].to,
                label: edges[i].label,
                arrow: edges[i].stroke.arrow,
                from_arrow: edges[i].stroke.from_arrow,
                line: edges[i].stroke.line,
                weight: edges[i].stroke.weight,
                from_port: None,
                to_port: None,
            }),
    decreases n,
{
    let all = kept_edges(edges, n);
    if i == n - 1 {
        assert(all[all.len() - 1] == edge_of(edges[i]));
    } else {
        law_edges_are_kept(edges, n - 1, i);
        let before = kept_edges(edges, n - 1);
        let k = choose|k: int| 0 <= k < before.len() && #[trigger] before[k] == edge_of(edges[i]);
        assert(all[k] == before[k]);
    }
}

/// A line that is written as a node with brackets declares that node: its id, its
/// label and its shape.
pub proof fn law_written_node_is_read(n: Written)
    requires
        writable(n),
        !has_arrow(node_text(n)),
        n.shape matches Shape::Round(l) ==> l.len() == 0 || l[0] != '(',
    ensures
        node_decl(node_text(n)) matches Some(x) && mention(x) == said(n),
{
    let s = node_text(n);
    let after = brackets(n.shape);
    lemma_reads_id(n.id, after);
    reveal_strlit("((");
    lemma_blank_nothing();
    match n.shape {
        Shape::Bare => {
            assert(trim(after).len() == 0);
        },
        Shape::Square(l) => {
            lemma_trim_same(after);
            assert(after =~= seq!['['] + l + seq![']'] + Seq::empty());
            lemma_reads_bracket(l, '[', ']', Seq::empty());
        },
        Shape::Round(l) => {
            lemma_trim_same(after);
            assert(after =~= seq!['('] + l + seq![')'] + Seq::empty());
            lemma_reads_bracket(l, '(', ')', Seq::empty());
            assert(after[1] == (if l.len() > 0 {
                l[0]
            } else {
                ')'
            }));
            lemma_no_prefix(after, "(("@, 1);
        },
        Shape::DoubleRound(l) => {
            lemma_trim_same(after);
            assert(after =~= seq!['(', '('] + l + seq![')', ')'] + Seq::empty());
            lemma_reads_circle(l, Seq::empty());
            assert(after.subrange(0, 2) =~= "(("@);
        },
        Shape::Curly(l) => {
            lemma_trim_same(after);
            assert(after =~= seq!['{'] + l + seq!['}'] + Seq::empty());
            lemma_reads_bracket(l, '{', '}', Seq::empty());
            lemma_no_prefix(after, "(("@, 0);
        },
    }
}

pub proof fn lemma_blank_nothing()
    ensures
        trim(Seq::<char>::empty()).len() == 0,
        blank(Seq::<char>::empty()),
{
    lemma_trim_len(Seq::<char>::empty());
}

pub proof fn lemma_trim_same(s: Seq<char>)
    requires
        s.len() > 0,
        !white_space(s[0]),
        !white_space(s[s.len() - 1]),
    ensures
        trim(s) == s,
{
    lemma_trimmed(s);
    assert(before_white(s, s.len() as int) == s.len());
    assert(s.take(s.len() as int) =~= s);
}

} // verus!
