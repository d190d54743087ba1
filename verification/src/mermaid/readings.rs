//! Messages, transitions and relations as they are written, and what is read from
//! them.
use crate::ir::{
    has_key, ArrowType, ClassRelationView, DiagramView, Direction, EndMarker, EndpointView,
    ErRelationView, LineStyle, MessageView, ParticipantKind, ParticipantView, SequenceItemView,
    TransitionView,
};
use crate::lines::LineView;
use crate::mermaid::class::{class_relation, connector, connector_from, Connector};
use crate::mermaid::er::{crowfoot, er_relation};
use crate::mermaid::{header_direction, read_flowchart, saying};
use crate::mermaid::laws::{
    is_id, lemma_blank_nothing, lemma_found_at, lemma_no_prefix, lemma_reads_id, lemma_trim_same,
    lemma_trim_space, lemma_trim_word, lemma_trimmed,
};
use crate::mermaid::sequence::{add_message, message_form, seq_message, Form, SeqView};
use crate::mermaid::state::{state_endpoint, state_line, target_and_label, StatesView};
use crate::mermaid::tokens::{id_and_mult_upto, past_token, tokens};
use crate::text::{
    before_white, char_index, has_prefix, lemma_before_white, lemma_char_from, lemma_text_from,
    lemma_trim_len, occurs_at, past_word, text_index, trim, trim_end, upper, white_space, words,
};
use vstd::prelude::*;

verus! {

/// Whether a text has no white space at its ends and is not empty.
pub open spec fn is_label(l: Seq<char>) -> bool {
    l.len() > 0 && !white_space(l[0]) && !white_space(l[l.len() - 1])
}

/// A label as it is written behind what it belongs to.
pub open spec fn label_text(l: Option<Seq<char>>) -> Seq<char> {
    match l {
        Some(l) => seq![':', ' '] + l,
        None => Seq::empty(),
    }
}

/// The id before a colon and the label behind it are read as they are.
proof fn lemma_reads_labelled(b: Seq<char>, l: Option<Seq<char>>)
    requires
        is_id(b),
        l matches Some(l) ==> is_label(l),
    ensures
        target_and_label(b + label_text(l)) == (b, l),
        match l {
            Some(l) => char_index(b + label_text(Some(l)), ':') == Some(b.len() as int) && (b
                + label_text(Some(l))).take(b.len() as int) == b && trim(
                (b + label_text(Some(l))).skip((b.len() + 1) as int),
            ) == l,
            None => char_index(b + label_text(None), ':') is None,
        },
        trim(b) == b,
{
    let after = b + label_text(l);
    lemma_char_from(after, ':', 0);
    lemma_trim_same(b);
    assert forall|j: int| 0 <= j < b.len() implies after[j] != ':' by {
        assert(after[j] == b[j]);
    }
    match l {
        Some(l) => {
            let n = b.len() as int;
            assert(after[n] == ':');
            assert(after.take(n) =~= b);
            assert(after.skip(n + 1) =~= seq![' '] + l);
            lemma_trim_space(l);
            lemma_trimmed(l);
            lemma_trim_same(l);
            assert(trim(seq![' '] + l) == trim_end(l));
        },
        None => {
            assert(after =~= b);
        },
    }
}

// ---------------------------------------------------------------------------
// Sequences
// ---------------------------------------------------------------------------

/// The arrow of a message: dashed or solid, with one head character or two.
pub open spec fn message_arrow(dashed: bool, double: bool) -> Seq<char> {
    if dashed && double {
        "-->>"@
    } else if dashed {
        "-->"@
    } else if double {
        "->>"@
    } else {
        "->"@
    }
}

/// An arrow that stands only behind the sender's arrow is not the message's.
proof fn lemma_later_arrow(a: Seq<char>, rest: Seq<char>, p: Seq<char>)
    requires
        is_id(a),
        rest.len() > 0,
        rest[0] == '-',
        p.len() > 0,
        p[0] == '-',
        !has_prefix(rest, p),
    ensures
        message_form(a + rest, p) is Other,
{
    let t = a + rest;
    lemma_text_from(t, p, 0);
    if let Some(k) = text_index(t, p) {
        let n = a.len() as int;
        assert(t.subrange(k, k + p.len())[0] == t[k]);
        if k < n {
            assert(t[k] == a[k]);
            assert(false);
        }
        if k == n {
            assert(t.subrange(n, n + p.len()) =~= rest.subrange(0, p.len() as int));
            assert(false);
        }
        let before = t.take(k);
        assert(before[0] == a[0]);
        lemma_trimmed(before);
        lemma_before_white(before, k);
        let m = before_white(before, k);
        assert(before[n] == '-');
        if m <= n {
            assert(white_space(before[n]));
        }
        let part = before.take(m);
        let x = part.skip(n);
        assert(part =~= a + x);
        assert(x[0] == '-');
        lemma_reads_id(a, x);
        assert(a.len() != part.len());
    }
}

/// A message at its arrow.
proof fn lemma_arrow_here(
    a: Seq<char>,
    p: Seq<char>,
    b: Seq<char>,
    l: Option<Seq<char>>,
)
    requires
        is_id(a),
        is_id(b),
        p.len() > 0,
        p[0] == '-',
        l matches Some(l) ==> is_label(l),
    ensures
        message_form(a + (p + (b + label_text(l))), p) == (Form::Message { from: a, to: b, label: l }),
{
    let after = b + label_text(l);
    let rest = p + after;
    let t = a + rest;
    let n = a.len() as int;
    assert(t.subrange(n, n + p.len()) =~= p);
    assert forall|k: int| 0 <= k < n implies !occurs_at(t, p, k) by {
        if occurs_at(t, p, k) {
            assert(t.subrange(k, k + p.len())[0] == t[k]);
            assert(t[k] == a[k]);
        }
    }
    lemma_found_at(t, p, 0, n);
    assert(t.take(n) =~= a);
    lemma_trim_same(a);
    assert(a + Seq::<char>::empty() =~= a);
    lemma_reads_id(a, Seq::empty());
    assert(t.skip(n + p.len()) =~= after);
    assert(after[0] == b[0]);
    lemma_trimmed(after);
    lemma_reads_labelled(b, l);
    assert(b + Seq::<char>::empty() =~= b);
    lemma_reads_id(b, Seq::empty());
    lemma_blank_nothing();
    if l is None {
        assert(after =~= b);
    }
}

/// `a->>b: label` is read as a message from `a` to `b` with the label in full, whatever
/// that holds. Two dashes make it dashed, and every arrow has a head.
pub proof fn law_written_message_is_read(
    a: Seq<char>,
    dashed: bool,
    double: bool,
    b: Seq<char>,
    l: Option<Seq<char>>,
)
    requires
        is_id(a),
        is_id(b),
        l matches Some(l) ==> is_label(l),
    ensures
        seq_message(a + (message_arrow(dashed, double) + (b + label_text(l)))) == Some(
            MessageView {
                from: a,
                to: b,
                label: l,
                line: if dashed {
                    LineStyle::Dashed
                } else {
                    LineStyle::Solid
                },
                arrow: ArrowType::Triangle,
            },
        ),
{
    reveal_strlit("-->>");
    reveal_strlit("-->");
    reveal_strlit("->>");
    reveal_strlit("->");
    let p = message_arrow(dashed, double);
    let after = b + label_text(l);
    let rest = p + after;
    assert(after[0] == b[0]);
    lemma_arrow_here(a, p, b, l);
    if dashed && !double {
        assert(rest[3] == b[0]);
        lemma_no_prefix(rest, "-->>"@, 3);
        lemma_later_arrow(a, rest, "-->>"@);
    }
    if !dashed {
        lemma_no_prefix(rest, "-->>"@, 1);
        lemma_no_prefix(rest, "-->"@, 1);
        lemma_later_arrow(a, rest, "-->>"@);
        lemma_later_arrow(a, rest, "-->"@);
        if !double {
            assert(rest[2] == b[0]);
            lemma_no_prefix(rest, "->>"@, 2);
            lemma_later_arrow(a, rest, "->>"@);
        }
    }
}

/// A message adds itself behind the items that are there, and declares its ends, the
/// sender first, where they are not declared yet. It changes no participant that is.
pub proof fn law_message_is_added(st: SeqView, m: MessageView)
    ensures
        ({
            let after = add_message(st, m);
            &&& after.items == st.items.push(SequenceItemView::Message(m))
            &&& after.errors == st.errors
            &&& st.participants.len() <= after.participants.len() <= st.participants.len() + 2
            &&& forall|i: int|
                0 <= i < st.participants.len() ==> after.participants[i] == st.participants[i]
            &&& !has_key(st.participants, m.from) ==> after.participants[st.participants.len() as int]
                == (ParticipantView { id: m.from, label: m.from, kind: ParticipantKind::Default })
        }),
{
}

// ---------------------------------------------------------------------------
// State diagrams
// ---------------------------------------------------------------------------

/// An end of a transition as it is written.
pub open spec fn end_text(e: EndpointView) -> Seq<char> {
    match e {
        EndpointView::State(id) => id,
        _ => "[*]"@,
    }
}

/// Whether `e` can stand at the start of a transition, or at its end.
pub open spec fn fits_end(e: EndpointView, is_source: bool) -> bool {
    match e {
        EndpointView::State(id) => is_id(id),
        EndpointView::Initial => is_source,
        EndpointView::Final => !is_source,
    }
}

proof fn lemma_reads_end(e: EndpointView, is_source: bool)
    requires
        fits_end(e, is_source),
    ensures
        state_endpoint(end_text(e), is_source) == Ok::<EndpointView, Seq<char>>(e),
        trim(end_text(e)) == end_text(e),
        end_text(e).len() > 0,
        !white_space(end_text(e)[0]),
        !white_space(end_text(e)[end_text(e).len() - 1]),
        forall|i: int|
            0 <= i < end_text(e).len() ==> end_text(e)[i] != '-' && end_text(e)[i] != ':'
                && end_text(e)[i] != ' ' && end_text(e)[i] != ';' && end_text(e)[i] != '{'
                && end_text(e)[i] != '<',
{
    reveal_strlit("[*]");
    let s = end_text(e);
    lemma_trim_same(s);
    if let EndpointView::State(id) = e {
        assert(id + Seq::<char>::empty() =~= id);
        lemma_reads_id(id, Seq::empty());
        lemma_blank_nothing();
        assert(id[0] != '[');
    }
}

/// A transition as it is written.
pub open spec fn transition_text(a: EndpointView, b: EndpointView, label: Option<Seq<char>>) -> Seq<
    char,
> {
    end_text(a) + (seq![' ', '-', '-', '>', ' '] + (end_text(b) + (match label {
        Some(x) => seq![' ', ':', ' '] + x,
        None => Seq::empty(),
    })))
}

/// Whether `s` holds nothing that a state diagram reads otherwise.
pub open spec fn is_plain(s: Seq<char>) -> bool {
    forall|i: int| 0 <= i < s.len() ==> s[i] != ';' && s[i] != '{' && s[i] != '<'
}

proof fn lemma_plain_join(a: Seq<char>, b: Seq<char>)
    requires
        is_plain(a),
        is_plain(b),
    ensures
        is_plain(a + b),
{
    assert forall|i: int| 0 <= i < (a + b).len() implies (a + b)[i] != ';' && (a + b)[i] != '{' && (a
        + b)[i] != '<' by {
        if i < a.len() {
            assert((a + b)[i] == a[i]);
        } else {
            assert((a + b)[i] == b[i - a.len()]);
        }
    }
}

/// A plain text is no statement of another kind.
proof fn lemma_plain(t: Seq<char>)
    requires
        is_plain(t),
    ensures
        char_index(t, ';') is None,
        char_index(t, '{') is None,
        text_index(t, "<<"@) is None,
{
    reveal_strlit("<<");
    lemma_char_from(t, ';', 0);
    lemma_char_from(t, '{', 0);
    lemma_text_from(t, "<<"@, 0);
    if let Some(k) = text_index(t, "<<"@) {
        assert(t.subrange(k, k + 2)[0] == t[k]);
        assert(false);
    }
}

/// What stands before an arrow, and what stands behind it.
proof fn lemma_arrow_between(x: Seq<char>, body: Seq<char>)
    requires
        is_label(x),
        is_label(body),
        forall|i: int| 0 <= i < x.len() ==> x[i] != '-',
    ensures
        ({
            let t = x + (seq![' ', '-', '-', '>', ' '] + body);
            let n = x.len() as int;
            &&& text_index(t, "-->"@) == Some(n + 1)
            &&& "-->"@.len() == 3
            &&& trim(t.take(n + 1)) == x
            &&& trim(t.skip(n + 4)) == body
        }),
{
    reveal_strlit("-->");
    let t = x + (seq![' ', '-', '-', '>', ' '] + body);
    let n = x.len() as int;
    assert(t.subrange(n + 1, n + 4) =~= "-->"@);
    assert forall|i: int| 0 <= i < n + 1 implies !occurs_at(t, "-->"@, i) by {
        if occurs_at(t, "-->"@, i) {
            assert(t.subrange(i, i + 3)[0] == t[i]);
            if i < n {
                assert(t[i] == x[i]);
            } else {
                assert(t[i] == ' ');
            }
        }
    }
    lemma_found_at(t, "-->"@, 0, n + 1);
    assert(t.take(n + 1) =~= x + seq![' ']);
    lemma_trim_word(x);
    assert(t.skip(n + 4) =~= seq![' '] + body);
    lemma_trim_space(body);
    lemma_trimmed(body);
    lemma_trim_same(body);
    assert(trim(seq![' '] + body) == trim_end(body));
}

/// `a --> b : label`, where each end is a state or `[*]`, is read as the transition from
/// `a` to `b` with the label in full, behind the transitions that are there. It is no
/// error, unless both ends are `[*]`.
pub proof fn law_written_transition_is_read(
    st: StatesView,
    l: LineView,
    a: EndpointView,
    b: EndpointView,
    label: Option<Seq<char>>,
)
    requires
        fits_end(a, true),
        fits_end(b, false),
        !(a is Initial && b is Final),
        label matches Some(x) ==> is_label(x) && is_plain(x),
        trim(l.text) == transition_text(a, b, label),
    ensures
        state_line(st, l) == (StatesView {
            transitions: st.transitions.push(TransitionView { from: a, to: b, label }),
            ..st
        }),
{
    reveal_strlit("}");
    lemma_reads_end(a, true);
    lemma_reads_end(b, false);
    let t = transition_text(a, b, label);
    let x = end_text(a);
    let y = end_text(b);
    let said = match label {
        Some(s) => seq![' ', ':', ' '] + s,
        None => Seq::empty(),
    };
    let body = y + said;
    let arrow = seq![' ', '-', '-', '>', ' '];
    if let Some(s) = label {
        lemma_plain_join(seq![' ', ':', ' '], s);
        assert(body[body.len() - 1] == s[s.len() - 1]);
    } else {
        assert(body =~= y);
    }
    lemma_plain_join(y, said);
    lemma_plain_join(arrow, body);
    lemma_plain_join(x, arrow + body);
    lemma_plain(t);
    assert(body[0] == y[0]);
    lemma_arrow_between(x, body);
    lemma_part_and_label(y, label);
    assert(t.len() > 1);
}

// ---------------------------------------------------------------------------
// Relations
// ---------------------------------------------------------------------------

/// Whether `s` is a word: not empty, without white space, quotes and colons.
pub open spec fn is_word(s: Seq<char>) -> bool {
    s.len() > 0 && forall|i: int|
        0 <= i < s.len() ==> !white_space(#[trigger] s[i]) && s[i] != '"' && s[i] != ':'
}

proof fn lemma_word_end(w: Seq<char>, rest: Seq<char>, i: int)
    requires
        is_word(w),
        rest.len() > 0 ==> rest[0] == ' ',
        0 <= i <= w.len(),
    ensures
        past_word(w + rest, i) == w.len(),
        past_token(w + rest, i, false) == w.len(),
    decreases w.len() - i,
{
    let t = w + rest;
    if i < w.len() {
        assert(t[i] == w[i]);
        lemma_word_end(w, rest, i + 1);
    } else if rest.len() > 0 {
        assert(t[i] == rest[0]);
    }
}

/// A word in front of a text is the first of its words.
pub proof fn lemma_first_word(w: Seq<char>, rest: Seq<char>)
    requires
        is_word(w),
        rest.len() > 0 ==> rest[0] == ' ',
    ensures
        words(w + rest) == seq![w] + words(rest),
        tokens(w + rest) == seq![w] + tokens(rest),
{
    let t = w + rest;
    assert(t[0] == w[0]);
    lemma_trimmed(t);
    lemma_word_end(w, rest, 0);
    assert(t.take(w.len() as int) =~= w);
    assert(t.skip(w.len() as int) =~= rest);
}

pub proof fn lemma_space_skipped(rest: Seq<char>)
    requires
        rest.len() > 0,
        !white_space(rest[0]),
    ensures
        words(seq![' '] + rest) == words(rest),
        tokens(seq![' '] + rest) == tokens(rest),
{
    lemma_trim_space(rest);
    lemma_trimmed(rest);
}

proof fn lemma_three_words(a: Seq<char>, m: Seq<char>, b: Seq<char>)
    requires
        is_word(a),
        is_word(m),
        is_word(b),
    ensures
        words(a + seq![' '] + m + seq![' '] + b) == seq![a, m, b],
        tokens(a + seq![' '] + m + seq![' '] + b) == seq![a, m, b],
{
    let none = Seq::<char>::empty();
    assert(b + none =~= b);
    lemma_first_word(b, none);
    lemma_trim_len(none);
    assert(words(none) =~= Seq::empty());
    assert(tokens(none) =~= Seq::empty());
    lemma_space_skipped(b);
    lemma_first_word(m, seq![' '] + b);
    let mb = m + (seq![' '] + b);
    assert(mb[0] == m[0]);
    lemma_space_skipped(mb);
    lemma_first_word(a, seq![' '] + mb);
    assert(a + seq![' '] + m + seq![' '] + b =~= a + (seq![' '] + mb));
    assert(words(a + seq![' '] + m + seq![' '] + b) =~= seq![a, m, b]);
    assert(tokens(a + seq![' '] + m + seq![' '] + b) =~= seq![a, m, b]);
}

/// The part before a colon and the label behind it are read as they are.
proof fn lemma_part_and_label(part: Seq<char>, l: Option<Seq<char>>)
    requires
        is_label(part),
        forall|i: int| 0 <= i < part.len() ==> part[i] != ':',
        l matches Some(l) ==> is_label(l),
    ensures
        target_and_label(
            part + (match l {
                Some(l) => seq![' ', ':', ' '] + l,
                None => Seq::empty(),
            }),
        ) == (part, l),
{
    let said = match l {
        Some(l) => seq![' ', ':', ' '] + l,
        None => Seq::empty(),
    };
    let t = part + said;
    let n = part.len() as int;
    lemma_char_from(t, ':', 0);
    assert forall|j: int| 0 <= j < n implies t[j] != ':' by {
        assert(t[j] == part[j]);
    }
    match l {
        Some(x) => {
            assert(t[n] == ' ' && t[n + 1] == ':');
            assert(char_index(t, ':') == Some(n + 1));
            assert(t.take(n + 1) =~= part + seq![' ']);
            lemma_trim_word(part);
            assert(t.skip(n + 2) =~= seq![' '] + x);
            lemma_trim_space(x);
            lemma_trimmed(x);
            lemma_trim_same(x);
            assert(trim(seq![' '] + x) == trim_end(x));
        },
        None => {
            assert(t =~= part);
            assert(char_index(t, ':') is None);
        },
    }
}

/// A relation between two ids as it is written, with `m` between them.
pub open spec fn relation_text(
    a: Seq<char>,
    m: Seq<char>,
    b: Seq<char>,
    l: Option<Seq<char>>,
) -> Seq<char> {
    a + seq![' '] + m + seq![' '] + b + (match l {
        Some(l) => seq![' ', ':', ' '] + l,
        None => Seq::empty(),
    })
}

proof fn lemma_relation_words(a: Seq<char>, m: Seq<char>, b: Seq<char>, l: Option<Seq<char>>)
    requires
        is_word(a),
        is_word(m),
        is_word(b),
        l matches Some(l) ==> is_label(l),
    ensures
        ({
            let (part, label) = target_and_label(relation_text(a, m, b, l));
            label == l && words(part) == seq![a, m, b] && tokens(part) == seq![a, m, b]
        }),
{
    let part = a + seq![' '] + m + seq![' '] + b;
    assert(part[0] == a[0]);
    assert(part[part.len() - 1] == b[b.len() - 1]);
    let (i1, i2) = (a.len() as int, (a.len() + 1 + m.len()) as int);
    assert forall|i: int| 0 <= i < part.len() implies part[i] != ':' by {
        if i < i1 {
            assert(part[i] == a[i]);
        } else if i == i1 {
            assert(part[i] == ' ');
        } else if i < i2 {
            assert(part[i] == m[i - i1 - 1]);
        } else if i == i2 {
            assert(part[i] == ' ');
        } else {
            assert(part[i] == b[i - i2 - 1]);
        }
    }
    lemma_part_and_label(part, l);
    lemma_three_words(a, m, b);
}

/// The crow's foot of an entity, as it is written to its right.
pub open spec fn left_of(m: EndMarker) -> Seq<char> {
    match m {
        EndMarker::ErOne => "||"@,
        EndMarker::ErZeroOrOne => "o|"@,
        EndMarker::ErZeroOrMany => "}o"@,
        _ => "}|"@,
    }
}

/// The crow's foot of an entity, as it is written to its left.
pub open spec fn right_of(m: EndMarker) -> Seq<char> {
    match m {
        EndMarker::ErOne => "||"@,
        EndMarker::ErZeroOrOne => "|o"@,
        EndMarker::ErZeroOrMany => "o{"@,
        _ => "|{"@,
    }
}

/// Whether a marker is one of the four that entities have.
pub open spec fn is_foot(m: EndMarker) -> bool {
    m == EndMarker::ErOne || m == EndMarker::ErZeroOrOne || m == EndMarker::ErZeroOrMany || m
        == EndMarker::ErOneOrMany
}

/// Two crow's feet with a line between them.
pub open spec fn feet_text(from: EndMarker, dashed: bool, to: EndMarker) -> Seq<char> {
    left_of(from) + (if dashed {
        ".."@
    } else {
        "--"@
    }) + right_of(to)
}

proof fn lemma_feet(from: EndMarker, dashed: bool, to: EndMarker)
    requires
        is_foot(from),
        is_foot(to),
    ensures
        crowfoot(feet_text(from, dashed, to)) == Some(
            Connector {
                from_marker: from,
                to_marker: to,
                line: if dashed {
                    LineStyle::Dashed
                } else {
                    LineStyle::Solid
                },
            },
        ),
        is_word(feet_text(from, dashed, to)),
{
    reveal_strlit("||");
    reveal_strlit("o|");
    reveal_strlit("|o");
    reveal_strlit("}o");
    reveal_strlit("}|");
    reveal_strlit("o{");
    reveal_strlit("|{");
    reveal_strlit("--");
    reveal_strlit("..");
    let t = feet_text(from, dashed, to);
    let mid = if dashed {
        ".."@
    } else {
        "--"@
    };
    assert(t.len() == 6);
    assert(t.subrange(2, 4) =~= mid);
    assert(t.take(2) =~= left_of(from));
    assert(t.skip(4) =~= right_of(to));
    assert(t[0] != '-' && t[1] != '-' && t[0] != '.' && t[1] != '.');
    assert(t[4] != '-' && t[5] != '-' && t[4] != '.' && t[5] != '.');
    assert forall|i: int| 0 <= i < 2 implies !occurs_at(t, mid, i) by {
        if occurs_at(t, mid, i) {
            assert(t.subrange(i, i + 2)[0] == t[i]);
        }
    }
    lemma_found_at(t, mid, 0, 2);
    if dashed {
        lemma_text_from(t, "--"@, 0);
        if let Some(k) = text_index(t, "--"@) {
            assert(t.subrange(k, k + 2)[0] == t[k]);
            assert(t.subrange(k, k + 2)[1] == t[k + 1]);
        }
    }
    lemma_feet_differ();
    assert(is_word(t)) by {
        assert forall|i: int| 0 <= i < t.len() implies !white_space(#[trigger] t[i]) && t[i] != '"'
            && t[i] != ':' by {
            if i < 2 {
                assert(t[i] == left_of(from)[i]);
            } else if i < 4 {
                assert(t[i] == mid[i - 2]);
            } else {
                assert(t[i] == right_of(to)[i - 4]);
            }
        }
    }
}

proof fn lemma_feet_differ()
    ensures
        "o|"@ != "||"@,
        "}o"@ != "||"@,
        "}o"@ != "o|"@,
        "}|"@ != "||"@,
        "}|"@ != "o|"@,
        "}|"@ != "}o"@,
        "|o"@ != "||"@,
        "o{"@ != "||"@,
        "o{"@ != "|o"@,
        "|{"@ != "||"@,
        "|{"@ != "|o"@,
        "|{"@ != "o{"@,
{
    reveal_strlit("||");
    reveal_strlit("o|");
    reveal_strlit("|o");
    reveal_strlit("}o");
    reveal_strlit("}|");
    reveal_strlit("o{");
    reveal_strlit("|{");
    assert("o|"@[0] != "||"@[0]);
    assert("}o"@[0] != "||"@[0]);
    assert("}o"@[0] != "o|"@[0]);
    assert("}|"@[0] != "||"@[0]);
    assert("}|"@[0] != "o|"@[0]);
    assert("}|"@[1] != "}o"@[1]);
    assert("|o"@[1] != "||"@[1]);
    assert("o{"@[0] != "||"@[0]);
    assert("o{"@[0] != "|o"@[0]);
    assert("|{"@[1] != "||"@[1]);
    assert("|{"@[1] != "|o"@[1]);
    assert("|{"@[0] != "o{"@[0]);
}

/// `A ||--o{ B : label` is read as the relation from `A` to `B`, with the foot that
/// stands beside each, dashed where the line is dotted, and with the label in full.
pub proof fn law_written_er_relation_is_read(
    a: Seq<char>,
    from: EndMarker,
    dashed: bool,
    to: EndMarker,
    b: Seq<char>,
    l: Option<Seq<char>>,
)
    requires
        is_word(a),
        is_word(b),
        is_foot(from),
        is_foot(to),
        l matches Some(l) ==> is_label(l),
    ensures
        er_relation(relation_text(a, feet_text(from, dashed, to), b, l)) == Some(
            ErRelationView {
                from: a,
                to: b,
                from_marker: from,
                to_marker: to,
                label: l,
                line: if dashed {
                    LineStyle::Dashed
                } else {
                    LineStyle::Solid
                },
            },
        ),
{
    lemma_feet(from, dashed, to);
    lemma_relation_words(a, feet_text(from, dashed, to), b, l);
}

/// `A m B : label`, where `m` is a connector, is read as the relation from `A` to `B`
/// with the markers and the line of the connector, with the label in full, and without
/// multiplicities.
pub proof fn law_written_class_relation_is_read(
    a: Seq<char>,
    m: Seq<char>,
    b: Seq<char>,
    l: Option<Seq<char>>,
)
    requires
        is_word(a),
        is_word(m),
        is_word(b),
        connector(a) is None,
        connector(m) is Some,
        l matches Some(l) ==> is_label(l),
    ensures
        class_relation(relation_text(a, m, b, l)) == Some(
            Ok::<ClassRelationView, Seq<char>>(
                ClassRelationView {
                    from: a,
                    to: b,
                    from_marker: connector(m)->0.from_marker,
                    to_marker: connector(m)->0.to_marker,
                    line: connector(m)->0.line,
                    label: l,
                    from_mult: None,
                    to_mult: None,
                },
            ),
        ),
{
    lemma_relation_words(a, m, b, l);
    let w = seq![a, m, b];
    reveal_with_fuel(connector_from, 3);
    reveal_with_fuel(id_and_mult_upto, 3);
    assert(w[0] == a && w[1] == m && w[2] == b);
    assert(connector_from(w, 0) == Some(1int));
    assert(w.take(1) =~= seq![a]);
    assert(w.skip(2) =~= seq![b]);
    assert(a[0] != '"' && b[0] != '"');
}

/// A connector means what it looks like: a triangle, a diamond or an arrow stands at
/// the end it is written at, and dots are dashes.
pub proof fn law_connectors_mean_what_they_look_like()
    ensures
        connector("<|--"@) == meant(EndMarker::HollowTriangle, EndMarker::Plain, false),
        connector("--|>"@) == meant(EndMarker::Plain, EndMarker::HollowTriangle, false),
        connector("<|.."@) == meant(EndMarker::HollowTriangle, EndMarker::Plain, true),
        connector("..|>"@) == meant(EndMarker::Plain, EndMarker::HollowTriangle, true),
        connector("*--"@) == meant(EndMarker::FilledDiamond, EndMarker::Plain, false),
        connector("--*"@) == meant(EndMarker::Plain, EndMarker::FilledDiamond, false),
        connector("o--"@) == meant(EndMarker::HollowDiamond, EndMarker::Plain, false),
        connector("--o"@) == meant(EndMarker::Plain, EndMarker::HollowDiamond, false),
        connector("-->"@) == meant(EndMarker::Plain, EndMarker::OpenArrow, false),
        connector("<--"@) == meant(EndMarker::OpenArrow, EndMarker::Plain, false),
        connector("..>"@) == meant(EndMarker::Plain, EndMarker::OpenArrow, true),
        connector("<.."@) == meant(EndMarker::OpenArrow, EndMarker::Plain, true),
        connector("--"@) == meant(EndMarker::Plain, EndMarker::Plain, false),
        connector(".."@) == meant(EndMarker::Plain, EndMarker::Plain, true),
{
    reveal_strlit("<|--");
    reveal_strlit("--|>");
    reveal_strlit("<|..");
    reveal_strlit("..|>");
    reveal_strlit("*--");
    reveal_strlit("--*");
    reveal_strlit("o--");
    reveal_strlit("--o");
    reveal_strlit("-->");
    reveal_strlit("<--");
    reveal_strlit("..>");
    reveal_strlit("<..");
    reveal_strlit("--");
    reveal_strlit("..");
    assert("<|--"@.len() == 4);
    assert("--|>"@.len() == 4);
    assert("<|.."@.len() == 4);
    assert("..|>"@.len() == 4);
    assert("*--"@.len() == 3);
    assert("--*"@.len() == 3);
    assert("o--"@.len() == 3);
    assert("--o"@.len() == 3);
    assert("-->"@.len() == 3);
    assert("<--"@.len() == 3);
    assert("..>"@.len() == 3);
    assert("<.."@.len() == 3);
    assert("--"@.len() == 2);
    assert(".."@.len() == 2);
    lemma_told_apart("--|>"@, "<|--"@, 0);
    lemma_told_apart("<|.."@, "<|--"@, 2);
    lemma_told_apart("<|.."@, "--|>"@, 0);
    lemma_told_apart("..|>"@, "<|--"@, 0);
    lemma_told_apart("..|>"@, "--|>"@, 0);
    lemma_told_apart("..|>"@, "<|.."@, 0);
    lemma_told_apart("--*"@, "*--"@, 0);
    lemma_told_apart("o--"@, "*--"@, 0);
    lemma_told_apart("o--"@, "--*"@, 0);
    lemma_told_apart("--o"@, "*--"@, 0);
    lemma_told_apart("--o"@, "--*"@, 2);
    lemma_told_apart("--o"@, "o--"@, 0);
    lemma_told_apart("-->"@, "*--"@, 0);
    lemma_told_apart("-->"@, "--*"@, 2);
    lemma_told_apart("-->"@, "o--"@, 0);
    lemma_told_apart("-->"@, "--o"@, 2);
    lemma_told_apart("<--"@, "*--"@, 0);
    lemma_told_apart("<--"@, "--*"@, 0);
    lemma_told_apart("<--"@, "o--"@, 0);
    lemma_told_apart("<--"@, "--o"@, 0);
    lemma_told_apart("<--"@, "-->"@, 0);
    lemma_told_apart("..>"@, "*--"@, 0);
    lemma_told_apart("..>"@, "--*"@, 0);
    lemma_told_apart("..>"@, "o--"@, 0);
    lemma_told_apart("..>"@, "--o"@, 0);
    lemma_told_apart("..>"@, "-->"@, 0);
    lemma_told_apart("..>"@, "<--"@, 0);
    lemma_told_apart("<.."@, "*--"@, 0);
    lemma_told_apart("<.."@, "--*"@, 0);
    lemma_told_apart("<.."@, "o--"@, 0);
    lemma_told_apart("<.."@, "--o"@, 0);
    lemma_told_apart("<.."@, "-->"@, 0);
    lemma_told_apart("<.."@, "<--"@, 1);
    lemma_told_apart("<.."@, "..>"@, 0);
    lemma_told_apart(".."@, "--"@, 0);
}

/// The markers and the line of a connector.
pub open spec fn meant(from_marker: EndMarker, to_marker: EndMarker, dashed: bool) -> Option<
    Connector,
> {
    Some(
        Connector {
            from_marker,
            to_marker,
            line: if dashed {
                LineStyle::Dashed
            } else {
                LineStyle::Solid
            },
        },
    )
}

proof fn lemma_told_apart(a: Seq<char>, b: Seq<char>, i: int)
    requires
        0 <= i < a.len(),
        i < b.len() ==> a[i] != b[i],
    ensures
        a != b,
{
    if a == b {
        assert(a[i] == b[i]);
    }
}

// ---------------------------------------------------------------------------
// Headers and comments
// ---------------------------------------------------------------------------

/// A flowchart runs the way that its header says, in any mix of upper and lower case, and
/// down where it says nothing.
pub proof fn law_header_directions(d: Seq<char>)
    ensures
        upper(d) == "TD"@ || upper(d) == "TB"@ ==> header_direction(d) == (Direction::Down, true),
        upper(d) == "LR"@ ==> header_direction(d) == (Direction::Right, true),
        upper(d) == "RL"@ ==> header_direction(d) == (Direction::Left, true),
        upper(d) == "BT"@ ==> header_direction(d) == (Direction::Up, true),
        d.len() == 0 ==> header_direction(d) == (Direction::Down, true),
{
    reveal_strlit("TD");
    reveal_strlit("TB");
    reveal_strlit("LR");
    reveal_strlit("RL");
    reveal_strlit("BT");
    assert("TD"@[0] == 'T' && "TB"@[0] == 'T' && "LR"@[0] == 'L' && "RL"@[0] == 'R' && "BT"@[0]
        == 'B');
    lemma_told_apart("LR"@, "TD"@, 0);
    lemma_told_apart("LR"@, "TB"@, 0);
    lemma_told_apart("RL"@, "TD"@, 0);
    lemma_told_apart("RL"@, "TB"@, 0);
    lemma_told_apart("RL"@, "LR"@, 0);
    lemma_told_apart("BT"@, "TD"@, 0);
    lemma_told_apart("BT"@, "TB"@, 0);
    lemma_told_apart("BT"@, "LR"@, 0);
    lemma_told_apart("BT"@, "RL"@, 0);
    assert(upper(d).len() == d.len());
    assert("TD"@.len() == 2 && "TB"@.len() == 2 && "LR"@.len() == 2 && "RL"@.len() == 2
        && "BT"@.len() == 2);
}

/// The direction of a flowchart is that of its header.
pub proof fn law_direction_is_kept(d: Seq<char>, l: LineView, rest: Seq<LineView>)
    ensures
        read_flowchart(d, l, rest) matches Ok(DiagramView::Graph(g)) ==> {
            &&& upper(d) == "LR"@ ==> g.direction == Direction::Right
            &&& upper(d) == "RL"@ ==> g.direction == Direction::Left
            &&& upper(d) == "BT"@ ==> g.direction == Direction::Up
            &&& upper(d) == "TD"@ || upper(d) == "TB"@ ==> g.direction == Direction::Down
        },
{
    law_header_directions(d);
}

/// Whether a line says something: it is neither blank nor a comment.
pub open spec fn says_something(l: LineView) -> bool {
    trim(l.text).len() > 0 && !has_prefix(trim(l.text), "%%"@)
}

/// What is read of a text are the lines that say something, all of them, in their order.
pub proof fn law_comments_say_nothing(lines: Seq<LineView>, n: int)
    requires
        0 <= n <= lines.len(),
    ensures
        saying(lines, n) == lines.take(n).filter(|l: LineView| says_something(l)),
    decreases n,
{
    reveal(Seq::filter);
    if n > 0 {
        law_comments_say_nothing(lines, n - 1);
        assert(lines.take(n).drop_last() =~= lines.take(n - 1));
        assert(lines.take(n).last() == lines[n - 1]);
    }
}

} // verus!
