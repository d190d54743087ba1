//! Statements as they are written, and what is read from them.
use crate::diag::{diagnostic, DiagnosticView};
use crate::ir::{
    has_key, ArrowType, EndpointView, LineStyle, MessageView, ParticipantKind, ParticipantView,
    SequenceDiagramView, SequenceItemView, TransitionView,
};
use crate::lines::LineView;
use crate::mermaid::groups::told_of_line;
use crate::mermaid::laws::{
    lemma_found_at, lemma_trim_same, lemma_trim_space, lemma_trim_word, lemma_trimmed,
};
use crate::mermaid::readings::{end_text, is_label, message_arrow};
use crate::plantuml::scan::{
    after_word, ascii_word_end, keyword_and_rest, participant_decl, participant_id,
    participant_keyword,
};
use crate::plantuml::sequence::{
    build_line, check_error, check_line, message_form, plantuml_message, receiver, CheckView,
};
use crate::plantuml::state::{
    check_state_line, ends_and_label, state_endpoint, state_statement, state_transition,
};
use crate::text::{
    char_index, lemma_char_from, lemma_text_from, occurs_at, text_index, trim, trim_end,
    white_space,
};
use vstd::prelude::*;

verus! {

/// Whether `s` is an id without hyphens.
pub open spec fn is_name(s: Seq<char>) -> bool {
    participant_id(s) && forall|i: int|
        0 <= i < s.len() ==> !white_space(#[trigger] s[i]) && s[i] != '-' && s[i] != ':' && s[i]
            != '"' && s[i] != '['
}

/// A label behind what it belongs to.
pub open spec fn behind(l: Option<Seq<char>>) -> Seq<char> {
    match l {
        Some(l) => seq![' ', ':', ' '] + l,
        None => Seq::empty(),
    }
}

/// Whether `s` has no colon.
spec fn colonless(s: Seq<char>) -> bool {
    forall|i: int| 0 <= i < s.len() ==> s[i] != ':'
}

/// What stands before a colon and the label behind it are read as they are.
proof fn lemma_reads_behind(part: Seq<char>, l: Option<Seq<char>>)
    requires
        is_label(part),
        colonless(part),
        l matches Some(l) ==> is_label(l),
    ensures
        ends_and_label(part + behind(l)) == (part, l),
        receiver(part + behind(l)) == (part, l),
{
    let t = part + behind(l);
    let n = part.len() as int;
    lemma_char_from(t, ':', 0);
    assert forall|j: int| 0 <= j < n implies t[j] != ':' by {
        assert(t[j] == part[j]);
    }
    match l {
        Some(x) => {
            assert(t[n] == ' ' && t[n + 1] == ':');
            assert(char_index(t, ':') == Some(n + 1));
            assert(t.take(n + 1) =~= part + seq![' ']);
            lemma_trim_word(part);
            assert(t.skip(n + 2) =~= seq![' '] + x);
            lemma_trim_space(x);
            lemma_trimmed(x);
            lemma_trim_same(x);
            assert(trim(seq![' '] + x) == trim_end(x));
        },
        None => {
            assert(t =~= part);
            assert(char_index(t, ':') is None);
            lemma_trim_same(part);
        },
    }
}

// ---------------------------------------------------------------------------
// Sequences
// ---------------------------------------------------------------------------

/// A message as it is written.
pub open spec fn message_text(
    a: Seq<char>,
    dashed: bool,
    double: bool,
    b: Seq<char>,
    l: Option<Seq<char>>,
) -> Seq<char> {
    a + seq![' '] + message_arrow(dashed, double) + seq![' '] + (b + behind(l))
}

/// Whether a label has no hyphen.
pub open spec fn unhyphened(l: Option<Seq<char>>) -> bool {
    l matches Some(l) ==> is_label(l) && forall|i: int| 0 <= i < l.len() ==> l[i] != '-'
}

/// Where the hyphens of a message stand: in its arrow only.
proof fn lemma_hyphens(
    a: Seq<char>,
    dashed: bool,
    double: bool,
    b: Seq<char>,
    l: Option<Seq<char>>,
)
    requires
        is_name(a),
        is_name(b),
        unhyphened(l),
    ensures
        ({
            let t = message_text(a, dashed, double, b, l);
            let p = message_arrow(dashed, double);
            let n = a.len() as int;
            &&& forall|i: int| 0 <= i < t.len() && t[i] == '-' ==> n < i <= n + p.len()
            &&& t.subrange(n + 1, n + 1 + p.len()) == p
            &&& t.take(n + 1) == a + seq![' ']
            &&& t.skip(n + 1 + p.len()) == seq![' '] + (b + behind(l))
            &&& t.len() > n + 2 + p.len()
            &&& t[n + 1 + p.len()] == ' '
        }),
{
    let t = message_text(a, dashed, double, b, l);
    let p = message_arrow(dashed, double);
    let n = a.len() as int;
    let m = n + 2 + p.len();
    let body = b + behind(l);
    assert forall|i: int| 0 <= i < t.len() && t[i] == '-' implies n < i <= n + p.len() by {
        if i < n {
            assert(t[i] == a[i]);
        } else if i == n {
            assert(t[i] == ' ');
        } else if i == m - 1 {
            assert(t[i] == ' ');
        } else if i >= m {
            assert(t[i] == body[i - m]);
            if i - m < b.len() {
                assert(body[i - m] == b[i - m]);
            } else {
                let j = i - m - b.len();
                assert(body[i - m] == behind(l)[j]);
                if let Some(x) = l {
                    if j >= 3 {
                        assert(behind(l)[j] == x[j - 3]);
                    }
                }
            }
        }
    }
    assert(t.subrange(n + 1, n + 1 + p.len()) =~= p);
    assert(t.take(n + 1) =~= a + seq![' ']);
    assert(t.skip(n + 1 + p.len()) =~= seq![' '] + body);
}

/// An arrow that is not the message's stands nowhere in it.
proof fn lemma_no_arrow(
    a: Seq<char>,
    dashed: bool,
    double: bool,
    b: Seq<char>,
    l: Option<Seq<char>>,
    q: Seq<char>,
)
    requires
        is_name(a),
        is_name(b),
        unhyphened(l),
        q == "-["@ || q == "->x"@ || q == "->o"@ || (q == "-->>"@ && !(dashed && double)) || (q
            == "-->"@ && !dashed) || (q == "->>"@ && !double && !dashed),
    ensures
        text_index(message_text(a, dashed, double, b, l), q) is None,
{
    reveal_strlit("-->>");
    reveal_strlit("-->");
    reveal_strlit("->>");
    reveal_strlit("->");
    reveal_strlit("-[");
    reveal_strlit("->x");
    reveal_strlit("->o");
    let t = message_text(a, dashed, double, b, l);
    let p = message_arrow(dashed, double);
    let n = a.len() as int;
    lemma_hyphens(a, dashed, double, b, l);
    lemma_text_from(t, q, 0);
    if let Some(k) = text_index(t, q) {
        let w = t.subrange(k, k + q.len());
        assert(w == q);
        assert(w[0] == t[k] && w[1] == t[k + 1]);
        assert(q.len() > 2 ==> w[2] == t[k + 2]);
        assert(q.len() > 3 ==> w[3] == t[k + 3]);
        let s = t.subrange(n + 1, n + 1 + p.len());
        assert(s[0] == t[n + 1] && s[1] == t[n + 2]);
        assert(p.len() > 2 ==> s[2] == t[n + 3]);
        assert(p.len() > 3 ==> s[3] == t[n + 4]);
        assert(n < k <= n + p.len());
        assert(false);
    }
}

/// `a -> b : label` is read as a message from `a` to `b` with the label in full. Two
/// dashes make it dashed, and every arrow has a head.
pub proof fn law_written_message_is_read(
    a: Seq<char>,
    dashed: bool,
    double: bool,
    b: Seq<char>,
    l: Option<Seq<char>>,
)
    ensures
        is_name(a) && is_name(b) && unhyphened(l) ==> plantuml_message(
            message_text(a, dashed, double, b, l),
        ) == Some(
            Ok::<MessageView, Seq<char>>(
                MessageView {
                    from: a,
                    to: b,
                    label: l,
                    line: if dashed {
                        LineStyle::Dashed
                    } else {
                        LineStyle::Solid
                    },
                    arrow: ArrowType::Triangle,
                },
            ),
        ),
{
    if is_name(a) && is_name(b) && unhyphened(l) {
        let t = message_text(a, dashed, double, b, l);
        let p = message_arrow(dashed, double);
        let n = a.len() as int;
        lemma_hyphens(a, dashed, double, b, l);
        lemma_no_arrow(a, dashed, double, b, l, "-["@);
        lemma_no_arrow(a, dashed, double, b, l, "->x"@);
        lemma_no_arrow(a, dashed, double, b, l, "->o"@);
        if !(dashed && double) {
            lemma_no_arrow(a, dashed, double, b, l, "-->>"@);
        }
        if !dashed {
            lemma_no_arrow(a, dashed, double, b, l, "-->"@);
        }
        if !dashed && !double {
            lemma_no_arrow(a, dashed, double, b, l, "->>"@);
        }
        lemma_arrows();
        assert forall|k: int| 0 <= k < n + 1 implies !occurs_at(t, p, k) by {
            if occurs_at(t, p, k) {
                assert(t.subrange(k, k + p.len())[0] == t[k]);
            }
        }
        lemma_found_at(t, p, 0, n + 1);
        lemma_trim_word(a);
        let body = b + behind(l);
        assert(body[0] == b[0]);
        lemma_trim_space(body);
        lemma_reads_behind(b, l);
        assert(message_form(
            t,
            p,
            if dashed {
                LineStyle::Dashed
            } else {
                LineStyle::Solid
            },
        ) is Some);
    }
}

proof fn lemma_arrows()
    ensures
        forall|dashed: bool, double: bool|
            (#[trigger] message_arrow(dashed, double)).len() > 0 && message_arrow(
                dashed,
                double,
            )[0] == '-',
{
    reveal_strlit("-->>");
    reveal_strlit("-->");
    reveal_strlit("->>");
    reveal_strlit("->");
}

// ---------------------------------------------------------------------------
// State diagrams
// ---------------------------------------------------------------------------

/// Whether `e` can stand at the start of a transition, or at its end.
pub open spec fn is_end(e: EndpointView, is_source: bool) -> bool {
    match e {
        EndpointView::State(id) => is_name(id),
        EndpointView::Initial => is_source,
        EndpointView::Final => !is_source,
    }
}

/// A transition as it is written, with a long arrow or a short one.
pub open spec fn transition_text(
    a: EndpointView,
    long: bool,
    b: EndpointView,
    l: Option<Seq<char>>,
) -> Seq<char> {
    end_text(a) + seq![' '] + (if long {
        "-->"@
    } else {
        "->"@
    }) + seq![' '] + end_text(b) + behind(l)
}

proof fn lemma_end(e: EndpointView, is_source: bool)
    requires
        is_end(e, is_source),
    ensures
        is_label(end_text(e)),
        forall|i: int|
            0 <= i < end_text(e).len() ==> end_text(e)[i] != '-' && end_text(e)[i] != ':',
        state_endpoint(end_text(e), is_source) == Ok::<EndpointView, Seq<char>>(e),
        trim(end_text(e)) == end_text(e),
{
    reveal_strlit("[*]");
    let s = end_text(e);
    lemma_trim_same(s);
    if let EndpointView::State(id) = e {
        assert(id[0] != '[');
        assert("[*]"@[0] == '[');
    }
}

/// Two ends with an arrow between them are read as they are.
proof fn lemma_two_ends(x: Seq<char>, long: bool, y: Seq<char>)
    requires
        is_label(x),
        is_label(y),
        forall|i: int| 0 <= i < x.len() ==> x[i] != '-' && x[i] != ':',
        forall|i: int| 0 <= i < y.len() ==> y[i] != '-' && y[i] != ':',
    ensures
        ({
            let p = if long {
                "-->"@
            } else {
                "->"@
            };
            let part = x + seq![' '] + p + seq![' '] + y;
            let n = x.len() as int;
            &&& is_label(part)
            &&& colonless(part)
            &&& text_index(part, p) == Some(n + 1)
            &&& !long ==> text_index(part, "-->"@) is None
            &&& trim(part.take(n + 1)) == x
            &&& trim(part.skip(n + 1 + p.len())) == y
            &&& p.len() == (if long {
                3int
            } else {
                2int
            })
        }),
{
    reveal_strlit("-->");
    reveal_strlit("->");
    let p = if long {
        "-->"@
    } else {
        "->"@
    };
    let part = x + seq![' '] + p + seq![' '] + y;
    let n = x.len() as int;
    let m = n + 2 + p.len();
    assert(part[0] == x[0]);
    assert(part[part.len() - 1] == y[y.len() - 1]);
    assert forall|i: int| 0 <= i < part.len() implies part[i] != ':' && (part[i] == '-' ==> n < i < m
        - 1) by {
        if i < n {
            assert(part[i] == x[i]);
        } else if i == n {
            assert(part[i] == ' ');
        } else if i < m - 1 {
            assert(part[i] == p[i - n - 1]);
        } else if i == m - 1 {
            assert(part[i] == ' ');
        } else {
            assert(part[i] == y[i - m]);
        }
    }
    assert(part.subrange(n + 1, n + 1 + p.len()) =~= p);
    assert forall|k: int| 0 <= k < n + 1 implies !occurs_at(part, p, k) by {
        if occurs_at(part, p, k) {
            assert(part.subrange(k, k + p.len())[0] == part[k]);
        }
    }
    lemma_found_at(part, p, 0, n + 1);
    if !long {
        lemma_text_from(part, "-->"@, 0);
        if let Some(k) = text_index(part, "-->"@) {
            let w = part.subrange(k, k + 3);
            assert(w[0] == part[k] && w[1] == part[k + 1]);
            assert(part[n + 2] == p[1]);
            assert(false);
        }
    }
    assert(part.take(n + 1) =~= x + seq![' ']);
    lemma_trim_word(x);
    assert(part.skip(n + 1 + p.len()) =~= seq![' '] + y);
    lemma_trim_space(y);
    assert(trim(seq![' '] + y) == trim_end(y));
    lemma_trimmed(y);
    lemma_trim_same(y);
}

/// `a --> b : label`, where each end is a state or `[*]`, is read as the transition from
/// `a` to `b`, with the label in full.
pub proof fn law_written_transition_is_read(
    a: EndpointView,
    long: bool,
    b: EndpointView,
    l: Option<Seq<char>>,
)
    ensures
        is_end(a, true) && is_end(b, false) && (l matches Some(x) ==> is_label(x))
            ==> state_transition(transition_text(a, long, b, l)) == Some(
            Ok::<TransitionView, Seq<char>>(TransitionView { from: a, to: b, label: l }),
        ),
{
    if is_end(a, true) && is_end(b, false) && (l matches Some(x) ==> is_label(x)) {
        lemma_end(a, true);
        lemma_end(b, false);
        let x = end_text(a);
        let y = end_text(b);
        let p = if long {
            "-->"@
        } else {
            "->"@
        };
        lemma_two_ends(x, long, y);
        lemma_reads_behind(x + seq![' '] + p + seq![' '] + y, l);
    }
}

// ---------------------------------------------------------------------------
// Declarations
// ---------------------------------------------------------------------------

/// Whether `s` is a word.
pub open spec fn is_token(s: Seq<char>) -> bool {
    s.len() > 0 && forall|i: int| 0 <= i < s.len() ==> !white_space(#[trigger] s[i]) && s[i] != '"'
}

proof fn lemma_word_ends(k: Seq<char>, rest: Seq<char>, i: int)
    requires
        is_token(k),
        0 <= i <= k.len(),
    ensures
        ascii_word_end(k + (seq![' '] + rest), i) == k.len(),
    decreases k.len() - i,
{
    let t = k + (seq![' '] + rest);
    if i < k.len() {
        assert(t[i] == k[i]);
        lemma_word_ends(k, rest, i + 1);
    } else {
        assert(t[i] == ' ');
    }
}

proof fn lemma_keyword(k: Seq<char>, rest: Seq<char>)
    requires
        is_token(k),
        rest.len() > 0,
        !white_space(rest[0]),
    ensures
        keyword_and_rest(k + (seq![' '] + rest)) == Some((k, rest)),
{
    let t = k + (seq![' '] + rest);
    assert(t[0] == k[0]);
    lemma_trimmed(t);
    lemma_word_ends(k, rest, 0);
    assert(t.take(k.len() as int) =~= k);
    assert(t.skip(k.len() as int) =~= seq![' '] + rest);
    lemma_trim_space(rest);
}

proof fn lemma_after_as(id: Seq<char>)
    requires
        is_token(id),
    ensures
        after_word("as "@ + id, "as"@) == Some(seq![' '] + id),
        trim(seq![' '] + id) == id,
        trim(" as "@ + id) == "as "@ + id,
{
    reveal_strlit("as ");
    reveal_strlit("as");
    reveal_strlit(" as ");
    let t = "as "@ + id;
    assert(t.take(2) =~= "as"@);
    assert(t[2] == ' ');
    assert(t.skip(2) =~= seq![' '] + id);
    lemma_trim_space(id);
    lemma_trimmed(id);
    lemma_trim_same(id);
    assert(trim(seq![' '] + id) == trim_end(id));
    assert(" as "@ + id =~= seq![' '] + t);
    assert(t[0] == 'a');
    assert(t[t.len() - 1] == id[id.len() - 1]);
    lemma_trim_space(t);
    lemma_trimmed(t);
    lemma_trim_same(t);
    assert(trim(seq![' '] + t) == trim_end(t));
}

/// `participant "Label" as Id` declares the id behind `as`, with the label between the
/// quotes in full.
pub proof fn law_quoted_participant_is_read(k: Seq<char>, label: Seq<char>, id: Seq<char>)
    requires
        is_token(k),
        participant_keyword(k),
        forall|i: int| 0 <= i < label.len() ==> label[i] != '"',
        is_token(id),
    ensures
        participant_decl(k + (seq![' '] + (seq!['"'] + label + "\" as "@ + id))) == Some(
            (id, Some(label)),
        ),
{
    reveal_strlit("\" as ");
    reveal_strlit(" as ");
    let rest = seq!['"'] + label + "\" as "@ + id;
    assert(rest[0] == '"');
    lemma_keyword(k, rest);
    assert(rest[rest.len() - 1] == id[id.len() - 1]);
    lemma_trim_same(rest);
    lemma_quoted(label, id);
    lemma_after_as(id);
}

proof fn lemma_quoted(label: Seq<char>, id: Seq<char>)
    requires
        forall|i: int| 0 <= i < label.len() ==> label[i] != '"',
        is_token(id),
    ensures
        ({
            let rest = seq!['"'] + label + "\" as "@ + id;
            let s = rest.skip(1);
            let n = label.len() as int;
            char_index(s, '"') == Some(n) && s.take(n) == label && s.skip(n + 1) == " as "@ + id
        }),
{
    reveal_strlit("\" as ");
    reveal_strlit(" as ");
    let rest = seq!['"'] + label + "\" as "@ + id;
    let s = rest.skip(1);
    let n = label.len() as int;
    assert(s =~= label + "\" as "@ + id);
    lemma_char_from(s, '"', 0);
    assert(s[n] == '"');
    assert forall|j: int| 0 <= j < n implies s[j] != '"' by {
        assert(s[j] == label[j]);
    }
    assert(s.take(n) =~= label);
    assert(s.skip(n + 1) =~= " as "@ + id);
}

/// `participant Id` declares the id, without a label of its own.
pub proof fn law_bare_participant_is_read(k: Seq<char>, id: Seq<char>)
    requires
        is_token(k),
        participant_keyword(k),
        is_token(id),
    ensures
        participant_decl(k + (seq![' '] + id)) == Some((id, None::<Seq<char>>)),
{
    reveal_strlit(" as ");
    lemma_keyword(k, id);
    lemma_trim_same(id);
    lemma_text_from(id, " as "@, 0);
    if let Some(j) = text_index(id, " as "@) {
        assert(id.subrange(j, j + 4)[0] == id[j]);
        assert(false);
    }
    assert(id[0] != '"');
}

/// `participant Name as Id` declares the id behind `as`, with the name before it as its
/// label.
pub proof fn law_renamed_participant_is_read(k: Seq<char>, name: Seq<char>, id: Seq<char>)
    requires
        is_token(k),
        participant_keyword(k),
        is_token(name),
        is_token(id),
    ensures
        participant_decl(k + (seq![' '] + (name + " as "@ + id))) == Some((id, Some(name))),
{
    reveal_strlit(" as ");
    let rest = name + " as "@ + id;
    let n = name.len() as int;
    assert(rest[0] == name[0]);
    assert(rest[rest.len() - 1] == id[id.len() - 1]);
    lemma_keyword(k, rest);
    lemma_trim_same(rest);
    assert(rest.subrange(n, n + 4) =~= " as "@);
    assert forall|j: int| 0 <= j < n implies !occurs_at(rest, " as "@, j) by {
        if occurs_at(rest, " as "@, j) {
            assert(rest.subrange(j, j + 4)[0] == rest[j]);
            assert(rest[j] == name[j]);
        }
    }
    lemma_found_at(rest, " as "@, 0, n);
    assert(rest.take(n) =~= name);
    assert(rest.skip(n + 4) =~= id);
    lemma_trim_same(name);
    lemma_trim_same(id);
}

/// `state "Label" as Id` declares the id behind `as`, with the label between the quotes
/// in full.
pub proof fn law_quoted_state_is_read(label: Seq<char>, id: Seq<char>)
    requires
        forall|i: int| 0 <= i < label.len() ==> label[i] != '"',
        is_token(id),
    ensures
        state_statement("state"@ + (seq![' '] + (seq!['"'] + label + "\" as "@ + id))) == Some(
            Ok::<(Seq<char>, Seq<char>), Seq<char>>((id, label)),
        ),
{
    reveal_strlit("state");
    reveal_strlit("\" as ");
    let rest = seq!['"'] + label + "\" as "@ + id;
    assert(rest[0] == '"');
    lemma_keyword("state"@, rest);
    assert(rest[rest.len() - 1] == id[id.len() - 1]);
    lemma_trim_same(rest);
    lemma_quoted(label, id);
    lemma_after_as(id);
}

/// Every kind of participant has its keyword.
pub proof fn law_participant_keywords()
    ensures
        participant_keyword("participant"@),
        participant_keyword("actor"@),
        participant_keyword("boundary"@),
        participant_keyword("control"@),
        participant_keyword("entity"@),
        participant_keyword("database"@),
        participant_keyword("collections"@),
        participant_keyword("queue"@),
{
}

/// A line with a message adds it behind the items that are there, and declares its
/// ends, the sender first, where they are not declared yet. It changes no participant
/// that is.
pub proof fn law_message_is_added(d: SequenceDiagramView, l: LineView, m: MessageView)
    requires
        trim(l.text).len() > 0,
        trim(l.text) != "end"@,
        participant_decl(trim(l.text)) is None,
    ensures
        plantuml_message(trim(l.text)) == Some(Ok::<MessageView, Seq<char>>(m)) ==> ({
            let after = build_line(d, l);
            &&& after.items == d.items.push(SequenceItemView::Message(m))
            &&& d.participants.len() <= after.participants.len() <= d.participants.len() + 2
            &&& forall|i: int|
                0 <= i < d.participants.len() ==> after.participants[i] == d.participants[i]
            &&& !has_key(d.participants, m.from) ==> after.participants[d.participants.len() as int]
                == (ParticipantView { id: m.from, label: m.from, kind: ParticipantKind::Default })
        }),
{
}

/// A line with a declaration adds a participant with its id and its label behind those
/// that are there, unless the id is declared already, and it adds no item.
pub proof fn law_declaration_is_added(
    d: SequenceDiagramView,
    l: LineView,
    id: Seq<char>,
    label: Option<Seq<char>>,
)
    requires
        trim(l.text).len() > 0,
        trim(l.text) != "end"@,
        participant_decl(trim(l.text)) == Some((id, label)),
    ensures
        build_line(d, l).items == d.items,
        has_key(d.participants, id) ==> build_line(d, l).participants == d.participants,
        !has_key(d.participants, id) ==> build_line(d, l).participants == d.participants.push(
            ParticipantView {
                id,
                label: match label {
                    Some(x) => x,
                    None => id,
                },
                kind: ParticipantKind::Default,
            },
        ),
{
}

// ---------------------------------------------------------------------------
// Errors
// ---------------------------------------------------------------------------

proof fn lemma_told(before: Seq<DiagnosticView>, message: Seq<char>, l: LineView)
    ensures
        told_of_line(before, before.push(diagnostic(message, l.start, l.end)), l),
{
    assert(before.push(diagnostic(message, l.start, l.end)).drop_last() =~= before);
}

/// A line of a sequence gives at most one error, which is about the whole line. A line
/// with an error declares nothing.
pub proof fn law_sequence_errors_span_their_line(st: CheckView, l: LineView)
    ensures
        told_of_line(st.errors, check_line(st, l).errors, l),
        check_line(st, l).errors != st.errors ==> check_line(st, l).declared == st.declared,
{
    assert forall|m: Seq<char>|
        told_of_line(st.errors, (#[trigger] check_error(st, m, l)).errors, l) by {
        lemma_told(st.errors, m, l);
    }
}

/// A line of a state diagram gives at most one error, which is about the whole line. A
/// line with an error declares nothing.
pub proof fn law_state_errors_span_their_line(st: CheckView, l: LineView)
    ensures
        told_of_line(st.errors, check_state_line(st, l).errors, l),
        check_state_line(st, l).errors != st.errors ==> check_state_line(st, l).declared
            == st.declared,
{
    assert forall|m: Seq<char>|
        told_of_line(st.errors, (#[trigger] check_error(st, m, l)).errors, l) by {
        lemma_told(st.errors, m, l);
    }
}

} // verus!
