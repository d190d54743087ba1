//! Sequence diagrams.
use crate::diag::{
    conclude, diagnostic, parsed, report, verdict, Diagnostic, DiagnosticView, ParsedView,
};
use crate::ir::{
    has_key, lemma_distinct_push, ArrowType, Diagram, DiagramView, LineStyle, Message,
    MessageView, Participant, ParticipantKind, ParticipantView, SequenceDiagram,
    SequenceDiagramView, SequenceItem, SequenceItemView,
};
use crate::keywords::{
    find_keyword, keyword_at_start, semicolon, semicolon_message, unrecognised,
    unrecognised_message, unsupported, unsupported_message,
};
use crate::lines::{line_wf, Line, LineView};
use crate::mermaid::edges::{nonempty, some_text};
use crate::mermaid::scan::{ident, split_id};
use crate::sound::{grown, lemma_grown, lemma_has_key, lines_within, owed, sound_sequence, within};
use crate::table::Keyed;
use crate::text::{
    after_prefix, blank, char_index, contains_char, equals, find_char, find_text, has_char,
    is_blank, lemma_views_push, opt_view, same, skip, strip_prefix, take, text_index, to_chars,
    to_string, trim, trim_of, trim_start, trim_start_of, views,
};
use vstd::prelude::*;

verus! {

// ---------------------------------------------------------------------------
// Messages
// ---------------------------------------------------------------------------

/// What a line is read as, given one form of arrow.
pub enum Form {
    /// This form does not fit; another may.
    Other,
    /// No form fits.
    Never,
    /// A message.
    Message {
        /// The sender.
        from: Seq<char>,
        /// The receiver.
        to: Seq<char>,
        /// The text.
        label: Option<Seq<char>>,
    },
}

/// The receiver, and the text after a colon.
pub open spec fn message_target(from: Seq<char>, after: Seq<char>) -> Form {
    match char_index(after, ':') {
        Some(k) => {
            let part = trim(after.take(k));
            match ident(part) {
                Some((to, _)) => if to == part {
                    Form::Message { from, to, label: some_text(trim(after.skip(k + 1))) }
                } else {
                    Form::Other
                },
                None => Form::Never,
            }
        },
        None => match ident(after) {
            Some((to, rest)) => if blank(rest) {
                Form::Message { from, to, label: None }
            } else {
                Form::Other
            },
            None => Form::Never,
        },
    }
}

/// What a line is read as, given one form of arrow.
pub open spec fn message_form(line: Seq<char>, arrow: Seq<char>) -> Form {
    match text_index(line, arrow) {
        Some(k) => {
            let part = trim(line.take(k));
            match ident(part) {
                Some((from, _)) => if from == part {
                    message_target(from, trim_start(line.skip(k + arrow.len())))
                } else {
                    Form::Other
                },
                None => Form::Never,
            }
        },
        None => Form::Other,
    }
}

/// The message that a form of arrow with the line style `line` gives, or what
/// the other forms give.
pub open spec fn form_or(f: Form, line: LineStyle, other: Option<MessageView>) -> Option<
    MessageView,
> {
    match f {
        Form::Message { from, to, label } => Some(
            MessageView { from, to, label, line, arrow: ArrowType::Triangle },
        ),
        Form::Never => None,
        Form::Other => other,
    }
}

/// The message on a line. A longer arrow comes before one that it begins with.
pub open spec fn seq_message(line: Seq<char>) -> Option<MessageView> {
    form_or(
        message_form(line, "-->>"@),
        LineStyle::Dashed,
        form_or(
            message_form(line, "-->"@),
            LineStyle::Dashed,
            form_or(
                message_form(line, "->>"@),
                LineStyle::Solid,
                form_or(message_form(line, "->"@), LineStyle::Solid, None),
            ),
        ),
    )
}

/// What a line is read as, given one form of arrow: `Err(true)` where no form
/// fits, `Err(false)` where another may.
fn try_form(line: &[char], arrow: &str, style: LineStyle) -> (r: Result<Message, bool>)
    ensures
        match r {
            Ok(m) => message_form(line@, arrow@) == (Form::Message {
                from: m.from@,
                to: m.to@,
                label: opt_view(m.label),
            }) && m.line == style && m.arrow == ArrowType::Triangle,
            Err(never) => message_form(line@, arrow@) == if never {
                Form::Never
            } else {
                Form::Other
            },
        },
{
    let k: usize = match find_text(line, arrow) {
        Some(k) => k,
        None => {
            return Err(false);
        },
    };
    let len: usize = line.len();
    let part = trim_of(take(line, k));
    let from = match split_id(part) {
        Some((from, _)) => from,
        None => {
            return Err(true);
        },
    };
    if !same(to_chars(from.as_str()).as_slice(), part) {
        return Err(false);
    }
    let after = trim_start_of(skip(line, k + arrow.unicode_len()));
    match find_char(after, ':') {
        Some(c) => {
            let after_len: usize = after.len();
            let to_part = trim_of(take(after, c));
            match split_id(to_part) {
                Some((to, _)) => {
                    if !same(to_chars(to.as_str()).as_slice(), to_part) {
                        return Err(false);
                    }
                    let label = nonempty(trim_of(skip(after, c + 1)));
                    Ok(Message { from, to, label, line: style, arrow: ArrowType::Triangle })
                },
                None => Err(true),
            }
        },
        None => match split_id(after) {
            Some((to, rest)) => {
                if !is_blank(rest) {
                    return Err(false);
                }
                Ok(Message { from, to, label: None, line: style, arrow: ArrowType::Triangle })
            },
            None => Err(true),
        },
    }
}

/// The message on a line.
pub fn try_parse_seq_message(line: &[char]) -> (r: Option<Message>)
    ensures
        opt_view(r) == seq_message(line@),
{
    match try_form(line, "-->>", LineStyle::Dashed) {
        Ok(m) => {
            return Some(m);
        },
        Err(never) => if never {
            return None;
        },
    }
    match try_form(line, "-->", LineStyle::Dashed) {
        Ok(m) => {
            return Some(m);
        },
        Err(never) => if never {
            return None;
        },
    }
    match try_form(line, "->>", LineStyle::Solid) {
        Ok(m) => {
            return Some(m);
        },
        Err(never) => if never {
            return None;
        },
    }
    match try_form(line, "->", LineStyle::Solid) {
        Ok(m) => Some(m),
        Err(_) => None,
    }
}

// ---------------------------------------------------------------------------
// Statements
// ---------------------------------------------------------------------------

/// The statements that are not supported.
pub open spec fn unsupported_in_sequence() -> Seq<Seq<char>> {
    seq![
        "Note"@,
        "note"@,
        "loop"@,
        "alt"@,
        "else"@,
        "opt"@,
        "par"@,
        "break"@,
        "activate"@,
        "deactivate"@,
        "rect"@,
        "autonumber"@,
        "title"@,
        "accTitle"@,
        "accDescr"@,
    ]
}

fn find_unsupported(t: &[char]) -> (r: Option<&'static str>)
    ensures
        opt_view(r) == keyword_at_start(t@, unsupported_in_sequence()),
{
    let keywords: [&'static str; 15] = [
        "Note",
        "note",
        "loop",
        "alt",
        "else",
        "opt",
        "par",
        "break",
        "activate",
        "deactivate",
        "rect",
        "autonumber",
        "title",
        "accTitle",
        "accDescr",
    ];
    assert(views(keywords@) =~= unsupported_in_sequence());
    find_keyword(t, keywords.as_slice())
}

/// A sequence that is being read.
#[verifier::ext_equal]
pub struct SeqView {
    /// The participants.
    pub participants: Seq<ParticipantView>,
    /// The messages.
    pub items: Seq<SequenceItemView>,
    /// The errors.
    pub errors: Seq<DiagnosticView>,
}

/// A sequence that is being read.
pub struct SeqState {
    participants: Keyed<Participant>,
    items: Vec<SequenceItem>,
    errors: Vec<Diagnostic>,
}

impl View for SeqState {
    type V = SeqView;

    closed spec fn view(&self) -> SeqView {
        SeqView {
            participants: self.participants@,
            items: views(self.items@),
            errors: views(self.errors@),
        }
    }
}

/// Nothing read yet.
pub open spec fn seq_start(errors: Seq<DiagnosticView>) -> SeqView {
    SeqView { participants: Seq::empty(), items: Seq::empty(), errors }
}

/// The error `message` about the line `l`.
pub open spec fn seq_error(st: SeqView, message: Seq<char>, l: LineView) -> SeqView {
    SeqView { errors: st.errors.push(diagnostic(message, l.start, l.end)), ..st }
}

/// A mention declares its participant where it is the first one.
pub open spec fn ensure_participant(st: SeqView, id: Seq<char>, label: Option<Seq<char>>) -> SeqView {
    if has_key(st.participants, id) {
        st
    } else {
        SeqView {
            participants: st.participants.push(
                ParticipantView {
                    id,
                    label: match label {
                        Some(l) => l,
                        None => id,
                    },
                    kind: ParticipantKind::Default,
                },
            ),
            ..st
        }
    }
}

/// The id and the label of a participant: `X as Label`, or `X`.
pub open spec fn participant_parts(rest: Seq<char>) -> (Seq<char>, Option<Seq<char>>) {
    match text_index(rest, " as "@) {
        Some(k) => (trim(rest.take(k)), Some(trim(rest.skip(k + 4)))),
        None => (rest, None),
    }
}

/// The declaration of a participant.
pub open spec fn declare_participant(st: SeqView, rest: Seq<char>, l: LineView) -> SeqView {
    let (id, label) = participant_parts(rest);
    if id.len() == 0 {
        seq_error(st, "expected participant identifier"@, l)
    } else {
        ensure_participant(st, id, label)
    }
}

/// A message: its ends are declared where they are not yet.
pub open spec fn add_message(st: SeqView, m: MessageView) -> SeqView {
    let declared = ensure_participant(ensure_participant(st, m.from, None), m.to, None);
    SeqView { items: declared.items.push(SequenceItemView::Message(m)), ..declared }
}

/// What the line `l` does.
pub open spec fn seq_line(st: SeqView, l: LineView) -> SeqView {
    let t = trim(l.text);
    if has_char(t, ';') {
        seq_error(st, semicolon(), l)
    } else {
        match keyword_at_start(t, unsupported_in_sequence()) {
            Some(k) => seq_error(st, unsupported(k), l),
            None => if t == "end"@ {
                st
            } else {
                match after_prefix(t, "participant "@) {
                    Some(rest) => declare_participant(st, trim(rest), l),
                    None => match after_prefix(t, "actor "@) {
                        Some(rest) => declare_participant(st, trim(rest), l),
                        None => match seq_message(t) {
                            Some(m) => add_message(st, m),
                            None => seq_error(st, unrecognised(t), l),
                        },
                    },
                }
            },
        }
    }
}

/// What the first `n` lines do.
pub open spec fn seq_lines(st: SeqView, lines: Seq<LineView>, n: int) -> SeqView
    decreases n,
{
    if n <= 0 {
        st
    } else {
        seq_line(seq_lines(st, lines, n - 1), lines[n - 1])
    }
}

/// What the sequence `lines` comes to.
pub open spec fn sequence(lines: Seq<LineView>, errors: Seq<DiagnosticView>) -> ParsedView {
    let st = seq_lines(seq_start(errors), lines, lines.len() as int);
    verdict(
        DiagramView::Sequence(
            SequenceDiagramView { participants: st.participants, items: st.items },
        ),
        st.errors,
    )
}

impl SeqState {
    /// The participants are in order.
    pub closed spec fn wf(&self) -> bool {
        self.participants.wf()
    }

    fn error(&mut self, message: String, l: &Line)
        requires
            old(self).wf(),
        ensures
            final(self).wf(),
            final(self)@ == seq_error(old(self)@, message@, l@),
    {
        report(&mut self.errors, message, l.start, l.end);
    }

    fn ensure_participant(&mut self, id: &String, label: Option<String>)
        requires
            old(self).wf(),
        ensures
            final(self).wf(),
            final(self)@ == ensure_participant(old(self)@, id@, opt_view(label)),
    {
        if self.participants.find(id).is_none() {
            let label = match label {
                Some(l) => l,
                None => id.clone(),
            };
            self.participants.push(
                Participant { id: id.clone(), label, kind: ParticipantKind::Default },
            );
        }
    }

    fn declare(&mut self, rest: &[char], l: &Line)
        requires
            old(self).wf(),
        ensures
            final(self).wf(),
            final(self)@ == declare_participant(old(self)@, rest@, l@),
    {
        let (id, label) = match find_text(rest, " as ") {
            Some(k) => {
                proof {
                    reveal_strlit(" as ");
                }
                let len: usize = rest.len();
                (to_string(trim_of(take(rest, k))), Some(to_string(trim_of(skip(rest, k + 4)))))
            },
            None => (to_string(rest), None),
        };
        if id.as_str().unicode_len() == 0 {
            self.error(String::from_str("expected participant identifier"), l);
        } else {
            self.ensure_participant(&id, label);
        }
    }

    fn line(&mut self, l: &Line)
        requires
            old(self).wf(),
        ensures
            final(self).wf(),
            final(self)@ == seq_line(old(self)@, l@),
    {
        broadcast use lemma_views_push;

        let t = trim_of(l.text);
        if contains_char(t, ';') {
            self.error(semicolon_message(), l);
            return;
        }
        match find_unsupported(t) {
            Some(k) => {
                self.error(unsupported_message(k), l);
                return;
            },
            None => {},
        }
        if equals(t, "end") {
            return;
        }
        match strip_prefix(t, "participant ") {
            Some(rest) => {
                self.declare(trim_of(rest), l);
                return;
            },
            None => {},
        }
        match strip_prefix(t, "actor ") {
            Some(rest) => {
                self.declare(trim_of(rest), l);
                return;
            },
            None => {},
        }
        match try_parse_seq_message(t) {
            Some(m) => {
                self.ensure_participant(&m.from, None);
                self.ensure_participant(&m.to, None);
                self.items.push(SequenceItem::Message(m));
            },
            None => {
                self.error(unrecognised_message(t), l);
            },
        }
    }
}

/// Reads the statements of a sequence diagram; `errors` are those found before.
pub fn parse_sequence(lines: &[Line], errors: Vec<Diagnostic>) -> (r: Result<
    Diagram,
    Vec<Diagnostic>,
>)
    ensures
        parsed(r) == sequence(views(lines@), views(errors@)),
{
    let mut st = SeqState { participants: Keyed::new(), items: Vec::new(), errors };
    let ghost start = st@;
    let ghost all = views(lines@);
    assert(start =~= seq_start(views(errors@)));
    let mut i: usize = 0;
    while i < lines.len()
        invariant
            i <= lines@.len(),
            all == views(lines@),
            st.wf(),
            st@ == seq_lines(start, all, i as int),
        decreases lines@.len() - i,
    {
        st.line(&lines[i]);
        i = i + 1;
    }
    let SeqState { participants, items, errors } = st;
    let participants = participants.into_items();
    conclude(Diagram::Sequence(SequenceDiagram { participants, items }), errors)
}

// ---------------------------------------------------------------------------
// Laws
// ---------------------------------------------------------------------------

/// What holds after every line of a source of `len` bytes.
pub open spec fn seq_ok(st: SeqView, len: int) -> bool {
    &&& sound_sequence(SequenceDiagramView { participants: st.participants, items: st.items })
    &&& within(st.errors, len)
}

proof fn lemma_ensure_participant(
    st: SeqView,
    id: Seq<char>,
    label: Option<Seq<char>>,
    len: int,
)
    requires
        seq_ok(st, len),
    ensures
        seq_ok(ensure_participant(st, id, label), len),
        grown(st.participants, ensure_participant(st, id, label).participants),
        has_key(ensure_participant(st, id, label).participants, id),
{
    let after = ensure_participant(st, id, label);
    if !has_key(st.participants, id) {
        lemma_distinct_push(st.participants, after.participants.last());
        lemma_has_key(after.participants, st.participants.len() as int);
    }
    lemma_grown(st.participants, after.participants);
}

proof fn lemma_seq_line(st: SeqView, l: LineView, len: int)
    requires
        seq_ok(st, len),
        line_wf(l),
        l.end <= len,
    ensures
        seq_ok(seq_line(st, l), len),
        grown(st.participants, seq_line(st, l).participants),
{
    let t = trim(l.text);
    if !has_char(t, ';') && keyword_at_start(t, unsupported_in_sequence()) is None && t != "end"@ {
        match after_prefix(t, "participant "@) {
            Some(rest) => {
                let (id, label) = participant_parts(trim(rest));
                lemma_ensure_participant(st, id, label, len);
            },
            None => match after_prefix(t, "actor "@) {
                Some(rest) => {
                    let (id, label) = participant_parts(trim(rest));
                    lemma_ensure_participant(st, id, label, len);
                },
                None => match seq_message(t) {
                    Some(m) => {
                        let a = ensure_participant(st, m.from, None);
                        let b = ensure_participant(a, m.to, None);
                        lemma_ensure_participant(st, m.from, None, len);
                        lemma_ensure_participant(a, m.to, None, len);
                        lemma_grown(a.participants, b.participants);
                    },
                    None => {},
                },
            },
        }
    }
}

/// Whatever the lines say, no participant is there twice, both ends of a message
/// are participants, and the errors are within the source. Participants keep
/// their order.
pub proof fn law_seq_lines(errors: Seq<DiagnosticView>, lines: Seq<LineView>, n: int, len: int)
    requires
        lines_within(lines, len),
        within(errors, len),
        0 <= n <= lines.len(),
    ensures
        seq_ok(seq_lines(seq_start(errors), lines, n), len),
        n > 0 ==> grown(
            seq_lines(seq_start(errors), lines, n - 1).participants,
            seq_lines(seq_start(errors), lines, n).participants,
        ),
    decreases n,
{
    if n > 0 {
        law_seq_lines(errors, lines, n - 1, len);
        lemma_seq_line(seq_lines(seq_start(errors), lines, n - 1), lines[n - 1], len);
    }
}

/// A sequence diagram that is accepted is sound. One that is refused has an
/// error, and all errors are within the source.
pub proof fn law_sequence(lines: Seq<LineView>, errors: Seq<DiagnosticView>, len: int)
    requires
        lines_within(lines, len),
        within(errors, len),
    ensures
        owed(sequence(lines, errors), len),
{
    law_seq_lines(errors, lines, lines.len() as int, len);
}

/// The first declaration or mention of a participant is the one that counts.
pub proof fn law_first_participant_wins(st: SeqView, id: Seq<char>, label: Option<Seq<char>>)
    requires
        has_key(st.participants, id),
    ensures
        ensure_participant(st, id, label) == st,
{
}

/// Whether a line of a sequence diagram declares a participant.
pub open spec fn declares(t: Seq<char>) -> bool {
    match after_prefix(t, "participant "@) {
        Some(rest) => participant_parts(trim(rest)).0.len() > 0,
        None => match after_prefix(t, "actor "@) {
            Some(rest) => participant_parts(trim(rest)).0.len() > 0,
            None => false,
        },
    }
}

/// The message on a line of a sequence diagram.
pub open spec fn message_on(l: LineView) -> Option<MessageView> {
    let t = trim(l.text);
    if has_char(t, ';') || keyword_at_start(t, unsupported_in_sequence()) is Some || t == "end"@
        || after_prefix(t, "participant "@) is Some || after_prefix(t, "actor "@) is Some {
        None
    } else {
        seq_message(t)
    }
}

/// Whether a line of a sequence diagram is understood.
pub open spec fn understood(l: LineView) -> bool {
    trim(l.text) == "end"@ || declares(trim(l.text)) || message_on(l) is Some
}

/// The messages on the first `n` lines.
pub open spec fn messages(lines: Seq<LineView>, n: int) -> Seq<SequenceItemView>
    decreases n,
{
    if n <= 0 {
        Seq::empty()
    } else {
        match message_on(lines[n - 1]) {
            Some(m) => messages(lines, n - 1).push(SequenceItemView::Message(m)),
            None => messages(lines, n - 1),
        }
    }
}

/// No line is passed over: every message is kept, in the order of the lines, and
/// where there is no error, every line is `end`, a declaration or a message.
pub proof fn law_no_line_is_passed_over(
    errors: Seq<DiagnosticView>,
    lines: Seq<LineView>,
    n: int,
)
    requires
        0 <= n <= lines.len(),
    ensures
        seq_lines(seq_start(errors), lines, n).items == messages(lines, n),
        seq_lines(seq_start(errors), lines, n).errors.len() >= errors.len(),
        seq_lines(seq_start(errors), lines, n).errors.len() == errors.len() ==> forall|i: int|
            0 <= i < n ==> understood(#[trigger] lines[i]),
    decreases n,
{
    if n > 0 {
        law_no_line_is_passed_over(errors, lines, n - 1);
        let before = seq_lines(seq_start(errors), lines, n - 1);
        let l = lines[n - 1];
        let after = seq_line(before, l);
        assert(after.errors.len() >= before.errors.len());
        assert(after.errors.len() == before.errors.len() ==> understood(l));
    }
}

} // verus!
