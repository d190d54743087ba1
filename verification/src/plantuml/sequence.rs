//! Sequence diagrams.
use crate::diag::{diagnostic, report, Diagnostic, DiagnosticView};
use crate::ir::{
    distinct_keys, has_key, lemma_distinct_push, ArrowType, LineStyle, Message, MessageView,
    Participant, ParticipantKind, ParticipantView, SequenceDiagram, SequenceDiagramView,
    SequenceItem, SequenceItemView,
};
use crate::keywords::{
    find_keyword, keyword_at_start, unrecognised, unrecognised_message, unsupported,
    unsupported_message,
};
use crate::lines::{Line, LineView};
use crate::mermaid::edges::{nonempty, some_text};
use crate::plantuml::scan::{
    is_valid_participant_id, participant_decl, participant_id, try_parse_participant_decl,
};
use crate::sound::{grown, lemma_grown, lemma_has_key, lines_within, sound_sequence, within};
use crate::table::Keyed;
use crate::text::{
    begins, char_index, contains_text, equals, find_char, find_text, has_prefix, has_text,
    lemma_views_push, opt_view, same_string, skip, starts_with, starts_with_char, take,
    text_index, to_string, trim, trim_of, trim_start, trim_start_of, views,
};
use vstd::prelude::*;

verus! {

// ---------------------------------------------------------------------------
// Messages
// ---------------------------------------------------------------------------

/// The receiver of a message, and the text after a colon.
pub open spec fn receiver(after: Seq<char>) -> (Seq<char>, Option<Seq<char>>) {
    match char_index(after, ':') {
        Some(k) => (trim(after.take(k)), some_text(trim(after.skip(k + 1)))),
        None => (trim(after), None),
    }
}

/// The message on a line, given one form of arrow.
pub open spec fn message_form(line: Seq<char>, arrow: Seq<char>, style: LineStyle) -> Option<
    MessageView,
> {
    match text_index(line, arrow) {
        Some(k) => {
            let from = trim(line.take(k));
            let (to, label) = receiver(trim_start(line.skip(k + arrow.len())));
            if participant_id(from) && participant_id(to) {
                Some(MessageView { from, to, label, line: style, arrow: ArrowType::Triangle })
            } else {
                None
            }
        },
        None => None,
    }
}

/// The first of two readings.
pub open spec fn first_of(a: Option<MessageView>, b: Option<MessageView>) -> Option<MessageView> {
    match a {
        Some(m) => Some(m),
        None => b,
    }
}

/// The message on a line. A longer arrow comes before one that it begins with.
pub open spec fn message_of(line: Seq<char>) -> Option<MessageView> {
    first_of(
        message_form(line, "-->>"@, LineStyle::Dashed),
        first_of(
            message_form(line, "-->"@, LineStyle::Dashed),
            first_of(
                message_form(line, "->>"@, LineStyle::Solid),
                message_form(line, "->"@, LineStyle::Solid),
            ),
        ),
    )
}

/// The index of the arrow of a lost or found message.
pub open spec fn lost_arrow(line: Seq<char>) -> Option<int> {
    match text_index(line, "->x"@) {
        Some(k) => Some(k),
        None => text_index(line, "->o"@),
    }
}

/// Whether a line is a lost or found message.
pub open spec fn is_lost(line: Seq<char>) -> bool {
    match lost_arrow(line) {
        Some(k) => participant_id(trim(line.take(k))),
        None => false,
    }
}

/// What a line is read as: nothing, an error, or a message.
pub open spec fn plantuml_message(line: Seq<char>) -> Option<Result<MessageView, Seq<char>>> {
    if has_text(line, "-["@) {
        Some(Err("unsupported: colored arrows (`-[#color]>`) are not supported"@))
    } else if is_lost(line) {
        Some(Err("unsupported: lost/found messages (`->x` / `->o`) are not supported"@))
    } else {
        match message_of(line) {
            Some(m) => Some(Ok(m)),
            None => None,
        }
    }
}

/// The model of what a line is read as.
pub open spec fn message_result(r: Option<Result<Message, String>>) -> Option<
    Result<MessageView, Seq<char>>,
> {
    match r {
        Some(Ok(m)) => Some(Ok(m@)),
        Some(Err(e)) => Some(Err(e@)),
        None => None,
    }
}

fn try_form(line: &[char], arrow: &str, style: LineStyle) -> (r: Option<Message>)
    ensures
        opt_view(r) == message_form(line@, arrow@, style),
{
    match find_text(line, arrow) {
        Some(k) => {
            let len: usize = line.len();
            let from = trim_of(take(line, k));
            let after = trim_start_of(skip(line, k + arrow.unicode_len()));
            let (to, label) = match find_char(after, ':') {
                Some(c) => {
                    let after_len: usize = after.len();
                    (trim_of(take(after, c)), nonempty(trim_of(skip(after, c + 1))))
                },
                None => (trim_of(after), None),
            };
            if is_valid_participant_id(from) && is_valid_participant_id(to) {
                Some(
                    Message {
                        from: to_string(from),
                        to: to_string(to),
                        label,
                        line: style,
                        arrow: ArrowType::Triangle,
                    },
                )
            } else {
                None
            }
        },
        None => None,
    }
}

/// What a line is read as: nothing, an error, or a message.
pub fn try_parse_plantuml_message(line: &[char]) -> (r: Option<Result<Message, String>>)
    ensures
        message_result(r) == plantuml_message(line@),
{
    if contains_text(line, "-[") {
        return Some(
            Err(
                String::from_str("unsupported: colored arrows (`-[#color]>`) are not supported"),
            ),
        );
    }
    let lost = match find_text(line, "->x") {
        Some(k) => Some(k),
        None => find_text(line, "->o"),
    };
    match lost {
        Some(k) => {
            if is_valid_participant_id(trim_of(take(line, k))) {
                return Some(
                    Err(
                        String::from_str(
                            "unsupported: lost/found messages (`->x` / `->o`) are not supported",
                        ),
                    ),
                );
            }
        },
        None => {},
    }
    match try_form(line, "-->>", LineStyle::Dashed) {
        Some(m) => {
            return Some(Ok(m));
        },
        None => {},
    }
    match try_form(line, "-->", LineStyle::Dashed) {
        Some(m) => {
            return Some(Ok(m));
        },
        None => {},
    }
    match try_form(line, "->>", LineStyle::Solid) {
        Some(m) => {
            return Some(Ok(m));
        },
        None => {},
    }
    match try_form(line, "->", LineStyle::Solid) {
        Some(m) => Some(Ok(m)),
        None => None,
    }
}

// ---------------------------------------------------------------------------
// Errors
// ---------------------------------------------------------------------------

/// The statements that are not supported.
pub open spec fn unsupported_in_sequence() -> Seq<Seq<char>> {
    seq![
        "note"@,
        "hnote"@,
        "rnote"@,
        "alt"@,
        "else"@,
        "opt"@,
        "loop"@,
        "par"@,
        "break"@,
        "critical"@,
        "group"@,
        "activate"@,
        "deactivate"@,
        "destroy"@,
        "create"@,
        "return"@,
        "autonumber"@,
        "title"@,
        "header"@,
        "footer"@,
        "newpage"@,
        "box"@,
        "ref"@,
        "hide"@,
        "show"@,
        "skinparam"@,
    ]
}

fn find_unsupported(t: &[char]) -> (r: Option<&'static str>)
    ensures
        opt_view(r) == keyword_at_start(t@, unsupported_in_sequence()),
{
    let keywords: [&'static str; 26] = [
        "note",
        "hnote",
        "rnote",
        "alt",
        "else",
        "opt",
        "loop",
        "par",
        "break",
        "critical",
        "group",
        "activate",
        "deactivate",
        "destroy",
        "create",
        "return",
        "autonumber",
        "title",
        "header",
        "footer",
        "newpage",
        "box",
        "ref",
        "hide",
        "show",
        "skinparam",
    ];
    assert(views(keywords@) =~= unsupported_in_sequence());
    find_keyword(t, keywords.as_slice())
}

/// The message about preprocessor lines.
pub open spec fn preprocessor() -> Seq<char> {
    "unsupported: PlantUML preprocessor directives (`!...`) are not supported; kozue targets a preprocessor-free subset"@
}

/// The message about preprocessor lines.
pub fn preprocessor_message() -> (r: String)
    ensures
        r@ == preprocessor(),
{
    String::from_str(
        "unsupported: PlantUML preprocessor directives (`!...`) are not supported; kozue targets a preprocessor-free subset",
    )
}

/// The ids declared so far, and the errors found so far.
#[verifier::ext_equal]
pub struct CheckView {
    pub declared: Seq<Seq<char>>,
    pub errors: Seq<DiagnosticView>,
}

/// The error `message` about the line `l`.
pub open spec fn check_error(st: CheckView, message: Seq<char>, l: LineView) -> CheckView {
    CheckView { errors: st.errors.push(diagnostic(message, l.start, l.end)), ..st }
}

/// A statement that declares no participant.
pub open spec fn check_statement(st: CheckView, t: Seq<char>, l: LineView) -> CheckView {
    match plantuml_message(t) {
        Some(Ok(_)) => st,
        Some(Err(m)) => check_error(st, m, l),
        None => if t == "end"@ {
            st
        } else {
            match keyword_at_start(t, unsupported_in_sequence()) {
                Some(k) => check_error(st, unsupported(k), l),
                None => check_error(st, unrecognised(t), l),
            }
        },
    }
}

/// The declaration of `id`.
pub open spec fn check_decl(st: CheckView, id: Seq<char>, l: LineView) -> CheckView {
    if st.declared.contains(id) {
        check_error(st, "duplicate participant id `"@ + id + "`"@, l)
    } else {
        CheckView { declared: st.declared.push(id), ..st }
    }
}

/// What is wrong with the line `l`.
pub open spec fn check_line(st: CheckView, l: LineView) -> CheckView {
    let t = trim(l.text);
    if t.len() == 0 {
        st
    } else if begins(t, '!') {
        check_error(st, preprocessor(), l)
    } else if has_prefix(t, "=="@) {
        check_error(st, "unsupported: == dividers are not supported"@, l)
    } else if has_prefix(t, "..."@) || has_prefix(t, "||"@) {
        check_error(st, "unsupported: delay markers (`...` / `||`) are not supported"@, l)
    } else {
        match participant_decl(t) {
            Some((id, _)) => check_decl(st, id, l),
            None => check_statement(st, t, l),
        }
    }
}

/// What is wrong with the first `n` lines.
pub open spec fn check_lines(st: CheckView, lines: Seq<LineView>, n: int) -> CheckView
    decreases n,
{
    if n <= 0 {
        st
    } else {
        check_line(check_lines(st, lines, n - 1), lines[n - 1])
    }
}

/// The errors with those of the statements of a sequence.
pub open spec fn sequence_errors(lines: Seq<LineView>, errors: Seq<DiagnosticView>) -> Seq<
    DiagnosticView,
> {
    check_lines(
        CheckView { declared: Seq::empty(), errors },
        lines,
        lines.len() as int,
    ).errors
}

/// The errors found so far, and the ids declared so far.
pub struct Check {
    declared: Vec<String>,
    errors: Vec<Diagnostic>,
}

impl View for Check {
    type V = CheckView;

    closed spec fn view(&self) -> CheckView {
        CheckView { declared: views(self.declared@), errors: views(self.errors@) }
    }
}

/// Whether `id` is among `ids`.
pub fn contains_string(ids: &Vec<String>, id: &String) -> (r: bool)
    ensures
        r == views(ids@).contains(id@),
{
    let ghost all = views(ids@);
    let mut i: usize = 0;
    while i < ids.len()
        invariant
            i <= ids@.len(),
            all == views(ids@),
            forall|k: int| 0 <= k < i ==> all[k] != id@,
        decreases ids@.len() - i,
    {
        assert(all[i as int] == ids@[i as int]@);
        if same_string(&ids[i], id) {
            return true;
        }
        i = i + 1;
    }
    false
}

impl Check {
    fn error(&mut self, message: String, l: &Line)
        ensures
            final(self)@ == check_error(old(self)@, message@, l@),
    {
        report(&mut self.errors, message, l.start, l.end);
    }

    fn error_str(&mut self, message: &str, l: &Line)
        ensures
            final(self)@ == check_error(old(self)@, message@, l@),
    {
        self.error(String::from_str(message), l);
    }

    fn statement(&mut self, t: &[char], l: &Line)
        ensures
            final(self)@ == check_statement(old(self)@, t@, l@),
    {
        match try_parse_plantuml_message(t) {
            Some(Ok(_)) => {
                return;
            },
            Some(Err(m)) => {
                self.error(m, l);
                return;
            },
            None => {},
        }
        if equals(t, "end") {
            return;
        }
        match find_unsupported(t) {
            Some(k) => {
                self.error(unsupported_message(k), l);
            },
            None => {
                self.error(unrecognised_message(t), l);
            },
        }
    }

    fn line(&mut self, l: &Line)
        ensures
            final(self)@ == check_line(old(self)@, l@),
    {
        broadcast use lemma_views_push;

        let t = trim_of(l.text);
        if t.len() == 0 {
            return;
        }
        if starts_with_char(t, '!') {
            self.error(preprocessor_message(), l);
        } else if starts_with(t, "==") {
            self.error_str("unsupported: == dividers are not supported", l);
        } else if starts_with(t, "...") || starts_with(t, "||") {
            self.error_str("unsupported: delay markers (`...` / `||`) are not supported", l);
        } else {
            match try_parse_participant_decl(t) {
                Some((id, _)) => {
                    if contains_string(&self.declared, &id) {
                        let mut message = String::from_str("duplicate participant id `");
                        message.append(id.as_str());
                        message.append("`");
                        self.error(message, l);
                    } else {
                        self.declared.push(id);
                    }
                },
                None => {
                    self.statement(t, l);
                },
            }
        }
    }
}

/// Adds the errors of the statements of a sequence.
pub fn parse_sequence_body(lines: &[Line], errors: Vec<Diagnostic>) -> (r: Vec<Diagnostic>)
    ensures
        views(r@) == sequence_errors(views(lines@), views(errors@)),
{
    let mut st = Check { declared: Vec::new(), errors };
    let ghost start = st@;
    let ghost all = views(lines@);
    assert(start =~= (CheckView { declared: Seq::empty(), errors: views(errors@) }));
    let mut i: usize = 0;
    while i < lines.len()
        invariant
            i <= lines@.len(),
            all == views(lines@),
            st@ == check_lines(start, all, i as int),
        decreases lines@.len() - i,
    {
        st.line(&lines[i]);
        i = i + 1;
    }
    st.errors
}

// ---------------------------------------------------------------------------
// The diagram
// ---------------------------------------------------------------------------

/// A mention declares its participant where it is the first one.
pub open spec fn with_participant(
    participants: Seq<ParticipantView>,
    id: Seq<char>,
    label: Option<Seq<char>>,
) -> Seq<ParticipantView> {
    if has_key(participants, id) {
        participants
    } else {
        participants.push(
            ParticipantView {
                id,
                label: match label {
                    Some(l) => l,
                    None => id,
                },
                kind: ParticipantKind::Default,
            },
        )
    }
}

/// What the line `l` adds.
pub open spec fn build_line(d: SequenceDiagramView, l: LineView) -> SequenceDiagramView {
    let t = trim(l.text);
    if t.len() == 0 || t == "end"@ {
        d
    } else {
        match participant_decl(t) {
            Some((id, label)) => SequenceDiagramView {
                participants: with_participant(d.participants, id, label),
                ..d
            },
            None => match plantuml_message(t) {
                Some(Ok(m)) => SequenceDiagramView {
                    participants: with_participant(
                        with_participant(d.participants, m.from, None),
                        m.to,
                        None,
                    ),
                    items: d.items.push(SequenceItemView::Message(m)),
                },
                _ => d,
            },
        }
    }
}

/// What the first `n` lines add.
pub open spec fn build_lines(lines: Seq<LineView>, n: int) -> SequenceDiagramView
    decreases n,
{
    if n <= 0 {
        SequenceDiagramView { participants: Seq::empty(), items: Seq::empty() }
    } else {
        build_line(build_lines(lines, n - 1), lines[n - 1])
    }
}

fn ensure_participant(participants: &mut Keyed<Participant>, id: &String, label: Option<String>)
    requires
        old(participants).wf(),
    ensures
        final(participants).wf(),
        final(participants)@ == with_participant(old(participants)@, id@, opt_view(label)),
{
    if participants.find(id).is_none() {
        let label = match label {
            Some(l) => l,
            None => id.clone(),
        };
        participants.push(Participant { id: id.clone(), label, kind: ParticipantKind::Default });
    }
}

fn add_line(participants: &mut Keyed<Participant>, items: &mut Vec<SequenceItem>, l: &Line)
    requires
        old(participants).wf(),
    ensures
        final(participants).wf(),
        ({
            let before = SequenceDiagramView {
                participants: old(participants)@,
                items: views(old(items)@),
            };
            let after = build_line(before, l@);
            final(participants)@ == after.participants && views(final(items)@) == after.items
        }),
{
    broadcast use lemma_views_push;

    let t = trim_of(l.text);
    if t.len() == 0 || equals(t, "end") {
        return;
    }
    match try_parse_participant_decl(t) {
        Some((id, label)) => {
            ensure_participant(participants, &id, label);
        },
        None => match try_parse_plantuml_message(t) {
            Some(Ok(m)) => {
                ensure_participant(participants, &m.from, None);
                ensure_participant(participants, &m.to, None);
                items.push(SequenceItem::Message(m));
            },
            Some(Err(_)) => {},
            None => {},
        },
    }
}

/// The sequence that the statements make.
pub fn parse_sequence_clean(lines: &[Line]) -> (r: SequenceDiagram)
    ensures
        r@ == build_lines(views(lines@), lines@.len() as int),
{
    let mut participants: Keyed<Participant> = Keyed::new();
    let mut items: Vec<SequenceItem> = Vec::new();
    let ghost all = views(lines@);
    assert(views(items@) =~= build_lines(all, 0).items);
    let mut i: usize = 0;
    while i < lines.len()
        invariant
            i <= lines@.len(),
            all == views(lines@),
            participants.wf(),
            participants@ == build_lines(all, i as int).participants,
            views(items@) == build_lines(all, i as int).items,
        decreases lines@.len() - i,
    {
        assert(all[i as int] == lines@[i as int]@);
        add_line(&mut participants, &mut items, &lines[i]);
        i = i + 1;
    }
    SequenceDiagram { participants: participants.into_items(), items }
}

// ---------------------------------------------------------------------------
// Laws
// ---------------------------------------------------------------------------

/// Whether a line of a sequence diagram is understood.
pub open spec fn understood(l: LineView) -> bool {
    let t = trim(l.text);
    t.len() == 0 || t == "end"@ || participant_decl(t) is Some || (plantuml_message(t) matches Some(
        Ok(_),
    ))
}

/// The messages that the first `n` lines hold.
pub open spec fn messages(lines: Seq<LineView>, n: int) -> Seq<SequenceItemView>
    decreases n,
{
    if n <= 0 {
        Seq::empty()
    } else {
        let t = trim(lines[n - 1].text);
        match plantuml_message(t) {
            Some(Ok(m)) => if t.len() > 0 && t != "end"@ && participant_decl(t) is None {
                messages(lines, n - 1).push(SequenceItemView::Message(m))
            } else {
                messages(lines, n - 1)
            },
            _ => messages(lines, n - 1),
        }
    }
}

proof fn lemma_check_lines(st: CheckView, lines: Seq<LineView>, n: int, len: int)
    requires
        within(st.errors, len),
        lines_within(lines, len),
        0 <= n <= lines.len(),
    ensures
        within(check_lines(st, lines, n).errors, len),
        check_lines(st, lines, n).errors.len() >= st.errors.len(),
        check_lines(st, lines, n).errors.len() == st.errors.len() ==> forall|i: int|
            0 <= i < n ==> understood(#[trigger] lines[i]),
    decreases n,
{
    if n > 0 {
        lemma_check_lines(st, lines, n - 1, len);
        let l = lines[n - 1];
        let before = check_lines(st, lines, n - 1);
        let after = check_line(before, l);
        assert(within(after.errors, len) && after.errors.len() >= before.errors.len());
        assert(after.errors.len() == before.errors.len() ==> understood(l));
    }
}

proof fn lemma_with_participant(
    participants: Seq<ParticipantView>,
    id: Seq<char>,
    label: Option<Seq<char>>,
)
    requires
        distinct_keys(participants),
    ensures
        distinct_keys(with_participant(participants, id, label)),
        grown(participants, with_participant(participants, id, label)),
        has_key(with_participant(participants, id, label), id),
{
    let after = with_participant(participants, id, label);
    if !has_key(participants, id) {
        lemma_distinct_push(participants, after.last());
        lemma_has_key(after, participants.len() as int);
    }
}

/// The diagram that the first `n` lines make is sound, and it holds every
/// message of theirs, in their order.
pub proof fn law_messages_are_kept(lines: Seq<LineView>, n: int)
    ensures
        sound_sequence(build_lines(lines, n)),
        build_lines(lines, n).items == messages(lines, n),
    decreases n,
{
    if n > 0 {
        law_messages_are_kept(lines, n - 1);
        let d = build_lines(lines, n - 1);
        let t = trim(lines[n - 1].text);
        match participant_decl(t) {
            Some((id, label)) => {
                lemma_with_participant(d.participants, id, label);
                lemma_grown(d.participants, with_participant(d.participants, id, label));
            },
            None => {
                if let Some(Ok(m)) = plantuml_message(t) {
                    let a = with_participant(d.participants, m.from, None);
                    let b = with_participant(a, m.to, None);
                    lemma_with_participant(d.participants, m.from, None);
                    lemma_with_participant(a, m.to, None);
                    lemma_grown(d.participants, a);
                    lemma_grown(a, b);
                }
            },
        }
    }
}

/// No line of a sequence diagram is passed over: where there is no error, every
/// line is blank, `end`, a declaration or a message. All errors are within the
/// source.
pub proof fn law_no_line_is_passed_over(
    lines: Seq<LineView>,
    errors: Seq<DiagnosticView>,
    len: int,
)
    requires
        within(errors, len),
        lines_within(lines, len),
    ensures
        within(sequence_errors(lines, errors), len),
        sequence_errors(lines, errors).len() == 0 ==> forall|i: int|
            0 <= i < lines.len() ==> understood(#[trigger] lines[i]),
{
    lemma_check_lines(
        CheckView { declared: Seq::empty(), errors },
        lines,
        lines.len() as int,
        len,
    );
}

} // verus!
