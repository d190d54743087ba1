//! State diagrams.
use crate::diag::{report, Diagnostic, DiagnosticView};
use crate::ir::{
    distinct_keys, has_key, lemma_distinct_push, Endpoint, EndpointView, State, StateDiagram,
    StateDiagramView, StateView, Transition, TransitionView,
};
use crate::keywords::{
    find_keyword, keyword_at_start, unrecognised, unrecognised_message, unsupported,
    unsupported_message,
};
use crate::lines::{Line, LineView};
use crate::mermaid::edges::{nonempty, some_text};
use crate::mermaid::state::{
    decl_result, endpoint_result, ensure_endpoint, join_ends, lemma_with_endpoint, with_endpoint,
};
use crate::plantuml::scan::{
    after_word, ascii_word_end, equals_any_case, is_single_token, is_valid_participant_id,
    keyword_and_rest, lemma_ascii_word_end, participant_id, same_any_case, single_token,
    split_keyword, strip_keyword_boundary_ci,
};
use crate::plantuml::sequence::{
    check_error, contains_string, preprocessor, preprocessor_message, CheckView,
};
use crate::sound::{lemma_grown, lines_within, sound_states, within};
use crate::table::Keyed;
use crate::text::{
    at_most, begins, char_index, clip, contains_char, contains_text, equals, find_char, find_text,
    has_char, has_text, lemma_char_from, lemma_past_white, lemma_text_from, lemma_trim_first,
    lemma_trim_len, lemma_views_push, opt_view, skip, starts_with_char, surround, take,
    text_index, to_string, trim, trim_of, trim_start, upper, upper_char, views,
};
use vstd::prelude::*;

verus! {

// ---------------------------------------------------------------------------
// Declarations
// ---------------------------------------------------------------------------

/// The declaration `"label" as id`, without its first quote.
pub open spec fn quoted_state(s: Seq<char>) -> Result<(Seq<char>, Seq<char>), Seq<char>> {
    match char_index(s, '"') {
        Some(k) => match after_word(trim(s.skip(k + 1)), "as"@) {
            Some(r) => if single_token(trim(r)) {
                Ok((trim(r), s.take(k)))
            } else {
                Err("invalid state identifier `"@ + at_most(trim(r), 40) + "`"@)
            },
            None => Err("expected `as <id>` after quoted state description"@),
        },
        None => Err("unterminated quoted state description"@),
    }
}

/// The id and the label that a declaration gives: `"label" as id`, or `id`.
pub open spec fn state_decl(rest: Seq<char>) -> Result<(Seq<char>, Seq<char>), Seq<char>> {
    if rest.len() == 0 {
        Err("expected a state identifier after `state`"@)
    } else if begins(rest, '"') {
        quoted_state(rest.skip(1))
    } else if has_char(rest, ':') {
        Err("unsupported: state description (`state s : …`); kozue does not support this yet"@)
    } else if single_token(rest) && participant_id(rest) {
        Ok((rest, rest))
    } else {
        Err("invalid state declaration `"@ + at_most(rest, 40) + "`"@)
    }
}

/// The id and the label that a declaration gives: `"label" as id`, or `id`.
pub fn parse_state_decl_puml(rest: &[char]) -> (r: Result<(String, String), String>)
    ensures
        decl_result(r) == state_decl(rest@),
{
    if rest.len() == 0 {
        return Err(String::from_str("expected a state identifier after `state`"));
    }
    if starts_with_char(rest, '"') {
        let s = skip(rest, 1);
        let k: usize = match find_char(s, '"') {
            Some(k) => k,
            None => {
                return Err(String::from_str("unterminated quoted state description"));
            },
        };
        let len: usize = s.len();
        return match strip_keyword_boundary_ci(trim_of(skip(s, k + 1)), "as") {
            Some(r) => {
                let id = trim_of(r);
                if is_single_token(id) {
                    Ok((to_string(id), to_string(take(s, k))))
                } else {
                    Err(surround("invalid state identifier `", clip(id, 40), "`"))
                }
            },
            None => Err(String::from_str("expected `as <id>` after quoted state description")),
        };
    }
    if contains_char(rest, ':') {
        return Err(
            String::from_str(
                "unsupported: state description (`state s : …`); kozue does not support this yet",
            ),
        );
    }
    if is_single_token(rest) && is_valid_participant_id(rest) {
        Ok((to_string(rest), to_string(rest)))
    } else {
        Err(surround("invalid state declaration `", clip(rest, 40), "`"))
    }
}

/// The declaration on a line that begins with `state`.
pub open spec fn state_statement(t: Seq<char>) -> Option<
    Result<(Seq<char>, Seq<char>), Seq<char>>,
> {
    match keyword_and_rest(t) {
        Some((k, rest)) => if same_any_case(k, "state"@) {
            Some(state_decl(trim(rest)))
        } else {
            None
        },
        None => None,
    }
}

/// The model of a declaration on a line.
pub open spec fn statement_result(r: Option<Result<(String, String), String>>) -> Option<
    Result<(Seq<char>, Seq<char>), Seq<char>>,
> {
    match r {
        Some(d) => Some(decl_result(d)),
        None => None,
    }
}

/// The declaration on a line that begins with `state`.
pub fn try_parse_state_statement(t: &[char]) -> (r: Option<Result<(String, String), String>>)
    ensures
        statement_result(r) == state_statement(t@),
{
    match split_keyword(t) {
        Some((k, rest)) => if equals_any_case(k, "state") {
            Some(parse_state_decl_puml(trim_of(rest)))
        } else {
            None
        },
        None => None,
    }
}

// ---------------------------------------------------------------------------
// Transitions
// ---------------------------------------------------------------------------

/// One end of a transition: `[*]`, which is the initial pseudostate at the
/// source and the final one at the target, or a state's id.
pub open spec fn state_endpoint(part: Seq<char>, is_source: bool) -> Result<EndpointView, Seq<char>> {
    let p = trim(part);
    if p == "[*]"@ {
        Ok(
            if is_source {
                EndpointView::Initial
            } else {
                EndpointView::Final
            },
        )
    } else if single_token(p) && participant_id(p) {
        Ok(EndpointView::State(p))
    } else {
        Err(
            "syntax error: expected a state identifier or `[*]`, got `"@ + at_most(p, 40) + "`"@,
        )
    }
}

/// What stands before the label, and the label.
pub open spec fn ends_and_label(line: Seq<char>) -> (Seq<char>, Option<Seq<char>>) {
    match char_index(line, ':') {
        Some(k) => (trim(line.take(k)), some_text(trim(line.skip(k + 1)))),
        None => (trim(line), None),
    }
}

/// The transition whose arrow of `n` characters stands at index `k`.
pub open spec fn transition_at(ends: Seq<char>, k: int, n: int, label: Option<Seq<char>>) -> Result<
    TransitionView,
    Seq<char>,
> {
    join_ends(
        state_endpoint(trim(ends.take(k)), true),
        state_endpoint(trim(ends.skip(k + n)), false),
        label,
    )
}

/// The transition on a line, where there is an arrow before the label.
pub open spec fn state_transition(line: Seq<char>) -> Option<Result<TransitionView, Seq<char>>> {
    let (ends, label) = ends_and_label(line);
    match text_index(ends, "-->"@) {
        Some(k) => Some(transition_at(ends, k, 3, label)),
        None => match text_index(ends, "->"@) {
            Some(k) => Some(transition_at(ends, k, 2, label)),
            None => None,
        },
    }
}

/// The model of a transition on a line.
pub open spec fn transition_view(r: Option<Result<Transition, String>>) -> Option<
    Result<TransitionView, Seq<char>>,
> {
    match r {
        Some(Ok(t)) => Some(Ok(t@)),
        Some(Err(e)) => Some(Err(e@)),
        None => None,
    }
}

/// One end of a transition.
pub fn parse_state_endpoint_puml(part: &[char], is_source: bool) -> (r: Result<Endpoint, String>)
    ensures
        endpoint_result(r) == state_endpoint(part@, is_source),
{
    let p = trim_of(part);
    if equals(p, "[*]") {
        return if is_source {
            Ok(Endpoint::Initial)
        } else {
            Ok(Endpoint::Final)
        };
    }
    if is_single_token(p) && is_valid_participant_id(p) {
        Ok(Endpoint::State(to_string(p)))
    } else {
        Err(
            surround(
                "syntax error: expected a state identifier or `[*]`, got `",
                clip(p, 40),
                "`",
            ),
        )
    }
}

/// The transition on a line, where there is an arrow before the label.
pub fn try_parse_state_transition(line: &[char]) -> (r: Option<Result<Transition, String>>)
    ensures
        transition_view(r) == state_transition(line@),
{
    let (ends, label) = match find_char(line, ':') {
        Some(c) => {
            let len: usize = line.len();
            (trim_of(take(line, c)), nonempty(trim_of(skip(line, c + 1))))
        },
        None => (trim_of(line), None),
    };
    proof {
        reveal_strlit("-->");
        reveal_strlit("->");
    }
    let (k, n): (usize, usize) = match find_text(ends, "-->") {
        Some(k) => (k, 3),
        None => match find_text(ends, "->") {
            Some(k) => (k, 2),
            None => {
                return None;
            },
        },
    };
    let ends_len: usize = ends.len();
    match parse_state_endpoint_puml(trim_of(take(ends, k)), true) {
        Ok(from) => match parse_state_endpoint_puml(trim_of(skip(ends, k + n)), false) {
            Ok(to) => Some(Ok(Transition { from, to, label })),
            Err(e) => Some(Err(e)),
        },
        Err(e) => Some(Err(e)),
    }
}

// ---------------------------------------------------------------------------
// Errors
// ---------------------------------------------------------------------------

/// The statements that are not supported.
pub open spec fn unsupported_in_state() -> Seq<Seq<char>> {
    seq![
        "note"@,
        "hnote"@,
        "rnote"@,
        "hide"@,
        "show"@,
        "skinparam"@,
        "title"@,
        "header"@,
        "footer"@,
        "scale"@,
        "caption"@,
        "legend"@,
    ]
}

fn find_unsupported(t: &[char]) -> (r: Option<&'static str>)
    ensures
        opt_view(r) == keyword_at_start(t@, unsupported_in_state()),
{
    let keywords: [&'static str; 12] = [
        "note",
        "hnote",
        "rnote",
        "hide",
        "show",
        "skinparam",
        "title",
        "header",
        "footer",
        "scale",
        "caption",
        "legend",
    ];
    assert(views(keywords@) =~= unsupported_in_state());
    find_keyword(t, keywords.as_slice())
}

/// A declaration, or the error about it.
pub open spec fn check_state(
    st: CheckView,
    r: Result<(Seq<char>, Seq<char>), Seq<char>>,
    l: LineView,
) -> CheckView {
    match r {
        Ok((id, _)) => if st.declared.contains(id) {
            check_error(st, "duplicate state declaration `"@ + id + "`"@, l)
        } else {
            CheckView { declared: st.declared.push(id), ..st }
        },
        Err(m) => check_error(st, m, l),
    }
}

/// A transition, or the error about it.
pub open spec fn check_transition(
    st: CheckView,
    r: Result<TransitionView, Seq<char>>,
    l: LineView,
) -> CheckView {
    match r {
        Ok(t) => if t.from is Initial && t.to is Final {
            check_error(
                st,
                "`[*] --> [*]` is not valid; initial pseudostate cannot transition directly to final pseudostate"@,
                l,
            )
        } else {
            st
        },
        Err(m) => check_error(st, m, l),
    }
}

/// A declaration, a transition, or an error.
pub open spec fn check_state_statement(st: CheckView, t: Seq<char>, l: LineView) -> CheckView {
    match state_statement(t) {
        Some(r) => check_state(st, r, l),
        None => match state_transition(t) {
            Some(r) => check_transition(st, r, l),
            None => match keyword_at_start(t, unsupported_in_state()) {
                Some(k) => check_error(st, unsupported(k), l),
                None => check_error(st, unrecognised(t), l),
            },
        },
    }
}

/// What is wrong with the line `l`.
pub open spec fn check_state_line(st: CheckView, l: LineView) -> CheckView {
    let t = trim(l.text);
    if t.len() == 0 {
        st
    } else if begins(t, '!') {
        check_error(st, preprocessor(), l)
    } else if has_char(t, '{') || t == "}"@ {
        check_error(
            st,
            "unsupported: composite/nested state (`state s { … }`); kozue does not support this yet"@,
            l,
        )
    } else if has_text(t, "<<"@) {
        check_error(
            st,
            "unsupported: fork/join/choice/history pseudostate (`<<…>>`); kozue does not support this yet"@,
            l,
        )
    } else if same_any_case(t, "left to right direction"@) || same_any_case(
        t,
        "top to bottom direction"@,
    ) {
        check_error(
            st,
            "unsupported: direction in state diagrams; kozue lays state diagrams top-down (kozue does not support this yet)"@,
            l,
        )
    } else if t == "--"@ || t == "||"@ {
        check_error(
            st,
            "unsupported: concurrent region separator (`--` / `||`); kozue does not support this yet"@,
            l,
        )
    } else {
        check_state_statement(st, t, l)
    }
}

/// What is wrong with the first `n` lines.
pub open spec fn check_state_lines(st: CheckView, lines: Seq<LineView>, n: int) -> CheckView
    decreases n,
{
    if n <= 0 {
        st
    } else {
        check_state_line(check_state_lines(st, lines, n - 1), lines[n - 1])
    }
}

/// The errors with those of the statements of a state diagram.
pub open spec fn state_errors(lines: Seq<LineView>, errors: Seq<DiagnosticView>) -> Seq<
    DiagnosticView,
> {
    check_state_lines(
        CheckView { declared: Seq::empty(), errors },
        lines,
        lines.len() as int,
    ).errors
}

/// The errors found so far, and the ids declared so far.
pub struct StateCheck {
    declared: Vec<String>,
    errors: Vec<Diagnostic>,
}

impl View for StateCheck {
    type V = CheckView;

    closed spec fn view(&self) -> CheckView {
        CheckView { declared: views(self.declared@), errors: views(self.errors@) }
    }
}

impl StateCheck {
    fn error(&mut self, message: String, l: &Line)
        ensures
            final(self)@ == check_error(old(self)@, message@, l@),
    {
        report(&mut self.errors, message, l.start, l.end);
    }

    fn error_str(&mut self, message: &str, l: &Line)
        ensures
            final(self)@ == check_error(old(self)@, message@, l@),
    {
        self.error(String::from_str(message), l);
    }

    fn statement(&mut self, t: &[char], l: &Line)
        ensures
            final(self)@ == check_state_statement(old(self)@, t@, l@),
    {
        broadcast use lemma_views_push;

        match try_parse_state_statement(t) {
            Some(Ok((id, _))) => {
                if contains_string(&self.declared, &id) {
                    let mut message = String::from_str("duplicate state declaration `");
                    message.append(id.as_str());
                    message.append("`");
                    self.error(message, l);
                } else {
                    self.declared.push(id);
                }
                return;
            },
            Some(Err(m)) => {
                self.error(m, l);
                return;
            },
            None => {},
        }
        match try_parse_state_transition(t) {
            Some(Ok(tr)) => {
                let direct = match (&tr.from, &tr.to) {
                    (Endpoint::Initial, Endpoint::Final) => true,
                    _ => false,
                };
                if direct {
                    self.error_str(
                        "`[*] --> [*]` is not valid; initial pseudostate cannot transition directly to final pseudostate",
                        l,
                    );
                }
                return;
            },
            Some(Err(m)) => {
                self.error(m, l);
                return;
            },
            None => {},
        }
        match find_unsupported(t) {
            Some(k) => {
                self.error(unsupported_message(k), l);
            },
            None => {
                self.error(unrecognised_message(t), l);
            },
        }
    }

    fn line(&mut self, l: &Line)
        ensures
            final(self)@ == check_state_line(old(self)@, l@),
    {
        let t = trim_of(l.text);
        if t.len() == 0 {
            return;
        }
        if starts_with_char(t, '!') {
            self.error(preprocessor_message(), l);
        } else if contains_char(t, '{') || equals(t, "}") {
            self.error_str(
                "unsupported: composite/nested state (`state s { … }`); kozue does not support this yet",
                l,
            );
        } else if contains_text(t, "<<") {
            self.error_str(
                "unsupported: fork/join/choice/history pseudostate (`<<…>>`); kozue does not support this yet",
                l,
            );
        } else if equals_any_case(t, "left to right direction") || equals_any_case(
            t,
            "top to bottom direction",
        ) {
            self.error_str(
                "unsupported: direction in state diagrams; kozue lays state diagrams top-down (kozue does not support this yet)",
                l,
            );
        } else if equals(t, "--") || equals(t, "||") {
            self.error_str(
                "unsupported: concurrent region separator (`--` / `||`); kozue does not support this yet",
                l,
            );
        } else {
            self.statement(t, l);
        }
    }
}

/// Adds the errors of the statements of a state diagram.
pub fn parse_state_body(lines: &[Line], errors: Vec<Diagnostic>) -> (r: Vec<Diagnostic>)
    ensures
        views(r@) == state_errors(views(lines@), views(errors@)),
{
    let mut st = StateCheck { declared: Vec::new(), errors };
    let ghost start = st@;
    let ghost all = views(lines@);
    assert(start =~= (CheckView { declared: Seq::empty(), errors: views(errors@) }));
    let mut i: usize = 0;
    while i < lines.len()
        invariant
            i <= lines@.len(),
            all == views(lines@),
            st@ == check_state_lines(start, all, i as int),
        decreases lines@.len() - i,
    {
        st.line(&lines[i]);
        i = i + 1;
    }
    st.errors
}

// ---------------------------------------------------------------------------
// The diagram
// ---------------------------------------------------------------------------

/// The states that the first `n` lines declare.
pub open spec fn declared_states(lines: Seq<LineView>, n: int) -> Seq<StateView>
    decreases n,
{
    if n <= 0 {
        Seq::empty()
    } else {
        let before = declared_states(lines, n - 1);
        match state_statement(trim(lines[n - 1].text)) {
            Some(Ok((id, label))) => if has_key(before, id) {
                before
            } else {
                before.push(StateView { id, label })
            },
            _ => before,
        }
    }
}

/// The states and the transitions after the first `n` lines; `states` are those
/// declared.
pub open spec fn with_lines(states: Seq<StateView>, lines: Seq<LineView>, n: int) -> StateDiagramView
    decreases n,
{
    if n <= 0 {
        StateDiagramView { states, transitions: Seq::empty() }
    } else {
        let before = with_lines(states, lines, n - 1);
        match state_transition(trim(lines[n - 1].text)) {
            Some(Ok(t)) => StateDiagramView {
                states: with_endpoint(with_endpoint(before.states, t.from), t.to),
                transitions: before.transitions.push(t),
            },
            _ => before,
        }
    }
}

/// The state diagram that the statements make: the declared states, then those
/// that only transitions name.
pub open spec fn state_diagram(lines: Seq<LineView>) -> StateDiagramView {
    let n = lines.len() as int;
    with_lines(declared_states(lines, n), lines, n)
}

/// The state diagram that the statements make.
pub fn parse_state_clean(lines: &[Line]) -> (r: StateDiagram)
    ensures
        r@ == state_diagram(views(lines@)),
{
    broadcast use lemma_views_push;

    let ghost all = views(lines@);
    let mut states: Keyed<State> = Keyed::new();
    let mut i: usize = 0;
    while i < lines.len()
        invariant
            i <= lines@.len(),
            all == views(lines@),
            states.wf(),
            states@ == declared_states(all, i as int),
        decreases lines@.len() - i,
    {
        assert(all[i as int] == lines@[i as int]@);
        match try_parse_state_statement(trim_of(lines[i].text)) {
            Some(Ok((id, label))) => {
                if states.find(&id).is_none() {
                    states.push(State { id, label });
                }
            },
            Some(Err(_)) => {},
            None => {},
        }
        i = i + 1;
    }
    let ghost declared = states@;
    let mut transitions: Vec<Transition> = Vec::new();
    let mut k: usize = 0;
    assert(views(transitions@) =~= Seq::<TransitionView>::empty());
    while k < lines.len()
        invariant
            k <= lines@.len(),
            all == views(lines@),
            states.wf(),
            states@ == with_lines(declared, all, k as int).states,
            views(transitions@) == with_lines(declared, all, k as int).transitions,
        decreases lines@.len() - k,
    {
        broadcast use lemma_views_push;

        assert(all[k as int] == lines@[k as int]@);
        match try_parse_state_transition(trim_of(lines[k].text)) {
            Some(Ok(t)) => {
                ensure_endpoint(&mut states, &t.from);
                ensure_endpoint(&mut states, &t.to);
                transitions.push(t);
            },
            Some(Err(_)) => {},
            None => {},
        }
        k = k + 1;
    }
    StateDiagram { states: states.into_items(), transitions }
}

// ---------------------------------------------------------------------------
// Laws
// ---------------------------------------------------------------------------

/// Whether a line of a state diagram is understood.
pub open spec fn understood(l: LineView) -> bool {
    let t = trim(l.text);
    t.len() == 0 || match state_statement(t) {
        Some(r) => r is Ok,
        None => state_transition(t) matches Some(Ok(tr)) && !(tr.from is Initial && tr.to is Final),
    }
}

proof fn lemma_check_state_lines(st: CheckView, lines: Seq<LineView>, n: int, len: int)
    requires
        within(st.errors, len),
        lines_within(lines, len),
        0 <= n <= lines.len(),
    ensures
        within(check_state_lines(st, lines, n).errors, len),
        check_state_lines(st, lines, n).errors.len() >= st.errors.len(),
        check_state_lines(st, lines, n).errors.len() == st.errors.len() ==> forall|i: int|
            0 <= i < n ==> understood(#[trigger] lines[i]),
    decreases n,
{
    if n > 0 {
        lemma_check_state_lines(st, lines, n - 1, len);
        let l = lines[n - 1];
        let before = check_state_lines(st, lines, n - 1);
        let after = check_state_line(before, l);
        assert(within(after.errors, len) && after.errors.len() >= before.errors.len());
        assert(after.errors.len() == before.errors.len() ==> understood(l));
    }
}

proof fn lemma_declared_states(lines: Seq<LineView>, n: int)
    ensures
        distinct_keys(declared_states(lines, n)),
    decreases n,
{
    if n > 0 {
        lemma_declared_states(lines, n - 1);
        if let Some(Ok((id, label))) = state_statement(trim(lines[n - 1].text)) {
            let before = declared_states(lines, n - 1);
            if !has_key(before, id) {
                lemma_distinct_push(before, StateView { id, label });
            }
        }
    }
}

/// A line that goes out from the initial pseudostate declares no state.
proof fn lemma_initial_is_no_statement(s: Seq<char>)
    requires
        state_transition(trim(s)) matches Some(Ok(t)) && t.from is Initial,
    ensures
        state_statement(trim(s)) is None,
{
    let line = trim(s);
    let (ends, label) = ends_and_label(line);
    lemma_trim_first(s);
    lemma_char_from(line, ':', 0);
    let head = match char_index(line, ':') {
        Some(k) => line.take(k),
        None => line,
    };
    let k = match text_index(ends, "-->"@) {
        Some(k) => k,
        None => text_index(ends, "->"@)->0,
    };
    lemma_text_from(ends, "-->"@, 0);
    lemma_text_from(ends, "->"@, 0);
    let from = ends.take(k);
    reveal_strlit("[*]");
    reveal_strlit("state");
    lemma_trim_first(head);
    lemma_trim_first(from);
    lemma_trim_len(head);
    lemma_trim_len(from);
    lemma_trim_len(trim(from));
    lemma_trim_first(trim(from));
    assert(trim(trim(from)) == "[*]"@);
    assert("[*]"@[0] == '[' && "[*]"@.len() == 3);
    assert(line.len() > 0 && line[0] == '[') by {
        assert(trim(from)[0] == '[');
        assert(ends[0] == head[0]);
    }
    lemma_past_white(line, 0);
    assert(trim_start(line) =~= line);
    lemma_ascii_word_end(line, 0);
    let n = ascii_word_end(line, 0);
    let word = line.take(n);
    assert(keyword_and_rest(line) matches Some((k, _)) ==> k == word);
    assert("state"@.len() == 5 && "state"@[0] == 's');
    if same_any_case(word, "state"@) {
        assert(upper(word).len() == 5);
        assert(word[0] == '[');
        assert(upper(word)[0] == upper("state"@)[0]);
        assert(upper_char('[') == '[' && upper_char('s') == 'S');
    }
}

proof fn lemma_with_lines(states: Seq<StateView>, lines: Seq<LineView>, n: int)
    requires
        distinct_keys(states),
        forall|i: int| 0 <= i < n ==> understood(#[trigger] lines[i]),
    ensures
        sound_states(with_lines(states, lines, n)),
    decreases n,
{
    if n > 0 {
        lemma_with_lines(states, lines, n - 1);
        let l = lines[n - 1];
        let d = with_lines(states, lines, n - 1);
        if let Some(Ok(t)) = state_transition(trim(l.text)) {
            let a = with_endpoint(d.states, t.from);
            let b = with_endpoint(a, t.to);
            lemma_with_endpoint(d.states, t.from);
            lemma_with_endpoint(a, t.to);
            lemma_grown(d.states, a);
            lemma_grown(a, b);
            if t.from is Initial && t.to is Final {
                lemma_initial_is_no_statement(l.text);
                assert(understood(l));
            }
        }
    }
}

/// A state diagram whose lines give no error is sound, and none of its lines is
/// passed over: each is blank, a declaration or a transition. All errors are
/// within the source.
pub proof fn law_state_diagram(lines: Seq<LineView>, errors: Seq<DiagnosticView>, len: int)
    requires
        within(errors, len),
        lines_within(lines, len),
    ensures
        within(state_errors(lines, errors), len),
        state_errors(lines, errors).len() == 0 ==> sound_states(state_diagram(lines)) && forall|
            i: int,
        |
            0 <= i < lines.len() ==> understood(#[trigger] lines[i]),
{
    let n = lines.len() as int;
    lemma_check_state_lines(CheckView { declared: Seq::empty(), errors }, lines, n, len);
    lemma_declared_states(lines, n);
    if state_errors(lines, errors).len() == 0 {
        lemma_with_lines(declared_states(lines, n), lines, n);
    }
}

} // verus!
