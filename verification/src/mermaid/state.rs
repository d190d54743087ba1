//! State diagrams.
use crate::diag::{
    conclude, diagnostic, parsed, report, verdict, Diagnostic, DiagnosticView, ParsedView,
};
use crate::ir::{
    distinct_keys, has_key, lemma_distinct_push, lemma_key_from, Diagram, DiagramView, Endpoint,
    EndpointView, Named, State, StateDiagram, StateDiagramView, StateView, Transition,
    TransitionView,
};
use crate::keywords::{semicolon, semicolon_message, unrecognised, unrecognised_message};
use crate::lines::{after_keyword, line_wf, strip_keyword_ci, Line, LineView};
use crate::mermaid::edges::{nonempty, some_text};
use crate::mermaid::scan::{ident, lone_ident, split_id, split_lone_id};
use crate::sound::{grown, known_end, lemma_grown, lemma_has_key, lines_within, owed, within};
use crate::table::{Keyed, Table};
use crate::text::{
    after_prefix, at_most, begins, blank, char_index, clip, contains_char, contains_text, equals,
    find_char, find_text, has_char, has_text, is_blank, lemma_views_push, opt_view, skip,
    starts_with_char, strip_prefix, surround, take, text_index, to_string, trim, trim_of,
    trim_start, trim_start_of, views,
};
use vstd::prelude::*;

verus! {

// ---------------------------------------------------------------------------
// Transitions
// ---------------------------------------------------------------------------

/// One end of a transition: `[*]`, which is the initial pseudostate at the
/// source and the final one at the target, or a state's id.
pub open spec fn state_endpoint(part: Seq<char>, is_source: bool) -> Result<EndpointView, Seq<char>> {
    let p = trim(part);
    if p == "[*]"@ {
        Ok(
            if is_source {
                EndpointView::Initial
            } else {
                EndpointView::Final
            },
        )
    } else {
        match lone_ident(p) {
            Some(id) => Ok(EndpointView::State(id)),
            None => Err(
                "syntax error: expected a state identifier or `[*]`, got `"@ + at_most(p, 40)
                    + "`"@,
            ),
        }
    }
}

/// The target of a transition and the text after a colon.
pub open spec fn target_and_label(after: Seq<char>) -> (Seq<char>, Option<Seq<char>>) {
    match char_index(after, ':') {
        Some(k) => (trim(after.take(k)), some_text(trim(after.skip(k + 1)))),
        None => (after, None),
    }
}

/// The transition between two ends, unless one of them is refused.
pub open spec fn join_ends(
    from: Result<EndpointView, Seq<char>>,
    to: Result<EndpointView, Seq<char>>,
    label: Option<Seq<char>>,
) -> Result<TransitionView, Seq<char>> {
    match from {
        Ok(from) => match to {
            Ok(to) => Ok(TransitionView { from, to, label }),
            Err(e) => Err(e),
        },
        Err(e) => Err(e),
    }
}

/// The transition on a line whose arrow stands at index `k`.
pub open spec fn state_transition(t: Seq<char>, k: int) -> Result<TransitionView, Seq<char>> {
    let (target, label) = target_and_label(trim(t.skip(k + 3)));
    join_ends(state_endpoint(trim(t.take(k)), true), state_endpoint(target, false), label)
}

/// One end of a transition.
pub fn parse_state_endpoint(part: &[char], is_source: bool) -> (r: Result<Endpoint, String>)
    ensures
        endpoint_result(r) == state_endpoint(part@, is_source),
{
    let p = trim_of(part);
    if equals(p, "[*]") {
        return if is_source {
            Ok(Endpoint::Initial)
        } else {
            Ok(Endpoint::Final)
        };
    }
    match split_lone_id(p) {
        Some(id) => Ok(Endpoint::State(id)),
        None => Err(
            surround(
                "syntax error: expected a state identifier or `[*]`, got `",
                clip(p, 40),
                "`",
            ),
        ),
    }
}

/// The model of an end that may be refused.
pub open spec fn endpoint_result(r: Result<Endpoint, String>) -> Result<EndpointView, Seq<char>> {
    match r {
        Ok(e) => Ok(e@),
        Err(m) => Err(m@),
    }
}

/// The model of a transition that may be refused.
pub open spec fn transition_result(r: Result<Transition, String>) -> Result<
    TransitionView,
    Seq<char>,
> {
    match r {
        Ok(t) => Ok(t@),
        Err(m) => Err(m@),
    }
}

/// The transition on a line whose arrow stands at index `k`.
pub fn parse_state_transition(t: &[char], k: usize) -> (r: Result<Transition, String>)
    requires
        k + 3 <= t@.len(),
    ensures
        transition_result(r) == state_transition(t@, k as int),
{
    let len: usize = t.len();
    let from_part = trim_of(take(t, k));
    let after = trim_of(skip(t, k + 3));
    let (target, label) = match find_char(after, ':') {
        Some(c) => {
            let after_len: usize = after.len();
            (trim_of(take(after, c)), nonempty(trim_of(skip(after, c + 1))))
        },
        None => (after, None),
    };
    match parse_state_endpoint(from_part, true) {
        Ok(from) => match parse_state_endpoint(target, false) {
            Ok(to) => Ok(Transition { from, to, label }),
            Err(e) => Err(e),
        },
        Err(e) => Err(e),
    }
}

// ---------------------------------------------------------------------------
// Declarations
// ---------------------------------------------------------------------------

/// The id after `as`, which is all lower or all upper case.
pub open spec fn after_as(s: Seq<char>) -> Option<Seq<char>> {
    match after_prefix(s, "as "@) {
        Some(r) => Some(r),
        None => after_prefix(s, "AS "@),
    }
}

/// The declaration `"label" as id`, without its first quote.
pub open spec fn quoted_state(s: Seq<char>) -> Result<(Seq<char>, Seq<char>), Seq<char>> {
    match char_index(s, '"') {
        Some(k) => match after_as(trim(s.skip(k + 1))) {
            Some(r) => match lone_ident(trim(r)) {
                Some(id) => Ok((id, s.take(k))),
                None => Err("invalid state identifier `"@ + at_most(trim(r), 40) + "`"@),
            },
            None => Err("expected `as <id>` after quoted state description"@),
        },
        None => Err("unterminated quoted state description"@),
    }
}

/// The id and the label that a declaration gives: `"label" as id`, or `id`.
pub open spec fn state_decl(rest: Seq<char>) -> Result<(Seq<char>, Seq<char>), Seq<char>> {
    if rest.len() == 0 {
        Err("expected a state identifier after `state`"@)
    } else if begins(rest, '"') {
        quoted_state(rest.skip(1))
    } else {
        match ident(rest) {
            Some((id, tail)) => if blank(tail) {
                Ok((id, id))
            } else if begins(trim_start(tail), ':') {
                Err(
                    "unsupported: state description (`state s : …`); kozue does not support this yet"@,
                )
            } else {
                Err("invalid state declaration `"@ + at_most(rest, 40) + "`"@)
            },
            None => Err("invalid state declaration `"@ + at_most(rest, 40) + "`"@),
        }
    }
}

/// The model of an id and a label that may be refused.
pub open spec fn decl_result(r: Result<(String, String), String>) -> Result<
    (Seq<char>, Seq<char>),
    Seq<char>,
> {
    match r {
        Ok(p) => Ok((p.0@, p.1@)),
        Err(m) => Err(m@),
    }
}

fn strip_as<'a>(s: &'a [char]) -> (r: Option<&'a [char]>)
    ensures
        opt_view(r) == after_as(s@),
{
    match strip_prefix(s, "as ") {
        Some(r) => Some(r),
        None => strip_prefix(s, "AS "),
    }
}

/// The id and the label that a declaration gives: `"label" as id`, or `id`.
pub fn parse_state_decl(rest: &[char]) -> (r: Result<(String, String), String>)
    ensures
        decl_result(r) == state_decl(rest@),
{
    if rest.len() == 0 {
        return Err(String::from_str("expected a state identifier after `state`"));
    }
    if starts_with_char(rest, '"') {
        let s = skip(rest, 1);
        let k: usize = match find_char(s, '"') {
            Some(k) => k,
            None => {
                return Err(String::from_str("unterminated quoted state description"));
            },
        };
        let len: usize = s.len();
        let r = match strip_as(trim_of(skip(s, k + 1))) {
            Some(r) => trim_of(r),
            None => {
                return Err(
                    String::from_str("expected `as <id>` after quoted state description"),
                );
            },
        };
        return match split_lone_id(r) {
            Some(id) => Ok((id, to_string(take(s, k)))),
            None => Err(surround("invalid state identifier `", clip(r, 40), "`")),
        };
    }
    match split_id(rest) {
        Some((id, tail)) => {
            if is_blank(tail) {
                return Ok((id.clone(), id));
            }
            if starts_with_char(trim_start_of(tail), ':') {
                return Err(
                    String::from_str(
                        "unsupported: state description (`state s : …`); kozue does not support this yet",
                    ),
                );
            }
        },
        None => {},
    }
    Err(surround("invalid state declaration `", clip(rest, 40), "`"))
}

// ---------------------------------------------------------------------------
// Statements
// ---------------------------------------------------------------------------

/// A state diagram that is being read.
#[verifier::ext_equal]
pub struct StatesView {
    /// The declared states, with their labels.
    pub decls: Seq<(Seq<char>, Seq<char>)>,
    /// The transitions.
    pub transitions: Seq<TransitionView>,
    /// The errors.
    pub errors: Seq<DiagnosticView>,
}

/// A state diagram that is being read.
pub struct States {
    pub(crate) decls: Table<String>,
    pub(crate) transitions: Vec<Transition>,
    pub(crate) errors: Vec<Diagnostic>,
}

impl View for States {
    type V = StatesView;

    closed spec fn view(&self) -> StatesView {
        StatesView {
            decls: self.decls@,
            transitions: views(self.transitions@),
            errors: views(self.errors@),
        }
    }
}

/// Nothing read yet.
pub open spec fn states_start(errors: Seq<DiagnosticView>) -> StatesView {
    StatesView { decls: Seq::empty(), transitions: Seq::empty(), errors }
}

/// The error `message` about the line `l`.
pub open spec fn states_error(st: StatesView, message: Seq<char>, l: LineView) -> StatesView {
    StatesView { errors: st.errors.push(diagnostic(message, l.start, l.end)), ..st }
}

/// A transition, or the error about it.
pub open spec fn add_transition(
    st: StatesView,
    r: Result<TransitionView, Seq<char>>,
    l: LineView,
) -> StatesView {
    match r {
        Ok(t) => if t.from is Initial && t.to is Final {
            states_error(
                st,
                "`[*] --> [*]` is not valid; initial pseudostate cannot transition directly to final pseudostate"@,
                l,
            )
        } else {
            StatesView { transitions: st.transitions.push(t), ..st }
        },
        Err(m) => states_error(st, m, l),
    }
}

/// A declaration, or the error about it.
pub open spec fn add_state(
    st: StatesView,
    r: Result<(Seq<char>, Seq<char>), Seq<char>>,
    l: LineView,
) -> StatesView {
    match r {
        Ok((id, label)) => if has_key(st.decls, id) {
            states_error(st, "duplicate state declaration `"@ + id + "`"@, l)
        } else {
            StatesView { decls: st.decls.push((id, label)), ..st }
        },
        Err(m) => states_error(st, m, l),
    }
}

/// What the line `l` does.
pub open spec fn state_line(st: StatesView, l: LineView) -> StatesView {
    let t = trim(l.text);
    if has_char(t, ';') {
        states_error(st, semicolon(), l)
    } else if has_char(t, '{') || t == "}"@ {
        states_error(
            st,
            "unsupported: composite/nested state (`state s { … }`); kozue does not support this yet"@,
            l,
        )
    } else if has_text(t, "<<"@) {
        states_error(
            st,
            "unsupported: fork/join/choice/history pseudostate (`<<…>>`); kozue does not support this yet"@,
            l,
        )
    } else {
        match text_index(t, "-->"@) {
            Some(k) => add_transition(st, state_transition(t, k), l),
            None => if t == "--"@ {
                states_error(
                    st,
                    "unsupported: concurrent region separator (`--`); kozue does not support this yet"@,
                    l,
                )
            } else if after_keyword(t, "direction"@) is Some {
                states_error(
                    st,
                    "unsupported: direction in state diagrams; kozue lays state diagrams top-down (kozue does not support this yet)"@,
                    l,
                )
            } else if after_keyword(t, "note"@) is Some {
                states_error(st, "unsupported: note (kozue does not support this yet)"@, l)
            } else {
                match after_keyword(t, "state"@) {
                    Some(rest) => add_state(st, state_decl(trim(rest)), l),
                    None => states_error(st, unrecognised(t), l),
                }
            },
        }
    }
}

/// What the first `n` lines do.
pub open spec fn state_lines(st: StatesView, lines: Seq<LineView>, n: int) -> StatesView
    decreases n,
{
    if n <= 0 {
        st
    } else {
        state_line(state_lines(st, lines, n - 1), lines[n - 1])
    }
}

/// The states with one more, where `e` is a state that is not there yet.
pub open spec fn with_endpoint(states: Seq<StateView>, e: EndpointView) -> Seq<StateView> {
    match e {
        EndpointView::State(id) => if has_key(states, id) {
            states
        } else {
            states.push(StateView { id, label: id })
        },
        _ => states,
    }
}

/// The states with those that the first `n` transitions name.
pub open spec fn with_transitions(states: Seq<StateView>, ts: Seq<TransitionView>, n: int) -> Seq<
    StateView,
>
    decreases n,
{
    if n <= 0 {
        states
    } else {
        with_endpoint(
            with_endpoint(with_transitions(states, ts, n - 1), ts[n - 1].from),
            ts[n - 1].to,
        )
    }
}

/// The declared states.
pub open spec fn declared_states(decls: Seq<(Seq<char>, Seq<char>)>) -> Seq<StateView> {
    Seq::new(decls.len(), |i: int| StateView { id: decls[i].0, label: decls[i].1 })
}

/// The state diagram that has been read: the declared states, then those that
/// only transitions name.
pub open spec fn states_verdict(st: StatesView) -> ParsedView {
    verdict(
        DiagramView::State(
            StateDiagramView {
                states: with_transitions(
                    declared_states(st.decls),
                    st.transitions,
                    st.transitions.len() as int,
                ),
                transitions: st.transitions,
            },
        ),
        st.errors,
    )
}

/// What the state diagram `lines` comes to.
pub open spec fn states(lines: Seq<LineView>, errors: Seq<DiagnosticView>) -> ParsedView {
    states_verdict(state_lines(states_start(errors), lines, lines.len() as int))
}

/// Adds a state that a transition names.
pub fn ensure_endpoint(states: &mut Keyed<State>, e: &Endpoint)
    requires
        old(states).wf(),
    ensures
        final(states).wf(),
        final(states)@ == with_endpoint(old(states)@, e@),
{
    match e {
        Endpoint::State(id) => {
            if states.find(id).is_none() {
                states.push(State { id: id.clone(), label: id.clone() });
            }
        },
        Endpoint::Initial => {},
        Endpoint::Final => {},
    }
}

impl States {
    /// The declarations are in order.
    pub closed spec fn wf(self) -> bool {
        self.decls.wf()
    }

    /// Nothing read yet.
    pub fn new(errors: Vec<Diagnostic>) -> (r: Self)
        ensures
            r.wf(),
            r@ == states_start(views(errors@)),
    {
        let r = States { decls: Table::new(), transitions: Vec::new(), errors };
        assert(r@ =~= states_start(views(errors@)));
        r
    }

    /// Adds the error `message` about the line `l`.
    pub fn error(&mut self, message: String, l: &Line)
        requires
            old(self).wf(),
        ensures
            final(self).wf(),
            final(self)@ == states_error(old(self)@, message@, l@),
    {
        report(&mut self.errors, message, l.start, l.end);
    }

    /// Adds the error `message` about the line `l`.
    pub fn error_str(&mut self, message: &str, l: &Line)
        requires
            old(self).wf(),
        ensures
            final(self).wf(),
            final(self)@ == states_error(old(self)@, message@, l@),
    {
        self.error(String::from_str(message), l);
    }

    /// Adds a transition, or the error about it.
    pub fn add_transition(&mut self, r: Result<Transition, String>, l: &Line)
        requires
            old(self).wf(),
        ensures
            final(self).wf(),
            final(self)@ == add_transition(old(self)@, transition_result(r), l@),
    {
        broadcast use lemma_views_push;

        match r {
            Ok(t) => {
                let direct = match (&t.from, &t.to) {
                    (Endpoint::Initial, Endpoint::Final) => true,
                    _ => false,
                };
                if direct {
                    self.error_str(
                        "`[*] --> [*]` is not valid; initial pseudostate cannot transition directly to final pseudostate",
                        l,
                    );
                } else {
                    self.transitions.push(t);
                }
            },
            Err(m) => {
                self.error(m, l);
            },
        }
    }

    /// Adds a declaration, or the error about it.
    pub fn add_state(&mut self, r: Result<(String, String), String>, l: &Line)
        requires
            old(self).wf(),
        ensures
            final(self).wf(),
            final(self)@ == add_state(old(self)@, decl_result(r), l@),
    {
        match r {
            Ok((id, label)) => {
                if self.decls.find(&id).is_some() {
                    let mut message = String::from_str("duplicate state declaration `");
                    message.append(id.as_str());
                    message.append("`");
                    self.error(message, l);
                } else {
                    self.decls.add_new(id, label);
                }
            },
            Err(m) => {
                self.error(m, l);
            },
        }
    }

    fn line(&mut self, l: &Line)
        requires
            old(self).wf(),
        ensures
            final(self).wf(),
            final(self)@ == state_line(old(self)@, l@),
    {
        let t = trim_of(l.text);
        if contains_char(t, ';') {
            self.error(semicolon_message(), l);
            return;
        }
        if contains_char(t, '{') || equals(t, "}") {
            self.error_str(
                "unsupported: composite/nested state (`state s { … }`); kozue does not support this yet",
                l,
            );
            return;
        }
        if contains_text(t, "<<") {
            self.error_str(
                "unsupported: fork/join/choice/history pseudostate (`<<…>>`); kozue does not support this yet",
                l,
            );
            return;
        }
        match find_text(t, "-->") {
            Some(k) => {
                proof {
                    reveal_strlit("-->");
                }
                self.add_transition(parse_state_transition(t, k), l);
                return;
            },
            None => {},
        }
        if equals(t, "--") {
            self.error_str(
                "unsupported: concurrent region separator (`--`); kozue does not support this yet",
                l,
            );
            return;
        }
        if strip_keyword_ci(t, "direction").is_some() {
            self.error_str(
                "unsupported: direction in state diagrams; kozue lays state diagrams top-down (kozue does not support this yet)",
                l,
            );
            return;
        }
        if strip_keyword_ci(t, "note").is_some() {
            self.error_str("unsupported: note (kozue does not support this yet)", l);
            return;
        }
        match strip_keyword_ci(t, "state") {
            Some(rest) => {
                self.add_state(parse_state_decl(trim_of(rest)), l);
            },
            None => {
                self.error(unrecognised_message(t), l);
            },
        }
    }

    /// The state diagram that has been read.
    pub fn finish(self) -> (r: Result<Diagram, Vec<Diagnostic>>)
        requires
            self.wf(),
        ensures
            parsed(r) == states_verdict(self@),
    {
        let ghost st = self@;
        let ghost declared = declared_states(st.decls);
        let mut states: Keyed<State> = Keyed::new();
        let n: usize = self.decls.len();
        let mut i: usize = 0;
        assert(states@ =~= declared.take(0));
        while i < n
            invariant
                i <= n,
                n == self.decls@.len(),
                self.wf(),
                st == self@,
                declared == declared_states(st.decls),
                states.wf(),
                states@ == declared.take(i as int),
            decreases n - i,
        {
            proof {
                self.decls.lemma_distinct();
                lemma_key_from(states@, st.decls[i as int].0, 0);
            }
            states.push(
                State {
                    id: self.decls.id_at(i).clone(),
                    label: self.decls.value_at(i).clone(),
                },
            );
            assert(declared.take(i as int).push(declared[i as int]) =~= declared.take(i + 1));
            i = i + 1;
        }
        assert(declared.take(n as int) =~= declared);
        let mut k: usize = 0;
        while k < self.transitions.len()
            invariant
                k <= self.transitions@.len(),
                st == self@,
                states.wf(),
                states@ == with_transitions(declared, st.transitions, k as int),
            decreases self.transitions@.len() - k,
        {
            let t = &self.transitions[k];
            assert(st.transitions[k as int] == t@);
            ensure_endpoint(&mut states, &t.from);
            ensure_endpoint(&mut states, &t.to);
            k = k + 1;
        }
        let states = states.into_items();
        conclude(
            Diagram::State(StateDiagram { states, transitions: self.transitions }),
            self.errors,
        )
    }
}

/// Reads the statements of a state diagram; `errors` are those found before.
pub fn parse_state(lines: &[Line], errors: Vec<Diagnostic>) -> (r: Result<Diagram, Vec<Diagnostic>>)
    ensures
        parsed(r) == states(views(lines@), views(errors@)),
{
    let mut st = States::new(errors);
    let ghost start = st@;
    let ghost all = views(lines@);
    let mut i: usize = 0;
    while i < lines.len()
        invariant
            i <= lines@.len(),
            all == views(lines@),
            st.wf(),
            st@ == state_lines(start, all, i as int),
        decreases lines@.len() - i,
    {
        st.line(&lines[i]);
        i = i + 1;
    }
    st.finish()
}

// ---------------------------------------------------------------------------
// Laws
// ---------------------------------------------------------------------------

/// A transition that can be drawn: it does not go out from the final
/// pseudostate, to the initial one, or straight from the one to the other.
pub open spec fn proper(t: TransitionView) -> bool {
    t.from !is Final && t.to !is Initial && !(t.from is Initial && t.to is Final)
}

/// What holds after every line of a source of `len` bytes.
pub open spec fn states_ok(st: StatesView, len: int) -> bool {
    &&& distinct_keys(st.decls)
    &&& forall|i: int| 0 <= i < st.transitions.len() ==> proper(#[trigger] st.transitions[i])
    &&& within(st.errors, len)
}

proof fn lemma_state_line(st: StatesView, l: LineView, len: int)
    requires
        states_ok(st, len),
        line_wf(l),
        l.end <= len,
    ensures
        states_ok(state_line(st, l), len),
{
    let t = trim(l.text);
    if let Some(rest) = after_keyword(t, "state"@) {
        if let Ok((id, label)) = state_decl(trim(rest)) {
            if !has_key(st.decls, id) {
                lemma_distinct_push(st.decls, (id, label));
            }
        }
    }
}

proof fn lemma_state_lines(st: StatesView, lines: Seq<LineView>, n: int, len: int)
    requires
        states_ok(st, len),
        lines_within(lines, len),
        0 <= n <= lines.len(),
    ensures
        states_ok(state_lines(st, lines, n), len),
    decreases n,
{
    if n > 0 {
        lemma_state_lines(st, lines, n - 1, len);
        lemma_state_line(state_lines(st, lines, n - 1), lines[n - 1], len);
    }
}

/// An end that is a named state is added, unless it is there.
pub proof fn lemma_with_endpoint(states: Seq<StateView>, e: EndpointView)
    requires
        distinct_keys(states),
    ensures
        distinct_keys(with_endpoint(states, e)),
        grown(states, with_endpoint(states, e)),
        known_end(with_endpoint(states, e), e),
{
    if let EndpointView::State(id) = e {
        if !has_key(states, id) {
            lemma_distinct_push(states, StateView { id, label: id });
            lemma_has_key(with_endpoint(states, e), states.len() as int);
        }
    }
}

/// The states that transitions mention are added behind the declared ones.
pub proof fn lemma_with_transitions(states: Seq<StateView>, ts: Seq<TransitionView>, n: int)
    requires
        distinct_keys(states),
        0 <= n <= ts.len(),
    ensures
        distinct_keys(with_transitions(states, ts, n)),
        grown(states, with_transitions(states, ts, n)),
        forall|i: int|
            0 <= i < n ==> known_end(with_transitions(states, ts, n), (#[trigger] ts[i]).from)
                && known_end(with_transitions(states, ts, n), ts[i].to),
    decreases n,
{
    if n > 0 {
        lemma_with_transitions(states, ts, n - 1);
        let a = with_transitions(states, ts, n - 1);
        let b = with_endpoint(a, ts[n - 1].from);
        let c = with_endpoint(b, ts[n - 1].to);
        lemma_with_endpoint(a, ts[n - 1].from);
        lemma_with_endpoint(b, ts[n - 1].to);
        lemma_grown(a, b);
        lemma_grown(b, c);
    }
}

/// States with distinct ids and proper transitions make a sound diagram.
pub proof fn lemma_states_verdict(st: StatesView, len: int)
    requires
        states_ok(st, len),
    ensures
        owed(states_verdict(st), len),
{
    let declared = declared_states(st.decls);
    assert(distinct_keys(declared)) by {
        assert forall|i: int, j: int| 0 <= i < j < declared.len() implies declared[i].key()
            != declared[j].key() by {
            assert(st.decls[i].key() != st.decls[j].key());
        }
    }
    lemma_with_transitions(declared, st.transitions, st.transitions.len() as int);
    assert forall|i: int| 0 <= i < st.transitions.len() implies proper(
        #[trigger] st.transitions[i],
    ) by {}
}

/// A state diagram that is accepted is sound. One that is refused has an error,
/// and all errors are within the source.
pub proof fn law_states(lines: Seq<LineView>, errors: Seq<DiagnosticView>, len: int)
    requires
        lines_within(lines, len),
        within(errors, len),
    ensures
        owed(states(lines, errors), len),
{
    lemma_state_lines(states_start(errors), lines, lines.len() as int, len);
    lemma_states_verdict(
        state_lines(states_start(errors), lines, lines.len() as int),
        len,
    );
}

/// The transition on a line of a state diagram.
pub open spec fn transition_on(l: LineView) -> Option<TransitionView> {
    let t = trim(l.text);
    if has_char(t, ';') || has_char(t, '{') || t == "}"@ || has_text(t, "<<"@) {
        None
    } else {
        match text_index(t, "-->"@) {
            Some(k) => match state_transition(t, k) {
                Ok(tr) => if tr.from is Initial && tr.to is Final {
                    None
                } else {
                    Some(tr)
                },
                Err(_) => None,
            },
            None => None,
        }
    }
}

/// The state that a line of a state diagram declares, and its label.
pub open spec fn state_on(l: LineView) -> Option<(Seq<char>, Seq<char>)> {
    match after_keyword(trim(l.text), "state"@) {
        Some(rest) => match state_decl(trim(rest)) {
            Ok(d) => Some(d),
            Err(_) => None,
        },
        None => None,
    }
}

/// The transitions on the first `n` lines.
pub open spec fn transitions(lines: Seq<LineView>, n: int) -> Seq<TransitionView>
    decreases n,
{
    if n <= 0 {
        Seq::empty()
    } else {
        match transition_on(lines[n - 1]) {
            Some(t) => transitions(lines, n - 1).push(t),
            None => transitions(lines, n - 1),
        }
    }
}

/// No line is passed over: every transition is kept, in the order of the lines,
/// and where there is no error, every line is a declaration or a transition.
pub proof fn law_no_line_is_passed_over(
    errors: Seq<DiagnosticView>,
    lines: Seq<LineView>,
    n: int,
)
    requires
        0 <= n <= lines.len(),
    ensures
        state_lines(states_start(errors), lines, n).transitions == transitions(lines, n),
        state_lines(states_start(errors), lines, n).errors.len() >= errors.len(),
        state_lines(states_start(errors), lines, n).errors.len() == errors.len() ==> forall|i: int|
            0 <= i < n ==> transition_on(#[trigger] lines[i]) is Some || state_on(lines[i]) is Some,
    decreases n,
{
    if n > 0 {
        law_no_line_is_passed_over(errors, lines, n - 1);
        let before = state_lines(states_start(errors), lines, n - 1);
        let l = lines[n - 1];
        let after = state_line(before, l);
        assert(after.errors.len() >= before.errors.len());
        assert(after.errors.len() == before.errors.len() ==> transition_on(l) is Some || state_on(l)
            is Some);
    }
}

} // verus!
