//! The frontend for PlantUML sources: sequence and state diagrams, without the
//! preprocessor.
//!
//! A source stands between `@startuml` and `@enduml`. What kind of diagram it
//! is follows from its statements. All errors of a source are collected before
//! it is refused.
use crate::diag::{
    conclude, diagnostic, parsed, report, report_str, verdict, Diagnostic, DiagnosticView,
    ParsedView,
};
use crate::ir::{Diagram, DiagramView};
use crate::lines::{
    lemma_lines_wf, lemma_lines_within, line_wf, lines_from, split_lines, Line, LineView,
};
use crate::mark::{
    lemma_mark, lemma_marked, mark_len, move_parse, moved, moved_parse, strip_mark, without_bom,
};
use crate::offsets::{byte_len, byte_len_of, lemma_byte_len_part, str_len};
use crate::plantuml::comments::{
    law_mask_keeps_length, lemma_unclosed, mask_comments, masked, unclosed, unclosed_from, Mode,
};
use crate::plantuml::scan::{equals_any_case, keyword_and_rest, same_any_case, split_keyword};
use crate::plantuml::sequence::{
    build_lines, law_messages_are_kept, law_no_line_is_passed_over, parse_sequence_body,
    parse_sequence_clean, sequence_errors,
};
use crate::plantuml::state::{
    law_state_diagram, parse_state_body, parse_state_clean, state_diagram, state_errors,
};
use crate::sound::{lines_within, owed, sound, within};
use crate::text::{
    after_prefix, at_most, begins, clip, contains_text, find_char, first_word, has_prefix,
    has_text, lemma_views_push, lemma_views_subrange, split, strip_prefix, surround, take,
    to_chars, trim, trim_of, trim_start_of, upper, views, word_end,
};
use vstd::prelude::*;

pub mod comments;
pub mod features;
pub mod laws;
pub mod scan;
pub mod sequence;
pub mod state;

verus! {

/// Those of the first `n` lines that are not blank.
pub open spec fn filled(lines: Seq<LineView>, n: int) -> Seq<LineView>
    decreases n,
{
    if n <= 0 {
        Seq::empty()
    } else if trim(lines[n - 1].text).len() > 0 {
        filled(lines, n - 1).push(lines[n - 1])
    } else {
        filled(lines, n - 1)
    }
}

/// The lines of `s` that are not blank.
pub open spec fn logical(s: Seq<char>) -> Seq<LineView> {
    filled(lines_from(s, 0), lines_from(s, 0).len() as int)
}

/// The lines of `s` that are not blank, with their byte offsets.
pub fn logical_lines<'a>(s: &'a [char]) -> (r: Vec<Line<'a>>)
    requires
        byte_len(s@) <= usize::MAX,
    ensures
        views(r@) == logical(s@),
{
    broadcast use lemma_views_push;

    let lines = split_lines(s);
    let ghost all = views(lines@);
    let mut out: Vec<Line<'a>> = Vec::new();
    let mut i: usize = 0;
    assert(views(out@) =~= Seq::<LineView>::empty());
    while i < lines.len()
        invariant
            i <= lines@.len(),
            all == views(lines@),
            views(out@) == filled(all, i as int),
        decreases lines@.len() - i,
    {
        broadcast use lemma_views_push;

        let l = &lines[i];
        assert(all[i as int] == l@);
        if trim_of(l.text).len() > 0 {
            out.push(Line { start: l.start, end: l.end, text: l.text });
        }
        i = i + 1;
    }
    out
}

/// Whether a statement can only stand in a state diagram: a `[*]` before the
/// label, or the keyword `state`.
pub open spec fn signals_state(t: Seq<char>) -> bool {
    has_text(split(t, ':')[0], "[*]"@) || match keyword_and_rest(t) {
        Some((k, _)) => same_any_case(k, "state"@),
        None => false,
    }
}

/// Whether the statements are those of a state diagram.
pub open spec fn is_state_body(lines: Seq<LineView>) -> bool {
    exists|i: int| 0 <= i < lines.len() && signals_state(trim((#[trigger] lines[i]).text))
}

fn line_signals_state(t: &[char]) -> (r: bool)
    ensures
        r == signals_state(t@),
{
    let head = match find_char(t, ':') {
        Some(k) => take(t, k),
        None => t,
    };
    assert(head@ == split(t@, ':')[0]);
    if contains_text(head, "[*]") {
        return true;
    }
    match split_keyword(t) {
        Some((k, _)) => equals_any_case(k, "state"),
        None => false,
    }
}

/// Whether the statements are those of a state diagram.
pub fn body_is_state(lines: &[Line]) -> (r: bool)
    ensures
        r == is_state_body(views(lines@)),
{
    let ghost all = views(lines@);
    let mut i: usize = 0;
    while i < lines.len()
        invariant
            i <= lines@.len(),
            all == views(lines@),
            forall|k: int| 0 <= k < i ==> !signals_state(trim((#[trigger] all[k]).text)),
        decreases lines@.len() - i,
    {
        assert(all[i as int] == lines@[i as int]@);
        if line_signals_state(trim_of(lines[i].text)) {
            return true;
        }
        i = i + 1;
    }
    false
}

/// What the statements come to, after the errors found before.
pub open spec fn read_body(body: Seq<LineView>, errors: Seq<DiagnosticView>) -> ParsedView {
    if is_state_body(body) {
        verdict(DiagramView::State(state_diagram(body)), state_errors(body, errors))
    } else {
        verdict(
            DiagramView::Sequence(build_lines(body, body.len() as int)),
            sequence_errors(body, errors),
        )
    }
}

/// The kind that a header names: the word after `@start`.
pub open spec fn start_kind(rest: Seq<char>) -> Seq<char> {
    first_word(rest, rest)
}

/// What the lines come to, after the errors found before.
pub open spec fn read_lines(lines: Seq<LineView>, errors: Seq<DiagnosticView>) -> ParsedView {
    let first = lines[0];
    let h = trim(first.text);
    match after_prefix(h, "@start"@) {
        Some(rest) => if !same_any_case(start_kind(rest), "uml"@) {
            Err(
                errors.push(
                    diagnostic(
                        "unsupported: @start"@ + start_kind(rest)
                            + " diagram type; kozue-plantuml only supports @startuml (sequence diagrams)"@,
                        first.start,
                        first.end,
                    ),
                ),
            )
        } else {
            let end = lines.last();
            if same_any_case(trim(end.text), "@enduml"@) {
                read_body(lines.subrange(1, lines.len() - 1), errors)
            } else {
                read_body(
                    lines.skip(1),
                    errors.push(
                        diagnostic(
                            "missing `@enduml`: last non-comment line must be `@enduml`"@,
                            end.start,
                            end.end,
                        ),
                    ),
                )
            }
        },
        None => Err(
            errors.push(
                diagnostic(
                    "missing `@startuml`: first non-comment line must be `@startuml`, got `"@
                        + at_most(h, 40) + "`"@,
                    first.start,
                    first.end,
                ),
            ),
        ),
    }
}

/// The error about a block comment that is never closed.
pub open spec fn comment_errors(s: Seq<char>) -> Seq<DiagnosticView> {
    match unclosed(s) {
        Some((a, b)) => seq![
            diagnostic("unterminated block comment: `/'` was never closed with `'/`"@, a, b),
        ],
        None => Seq::empty(),
    }
}

/// What the text `s` behind a byte order mark comes to. Offsets count from its
/// start.
pub open spec fn read_text(s: Seq<char>) -> ParsedView {
    let lines = logical(masked(s));
    if lines.len() == 0 {
        Err(
            comment_errors(s).push(
                diagnostic(
                    "empty diagram: expected `@startuml` header"@,
                    0,
                    if byte_len(s) < 1 {
                        1
                    } else {
                        byte_len(s) as int
                    },
                ),
            ),
        )
    } else {
        read_lines(lines, comment_errors(s))
    }
}

/// What the PlantUML source `source` comes to. A byte order mark in front is no
/// part of the diagram; offsets count its bytes.
pub open spec fn plantuml(source: Seq<char>) -> ParsedView {
    moved_parse(read_text(without_bom(source)), mark_len(source))
}

fn parse_body(body: &[Line], errors: Vec<Diagnostic>) -> (r: Result<Diagram, Vec<Diagnostic>>)
    ensures
        parsed(r) == read_body(views(body@), views(errors@)),
{
    if body_is_state(body) {
        let errors = parse_state_body(body, errors);
        conclude(Diagram::State(parse_state_clean(body)), errors)
    } else {
        let errors = parse_sequence_body(body, errors);
        conclude(Diagram::Sequence(parse_sequence_clean(body)), errors)
    }
}

/// A header that names `@startuml` is no `@enduml`.
proof fn lemma_start_is_not_end(h: Seq<char>)
    requires
        has_prefix(h, "@start"@),
    ensures
        !same_any_case(h, "@enduml"@),
{
    reveal_strlit("@start");
    reveal_strlit("@enduml");
    assert(h.subrange(0, 6)[1] == h[1]);
    assert(upper(h)[1] == 'S');
    assert(upper("@enduml"@)[1] == 'E');
}

fn parse_lines(lines: &[Line], errors: Vec<Diagnostic>) -> (r: Result<Diagram, Vec<Diagnostic>>)
    requires
        lines@.len() > 0,
    ensures
        parsed(r) == read_lines(views(lines@), views(errors@)),
{
    let ghost all = views(lines@);
    let mut errors = errors;
    let n: usize = lines.len();
    let first = &lines[0];
    let last = &lines[n - 1];
    assert(all[0] == first@ && all.last() == last@);
    let h = trim_of(first.text);
    let rest = match strip_prefix(h, "@start") {
        Some(rest) => rest,
        None => {
            report(
                &mut errors,
                surround(
                    "missing `@startuml`: first non-comment line must be `@startuml`, got `",
                    clip(h, 40),
                    "`",
                ),
                first.start,
                first.end,
            );
            return Err(errors);
        },
    };
    let t = trim_start_of(rest);
    let kind: &[char] = if t.len() == 0 {
        rest
    } else {
        take(t, word_end(t, 0))
    };
    assert(kind@ == start_kind(rest@));
    if !equals_any_case(kind, "uml") {
        report(
            &mut errors,
            surround(
                "unsupported: @start",
                kind,
                " diagram type; kozue-plantuml only supports @startuml (sequence diagrams)",
            ),
            first.start,
            first.end,
        );
        return Err(errors);
    }
    if equals_any_case(trim_of(last.text), "@enduml") {
        proof {
            lemma_start_is_not_end(h@);
            lemma_views_subrange(lines@, 1, n - 1);
        }
        let body = vstd::slice::slice_subrange(lines, 1, n - 1);
        parse_body(body, errors)
    } else {
        report_str(
            &mut errors,
            "missing `@enduml`: last non-comment line must be `@enduml`",
            last.start,
            last.end,
        );
        proof {
            lemma_views_subrange(lines@, 1, n as int);
            assert(all.skip(1) =~= all.subrange(1, n as int));
        }
        let body = vstd::slice::slice_subrange(lines, 1, n);
        parse_body(body, errors)
    }
}

fn parse_text(s: &[char]) -> (r: Result<Diagram, Vec<Diagnostic>>)
    requires
        byte_len(s@) <= usize::MAX,
    ensures
        parsed(r) == read_text(s@),
{
    proof {
        law_mask_keeps_length(s@);
    }
    let (text, block) = mask_comments(s);
    let mut errors: Vec<Diagnostic> = Vec::new();
    assert(views(errors@) =~= Seq::<DiagnosticView>::empty());
    match block {
        Some((a, b)) => {
            report_str(
                &mut errors,
                "unterminated block comment: `/'` was never closed with `'/`",
                a,
                b,
            );
            assert(views(errors@) =~= comment_errors(s@));
        },
        None => {},
    }
    let lines = logical_lines(text.as_slice());
    if lines.len() == 0 {
        let n: usize = byte_len_of(s);
        report_str(
            &mut errors,
            "empty diagram: expected `@startuml` header",
            0,
            if n < 1 {
                1
            } else {
                n
            },
        );
        return Err(errors);
    }
    parse_lines(lines.as_slice(), errors)
}

/// Reads PlantUML source text into a diagram, or into all of its errors.
pub fn parse(source: &str) -> (r: Result<Diagram, Vec<Diagnostic>>)
    ensures
        parsed(r) == plantuml(source@),
{
    let total: usize = str_len(source);
    let chars = to_chars(source);
    let (s, mark) = strip_mark(chars.as_slice());
    proof {
        lemma_mark(source@);
        lemma_read_text(s@);
    }
    move_parse(parse_text(s), mark)
}

// ---------------------------------------------------------------------------
// Laws
// ---------------------------------------------------------------------------

/// The lines that are not blank are lines of the source.
proof fn lemma_filled(lines: Seq<LineView>, n: int, len: int)
    requires
        lines_within(lines, len),
        0 <= n <= lines.len(),
    ensures
        lines_within(filled(lines, n), len),
    decreases n,
{
    if n > 0 {
        lemma_filled(lines, n - 1, len);
    }
}

proof fn lemma_read_body(body: Seq<LineView>, errors: Seq<DiagnosticView>, len: int)
    requires
        lines_within(body, len),
        within(errors, len),
    ensures
        owed(read_body(body, errors), len),
{
    law_state_diagram(body, errors, len);
    law_no_line_is_passed_over(body, errors, len);
    law_messages_are_kept(body, body.len() as int);
}

/// What the text behind a byte order mark comes to: a sound diagram, or errors
/// that are all within it. Only where there is no text, the error is one byte
/// long all the same.
proof fn lemma_read_text(s: Seq<char>)
    ensures
        match read_text(s) {
            Ok(d) => sound(d),
            Err(e) => e.len() > 0 && within(
                e,
                if byte_len(s) < 1 {
                    1
                } else {
                    byte_len(s) as int
                },
            ),
        },
{
    let m = masked(s);
    let lines = logical(m);
    let len = byte_len(s) as int;
    let errors = comment_errors(s);
    law_mask_keeps_length(s);
    lemma_lines_wf(m, 0);
    lemma_lines_within(m, 0);
    assert forall|i: int| 0 <= i < lines_from(m, 0).len() implies line_wf(
        #[trigger] lines_from(m, 0)[i],
    ) && lines_from(m, 0)[i].end <= len by {}
    lemma_filled(lines_from(m, 0), lines_from(m, 0).len() as int, len);
    lemma_unclosed(s, 0, Mode::Normal, 0);
    if let Some(k) = unclosed_from(s, 0, Mode::Normal, 0) {
        lemma_byte_len_part(s, 0, k);
    }
    if lines.len() > 0 {
        let end = lines.last();
        assert(line_wf(lines[lines.len() - 1]) && line_wf(lines[0]));
        if lines.len() > 1 {
            lemma_read_body(lines.subrange(1, lines.len() - 1), errors, len);
        }
        lemma_read_body(
            lines.skip(1),
            errors.push(
                diagnostic(
                    "missing `@enduml`: last non-comment line must be `@enduml`"@,
                    end.start,
                    end.end,
                ),
            ),
            len,
        );
        if after_prefix(trim(lines[0].text), "@start"@) is Some {
            lemma_start_is_not_end(trim(lines[0].text));
        }
    }
}

/// Every diagram that is accepted is sound. A source that is refused has at least
/// one error.
pub proof fn law_accepted_is_sound(source: Seq<char>)
    ensures
        match plantuml(source) {
            Ok(d) => sound(d),
            Err(e) => e.len() > 0,
        },
{
    lemma_read_text(without_bom(source));
}

/// Errors are about bytes of the source, comments counted in. Only where the
/// source has no bytes, or none but a byte order mark, the error is about the byte
/// behind it.
pub proof fn law_errors_are_in_the_source(source: Seq<char>)
    requires
        byte_len(without_bom(source)) > 0,
    ensures
        plantuml(source) matches Err(e) ==> within(e, byte_len(source) as int),
{
    lemma_read_text(without_bom(source));
    lemma_mark(source);
}

/// A byte order mark in front of a source leaves the diagram as it is. The errors
/// of a source that is refused are the same, as many bytes further on as the mark
/// has.
pub proof fn law_mark_leaves_the_diagram(s: Seq<char>)
    requires
        !begins(s, '\u{feff}'),
    ensures
        match (plantuml(seq!['\u{feff}'] + s), plantuml(s)) {
            (Ok(a), Ok(b)) => a == b,
            (Err(a), Err(b)) => a.len() > 0 && a == moved(b, 3),
            _ => false,
        },
{
    lemma_marked(s);
    lemma_read_text(s);
    if let Err(e) = read_text(s) {
        assert(moved(e, 0) =~= e);
    }
}

} // verus!
