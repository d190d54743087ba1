//! The frontend for Mermaid sources.
//!
//! A source is a header line, which says what kind of diagram follows, and one
//! statement on each line after it. All errors of a source are collected before
//! it is refused.
use crate::diag::{diagnostic, parsed, report, report_str, Diagnostic, DiagnosticView, ParsedView};
use crate::ir::{Diagram, DiagramView, Direction, IrDocument};
use crate::lines::{
    after_keyword, lemma_lines_wf, lemma_lines_within, line_wf, lines_from, lines_wf, split_lines,
    strip_keyword_ci, Line, LineView,
};
use crate::mark::{lemma_mark, lemma_marked, strip_mark, without_bom};
use crate::mermaid::class::{classes, law_classes, parse_class};
use crate::mermaid::er::{entities, law_entities, parse_er};
use crate::mermaid::flowchart::{flowchart, law_flowchart, parse_flowchart};
use crate::mermaid::sequence::{law_sequence, parse_sequence, sequence};
use crate::mermaid::state::{law_states, parse_state, states};
use crate::offsets::{byte_len, byte_len_of, str_len};
use crate::sound::{lines_within, loop_free, owed, sound, within};
use crate::text::{
    at_most, begins, blank, clip, equals, has_prefix, is_blank, lemma_views_push,
    lemma_views_subrange, starts_with, surround, to_chars, to_upper, trim, trim_of, upper, views,
};
use vstd::prelude::*;

pub mod chain;
pub mod class;
pub mod edges;
pub mod er;
pub mod features;
pub mod flowchart;
pub mod groups;
pub mod laws;
pub mod members;
pub mod readings;
pub mod scan;
pub mod sequence;
pub mod state;
pub mod tokens;

verus! {

/// Whether a line says anything: it is not blank and no comment.
pub open spec fn says_something(l: LineView) -> bool {
    trim(l.text).len() > 0 && !has_prefix(trim(l.text), "%%"@)
}

/// Those of the first `n` lines that say anything.
pub open spec fn saying(lines: Seq<LineView>, n: int) -> Seq<LineView>
    decreases n,
{
    if n <= 0 {
        Seq::empty()
    } else if says_something(lines[n - 1]) {
        saying(lines, n - 1).push(lines[n - 1])
    } else {
        saying(lines, n - 1)
    }
}

/// The lines of `s` that say anything.
pub open spec fn logical(s: Seq<char>) -> Seq<LineView> {
    saying(lines_from(s, 0), lines_from(s, 0).len() as int)
}

/// The lines that say anything are among the lines.
pub proof fn lemma_saying(lines: Seq<LineView>, n: int)
    requires
        0 <= n <= lines.len(),
    ensures
        saying(lines, n).len() <= n,
        lines_wf(lines) ==> lines_wf(saying(lines, n)),
        forall|i: int|
            0 <= i < saying(lines, n).len() ==> exists|j: int|
                0 <= j < n && lines[j] == #[trigger] saying(lines, n)[i],
    decreases n,
{
    if n > 0 {
        lemma_saying(lines, n - 1);
        assert forall|i: int| 0 <= i < saying(lines, n).len() implies exists|j: int|
            0 <= j < n && lines[j] == #[trigger] saying(lines, n)[i] by {
            if i < saying(lines, n - 1).len() {
                assert(saying(lines, n)[i] == saying(lines, n - 1)[i]);
                let j = choose|j: int| 0 <= j < n - 1 && lines[j] == saying(lines, n - 1)[i];
                assert(lines[j] == saying(lines, n)[i]);
            } else {
                assert(lines[n - 1] == saying(lines, n)[i]);
            }
        }
    }
}

/// The lines of `s` that say anything, with their byte offsets.
pub fn logical_lines<'a>(s: &'a [char]) -> (r: Vec<Line<'a>>)
    requires
        byte_len(s@) <= usize::MAX,
    ensures
        views(r@) == logical(s@),
{
    broadcast use lemma_views_push;

    let lines = split_lines(s);
    let ghost all = views(lines@);
    let mut out: Vec<Line<'a>> = Vec::new();
    let mut i: usize = 0;
    assert(views(out@) =~= Seq::<LineView>::empty());
    while i < lines.len()
        invariant
            i <= lines@.len(),
            all == views(lines@),
            views(out@) == saying(all, i as int),
        decreases lines@.len() - i,
    {
        broadcast use lemma_views_push;

        let l = &lines[i];
        assert(all[i as int] == l@);
        let t = trim_of(l.text);
        if t.len() > 0 && !starts_with(t, "%%") {
            out.push(Line { start: l.start, end: l.end, text: l.text });
        }
        i = i + 1;
    }
    out
}

/// The direction that a flowchart header gives, and whether it is one.
pub open spec fn header_direction(d: Seq<char>) -> (Direction, bool) {
    let u = upper(d);
    if u == "TD"@ || u == "TB"@ {
        (Direction::Down, true)
    } else if u == "LR"@ {
        (Direction::Right, true)
    } else if u == "RL"@ {
        (Direction::Left, true)
    } else if u == "BT"@ {
        (Direction::Up, true)
    } else {
        (Direction::Down, u.len() == 0)
    }
}

/// The error about words after a header, where there are any.
pub open spec fn header_errors(rest: Seq<char>, message: Seq<char>, l: LineView) -> Seq<
    DiagnosticView,
> {
    if blank(rest) {
        Seq::empty()
    } else {
        seq![diagnostic(message, l.start, l.end)]
    }
}

/// What follows the keyword of a flowchart.
pub open spec fn after_flowchart(h: Seq<char>) -> Option<Seq<char>> {
    match after_keyword(h, "flowchart"@) {
        Some(r) => Some(r),
        None => after_keyword(h, "graph"@),
    }
}

/// What follows the keyword of a state diagram.
pub open spec fn after_state_diagram(h: Seq<char>) -> Option<Seq<char>> {
    match after_keyword(h, "stateDiagram-v2"@) {
        Some(r) => Some(r),
        None => after_keyword(h, "stateDiagram"@),
    }
}

/// What the flowchart with the direction `d` comes to.
pub open spec fn read_flowchart(d: Seq<char>, l: LineView, rest: Seq<LineView>) -> ParsedView {
    let (direction, known) = header_direction(d);
    flowchart(
        rest,
        direction,
        if known {
            Seq::empty()
        } else {
            seq![
                diagnostic(
                    "unknown flowchart direction `"@ + d + "`; expected TD, TB, LR, RL, or BT"@,
                    l.start,
                    l.end,
                ),
            ]
        },
    )
}

/// What the diagram with the header line `l` comes to, `rest` being the lines
/// after it.
pub open spec fn read_diagram(l: LineView, rest: Seq<LineView>) -> ParsedView {
    let h = trim(l.text);
    match after_keyword(h, "sequenceDiagram"@) {
        Some(r) => sequence(
            rest,
            header_errors(
                r,
                "unexpected tokens after `sequenceDiagram`; the header must be on its own line"@,
                l,
            ),
        ),
        None => match after_flowchart(h) {
            Some(r) => read_flowchart(trim(r), l, rest),
            None => match after_state_diagram(h) {
                Some(r) => states(
                    rest,
                    header_errors(
                        r,
                        "unexpected tokens after `stateDiagram`; the header must be on its own line"@,
                        l,
                    ),
                ),
                None => match after_keyword(h, "classDiagram"@) {
                    Some(r) => classes(
                        rest,
                        header_errors(
                            r,
                            "unexpected tokens after `classDiagram`; the header must be on its own line"@,
                            l,
                        ),
                    ),
                    None => match after_keyword(h, "erDiagram"@) {
                        Some(r) => entities(
                            rest,
                            header_errors(
                                r,
                                "unexpected tokens after `erDiagram`; the header must be on its own line"@,
                                l,
                            ),
                        ),
                        None => Err(
                            seq![
                                diagnostic(
                                    "unrecognised diagram header `"@ + at_most(h, 40)
                                        + "`; expected `flowchart`, `graph`, `sequenceDiagram`, `stateDiagram-v2`, `classDiagram`, or `erDiagram`"@,
                                    l.start,
                                    l.end,
                                ),
                            ],
                        ),
                    },
                },
            },
        },
    }
}

/// What the text `s` behind a byte order mark comes to. Offsets count from its
/// start.
pub open spec fn read_text(s: Seq<char>) -> ParsedView {
    let lines = logical(s);
    if lines.len() == 0 {
        Err(
            seq![
                diagnostic(
                    "empty diagram: expected `flowchart`, `sequenceDiagram`, or `stateDiagram-v2` header"@,
                    0,
                    if byte_len(s) < 1 {
                        1
                    } else {
                        byte_len(s) as int
                    },
                ),
            ],
        )
    } else {
        read_diagram(lines[0], lines.skip(1))
    }
}

/// What the Mermaid source `source` comes to. A byte order mark in front is no
/// part of the diagram, and offsets count from behind it.
pub open spec fn mermaid(source: Seq<char>) -> ParsedView {
    read_text(without_bom(source))
}

fn check_header(rest: &[char], message: &str, l: &Line) -> (r: Vec<Diagnostic>)
    ensures
        views(r@) == header_errors(rest@, message@, l@),
{
    let mut errors: Vec<Diagnostic> = Vec::new();
    assert(views(errors@) =~= Seq::<DiagnosticView>::empty());
    if !is_blank(rest) {
        report_str(&mut errors, message, l.start, l.end);
        assert(views(errors@) =~= header_errors(rest@, message@, l@));
    }
    errors
}

fn one_error(message: String, start: usize, end: usize) -> (r: Vec<Diagnostic>)
    ensures
        views(r@) == seq![diagnostic(message@, start as int, end as int)],
{
    let mut errors: Vec<Diagnostic> = Vec::new();
    assert(views(errors@) =~= Seq::<DiagnosticView>::empty());
    report(&mut errors, message, start, end);
    assert(views(errors@) =~= seq![diagnostic(message@, start as int, end as int)]);
    errors
}

fn start_flowchart(d: &[char], l: &Line, rest: &[Line]) -> (r: Result<Diagram, Vec<Diagnostic>>)
    requires
        lines_wf(views(rest@)),
    ensures
        parsed(r) == read_flowchart(d@, l@, views(rest@)),
{
    let u = to_upper(d);
    let u = u.as_slice();
    let (direction, known) = if equals(u, "TD") || equals(u, "TB") {
        (Direction::Down, true)
    } else if equals(u, "LR") {
        (Direction::Right, true)
    } else if equals(u, "RL") {
        (Direction::Left, true)
    } else if equals(u, "BT") {
        (Direction::Up, true)
    } else {
        (Direction::Down, u.len() == 0)
    };
    let errors = if known {
        let errors: Vec<Diagnostic> = Vec::new();
        assert(views(errors@) =~= Seq::<DiagnosticView>::empty());
        errors
    } else {
        one_error(
            surround(
                "unknown flowchart direction `",
                d,
                "`; expected TD, TB, LR, RL, or BT",
            ),
            l.start,
            l.end,
        )
    };
    parse_flowchart(rest, direction, errors)
}

fn dispatch(l: &Line, rest: &[Line]) -> (r: Result<Diagram, Vec<Diagnostic>>)
    requires
        lines_wf(views(rest@)),
    ensures
        parsed(r) == read_diagram(l@, views(rest@)),
{
    let h = trim_of(l.text);
    match strip_keyword_ci(h, "sequenceDiagram") {
        Some(r) => {
            return parse_sequence(
                rest,
                check_header(
                    r,
                    "unexpected tokens after `sequenceDiagram`; the header must be on its own line",
                    l,
                ),
            );
        },
        None => {},
    }
    match strip_keyword_ci(h, "flowchart") {
        Some(r) => {
            return start_flowchart(trim_of(r), l, rest);
        },
        None => {},
    }
    match strip_keyword_ci(h, "graph") {
        Some(r) => {
            return start_flowchart(trim_of(r), l, rest);
        },
        None => {},
    }
    let after_state = match strip_keyword_ci(h, "stateDiagram-v2") {
        Some(r) => Some(r),
        None => strip_keyword_ci(h, "stateDiagram"),
    };
    match after_state {
        Some(r) => {
            return parse_state(
                rest,
                check_header(
                    r,
                    "unexpected tokens after `stateDiagram`; the header must be on its own line",
                    l,
                ),
            );
        },
        None => {},
    }
    match strip_keyword_ci(h, "classDiagram") {
        Some(r) => {
            return parse_class(
                rest,
                check_header(
                    r,
                    "unexpected tokens after `classDiagram`; the header must be on its own line",
                    l,
                ),
            );
        },
        None => {},
    }
    match strip_keyword_ci(h, "erDiagram") {
        Some(r) => {
            return parse_er(
                rest,
                check_header(
                    r,
                    "unexpected tokens after `erDiagram`; the header must be on its own line",
                    l,
                ),
            );
        },
        None => {},
    }
    Err(
        one_error(
            surround(
                "unrecognised diagram header `",
                clip(h, 40),
                "`; expected `flowchart`, `graph`, `sequenceDiagram`, `stateDiagram-v2`, `classDiagram`, or `erDiagram`",
            ),
            l.start,
            l.end,
        ),
    )
}

fn parse_text(s: &[char]) -> (r: Result<Diagram, Vec<Diagnostic>>)
    requires
        byte_len(s@) <= usize::MAX,
    ensures
        parsed(r) == read_text(s@),
{
    proof {
        lemma_lines_wf(s@, 0);
        lemma_saying(lines_from(s@, 0), lines_from(s@, 0).len() as int);
    }
    let lines = logical_lines(s);
    if lines.len() == 0 {
        let n: usize = byte_len_of(s);
        return Err(
            one_error(
                String::from_str(
                    "empty diagram: expected `flowchart`, `sequenceDiagram`, or `stateDiagram-v2` header",
                ),
                0,
                if n < 1 {
                    1
                } else {
                    n
                },
            ),
        );
    }
    let rest = vstd::slice::slice_subrange(lines.as_slice(), 1, lines.len());
    proof {
        lemma_views_subrange(lines@, 1, lines@.len() as int);
        assert(views(rest@) =~= logical(s@).skip(1));
        assert forall|i: int| 0 <= i < views(rest@).len() implies line_wf(
            #[trigger] views(rest@)[i],
        ) by {
            assert(views(rest@)[i] == logical(s@)[i + 1]);
        }
    }
    dispatch(&lines[0], rest)
}

fn parse_diagram(source: &str) -> (r: Result<Diagram, Vec<Diagnostic>>)
    ensures
        parsed(r) == mermaid(source@),
{
    let total: usize = str_len(source);
    let chars = to_chars(source);
    let (s, _) = strip_mark(chars.as_slice());
    proof {
        lemma_mark(source@);
    }
    parse_text(s)
}

/// Reads Mermaid source text into a document. Mermaid has no document name in
/// the supported headers, so the document has none.
pub fn parse_document(source: &str) -> (r: Result<IrDocument, Vec<Diagnostic>>)
    ensures
        match r {
            Ok(d) => mermaid(source@) == Ok::<DiagramView, Seq<DiagnosticView>>(d.diagram@)
                && d.metadata.name is None && d.extensions@.len() == 0,
            Err(e) => mermaid(source@) == Err::<DiagramView, Seq<DiagnosticView>>(views(e@)),
        },
{
    match parse_diagram(source) {
        Ok(d) => Ok(IrDocument::new(d)),
        Err(e) => Err(e),
    }
}

/// Reads Mermaid source text into a diagram, or into all of its errors.
pub fn parse(source: &str) -> (r: Result<Diagram, Vec<Diagnostic>>)
    ensures
        parsed(r) == mermaid(source@),
{
    match parse_document(source) {
        Ok(d) => Ok(d.into_diagram()),
        Err(e) => Err(e),
    }
}

// ---------------------------------------------------------------------------
// Laws
// ---------------------------------------------------------------------------

/// What a source that is not empty comes to: a sound diagram, or errors that are
/// all within it.
proof fn lemma_read_diagram(l: LineView, rest: Seq<LineView>, len: int)
    requires
        line_wf(l),
        l.end <= len,
        lines_within(rest, len),
    ensures
        owed(read_diagram(l, rest), len),
        read_diagram(l, rest) matches Ok(d) ==> loop_free(d),
{
    let h = trim(l.text);
    match after_keyword(h, "sequenceDiagram"@) {
        Some(r) => {
            let e = header_errors(
                r,
                "unexpected tokens after `sequenceDiagram`; the header must be on its own line"@,
                l,
            );
            law_sequence(rest, e, len);
        },
        None => match after_flowchart(h) {
            Some(r) => {
                let (direction, known) = header_direction(trim(r));
                let e = if known {
                    Seq::empty()
                } else {
                    seq![
                        diagnostic(
                            "unknown flowchart direction `"@ + trim(r)
                                + "`; expected TD, TB, LR, RL, or BT"@,
                            l.start,
                            l.end,
                        ),
                    ]
                };
                law_flowchart(rest, direction, e, len);
            },
            None => match after_state_diagram(h) {
                Some(r) => {
                    let e = header_errors(
                        r,
                        "unexpected tokens after `stateDiagram`; the header must be on its own line"@,
                        l,
                    );
                    law_states(rest, e, len);
                },
                None => match after_keyword(h, "classDiagram"@) {
                    Some(r) => {
                        let e = header_errors(
                            r,
                            "unexpected tokens after `classDiagram`; the header must be on its own line"@,
                            l,
                        );
                        law_classes(rest, e, len);
                    },
                    None => match after_keyword(h, "erDiagram"@) {
                        Some(r) => {
                            let e = header_errors(
                                r,
                                "unexpected tokens after `erDiagram`; the header must be on its own line"@,
                                l,
                            );
                            law_entities(rest, e, len);
                        },
                        None => {},
                    },
                },
            },
        },
    }
}

/// The lines that say anything are lines of the source.
proof fn lemma_logical_within(s: Seq<char>)
    ensures
        lines_within(logical(s), byte_len(s) as int),
{
    let lines = lines_from(s, 0);
    let n = lines.len() as int;
    lemma_lines_wf(s, 0);
    lemma_lines_within(s, 0);
    lemma_saying(lines, n);
    assert forall|i: int| 0 <= i < logical(s).len() implies line_wf(#[trigger] logical(s)[i])
        && logical(s)[i].end <= byte_len(s) by {
        let j = choose|j: int| 0 <= j < n && lines[j] == #[trigger] saying(lines, n)[i];
        assert(lines_from(s, 0)[j].end <= byte_len(s));
    }
}

/// What the text behind a byte order mark comes to: a sound diagram, or errors
/// that are all within it. Only where there is no text, the error is one byte
/// long all the same.
proof fn lemma_read_text(s: Seq<char>)
    ensures
        match read_text(s) {
            Ok(d) => sound(d) && loop_free(d),
            Err(e) => e.len() > 0 && within(
                e,
                if byte_len(s) < 1 {
                    1
                } else {
                    byte_len(s) as int
                },
            ),
        },
{
    let lines = logical(s);
    lemma_logical_within(s);
    if lines.len() > 0 {
        lemma_read_diagram(lines[0], lines.skip(1), byte_len(s) as int);
    }
}

/// Every diagram that is accepted is sound, and no edge and no relation in it goes
/// from a thing to itself. A source that is refused has at least one error.
pub proof fn law_accepted_is_sound(source: Seq<char>)
    ensures
        match mermaid(source) {
            Ok(d) => sound(d) && loop_free(d),
            Err(e) => e.len() > 0,
        },
{
    lemma_read_text(without_bom(source));
}

/// Errors are about bytes of the text, which begins behind a byte order mark. Only
/// where there is no text, the error is one byte long all the same.
pub proof fn law_errors_are_in_the_source(source: Seq<char>)
    requires
        byte_len(without_bom(source)) > 0,
    ensures
        mermaid(source) matches Err(e) ==> within(e, byte_len(without_bom(source)) as int),
        byte_len(without_bom(source)) <= byte_len(source),
{
    lemma_read_text(without_bom(source));
    lemma_mark(source);
}

/// A byte order mark in front of a source changes nothing.
pub proof fn law_mark_changes_nothing(s: Seq<char>)
    requires
        !begins(s, '\u{feff}'),
    ensures
        mermaid(seq!['\u{feff}'] + s) == mermaid(s),
{
    lemma_marked(s);
}

} // verus!
