//! A byte order mark in front of a source.
//!
//! The mark is no part of the diagram. A frontend whose offsets are those of the
//! whole source moves its diagnostics by the bytes of the mark.
use crate::diag::{diagnostic, parsed, report, Diagnostic, DiagnosticView, ParsedView};
use crate::ir::Diagram;
use crate::offsets::{byte_len, lemma_byte_len_cut, lemma_byte_len_one};
use crate::sound::within;
use crate::text::{begins, lemma_views_push, skip, starts_with_char, views};
use vstd::prelude::*;

verus! {

/// The source without a byte order mark.
pub open spec fn without_bom(s: Seq<char>) -> Seq<char> {
    if begins(s, '\u{feff}') {
        s.skip(1)
    } else {
        s
    }
}

/// The bytes of the byte order mark in front of a source.
pub open spec fn mark_len(s: Seq<char>) -> int {
    if begins(s, '\u{feff}') {
        3
    } else {
        0
    }
}

/// The diagnostics, `n` bytes further on.
pub open spec fn moved(errors: Seq<DiagnosticView>, n: int) -> Seq<DiagnosticView> {
    Seq::new(
        errors.len(),
        |i: int| diagnostic(errors[i].message, errors[i].start + n, errors[i].end + n),
    )
}

/// What a parse comes to, its diagnostics `n` bytes further on.
pub open spec fn moved_parse(p: ParsedView, n: int) -> ParsedView {
    match p {
        Ok(d) => Ok(d),
        Err(e) => Err(moved(e, n)),
    }
}

/// The bytes of a source are those of the mark and those behind it.
pub proof fn lemma_mark(s: Seq<char>)
    ensures
        byte_len(s) == mark_len(s) + byte_len(without_bom(s)),
{
    if begins(s, '\u{feff}') {
        lemma_byte_len_cut(s, 1);
        assert(s.take(1) =~= seq!['\u{feff}']);
        lemma_byte_len_one('\u{feff}');
    }
}

/// A source with a mark in front.
pub proof fn lemma_marked(s: Seq<char>)
    ensures
        without_bom(seq!['\u{feff}'] + s) == s,
        mark_len(seq!['\u{feff}'] + s) == 3,
{
    assert((seq!['\u{feff}'] + s).skip(1) =~= s);
}

/// The characters behind a byte order mark, and the bytes of the mark.
pub fn strip_mark<'a>(s: &'a [char]) -> (r: (&'a [char], usize))
    ensures
        r.0@ == without_bom(s@),
        r.1 == mark_len(s@),
{
    if starts_with_char(s, '\u{feff}') {
        (skip(s, 1), 3)
    } else {
        (s, 0)
    }
}

/// Moves the diagnostics of a parse `n` bytes further on.
pub fn move_parse(r: Result<Diagram, Vec<Diagnostic>>, n: usize) -> (m: Result<
    Diagram,
    Vec<Diagnostic>,
>)
    requires
        parsed(r) matches Err(e) ==> within(e, usize::MAX - n),
    ensures
        parsed(m) == moved_parse(parsed(r), n as int),
{
    broadcast use lemma_views_push;

    let errors = match r {
        Ok(d) => {
            return Ok(d);
        },
        Err(errors) => errors,
    };
    let ghost all = views(errors@);
    let mut out: Vec<Diagnostic> = Vec::new();
    let mut i: usize = 0;
    assert(views(out@) =~= moved(all, n as int).take(0));
    while i < errors.len()
        invariant
            i <= errors@.len(),
            all == views(errors@),
            within(all, usize::MAX - n),
            views(out@) == moved(all, n as int).take(i as int),
        decreases errors@.len() - i,
    {
        broadcast use lemma_views_push;

        let e = &errors[i];
        assert(all[i as int] == e@);
        report(&mut out, e.message.clone(), e.span.start + n, e.span.end + n);
        assert(moved(all, n as int).take(i as int).push(moved(all, n as int)[i as int]) =~= moved(
            all,
            n as int,
        ).take(i + 1));
        i = i + 1;
    }
    assert(moved(all, n as int).take(i as int) =~= moved(all, n as int));
    Err(out)
}

} // verus!
