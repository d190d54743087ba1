//! The pipeline behind the JavaScript interface: a language by name, and errors
//! as text.
use crate::diag::{parsed, Diagnostic, DiagnosticView, ParsedView};
use crate::ir::{Diagram, DiagramView};
use crate::lsp::{DslDiagnostic, DslDiagnosticView};
use crate::mermaid::mermaid;
use crate::plantuml::plantuml;
use crate::position::{chars_before, line_and_column, line_col, SpanUnit};
use crate::text::{concat, decimal, join, joined, lemma_views_push, push_wide, same_str, views};
use std::ops::Range;
use vstd::prelude::*;

pub mod laws;

verus! {

/// A diagram language.
#[derive(Debug, Clone, Copy, PartialEq, Eq, Structural)]
pub enum Lang {
    /// Kozue's own.
    Kozue,
    /// Mermaid.
    Mermaid,
    /// PlantUML.
    Plantuml,
}

/// The language with the name `name`, or what is wrong with it.
pub open spec fn lang_of(name: Seq<char>) -> Result<Lang, Seq<char>> {
    if name == "kozue"@ {
        Ok(Lang::Kozue)
    } else if name == "mermaid"@ {
        Ok(Lang::Mermaid)
    } else if name == "plantuml"@ {
        Ok(Lang::Plantuml)
    } else {
        Err("unknown language: "@ + name)
    }
}

/// The model of a language, or of what is wrong.
pub open spec fn lang_view(r: Result<Lang, String>) -> Result<Lang, Seq<char>> {
    match r {
        Ok(l) => Ok(l),
        Err(e) => Err(e@),
    }
}

/// The language with the name `lang`.
pub fn parse_lang(lang: &str) -> (r: Result<Lang, String>)
    ensures
        lang_view(r) == lang_of(lang@),
{
    if same_str(lang, "kozue") {
        Ok(Lang::Kozue)
    } else if same_str(lang, "mermaid") {
        Ok(Lang::Mermaid)
    } else if same_str(lang, "plantuml") {
        Ok(Lang::Plantuml)
    } else {
        Err(concat("unknown language: ", lang))
    }
}

// ---------------------------------------------------------------------------
// Errors as text
// ---------------------------------------------------------------------------

/// A message with the line and the column it is about.
pub open spec fn located(
    head: Seq<char>,
    input: Seq<char>,
    message: Seq<char>,
    start: int,
    unit: SpanUnit,
) -> Seq<char> {
    let at = line_and_column(input, chars_before(input, start, unit));
    head + decimal(at.0) + ", column "@ + decimal(at.1) + ": "@ + message
}

fn locate_message(head: &str, input: &str, message: &str, start: usize, unit: SpanUnit) -> (r:
    String)
    ensures
        r@ == located(head@, input@, message@, start as int, unit),
{
    let (line, col): (u128, u128) = line_col(input, start, unit);
    let mut out = String::from_str(head);
    push_wide(&mut out, line);
    out.append(", column ");
    push_wide(&mut out, col);
    out.append(": ");
    out.append(message);
    out
}

/// An error as a line of text.
pub fn format_diagnostic(input: &str, message: &str, span: &Range<usize>, unit: SpanUnit) -> (r:
    String)
    ensures
        r@ == located("error at line "@, input@, message@, span.start as int, unit),
{
    locate_message("error at line ", input, message, span.start, unit)
}

/// A remark that belongs to an error as a line of text.
pub fn format_secondary(input: &str, message: &str, span: &Range<usize>, unit: SpanUnit) -> (r:
    String)
    ensures
        r@ == located("  note at line "@, input@, message@, span.start as int, unit),
{
    locate_message("  note at line ", input, message, span.start, unit)
}

/// The lines for the first `n` errors of the frontend for kozue's own language: a
/// line for each, and one for its remark where it has one.
pub open spec fn dsl_lines(input: Seq<char>, errors: Seq<DslDiagnosticView>, n: int) -> Seq<Seq<char>>
    decreases n,
{
    if n <= 0 {
        Seq::empty()
    } else {
        let e = errors[n - 1];
        let told = dsl_lines(input, errors, n - 1).push(
            located("error at line "@, input, e.message, e.start, SpanUnit::Char),
        );
        match e.secondary {
            Some(s) => told.push(
                located("  note at line "@, input, s.message, s.start, SpanUnit::Char),
            ),
            None => told,
        }
    }
}

/// The lines for the errors of another frontend.
pub open spec fn error_lines(input: Seq<char>, errors: Seq<DiagnosticView>) -> Seq<Seq<char>> {
    Seq::new(
        errors.len(),
        |i: int| located(
            "error at line "@,
            input,
            errors[i].message,
            errors[i].start,
            SpanUnit::Byte,
        ),
    )
}

/// A diagram, or a text about what is wrong.
pub type CheckedView = Result<DiagramView, Seq<char>>;

/// The model of a diagram, or of a text about what is wrong.
pub open spec fn checked_view(r: Result<Diagram, String>) -> CheckedView {
    match r {
        Ok(d) => Ok(d@),
        Err(e) => Err(e@),
    }
}

/// What a parse comes to, with its errors as text.
pub open spec fn told(input: Seq<char>, p: ParsedView) -> CheckedView {
    match p {
        Ok(d) => Ok(d),
        Err(e) => Err(joined(error_lines(input, e), "\n"@)),
    }
}

/// What the frontend for kozue's own language comes to, with its errors as text.
pub open spec fn told_dsl(
    input: Seq<char>,
    p: Result<DiagramView, Seq<DslDiagnosticView>>,
) -> CheckedView {
    match p {
        Ok(d) => Ok(d),
        Err(e) => Err(joined(dsl_lines(input, e, e.len() as int), "\n"@)),
    }
}

/// The model of what the frontend for kozue's own language comes to.
pub open spec fn dsl_view(r: Result<Diagram, Vec<DslDiagnostic>>) -> Result<
    DiagramView,
    Seq<DslDiagnosticView>,
> {
    match r {
        Ok(d) => Ok(d@),
        Err(e) => Err(views(e@)),
    }
}

/// What `input` comes to in the language `lang`.
pub open spec fn checked(
    input: Seq<char>,
    lang: Lang,
    dsl: Result<DiagramView, Seq<DslDiagnosticView>>,
) -> CheckedView {
    match lang {
        Lang::Kozue => told_dsl(input, dsl),
        Lang::Mermaid => told(input, mermaid(input)),
        Lang::Plantuml => told(input, plantuml(input)),
    }
}

fn tell(input: &str, parse: Result<Diagram, Vec<Diagnostic>>) -> (r: Result<Diagram, String>)
    ensures
        checked_view(r) == told(input@, parsed(parse)),
{
    match parse {
        Ok(d) => Ok(d),
        Err(errors) => {
            let mut lines: Vec<String> = Vec::new();
            let mut i: usize = 0;
            while i < errors.len()
                invariant
                    i <= errors@.len(),
                    lines@.len() == i,
                    forall|k: int|
                        0 <= k < i ==> (#[trigger] lines@[k])@ == located(
                            "error at line "@,
                            input@,
                            errors@[k]@.message,
                            errors@[k]@.start,
                            SpanUnit::Byte,
                        ),
                decreases errors@.len() - i,
            {
                let e = &errors[i];
                lines.push(format_diagnostic(input, e.message.as_str(), &e.span, SpanUnit::Byte));
                i = i + 1;
            }
            assert(views(lines@) =~= error_lines(input@, views(errors@)));
            Err(join(&lines, "\n"))
        },
    }
}

fn tell_dsl(input: &str, dsl: Result<Diagram, Vec<DslDiagnostic>>) -> (r: Result<Diagram, String>)
    ensures
        checked_view(r) == told_dsl(input@, dsl_view(dsl)),
{
    broadcast use lemma_views_push;

    match dsl {
        Ok(d) => Ok(d),
        Err(errors) => {
            let ghost all = views(errors@);
            let mut lines: Vec<String> = Vec::new();
            let mut i: usize = 0;
            assert(views(lines@) =~= Seq::<Seq<char>>::empty());
            while i < errors.len()
                invariant
                    i <= errors@.len(),
                    all == views(errors@),
                    views(lines@) == dsl_lines(input@, all, i as int),
                decreases errors@.len() - i,
            {
                broadcast use lemma_views_push;

                let e = &errors[i];
                assert(all[i as int] == e@);
                lines.push(format_diagnostic(input, e.message.as_str(), &e.span, SpanUnit::Char));
                match &e.secondary {
                    Some(s) => {
                        lines.push(
                            format_secondary(input, s.message.as_str(), &s.span, SpanUnit::Char),
                        );
                    },
                    None => {},
                }
                i = i + 1;
            }
            Err(join(&lines, "\n"))
        },
    }
}

/// What `input` comes to in the language `lang`. `dsl` is what the frontend for
/// kozue's own language makes of it.
pub fn parse_any(input: &str, lang: Lang, dsl: Result<Diagram, Vec<DslDiagnostic>>) -> (r: Result<
    Diagram,
    String,
>)
    ensures
        checked_view(r) == checked(input@, lang, dsl_view(dsl)),
{
    match lang {
        Lang::Kozue => tell_dsl(input, dsl),
        Lang::Mermaid => tell(input, crate::mermaid::parse(input)),
        Lang::Plantuml => tell(input, crate::plantuml::parse(input)),
    }
}

/// What `input` comes to in the language with the name `lang`.
pub open spec fn checked_by_name(
    input: Seq<char>,
    lang: Seq<char>,
    dsl: Result<DiagramView, Seq<DslDiagnosticView>>,
) -> CheckedView {
    match lang_of(lang) {
        Ok(l) => checked(input, l, dsl),
        Err(e) => Err(e),
    }
}

/// What `input` comes to in the language with the name `lang`.
pub fn parse_by_name(input: &str, lang: &str, dsl: Result<Diagram, Vec<DslDiagnostic>>) -> (r:
    Result<Diagram, String>)
    ensures
        checked_view(r) == checked_by_name(input@, lang@, dsl_view(dsl)),
{
    match parse_lang(lang) {
        Ok(l) => parse_any(input, l, dsl),
        Err(e) => Err(e),
    }
}

/// Whether `input` is a diagram in the language with the name `lang`, or else a
/// text about what is wrong.
pub fn check_impl(input: &str, lang: &str, dsl: Result<Diagram, Vec<DslDiagnostic>>) -> (r: Result<
    (),
    String,
>)
    ensures
        match (r, checked_by_name(input@, lang@, dsl_view(dsl))) {
            (Ok(_), Ok(_)) => true,
            (Err(a), Err(b)) => a@ == b,
            _ => false,
        },
{
    match parse_by_name(input, lang, dsl) {
        Ok(_) => Ok(()),
        Err(e) => Err(e),
    }
}

} // verus!
