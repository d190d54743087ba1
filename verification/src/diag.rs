//! Positioned errors.
use crate::ir::{Diagram, DiagramView};
use crate::text::{lemma_views_push, views};
use std::ops::Range;
use vstd::prelude::*;

verus! {

/// A user-facing parse error with a byte-offset span.
#[derive(Debug)]
pub struct Diagnostic {
    /// What is wrong.
    pub message: String,
    /// The bytes of the source that the message is about.
    pub span: Range<usize>,
}

/// What a [`Diagnostic`] says.
#[verifier::ext_equal]
pub struct DiagnosticView {
    pub message: Seq<char>,
    pub start: int,
    pub end: int,
}

impl View for Diagnostic {
    type V = DiagnosticView;

    open spec fn view(&self) -> DiagnosticView {
        diagnostic(self.message@, self.span.start as int, self.span.end as int)
    }
}

impl Clone for Diagnostic {
    fn clone(&self) -> (r: Self)
        ensures
            r@ == self@,
    {
        Diagnostic { message: self.message.clone(), span: self.span.start..self.span.end }
    }
}

/// The diagnostic `message` about the bytes `start..end`.
pub open spec fn diagnostic(message: Seq<char>, start: int, end: int) -> DiagnosticView {
    DiagnosticView { message, start, end }
}

impl Diagnostic {
    /// The diagnostic `message` about `span`.
    pub fn new(message: String, span: Range<usize>) -> (r: Self)
        ensures
            r@ == diagnostic(message@, span.start as int, span.end as int),
    {
        Diagnostic { message, span }
    }
}

/// What a parse comes to: a diagram, or diagnostics.
pub type ParsedView = Result<DiagramView, Seq<DiagnosticView>>;

/// The model of what a parse comes to.
pub open spec fn parsed(r: Result<Diagram, Vec<Diagnostic>>) -> ParsedView {
    match r {
        Ok(d) => Ok(d@),
        Err(e) => Err(views(e@)),
    }
}

/// The diagram, unless there are diagnostics.
pub open spec fn verdict(d: DiagramView, errors: Seq<DiagnosticView>) -> ParsedView {
    if errors.len() == 0 {
        Ok(d)
    } else {
        Err(errors)
    }
}

/// The diagram, unless there are diagnostics.
pub fn conclude(d: Diagram, errors: Vec<Diagnostic>) -> (r: Result<Diagram, Vec<Diagnostic>>)
    ensures
        parsed(r) == verdict(d@, views(errors@)),
{
    if errors.len() == 0 {
        Ok(d)
    } else {
        Err(errors)
    }
}

/// Adds the diagnostic `message` about the bytes `start..end`.
pub fn report(errors: &mut Vec<Diagnostic>, message: String, start: usize, end: usize)
    ensures
        views(final(errors)@) == views(old(errors)@).push(
            diagnostic(message@, start as int, end as int),
        ),
{
    broadcast use lemma_views_push;

    errors.push(Diagnostic::new(message, start..end));
}

/// Adds the diagnostic `message` about the bytes `start..end`.
pub fn report_str(errors: &mut Vec<Diagnostic>, message: &str, start: usize, end: usize)
    ensures
        views(final(errors)@) == views(old(errors)@).push(
            diagnostic(message@, start as int, end as int),
        ),
{
    report(errors, String::from_str(message), start, end)
}

} // verus!
