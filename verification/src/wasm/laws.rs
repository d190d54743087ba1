//! What is told of errors.
use crate::diag::DiagnosticView;
use crate::ir::DiagramView;
use crate::lsp::begins_line;
use crate::offsets::byte_len;
use crate::parts::{holds, lemma_holds, lemma_holds_more};
use crate::position::{break_count, law_line_and_column_count, law_offset_is_boundary, SpanUnit};
use crate::text::{decimal, join_first};
use crate::wasm::{error_lines, lang_of, located, told, told_dsl, Lang};
use vstd::prelude::*;

verus! {

/// What is told of a message about the place after `k` characters, whose line begins
/// after `m`: its line and its column, both counted from one, and the message.
pub open spec fn told_at(head: Seq<char>, input: Seq<char>, m: int, k: int, message: Seq<char>) -> Seq<
    char,
> {
    head + decimal(break_count(input.take(k)) + 1) + ", column "@ + decimal(k - m + 1) + ": "@
        + message
}

proof fn lemma_told_at(
    head: Seq<char>,
    input: Seq<char>,
    index: int,
    unit: SpanUnit,
    m: int,
    k: int,
    message: Seq<char>,
)
    requires
        begins_line(input, m, k),
        k <= input.len(),
        unit == SpanUnit::Byte ==> index == byte_len(input.take(k)),
        unit == SpanUnit::Char ==> index == k,
    ensures
        located(head, input, message, index, unit) == told_at(head, input, m, k, message),
{
    law_offset_is_boundary(input, index, unit);
    law_line_and_column_count(input, m, k);
}

/// Each of several lines stands in the text that they are joined to.
proof fn lemma_joined_holds(parts: Seq<Seq<char>>, sep: Seq<char>, n: int, i: int)
    requires
        0 <= i < n <= parts.len(),
    ensures
        holds(join_first(parts, sep, n), parts[i]),
    decreases n,
{
    let before = join_first(parts, sep, n - 1);
    if n == 1 {
        let all = parts[0];
        assert(all =~= Seq::empty() + all + Seq::empty());
        lemma_holds(all, Seq::empty(), all, Seq::empty());
    } else if i == n - 1 {
        let all = before + sep + parts[i];
        assert(all =~= (before + sep) + parts[i] + Seq::empty());
        lemma_holds(all, before + sep, parts[i], Seq::empty());
    } else {
        lemma_joined_holds(parts, sep, n - 1, i);
        lemma_holds_more(before, parts[i], sep);
        lemma_holds_more(before + sep, parts[i], parts[n - 1]);
    }
}

/// What is told of a source that is no diagram tells of every error: the line and the
/// column at which it begins, and its own message.
pub proof fn law_every_error_is_told(
    input: Seq<char>,
    errors: Seq<DiagnosticView>,
    i: int,
    m: int,
    k: int,
)
    requires
        0 <= i < errors.len(),
        k <= input.len(),
        begins_line(input, m, k),
        errors[i].start == byte_len(input.take(k)),
    ensures
        told(input, Err(errors)) matches Err(text) && holds(
            text,
            told_at("error at line "@, input, m, k, errors[i].message),
        ),
{
    let lines = error_lines(input, errors);
    lemma_told_at(
        "error at line "@,
        input,
        errors[i].start,
        SpanUnit::Byte,
        m,
        k,
        errors[i].message,
    );
    lemma_joined_holds(lines, "\n"@, lines.len() as int, i);
}

/// A source that is a diagram gives that diagram, in each language.
pub proof fn law_diagrams_are_given(input: Seq<char>, d: DiagramView)
    ensures
        told(input, Ok(d)) == Ok::<DiagramView, Seq<char>>(d),
        told_dsl(input, Ok(d)) == Ok::<DiagramView, Seq<char>>(d),
{
}

/// The languages are known by their names; any other name is refused.
pub proof fn law_languages_have_names(name: Seq<char>)
    ensures
        lang_of("kozue"@) == Ok::<Lang, Seq<char>>(Lang::Kozue),
        lang_of("mermaid"@) == Ok::<Lang, Seq<char>>(Lang::Mermaid),
        lang_of("plantuml"@) == Ok::<Lang, Seq<char>>(Lang::Plantuml),
        name != "kozue"@ && name != "mermaid"@ && name != "plantuml"@ ==> lang_of(name) == Err::<
            Lang,
            Seq<char>,
        >("unknown language: "@ + name),
{
    reveal_strlit("kozue");
    reveal_strlit("mermaid");
    reveal_strlit("plantuml");
    assert("kozue"@.len() == 5);
    assert("mermaid"@.len() == 7);
    assert("plantuml"@.len() == 8);
}

} // verus!
