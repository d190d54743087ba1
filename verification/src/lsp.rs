//! What an editor asks for: diagnostics and hovers.
use crate::diag::{parsed, Diagnostic, DiagnosticView, ParsedView};
use crate::ir::{key_index, position, Diagram, DiagramView};
use crate::mermaid::mermaid;
use crate::offsets::{byte_len, byte_len_of, lemma_byte_len_part, str_len};
use crate::plantuml::plantuml;
use crate::position::{
    astral_count, break_count, chars_at, chars_before, chars_before_position,
    law_offset_is_boundary, law_position_counts, position_at, position_to_byte_offset, to_range,
    Position, PositionRange, SpanUnit,
};
use crate::text::{
    concat3, opt_view, same, skip, take, to_chars, to_string, to_upper, upper, views,
};
use std::ops::Range;
use vstd::prelude::*;

pub mod laws;
pub mod server;

verus! {

// ---------------------------------------------------------------------------
// Languages
// ---------------------------------------------------------------------------

/// A diagram language.
#[derive(Debug, Clone, Copy, PartialEq, Eq, Structural)]
pub enum Language {
    /// Kozue's own.
    Kozue,
    /// Mermaid.
    Mermaid,
    /// PlantUML.
    Plantuml,
}

/// The path that `Url::parse` of the `url` crate finds in a text, as `Url::path`
/// gives it, or nothing where the text is no URL.
pub uninterp spec fn uri_path(uri: Seq<char>) -> Option<Seq<char>>;

/// Calls `Url::parse` and `Url::path` of the `url` crate, which `tower-lsp` hands
/// on. Of the path only that it follows from the text is claimed.
#[verifier::external_body]
fn path_of_uri(uri: &str) -> (r: Option<String>)
    ensures
        opt_view(r) == uri_path(uri@),
{
    match tower_lsp::lsp_types::Url::parse(uri) {
        Ok(url) => Some(url.path().to_string()),
        Err(_) => None,
    }
}

/// Whether `s` ends with `suffix`, in any mix of upper and lower case.
pub open spec fn ends_any_case(s: Seq<char>, suffix: Seq<char>) -> bool {
    s.len() >= suffix.len() && upper(s.skip(s.len() - suffix.len())) == upper(suffix)
}

/// The language that the extension of a path stands for.
pub open spec fn language_of_extension(path: Seq<char>) -> Option<Language> {
    if ends_any_case(path, ".kozue"@) || ends_any_case(path, ".kzd"@) {
        Some(Language::Kozue)
    } else if ends_any_case(path, ".mmd"@) || ends_any_case(path, ".mermaid"@) {
        Some(Language::Mermaid)
    } else if ends_any_case(path, ".puml"@) || ends_any_case(path, ".plantuml"@) || ends_any_case(
        path,
        ".pu"@,
    ) || ends_any_case(path, ".iuml"@) {
        Some(Language::Plantuml)
    } else {
        None
    }
}

/// The language with the name `name`, in any mix of upper and lower case.
pub open spec fn language_of_name(name: Seq<char>) -> Option<Language> {
    if upper(name) == upper("kozue"@) {
        Some(Language::Kozue)
    } else if upper(name) == upper("mermaid"@) {
        Some(Language::Mermaid)
    } else if upper(name) == upper("plantuml"@) {
        Some(Language::Plantuml)
    } else {
        None
    }
}

/// The language of a file: that of its extension, or else the one that was asked
/// for by name.
pub open spec fn language_of(path: Option<Seq<char>>, name: Option<Seq<char>>) -> Option<Language> {
    let by_extension = match path {
        Some(p) => language_of_extension(p),
        None => None,
    };
    match by_extension {
        Some(l) => Some(l),
        None => match name {
            Some(n) => language_of_name(n),
            None => None,
        },
    }
}

fn has_suffix(s: &Vec<char>, suffix: &str) -> (r: bool)
    ensures
        r == ends_any_case(s@, suffix@),
{
    let t = to_chars(suffix);
    if s.len() < t.len() {
        return false;
    }
    let a = to_upper(skip(s.as_slice(), s.len() - t.len()));
    let b = to_upper(t.as_slice());
    same(a.as_slice(), b.as_slice())
}

fn same_name(s: &Vec<char>, name: &str) -> (r: bool)
    ensures
        r == (upper(s@) == upper(name@)),
{
    let t = to_chars(name);
    let a = to_upper(s.as_slice());
    let b = to_upper(t.as_slice());
    same(a.as_slice(), b.as_slice())
}

/// The language of a file with the given path, where it has one.
pub fn detect_language_of_path(path: Option<&str>, init_lang: Option<&str>) -> (r: Option<Language>)
    ensures
        r == language_of(opt_view(path), opt_view(init_lang)),
{
    match path {
        Some(p) => {
            let p = to_chars(p);
            if has_suffix(&p, ".kozue") || has_suffix(&p, ".kzd") {
                return Some(Language::Kozue);
            }
            if has_suffix(&p, ".mmd") || has_suffix(&p, ".mermaid") {
                return Some(Language::Mermaid);
            }
            if has_suffix(&p, ".puml") || has_suffix(&p, ".plantuml") || has_suffix(&p, ".pu")
                || has_suffix(&p, ".iuml") {
                return Some(Language::Plantuml);
            }
        },
        None => {},
    }
    match init_lang {
        Some(n) => {
            let n = to_chars(n);
            if same_name(&n, "kozue") {
                Some(Language::Kozue)
            } else if same_name(&n, "mermaid") {
                Some(Language::Mermaid)
            } else if same_name(&n, "plantuml") {
                Some(Language::Plantuml)
            } else {
                None
            }
        },
        None => None,
    }
}

/// The language of the document `uri`: that of its extension, or else
/// `init_lang`.
pub fn detect_language(uri: &str, init_lang: Option<&str>) -> (r: Option<Language>)
    ensures
        r == language_of(uri_path(uri@), opt_view(init_lang)),
{
    match path_of_uri(uri) {
        Some(p) => detect_language_of_path(Some(p.as_str()), init_lang),
        None => detect_language_of_path(None, init_lang),
    }
}

/// A known extension settles the language, whatever was asked for by name. The
/// name counts only where the extension is unknown.
pub proof fn law_extension_comes_first(path: Seq<char>, name: Option<Seq<char>>)
    ensures
        language_of_extension(path) is Some ==> language_of(Some(path), name)
            == language_of_extension(path),
        language_of_extension(path) is None ==> language_of(Some(path), name) == language_of(
            None,
            name,
        ),
{
}

// ---------------------------------------------------------------------------
// Diagnostics
// ---------------------------------------------------------------------------

/// A remark that belongs to an error.
#[derive(Debug)]
pub struct Secondary {
    /// The characters of the source that it is about.
    pub span: Range<usize>,
    /// What it says.
    pub message: String,
}

/// The model of [`Secondary`].
#[verifier::ext_equal]
pub struct SecondaryView {
    pub start: int,
    pub end: int,
    pub message: Seq<char>,
}

impl View for Secondary {
    type V = SecondaryView;

    open spec fn view(&self) -> SecondaryView {
        SecondaryView {
            start: self.span.start as int,
            end: self.span.end as int,
            message: self.message@,
        }
    }
}

/// An error of the frontend for kozue's own language.
#[derive(Debug)]
pub struct DslDiagnostic {
    /// What is wrong.
    pub message: String,
    /// The characters of the source that the message is about.
    pub span: Range<usize>,
    /// A remark on another place.
    pub secondary: Option<Secondary>,
}

/// The model of [`DslDiagnostic`].
#[verifier::ext_equal]
pub struct DslDiagnosticView {
    pub message: Seq<char>,
    pub start: int,
    pub end: int,
    pub secondary: Option<SecondaryView>,
}

impl View for DslDiagnostic {
    type V = DslDiagnosticView;

    open spec fn view(&self) -> DslDiagnosticView {
        DslDiagnosticView {
            message: self.message@,
            start: self.span.start as int,
            end: self.span.end as int,
            secondary: opt_view(self.secondary),
        }
    }
}

/// How grave a finding is.
#[derive(Debug, Clone, Copy, PartialEq, Eq, Structural)]
pub enum Severity {
    /// The document cannot be drawn.
    Error,
}

/// A remark at a place in a document.
#[derive(Debug, Clone, PartialEq, Eq)]
pub struct RelatedInformation {
    /// The document.
    pub uri: String,
    /// The place.
    pub range: PositionRange,
    /// What it says.
    pub message: String,
}

/// The model of [`RelatedInformation`].
#[verifier::ext_equal]
pub struct RelatedInformationView {
    pub uri: Seq<char>,
    pub range: PositionRange,
    pub message: Seq<char>,
}

impl View for RelatedInformation {
    type V = RelatedInformationView;

    open spec fn view(&self) -> RelatedInformationView {
        RelatedInformationView { uri: self.uri@, range: self.range, message: self.message@ }
    }
}

/// An error as an editor shows it.
#[derive(Debug, Clone, PartialEq, Eq)]
pub struct LspDiagnostic {
    /// What it is about.
    pub range: PositionRange,
    /// How grave it is.
    pub severity: Severity,
    /// Who found it.
    pub source: &'static str,
    /// What is wrong.
    pub message: String,
    /// A remark on another place.
    pub related_information: Option<RelatedInformation>,
}

/// The model of [`LspDiagnostic`].
#[verifier::ext_equal]
pub struct LspDiagnosticView {
    pub range: PositionRange,
    pub severity: Severity,
    pub source: Seq<char>,
    pub message: Seq<char>,
    pub related_information: Option<RelatedInformationView>,
}

impl View for LspDiagnostic {
    type V = LspDiagnosticView;

    open spec fn view(&self) -> LspDiagnosticView {
        LspDiagnosticView {
            range: self.range,
            severity: self.severity,
            source: self.source@,
            message: self.message@,
            related_information: opt_view(self.related_information),
        }
    }
}

/// The position of `index`.
pub open spec fn position_of(text: Seq<char>, index: int, unit: SpanUnit) -> Position {
    let p = position_at(text, chars_before(text, index, unit));
    Position { line: p.0 as usize, character: p.1 as usize }
}

/// The range from `start` to `end`.
pub open spec fn range_of(text: Seq<char>, start: int, end: int, unit: SpanUnit) -> PositionRange {
    PositionRange { start: position_of(text, start, unit), end: position_of(text, end, unit) }
}

fn range_in(text: &str, span: &Range<usize>, unit: SpanUnit) -> (r: PositionRange)
    ensures
        r == range_of(text@, span.start as int, span.end as int, unit),
{
    to_range(text, span, unit)
}

/// What an editor shows of an error of the frontend for kozue's own language.
pub open spec fn shown_dsl(
    uri: Seq<char>,
    text: Seq<char>,
    d: DslDiagnosticView,
) -> LspDiagnosticView {
    LspDiagnosticView {
        range: range_of(text, d.start, d.end, SpanUnit::Char),
        severity: Severity::Error,
        source: "kozue"@,
        message: d.message,
        related_information: match d.secondary {
            Some(s) => Some(
                RelatedInformationView {
                    uri,
                    range: range_of(text, s.start, s.end, SpanUnit::Char),
                    message: s.message,
                },
            ),
            None => None,
        },
    }
}

/// What an editor shows of an error of another frontend.
pub open spec fn shown(text: Seq<char>, d: DiagnosticView) -> LspDiagnosticView {
    LspDiagnosticView {
        range: range_of(text, d.start, d.end, SpanUnit::Byte),
        severity: Severity::Error,
        source: "kozue"@,
        message: d.message,
        related_information: None,
    }
}

/// What an editor shows of what a parse comes to.
pub open spec fn shown_errors(text: Seq<char>, p: ParsedView) -> Seq<LspDiagnosticView> {
    match p {
        Ok(_) => Seq::empty(),
        Err(e) => Seq::new(e.len(), |i: int| shown(text, e[i])),
    }
}

/// What an editor shows of a document.
pub open spec fn lsp_diagnostics(
    uri: Seq<char>,
    text: Seq<char>,
    lang: Language,
    dsl: Seq<DslDiagnosticView>,
) -> Seq<LspDiagnosticView> {
    match lang {
        Language::Kozue => Seq::new(dsl.len(), |i: int| shown_dsl(uri, text, dsl[i])),
        Language::Mermaid => shown_errors(text, mermaid(text)),
        Language::Plantuml => shown_errors(text, plantuml(text)),
    }
}

fn show_dsl(uri: &str, text: &str, d: &DslDiagnostic) -> (r: LspDiagnostic)
    ensures
        r@ == shown_dsl(uri@, text@, d@),
{
    let related_information = match &d.secondary {
        Some(s) => Some(
            RelatedInformation {
                uri: String::from_str(uri),
                range: range_in(text, &s.span, SpanUnit::Char),
                message: s.message.clone(),
            },
        ),
        None => None,
    };
    LspDiagnostic {
        range: range_in(text, &d.span, SpanUnit::Char),
        severity: Severity::Error,
        source: "kozue",
        message: d.message.clone(),
        related_information,
    }
}

fn show(text: &str, d: &Diagnostic) -> (r: LspDiagnostic)
    ensures
        r@ == shown(text@, d@),
{
    LspDiagnostic {
        range: range_in(text, &d.span, SpanUnit::Byte),
        severity: Severity::Error,
        source: "kozue",
        message: d.message.clone(),
        related_information: None,
    }
}

fn show_errors(text: &str, parse: Result<Diagram, Vec<Diagnostic>>) -> (r: Vec<LspDiagnostic>)
    ensures
        views(r@) == shown_errors(text@, parsed(parse)),
{
    let mut out: Vec<LspDiagnostic> = Vec::new();
    let ghost want = shown_errors(text@, parsed(parse));
    match parse {
        Ok(_) => {},
        Err(errors) => {
            let mut i: usize = 0;
            while i < errors.len()
                invariant
                    i <= errors@.len(),
                    want.len() == errors@.len(),
                    forall|k: int| 0 <= k < want.len() ==> want[k] == shown(text@, errors@[k]@),
                    out@.len() == i,
                    forall|k: int| 0 <= k < i ==> (#[trigger] out@[k])@ == want[k],
                decreases errors@.len() - i,
            {
                out.push(show(text, &errors[i]));
                i = i + 1;
            }
        },
    }
    assert(views(out@) =~= want);
    out
}

/// What an editor shows of the document `uri`. `dsl` holds the errors of the
/// frontend for kozue's own language, which counts characters; the other
/// frontends count bytes.
pub fn to_lsp_diagnostics(
    uri: &str,
    text: &str,
    lang: Language,
    dsl: &Vec<DslDiagnostic>,
) -> (r: Vec<LspDiagnostic>)
    ensures
        views(r@) == lsp_diagnostics(uri@, text@, lang, views(dsl@)),
{
    match lang {
        Language::Kozue => {
            let mut out: Vec<LspDiagnostic> = Vec::new();
            let mut i: usize = 0;
            while i < dsl.len()
                invariant
                    i <= dsl@.len(),
                    out@.len() == i,
                    forall|k: int|
                        0 <= k < i ==> (#[trigger] out@[k])@ == shown_dsl(uri@, text@, dsl@[k]@),
                decreases dsl@.len() - i,
            {
                out.push(show_dsl(uri, text, &dsl[i]));
                i = i + 1;
            }
            assert(views(out@) =~= lsp_diagnostics(uri@, text@, lang, views(dsl@)));
            out
        },
        Language::Mermaid => show_errors(text, crate::mermaid::parse(text)),
        Language::Plantuml => show_errors(text, crate::plantuml::parse(text)),
    }
}

/// A document has no diagnostics exactly if its frontend accepts it.
pub proof fn law_accepted_documents_have_no_diagnostics(
    uri: Seq<char>,
    text: Seq<char>,
    dsl: Seq<DslDiagnosticView>,
)
    ensures
        lsp_diagnostics(uri, text, Language::Mermaid, dsl).len() == 0 <==> mermaid(text) is Ok,
        lsp_diagnostics(uri, text, Language::Plantuml, dsl).len() == 0 <==> plantuml(text) is Ok,
        lsp_diagnostics(uri, text, Language::Kozue, dsl).len() == dsl.len(),
{
    crate::mermaid::law_accepted_is_sound(text);
    crate::plantuml::law_accepted_is_sound(text);
}

/// Whether the line that holds the place after `k` characters begins at `m`.
pub open spec fn begins_line(text: Seq<char>, m: int, k: int) -> bool {
    &&& 0 <= m <= k
    &&& m == 0 || text[m - 1] == '\n'
    &&& forall|j: int| m <= j < k ==> text[j] != '\n'
}

/// Whether `p` is the position after `k` characters of `text`, as editors count: the
/// line breaks before it, and the UTF-16 code units between the start of its line and
/// it.
pub open spec fn stands_after(p: Position, text: Seq<char>, k: int) -> bool {
    exists|m: int| #[trigger]
        begins_line(text, m, k) && p.line == break_count(text.take(k)) && p.character == k - m
            + astral_count(text.subrange(m, k))
}

proof fn lemma_stands_after(text: Seq<char>, index: int, unit: SpanUnit, k: int)
    requires
        byte_len(text) <= usize::MAX,
        0 <= k <= text.len(),
        unit == SpanUnit::Byte ==> index == byte_len(text.take(k)),
        unit == SpanUnit::Char ==> index == k,
    ensures
        stands_after(position_of(text, index, unit), text, k),
{
    law_offset_is_boundary(text, index, unit);
    let m = lemma_some_line(text, k);
    law_position_counts(text, m, k);
}

/// Every place is in a line.
proof fn lemma_some_line(text: Seq<char>, k: int) -> (m: int)
    requires
        0 <= k <= text.len(),
    ensures
        begins_line(text, m, k),
    decreases k,
{
    if k == 0 || text[k - 1] == '\n' {
        k
    } else {
        lemma_some_line(text, k - 1)
    }
}

/// An editor shows each error of the frontend once, in their order: with the message
/// of that error, and the range from where its span starts to where it ends. Spans
/// count bytes.
pub proof fn law_every_error_is_shown(
    uri: Seq<char>,
    text: Seq<char>,
    lang: Language,
    dsl: Seq<DslDiagnosticView>,
    errors: Seq<DiagnosticView>,
    i: int,
)
    requires
        byte_len(text) <= usize::MAX,
        lang == Language::Mermaid ==> mermaid(text) == Err::<DiagramView, _>(errors),
        lang == Language::Plantuml ==> plantuml(text) == Err::<DiagramView, _>(errors),
        lang != Language::Kozue,
        0 <= i < errors.len(),
    ensures
        ({
            let all = lsp_diagnostics(uri, text, lang, dsl);
            &&& all.len() == errors.len()
            &&& all[i].message == errors[i].message
            &&& all[i].severity == Severity::Error
            &&& all[i].source == "kozue"@
            &&& all[i].related_information is None
            &&& forall|k: int|
                0 <= k <= text.len() && errors[i].start == byte_len(#[trigger] text.take(k))
                    ==> stands_after(all[i].range.start, text, k)
            &&& forall|k: int|
                0 <= k <= text.len() && errors[i].end == byte_len(#[trigger] text.take(k))
                    ==> stands_after(all[i].range.end, text, k)
        }),
{
    let all = lsp_diagnostics(uri, text, lang, dsl);
    assert forall|k: int|
        0 <= k <= text.len() && errors[i].start == byte_len(#[trigger] text.take(k)) implies stands_after(
        all[i].range.start,
        text,
        k,
    ) by {
        lemma_stands_after(text, errors[i].start, SpanUnit::Byte, k);
    }
    assert forall|k: int|
        0 <= k <= text.len() && errors[i].end == byte_len(#[trigger] text.take(k)) implies stands_after(
        all[i].range.end,
        text,
        k,
    ) by {
        lemma_stands_after(text, errors[i].end, SpanUnit::Byte, k);
    }
}

/// An editor shows each error of the frontend for kozue's own language once, in their
/// order: with its message and its range, and with the remark on another place where
/// it has one. Spans count characters.
pub proof fn law_every_kozue_error_is_shown(
    uri: Seq<char>,
    text: Seq<char>,
    dsl: Seq<DslDiagnosticView>,
    i: int,
)
    requires
        byte_len(text) <= usize::MAX,
        0 <= i < dsl.len(),
        0 <= dsl[i].start <= text.len(),
        0 <= dsl[i].end <= text.len(),
        dsl[i].secondary matches Some(s) ==> 0 <= s.start <= text.len() && 0 <= s.end
            <= text.len(),
    ensures
        ({
            let all = lsp_diagnostics(uri, text, Language::Kozue, dsl);
            &&& all.len() == dsl.len()
            &&& all[i].message == dsl[i].message
            &&& all[i].severity == Severity::Error
            &&& all[i].source == "kozue"@
            &&& stands_after(all[i].range.start, text, dsl[i].start)
            &&& stands_after(all[i].range.end, text, dsl[i].end)
            &&& all[i].related_information is Some <==> dsl[i].secondary is Some
            &&& dsl[i].secondary matches Some(s) ==> {
                let related = all[i].related_information->0;
                &&& related.uri == uri
                &&& related.message == s.message
                &&& stands_after(related.range.start, text, s.start)
                &&& stands_after(related.range.end, text, s.end)
            }
        }),
{
    lemma_stands_after(text, dsl[i].start, SpanUnit::Char, dsl[i].start);
    lemma_stands_after(text, dsl[i].end, SpanUnit::Char, dsl[i].end);
    if let Some(s) = dsl[i].secondary {
        lemma_stands_after(text, s.start, SpanUnit::Char, s.start);
        lemma_stands_after(text, s.end, SpanUnit::Char, s.end);
    }
}

// ---------------------------------------------------------------------------
// Hovers
// ---------------------------------------------------------------------------

/// A character of an identifier.
pub open spec fn word_char(c: char) -> bool {
    ('a' <= c <= 'z') || ('A' <= c <= 'Z') || ('0' <= c <= '9') || c == '_'
}

/// A character of an identifier.
pub fn is_word_char(c: char) -> (r: bool)
    ensures
        r == word_char(c),
{
    ('a' <= c && c <= 'z') || ('A' <= c && c <= 'Z') || ('0' <= c && c <= '9') || c == '_'
}

/// Where the identifier that reaches up to `k` begins.
pub open spec fn word_begin(s: Seq<char>, k: int) -> int
    decreases k,
{
    if 0 < k <= s.len() && word_char(s[k - 1]) {
        word_begin(s, k - 1)
    } else {
        k
    }
}

/// Where the identifier that holds `k` ends.
pub open spec fn word_stop(s: Seq<char>, k: int) -> int
    decreases s.len() - k,
{
    if 0 <= k < s.len() && word_char(s[k]) {
        word_stop(s, k + 1)
    } else {
        k
    }
}

/// The identifier at a byte offset: its bytes and its text.
pub open spec fn identifier(s: Seq<char>, byte: int) -> Option<(int, int, Seq<char>)> {
    let k = chars_before(s, byte, SpanUnit::Byte);
    if k < s.len() && word_char(s[k]) {
        let a = word_begin(s, k);
        let b = word_stop(s, k);
        Some((byte_len(s.take(a)) as int, byte_len(s.take(b)) as int, s.subrange(a, b)))
    } else {
        None
    }
}

/// The model of an identifier.
pub open spec fn identifier_view(r: Option<(Range<usize>, String)>) -> Option<
    (int, int, Seq<char>),
> {
    match r {
        Some(p) => Some((p.0.start as int, p.0.end as int, p.1@)),
        None => None,
    }
}

/// The identifier at a byte offset. There is none at white space or
/// punctuation.
pub fn identifier_at(text: &str, byte: usize) -> (r: Option<(Range<usize>, String)>)
    ensures
        identifier_view(r) == identifier(text@, byte as int),
{
    let total: usize = str_len(text);
    let s = to_chars(text);
    let k: usize = chars_at(&s, byte);
    if k >= s.len() || !is_word_char(s[k]) {
        return None;
    }
    let mut a: usize = k;
    while a > 0 && is_word_char(s[a - 1])
        invariant
            a <= k < s@.len(),
            word_begin(s@, k as int) == word_begin(s@, a as int),
        decreases a,
    {
        a = a - 1;
    }
    let mut b: usize = k;
    while b < s.len() && is_word_char(s[b])
        invariant
            k <= b <= s@.len(),
            word_stop(s@, k as int) == word_stop(s@, b as int),
        decreases s@.len() - b,
    {
        b = b + 1;
    }
    proof {
        lemma_byte_len_part(s@, 0, a as int);
        lemma_byte_len_part(s@, 0, b as int);
    }
    let start: usize = byte_len_of(take(s.as_slice(), a));
    let end: usize = byte_len_of(take(s.as_slice(), b));
    let word = to_string(skip(take(s.as_slice(), b), a));
    assert(s@.take(b as int).skip(a as int) =~= s@.subrange(a as int, b as int));
    Some((start..end, word))
}

/// What a hover over `word` shows.
pub open spec fn hover_text(d: DiagramView, word: Seq<char>) -> Option<Seq<char>> {
    match d {
        DiagramView::Graph(g) => match key_index(g.nodes, word) {
            Some(i) => Some(
                "**node** `"@ + g.nodes[i].id + "`\n\nLabel: "@ + g.nodes[i].label,
            ),
            None => None,
        },
        DiagramView::Sequence(s) => match key_index(s.participants, word) {
            Some(i) => Some(
                "**participant** `"@ + s.participants[i].id + "`\n\nLabel: "@
                    + s.participants[i].label,
            ),
            None => None,
        },
        _ => None,
    }
}

/// What a hover over `word` shows: the label of the node or the participant with
/// that id.
pub fn hover_for_word(diagram: &Diagram, word: &String) -> (r: Option<String>)
    ensures
        opt_view(r) == hover_text(diagram@, word@),
{
    match diagram {
        Diagram::Graph(g) => match position(g.nodes.as_slice(), word) {
            Some(i) => {
                assert(g@.nodes[i as int] == g.nodes@[i as int]@);
                let mut out = concat3("**node** `", g.nodes[i].id.as_str(), "`\n\nLabel: ");
                out.append(g.nodes[i].label.as_str());
                Some(out)
            },
            None => None,
        },
        Diagram::Sequence(s) => match position(s.participants.as_slice(), word) {
            Some(i) => {
                assert(s@.participants[i as int] == s.participants@[i as int]@);
                let mut out = concat3(
                    "**participant** `",
                    s.participants[i].id.as_str(),
                    "`\n\nLabel: ",
                );
                out.append(s.participants[i].label.as_str());
                Some(out)
            },
            None => None,
        },
        Diagram::State(_) => None,
        Diagram::Class(_) => None,
        Diagram::Er(_) => None,
    }
}

/// The diagram of a document. `dsl` is what the frontend for kozue's own
/// language makes of it.
pub open spec fn diagram_of(
    text: Seq<char>,
    lang: Language,
    dsl: Option<DiagramView>,
) -> Option<DiagramView> {
    match lang {
        Language::Kozue => dsl,
        Language::Mermaid => match mermaid(text) {
            Ok(d) => Some(d),
            Err(_) => None,
        },
        Language::Plantuml => match plantuml(text) {
            Ok(d) => Some(d),
            Err(_) => None,
        },
    }
}

/// The diagram of a document, if it has no errors.
pub fn parse_to_ir(text: &str, lang: Language, dsl: Option<Diagram>) -> (r: Option<Diagram>)
    ensures
        opt_view(r) == diagram_of(text@, lang, opt_view(dsl)),
{
    match lang {
        Language::Kozue => dsl,
        Language::Mermaid => match crate::mermaid::parse(text) {
            Ok(d) => Some(d),
            Err(_) => None,
        },
        Language::Plantuml => match crate::plantuml::parse(text) {
            Ok(d) => Some(d),
            Err(_) => None,
        },
    }
}

/// What a hover at a byte offset of a document shows, and over which range.
pub open spec fn hover_at(
    text: Seq<char>,
    lang: Language,
    byte: int,
    dsl: Option<DiagramView>,
) -> Option<(Seq<char>, PositionRange)> {
    match (diagram_of(text, lang, dsl), identifier(text, byte)) {
        (Some(d), Some((start, end, word))) => match hover_text(d, word) {
            Some(t) => Some((t, range_of(text, start, end, SpanUnit::Byte))),
            None => None,
        },
        _ => None,
    }
}

/// The model of what a hover shows.
pub open spec fn hover_view(r: Option<(String, PositionRange)>) -> Option<
    (Seq<char>, PositionRange),
> {
    match r {
        Some(p) => Some((p.0@, p.1)),
        None => None,
    }
}

/// What a hover at `pos` shows, and over which range.
pub fn hover(text: &str, lang: Language, pos: Position, dsl: Option<Diagram>) -> (r: Option<
    (String, PositionRange),
>)
    ensures
        hover_view(r) == hover_at(
            text@,
            lang,
            byte_len(
                text@.take(chars_before_position(text@, pos.line as int, pos.character as int)),
            ) as int,
            opt_view(dsl),
        ),
{
    let diagram = match parse_to_ir(text, lang, dsl) {
        Some(d) => d,
        None => {
            return None;
        },
    };
    let byte: usize = position_to_byte_offset(text, pos);
    match identifier_at(text, byte) {
        Some((span, word)) => match hover_for_word(&diagram, &word) {
            Some(t) => Some((t, range_in(text, &span, SpanUnit::Byte))),
            None => None,
        },
        None => None,
    }
}

} // verus!
