//! Class diagrams.
use crate::diag::{
    conclude, diagnostic, parsed, report, verdict, Diagnostic, DiagnosticView, ParsedView,
};
use crate::ir::{
    distinct_keys, has_key, key_index, lemma_distinct_push, lemma_distinct_update, lemma_key_from,
    ClassDiagram, ClassDiagramView, ClassNode, ClassNodeView, ClassRelation, ClassRelationView,
    Diagram, DiagramView, Direction, EndMarker, LineStyle, Named,
};
use crate::keywords::{unrecognised, unrecognised_message, unsupported, unsupported_message};
use crate::lines::{after_keyword, line_wf, strip_keyword_ci, Line, LineView};
use crate::mermaid::edges::nonempty;
use crate::mermaid::scan::{ident, lone_ident, split_id, split_lone_id};
use crate::mermaid::state::target_and_label;
use crate::mermaid::tokens::{id_and_mult, split_id_and_mult, tokenize_ws_quoted, tokens};
use crate::sound::{grown, lemma_grown, lines_within, loop_free, owed, within};
use crate::table::Keyed;
use crate::text::{
    after_prefix, at_most, before_suffix, blank, char_from, char_index, clip, contains_char,
    copy_opt, ends, ends_with_char, equals, find_char, find_text, has_char, is_blank,
    lemma_views_push, lemma_views_subrange, opt_int, opt_view, push_chars, same_string, skip,
    split, split_at_char, strip_prefix, strip_suffix, surround, take, text_index, to_string,
    to_upper, trim, trim_end, trim_end_of, trim_of, trim_start, trim_start_of, upper, views,
};
use vstd::prelude::*;

verus! {

// ---------------------------------------------------------------------------
// Relations
// ---------------------------------------------------------------------------

/// What a connector draws at its ends and between them.
#[derive(Clone, Copy)]
pub struct Connector {
    /// The marker at the left end.
    pub from_marker: EndMarker,
    /// The marker at the right end.
    pub to_marker: EndMarker,
    /// How the line is drawn.
    pub line: LineStyle,
}

/// What the connector `t` draws; both spelling directions of each relation are
/// connectors.
pub open spec fn connector(t: Seq<char>) -> Option<Connector> {
    if t == "<|--"@ {
        drawn(EndMarker::HollowTriangle, EndMarker::Plain, LineStyle::Solid)
    } else if t == "--|>"@ {
        drawn(EndMarker::Plain, EndMarker::HollowTriangle, LineStyle::Solid)
    } else if t == "<|.."@ {
        drawn(EndMarker::HollowTriangle, EndMarker::Plain, LineStyle::Dashed)
    } else if t == "..|>"@ {
        drawn(EndMarker::Plain, EndMarker::HollowTriangle, LineStyle::Dashed)
    } else if t == "*--"@ {
        drawn(EndMarker::FilledDiamond, EndMarker::Plain, LineStyle::Solid)
    } else if t == "--*"@ {
        drawn(EndMarker::Plain, EndMarker::FilledDiamond, LineStyle::Solid)
    } else if t == "o--"@ {
        drawn(EndMarker::HollowDiamond, EndMarker::Plain, LineStyle::Solid)
    } else if t == "--o"@ {
        drawn(EndMarker::Plain, EndMarker::HollowDiamond, LineStyle::Solid)
    } else if t == "-->"@ {
        drawn(EndMarker::Plain, EndMarker::OpenArrow, LineStyle::Solid)
    } else if t == "<--"@ {
        drawn(EndMarker::OpenArrow, EndMarker::Plain, LineStyle::Solid)
    } else if t == "..>"@ {
        drawn(EndMarker::Plain, EndMarker::OpenArrow, LineStyle::Dashed)
    } else if t == "<.."@ {
        drawn(EndMarker::OpenArrow, EndMarker::Plain, LineStyle::Dashed)
    } else if t == "--"@ {
        drawn(EndMarker::Plain, EndMarker::Plain, LineStyle::Solid)
    } else if t == ".."@ {
        drawn(EndMarker::Plain, EndMarker::Plain, LineStyle::Dashed)
    } else {
        None
    }
}

/// A connector.
pub open spec fn drawn(from_marker: EndMarker, to_marker: EndMarker, line: LineStyle) -> Option<
    Connector,
> {
    Some(Connector { from_marker, to_marker, line })
}

fn draw(from_marker: EndMarker, to_marker: EndMarker, line: LineStyle) -> (r: Option<Connector>)
    ensures
        r == drawn(from_marker, to_marker, line),
{
    Some(Connector { from_marker, to_marker, line })
}

/// What the connector `t` draws.
pub fn find_connector(t: &[char]) -> (r: Option<Connector>)
    ensures
        r == connector(t@),
{
    if equals(t, "<|--") {
        draw(EndMarker::HollowTriangle, EndMarker::Plain, LineStyle::Solid)
    } else if equals(t, "--|>") {
        draw(EndMarker::Plain, EndMarker::HollowTriangle, LineStyle::Solid)
    } else if equals(t, "<|..") {
        draw(EndMarker::HollowTriangle, EndMarker::Plain, LineStyle::Dashed)
    } else if equals(t, "..|>") {
        draw(EndMarker::Plain, EndMarker::HollowTriangle, LineStyle::Dashed)
    } else if equals(t, "*--") {
        draw(EndMarker::FilledDiamond, EndMarker::Plain, LineStyle::Solid)
    } else if equals(t, "--*") {
        draw(EndMarker::Plain, EndMarker::FilledDiamond, LineStyle::Solid)
    } else if equals(t, "o--") {
        draw(EndMarker::HollowDiamond, EndMarker::Plain, LineStyle::Solid)
    } else if equals(t, "--o") {
        draw(EndMarker::Plain, EndMarker::HollowDiamond, LineStyle::Solid)
    } else if equals(t, "-->") {
        draw(EndMarker::Plain, EndMarker::OpenArrow, LineStyle::Solid)
    } else if equals(t, "<--") {
        draw(EndMarker::OpenArrow, EndMarker::Plain, LineStyle::Solid)
    } else if equals(t, "..>") {
        draw(EndMarker::Plain, EndMarker::OpenArrow, LineStyle::Dashed)
    } else if equals(t, "<..") {
        draw(EndMarker::OpenArrow, EndMarker::Plain, LineStyle::Dashed)
    } else if equals(t, "--") {
        draw(EndMarker::Plain, EndMarker::Plain, LineStyle::Solid)
    } else if equals(t, "..") {
        draw(EndMarker::Plain, EndMarker::Plain, LineStyle::Dashed)
    } else {
        None
    }
}

/// The first index from `i` on whose word is a connector.
pub open spec fn connector_from(words: Seq<Seq<char>>, i: int) -> Option<int>
    decreases words.len() - i,
{
    if 0 <= i < words.len() {
        if connector(words[i]) is Some {
            Some(i)
        } else {
            connector_from(words, i + 1)
        }
    } else {
        None
    }
}

/// The relation of two sides, unless one of them is refused.
pub open spec fn join_sides(
    from: Result<(Seq<char>, Option<Seq<char>>), Seq<char>>,
    to: Result<(Seq<char>, Option<Seq<char>>), Seq<char>>,
    c: Connector,
    label: Option<Seq<char>>,
) -> Result<ClassRelationView, Seq<char>> {
    match from {
        Ok((from, from_mult)) => match to {
            Ok((to, to_mult)) => Ok(
                ClassRelationView {
                    from,
                    to,
                    from_marker: c.from_marker,
                    to_marker: c.to_marker,
                    line: c.line,
                    label,
                    from_mult,
                    to_mult,
                },
            ),
            Err(e) => Err(e),
        },
        Err(e) => Err(e),
    }
}

/// The relation on a line, where a word of it is a connector.
pub open spec fn class_relation(t: Seq<char>) -> Option<Result<ClassRelationView, Seq<char>>> {
    let (part, label) = target_and_label(t);
    let words = tokens(part);
    match connector_from(words, 0) {
        Some(k) => Some(
            join_sides(
                id_and_mult(words.take(k)),
                id_and_mult(words.skip(k + 1)),
                connector(words[k])->0,
                label,
            ),
        ),
        None => None,
    }
}

/// The model of a relation that may be refused.
pub open spec fn relation_result(r: Option<Result<ClassRelation, String>>) -> Option<
    Result<ClassRelationView, Seq<char>>,
> {
    match r {
        Some(Ok(rel)) => Some(Ok(rel@)),
        Some(Err(e)) => Some(Err(e@)),
        None => None,
    }
}

/// What stands before the first colon, and the text after it.
pub fn split_label<'a>(t: &'a [char]) -> (r: (&'a [char], Option<String>))
    ensures
        r.0@ == target_and_label(t@).0,
        opt_view(r.1) == target_and_label(t@).1,
{
    match find_char(t, ':') {
        Some(k) => {
            let len: usize = t.len();
            (trim_of(take(t, k)), nonempty(trim_of(skip(t, k + 1))))
        },
        None => (t, None),
    }
}

/// The relation on a line, where a word of it is a connector.
pub fn try_parse_class_relation(t: &[char]) -> (r: Option<Result<ClassRelation, String>>)
    ensures
        relation_result(r) == class_relation(t@),
{
    let (part, label) = split_label(t);
    let words = tokenize_ws_quoted(part);
    let ghost all = views(words@);
    let mut k: usize = 0;
    while k < words.len()
        invariant
            k <= words@.len(),
            all == views(words@),
            all == tokens(part@),
            part@ == target_and_label(t@).0,
            opt_view(label) == target_and_label(t@).1,
            connector_from(all, 0) == connector_from(all, k as int),
        decreases words@.len() - k,
    {
        assert(all[k as int] == words@[k as int]@);
        match find_connector(words[k]) {
            Some(c) => {
                let len: usize = words.len();
                proof {
                    lemma_views_subrange(words@, 0, k as int);
                    lemma_views_subrange(words@, k + 1, len as int);
                    assert(all.take(k as int) =~= all.subrange(0, k as int));
                    assert(all.skip(k + 1) =~= all.subrange(k + 1, len as int));
                }
                let left = vstd::slice::slice_subrange(words.as_slice(), 0, k);
                let right = vstd::slice::slice_subrange(words.as_slice(), k + 1, len);
                return match split_id_and_mult(left) {
                    Ok((from, from_mult)) => match split_id_and_mult(right) {
                        Ok((to, to_mult)) => Some(
                            Ok(
                                ClassRelation {
                                    from,
                                    to,
                                    from_marker: c.from_marker,
                                    to_marker: c.to_marker,
                                    line: c.line,
                                    label,
                                    from_mult,
                                    to_mult,
                                },
                            ),
                        ),
                        Err(e) => Some(Err(e)),
                    },
                    Err(e) => Some(Err(e)),
                };
            },
            None => {},
        }
        k = k + 1;
    }
    None
}

// ---------------------------------------------------------------------------
// Members
// ---------------------------------------------------------------------------

/// Whether `c` marks visibility.
pub open spec fn visibility(c: char) -> bool {
    c == '+' || c == '-' || c == '#' || c == '~'
}

/// The first index from `i` on that holds no colon.
pub open spec fn past_colons(s: Seq<char>, i: int) -> int
    decreases s.len() - i,
{
    if 0 <= i < s.len() && s[i] == ':' {
        past_colons(s, i + 1)
    } else {
        i
    }
}

/// A method, `rest` holding its bracket at index `p`, as it is shown.
pub open spec fn method_text(vis: Seq<char>, rest: Seq<char>, p: int) -> Seq<char> {
    let close = match char_from(rest, ')', p) {
        Some(k) => k,
        None => rest.len() as int,
    };
    let args = rest.subrange(p + 1, close);
    let after = if close < rest.len() {
        trim(rest.skip(close + 1))
    } else {
        Seq::empty()
    };
    let ret = trim(after.skip(past_colons(after, 0)));
    let head = vis + trim(rest.take(p)) + "("@ + args + ")"@;
    if ret.len() == 0 {
        head
    } else {
        head + ": "@ + ret
    }
}

/// A member as it is shown, and whether it is a method.
pub open spec fn class_member(t: Seq<char>) -> (Seq<char>, bool) {
    let marked = t.len() > 0 && visibility(t[0]);
    let vis = if marked {
        t.take(1)
    } else {
        Seq::empty()
    };
    let rest = if marked {
        trim_start(t.skip(1))
    } else {
        t
    };
    match char_index(rest, '(') {
        Some(p) => (method_text(vis, rest, p), true),
        None => match char_index(rest, ':') {
            Some(k) => (vis + trim(rest.take(k)) + ": "@ + trim(rest.skip(k + 1)), false),
            None => (vis + trim(rest), false),
        },
    }
}

fn skip_colons<'a>(s: &'a [char]) -> (r: &'a [char])
    ensures
        r@ == s@.skip(past_colons(s@, 0)),
{
    let mut i: usize = 0;
    while i < s.len() && s[i] == ':'
        invariant
            i <= s@.len(),
            past_colons(s@, 0) == past_colons(s@, i as int),
        decreases s@.len() - i,
    {
        i = i + 1;
    }
    skip(s, i)
}

fn find_char_from(s: &[char], c: char, from: usize) -> (r: Option<usize>)
    requires
        from <= s@.len(),
    ensures
        opt_int(r) == char_from(s@, c, from as int),
        r matches Some(i) ==> from <= i < s@.len() && s@[i as int] == c,
{
    let mut i: usize = from;
    while i < s.len()
        invariant
            from <= i <= s@.len(),
            char_from(s@, c, from as int) == char_from(s@, c, i as int),
        decreases s@.len() - i,
    {
        if s[i] == c {
            return Some(i);
        }
        i = i + 1;
    }
    None
}

fn format_method(vis: &[char], rest: &[char], p: usize) -> (r: String)
    requires
        p < rest@.len(),
        rest@[p as int] == '(',
    ensures
        r@ == method_text(vis@, rest@, p as int),
{
    let len: usize = rest.len();
    let close: usize = match find_char_from(rest, ')', p) {
        Some(k) => k,
        None => len,
    };
    assert(p < close);
    let empty: Vec<char> = Vec::new();
    let after: &[char] = if close < len {
        trim_of(skip(rest, close + 1))
    } else {
        empty.as_slice()
    };
    let ret = trim_of(skip_colons(after));
    let mut out = to_string(vis);
    push_chars(&mut out, trim_of(take(rest, p)));
    out.append("(");
    push_chars(&mut out, vstd::slice::slice_subrange(rest, p + 1, close));
    out.append(")");
    if ret.len() > 0 {
        out.append(": ");
        push_chars(&mut out, ret);
    }
    out
}

/// Adds a member to the attributes or to the methods, as it is shown.
pub fn parse_class_member(t: &[char], attributes: &mut Vec<String>, methods: &mut Vec<String>)
    ensures
        class_member(t@).1 ==> final(attributes)@ == old(attributes)@ && views(final(methods)@)
            == views(old(methods)@).push(class_member(t@).0),
        !class_member(t@).1 ==> final(methods)@ == old(methods)@ && views(final(attributes)@)
            == views(old(attributes)@).push(class_member(t@).0),
{
    broadcast use lemma_views_push;

    let marked = t.len() > 0 && (t[0] == '+' || t[0] == '-' || t[0] == '#' || t[0] == '~');
    let empty: Vec<char> = Vec::new();
    let vis: &[char] = if marked {
        take(t, 1)
    } else {
        empty.as_slice()
    };
    let rest: &[char] = if marked {
        trim_start_of(skip(t, 1))
    } else {
        t
    };
    match find_char(rest, '(') {
        Some(p) => {
            methods.push(format_method(vis, rest, p));
        },
        None => match find_char(rest, ':') {
            Some(k) => {
                let len: usize = rest.len();
                let mut out = to_string(vis);
                push_chars(&mut out, trim_of(take(rest, k)));
                out.append(": ");
                push_chars(&mut out, trim_of(skip(rest, k + 1)));
                attributes.push(out);
            },
            None => {
                let mut out = to_string(vis);
                push_chars(&mut out, trim_of(rest));
                attributes.push(out);
            },
        },
    }
}

// ---------------------------------------------------------------------------
// The state of a class diagram that is being read
// ---------------------------------------------------------------------------

/// A relation and the line that it stands on.
pub struct RawRelation {
    relation: ClassRelation,
    start: usize,
    end: usize,
}

/// The model of [`RawRelation`].
#[verifier::ext_equal]
pub struct RawRelationView {
    pub relation: ClassRelationView,
    pub start: int,
    pub end: int,
}

impl View for RawRelation {
    type V = RawRelationView;

    closed spec fn view(&self) -> RawRelationView {
        RawRelationView {
            relation: self.relation@,
            start: self.start as int,
            end: self.end as int,
        }
    }
}

/// A class diagram that is being read.
pub struct Classes {
    direction: Direction,
    classes: Keyed<ClassNode>,
    relations: Vec<RawRelation>,
    errors: Vec<Diagnostic>,
}

/// The model of [`Classes`].
#[verifier::ext_equal]
pub struct ClassesView {
    /// The direction in which the diagram grows.
    pub direction: Direction,
    /// The classes.
    pub classes: Seq<ClassNodeView>,
    /// The relations.
    pub relations: Seq<RawRelationView>,
    /// The errors.
    pub errors: Seq<DiagnosticView>,
}

impl View for Classes {
    type V = ClassesView;

    closed spec fn view(&self) -> ClassesView {
        ClassesView {
            direction: self.direction,
            classes: self.classes@,
            relations: views(self.relations@),
            errors: views(self.errors@),
        }
    }
}

/// Nothing read yet.
pub open spec fn classes_start(errors: Seq<DiagnosticView>) -> ClassesView {
    ClassesView {
        direction: Direction::Down,
        classes: Seq::empty(),
        relations: Seq::empty(),
        errors,
    }
}

/// The error `message` about the line `l`.
pub open spec fn classes_error(st: ClassesView, message: Seq<char>, l: LineView) -> ClassesView {
    ClassesView { errors: st.errors.push(diagnostic(message, l.start, l.end)), ..st }
}

/// The classes with the class `id`.
pub open spec fn with_class(classes: Seq<ClassNodeView>, id: Seq<char>) -> Seq<ClassNodeView> {
    if has_key(classes, id) {
        classes
    } else {
        classes.push(
            ClassNodeView {
                id,
                name: id,
                stereotype: None,
                attributes: Seq::empty(),
                methods: Seq::empty(),
            },
        )
    }
}

/// The place of a class that is there.
pub open spec fn class_place(classes: Seq<ClassNodeView>, id: Seq<char>) -> int {
    key_index(classes, id)->0
}

/// The class at place `i` with a stereotype.
pub open spec fn with_stereotype(classes: Seq<ClassNodeView>, i: int, s: Seq<char>) -> Seq<
    ClassNodeView,
> {
    classes.update(i, ClassNodeView { stereotype: Some(s), ..classes[i] })
}

/// The class at place `i` with one more member.
pub open spec fn with_class_member(classes: Seq<ClassNodeView>, i: int, t: Seq<char>) -> Seq<
    ClassNodeView,
> {
    let c = classes[i];
    let (text, is_method) = class_member(t);
    classes.update(
        i,
        if is_method {
            ClassNodeView { methods: c.methods.push(text), ..c }
        } else {
            ClassNodeView { attributes: c.attributes.push(text), ..c }
        },
    )
}

/// What a member line says of the class at place `i`.
pub open spec fn member_line(st: ClassesView, i: int, t: Seq<char>, l: LineView) -> ClassesView {
    match after_prefix(t, "<<"@) {
        Some(rest) => match text_index(rest, ">>"@) {
            Some(k) => ClassesView {
                classes: with_stereotype(st.classes, i, trim(rest.take(k))),
                ..st
            },
            None => classes_error(
                st,
                "unterminated `<<stereotype>>` annotation (missing `>>`)"@,
                l,
            ),
        },
        None => if has_char(t, '~') {
            classes_error(
                st,
                "unsupported: generic type parameters (`~T~`); kozue does not support this yet"@,
                l,
            )
        } else {
            ClassesView { classes: with_class_member(st.classes, i, t), ..st }
        },
    }
}

/// What the first `n` of the members between semicolons say.
pub open spec fn inline_members(
    st: ClassesView,
    i: int,
    members: Seq<Seq<char>>,
    n: int,
    l: LineView,
) -> ClassesView
    decreases n,
{
    if n <= 0 {
        st
    } else {
        let before = inline_members(st, i, members, n - 1, l);
        let m = trim(members[n - 1]);
        if m.len() == 0 {
            before
        } else {
            member_line(before, i, m, l)
        }
    }
}

/// The first line from `i` on that is a closing brace.
pub open spec fn block_close(lines: Seq<LineView>, i: int) -> int
    decreases lines.len() - i,
{
    if 0 <= i < lines.len() && trim(lines[i].text) != "}"@ {
        block_close(lines, i + 1)
    } else {
        i
    }
}

/// The line after the block whose first line is `i`.
pub open spec fn after_block(lines: Seq<LineView>, i: int) -> int {
    let c = block_close(lines, i);
    if c < lines.len() {
        c + 1
    } else {
        c
    }
}

/// What the lines `from..to` say of the class at place `i`.
pub open spec fn block_members(
    st: ClassesView,
    i: int,
    lines: Seq<LineView>,
    from: int,
    to: int,
) -> ClassesView
    decreases to - from,
{
    if to <= from {
        st
    } else {
        let l = lines[to - 1];
        member_line(block_members(st, i, lines, from, to - 1), i, trim(l.text), l)
    }
}

pub proof fn lemma_block_close(lines: Seq<LineView>, i: int)
    requires
        0 <= i <= lines.len(),
    ensures
        i <= block_close(lines, i) <= lines.len(),
    decreases lines.len() - i,
{
    if i < lines.len() && trim(lines[i].text) != "}"@ {
        lemma_block_close(lines, i + 1);
    }
}

// ---------------------------------------------------------------------------
// What a statement does
// ---------------------------------------------------------------------------

/// A statement `direction d`.
pub open spec fn class_direction(st: ClassesView, rest: Seq<char>, l: LineView) -> ClassesView {
    let d = upper(trim(rest));
    if d == "LR"@ {
        ClassesView { direction: Direction::Right, ..st }
    } else if d == "TD"@ || d == "TB"@ {
        ClassesView { direction: Direction::Down, ..st }
    } else {
        classes_error(
            st,
            "unknown classDiagram direction `"@ + d + "`; expected TD, TB, or LR"@,
            l,
        )
    }
}

/// The keyword of a statement that is not supported.
pub open spec fn unsupported_in_class(t: Seq<char>) -> Option<Seq<char>> {
    if after_keyword(t, "namespace"@) is Some {
        Some("namespace"@)
    } else if after_keyword(t, "note"@) is Some {
        Some("note"@)
    } else if after_keyword(t, "click"@) is Some {
        Some("click"@)
    } else if after_keyword(t, "style"@) is Some {
        Some("style"@)
    } else if after_keyword(t, "cssClass"@) is Some {
        Some("cssClass"@)
    } else {
        None
    }
}

/// A statement `<<stereotype>> Name`, without its first brackets.
pub open spec fn class_annotation(st: ClassesView, rest: Seq<char>, l: LineView) -> ClassesView {
    match text_index(rest, ">>"@) {
        Some(k) => {
            let name = trim(rest.skip(k + 2));
            if name.len() == 0 {
                classes_error(st, "expected a class name after `<<stereotype>>`"@, l)
            } else {
                match ident(name) {
                    Some((id, tail)) => if blank(tail) {
                        let classes = with_class(st.classes, id);
                        ClassesView {
                            classes: with_stereotype(
                                classes,
                                class_place(classes, id),
                                trim(rest.take(k)),
                            ),
                            ..st
                        }
                    } else {
                        classes_error(st, extra_tokens(name), l)
                    },
                    None => classes_error(st, no_class_id(name), l),
                }
            }
        },
        None => classes_error(st, "unterminated `<<stereotype>>` annotation (missing `>>`)"@, l),
    }
}

/// The message about words after a class name.
pub open spec fn extra_tokens(name: Seq<char>) -> Seq<char> {
    "syntax error: unexpected tokens after class name `"@ + at_most(name, 40) + "`"@
}

/// The message about a missing class name.
pub open spec fn no_class_id(name: Seq<char>) -> Seq<char> {
    "syntax error: expected a class identifier, got `"@ + at_most(name, 40) + "`"@
}

/// The body of a class declaration.
pub enum Body {
    /// None.
    Absent,
    /// On the same line.
    Inline(Seq<char>),
    /// On the lines that follow.
    Multiline,
    /// Neither.
    Malformed,
}

/// The name and the body in a class declaration.
pub open spec fn class_body(rest: Seq<char>) -> (Seq<char>, Body) {
    match char_index(rest, '{') {
        Some(k) => {
            let name = trim(rest.take(k));
            match before_suffix(rest.skip(k + 1), '}') {
                Some(inner) => (name, Body::Inline(trim(inner))),
                None => if ends(trim_end(rest), '{') {
                    (name, Body::Multiline)
                } else {
                    (name, Body::Malformed)
                },
            }
        },
        None => (rest, Body::Absent),
    }
}

/// A class declaration at line `i`, `rest` following its keyword; the line to
/// go on with.
pub open spec fn class_decl(
    st: ClassesView,
    t: Seq<char>,
    rest: Seq<char>,
    lines: Seq<LineView>,
    i: int,
) -> (ClassesView, int) {
    let l = lines[i];
    let (name, body) = class_body(rest);
    if body is Malformed {
        (
            classes_error(
                st,
                "syntax error: malformed class body `"@ + at_most(t, 40) + "`"@,
                l,
            ),
            i + 1,
        )
    } else if has_char(name, '~') {
        (
            classes_error(
                st,
                "unsupported: generic type parameters (`~T~`); kozue does not support this yet"@,
                l,
            ),
            i + 1,
        )
    } else {
        match ident(name) {
            Some((id, tail)) => if blank(tail) {
                let classes = with_class(st.classes, id);
                let place = class_place(classes, id);
                let declared = ClassesView { classes, ..st };
                match body {
                    Body::Inline(inner) => {
                        let members = split(inner, ';');
                        (
                            inline_members(declared, place, members, members.len() as int, l),
                            i + 1,
                        )
                    },
                    Body::Multiline => {
                        let c = block_close(lines, i + 1);
                        let filled = block_members(declared, place, lines, i + 1, c);
                        (
                            if c < lines.len() {
                                filled
                            } else {
                                classes_error(
                                    filled,
                                    "unterminated `class "@ + id + " { ... }` block (missing `}`)"@,
                                    l,
                                )
                            },
                            after_block(lines, i + 1),
                        )
                    },
                    _ => (declared, i + 1),
                }
            } else {
                (classes_error(st, extra_tokens(name), l), i + 1)
            },
            None => (classes_error(st, no_class_id(name), l), i + 1),
        }
    }
}

/// A statement `Name : member`, where the line is one.
pub open spec fn colon_member(t: Seq<char>) -> Option<(Seq<char>, Seq<char>)> {
    match char_index(t, ':') {
        Some(k) => {
            let member = trim(t.skip(k + 1));
            match lone_ident(trim(t.take(k))) {
                Some(id) => if member.len() > 0 {
                    Some((id, member))
                } else {
                    None
                },
                None => None,
            }
        },
        None => None,
    }
}

/// A relation, a member, or an error.
pub open spec fn class_statement(st: ClassesView, t: Seq<char>, l: LineView) -> ClassesView {
    match class_relation(t) {
        Some(Ok(relation)) => ClassesView {
            relations: st.relations.push(
                RawRelationView { relation, start: l.start, end: l.end },
            ),
            ..st
        },
        Some(Err(m)) => classes_error(st, m, l),
        None => match colon_member(t) {
            Some((id, member)) => {
                let classes = with_class(st.classes, id);
                member_line(
                    ClassesView { classes, ..st },
                    class_place(classes, id),
                    member,
                    l,
                )
            },
            None => if t.len() == 0 {
                st
            } else {
                classes_error(st, unrecognised(t), l)
            },
        },
    }
}

/// What the statement at line `i` does, and the line to go on with.
pub open spec fn class_step(st: ClassesView, lines: Seq<LineView>, i: int) -> (ClassesView, int) {
    let l = lines[i];
    let t = trim(l.text);
    match after_keyword(t, "direction"@) {
        Some(rest) => (class_direction(st, rest, l), i + 1),
        None => match unsupported_in_class(t) {
            Some(k) => (
                classes_error(st, unsupported(k), l),
                if ends(t, '{') {
                    after_block(lines, i + 1)
                } else {
                    i + 1
                },
            ),
            None => match after_prefix(t, "<<"@) {
                Some(rest) => (class_annotation(st, rest, l), i + 1),
                None => match after_keyword(t, "class"@) {
                    Some(rest) => class_decl(st, t, trim(rest), lines, i),
                    None => (class_statement(st, t, l), i + 1),
                },
            },
        },
    }
}

/// A statement is followed by another one.
pub proof fn lemma_class_step(st: ClassesView, lines: Seq<LineView>, i: int)
    requires
        0 <= i < lines.len(),
    ensures
        i < class_step(st, lines, i).1 <= lines.len(),
{
    lemma_block_close(lines, i + 1);
}

/// What the statements from line `i` on do.
pub open spec fn class_lines(st: ClassesView, lines: Seq<LineView>, i: int) -> ClassesView
    decreases lines.len() - i,
{
    if 0 <= i < lines.len() {
        proof {
            lemma_class_step(st, lines, i);
        }
        let (after, next) = class_step(st, lines, i);
        class_lines(after, lines, next)
    } else {
        st
    }
}

// ---------------------------------------------------------------------------
// What the whole text comes to
// ---------------------------------------------------------------------------

/// The classes with those that the first `n` relations name; relations of a
/// class with itself are left out.
pub open spec fn related_classes(
    classes: Seq<ClassNodeView>,
    relations: Seq<RawRelationView>,
    n: int,
) -> Seq<ClassNodeView>
    decreases n,
{
    if n <= 0 {
        classes
    } else {
        let r = relations[n - 1].relation;
        let before = related_classes(classes, relations, n - 1);
        if r.from == r.to {
            before
        } else {
            with_class(with_class(before, r.from), r.to)
        }
    }
}

/// Those of the first `n` relations that relate two classes.
pub open spec fn kept_relations(relations: Seq<RawRelationView>, n: int) -> Seq<ClassRelationView>
    decreases n,
{
    if n <= 0 {
        Seq::empty()
    } else {
        let r = relations[n - 1].relation;
        if r.from == r.to {
            kept_relations(relations, n - 1)
        } else {
            kept_relations(relations, n - 1).push(r)
        }
    }
}

/// An error for each of the first `n` relations of a class with itself.
pub open spec fn self_relation_errors(
    errors: Seq<DiagnosticView>,
    relations: Seq<RawRelationView>,
    n: int,
) -> Seq<DiagnosticView>
    decreases n,
{
    if n <= 0 {
        errors
    } else {
        let r = relations[n - 1];
        let before = self_relation_errors(errors, relations, n - 1);
        if r.relation.from == r.relation.to {
            before.push(
                diagnostic(
                    "self relations are not supported in class diagrams (`"@ + r.relation.from
                        + "` -> `"@ + r.relation.to + "`)"@,
                    r.start,
                    r.end,
                ),
            )
        } else {
            before
        }
    }
}

/// What the class diagram that has been read comes to.
pub open spec fn classes_verdict(st: ClassesView) -> ParsedView {
    let n = st.relations.len() as int;
    verdict(
        DiagramView::Class(
            ClassDiagramView {
                direction: st.direction,
                classes: related_classes(st.classes, st.relations, n),
                relations: kept_relations(st.relations, n),
            },
        ),
        self_relation_errors(st.errors, st.relations, n),
    )
}

/// What the class diagram `lines` comes to.
pub open spec fn classes(lines: Seq<LineView>, errors: Seq<DiagnosticView>) -> ParsedView {
    classes_verdict(class_lines(classes_start(errors), lines, 0))
}

// ---------------------------------------------------------------------------
// Reading
// ---------------------------------------------------------------------------

/// A class that was added is there.
proof fn lemma_with_class(classes: Seq<ClassNodeView>, id: Seq<char>)
    ensures
        ({
            let after = with_class(classes, id);
            &&& has_key(after, id)
            &&& 0 <= class_place(after, id) < after.len()
            &&& key_index(after, id) == Some(class_place(after, id))
            &&& !has_key(classes, id) ==> class_place(after, id) == classes.len()
        }),
{
    let after = with_class(classes, id);
    lemma_key_from(classes, id, 0);
    lemma_key_from(after, id, 0);
    if !has_key(classes, id) {
        assert(after[after.len() - 1].id == id);
        assert(after[class_place(after, id)].key() == id);
    }
}

fn ensure_class(classes: &mut Keyed<ClassNode>, id: &String) -> (r: usize)
    requires
        old(classes).wf(),
    ensures
        final(classes).wf(),
        final(classes)@ == with_class(old(classes)@, id@),
        r == class_place(final(classes)@, id@),
        r < final(classes)@.len(),
{
    proof {
        lemma_with_class(classes@, id@);
    }
    match classes.find(id) {
        Some(i) => i,
        None => {
            let c = ClassNode {
                id: id.clone(),
                name: id.clone(),
                stereotype: None,
                attributes: Vec::new(),
                methods: Vec::new(),
            };
            assert(views(c.attributes@) =~= Seq::<Seq<char>>::empty());
            assert(views(c.methods@) =~= Seq::<Seq<char>>::empty());
            classes.push(c)
        },
    }
}

fn set_stereotype(classes: &mut Keyed<ClassNode>, i: usize, s: String)
    requires
        old(classes).wf(),
        i < old(classes)@.len(),
    ensures
        final(classes).wf(),
        final(classes)@ == with_stereotype(old(classes)@, i as int, s@),
        final(classes)@.len() == old(classes)@.len(),
{
    let ghost before = classes@;
    let node = classes.at_mut(i);
    node.stereotype = Some(s);
    assert(classes@ =~= with_stereotype(before, i as int, s@));
}

fn add_member(classes: &mut Keyed<ClassNode>, i: usize, t: &[char])
    requires
        old(classes).wf(),
        i < old(classes)@.len(),
    ensures
        final(classes).wf(),
        final(classes)@ == with_class_member(old(classes)@, i as int, t@),
        final(classes)@.len() == old(classes)@.len(),
{
    let ghost before = classes@;
    let node = classes.at_mut(i);
    parse_class_member(t, &mut node.attributes, &mut node.methods);
    assert(classes@ =~= with_class_member(before, i as int, t@));
}

/// The first line from `from` on that is a closing brace.
pub fn find_block_close(lines: &[Line], from: usize) -> (r: usize)
    requires
        from <= lines@.len(),
    ensures
        r == block_close(views(lines@), from as int),
        from <= r <= lines@.len(),
{
    let mut i: usize = from;
    let ghost all = views(lines@);
    while i < lines.len()
        invariant
            from <= i <= lines@.len(),
            all == views(lines@),
            block_close(all, from as int) == block_close(all, i as int),
        decreases lines@.len() - i,
    {
        assert(all[i as int].text == lines@[i as int].text@);
        if equals(trim_of(lines[i].text), "}") {
            return i;
        }
        i = i + 1;
    }
    i
}

fn find_unsupported(t: &[char]) -> (r: Option<&'static str>)
    ensures
        opt_view(r) == unsupported_in_class(t@),
{
    if strip_keyword_ci(t, "namespace").is_some() {
        Some("namespace")
    } else if strip_keyword_ci(t, "note").is_some() {
        Some("note")
    } else if strip_keyword_ci(t, "click").is_some() {
        Some("click")
    } else if strip_keyword_ci(t, "style").is_some() {
        Some("style")
    } else if strip_keyword_ci(t, "cssClass").is_some() {
        Some("cssClass")
    } else {
        None
    }
}

impl Classes {
    /// The classes are in order.
    pub closed spec fn wf(&self) -> bool {
        self.classes.wf()
    }

    fn error(&mut self, message: String, l: &Line)
        requires
            old(self).wf(),
        ensures
            final(self).wf(),
            final(self)@ == classes_error(old(self)@, message@, l@),
    {
        report(&mut self.errors, message, l.start, l.end);
    }

    fn error_str(&mut self, message: &str, l: &Line)
        requires
            old(self).wf(),
        ensures
            final(self).wf(),
            final(self)@ == classes_error(old(self)@, message@, l@),
    {
        self.error(String::from_str(message), l);
    }

    fn member_line(&mut self, i: usize, t: &[char], l: &Line)
        requires
            old(self).wf(),
            i < old(self)@.classes.len(),
        ensures
            final(self).wf(),
            final(self)@ == member_line(old(self)@, i as int, t@, l@),
            final(self)@.classes.len() == old(self)@.classes.len(),
    {
        match strip_prefix(t, "<<") {
            Some(rest) => match find_text(rest, ">>") {
                Some(k) => {
                    set_stereotype(&mut self.classes, i, to_string(trim_of(take(rest, k))));
                },
                None => {
                    self.error_str("unterminated `<<stereotype>>` annotation (missing `>>`)", l);
                },
            },
            None => {
                if contains_char(t, '~') {
                    self.error_str(
                        "unsupported: generic type parameters (`~T~`); kozue does not support this yet",
                        l,
                    );
                } else {
                    add_member(&mut self.classes, i, t);
                }
            },
        }
    }

    fn inline_members(&mut self, i: usize, inner: &[char], l: &Line)
        requires
            old(self).wf(),
            i < old(self)@.classes.len(),
        ensures
            final(self).wf(),
            final(self)@ == inline_members(
                old(self)@,
                i as int,
                split(inner@, ';'),
                split(inner@, ';').len() as int,
                l@,
            ),
    {
        let members = split_at_char(inner, ';');
        let ghost all = views(members@);
        let ghost start = self@;
        let mut n: usize = 0;
        while n < members.len()
            invariant
                self.wf(),
                n <= members@.len(),
                all == views(members@),
                i < self@.classes.len(),
                self@ == inline_members(start, i as int, all, n as int, l@),
            decreases members@.len() - n,
        {
            assert(all[n as int] == members@[n as int]@);
            let m = trim_of(members[n]);
            if m.len() > 0 {
                self.member_line(i, m, l);
            }
            n = n + 1;
        }
    }

    fn block_members(&mut self, i: usize, lines: &[Line], from: usize, to: usize)
        requires
            old(self).wf(),
            i < old(self)@.classes.len(),
            from <= to <= lines@.len(),
        ensures
            final(self).wf(),
            final(self)@ == block_members(
                old(self)@,
                i as int,
                views(lines@),
                from as int,
                to as int,
            ),
    {
        let ghost all = views(lines@);
        let ghost start = self@;
        let mut n: usize = from;
        while n < to
            invariant
                self.wf(),
                from <= n <= to <= lines@.len(),
                all == views(lines@),
                i < self@.classes.len(),
                self@ == block_members(start, i as int, all, from as int, n as int),
            decreases to - n,
        {
            assert(all[n as int] == lines@[n as int]@);
            self.member_line(i, trim_of(lines[n].text), &lines[n]);
            n = n + 1;
        }
    }

    fn direction(&mut self, rest: &[char], l: &Line)
        requires
            old(self).wf(),
        ensures
            final(self).wf(),
            final(self)@ == class_direction(old(self)@, rest@, l@),
    {
        let d = to_upper(trim_of(rest));
        let d = d.as_slice();
        if equals(d, "LR") {
            self.direction = Direction::Right;
        } else if equals(d, "TD") || equals(d, "TB") {
            self.direction = Direction::Down;
        } else {
            self.error(
                surround("unknown classDiagram direction `", d, "`; expected TD, TB, or LR"),
                l,
            );
        }
    }

    fn annotation(&mut self, rest: &[char], l: &Line)
        requires
            old(self).wf(),
        ensures
            final(self).wf(),
            final(self)@ == class_annotation(old(self)@, rest@, l@),
    {
        let k: usize = match find_text(rest, ">>") {
            Some(k) => k,
            None => {
                self.error_str("unterminated `<<stereotype>>` annotation (missing `>>`)", l);
                return;
            },
        };
        proof {
            reveal_strlit(">>");
        }
        let len: usize = rest.len();
        let name = trim_of(skip(rest, k + 2));
        if name.len() == 0 {
            self.error_str("expected a class name after `<<stereotype>>`", l);
            return;
        }
        match split_id(name) {
            Some((id, tail)) => {
                if !is_blank(tail) {
                    self.error(
                        surround(
                            "syntax error: unexpected tokens after class name `",
                            clip(name, 40),
                            "`",
                        ),
                        l,
                    );
                } else {
                    let i: usize = ensure_class(&mut self.classes, &id);
                    set_stereotype(&mut self.classes, i, to_string(trim_of(take(rest, k))));
                }
            },
            None => {
                self.error(
                    surround(
                        "syntax error: expected a class identifier, got `",
                        clip(name, 40),
                        "`",
                    ),
                    l,
                );
            },
        }
    }

    fn declaration(&mut self, t: &[char], rest: &[char], lines: &[Line], i: usize) -> (next: usize)
        requires
            old(self).wf(),
            i < lines@.len(),
        ensures
            final(self).wf(),
            (final(self)@, next as int) == class_decl(
                old(self)@,
                t@,
                rest@,
                views(lines@),
                i as int,
            ),
    {
        let ghost all = views(lines@);
        let len: usize = lines.len();
        let l = &lines[i];
        assert(all[i as int] == l@);
        let opening = find_char(rest, '{');
        let mut inline: Option<&[char]> = None;
        let mut multiline: bool = false;
        let name: &[char] = match opening {
            Some(k) => {
                let rest_len: usize = rest.len();
                match strip_suffix(skip(rest, k + 1), '}') {
                    Some(inner) => {
                        inline = Some(trim_of(inner));
                    },
                    None => {
                        if ends_with_char(trim_end_of(rest), '{') {
                            multiline = true;
                        } else {
                            self.error(
                                surround("syntax error: malformed class body `", clip(t, 40), "`"),
                                l,
                            );
                            return i + 1;
                        }
                    },
                }
                trim_of(take(rest, k))
            },
            None => rest,
        };
        if contains_char(name, '~') {
            self.error_str(
                "unsupported: generic type parameters (`~T~`); kozue does not support this yet",
                l,
            );
            return i + 1;
        }
        let (id, tail) = match split_id(name) {
            Some(p) => p,
            None => {
                self.error(
                    surround(
                        "syntax error: expected a class identifier, got `",
                        clip(name, 40),
                        "`",
                    ),
                    l,
                );
                return i + 1;
            },
        };
        if !is_blank(tail) {
            self.error(
                surround(
                    "syntax error: unexpected tokens after class name `",
                    clip(name, 40),
                    "`",
                ),
                l,
            );
            return i + 1;
        }
        let place: usize = ensure_class(&mut self.classes, &id);
        match inline {
            Some(inner) => {
                self.inline_members(place, inner, l);
                return i + 1;
            },
            None => {},
        }
        if multiline {
            let c: usize = find_block_close(lines, i + 1);
            self.block_members(place, lines, i + 1, c);
            if c < len {
                return c + 1;
            }
            let mut message = String::from_str("unterminated `class ");
            message.append(id.as_str());
            message.append(" { ... }` block (missing `}`)");
            self.error(message, l);
            return c;
        }
        i + 1
    }

    fn statement(&mut self, t: &[char], l: &Line)
        requires
            old(self).wf(),
        ensures
            final(self).wf(),
            final(self)@ == class_statement(old(self)@, t@, l@),
    {
        broadcast use lemma_views_push;

        match try_parse_class_relation(t) {
            Some(Ok(relation)) => {
                self.relations.push(RawRelation { relation, start: l.start, end: l.end });
                return;
            },
            Some(Err(m)) => {
                self.error(m, l);
                return;
            },
            None => {},
        }
        match find_char(t, ':') {
            Some(k) => {
                let len: usize = t.len();
                let member = trim_of(skip(t, k + 1));
                match split_lone_id(trim_of(take(t, k))) {
                    Some(id) => {
                        if member.len() > 0 {
                            let place: usize = ensure_class(&mut self.classes, &id);
                            self.member_line(place, member, l);
                            return;
                        }
                    },
                    None => {},
                }
            },
            None => {},
        }
        if t.len() > 0 {
            self.error(unrecognised_message(t), l);
        }
    }

    fn step(&mut self, lines: &[Line], i: usize) -> (next: usize)
        requires
            old(self).wf(),
            i < lines@.len(),
        ensures
            final(self).wf(),
            (final(self)@, next as int) == class_step(old(self)@, views(lines@), i as int),
    {
        let ghost all = views(lines@);
        let len: usize = lines.len();
        let l = &lines[i];
        assert(all[i as int] == l@);
        let t = trim_of(l.text);
        match strip_keyword_ci(t, "direction") {
            Some(rest) => {
                self.direction(rest, l);
                return i + 1;
            },
            None => {},
        }
        match find_unsupported(t) {
            Some(k) => {
                self.error(unsupported_message(k), l);
                if ends_with_char(t, '{') {
                    let c: usize = find_block_close(lines, i + 1);
                    return if c < len {
                        c + 1
                    } else {
                        c
                    };
                }
                return i + 1;
            },
            None => {},
        }
        match strip_prefix(t, "<<") {
            Some(rest) => {
                self.annotation(rest, l);
                return i + 1;
            },
            None => {},
        }
        match strip_keyword_ci(t, "class") {
            Some(rest) => self.declaration(t, trim_of(rest), lines, i),
            None => {
                self.statement(t, l);
                i + 1
            },
        }
    }

    fn finish(self) -> (r: Result<Diagram, Vec<Diagnostic>>)
        requires
            self.wf(),
        ensures
            parsed(r) == classes_verdict(self@),
    {
        broadcast use lemma_views_push;

        let ghost st = self@;
        let Classes { direction, classes, relations: raw, errors } = self;
        let ghost rels = views(raw@);
        let mut classes = classes;
        let mut errors = errors;
        let mut raw = raw;
        let mut relations: Vec<ClassRelation> = Vec::new();
        let mut i: usize = 0;
        assert(views(relations@) =~= Seq::<ClassRelationView>::empty());
        while i < raw.len()
            invariant
                i <= raw@.len(),
                rels == views(raw@),
                rels == st.relations,
                classes.wf(),
                classes@ == related_classes(st.classes, rels, i as int),
                views(relations@) == kept_relations(rels, i as int),
                views(errors@) == self_relation_errors(st.errors, rels, i as int),
            decreases raw@.len() - i,
        {
            broadcast use lemma_views_push;

            let r = &raw[i];
            assert(rels[i as int] == r@);
            if same_string(&r.relation.from, &r.relation.to) {
                let mut message = String::from_str(
                    "self relations are not supported in class diagrams (`",
                );
                message.append(r.relation.from.as_str());
                message.append("` -> `");
                message.append(r.relation.to.as_str());
                message.append("`)");
                report(&mut errors, message, r.start, r.end);
            } else {
                ensure_class(&mut classes, &r.relation.from);
                ensure_class(&mut classes, &r.relation.to);
                relations.push(copy_relation(&r.relation));
            }
            i = i + 1;
        }
        let classes = classes.into_items();
        conclude(Diagram::Class(ClassDiagram { direction, classes, relations }), errors)
    }
}

fn copy_relation(r: &ClassRelation) -> (c: ClassRelation)
    ensures
        c@ == r@,
{
    ClassRelation {
        from: r.from.clone(),
        to: r.to.clone(),
        from_marker: r.from_marker,
        to_marker: r.to_marker,
        line: r.line,
        label: copy_opt(&r.label),
        from_mult: copy_opt(&r.from_mult),
        to_mult: copy_opt(&r.to_mult),
    }
}

/// Reads the statements of a class diagram; `errors` are those found before.
pub fn parse_class(lines: &[Line], errors: Vec<Diagnostic>) -> (r: Result<Diagram, Vec<Diagnostic>>)
    ensures
        parsed(r) == classes(views(lines@), views(errors@)),
{
    let mut st = Classes {
        direction: Direction::Down,
        classes: Keyed::new(),
        relations: Vec::new(),
        errors,
    };
    let ghost start = st@;
    let ghost all = views(lines@);
    assert(start =~= classes_start(views(errors@)));
    let mut i: usize = 0;
    while i < lines.len()
        invariant
            i <= lines@.len(),
            all == views(lines@),
            st.wf(),
            class_lines(start, all, 0) == class_lines(st@, all, i as int),
        decreases lines@.len() - i,
    {
        proof {
            lemma_class_step(st@, all, i as int);
        }
        i = st.step(lines, i);
    }
    st.finish()
}

// ---------------------------------------------------------------------------
// Laws
// ---------------------------------------------------------------------------

/// A connector read from the other end.
pub open spec fn mirrored(c: Connector) -> Connector {
    Connector { from_marker: c.to_marker, to_marker: c.from_marker, line: c.line }
}

/// A token written from the other end.
pub open spec fn turned(t: Seq<char>) -> Seq<char> {
    Seq::new(
        t.len(),
        |i: int|
            if t[t.len() - 1 - i] == '<' {
                '>'
            } else if t[t.len() - 1 - i] == '>' {
                '<'
            } else {
                t[t.len() - 1 - i]
            },
    )
}

/// A connector and the token turned round describe the same relation: the
/// markers change places and the line stays as it is.
pub proof fn law_connectors_mirror(t: Seq<char>)
    requires
        connector(t) is Some,
    ensures
        connector(turned(t)) == Some(mirrored(connector(t)->0)),
{
    reveal_strlit("<|--");
    assert("<|--"@[0] == '<' && "<|--"@[1] == '|' && "<|--"@[2] == '-' && "<|--"@[3] == '-');
    reveal_strlit("--|>");
    assert("--|>"@[0] == '-' && "--|>"@[1] == '-' && "--|>"@[2] == '|' && "--|>"@[3] == '>');
    reveal_strlit("<|..");
    assert("<|.."@[0] == '<' && "<|.."@[1] == '|' && "<|.."@[2] == '.' && "<|.."@[3] == '.');
    reveal_strlit("..|>");
    assert("..|>"@[0] == '.' && "..|>"@[1] == '.' && "..|>"@[2] == '|' && "..|>"@[3] == '>');
    reveal_strlit("*--");
    assert("*--"@[0] == '*' && "*--"@[1] == '-' && "*--"@[2] == '-');
    reveal_strlit("--*");
    assert("--*"@[0] == '-' && "--*"@[1] == '-' && "--*"@[2] == '*');
    reveal_strlit("o--");
    assert("o--"@[0] == 'o' && "o--"@[1] == '-' && "o--"@[2] == '-');
    reveal_strlit("--o");
    assert("--o"@[0] == '-' && "--o"@[1] == '-' && "--o"@[2] == 'o');
    reveal_strlit("-->");
    assert("-->"@[0] == '-' && "-->"@[1] == '-' && "-->"@[2] == '>');
    reveal_strlit("<--");
    assert("<--"@[0] == '<' && "<--"@[1] == '-' && "<--"@[2] == '-');
    reveal_strlit("..>");
    assert("..>"@[0] == '.' && "..>"@[1] == '.' && "..>"@[2] == '>');
    reveal_strlit("<..");
    assert("<.."@[0] == '<' && "<.."@[1] == '.' && "<.."@[2] == '.');
    reveal_strlit("--");
    assert("--"@[0] == '-' && "--"@[1] == '-');
    reveal_strlit("..");
    assert(".."@[0] == '.' && ".."@[1] == '.');
    let u = turned(t);
    if t == "<|--"@ {
        assert(u =~= "--|>"@);
    } else if t == "--|>"@ {
        assert(u =~= "<|--"@);
    } else if t == "<|.."@ {
        assert(u =~= "..|>"@);
    } else if t == "..|>"@ {
        assert(u =~= "<|.."@);
    } else if t == "*--"@ {
        assert(u =~= "--*"@);
    } else if t == "--*"@ {
        assert(u =~= "*--"@);
    } else if t == "o--"@ {
        assert(u =~= "--o"@);
    } else if t == "--o"@ {
        assert(u =~= "o--"@);
    } else if t == "-->"@ {
        assert(u =~= "<--"@);
    } else if t == "<--"@ {
        assert(u =~= "-->"@);
    } else if t == "..>"@ {
        assert(u =~= "<.."@);
    } else if t == "<.."@ {
        assert(u =~= "..>"@);
    } else if t == "--"@ {
        assert(u =~= "--"@);
    } else {
        assert(u =~= ".."@);
    }
}

/// What holds after every line of a source of `len` bytes.
pub open spec fn classes_ok(st: ClassesView, len: int) -> bool {
    &&& distinct_keys(st.classes)
    &&& forall|i: int|
        0 <= i < st.relations.len() ==> 0 <= (#[trigger] st.relations[i]).start
            <= st.relations[i].end <= len && st.relations[i].relation.line != LineStyle::Dotted
    &&& within(st.errors, len)
}

proof fn lemma_class_added(classes: Seq<ClassNodeView>, id: Seq<char>)
    requires
        distinct_keys(classes),
    ensures
        distinct_keys(with_class(classes, id)),
        grown(classes, with_class(classes, id)),
        has_key(with_class(classes, id), id),
        0 <= class_place(with_class(classes, id), id) < with_class(classes, id).len(),
{
    lemma_with_class(classes, id);
    if !has_key(classes, id) {
        lemma_distinct_push(classes, with_class(classes, id).last());
    }
}

proof fn lemma_member_line(st: ClassesView, i: int, t: Seq<char>, l: LineView, len: int)
    requires
        classes_ok(st, len),
        0 <= i < st.classes.len(),
        line_wf(l),
        l.end <= len,
    ensures
        classes_ok(member_line(st, i, t, l), len),
        member_line(st, i, t, l).classes.len() == st.classes.len(),
{
    let after = member_line(st, i, t, l);
    lemma_distinct_update(st.classes, i, with_class_member(st.classes, i, t)[i]);
    match after_prefix(t, "<<"@) {
        Some(rest) => {
            if let Some(k) = text_index(rest, ">>"@) {
                lemma_distinct_update(st.classes, i, after.classes[i]);
            }
        },
        None => {},
    }
}

proof fn lemma_inline_members(
    st: ClassesView,
    i: int,
    members: Seq<Seq<char>>,
    n: int,
    l: LineView,
    len: int,
)
    requires
        classes_ok(st, len),
        0 <= i < st.classes.len(),
        line_wf(l),
        l.end <= len,
    ensures
        classes_ok(inline_members(st, i, members, n, l), len),
        inline_members(st, i, members, n, l).classes.len() == st.classes.len(),
    decreases n,
{
    if n > 0 {
        lemma_inline_members(st, i, members, n - 1, l, len);
        lemma_member_line(
            inline_members(st, i, members, n - 1, l),
            i,
            trim(members[n - 1]),
            l,
            len,
        );
    }
}

proof fn lemma_block_members(
    st: ClassesView,
    i: int,
    lines: Seq<LineView>,
    from: int,
    to: int,
    len: int,
)
    requires
        classes_ok(st, len),
        0 <= i < st.classes.len(),
        lines_within(lines, len),
        0 <= from,
        to <= lines.len(),
    ensures
        classes_ok(block_members(st, i, lines, from, to), len),
        block_members(st, i, lines, from, to).classes.len() == st.classes.len(),
    decreases to - from,
{
    if from < to {
        lemma_block_members(st, i, lines, from, to - 1, len);
        let l = lines[to - 1];
        lemma_member_line(block_members(st, i, lines, from, to - 1), i, trim(l.text), l, len);
    }
}

proof fn lemma_class_decl_ok(
    st: ClassesView,
    t: Seq<char>,
    rest: Seq<char>,
    lines: Seq<LineView>,
    i: int,
    len: int,
)
    requires
        classes_ok(st, len),
        lines_within(lines, len),
        0 <= i < lines.len(),
    ensures
        classes_ok(class_decl(st, t, rest, lines, i).0, len),
{
    let l = lines[i];
    let (name, body) = class_body(rest);
    if let Some((id, tail)) = ident(name) {
        let classes = with_class(st.classes, id);
        let place = class_place(classes, id);
        let declared = ClassesView { classes, ..st };
        lemma_class_added(st.classes, id);
        match body {
            Body::Inline(inner) => {
                let members = split(inner, ';');
                lemma_inline_members(declared, place, members, members.len() as int, l, len);
            },
            Body::Multiline => {
                lemma_block_close(lines, i + 1);
                lemma_block_members(
                    declared,
                    place,
                    lines,
                    i + 1,
                    block_close(lines, i + 1),
                    len,
                );
            },
            _ => {},
        }
    }
}

proof fn lemma_connector_from(words: Seq<Seq<char>>, i: int)
    requires
        0 <= i,
    ensures
        connector_from(words, i) matches Some(k) ==> connector(words[k]) is Some,
    decreases words.len() - i,
{
    if i < words.len() && connector(words[i]) is None {
        lemma_connector_from(words, i + 1);
    }
}

proof fn lemma_class_step_ok(st: ClassesView, lines: Seq<LineView>, i: int, len: int)
    requires
        classes_ok(st, len),
        lines_within(lines, len),
        0 <= i < lines.len(),
    ensures
        classes_ok(class_step(st, lines, i).0, len),
{
    let l = lines[i];
    let t = trim(l.text);
    if after_keyword(t, "direction"@) is None && unsupported_in_class(t) is None {
        match after_prefix(t, "<<"@) {
            Some(rest) => {
                if let Some(k) = text_index(rest, ">>"@) {
                    if let Some((id, tail)) = ident(trim(rest.skip(k + 2))) {
                        let classes = with_class(st.classes, id);
                        let place = class_place(classes, id);
                        lemma_class_added(st.classes, id);
                        lemma_distinct_update(
                            classes,
                            place,
                            with_stereotype(classes, place, trim(rest.take(k)))[place],
                        );
                    }
                }
            },
            None => match after_keyword(t, "class"@) {
                Some(rest) => {
                    lemma_class_decl_ok(st, t, trim(rest), lines, i, len);
                },
                None => match class_relation(t) {
                    Some(Ok(relation)) => {
                        lemma_connector_from(tokens(target_and_label(t).0), 0);
                    },
                    Some(Err(m)) => {},
                    None => {
                        if let Some((id, member)) = colon_member(t) {
                            let classes = with_class(st.classes, id);
                            lemma_class_added(st.classes, id);
                            lemma_member_line(
                                ClassesView { classes, ..st },
                                class_place(classes, id),
                                member,
                                l,
                                len,
                            );
                        }
                    },
                },
            },
        }
    }
}

proof fn lemma_class_lines(st: ClassesView, lines: Seq<LineView>, i: int, len: int)
    requires
        classes_ok(st, len),
        lines_within(lines, len),
        0 <= i,
    ensures
        classes_ok(class_lines(st, lines, i), len),
    decreases lines.len() - i,
{
    if i < lines.len() {
        lemma_class_step(st, lines, i);
        lemma_class_step_ok(st, lines, i, len);
        let (after, next) = class_step(st, lines, i);
        lemma_class_lines(after, lines, next, len);
    }
}

proof fn lemma_related_classes(st: ClassesView, n: int, len: int)
    requires
        classes_ok(st, len),
        0 <= n <= st.relations.len(),
    ensures
        ({
            let classes = related_classes(st.classes, st.relations, n);
            let kept = kept_relations(st.relations, n);
            let errors = self_relation_errors(st.errors, st.relations, n);
            &&& distinct_keys(classes)
            &&& grown(st.classes, classes)
            &&& forall|i: int|
                0 <= i < kept.len() ==> has_key(classes, (#[trigger] kept[i]).from) && has_key(
                    classes,
                    kept[i].to,
                ) && kept[i].line != LineStyle::Dotted && kept[i].from != kept[i].to
            &&& within(errors, len)
        }),
    decreases n,
{
    if n > 0 {
        lemma_related_classes(st, n - 1, len);
        let r = st.relations[n - 1].relation;
        let a = related_classes(st.classes, st.relations, n - 1);
        let b = with_class(a, r.from);
        let c = with_class(b, r.to);
        lemma_class_added(a, r.from);
        lemma_class_added(b, r.to);
        lemma_grown(a, b);
        lemma_grown(b, c);
    }
}

/// A class diagram that is accepted is sound and has no relation from a class to
/// itself. One that is refused has an error, and all errors are within the
/// source.
pub proof fn law_classes(lines: Seq<LineView>, errors: Seq<DiagnosticView>, len: int)
    requires
        lines_within(lines, len),
        within(errors, len),
    ensures
        owed(classes(lines, errors), len),
        classes(lines, errors) matches Ok(d) ==> loop_free(d),
{
    let st = class_lines(classes_start(errors), lines, 0);
    lemma_class_lines(classes_start(errors), lines, 0, len);
    lemma_related_classes(st, st.relations.len() as int, len);
}

/// A member line that is understood: an annotation that is closed, or a member
/// without type parameters.
pub open spec fn member_read(t: Seq<char>) -> bool {
    match after_prefix(t, "<<"@) {
        Some(rest) => text_index(rest, ">>"@) is Some,
        None => !has_char(t, '~'),
    }
}

/// The line after the statement at line `i`.
pub open spec fn class_next(lines: Seq<LineView>, i: int) -> int {
    let t = trim(lines[i].text);
    if after_keyword(t, "direction"@) is Some {
        i + 1
    } else if unsupported_in_class(t) is Some {
        if ends(t, '{') {
            after_block(lines, i + 1)
        } else {
            i + 1
        }
    } else if after_prefix(t, "<<"@) is Some {
        i + 1
    } else {
        match after_keyword(t, "class"@) {
            Some(rest) => {
                let (name, body) = class_body(trim(rest));
                if body is Multiline && !has_char(name, '~') && lone_ident(name) is Some {
                    after_block(lines, i + 1)
                } else {
                    i + 1
                }
            },
            None => i + 1,
        }
    }
}

/// Whether the class declaration at line `i`, `rest` following its keyword, is
/// understood: it names a class, and its body is closed and holds only members.
pub open spec fn class_decl_understood(rest: Seq<char>, lines: Seq<LineView>, i: int) -> bool {
    let (name, body) = class_body(rest);
    !has_char(name, '~') && lone_ident(name) is Some && match body {
        Body::Absent => true,
        Body::Inline(inner) => forall|j: int|
            0 <= j < split(inner, ';').len() ==> trim(#[trigger] split(inner, ';')[j]).len() == 0
                || member_read(trim(split(inner, ';')[j])),
        Body::Multiline => block_close(lines, i + 1) < lines.len() && forall|j: int|
            i < j < block_close(lines, i + 1) ==> member_read(trim((#[trigger] lines[j]).text)),
        Body::Malformed => false,
    }
}

/// Whether the statement at line `i` is understood as a whole: it is a direction,
/// an annotation, a class, a relation or a member, or blank.
pub open spec fn class_understood(lines: Seq<LineView>, i: int) -> bool {
    let t = trim(lines[i].text);
    match after_keyword(t, "direction"@) {
        Some(rest) => {
            let d = upper(trim(rest));
            d == "LR"@ || d == "TD"@ || d == "TB"@
        },
        None => unsupported_in_class(t) is None && match after_prefix(t, "<<"@) {
            Some(rest) => text_index(rest, ">>"@) matches Some(k) && lone_ident(
                trim(rest.skip(k + 2)),
            ) is Some,
            None => match after_keyword(t, "class"@) {
                Some(rest) => class_decl_understood(trim(rest), lines, i),
                None => match class_relation(t) {
                    Some(r) => r is Ok,
                    None => match colon_member(t) {
                        Some((_, member)) => member_read(member),
                        None => t.len() == 0,
                    },
                },
            },
        },
    }
}

/// Whether every statement from line `i` on is understood.
pub open spec fn class_all_understood(lines: Seq<LineView>, i: int) -> bool
    decreases lines.len() - i,
{
    if 0 <= i < lines.len() {
        proof {
            lemma_block_close(lines, i + 1);
        }
        class_understood(lines, i) && class_all_understood(lines, class_next(lines, i))
    } else {
        true
    }
}

/// The relation on a line, and where the line stands.
pub open spec fn relation_on(l: LineView) -> Option<RawRelationView> {
    let t = trim(l.text);
    if after_keyword(t, "direction"@) is Some || unsupported_in_class(t) is Some || after_prefix(
        t,
        "<<"@,
    ) is Some || after_keyword(t, "class"@) is Some {
        None
    } else {
        match class_relation(t) {
            Some(Ok(relation)) => Some(
                RawRelationView { relation, start: l.start, end: l.end },
            ),
            _ => None,
        }
    }
}

/// The relations from line `i` on.
pub open spec fn relations_from(lines: Seq<LineView>, i: int) -> Seq<RawRelationView>
    decreases lines.len() - i,
{
    if 0 <= i < lines.len() {
        proof {
            lemma_block_close(lines, i + 1);
        }
        let rest = relations_from(lines, class_next(lines, i));
        match relation_on(lines[i]) {
            Some(r) => seq![r] + rest,
            None => rest,
        }
    } else {
        Seq::empty()
    }
}

proof fn lemma_inline_members_read(
    st: ClassesView,
    i: int,
    members: Seq<Seq<char>>,
    n: int,
    l: LineView,
)
    requires
        0 <= n <= members.len(),
    ensures
        inline_members(st, i, members, n, l).relations == st.relations,
        inline_members(st, i, members, n, l).errors.len() >= st.errors.len(),
        inline_members(st, i, members, n, l).errors.len() == st.errors.len() <==> forall|j: int|
            0 <= j < n ==> trim(#[trigger] members[j]).len() == 0 || member_read(trim(members[j])),
    decreases n,
{
    if n > 0 {
        lemma_inline_members_read(st, i, members, n - 1, l);
        let before = inline_members(st, i, members, n - 1, l);
        let after = inline_members(st, i, members, n, l);
        assert(after.errors.len() == before.errors.len() <==> trim(members[n - 1]).len() == 0
            || member_read(trim(members[n - 1])));
    }
}

proof fn lemma_block_members_read(
    st: ClassesView,
    i: int,
    lines: Seq<LineView>,
    from: int,
    to: int,
)
    ensures
        block_members(st, i, lines, from, to).relations == st.relations,
        block_members(st, i, lines, from, to).errors.len() >= st.errors.len(),
        block_members(st, i, lines, from, to).errors.len() == st.errors.len() <==> forall|j: int|
            from <= j < to ==> member_read(trim((#[trigger] lines[j]).text)),
    decreases to - from,
{
    if from < to {
        lemma_block_members_read(st, i, lines, from, to - 1);
        let before = block_members(st, i, lines, from, to - 1);
        let after = block_members(st, i, lines, from, to);
        assert(after.errors.len() == before.errors.len() <==> member_read(
            trim(lines[to - 1].text),
        ));
    }
}

proof fn lemma_class_decl_read(
    st: ClassesView,
    t: Seq<char>,
    rest: Seq<char>,
    lines: Seq<LineView>,
    i: int,
)
    requires
        0 <= i < lines.len(),
    ensures
        class_decl(st, t, rest, lines, i).0.relations == st.relations,
        class_decl(st, t, rest, lines, i).0.errors.len() >= st.errors.len(),
        class_decl(st, t, rest, lines, i).0.errors.len() == st.errors.len()
            <==> class_decl_understood(rest, lines, i),
{
    let (name, body) = class_body(rest);
    if let Some((id, tail)) = ident(name) {
        let classes = with_class(st.classes, id);
        let place = class_place(classes, id);
        let declared = ClassesView { classes, ..st };
        match body {
            Body::Inline(inner) => {
                let members = split(inner, ';');
                lemma_inline_members_read(
                    declared,
                    place,
                    members,
                    members.len() as int,
                    lines[i],
                );
            },
            Body::Multiline => {
                let c = block_close(lines, i + 1);
                lemma_block_members_read(declared, place, lines, i + 1, c);
            },
            _ => {},
        }
    }
}

proof fn lemma_class_step_read(st: ClassesView, lines: Seq<LineView>, i: int)
    requires
        0 <= i < lines.len(),
    ensures
        class_step(st, lines, i).1 == class_next(lines, i),
        class_step(st, lines, i).0.errors.len() >= st.errors.len(),
        class_step(st, lines, i).0.errors.len() == st.errors.len() <==> class_understood(lines, i),
        class_step(st, lines, i).0.relations == (match relation_on(lines[i]) {
            Some(r) => st.relations.push(r),
            None => st.relations,
        }),
{
    let t = trim(lines[i].text);
    if let Some(rest) = after_keyword(t, "class"@) {
        lemma_class_decl_read(st, t, trim(rest), lines, i);
    }
}

/// No line is passed over: every relation is kept, in the order of the lines, and
/// there is no error exactly where every statement is understood.
pub proof fn law_no_line_is_passed_over(st: ClassesView, lines: Seq<LineView>, i: int)
    requires
        0 <= i,
    ensures
        class_lines(st, lines, i).relations == st.relations + relations_from(lines, i),
        class_lines(st, lines, i).errors.len() >= st.errors.len(),
        class_lines(st, lines, i).errors.len() == st.errors.len() <==> class_all_understood(
            lines,
            i,
        ),
    decreases lines.len() - i,
{
    if i < lines.len() {
        lemma_class_step(st, lines, i);
        lemma_class_step_read(st, lines, i);
        let (after, next) = class_step(st, lines, i);
        law_no_line_is_passed_over(after, lines, next);
        assert(class_lines(st, lines, i).relations =~= st.relations + relations_from(lines, i));
    }
}

} // verus!
