//! Source text as lines with their byte offsets.
use crate::offsets::{byte_len, byte_len_of, lemma_byte_len_cut};
use crate::text::{
    ascii_white_space, before_white, char_index, find_char, is_ascii_white_space,
    lemma_before_white, lemma_char_from, lemma_past_white, lemma_views_push, opt_view, past_white,
    skip, take, to_upper_char, trim, trim_start, upper, upper_char, views,
};
use vstd::prelude::*;

verus! {

/// A line of the source, without its line break.
pub struct Line<'a> {
    /// The byte offset of its first character.
    pub start: usize,
    /// The byte offset of its end.
    pub end: usize,
    /// Its characters.
    pub text: &'a [char],
}

/// The model of [`Line`].
#[verifier::ext_equal]
pub struct LineView {
    pub start: int,
    pub end: int,
    pub text: Seq<char>,
}

impl<'a> View for Line<'a> {
    type V = LineView;

    open spec fn view(&self) -> LineView {
        LineView { start: self.start as int, end: self.end as int, text: self.text@ }
    }
}

/// The line `text` at byte offset `start`.
pub open spec fn line_at(text: Seq<char>, start: int) -> LineView {
    LineView { start, end: start + byte_len(text), text }
}

/// Whether the offsets of `l` are those of its text.
pub open spec fn line_wf(l: LineView) -> bool {
    0 <= l.start && l.end == l.start + byte_len(l.text)
}

/// Whether every line's offsets are those of its text.
pub open spec fn lines_wf(s: Seq<LineView>) -> bool {
    forall|i: int| 0 <= i < s.len() ==> line_wf(#[trigger] s[i])
}

/// The lines of `s`, whose first character stands at byte offset `start`.
pub open spec fn lines_from(s: Seq<char>, start: int) -> Seq<LineView>
    decreases s.len(),
{
    proof {
        lemma_char_from(s, '\n', 0);
    }
    match char_index(s, '\n') {
        Some(i) => seq![line_at(s.take(i), start)] + lines_from(
            s.skip(i + 1),
            start + byte_len(s.take(i)) + 1,
        ),
        None => seq![line_at(s, start)],
    }
}

/// Each line's offsets are those of its text.
pub proof fn lemma_lines_wf(s: Seq<char>, start: int)
    requires
        0 <= start,
    ensures
        lines_wf(lines_from(s, start)),
    decreases s.len(),
{
    lemma_char_from(s, '\n', 0);
    match char_index(s, '\n') {
        Some(i) => {
            lemma_lines_wf(s.skip(i + 1), start + byte_len(s.take(i)) + 1);
        },
        None => {},
    }
}

/// Each line lies within the bytes of the source, and the lines follow one
/// another.
pub proof fn lemma_lines_within(s: Seq<char>, start: int)
    requires
        0 <= start,
    ensures
        forall|i: int|
            0 <= i < lines_from(s, start).len() ==> start <= (#[trigger] lines_from(s, start)[i]).start
                && lines_from(s, start)[i].end <= start + byte_len(s),
        forall|i: int, j: int|
            0 <= i < j < lines_from(s, start).len() ==> (#[trigger] lines_from(s, start)[i]).end < (
            #[trigger] lines_from(s, start)[j]).start,
    decreases s.len(),
{
    lemma_char_from(s, '\n', 0);
    match char_index(s, '\n') {
        Some(i) => {
            let next = start + byte_len(s.take(i)) + 1;
            lemma_lines_within(s.skip(i + 1), next);
            lemma_byte_len_cut(s, i + 1);
            assert(s.take(i + 1).drop_last() =~= s.take(i));
            let all = lines_from(s, start);
            let rest = lines_from(s.skip(i + 1), next);
            assert forall|k: int| 0 <= k < all.len() implies start <= (#[trigger] all[k]).start
                && all[k].end <= start + byte_len(s) by {
                if k > 0 {
                    assert(all[k] == rest[k - 1]);
                }
            }
            assert forall|a: int, b: int| 0 <= a < b < all.len() implies (#[trigger] all[a]).end < (
            #[trigger] all[b]).start by {
                assert(all[b] == rest[b - 1]);
                if a > 0 {
                    assert(all[a] == rest[a - 1]);
                }
            }
        },
        None => {},
    }
}

/// The bytes before the trimmed text of a line.
pub open spec fn indent(s: Seq<char>) -> int {
    byte_len(s.take(past_white(s, 0))) as int
}

/// The trimmed text of a line lies within the line.
pub proof fn lemma_indent(s: Seq<char>)
    ensures
        0 <= indent(s),
        indent(s) + byte_len(trim(s)) <= byte_len(s),
{
    lemma_past_white(s, 0);
    let t = trim_start(s);
    lemma_byte_len_cut(s, past_white(s, 0));
    lemma_before_white(t, t.len() as int);
    lemma_byte_len_cut(t, before_white(t, t.len() as int));
}

/// The lines of `s`.
pub fn split_lines<'a>(s: &'a [char]) -> (r: Vec<Line<'a>>)
    requires
        byte_len(s@) <= usize::MAX,
    ensures
        views(r@) == lines_from(s@, 0),
{
    broadcast use lemma_views_push;

    let mut out: Vec<Line<'a>> = Vec::new();
    let mut rest: &'a [char] = s;
    let mut start: usize = 0;
    assert(views(out@) + lines_from(rest@, start as int) =~= lines_from(s@, 0));
    loop
        invariant
            start + byte_len(rest@) <= usize::MAX,
            views(out@) + lines_from(rest@, start as int) == lines_from(s@, 0),
        decreases rest@.len(),
    {
        match find_char(rest, '\n') {
            Some(i) => {
                let ghost before = views(out@);
                let ghost old_rest = rest@;
                let len: usize = rest.len();
                proof {
                    lemma_byte_len_cut(rest@, i as int);
                    lemma_byte_len_cut(rest@, i + 1);
                    assert(rest@.take(i + 1).drop_last() =~= rest@.take(i as int));
                }
                let text = take(rest, i);
                let end: usize = start + byte_len_of(text);
                out.push(Line { start, end, text });
                rest = skip(rest, i + 1);
                start = end + 1;
                assert(before.push(line_at(text@, out@.last().start as int)) + lines_from(
                    rest@,
                    start as int,
                ) =~= before + (seq![line_at(text@, out@.last().start as int)] + lines_from(
                    rest@,
                    start as int,
                )));
            },
            None => {
                let ghost before = views(out@);
                let end: usize = start + byte_len_of(rest);
                out.push(Line { start, end, text: rest });
                assert(before.push(line_at(rest@, start as int)) =~= before + seq![
                    line_at(rest@, start as int),
                ]);
                return out;
            },
        }
    }
}

// ---------------------------------------------------------------------------
// Keywords
// ---------------------------------------------------------------------------

/// Whether a keyword that ends before `i` ends there as a word.
pub open spec fn word_ends(s: Seq<char>, i: int) -> bool {
    i == s.len() || ascii_white_space(s[i]) || s[i] == '\0'
}

/// What follows the keyword `k` at the start of `s`, where it stands as a word
/// in any mix of upper and lower case.
pub open spec fn after_keyword(s: Seq<char>, k: Seq<char>) -> Option<Seq<char>> {
    if k.len() <= s.len() && upper(s.take(k.len() as int)) == upper(k) && word_ends(
        s,
        k.len() as int,
    ) {
        Some(s.skip(k.len() as int))
    } else {
        None
    }
}

/// Whether `s` begins with `p` in any mix of upper and lower case.
pub open spec fn prefix_any_case(s: Seq<char>, p: Seq<char>) -> bool {
    p.len() <= s.len() && upper(s.take(p.len() as int)) == upper(p)
}

/// Whether `s` begins with `p` in any mix of upper and lower case.
pub fn starts_with_any_case(s: &[char], p: &str) -> (r: bool)
    ensures
        r == prefix_any_case(s@, p@),
{
    let n: usize = p.unicode_len();
    if n > s.len() {
        return false;
    }
    let mut i: usize = 0;
    while i < n
        invariant
            n == p@.len(),
            n <= s@.len(),
            i <= n,
            forall|j: int| 0 <= j < i ==> upper_char(s@[j]) == upper_char(p@[j]),
        decreases n - i,
    {
        if to_upper_char(s[i]) != to_upper_char(p.get_char(i)) {
            assert(upper(s@.take(n as int))[i as int] != upper(p@)[i as int]);
            return false;
        }
        i = i + 1;
    }
    assert(upper(s@.take(n as int)) =~= upper(p@));
    true
}

/// What follows the keyword `keyword` at the start of `s`, where it stands as a
/// word in any mix of upper and lower case.
pub fn strip_keyword_ci<'a>(s: &'a [char], keyword: &str) -> (r: Option<&'a [char]>)
    ensures
        opt_view(r) == after_keyword(s@, keyword@),
{
    if !starts_with_any_case(s, keyword) {
        return None;
    }
    let n: usize = keyword.unicode_len();
    if n == s.len() || is_ascii_white_space(s[n]) || s[n] == '\0' {
        Some(skip(s, n))
    } else {
        None
    }
}

/// The lines from `i` on, with a line break between each and the next.
pub open spec fn rejoined(lines: Seq<LineView>, i: int) -> Seq<char>
    decreases lines.len() - i,
{
    if i + 1 < lines.len() {
        lines[i].text + seq!['\n'] + rejoined(lines, i + 1)
    } else {
        lines[i].text
    }
}

proof fn lemma_rejoined(first: LineView, rest: Seq<LineView>, i: int)
    requires
        0 <= i < rest.len(),
    ensures
        rejoined(seq![first] + rest, i + 1) == rejoined(rest, i),
    decreases rest.len() - i,
{
    let all = seq![first] + rest;
    assert(all[i + 1] == rest[i]);
    if i + 1 < rest.len() {
        lemma_rejoined(first, rest, i + 1);
    }
}

/// The lines of a text are the text, cut at its line breaks: joined again they give it
/// back, and no line holds a line break. The first begins where the text does, and each
/// other one byte behind the end of the one before.
pub proof fn law_lines_give_the_text(s: Seq<char>, start: int)
    ensures
        lines_from(s, start).len() > 0,
        rejoined(lines_from(s, start), 0) == s,
        lines_from(s, start)[0].start == start,
        forall|i: int, j: int|
            0 <= i < lines_from(s, start).len() && 0 <= j < lines_from(s, start)[i].text.len()
                ==> #[trigger] lines_from(s, start)[i].text[j] != '\n',
        forall|i: int|
            1 <= i < lines_from(s, start).len() ==> (#[trigger] lines_from(s, start)[i]).start
                == lines_from(s, start)[i - 1].end + 1,
    decreases s.len(),
{
    lemma_char_from(s, '\n', 0);
    match char_index(s, '\n') {
        Some(i) => {
            let next = start + byte_len(s.take(i)) + 1;
            let first = line_at(s.take(i), start);
            let rest = lines_from(s.skip(i + 1), next);
            let all = lines_from(s, start);
            law_lines_give_the_text(s.skip(i + 1), next);
            lemma_rejoined(first, rest, 0);
            assert(all[0] == first);
            assert(s.take(i) + seq!['\n'] + s.skip(i + 1) =~= s);
            assert forall|a: int, b: int|
                0 <= a < all.len() && 0 <= b < all[a].text.len() implies #[trigger] all[a].text[b]
                != '\n' by {
                if a == 0 {
                    assert(all[a].text[b] == s[b]);
                } else {
                    assert(all[a] == rest[a - 1]);
                    assert(rest[a - 1].text[b] != '\n');
                }
            }
            assert forall|a: int| 1 <= a < all.len() implies (#[trigger] all[a]).start == all[a
                - 1].end + 1 by {
                assert(all[a] == rest[a - 1]);
                if a > 1 {
                    assert(all[a - 1] == rest[a - 2]);
                }
            }
        },
        None => {},
    }
}

} // verus!
