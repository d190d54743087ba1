//! The small pieces of Mermaid syntax: identifiers, brackets and labels.
use crate::offsets::{byte_len, byte_len_of, lemma_byte_len_part};
use crate::text::{
    begins, blank, char_index, ends, find_char, ident_end, is_blank, lemma_char_from,
    lemma_past_ident, lemma_past_white, opt_view, past_ident, skip, starts_with_char,
    strip_suffix, take, to_chars, to_string, trim_start, trim_start_of,
};
use vstd::prelude::*;

verus! {

/// Whether `t` is what is left of `s` after some first characters.
pub open spec fn tail_of(t: Seq<char>, s: Seq<char>) -> bool {
    t.len() <= s.len() && t == s.skip(s.len() - t.len())
}

pub proof fn lemma_tail_trans(t: Seq<char>, s: Seq<char>, r: Seq<char>)
    requires
        tail_of(t, s),
        tail_of(s, r),
    ensures
        tail_of(t, r),
{
    assert(t =~= r.skip(r.len() - t.len()));
}

pub proof fn lemma_tail_skip(s: Seq<char>, n: int)
    requires
        0 <= n <= s.len(),
    ensures
        tail_of(s.skip(n), s),
        s.skip(n).len() == s.len() - n,
{
}

pub proof fn lemma_tail_trim(s: Seq<char>)
    ensures
        tail_of(trim_start(s), s),
{
    lemma_past_white(s, 0);
}

/// The byte offset at which the tail `t` of `s` begins.
pub open spec fn tail_offset(t: Seq<char>, s: Seq<char>) -> int {
    byte_len(s.take(s.len() - t.len())) as int
}

/// A tail and what stands before it make up the text.
pub proof fn lemma_tail_offset(t: Seq<char>, s: Seq<char>)
    requires
        tail_of(t, s),
    ensures
        tail_offset(t, s) + byte_len(t) == byte_len(s),
{
    crate::offsets::lemma_byte_len_cut(s, s.len() - t.len());
}

/// The byte offset at which the tail `t` of `s` begins.
pub fn offset_of_tail(t: &[char], s: &[char]) -> (r: usize)
    requires
        t@.len() <= s@.len(),
        byte_len(s@) <= usize::MAX,
    ensures
        r == tail_offset(t@, s@),
{
    proof {
        lemma_byte_len_part(s@, 0, s@.len() - t@.len());
    }
    byte_len_of(take(s, s.len() - t.len()))
}

// ---------------------------------------------------------------------------
// Identifiers
// ---------------------------------------------------------------------------

/// The identifier at the start of `s`, white space skipped, and what follows.
pub open spec fn ident(s: Seq<char>) -> Option<(Seq<char>, Seq<char>)> {
    let t = trim_start(s);
    let n = past_ident(t, 0);
    if n == 0 {
        None
    } else {
        Some((t.take(n), t.skip(n)))
    }
}

/// `s` is an identifier, with nothing but white space around it.
pub open spec fn lone_ident(s: Seq<char>) -> Option<Seq<char>> {
    match ident(s) {
        Some((id, rest)) => if blank(rest) {
            Some(id)
        } else {
            None
        },
        None => None,
    }
}

pub proof fn lemma_ident(s: Seq<char>)
    ensures
        ident(s) matches Some((id, rest)) ==> tail_of(rest, s) && rest.len() < s.len() && id.len()
            > 0,
{
    let t = trim_start(s);
    lemma_tail_trim(s);
    lemma_past_ident(t, 0);
    if ident(s) is Some {
        lemma_tail_skip(t, past_ident(t, 0));
        lemma_tail_trans(t.skip(past_ident(t, 0)), t, s);
    }
}

/// The identifier at the start of `s`, white space skipped, and what follows.
pub fn split_id<'a>(s: &'a [char]) -> (r: Option<(String, &'a [char])>)
    ensures
        opt_view(r) == ident(s@),
{
    let t = trim_start_of(s);
    let end: usize = ident_end(t, 0);
    if end == 0 {
        return None;
    }
    Some((to_string(take(t, end)), skip(t, end)))
}

/// `s` as an identifier, with nothing but white space around it.
pub fn split_lone_id(s: &[char]) -> (r: Option<String>)
    ensures
        opt_view(r) == lone_ident(s@),
{
    match split_id(s) {
        Some((id, rest)) => if is_blank(rest) {
            Some(id)
        } else {
            None
        },
        None => None,
    }
}

// ---------------------------------------------------------------------------
// Brackets
// ---------------------------------------------------------------------------

/// The index, from `i` on, of the `close` that ends the bracket in which
/// `depth` brackets are open.
pub open spec fn close_from(s: Seq<char>, open: char, close: char, i: int, depth: int) -> Option<
    int,
>
    decreases s.len() - i,
{
    if !(0 <= i < s.len()) {
        None
    } else if s[i] == open {
        close_from(s, open, close, i + 1, depth + 1)
    } else if s[i] == close {
        if depth == 1 {
            Some(i)
        } else {
            close_from(s, open, close, i + 1, depth - 1)
        }
    } else {
        close_from(s, open, close, i + 1, depth)
    }
}

pub proof fn lemma_close_from(s: Seq<char>, open: char, close: char, i: int, depth: int)
    requires
        0 <= i <= s.len(),
    ensures
        close_from(s, open, close, i, depth) matches Some(k) ==> i <= k < s.len() && s[k] == close,
    decreases s.len() - i,
{
    if i < s.len() {
        if s[i] == open {
            lemma_close_from(s, open, close, i + 1, depth + 1);
        } else if s[i] == close && depth != 1 {
            lemma_close_from(s, open, close, i + 1, depth - 1);
        } else if s[i] != close {
            lemma_close_from(s, open, close, i + 1, depth);
        }
    }
}

/// What stands inside the balanced bracket at the start of `s`, white space
/// skipped, and what follows it.
pub open spec fn bracket(s: Seq<char>, open: char, close: char) -> Option<(Seq<char>, Seq<char>)> {
    let t = trim_start(s);
    if !begins(t, open) {
        None
    } else {
        match close_from(t, open, close, 1, 1) {
            Some(k) => Some((t.subrange(1, k), t.skip(k + 1))),
            None => None,
        }
    }
}

pub proof fn lemma_bracket(s: Seq<char>, open: char, close: char)
    ensures
        bracket(s, open, close) matches Some((_, rest)) ==> tail_of(rest, s) && rest.len()
            < s.len(),
{
    let t = trim_start(s);
    lemma_tail_trim(s);
    if begins(t, open) {
        lemma_close_from(t, open, close, 1, 1);
        if let Some(k) = close_from(t, open, close, 1, 1) {
            lemma_tail_skip(t, k + 1);
            lemma_tail_trans(t.skip(k + 1), t, s);
        }
    }
}

/// What stands inside the balanced bracket at the start of `s`, white space
/// skipped, and what follows it.
pub fn extract_bracket_with_rest<'a>(s: &'a [char], open: char, close: char) -> (r: Option<
    (String, &'a [char]),
>)
    ensures
        opt_view(r) == bracket(s@, open, close),
{
    let t = trim_start_of(s);
    if !starts_with_char(t, open) {
        return None;
    }
    let mut depth: usize = 1;
    let mut i: usize = 1;
    while i < t.len()
        invariant
            1 <= i <= t@.len(),
            1 <= depth <= i,
            close_from(t@, open, close, 1, 1) == close_from(t@, open, close, i as int, depth as int),
            t@ == trim_start(s@),
            begins(t@, open),
        decreases t@.len() - i,
    {
        let len: usize = t.len();
        let c: char = t[i];
        if c == open {
            depth = depth + 1;
        } else if c == close {
            if depth == 1 {
                let inner = vstd::slice::slice_subrange(t, 1, i);
                return Some((to_string(inner), skip(t, i + 1)));
            }
            depth = depth - 1;
        }
        i = i + 1;
    }
    None
}

/// What stands inside the double round bracket at the start of `s`, and what
/// follows it.
pub open spec fn circle(s: Seq<char>) -> Option<(Seq<char>, Seq<char>)> {
    match bracket(s, '(', ')') {
        Some((content, rest)) => if begins(content, '(') && ends(content.skip(1), ')') {
            Some((content.subrange(1, content.len() - 1), rest))
        } else {
            None
        },
        None => None,
    }
}

/// What stands inside the double round bracket at the start of `s`, and what
/// follows it.
pub fn extract_circle_with_rest<'a>(s: &'a [char]) -> (r: Option<(String, &'a [char])>)
    ensures
        opt_view(r) == circle(s@),
{
    match extract_bracket_with_rest(s, '(', ')') {
        Some((content, rest)) => {
            let chars = to_chars(content.as_str());
            if !starts_with_char(chars.as_slice(), '(') {
                return None;
            }
            let inner = skip(chars.as_slice(), 1);
            match strip_suffix(inner, ')') {
                Some(label) => {
                    assert(label@ =~= chars@.subrange(1, chars@.len() - 1));
                    Some((to_string(label), rest))
                },
                None => None,
            }
        },
        None => None,
    }
}

/// The label between the bars at the start of `s`, white space skipped, and
/// what follows.
pub open spec fn pipe_label(s: Seq<char>) -> Option<(Seq<char>, Seq<char>)> {
    let t = trim_start(s);
    if !begins(t, '|') {
        None
    } else {
        match char_index(t.skip(1), '|') {
            Some(k) => Some((t.skip(1).take(k), t.skip(1).skip(k + 1))),
            None => None,
        }
    }
}

pub proof fn lemma_pipe_label(s: Seq<char>)
    ensures
        pipe_label(s) matches Some((_, rest)) ==> tail_of(rest, s) && rest.len() < s.len(),
{
    let t = trim_start(s);
    lemma_tail_trim(s);
    if begins(t, '|') {
        lemma_char_from(t.skip(1), '|', 0);
        if let Some(k) = char_index(t.skip(1), '|') {
            lemma_tail_skip(t, 1);
            lemma_tail_skip(t.skip(1), k + 1);
            lemma_tail_trans(t.skip(1).skip(k + 1), t.skip(1), t);
            lemma_tail_trans(t.skip(1).skip(k + 1), t, s);
        }
    }
}

/// The label between the bars at the start of `s`, white space skipped, and
/// what follows.
pub fn extract_pipe_label<'a>(s: &'a [char]) -> (r: Option<(String, &'a [char])>)
    ensures
        opt_view(r) == pipe_label(s@),
{
    let t = trim_start_of(s);
    if !starts_with_char(t, '|') {
        return None;
    }
    let inner = skip(t, 1);
    match find_char(inner, '|') {
        Some(k) => {
            let len: usize = inner.len();
            Some((to_string(take(inner, k)), skip(inner, k + 1)))
        },
        None => None,
    }
}

} // verus!
