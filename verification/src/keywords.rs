//! Lists of keywords, and messages about statements.
use crate::text::{
    ascii_white_space, at_most, clip, has_prefix, is_ascii_white_space, opt_view, starts_with,
    surround, views,
};
use vstd::prelude::*;

verus! {

/// Whether `k` stands as a word at the start of `t`.
pub open spec fn word_at_start(t: Seq<char>, k: Seq<char>) -> bool {
    has_prefix(t, k) && (t.len() == k.len() || ascii_white_space(t[k.len() as int]))
}

/// Whether `k` stands as a word at the start of `t`.
pub fn starts_with_word(t: &[char], k: &str) -> (r: bool)
    ensures
        r == word_at_start(t@, k@),
{
    let n: usize = k.unicode_len();
    starts_with(t, k) && (t.len() == n || is_ascii_white_space(t[n]))
}

/// The first of the keywords from `i` on that stands as a word at the start of
/// `t`.
pub open spec fn keyword_from(t: Seq<char>, keywords: Seq<Seq<char>>, i: int) -> Option<Seq<char>>
    decreases keywords.len() - i,
{
    if 0 <= i < keywords.len() {
        if word_at_start(t, keywords[i]) {
            Some(keywords[i])
        } else {
            keyword_from(t, keywords, i + 1)
        }
    } else {
        None
    }
}

/// The first of the keywords that stands as a word at the start of `t`.
pub open spec fn keyword_at_start(t: Seq<char>, keywords: Seq<Seq<char>>) -> Option<Seq<char>> {
    keyword_from(t, keywords, 0)
}

/// The first of the keywords that stands as a word at the start of `t`.
pub fn find_keyword(t: &[char], keywords: &[&'static str]) -> (r: Option<&'static str>)
    ensures
        opt_view(r) == keyword_at_start(t@, views(keywords@)),
{
    let mut i: usize = 0;
    while i < keywords.len()
        invariant
            i <= keywords@.len(),
            keyword_at_start(t@, views(keywords@)) == keyword_from(
                t@,
                views(keywords@),
                i as int,
            ),
        decreases keywords@.len() - i,
    {
        let k: &'static str = keywords[i];
        if starts_with_word(t, k) {
            return Some(k);
        }
        i = i + 1;
    }
    None
}

/// The message about a feature that is not supported.
pub open spec fn unsupported(feature: Seq<char>) -> Seq<char> {
    "unsupported: "@ + feature + " (kozue does not support this yet)"@
}

/// The message about a feature that is not supported.
pub fn unsupported_message(feature: &str) -> (r: String)
    ensures
        r@ == unsupported(feature@),
{
    let mut out = String::from_str("unsupported: ");
    out.append(feature);
    out.append(" (kozue does not support this yet)");
    out
}

/// The message about a statement that is not understood.
pub open spec fn unrecognised(t: Seq<char>) -> Seq<char> {
    "syntax error: unrecognised statement `"@ + at_most(t, 40) + "`"@
}

/// The message about a statement that is not understood.
pub fn unrecognised_message(t: &[char]) -> (r: String)
    ensures
        r@ == unrecognised(t@),
{
    surround("syntax error: unrecognised statement `", clip(t, 40), "`")
}

/// The message about two statements on one line.
pub open spec fn semicolon() -> Seq<char> {
    "unsupported: semicolon statement separator; use newlines instead (kozue does not support this yet)"@
}

/// The message about two statements on one line.
pub fn semicolon_message() -> (r: String)
    ensures
        r@ == semicolon(),
{
    String::from_str(
        "unsupported: semicolon statement separator; use newlines instead (kozue does not support this yet)",
    )
}

} // verus!
