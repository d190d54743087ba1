//! The small pieces of PlantUML syntax: keywords, names and declarations.
use crate::lines::{prefix_any_case, starts_with_any_case};
use crate::text::{
    alphanumeric, ascii_white_space, begins, char_index, find_char, find_text, is_alphanumeric,
    is_ascii_white_space, is_white_space, opt_int, opt_view, skip, starts_with_char, take,
    text_index, to_string, trim, trim_of, trim_start, trim_start_of, upper, white_space,
};
use vstd::prelude::*;

verus! {

/// Whether `s` is one word.
pub open spec fn single_token(s: Seq<char>) -> bool {
    s.len() > 0 && forall|i: int| 0 <= i < s.len() ==> !white_space(#[trigger] s[i])
}

/// A character that a participant's id may hold.
pub open spec fn id_char(c: char) -> bool {
    alphanumeric(c) || c == '_' || c == '-'
}

/// Whether `s` can be a participant's id.
pub open spec fn participant_id(s: Seq<char>) -> bool {
    s.len() > 0 && forall|i: int| 0 <= i < s.len() ==> id_char(#[trigger] s[i])
}

/// Whether `s` is one word.
pub fn is_single_token(s: &[char]) -> (r: bool)
    ensures
        r == single_token(s@),
{
    let mut i: usize = 0;
    while i < s.len()
        invariant
            i <= s@.len(),
            forall|k: int| 0 <= k < i ==> !white_space(#[trigger] s@[k]),
        decreases s@.len() - i,
    {
        if is_white_space(s[i]) {
            return false;
        }
        i = i + 1;
    }
    s.len() > 0
}

/// Whether `s` can be a participant's id.
pub fn is_valid_participant_id(s: &[char]) -> (r: bool)
    ensures
        r == participant_id(s@),
{
    let mut i: usize = 0;
    while i < s.len()
        invariant
            i <= s@.len(),
            forall|k: int| 0 <= k < i ==> id_char(#[trigger] s@[k]),
        decreases s@.len() - i,
    {
        let c: char = s[i];
        if !(is_alphanumeric(c) || c == '_' || c == '-') {
            assert(!id_char(s@[i as int]));
            return false;
        }
        i = i + 1;
    }
    s.len() > 0
}

/// The first index from `i` on that holds ASCII white space.
pub open spec fn ascii_word_end(s: Seq<char>, i: int) -> int
    decreases s.len() - i,
{
    if 0 <= i < s.len() && !ascii_white_space(s[i]) {
        ascii_word_end(s, i + 1)
    } else {
        i
    }
}

pub proof fn lemma_ascii_word_end(s: Seq<char>, i: int)
    requires
        0 <= i <= s.len(),
    ensures
        i <= ascii_word_end(s, i) <= s.len(),
    decreases s.len() - i,
{
    if i < s.len() && !ascii_white_space(s[i]) {
        lemma_ascii_word_end(s, i + 1);
    }
}

/// The first word of `s` and what follows it.
pub open spec fn keyword_and_rest(s: Seq<char>) -> Option<(Seq<char>, Seq<char>)> {
    let t = trim_start(s);
    if t.len() == 0 {
        None
    } else {
        let n = ascii_word_end(t, 0);
        Some((t.take(n), trim_start(t.skip(n))))
    }
}

/// The first word of `s` and what follows it.
pub fn split_keyword<'a>(s: &'a [char]) -> (r: Option<(&'a [char], &'a [char])>)
    ensures
        opt_view(r) == keyword_and_rest(s@),
{
    let t = trim_start_of(s);
    if t.len() == 0 {
        return None;
    }
    let mut i: usize = 0;
    while i < t.len() && !is_ascii_white_space(t[i])
        invariant
            i <= t@.len(),
            ascii_word_end(t@, 0) == ascii_word_end(t@, i as int),
        decreases t@.len() - i,
    {
        i = i + 1;
    }
    Some((take(t, i), trim_start_of(skip(t, i))))
}

/// Whether `s` is `k` in any mix of upper and lower case.
pub open spec fn same_any_case(s: Seq<char>, k: Seq<char>) -> bool {
    upper(s) == upper(k)
}

/// Whether `s` is `k` in any mix of upper and lower case.
pub fn equals_any_case(s: &[char], k: &str) -> (r: bool)
    ensures
        r == same_any_case(s@, k@),
{
    let n: usize = k.unicode_len();
    if s.len() != n {
        assert(upper(s@).len() != upper(k@).len());
        return false;
    }
    assert(s@.take(n as int) =~= s@);
    starts_with_any_case(s, k)
}

/// What follows the word `k` at the start of `s`, in any mix of upper and lower
/// case.
pub open spec fn after_word(s: Seq<char>, k: Seq<char>) -> Option<Seq<char>> {
    if prefix_any_case(s, k) && (s.len() == k.len() || ascii_white_space(s[k.len() as int])) {
        Some(s.skip(k.len() as int))
    } else {
        None
    }
}

/// What follows the word `keyword` at the start of `s`, in any mix of upper and
/// lower case.
pub fn strip_keyword_boundary_ci<'a>(s: &'a [char], keyword: &str) -> (r: Option<&'a [char]>)
    ensures
        opt_view(r) == after_word(s@, keyword@),
{
    let n: usize = keyword.unicode_len();
    if starts_with_any_case(s, keyword) && (s.len() == n || is_ascii_white_space(s[n])) {
        Some(skip(s, n))
    } else {
        None
    }
}

/// The index of ` as ` in `s`.
pub fn find_as_boundary(s: &[char]) -> (r: Option<usize>)
    ensures
        opt_int(r) == text_index(s@, " as "@),
        r matches Some(i) ==> i + 4 <= s@.len(),
{
    proof {
        reveal_strlit(" as ");
    }
    find_text(s, " as ")
}

// ---------------------------------------------------------------------------
// Participants
// ---------------------------------------------------------------------------

/// Whether `k` begins the declaration of a participant.
pub open spec fn participant_keyword(k: Seq<char>) -> bool {
    same_any_case(k, "participant"@) || same_any_case(k, "actor"@) || same_any_case(k, "boundary"@)
        || same_any_case(k, "control"@) || same_any_case(k, "entity"@) || same_any_case(
        k,
        "database"@,
    ) || same_any_case(k, "collections"@) || same_any_case(k, "queue"@)
}

/// The id and the label in `"Label" as Id`, without its first quote.
pub open spec fn quoted_participant(s: Seq<char>) -> Option<(Seq<char>, Option<Seq<char>>)> {
    match char_index(s, '"') {
        Some(k) => {
            let label = s.take(k);
            let after = trim(s.skip(k + 1));
            if after.len() == 0 {
                Some((label, Some(label)))
            } else {
                match after_word(after, "as"@) {
                    Some(alias) => if single_token(trim(alias)) {
                        Some((trim(alias), Some(label)))
                    } else {
                        None
                    },
                    None => None,
                }
            }
        },
        None => None,
    }
}

/// The id and the label in `Name as Id`, or in `Name`.
pub open spec fn plain_participant(s: Seq<char>) -> Option<(Seq<char>, Option<Seq<char>>)> {
    match text_index(s, " as "@) {
        Some(k) => {
            let name = trim(s.take(k));
            let alias = trim(s.skip(k + 4));
            if single_token(name) && single_token(alias) {
                Some((alias, Some(name)))
            } else {
                None
            }
        },
        None => if single_token(s) {
            Some((s, None))
        } else {
            None
        },
    }
}

/// The id and the label that a line declares.
pub open spec fn participant_decl(line: Seq<char>) -> Option<(Seq<char>, Option<Seq<char>>)> {
    match keyword_and_rest(line) {
        Some((k, rest)) => if participant_keyword(k) {
            let r = trim(rest);
            if begins(r, '"') {
                quoted_participant(r.skip(1))
            } else {
                plain_participant(r)
            }
        } else {
            None
        },
        None => None,
    }
}

/// The model of an id and a label.
pub open spec fn decl_view(r: Option<(String, Option<String>)>) -> Option<
    (Seq<char>, Option<Seq<char>>),
> {
    match r {
        Some(p) => Some((p.0@, opt_view(p.1))),
        None => None,
    }
}

fn is_participant_keyword(k: &[char]) -> (r: bool)
    ensures
        r == participant_keyword(k@),
{
    equals_any_case(k, "participant") || equals_any_case(k, "actor") || equals_any_case(
        k,
        "boundary",
    ) || equals_any_case(k, "control") || equals_any_case(k, "entity") || equals_any_case(
        k,
        "database",
    ) || equals_any_case(k, "collections") || equals_any_case(k, "queue")
}

fn parse_quoted_participant(s: &[char]) -> (r: Option<(String, Option<String>)>)
    ensures
        decl_view(r) == quoted_participant(s@),
{
    let k: usize = match find_char(s, '"') {
        Some(k) => k,
        None => {
            return None;
        },
    };
    let len: usize = s.len();
    let label = to_string(take(s, k));
    let after = trim_of(skip(s, k + 1));
    if after.len() == 0 {
        return Some((label.clone(), Some(label)));
    }
    match strip_keyword_boundary_ci(after, "as") {
        Some(alias) => {
            let alias = trim_of(alias);
            if is_single_token(alias) {
                Some((to_string(alias), Some(label)))
            } else {
                None
            }
        },
        None => None,
    }
}

fn parse_plain_participant(s: &[char]) -> (r: Option<(String, Option<String>)>)
    ensures
        decl_view(r) == plain_participant(s@),
{
    match find_as_boundary(s) {
        Some(k) => {
            let len: usize = s.len();
            let name = trim_of(take(s, k));
            let alias = trim_of(skip(s, k + 4));
            if is_single_token(name) && is_single_token(alias) {
                Some((to_string(alias), Some(to_string(name))))
            } else {
                None
            }
        },
        None => if is_single_token(s) {
            Some((to_string(s), None))
        } else {
            None
        },
    }
}

/// The id and the label that a line declares.
pub fn try_parse_participant_decl(line: &[char]) -> (r: Option<(String, Option<String>)>)
    ensures
        decl_view(r) == participant_decl(line@),
{
    match split_keyword(line) {
        Some((k, rest)) => {
            if !is_participant_keyword(k) {
                return None;
            }
            let rest = trim_of(rest);
            if starts_with_char(rest, '"') {
                parse_quoted_participant(skip(rest, 1))
            } else {
                parse_plain_participant(rest)
            }
        },
        None => None,
    }
}

} // verus!
