//! Words in which quotes protect white space.
use crate::text::{
    begins, ends, ends_with_char, is_white_space, lemma_past_white, lemma_views_push, opt_view,
    skip, starts_with_char, take, to_string, trim_start, trim_start_of, views, white_space,
};
use vstd::prelude::*;

verus! {

/// The first index from `i` on that holds white space outside quotes.
pub open spec fn past_token(s: Seq<char>, i: int, quoted: bool) -> int
    decreases s.len() - i,
{
    if !(0 <= i < s.len()) {
        i
    } else if s[i] == '"' {
        past_token(s, i + 1, !quoted)
    } else if white_space(s[i]) && !quoted {
        i
    } else {
        past_token(s, i + 1, quoted)
    }
}

pub proof fn lemma_past_token(s: Seq<char>, i: int, quoted: bool)
    requires
        0 <= i <= s.len(),
    ensures
        i <= past_token(s, i, quoted) <= s.len(),
        i < s.len() && !white_space(s[i]) ==> i < past_token(s, i, quoted),
    decreases s.len() - i,
{
    if i < s.len() {
        if s[i] == '"' {
            lemma_past_token(s, i + 1, !quoted);
        } else if !(white_space(s[i]) && !quoted) {
            lemma_past_token(s, i + 1, quoted);
        }
    }
}

/// The words of `s`, where white space between quotes does not end a word.
pub open spec fn tokens(s: Seq<char>) -> Seq<Seq<char>>
    decreases s.len(),
{
    proof {
        lemma_past_white(s, 0);
        lemma_past_token(trim_start(s), 0, false);
    }
    let t = trim_start(s);
    if t.len() == 0 {
        Seq::empty()
    } else {
        seq![t.take(past_token(t, 0, false))] + tokens(t.skip(past_token(t, 0, false)))
    }
}

fn token_end(s: &[char]) -> (r: usize)
    ensures
        r == past_token(s@, 0, false),
        r <= s@.len(),
{
    let mut i: usize = 0;
    let mut quoted: bool = false;
    while i < s.len()
        invariant
            i <= s@.len(),
            past_token(s@, 0, false) == past_token(s@, i as int, quoted),
        decreases s@.len() - i,
    {
        let c: char = s[i];
        if c == '"' {
            quoted = !quoted;
        } else if is_white_space(c) && !quoted {
            return i;
        }
        i = i + 1;
    }
    i
}

/// The words of `s`, where white space between quotes does not end a word.
pub fn tokenize_ws_quoted<'a>(s: &'a [char]) -> (r: Vec<&'a [char]>)
    ensures
        views(r@) == tokens(s@),
{
    broadcast use lemma_views_push;

    let mut out: Vec<&'a [char]> = Vec::new();
    let mut rest: &'a [char] = s;
    assert(views(out@) + tokens(rest@) =~= tokens(s@));
    loop
        invariant
            views(out@) + tokens(rest@) == tokens(s@),
        decreases rest@.len(),
    {
        let t = trim_start_of(rest);
        if t.len() == 0 {
            assert(views(out@) + tokens(rest@) =~= views(out@));
            return out;
        }
        let n: usize = token_end(t);
        proof {
            lemma_past_white(rest@, 0);
            lemma_past_token(t@, 0, false);
        }
        let ghost before = views(out@);
        out.push(take(t, n));
        assert(before.push(t@.take(n as int)) + tokens(t@.skip(n as int)) =~= before + (seq![
            t@.take(n as int),
        ] + tokens(t@.skip(n as int))));
        rest = skip(t, n);
    }
}

/// Whether `t` is in quotes.
pub open spec fn in_quotes(t: Seq<char>) -> bool {
    t.len() >= 2 && begins(t, '"') && ends(t, '"')
}

/// What stands between the quotes.
pub open spec fn unquoted(t: Seq<char>) -> Seq<char> {
    t.subrange(1, t.len() - 1)
}

/// What stands between the quotes of `t`, where it is in quotes.
pub fn strip_quotes<'a>(t: &'a [char]) -> (r: Option<&'a [char]>)
    ensures
        match r {
            Some(inner) => in_quotes(t@) && inner@ == unquoted(t@),
            None => !in_quotes(t@),
        },
{
    if t.len() >= 2 && starts_with_char(t, '"') && ends_with_char(t, '"') {
        Some(vstd::slice::slice_subrange(t, 1, t.len() - 1))
    } else {
        None
    }
}

/// The id and the multiplicity that the first `n` words give.
pub open spec fn id_and_mult_upto(words: Seq<Seq<char>>, n: int) -> Result<
    (Option<Seq<char>>, Option<Seq<char>>),
    Seq<char>,
>
    decreases n,
{
    if n <= 0 {
        Ok((None, None))
    } else {
        let t = words[n - 1];
        match id_and_mult_upto(words, n - 1) {
            Ok((id, mult)) => if in_quotes(t) {
                if mult is Some {
                    Err("multiple multiplicities on one side of a relation"@)
                } else {
                    Ok((id, Some(unquoted(t))))
                }
            } else if id is Some {
                Err("multiple identifiers on one side of a relation"@)
            } else {
                Ok((Some(t), mult))
            },
            Err(e) => Err(e),
        }
    }
}

/// One side of a relation: an id, with a quoted multiplicity before or after
/// it.
pub open spec fn id_and_mult(words: Seq<Seq<char>>) -> Result<
    (Seq<char>, Option<Seq<char>>),
    Seq<char>,
> {
    match id_and_mult_upto(words, words.len() as int) {
        Ok((Some(id), mult)) => Ok((id, mult)),
        Ok((None, _)) => Err("missing identifier in relation"@),
        Err(e) => Err(e),
    }
}

/// The model of one side of a relation.
pub open spec fn side_result(r: Result<(String, Option<String>), String>) -> Result<
    (Seq<char>, Option<Seq<char>>),
    Seq<char>,
> {
    match r {
        Ok(p) => Ok((p.0@, opt_view(p.1))),
        Err(e) => Err(e@),
    }
}

/// After an error nothing changes.
proof fn lemma_error_stays(words: Seq<Seq<char>>, n: int, m: int)
    requires
        0 <= n <= m,
        id_and_mult_upto(words, n) is Err,
    ensures
        id_and_mult_upto(words, m) == id_and_mult_upto(words, n),
    decreases m - n,
{
    if n < m {
        lemma_error_stays(words, n, m - 1);
    }
}

/// One side of a relation: an id, with a quoted multiplicity before or after
/// it.
pub fn split_id_and_mult(words: &[&[char]]) -> (r: Result<(String, Option<String>), String>)
    ensures
        side_result(r) == id_and_mult(views(words@)),
{
    let ghost all = views(words@);
    let mut id: Option<String> = None;
    let mut mult: Option<String> = None;
    let mut i: usize = 0;
    while i < words.len()
        invariant
            i <= words@.len(),
            all == views(words@),
            id_and_mult_upto(all, i as int) == Ok::<
                (Option<Seq<char>>, Option<Seq<char>>),
                Seq<char>,
            >((opt_view(id), opt_view(mult))),
        decreases words@.len() - i,
    {
        let t = words[i];
        assert(all[i as int] == t@);
        match strip_quotes(t) {
            Some(inner) => {
                if mult.is_some() {
                    proof {
                        lemma_error_stays(all, i + 1, all.len() as int);
                    }
                    return Err(
                        String::from_str("multiple multiplicities on one side of a relation"),
                    );
                }
                mult = Some(to_string(inner));
            },
            None => {
                if id.is_some() {
                    proof {
                        lemma_error_stays(all, i + 1, all.len() as int);
                    }
                    return Err(String::from_str("multiple identifiers on one side of a relation"));
                }
                id = Some(to_string(t));
            },
        }
        i = i + 1;
    }
    match id {
        Some(id) => Ok((id, mult)),
        None => Err(String::from_str("missing identifier in relation")),
    }
}

} // verus!
