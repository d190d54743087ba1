//! Comments: `/' block '/` and `' line`, masked with spaces so that every byte
//! of the source keeps its offset.
use crate::offsets::{
    byte_len, byte_len_of, lemma_byte_len_concat, lemma_byte_len_cut, width, width_of,
};
use crate::text::take;
use vstd::prelude::*;

verus! {

/// What the text at some place belongs to.
#[derive(Clone, Copy, PartialEq, Eq, Structural)]
pub enum Mode {
    /// Statements.
    Normal,
    /// A quoted string.
    Quote,
    /// A comment to the end of the line.
    Line,
    /// A block comment.
    Block,
}

/// `n` spaces.
pub open spec fn spaces(n: nat) -> Seq<char> {
    Seq::new(n, |i: int| ' ')
}

/// Whether the two characters `a` and `b` stand at index `i`.
pub open spec fn pair_at(s: Seq<char>, i: int, a: char, b: char) -> bool {
    0 <= i && i + 1 < s.len() && s[i] == a && s[i + 1] == b
}

/// The number of characters at index `i` that are read at once.
pub open spec fn step_len(s: Seq<char>, i: int, mode: Mode) -> int {
    if mode == Mode::Normal && pair_at(s, i, '/', '\'') {
        2
    } else if mode == Mode::Block && pair_at(s, i, '\'', '/') {
        2
    } else {
        1
    }
}

/// What the text after those characters belongs to.
pub open spec fn step_mode(s: Seq<char>, i: int, mode: Mode) -> Mode {
    let c = s[i];
    match mode {
        Mode::Normal => if c == '"' {
            Mode::Quote
        } else if pair_at(s, i, '/', '\'') {
            Mode::Block
        } else if c == '\'' {
            Mode::Line
        } else {
            Mode::Normal
        },
        Mode::Quote => if c == '"' || c == '\n' {
            Mode::Normal
        } else {
            Mode::Quote
        },
        Mode::Line => if c == '\n' {
            Mode::Normal
        } else {
            Mode::Line
        },
        Mode::Block => if pair_at(s, i, '\'', '/') {
            Mode::Normal
        } else {
            Mode::Block
        },
    }
}

/// What stands for those characters: themselves, or as many spaces as they have
/// bytes.
pub open spec fn step_text(s: Seq<char>, i: int, mode: Mode) -> Seq<char> {
    let c = s[i];
    match mode {
        Mode::Normal => if pair_at(s, i, '/', '\'') {
            spaces(2)
        } else if c == '\'' {
            spaces(1)
        } else {
            seq![c]
        },
        Mode::Quote => seq![c],
        Mode::Line => if c == '\n' {
            seq![c]
        } else {
            spaces(width(c))
        },
        Mode::Block => if pair_at(s, i, '\'', '/') {
            spaces(2)
        } else if c == '\n' {
            seq![c]
        } else {
            spaces(width(c))
        },
    }
}

/// `s` from index `i` on, with its comments masked; the text there belongs to
/// `mode`.
pub open spec fn mask_from(s: Seq<char>, i: int, mode: Mode) -> Seq<char>
    decreases s.len() - i,
{
    if 0 <= i < s.len() {
        step_text(s, i, mode) + mask_from(
            s,
            i + step_len(s, i, mode),
            step_mode(s, i, mode),
        )
    } else {
        Seq::empty()
    }
}

/// `s` with its comments masked.
pub open spec fn masked(s: Seq<char>) -> Seq<char> {
    mask_from(s, 0, Mode::Normal)
}

/// The index of the opener of a block comment that is never closed; `open` is
/// that of the block comment in which index `i` lies.
pub open spec fn unclosed_from(s: Seq<char>, i: int, mode: Mode, open: int) -> Option<int>
    decreases s.len() - i,
{
    if 0 <= i < s.len() {
        unclosed_from(
            s,
            i + step_len(s, i, mode),
            step_mode(s, i, mode),
            if mode == Mode::Normal && pair_at(s, i, '/', '\'') {
                i
            } else {
                open
            },
        )
    } else if mode == Mode::Block {
        Some(open)
    } else {
        None
    }
}

/// The bytes from the opener of a block comment that is never closed to the end
/// of the source.
pub open spec fn unclosed(s: Seq<char>) -> Option<(int, int)> {
    match unclosed_from(s, 0, Mode::Normal, 0) {
        Some(k) => Some((byte_len(s.take(k)) as int, byte_len(s) as int)),
        None => None,
    }
}

// ---------------------------------------------------------------------------
// What masking keeps
// ---------------------------------------------------------------------------

proof fn lemma_spaces(n: nat)
    ensures
        byte_len(spaces(n)) == n,
    decreases n,
{
    if n > 0 {
        lemma_spaces((n - 1) as nat);
        assert(spaces(n).drop_last() =~= spaces((n - 1) as nat));
    }
}

proof fn lemma_one(c: char)
    ensures
        byte_len(seq![c]) == width(c),
{
    assert(seq![c].drop_last() =~= Seq::<char>::empty());
    assert(byte_len(seq![c].drop_last()) == 0);
}

/// What stands for a step has as many bytes as the step.
proof fn lemma_step_bytes(s: Seq<char>, i: int, mode: Mode)
    requires
        0 <= i < s.len(),
    ensures
        i + step_len(s, i, mode) <= s.len(),
        byte_len(step_text(s, i, mode)) == byte_len(s.subrange(i, i + step_len(s, i, mode))),
{
    let c = s[i];
    lemma_one(c);
    lemma_spaces(1);
    lemma_spaces(2);
    lemma_spaces(width(c));
    if step_len(s, i, mode) == 1 {
        assert(s.subrange(i, i + 1) =~= seq![c]);
    } else {
        assert(s.subrange(i, i + 2) =~= seq![c] + seq![s[i + 1]]);
        lemma_one(s[i + 1]);
        lemma_byte_len_concat(seq![c], seq![s[i + 1]]);
    }
}

proof fn lemma_mask_bytes(s: Seq<char>, i: int, mode: Mode)
    requires
        0 <= i <= s.len(),
    ensures
        byte_len(mask_from(s, i, mode)) == byte_len(s.skip(i)),
    decreases s.len() - i,
{
    if i < s.len() {
        lemma_step_bytes(s, i, mode);
        let j = i + step_len(s, i, mode);
        lemma_mask_bytes(s, j, step_mode(s, i, mode));
        lemma_byte_len_concat(step_text(s, i, mode), mask_from(s, j, step_mode(s, i, mode)));
        lemma_byte_len_concat(s.subrange(i, j), s.skip(j));
        assert(s.skip(i) =~= s.subrange(i, j) + s.skip(j));
    } else {
        assert(s.skip(i) =~= Seq::<char>::empty());
    }
}

/// Masking keeps the length in bytes.
pub proof fn law_mask_keeps_length(s: Seq<char>)
    ensures
        byte_len(masked(s)) == byte_len(s),
{
    lemma_mask_bytes(s, 0, Mode::Normal);
    assert(s.skip(0) =~= s);
}

/// The byte offsets of the line breaks of `s`, whose first character stands at
/// offset `at`.
pub open spec fn breaks(s: Seq<char>, at: int) -> Seq<int>
    decreases s.len(),
{
    if s.len() == 0 {
        Seq::empty()
    } else {
        let before = breaks(s.drop_last(), at);
        if s.last() == '\n' {
            before.push(at + byte_len(s.drop_last()))
        } else {
            before
        }
    }
}

proof fn lemma_breaks_concat(a: Seq<char>, b: Seq<char>, at: int)
    ensures
        breaks(a + b, at) == breaks(a, at) + breaks(b, at + byte_len(a)),
    decreases b.len(),
{
    if b.len() == 0 {
        assert(a + b =~= a);
        assert(breaks(a, at) + breaks(b, at + byte_len(a)) =~= breaks(a, at));
    } else {
        assert((a + b).drop_last() =~= a + b.drop_last());
        lemma_breaks_concat(a, b.drop_last(), at);
        lemma_byte_len_concat(a, b.drop_last());
        assert(breaks(a + b, at) =~= breaks(a, at) + breaks(b, at + byte_len(a)));
    }
}

proof fn lemma_breaks_none(s: Seq<char>, at: int)
    requires
        forall|i: int| 0 <= i < s.len() ==> s[i] != '\n',
    ensures
        breaks(s, at) == Seq::<int>::empty(),
    decreases s.len(),
{
    if s.len() > 0 {
        lemma_breaks_none(s.drop_last(), at);
    }
}

proof fn lemma_mask_breaks(s: Seq<char>, i: int, mode: Mode, at: int)
    requires
        0 <= i <= s.len(),
    ensures
        breaks(mask_from(s, i, mode), at) == breaks(s.skip(i), at),
    decreases s.len() - i,
{
    if i < s.len() {
        lemma_step_bytes(s, i, mode);
        let j = i + step_len(s, i, mode);
        let next = step_mode(s, i, mode);
        let t = step_text(s, i, mode);
        let part = s.subrange(i, j);
        lemma_mask_breaks(s, j, next, at + byte_len(t));
        lemma_breaks_concat(t, mask_from(s, j, next), at);
        lemma_breaks_concat(part, s.skip(j), at);
        assert(s.skip(i) =~= part + s.skip(j));
        if step_len(s, i, mode) == 1 && s[i] == '\n' {
            assert(part =~= t);
        } else {
            assert forall|k: int| 0 <= k < part.len() implies part[k] != '\n' by {}
            lemma_breaks_none(part, at);
            lemma_breaks_none(t, at);
        }
    } else {
        assert(s.skip(i) =~= Seq::<char>::empty());
    }
}

/// Masking keeps every line break at its byte offset, so that lines keep their
/// offsets.
pub proof fn law_mask_keeps_lines(s: Seq<char>)
    ensures
        breaks(masked(s), 0) == breaks(s, 0),
{
    lemma_mask_breaks(s, 0, Mode::Normal, 0);
    assert(s.skip(0) =~= s);
}

proof fn lemma_mask_plain(s: Seq<char>, i: int)
    requires
        0 <= i <= s.len(),
        forall|k: int| 0 <= k < s.len() ==> s[k] != '\'',
    ensures
        mask_from(s, i, Mode::Normal) == s.skip(i),
        mask_from(s, i, Mode::Quote) == s.skip(i),
    decreases s.len() - i,
{
    if i < s.len() {
        lemma_mask_plain(s, i + 1);
        assert(s.skip(i) =~= seq![s[i]] + s.skip(i + 1));
    } else {
        assert(s.skip(i) =~= Seq::<char>::empty());
    }
}

/// A source without an apostrophe has no comments, and is left as it is.
pub proof fn law_mask_keeps_plain_text(s: Seq<char>)
    requires
        forall|k: int| 0 <= k < s.len() ==> s[k] != '\'',
    ensures
        masked(s) == s,
        unclosed(s) is None,
{
    lemma_mask_plain(s, 0);
    assert(s.skip(0) =~= s);
    lemma_plain_closed(s, 0, Mode::Normal, 0);
}

proof fn lemma_plain_closed(s: Seq<char>, i: int, mode: Mode, open: int)
    requires
        0 <= i <= s.len(),
        forall|k: int| 0 <= k < s.len() ==> s[k] != '\'',
        mode == Mode::Normal || mode == Mode::Quote,
    ensures
        unclosed_from(s, i, mode, open) is None,
    decreases s.len() - i,
{
    if i < s.len() {
        lemma_plain_closed(s, i + 1, step_mode(s, i, mode), open);
    }
}

pub proof fn lemma_unclosed(s: Seq<char>, i: int, mode: Mode, open: int)
    requires
        0 <= i <= s.len(),
        0 <= open <= s.len(),
    ensures
        unclosed_from(s, i, mode, open) matches Some(k) ==> 0 <= k <= s.len(),
    decreases s.len() - i,
{
    if i < s.len() {
        lemma_step_bytes(s, i, mode);
        lemma_unclosed(
            s,
            i + step_len(s, i, mode),
            step_mode(s, i, mode),
            if mode == Mode::Normal && pair_at(s, i, '/', '\'') {
                i
            } else {
                open
            },
        );
    }
}

// ---------------------------------------------------------------------------
// Masking
// ---------------------------------------------------------------------------

fn push_spaces(out: &mut Vec<char>, n: usize)
    ensures
        final(out)@ == old(out)@ + spaces(n as nat),
{
    let ghost start = out@;
    let mut i: usize = 0;
    assert(start + spaces(0) =~= start);
    while i < n
        invariant
            i <= n,
            out@ == start + spaces(i as nat),
        decreases n - i,
    {
        out.push(' ');
        i = i + 1;
        assert(out@ =~= start + spaces(i as nat));
    }
}

/// `s` with its comments masked, and the bytes from the opener of a block
/// comment that is never closed to the end of the source.
pub fn mask_comments(s: &[char]) -> (r: (Vec<char>, Option<(usize, usize)>))
    requires
        byte_len(s@) <= usize::MAX,
    ensures
        r.0@ == masked(s@),
        match r.1 {
            Some((a, b)) => unclosed(s@) == Some((a as int, b as int)),
            None => unclosed(s@) is None,
        },
{
    let mut out: Vec<char> = Vec::new();
    let mut mode: Mode = Mode::Normal;
    let mut open: usize = 0;
    let mut i: usize = 0;
    assert(out@ + masked(s@) =~= masked(s@));
    while i < s.len()
        invariant
            i <= s@.len(),
            open <= s@.len(),
            out@ + mask_from(s@, i as int, mode) == masked(s@),
            unclosed_from(s@, 0, Mode::Normal, 0) == unclosed_from(
                s@,
                i as int,
                mode,
                open as int,
            ),
        decreases s@.len() - i,
    {
        let len: usize = s.len();
        let c: char = s[i];
        let before_quote = i < len - 1 && s[i + 1] == '\'';
        let before_slash = i < len - 1 && s[i + 1] == '/';
        let ghost before = out@;
        let ghost text = step_text(s@, i as int, mode);
        let ghost next = step_mode(s@, i as int, mode);
        let ghost old_mode = mode;
        let mut step: usize = 1;
        match mode {
            Mode::Normal => {
                if c == '"' {
                    out.push(c);
                    mode = Mode::Quote;
                } else if c == '/' && before_quote {
                    push_spaces(&mut out, 2);
                    mode = Mode::Block;
                    open = i;
                    step = 2;
                } else if c == '\'' {
                    push_spaces(&mut out, 1);
                    mode = Mode::Line;
                } else {
                    out.push(c);
                }
            },
            Mode::Quote => {
                out.push(c);
                if c == '"' || c == '\n' {
                    mode = Mode::Normal;
                }
            },
            Mode::Line => {
                if c == '\n' {
                    out.push(c);
                    mode = Mode::Normal;
                } else {
                    push_spaces(&mut out, width_of(c));
                }
            },
            Mode::Block => {
                if c == '\'' && before_slash {
                    push_spaces(&mut out, 2);
                    mode = Mode::Normal;
                    step = 2;
                } else if c == '\n' {
                    out.push(c);
                } else {
                    push_spaces(&mut out, width_of(c));
                }
            },
        }
        assert(before.push(c) =~= before + seq![c]);
        assert(out@ == before + text);
        assert(mode == next);
        assert(step == step_len(s@, i as int, old_mode));
        assert(before + (text + mask_from(s@, i + step, next)) =~= before + text + mask_from(
            s@,
            i + step,
            next,
        ));
        i = i + step;
    }
    assert(out@ + Seq::<char>::empty() =~= out@);
    let unclosed_block = match mode {
        Mode::Block => {
            proof {
                lemma_byte_len_cut(s@, open as int);
            }
            Some((byte_len_of(take(s, open)), byte_len_of(s)))
        },
        _ => None,
    };
    (out, unclosed_block)
}

} // verus!
