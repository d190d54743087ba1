//! Positions in a text: lines and columns.
//!
//! Some frontends count characters, others bytes. Editors count lines from zero
//! and columns in UTF-16 code units; people count both from one, and columns in
//! characters.
use crate::offsets::{
    byte_len, byte_len_of, lemma_byte_len_at_least, lemma_byte_len_part, str_len, width_of,
};
use crate::text::{take, to_chars};
use std::ops::Range;
use vstd::prelude::*;

verus! {

/// What an index counts.
#[derive(Debug, Clone, Copy, PartialEq, Eq, Structural)]
pub enum SpanUnit {
    /// Characters.
    Char,
    /// Bytes.
    Byte,
}

/// A position as editors count it.
#[derive(Debug, Clone, Copy, PartialEq, Eq, Structural)]
pub struct Position {
    /// The line, counted from zero.
    pub line: usize,
    /// The UTF-16 code units before it in its line.
    pub character: usize,
}

/// A range as editors count it.
#[derive(Debug, Clone, Copy, PartialEq, Eq, Structural)]
pub struct PositionRange {
    /// Where it starts.
    pub start: Position,
    /// Where it ends.
    pub end: Position,
}

// ---------------------------------------------------------------------------
// Offsets
// ---------------------------------------------------------------------------

/// How many characters end within the first `b` bytes of `s`; the first `k` are
/// known to.
pub open spec fn chars_within(s: Seq<char>, b: int, k: int) -> int
    decreases s.len() - k,
{
    if 0 <= k < s.len() && byte_len(s.take(k + 1)) <= b {
        chars_within(s, b, k + 1)
    } else {
        k
    }
}

/// How many characters are before `index`. An index behind the end counts as the
/// end, and one inside a character as the start of that character.
pub open spec fn chars_before(s: Seq<char>, index: int, unit: SpanUnit) -> int {
    match unit {
        SpanUnit::Byte => chars_within(s, index, 0),
        SpanUnit::Char => if index < s.len() {
            index
        } else {
            s.len() as int
        },
    }
}

/// The byte offset of `index`.
pub open spec fn byte_offset(s: Seq<char>, index: int, unit: SpanUnit) -> nat {
    byte_len(s.take(chars_before(s, index, unit)))
}

proof fn lemma_chars_within(s: Seq<char>, b: int, k: int)
    requires
        0 <= k <= s.len(),
        byte_len(s.take(k)) <= b,
    ensures
        k <= chars_within(s, b, k) <= s.len(),
        byte_len(s.take(chars_within(s, b, k))) <= b,
        chars_within(s, b, k) < s.len() ==> byte_len(s.take(chars_within(s, b, k) + 1)) > b,
    decreases s.len() - k,
{
    if k < s.len() && byte_len(s.take(k + 1)) <= b {
        lemma_chars_within(s, b, k + 1);
    }
}

proof fn lemma_take_grows(s: Seq<char>, a: int, b: int)
    requires
        0 <= a < b <= s.len(),
    ensures
        byte_len(s.take(a)) < byte_len(s.take(b)),
{
    lemma_byte_len_part(s, a, b);
    lemma_byte_len_at_least(s.subrange(a, b));
}

/// An index always leads to the start of a character or to the end, and never
/// behind itself. An index that is already there stays where it is.
pub proof fn law_offset_is_boundary(s: Seq<char>, index: int, unit: SpanUnit)
    requires
        0 <= index,
    ensures
        0 <= chars_before(s, index, unit) <= s.len(),
        byte_offset(s, index, unit) <= byte_len(s),
        unit == SpanUnit::Byte ==> byte_offset(s, index, unit) <= index,
        unit == SpanUnit::Byte ==> forall|k: int|
            0 <= k <= s.len() && index == byte_len(#[trigger] s.take(k)) ==> chars_before(
                s,
                index,
                unit,
            ) == k,
        unit == SpanUnit::Char && index <= s.len() ==> chars_before(s, index, unit) == index,
{
    assert(s.take(0) =~= Seq::<char>::empty());
    lemma_chars_within(s, index, 0);
    let n = chars_before(s, index, unit);
    lemma_byte_len_part(s, 0, n);
    if unit == SpanUnit::Byte {
        assert forall|k: int|
            0 <= k <= s.len() && index == byte_len(#[trigger] s.take(k)) implies n == k by {
            if n < k {
                if n + 1 < k {
                    lemma_take_grows(s, n + 1, k);
                }
            }
            if k < n {
                lemma_take_grows(s, k, n);
            }
        }
    }
}

/// How many characters are before `index`, and the byte offset there.
fn locate(s: &Vec<char>, index: usize, unit: SpanUnit) -> (r: (usize, usize))
    requires
        byte_len(s@) <= usize::MAX,
    ensures
        r.0 == chars_before(s@, index as int, unit),
        r.1 == byte_offset(s@, index as int, unit),
        r.0 <= s@.len(),
{
    let mut k: usize = 0;
    let mut b: usize = 0;
    assert(s@.take(0) =~= Seq::<char>::empty());
    match unit {
        SpanUnit::Byte => {
            while k < s.len()
                invariant_except_break
                    chars_within(s@, index as int, 0) == chars_within(s@, index as int, k as int),
                invariant
                    k <= s@.len(),
                    b == byte_len(s@.take(k as int)),
                    b <= index,
                    byte_len(s@) <= usize::MAX,
                ensures
                    k == chars_within(s@, index as int, 0),
                decreases s@.len() - k,
            {
                proof {
                    assert(s@.take(k + 1).drop_last() =~= s@.take(k as int));
                    lemma_byte_len_part(s@, 0, k + 1);
                }
                let w: usize = width_of(s[k]);
                if w > index - b {
                    break;
                }
                b = b + w;
                k = k + 1;
            }
            (k, b)
        },
        SpanUnit::Char => {
            while k < s.len() && k < index
                invariant
                    k <= s@.len(),
                    k <= index,
                    b == byte_len(s@.take(k as int)),
                    byte_len(s@) <= usize::MAX,
                decreases s@.len() - k,
            {
                proof {
                    assert(s@.take(k + 1).drop_last() =~= s@.take(k as int));
                    lemma_byte_len_part(s@, 0, k + 1);
                }
                b = b + width_of(s[k]);
                k = k + 1;
            }
            (k, b)
        },
    }
}

/// How many characters are before the byte offset `byte`.
pub fn chars_at(s: &Vec<char>, byte: usize) -> (r: usize)
    requires
        byte_len(s@) <= usize::MAX,
    ensures
        r == chars_before(s@, byte as int, SpanUnit::Byte),
        r <= s@.len(),
{
    locate(s, byte, SpanUnit::Byte).0
}

/// The byte offset of `index`.
pub fn to_byte_offset(input: &str, index: usize, unit: SpanUnit) -> (r: usize)
    ensures
        r == byte_offset(input@, index as int, unit),
{
    let total: usize = str_len(input);
    let s = to_chars(input);
    locate(&s, index, unit).1
}

// ---------------------------------------------------------------------------
// Lines and columns
// ---------------------------------------------------------------------------

/// How many line breaks are among the first `n` characters.
pub open spec fn breaks(s: Seq<char>, n: int) -> int
    decreases n,
{
    if n <= 0 {
        0
    } else if s[n - 1] == '\n' {
        breaks(s, n - 1) + 1
    } else {
        breaks(s, n - 1)
    }
}

/// Where the line that holds the position `n` begins.
pub open spec fn line_start(s: Seq<char>, n: int) -> int
    decreases n,
{
    if n <= 0 {
        0
    } else if s[n - 1] == '\n' {
        n
    } else {
        line_start(s, n - 1)
    }
}

/// How many UTF-16 code units a character takes.
pub open spec fn units(c: char) -> int {
    if c as int >= 0x10000 {
        2
    } else {
        1
    }
}

fn units_of(c: char) -> (r: usize)
    ensures
        r == units(c),
{
    let u: u32 = c as u32;
    if u >= 0x10000 {
        2
    } else {
        1
    }
}

/// How many UTF-16 code units are between the characters `from` and `to`.
pub open spec fn units_between(s: Seq<char>, from: int, to: int) -> int
    decreases to - from,
{
    if to <= from {
        0
    } else {
        units_between(s, from, to - 1) + units(s[to - 1])
    }
}

/// The line and the column, as editors count them, after `n` characters.
pub open spec fn position_at(s: Seq<char>, n: int) -> (int, int) {
    (breaks(s, n), units_between(s, line_start(s, n), n))
}

/// The line and the column, as people count them, after `n` characters.
pub open spec fn line_and_column(s: Seq<char>, n: int) -> (int, int) {
    (breaks(s, n) + 1, n - line_start(s, n) + 1)
}

proof fn lemma_line_start(s: Seq<char>, n: int)
    requires
        0 <= n <= s.len(),
    ensures
        0 <= line_start(s, n) <= n,
        0 <= breaks(s, n) <= n,
    decreases n,
{
    if n > 0 {
        lemma_line_start(s, n - 1);
    }
}

proof fn lemma_units_fit(s: Seq<char>, from: int, to: int)
    requires
        0 <= from <= to <= s.len(),
    ensures
        to - from <= units_between(s, from, to) <= byte_len(s.subrange(from, to)),
    decreases to - from,
{
    if from < to {
        lemma_units_fit(s, from, to - 1);
        assert(s.subrange(from, to).drop_last() =~= s.subrange(from, to - 1));
    }
}

/// Counts lines and columns over the first `n` characters: the line breaks,
/// where the last line begins, and its code units.
fn count_lines(s: &Vec<char>, n: usize) -> (r: (usize, usize, usize))
    requires
        n <= s@.len(),
        byte_len(s@) <= usize::MAX,
    ensures
        r.0 == breaks(s@, n as int),
        r.1 == line_start(s@, n as int),
        r.2 == units_between(s@, line_start(s@, n as int), n as int),
        r.0 <= n,
        r.1 <= n,
{
    let mut line: usize = 0;
    let mut start: usize = 0;
    let mut column: usize = 0;
    let mut i: usize = 0;
    while i < n
        invariant
            i <= n <= s@.len(),
            byte_len(s@) <= usize::MAX,
            line == breaks(s@, i as int),
            start == line_start(s@, i as int),
            column == units_between(s@, start as int, i as int),
            line <= i,
            start <= i,
        decreases n - i,
    {
        let c: char = s[i];
        i = i + 1;
        if c == '\n' {
            line = line + 1;
            start = i;
            column = 0;
        } else {
            proof {
                lemma_units_fit(s@, start as int, i as int);
                lemma_byte_len_part(s@, start as int, i as int);
            }
            column = column + units_of(c);
        }
    }
    (line, start, column)
}

/// The position of `index`, as editors count it.
pub fn to_position(input: &str, index: usize, unit: SpanUnit) -> (r: Position)
    ensures
        (r.line as int, r.character as int) == position_at(
            input@,
            chars_before(input@, index as int, unit),
        ),
{
    let total: usize = str_len(input);
    let s = to_chars(input);
    let (n, _): (usize, usize) = locate(&s, index, unit);
    let (line, _, character): (usize, usize, usize) = count_lines(&s, n);
    Position { line, character }
}

/// The range of `span`, as editors count it.
pub fn to_range(input: &str, span: &Range<usize>, unit: SpanUnit) -> (r: PositionRange)
    ensures
        (r.start.line as int, r.start.character as int) == position_at(
            input@,
            chars_before(input@, span.start as int, unit),
        ),
        (r.end.line as int, r.end.character as int) == position_at(
            input@,
            chars_before(input@, span.end as int, unit),
        ),
{
    PositionRange {
        start: to_position(input, span.start, unit),
        end: to_position(input, span.end, unit),
    }
}

/// The line and the column of `index`, as people count them.
pub fn line_col(input: &str, index: usize, unit: SpanUnit) -> (r: (u128, u128))
    ensures
        (r.0 as int, r.1 as int) == line_and_column(
            input@,
            chars_before(input@, index as int, unit),
        ),
{
    let total: usize = str_len(input);
    let s = to_chars(input);
    let (n, _): (usize, usize) = locate(&s, index, unit);
    let (line, start, _): (usize, usize, usize) = count_lines(&s, n);
    (line as u128 + 1, (n - start) as u128 + 1)
}

// ---------------------------------------------------------------------------
// Back from positions
// ---------------------------------------------------------------------------

/// Where the line `line` begins, counted from the character `i` on.
pub open spec fn line_begin(s: Seq<char>, line: int, i: int) -> int
    decreases s.len() - i,
{
    if line <= 0 || i >= s.len() {
        i
    } else if s[i] == '\n' {
        line_begin(s, line - 1, i + 1)
    } else {
        line_begin(s, line, i + 1)
    }
}

/// The character that is `character` code units behind `i` in its line. One
/// inside a character counts as its start, and one behind the end of the line as
/// that end.
pub open spec fn column_index(s: Seq<char>, character: int, i: int) -> int
    decreases s.len() - i,
{
    if i < 0 || i >= s.len() || s[i] == '\n' || units(s[i]) > character {
        i
    } else {
        column_index(s, character - units(s[i]), i + 1)
    }
}

/// How many characters are before a position.
pub open spec fn chars_before_position(s: Seq<char>, line: int, character: int) -> int {
    column_index(s, character, line_begin(s, line, 0))
}

proof fn lemma_line_begin(s: Seq<char>, line: int, i: int)
    requires
        0 <= i <= s.len(),
    ensures
        i <= line_begin(s, line, i) <= s.len(),
    decreases s.len() - i,
{
    if line > 0 && i < s.len() {
        if s[i] == '\n' {
            lemma_line_begin(s, line - 1, i + 1);
        } else {
            lemma_line_begin(s, line, i + 1);
        }
    }
}

/// The byte offset of a position.
pub fn position_to_byte_offset(input: &str, pos: Position) -> (r: usize)
    ensures
        r == byte_len(
            input@.take(chars_before_position(input@, pos.line as int, pos.character as int)),
        ),
{
    let total: usize = str_len(input);
    let s = to_chars(input);
    let mut line: usize = pos.line;
    let mut i: usize = 0;
    while i < s.len() && line > 0
        invariant
            i <= s@.len(),
            line_begin(s@, pos.line as int, 0) == line_begin(s@, line as int, i as int),
        decreases s@.len() - i,
    {
        if s[i] == '\n' {
            line = line - 1;
        }
        i = i + 1;
    }
    let ghost begin = i as int;
    assert(begin == line_begin(s@, pos.line as int, 0));
    let mut left: usize = pos.character;
    while i < s.len()
        invariant_except_break
            column_index(s@, pos.character as int, begin) == column_index(
                s@,
                left as int,
                i as int,
            ),
        invariant
            i <= s@.len(),
        ensures
            i == column_index(s@, pos.character as int, begin),
        decreases s@.len() - i,
    {
        let c: char = s[i];
        let w: usize = units_of(c);
        if c == '\n' || w > left {
            break;
        }
        left = left - w;
        i = i + 1;
    }
    proof {
        lemma_byte_len_part(s@, 0, i as int);
    }
    byte_len_of(take(s.as_slice(), i))
}

/// The position of the end of a text.
pub fn end_of_document_position(input: &str) -> (r: Position)
    ensures
        (r.line as int, r.character as int) == position_at(input@, input@.len() as int),
{
    let total: usize = str_len(input);
    proof {
        assert(input@.take(input@.len() as int) =~= input@);
        law_offset_is_boundary(input@, total as int, SpanUnit::Byte);
    }
    to_position(input, total, SpanUnit::Byte)
}

proof fn lemma_breaks_grow(s: Seq<char>, a: int, b: int)
    requires
        0 <= a <= b <= s.len(),
    ensures
        breaks(s, a) <= breaks(s, b),
        breaks(s, a) == breaks(s, b) ==> line_start(s, b) == line_start(s, a),
    decreases b - a,
{
    if a < b {
        lemma_breaks_grow(s, a, b - 1);
    }
}

/// The line that holds the position `k` is found again by its number.
proof fn lemma_line_found(s: Seq<char>, k: int, i: int)
    requires
        0 <= i <= k <= s.len(),
        i == 0 || s[i - 1] == '\n' || breaks(s, k) > breaks(s, i),
    ensures
        line_begin(s, breaks(s, k) - breaks(s, i), i) == line_start(s, k),
    decreases k - i,
{
    lemma_breaks_grow(s, i, k);
    if breaks(s, k) > breaks(s, i) {
        assert(i < k);
        lemma_line_found(s, k, i + 1);
    }
}

/// The column is found again.
proof fn lemma_column_found(s: Seq<char>, k: int, i: int)
    requires
        0 <= i <= k <= s.len(),
        breaks(s, i) == breaks(s, k),
    ensures
        column_index(s, units_between(s, i, k), i) == k,
    decreases k - i,
{
    lemma_breaks_grow(s, i, k);
    if i < k {
        lemma_breaks_grow(s, i + 1, k);
        lemma_units_step(s, i, k);
        lemma_units_fit(s, i + 1, k);
        lemma_column_found(s, k, i + 1);
    } else if i < s.len() {
        assert(units(s[i]) > 0);
    }
}

proof fn lemma_units_step(s: Seq<char>, i: int, k: int)
    requires
        0 <= i < k <= s.len(),
    ensures
        units_between(s, i, k) == units(s[i]) + units_between(s, i + 1, k),
    decreases k - i,
{
    if i + 1 < k {
        lemma_units_step(s, i, k - 1);
    } else {
        assert(units_between(s, i, i) == 0);
    }
}

/// From every character, its position leads back to it.
pub proof fn law_position_leads_back(s: Seq<char>, k: int)
    requires
        0 <= k <= s.len(),
    ensures
        chars_before_position(s, position_at(s, k).0, position_at(s, k).1) == k,
{
    lemma_line_found(s, k, 0);
    lemma_line_start(s, k);
    let start = line_start(s, k);
    lemma_no_breaks(s, k);
    lemma_column_found(s, k, start);
}

/// There is no line break between the beginning of a line and a position in it.
proof fn lemma_no_breaks(s: Seq<char>, k: int)
    requires
        0 <= k <= s.len(),
    ensures
        breaks(s, line_start(s, k)) == breaks(s, k),
    decreases k,
{
    if k > 0 && s[k - 1] != '\n' {
        lemma_no_breaks(s, k - 1);
    }
}

/// A later position is never on an earlier line, nor further left on the same
/// line.
pub proof fn law_positions_are_in_order(s: Seq<char>, a: int, b: int)
    requires
        0 <= a <= b <= s.len(),
    ensures
        position_at(s, a).0 <= position_at(s, b).0,
        position_at(s, a).0 == position_at(s, b).0 ==> position_at(s, a).1 <= position_at(s, b).1,
    decreases b - a,
{
    lemma_breaks_grow(s, a, b);
    if a < b {
        law_positions_are_in_order(s, a, b - 1);
        lemma_breaks_grow(s, a, b - 1);
        lemma_breaks_grow(s, b - 1, b);
        lemma_line_start(s, b - 1);
    }
}

/// A range never ends before it starts, in whatever unit its ends were given.
pub proof fn law_ranges_are_in_order(s: Seq<char>, start: int, end: int, unit: SpanUnit)
    requires
        0 <= start <= end,
    ensures
        chars_before(s, start, unit) <= chars_before(s, end, unit),
        ({
            let a = position_at(s, chars_before(s, start, unit));
            let b = position_at(s, chars_before(s, end, unit));
            a.0 <= b.0 && (a.0 == b.0 ==> a.1 <= b.1)
        }),
{
    let a = chars_before(s, start, unit);
    let b = chars_before(s, end, unit);
    law_offset_is_boundary(s, start, unit);
    law_offset_is_boundary(s, end, unit);
    assert(s.take(0) =~= Seq::<char>::empty());
    if unit == SpanUnit::Byte {
        lemma_chars_within(s, end, 0);
        if b < a {
            if b + 1 < a {
                lemma_take_grows(s, b + 1, a);
            }
        }
    }
    law_positions_are_in_order(s, a, b);
}

/// The number of line breaks in `s`.
pub open spec fn break_count(s: Seq<char>) -> int {
    s.filter(|c: char| c == '\n').len() as int
}

/// The number of characters in `s` that are outside the basic plane.
pub open spec fn astral_count(s: Seq<char>) -> int {
    s.filter(|c: char| c as int >= 0x10000).len() as int
}

/// How many line breaks the first `k` characters hold.
proof fn lemma_breaks_counted(s: Seq<char>, k: int)
    requires
        0 <= k <= s.len(),
    ensures
        breaks(s, k) == break_count(s.take(k)),
    decreases k,
{
    reveal(Seq::filter);
    if k > 0 {
        lemma_breaks_counted(s, k - 1);
        assert(s.take(k).drop_last() =~= s.take(k - 1));
        assert(s.take(k).last() == s[k - 1]);
    }
}

proof fn lemma_units_counted(s: Seq<char>, m: int, k: int)
    requires
        0 <= m <= k <= s.len(),
    ensures
        units_between(s, m, k) == k - m + astral_count(s.subrange(m, k)),
    decreases k - m,
{
    reveal(Seq::filter);
    if m < k {
        lemma_units_counted(s, m, k - 1);
        assert(s.subrange(m, k).drop_last() =~= s.subrange(m, k - 1));
        assert(s.subrange(m, k).last() == s[k - 1]);
    }
}

proof fn lemma_line_start_is(s: Seq<char>, m: int, k: int)
    requires
        0 <= m <= k <= s.len(),
        m == 0 || s[m - 1] == '\n',
        forall|j: int| m <= j < k ==> s[j] != '\n',
    ensures
        line_start(s, k) == m,
    decreases k,
{
    if m < k {
        lemma_line_start_is(s, m, k - 1);
    }
}

/// The line of a position is the number of line breaks before it. Its column is the
/// number of characters between the start `m` of its line and it, those outside the
/// basic plane counted twice.
pub proof fn law_position_counts(s: Seq<char>, m: int, k: int)
    requires
        0 <= m <= k <= s.len(),
        m == 0 || s[m - 1] == '\n',
        forall|j: int| m <= j < k ==> s[j] != '\n',
    ensures
        position_at(s, k).0 == break_count(s.take(k)),
        position_at(s, k).1 == k - m + astral_count(s.subrange(m, k)),
        0 <= position_at(s, k).0 <= byte_len(s),
        0 <= position_at(s, k).1 <= byte_len(s),
{
    lemma_breaks_counted(s, k);
    lemma_units_counted(s, m, k);
    lemma_line_start_is(s, m, k);
    lemma_line_start(s, k);
    lemma_units_fit(s, m, k);
    lemma_byte_len_part(s, m, k);
    lemma_byte_len_at_least(s);
}

/// A place as people count: the line is one more than the number of line breaks before
/// it, and the column is one more than the number of characters between the start `m` of
/// its line and it.
pub proof fn law_line_and_column_count(s: Seq<char>, m: int, k: int)
    requires
        0 <= m <= k <= s.len(),
        m == 0 || s[m - 1] == '\n',
        forall|j: int| m <= j < k ==> s[j] != '\n',
    ensures
        line_and_column(s, k) == (break_count(s.take(k)) + 1, k - m + 1),
{
    lemma_breaks_counted(s, k);
    lemma_line_start_is(s, m, k);
}

} // verus!
