//! Scenes as plain text.
//!
//! A scene is drawn on a grid of character cells, first everything but its
//! texts, then its texts, so that a text is never drawn over by a line.
//! Positions are given in cells.
use crate::svg::{Group, Path, Rect, Text, TextAlign};
use crate::term::grid::{char_at, empty_grid, inside, put, row_chars, rows_text, shown, Cell, Grid};
use crate::term::line::{bresenham_cells, law_line_ends, line_cell, line_len, CellPoint};
use crate::text::{lemma_before_white, to_chars, trim_end};
use vstd::prelude::*;

pub mod grid;
pub mod laws;
pub mod line;

verus! {

// ---------------------------------------------------------------------------
// Scenes
// ---------------------------------------------------------------------------

/// A box.
#[derive(Debug, PartialEq, Eq)]
pub struct CellRect {
    /// The first column.
    pub col0: usize,
    /// The first row.
    pub row0: usize,
    /// The last column.
    pub col1: usize,
    /// The last row.
    pub row1: usize,
    /// Whether its corners are rounded.
    pub rounded: bool,
}

/// A line through points.
#[derive(Debug, PartialEq, Eq)]
pub struct CellPath {
    /// The cells nearest to the points.
    pub points: Vec<CellPoint>,
    /// Whether every other cell is left out.
    pub dashed: bool,
}

/// A position, rounded in three ways.
#[derive(Debug, PartialEq, Eq)]
pub struct Rounded {
    /// Rounded down.
    pub floor: i64,
    /// Rounded to the nearest cell.
    pub nearest: i64,
    /// Rounded up.
    pub ceil: i64,
}

/// The head of an arrow.
#[derive(Debug, PartialEq, Eq)]
pub struct Tip {
    /// Whether it points up or down rather than left or right.
    pub steep: bool,
    /// Whether it points up rather than down.
    pub upward: bool,
    /// Whether it points left rather than right.
    pub leftward: bool,
    /// The row of its tip.
    pub row: Rounded,
    /// The column of its tip.
    pub col: Rounded,
}

/// A text.
#[derive(Debug, PartialEq, Eq)]
pub struct CellText {
    /// The row.
    pub row: i64,
    /// The column nearest to its point.
    pub col: i64,
    /// How it lies beside its point.
    pub align: TextAlign,
    /// What it says.
    pub content: String,
}

/// Items that belong together.
#[derive(Debug, PartialEq, Eq)]
pub struct CellGroup {
    /// The items.
    pub items: Vec<CellItem>,
}

/// An item of a scene.
#[derive(Debug, PartialEq, Eq)]
pub enum CellItem {
    /// A box.
    Rect(CellRect),
    /// A line.
    Path(CellPath),
    /// The head of an arrow. One without points is nothing.
    Arrowhead(Option<Tip>),
    /// A text.
    Text(CellText),
    /// Items that belong together.
    Group(CellGroup),
}

/// A scene.
#[derive(Debug, PartialEq, Eq)]
pub struct CellScene {
    /// The number of rows.
    pub rows: usize,
    /// The number of columns.
    pub cols: usize,
    /// The items.
    pub items: Vec<CellItem>,
}

// ---------------------------------------------------------------------------
// Boxes
// ---------------------------------------------------------------------------

/// The position `v`, or the last one where it is outside.
pub open spec fn clamped(v: int, n: int) -> int {
    if v < n - 1 {
        v
    } else {
        n - 1
    }
}

/// The upper and the lower side of a box, between the columns `from` and `to`.
pub open spec fn level_sides(
    g: Seq<Seq<Cell>>,
    row0: int,
    row1: int,
    from: int,
    to: int,
) -> Seq<Seq<Cell>>
    decreases to - from,
{
    if to <= from {
        g
    } else {
        put(
            put(level_sides(g, row0, row1, from, to - 1), row0, to - 1, Cell::Char('─')),
            row1,
            to - 1,
            Cell::Char('─'),
        )
    }
}

/// The left and the right side of a box, between the rows `from` and `to`.
pub open spec fn upright_sides(
    g: Seq<Seq<Cell>>,
    col0: int,
    col1: int,
    from: int,
    to: int,
) -> Seq<Seq<Cell>>
    decreases to - from,
{
    if to <= from {
        g
    } else {
        put(
            put(upright_sides(g, col0, col1, from, to - 1), to - 1, col0, Cell::Char('│')),
            to - 1,
            col1,
            Cell::Char('│'),
        )
    }
}

/// The corners of a box: upper left, upper right, lower left, lower right.
pub open spec fn corners(rounded: bool) -> (char, char, char, char) {
    if rounded {
        ('╭', '╮', '╰', '╯')
    } else {
        ('┌', '┐', '└', '┘')
    }
}

/// A box on a grid that is not empty.
pub open spec fn drawn_rect(g: Seq<Seq<Cell>>, r: CellRect) -> Seq<Seq<Cell>> {
    let rows = g.len() as int;
    let cols = g[0].len() as int;
    let col0 = clamped(r.col0 as int, cols);
    let row0 = clamped(r.row0 as int, rows);
    let col1 = clamped(r.col1 as int, cols);
    let row1 = clamped(r.row1 as int, rows);
    if col1 < col0 || row1 < row0 {
        g
    } else {
        let (tl, tr, bl, br) = corners(r.rounded);
        let g1 = put(g, row0, col0, Cell::Char(tl));
        let g2 = put(g1, row0, col1, Cell::Char(tr));
        let g3 = put(g2, row1, col0, Cell::Char(bl));
        let g4 = put(g3, row1, col1, Cell::Char(br));
        upright_sides(
            level_sides(g4, row0, row1, col0 + 1, col1),
            col0,
            col1,
            row0 + 1,
            row1,
        )
    }
}

fn clamp(v: usize, n: usize) -> (r: usize)
    requires
        n > 0,
    ensures
        r == clamped(v as int, n as int),
        r < n,
{
    if v < n - 1 {
        v
    } else {
        n - 1
    }
}

fn render_rect(grid: &mut Grid, r: &CellRect)
    requires
        old(grid).wf(),
        old(grid).height() > 0,
        old(grid).width() > 0,
    ensures
        final(grid).wf(),
        final(grid).height() == old(grid).height(),
        final(grid).width() == old(grid).width(),
        final(grid)@ == drawn_rect(old(grid)@, *r),
{
    let ghost rows = grid.height();
    let ghost cols = grid.width();
    assert(grid@[0].len() == cols);
    let col0: usize = clamp(r.col0, grid.cols());
    let row0: usize = clamp(r.row0, grid.rows());
    let col1: usize = clamp(r.col1, grid.cols());
    let row1: usize = clamp(r.row1, grid.rows());
    if col1 < col0 || row1 < row0 {
        return;
    }
    let (tl, tr, bl, br): (char, char, char, char) = if r.rounded {
        ('╭', '╮', '╰', '╯')
    } else {
        ('┌', '┐', '└', '┘')
    };
    grid.set(row0, col0, tl);
    grid.set(row0, col1, tr);
    grid.set(row1, col0, bl);
    grid.set(row1, col1, br);
    let ghost cornered = grid@;
    let mut c: usize = col0 + 1;
    while c < col1
        invariant
            col0 + 1 <= c,
            c <= col1 || c == col0 + 1,
            grid.wf(),
            grid.height() == rows,
            grid.width() == cols,
            grid@ == level_sides(cornered, row0 as int, row1 as int, col0 + 1, c as int),
        decreases col1 - c,
    {
        grid.set(row0, c, '─');
        grid.set(row1, c, '─');
        c = c + 1;
    }
    assert(grid@ == level_sides(cornered, row0 as int, row1 as int, col0 + 1, col1 as int));
    let ghost levelled = grid@;
    let mut i: usize = row0 + 1;
    while i < row1
        invariant
            row0 + 1 <= i,
            i <= row1 || i == row0 + 1,
            grid.wf(),
            grid.height() == rows,
            grid.width() == cols,
            grid@ == upright_sides(levelled, col0 as int, col1 as int, row0 + 1, i as int),
        decreases row1 - i,
    {
        grid.set(i, col0, '│');
        grid.set(i, col1, '│');
        i = i + 1;
    }
    assert(grid@ == upright_sides(levelled, col0 as int, col1 as int, row0 + 1, row1 as int));
}

// ---------------------------------------------------------------------------
// Lines
// ---------------------------------------------------------------------------

/// Whether `ch` is part of a box, which lines do not draw over.
pub open spec fn box_border(ch: char) -> bool {
    ch == '┌' || ch == '┐' || ch == '└' || ch == '┘' || ch == '╭' || ch == '╮' || ch == '╰' || ch
        == '╯' || ch == '─' || ch == '│'
}

/// Whether `ch` is part of a box, which lines do not draw over.
pub fn is_box_border(ch: char) -> (r: bool)
    ensures
        r == box_border(ch),
{
    ch == '┌' || ch == '┐' || ch == '└' || ch == '┘' || ch == '╭' || ch == '╮' || ch == '╰' || ch
        == '╯' || ch == '─' || ch == '│'
}

/// The absolute value.
pub open spec fn magnitude(n: int) -> int {
    if n < 0 {
        -n
    } else {
        n
    }
}

/// The character for a line that goes `dx` to the right and `dy` down. A line
/// that goes more than twice as far along one axis as along the other counts as
/// one along that axis.
pub open spec fn line_char(dx: int, dy: int) -> char {
    let w = magnitude(dx);
    let h = magnitude(dy);
    if w == 0 && h == 0 {
        '·'
    } else if w == 0 || (h != 0 && h > 2 * w) {
        '│'
    } else if h == 0 || w > 2 * h {
        '─'
    } else if (dx > 0) == (dy > 0) {
        '╲'
    } else {
        '╱'
    }
}

/// The character for a line that goes `dx` to the right and `dy` down.
pub fn segment_char(dx: i128, dy: i128) -> (r: char)
    requires
        -0x1_0000_0000_0000_0000 < dx < 0x1_0000_0000_0000_0000,
        -0x1_0000_0000_0000_0000 < dy < 0x1_0000_0000_0000_0000,
    ensures
        r == line_char(dx as int, dy as int),
{
    let w: i128 = if dx < 0 {
        -dx
    } else {
        dx
    };
    let h: i128 = if dy < 0 {
        -dy
    } else {
        dy
    };
    if w == 0 && h == 0 {
        return '·';
    }
    if w == 0 {
        return '│';
    }
    if h == 0 {
        return '─';
    }
    if h > w * 2 {
        return '│';
    }
    if w > h * 2 {
        return '─';
    }
    if (dx > 0) == (dy > 0) {
        '╲'
    } else {
        '╱'
    }
}

/// The character for the line from `a` to `b`.
pub open spec fn segment_mark(a: CellPoint, b: CellPoint) -> char {
    line_char(b.col - a.col, b.row - a.row)
}

/// The cell at `row` and `col`, drawn as part of a line.
pub open spec fn drawn_cell(g: Seq<Seq<Cell>>, row: int, col: int, ch: char) -> Seq<Seq<Cell>> {
    if box_border(char_at(g, row, col)) {
        g
    } else {
        put(g, row, col, Cell::Char(ch))
    }
}

/// The cells from `k` on of the line from `a` to `b`, and whether the next cell
/// is to be drawn.
pub open spec fn drawn_segment(
    g: Seq<Seq<Cell>>,
    draw: bool,
    a: CellPoint,
    b: CellPoint,
    dashed: bool,
    k: int,
) -> (Seq<Seq<Cell>>, bool)
    decreases line_len(a, b) - k,
{
    if k >= line_len(a, b) {
        (g, draw)
    } else {
        let (row, col) = line_cell(a, b, k);
        drawn_segment(
            if draw {
                drawn_cell(g, row, col, segment_mark(a, b))
            } else {
                g
            },
            if dashed {
                !draw
            } else {
                draw
            },
            a,
            b,
            dashed,
            k + 1,
        )
    }
}

/// The lines from the point at `i` on. A point where two lines meet is drawn
/// once.
pub open spec fn drawn_segments(
    g: Seq<Seq<Cell>>,
    draw: bool,
    points: Seq<CellPoint>,
    dashed: bool,
    i: int,
) -> Seq<Seq<Cell>>
    decreases points.len() - i,
{
    if i + 1 >= points.len() {
        g
    } else {
        let (next, phase) = drawn_segment(
            g,
            draw,
            points[i],
            points[i + 1],
            dashed,
            if i == 0 {
                0
            } else {
                1
            },
        );
        drawn_segments(next, phase, points, dashed, i + 1)
    }
}

/// A line through points. A single point is a dot.
pub open spec fn drawn_path(g: Seq<Seq<Cell>>, p: CellPath) -> Seq<Seq<Cell>> {
    if p.points@.len() == 0 {
        g
    } else if p.points@.len() == 1 {
        put(g, p.points@[0].row as int, p.points@[0].col as int, Cell::Char('·'))
    } else {
        drawn_segments(g, true, p.points@, p.dashed, 0)
    }
}

fn render_segment(
    grid: &mut Grid,
    draw: bool,
    a: CellPoint,
    b: CellPoint,
    dashed: bool,
    skip_first: bool,
) -> (r: bool)
    requires
        old(grid).wf(),
    ensures
        final(grid).wf(),
        final(grid).height() == old(grid).height(),
        final(grid).width() == old(grid).width(),
        (final(grid)@, r) == drawn_segment(
            old(grid)@,
            draw,
            a,
            b,
            dashed,
            if skip_first {
                1
            } else {
                0
            },
        ),
{
    let ghost start = grid@;
    let ghost rows = grid.height();
    let ghost cols = grid.width();
    let ghost from: int = if skip_first {
        1
    } else {
        0
    };
    let ch: char = segment_char(b.col as i128 - a.col as i128, b.row as i128 - a.row as i128);
    let cells = bresenham_cells(a, b);
    let mut draw = draw;
    let ghost first_draw = draw;
    let mut k: usize = if skip_first {
        1
    } else {
        0
    };
    proof {
        law_line_ends(a, b);
    }
    while k < cells.len()
        invariant
            k <= cells@.len(),
            cells@.len() == line_len(a, b),
            forall|j: int|
                0 <= j < cells@.len() ==> ((#[trigger] cells@[j]).row as int, cells@[j].col as int)
                    == line_cell(a, b, j),
            ch == segment_mark(a, b),
            grid.wf(),
            grid.height() == rows,
            grid.width() == cols,
            drawn_segment(start, first_draw, a, b, dashed, from) == drawn_segment(
                grid@,
                draw,
                a,
                b,
                dashed,
                k as int,
            ),
        decreases cells@.len() - k,
    {
        let c: CellPoint = cells[k];
        assert((c.row as int, c.col as int) == line_cell(a, b, k as int));
        if draw {
            if !is_box_border(grid.get_i(c.row, c.col)) {
                grid.set_i(c.row, c.col, ch);
            }
        }
        if dashed {
            draw = !draw;
        }
        k = k + 1;
    }
    draw
}

fn render_path(grid: &mut Grid, p: &CellPath)
    requires
        old(grid).wf(),
    ensures
        final(grid).wf(),
        final(grid).height() == old(grid).height(),
        final(grid).width() == old(grid).width(),
        final(grid)@ == drawn_path(old(grid)@, *p),
{
    let ghost start = grid@;
    let ghost rows = grid.height();
    let ghost cols = grid.width();
    let n: usize = p.points.len();
    if n < 2 {
        if n == 1 {
            grid.set_i(p.points[0].row, p.points[0].col, '·');
        }
        return;
    }
    let mut draw = true;
    let mut i: usize = 0;
    while i < n - 1
        invariant
            n == p.points@.len(),
            n >= 2,
            i <= n - 1,
            grid.wf(),
            grid.height() == rows,
            grid.width() == cols,
            drawn_segments(start, true, p.points@, p.dashed, 0) == drawn_segments(
                grid@,
                draw,
                p.points@,
                p.dashed,
                i as int,
            ),
        decreases n - i,
    {
        draw = render_segment(grid, draw, p.points[i], p.points[i + 1], p.dashed, i > 0);
        i = i + 1;
    }
}

// ---------------------------------------------------------------------------
// Heads of arrows
// ---------------------------------------------------------------------------

/// The character for the head of an arrow.
pub open spec fn head_char(t: Tip) -> char {
    if t.steep {
        if t.upward {
            '▲'
        } else {
            '▼'
        }
    } else if t.leftward {
        '◀'
    } else {
        '▶'
    }
}

/// The head of an arrow. It is rounded against the way it points, so that it
/// stays outside what it points at.
pub open spec fn drawn_head(g: Seq<Seq<Cell>>, t: Tip) -> Seq<Seq<Cell>> {
    let row = if !t.steep {
        t.row.nearest
    } else if t.upward {
        t.row.ceil
    } else {
        t.row.floor
    };
    let col = if t.steep {
        t.col.nearest
    } else if t.leftward {
        t.col.ceil
    } else {
        t.col.floor
    };
    put(g, row as int, col as int, Cell::Char(head_char(t)))
}

fn render_arrowhead(grid: &mut Grid, t: &Tip)
    requires
        old(grid).wf(),
    ensures
        final(grid).wf(),
        final(grid).height() == old(grid).height(),
        final(grid).width() == old(grid).width(),
        final(grid)@ == drawn_head(old(grid)@, *t),
{
    let ch: char = if t.steep {
        if t.upward {
            '▲'
        } else {
            '▼'
        }
    } else if t.leftward {
        '◀'
    } else {
        '▶'
    };
    let row: i64 = if !t.steep {
        t.row.nearest
    } else if t.upward {
        t.row.ceil
    } else {
        t.row.floor
    };
    let col: i64 = if t.steep {
        t.col.nearest
    } else if t.leftward {
        t.col.ceil
    } else {
        t.col.floor
    };
    grid.set_i(row, col, ch);
}

// ---------------------------------------------------------------------------
// Texts
// ---------------------------------------------------------------------------

/// What `UnicodeWidthChar::width` of the `unicode-width` crate returns: how many
/// columns a character takes, or nothing for a control character.
pub uninterp spec fn char_width(c: char) -> Option<usize>;

/// Calls `UnicodeWidthChar::width` of the `unicode-width` crate. The width comes
/// from a table of bytes, and printable ASCII characters take one column.
#[verifier::external_body]
fn unicode_width_of(c: char) -> (r: Option<usize>)
    ensures
        r == char_width(c),
        r matches Some(w) ==> w <= 255,
        ' ' <= c <= '~' ==> r == Some(1usize),
{
    unicode_width::UnicodeWidthChar::width(c)
}

/// How many cells a character of the given width takes: one for a control
/// character.
pub open spec fn cells_for(width: Option<usize>) -> int {
    match width {
        Some(w) => w as int,
        None => 1,
    }
}

/// How many cells a character takes.
pub open spec fn char_cells(c: char) -> int {
    cells_for(char_width(c))
}

/// How many cells a character of the given width takes.
pub fn width_or_one(width: Option<usize>) -> (r: usize)
    ensures
        r == cells_for(width),
{
    match width {
        Some(w) => w,
        None => 1,
    }
}

fn display_width(c: char) -> (r: usize)
    ensures
        r == char_cells(c),
        r <= 255,
{
    width_or_one(unicode_width_of(c))
}

/// How many cells the first `n` characters of a text take.
pub open spec fn text_cells(s: Seq<char>, n: int) -> int
    decreases n,
{
    if n <= 0 {
        0
    } else {
        text_cells(s, n - 1) + char_cells(s[n - 1])
    }
}

/// The column at which a text begins.
pub open spec fn start_col(col: int, align: TextAlign, cells: int) -> int {
    match align {
        TextAlign::Start => col,
        TextAlign::Middle => col - cells / 2,
        TextAlign::End => col - cells,
    }
}

/// The grid with the character `ch`, which takes `cells` cells, in the row `row`
/// at the column `col`. It is left out where its first cell is outside.
pub open spec fn drawn_char(
    g: Seq<Seq<Cell>>,
    row: int,
    col: int,
    ch: char,
    cells: int,
) -> Seq<Seq<Cell>> {
    if inside(g, row, col) {
        let placed = put(g, row, col, Cell::Char(ch));
        if cells == 2 {
            put(placed, row, col + 1, Cell::Wide)
        } else {
            placed
        }
    } else {
        g
    }
}

/// The characters from `i` on in the row `row`, which has `cols` cells, from the
/// column `col` on.
pub open spec fn drawn_chars(
    g: Seq<Seq<Cell>>,
    row: int,
    cols: int,
    col: int,
    s: Seq<char>,
    i: int,
) -> Seq<Seq<Cell>>
    decreases s.len() - i,
{
    if i >= s.len() {
        g
    } else {
        let cells = char_cells(s[i]);
        let next = drawn_char(g, row, col, s[i], cells);
        if col + cells >= cols {
            next
        } else {
            drawn_chars(next, row, cols, col + cells, s, i + 1)
        }
    }
}

/// A character that opens an escape sequence: the escape itself, or one that stands
/// for an escape and a letter (DCS, SOS, CSI, OSC, PM and APC).
pub open spec fn opener(c: char) -> bool {
    c == '\u{1b}' || c == '\u{90}' || c == '\u{98}' || c == '\u{9b}' || c == '\u{9d}' || c
        == '\u{9e}' || c == '\u{9f}'
}

/// The character that is drawn for `c`: a space for one that opens an escape
/// sequence.
pub open spec fn printed(c: char) -> char {
    if opener(c) {
        ' '
    } else {
        c
    }
}

/// The characters that are drawn for a text.
pub open spec fn printable(s: Seq<char>) -> Seq<char> {
    Seq::new(s.len(), |i: int| printed(s[i]))
}

fn to_printed(c: char) -> (r: char)
    ensures
        r == printed(c),
{
    if c == '\u{1b}' || c == '\u{90}' || c == '\u{98}' || c == '\u{9b}' || c == '\u{9d}' || c
        == '\u{9e}' || c == '\u{9f}' {
        ' '
    } else {
        c
    }
}

fn to_printable(s: &str) -> (r: Vec<char>)
    ensures
        r@ == printable(s@),
{
    let chars = to_chars(s);
    let mut out: Vec<char> = Vec::new();
    let mut i: usize = 0;
    while i < chars.len()
        invariant
            i <= chars@.len(),
            out@.len() == i,
            forall|k: int| 0 <= k < i ==> out@[k] == printed(chars@[k]),
        decreases chars@.len() - i,
    {
        out.push(to_printed(chars[i]));
        i = i + 1;
    }
    assert(out@ =~= printable(s@));
    out
}

/// A text on a grid that is not empty.
pub open spec fn drawn_text(g: Seq<Seq<Cell>>, t: CellText) -> Seq<Seq<Cell>> {
    let s = printable(t.content@);
    if 0 <= t.row < g.len() {
        drawn_chars(
            g,
            t.row as int,
            g[0].len() as int,
            start_col(t.col as int, t.align, text_cells(s, s.len() as int)),
            s,
            0,
        )
    } else {
        g
    }
}

fn count_cells(s: &Vec<char>) -> (r: i128)
    ensures
        r == text_cells(s@, s@.len() as int),
        0 <= r <= 255 * s@.len(),
{
    let mut sum: i128 = 0;
    let mut i: usize = 0;
    while i < s.len()
        invariant
            i <= s@.len(),
            sum == text_cells(s@, i as int),
            0 <= sum <= 255 * i,
        decreases s@.len() - i,
    {
        let w: usize = display_width(s[i]);
        sum = sum + w as i128;
        i = i + 1;
    }
    sum
}

fn render_char(grid: &mut Grid, row: usize, col: i128, ch: char, cells: usize)
    requires
        old(grid).wf(),
        row < old(grid).height(),
        col < i128::MAX,
    ensures
        final(grid).wf(),
        final(grid).height() == old(grid).height(),
        final(grid).width() == old(grid).width(),
        final(grid)@ == drawn_char(old(grid)@, row as int, col as int, ch, cells as int),
{
    assert(grid@[row as int].len() == grid.width());
    if col >= 0 && col < grid.cols() as i128 {
        grid.set(row, col as usize, ch);
        assert(grid@[row as int].len() == grid.width());
        if cells == 2 && col + 1 < grid.cols() as i128 {
            grid.put(row, (col + 1) as usize, Cell::Wide);
        }
    }
}

fn render_text(grid: &mut Grid, t: &CellText)
    requires
        old(grid).wf(),
        old(grid).height() > 0,
        old(grid).width() > 0,
    ensures
        final(grid).wf(),
        final(grid).height() == old(grid).height(),
        final(grid).width() == old(grid).width(),
        final(grid)@ == drawn_text(old(grid)@, *t),
{
    let ghost start = grid@;
    let ghost rows = grid.height();
    let cols: usize = grid.cols();
    assert(start[0].len() == cols);
    if t.row < 0 || t.row as i128 >= grid.rows() as i128 {
        return;
    }
    let row: usize = t.row as usize;
    let chars = to_printable(t.content.as_str());
    let n: usize = chars.len();
    let total: i128 = count_cells(&chars);
    let first: i128 = match t.align {
        TextAlign::Start => t.col as i128,
        TextAlign::Middle => t.col as i128 - total / 2,
        TextAlign::End => t.col as i128 - total,
    };
    let mut col: i128 = first;
    let mut i: usize = 0;
    while i < n
        invariant_except_break
            drawn_text(start, *t) == drawn_chars(
                grid@,
                row as int,
                cols as int,
                col as int,
                chars@,
                i as int,
            ),
        invariant
            i <= n,
            n == chars@.len(),
            chars@ == printable(t.content@),
            row == t.row,
            row < rows,
            grid.wf(),
            grid.height() == rows,
            grid.width() == cols,
            first + 0 <= col <= first + 255 * i,
            -0x1_0000_0000_0000_0000_0000 < first < 0x1_0000_0000_0000_0000_0000,
        ensures
            grid@ == drawn_text(start, *t),
        decreases n - i,
    {
        let w: usize = display_width(chars[i]);
        render_char(grid, row, col, chars[i], w);
        col = col + w as i128;
        i = i + 1;
        if col >= cols as i128 {
            break;
        }
    }
}

// ---------------------------------------------------------------------------
// Scenes on grids
// ---------------------------------------------------------------------------

/// An item on a grid that is not empty: a text in the second pass, everything
/// else in the first one.
pub open spec fn drawn_item(g: Seq<Seq<Cell>>, item: CellItem, text_pass: bool) -> Seq<Seq<Cell>>
    decreases item, 0int,
{
    match item {
        CellItem::Text(t) => if text_pass {
            drawn_text(g, t)
        } else {
            g
        },
        CellItem::Rect(r) => if text_pass {
            g
        } else {
            drawn_rect(g, r)
        },
        CellItem::Path(p) => if text_pass {
            g
        } else {
            drawn_path(g, p)
        },
        CellItem::Arrowhead(t) => match t {
            Some(t) => if text_pass {
                g
            } else {
                drawn_head(g, t)
            },
            None => g,
        },
        CellItem::Group(group) => drawn_items(
            g,
            group.items@,
            group.items@.len() as int,
            text_pass,
        ),
    }
}

/// The first `n` items on a grid that is not empty.
pub open spec fn drawn_items(
    g: Seq<Seq<Cell>>,
    items: Seq<CellItem>,
    n: int,
    text_pass: bool,
) -> Seq<Seq<Cell>>
    decreases items, n,
{
    if n <= 0 || n > items.len() {
        g
    } else {
        drawn_item(drawn_items(g, items, n - 1, text_pass), items[n - 1], text_pass)
    }
}

fn render_item(grid: &mut Grid, item: &CellItem, text_pass: bool)
    requires
        old(grid).wf(),
        old(grid).height() > 0,
        old(grid).width() > 0,
    ensures
        final(grid).wf(),
        final(grid).height() == old(grid).height(),
        final(grid).width() == old(grid).width(),
        final(grid)@ == drawn_item(old(grid)@, *item, text_pass),
    decreases item,
{
    match item {
        CellItem::Text(t) => {
            if text_pass {
                render_text(grid, t);
            }
        },
        CellItem::Rect(r) => {
            if !text_pass {
                render_rect(grid, r);
            }
        },
        CellItem::Path(p) => {
            if !text_pass {
                render_path(grid, p);
            }
        },
        CellItem::Arrowhead(t) => {
            match t {
                Some(t) => {
                    if !text_pass {
                        render_arrowhead(grid, t);
                    }
                },
                None => {},
            }
        },
        CellItem::Group(g) => {
            let ghost start = grid@;
            let ghost rows = grid.height();
            let ghost cols = grid.width();
            let mut i: usize = 0;
            while i < g.items.len()
                invariant
                    i <= g.items@.len(),
                    *item == CellItem::Group(*g),
                    grid.wf(),
                    grid.height() == rows,
                    grid.width() == cols,
                    rows > 0,
                    cols > 0,
                    grid@ == drawn_items(start, g.items@, i as int, text_pass),
                decreases g.items@.len() - i,
            {
                let child = &g.items[i];
                assert(decreases_to!(item => item->Group_0.items@[i as int]));
                render_item(grid, child, text_pass);
                i = i + 1;
            }
        },
    }
}

/// The text of a scene. One without rows or columns is an empty line.
pub open spec fn scene_text(s: CellScene) -> Seq<char> {
    if s.cols == 0 || s.rows == 0 {
        "\n"@
    } else {
        let n = s.items@.len() as int;
        let g = drawn_items(
            drawn_items(empty_grid(s.rows as int, s.cols as int), s.items@, n, false),
            s.items@,
            n,
            true,
        );
        rows_text(g, s.rows as int)
    }
}

fn render_pass(grid: &mut Grid, items: &Vec<CellItem>, text_pass: bool)
    requires
        old(grid).wf(),
        old(grid).height() > 0,
        old(grid).width() > 0,
    ensures
        final(grid).wf(),
        final(grid).height() == old(grid).height(),
        final(grid).width() == old(grid).width(),
        final(grid)@ == drawn_items(old(grid)@, items@, items@.len() as int, text_pass),
{
    let ghost start = grid@;
    let ghost rows = grid.height();
    let ghost cols = grid.width();
    let mut i: usize = 0;
    while i < items.len()
        invariant
            i <= items@.len(),
            grid.wf(),
            grid.height() == rows,
            grid.width() == cols,
            rows > 0,
            cols > 0,
            grid@ == drawn_items(start, items@, i as int, text_pass),
        decreases items@.len() - i,
    {
        render_item(grid, &items[i], text_pass);
        i = i + 1;
    }
}

/// Renders a scene as plain text.
pub fn render(scene: &CellScene) -> (r: String)
    ensures
        r@ == scene_text(*scene),
{
    if scene.cols == 0 || scene.rows == 0 {
        return String::from_str("\n");
    }
    let mut grid = Grid::new(scene.rows, scene.cols);
    render_pass(&mut grid, &scene.items, false);
    render_pass(&mut grid, &scene.items, true);
    assert(grid@.len() == scene.rows);
    grid.text()
}

// ---------------------------------------------------------------------------
// No escape sequences
// ---------------------------------------------------------------------------

/// Whether no cell of the grid holds a character that opens an escape sequence.
pub open spec fn clean(g: Seq<Seq<Cell>>) -> bool {
    forall|i: int, j: int|
        0 <= i < g.len() && 0 <= j < g[i].len() ==> (#[trigger] g[i][j] matches Cell::Char(c)
            ==> !opener(c))
}

proof fn lemma_clean_put(g: Seq<Seq<Cell>>, row: int, col: int, cell: Cell)
    requires
        clean(g),
        cell matches Cell::Char(c) ==> !opener(c),
    ensures
        clean(put(g, row, col, cell)),
        put(g, row, col, cell).len() == g.len(),
{
    let after = put(g, row, col, cell);
    assert forall|i: int, j: int| 0 <= i < after.len() && 0 <= j < after[i].len() implies (
    #[trigger] after[i][j] matches Cell::Char(c) ==> !opener(c)) by {
        assert(after[i][j] == cell || after[i][j] == g[i][j]);
    }
}

proof fn lemma_clean_level_sides(g: Seq<Seq<Cell>>, row0: int, row1: int, from: int, to: int)
    requires
        clean(g),
    ensures
        clean(level_sides(g, row0, row1, from, to)),
        level_sides(g, row0, row1, from, to).len() == g.len(),
    decreases to - from,
{
    if from < to {
        lemma_clean_level_sides(g, row0, row1, from, to - 1);
        let before = level_sides(g, row0, row1, from, to - 1);
        lemma_clean_put(before, row0, to - 1, Cell::Char('─'));
        lemma_clean_put(
            put(before, row0, to - 1, Cell::Char('─')),
            row1,
            to - 1,
            Cell::Char('─'),
        );
    }
}

proof fn lemma_clean_upright_sides(g: Seq<Seq<Cell>>, col0: int, col1: int, from: int, to: int)
    requires
        clean(g),
    ensures
        clean(upright_sides(g, col0, col1, from, to)),
        upright_sides(g, col0, col1, from, to).len() == g.len(),
    decreases to - from,
{
    if from < to {
        lemma_clean_upright_sides(g, col0, col1, from, to - 1);
        let before = upright_sides(g, col0, col1, from, to - 1);
        lemma_clean_put(before, to - 1, col0, Cell::Char('│'));
        lemma_clean_put(
            put(before, to - 1, col0, Cell::Char('│')),
            to - 1,
            col1,
            Cell::Char('│'),
        );
    }
}

proof fn lemma_clean_rect(g: Seq<Seq<Cell>>, r: CellRect)
    requires
        clean(g),
    ensures
        clean(drawn_rect(g, r)),
        drawn_rect(g, r).len() == g.len(),
{
    let rows = g.len() as int;
    let cols = g[0].len() as int;
    let col0 = clamped(r.col0 as int, cols);
    let row0 = clamped(r.row0 as int, rows);
    let col1 = clamped(r.col1 as int, cols);
    let row1 = clamped(r.row1 as int, rows);
    let (tl, tr, bl, br) = corners(r.rounded);
    let g1 = put(g, row0, col0, Cell::Char(tl));
    let g2 = put(g1, row0, col1, Cell::Char(tr));
    let g3 = put(g2, row1, col0, Cell::Char(bl));
    let g4 = put(g3, row1, col1, Cell::Char(br));
    lemma_clean_put(g, row0, col0, Cell::Char(tl));
    lemma_clean_put(g1, row0, col1, Cell::Char(tr));
    lemma_clean_put(g2, row1, col0, Cell::Char(bl));
    lemma_clean_put(g3, row1, col1, Cell::Char(br));
    lemma_clean_level_sides(g4, row0, row1, col0 + 1, col1);
    lemma_clean_upright_sides(
        level_sides(g4, row0, row1, col0 + 1, col1),
        col0,
        col1,
        row0 + 1,
        row1,
    );
}

proof fn lemma_clean_segment(
    g: Seq<Seq<Cell>>,
    draw: bool,
    a: CellPoint,
    b: CellPoint,
    dashed: bool,
    k: int,
)
    requires
        clean(g),
    ensures
        clean(drawn_segment(g, draw, a, b, dashed, k).0),
        drawn_segment(g, draw, a, b, dashed, k).0.len() == g.len(),
    decreases line_len(a, b) - k,
{
    if k < line_len(a, b) {
        let (row, col) = line_cell(a, b, k);
        lemma_clean_put(g, row, col, Cell::Char(segment_mark(a, b)));
        let next = if draw {
            drawn_cell(g, row, col, segment_mark(a, b))
        } else {
            g
        };
        let phase = if dashed {
            !draw
        } else {
            draw
        };
        lemma_clean_segment(next, phase, a, b, dashed, k + 1);
    }
}

proof fn lemma_clean_segments(
    g: Seq<Seq<Cell>>,
    draw: bool,
    points: Seq<CellPoint>,
    dashed: bool,
    i: int,
)
    requires
        clean(g),
    ensures
        clean(drawn_segments(g, draw, points, dashed, i)),
        drawn_segments(g, draw, points, dashed, i).len() == g.len(),
    decreases points.len() - i,
{
    if i + 1 < points.len() {
        let from: int = if i == 0 {
            0
        } else {
            1
        };
        lemma_clean_segment(g, draw, points[i], points[i + 1], dashed, from);
        let (next, phase) = drawn_segment(g, draw, points[i], points[i + 1], dashed, from);
        lemma_clean_segments(next, phase, points, dashed, i + 1);
    }
}

proof fn lemma_clean_chars(
    g: Seq<Seq<Cell>>,
    row: int,
    cols: int,
    col: int,
    s: Seq<char>,
    i: int,
)
    requires
        clean(g),
        0 <= i,
    ensures
        clean(drawn_chars(g, row, cols, col, printable(s), i)),
        drawn_chars(g, row, cols, col, printable(s), i).len() == g.len(),
    decreases s.len() - i,
{
    let p = printable(s);
    if i < p.len() {
        let cells = char_cells(p[i]);
        lemma_clean_put(g, row, col, Cell::Char(p[i]));
        lemma_clean_put(put(g, row, col, Cell::Char(p[i])), row, col + 1, Cell::Wide);
        lemma_clean_chars(drawn_char(g, row, col, p[i], cells), row, cols, col + cells, s, i + 1);
    }
}

proof fn lemma_clean_item(g: Seq<Seq<Cell>>, item: CellItem, text_pass: bool)
    requires
        clean(g),
    ensures
        clean(drawn_item(g, item, text_pass)),
        drawn_item(g, item, text_pass).len() == g.len(),
    decreases item, 0int,
{
    match item {
        CellItem::Text(t) => {
            let p = printable(t.content@);
            lemma_clean_chars(
                g,
                t.row as int,
                g[0].len() as int,
                start_col(t.col as int, t.align, text_cells(p, p.len() as int)),
                t.content@,
                0,
            );
        },
        CellItem::Rect(r) => {
            lemma_clean_rect(g, r);
        },
        CellItem::Path(p) => {
            lemma_clean_put(
                g,
                p.points@[0].row as int,
                p.points@[0].col as int,
                Cell::Char('·'),
            );
            lemma_clean_segments(g, true, p.points@, p.dashed, 0);
        },
        CellItem::Arrowhead(t) => {
            if let Some(t) = t {
                let row = if !t.steep {
                    t.row.nearest
                } else if t.upward {
                    t.row.ceil
                } else {
                    t.row.floor
                };
                let col = if t.steep {
                    t.col.nearest
                } else if t.leftward {
                    t.col.ceil
                } else {
                    t.col.floor
                };
                lemma_clean_put(g, row as int, col as int, Cell::Char(head_char(t)));
            }
        },
        CellItem::Group(group) => {
            lemma_clean_items(g, group.items@, group.items@.len() as int, text_pass);
        },
    }
}

proof fn lemma_clean_items(g: Seq<Seq<Cell>>, items: Seq<CellItem>, n: int, text_pass: bool)
    requires
        clean(g),
        n <= items.len(),
    ensures
        clean(drawn_items(g, items, n, text_pass)),
        drawn_items(g, items, n, text_pass).len() == g.len(),
    decreases items, n,
{
    if n > 0 {
        lemma_clean_items(g, items, n - 1, text_pass);
        lemma_clean_item(drawn_items(g, items, n - 1, text_pass), items[n - 1], text_pass);
    }
}

proof fn lemma_clean_row(row: Seq<Cell>, n: int)
    requires
        0 <= n <= row.len(),
        forall|j: int| 0 <= j < row.len() ==> (#[trigger] row[j] matches Cell::Char(c) ==> !opener(c)),
    ensures
        forall|k: int| 0 <= k < row_chars(row, n).len() ==> !opener(#[trigger] row_chars(row, n)[k]),
    decreases n,
{
    if n > 0 {
        lemma_clean_row(row, n - 1);
        let before = row_chars(row, n - 1);
        let all = row_chars(row, n);
        assert forall|k: int| 0 <= k < all.len() implies !opener(#[trigger] all[k]) by {
            if k < before.len() {
                assert(all[k] == before[k]);
            } else {
                assert(Some(all[k]) == shown(row[n - 1]));
            }
        }
    }
}

proof fn lemma_clean_rows(g: Seq<Seq<Cell>>, n: int)
    requires
        clean(g),
        0 <= n <= g.len(),
    ensures
        forall|k: int| 0 <= k < rows_text(g, n).len() ==> !opener(#[trigger] rows_text(g, n)[k]),
    decreases n,
{
    if n > 0 {
        lemma_clean_rows(g, n - 1);
        let row = g[n - 1];
        assert forall|j: int| 0 <= j < row.len() implies (#[trigger] row[j] matches Cell::Char(c)
            ==> !opener(c)) by {
            assert(g[n - 1][j] == row[j]);
        }
        lemma_clean_row(row, row.len() as int);
        let chars = row_chars(row, row.len() as int);
        let cut = trim_end(chars);
        lemma_before_white(chars, chars.len() as int);
        reveal_strlit("\n");
        let before = rows_text(g, n - 1);
        let all = rows_text(g, n);
        assert forall|k: int| 0 <= k < all.len() implies !opener(#[trigger] all[k]) by {
            if k < before.len() {
                assert(all[k] == before[k]);
            } else if k < before.len() + cut.len() {
                assert(all[k] == cut[k - before.len()]);
                assert(cut[k - before.len()] == chars[k - before.len()]);
            }
        }
    }
}

/// The text of a scene holds no character that opens an escape sequence, whatever
/// the scene says.
pub proof fn law_no_escape_sequences(s: CellScene)
    ensures
        forall|i: int| 0 <= i < scene_text(s).len() ==> !opener(#[trigger] scene_text(s)[i]),
{
    reveal_strlit("\n");
    let n = s.items@.len() as int;
    let start = empty_grid(s.rows as int, s.cols as int);
    lemma_clean_items(start, s.items@, n, false);
    let lined = drawn_items(start, s.items@, n, false);
    lemma_clean_items(lined, s.items@, n, true);
    if s.cols != 0 && s.rows != 0 {
        lemma_clean_rows(drawn_items(lined, s.items@, n, true), s.rows as int);
    }
}

// ---------------------------------------------------------------------------
// Alignment
// ---------------------------------------------------------------------------

/// Whether the cell `j` of a row fits: a wide character is followed by its right
/// half, a right half follows a wide character, and every other character takes
/// one cell.
pub open spec fn fits(row: Seq<Cell>, j: int) -> bool {
    match row[j] {
        Cell::Char(c) => char_cells(c) == 1 || (char_cells(c) == 2 && j + 1 < row.len() && row[j
            + 1] == Cell::Wide),
        Cell::Wide => j > 0 && wide(row[j - 1]),
        Cell::Empty => true,
    }
}

/// Whether a cell holds a wide character.
pub open spec fn wide(cell: Cell) -> bool {
    cell matches Cell::Char(c) && char_cells(c) == 2
}

/// Whether all cells of a row fit.
pub open spec fn aligned(row: Seq<Cell>) -> bool {
    forall|j: int| 0 <= j < row.len() ==> #[trigger] fits(row, j)
}

/// What is written for a row in which every wide character is followed by its
/// right half takes as many columns as the row has cells, so that the borders
/// to the right of a wide character stay in line.
pub proof fn law_row_keeps_its_width(row: Seq<Cell>)
    requires
        aligned(row),
        char_cells(' ') == 1,
    ensures
        text_cells(row_chars(row, row.len() as int), row_chars(row, row.len() as int).len() as int)
            == row.len(),
{
    lemma_row_width(row, row.len() as int);
    if row.len() > 0 {
        assert(fits(row, row.len() - 1));
    }
}

/// The columns that the first cells of a row take. A wide character whose right
/// half is still to come takes one more.
proof fn lemma_row_width(row: Seq<Cell>, n: int)
    requires
        aligned(row),
        char_cells(' ') == 1,
        0 <= n <= row.len(),
    ensures
        text_cells(row_chars(row, n), row_chars(row, n).len() as int) == n + (if n > 0 && wide(
            row[n - 1],
        ) {
            1int
        } else {
            0
        }),
    decreases n,
{
    if n > 0 {
        lemma_row_width(row, n - 1);
        assert(fits(row, n - 1));
        let before = row_chars(row, n - 1);
        match shown(row[n - 1]) {
            Some(c) => {
                lemma_text_cells_push(before, c, before.len() as int);
                if n > 1 {
                    assert(fits(row, n - 2));
                }
            },
            None => {},
        }
    }
}

/// The first characters take the same cells whatever follows them.
proof fn lemma_text_cells_push(s: Seq<char>, c: char, n: int)
    requires
        0 <= n <= s.len(),
    ensures
        text_cells(s.push(c), n) == text_cells(s, n),
    decreases n,
{
    if n > 0 {
        lemma_text_cells_push(s, c, n - 1);
    }
}

/// Whether all cells of a row fit, but that the cell `c` may be a right half whose
/// left half is gone.
pub open spec fn aligned_but(row: Seq<Cell>, c: int) -> bool {
    forall|j: int|
        0 <= j < row.len() ==> #[trigger] fits(row, j) || (j == c && row[j] == Cell::Wide)
}

/// Whether every character of a text takes one cell or two.
pub open spec fn spaced(s: Seq<char>) -> bool {
    forall|k: int|
        0 <= k < s.len() ==> char_cells(#[trigger] s[k]) == 1 || char_cells(s[k]) == 2
}

/// What stands between two places of a text takes a cell for each character.
proof fn lemma_cells_left(s: Seq<char>, i: int, n: int)
    requires
        spaced(s),
        0 <= i <= n <= s.len(),
    ensures
        text_cells(s, n) - text_cells(s, i) >= n - i,
    decreases n,
{
    if i < n {
        lemma_cells_left(s, i, n - 1);
    }
}

/// A character inside a row changes the cells that it takes, and takes away what
/// was there.
proof fn lemma_char_aligned(g: Seq<Seq<Cell>>, row: int, c: int, ch: char)
    requires
        0 <= row < g.len(),
        char_cells(ch) == 1 || char_cells(ch) == 2,
        0 <= c,
        c + char_cells(ch) <= g[row].len(),
        aligned_but(g[row], c),
        c > 0 ==> !wide(g[row][c - 1]),
    ensures
        ({
            let after = drawn_char(g, row, c, ch, char_cells(ch));
            let next = c + char_cells(ch);
            &&& after.len() == g.len()
            &&& after[row].len() == g[row].len()
            &&& aligned_but(after[row], next)
            &&& !wide(after[row][next - 1])
            &&& forall|j: int| next <= j < g[row].len() ==> #[trigger] after[row][j] == g[row][j]
            &&& forall|k: int| 0 <= k < g.len() && k != row ==> #[trigger] after[k] == g[k]
        }),
{
    let n = char_cells(ch);
    let before = g[row];
    let after = drawn_char(g, row, c, ch, n)[row];
    let placed = before.update(c, Cell::Char(ch));
    assert(after == (if n == 2 {
        placed.update(c + 1, Cell::Wide)
    } else {
        placed
    }));
    assert forall|j: int| 0 <= j < after.len() implies #[trigger] fits(after, j) || (j == c + n
        && after[j] == Cell::Wide) by {
        assert(fits(before, j) || (j == c && before[j] == Cell::Wide));
        if j == c - 1 || j == c + n {
            assert(after[j] == before[j]);
        }
    }
}

/// The rest of a text, drawn from the cell `col` on, leaves the row aligned.
proof fn lemma_chars_aligned(
    g: Seq<Seq<Cell>>,
    row: int,
    cols: int,
    col: int,
    s: Seq<char>,
    i: int,
)
    requires
        0 <= row < g.len(),
        g[row].len() == cols,
        spaced(s),
        0 <= i <= s.len(),
        0 <= col,
        col + text_cells(s, s.len() as int) - text_cells(s, i) <= cols,
        aligned_but(g[row], col),
        col > 0 ==> !wide(g[row][col - 1]),
        ({
            let end = col + text_cells(s, s.len() as int) - text_cells(s, i);
            end < cols ==> g[row][end] != Cell::Wide
        }),
    ensures
        ({
            let after = drawn_chars(g, row, cols, col, s, i);
            &&& after.len() == g.len()
            &&& aligned(after[row])
            &&& after[row].len() == cols
            &&& forall|k: int| 0 <= k < g.len() && k != row ==> #[trigger] after[k] == g[k]
        }),
    decreases s.len() - i,
{
    let n = s.len() as int;
    let before = g[row];
    if i < n {
        let cells = char_cells(s[i]);
        lemma_cells_left(s, i + 1, n);
        let next = drawn_char(g, row, col, s[i], cells);
        assert(text_cells(s, i + 1) == text_cells(s, i) + cells);
        lemma_char_aligned(g, row, col, s[i]);
        let now = next[row];
        if col + cells < cols {
            lemma_chars_aligned(next, row, cols, col + cells, s, i + 1);
        } else {
            assert(aligned(now)) by {
                assert forall|j: int| 0 <= j < now.len() implies #[trigger] fits(now, j) by {}
            }
        }
    } else {
        assert(aligned(before)) by {
            assert forall|j: int| 0 <= j < before.len() implies #[trigger] fits(before, j) by {}
        }
    }
}

/// A text that is drawn inside a row keeps the row aligned, unless it takes one
/// half of a wide character away and leaves the other. Its characters take one
/// cell or two. The other rows stay as they are.
pub proof fn law_text_keeps_rows_aligned(
    g: Seq<Seq<Cell>>,
    row: int,
    col: int,
    s: Seq<char>,
)
    requires
        0 <= row < g.len(),
        spaced(s),
        0 <= col,
        col + text_cells(s, s.len() as int) <= g[row].len(),
        aligned(g[row]),
        col < g[row].len() ==> g[row][col] != Cell::Wide,
        col + text_cells(s, s.len() as int) < g[row].len() ==> g[row][col + text_cells(
            s,
            s.len() as int,
        )] != Cell::Wide,
    ensures
        ({
            let after = drawn_chars(g, row, g[row].len() as int, col, s, 0);
            &&& after.len() == g.len()
            &&& aligned(after[row])
            &&& after[row].len() == g[row].len()
            &&& forall|k: int| 0 <= k < g.len() && k != row ==> #[trigger] after[k] == g[k]
        }),
{
    let cols = g[row].len() as int;
    lemma_cells_left(s, 0, s.len() as int);
    if 0 < col {
        assert(fits(g[row], col - 1));
    }
    lemma_chars_aligned(g, row, cols, col, s, 0);
}

} // verus!
