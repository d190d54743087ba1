//! What is drawn where.
use crate::parts::{lemma_starts_more_of, lemma_starts_self, starts};
use crate::svg::TextAlign;
use crate::term::{
    box_border, char_cells, corners, drawn_cell, drawn_char, drawn_chars, drawn_head, drawn_items,
    drawn_path, drawn_rect, drawn_segment, drawn_segments, drawn_text, level_sides, opener,
    printable, segment_mark, start_col, text_cells, upright_sides, CellItem, CellPath, CellRect,
    CellText, Tip,
};
use crate::term::grid::{char_at, empty_grid, inside, put, row_chars, rows_text, sized, Cell};
use crate::term::line::{across, apart, law_line_ends, line_cell, line_len, towards, CellPoint};
use crate::text::trim_end;
use vstd::prelude::*;

verus! {

// ---------------------------------------------------------------------------
// Lines
// ---------------------------------------------------------------------------

/// Whether the cell is at `k` on the line from `a` to `b`.
pub open spec fn at_step(a: CellPoint, b: CellPoint, row: int, col: int, k: int) -> bool {
    0 <= k < line_len(a, b) && line_cell(a, b, k) == (row, col)
}

/// Whether the cell lies on the line from `a` to `b`.
pub open spec fn on_line(a: CellPoint, b: CellPoint, row: int, col: int) -> bool {
    exists|k: int| at_step(a, b, row, col, k)
}

/// Whether the cell lies on the line from the point at `i` of a path to the next.
pub open spec fn on_leg(points: Seq<CellPoint>, i: int, row: int, col: int) -> bool {
    0 <= i && i + 1 < points.len() && on_line(points[i], points[i + 1], row, col)
}

/// Whether `after` has the rows and columns of `g`.
pub open spec fn same_size(g: Seq<Seq<Cell>>, after: Seq<Seq<Cell>>) -> bool {
    after.len() == g.len() && forall|i: int|
        0 <= i < g.len() ==> (#[trigger] after[i]).len() == g[i].len()
}

/// Whether a cell is drawn by the cells from `k` on of a line.
spec fn ahead(a: CellPoint, b: CellPoint, row: int, col: int, k: int) -> bool {
    exists|j: int| k <= j && at_step(a, b, row, col, j)
}

proof fn lemma_solid_segment(
    g: Seq<Seq<Cell>>,
    a: CellPoint,
    b: CellPoint,
    k: int,
    row: int,
    col: int,
)
    requires
        inside(g, row, col),
        0 <= k,
    ensures
        ({
            let (after, draw) = drawn_segment(g, true, a, b, false, k);
            &&& draw
            &&& same_size(g, after)
            &&& after[row][col] == (if ahead(a, b, row, col, k) && !box_border(
                char_at(g, row, col),
            ) {
                Cell::Char(segment_mark(a, b))
            } else {
                g[row][col]
            })
        }),
    decreases line_len(a, b) - k,
{
    if k < line_len(a, b) {
        let (r, c) = line_cell(a, b, k);
        let next = drawn_cell(g, r, c, segment_mark(a, b));
        assert(same_size(g, next));
        lemma_solid_segment(next, a, b, k + 1, row, col);
        if (r, c) == (row, col) {
            assert(at_step(a, b, row, col, k));
        } else {
            assert(next[row][col] == g[row][col]);
            if ahead(a, b, row, col, k) {
                let j = choose|j: int| k <= j && at_step(a, b, row, col, j);
                assert(k + 1 <= j && at_step(a, b, row, col, j));
            }
        }
        if ahead(a, b, row, col, k + 1) {
            let j = choose|j: int| k + 1 <= j && at_step(a, b, row, col, j);
            assert(k <= j && at_step(a, b, row, col, j));
        }
    }
}

/// Whether a cell is drawn by the legs from `i` on: a leg that is not the first one
/// leaves its first cell to the one before.
spec fn legs_ahead(points: Seq<CellPoint>, row: int, col: int, i: int) -> bool {
    exists|j: int| i <= j && #[trigger] leg_draws(points, row, col, j)
}

spec fn leg_draws(points: Seq<CellPoint>, row: int, col: int, j: int) -> bool {
    0 <= j && j + 1 < points.len() && ahead(
        points[j],
        points[j + 1],
        row,
        col,
        if j == 0 {
            0
        } else {
            1
        },
    )
}

proof fn lemma_solid_segments(g: Seq<Seq<Cell>>, points: Seq<CellPoint>, i: int, row: int, col: int)
    requires
        inside(g, row, col),
        0 <= i,
    ensures
        ({
            let after = drawn_segments(g, true, points, false, i);
            &&& same_size(g, after)
            &&& (!legs_ahead(points, row, col, i) || box_border(char_at(g, row, col)))
                ==> after[row][col] == g[row][col]
            &&& legs_ahead(points, row, col, i) && !box_border(char_at(g, row, col)) ==> exists|
                j: int,
            |
                i <= j && #[trigger] leg_draws(points, row, col, j) && after[row][col]
                    == Cell::Char(segment_mark(points[j], points[j + 1]))
        }),
    decreases points.len() - i,
{
    if i + 1 < points.len() {
        let from: int = if i == 0 {
            0
        } else {
            1
        };
        let (next, _) = drawn_segment(g, true, points[i], points[i + 1], false, from);
        lemma_solid_segment(g, points[i], points[i + 1], from, row, col);
        lemma_solid_segments(next, points, i + 1, row, col);
        let after = drawn_segments(g, true, points, false, i);
        if leg_draws(points, row, col, i) {
            assert(legs_ahead(points, row, col, i));
        }
        if legs_ahead(points, row, col, i + 1) {
            let j = choose|j: int| i + 1 <= j && #[trigger] leg_draws(points, row, col, j);
            assert(i <= j && leg_draws(points, row, col, j));
        }
        if legs_ahead(points, row, col, i) && !leg_draws(points, row, col, i) {
            let j = choose|j: int| i <= j && #[trigger] leg_draws(points, row, col, j);
            assert(i + 1 <= j && leg_draws(points, row, col, j));
        }
        if legs_ahead(points, row, col, i) && !box_border(char_at(g, row, col)) {
            if legs_ahead(points, row, col, i + 1) && !box_border(char_at(next, row, col)) {
                let j = choose|j: int|
                    i + 1 <= j && #[trigger] leg_draws(points, row, col, j) && after[row][col]
                        == Cell::Char(segment_mark(points[j], points[j + 1]));
                assert(i <= j && leg_draws(points, row, col, j));
            } else {
                assert(leg_draws(points, row, col, i));
                assert(after[row][col] == Cell::Char(segment_mark(points[i], points[i + 1])));
            }
        }
    }
}

/// A cell on a leg is drawn by that leg or by one before it.
proof fn lemma_leg_drawn(points: Seq<CellPoint>, i: int, row: int, col: int)
    requires
        on_leg(points, i, row, col),
    ensures
        legs_ahead(points, row, col, 0),
    decreases i,
{
    let (a, b) = (points[i], points[i + 1]);
    let k = choose|k: int| at_step(a, b, row, col, k);
    if i == 0 || k >= 1 {
        let from: int = if i == 0 {
            0
        } else {
            1
        };
        assert(from <= k && at_step(a, b, row, col, k));
        assert(leg_draws(points, row, col, i));
    } else {
        law_line_ends(points[i], points[i + 1]);
        law_line_ends(points[i - 1], points[i]);
        assert(at_step(
            points[i - 1],
            points[i],
            row,
            col,
            line_len(points[i - 1], points[i]) - 1,
        ));
        assert(on_line(points[i - 1], points[i], row, col));
        lemma_leg_drawn(points, i - 1, row, col);
    }
}

/// A solid path marks the cells on the lines between its points, each point and the
/// next, and no others. A cell that is part of a box stays as it is; any other one on
/// the path shows the mark of a line that it lies on. A line along a row is marked
/// `─`, and one along a column `│`.
pub proof fn law_path_marks_its_lines(g: Seq<Seq<Cell>>, p: CellPath, row: int, col: int)
    requires
        !p.dashed,
        p.points@.len() >= 2,
        inside(g, row, col),
    ensures
        ({
            let after = drawn_path(g, p);
            &&& same_size(g, after)
            &&& (forall|i: int| !on_leg(p.points@, i, row, col)) ==> after[row][col] == g[row][col]
            &&& box_border(char_at(g, row, col)) ==> after[row][col] == g[row][col]
            &&& (exists|i: int| on_leg(p.points@, i, row, col)) && !box_border(
                char_at(g, row, col),
            ) ==> exists|i: int|
                #![trigger on_leg(p.points@, i, row, col)]
                on_leg(p.points@, i, row, col) && (after[row][col] matches Cell::Char(c) && {
                    let (a, b) = (p.points@[i], p.points@[i + 1]);
                    &&& a.row == b.row && a.col != b.col ==> c == '─'
                    &&& a.row != b.row && a.col == b.col ==> c == '│'
                    &&& a.row == b.row && a.col == b.col ==> c == '·'
                    &&& a.col < b.col && b.col - a.col == b.row - a.row ==> c == '╲'
                    &&& a.col < b.col && b.col - a.col == a.row - b.row ==> c == '╱'
                    &&& a.col > b.col && a.col - b.col == a.row - b.row ==> c == '╲'
                    &&& a.col > b.col && a.col - b.col == b.row - a.row ==> c == '╱'
                })
        }),
{
    let points = p.points@;
    lemma_solid_segments(g, points, 0, row, col);
    if exists|i: int| on_leg(points, i, row, col) {
        let i = choose|i: int| on_leg(points, i, row, col);
        lemma_leg_drawn(points, i, row, col);
    }
    if legs_ahead(points, row, col, 0) {
        let after = drawn_path(g, p);
        let j = if box_border(char_at(g, row, col)) {
            choose|j: int| 0 <= j && #[trigger] leg_draws(points, row, col, j)
        } else {
            choose|j: int|
                0 <= j && #[trigger] leg_draws(points, row, col, j) && after[row][col]
                    == Cell::Char(segment_mark(points[j], points[j + 1]))
        };
        let from: int = if j == 0 {
            0
        } else {
            1
        };
        let (a, b) = (points[j], points[j + 1]);
        let k = choose|k: int| from <= k && at_step(a, b, row, col, k);
        assert(at_step(a, b, row, col, k));
        assert(on_leg(points, j, row, col));
    }
}

/// On an empty grid, a solid path leaves a cell empty exactly if the cell lies on none
/// of its lines.
pub proof fn law_path_on_an_empty_grid(rows: int, cols: int, p: CellPath, row: int, col: int)
    requires
        !p.dashed,
        p.points@.len() >= 2,
        0 <= row < rows,
        0 <= col < cols,
    ensures
        drawn_path(empty_grid(rows, cols), p)[row][col] != Cell::Empty <==> exists|i: int|
            on_leg(p.points@, i, row, col),
{
    law_path_marks_its_lines(empty_grid(rows, cols), p, row, col);
}

/// The distance between two numbers.
pub open spec fn distance(a: int, b: int) -> int {
    if a < b {
        b - a
    } else {
        a - b
    }
}

proof fn lemma_across(long: int, short: int, k: int)
    requires
        0 < long,
        0 <= short * k,
    ensures
        0 <= across(long, short, k),
        2 * short * k - long <= 2 * (long * across(long, short, k)) <= 2 * short * k + long,
{
    let n = 2 * short * k + long;
    let q = across(long, short, k);
    assert(2 * short * k == 2 * (short * k)) by (nonlinear_arith);
    vstd::arithmetic::div_mod::lemma_fundamental_div_mod(n, 2 * long);
    assert((2 * long) * q == 2 * (long * q)) by (nonlinear_arith);
    vstd::arithmetic::div_mod::lemma_mod_bound(n, 2 * long);
    assert(0 <= q) by (nonlinear_arith)
        requires
            0 <= n,
            0 < long,
            q == n / (2 * long),
    ;
}

/// A line is straight: at each step it goes one cell along the way that is longer, and
/// across it stays within half a cell of the line between its ends.
pub proof fn law_line_is_straight(a: CellPoint, b: CellPoint, k: int)
    requires
        0 <= k < line_len(a, b),
    ensures
        ({
            let (row, col) = line_cell(a, b, k);
            let high = distance(a.row as int, b.row as int);
            let wide = distance(a.col as int, b.col as int);
            let down = distance(a.row as int, row);
            let along = distance(a.col as int, col);
            &&& wide >= high ==> along == k && 2 * high * k - wide <= 2 * (wide * down) <= 2 * high
                * k + wide
            &&& wide < high ==> down == k && 2 * wide * k - high <= 2 * (high * along) <= 2 * wide
                * k + high
            &&& a.row <= b.row ==> a.row <= row
            &&& a.row >= b.row ==> row <= a.row
            &&& a.col <= b.col ==> a.col <= col
            &&& a.col >= b.col ==> col <= a.col
        }),
{
    let dr = apart(a.row as int, b.row as int);
    let dc = apart(a.col as int, b.col as int);
    let (r, c) = (towards(a.row as int, b.row as int), towards(a.col as int, b.col as int));
    let (long, short) = if dc >= dr {
        (dc, dr)
    } else {
        (dr, dc)
    };
    let q = across(long, short, k);
    assert(0 <= short * k) by (nonlinear_arith)
        requires
            0 <= short,
            0 <= k,
    ;
    if long > 0 {
        lemma_across(long, short, k);
        if short == 0 {
            assert(2 * short * k == 0) by (nonlinear_arith)
                requires
                    short == 0,
            ;
            assert(q == 0) by (nonlinear_arith)
                requires
                    0 <= q,
                    2 * (long * q) <= long,
                    0 < long,
            ;
        }
    }
    assert(r * k == k || r * k == -k) by (nonlinear_arith)
        requires
            r == 1 || r == -1,
    ;
    assert(c * k == k || c * k == -k) by (nonlinear_arith)
        requires
            c == 1 || c == -1,
    ;
    assert(r * q == q || r * q == -q) by (nonlinear_arith)
        requires
            r == 1 || r == -1,
    ;
    assert(c * q == q || c * q == -q) by (nonlinear_arith)
        requires
            c == 1 || c == -1,
    ;
    assert(r == 1 ==> r * k == k && r * q == q) by (nonlinear_arith);
    assert(r == -1 ==> r * k == -k && r * q == -q) by (nonlinear_arith);
    assert(c == 1 ==> c * k == k && c * q == q) by (nonlinear_arith);
    assert(c == -1 ==> c * k == -k && c * q == -q) by (nonlinear_arith);
}

/// A line is one cell wide: no two of its steps fall on the same cell.
proof fn lemma_steps_differ(a: CellPoint, b: CellPoint, j: int, k: int)
    requires
        0 <= j < line_len(a, b),
        0 <= k < line_len(a, b),
        line_cell(a, b, j) == line_cell(a, b, k),
    ensures
        j == k,
{
    let dr = apart(a.row as int, b.row as int);
    let dc = apart(a.col as int, b.col as int);
    let (r, c) = (towards(a.row as int, b.row as int), towards(a.col as int, b.col as int));
    if dc >= dr {
        assert(c * j == c * k ==> j == k) by (nonlinear_arith)
            requires
                c == 1 || c == -1,
        ;
    } else {
        assert(r * j == r * k ==> j == k) by (nonlinear_arith)
            requires
                r == 1 || r == -1,
        ;
    }
}

proof fn lemma_dashed_segment(
    g: Seq<Seq<Cell>>,
    draw: bool,
    a: CellPoint,
    b: CellPoint,
    k: int,
    n: int,
)
    requires
        0 <= k,
        0 <= n < line_len(a, b),
        inside(g, line_cell(a, b, n).0, line_cell(a, b, n).1),
        draw == (k % 2 == 0),
    ensures
        ({
            let after = drawn_segment(g, draw, a, b, true, k).0;
            let (row, col) = line_cell(a, b, n);
            &&& same_size(g, after)
            &&& after[row][col] == (if k <= n && n % 2 == 0 && !box_border(char_at(g, row, col)) {
                Cell::Char(segment_mark(a, b))
            } else {
                g[row][col]
            })
        }),
    decreases line_len(a, b) - k,
{
    if k < line_len(a, b) {
        let (r, c) = line_cell(a, b, k);
        let (row, col) = line_cell(a, b, n);
        let next = if draw {
            drawn_cell(g, r, c, segment_mark(a, b))
        } else {
            g
        };
        assert(same_size(g, next));
        lemma_dashed_segment(next, !draw, a, b, k + 1, n);
        if (r, c) == (row, col) {
            lemma_steps_differ(a, b, k, n);
        }
    }
}

/// A dashed line between two points marks every other cell, from its first cell on,
/// but for those that are part of a box.
pub proof fn law_dashes_alternate(g: Seq<Seq<Cell>>, p: CellPath, k: int)
    requires
        p.dashed,
        p.points@.len() == 2,
        0 <= k < line_len(p.points@[0], p.points@[1]),
        ({
            let (row, col) = line_cell(p.points@[0], p.points@[1], k);
            inside(g, row, col)
        }),
    ensures
        ({
            let (row, col) = line_cell(p.points@[0], p.points@[1], k);
            let after = drawn_path(g, p);
            &&& k % 2 == 1 ==> after[row][col] == g[row][col]
            &&& box_border(char_at(g, row, col)) ==> after[row][col] == g[row][col]
            &&& k % 2 == 0 && !box_border(char_at(g, row, col)) ==> after[row][col] is Char && (
            after[row][col] == Cell::Char('─') || after[row][col] == Cell::Char('│')
                || after[row][col] == Cell::Char('╱') || after[row][col] == Cell::Char('╲')
                || after[row][col] == Cell::Char('·'))
        }),
{
    let (a, b) = (p.points@[0], p.points@[1]);
    lemma_dashed_segment(g, true, a, b, 0, k);
    reveal_with_fuel(drawn_segments, 2);
}

// ---------------------------------------------------------------------------
// Boxes
// ---------------------------------------------------------------------------

proof fn lemma_level_sides(
    g: Seq<Seq<Cell>>,
    row0: int,
    row1: int,
    from: int,
    to: int,
    row: int,
    col: int,
)
    requires
        inside(g, row, col),
    ensures
        ({
            let after = level_sides(g, row0, row1, from, to);
            &&& same_size(g, after)
            &&& after[row][col] == (if (row == row0 || row == row1) && from <= col < to {
                Cell::Char('─')
            } else {
                g[row][col]
            })
        }),
    decreases to - from,
{
    if from < to {
        lemma_level_sides(g, row0, row1, from, to - 1, row, col);
    }
}

proof fn lemma_upright_sides(
    g: Seq<Seq<Cell>>,
    col0: int,
    col1: int,
    from: int,
    to: int,
    row: int,
    col: int,
)
    requires
        inside(g, row, col),
    ensures
        ({
            let after = upright_sides(g, col0, col1, from, to);
            &&& same_size(g, after)
            &&& after[row][col] == (if (col == col0 || col == col1) && from <= row < to {
                Cell::Char('│')
            } else {
                g[row][col]
            })
        }),
    decreases to - from,
{
    if from < to {
        lemma_upright_sides(g, col0, col1, from, to - 1, row, col);
    }
}

/// A box that lies in the grid shows its four corners where it has them, rounded or
/// not, `─` along its upper and its lower side, `│` along its left and its right side,
/// and changes nothing else.
pub proof fn law_box_shows_its_border(g: Seq<Seq<Cell>>, r: CellRect, row: int, col: int)
    requires
        g.len() > 0,
        sized(g, g.len() as int, g[0].len() as int),
        r.row0 < r.row1 < g.len(),
        r.col0 < r.col1 < g[0].len(),
        inside(g, row, col),
    ensures
        ({
            let cell = drawn_rect(g, r)[row][col];
            let level = r.col0 < col < r.col1;
            let upright = r.row0 < row < r.row1;
            &&& same_size(g, drawn_rect(g, r))
            &&& row == r.row0 && col == r.col0 ==> cell == Cell::Char(
                if r.rounded {
                    '╭'
                } else {
                    '┌'
                },
            )
            &&& row == r.row0 && col == r.col1 ==> cell == Cell::Char(
                if r.rounded {
                    '╮'
                } else {
                    '┐'
                },
            )
            &&& row == r.row1 && col == r.col0 ==> cell == Cell::Char(
                if r.rounded {
                    '╰'
                } else {
                    '└'
                },
            )
            &&& row == r.row1 && col == r.col1 ==> cell == Cell::Char(
                if r.rounded {
                    '╯'
                } else {
                    '┘'
                },
            )
            &&& level && (row == r.row0 || row == r.row1) ==> cell == Cell::Char('─')
            &&& upright && (col == r.col0 || col == r.col1) ==> cell == Cell::Char('│')
            &&& (row < r.row0 || row > r.row1 || col < r.col0 || col > r.col1 || (level && upright))
                ==> cell == g[row][col]
        }),
{
    let (tl, tr, bl, br) = corners(r.rounded);
    let (row0, row1) = (r.row0 as int, r.row1 as int);
    let (col0, col1) = (r.col0 as int, r.col1 as int);
    let g1 = put(g, row0, col0, Cell::Char(tl));
    let g2 = put(g1, row0, col1, Cell::Char(tr));
    let g3 = put(g2, row1, col0, Cell::Char(bl));
    let g4 = put(g3, row1, col1, Cell::Char(br));
    assert(same_size(g, g4));
    lemma_level_sides(g4, row0, row1, col0 + 1, col1, row, col);
    let g5 = level_sides(g4, row0, row1, col0 + 1, col1);
    lemma_upright_sides(g5, col0, col1, row0 + 1, row1, row, col);
}

/// The head of an arrow points where the arrow goes, and is one cell: up and down where
/// it is steep, left and right where it is not. Along the way it goes, it is rounded
/// back, and across it to the nearest cell.
pub proof fn law_head_points_its_way(g: Seq<Seq<Cell>>, t: Tip, row: int, col: int)
    requires
        inside(g, row, col),
    ensures
        ({
            let cell = drawn_head(g, t)[row][col];
            let up = t.steep && t.upward && row == t.row.ceil && col == t.col.nearest;
            let down = t.steep && !t.upward && row == t.row.floor && col == t.col.nearest;
            let left = !t.steep && t.leftward && row == t.row.nearest && col == t.col.ceil;
            let right = !t.steep && !t.leftward && row == t.row.nearest && col == t.col.floor;
            &&& same_size(g, drawn_head(g, t))
            &&& up ==> cell == Cell::Char('▲')
            &&& down ==> cell == Cell::Char('▼')
            &&& left ==> cell == Cell::Char('◀')
            &&& right ==> cell == Cell::Char('▶')
            &&& !up && !down && !left && !right ==> cell == g[row][col]
        }),
{
}

// ---------------------------------------------------------------------------
// Texts
// ---------------------------------------------------------------------------

/// Whether every character of a text takes one cell.
pub open spec fn narrow(s: Seq<char>) -> bool {
    forall|i: int| 0 <= i < s.len() ==> char_cells(#[trigger] s[i]) == 1
}

proof fn lemma_narrow_cells(s: Seq<char>, n: int)
    requires
        narrow(s),
        0 <= n <= s.len(),
    ensures
        text_cells(s, n) == n,
    decreases n,
{
    if n > 0 {
        lemma_narrow_cells(s, n - 1);
    }
}

proof fn lemma_put(g: Seq<Seq<Cell>>, row: int, col: int, cell: Cell, r: int, c: int)
    requires
        inside(g, r, c),
    ensures
        same_size(g, put(g, row, col, cell)),
        put(g, row, col, cell)[r][c] == (if r == row && c == col {
            cell
        } else {
            g[r][c]
        }),
{
}

proof fn lemma_narrow_chars(
    g: Seq<Seq<Cell>>,
    row: int,
    cols: int,
    start: int,
    s: Seq<char>,
    i: int,
    r: int,
    col: int,
)
    requires
        narrow(s),
        0 <= i <= s.len(),
        0 <= row < g.len(),
        g[row].len() == cols,
        inside(g, r, col),
    ensures
        ({
            let after = drawn_chars(g, row, cols, start + i, s, i);
            &&& same_size(g, after)
            &&& after[r][col] == (if r == row && start + i <= col < start + s.len() {
                Cell::Char(s[col - start])
            } else {
                g[r][col]
            })
        }),
    decreases s.len() - i,
{
    if i < s.len() {
        let next = drawn_char(g, row, start + i, s[i], 1);
        assert(char_cells(s[i]) == 1);
        lemma_put(g, row, start + i, Cell::Char(s[i]), r, col);
        if start + i + 1 < cols {
            lemma_narrow_chars(next, row, cols, start, s, i + 1, r, col);
        }
    }
}

/// A text whose characters take one cell each shows them side by side in its row, in
/// their order, as far as they are in the grid, and changes nothing else. It begins at
/// its column, ends before it, or has it in its middle.
pub proof fn law_text_shows_its_characters(g: Seq<Seq<Cell>>, t: CellText, row: int, col: int)
    requires
        g.len() > 0,
        sized(g, g.len() as int, g[0].len() as int),
        inside(g, row, col),
        forall|i: int| 0 <= i < t.content@.len() ==> !opener(t.content@[i]),
    ensures
        narrow(t.content@) ==> ({
            let n = t.content@.len() as int;
            let start = match t.align {
                TextAlign::Start => t.col as int,
                TextAlign::Middle => t.col - n / 2,
                TextAlign::End => t.col - n,
            };
            &&& same_size(g, drawn_text(g, t))
            &&& row == t.row && start <= col < start + n ==> drawn_text(g, t)[row][col]
                == Cell::Char(t.content@[col - start])
            &&& row != t.row || col < start || col >= start + n ==> drawn_text(g, t)[row][col]
                == g[row][col]
        }),
{
    if narrow(t.content@) {
        let s = printable(t.content@);
        assert(s =~= t.content@);
        let n = s.len() as int;
        lemma_narrow_cells(s, n);
        if 0 <= t.row < g.len() {
            let start = start_col(t.col as int, t.align, n);
            lemma_narrow_chars(g, t.row as int, g[0].len() as int, start, s, 0, row, col);
        }
    }
}

/// A row without wide characters is written cell by cell: what each holds, and a space
/// where it is empty.
pub proof fn law_row_shows_its_cells(row: Seq<Cell>, n: int)
    requires
        0 <= n <= row.len(),
        forall|i: int| 0 <= i < row.len() ==> !(#[trigger] row[i] is Wide),
    ensures
        row_chars(row, n).len() == n,
        forall|i: int|
            0 <= i < n ==> #[trigger] row_chars(row, n)[i] == (match row[i] {
                Cell::Char(c) => c,
                _ => ' ',
            }),
    decreases n,
{
    if n > 0 {
        law_row_shows_its_cells(row, n - 1);
        assert(!(row[n - 1] is Wide));
    }
}

/// What stands before the row at `i` of a grid is the text of the rows above it, and
/// what follows it is the rest, so that the rows stand in their order.
pub proof fn law_rows_are_in_order(g: Seq<Seq<Cell>>, i: int, n: int)
    requires
        0 <= i < n <= g.len(),
    ensures
        starts(
            rows_text(g, n),
            rows_text(g, i) + trim_end(row_chars(g[i], g[i].len() as int)) + seq!['\n'],
        ),
    decreases n - i,
{
    reveal_strlit("\n");
    assert("\n"@ =~= seq!['\n']);
    let line = trim_end(row_chars(g[n - 1], g[n - 1].len() as int));
    if i == n - 1 {
        lemma_starts_self(rows_text(g, n), Seq::empty());
    } else {
        law_rows_are_in_order(g, i, n - 1);
        let above = rows_text(g, n - 1);
        let upto = rows_text(g, i) + trim_end(row_chars(g[i], g[i].len() as int)) + seq!['\n'];
        lemma_starts_more_of(above, upto, line);
        lemma_starts_more_of(above + line, upto, "\n"@);
    }
}

// ---------------------------------------------------------------------------
// Scenes
// ---------------------------------------------------------------------------

/// A scene of one text is drawn as that text alone; of one box, path or head, as that
/// alone. Texts are drawn over everything else, whatever stands first.
pub proof fn law_texts_are_on_top(g: Seq<Seq<Cell>>, t: CellText, r: CellRect)
    ensures
        ({
            let text = CellItem::Text(t);
            let rect = CellItem::Rect(r);
            let drawn = drawn_text(drawn_rect(g, r), t);
            &&& drawn_items(drawn_items(g, seq![text, rect], 2, false), seq![text, rect], 2, true)
                == drawn
            &&& drawn_items(drawn_items(g, seq![rect, text], 2, false), seq![rect, text], 2, true)
                == drawn
        }),
{
    let text = CellItem::Text(t);
    let rect = CellItem::Rect(r);
    let (x, y) = (seq![text, rect], seq![rect, text]);
    assert(x[0] == text && x[1] == rect && y[0] == rect && y[1] == text);
    reveal_with_fuel(drawn_items, 3);
}

} // verus!
