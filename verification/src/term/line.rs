//! The cells on a straight line.
use vstd::arithmetic::div_mod::lemma_fundamental_div_mod_converse;
use vstd::prelude::*;

verus! {

/// A cell of a grid, which may lie outside it.
#[derive(Debug, Clone, Copy, PartialEq, Eq, Structural)]
pub struct CellPoint {
    /// The row.
    pub row: i64,
    /// The column.
    pub col: i64,
}

/// The distance between two numbers.
pub open spec fn apart(a: int, b: int) -> int {
    if b > a {
        b - a
    } else {
        a - b
    }
}

/// The direction from one number to another.
pub open spec fn towards(a: int, b: int) -> int {
    if b > a {
        1
    } else {
        -1
    }
}

/// How far a line that goes `short` across while it goes `long` along is across
/// after `k` steps along: rounded to the nearest cell, and away from the start
/// where two are equally near.
pub open spec fn across(long: int, short: int, k: int) -> int {
    if long == 0 {
        0
    } else {
        (2 * short * k + long) / (2 * long)
    }
}

/// How many cells are on the line from `a` to `b`.
pub open spec fn line_len(a: CellPoint, b: CellPoint) -> int {
    let dr = apart(a.row as int, b.row as int);
    let dc = apart(a.col as int, b.col as int);
    if dc >= dr {
        dc + 1
    } else {
        dr + 1
    }
}

/// The row and the column of the cell at `k` on the line from `a` to `b`. A line
/// that is at least as wide as it is high has one cell in each column, another
/// one has one cell in each row.
pub open spec fn line_cell(a: CellPoint, b: CellPoint, k: int) -> (int, int) {
    let dr = apart(a.row as int, b.row as int);
    let dc = apart(a.col as int, b.col as int);
    let sr = towards(a.row as int, b.row as int);
    let sc = towards(a.col as int, b.col as int);
    if dc >= dr {
        (a.row + sr * across(dc, dr, k), a.col + sc * k)
    } else {
        (a.row + sr * k, a.col + sc * across(dr, dc, k))
    }
}

/// A step along: the cell across changes by at most one, and stays on the line.
proof fn lemma_across(long: int, short: int, k: int)
    requires
        0 <= short <= long,
        0 <= k <= long,
        0 < long,
    ensures
        0 <= across(long, short, k) <= short,
        2 * long * across(long, short, k) <= 2 * short * k + long,
        2 * short * k + long < 2 * long * (across(long, short, k) + 1),
{
    let d = 2 * long;
    let x = 2 * short * k + long;
    assert(0 <= short * k) by (nonlinear_arith)
        requires
            0 <= short,
            0 <= k,
    ;
    assert(2 * short * k == 2 * (short * k)) by (nonlinear_arith);
    vstd::arithmetic::div_mod::lemma_fundamental_div_mod(x, d);
    let q = x / d;
    assert(d * (q + 1) == d * q + d) by (nonlinear_arith);
    assert(0 <= q) by (nonlinear_arith)
        requires
            x == d * q + x % d,
            0 <= x,
            x % d < d,
            0 < d,
    ;
    assert(short * k <= short * long) by (nonlinear_arith)
        requires
            0 <= short,
            k <= long,
    ;
    assert(q <= short) by (nonlinear_arith)
        requires
            d * q <= x,
            x == 2 * (short * k) + long,
            short * k <= short * long,
            d == 2 * long,
            0 < long,
    ;
}

/// Where the line is across follows from the two bounds.
proof fn lemma_across_unique(long: int, short: int, k: int, m: int)
    requires
        0 < long,
        2 * long * m <= 2 * short * k + long < 2 * long * (m + 1),
    ensures
        across(long, short, k) == m,
{
    let d = 2 * long;
    let x = 2 * short * k + long;
    let r = x - d * m;
    assert(d * (m + 1) == d * m + d) by (nonlinear_arith);
    assert(m * d == d * m) by (nonlinear_arith);
    lemma_fundamental_div_mod_converse(x, d, m, r);
}

/// The line begins at its first point and ends at its last one.
pub proof fn law_line_ends(a: CellPoint, b: CellPoint)
    ensures
        line_len(a, b) >= 1,
        line_cell(a, b, 0) == (a.row as int, a.col as int),
        line_cell(a, b, line_len(a, b) - 1) == (b.row as int, b.col as int),
{
    let dr = apart(a.row as int, b.row as int);
    let dc = apart(a.col as int, b.col as int);
    let (long, short) = if dc >= dr {
        (dc, dr)
    } else {
        (dr, dc)
    };
    if long > 0 {
        assert(2 * long * 0 == 0 && 2 * short * 0 == 0 && 2 * long * (0 + 1) == 2 * long) by (nonlinear_arith);
        lemma_across_unique(long, short, 0, 0);
        assert(2 * long * short == 2 * short * long && 2 * long * (short + 1) == 2 * short * long + 2 * long) by (nonlinear_arith);
        lemma_across_unique(long, short, long, short);
    }
    assert(towards(a.row as int, b.row as int) * dr == b.row - a.row) by (nonlinear_arith)
        requires
            dr == apart(a.row as int, b.row as int),
    ;
    assert(towards(a.col as int, b.col as int) * dc == b.col - a.col) by (nonlinear_arith)
        requires
            dc == apart(a.col as int, b.col as int),
    ;
    assert(towards(a.row as int, b.row as int) * 0 == 0) by (nonlinear_arith);
    assert(towards(a.col as int, b.col as int) * 0 == 0) by (nonlinear_arith);
}

/// Neighbours on a line touch: neither the rows nor the columns of two cells in
/// turn are more than one apart, and the cells differ.
pub proof fn law_line_has_no_gaps(a: CellPoint, b: CellPoint, k: int)
    requires
        0 <= k,
        k + 1 < line_len(a, b),
    ensures
        apart(line_cell(a, b, k).0, line_cell(a, b, k + 1).0) <= 1,
        apart(line_cell(a, b, k).1, line_cell(a, b, k + 1).1) <= 1,
        line_cell(a, b, k) != line_cell(a, b, k + 1),
{
    let dr = apart(a.row as int, b.row as int);
    let dc = apart(a.col as int, b.col as int);
    let (long, short) = if dc >= dr {
        (dc, dr)
    } else {
        (dr, dc)
    };
    lemma_across(long, short, k);
    lemma_across(long, short, k + 1);
    let p = across(long, short, k);
    let q = across(long, short, k + 1);
    assert(q == p || q == p + 1) by (nonlinear_arith)
        requires
            2 * long * p <= 2 * short * k + long,
            2 * short * k + long < 2 * long * (p + 1),
            2 * long * q <= 2 * short * (k + 1) + long,
            2 * short * (k + 1) + long < 2 * long * (q + 1),
            0 <= short <= long,
            0 < long,
    ;
    let sr = towards(a.row as int, b.row as int);
    let sc = towards(a.col as int, b.col as int);
    assert(sr * (p + 1) == sr * p + sr && sr * (k + 1) == sr * k + sr) by (nonlinear_arith);
    assert(sc * (p + 1) == sc * p + sc && sc * (k + 1) == sc * k + sc) by (nonlinear_arith);
}

/// The cells on a line that is `long` along and `short` across.
fn walk(a: CellPoint, b: CellPoint, flat: bool) -> (r: Vec<CellPoint>)
    requires
        flat == (apart(a.col as int, b.col as int) >= apart(a.row as int, b.row as int)),
    ensures
        r@.len() == line_len(a, b),
        forall|k: int|
            0 <= k < r@.len() ==> ((#[trigger] r@[k]).row as int, r@[k].col as int) == line_cell(
                a,
                b,
                k,
            ),
{
    let (a0, a1, b0, b1): (i128, i128, i128, i128) = if flat {
        (a.col as i128, b.col as i128, a.row as i128, b.row as i128)
    } else {
        (a.row as i128, b.row as i128, a.col as i128, b.col as i128)
    };
    let long: i128 = if a1 > a0 {
        a1 - a0
    } else {
        a0 - a1
    };
    let short: i128 = if b1 > b0 {
        b1 - b0
    } else {
        b0 - b1
    };
    let step_long: i128 = if a1 > a0 {
        1
    } else {
        -1
    };
    let step_short: i128 = if b1 > b0 {
        1
    } else {
        -1
    };
    let mut out: Vec<CellPoint> = Vec::new();
    if long == 0 {
        out.push(a);
        proof {
            assert(towards(a.row as int, b.row as int) * 0 == 0) by (nonlinear_arith);
            assert(towards(a.col as int, b.col as int) * 0 == 0) by (nonlinear_arith);
        }
        return out;
    }
    let mut err: i128 = 2 * short - long;
    let mut k: i128 = 0;
    let mut x: i128 = a0;
    let mut y: i128 = b0;
    let ghost mut m: int = 0;
    while k <= long
        invariant
            flat == (apart(a.col as int, b.col as int) >= apart(a.row as int, b.row as int)),
            a0 == (if flat {
                a.col
            } else {
                a.row
            }),
            b0 == (if flat {
                a.row
            } else {
                a.col
            }),
            a1 == (if flat {
                b.col
            } else {
                b.row
            }),
            b1 == (if flat {
                b.row
            } else {
                b.col
            }),
            long == apart(a0 as int, a1 as int),
            short == apart(b0 as int, b1 as int),
            step_long == towards(a0 as int, a1 as int),
            step_short == towards(b0 as int, b1 as int),
            0 <= short <= long,
            0 < long < 0x1_0000_0000_0000_0000,
            0 <= k <= long + 1,
            0 <= m <= k,
            x == a0 + step_long * k,
            y == b0 + step_short * m,
            err == 2 * (short * (k + 1)) - long - 2 * (long * m),
            2 * (long * m) <= 2 * (short * k) + long,
            2 * (short * k) + long < 2 * (long * m) + 2 * long,
            out@.len() == k,
            forall|j: int|
                0 <= j < k ==> ((#[trigger] out@[j]).row as int, out@[j].col as int) == line_cell(
                    a,
                    b,
                    j,
                ),
        decreases long + 1 - k,
    {
        proof {
            assert(2 * long * m == 2 * (long * m) && 2 * short * k == 2 * (short * k) && 2 * long * (
            m + 1) == 2 * (long * m) + 2 * long) by (nonlinear_arith);
            lemma_across_unique(long as int, short as int, k as int, m);
            lemma_across(long as int, short as int, k as int);
            assert(step_long * k == k || step_long * k == -k) by (nonlinear_arith)
                requires
                    step_long == 1 || step_long == -1,
            ;
            assert(step_short * m == m || step_short * m == -m) by (nonlinear_arith)
                requires
                    step_short == 1 || step_short == -1,
            ;
            assert(step_long == 1 ==> step_long * k == k) by (nonlinear_arith);
            assert(step_long == -1 ==> step_long * k == -k) by (nonlinear_arith);
            assert(step_short == 1 ==> step_short * m == m) by (nonlinear_arith);
            assert(step_short == -1 ==> step_short * m == -m) by (nonlinear_arith);
        }
        if flat {
            out.push(CellPoint { row: y as i64, col: x as i64 });
        } else {
            out.push(CellPoint { row: x as i64, col: y as i64 });
        }
        proof {
            assert(short * (k + 1) == short * k + short && short * (k + 2) == short * k + 2
                * short) by (nonlinear_arith);
            assert(long * (m + 1) == long * m + long) by (nonlinear_arith);
            assert(step_long * (k + 1) == step_long * k + step_long) by (nonlinear_arith);
            assert(step_short * (m + 1) == step_short * m + step_short) by (nonlinear_arith);
            assert(0 <= short * k) by (nonlinear_arith)
                requires
                    0 <= short,
                    0 <= k,
            ;
        }
        if err >= 0 {
            y = y + step_short;
            err = err - 2 * long;
            proof {
                m = m + 1;
            }
        }
        err = err + 2 * short;
        x = x + step_long;
        k = k + 1;
    }
    out
}

/// The cells on the line from `a` to `b`, both of them included.
pub fn bresenham_cells(a: CellPoint, b: CellPoint) -> (r: Vec<CellPoint>)
    ensures
        r@.len() == line_len(a, b),
        forall|k: int|
            0 <= k < r@.len() ==> ((#[trigger] r@[k]).row as int, r@[k].col as int) == line_cell(
                a,
                b,
                k,
            ),
{
    let dr: i128 = if b.row > a.row {
        b.row as i128 - a.row as i128
    } else {
        a.row as i128 - b.row as i128
    };
    let dc: i128 = if b.col > a.col {
        b.col as i128 - a.col as i128
    } else {
        a.col as i128 - b.col as i128
    };
    walk(a, b, dc >= dr)
}

} // verus!
