//! A grid of character cells.
use crate::text::{push_chars, trim_end, trim_end_of};
use vstd::prelude::*;

verus! {

/// A cell.
///
/// A wide character takes two cells: it stands in the left one, and the right
/// one is marked.
#[derive(Debug, Clone, Copy, PartialEq, Eq, Structural)]
pub enum Cell {
    /// A character.
    Char(char),
    /// The right half of a wide character.
    Wide,
    /// Nothing.
    Empty,
}

/// The character that is written for a cell.
pub open spec fn shown(c: Cell) -> Option<char> {
    match c {
        Cell::Char(ch) => Some(ch),
        Cell::Wide => None,
        Cell::Empty => Some(' '),
    }
}

/// The character in a cell, or a space.
pub open spec fn held(c: Cell) -> char {
    match c {
        Cell::Char(ch) => ch,
        Cell::Wide => ' ',
        Cell::Empty => ' ',
    }
}

impl Cell {
    /// The character that is written for the cell.
    pub fn output_char(self) -> (r: Option<char>)
        ensures
            r == shown(self),
    {
        match self {
            Cell::Char(c) => Some(c),
            Cell::Wide => None,
            Cell::Empty => Some(' '),
        }
    }

    /// The character in the cell, or a space.
    pub fn char_or_space(self) -> (r: char)
        ensures
            r == held(self),
    {
        match self {
            Cell::Char(c) => c,
            Cell::Wide => ' ',
            Cell::Empty => ' ',
        }
    }
}

/// Whether `row` and `col` are in the grid.
pub open spec fn inside(g: Seq<Seq<Cell>>, row: int, col: int) -> bool {
    0 <= row < g.len() && 0 <= col < g[row].len()
}

/// The grid with `cell` at `row` and `col`. Outside the grid nothing changes.
pub open spec fn put(g: Seq<Seq<Cell>>, row: int, col: int, cell: Cell) -> Seq<Seq<Cell>> {
    if inside(g, row, col) {
        g.update(row, g[row].update(col, cell))
    } else {
        g
    }
}

/// The character at `row` and `col`; outside the grid, a space.
pub open spec fn char_at(g: Seq<Seq<Cell>>, row: int, col: int) -> char {
    if inside(g, row, col) {
        held(g[row][col])
    } else {
        ' '
    }
}

/// Whether the grid has `rows` rows of `cols` cells.
pub open spec fn sized(g: Seq<Seq<Cell>>, rows: int, cols: int) -> bool {
    g.len() == rows && forall|i: int| 0 <= i < rows ==> (#[trigger] g[i]).len() == cols
}

/// An empty grid.
pub open spec fn empty_grid(rows: int, cols: int) -> Seq<Seq<Cell>> {
    Seq::new(rows as nat, |i: int| Seq::new(cols as nat, |j: int| Cell::Empty))
}

/// A grid of cells.
pub struct Grid {
    cells: Vec<Vec<Cell>>,
    rows: usize,
    cols: usize,
}

impl View for Grid {
    type V = Seq<Seq<Cell>>;

    closed spec fn view(&self) -> Seq<Seq<Cell>> {
        Seq::new(self.cells@.len(), |i: int| self.cells@[i]@)
    }
}

impl Grid {
    /// The number of rows.
    pub closed spec fn height(&self) -> usize {
        self.rows
    }

    /// The number of columns.
    pub closed spec fn width(&self) -> usize {
        self.cols
    }

    /// All rows have the same number of cells.
    pub open spec fn wf(&self) -> bool {
        sized(self@, self.height() as int, self.width() as int)
    }

    /// An empty grid.
    pub fn new(rows: usize, cols: usize) -> (r: Self)
        ensures
            r.wf(),
            r.height() == rows,
            r.width() == cols,
            r@ == empty_grid(rows as int, cols as int),
    {
        let mut cells: Vec<Vec<Cell>> = Vec::new();
        let mut i: usize = 0;
        while i < rows
            invariant
                i <= rows,
                cells@.len() == i,
                forall|k: int|
                    0 <= k < i ==> (#[trigger] cells@[k])@ == Seq::new(
                        cols as nat,
                        |j: int| Cell::Empty,
                    ),
            decreases rows - i,
        {
            let mut row: Vec<Cell> = Vec::new();
            let mut j: usize = 0;
            while j < cols
                invariant
                    j <= cols,
                    row@.len() == j,
                    forall|k: int| 0 <= k < j ==> row@[k] == Cell::Empty,
                decreases cols - j,
            {
                row.push(Cell::Empty);
                j = j + 1;
            }
            assert(row@ =~= Seq::new(cols as nat, |j: int| Cell::Empty));
            cells.push(row);
            i = i + 1;
        }
        let r = Grid { cells, rows, cols };
        assert(r@ =~= empty_grid(rows as int, cols as int));
        r
    }

    /// Puts `cell` at `row` and `col`, if they are in the grid.
    pub fn put(&mut self, row: usize, col: usize, cell: Cell)
        requires
            old(self).wf(),
        ensures
            final(self).wf(),
            final(self).height() == old(self).height(),
            final(self).width() == old(self).width(),
            final(self)@ == put(old(self)@, row as int, col as int, cell),
    {
        let ghost before = self@;
        if row < self.rows && col < self.cols {
            assert(before[row as int].len() == self.cols);
            let line = &mut self.cells[row];
            line.set(col, cell);
            assert(self@ =~= put(before, row as int, col as int, cell));
        }
    }

    /// Puts the character `ch` at `row` and `col`, if they are in the grid.
    pub fn set(&mut self, row: usize, col: usize, ch: char)
        requires
            old(self).wf(),
        ensures
            final(self).wf(),
            final(self).height() == old(self).height(),
            final(self).width() == old(self).width(),
            final(self)@ == put(old(self)@, row as int, col as int, Cell::Char(ch)),
    {
        self.put(row, col, Cell::Char(ch));
    }

    /// Puts the character `ch` at `row` and `col`, if they are in the grid.
    pub fn set_i(&mut self, row: i64, col: i64, ch: char)
        requires
            old(self).wf(),
        ensures
            final(self).wf(),
            final(self).height() == old(self).height(),
            final(self).width() == old(self).width(),
            final(self)@ == put(old(self)@, row as int, col as int, Cell::Char(ch)),
    {
        if row >= 0 && col >= 0 && (row as u128) < self.rows as u128 && (col as u128)
            < self.cols as u128 {
            self.put(row as usize, col as usize, Cell::Char(ch));
        } else {
            assert(!inside(self@, row as int, col as int));
        }
    }

    /// The character at `row` and `col`; outside the grid, a space.
    pub fn get_i(&self, row: i64, col: i64) -> (r: char)
        requires
            self.wf(),
        ensures
            r == char_at(self@, row as int, col as int),
    {
        if row >= 0 && col >= 0 && (row as u128) < self.rows as u128 && (col as u128)
            < self.cols as u128 {
            assert(self@[row as int].len() == self.cols);
            let line = &self.cells[row as usize];
            line[col as usize].char_or_space()
        } else {
            assert(!inside(self@, row as int, col as int));
            ' '
        }
    }

    /// The number of rows.
    pub fn rows(&self) -> (r: usize)
        ensures
            r == self.height(),
    {
        self.rows
    }

    /// The number of columns.
    pub fn cols(&self) -> (r: usize)
        ensures
            r == self.width(),
    {
        self.cols
    }
}

// ---------------------------------------------------------------------------
// Writing the grid
// ---------------------------------------------------------------------------

/// The characters that are written for the first `n` cells of a row. Nothing is
/// written for the right half of a wide character.
pub open spec fn row_chars(row: Seq<Cell>, n: int) -> Seq<char>
    decreases n,
{
    if n <= 0 {
        Seq::empty()
    } else {
        match shown(row[n - 1]) {
            Some(c) => row_chars(row, n - 1).push(c),
            None => row_chars(row, n - 1),
        }
    }
}

/// The first `n` rows, each without the spaces at its end and ended by a line
/// break.
pub open spec fn rows_text(g: Seq<Seq<Cell>>, n: int) -> Seq<char>
    decreases n,
{
    if n <= 0 {
        Seq::empty()
    } else {
        rows_text(g, n - 1) + trim_end(row_chars(g[n - 1], g[n - 1].len() as int)) + "\n"@
    }
}

impl Grid {
    fn line(&self, row: usize) -> (r: Vec<char>)
        requires
            self.wf(),
            row < self.height(),
        ensures
            r@ == row_chars(self@[row as int], self@[row as int].len() as int),
    {
        let ghost all = self@[row as int];
        let cells = &self.cells[row];
        let mut out: Vec<char> = Vec::new();
        let mut j: usize = 0;
        while j < cells.len()
            invariant
                j <= cells@.len(),
                all == cells@,
                out@ == row_chars(all, j as int),
            decreases cells@.len() - j,
        {
            match cells[j].output_char() {
                Some(c) => {
                    out.push(c);
                },
                None => {},
            }
            j = j + 1;
        }
        out
    }

    /// The grid as text.
    pub fn text(&self) -> (r: String)
        requires
            self.wf(),
        ensures
            r@ == rows_text(self@, self@.len() as int),
    {
        let mut out = String::new();
        let mut i: usize = 0;
        while i < self.rows
            invariant
                i <= self.rows,
                self.wf(),
                out@ == rows_text(self@, i as int),
            decreases self.rows - i,
        {
            let line = self.line(i);
            push_chars(&mut out, trim_end_of(line.as_slice()));
            out.append("\n");
            i = i + 1;
        }
        out
    }
}

} // verus!
