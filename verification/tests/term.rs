use kozue::svg::TextAlign;
use kozue::term::line::{bresenham_cells, CellPoint};
use kozue::term::{
    is_box_border, render, segment_char, width_or_one, CellGroup, CellItem, CellPath, CellRect,
    CellScene, CellText, Rounded, Tip,
};
use unicode_width::UnicodeWidthChar;

fn scene(cols: usize, rows: usize, items: Vec<CellItem>) -> CellScene {
    CellScene { rows, cols, items }
}

fn rect(col0: usize, row0: usize, col1: usize, row1: usize) -> CellItem {
    CellItem::Rect(CellRect { col0, row0, col1, row1, rounded: false })
}

fn text(row: i64, col: i64, align: TextAlign, content: &str) -> CellItem {
    CellItem::Text(CellText { row, col, align, content: content.to_string() })
}

fn path(points: &[(i64, i64)], dashed: bool) -> CellItem {
    CellItem::Path(CellPath {
        points: points.iter().map(|&(row, col)| CellPoint { row, col }).collect(),
        dashed,
    })
}

fn exactly(v: i64) -> Rounded {
    Rounded { floor: v, nearest: v, ceil: v }
}

#[test]
fn empty_scene_no_panic() {
    let out = render(&scene(0, 0, vec![]));
    // Must not panic, and must be a valid string.
    assert!(out.ends_with('\n') || out.is_empty());
    assert_eq!(out, "\n");
}

#[test]
fn determinism() {
    // 80 x 32 px: a box from (10, 10) to (70, 22), and a label around (40, 18).
    let make = || scene(10, 2, vec![rect(1, 0, 8, 1), text(0, 5, TextAlign::Middle, "Hello")]);
    let out1 = render(&make());
    let out2 = render(&make());
    assert_eq!(out1, out2, "render must be deterministic");
}

#[test]
fn wide_char_placement() {
    // "あ" has display width 2.
    let out = render(&scene(8, 2, vec![text(0, 0, TextAlign::Start, "あ")]));
    // Baseline y=16 with size 12 → visual centre 11.8px → row 0.
    let row0 = out.lines().next().unwrap_or("");
    assert!(row0.contains('あ'), "wide char should be placed: {out:?}");
}

/// The rendered line containing a wide char must have display width equal
/// to the number of logical grid columns, not +1 due to an explicit space.
#[test]
fn wide_char_display_width_equals_logical_cols() {
    // Grid: 8 cols, 2 rows.  Place "あ" (width 2) at col 0.
    let out = render(&scene(8, 2, vec![text(0, 0, TextAlign::Start, "あ")]));
    // Find the row that contains 'あ'.
    let row = out
        .lines()
        .find(|l| l.contains('あ'))
        .expect("should have あ");
    let display_w: usize = row
        .chars()
        .map(|c| UnicodeWidthChar::width(c).unwrap_or(1))
        .sum();
    // After trimming trailing spaces the line is just "あ" with display width 2.
    assert_eq!(
        display_w, 2,
        "display width of line with wide char must equal logical cell count: {row:?}"
    );
}

#[test]
fn path_arrowhead_down() {
    // Tip is BELOW the base: arrow points DOWN.
    let tip = Tip {
        steep: true,
        upward: false,
        leftward: false,
        row: exactly(2),
        col: exactly(2),
    };
    let out = render(&scene(4, 3, vec![CellItem::Arrowhead(Some(tip))]));
    assert!(
        out.contains('▼'),
        "down-pointing arrowhead expected: {out:?}"
    );
}

#[test]
fn rect_draws_box() {
    // 80 x 64 px: a box of 80 x 48 px.
    let out = render(&scene(10, 4, vec![rect(0, 0, 10, 3)]));
    assert!(out.contains('┌'), "top-left corner expected: {out:?}");
    assert!(out.contains('┐'), "top-right corner expected: {out:?}");
    assert!(out.contains('└'), "bottom-left corner expected: {out:?}");
    assert!(out.contains('┘'), "bottom-right corner expected: {out:?}");
    assert_eq!(
        out,
        "┌────────┐\n│        │\n│        │\n└────────┘\n"
    );
}

#[test]
fn dashed_path_differs_from_solid() {
    let solid = render(&scene(12, 2, vec![path(&[(0, 0), (0, 10)], false)]));
    let dashed = render(&scene(12, 2, vec![path(&[(0, 0), (0, 10)], true)]));
    // Dashed should have fewer non-space chars on that row.
    let count_solid = solid
        .lines()
        .next()
        .unwrap_or("")
        .chars()
        .filter(|&c| c != ' ')
        .count();
    let count_dashed = dashed
        .lines()
        .next()
        .unwrap_or("")
        .chars()
        .filter(|&c| c != ' ')
        .count();
    assert!(
        count_dashed < count_solid,
        "dashed path should have fewer drawn cells: solid={count_solid}, dashed={count_dashed}"
    );
    assert_eq!((count_solid, count_dashed), (11, 6));
}

/// Compute (display_col, char) pairs for every character in a line.
fn display_col_chars(line: &str) -> Vec<(usize, char)> {
    let mut pairs = Vec::new();
    let mut col = 0usize;
    for ch in line.chars() {
        pairs.push((col, ch));
        col += UnicodeWidthChar::width(ch).unwrap_or(1);
    }
    pairs
}

/// Returns the set of display columns where `ch` appears in `line`.
fn cols_of(line: &str, ch: char) -> Vec<usize> {
    display_col_chars(line)
        .into_iter()
        .filter(|&(_, c)| c == ch)
        .map(|(col, _)| col)
        .collect()
}

/// For a rendered text, every *box* must have its vertical borders aligned in
/// display-column space. Lines between boxes are no borders.
fn assert_borders_aligned(label: &str, text: &str) {
    let lines: Vec<&str> = text.lines().collect();

    // Find top edges: pairs of (┌ at col L, ┐ at col R) on the same row.
    // A row may contain multiple boxes.
    let mut boxes: Vec<(usize, usize, usize)> = Vec::new(); // (top_row, left_col, right_col)

    for (row_idx, line) in lines.iter().enumerate() {
        let lefts = cols_of(line, '┌');
        let rights = cols_of(line, '┐');
        // Pair each ┌ with the nearest ┐ to its right.
        for &l in &lefts {
            if let Some(&r) = rights.iter().find(|&&r| r > l) {
                boxes.push((row_idx, l, r));
            }
        }
    }

    // For each box, verify its sides.
    for (top_row, left_col, right_col) in boxes {
        // Find the bottom row: scan downward for └ at left_col and ┘ at right_col.
        let bottom_row = (top_row + 1..lines.len()).find(|&r| {
            cols_of(lines[r], '└').contains(&left_col)
                && cols_of(lines[r], '┘').contains(&right_col)
        });

        let bottom_row = match bottom_row {
            Some(r) => r,
            None => continue, // no matching bottom found (partial render), skip
        };

        // Verify that interior rows have │ at left_col and right_col.
        // (The top and bottom rows have ┌/┐ and └/┘ respectively.)
        for (interior_row, line) in lines.iter().enumerate().take(bottom_row).skip(top_row + 1) {
            let pipe_cols: Vec<usize> = cols_of(line, '│');
            assert!(
                pipe_cols.contains(&left_col),
                "{label}: box [{top_row}:{left_col}..{right_col}]: interior row {interior_row} \
                 missing │ at left col {left_col}\n  line: {line:?}"
            );
            assert!(
                pipe_cols.contains(&right_col),
                "{label}: box [{top_row}:{left_col}..{right_col}]: interior row {interior_row} \
                 missing │ at right col {right_col}\n  line: {line:?}"
            );
        }
    }
}

/// A minimal wide-char box, to confirm that a wide character does not push the
/// borders behind it.
#[test]
fn border_alignment_wide_char_box() {
    // Box: x=0, y=0, w=80, h=32  → cols 0..10, rows 0..2
    // Label: centred at x=40 (col 5), y=24 (baseline) size=12 → row 1
    let out = render(&scene(
        10,
        2,
        vec![rect(0, 0, 10, 2), text(1, 5, TextAlign::Middle, "あい")],
    ));
    assert_borders_aligned("wide_char_box", &out);
}

#[test]
fn borders_stay_aligned_beside_wide_text() {
    let out = render(&scene(
        10,
        3,
        vec![rect(0, 0, 9, 2), text(1, 5, TextAlign::Middle, "あい")],
    ));
    assert_borders_aligned("wide text", &out);
    assert_eq!(out, "┌────────┐\n│  あい  │\n└────────┘\n");
}

#[test]
fn text_lies_over_everything_else() {
    let out = render(&scene(
        6,
        1,
        vec![
            CellItem::Group(CellGroup { items: vec![text(0, 6, TextAlign::End, "end")] }),
            path(&[(0, 0), (0, 5)], false),
        ],
    ));
    assert_eq!(out, "───end\n");
}

#[test]
fn text_is_cut_at_the_borders_of_the_grid() {
    let out = render(&scene(4, 1, vec![text(0, -1, TextAlign::Start, "abcdefg")]));
    assert_eq!(out, "bcde\n");
    let out = render(&scene(4, 1, vec![text(3, 0, TextAlign::Start, "abc")]));
    assert_eq!(out, "\n");
}

#[test]
fn a_line_keeps_the_borders_it_crosses() {
    let out = render(&scene(5, 3, vec![rect(1, 0, 3, 2), path(&[(1, 0), (1, 4)], false)]));
    assert_eq!(out, " ┌─┐\n─│─│─\n └─┘\n");
}

#[test]
fn rounded_boxes_and_single_points() {
    let out = render(&scene(
        4,
        3,
        vec![
            CellItem::Rect(CellRect { col0: 0, row0: 0, col1: 2, row1: 1, rounded: true }),
            path(&[(2, 3)], false),
            CellItem::Arrowhead(None),
        ],
    ));
    assert_eq!(out, "╭─╮\n╰─╯\n   ·\n");
}

#[test]
fn arrowheads_are_rounded_the_way_they_point() {
    let between = || Rounded { floor: 1, nearest: 2, ceil: 2 };
    let head = |steep: bool, upward: bool, leftward: bool| {
        let tip = Tip { steep, upward, leftward, row: between(), col: between() };
        render(&scene(4, 4, vec![CellItem::Arrowhead(Some(tip))]))
    };
    assert_eq!(head(true, false, false), "\n  ▼\n\n\n");
    assert_eq!(head(true, true, false), "\n\n  ▲\n\n");
    assert_eq!(head(false, false, false), "\n\n ▶\n\n");
    assert_eq!(head(false, false, true), "\n\n  ◀\n\n");
}

#[test]
fn a_line_runs_from_end_to_end_without_gaps() {
    let a = CellPoint { row: 0, col: 0 };
    let b = CellPoint { row: -3, col: 7 };
    let cells = bresenham_cells(a, b);
    assert_eq!(cells.len(), 8);
    assert_eq!(cells[0], a);
    assert_eq!(cells[7], b);
    for w in cells.windows(2) {
        assert!((w[1].row - w[0].row).abs() <= 1);
        assert!((w[1].col - w[0].col).abs() <= 1);
    }
    assert_eq!(bresenham_cells(a, a), [a]);
}

#[test]
fn segments_have_characters() {
    assert_eq!(segment_char(0, 0), '·');
    assert_eq!(segment_char(0, -4), '│');
    assert_eq!(segment_char(4, 0), '─');
    assert_eq!(segment_char(1, 3), '│');
    assert_eq!(segment_char(5, 2), '─');
    assert_eq!(segment_char(2, 2), '╲');
    assert_eq!(segment_char(-2, 2), '╱');
    assert!(is_box_border('╭') && !is_box_border('▼'));
}

#[test]
fn a_character_without_a_width_takes_one_cell() {
    assert_eq!(width_or_one(None), 1);
    assert_eq!(width_or_one(Some(0)), 0);
    let out = render(&scene(5, 1, vec![text(0, 0, TextAlign::Start, "a\u{7}b")]));
    assert_eq!(out, "a\u{7}b\n");
}

#[test]
fn no_escape_sequence_reaches_the_terminal() {
    let out = render(&scene(8, 2, vec![text(0, 0, TextAlign::Start, "\u{1b}[31mhi")]));
    assert!(!out.contains('\u{1b}'), "{out:?}");
    assert!(out.ends_with('\n'));
    assert_eq!(out.lines().next(), Some(" [31mhi"));
    let out = render(&scene(4, 1, vec![text(0, 0, TextAlign::Start, "\u{7f}a\u{9b}b")]));
    assert_eq!(out, "\u{7f}a b\n");
}

#[test]
fn a_text_over_whole_wide_characters_keeps_the_row_aligned() {
    let out = render(&scene(
        6,
        1,
        vec![text(0, 0, TextAlign::Start, "あいう"), text(0, 2, TextAlign::Start, "xy")],
    ));
    assert_eq!(out, "あxyう\n");
    let width: usize = out.trim_end().chars().filter_map(|c| c.width()).sum();
    assert_eq!(width, 6);
}
