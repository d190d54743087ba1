use kozue::position::{
    end_of_document_position, line_col, position_to_byte_offset, to_byte_offset, to_position,
    to_range, Position, SpanUnit,
};

#[test]
fn ascii_start_of_file() {
    let pos = to_position("hello", 0, SpanUnit::Byte);
    assert_eq!(
        pos,
        Position {
            line: 0,
            character: 0
        }
    );
}

#[test]
fn ascii_mid_line() {
    // 'e' is byte 1 / char 1.
    let pos = to_position("hello", 1, SpanUnit::Byte);
    assert_eq!(
        pos,
        Position {
            line: 0,
            character: 1
        }
    );
}

#[test]
fn ascii_eof() {
    let input = "abc";
    // Byte 3 is one past the end → clamped to len → position at end.
    let pos = to_position(input, 3, SpanUnit::Byte);
    assert_eq!(
        pos,
        Position {
            line: 0,
            character: 3
        }
    );
}

#[test]
fn ascii_empty_input() {
    let pos = to_position("", 0, SpanUnit::Byte);
    assert_eq!(
        pos,
        Position {
            line: 0,
            character: 0
        }
    );
}

#[test]
fn multiline_second_line_start() {
    let input = "abc\ndef";
    // byte 4 = 'd'
    let pos = to_position(input, 4, SpanUnit::Byte);
    assert_eq!(
        pos,
        Position {
            line: 1,
            character: 0
        }
    );
}

#[test]
fn multiline_second_line_mid() {
    let input = "abc\ndef";
    // byte 5 = 'e'
    let pos = to_position(input, 5, SpanUnit::Byte);
    assert_eq!(
        pos,
        Position {
            line: 1,
            character: 1
        }
    );
}

#[test]
fn multiline_newline_itself() {
    let input = "abc\ndef";
    // byte 3 = '\n'
    let pos = to_position(input, 3, SpanUnit::Byte);
    assert_eq!(
        pos,
        Position {
            line: 0,
            character: 3
        }
    );
}

#[test]
fn cjk_byte_unit_start() {
    // "あ" = 3 bytes, 1 char, 1 UTF-16 unit.
    let input = "あx";
    let pos = to_position(input, 0, SpanUnit::Byte);
    assert_eq!(
        pos,
        Position {
            line: 0,
            character: 0
        }
    );
}

#[test]
fn cjk_byte_unit_after() {
    // byte 3 → after "あ" = character offset 1.
    let pos = to_position("あx", 3, SpanUnit::Byte);
    assert_eq!(
        pos,
        Position {
            line: 0,
            character: 1
        }
    );
}

#[test]
fn cjk_byte_unit_inside_snaps() {
    // byte 1 lands inside "あ" (3 bytes); must snap without panic.
    let pos = to_position("あx", 1, SpanUnit::Byte);
    assert_eq!(
        pos,
        Position {
            line: 0,
            character: 0
        }
    );
}

#[test]
fn cjk_char_unit() {
    // char index 0 → "あ"; char index 1 → "x".
    let pos = to_position("あx", 1, SpanUnit::Char);
    assert_eq!(
        pos,
        Position {
            line: 0,
            character: 1
        }
    );
}

#[test]
fn cjk_multiline_char_unit() {
    let input = "あ\nいx";
    // char 2 → 'い' on line 1, char offset 0.
    let pos = to_position(input, 2, SpanUnit::Char);
    assert_eq!(
        pos,
        Position {
            line: 1,
            character: 0
        }
    );
}

#[test]
fn emoji_byte_unit_after() {
    // "🎉" = 4 bytes, 1 char, 2 UTF-16 units.
    // byte 4 → after "🎉" = UTF-16 character offset 2.
    let pos = to_position("🎉x", 4, SpanUnit::Byte);
    assert_eq!(
        pos,
        Position {
            line: 0,
            character: 2
        }
    );
}

#[test]
fn emoji_char_unit_after() {
    // char 1 → after "🎉" = UTF-16 character offset 2.
    let pos = to_position("🎉x", 1, SpanUnit::Char);
    assert_eq!(
        pos,
        Position {
            line: 0,
            character: 2
        }
    );
}

#[test]
fn emoji_byte_unit_inside_snaps() {
    // Any byte 1..=3 inside "🎉" must snap to byte 0 → position 0,0.
    for b in 1..=3usize {
        let pos = to_position("🎉x", b, SpanUnit::Byte);
        assert_eq!(
            pos,
            Position {
                line: 0,
                character: 0
            },
            "byte {b} should snap"
        );
    }
}

#[test]
fn emoji_two_in_row() {
    // "🎉🎉" → char 2 = byte 8; UTF-16 character = 4.
    let pos = to_position("🎉🎉x", 2, SpanUnit::Char);
    assert_eq!(
        pos,
        Position {
            line: 0,
            character: 4
        }
    );
}

#[test]
fn leading_bom_byte_unit() {
    // BOM = U+FEFF = 3 bytes in UTF-8, 1 UTF-16 unit.
    let input = "\u{feff}abc";
    // byte 3 → 'a' = UTF-16 character 1 (BOM is 1 UTF-16 unit).
    let pos = to_position(input, 3, SpanUnit::Byte);
    assert_eq!(
        pos,
        Position {
            line: 0,
            character: 1
        }
    );
}

#[test]
fn leading_bom_char_unit() {
    let input = "\u{feff}abc";
    // char 1 → 'a' = UTF-16 character 1.
    let pos = to_position(input, 1, SpanUnit::Char);
    assert_eq!(
        pos,
        Position {
            line: 0,
            character: 1
        }
    );
}

#[test]
fn span_at_eof_byte() {
    let input = "abc";
    let range = to_range(input, &(3..3), SpanUnit::Byte);
    assert_eq!(
        range.start,
        Position {
            line: 0,
            character: 3
        }
    );
    assert_eq!(
        range.end,
        Position {
            line: 0,
            character: 3
        }
    );
}

#[test]
fn span_at_eof_char() {
    let input = "abc";
    let range = to_range(input, &(3..3), SpanUnit::Char);
    assert_eq!(
        range.start,
        Position {
            line: 0,
            character: 3
        }
    );
    assert_eq!(
        range.end,
        Position {
            line: 0,
            character: 3
        }
    );
}

#[test]
fn range_basic() {
    let input = "hello world";
    // span 6..11 = "world"
    let r = to_range(input, &(6..11), SpanUnit::Byte);
    assert_eq!(
        r.start,
        Position {
            line: 0,
            character: 6
        }
    );
    assert_eq!(
        r.end,
        Position {
            line: 0,
            character: 11
        }
    );
}

#[test]
fn range_multiline() {
    let input = "abc\ndefgh";
    // span 4..7 = "def" on line 1
    let r = to_range(input, &(4..7), SpanUnit::Byte);
    assert_eq!(
        r.start,
        Position {
            line: 1,
            character: 0
        }
    );
    assert_eq!(
        r.end,
        Position {
            line: 1,
            character: 3
        }
    );
}

#[test]
fn char_unit_ascii_identical_to_byte() {
    // ASCII: char index == byte offset.
    let input = "hello";
    for i in 0..=5 {
        assert_eq!(
            to_position(input, i, SpanUnit::Char),
            to_position(input, i, SpanUnit::Byte),
            "index {i}"
        );
    }
}

#[test]
fn char_unit_beyond_end_clamps() {
    // char index beyond end → EOF position.
    let input = "ab";
    let pos = to_position(input, 100, SpanUnit::Char);
    assert_eq!(
        pos,
        Position {
            line: 0,
            character: 2
        }
    );
}

#[test]
fn byte_unit_beyond_end_clamps() {
    let input = "ab";
    let pos = to_position(input, 100, SpanUnit::Byte);
    assert_eq!(
        pos,
        Position {
            line: 0,
            character: 2
        }
    );
}

#[test]
fn line_col_char_unit_multibyte() {
    // "あ" is 1 char / 3 bytes; char index 1 sits just after it.
    assert_eq!(line_col("あx", 1, SpanUnit::Char), (1, 2));
}

#[test]
fn line_col_byte_unit_snaps_to_char_boundary() {
    // Byte offset at the start of `x` → column 2.
    assert_eq!(line_col("あx", 3, SpanUnit::Byte), (1, 2));
    // A byte offset landing inside `あ` snaps back to a boundary (no panic).
    assert_eq!(line_col("あx", 1, SpanUnit::Byte), (1, 1));
}

#[test]
fn line_col_multiline() {
    let input = "abc\ndef";
    assert_eq!(line_col(input, 5, SpanUnit::Byte), (2, 2)); // 'e'
}

#[test]
fn byte_offsets_are_char_boundaries() {
    let input = "aé\n🎉x";
    for index in 0..=input.len() + 2 {
        for unit in [SpanUnit::Byte, SpanUnit::Char] {
            assert!(input.is_char_boundary(to_byte_offset(input, index, unit)));
        }
    }
    assert_eq!(to_byte_offset(input, 3, SpanUnit::Char), 4);
    assert_eq!(to_byte_offset(input, 6, SpanUnit::Byte), 4);
}

#[test]
fn a_position_leads_back_to_its_offset() {
    let input = "aé\n🎉x\n\nlast";
    for (byte, _) in input.char_indices() {
        let pos = to_position(input, byte, SpanUnit::Byte);
        assert_eq!(position_to_byte_offset(input, pos), byte);
    }
}

#[test]
fn positions_follow_the_order_of_offsets() {
    let input = "ab\ncd🎉\ne";
    let mut last = (0, 0);
    for byte in 0..=input.len() {
        let pos = to_position(input, byte, SpanUnit::Byte);
        assert!(last <= (pos.line, pos.character));
        last = (pos.line, pos.character);
    }
}

#[test]
fn a_position_past_its_line_is_the_end_of_the_line() {
    let input = "abc\ndef";
    assert_eq!(position_to_byte_offset(input, Position { line: 0, character: 9 }), 3);
    assert_eq!(position_to_byte_offset(input, Position { line: 5, character: 0 }), 7);
}

#[test]
fn the_end_of_a_document_is_behind_its_last_character() {
    assert_eq!(end_of_document_position(""), Position { line: 0, character: 0 });
    assert_eq!(end_of_document_position("ab\n🎉"), Position { line: 1, character: 2 });
    assert_eq!(end_of_document_position("ab\n"), Position { line: 1, character: 0 });
}
