use texlab::document::{Document, Language, Owner, TextChange};
use texlab::text::{LineIndex, Position, PositionRange};

fn position(line: usize, character: usize) -> Position {
    Position { line, character }
}

fn offset(text: &[u8], line: usize, character: usize) -> usize {
    LineIndex::new(text).offset(text, position(line, character))
}

fn line_col(text: &[u8], offset: usize) -> Position {
    LineIndex::new(text).line_col(text, offset)
}

#[test]
fn line_index_counts_lines() {
    assert_eq!(LineIndex::new(b"").line_count(), 1);
    assert_eq!(LineIndex::new(b"abc").line_count(), 1);
    assert_eq!(LineIndex::new(b"abc\n").line_count(), 2);
    assert_eq!(LineIndex::new(b"a\n\nb").line_count(), 3);
}

#[test]
fn offset_of_position_within_text() {
    let text = b"ab\ncde\nf";
    assert_eq!(offset(text, 0, 0), 0);
    assert_eq!(offset(text, 0, 2), 2);
    assert_eq!(offset(text, 1, 0), 3);
    assert_eq!(offset(text, 1, 3), 6);
    assert_eq!(offset(text, 2, 1), 8);
}

#[test]
fn offset_clamps_column_to_end_of_line() {
    let text = b"ab\ncde\nf";
    assert_eq!(offset(text, 0, 9), 2);
    assert_eq!(offset(text, 1, 100), 6);
    assert_eq!(offset(text, 2, 5), 8);
    assert_eq!(offset(b"\n\n", 0, 5), 0);
    assert_eq!(offset(b"\n\n", 1, 5), 1);
}

#[test]
fn offset_clamps_line_to_end_of_text() {
    let text = b"ab\ncde\nf";
    assert_eq!(offset(text, 3, 0), 8);
    assert_eq!(offset(text, usize::MAX, usize::MAX), 8);
    assert_eq!(offset(b"", 0, 0), 0);
    assert_eq!(offset(b"", 4, 4), 0);
}

#[test]
fn line_col_of_offset() {
    let text = b"ab\ncde\nf";
    assert_eq!(line_col(text, 0), position(0, 0));
    assert_eq!(line_col(text, 2), position(0, 2));
    assert_eq!(line_col(text, 3), position(1, 0));
    assert_eq!(line_col(text, 6), position(1, 3));
    assert_eq!(line_col(text, 7), position(2, 0));
    assert_eq!(line_col(text, 8), position(2, 1));
}

#[test]
fn line_col_clamps_offset_to_end_of_text() {
    let text = b"ab\ncde\nf";
    assert_eq!(line_col(text, 9), position(2, 1));
    assert_eq!(line_col(text, usize::MAX), position(2, 1));
    assert_eq!(line_col(b"", 3), position(0, 0));
}

#[test]
fn line_col_round_trips_through_offset() {
    let text = b"first line\n\nthird\nlast";
    let index = LineIndex::new(text);
    for at in 0..=text.len() {
        assert_eq!(index.offset(text, index.line_col(text, at)), at);
    }
}

#[test]
fn line_col_in_a_long_text_uses_every_line() {
    let mut text = Vec::new();
    for _ in 0..1000 {
        text.extend_from_slice(b"abcdefghi\n");
    }
    let index = LineIndex::new(&text);
    assert_eq!(index.line_count(), 1001);
    assert_eq!(index.line_col(&text, 5005), position(500, 5));
    assert_eq!(index.offset(&text, position(999, 9)), 9999);
}

#[test]
fn columns_count_utf16_code_units() {
    let text = "a\u{e4}\u{1d11e}b\n\u{20ac}x".as_bytes();
    assert_eq!(text.len(), 13);
    assert_eq!(offset(text, 0, 0), 0);
    assert_eq!(offset(text, 0, 1), 1);
    assert_eq!(offset(text, 0, 2), 3);
    assert_eq!(offset(text, 0, 3), 3);
    assert_eq!(offset(text, 0, 4), 7);
    assert_eq!(offset(text, 0, 5), 8);
    assert_eq!(offset(text, 0, 6), 8);
    assert_eq!(offset(text, 1, 0), 9);
    assert_eq!(offset(text, 1, 1), 12);
    assert_eq!(offset(text, 1, 2), 13);
    assert_eq!(line_col(text, 1), position(0, 1));
    assert_eq!(line_col(text, 3), position(0, 2));
    assert_eq!(line_col(text, 7), position(0, 4));
    assert_eq!(line_col(text, 8), position(0, 5));
    assert_eq!(line_col(text, 12), position(1, 1));
    assert_eq!(line_col(text, 13), position(1, 2));
}

#[test]
fn positions_at_character_starts_round_trip() {
    let text = "a\u{e4}\u{1d11e}b\n\u{20ac}x".as_bytes();
    let index = LineIndex::new(text);
    for at in [0, 1, 3, 7, 8, 9, 12, 13] {
        assert_eq!(index.offset(text, index.line_col(text, at)), at);
    }
}

#[test]
fn edits_of_text_with_wide_characters_match_the_editor() {
    let mut document = Document::new(
        b"/w/a.tex".to_vec(),
        "\u{e4}\u{1d11e} = \u{20ac}\n".as_bytes().to_vec(),
        Language::Tex,
        Owner::Client,
        1,
    );
    let at = |line, character| Position { line, character };
    let changes = vec![
        TextChange {
            range: Some(PositionRange { start: at(0, 1), end: at(0, 3) }),
            text: "G".as_bytes().to_vec(),
        },
        TextChange {
            range: Some(PositionRange { start: at(0, 5), end: at(0, 6) }),
            text: "\u{1d11e}\u{1d11e}".as_bytes().to_vec(),
        },
        TextChange {
            range: Some(PositionRange { start: at(0, 7), end: at(0, 9) }),
            text: "!".as_bytes().to_vec(),
        },
    ];
    assert!(document.edit(&changes, 2).changed);
    assert_eq!(document.text().as_slice(), "\u{e4}G = \u{1d11e}!\n".as_bytes());
}
