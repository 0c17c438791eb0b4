use ropey::Rope;

use kotlin_analyzer::text::{char_idx_to_position, position_to_char_idx, Position};

#[test]
fn position_to_char_idx_handles_utf16() {
    let text = Rope::from_str("a🍣b\n");

    let pos_a = Position::new(0, 0);
    let pos_after_a = Position::new(0, 1);
    let pos_after_emoji = Position::new(0, 3);
    let pos_after_b = Position::new(0, 4);

    assert_eq!(position_to_char_idx(&text, pos_a), 0);
    assert_eq!(position_to_char_idx(&text, pos_after_a), 1);
    assert_eq!(position_to_char_idx(&text, pos_after_emoji), 2);
    assert_eq!(position_to_char_idx(&text, pos_after_b), 3);
}

#[test]
fn char_idx_to_position_handles_utf16() {
    let text = Rope::from_str("a🍣b\n");

    let pos_a = char_idx_to_position(&text, 0);
    let pos_after_a = char_idx_to_position(&text, 1);
    let pos_after_emoji = char_idx_to_position(&text, 2);
    let pos_after_b = char_idx_to_position(&text, 3);

    assert_eq!(pos_a, Position::new(0, 0));
    assert_eq!(pos_after_a, Position::new(0, 1));
    assert_eq!(pos_after_emoji, Position::new(0, 3));
    assert_eq!(pos_after_b, Position::new(0, 4));
}

#[test]
fn positions_on_later_lines_and_past_the_end() {
    let text = Rope::from_str("ab\r\ncd\ne");
    assert_eq!(char_idx_to_position(&text, 4), Position::new(1, 0));
    assert_eq!(char_idx_to_position(&text, 8), Position::new(2, 1));
    // An index past the end is taken at the end.
    assert_eq!(char_idx_to_position(&text, 100), Position::new(2, 1));
    assert_eq!(position_to_char_idx(&text, Position::new(1, 1)), 5);
    // A column past the end of its line stops at the line's end, break included.
    assert_eq!(position_to_char_idx(&text, Position::new(1, 10)), 7);
    // A line past the last one is the end of the text.
    assert_eq!(position_to_char_idx(&text, Position::new(7, 0)), 8);
}

#[test]
fn char_index_round_trips_through_position() {
    let text = Rope::from_str("fun a() {}\n  val 🍣 = \"x\"\nclass B");
    for idx in 0..=text.len_chars() {
        let pos = char_idx_to_position(&text, idx);
        assert_eq!(position_to_char_idx(&text, pos), idx);
    }
}

#[test]
fn position_round_trips_through_char_index() {
    let text = Rope::from_str("a🍣b\r\ncd\n");
    for pos in [
        Position::new(0, 0),
        Position::new(0, 1),
        Position::new(0, 3),
        Position::new(0, 4),
        Position::new(1, 0),
        Position::new(1, 2),
        Position::new(2, 0),
    ] {
        assert_eq!(char_idx_to_position(&text, position_to_char_idx(&text, pos)), pos);
    }
    assert_eq!(char_idx_to_position(&text, 50), char_idx_to_position(&text, text.len_chars()));
}
