use gapbuffer::GapBuffer;
use iota::buffer::Buffer;
use iota::marks::Mark;
use iota::motion::{
    get_line, get_line_end, get_words, get_words_rev, shift, Direction, WordEdgeMatch,
};
use iota::utils::is_alpha_or_;

const CURSOR: Mark = Mark::Cursor(0);
const WORDS: &str = "foo bar_baz, qux\n\nend";
const LINES: &str = "ab\ncdefgh\nxyzxyzxyz";

fn buffer_at(text: &str, idx: usize) -> Buffer {
    let mut buffer = Buffer::new_from_reader(Some(text.to_string()));
    buffer.set_mark(CURSOR, idx);
    buffer
}

fn shifted_from(text: &str, idx: usize, direction: Direction, amount: usize) -> usize {
    let mut buffer = buffer_at(text, idx);
    buffer.shift_mark(CURSOR, direction, amount);
    buffer.get_mark_idx(CURSOR).unwrap()
}

fn gap_buffer(text: &str) -> GapBuffer<u8> {
    text.bytes().collect()
}

#[test]
fn marks_are_kept_apart() {
    let mut buffer = buffer_at("Test", 1);
    buffer.set_mark(Mark::DisplayMark(0), 2);
    buffer.set_mark(Mark::Cursor(7), 3);
    assert_eq!(buffer.get_mark_idx(CURSOR), Some(1));
    assert_eq!(buffer.get_mark_idx(Mark::DisplayMark(0)), Some(2));
    assert_eq!(buffer.get_mark_idx(Mark::Cursor(7)), Some(3));
    assert_eq!(buffer.get_mark_idx(Mark::DisplayMark(7)), None);
    assert_eq!(buffer.get_mark_coords(Mark::DisplayMark(7)), None);
    assert!(buffer.lines_from(Mark::DisplayMark(7)).is_none());
}

#[test]
fn mark_at_end_of_text_is_valid() {
    let buffer = buffer_at("Te\nst", 5);
    assert_eq!(buffer.get_mark_idx(CURSOR), Some(5));
    assert_eq!(buffer.get_mark_coords(CURSOR), Some((2, 1)));
    assert_eq!(buffer.lines_from(CURSOR).unwrap().next(), Some(vec![]));
}

#[test]
fn mark_behind_text_is_not_valid() {
    let mut buffer = buffer_at("Test", 6);
    assert_eq!(buffer.get_mark_idx(CURSOR), None);
    assert_eq!(buffer.get_mark_coords(CURSOR), None);
    assert!(buffer.lines_from(CURSOR).is_none());
    buffer.shift_mark(CURSOR, Direction::Left, 3);
    assert_eq!(buffer.get_mark_idx(CURSOR), Some(3));
}

#[test]
fn shift_of_unknown_mark_does_nothing() {
    let mut buffer = buffer_at("Test", 1);
    buffer.shift_mark(Mark::Cursor(1), Direction::Right, 1);
    assert_eq!(buffer.get_mark_idx(Mark::Cursor(1)), None);
    assert_eq!(buffer.get_mark_idx(CURSOR), Some(1));
}

#[test]
fn horizontal_shifts_stop_at_the_ends() {
    assert_eq!(shifted_from("Test", 2, Direction::Left, 3), 0);
    assert_eq!(shifted_from("Test", 2, Direction::Left, 2), 0);
    assert_eq!(shifted_from("Test", 2, Direction::Right, 2), 4);
    assert_eq!(shifted_from("Test", 2, Direction::Right, 3), 4);
    assert_eq!(shifted_from("Test", 2, Direction::Right, usize::MAX), 4);
}

#[test]
fn right_and_left_again() {
    let mut buffer = buffer_at(LINES, 1);
    buffer.shift_mark(CURSOR, Direction::Right, 6);
    assert_eq!(buffer.get_mark_coords(CURSOR), Some((4, 1)));
    buffer.shift_mark(CURSOR, Direction::Left, 6);
    assert_eq!(buffer.get_mark_coords(CURSOR), Some((1, 0)));
}

#[test]
fn down_keeps_the_index_in_the_line() {
    let mut buffer = buffer_at("Test\nA\nTest", 2);
    buffer.shift_mark(CURSOR, Direction::Down, 1);
    assert_eq!(buffer.get_mark_coords(CURSOR), Some((1, 1)));
    buffer.shift_mark(CURSOR, Direction::Down, 1);
    assert_eq!(buffer.get_mark_coords(CURSOR), Some((2, 2)));
    buffer.shift_mark(CURSOR, Direction::Up, 1);
    assert_eq!(buffer.get_mark_coords(CURSOR), Some((1, 1)));
    buffer.shift_mark(CURSOR, Direction::Up, 1);
    assert_eq!(buffer.get_mark_coords(CURSOR), Some((2, 0)));
}

#[test]
fn vertical_shifts_beyond_the_text() {
    assert_eq!(shifted_from(LINES, 15, Direction::Up, 3), 0);
    assert_eq!(shifted_from(LINES, 1, Direction::Down, 3), 19);
    assert_eq!(shifted_from(LINES, 1, Direction::Down, usize::MAX), 19);
    assert_eq!(shifted_from(LINES, 15, Direction::Up, usize::MAX), 0);
}

#[test]
fn up_to_the_first_line() {
    assert_eq!(shifted_from(LINES, 11, Direction::Up, 2), 1);
    // From behind the end of the first line the mark stops at the end of the line above.
    assert_eq!(shifted_from(LINES, 15, Direction::Up, 2), 5);
    assert_eq!(shifted_from(LINES, 6, Direction::Up, 1), 2);
}

#[test]
fn line_and_text_ends() {
    assert_eq!(shifted_from(LINES, 5, Direction::LineStart, 0), 3);
    assert_eq!(shifted_from(LINES, 5, Direction::LineEnd, 0), 9);
    assert_eq!(shifted_from(LINES, 15, Direction::LineEnd, 0), 19);
    assert_eq!(shifted_from(LINES, 9, Direction::LineEnd, 0), 9);
    assert_eq!(shifted_from(LINES, 5, Direction::FirstLine, 0), 0);
    assert_eq!(shifted_from(LINES, 5, Direction::LastLine, 0), 19);
}

#[test]
fn last_line_sets_the_index_in_the_line_to_zero() {
    let mut buffer = buffer_at("Test\nA\nTest", 2);
    buffer.shift_mark(CURSOR, Direction::LastLine, 0);
    assert_eq!(buffer.get_mark_coords(CURSOR), Some((4, 2)));
    buffer.shift_mark(CURSOR, Direction::Up, 1);
    assert_eq!(buffer.get_mark_coords(CURSOR), Some((0, 1)));
}

#[test]
fn words_to_the_right() {
    let alphabet = Direction::RightWord(WordEdgeMatch::Alphabet);
    assert_eq!(shifted_from(WORDS, 0, alphabet, 1), 4);
    assert_eq!(shifted_from(WORDS, 4, alphabet, 1), 11);
    assert_eq!(shifted_from(WORDS, 11, alphabet, 1), 13);
    assert_eq!(shifted_from(WORDS, 13, alphabet, 1), 17);
    assert_eq!(shifted_from(WORDS, 17, alphabet, 1), 18);
    assert_eq!(shifted_from(WORDS, 18, alphabet, 1), 21);
    let whitespace = Direction::RightWord(WordEdgeMatch::Whitespace);
    assert_eq!(shifted_from(WORDS, 0, whitespace, 1), 4);
    assert_eq!(shifted_from(WORDS, 4, whitespace, 1), 13);
    assert_eq!(shifted_from(WORDS, 13, whitespace, 1), 17);
}

#[test]
fn words_to_the_left() {
    let alphabet = Direction::LeftWord(WordEdgeMatch::Alphabet);
    assert_eq!(shifted_from(WORDS, 21, alphabet, 1), 18);
    assert_eq!(shifted_from(WORDS, 18, alphabet, 1), 17);
    assert_eq!(shifted_from(WORDS, 17, alphabet, 1), 13);
    assert_eq!(shifted_from(WORDS, 13, alphabet, 1), 11);
    assert_eq!(shifted_from(WORDS, 4, alphabet, 1), 0);
    let whitespace = Direction::LeftWord(WordEdgeMatch::Whitespace);
    assert_eq!(shifted_from(WORDS, 13, whitespace, 1), 4);
}

#[test]
fn number_of_words() {
    let right = Direction::RightWord(WordEdgeMatch::Alphabet);
    let left = Direction::LeftWord(WordEdgeMatch::Alphabet);
    assert_eq!(shifted_from(WORDS, 0, right, 5), 4);
    assert_eq!(shifted_from(WORDS, 0, right, 0), 21);
    assert_eq!(shifted_from(WORDS, 21, left, 5), 18);
    assert_eq!(shifted_from(WORDS, 21, left, 0), 0);
}

#[test]
fn word_lookup() {
    let text = gap_buffer(WORDS);
    assert_eq!(get_words(0, 1, WordEdgeMatch::Alphabet, &text), Some(4));
    assert_eq!(get_words(18, 1, WordEdgeMatch::Alphabet, &text), None);
    assert_eq!(get_words(usize::MAX, 1, WordEdgeMatch::Alphabet, &text), None);
    assert_eq!(get_words_rev(21, 1, WordEdgeMatch::Alphabet, &text), Some(18));
    assert_eq!(get_words_rev(4, 1, WordEdgeMatch::Alphabet, &text), None);
}

#[test]
fn line_lookup() {
    let text = gap_buffer(LINES);
    assert_eq!(get_line(0, &text), Some(0));
    assert_eq!(get_line(2, &text), Some(0));
    assert_eq!(get_line(3, &text), Some(3));
    assert_eq!(get_line(9, &text), Some(3));
    assert_eq!(get_line(19, &text), Some(10));
    assert_eq!(get_line(100, &text), Some(10));
    assert_eq!(get_line_end(0, &text), Some(2));
    assert_eq!(get_line_end(2, &text), Some(2));
    assert_eq!(get_line_end(3, &text), Some(9));
    assert_eq!(get_line_end(10, &text), Some(19));
    assert_eq!(get_line_end(100, &text), Some(19));
}

#[test]
fn shift_gives_both_indices() {
    let text = gap_buffer(LINES);
    assert_eq!(shift(5, 2, Direction::Left, 1, &text), (4, 1));
    assert_eq!(shift(5, 2, Direction::Down, 1, &text), (12, 2));
    assert_eq!(shift(15, 5, Direction::Up, 1, &text), (8, 5));
    assert_eq!(shift(5, usize::MAX, Direction::Down, 1, &text), (19, usize::MAX));
    assert_eq!(shift(5, 2, Direction::LineEnd, 0, &text), (9, 6));
    assert_eq!(shift(5, 2, Direction::LastLine, 0, &text), (19, 0));
    assert_eq!(shift(5, 2, Direction::Down, 2, &text), (19, 9));
}

#[test]
fn coordinates_differ() {
    let mut buffer = buffer_at(LINES, 0);
    let mut seen: Vec<(usize, usize)> = vec![];
    for idx in 0..20 {
        buffer.set_mark(CURSOR, idx);
        let coords = buffer.get_mark_coords(CURSOR).unwrap();
        assert!(!seen.contains(&coords));
        seen.push(coords);
    }
}

#[test]
fn kinds_of_characters() {
    for byte in 0..=255u8 {
        let letter = is_alpha_or_(byte);
        let white = WordEdgeMatch::Whitespace.is_word_edge(&byte, &b'x');
        assert_eq!(
            white,
            matches!(byte, 0x09..=0x0d | 0x20 | 0x85 | 0xa0),
            "whitespace {}",
            byte
        );
        assert_eq!(
            letter,
            matches!(
                byte,
                b'A'..=b'Z' | b'a'..=b'z' | b'_' | 0xaa | 0xb5 | 0xba | 0xc0..=0xd6 | 0xd8..=0xf6
                    | 0xf8..=0xff
            ),
            "letter {}",
            byte
        );
        assert_eq!(WordEdgeMatch::Alphabet.is_word_edge(&byte, &b'x'), white || !letter);
        assert_eq!(WordEdgeMatch::Alphabet.is_word_edge(&b'x', &byte), !white && !letter);
        assert_eq!(WordEdgeMatch::Alphabet.is_word_edge(&b'-', &byte), letter);
    }
}

#[test]
fn blank_lines_are_words() {
    assert!(WordEdgeMatch::Alphabet.is_word_edge(&b'\n', &b'\n'));
    assert!(WordEdgeMatch::Whitespace.is_word_edge(&b'\n', &b'\n'));
    assert!(!WordEdgeMatch::Whitespace.is_word_edge(&b'\n', &b' '));
    assert!(!WordEdgeMatch::Alphabet.is_word_edge(&b' ', &b'\n'));
}
