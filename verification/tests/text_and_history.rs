use gapbuffer::GapBuffer;
use iota::buffer::Buffer;
use iota::history::commit;
use iota::log::{Change, Log, LogEntry};
use iota::marks::Mark;
use iota::motion::{Direction, WordEdgeMatch};

const CURSOR: Mark = Mark::Cursor(0);

fn buffer_at(text: &str, idx: usize) -> Buffer {
    let mut buffer = Buffer::new_from_reader(Some(text.to_string()));
    buffer.set_mark(CURSOR, idx);
    buffer
}

fn text_of(buffer: &Buffer) -> String {
    let mut bytes: Vec<u8> = vec![];
    let mut lines = buffer.lines();
    while let Some(line) = lines.next() {
        bytes.extend(line);
    }
    String::from_utf8(bytes).unwrap()
}

#[test]
fn empty_buffer() {
    let buffer = Buffer::new();
    assert_eq!(buffer.len(), 1);
    assert_eq!(buffer.checked_len(), Some(1));
    assert_eq!(buffer.status_text(), "untitled ");
    let mut lines = buffer.lines();
    assert_eq!(lines.size_hint(), (1, Some(1)));
    assert_eq!(lines.next(), Some(vec![]));
    assert_eq!(lines.next(), None);
    assert_eq!(lines.next(), None);
}

#[test]
fn buffers_from_what_was_read() {
    let buffer = Buffer::new_from_reader(Some("a\u{e9}\n".to_string()));
    assert_eq!(buffer.len(), 5);
    assert_eq!(buffer.checked_len(), Some(5));
    assert_eq!(buffer.lines().next(), Some(vec![b'a', 0xc3, 0xa9, b'\n']));
    assert_eq!(Buffer::new_from_reader(None).len(), 1);
}

#[test]
fn buffers_from_files() {
    let path = "/tmp/some.txt".to_string();
    let buffer = Buffer::new_from_file(path.clone(), Some(Some("abc".to_string())));
    assert_eq!(buffer.status_text(), "/tmp/some.txt ");
    assert_eq!(text_of(&buffer), "abc");
    let unreadable = Buffer::new_from_file(path.clone(), Some(None));
    assert_eq!(unreadable.status_text(), "/tmp/some.txt ");
    assert_eq!(unreadable.len(), 1);
    let missing = Buffer::new_from_file(path, None);
    assert_eq!(missing.status_text(), "untitled ");
    assert_eq!(missing.len(), 1);
}

#[test]
fn lines_make_up_the_text() {
    let buffer = buffer_at("a\n\nbc\n", 1);
    let mut lines = buffer.lines();
    assert_eq!(lines.size_hint(), (1, Some(7)));
    assert_eq!(lines.next(), Some(vec![b'a', b'\n']));
    assert_eq!(lines.next(), Some(vec![b'\n']));
    assert_eq!(lines.next(), Some(vec![b'b', b'c', b'\n']));
    assert_eq!(lines.next(), Some(vec![]));
    assert_eq!(lines.next(), None);
    assert_eq!(lines.size_hint(), (0, Some(7)));
    assert_eq!(text_of(&buffer), "a\n\nbc\n");
}

#[test]
fn size_hint_bounds_the_lines_to_come() {
    for text in ["", "a", "\n", "a\nb", "\n\n\n"] {
        let buffer = buffer_at(text, 0);
        let mut lines = buffer.lines_from(CURSOR).unwrap();
        let mut to_come = text.matches('\n').count() + 1;
        loop {
            let (low, high) = lines.size_hint();
            assert!(low <= to_come && to_come <= high.unwrap());
            if lines.next().is_none() {
                break;
            }
            to_come -= 1;
        }
        assert_eq!(to_come, 0);
    }
}

#[test]
fn insert_in_the_middle() {
    let mut buffer = buffer_at("ACD", 1);
    buffer.insert_char(CURSOR, b'B');
    assert_eq!(text_of(&buffer), "ABCD");
    assert_eq!(buffer.get_mark_idx(CURSOR), Some(1));
    buffer.insert_char(Mark::Cursor(1), b'X');
    assert_eq!(text_of(&buffer), "ABCD");
}

#[test]
fn remove_right() {
    let mut buffer = buffer_at("ABCD", 1);
    assert_eq!(buffer.remove_chars(CURSOR, Direction::Right, 2), Some(vec![b'B', b'C']));
    assert_eq!(text_of(&buffer), "AD");
    assert_eq!(buffer.remove_chars(CURSOR, Direction::Right, usize::MAX), Some(vec![b'D']));
    assert_eq!(buffer.remove_chars(CURSOR, Direction::Right, 1), Some(vec![]));
    assert_eq!(text_of(&buffer), "A");
}

#[test]
fn remove_left() {
    let mut buffer = buffer_at("ABCD", 3);
    assert_eq!(buffer.remove_chars(CURSOR, Direction::Left, 2), Some(vec![b'B', b'C']));
    assert_eq!(text_of(&buffer), "AD");
    let mut buffer = buffer_at("ABCD", 2);
    assert_eq!(buffer.remove_chars(CURSOR, Direction::Left, 5), Some(vec![b'A', b'B']));
    assert_eq!(text_of(&buffer), "CD");
}

#[test]
fn remove_from_behind_the_text() {
    let mut buffer = buffer_at("ABCD", 0);
    buffer.set_mark(Mark::DisplayMark(0), 4);
    buffer.remove_chars(CURSOR, Direction::Right, 3);
    let removed = buffer.remove_chars(Mark::DisplayMark(0), Direction::Left, 2);
    assert_eq!(removed, Some(vec![]));
    let removed = buffer.remove_chars(Mark::DisplayMark(0), Direction::Left, 4);
    assert_eq!(removed, Some(vec![b'D']));
    let removed = buffer.remove_chars(Mark::DisplayMark(0), Direction::Right, 4);
    assert_eq!(removed, Some(vec![]));
    assert_eq!(buffer.len(), 1);
}

#[test]
fn remove_words() {
    let mut buffer = buffer_at("foo bar baz", 0);
    let right = Direction::RightWord(WordEdgeMatch::Alphabet);
    assert_eq!(buffer.remove_chars(CURSOR, right, 1), Some(b"foo ".to_vec()));
    assert_eq!(text_of(&buffer), "bar baz");
    buffer.set_mark(CURSOR, 6);
    let left = Direction::LeftWord(WordEdgeMatch::Alphabet);
    assert_eq!(buffer.remove_chars(CURSOR, left, 1), Some(b"ba".to_vec()));
    assert_eq!(text_of(&buffer), "bar z");
    buffer.set_mark(CURSOR, 1);
    assert_eq!(buffer.remove_chars(CURSOR, right, 0), Some(b"ar z".to_vec()));
    assert_eq!(buffer.remove_chars(CURSOR, left, 1), Some(b"b".to_vec()));
    assert_eq!(buffer.len(), 1);
}

#[test]
fn remove_at_unknown_mark() {
    let mut buffer = buffer_at("ABCD", 0);
    assert_eq!(buffer.remove_chars(Mark::Cursor(1), Direction::Right, 1), None);
    assert_eq!(buffer.remove_chars(Mark::Cursor(1), Direction::LineEnd, 1), None);
    assert_eq!(text_of(&buffer), "ABCD");
}

#[test]
fn undo_and_redo_an_insertion() {
    let mut buffer = buffer_at("AC", 1);
    buffer.insert_char(CURSOR, b'B');
    let entry = buffer.undo().unwrap();
    assert_eq!(entry.changes, [Change::Remove(1, b'B')]);
    assert_eq!(text_of(&buffer), "AC");
    let entry = buffer.redo().unwrap();
    assert_eq!(entry.changes, [Change::Insert(1, b'B')]);
    assert_eq!(text_of(&buffer), "ABC");
}

#[test]
fn undo_and_redo_a_removal() {
    let mut buffer = buffer_at("ABCD", 1);
    buffer.remove_chars(CURSOR, Direction::Right, 2);
    let entry = buffer.undo().unwrap();
    assert_eq!(entry.changes, [Change::Insert(1, b'B'), Change::Insert(2, b'C')]);
    assert_eq!((entry.init_point, entry.end_point), (1, 1));
    assert_eq!(text_of(&buffer), "ABCD");
    let entry = buffer.redo().unwrap();
    assert_eq!(entry.changes, [Change::Remove(2, b'C'), Change::Remove(1, b'B')]);
    assert_eq!(text_of(&buffer), "AD");
}

#[test]
fn undo_everything_and_redo_everything() {
    let mut buffer = buffer_at("one two", 3);
    buffer.insert_char(CURSOR, b'!');
    buffer.remove_chars(CURSOR, Direction::Left, 2);
    buffer.set_mark(CURSOR, 0);
    buffer.insert_char(CURSOR, b'x');
    assert_eq!(text_of(&buffer), "xo! two");
    for expected in ["o! two", "one! two", "one two"] {
        assert!(buffer.undo().is_some());
        assert_eq!(text_of(&buffer), expected);
    }
    assert!(buffer.undo().is_none());
    assert_eq!(text_of(&buffer), "one two");
    for expected in ["one! two", "o! two", "xo! two"] {
        assert!(buffer.redo().is_some());
        assert_eq!(text_of(&buffer), expected);
    }
    assert!(buffer.redo().is_none());
    assert_eq!(text_of(&buffer), "xo! two");
}

#[test]
fn an_edit_leaves_nothing_to_redo() {
    let mut buffer = buffer_at("", 0);
    buffer.insert_char(CURSOR, b'A');
    buffer.undo();
    buffer.remove_chars(CURSOR, Direction::Right, 1);
    assert!(buffer.redo().is_some());
    buffer.undo();
    buffer.insert_char(CURSOR, b'B');
    assert!(buffer.redo().is_none());
    assert_eq!(text_of(&buffer), "B");
}

#[test]
fn removal_takes_back_insertion() {
    let mut buffer = buffer_at("AC", 1);
    buffer.insert_char(CURSOR, b'B');
    assert_eq!(buffer.remove_chars(CURSOR, Direction::Right, 1), Some(vec![b'B']));
    assert_eq!(text_of(&buffer), "AC");
}

#[test]
fn transactions_are_recorded() {
    let mut log = Log::new();
    let mut transaction = log.start(4);
    transaction.log(Change::Remove(3, b'd'), 3);
    transaction.log(Change::Insert(3, b'e'), 3);
    log.finish(transaction);
    let nothing = log.start(9);
    log.finish(nothing);
    let entry = log.undo().unwrap();
    assert_eq!((entry.init_point, entry.end_point), (3, 4));
    assert_eq!(entry.changes, [Change::Remove(3, b'e'), Change::Insert(3, b'd')]);
    assert!(log.undo().is_none());
    let entry = log.redo().unwrap();
    assert_eq!((entry.init_point, entry.end_point), (4, 3));
    assert_eq!(entry.changes, [Change::Remove(3, b'd'), Change::Insert(3, b'e')]);
    assert!(log.redo().is_none());
}

#[test]
fn changes_reverse() {
    assert_eq!(Change::Insert(1, 2).reverse(), Change::Remove(1, 2));
    assert_eq!(Change::Remove(1, 2).reverse(), Change::Insert(1, 2));
}

#[test]
fn commit_performs_changes_in_order() {
    let mut text: GapBuffer<u8> = b"abc".iter().copied().collect();
    let entry = LogEntry {
        init_point: 0,
        end_point: 0,
        changes: vec![
            Change::Remove(0, b'a'),
            Change::Insert(2, b'd'),
            Change::Remove(9, b'x'),
            Change::Insert(0, b'z'),
        ],
    };
    commit(&entry, &mut text);
    let bytes: Vec<u8> = text.iter().copied().collect();
    assert_eq!(bytes, b"zbcd");
}
