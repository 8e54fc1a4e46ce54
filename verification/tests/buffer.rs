use iota::buffer::Buffer;
use iota::marks::Mark;
use iota::motion::Direction;

fn setup_buffer(testcase: &'static str) -> Buffer {
    let mut buffer = Buffer::new_from_reader(Some(testcase.to_string()));
    buffer.set_mark(Mark::Cursor(0), 0);
    buffer
}

#[test]
fn test_insert() {
    let mut buffer = setup_buffer("");
    buffer.insert_char(Mark::Cursor(0), b'A');
    assert_eq!(buffer.len(), 2);
    assert_eq!(buffer.lines().next().unwrap(), [b'A']);
}

#[test]
fn test_remove() {
    let mut buffer = setup_buffer("ABCD");
    buffer.remove_chars(Mark::Cursor(0), Direction::Right, 1);

    assert_eq!(buffer.len(), 4);
    assert_eq!(buffer.lines().next().unwrap(), [b'B', b'C', b'D']);
}

#[test]
fn test_set_mark() {
    let mut buffer = setup_buffer("Test");
    buffer.set_mark(Mark::Cursor(0), 2);

    assert_eq!(buffer.get_mark_idx(Mark::Cursor(0)).unwrap(), 2);
}

#[test]
fn test_shift_down() {
    let mut buffer = setup_buffer("Test\nA\nTest");
    buffer.set_mark(Mark::Cursor(0), 2);
    buffer.shift_mark(Mark::Cursor(0), Direction::Down, 2);

    assert_eq!(buffer.get_mark_coords(Mark::Cursor(0)).unwrap(), (2, 2));
}

#[test]
fn test_shift_right() {
    let mut buffer = setup_buffer("Test");
    buffer.shift_mark(Mark::Cursor(0), Direction::Right, 1);

    assert_eq!(buffer.get_mark_idx(Mark::Cursor(0)).unwrap(), 1);
}

#[test]
fn test_shift_up() {
    let mut buffer = setup_buffer("Test\nA\nTest");
    buffer.set_mark(Mark::Cursor(0), 10);
    buffer.shift_mark(Mark::Cursor(0), Direction::Up, 1);

    assert_eq!(buffer.get_mark_coords(Mark::Cursor(0)).unwrap(), (1, 1));
}

#[test]
fn test_shift_left() {
    let mut buffer = setup_buffer("Test");
    buffer.set_mark(Mark::Cursor(0), 2);
    buffer.shift_mark(Mark::Cursor(0), Direction::Left, 1);

    assert_eq!(buffer.get_mark_idx(Mark::Cursor(0)).unwrap(), 1);
}

#[test]
fn test_shift_linestart() {
    let mut buffer = setup_buffer("Test");
    buffer.set_mark(Mark::Cursor(0), 2);
    buffer.shift_mark(Mark::Cursor(0), Direction::LineStart, 0);

    assert_eq!(buffer.get_mark_idx(Mark::Cursor(0)).unwrap(), 0);
}

#[test]
fn test_shift_lineend() {
    let mut buffer = setup_buffer("Test");
    buffer.shift_mark(Mark::Cursor(0), Direction::LineEnd, 0);

    assert_eq!(buffer.get_mark_idx(Mark::Cursor(0)).unwrap(), 4);
}

#[test]
fn test_to_lines() {
    let buffer = setup_buffer("Test\nA\nTest");
    let mut lines = buffer.lines();

    assert_eq!(lines.next().unwrap(), [b'T', b'e', b's', b't', b'\n']);
    assert_eq!(lines.next().unwrap(), [b'A', b'\n']);
    assert_eq!(lines.next().unwrap(), [b'T', b'e', b's', b't']);
}

#[test]
fn test_to_lines_from() {
    let mut buffer = setup_buffer("Test\nA\nTest");
    buffer.set_mark(Mark::Cursor(0), 6);
    let mut lines = buffer.lines_from(Mark::Cursor(0)).unwrap();

    assert_eq!(lines.next().unwrap(), [b'\n']);
    assert_eq!(lines.next().unwrap(), [b'T', b'e', b's', b't']);
}

#[test]
fn move_from_final_position() {
    let mut buffer = setup_buffer("Test");
    buffer.set_mark(Mark::Cursor(0), 4);
    buffer.shift_mark(Mark::Cursor(0), Direction::Left, 1);

    assert_eq!(buffer.get_mark_idx(Mark::Cursor(0)).unwrap(), 3);
}
