//! The buffer: a text, the marks in it, and the history of its edits.

use crate::history::{
    apply_changes, can_apply, changes_fit, commit, log_fits, recorded_log_fits, redone_log_fits,
    undone_log_fits,
};
use crate::lines::{Lines, LinesView};
use crate::log::{Change, EntryView, Log, LogEntry, LogView, Transaction};
use crate::marks::{Mark, Marks};
use crate::motion::{
    can_shift, column, get_line, get_words, get_words_rev, least, lemma_line_start,
    lemma_newline_count, newlines_before, next_word, previous_word, shift, shifted, Direction,
};
use crate::text::{
    contents, text_at, text_extend, text_insert, text_len, text_new, text_remove,
};
use crate::utils::NEWLINE;
use gapbuffer::GapBuffer;
use vstd::prelude::*;

verus! {

/// What a [`Buffer`] holds.
#[verifier::ext_equal]
pub struct BufferView {
    /// The text.
    pub text: Seq<u8>,
    /// For each mark its absolute index and its index in its line.
    pub marks: Map<Mark, (int, int)>,
    /// What can be undone and redone.
    pub log: LogView,
    /// Where the text belongs on disk.
    pub file_path: Option<Seq<char>>,
}

impl BufferView {
    /// A buffer without text, marks, history and place.
    pub open spec fn blank() -> BufferView {
        BufferView {
            text: Seq::empty(),
            marks: Map::empty(),
            log: LogView { undo: Seq::empty(), redo: Seq::empty() },
            file_path: None,
        }
    }

    /// Whether the history belongs to the text: all that was done can be undone, and all that was
    /// undone can be redone.
    pub open spec fn consistent(self) -> bool {
        log_fits(self.log, self.text)
    }

    /// Whether a mark is in the table and not behind the text.
    pub open spec fn valid_mark(self, mark: Mark) -> bool {
        self.marks.contains_key(mark) && 0 <= self.marks[mark].0 <= self.text.len()
    }

    /// Whether the next entry to be undone, if there is one, can be undone in the text as it is.
    pub open spec fn can_undo(self) -> bool {
        self.log.undo.len() > 0 ==> can_apply(self.log.undo.last().reversed().changes, self.text)
    }

    /// Whether the next entry to be redone, if there is one, can be redone in the text as it is.
    pub open spec fn can_redo(self) -> bool {
        self.log.redo.len() > 0 ==> can_apply(self.log.redo.last().reversed().changes, self.text)
    }

    /// The buffer after a mark was put at an absolute index.
    pub open spec fn mark_set(self, mark: Mark, idx: int) -> BufferView {
        BufferView { marks: self.marks.insert(mark, (idx, column(self.text, idx))), ..self }
    }

    /// The buffer after a mark was shifted.
    pub open spec fn mark_shifted(self, mark: Mark, direction: Direction, amount: int) -> BufferView {
        if self.marks.contains_key(mark) {
            let (idx, line_idx) = self.marks[mark];
            BufferView {
                marks: self.marks.insert(
                    mark,
                    shifted(self.text, idx, line_idx, direction, amount),
                ),
                ..self
            }
        } else {
            self
        }
    }

    /// The buffer after a character was inserted at a mark.
    pub open spec fn char_inserted(self, mark: Mark, ch: u8) -> BufferView {
        if self.marks.contains_key(mark) {
            let idx = self.marks[mark].0;
            BufferView {
                text: self.text.insert(idx, ch),
                log: self.log.recorded(insertion(idx, ch)),
                ..self
            }
        } else {
            self
        }
    }

    /// The range of characters that are removed at a mark.
    pub open spec fn removed_range(self, mark: Mark, direction: Direction, num_chars: int) -> (
        int,
        int,
    ) {
        within(self.text, range_at(self.text, self.marks[mark].0, direction, num_chars))
    }

    /// The characters that are removed at a mark, in order.
    pub open spec fn removed_chars(self, mark: Mark, direction: Direction, num_chars: int) -> Seq<
        u8,
    > {
        let (start, end) = self.removed_range(mark, direction, num_chars);
        self.text.subrange(start, end)
    }

    /// The buffer after characters were removed at a mark.
    pub open spec fn chars_removed(self, mark: Mark, direction: Direction, num_chars: int) -> BufferView {
        if self.marks.contains_key(mark) {
            let (start, end) = self.removed_range(mark, direction, num_chars);
            BufferView {
                text: self.text.take(start) + self.text.skip(end),
                log: self.log.recorded(removal(self.text, self.marks[mark].0, start, end)),
                ..self
            }
        } else {
            self
        }
    }

    /// The buffer after its last entry was undone.
    pub open spec fn undone(self) -> BufferView {
        if self.log.undo.len() == 0 {
            self
        } else {
            BufferView {
                text: apply_changes(self.log.undo.last().reversed().changes, self.text),
                log: self.log.undone(),
                ..self
            }
        }
    }

    /// The buffer after its last undone entry was redone.
    pub open spec fn redone(self) -> BufferView {
        if self.log.redo.len() == 0 {
            self
        } else {
            BufferView {
                text: apply_changes(self.log.redo.last().reversed().changes, self.text),
                log: self.log.redone(),
                ..self
            }
        }
    }
}

/// The entry for the insertion of a character.
pub open spec fn insertion(idx: int, ch: u8) -> EntryView {
    EntryView { init_point: idx, end_point: idx, changes: seq![Change::Insert(idx as usize, ch)] }
}

/// The entry for the removal of a range: the characters go one by one, the last one first.
pub open spec fn removal(text: Seq<u8>, idx: int, start: int, end: int) -> EntryView {
    EntryView {
        init_point: idx,
        end_point: if start < end {
            start
        } else {
            idx
        },
        changes: Seq::new(
            (end - start) as nat,
            |k: int| Change::Remove((end - 1 - k) as usize, text[end - 1 - k]),
        ),
    }
}

/// The entry for the removal of a range fits the text, and takes the range out of it.
pub proof fn lemma_removal(text: Seq<u8>, idx: int, start: int, end: int)
    requires
        0 <= start <= end <= text.len() <= usize::MAX,
    ensures
        changes_fit(removal(text, idx, start, end).changes, text),
        apply_changes(removal(text, idx, start, end).changes, text) == text.take(start)
            + text.skip(end),
    decreases end - start,
{
    let changes = removal(text, idx, start, end).changes;
    if start < end {
        lemma_removal(text, idx, start + 1, end);
        assert(changes.drop_last() == removal(text, idx, start + 1, end).changes);
    }
}

/// Whether characters can be removed in a direction: to the left or right, by characters or by
/// words; by words under the conditions under which a mark can be shifted by words.
pub open spec fn can_remove(text: Seq<u8>, idx: int, direction: Direction, num_chars: int) -> bool {
    match direction {
        Direction::Left => true,
        Direction::Right => true,
        Direction::RightWord(_) => can_shift(text, idx, direction, num_chars),
        Direction::LeftWord(_) => can_shift(text, idx, direction, num_chars),
        _ => false,
    }
}

/// The range from an index to where a number of characters, or the nearest word, in a direction
/// takes it.
pub open spec fn range_at(text: Seq<u8>, idx: int, direction: Direction, num_chars: int) -> (
    int,
    int,
) {
    let last = text.len() as int;
    match direction {
        Direction::Left => (if idx >= num_chars {
            idx - num_chars
        } else {
            0
        }, idx),
        Direction::Right => (idx, least(idx + num_chars, last)),
        Direction::RightWord(edger) => (
            idx,
            match next_word(text, idx, num_chars, edger) {
                Some(start) => start,
                None => last,
            },
        ),
        Direction::LeftWord(edger) => (
            match previous_word(text, idx, num_chars, edger) {
                Some(start) => start,
                None => 0,
            },
            idx,
        ),
        _ => (idx, idx),
    }
}

/// The part of a range that lies within a text.
pub open spec fn within(text: Seq<u8>, range: (int, int)) -> (int, int) {
    let end = least(range.1, text.len() as int);
    (least(range.0, end), end)
}

/// A text with marks in it and a history of its edits.
pub struct Buffer {
    /// Current buffers text
    text: GapBuffer<u8>,
    /// Table of marked indices in the text
    marks: Marks,
    /// Transaction history (used for undo/redo)
    pub log: Log,
    /// Location on disk where the current buffer should be written, as it is displayed
    pub file_path: Option<String>,
}

impl View for Buffer {
    type V = BufferView;

    closed spec fn view(&self) -> BufferView {
        BufferView {
            text: contents(self.text),
            marks: self.marks@,
            log: self.log@,
            file_path: match self.file_path {
                Some(path) => Some(path@),
                None => None,
            },
        }
    }
}

impl Buffer {
    /// Constructor for empty buffer.
    pub fn new() -> (buffer: Buffer)
        ensures
            buffer@ == BufferView::blank(),
            buffer@.consistent(),
    {
        Buffer { file_path: None, text: text_new(), marks: Marks::new(), log: Log::new() }
    }

    /// Constructor for buffer from what a reader gave: its contents, or `None` where they could
    /// not be read as text.
    pub fn new_from_reader(contents: Option<String>) -> (buffer: Buffer)
        ensures
            buffer@ == (BufferView {
                text: match contents {
                    Some(contents) => vstd::utf8::encode_utf8(contents@),
                    None => Seq::empty(),
                },
                ..BufferView::blank()
            }),
            buffer@.consistent(),
    {
        let mut buffer = Buffer::new();
        if let Some(contents) = contents {
            text_extend(&mut buffer.text, contents.as_str().as_bytes());
        }
        buffer
    }

    /// Constructor for buffer from file: `None` where the file could not be opened, and otherwise
    /// what a reader of the file gave.
    pub fn new_from_file(path: String, file: Option<Option<String>>) -> (buffer: Buffer)
        ensures
            buffer@ == (match file {
                Some(contents) => BufferView {
                    text: match contents {
                        Some(contents) => vstd::utf8::encode_utf8(contents@),
                        None => Seq::empty(),
                    },
                    file_path: Some(path@),
                    ..BufferView::blank()
                },
                None => BufferView::blank(),
            }),
            buffer@.consistent(),
    {
        if let Some(contents) = file {
            let mut buffer = Buffer::new_from_reader(contents);
            buffer.file_path = Some(path);
            buffer
        } else {
            Buffer::new()
        }
    }

    /// Length of the text stored in this buffer, and one more for the place behind it.
    pub fn len(&self) -> (len: usize)
        requires
            self@.text.len() < usize::MAX,
        ensures
            len == self@.text.len() + 1,
    {
        text_len(&self.text) + 1
    }

    /// The length as [`Buffer::len`] gives it, or `None` where it is not a machine integer.
    pub fn checked_len(&self) -> (len: Option<usize>)
        ensures
            len is Some <==> self@.text.len() < usize::MAX,
            len is Some ==> len->0 == self@.text.len() + 1,
    {
        if text_len(&self.text) < usize::MAX {
            Some(self.len())
        } else {
            None
        }
    }

    /// The x,y coordinates of a mark within the file. None if not a valid mark.
    pub fn get_mark_coords(&self, mark: Mark) -> (coords: Option<(usize, usize)>)
        ensures
            coords is Some <==> self@.valid_mark(mark),
            coords matches Some((x, y)) ==> {
                &&& x == column(self@.text, self@.marks[mark].0)
                &&& y == newlines_before(self@.text, self@.marks[mark].0).len()
            },
            coords is Some <==> self@.marks.contains_key(mark) && self@.marks[mark].0
                <= self@.text.len(),
            coords matches Some((x, y)) ==> {
                let text = self@.text;
                let idx = self@.marks[mark].0;
                &&& 0 <= idx - x
                &&& idx - x == 0 || text[idx - x - 1] == NEWLINE
                &&& forall|k: int| idx - x <= k < idx ==> text[k] != NEWLINE
                &&& y == text.take(idx).to_multiset().count(NEWLINE)
            },
    {
        if let Some(idx) = self.get_mark_idx(mark) {
            proof {
                lemma_line_start(self@.text, idx as int);
                lemma_newline_count(self@.text, idx as int);
            }
            if let Some(line) = get_line(idx, &self.text) {
                let mut count: usize = 0;
                let mut i: usize = 0;
                while i < idx
                    invariant
                        i <= idx <= contents(self.text).len(),
                        count <= i,
                        count == newlines_before(contents(self.text), i as int).len(),
                    decreases idx - i,
                {
                    if text_at(&self.text, i) == NEWLINE {
                        count = count + 1;
                    }
                    i = i + 1;
                }
                Some((idx - line, count))
            } else {
                None
            }
        } else {
            None
        }
    }

    /// The absolute index of a mark within the file. None if not a valid mark.
    pub fn get_mark_idx(&self, mark: Mark) -> (idx: Option<usize>)
        ensures
            idx is Some <==> self@.valid_mark(mark),
            idx is Some <==> self@.marks.contains_key(mark) && self@.marks[mark].0
                <= self@.text.len(),
            idx is Some ==> idx->0 == self@.marks[mark].0,
    {
        if let Some((idx, _)) = self.marks.get(mark) {
            if idx <= text_len(&self.text) {
                Some(idx)
            } else {
                None
            }
        } else {
            None
        }
    }

    /// Gives out the text by lines.
    pub fn lines(&self) -> (lines: Lines<'_>)
        requires
            self@.text.len() < usize::MAX,
        ensures
            lines@ == (LinesView { text: self@.text, tail: 0 }),
    {
        Lines::new(&self.text, 0)
    }

    /// Gives out the text by lines, beginning at the specified mark.
    pub fn lines_from(&self, mark: Mark) -> (lines: Option<Lines<'_>>)
        requires
            self@.text.len() < usize::MAX,
        ensures
            lines is Some <==> self@.valid_mark(mark),
            lines is Some <==> self@.marks.contains_key(mark) && self@.marks[mark].0
                <= self@.text.len(),
            lines is Some ==> lines->0@ == (LinesView {
                text: self@.text,
                tail: self@.marks[mark].0,
            }),
    {
        if let Some(idx) = self.get_mark_idx(mark) {
            Some(Lines::new(&self.text, idx))
        } else {
            None
        }
    }

    /// Returns the status text for this buffer.
    pub fn status_text(&self) -> (status: String)
        ensures
            status@ == (match self@.file_path {
                Some(path) => path.push(' '),
                None => "untitled "@,
            }),
    {
        match &self.file_path {
            Some(path) => {
                let mut status = path.clone();
                status.append(" ");
                proof {
                    reveal_strlit(" ");
                }
                status
            },
            None => "untitled ".to_owned(),
        }
    }

    /// Sets the mark to a given absolute index. Adds a new mark or overwrites an existing mark.
    pub fn set_mark(&mut self, mark: Mark, idx: usize)
        ensures
            final(self)@ == old(self)@.mark_set(mark, idx as int),
            old(self)@.consistent() ==> final(self)@.consistent(),
    {
        proof {
            lemma_line_start(self@.text, idx as int);
        }
        if let Some(line) = get_line(idx, &self.text) {
            self.marks.set(mark, (idx, idx - line));
        }
    }

    /// Shift a mark relative to its position according to the direction given.
    pub fn shift_mark(&mut self, mark: Mark, direction: Direction, amount: usize)
        requires
            old(self)@.marks.contains_key(mark) ==> can_shift(
                old(self)@.text,
                old(self)@.marks[mark].0,
                direction,
                amount as int,
            ),
        ensures
            final(self)@ == old(self)@.mark_shifted(mark, direction, amount as int),
            old(self)@.consistent() ==> final(self)@.consistent(),
    {
        if let Some((idx, line_idx)) = self.marks.get(mark) {
            let to = shift(idx, line_idx, direction, amount, &self.text);
            self.marks.set(mark, to);
        }
    }

    /// Remove the chars at the mark.
    pub fn remove_chars(&mut self, mark: Mark, direction: Direction, num_chars: usize) -> (removed:
        Option<Vec<u8>>)
        requires
            old(self)@.marks.contains_key(mark) ==> can_remove(
                old(self)@.text,
                old(self)@.marks[mark].0,
                direction,
                num_chars as int,
            ),
        ensures
            removed is Some <==> old(self)@.marks.contains_key(mark),
            removed is Some ==> removed->0@ == old(self)@.removed_chars(
                mark,
                direction,
                num_chars as int,
            ),
            final(self)@ == old(self)@.chars_removed(mark, direction, num_chars as int),
            old(self)@.consistent() ==> final(self)@.consistent(),
    {
        if let Some((idx, _)) = self.marks.get(mark) {
            let len = text_len(&self.text);
            let (start, end): (usize, usize) = match direction {
                Direction::Left => (if idx >= num_chars {
                    idx - num_chars
                } else {
                    0
                }, idx),
                Direction::Right => (idx, if idx <= len && num_chars <= len - idx {
                    idx + num_chars
                } else {
                    len
                }),
                Direction::RightWord(edger) => (
                    idx,
                    match get_words(idx, num_chars, edger, &self.text) {
                        Some(start) => start,
                        None => len,
                    },
                ),
                Direction::LeftWord(edger) => (
                    match get_words_rev(idx, num_chars, edger, &self.text) {
                        Some(start) => start,
                        None => 0,
                    },
                    idx,
                ),
                _ => (idx, idx),
            };
            let end: usize = if end <= len {
                end
            } else {
                len
            };
            let start: usize = if start <= end {
                start
            } else {
                end
            };
            let mut transaction = self.log.start(idx);
            let removed = remove_range(&mut self.text, start, end, &mut transaction);
            let ghost entry = transaction@;
            self.log.finish(transaction);
            proof {
                lemma_removal(old(self)@.text, idx as int, start as int, end as int);
                if old(self)@.consistent() {
                    recorded_log_fits(old(self)@.log, entry, old(self)@.text);
                }
            }
            Some(removed)
        } else {
            None
        }
    }

    /// Insert a char at the mark.
    pub fn insert_char(&mut self, mark: Mark, ch: u8)
        requires
            old(self)@.marks.contains_key(mark) ==> old(self)@.valid_mark(mark),
        ensures
            final(self)@ == old(self)@.char_inserted(mark, ch),
            old(self)@.consistent() ==> final(self)@.consistent(),
    {
        if let Some((idx, _)) = self.marks.get(mark) {
            text_insert(&mut self.text, idx, ch);
            let mut transaction = self.log.start(idx);
            transaction.log(Change::Insert(idx, ch), idx);
            let ghost entry = transaction@;
            self.log.finish(transaction);
            proof {
                reveal_with_fuel(apply_changes, 2);
                reveal_with_fuel(changes_fit, 2);
                if old(self)@.consistent() {
                    recorded_log_fits(old(self)@.log, entry, old(self)@.text);
                }
            }
        }
    }

    /// Redo most recently undone action.
    pub fn redo(&mut self) -> (entry: Option<&LogEntry>)
        requires
            old(self)@.can_redo(),
        ensures
            entry is Some <==> old(self)@.log.redo.len() > 0,
            entry is Some ==> entry->0@ == old(self)@.log.redo.last().reversed(),
            final(self)@ == old(self)@.redone(),
            old(self)@.consistent() ==> final(self)@.consistent(),
    {
        proof {
            if old(self)@.consistent() && old(self)@.log.redo.len() > 0 {
                redone_log_fits(old(self)@.log, old(self)@.text);
            }
        }
        if let Some(transaction) = self.log.redo() {
            commit(transaction, &mut self.text);
            Some(transaction)
        } else {
            None
        }
    }

    /// Undo most recently performed action.
    pub fn undo(&mut self) -> (entry: Option<&LogEntry>)
        requires
            old(self)@.can_undo(),
        ensures
            entry is Some <==> old(self)@.log.undo.len() > 0,
            entry is Some ==> entry->0@ == old(self)@.log.undo.last().reversed(),
            final(self)@ == old(self)@.undone(),
            old(self)@.consistent() ==> final(self)@.consistent(),
    {
        proof {
            if old(self)@.consistent() && old(self)@.log.undo.len() > 0 {
                undone_log_fits(old(self)@.log, old(self)@.text);
            }
        }
        if let Some(transaction) = self.log.undo() {
            commit(transaction, &mut self.text);
            Some(transaction)
        } else {
            None
        }
    }
}

/// Every mark of a buffer has an absolute index and an index in its line that are not negative and
/// fit a machine integer.
pub proof fn marks_are_indices(buffer: &Buffer)
    ensures
        forall|mark: Mark| #[trigger]
            buffer@.marks.contains_key(mark) ==> {
                &&& 0 <= buffer@.marks[mark].0 <= usize::MAX
                &&& 0 <= buffer@.marks[mark].1 <= usize::MAX
            },
{
    buffer.marks.lemma_indices();
}

/// Removes a range of characters from a text, the last one first, and adds each removal to the
/// transaction.
fn remove_range(
    text: &mut GapBuffer<u8>,
    start: usize,
    end: usize,
    transaction: &mut Transaction,
) -> (removed: Vec<u8>)
    requires
        start <= end <= contents(*old(text)).len(),
        old(transaction)@.changes.len() == 0,
        old(transaction)@.end_point == old(transaction)@.init_point,
    ensures
        removed@ == contents(*old(text)).subrange(start as int, end as int),
        contents(*final(text)) == contents(*old(text)).take(start as int) + contents(
            *old(text),
        ).skip(end as int),
        final(transaction)@ == removal(
            contents(*old(text)),
            old(transaction)@.init_point,
            start as int,
            end as int,
        ),
{
    let ghost before = contents(*text);
    let ghost init = transaction@.init_point;
    let mut removed: Vec<u8> = Vec::new();
    let mut i: usize = end;
    while i > start
        invariant
            start <= i <= end <= before.len(),
            contents(*text) == before.take(i as int) + before.skip(end as int),
            removed@ == before.subrange(i as int, end as int).reverse(),
            transaction@ == removal(before, init, i as int, end as int),
        decreases i,
    {
        i = i - 1;
        if let Some(ch) = text_remove(text, i) {
            transaction.log(Change::Remove(i, ch), i);
            removed.push(ch);
        }
    }
    let mut ordered: Vec<u8> = Vec::new();
    let mut k: usize = removed.len();
    while k > 0
        invariant
            k <= removed.len(),
            removed@ == before.subrange(start as int, end as int).reverse(),
            start <= end <= before.len(),
            ordered@ == before.subrange(start as int, end as int).take(removed.len() - k),
        decreases k,
    {
        k = k - 1;
        ordered.push(removed[k]);
    }
    ordered
}

} // verus!
