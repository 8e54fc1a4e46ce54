//! What edits do to a buffer, said of the text, the marks and the history themselves.

use crate::buffer::{can_remove, BufferView};
use crate::history::{apply_changes, can_apply};
use crate::laws::removal_splits_text;
use crate::log::{Change, EntryView, LogView};
use crate::marks::Mark;
use crate::motion::{
    can_shift, lemma_first_word_edge, lemma_last_word_edge, lemma_line_start, shifted, Direction,
};
use crate::shift_laws::line_begins;
use vstd::prelude::*;

verus! {

/// A blank buffer holds no text and no marks, has nothing to undo or redo, and no place on disk.
pub proof fn blank_buffer_is_empty()
    ensures
        BufferView::blank().text.len() == 0,
        forall|mark: Mark| !BufferView::blank().marks.contains_key(mark),
        BufferView::blank().log.undo.len() == 0,
        BufferView::blank().log.redo.len() == 0,
        BufferView::blank().file_path is None,
{
}

/// A mark is valid where it is in the table and not behind the text.
pub proof fn valid_marks_are_in_text(buffer: BufferView, mark: Mark)
    ensures
        buffer.valid_mark(mark) <==> buffer.marks.contains_key(mark) && 0 <= buffer.marks[mark].0
            && buffer.marks[mark].0 <= buffer.text.len(),
{
}

/// A mark that is set stands at the given index, with its distance from where its line begins as
/// its index in the line. No other mark and nothing else of the buffer changes.
pub proof fn set_mark_places_mark(buffer: BufferView, mark: Mark, idx: int)
    requires
        0 <= idx,
    ensures
        ({
            let after = buffer.mark_set(mark, idx);
            &&& after.marks == buffer.marks.insert(mark, after.marks[mark])
            &&& after.marks[mark].0 == idx
            &&& line_begins(buffer.text, idx, idx - after.marks[mark].1)
            &&& after.text == buffer.text
            &&& after.log == buffer.log
            &&& after.file_path == buffer.file_path
        }),
{
    lemma_line_start(buffer.text, idx);
}

/// An inserted character stands at the mark. What stood before the mark stays, and what stood at
/// the mark or behind it moves up by one. The marks stay where they are. The insertion is the next
/// to be undone, and nothing is left to redo.
pub proof fn insertion_places_char(buffer: BufferView, mark: Mark, ch: u8)
    requires
        buffer.marks.contains_key(mark),
        0 <= buffer.marks[mark].0 <= buffer.text.len() <= usize::MAX,
    ensures
        ({
            let idx = buffer.marks[mark].0;
            let after = buffer.char_inserted(mark, ch);
            &&& after.text.len() == buffer.text.len() + 1
            &&& after.text[idx] == ch
            &&& forall|k: int| 0 <= k < idx ==> after.text[k] == buffer.text[k]
            &&& forall|k: int| idx <= k < buffer.text.len() ==> after.text[k + 1] == buffer.text[k]
            &&& after.marks == buffer.marks
            &&& after.file_path == buffer.file_path
            &&& after.log.redo.len() == 0
            &&& after.log.undo.len() == buffer.log.undo.len() + 1
            &&& after.log.undo.drop_last() == buffer.log.undo
            &&& after.log.undo.last().init_point == idx
            &&& after.log.undo.last().end_point == idx
            &&& after.log.undo.last().changes == seq![Change::Insert(idx as usize, ch)]
        }),
{
}

/// At a mark that is not in the table nothing is inserted or removed.
pub proof fn unknown_mark_edits_nothing(
    buffer: BufferView,
    mark: Mark,
    ch: u8,
    direction: Direction,
    num_chars: int,
)
    requires
        !buffer.marks.contains_key(mark),
    ensures
        buffer.char_inserted(mark, ch) == buffer,
        buffer.chars_removed(mark, direction, num_chars) == buffer,
{
}

/// Whether one buffer comes from another by taking out characters at a mark, so many from `start`
/// on: they are what was removed, in order, and the rest of the text closes up. The marks stay
/// where they are. Where something was removed, nothing is left to redo, and the removals, one for
/// each character and the last character first, are together the next to be undone. Where nothing
/// was, nothing changes.
pub open spec fn takes_out(
    before: BufferView,
    after: BufferView,
    removed: Seq<u8>,
    idx: int,
    start: int,
    count: int,
) -> bool {
    &&& 0 <= start
    &&& 0 <= count
    &&& start + count <= before.text.len()
    &&& removed.len() == count
    &&& forall|k: int| 0 <= k < count ==> removed[k] == before.text[start + k]
    &&& after.text.len() == before.text.len() - count
    &&& forall|k: int| 0 <= k < start ==> after.text[k] == before.text[k]
    &&& forall|k: int| start <= k < after.text.len() ==> after.text[k] == before.text[k + count]
    &&& after.marks == before.marks
    &&& after.file_path == before.file_path
    &&& count == 0 ==> after.log == before.log
    &&& count > 0 ==> {
        &&& after.log.redo.len() == 0
        &&& after.log.undo.len() == before.log.undo.len() + 1
        &&& after.log.undo.drop_last() == before.log.undo
        &&& after.log.undo.last().init_point == idx
        &&& after.log.undo.last().end_point == start
        &&& after.log.undo.last().changes.len() == count
        &&& forall|k: int|
            0 <= k < count ==> after.log.undo.last().changes[k] == Change::Remove(
                (start + count - 1 - k) as usize,
                before.text[start + count - 1 - k],
            )
    }
}

/// A removal takes out the range that it reaches.
proof fn lemma_removal_takes_out(
    buffer: BufferView,
    mark: Mark,
    direction: Direction,
    num_chars: int,
)
    requires
        buffer.marks.contains_key(mark),
        0 <= buffer.marks[mark].0,
        0 <= num_chars,
        can_remove(buffer.text, buffer.marks[mark].0, direction, num_chars),
    ensures
        takes_out(
            buffer,
            buffer.chars_removed(mark, direction, num_chars),
            buffer.removed_chars(mark, direction, num_chars),
            buffer.marks[mark].0,
            buffer.removed_range(mark, direction, num_chars).0,
            buffer.removed_range(mark, direction, num_chars).1 - buffer.removed_range(
                mark,
                direction,
                num_chars,
            ).0,
        ),
{
    removal_splits_text(buffer, mark, direction, num_chars);
    let (start, end) = buffer.removed_range(mark, direction, num_chars);
    let after = buffer.chars_removed(mark, direction, num_chars);
    if start < end {
        assert(after.log.undo.drop_last() == buffer.log.undo);
    }
}

/// Characters can be removed to the left and to the right, by words where a mark can be shifted by
/// words, and in no other direction.
pub proof fn removals_that_can_be_made(
    text: Seq<u8>,
    idx: int,
    direction: Direction,
    num_chars: int,
)
    ensures
        direction is Left || direction is Right ==> can_remove(text, idx, direction, num_chars),
        direction is LeftWord || direction is RightWord ==> (can_remove(
            text,
            idx,
            direction,
            num_chars,
        ) <==> can_shift(text, idx, direction, num_chars)),
        can_remove(text, idx, direction, num_chars) ==> direction is Left || direction is Right
            || direction is LeftWord || direction is RightWord,
{
}

/// To the left of a mark within the text, just so many characters right before the mark are
/// removed, or all there are. Newlines are characters like others.
pub proof fn left_removes_before_mark(buffer: BufferView, mark: Mark, num_chars: int)
    requires
        buffer.marks.contains_key(mark),
        0 <= buffer.marks[mark].0 <= buffer.text.len(),
        0 <= num_chars,
    ensures
        ({
            let idx = buffer.marks[mark].0;
            let count = if num_chars <= idx {
                num_chars
            } else {
                idx
            };
            takes_out(
                buffer,
                buffer.chars_removed(mark, Direction::Left, num_chars),
                buffer.removed_chars(mark, Direction::Left, num_chars),
                idx,
                idx - count,
                count,
            )
        }),
{
    lemma_removal_takes_out(buffer, mark, Direction::Left, num_chars);
}

/// To the left of a mark behind the text, what the removal reaches of the text is removed from its
/// end.
pub proof fn left_removes_from_behind_text(buffer: BufferView, mark: Mark, num_chars: int)
    requires
        buffer.marks.contains_key(mark),
        buffer.text.len() < buffer.marks[mark].0,
        0 <= num_chars,
    ensures
        ({
            let idx = buffer.marks[mark].0;
            let len = buffer.text.len() as int;
            let count = if num_chars <= idx - len {
                0
            } else if num_chars <= idx {
                num_chars - (idx - len)
            } else {
                len
            };
            takes_out(
                buffer,
                buffer.chars_removed(mark, Direction::Left, num_chars),
                buffer.removed_chars(mark, Direction::Left, num_chars),
                idx,
                len - count,
                count,
            )
        }),
{
    lemma_removal_takes_out(buffer, mark, Direction::Left, num_chars);
}

/// To the right of a mark, just so many characters from the mark on are removed, or all there are,
/// which is none for a mark behind the text.
pub proof fn right_removes_from_mark(buffer: BufferView, mark: Mark, num_chars: int)
    requires
        buffer.marks.contains_key(mark),
        0 <= buffer.marks[mark].0,
        0 <= num_chars,
    ensures
        ({
            let idx = buffer.marks[mark].0;
            let len = buffer.text.len() as int;
            takes_out(
                buffer,
                buffer.chars_removed(mark, Direction::Right, num_chars),
                buffer.removed_chars(mark, Direction::Right, num_chars),
                idx,
                if idx <= len {
                    idx
                } else {
                    len
                },
                if idx > len {
                    0
                } else if idx + num_chars <= len {
                    num_chars
                } else {
                    len - idx
                },
            )
        }),
{
    lemma_removal_takes_out(buffer, mark, Direction::Right, num_chars);
}

/// By words to the right, what stands from a mark to where a shift by as many words takes it is
/// removed, which is nothing for a mark behind the text.
pub proof fn right_word_removes_up_to_shift(
    buffer: BufferView,
    mark: Mark,
    direction: Direction,
    num_words: int,
)
    requires
        buffer.marks.contains_key(mark),
        0 <= buffer.marks[mark].0,
        0 <= num_words,
        direction is RightWord,
        can_shift(buffer.text, buffer.marks[mark].0, direction, num_words),
    ensures
        ({
            let (idx, line_idx) = buffer.marks[mark];
            let len = buffer.text.len() as int;
            let to = shifted(buffer.text, idx, line_idx, direction, num_words).0;
            takes_out(
                buffer,
                buffer.chars_removed(mark, direction, num_words),
                buffer.removed_chars(mark, direction, num_words),
                idx,
                if idx <= len {
                    idx
                } else {
                    len
                },
                if idx <= len {
                    to - idx
                } else {
                    0
                },
            )
        }),
{
    lemma_removal_takes_out(buffer, mark, direction, num_words);
    if let Direction::RightWord(edger) = direction {
        lemma_first_word_edge(
            buffer.text,
            buffer.marks[mark].0 + 1,
            buffer.text.len() - 1,
            edger,
        );
    }
}

/// By words to the left, what stands from where a shift by as many words takes a mark up to the
/// mark, or to the end of the text, is removed.
pub proof fn left_word_removes_from_shift(
    buffer: BufferView,
    mark: Mark,
    direction: Direction,
    num_words: int,
)
    requires
        buffer.marks.contains_key(mark),
        0 <= buffer.marks[mark].0,
        0 <= num_words,
        direction is LeftWord,
        can_shift(buffer.text, buffer.marks[mark].0, direction, num_words),
    ensures
        ({
            let (idx, line_idx) = buffer.marks[mark];
            let len = buffer.text.len() as int;
            let to = shifted(buffer.text, idx, line_idx, direction, num_words).0;
            takes_out(
                buffer,
                buffer.chars_removed(mark, direction, num_words),
                buffer.removed_chars(mark, direction, num_words),
                idx,
                to,
                if idx <= len {
                    idx - to
                } else {
                    len - to
                },
            )
        }),
{
    lemma_removal_takes_out(buffer, mark, direction, num_words);
    if let Direction::LeftWord(edger) = direction {
        lemma_last_word_edge(buffer.text, buffer.marks[mark].0, edger);
    }
}

/// The change that takes back an insertion is the removal of the same character at the same index,
/// and the other way round.
pub proof fn reversed_change_is_opposite(idx: usize, ch: u8)
    ensures
        Change::Insert(idx, ch).reversed() == Change::Remove(idx, ch),
        Change::Remove(idx, ch).reversed() == Change::Insert(idx, ch),
{
}

/// A reversed entry goes from the end of the entry to its start, with each change reversed and the
/// last one first.
pub proof fn reversed_entry_runs_backwards(entry: EntryView)
    ensures
        entry.reversed().init_point == entry.end_point,
        entry.reversed().end_point == entry.init_point,
        entry.reversed().changes.len() == entry.changes.len(),
        forall|k: int|
            0 <= k < entry.changes.len() ==> entry.reversed().changes[k]
                == entry.changes[entry.changes.len() - 1 - k].reversed(),
{
}

/// No changes leave a text as it is.
pub proof fn no_changes_change_nothing(text: Seq<u8>)
    ensures
        apply_changes(Seq::empty(), text) == text,
        can_apply(Seq::empty(), text),
{
}

/// One change more, an insertion, puts its character at its index in what the changes before it
/// make of a text. It can be carried out within that text and right behind it.
pub proof fn insertion_applies_last(changes: Seq<Change>, text: Seq<u8>, idx: usize, ch: u8)
    requires
        idx <= apply_changes(changes, text).len(),
    ensures
        ({
            let before = apply_changes(changes, text);
            let after = apply_changes(changes.push(Change::Insert(idx, ch)), text);
            &&& after.len() == before.len() + 1
            &&& after[idx as int] == ch
            &&& forall|k: int| 0 <= k < idx ==> after[k] == before[k]
            &&& forall|k: int| idx <= k < before.len() ==> after[k + 1] == before[k]
        }),
        can_apply(changes.push(Change::Insert(idx, ch)), text) <==> can_apply(changes, text),
{
    assert(changes.push(Change::Insert(idx, ch)).drop_last() == changes);
}

/// An insertion beyond the end of the text that the changes before it make cannot be carried out.
pub proof fn insertion_beyond_end_cannot_apply(
    changes: Seq<Change>,
    text: Seq<u8>,
    idx: usize,
    ch: u8,
)
    requires
        idx > apply_changes(changes, text).len(),
    ensures
        !can_apply(changes.push(Change::Insert(idx, ch)), text),
{
    assert(changes.push(Change::Insert(idx, ch)).drop_last() == changes);
}

/// One change more, a removal, takes the character at its index out of what the changes before it
/// make of a text, whichever character that is. Where nothing stands at the index nothing changes.
pub proof fn removal_applies_last(changes: Seq<Change>, text: Seq<u8>, idx: usize, ch: u8)
    ensures
        ({
            let before = apply_changes(changes, text);
            let after = apply_changes(changes.push(Change::Remove(idx, ch)), text);
            &&& idx >= before.len() ==> after == before
            &&& idx < before.len() ==> {
                &&& after.len() == before.len() - 1
                &&& forall|k: int| 0 <= k < idx ==> after[k] == before[k]
                &&& forall|k: int| idx <= k < after.len() ==> after[k] == before[k + 1]
            }
        }),
        can_apply(changes.push(Change::Remove(idx, ch)), text) <==> can_apply(changes, text),
{
    assert(changes.push(Change::Remove(idx, ch)).drop_last() == changes);
}

/// A recorded transaction is the next to be undone, behind all that could be undone before, and
/// leaves nothing to redo. One without changes leaves the log as it is.
pub proof fn recorded_entry_is_next(log: LogView, entry: EntryView)
    ensures
        entry.changes.len() == 0 ==> log.recorded(entry) == log,
        entry.changes.len() > 0 ==> {
            &&& log.recorded(entry).undo.len() == log.undo.len() + 1
            &&& log.recorded(entry).undo.drop_last() == log.undo
            &&& log.recorded(entry).undo.last() == entry
            &&& log.recorded(entry).redo.len() == 0
        },
{
}

/// A log with nothing to undo is left as it is by undoing, and one with nothing to redo by redoing.
pub proof fn log_without_entries_stays(log: LogView)
    ensures
        log.undo.len() == 0 ==> log.undone() == log,
        log.redo.len() == 0 ==> log.redone() == log,
{
}

/// To undo takes one entry from those to be undone, and puts it, reversed, behind those to be
/// redone. It carries the reversed entry out on the text, and leaves all else as it is.
pub proof fn undo_moves_one_entry(buffer: BufferView)
    requires
        buffer.log.undo.len() > 0,
    ensures
        buffer.undone().log.undo == buffer.log.undo.drop_last(),
        buffer.undone().log.redo.len() == buffer.log.redo.len() + 1,
        buffer.undone().log.redo.drop_last() == buffer.log.redo,
        buffer.undone().log.redo.last() == buffer.log.undo.last().reversed(),
        buffer.undone().text == apply_changes(
            buffer.log.undo.last().reversed().changes,
            buffer.text,
        ),
        buffer.undone().marks == buffer.marks,
        buffer.undone().file_path == buffer.file_path,
        buffer.log.undone() == buffer.undone().log,
{
}

/// To redo takes one entry from those to be redone, and puts it, reversed, behind those to be
/// undone. It carries the reversed entry out on the text, and leaves all else as it is.
pub proof fn redo_moves_one_entry(buffer: BufferView)
    requires
        buffer.log.redo.len() > 0,
    ensures
        buffer.redone().log.redo == buffer.log.redo.drop_last(),
        buffer.redone().log.undo.len() == buffer.log.undo.len() + 1,
        buffer.redone().log.undo.drop_last() == buffer.log.undo,
        buffer.redone().log.undo.last() == buffer.log.redo.last().reversed(),
        buffer.redone().text == apply_changes(
            buffer.log.redo.last().reversed().changes,
            buffer.text,
        ),
        buffer.redone().marks == buffer.marks,
        buffer.redone().file_path == buffer.file_path,
        buffer.log.redone() == buffer.redone().log,
{
}

} // verus!
