//! What holds of buffers as a whole.

use crate::buffer::{can_remove, insertion, lemma_removal, removal, BufferView};
use crate::history::{
    apply_changes, changes_fit, redone_log_fits, reversed_changes_restore,
    reversed_twice, undone_log_fits,
};
use crate::marks::Mark;
use crate::motion::{lemma_first_word_edge, lemma_last_word_edge, Direction};
use vstd::prelude::*;

verus! {

/// Where the history belongs to the text, the next entry can be undone and the next one redone.
pub proof fn consistent_can_undo_and_redo(buffer: BufferView)
    requires
        buffer.consistent(),
    ensures
        buffer.can_undo(),
        buffer.can_redo(),
{
}

/// To undo the insertion of a character brings back the text and all that could be undone before.
pub proof fn undo_takes_back_insertion(buffer: BufferView, mark: Mark, ch: u8)
    requires
        buffer.valid_mark(mark),
        buffer.text.len() <= usize::MAX,
    ensures
        buffer.char_inserted(mark, ch).can_undo(),
        buffer.char_inserted(mark, ch).undone().text == buffer.text,
        buffer.char_inserted(mark, ch).undone().marks == buffer.marks,
        buffer.char_inserted(mark, ch).undone().log.undo == buffer.log.undo,
{
    let entry = insertion(buffer.marks[mark].0, ch);
    reveal_with_fuel(apply_changes, 2);
    reveal_with_fuel(changes_fit, 2);
    reversed_changes_restore(entry.changes, buffer.text);
}

/// What is removed lies within the text, and stands between what is kept: the text is what stays
/// before it, then what is removed, then what stays behind it.
pub proof fn removal_splits_text(
    buffer: BufferView,
    mark: Mark,
    direction: Direction,
    num_chars: int,
)
    requires
        buffer.marks.contains_key(mark),
        0 <= buffer.marks[mark].0,
        0 <= num_chars,
        can_remove(buffer.text, buffer.marks[mark].0, direction, num_chars),
    ensures
        ({
            let (start, end) = buffer.removed_range(mark, direction, num_chars);
            let removed = buffer.removed_chars(mark, direction, num_chars);
            let after = buffer.chars_removed(mark, direction, num_chars);
            &&& 0 <= start <= end <= buffer.text.len()
            &&& removed.len() == end - start
            &&& buffer.text == buffer.text.take(start) + removed + buffer.text.skip(end)
            &&& after.text == buffer.text.take(start) + buffer.text.skip(end)
            &&& after.text.len() + removed.len() == buffer.text.len()
        }),
{
    let idx = buffer.marks[mark].0;
    match direction {
        Direction::RightWord(edger) => {
            lemma_first_word_edge(buffer.text, idx + 1, buffer.text.len() - 1, edger);
        },
        Direction::LeftWord(edger) => {
            lemma_last_word_edge(buffer.text, idx, edger);
        },
        _ => {},
    }
}

/// To undo the removal of characters brings back the text and all that could be undone before.
/// Where nothing was removed there is nothing of it to undo.
pub proof fn undo_takes_back_removal(
    buffer: BufferView,
    mark: Mark,
    direction: Direction,
    num_chars: int,
)
    requires
        buffer.marks.contains_key(mark),
        0 <= buffer.marks[mark].0,
        0 <= num_chars,
        can_remove(buffer.text, buffer.marks[mark].0, direction, num_chars),
        buffer.text.len() <= usize::MAX,
        buffer.removed_chars(mark, direction, num_chars).len() > 0,
    ensures
        buffer.chars_removed(mark, direction, num_chars).can_undo(),
        buffer.chars_removed(mark, direction, num_chars).undone().text == buffer.text,
        buffer.chars_removed(mark, direction, num_chars).undone().marks == buffer.marks,
        buffer.chars_removed(mark, direction, num_chars).undone().log.undo == buffer.log.undo,
{
    let (start, end) = buffer.removed_range(mark, direction, num_chars);
    let entry = removal(buffer.text, buffer.marks[mark].0, start, end);
    removal_splits_text(buffer, mark, direction, num_chars);
    lemma_removal(buffer.text, buffer.marks[mark].0, start, end);
    reversed_changes_restore(entry.changes, buffer.text);
}

/// To redo what was just undone gives back the buffer as it was.
pub proof fn redo_takes_back_undo(buffer: BufferView)
    requires
        buffer.consistent(),
        buffer.log.undo.len() > 0,
    ensures
        buffer.undone().can_redo(),
        buffer.undone().redone() == buffer,
{
    let back = buffer.log.undo.last().reversed();
    undone_log_fits(buffer.log, buffer.text);
    reversed_changes_restore(back.changes, buffer.text);
    reversed_twice(buffer.log.undo.last());
}

/// To undo what was just redone gives back the buffer as it was.
pub proof fn undo_takes_back_redo(buffer: BufferView)
    requires
        buffer.consistent(),
        buffer.log.redo.len() > 0,
    ensures
        buffer.redone().can_undo(),
        buffer.redone().undone() == buffer,
{
    let again = buffer.log.redo.last().reversed();
    redone_log_fits(buffer.log, buffer.text);
    reversed_changes_restore(again.changes, buffer.text);
    reversed_twice(buffer.log.redo.last());
}

/// The buffer after a number of entries were undone.
pub open spec fn undone_times(buffer: BufferView, n: nat) -> BufferView
    decreases n,
{
    if n == 0 {
        buffer
    } else {
        undone_times(buffer, (n - 1) as nat).undone()
    }
}

/// The buffer after a number of entries were redone.
pub open spec fn redone_times(buffer: BufferView, n: nat) -> BufferView
    decreases n,
{
    if n == 0 {
        buffer
    } else {
        redone_times(buffer.redone(), (n - 1) as nat)
    }
}

/// All that was done can be undone step by step, and when it is redone as many times the buffer is
/// as it was.
pub proof fn redo_takes_back_all_undone(buffer: BufferView, n: nat)
    requires
        buffer.consistent(),
        n <= buffer.log.undo.len(),
    ensures
        undone_times(buffer, n).consistent(),
        undone_times(buffer, n).log.undo.len() == buffer.log.undo.len() - n,
        redone_times(undone_times(buffer, n), n) == buffer,
    decreases n,
{
    if n > 0 {
        let before = undone_times(buffer, (n - 1) as nat);
        redo_takes_back_all_undone(buffer, (n - 1) as nat);
        undone_log_fits(before.log, before.text);
        redo_takes_back_undo(before);
    }
}

/// Where there is nothing to undo, to undo changes nothing; so with what there is to redo.
pub proof fn nothing_to_undo_or_redo(buffer: BufferView)
    ensures
        buffer.log.undo.len() == 0 ==> buffer.undone() == buffer,
        buffer.log.redo.len() == 0 ==> buffer.redone() == buffer,
{
}

/// The insertion of a character leaves nothing to redo.
pub proof fn insertion_clears_redo(buffer: BufferView, mark: Mark, ch: u8)
    requires
        buffer.marks.contains_key(mark),
    ensures
        buffer.char_inserted(mark, ch).log.redo.len() == 0,
{
}

/// The removal of characters leaves nothing to redo, and leaves the history as it was where there
/// was nothing to remove.
pub proof fn removal_clears_redo(
    buffer: BufferView,
    mark: Mark,
    direction: Direction,
    num_chars: int,
)
    requires
        buffer.marks.contains_key(mark),
        0 <= buffer.marks[mark].0,
        0 <= num_chars,
        can_remove(buffer.text, buffer.marks[mark].0, direction, num_chars),
    ensures
        buffer.removed_chars(mark, direction, num_chars).len() > 0 ==> buffer.chars_removed(
            mark,
            direction,
            num_chars,
        ).log.redo.len() == 0,
        buffer.removed_chars(mark, direction, num_chars).len() == 0 ==> buffer.chars_removed(
            mark,
            direction,
            num_chars,
        ) == buffer,
{
    removal_splits_text(buffer, mark, direction, num_chars);
}

/// To remove one character to the right of a mark, right after one was inserted there, removes
/// that character and brings back the text.
pub proof fn removal_takes_back_insertion(buffer: BufferView, mark: Mark, ch: u8)
    requires
        buffer.valid_mark(mark),
    ensures
        buffer.char_inserted(mark, ch).removed_chars(mark, Direction::Right, 1) == seq![ch],
        buffer.char_inserted(mark, ch).chars_removed(mark, Direction::Right, 1).text
            == buffer.text,
{
}

/// A mark that was set to an index is there, and is valid if the index is not behind the text. The
/// other marks, the text and the history stay as they were.
pub proof fn set_mark_is_found(buffer: BufferView, mark: Mark, idx: int)
    requires
        0 <= idx,
    ensures
        buffer.mark_set(mark, idx).marks[mark].0 == idx,
        buffer.mark_set(mark, idx).valid_mark(mark) <==> idx <= buffer.text.len(),
        forall|other: Mark|
            other != mark ==> {
                &&& buffer.mark_set(mark, idx).marks.contains_key(other)
                    == buffer.marks.contains_key(other)
                &&& buffer.mark_set(mark, idx).marks[other] == buffer.marks[other]
            },
        buffer.mark_set(mark, idx).text == buffer.text,
        buffer.mark_set(mark, idx).log == buffer.log,
{
}

/// To shift a mark leaves the other marks, the text and the history as they were.
pub proof fn shift_moves_only_its_mark(
    buffer: BufferView,
    mark: Mark,
    direction: Direction,
    amount: int,
)
    ensures
        buffer.mark_shifted(mark, direction, amount).marks.dom() == buffer.marks.dom(),
        forall|other: Mark|
            other != mark ==> buffer.mark_shifted(mark, direction, amount).marks[other]
                == buffer.marks[other],
        buffer.mark_shifted(mark, direction, amount).text == buffer.text,
        buffer.mark_shifted(mark, direction, amount).log == buffer.log,
{
}

} // verus!
