//! What holds of lines, words and the shifting of marks.

use crate::lines::{lemma_lines_count, lines_of, LinesView};
use crate::motion::{
    can_shift, column, least, lemma_first_word_edge, lemma_last_word_edge, lemma_line_end,
    lemma_line_end_from, lemma_line_start, line_end, line_end_from, line_start, newlines_before,
    newlines_from, same_index, shifted, word_edge, Direction, WordEdgeMatch,
};
use crate::utils::NEWLINE;
use vstd::prelude::*;

verus! {

/// Only one index is the start of the line of a mark within the text: that with a newline, or
/// nothing, right before it and no newline from there to the mark.
pub proof fn line_start_is_unique(text: Seq<u8>, mark: int, start: int)
    requires
        0 <= start <= mark <= text.len(),
        start == 0 || text[start - 1] == NEWLINE,
        forall|k: int| start <= k < mark ==> text[k] != NEWLINE,
    ensures
        line_start(text, mark) == start,
{
    lemma_line_start(text, mark);
}

/// The end of a line is in the same line.
pub proof fn line_end_is_in_line(text: Seq<u8>, mark: int)
    requires
        0 <= mark,
    ensures
        line_start(text, line_end(text, mark)) == line_start(text, mark),
{
    lemma_line_start(text, mark);
    lemma_line_end(text, mark);
    line_start_is_unique(text, line_end(text, mark), line_start(text, mark));
}

/// The newlines before an index are below it, the highest first, and are all there are.
pub proof fn newlines_before_are_all(text: Seq<u8>, idx: int)
    requires
        0 <= idx <= text.len(),
    ensures
        forall|k: int|
            #![trigger newlines_before(text, idx)[k]]
            0 <= k < newlines_before(text, idx).len() ==> {
                let at = newlines_before(text, idx)[k];
                0 <= at < idx && text[at] == NEWLINE
            },
        forall|j: int, k: int|
            0 <= j < k < newlines_before(text, idx).len() ==> newlines_before(text, idx)[j]
                > newlines_before(text, idx)[k],
        forall|at: int|
            0 <= at < idx && text[at] == NEWLINE ==> newlines_before(text, idx).contains(at),
    decreases idx,
{
    if idx > 0 {
        newlines_before_are_all(text, idx - 1);
        let all = newlines_before(text, idx);
        let fewer = newlines_before(text, idx - 1);
        if text[idx - 1] == NEWLINE {
            assert forall|at: int| 0 <= at < idx && text[at] == NEWLINE implies all.contains(
                at,
            ) by {
                if at == idx - 1 {
                    assert(all[0] == at);
                } else {
                    let k = choose|k: int| 0 <= k < fewer.len() && fewer[k] == at;
                    assert(all[k + 1] == at);
                }
            }
        }
    }
}

/// Where no newline stands between two indices, the same newlines stand before both.
proof fn lemma_newlines_between(text: Seq<u8>, low: int, high: int)
    requires
        0 <= low <= high <= text.len(),
        forall|k: int| low <= k < high ==> text[k] != NEWLINE,
    ensures
        newlines_before(text, high) == newlines_before(text, low),
    decreases high,
{
    if low < high {
        lemma_newlines_between(text, low, high - 1);
    }
}

/// Of the newlines before an index, those from the `k`-th on are the ones before the `k`-th line
/// above ends.
pub proof fn lemma_newlines_above(text: Seq<u8>, idx: int, k: int)
    requires
        0 <= idx <= text.len(),
        0 <= k < newlines_before(text, idx).len(),
    ensures
        0 <= newlines_before(text, idx)[k] < idx,
        text[newlines_before(text, idx)[k]] == NEWLINE,
        newlines_before(text, newlines_before(text, idx)[k]) == newlines_before(text, idx).skip(
            k + 1,
        ),
        forall|j: int|
            newlines_before(text, idx)[k] < j < (if k == 0 {
                idx
            } else {
                newlines_before(text, idx)[k - 1]
            }) ==> text[j] != NEWLINE,
    decreases idx,
{
    if text[idx - 1] == NEWLINE {
        assert(newlines_before(text, idx) == seq![idx - 1] + newlines_before(text, idx - 1));
        if k > 0 {
            lemma_newlines_above(text, idx - 1, k - 1);
        }
    } else {
        lemma_newlines_above(text, idx - 1, k);
    }
}

/// The `k`-th newline from an index on has as many newlines before it as the index has, and `k`
/// more; none stands between it and the one before, or the index.
pub proof fn lemma_newlines_below(text: Seq<u8>, idx: int, k: int)
    requires
        0 <= idx <= text.len(),
        0 <= k < newlines_from(text, idx).len(),
    ensures
        idx <= newlines_from(text, idx)[k] < text.len(),
        text[newlines_from(text, idx)[k]] == NEWLINE,
        k > 0 ==> newlines_from(text, idx)[k - 1] < newlines_from(text, idx)[k],
        newlines_before(text, newlines_from(text, idx)[k]).len() == newlines_before(text, idx).len()
            + k,
        forall|j: int|
            (if k == 0 {
                idx
            } else {
                newlines_from(text, idx)[k - 1] + 1
            }) <= j < newlines_from(text, idx)[k] ==> text[j] != NEWLINE,
    decreases text.len() - idx,
{
    if text[idx] == NEWLINE {
        assert(newlines_from(text, idx) == seq![idx] + newlines_from(text, idx + 1));
        if k > 0 {
            lemma_newlines_below(text, idx + 1, k - 1);
        }
    } else {
        lemma_newlines_below(text, idx + 1, k);
    }
}

/// No newline stands behind the last of those from an index on.
pub proof fn lemma_newlines_end(text: Seq<u8>, idx: int)
    requires
        0 <= idx <= text.len(),
    ensures
        ({
            let all = newlines_from(text, idx);
            let low = if all.len() == 0 {
                idx
            } else {
                all.last() + 1
            };
            &&& idx <= low <= text.len()
            &&& forall|j: int| low <= j < text.len() ==> text[j] != NEWLINE
        }),
    decreases text.len() - idx,
{
    if idx < text.len() {
        lemma_newlines_end(text, idx + 1);
    }
}

/// The coordinates of an index, its distance from the start of its line and the number of newlines
/// before it, belong to no other index of the text.
pub proof fn coordinates_determine_index(text: Seq<u8>, idx1: int, idx2: int)
    requires
        0 <= idx1 <= text.len(),
        0 <= idx2 <= text.len(),
        column(text, idx1) == column(text, idx2),
        newlines_before(text, idx1).len() == newlines_before(text, idx2).len(),
    ensures
        idx1 == idx2,
{
    if idx1 < idx2 {
        lemma_same_line(text, idx1, idx2);
    } else if idx2 < idx1 {
        lemma_same_line(text, idx2, idx1);
    }
}

/// Two indices with as many newlines before them are in the same line.
proof fn lemma_same_line(text: Seq<u8>, low: int, high: int)
    requires
        0 <= low <= high <= text.len(),
        newlines_before(text, low).len() == newlines_before(text, high).len(),
    ensures
        line_start(text, low) == line_start(text, high),
    decreases high,
{
    lemma_newlines_grow(text, low, high);
    if low < high {
        lemma_newlines_grow(text, low, high - 1);
        lemma_same_line(text, low, high - 1);
    }
}

/// The further on in the text, the more newlines stand before.
proof fn lemma_newlines_grow(text: Seq<u8>, low: int, high: int)
    requires
        0 <= low <= high <= text.len(),
    ensures
        newlines_before(text, low).len() <= newlines_before(text, high).len(),
    decreases high,
{
    if low < high {
        lemma_newlines_grow(text, low, high - 1);
    }
}

/// A mark that is shifted stays within the text, unless it is behind the text and goes to the left
/// by too little to come back.
pub proof fn shifted_mark_is_in_text(
    text: Seq<u8>,
    idx: int,
    line_idx: int,
    direction: Direction,
    amount: int,
)
    requires
        0 <= idx,
        0 <= line_idx,
        0 <= amount,
        can_shift(text, idx, direction, amount),
        direction is Left ==> idx - amount <= text.len(),
    ensures
        0 <= shifted(text, idx, line_idx, direction, amount).0 <= text.len(),
{
    lemma_line_start(text, idx);
    lemma_line_end(text, idx);
    match direction {
        Direction::Up => {
            let newlines = newlines_before(text, idx);
            if amount <= newlines.len() {
                lemma_newlines_above(text, idx, amount - 1);
                lemma_newlines_above(text, idx, 0);
            }
            if amount < newlines.len() {
                lemma_newlines_above(text, idx, amount);
            }
        },
        Direction::Down => {
            let newlines = newlines_from(text, idx);
            if idx <= text.len() && amount <= newlines.len() {
                lemma_newlines_below(text, idx, amount - 1);
            }
            if idx <= text.len() && amount < newlines.len() {
                lemma_newlines_below(text, idx, amount);
            }
        },
        Direction::RightWord(edger) => {
            lemma_first_word_edge(text, idx + 1, text.len() - 1, edger);
        },
        Direction::LeftWord(edger) => {
            lemma_last_word_edge(text, idx, edger);
        },
        _ => {},
    }
}

/// A mark that is shifted within or along its line, by words or to the first line has as its index
/// in its line its distance from the start of the line. To the last line it goes with the index
/// 0, which is that distance only where the last line is empty.
pub proof fn shifted_mark_has_column(
    text: Seq<u8>,
    idx: int,
    line_idx: int,
    direction: Direction,
    amount: int,
)
    requires
        0 <= idx,
        0 <= amount,
        !(direction is Up),
        !(direction is Down),
        can_shift(text, idx, direction, amount),
        direction is LastLine ==> line_start(text, text.len() as int) == text.len(),
    ensures
        ({
            let (to, to_line_idx) = shifted(text, idx, line_idx, direction, amount);
            to_line_idx == column(text, to)
        }),
{
    lemma_line_start(text, 0);
    lemma_line_start(text, idx);
    line_end_is_in_line(text, idx);
    line_start_is_unique(text, line_start(text, idx), line_start(text, idx));
}

/// Vertical traversals leave the index of a mark in its line unchanged, unless they go beyond the
/// first or the last line; then it is that of the place where they end.
pub proof fn vertical_shift_keeps_line_idx(
    text: Seq<u8>,
    idx: int,
    line_idx: int,
    direction: Direction,
    amount: int,
)
    requires
        can_shift(text, idx, direction, amount),
        direction is Up || direction is Down,
        direction is Up ==> amount <= newlines_before(text, idx).len() || line_idx == 0,
        direction is Down ==> amount <= newlines_from(text, idx).len() || line_idx == column(
            text,
            text.len() as int,
        ),
    ensures
        shifted(text, idx, line_idx, direction, amount).1 == line_idx,
{
}

/// A mark that is shifted up comes to the line that is so many lines above, and there to its index
/// in the line or, in a shorter line, to the end. A mark that goes up two lines or more to the
/// first line, with an index behind the end of that line, is left out: it only stops at the end of
/// the line above its own.
pub proof fn up_goes_up(text: Seq<u8>, idx: int, line_idx: int, amount: int)
    requires
        0 <= idx <= text.len(),
        0 <= line_idx,
        0 < amount <= newlines_before(text, idx).len(),
        amount == newlines_before(text, idx).len() ==> amount == 1 || line_idx <= newlines_before(
            text,
            idx,
        ).last(),
    ensures
        ({
            let (to, _) = shifted(text, idx, line_idx, Direction::Up, amount);
            &&& newlines_before(text, to).len() == newlines_before(text, idx).len() - amount
            &&& column(text, to) == line_idx || column(text, to) < line_idx && text[to] == NEWLINE
        }),
{
    let newlines = newlines_before(text, idx);
    let (to, _) = shifted(text, idx, line_idx, Direction::Up, amount);
    let end = newlines[amount - 1];
    newlines_before_are_all(text, idx);
    lemma_newlines_above(text, idx, amount - 1);
    let start = if amount == newlines.len() {
        0
    } else {
        newlines[amount] + 1
    };
    if amount < newlines.len() {
        lemma_newlines_above(text, idx, amount);
    } else {
        assert forall|k: int| 0 <= k < end implies text[k] != NEWLINE by {
            newlines_before_are_all(text, end);
        }
    }
    lemma_newlines_between(text, to, end);
    line_start_is_unique(text, to, start);
}

/// A mark that is shifted down comes to the line that is so many lines below, and there to its
/// index in the line or, in a shorter line, to the end.
pub proof fn down_goes_down(text: Seq<u8>, idx: int, line_idx: int, amount: int)
    requires
        0 <= idx <= text.len(),
        0 <= line_idx,
        0 < amount <= newlines_from(text, idx).len(),
    ensures
        ({
            let (to, _) = shifted(text, idx, line_idx, Direction::Down, amount);
            &&& newlines_before(text, to).len() == newlines_before(text, idx).len() + amount
            &&& column(text, to) == line_idx || column(text, to) < line_idx && (to == text.len()
                || text[to] == NEWLINE)
        }),
{
    let newlines = newlines_from(text, idx);
    let (to, _) = shifted(text, idx, line_idx, Direction::Down, amount);
    let start = newlines[amount - 1] + 1;
    lemma_newlines_below(text, idx, amount - 1);
    if amount < newlines.len() {
        lemma_newlines_below(text, idx, amount);
    } else {
        lemma_newlines_end(text, idx);
    }
    lemma_newlines_between(text, start, to);
    line_start_is_unique(text, to, start);
}

/// To go right and then left by as much brings a mark back, if the text reaches that far.
pub proof fn left_takes_back_right(text: Seq<u8>, idx: int, line_idx: int, amount: int)
    requires
        0 <= idx,
        0 <= amount,
        idx + amount <= text.len(),
    ensures
        ({
            let (to, to_line_idx) = shifted(text, idx, line_idx, Direction::Right, amount);
            shifted(text, to, to_line_idx, Direction::Left, amount) == (idx, column(text, idx))
        }),
{
}

/// Blank lines are always counted as a word.
pub proof fn blank_line_is_word(edger: WordEdgeMatch)
    ensures
        word_edge(edger, NEWLINE, NEWLINE),
{
}

/// By words to the right a mark comes to the first word edge behind it, or to the end of the text
/// where there is none before the last character.
pub proof fn right_word_is_next_edge(
    text: Seq<u8>,
    idx: int,
    line_idx: int,
    edger: WordEdgeMatch,
    amount: int,
)
    requires
        0 <= idx,
        0 < amount,
        text.len() > 0,
    ensures
        ({
            let (to, _) = shifted(text, idx, line_idx, Direction::RightWord(edger), amount);
            ||| {
                &&& idx < to < text.len() - 1
                &&& word_edge(edger, text[to - 1], text[to])
                &&& forall|k: int|
                    idx < k < to ==> !word_edge(edger, text[k - 1], #[trigger] text[k])
            }
            ||| {
                &&& to == text.len()
                &&& forall|k: int|
                    idx < k < text.len() - 1 ==> !word_edge(edger, text[k - 1], #[trigger] text[k])
            }
        }),
{
    lemma_first_word_edge(text, idx + 1, text.len() - 1, edger);
}

/// By words to the left a mark comes to the last word edge before it, or to the start of the text
/// where there is none.
pub proof fn left_word_is_last_edge(
    text: Seq<u8>,
    idx: int,
    line_idx: int,
    edger: WordEdgeMatch,
    amount: int,
)
    requires
        0 <= idx,
        idx <= text.len() || idx <= 1,
        0 < amount,
    ensures
        ({
            let (to, _) = shifted(text, idx, line_idx, Direction::LeftWord(edger), amount);
            ||| {
                &&& 0 < to < idx
                &&& word_edge(edger, text[to - 1], text[to])
                &&& forall|k: int|
                    to < k < idx ==> !word_edge(edger, text[k - 1], #[trigger] text[k])
            }
            ||| {
                &&& to == 0
                &&& forall|k: int|
                    0 < k < idx ==> !word_edge(edger, text[k - 1], #[trigger] text[k])
            }
        }),
{
    lemma_last_word_edge(text, idx, edger);
}

/// The lines of a text from an index on make up the text from there on.
pub proof fn lines_make_up_text(text: Seq<u8>, tail: int)
    requires
        0 <= tail <= text.len(),
    ensures
        lines_of(text, tail).flatten() == text.skip(tail),
    decreases text.len() - tail,
{
    lemma_line_end_from(text, tail);
    let end = line_end_from(text, tail);
    let lines = lines_of(text, tail);
    assert(lines.drop_first() == lines_of(text, end + 1));
    if end < text.len() {
        lines_make_up_text(text, end + 1);
    } else {
        assert(lines_of(text, end + 1).len() == 0);
    }
    assert(lines.flatten() == lines.first() + lines.drop_first().flatten());
    assert(text.skip(tail) == lines.first() + text.skip(least(end + 1, text.len() as int)));
}

/// A line holds a newline only as its last character. All lines of a text but the last one have
/// it, and the last one does not.
pub proof fn lines_end_with_newlines(text: Seq<u8>, tail: int, i: int)
    requires
        0 <= tail <= text.len(),
        0 <= i < lines_of(text, tail).len(),
    ensures
        forall|k: int|
            0 <= k < lines_of(text, tail)[i].len() - 1 ==> lines_of(text, tail)[i][k] != NEWLINE,
        i < lines_of(text, tail).len() - 1 ==> {
            &&& lines_of(text, tail)[i].len() > 0
            &&& lines_of(text, tail)[i].last() == NEWLINE
        },
        i == lines_of(text, tail).len() - 1 && lines_of(text, tail)[i].len() > 0 ==> lines_of(
            text,
            tail,
        )[i].last() != NEWLINE,
    decreases text.len() - tail,
{
    lemma_line_end_from(text, tail);
    let end = line_end_from(text, tail);
    let line = text.subrange(tail, least(end + 1, text.len() as int));
    assert(lines_of(text, tail) == seq![line] + lines_of(text, end + 1));
    if i > 0 {
        lines_end_with_newlines(text, end + 1, i - 1);
        assert(lines_of(text, tail)[i] == lines_of(text, end + 1)[i - 1]);
    }
}

/// A text has one line more than newlines.
pub proof fn one_line_more_than_newlines(text: Seq<u8>, tail: int)
    requires
        0 <= tail <= text.len(),
    ensures
        lines_of(text, tail).len() == newlines_from(text, tail).len() + 1,
    decreases text.len() - tail,
{
    lemma_line_end_from(text, tail);
    let end = line_end_from(text, tail);
    lemma_newlines_from_line_end(text, tail);
    if end < text.len() {
        one_line_more_than_newlines(text, end + 1);
        assert(newlines_from(text, end) == seq![end] + newlines_from(text, end + 1));
    } else {
        assert(lines_of(text, end + 1).len() == 0);
    }
}

/// The first newline from an index on ends the line of the index.
proof fn lemma_newlines_from_line_end(text: Seq<u8>, i: int)
    requires
        0 <= i <= text.len(),
    ensures
        newlines_from(text, i) == newlines_from(text, line_end_from(text, i)),
    decreases text.len() - i,
{
    if i < text.len() && text[i] != NEWLINE {
        lemma_newlines_from_line_end(text, i + 1);
    }
}

/// There are never more lines to come than the text has characters, and one; and there is one at
/// least until all lines were given out.
pub proof fn size_hint_is_right(lines: LinesView)
    ensures
        lines.remaining().len() <= lines.text.len() + 1,
        0 <= lines.tail <= lines.text.len() <==> lines.remaining().len() >= 1,
{
    lemma_lines_count(lines.text, lines.tail);
}

/// The lines that are to come make up what is left of the text.
pub proof fn lines_to_come_make_up_text(lines: LinesView)
    requires
        0 <= lines.tail <= lines.text.len(),
    ensures
        lines.remaining().flatten() == lines.text.skip(lines.tail),
{
    lines_make_up_text(lines.text, lines.tail);
}

/// Of the lines that are to come, all but the last one end with a newline and hold no other, and
/// the last one holds none.
pub proof fn lines_to_come_end_with_newlines(lines: LinesView, i: int, k: int)
    requires
        0 <= i < lines.remaining().len(),
        0 <= k < lines.remaining()[i].len(),
    ensures
        lines.remaining()[i][k] == NEWLINE <==> i < lines.remaining().len() - 1 && k
            == lines.remaining()[i].len() - 1,
{
    lines_end_with_newlines(lines.text, lines.tail, i);
}

/// There is one line more to come than newlines are left in the text.
pub proof fn lines_to_come_are_counted(lines: LinesView)
    requires
        0 <= lines.tail <= lines.text.len(),
    ensures
        lines.remaining().len() == lines.text.skip(lines.tail).to_multiset().count(NEWLINE) + 1,
{
    one_line_more_than_newlines(lines.text, lines.tail);
    lemma_newlines_from_count(lines.text, lines.tail);
}

/// The newlines from an index on are as many as the text holds there.
proof fn lemma_newlines_from_count(text: Seq<u8>, i: int)
    requires
        0 <= i <= text.len(),
    ensures
        newlines_from(text, i).len() == text.skip(i).to_multiset().count(NEWLINE),
    decreases text.len() - i,
{
    broadcast use vstd::seq_lib::group_to_multiset_ensures;

    if i == text.len() {
        assert(text.skip(i).len() == 0);
        assert(!text.skip(i).contains(NEWLINE));
    } else {
        lemma_newlines_from_count(text, i + 1);
        assert(text.skip(i).remove(0) == text.skip(i + 1));
        assert(text.skip(i)[0] == text[i]);
        assert(text.skip(i).contains(text[i]));
    }
}

/// An index that was looked up is the expected one, and none where none is expected.
pub proof fn same_index_is_equality(found: Option<usize>, expected: Option<int>)
    ensures
        same_index(found, expected) <==> match (found, expected) {
            (Some(i), Some(j)) => i == j,
            (None, None) => true,
            _ => false,
        },
{
}

} // verus!
