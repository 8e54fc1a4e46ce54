//! Where a shifted mark comes to stand, said of the text itself.

use crate::buffer::BufferView;
use crate::marks::Mark;
use crate::motion::{
    can_shift, column, lemma_first_word_edge, lemma_last_word_edge, lemma_line_end,
    lemma_line_start, lemma_newline_count, line_start, newlines_before, newlines_from, shifted,
    word_edge, Direction, WordEdgeMatch,
};
use crate::motion_laws::{
    down_goes_down, lemma_newlines_above, lemma_newlines_below, lemma_newlines_end, up_goes_up,
};
use crate::utils::{alpha_or_underscore, alphabetic, white_space, NEWLINE, UNDERSCORE};
use vstd::prelude::*;

verus! {

/// Whether the line of an index begins at `start`: right behind a newline, or where the text
/// begins, with no newline from there to the index. An index behind the text is in the last line.
pub open spec fn line_begins(text: Seq<u8>, at: int, start: int) -> bool {
    &&& 0 <= start <= at
    &&& start <= text.len()
    &&& start == 0 || text[start - 1] == NEWLINE
    &&& forall|k: int| start <= k < at && k < text.len() ==> text[k] != NEWLINE
}

/// Whether the line of an index ends at `end`: at a newline, or where the text ends, with no
/// newline from the index to there. An index behind the text is in the last line.
pub open spec fn line_ends(text: Seq<u8>, at: int, end: int) -> bool {
    &&& end <= text.len()
    &&& at <= end || end == text.len()
    &&& end == text.len() || text[end] == NEWLINE
    &&& forall|k: int| at <= k < end ==> text[k] != NEWLINE
}

/// Whether the last newline before an index stands at `newline`.
pub open spec fn last_newline(text: Seq<u8>, at: int, newline: int) -> bool {
    &&& 0 <= newline < at
    &&& text[newline] == NEWLINE
    &&& forall|k: int| newline < k < at ==> text[k] != NEWLINE
}

/// The number of the line that an index is in: how many newlines the text holds before it.
pub open spec fn line_number(text: Seq<u8>, at: int) -> int {
    text.take(at).to_multiset().count(NEWLINE) as int
}

/// A column is how far an index is from where its line begins.
pub proof fn column_is_distance_from_line(text: Seq<u8>, idx: int)
    requires
        0 <= idx,
    ensures
        line_begins(text, idx, idx - column(text, idx)),
{
    lemma_line_start(text, idx);
}

/// A mark that is shifted is placed by its two indices and the text alone, and nothing else of the
/// buffer changes.
pub proof fn shift_places_mark(
    buffer: BufferView,
    mark: Mark,
    direction: Direction,
    amount: int,
)
    ensures
        buffer.marks.contains_key(mark) ==> buffer.mark_shifted(mark, direction, amount) == (
        BufferView {
            text: buffer.text,
            marks: buffer.marks.insert(
                mark,
                shifted(
                    buffer.text,
                    buffer.marks[mark].0,
                    buffer.marks[mark].1,
                    direction,
                    amount,
                ),
            ),
            log: buffer.log,
            file_path: buffer.file_path,
        }),
        !buffer.marks.contains_key(mark) ==> buffer.mark_shifted(mark, direction, amount) == buffer,
{
}

/// A mark can be shifted in every direction; but by no lines neither up nor down, not up or to a
/// word on the left from behind the text, and not to a word on the right where there is no text.
pub proof fn shifts_that_can_be_made(text: Seq<u8>, idx: int, direction: Direction, amount: int)
    requires
        0 <= idx,
        0 <= amount,
    ensures
        direction is Up ==> (can_shift(text, idx, direction, amount) <==> amount > 0 && idx
            <= text.len()),
        direction is Down ==> (can_shift(text, idx, direction, amount) <==> amount > 0),
        direction is RightWord ==> (can_shift(text, idx, direction, amount) <==> amount == 0
            || text.len() > 0),
        direction is LeftWord ==> (can_shift(text, idx, direction, amount) <==> amount == 0 || idx
            <= text.len() || idx == 1),
        !(direction is Up) && !(direction is Down) && !(direction is RightWord) && !(
        direction is LeftWord) ==> can_shift(text, idx, direction, amount),
{
}

/// To the left a mark goes by just so many characters, or to the start of the text.
pub proof fn left_goes_left(text: Seq<u8>, idx: int, line_idx: int, amount: int)
    requires
        0 <= idx,
        0 <= amount,
    ensures
        ({
            let (to, to_line_idx) = shifted(text, idx, line_idx, Direction::Left, amount);
            &&& amount <= idx ==> to == idx - amount
            &&& amount > idx ==> to == 0
            &&& line_begins(text, to, to - to_line_idx)
        }),
{
    if amount <= idx {
        lemma_line_start(text, idx - amount);
    }
}

/// To the right a mark goes by just so many characters, or to the end of the text.
pub proof fn right_goes_right(text: Seq<u8>, idx: int, line_idx: int, amount: int)
    requires
        0 <= idx,
        0 <= amount,
    ensures
        ({
            let (to, to_line_idx) = shifted(text, idx, line_idx, Direction::Right, amount);
            &&& idx + amount <= text.len() ==> to == idx + amount
            &&& idx + amount > text.len() ==> to == text.len()
            &&& line_begins(text, to, to - to_line_idx)
        }),
{
    lemma_line_start(text, shifted(text, idx, line_idx, Direction::Right, amount).0);
}

/// Up by more lines than there are above, a mark goes to the start of the text. Up by fewer, it
/// comes to the line so many lines above, there to its index in the line or, where the line is
/// shorter, to its end, and keeps its index in the line. Up to the first line, it goes to its
/// index in the line, but no further than the end of the line above its own.
pub proof fn up_places_mark(text: Seq<u8>, idx: int, line_idx: int, amount: int)
    requires
        0 <= idx <= text.len(),
        0 <= line_idx,
        0 < amount,
    ensures
        ({
            let (to, to_line_idx) = shifted(text, idx, line_idx, Direction::Up, amount);
            let above = line_number(text, idx);
            &&& amount > above ==> to == 0 && to_line_idx == 0
            &&& amount <= above ==> to_line_idx == line_idx
            &&& amount < above ==> {
                &&& 0 <= to < idx
                &&& line_number(text, to) == above - amount
                &&& exists|start: int| #[trigger]
                    line_begins(text, to, start) && (to - start == line_idx || to - start
                        < line_idx && text[to] == NEWLINE)
            }
            &&& amount == above ==> exists|newline: int| #[trigger]
                last_newline(text, idx, newline) && to == (if line_idx <= newline {
                    line_idx
                } else {
                    newline
                })
        }),
{
    let newlines = newlines_before(text, idx);
    let (to, _) = shifted(text, idx, line_idx, Direction::Up, amount);
    lemma_newline_count(text, idx);
    if amount < newlines.len() {
        up_goes_up(text, idx, line_idx, amount);
        lemma_newlines_above(text, idx, amount);
        lemma_newlines_above(text, idx, amount - 1);
        lemma_newline_count(text, to);
        lemma_line_start(text, to);
        assert(line_begins(text, to, line_start(text, to)));
    } else if amount == newlines.len() {
        lemma_newlines_above(text, idx, 0);
        assert(last_newline(text, idx, newlines[0]));
    }
}

/// Down by more lines than there are below, a mark goes to the end of the text, where its index in
/// its line is how far the last line reaches. Down by fewer, it comes to the line so many lines
/// below, there to its index in the line or, where the line is shorter, to its end, and keeps its
/// index in the line.
pub proof fn down_places_mark(text: Seq<u8>, idx: int, line_idx: int, amount: int)
    requires
        0 <= idx,
        0 <= line_idx,
        0 < amount,
    ensures
        ({
            let (to, to_line_idx) = shifted(text, idx, line_idx, Direction::Down, amount);
            let below = if idx <= text.len() {
                line_number(text, text.len() as int) - line_number(text, idx)
            } else {
                0
            };
            &&& amount > below ==> to == text.len() && line_begins(text, to, to - to_line_idx)
            &&& amount <= below ==> {
                &&& to_line_idx == line_idx
                &&& idx < to <= text.len()
                &&& line_number(text, to) == line_number(text, idx) + amount
                &&& exists|start: int| #[trigger]
                    line_begins(text, to, start) && (to - start == line_idx || to - start
                        < line_idx && (to == text.len() || text[to] == NEWLINE))
            }
        }),
{
    let newlines = newlines_from(text, idx);
    let (to, _) = shifted(text, idx, line_idx, Direction::Down, amount);
    lemma_line_start(text, text.len() as int);
    if idx <= text.len() {
        lemma_newline_count(text, idx);
        lemma_newline_count(text, text.len() as int);
        lemma_newlines_split(text, idx);
        if amount <= newlines.len() {
            down_goes_down(text, idx, line_idx, amount);
            lemma_newlines_below(text, idx, amount - 1);
            if amount < newlines.len() {
                lemma_newlines_below(text, idx, amount);
            } else {
                lemma_newlines_end(text, idx);
            }
            lemma_newline_count(text, to);
            lemma_line_start(text, to);
            assert(line_begins(text, to, line_start(text, to)));
        }
    }
}

/// All newlines of a text stand before an index or from there on.
proof fn lemma_newlines_split(text: Seq<u8>, idx: int)
    requires
        0 <= idx <= text.len(),
    ensures
        newlines_before(text, text.len() as int).len() == newlines_before(text, idx).len()
            + newlines_from(text, idx).len(),
    decreases text.len() - idx,
{
    if idx < text.len() {
        lemma_newlines_split(text, idx + 1);
    }
}

/// To the start of its line a mark goes back over no newline, to right behind one or to where the
/// text begins, and there its index in its line is 0.
pub proof fn line_start_places_mark(text: Seq<u8>, idx: int, line_idx: int, amount: int)
    requires
        0 <= idx,
    ensures
        ({
            let (to, to_line_idx) = shifted(text, idx, line_idx, Direction::LineStart, amount);
            &&& line_begins(text, idx, to)
            &&& to_line_idx == 0
        }),
{
    lemma_line_start(text, idx);
}

/// To the end of its line a mark goes on over no newline, to the next one or to where the text
/// ends, and there its index in its line is how far the line reaches.
pub proof fn line_end_places_mark(text: Seq<u8>, idx: int, line_idx: int, amount: int)
    requires
        0 <= idx,
    ensures
        ({
            let (to, to_line_idx) = shifted(text, idx, line_idx, Direction::LineEnd, amount);
            &&& line_ends(text, idx, to)
            &&& line_begins(text, idx, to - to_line_idx)
            &&& line_begins(text, to, to - to_line_idx)
        }),
{
    lemma_line_start(text, idx);
    lemma_line_end(text, idx);
}

/// The first line is reached at the start of the text, the last line at its end, both with the
/// index 0 in the line.
pub proof fn first_and_last_line_place_mark(text: Seq<u8>, idx: int, line_idx: int, amount: int)
    ensures
        shifted(text, idx, line_idx, Direction::FirstLine, amount) == (0int, 0int),
        shifted(text, idx, line_idx, Direction::LastLine, amount) == (text.len() as int, 0int),
{
}

/// By words to the right a mark comes to the first word edge behind it that is not at the last
/// character, or to the end of the text; by no words, to the end.
pub proof fn right_word_places_mark(
    text: Seq<u8>,
    idx: int,
    line_idx: int,
    edger: WordEdgeMatch,
    amount: int,
)
    requires
        0 <= idx,
        0 <= amount,
    ensures
        ({
            let (to, to_line_idx) = shifted(
                text,
                idx,
                line_idx,
                Direction::RightWord(edger),
                amount,
            );
            &&& line_begins(text, to, to - to_line_idx)
            &&& amount == 0 ==> to == text.len()
            &&& to == text.len() || idx < to < text.len() - 1 && word_edge(
                edger,
                text[to - 1],
                text[to],
            )
            &&& forall|k: int|
                amount > 0 && idx < k < to && k < text.len() - 1 ==> !word_edge(
                    edger,
                    text[k - 1],
                    #[trigger] text[k],
                )
        }),
{
    lemma_first_word_edge(text, idx + 1, text.len() - 1, edger);
    lemma_line_start(text, shifted(text, idx, line_idx, Direction::RightWord(edger), amount).0);
}

/// By words to the left a mark comes to the last word edge before it, or to the start of the text;
/// by no words, to the start.
pub proof fn left_word_places_mark(
    text: Seq<u8>,
    idx: int,
    line_idx: int,
    edger: WordEdgeMatch,
    amount: int,
)
    requires
        0 <= idx,
        0 <= amount,
        can_shift(text, idx, Direction::LeftWord(edger), amount),
    ensures
        ({
            let (to, to_line_idx) = shifted(
                text,
                idx,
                line_idx,
                Direction::LeftWord(edger),
                amount,
            );
            &&& line_begins(text, to, to - to_line_idx)
            &&& amount == 0 ==> to == 0
            &&& to == 0 || 0 < to < idx && word_edge(edger, text[to - 1], text[to])
            &&& forall|k: int|
                amount > 0 && to < k < idx ==> !word_edge(edger, text[k - 1], #[trigger] text[k])
        }),
{
    lemma_last_word_edge(text, idx, edger);
    lemma_line_start(text, shifted(text, idx, line_idx, Direction::LeftWord(edger), amount).0);
}

/// Behind whitespace anything but whitespace starts a word, whatever counts as an edge.
pub proof fn word_starts_behind_whitespace(edger: WordEdgeMatch, c1: u8, c2: u8)
    requires
        white_space(c1),
        !white_space(c2),
    ensures
        word_edge(edger, c1, c2),
{
}

/// Whitespace starts a word only where it is a newline behind a newline.
pub proof fn whitespace_starts_only_blank_lines(edger: WordEdgeMatch, c1: u8, c2: u8)
    requires
        white_space(c2),
    ensures
        word_edge(edger, c1, c2) <==> c1 == NEWLINE && c2 == NEWLINE,
{
}

/// Where neither character is whitespace, a word starts where letters and underscores meet other
/// characters if such edges count, and nowhere if only whitespace counts.
pub proof fn word_starts_within_text(c1: u8, c2: u8)
    requires
        !white_space(c1),
        !white_space(c2),
    ensures
        word_edge(WordEdgeMatch::Alphabet, c1, c2) <==> (alphabetic(c1) || c1 == UNDERSCORE) != (
        alphabetic(c2) || c2 == UNDERSCORE),
        !word_edge(WordEdgeMatch::Whitespace, c1, c2),
{
}

/// Word characters are the alphabetic ones and the underscore.
pub proof fn word_characters(c: u8)
    ensures
        alpha_or_underscore(c) <==> alphabetic(c) || c == UNDERSCORE,
{
}

} // verus!
