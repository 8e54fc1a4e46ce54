//! Lines and words of a text, and where a mark goes when it is shifted.

use crate::text::{contents, text_at, text_len};
use crate::utils::{alpha_or_underscore, is_alpha_or_, is_whitespace, white_space, NEWLINE};
use gapbuffer::GapBuffer;
use vstd::prelude::*;

verus! {

/// What counts as the edge of a word.
#[derive(Clone, Copy, Debug, PartialEq, Eq, Structural)]
pub enum WordEdgeMatch {
    /// Where letters and underscores meet other characters, and behind whitespace.
    Alphabet,
    /// Behind whitespace.
    Whitespace,
}

/// Where to shift a mark, or to which side of it to remove characters.
#[derive(Clone, Copy, Debug, PartialEq, Eq, Structural)]
pub enum Direction {
    Up,
    Down,
    Left,
    Right,
    LeftWord(WordEdgeMatch),
    RightWord(WordEdgeMatch),
    LineStart,
    LineEnd,
    FirstLine,
    LastLine,
}

/// The smaller of two numbers.
pub open spec fn least(a: int, b: int) -> int {
    if a <= b {
        a
    } else {
        b
    }
}

/// The last index up to `i` at which a line starts.
pub open spec fn line_start_from(text: Seq<u8>, i: int) -> int
    decreases i,
{
    if i <= 0 {
        0
    } else if text[i - 1] == NEWLINE {
        i
    } else {
        line_start_from(text, i - 1)
    }
}

/// The index of the first character of the line that a mark is in. A mark behind the text counts
/// as one at its end.
pub open spec fn line_start(text: Seq<u8>, mark: int) -> int {
    line_start_from(text, least(mark, text.len() as int))
}

/// The first index from `i` on at which a line ends.
pub open spec fn line_end_from(text: Seq<u8>, i: int) -> int
    decreases text.len() - i,
{
    if i >= text.len() {
        text.len() as int
    } else if text[i] == NEWLINE {
        i
    } else {
        line_end_from(text, i + 1)
    }
}

/// The index of the newline that ends the line that a mark is in, or the end of the text. A mark
/// behind the text counts as one at its end.
pub open spec fn line_end(text: Seq<u8>, mark: int) -> int {
    line_end_from(text, least(mark, text.len() as int))
}

/// The indices below `i` at which newlines stand, the highest first.
pub open spec fn newlines_before(text: Seq<u8>, i: int) -> Seq<int>
    decreases i,
{
    if i <= 0 {
        Seq::empty()
    } else if text[i - 1] == NEWLINE {
        seq![i - 1] + newlines_before(text, i - 1)
    } else {
        newlines_before(text, i - 1)
    }
}

/// The indices from `i` on at which newlines stand, the lowest first.
pub open spec fn newlines_from(text: Seq<u8>, i: int) -> Seq<int>
    decreases text.len() - i,
{
    if i >= text.len() {
        Seq::empty()
    } else if text[i] == NEWLINE {
        seq![i] + newlines_from(text, i + 1)
    } else {
        newlines_from(text, i + 1)
    }
}

/// Whether the second of two characters starts a word when the first comes before it.
pub open spec fn word_edge(edger: WordEdgeMatch, c1: u8, c2: u8) -> bool {
    if c1 == NEWLINE && c2 == NEWLINE {
        true
    } else {
        match edger {
            WordEdgeMatch::Whitespace => white_space(c1) && !white_space(c2),
            WordEdgeMatch::Alphabet => {
                &&& !white_space(c2)
                &&& white_space(c1) || alpha_or_underscore(c1) != alpha_or_underscore(c2)
            },
        }
    }
}

/// The first word edge among the indices from `i` up to `end`, which does not count.
pub open spec fn first_word_edge(text: Seq<u8>, i: int, end: int, edger: WordEdgeMatch) -> Option<
    int,
>
    decreases end - i,
{
    if i >= end {
        None
    } else if word_edge(edger, text[i - 1], text[i]) {
        Some(i)
    } else {
        first_word_edge(text, i + 1, end, edger)
    }
}

/// The last word edge among the indices from 1 up to `end`, which does not count.
pub open spec fn last_word_edge(text: Seq<u8>, end: int, edger: WordEdgeMatch) -> Option<int>
    decreases end,
{
    if end <= 1 {
        None
    } else if word_edge(edger, text[end - 2], text[end - 1]) {
        Some(end - 1)
    } else {
        last_word_edge(text, end - 1, edger)
    }
}

/// Where the next word after a mark starts, the last character of the text left out. Any number
/// of words but none counts as one.
pub open spec fn next_word(text: Seq<u8>, mark: int, n_words: int, edger: WordEdgeMatch) -> Option<
    int,
> {
    if n_words == 0 {
        None
    } else {
        first_word_edge(text, mark + 1, text.len() - 1, edger)
    }
}

/// Where the last word before a mark starts. Any number of words but none counts as one.
pub open spec fn previous_word(
    text: Seq<u8>,
    mark: int,
    n_words: int,
    edger: WordEdgeMatch,
) -> Option<int> {
    if n_words == 0 {
        None
    } else {
        last_word_edge(text, mark, edger)
    }
}

/// Whether an index that was looked up is the expected one.
pub open spec fn same_index(found: Option<usize>, expected: Option<int>) -> bool {
    match expected {
        Some(i) => found is Some && found->0 == i,
        None => found is None,
    }
}

impl WordEdgeMatch {
    /// If c1 -> c2 is the start of a word.
    /// If end of word matching is wanted then pass the chars in reversed.
    pub fn is_word_edge(&self, c1: &u8, c2: &u8) -> (yes: bool)
        ensures
            yes == word_edge(*self, *c1, *c2),
    {
        if *c1 == NEWLINE && *c2 == NEWLINE {
            // Blank lines are always counted as a word
            return true;
        }
        match *self {
            WordEdgeMatch::Whitespace => is_whitespace(*c1) && !is_whitespace(*c2),
            WordEdgeMatch::Alphabet => {
                if is_whitespace(*c1) {
                    !is_whitespace(*c2)
                } else if is_alpha_or_(*c1) {
                    !is_alpha_or_(*c2) && !is_whitespace(*c2)
                } else {
                    is_alpha_or_(*c2) && !is_whitespace(*c2)
                }
            },
        }
    }
}

/// Where the next word after a mark starts.
pub fn get_words(mark: usize, n_words: usize, edger: WordEdgeMatch, text: &GapBuffer<u8>) -> (start:
    Option<usize>)
    requires
        n_words > 0 ==> contents(*text).len() > 0,
    ensures
        same_index(start, next_word(contents(*text), mark as int, n_words as int, edger)),
        n_words == 0 ==> start is None,
        start matches Some(i) ==> {
            &&& mark < i < contents(*text).len() - 1
            &&& word_edge(edger, contents(*text)[i - 1], contents(*text)[i as int])
        },
        n_words > 0 ==> forall|k: int|
            mark < k < contents(*text).len() - 1 && (start is Some ==> k < start->0) ==> !word_edge(
                edger,
                contents(*text)[k - 1],
                #[trigger] contents(*text)[k],
            ),
{
    proof {
        lemma_first_word_edge(contents(*text), mark + 1, contents(*text).len() - 1, edger);
    }
    let len = text_len(text);
    if n_words == 0 || mark >= len {
        return None;
    }
    let mut i: usize = mark + 1;
    while i < len - 1
        invariant
            n_words > 0,
            mark < len == contents(*text).len(),
            mark < i <= len,
            next_word(contents(*text), mark as int, n_words as int, edger) == first_word_edge(
                contents(*text),
                i as int,
                len - 1,
                edger,
            ),
        decreases len - i,
    {
        if edger.is_word_edge(&text_at(text, i - 1), &text_at(text, i)) {
            proof {
                lemma_first_word_edge(contents(*text), mark + 1, len - 1, edger);
            }
            return Some(i);
        }
        i = i + 1;
    }
    None
}

/// Where the last word before a mark starts.
pub fn get_words_rev(
    mark: usize,
    n_words: usize,
    edger: WordEdgeMatch,
    text: &GapBuffer<u8>,
) -> (start: Option<usize>)
    requires
        n_words > 0 ==> mark <= contents(*text).len() || mark <= 1,
    ensures
        same_index(start, previous_word(contents(*text), mark as int, n_words as int, edger)),
        n_words == 0 ==> start is None,
        start matches Some(i) ==> {
            &&& 0 < i < mark
            &&& word_edge(edger, contents(*text)[i - 1], contents(*text)[i as int])
        },
        n_words > 0 ==> forall|k: int|
            0 < k < mark && (start is Some ==> start->0 < k) ==> !word_edge(
                edger,
                contents(*text)[k - 1],
                #[trigger] contents(*text)[k],
            ),
{
    proof {
        lemma_last_word_edge(contents(*text), mark as int, edger);
    }
    if n_words == 0 {
        return None;
    }
    let mut end: usize = mark;
    while end > 1
        invariant
            n_words > 0,
            mark <= contents(*text).len() || mark <= 1,
            end <= mark,
            previous_word(contents(*text), mark as int, n_words as int, edger) == last_word_edge(
                contents(*text),
                end as int,
                edger,
            ),
        decreases end,
    {
        if edger.is_word_edge(&text_at(text, end - 2), &text_at(text, end - 1)) {
            proof {
                lemma_last_word_edge(contents(*text), mark as int, edger);
            }
            return Some(end - 1);
        }
        end = end - 1;
    }
    None
}

/// Returns the index of the first character of the line the mark is in.
/// Newline prior to mark (EXCLUSIVE) + 1.
pub fn get_line(mark: usize, text: &GapBuffer<u8>) -> (start: Option<usize>)
    ensures
        same_index(start, Some(line_start(contents(*text), mark as int))),
        start is Some,
        start->0 <= mark,
        start->0 <= contents(*text).len(),
        start->0 == 0 || contents(*text)[start->0 - 1] == NEWLINE,
        forall|k: int|
            start->0 <= k < mark && k < contents(*text).len() ==> contents(*text)[k] != NEWLINE,
{
    proof {
        lemma_line_start(contents(*text), mark as int);
    }
    let len = text_len(text);
    let mut i: usize = if mark <= len {
        mark
    } else {
        len
    };
    while i > 0
        invariant
            i <= contents(*text).len(),
            line_start(contents(*text), mark as int) == line_start_from(contents(*text), i as int),
        decreases i,
    {
        if text_at(text, i - 1) == NEWLINE {
            proof {
                lemma_line_start(contents(*text), mark as int);
            }
            return Some(i);
        }
        i = i - 1;
    }
    Some(0)
}

/// Returns the index of the newline character at the end of the line mark is in.
/// Newline after mark (INCLUSIVE).
pub fn get_line_end(mark: usize, text: &GapBuffer<u8>) -> (end: Option<usize>)
    ensures
        same_index(end, Some(line_end(contents(*text), mark as int))),
        end is Some,
        mark <= end->0 || end->0 == contents(*text).len(),
        end->0 <= contents(*text).len(),
        end->0 == contents(*text).len() || contents(*text)[end->0 as int] == NEWLINE,
        forall|k: int| mark <= k < end->0 ==> contents(*text)[k] != NEWLINE,
{
    proof {
        lemma_line_end(contents(*text), mark as int);
    }
    let len = text_len(text);
    let mut i: usize = if mark <= len {
        mark
    } else {
        len
    };
    while i < len
        invariant
            i <= len == contents(*text).len(),
            line_end(contents(*text), mark as int) == line_end_from(contents(*text), i as int),
        decreases len - i,
    {
        if text_at(text, i) == NEWLINE {
            proof {
                lemma_line_end(contents(*text), mark as int);
            }
            return Some(i);
        }
        i = i + 1;
    }
    Some(len)
}

/// Whether some indices are the first of a list, as many as there are up to `n + 1`.
pub open spec fn first_of(found: Seq<usize>, all: Seq<int>, n: int) -> bool {
    &&& found.len() == least(n + 1, all.len() as int)
    &&& forall|k: int| 0 <= k < found.len() ==> found[k] == all[k]
}

/// The newlines below an index, the highest first, up to one more than `n`.
fn get_newlines_before(idx: usize, n: usize, text: &GapBuffer<u8>) -> (found: Vec<usize>)
    requires
        idx <= contents(*text).len(),
    ensures
        first_of(found@, newlines_before(contents(*text), idx as int), n as int),
        forall|k: int| 0 <= k < found.len() ==> found[k] < idx,
{
    let ghost all = newlines_before(contents(*text), idx as int);
    let mut found: Vec<usize> = Vec::new();
    let mut i: usize = idx;
    while i > 0 && found.len() <= n
        invariant
            i <= idx <= contents(*text).len(),
            found.len() <= n + 1,
            forall|k: int| 0 <= k < found.len() ==> found[k] < idx,
            all == found@.map_values(|k: usize| k as int) + newlines_before(
                contents(*text),
                i as int,
            ),
        decreases i,
    {
        i = i - 1;
        if text_at(text, i) == NEWLINE {
            found.push(i);
        }
    }
    found
}

/// The newlines from an index on, the lowest first, up to one more than `n`.
fn get_newlines_from(idx: usize, n: usize, text: &GapBuffer<u8>) -> (found: Vec<usize>)
    ensures
        first_of(found@, newlines_from(contents(*text), idx as int), n as int),
        forall|k: int| 0 <= k < found.len() ==> found[k] < contents(*text).len(),
{
    let ghost all = newlines_from(contents(*text), idx as int);
    let len = text_len(text);
    let mut found: Vec<usize> = Vec::new();
    let mut i: usize = idx;
    while i < len && found.len() <= n
        invariant
            len == contents(*text).len(),
            idx <= i,
            found.len() <= n + 1,
            forall|k: int| 0 <= k < found.len() ==> found[k] < len,
            all == found@.map_values(|k: usize| k as int) + newlines_from(
                contents(*text),
                i as int,
            ),
        decreases len - i,
    {
        if text_at(text, i) == NEWLINE {
            found.push(i);
        }
        i = i + 1;
    }
    found
}

/// How far an index is from the start of its line.
pub open spec fn column(text: Seq<u8>, idx: int) -> int {
    idx - line_start(text, idx)
}

/// Where a mark goes when it is shifted. A mark has an index into the text, and an index in its
/// line, which it keeps when it moves to another line and for which it heads there.
pub open spec fn shifted(
    text: Seq<u8>,
    idx: int,
    line_idx: int,
    direction: Direction,
    amount: int,
) -> (int, int) {
    let last = text.len() as int;
    match direction {
        Direction::Left => if idx >= amount {
            (idx - amount, column(text, idx - amount))
        } else {
            (0, 0)
        },
        Direction::Right => {
            let to = least(idx + amount, last);
            (to, column(text, to))
        },
        Direction::Up => {
            let newlines = newlines_before(text, idx);
            if amount > newlines.len() {
                (0, 0)
            } else if amount == newlines.len() {
                (least(line_idx, newlines[0]), line_idx)
            } else {
                (least(line_idx + newlines[amount] + 1, newlines[amount - 1]), line_idx)
            }
        },
        Direction::Down => {
            let newlines = newlines_from(text, idx);
            if amount > newlines.len() {
                (last, column(text, last))
            } else if amount == newlines.len() {
                (least(line_idx + newlines[amount - 1] + 1, last), line_idx)
            } else {
                (least(line_idx + newlines[amount - 1] + 1, newlines[amount]), line_idx)
            }
        },
        Direction::RightWord(edger) => match next_word(text, idx, amount, edger) {
            Some(to) => (to, column(text, to)),
            None => (last, column(text, last)),
        },
        Direction::LeftWord(edger) => match previous_word(text, idx, amount, edger) {
            Some(to) => (to, column(text, to)),
            None => (0, 0),
        },
        Direction::LineStart => (line_start(text, idx), 0),
        Direction::LineEnd => (line_end(text, idx), line_end(text, idx) - line_start(text, idx)),
        Direction::FirstLine => (0, 0),
        Direction::LastLine => (last, 0),
    }
}

/// Whether a mark can be shifted: by one line at least where it goes up or down, and not up or to
/// a word from behind the text, nor to a word where there is no text.
pub open spec fn can_shift(text: Seq<u8>, idx: int, direction: Direction, amount: int) -> bool {
    match direction {
        Direction::Up => amount > 0 && idx <= text.len(),
        Direction::Down => amount > 0,
        Direction::RightWord(_) => amount > 0 ==> text.len() > 0,
        Direction::LeftWord(_) => amount > 0 ==> idx <= text.len() || idx <= 1,
        _ => true,
    }
}

/// The newlines before an index are as many as the text holds there.
pub proof fn lemma_newline_count(text: Seq<u8>, i: int)
    requires
        0 <= i <= text.len(),
    ensures
        newlines_before(text, i).len() == text.take(i).to_multiset().count(NEWLINE),
    decreases i,
{
    broadcast use vstd::seq_lib::group_to_multiset_ensures;

    if i == 0 {
        assert(text.take(0).len() == 0);
        assert(!text.take(0).contains(NEWLINE));
    } else {
        lemma_newline_count(text, i - 1);
        assert(text.take(i) == text.take(i - 1).push(text[i - 1]));
    }
}

/// What makes an index the start of a line: no newline stands between it and the mark, and one
/// stands before it, or nothing does.
pub proof fn lemma_line_start(text: Seq<u8>, mark: int)
    requires
        0 <= mark,
    ensures
        0 <= line_start(text, mark) <= least(mark, text.len() as int),
        line_start(text, mark) == 0 || text[line_start(text, mark) - 1] == NEWLINE,
        forall|k: int|
            line_start(text, mark) <= k < mark && k < text.len() ==> text[k] != NEWLINE,
{
    lemma_line_start_from(text, least(mark, text.len() as int));
}

proof fn lemma_line_start_from(text: Seq<u8>, i: int)
    requires
        0 <= i <= text.len(),
    ensures
        0 <= line_start_from(text, i) <= i,
        line_start_from(text, i) == 0 || text[line_start_from(text, i) - 1] == NEWLINE,
        forall|k: int| line_start_from(text, i) <= k < i ==> text[k] != NEWLINE,
    decreases i,
{
    if i > 0 && text[i - 1] != NEWLINE {
        lemma_line_start_from(text, i - 1);
    }
}

/// What makes an index the end of a line: no newline stands between the mark and it, and one
/// stands at it, or the text ends there.
pub proof fn lemma_line_end(text: Seq<u8>, mark: int)
    requires
        0 <= mark,
    ensures
        least(mark, text.len() as int) <= line_end(text, mark) <= text.len(),
        line_end(text, mark) == text.len() || text[line_end(text, mark)] == NEWLINE,
        forall|k: int| mark <= k < line_end(text, mark) ==> text[k] != NEWLINE,
{
    lemma_line_end_from(text, least(mark, text.len() as int));
}

pub proof fn lemma_line_end_from(text: Seq<u8>, i: int)
    requires
        0 <= i <= text.len(),
    ensures
        i <= line_end_from(text, i) <= text.len(),
        line_end_from(text, i) == text.len() || text[line_end_from(text, i)] == NEWLINE,
        forall|k: int| i <= k < line_end_from(text, i) ==> text[k] != NEWLINE,
    decreases text.len() - i,
{
    if i < text.len() && text[i] != NEWLINE {
        lemma_line_end_from(text, i + 1);
    }
}

/// The first word edge is a word edge within the bounds, and none comes before it.
pub proof fn lemma_first_word_edge(text: Seq<u8>, i: int, end: int, edger: WordEdgeMatch)
    ensures
        match first_word_edge(text, i, end, edger) {
            Some(at) => {
                &&& i <= at < end
                &&& word_edge(edger, text[at - 1], text[at])
                &&& forall|k: int| i <= k < at ==> !word_edge(edger, text[k - 1], #[trigger] text[k])
            },
            None => forall|k: int|
                i <= k < end ==> !word_edge(edger, text[k - 1], #[trigger] text[k]),
        },
    decreases end - i,
{
    if i < end && !word_edge(edger, text[i - 1], text[i]) {
        lemma_first_word_edge(text, i + 1, end, edger);
    }
}

/// The last word edge is a word edge within the bounds, and none comes after it.
pub proof fn lemma_last_word_edge(text: Seq<u8>, end: int, edger: WordEdgeMatch)
    ensures
        match last_word_edge(text, end, edger) {
            Some(at) => {
                &&& 1 <= at < end
                &&& word_edge(edger, text[at - 1], text[at])
                &&& forall|k: int|
                    at < k < end ==> !word_edge(edger, text[k - 1], #[trigger] text[k])
            },
            None => forall|k: int|
                1 <= k < end ==> !word_edge(edger, text[k - 1], #[trigger] text[k]),
        },
    decreases end,
{
    if end > 1 && !word_edge(edger, text[end - 2], text[end - 1]) {
        lemma_last_word_edge(text, end - 1, edger);
    }
}

/// How far an index is from the start of its line.
fn get_column(idx: usize, text: &GapBuffer<u8>) -> (col: usize)
    ensures
        col == column(contents(*text), idx as int),
{
    proof {
        lemma_line_start(contents(*text), idx as int);
    }
    match get_line(idx, text) {
        Some(line) => idx - line,
        None => idx,
    }
}

/// The sum of two numbers, or a limit where it is above that.
fn limited_sum(a: usize, b: usize, limit: usize) -> (sum: usize)
    ensures
        sum == least(a + b, limit as int),
{
    if a <= limit && b <= limit - a {
        a + b
    } else {
        limit
    }
}

/// Where a mark goes when it is shifted.
pub fn shift(
    idx: usize,
    line_idx: usize,
    direction: Direction,
    amount: usize,
    text: &GapBuffer<u8>,
) -> (to: (usize, usize))
    requires
        can_shift(contents(*text), idx as int, direction, amount as int),
    ensures
        (to.0 as int, to.1 as int) == shifted(
            contents(*text),
            idx as int,
            line_idx as int,
            direction,
            amount as int,
        ),
{
    let last = text_len(text);
    let n: usize = amount;
    proof {
        lemma_line_start(contents(*text), idx as int);
        lemma_line_end(contents(*text), idx as int);
    }
    match direction {
        Direction::Left => if idx >= n {
            (idx - n, get_column(idx - n, text))
        } else {
            (0, 0)
        },
        Direction::Right => {
            let to = limited_sum(idx, n, last);
            (to, get_column(to, text))
        },
        Direction::Up => {
            let newlines = get_newlines_before(idx, n, text);
            if n > newlines.len() {
                (0, 0)
            } else if n == newlines.len() {
                (limited_sum(line_idx, 0, newlines[0]), line_idx)
            } else {
                (limited_sum(line_idx, newlines[n] + 1, newlines[n - 1]), line_idx)
            }
        },
        Direction::Down => {
            let newlines = get_newlines_from(idx, n, text);
            if n > newlines.len() {
                (last, get_column(last, text))
            } else if n == newlines.len() {
                (limited_sum(line_idx, newlines[n - 1] + 1, last), line_idx)
            } else {
                (limited_sum(line_idx, newlines[n - 1] + 1, newlines[n]), line_idx)
            }
        },
        Direction::RightWord(edger) => match get_words(idx, n, edger, text) {
            Some(to) => (to, get_column(to, text)),
            None => (last, get_column(last, text)),
        },
        Direction::LeftWord(edger) => match get_words_rev(idx, n, edger, text) {
            Some(to) => (to, get_column(to, text)),
            None => (0, 0),
        },
        Direction::LineStart => match get_line(idx, text) {
            Some(line) => (line, 0),
            None => (0, 0),
        },
        Direction::LineEnd => match (get_line(idx, text), get_line_end(idx, text)) {
            (Some(line), Some(line_end)) => (line_end, line_end - line),
            _ => (0, 0),
        },
        Direction::FirstLine => (0, 0),
        Direction::LastLine => (last, 0),
    }
}

} // verus!
