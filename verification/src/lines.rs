//! The lines of a text, one after the other.

use crate::motion::{least, lemma_line_end_from, line_end_from};
use crate::text::{contents, text_at, text_len};
use crate::utils::NEWLINE;
use gapbuffer::GapBuffer;
use vstd::prelude::*;

verus! {

/// The lines of a text from an index on, each with the newline that ends it. The last one, which
/// no newline ends, may be empty.
pub open spec fn lines_of(text: Seq<u8>, tail: int) -> Seq<Seq<u8>>
    decreases text.len() + 1 - tail,
{
    if tail < 0 || tail > text.len() {
        Seq::empty()
    } else {
        let end = line_end_from(text, tail);
        proof {
            lemma_line_end_from(text, tail);
        }
        seq![text.subrange(tail, least(end + 1, text.len() as int))] + lines_of(text, end + 1)
    }
}

/// There are no more lines from an index on than characters, and one.
pub proof fn lemma_lines_count(text: Seq<u8>, tail: int)
    ensures
        0 <= tail <= text.len() ==> 1 <= lines_of(text, tail).len() <= text.len() + 1 - tail,
        !(0 <= tail <= text.len()) ==> lines_of(text, tail).len() == 0,
    decreases text.len() + 1 - tail,
{
    if 0 <= tail <= text.len() {
        lemma_line_end_from(text, tail);
        lemma_lines_count(text, line_end_from(text, tail) + 1);
    }
}

/// Where the lines of a text have got to: all before `tail` were given out.
#[verifier::ext_equal]
pub struct LinesView {
    pub text: Seq<u8>,
    pub tail: int,
}

impl LinesView {
    /// The lines that are still to come.
    pub open spec fn remaining(self) -> Seq<Seq<u8>> {
        lines_of(self.text, self.tail)
    }
}

/// Gives out the lines of a text.
pub struct Lines<'a> {
    buffer: &'a GapBuffer<u8>,
    tail: usize,
    head: usize,
}

impl<'a> View for Lines<'a> {
    type V = LinesView;

    closed spec fn view(&self) -> LinesView {
        LinesView { text: contents(*self.buffer), tail: self.tail as int }
    }
}

impl<'a> Lines<'a> {
    /// The head is where the text ends, counted with one place behind it, and the tail has not
    /// gone beyond the head.
    #[verifier::type_invariant]
    spec fn well_formed(self) -> bool {
        &&& self.head == contents(*self.buffer).len() + 1
        &&& self.tail <= self.head
    }

    /// The lines of a text from an index on.
    pub(crate) fn new(buffer: &'a GapBuffer<u8>, tail: usize) -> (lines: Lines<'a>)
        requires
            contents(*buffer).len() < usize::MAX,
            tail <= contents(*buffer).len(),
        ensures
            lines@ == (LinesView { text: contents(*buffer), tail: tail as int }),
    {
        let head = text_len(buffer) + 1;
        Lines { buffer, tail, head }
    }

    /// The next line, or `None` when all lines were given out.
    pub fn next(&mut self) -> (line: Option<Vec<u8>>)
        ensures
            line is Some <==> old(self)@.remaining().len() > 0,
            line is Some ==> {
                &&& line->0@ == old(self)@.remaining()[0]
                &&& final(self)@ == (LinesView {
                    text: old(self)@.text,
                    tail: line_end_from(old(self)@.text, old(self)@.tail) + 1,
                })
                &&& final(self)@.remaining() == old(self)@.remaining().drop_first()
            },
            line is None ==> final(self)@ == old(self)@,
            final(self)@.text == old(self)@.text,
            line is Some <==> 0 <= old(self)@.tail <= old(self)@.text.len(),
            line is Some ==> {
                let text = old(self)@.text;
                let from = old(self)@.tail;
                let to = final(self)@.tail;
                &&& from < to <= text.len() + 1
                &&& line->0@ == text.subrange(
                    from,
                    if to <= text.len() {
                        to
                    } else {
                        text.len() as int
                    },
                )
                &&& to <= text.len() ==> text[to - 1] == NEWLINE
                &&& forall|k: int| from <= k < to - 1 ==> text[k] != NEWLINE
            },
    {
        proof {
            use_type_invariant(&*self);
        }
        let ghost text = contents(*self.buffer);
        if self.tail == self.head {
            return None;
        }
        let tail = self.tail;
        let last = self.head - 1;
        let mut line: Vec<u8> = Vec::new();
        let mut i: usize = tail;
        while i < last && text_at(self.buffer, i) != NEWLINE
            invariant
                text == contents(*self.buffer),
                last == text.len(),
                tail <= i <= last,
                line@ == text.subrange(tail as int, i as int),
                line_end_from(text, tail as int) == line_end_from(text, i as int),
            decreases last - i,
        {
            line.push(text_at(self.buffer, i));
            i = i + 1;
        }
        if i < last {
            line.push(text_at(self.buffer, i));
        }
        self.tail = i + 1;
        proof {
            lemma_line_end_from(text, tail as int);
        }
        Some(line)
    }

    /// Bounds on the number of lines that are still to come: one at least until all lines were
    /// given out, and no more than the text has characters, and one.
    pub fn size_hint(&self) -> (hint: (usize, Option<usize>))
        ensures
            hint.0 == (if self@.remaining().len() > 0 {
                1int
            } else {
                0int
            }),
            hint.0 <= self@.remaining().len(),
            hint.1 is Some,
            hint.1->0 == self@.text.len() + 1,
            self@.remaining().len() <= hint.1->0,
    {
        proof {
            use_type_invariant(self);
            lemma_lines_count(self@.text, self@.tail);
        }
        (if self.tail == self.head {
            0
        } else {
            1
        }, Some(self.head))
    }
}

} // verus!
