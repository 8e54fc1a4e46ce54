//! Marks, and the table of where they stand.

use std::collections::HashMap;
use vstd::prelude::*;

verus! {

broadcast use vstd::std_specs::hash::group_hash_axioms;

/// The name of a place in a text.
#[derive(Clone, Copy, Debug, PartialEq, Eq, Hash, Structural)]
pub enum Mark {
    /// For keeping track of cursors.
    Cursor(usize),
    /// For using in determining some display of characters.
    DisplayMark(usize),
}

/// Table of marked indices in the text: for each mark its absolute index, and its index in its
/// line.
pub struct Marks {
    cursors: HashMap<usize, (usize, usize)>,
    display_marks: HashMap<usize, (usize, usize)>,
}

/// The two indices of a mark.
pub open spec fn indices(at: (usize, usize)) -> (int, int) {
    (at.0 as int, at.1 as int)
}

impl View for Marks {
    type V = Map<Mark, (int, int)>;

    closed spec fn view(&self) -> Map<Mark, (int, int)> {
        Map::new(
            |mark: Mark|
                match mark {
                    Mark::Cursor(id) => self.cursors@.contains_key(id),
                    Mark::DisplayMark(id) => self.display_marks@.contains_key(id),
                },
            |mark: Mark|
                match mark {
                    Mark::Cursor(id) => indices(self.cursors@[id]),
                    Mark::DisplayMark(id) => indices(self.display_marks@[id]),
                },
        )
    }
}

impl Marks {
    /// A table without marks.
    pub fn new() -> (marks: Marks)
        ensures
            marks@ == Map::<Mark, (int, int)>::empty(),
    {
        let marks = Marks { cursors: HashMap::new(), display_marks: HashMap::new() };
        marks
    }

    /// The indices of a mark are machine integers, so they are not negative.
    pub(crate) proof fn lemma_indices(&self)
        ensures
            forall|mark: Mark| #[trigger]
                self@.contains_key(mark) ==> {
                    &&& 0 <= self@[mark].0 <= usize::MAX
                    &&& 0 <= self@[mark].1 <= usize::MAX
                },
    {
    }

    /// The indices of a mark, if it is in the table.
    pub fn get(&self, mark: Mark) -> (at: Option<(usize, usize)>)
        ensures
            at is Some <==> self@.contains_key(mark),
            at is Some ==> indices(at->0) == self@[mark],
    {
        let found = match mark {
            Mark::Cursor(id) => self.cursors.get(&id),
            Mark::DisplayMark(id) => self.display_marks.get(&id),
        };
        match found {
            Some(at) => Some(*at),
            None => None,
        }
    }

    /// Adds a new mark or overwrites an existing mark.
    pub fn set(&mut self, mark: Mark, at: (usize, usize))
        ensures
            final(self)@ == old(self)@.insert(mark, indices(at)),
    {
        match mark {
            Mark::Cursor(id) => {
                self.cursors.insert(id, at);
            },
            Mark::DisplayMark(id) => {
                self.display_marks.insert(id, at);
            },
        }
    }
}

} // verus!
