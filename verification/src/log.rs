//! The transaction history of a buffer: what was done, and what was undone.

use vstd::prelude::*;

verus! {

/// A single edit of a text.
#[derive(Clone, Copy, Debug, PartialEq, Eq, Structural)]
pub enum Change {
    /// A byte came to stand at an index.
    Insert(usize, u8),
    /// The byte at an index was taken out.
    Remove(usize, u8),
}

impl Change {
    /// The change that takes this one back.
    pub open spec fn reversed(self) -> Change {
        match self {
            Change::Insert(idx, ch) => Change::Remove(idx, ch),
            Change::Remove(idx, ch) => Change::Insert(idx, ch),
        }
    }

    /// The change that takes this one back.
    pub fn reverse(&self) -> (reversed: Change)
        ensures
            reversed == self.reversed(),
    {
        match *self {
            Change::Insert(idx, ch) => Change::Remove(idx, ch),
            Change::Remove(idx, ch) => Change::Insert(idx, ch),
        }
    }
}

/// The changes that take back a series of changes: each one reversed, the last one first.
pub open spec fn reversed_changes(changes: Seq<Change>) -> Seq<Change> {
    Seq::new(changes.len(), |i: int| changes[changes.len() - 1 - i].reversed())
}

/// A transaction that was carried out: its changes in order, where the mark that it started from
/// stood, and where its last change took place.
#[derive(Debug)]
pub struct LogEntry {
    pub init_point: usize,
    pub end_point: usize,
    pub changes: Vec<Change>,
}

/// What a [`LogEntry`] records.
#[verifier::ext_equal]
pub struct EntryView {
    pub init_point: int,
    pub end_point: int,
    pub changes: Seq<Change>,
}

impl EntryView {
    /// The entry that takes this one back.
    pub open spec fn reversed(self) -> EntryView {
        EntryView {
            init_point: self.end_point,
            end_point: self.init_point,
            changes: reversed_changes(self.changes),
        }
    }
}

impl View for LogEntry {
    type V = EntryView;

    open spec fn view(&self) -> EntryView {
        EntryView {
            init_point: self.init_point as int,
            end_point: self.end_point as int,
            changes: self.changes@,
        }
    }
}

impl LogEntry {
    /// The entry that takes this one back.
    fn reverse(&self) -> (reversed: LogEntry)
        ensures
            reversed@ == self@.reversed(),
    {
        let mut changes: Vec<Change> = Vec::new();
        let mut i: usize = self.changes.len();
        while i > 0
            invariant
                i <= self.changes.len(),
                changes@ == reversed_changes(self.changes@).take(self.changes.len() - i),
            decreases i,
        {
            i = i - 1;
            changes.push(self.changes[i].reverse());
        }
        LogEntry { init_point: self.end_point, end_point: self.init_point, changes }
    }
}

/// The contents of a [`Log`]: the entries that can be undone and those that can be redone, each
/// with the one that is next in turn at the end.
#[verifier::ext_equal]
pub struct LogView {
    pub undo: Seq<EntryView>,
    pub redo: Seq<EntryView>,
}

impl LogView {
    /// The log after a transaction. One without changes leaves no trace; any other is the next to
    /// be undone, and what could be redone before no longer can.
    pub open spec fn recorded(self, entry: EntryView) -> LogView {
        if entry.changes.len() == 0 {
            self
        } else {
            LogView { undo: self.undo.push(entry), redo: Seq::empty() }
        }
    }

    /// The log after its last entry was undone: the entry, reversed, is the next to be redone.
    pub open spec fn undone(self) -> LogView {
        if self.undo.len() == 0 {
            self
        } else {
            LogView {
                undo: self.undo.drop_last(),
                redo: self.redo.push(self.undo.last().reversed()),
            }
        }
    }

    /// The log after its last undone entry was redone: the entry, reversed once more, is the next
    /// to be undone.
    pub open spec fn redone(self) -> LogView {
        if self.redo.len() == 0 {
            self
        } else {
            LogView {
                undo: self.undo.push(self.redo.last().reversed()),
                redo: self.redo.drop_last(),
            }
        }
    }
}

/// A transaction that is under way.
pub struct Transaction {
    entry: LogEntry,
}

impl View for Transaction {
    type V = EntryView;

    closed spec fn view(&self) -> EntryView {
        self.entry@
    }
}

impl Transaction {
    /// Adds a change to the transaction. The transaction now ends at the given index.
    pub fn log(&mut self, change: Change, idx: usize)
        ensures
            final(self)@ == (EntryView {
                init_point: old(self)@.init_point,
                end_point: idx as int,
                changes: old(self)@.changes.push(change),
            }),
    {
        self.entry.changes.push(change);
        self.entry.end_point = idx;
    }
}

/// Transaction history.
pub struct Log {
    undo: Vec<LogEntry>,
    redo: Vec<LogEntry>,
}

/// What a list of entries records.
pub open spec fn entry_views(entries: Seq<LogEntry>) -> Seq<EntryView> {
    entries.map_values(|entry: LogEntry| entry@)
}

impl View for Log {
    type V = LogView;

    closed spec fn view(&self) -> LogView {
        LogView { undo: entry_views(self.undo@), redo: entry_views(self.redo@) }
    }
}

impl Log {
    /// A log without entries.
    pub fn new() -> (log: Log)
        ensures
            log@ == (LogView { undo: Seq::empty(), redo: Seq::empty() }),
    {
        let log = Log { undo: Vec::new(), redo: Vec::new() };
        log
    }

    /// Starts a transaction at the given index.
    pub fn start(&self, idx: usize) -> (transaction: Transaction)
        ensures
            transaction@ == (EntryView {
                init_point: idx as int,
                end_point: idx as int,
                changes: Seq::empty(),
            }),
    {
        Transaction { entry: LogEntry { init_point: idx, end_point: idx, changes: Vec::new() } }
    }

    /// Ends a transaction and records what it did.
    pub fn finish(&mut self, transaction: Transaction)
        ensures
            final(self)@ == old(self)@.recorded(transaction@),
    {
        if transaction.entry.changes.len() == 0 {
            return;
        }
        self.undo.push(transaction.entry);
        self.redo.clear();
    }

    /// Moves the last entry over to those that can be redone, and returns the entry that takes it
    /// back. `None` where there is nothing to undo.
    pub fn undo(&mut self) -> (entry: Option<&LogEntry>)
        ensures
            final(self)@ == old(self)@.undone(),
            entry is Some <==> old(self)@.undo.len() > 0,
            entry is Some ==> entry->0@ == old(self)@.undo.last().reversed(),
    {
        match self.undo.pop() {
            Some(entry) => {
                self.redo.push(entry.reverse());
                Some(&self.redo[self.redo.len() - 1])
            },
            None => None,
        }
    }

    /// Moves the last undone entry back to those that can be undone, and returns the entry that
    /// does it again. `None` where there is nothing to redo.
    pub fn redo(&mut self) -> (entry: Option<&LogEntry>)
        ensures
            final(self)@ == old(self)@.redone(),
            entry is Some <==> old(self)@.redo.len() > 0,
            entry is Some ==> entry->0@ == old(self)@.redo.last().reversed(),
    {
        match self.redo.pop() {
            Some(entry) => {
                self.undo.push(entry.reverse());
                Some(&self.undo[self.undo.len() - 1])
            },
            None => None,
        }
    }
}

} // verus!
