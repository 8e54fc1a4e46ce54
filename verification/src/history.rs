//! What recorded transactions do to a text, and when they fit it.

use crate::log::{reversed_changes, Change, EntryView, LogEntry, LogView};
use crate::text::{contents, text_insert, text_remove};
use gapbuffer::GapBuffer;
use vstd::prelude::*;

verus! {

/// A text after a change. To remove where nothing stands changes nothing.
pub open spec fn apply_change(change: Change, text: Seq<u8>) -> Seq<u8> {
    match change {
        Change::Insert(idx, ch) => text.insert(idx as int, ch),
        Change::Remove(idx, _) => if idx < text.len() {
            text.remove(idx as int)
        } else {
            text
        },
    }
}

/// A text after a series of changes.
pub open spec fn apply_changes(changes: Seq<Change>, text: Seq<u8>) -> Seq<u8>
    decreases changes.len(),
{
    if changes.len() == 0 {
        text
    } else {
        apply_change(changes.last(), apply_changes(changes.drop_last(), text))
    }
}

/// Whether a series of changes can be carried out on a text: each insertion takes place within the
/// text as it is by then, or right behind it.
pub open spec fn can_apply(changes: Seq<Change>, text: Seq<u8>) -> bool
    decreases changes.len(),
{
    changes.len() > 0 ==> {
        &&& can_apply(changes.drop_last(), text)
        &&& changes.last() matches Change::Insert(idx, _) ==> idx <= apply_changes(
            changes.drop_last(),
            text,
        ).len()
    }
}

/// Whether a change says of a text what is true of it: what it removes stands where it says.
pub open spec fn change_fits(change: Change, text: Seq<u8>) -> bool {
    match change {
        Change::Insert(idx, _) => idx <= text.len(),
        Change::Remove(idx, ch) => idx < text.len() && text[idx as int] == ch,
    }
}

/// Whether each of a series of changes fits the text as it is by then.
pub open spec fn changes_fit(changes: Seq<Change>, text: Seq<u8>) -> bool
    decreases changes.len(),
{
    changes.len() > 0 ==> {
        &&& changes_fit(changes.drop_last(), text)
        &&& change_fits(changes.last(), apply_changes(changes.drop_last(), text))
    }
}

/// Whether entries can be taken back one after the other, from the last to the first, each fitting
/// the text that the one before left.
pub open spec fn entries_fit(entries: Seq<EntryView>, text: Seq<u8>) -> bool
    decreases entries.len(),
{
    entries.len() > 0 ==> {
        let back = entries.last().reversed().changes;
        &&& changes_fit(back, text)
        &&& can_apply(back, text)
        &&& entries_fit(entries.drop_last(), apply_changes(back, text))
    }
}

/// Whether a log belongs to a text: all of its entries can be undone, and all that were undone can
/// be redone.
pub open spec fn log_fits(log: LogView, text: Seq<u8>) -> bool {
    &&& entries_fit(log.undo, text)
    &&& entries_fit(log.redo, text)
}

/// Performs a transaction on a text.
pub fn commit(transaction: &LogEntry, text: &mut GapBuffer<u8>)
    requires
        can_apply(transaction@.changes, contents(*old(text))),
    ensures
        contents(*final(text)) == apply_changes(transaction@.changes, contents(*old(text))),
{
    let ghost before = contents(*text);
    let ghost all = transaction@.changes;
    let mut i: usize = 0;
    assert(all.take(all.len() as int) == all);
    while i < transaction.changes.len()
        invariant
            i <= transaction.changes.len(),
            all == transaction.changes@,
            can_apply(all, before),
            contents(*text) == apply_changes(all.take(i as int), before),
        decreases transaction.changes.len() - i,
    {
        proof {
            lemma_can_apply_prefix(all, before, i + 1);
            assert(all.take(i + 1).drop_last() == all.take(i as int));
        }
        match transaction.changes[i] {
            Change::Insert(idx, ch) => {
                text_insert(text, idx, ch);
            },
            Change::Remove(idx, _) => {
                text_remove(text, idx);
            },
        }
        i = i + 1;
    }
}

/// A series of changes that can be carried out can be carried out in part.
proof fn lemma_can_apply_prefix(changes: Seq<Change>, text: Seq<u8>, n: int)
    requires
        can_apply(changes, text),
        0 <= n <= changes.len(),
    ensures
        can_apply(changes.take(n), text),
    decreases changes.len(),
{
    if n == changes.len() {
        assert(changes.take(n) == changes);
    } else {
        lemma_can_apply_prefix(changes.drop_last(), text, n);
        assert(changes.drop_last().take(n) == changes.take(n));
    }
}

/// Changes that fit a text can be carried out on it.
pub proof fn lemma_fitting_changes_apply(changes: Seq<Change>, text: Seq<u8>)
    requires
        changes_fit(changes, text),
    ensures
        can_apply(changes, text),
    decreases changes.len(),
{
    if changes.len() > 0 {
        lemma_fitting_changes_apply(changes.drop_last(), text);
    }
}

/// A series of changes is the first of them followed by the rest.
proof fn lemma_first_change(change: Change, rest: Seq<Change>, text: Seq<u8>)
    requires
        change_fits(change, text),
        changes_fit(rest, apply_change(change, text)),
    ensures
        apply_changes(seq![change] + rest, text) == apply_changes(rest, apply_change(change, text)),
        changes_fit(seq![change] + rest, text),
    decreases rest.len(),
{
    let all = seq![change] + rest;
    if rest.len() == 0 {
        assert(apply_changes(all.drop_last(), text) == text);
        assert(changes_fit(all.drop_last(), text));
    } else {
        lemma_first_change(change, rest.drop_last(), text);
        assert(all.drop_last() == seq![change] + rest.drop_last());
    }
}

/// Undoing changes: where changes fit a text, the reversed changes fit what they make of it and
/// bring the text back.
pub proof fn reversed_changes_restore(changes: Seq<Change>, text: Seq<u8>)
    requires
        changes_fit(changes, text),
    ensures
        changes_fit(reversed_changes(changes), apply_changes(changes, text)),
        can_apply(reversed_changes(changes), apply_changes(changes, text)),
        apply_changes(reversed_changes(changes), apply_changes(changes, text)) == text,
    decreases changes.len(),
{
    let after = apply_changes(changes, text);
    if changes.len() > 0 {
        let before_last = apply_changes(changes.drop_last(), text);
        let back = changes.last().reversed();
        reversed_changes_restore(changes.drop_last(), text);
        assert(apply_change(back, after) == before_last);
        lemma_first_change(back, reversed_changes(changes.drop_last()), after);
        assert(reversed_changes(changes) == seq![back] + reversed_changes(changes.drop_last()));
    }
    lemma_fitting_changes_apply(reversed_changes(changes), after);
}

/// To reverse an entry twice gives the entry.
pub proof fn reversed_twice(entry: EntryView)
    ensures
        entry.reversed().reversed() == entry,
{
}

/// To carry out a transaction that fits keeps the log and the text together.
pub proof fn recorded_log_fits(log: LogView, entry: EntryView, text: Seq<u8>)
    requires
        log_fits(log, text),
        changes_fit(entry.changes, text),
    ensures
        log_fits(log.recorded(entry), apply_changes(entry.changes, text)),
{
    reversed_changes_restore(entry.changes, text);
    assert(log.undo.push(entry).drop_last() == log.undo);
}

/// To take back the last of some entries leaves the others to be taken back, and the entry itself
/// to be done again after all that stood to be done again before.
proof fn lemma_take_back(from: Seq<EntryView>, to: Seq<EntryView>, text: Seq<u8>)
    requires
        from.len() > 0,
        entries_fit(from, text),
        entries_fit(to, text),
    ensures
        ({
            let back = from.last().reversed();
            let after = apply_changes(back.changes, text);
            &&& entries_fit(from.drop_last(), after)
            &&& entries_fit(to.push(back), after)
            &&& apply_changes(back.reversed().changes, after) == text
        }),
{
    let back = from.last().reversed();
    reversed_changes_restore(back.changes, text);
    assert(to.push(back).drop_last() == to);
}

/// To undo keeps the log and the text together.
pub proof fn undone_log_fits(log: LogView, text: Seq<u8>)
    requires
        log.undo.len() > 0,
        log_fits(log, text),
    ensures
        log_fits(log.undone(), apply_changes(log.undo.last().reversed().changes, text)),
{
    lemma_take_back(log.undo, log.redo, text);
}

/// To redo keeps the log and the text together.
pub proof fn redone_log_fits(log: LogView, text: Seq<u8>)
    requires
        log.redo.len() > 0,
        log_fits(log, text),
    ensures
        log_fits(log.redone(), apply_changes(log.redo.last().reversed().changes, text)),
{
    lemma_take_back(log.redo, log.undo, text);
}

} // verus!
