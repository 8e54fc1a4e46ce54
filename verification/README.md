# iota

The text buffer of an editor, verified with Verus. A buffer holds bytes in a gap buffer, marks that
move through them by characters, words and lines, and a history of edits that can be undone and
redone.

- `src/buffer.rs`: the buffer and what each of its operations does.
- `src/motion.rs`: lines and words of a text, and where a shifted mark goes.
- `src/log.rs`, `src/history.rs`: recorded transactions and what they do to a text.
- `src/lines.rs`: the lines of a text, one after the other.
- `src/marks.rs`: the table of marks.
- `src/text.rs`, `src/utils.rs`: what is taken on trust of the `gapbuffer` crate and of `char`.
- `src/laws.rs`, `src/motion_laws.rs`: what holds of buffers and of texts as a whole.
- `app/`: buffers from readers and files.
