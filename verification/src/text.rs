//! The gap buffer that holds a text, seen as a sequence of bytes.

use gapbuffer::GapBuffer;
use vstd::prelude::*;

verus! {

/// The gap buffer of the `gapbuffer` crate.
#[verifier::external_type_specification]
#[verifier::external_body]
#[verifier::reject_recursive_types(T)]
pub struct ExGapBuffer<T>(GapBuffer<T>);

/// The bytes that a gap buffer holds, in order and without the gap.
pub uninterp spec fn contents(text: GapBuffer<u8>) -> Seq<u8>;

/// `GapBuffer::new`: a gap buffer that holds nothing.
#[verifier::external_body]
pub(crate) fn text_new() -> (text: GapBuffer<u8>)
    ensures
        contents(text) == Seq::<u8>::empty(),
{
    GapBuffer::new()
}

/// `GapBuffer::len`: the number of bytes held.
#[verifier::external_body]
pub(crate) fn text_len(text: &GapBuffer<u8>) -> (len: usize)
    ensures
        len == contents(*text).len(),
{
    text.len()
}

/// `Index::index` of `GapBuffer`: the byte at an index. It panics at an index that is not below
/// the length.
#[verifier::external_body]
pub(crate) fn text_at(text: &GapBuffer<u8>, i: usize) -> (byte: u8)
    requires
        i < contents(*text).len(),
    ensures
        byte == contents(*text)[i as int],
{
    text[i]
}

/// `GapBuffer::insert`: the byte comes to stand at the index, and what stood there and behind it
/// moves up by one. It panics at an index above the length. That memory runs out is left aside, as
/// it is for `Vec`.
#[verifier::external_body]
pub(crate) fn text_insert(text: &mut GapBuffer<u8>, i: usize, byte: u8)
    requires
        i <= contents(*old(text)).len(),
    ensures
        contents(*final(text)) == contents(*old(text)).insert(i as int, byte),
{
    text.insert(i, byte)
}

/// `GapBuffer::remove`: takes out and returns the byte at the index. At an index that is not below
/// the length it returns `None` and leaves the bytes as they are.
#[verifier::external_body]
pub(crate) fn text_remove(text: &mut GapBuffer<u8>, i: usize) -> (byte: Option<u8>)
    ensures
        i < contents(*old(text)).len() ==> {
            &&& byte == Some(contents(*old(text))[i as int])
            &&& contents(*final(text)) == contents(*old(text)).remove(i as int)
        },
        i >= contents(*old(text)).len() ==> {
            &&& byte == None::<u8>
            &&& contents(*final(text)) == contents(*old(text))
        },
{
    text.remove(i)
}

/// `Extend::extend` of `GapBuffer`, on a gap buffer that holds nothing: it then holds the bytes,
/// in order. On one that holds bytes already the gap keeps its offset while the new bytes go
/// behind it, so the old and the new bytes do not come out in order; hence the condition.
#[verifier::external_body]
pub(crate) fn text_extend(text: &mut GapBuffer<u8>, bytes: &[u8])
    requires
        contents(*old(text)).len() == 0,
    ensures
        contents(*final(text)) == bytes@,
{
    text.extend(bytes.iter().copied())
}

} // verus!
