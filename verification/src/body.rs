//! Message bodies, held in the buffers of the `bytes` crate.

use bytes::{Bytes, BytesMut};
use vstd::prelude::*;

verus! {

/// The shared, unchanging byte buffer of the `bytes` crate.
#[verifier::external_type_specification]
#[verifier::external_body]
pub struct ExBytes(Bytes);

/// The growing byte buffer of the `bytes` crate.
#[verifier::external_type_specification]
#[verifier::external_body]
pub struct ExBytesMut(BytesMut);

/// The bytes that a finished buffer holds.
pub uninterp spec fn bytes_contents(bytes: Bytes) -> Seq<u8>;

/// The bytes that a growing buffer holds.
pub uninterp spec fn buffer_contents(buffer: BytesMut) -> Seq<u8>;

/// Whether a growing buffer was made with a capacity and has since only been extended, so that
/// its bytes begin where its memory begins and no other buffer shares it.
pub uninterp spec fn buffer_is_whole(buffer: BytesMut) -> bool;

/// `Bytes::new`: an empty buffer.
#[verifier::external_body]
pub(crate) fn empty_bytes() -> (bytes: Bytes)
    ensures
        bytes_contents(bytes) == Seq::<u8>::empty(),
{
    Bytes::new()
}

/// `Bytes::len`: how many bytes the buffer holds, which like every allocation is at most
/// `isize::MAX`.
#[verifier::external_body]
pub(crate) fn bytes_len(bytes: &Bytes) -> (len: usize)
    ensures
        len == bytes_contents(*bytes).len(),
        len <= isize::MAX,
{
    bytes.len()
}

/// `Bytes::from` on a string: the UTF-8 encoding of its text.
#[verifier::external_body]
pub(crate) fn bytes_of_text(text: String) -> (bytes: Bytes)
    ensures
        bytes_contents(bytes) == vstd::utf8::encode_utf8(text@),
{
    Bytes::from(text)
}

/// `BytesMut::with_capacity`: an empty buffer with room for `capacity` bytes. The call panics for
/// a capacity above `isize::MAX`.
#[verifier::external_body]
pub(crate) fn buffer_with_capacity(capacity: usize) -> (buffer: BytesMut)
    requires
        capacity <= isize::MAX,
    ensures
        buffer_contents(buffer) == Seq::<u8>::empty(),
        buffer_is_whole(buffer),
{
    BytesMut::with_capacity(capacity)
}

/// `BytesMut::len`: how many bytes the buffer holds, which like every allocation is at most
/// `isize::MAX`.
#[verifier::external_body]
pub(crate) fn buffer_len(buffer: &BytesMut) -> (len: usize)
    ensures
        len == buffer_contents(*buffer).len(),
        len <= isize::MAX,
{
    buffer.len()
}

/// `BytesMut::extend_from_slice` with the bytes of another buffer: they come behind those that
/// are there. A buffer that runs out of room takes up to twice the room that is needed, and the
/// call panics where that exceeds `isize::MAX`.
#[verifier::external_body]
pub(crate) fn extend_buffer(buffer: &mut BytesMut, bytes: &Bytes)
    requires
        buffer_is_whole(*old(buffer)),
        buffer_contents(*old(buffer)).len() + bytes_contents(*bytes).len() <= isize::MAX / 2,
    ensures
        buffer_is_whole(*final(buffer)),
        buffer_contents(*final(buffer)) == buffer_contents(*old(buffer)) + bytes_contents(*bytes),
{
    buffer.extend_from_slice(bytes)
}

/// `BytesMut::freeze`: the same bytes, from now on unchanging.
#[verifier::external_body]
pub(crate) fn freeze_buffer(buffer: BytesMut) -> (bytes: Bytes)
    ensures
        bytes_contents(bytes) == buffer_contents(buffer),
{
    buffer.freeze()
}

/// Whether two bodies together are small enough to be joined.
pub open spec fn fit_together(first: Bytes, second: Bytes) -> bool {
    bytes_contents(first).len() + bytes_contents(second).len() <= isize::MAX / 2
}

/// Whether two bodies together are small enough to be joined.
pub fn bodies_fit(first: &Bytes, second: &Bytes) -> (fit: bool)
    ensures
        fit == fit_together(*first, *second),
{
    bytes_len(first) as u128 + bytes_len(second) as u128 <= (isize::MAX / 2) as u128
}

/// Puts the second body behind the first.
pub fn join_bodies(first: &Bytes, second: &Bytes, capacity: usize) -> (body: Bytes)
    requires
        capacity <= isize::MAX,
        fit_together(*first, *second),
    ensures
        bytes_contents(body) == bytes_contents(*first) + bytes_contents(*second),
{
    let mut buffer = buffer_with_capacity(capacity);
    extend_buffer(&mut buffer, first);
    assert(buffer_contents(buffer) =~= bytes_contents(*first));
    extend_buffer(&mut buffer, second);
    freeze_buffer(buffer)
}

/// A body that arrives piece by piece.
pub struct BodyCollector {
    buffer: BytesMut,
}

impl View for BodyCollector {
    type V = Seq<u8>;

    closed spec fn view(&self) -> Seq<u8> {
        buffer_contents(self.buffer)
    }
}

impl BodyCollector {
    /// Whether the pieces stand in a buffer of their own.
    pub closed spec fn is_whole(&self) -> bool {
        buffer_is_whole(self.buffer)
    }

    /// A body of which nothing has arrived.
    pub fn new() -> (collector: Self)
        ensures
            collector.is_whole(),
            collector@ == Seq::<u8>::empty(),
    {
        BodyCollector { buffer: buffer_with_capacity(0) }
    }

    /// Whether the body stays small enough with one more piece.
    pub open spec fn has_room(&self, piece: Bytes) -> bool {
        self@.len() + bytes_contents(piece).len() <= isize::MAX / 2
    }

    /// Whether the body stays small enough with one more piece.
    pub fn accepts(&self, piece: &Bytes) -> (fits: bool)
        ensures
            fits == self.has_room(*piece),
    {
        buffer_len(&self.buffer) as u128 + bytes_len(piece) as u128 <= (isize::MAX / 2) as u128
    }

    /// Takes in the next piece and returns how many bytes it brought.
    pub fn push(&mut self, piece: &Bytes) -> (received: u64)
        requires
            old(self).is_whole(),
            old(self).has_room(*piece),
        ensures
            final(self).is_whole(),
            final(self)@ == old(self)@ + bytes_contents(*piece),
            received == bytes_contents(*piece).len(),
    {
        let received: usize = bytes_len(piece);
        extend_buffer(&mut self.buffer, piece);
        received as u64
    }

    /// The whole body.
    pub fn finish(self) -> (body: Bytes)
        ensures
            bytes_contents(body) == self@,
    {
        freeze_buffer(self.buffer)
    }
}

} // verus!
