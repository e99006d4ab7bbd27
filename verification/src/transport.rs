//! The two ends of the byte transport as the column code sees them: the
//! bytes that have been received and wait to be read, and a send buffer with
//! finite room, with the writers that put one field into it piece by piece.
//! Neither end ever waits: a read that lacks bytes says so and takes none, a
//! write takes what fits.

use crate::wire::{
    encode_utf16_le, i32_from_le, i32_from_le_bytes, u16_le_bytes, u16_to_le, utf16_le,
};
use futures::Async;
use vstd::prelude::*;
use vstd::slice::slice_subrange;

verus! {

/// `futures::Async`, the outcome of an attempt that does not wait: a value
/// that is ready, or the news that it is not ready yet.
#[verifier::external_type_specification]
#[verifier::reject_recursive_types(T)]
pub struct ExAsync<T>(Async<T>);

/// The receiving end of the transport. Its view is the bytes that have
/// arrived and have not been read yet, in the order of their arrival.
pub struct TdsTransport {
    buf: Vec<u8>,
    pos: usize,
}

impl View for TdsTransport {
    type V = Seq<u8>;

    closed spec fn view(&self) -> Seq<u8> {
        self.buf@.subrange(self.pos as int, self.buf@.len() as int)
    }
}

impl TdsTransport {
    #[verifier::type_invariant]
    spec fn pos_in_buf(self) -> bool {
        self.pos <= self.buf@.len()
    }

    /// A transport on which nothing has arrived yet.
    pub fn new() -> (trans: TdsTransport)
        ensures
            trans@ == Seq::<u8>::empty(),
    {
        let trans = TdsTransport { buf: Vec::new(), pos: 0 };
        assert(trans@ =~= Seq::<u8>::empty());
        trans
    }

    /// Takes in bytes that have arrived: they come behind those that are
    /// still unread.
    pub fn feed(&mut self, bytes: &[u8])
        ensures
            final(self)@ == old(self)@ + bytes@,
    {
        proof {
            use_type_invariant(&*self);
        }
        let pos = self.pos;
        let mut buf: Vec<u8> = Vec::new();
        self.pos = 0;
        std::mem::swap(&mut self.buf, &mut buf);
        let mut unread = buf.split_off(pos);
        unread.extend_from_slice(bytes);
        assert(unread@ =~= old(self)@ + bytes@);
        self.buf = unread;
        assert(self@ =~= unread@);
    }

    /// The number of bytes that can be read.
    pub fn available(&self) -> (n: usize)
        ensures
            n == self@.len(),
    {
        proof {
            use_type_invariant(self);
        }
        self.buf.len() - self.pos
    }

    /// The next byte, which stays unread.
    pub fn peek_u8(&self) -> (r: Async<u8>)
        ensures
            r == (if self@.len() >= 1 {
                Async::Ready(self@[0])
            } else {
                Async::NotReady
            }),
    {
        proof {
            use_type_invariant(self);
        }
        if self.pos < self.buf.len() {
            Async::Ready(self.buf[self.pos])
        } else {
            Async::NotReady
        }
    }

    /// Passes over the next `n` bytes.
    pub fn consume(&mut self, n: usize)
        requires
            n <= old(self)@.len(),
        ensures
            final(self)@ == old(self)@.skip(n as int),
    {
        proof {
            use_type_invariant(&*self);
        }
        assert(self.pos + n <= self.buf.len());
        self.pos = self.pos + n;
        assert(self@ =~= old(self)@.skip(n as int));
    }

    /// Reads one byte, if one is there.
    pub fn read_u8(&mut self) -> (r: Async<u8>)
        ensures
            old(self)@.len() >= 1 ==> r == Async::Ready(old(self)@[0])
                && final(self)@ == old(self)@.skip(1),
            old(self)@.len() < 1 ==> r == Async::<u8>::NotReady && final(self)@ == old(self)@,
    {
        let r = self.peek_u8();
        if self.available() >= 1 {
            self.consume(1);
        }
        r
    }

    /// Reads a 32-bit integer from four bytes, low byte first, if four bytes
    /// are there. It takes all four or none.
    pub fn read_i32_le(&mut self) -> (r: Async<i32>)
        ensures
            old(self)@.len() >= 4 ==> r == Async::Ready(i32_from_le_bytes(old(self)@))
                && final(self)@ == old(self)@.skip(4),
            old(self)@.len() < 4 ==> r == Async::<i32>::NotReady && final(self)@ == old(self)@,
    {
        proof {
            use_type_invariant(&*self);
        }
        if self.buf.len() - self.pos < 4 {
            return Async::NotReady;
        }
        let field = slice_subrange(self.buf.as_slice(), self.pos, self.pos + 4);
        let value = i32_from_le(field);
        assert(i32_from_le_bytes(field@) == i32_from_le_bytes(self@));
        self.consume(4);
        Async::Ready(value)
    }
}

/// The smaller of two natural numbers.
pub open spec fn min_nat(a: nat, b: nat) -> nat {
    if a <= b {
        a
    } else {
        b
    }
}

/// An outbound buffer that holds at most `limit()` bytes at a time.
///
/// Its view is the bytes it holds, in the order in which they were written.
/// A write takes what fits and leaves the rest to a later attempt; `take`
/// hands the bytes on and makes the whole room available again.
pub struct SendBuffer {
    data: Vec<u8>,
    limit: usize,
}

impl View for SendBuffer {
    type V = Seq<u8>;

    closed spec fn view(&self) -> Seq<u8> {
        self.data@
    }
}

impl SendBuffer {
    /// A buffer never holds more than its limit.
    #[verifier::type_invariant]
    pub open spec fn within_limit(self) -> bool {
        self@.len() <= self.limit()
    }

    /// The largest number of bytes that the buffer holds at a time.
    pub closed spec fn limit(&self) -> nat {
        self.limit as nat
    }

    /// The number of bytes that the buffer can still take.
    pub open spec fn room(&self) -> nat {
        if self@.len() <= self.limit() {
            (self.limit() - self@.len()) as nat
        } else {
            0
        }
    }

    /// An empty buffer with room for `limit` bytes.
    pub fn new(limit: usize) -> (buf: SendBuffer)
        ensures
            buf@ == Seq::<u8>::empty(),
            buf.limit() == limit,
    {
        SendBuffer { data: Vec::new(), limit }
    }

    /// The number of bytes that the buffer can still take.
    pub fn remaining(&self) -> (n: usize)
        ensures
            n == self.room(),
    {
        proof {
            use_type_invariant(self);
        }
        self.limit - self.data.len()
    }

    /// The bytes that the buffer holds.
    pub fn as_slice(&self) -> (bytes: &[u8])
        ensures
            bytes@ == self@,
    {
        self.data.as_slice()
    }

    /// Hands out the bytes that the buffer holds and leaves it empty, with
    /// its limit unchanged.
    pub fn take(&mut self) -> (bytes: Vec<u8>)
        ensures
            bytes@ == old(self)@,
            final(self)@ == Seq::<u8>::empty(),
            final(self).limit() == old(self).limit(),
    {
        let mut bytes: Vec<u8> = Vec::new();
        std::mem::swap(&mut self.data, &mut bytes);
        bytes
    }

    /// Appends as many of the leading bytes of `bytes` as there is room for,
    /// and returns their number.
    pub fn write(&mut self, bytes: &[u8]) -> (written: usize)
        ensures
            written == min_nat(old(self).room(), bytes@.len()),
            final(self)@ == old(self)@ + bytes@.take(written as int),
            final(self).limit() == old(self).limit(),
    {
        proof {
            use_type_invariant(&*self);
        }
        let room: usize = self.limit - self.data.len();
        let written: usize = if bytes.len() <= room {
            bytes.len()
        } else {
            room
        };
        let part = slice_subrange(bytes, 0, written);
        let mut data: Vec<u8> = Vec::new();
        std::mem::swap(&mut self.data, &mut data);
        data.extend_from_slice(part);
        assert(data@ =~= old(self).data@ + bytes@.take(written as int));
        self.data = data;
        written
    }
}

/// A run of bytes of a received packet that holds a text, borrowed from the
/// receive buffer. It is good for as long as that buffer is, and has to be
/// copied to be kept longer.
#[derive(Copy, Clone, Debug, PartialEq, Eq)]
pub struct TdsBuf<'a> {
    bytes: &'a [u8],
}

impl<'a> View for TdsBuf<'a> {
    type V = Seq<u8>;

    closed spec fn view(&self) -> Seq<u8> {
        self.bytes@
    }
}

impl<'a> TdsBuf<'a> {
    /// A view of the given bytes.
    pub fn new(bytes: &'a [u8]) -> (buf: TdsBuf<'a>)
        ensures
            buf@ == bytes@,
    {
        TdsBuf { bytes }
    }

    /// The bytes that the view covers.
    pub fn as_slice(&self) -> (bytes: &'a [u8])
        ensures
            bytes@ == self@,
    {
        self.bytes
    }
}

/// The number of bytes of a field of `len` bytes that a buffer with `room`
/// free bytes takes when the field is written from its offset `last_pos` on.
pub open spec fn fragment_len(len: nat, room: nat, last_pos: nat) -> nat {
    if last_pos <= len {
        min_nat(room, (len - last_pos) as nat)
    } else {
        0
    }
}

/// Writes the bytes of a field from offset `last_pos` on, as far as the
/// buffer has room. Returns the number of bytes of the field that are still
/// to be written, and the number written by this call.
pub fn write_bytes_fragment(
    target: &mut SendBuffer,
    bytes: &[u8],
    last_pos: usize,
) -> (r: (usize, usize))
    requires
        last_pos <= bytes@.len(),
    ensures
        r.1 == fragment_len(bytes@.len(), old(target).room(), last_pos as nat),
        r.0 == bytes@.len() - last_pos - r.1,
        final(target)@ == old(target)@ + bytes@.subrange(last_pos as int, last_pos + r.1),
        final(target).limit() == old(target).limit(),
{
    let rest = slice_subrange(bytes, last_pos, bytes.len());
    let written = target.write(rest);
    assert(rest@.take(written as int) =~= bytes@.subrange(last_pos as int, last_pos + written));
    (rest.len() - written, written)
}

/// Writes a 16-bit value, low byte first, from offset `last_pos` of its two
/// bytes on, as far as the buffer has room. Returns the number of its bytes
/// that are still to be written, and the number written by this call.
pub fn write_u16_fragment(
    target: &mut SendBuffer,
    value: u16,
    last_pos: usize,
) -> (r: (usize, usize))
    requires
        last_pos <= 2,
    ensures
        r.1 == fragment_len(2, old(target).room(), last_pos as nat),
        r.0 == 2 - last_pos - r.1,
        final(target)@ == old(target)@ + u16_le_bytes(value).subrange(
            last_pos as int,
            last_pos + r.1,
        ),
        final(target).limit() == old(target).limit(),
{
    let bytes = u16_to_le(value);
    write_bytes_fragment(target, bytes.as_slice(), last_pos)
}

/// Writes the UTF-16 encoding of a text, each code unit low byte first,
/// from offset `last_pos` of that encoding on, as far as the buffer has room.
/// Returns the number of its bytes that are still to be written, and the
/// number written by this call.
pub fn write_varchar_fragment(
    target: &mut SendBuffer,
    s: &str,
    last_pos: usize,
) -> (r: (usize, usize))
    requires
        last_pos <= utf16_le(s@).len(),
    ensures
        r.1 == fragment_len(utf16_le(s@).len(), old(target).room(), last_pos as nat),
        r.0 == utf16_le(s@).len() - last_pos - r.1,
        final(target)@ == old(target)@ + utf16_le(s@).subrange(last_pos as int, last_pos + r.1),
        final(target).limit() == old(target).limit(),
{
    let bytes = encode_utf16_le(s);
    write_bytes_fragment(target, bytes.as_slice(), last_pos)
}

} // verus!
