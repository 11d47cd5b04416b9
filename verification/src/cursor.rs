//! A read position over borrowed bytes, and appending to a growable buffer.

use vstd::prelude::*;
use vstd::slice::slice_subrange;
use vstd::string::*;

use crate::bytes;
use crate::render;
use crate::DecodeError;

verus! {

broadcast use bytes::group_bytes;

/// A read asked for more bytes than were left.
#[derive(Debug, Clone, Copy, PartialEq, Eq)]
pub struct NotEnoughBytes {
    pub needed: usize,
    pub remaining: usize,
}

impl NotEnoughBytes {
    pub open spec fn text(self) -> Seq<char> {
        "needed "@ + render::decimal(self.needed as nat) + " bytes, only "@ + render::decimal(
            self.remaining as nat,
        ) + " remaining"@
    }

    /// What is wrong, in words.
    pub fn message(&self) -> (s: String)
        ensures
            s@ == self.text(),
    {
        let mut s: String = render::around("needed ", self.needed as u64, " bytes, only ");
        render::push_decimal(&mut s, self.remaining as u64);
        s.append(" remaining");
        s
    }
}

/// What a read of `n` bytes at offset `p` of `b` reports when they are not there.
pub open spec fn missing(b: Seq<u8>, p: int, n: int) -> NotEnoughBytes {
    NotEnoughBytes { needed: n as usize, remaining: (b.len() - p) as usize }
}

/// [`missing`], as the error of a decoder.
pub open spec fn short(b: Seq<u8>, p: int, n: int) -> DecodeError {
    DecodeError::NotEnoughBytes(missing(b, p, n))
}

/// The error that names a field and what is wrong with it.
pub open spec fn invalid(field: &'static str, reason: &'static str) -> DecodeError {
    DecodeError::InvalidValue { field, reason }
}

/// A read whose outcome is `s`: it returned `r` and left the position at `q`.
/// Where the read fails, the position is left open.
pub open spec fn reads<T>(
    r: Result<T, DecodeError>,
    q: int,
    s: Result<(T, int), DecodeError>,
) -> bool {
    match s {
        Ok((v, next)) => r == Ok::<T, DecodeError>(v) && q == next,
        Err(e) => r == Err::<T, DecodeError>(e),
    }
}

/// [`reads`], of a value that is known by its view.
pub open spec fn reads_view<T: View>(
    r: Result<T, DecodeError>,
    q: int,
    s: Result<(T::V, int), DecodeError>,
) -> bool {
    match s {
        Ok((v, next)) => r is Ok && r->Ok_0@ == v && q == next,
        Err(e) => r == Err::<T, DecodeError>(e),
    }
}

/// A decoder of a whole message whose outcome is `s` returned `r`.
pub open spec fn decodes_view<T: View>(
    r: Result<T, DecodeError>,
    s: Result<T::V, DecodeError>,
) -> bool {
    match s {
        Ok(v) => r is Ok && r->Ok_0@ == v,
        Err(e) => r == Err::<T, DecodeError>(e),
    }
}

/// Bytes being read from front to back.
pub struct ReadCursor<'a> {
    buf: &'a [u8],
    pos: usize,
}

impl<'a> ReadCursor<'a> {
    /// All the bytes, those already read among them.
    pub closed spec fn data(&self) -> Seq<u8> {
        self.buf@
    }

    /// How many bytes have been read.
    pub closed spec fn offset(&self) -> int {
        self.pos as int
    }

    /// The read position is not past the end.
    pub open spec fn wf(&self) -> bool {
        0 <= self.offset() <= self.data().len() <= usize::MAX
    }

    pub fn new(buf: &'a [u8]) -> (c: Self)
        ensures
            c.wf(),
            c.data() == buf@,
            c.offset() == 0,
    {
        assert(buf.len() == buf@.len());
        Self { buf, pos: 0 }
    }

    pub fn pos(&self) -> (p: usize)
        ensures
            p == self.offset(),
    {
        self.pos
    }

    pub fn remaining(&self) -> (n: usize)
        requires
            self.wf(),
        ensures
            n == self.data().len() - self.offset(),
    {
        self.buf.len() - self.pos
    }

    pub fn ensure(&self, needed: usize) -> (r: Result<(), NotEnoughBytes>)
        requires
            self.wf(),
        ensures
            r == (if self.offset() + needed <= self.data().len() {
                Ok::<(), NotEnoughBytes>(())
            } else {
                Err(missing(self.data(), self.offset(), needed as int))
            }),
    {
        if self.remaining() < needed {
            Err(NotEnoughBytes { needed, remaining: self.remaining() })
        } else {
            Ok(())
        }
    }

    /// Skips `n` bytes that are known to be there.
    pub fn advance(&mut self, n: usize)
        requires
            old(self).wf(),
            old(self).offset() + n <= old(self).data().len(),
        ensures
            final(self).wf(),
            final(self).data() == old(self).data(),
            final(self).offset() == old(self).offset() + n,
    {
        self.pos = self.pos + n;
    }

    pub fn peek_u16_be(&self) -> (r: Result<u16, NotEnoughBytes>)
        requires
            self.wf(),
        ensures
            r == (if self.offset() + 2 <= self.data().len() {
                Ok(bytes::u16_be_at(self.data(), self.offset()))
            } else {
                Err(missing(self.data(), self.offset(), 2))
            }),
    {
        self.ensure(2)?;
        proof {
            reveal(bytes::u16_be);
        }
        Ok(self.buf[self.pos] as u16 * 0x100 + self.buf[self.pos + 1] as u16)
    }

    /// The next `n` bytes, without reading past them.
    pub fn peek_slice(&self, n: usize) -> (r: Result<&'a [u8], NotEnoughBytes>)
        requires
            self.wf(),
        ensures
            match r {
                Ok(s) => self.offset() + n <= self.data().len() && s@ == self.data().subrange(
                    self.offset(),
                    self.offset() + n,
                ),
                Err(e) => self.offset() + n > self.data().len() && e == missing(
                    self.data(),
                    self.offset(),
                    n as int,
                ),
            },
    {
        self.ensure(n)?;
        Ok(slice_subrange(self.buf, self.pos, self.pos + n))
    }

    /// The bytes from `start` up to `end`, counted from the first byte of all.
    pub fn slice_from_to(&self, start: usize, end: usize) -> (s: &'a [u8])
        requires
            start <= end <= self.data().len(),
        ensures
            s@ == self.data().subrange(start as int, end as int),
    {
        slice_subrange(self.buf, start, end)
    }

    pub fn read_u8(&mut self) -> (r: Result<u8, NotEnoughBytes>)
        requires
            old(self).wf(),
        ensures
            final(self).wf(),
            final(self).data() == old(self).data(),
            match r {
                Ok(v) => {
                    &&& old(self).offset() + 1 <= old(self).data().len()
                    &&& v == old(self).data()[old(self).offset()]
                    &&& final(self).offset() == old(self).offset() + 1
                },
                Err(e) => {
                    &&& old(self).offset() + 1 > old(self).data().len()
                    &&& e == missing(old(self).data(), old(self).offset(), 1)
                    &&& final(self).offset() == old(self).offset()
                },
            },
    {
        self.ensure(1)?;
        let v: u8 = self.buf[self.pos];
        self.pos = self.pos + 1;
        Ok(v)
    }

    pub fn read_u16_be(&mut self) -> (r: Result<u16, NotEnoughBytes>)
        requires
            old(self).wf(),
        ensures
            final(self).wf(),
            final(self).data() == old(self).data(),
            match r {
                Ok(v) => {
                    &&& old(self).offset() + 2 <= old(self).data().len()
                    &&& v == bytes::u16_be_at(old(self).data(), old(self).offset())
                    &&& final(self).offset() == old(self).offset() + 2
                },
                Err(e) => {
                    &&& old(self).offset() + 2 > old(self).data().len()
                    &&& e == missing(old(self).data(), old(self).offset(), 2)
                    &&& final(self).offset() == old(self).offset()
                },
            },
    {
        let v: u16 = self.peek_u16_be()?;
        self.pos = self.pos + 2;
        Ok(v)
    }

    pub fn read_u16_le(&mut self) -> (r: Result<u16, NotEnoughBytes>)
        requires
            old(self).wf(),
        ensures
            final(self).wf(),
            final(self).data() == old(self).data(),
            match r {
                Ok(v) => {
                    &&& old(self).offset() + 2 <= old(self).data().len()
                    &&& v == bytes::u16_le_at(old(self).data(), old(self).offset())
                    &&& final(self).offset() == old(self).offset() + 2
                },
                Err(e) => {
                    &&& old(self).offset() + 2 > old(self).data().len()
                    &&& e == missing(old(self).data(), old(self).offset(), 2)
                    &&& final(self).offset() == old(self).offset()
                },
            },
    {
        self.ensure(2)?;
        proof {
            reveal(bytes::u16_le);
        }
        let v: u16 = self.buf[self.pos] as u16 + self.buf[self.pos + 1] as u16 * 0x100;
        self.pos = self.pos + 2;
        Ok(v)
    }

    pub fn read_u32_le(&mut self) -> (r: Result<u32, NotEnoughBytes>)
        requires
            old(self).wf(),
        ensures
            final(self).wf(),
            final(self).data() == old(self).data(),
            match r {
                Ok(v) => {
                    &&& old(self).offset() + 4 <= old(self).data().len()
                    &&& v == bytes::u32_le_at(old(self).data(), old(self).offset())
                    &&& final(self).offset() == old(self).offset() + 4
                },
                Err(e) => {
                    &&& old(self).offset() + 4 > old(self).data().len()
                    &&& e == missing(old(self).data(), old(self).offset(), 4)
                    &&& final(self).offset() == old(self).offset()
                },
            },
    {
        self.ensure(4)?;
        proof {
            reveal(bytes::u32_le);
        }
        let v: u32 = self.buf[self.pos] as u32 + self.buf[self.pos + 1] as u32 * 0x100
            + self.buf[self.pos + 2] as u32 * 0x1_0000 + self.buf[self.pos + 3] as u32
            * 0x100_0000;
        self.pos = self.pos + 4;
        Ok(v)
    }

    pub fn read_u64_le(&mut self) -> (r: Result<u64, NotEnoughBytes>)
        requires
            old(self).wf(),
        ensures
            final(self).wf(),
            final(self).data() == old(self).data(),
            match r {
                Ok(v) => {
                    &&& old(self).offset() + 8 <= old(self).data().len()
                    &&& v == bytes::u64_le_at(old(self).data(), old(self).offset())
                    &&& final(self).offset() == old(self).offset() + 8
                },
                Err(e) => {
                    &&& old(self).offset() + 8 > old(self).data().len()
                    &&& e == missing(old(self).data(), old(self).offset(), 8)
                    &&& final(self).offset() == old(self).offset()
                },
            },
    {
        self.ensure(8)?;
        let low: u32 = self.read_u32_le()?;
        let high: u32 = self.read_u32_le()?;
        proof {
            reveal(bytes::u64_halves);
        }
        Ok(low as u64 + high as u64 * 0x1_0000_0000)
    }

    pub fn read_slice(&mut self, n: usize) -> (r: Result<&'a [u8], NotEnoughBytes>)
        requires
            old(self).wf(),
        ensures
            final(self).wf(),
            final(self).data() == old(self).data(),
            match r {
                Ok(s) => {
                    &&& old(self).offset() + n <= old(self).data().len()
                    &&& s@ == old(self).data().subrange(old(self).offset(), old(self).offset() + n)
                    &&& final(self).offset() == old(self).offset() + n
                },
                Err(e) => {
                    &&& old(self).offset() + n > old(self).data().len()
                    &&& e == missing(old(self).data(), old(self).offset(), n as int)
                    &&& final(self).offset() == old(self).offset()
                },
            },
    {
        let s: &'a [u8] = self.peek_slice(n)?;
        self.pos = self.pos + n;
        Ok(s)
    }

    /// Every byte from the read position to the end.
    pub fn read_rest(&mut self) -> (s: &'a [u8])
        requires
            old(self).wf(),
        ensures
            final(self).wf(),
            final(self).data() == old(self).data(),
            final(self).offset() == old(self).data().len(),
            s@ == old(self).data().subrange(old(self).offset(), old(self).data().len() as int),
    {
        let s: &'a [u8] = slice_subrange(self.buf, self.pos, self.buf.len());
        self.pos = self.buf.len();
        s
    }

    /// [`Self::read_u8`] with the error of a decoder.
    pub fn take_u8(&mut self) -> (r: Result<u8, DecodeError>)
        requires
            old(self).wf(),
        ensures
            final(self).wf(),
            final(self).data() == old(self).data(),
            match r {
                Ok(v) => {
                    &&& old(self).offset() + 1 <= old(self).data().len()
                    &&& v == old(self).data()[old(self).offset()]
                    &&& final(self).offset() == old(self).offset() + 1
                },
                Err(e) => {
                    &&& old(self).offset() + 1 > old(self).data().len()
                    &&& e == short(old(self).data(), old(self).offset(), 1)
                    &&& final(self).offset() == old(self).offset()
                },
            },
    {
        match self.read_u8() {
            Ok(v) => Ok(v),
            Err(e) => Err(DecodeError::NotEnoughBytes(e)),
        }
    }

    /// [`Self::read_u16_be`] with the error of a decoder.
    pub fn take_u16_be(&mut self) -> (r: Result<u16, DecodeError>)
        requires
            old(self).wf(),
        ensures
            final(self).wf(),
            final(self).data() == old(self).data(),
            match r {
                Ok(v) => {
                    &&& old(self).offset() + 2 <= old(self).data().len()
                    &&& v == bytes::u16_be_at(old(self).data(), old(self).offset())
                    &&& final(self).offset() == old(self).offset() + 2
                },
                Err(e) => {
                    &&& old(self).offset() + 2 > old(self).data().len()
                    &&& e == short(old(self).data(), old(self).offset(), 2)
                    &&& final(self).offset() == old(self).offset()
                },
            },
    {
        match self.read_u16_be() {
            Ok(v) => Ok(v),
            Err(e) => Err(DecodeError::NotEnoughBytes(e)),
        }
    }

    /// [`Self::read_u16_le`] with the error of a decoder.
    pub fn take_u16_le(&mut self) -> (r: Result<u16, DecodeError>)
        requires
            old(self).wf(),
        ensures
            final(self).wf(),
            final(self).data() == old(self).data(),
            match r {
                Ok(v) => {
                    &&& old(self).offset() + 2 <= old(self).data().len()
                    &&& v == bytes::u16_le_at(old(self).data(), old(self).offset())
                    &&& final(self).offset() == old(self).offset() + 2
                },
                Err(e) => {
                    &&& old(self).offset() + 2 > old(self).data().len()
                    &&& e == short(old(self).data(), old(self).offset(), 2)
                    &&& final(self).offset() == old(self).offset()
                },
            },
    {
        match self.read_u16_le() {
            Ok(v) => Ok(v),
            Err(e) => Err(DecodeError::NotEnoughBytes(e)),
        }
    }

    /// [`Self::read_u32_le`] with the error of a decoder.
    pub fn take_u32_le(&mut self) -> (r: Result<u32, DecodeError>)
        requires
            old(self).wf(),
        ensures
            final(self).wf(),
            final(self).data() == old(self).data(),
            match r {
                Ok(v) => {
                    &&& old(self).offset() + 4 <= old(self).data().len()
                    &&& v == bytes::u32_le_at(old(self).data(), old(self).offset())
                    &&& final(self).offset() == old(self).offset() + 4
                },
                Err(e) => {
                    &&& old(self).offset() + 4 > old(self).data().len()
                    &&& e == short(old(self).data(), old(self).offset(), 4)
                    &&& final(self).offset() == old(self).offset()
                },
            },
    {
        match self.read_u32_le() {
            Ok(v) => Ok(v),
            Err(e) => Err(DecodeError::NotEnoughBytes(e)),
        }
    }

    /// [`Self::read_u64_le`] with the error of a decoder.
    pub fn take_u64_le(&mut self) -> (r: Result<u64, DecodeError>)
        requires
            old(self).wf(),
        ensures
            final(self).wf(),
            final(self).data() == old(self).data(),
            match r {
                Ok(v) => {
                    &&& old(self).offset() + 8 <= old(self).data().len()
                    &&& v == bytes::u64_le_at(old(self).data(), old(self).offset())
                    &&& final(self).offset() == old(self).offset() + 8
                },
                Err(e) => {
                    &&& old(self).offset() + 8 > old(self).data().len()
                    &&& e == short(old(self).data(), old(self).offset(), 8)
                    &&& final(self).offset() == old(self).offset()
                },
            },
    {
        match self.read_u64_le() {
            Ok(v) => Ok(v),
            Err(e) => Err(DecodeError::NotEnoughBytes(e)),
        }
    }

    /// [`Self::read_slice`] with the error of a decoder.
    pub fn take_slice(&mut self, n: usize) -> (r: Result<&'a [u8], DecodeError>)
        requires
            old(self).wf(),
        ensures
            final(self).wf(),
            final(self).data() == old(self).data(),
            match r {
                Ok(s) => {
                    &&& old(self).offset() + n <= old(self).data().len()
                    &&& s@ == old(self).data().subrange(old(self).offset(), old(self).offset() + n)
                    &&& final(self).offset() == old(self).offset() + n
                },
                Err(e) => {
                    &&& old(self).offset() + n > old(self).data().len()
                    &&& e == short(old(self).data(), old(self).offset(), n as int)
                    &&& final(self).offset() == old(self).offset()
                },
            },
    {
        match self.read_slice(n) {
            Ok(v) => Ok(v),
            Err(e) => Err(DecodeError::NotEnoughBytes(e)),
        }
    }

    /// Skips `n` bytes, or reports that they are not there.
    pub fn skip(&mut self, n: usize) -> (r: Result<(), DecodeError>)
        requires
            old(self).wf(),
        ensures
            final(self).wf(),
            final(self).data() == old(self).data(),
            match r {
                Ok(_) => {
                    &&& old(self).offset() + n <= old(self).data().len()
                    &&& final(self).offset() == old(self).offset() + n
                },
                Err(e) => {
                    &&& old(self).offset() + n > old(self).data().len()
                    &&& e == short(old(self).data(), old(self).offset(), n as int)
                    &&& final(self).offset() == old(self).offset()
                },
            },
    {
        match self.ensure(n) {
            Ok(_) => {
                self.advance(n);
                Ok(())
            },
            Err(e) => Err(DecodeError::NotEnoughBytes(e)),
        }
    }
}

/// Appends encoded values to a growable buffer. Encoding has no error: a
/// buffer only ever grows.
pub trait WriteBuf {
    /// Everything written so far.
    spec fn written(&self) -> Seq<u8>;

    fn write_u8(&mut self, v: u8)
        ensures
            final(self).written() == old(self).written() + seq![v],
    ;

    fn write_u16_be(&mut self, v: u16)
        ensures
            final(self).written() == old(self).written() + bytes::be16(v),
    ;

    fn write_u16_le(&mut self, v: u16)
        ensures
            final(self).written() == old(self).written() + bytes::le16(v),
    ;

    fn write_u32_le(&mut self, v: u32)
        ensures
            final(self).written() == old(self).written() + bytes::le32(v),
    ;

    /// The two's complement bit pattern of `v`, low byte first.
    fn write_i32_le(&mut self, v: i32)
        ensures
            final(self).written() == old(self).written() + bytes::le32(v as u32),
    ;

    fn write_u64_le(&mut self, v: u64)
        ensures
            final(self).written() == old(self).written() + bytes::le64(v),
    ;

    fn write_slice(&mut self, s: &[u8])
        ensures
            final(self).written() == old(self).written() + s@,
    ;
}

impl WriteBuf for Vec<u8> {
    open spec fn written(&self) -> Seq<u8> {
        self@
    }

    fn write_u8(&mut self, v: u8)
        ensures
            final(self)@ == old(self)@ + seq![v],
    {
        self.push(v);
    }

    fn write_u16_be(&mut self, v: u16)
        ensures
            final(self)@ == old(self)@ + bytes::be16(v),
    {
        proof {
            reveal(bytes::be16);
        }
        self.push((v / 0x100) as u8);
        self.push((v % 0x100) as u8);
    }

    fn write_u16_le(&mut self, v: u16)
        ensures
            final(self)@ == old(self)@ + bytes::le16(v),
    {
        proof {
            reveal(bytes::le16);
        }
        self.push((v % 0x100) as u8);
        self.push((v / 0x100) as u8);
    }

    fn write_u32_le(&mut self, v: u32)
        ensures
            final(self)@ == old(self)@ + bytes::le32(v),
    {
        proof {
            reveal(bytes::le32);
        }
        self.push((v % 0x100) as u8);
        self.push((v / 0x100 % 0x100) as u8);
        self.push((v / 0x1_0000 % 0x100) as u8);
        self.push((v / 0x100_0000) as u8);
    }

    fn write_i32_le(&mut self, v: i32)
        ensures
            final(self)@ == old(self)@ + bytes::le32(v as u32),
    {
        self.write_u32_le(v as u32);
    }

    fn write_u64_le(&mut self, v: u64)
        ensures
            final(self)@ == old(self)@ + bytes::le64(v),
    {
        proof {
            reveal(bytes::le64);
        }
        let ghost before = self@;
        let low: u32 = (v % 0x1_0000_0000) as u32;
        let high: u32 = (v / 0x1_0000_0000) as u32;
        self.write_u32_le(low);
        self.write_u32_le(high);
        assert(self@ =~= before + (bytes::le32(low) + bytes::le32(high)));
    }

    fn write_slice(&mut self, s: &[u8])
        ensures
            final(self)@ == old(self)@ + s@,
    {
        let ghost before = self@;
        self.extend_from_slice(s);
        assert(self@ =~= before + s@);
    }
}

} // verus!
