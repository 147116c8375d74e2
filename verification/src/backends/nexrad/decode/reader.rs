//! Byte cursor used by every NEXRAD message parser.
//!
//! The load-bearing operation in NEXRAD decoding is the resync to a declared
//! message boundary after a parser may have read less than its payload:
//! [`SliceReader::try_skip_to`].

use crate::backends::nexrad::decode::error::{eof, NexradDecodeError};
use crate::wire::{be16, be16s, be32, be32s, read_i16, read_i32, read_u16, read_u32};
use vstd::prelude::*;
use vstd::slice::slice_subrange;

verus! {

/// A forward-only cursor over a byte slice. Every operation advances it on
/// success and leaves it where it was on failure.
#[derive(Debug)]
pub struct SliceReader<'a> {
    bytes: &'a [u8],
    pos: usize,
}

impl<'a> SliceReader<'a> {
    /// The input, all of it.
    pub closed spec fn data(&self) -> Seq<u8> {
        self.bytes@
    }

    /// The cursor's offset.
    pub closed spec fn pos(&self) -> int {
        self.pos as int
    }

    /// The cursor lies inside the input or at its end.
    pub open spec fn wf(&self) -> bool {
        0 <= self.pos() <= self.data().len() <= usize::MAX
    }

    /// A cursor at the start of `bytes`.
    pub fn new(bytes: &'a [u8]) -> (r: Self)
        ensures
            r.wf(),
            r.data() == bytes@,
            r.pos() == 0,
    {
        let len: usize = bytes.len();
        assert(bytes@.len() == len);
        Self { bytes, pos: 0 }
    }

    /// Cursor offset from the start of the input.
    pub fn position(&self) -> (p: usize)
        requires
            self.wf(),
        ensures
            p == self.pos(),
    {
        self.pos
    }

    /// Slice from the cursor to the end of the input.
    pub fn remaining(&self) -> (s: &'a [u8])
        requires
            self.wf(),
        ensures
            s@ == self.data().subrange(self.pos(), self.data().len() as int),
    {
        slice_subrange(self.bytes, self.pos, self.bytes.len())
    }

    /// Take the next `n` bytes as a borrowed slice and advance.
    pub fn take_bytes(&mut self, n: usize) -> (r: Result<&'a [u8], NexradDecodeError>)
        requires
            old(self).wf(),
        ensures
            final(self).wf(),
            final(self).data() == old(self).data(),
            match r {
                Ok(s) => {
                    &&& old(self).pos() + n <= old(self).data().len()
                    &&& final(self).pos() == old(self).pos() + n
                    &&& s@ == old(self).data().subrange(old(self).pos(), old(self).pos() + n)
                },
                Err(e) => {
                    &&& old(self).pos() + n > old(self).data().len()
                    &&& final(self).pos() == old(self).pos()
                    &&& e == eof(old(self).pos(), n as int, old(self).data().len() as int)
                },
            },
    {
        let len: usize = self.bytes.len();
        if n > len - self.pos {
            return Err(
                NexradDecodeError::UnexpectedEof {
                    offset: self.pos,
                    needed: n,
                    available: len - self.pos,
                },
            );
        }
        let end: usize = self.pos + n;
        let slice = slice_subrange(self.bytes, self.pos, end);
        self.pos = end;
        Ok(slice)
    }

    /// Advance the cursor by `n` bytes without reading them.
    pub fn advance(&mut self, n: usize) -> (r: Result<(), NexradDecodeError>)
        requires
            old(self).wf(),
        ensures
            final(self).wf(),
            final(self).data() == old(self).data(),
            match r {
                Ok(_) => {
                    &&& old(self).pos() + n <= old(self).data().len()
                    &&& final(self).pos() == old(self).pos() + n
                },
                Err(e) => {
                    &&& old(self).pos() + n > old(self).data().len()
                    &&& final(self).pos() == old(self).pos()
                    &&& e == eof(old(self).pos(), n as int, old(self).data().len() as int)
                },
            },
    {
        let len: usize = self.bytes.len();
        if n > len - self.pos {
            return Err(
                NexradDecodeError::UnexpectedEof {
                    offset: self.pos,
                    needed: n,
                    available: len - self.pos,
                },
            );
        }
        self.pos = self.pos + n;
        Ok(())
    }

    /// Snap the cursor forward to `target`. A cursor at or past the target
    /// stays where it is; a target past the end of the input is an error.
    pub fn try_skip_to(&mut self, target: usize) -> (r: Result<(), NexradDecodeError>)
        requires
            old(self).wf(),
        ensures
            final(self).wf(),
            final(self).data() == old(self).data(),
            match r {
                Ok(_) => {
                    &&& target <= old(self).data().len()
                    &&& final(self).pos() == (if target > old(self).pos() {
                        target as int
                    } else {
                        old(self).pos()
                    })
                },
                Err(e) => {
                    &&& target > old(self).data().len()
                    &&& final(self).pos() == old(self).pos()
                    &&& e == eof(
                        old(self).pos(),
                        target - old(self).pos(),
                        old(self).data().len() as int,
                    )
                },
            },
    {
        let len: usize = self.bytes.len();
        if target > len {
            return Err(
                NexradDecodeError::UnexpectedEof {
                    offset: self.pos,
                    needed: target - self.pos,
                    available: len - self.pos,
                },
            );
        }
        if target > self.pos {
            self.pos = target;
        }
        Ok(())
    }

    /// Read one byte.
    pub fn read_u8(&mut self) -> (r: Result<u8, NexradDecodeError>)
        requires
            old(self).wf(),
        ensures
            final(self).wf(),
            final(self).data() == old(self).data(),
            match r {
                Ok(v) => {
                    &&& old(self).pos() + 1 <= old(self).data().len()
                    &&& final(self).pos() == old(self).pos() + 1
                    &&& v == old(self).data()[old(self).pos()]
                },
                Err(e) => {
                    &&& old(self).pos() + 1 > old(self).data().len()
                    &&& final(self).pos() == old(self).pos()
                    &&& e == eof(old(self).pos(), 1, old(self).data().len() as int)
                },
            },
    {
        let b = self.take_bytes(1)?;
        Ok(b[0])
    }

    /// Read an unsigned 16-bit big-endian integer.
    pub fn read_u16_be(&mut self) -> (r: Result<u16, NexradDecodeError>)
        requires
            old(self).wf(),
        ensures
            final(self).wf(),
            final(self).data() == old(self).data(),
            match r {
                Ok(v) => {
                    &&& old(self).pos() + 2 <= old(self).data().len()
                    &&& final(self).pos() == old(self).pos() + 2
                    &&& v == be16(old(self).data(), old(self).pos())
                },
                Err(e) => {
                    &&& old(self).pos() + 2 > old(self).data().len()
                    &&& final(self).pos() == old(self).pos()
                    &&& e == eof(old(self).pos(), 2, old(self).data().len() as int)
                },
            },
    {
        let b = self.take_bytes(2)?;
        Ok(read_u16(b))
    }

    /// Read an unsigned 32-bit big-endian integer.
    pub fn read_u32_be(&mut self) -> (r: Result<u32, NexradDecodeError>)
        requires
            old(self).wf(),
        ensures
            final(self).wf(),
            final(self).data() == old(self).data(),
            match r {
                Ok(v) => {
                    &&& old(self).pos() + 4 <= old(self).data().len()
                    &&& final(self).pos() == old(self).pos() + 4
                    &&& v == be32(old(self).data(), old(self).pos())
                },
                Err(e) => {
                    &&& old(self).pos() + 4 > old(self).data().len()
                    &&& final(self).pos() == old(self).pos()
                    &&& e == eof(old(self).pos(), 4, old(self).data().len() as int)
                },
            },
    {
        let b = self.take_bytes(4)?;
        Ok(read_u32(b))
    }

    /// Read a signed 16-bit big-endian integer.
    pub fn read_i16_be(&mut self) -> (r: Result<i16, NexradDecodeError>)
        requires
            old(self).wf(),
        ensures
            final(self).wf(),
            final(self).data() == old(self).data(),
            match r {
                Ok(v) => {
                    &&& old(self).pos() + 2 <= old(self).data().len()
                    &&& final(self).pos() == old(self).pos() + 2
                    &&& v == be16s(old(self).data(), old(self).pos())
                },
                Err(e) => {
                    &&& old(self).pos() + 2 > old(self).data().len()
                    &&& final(self).pos() == old(self).pos()
                    &&& e == eof(old(self).pos(), 2, old(self).data().len() as int)
                },
            },
    {
        let b = self.take_bytes(2)?;
        Ok(read_i16(b))
    }

    /// Read a signed 32-bit big-endian integer.
    pub fn read_i32_be(&mut self) -> (r: Result<i32, NexradDecodeError>)
        requires
            old(self).wf(),
        ensures
            final(self).wf(),
            final(self).data() == old(self).data(),
            match r {
                Ok(v) => {
                    &&& old(self).pos() + 4 <= old(self).data().len()
                    &&& final(self).pos() == old(self).pos() + 4
                    &&& v == be32s(old(self).data(), old(self).pos())
                },
                Err(e) => {
                    &&& old(self).pos() + 4 > old(self).data().len()
                    &&& final(self).pos() == old(self).pos()
                    &&& e == eof(old(self).pos(), 4, old(self).data().len() as int)
                },
            },
    {
        let b = self.take_bytes(4)?;
        Ok(read_i32(b))
    }

    /// Read a 32-bit big-endian IEEE-754 number as its bit pattern.
    pub fn read_f32_be(&mut self) -> (r: Result<u32, NexradDecodeError>)
        requires
            old(self).wf(),
        ensures
            final(self).wf(),
            final(self).data() == old(self).data(),
            match r {
                Ok(v) => {
                    &&& old(self).pos() + 4 <= old(self).data().len()
                    &&& final(self).pos() == old(self).pos() + 4
                    &&& v == be32(old(self).data(), old(self).pos())
                },
                Err(e) => {
                    &&& old(self).pos() + 4 > old(self).data().len()
                    &&& final(self).pos() == old(self).pos()
                    &&& e == eof(old(self).pos(), 4, old(self).data().len() as int)
                },
            },
    {
        self.read_u32_be()
    }
}

} // verus!
