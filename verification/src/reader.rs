//! An in-memory byte source with a position, read the way a decoder reads a
//! stream: exact reads that consume what is left when they fail, and seeks
//! that may pass the end.

use vstd::prelude::*;
use crate::error::{DCKVError, Failure, IoErrorKind};

verus! {

/// Tells whether `count` bytes can be read from `data` at `pos`. No bytes can
/// be read anywhere, past the end too.
pub open spec fn can_read(data: Seq<u8>, pos: int, count: int) -> bool {
    count == 0 || (0 <= pos && 0 < count && pos + count <= data.len())
}

/// The `count` bytes of `data` at `pos`.
pub open spec fn bytes_at(data: Seq<u8>, pos: int, count: int) -> Seq<u8> {
    if count <= 0 {
        Seq::empty()
    } else {
        data.subrange(pos, pos + count)
    }
}

/// Where a source stands after an exact read at `pos` that found too few bytes:
/// what was left has been consumed.
pub open spec fn pos_after_short_read(data: Seq<u8>, pos: int) -> int {
    if pos < data.len() {
        data.len() as int
    } else {
        pos
    }
}

/// The little-endian 16-bit integer at `pos`.
pub open spec fn u16_le_at(data: Seq<u8>, pos: int) -> int {
    data[pos] + 0x100 * data[pos + 1]
}

/// The big-endian 16-bit integer at `pos`.
pub open spec fn u16_be_at(data: Seq<u8>, pos: int) -> int {
    0x100 * data[pos] + data[pos + 1]
}

/// The little-endian 32-bit integer at `pos`.
pub open spec fn u32_le_at(data: Seq<u8>, pos: int) -> int {
    data[pos] + 0x100 * data[pos + 1] + 0x1_0000 * data[pos + 2] + 0x100_0000 * data[pos + 3]
}

/// A byte buffer and a position in it. The position is a 64-bit offset and may
/// lie past the end of the buffer; a read there finds nothing.
#[derive(Debug, Clone)]
pub struct ByteReader {
    data: Vec<u8>,
    pos: u64,
}

impl ByteReader {
    /// The bytes of the source.
    pub closed spec fn bytes(&self) -> Seq<u8> {
        self.data@
    }

    /// The position of the source.
    pub closed spec fn pos(&self) -> nat {
        self.pos as nat
    }

    /// A source over `data`, positioned at its start.
    pub fn new(data: Vec<u8>) -> (reader: Self)
        ensures
            reader.bytes() == data@,
            reader.pos() == 0,
    {
        ByteReader { data, pos: 0 }
    }

    /// The current position.
    pub fn stream_position(&self) -> (pos: u64)
        ensures
            pos == self.pos(),
    {
        self.pos
    }

    /// Moves to the absolute position `offset`, which may lie past the end.
    pub fn seek(&mut self, offset: u64)
        ensures
            final(self).bytes() == old(self).bytes(),
            final(self).pos() == offset,
    {
        self.pos = offset;
    }

    /// Moves `count` bytes forward, past the end if need be. Fails, and stays,
    /// where the new position would not fit in 64 bits.
    pub fn skip(&mut self, count: u64) -> (r: Result<(), DCKVError>)
        ensures
            final(self).bytes() == old(self).bytes(),
            match r {
                Ok(_) => old(self).pos() + count <= u64::MAX
                    && final(self).pos() == old(self).pos() + count,
                Err(e) => old(self).pos() + count > u64::MAX
                    && final(self).pos() == old(self).pos()
                    && e@ == Failure::IOError(IoErrorKind::InvalidInput),
            },
    {
        match self.pos.checked_add(count) {
            Some(pos) => {
                self.pos = pos;
                Ok(())
            },
            None => Err(DCKVError::IOError(IoErrorKind::InvalidInput)),
        }
    }

    /// Claims the next `count` bytes and gives the index of the first. Where
    /// fewer are left, consumes them and gives nothing.
    fn take(&mut self, count: usize) -> (start: Option<usize>)
        requires
            count > 0,
        ensures
            final(self).bytes() == old(self).bytes(),
            match start {
                Some(at) => can_read(old(self).bytes(), old(self).pos() as int, count as int)
                    && at == old(self).pos()
                    && at + count <= usize::MAX
                    && final(self).pos() == old(self).pos() + count,
                None => !can_read(old(self).bytes(), old(self).pos() as int, count as int)
                    && final(self).pos() == pos_after_short_read(
                        old(self).bytes(),
                        old(self).pos() as int,
                    ),
            },
    {
        let len: usize = self.data.len();
        if self.pos <= len as u64 && len - self.pos as usize >= count {
            let at: usize = self.pos as usize;
            self.pos = self.pos + count as u64;
            Some(at)
        } else {
            if self.pos < len as u64 {
                self.pos = len as u64;
            }
            None
        }
    }

    /// Reads a little-endian 16-bit integer.
    pub fn read_u16_le(&mut self) -> (r: Result<u16, DCKVError>)
        ensures
            final(self).bytes() == old(self).bytes(),
            match r {
                Ok(v) => can_read(old(self).bytes(), old(self).pos() as int, 2)
                    && v == u16_le_at(old(self).bytes(), old(self).pos() as int)
                    && final(self).pos() == old(self).pos() + 2,
                Err(e) => !can_read(old(self).bytes(), old(self).pos() as int, 2)
                    && e@ == Failure::IOError(IoErrorKind::UnexpectedEof)
                    && final(self).pos() == pos_after_short_read(
                        old(self).bytes(),
                        old(self).pos() as int,
                    ),
            },
    {
        match self.take(2) {
            Some(at) => Ok(self.data[at] as u16 + 0x100 * (self.data[at + 1] as u16)),
            None => Err(DCKVError::IOError(IoErrorKind::UnexpectedEof)),
        }
    }

    /// Reads a big-endian 16-bit integer.
    pub fn read_u16(&mut self) -> (r: Result<u16, DCKVError>)
        ensures
            final(self).bytes() == old(self).bytes(),
            match r {
                Ok(v) => can_read(old(self).bytes(), old(self).pos() as int, 2)
                    && v == u16_be_at(old(self).bytes(), old(self).pos() as int)
                    && final(self).pos() == old(self).pos() + 2,
                Err(e) => !can_read(old(self).bytes(), old(self).pos() as int, 2)
                    && e@ == Failure::IOError(IoErrorKind::UnexpectedEof)
                    && final(self).pos() == pos_after_short_read(
                        old(self).bytes(),
                        old(self).pos() as int,
                    ),
            },
    {
        match self.take(2) {
            Some(at) => Ok(0x100 * (self.data[at] as u16) + self.data[at + 1] as u16),
            None => Err(DCKVError::IOError(IoErrorKind::UnexpectedEof)),
        }
    }

    /// Reads a little-endian 32-bit integer.
    pub fn read_u32_le(&mut self) -> (r: Result<u32, DCKVError>)
        ensures
            final(self).bytes() == old(self).bytes(),
            match r {
                Ok(v) => can_read(old(self).bytes(), old(self).pos() as int, 4)
                    && v == u32_le_at(old(self).bytes(), old(self).pos() as int)
                    && final(self).pos() == old(self).pos() + 4,
                Err(e) => !can_read(old(self).bytes(), old(self).pos() as int, 4)
                    && e@ == Failure::IOError(IoErrorKind::UnexpectedEof)
                    && final(self).pos() == pos_after_short_read(
                        old(self).bytes(),
                        old(self).pos() as int,
                    ),
            },
    {
        match self.take(4) {
            Some(at) => Ok(
                self.data[at] as u32 + 0x100 * (self.data[at + 1] as u32)
                    + 0x1_0000 * (self.data[at + 2] as u32)
                    + 0x100_0000 * (self.data[at + 3] as u32),
            ),
            None => Err(DCKVError::IOError(IoErrorKind::UnexpectedEof)),
        }
    }

    /// Reads exactly `length` bytes. Where fewer are left, consumes them and
    /// fails.
    pub fn read_exact(&mut self, length: usize) -> (r: Result<Vec<u8>, DCKVError>)
        ensures
            final(self).bytes() == old(self).bytes(),
            match r {
                Ok(v) => can_read(old(self).bytes(), old(self).pos() as int, length as int)
                    && v@ == bytes_at(old(self).bytes(), old(self).pos() as int, length as int)
                    && final(self).pos() == old(self).pos() + length,
                Err(e) => !can_read(old(self).bytes(), old(self).pos() as int, length as int)
                    && e@ == Failure::IOError(IoErrorKind::UnexpectedEof)
                    && final(self).pos() == pos_after_short_read(
                        old(self).bytes(),
                        old(self).pos() as int,
                    ),
            },
    {
        if length == 0 {
            return Ok(Vec::new());
        }
        let at: usize = match self.take(length) {
            Some(at) => at,
            None => {
                return Err(DCKVError::IOError(IoErrorKind::UnexpectedEof));
            },
        };
        let mut out: Vec<u8> = Vec::with_capacity(length);
        let mut i: usize = 0;
        while i < length
            invariant
                i <= length,
                at + length <= self.data.len(),
                out@ == self.data@.subrange(at as int, at + i),
            decreases length - i,
        {
            out.push(self.data[at + i]);
            i = i + 1;
        }
        Ok(out)
    }
}

} // verus!
