//! The raw bytes of one data element, and how they are shown.

use vstd::prelude::*;
use vstd::utf8::{decode_utf8, valid_utf8};
use crate::error::{DCKVError, Failure, IoErrorKind};
use crate::reader::{bytes_at, can_read, pos_after_short_read, ByteReader};
use crate::text::{from_utf8_lossy, lossy_text};
use crate::vr::{is_opaque, opaque};

verus! {

/// The text shown for a value of `bytes` under the value representation `vr`:
/// nothing without one or under an opaque one, else the bytes as text.
pub open spec fn rendered(bytes: Seq<u8>, vr: Option<u16>) -> Seq<char> {
    match vr {
        Some(code) => if is_opaque(code) {
            Seq::empty()
        } else {
            lossy_text(bytes)
        },
        None => Seq::empty(),
    }
}

/// The bytes of one data element.
#[derive(Debug, Clone, PartialEq, Eq)]
pub struct Value {
    bytes: Vec<u8>,
}

impl View for Value {
    type V = Seq<u8>;

    closed spec fn view(&self) -> Seq<u8> {
        self.bytes@
    }
}

impl Value {
    /// The value that holds `bytes`.
    #[inline]
    pub fn new(bytes: Vec<u8>) -> (value: Self)
        ensures
            value@ == bytes@,
    {
        Value { bytes }
    }

    /// Reads a value of exactly `offset` bytes at the position of `reader`,
    /// which moves past them. Fails with `UnexpectedEof` where fewer are left.
    #[inline]
    pub fn read(reader: &mut ByteReader, offset: usize) -> (r: Result<Self, DCKVError>)
        ensures
            final(reader).bytes() == old(reader).bytes(),
            match r {
                Ok(value) => can_read(old(reader).bytes(), old(reader).pos() as int, offset as int)
                    && value@.len() == offset
                    && value@ == bytes_at(old(reader).bytes(), old(reader).pos() as int, offset as int)
                    && final(reader).pos() == old(reader).pos() + offset,
                Err(e) => !can_read(old(reader).bytes(), old(reader).pos() as int, offset as int)
                    && e@ == Failure::IOError(IoErrorKind::UnexpectedEof)
                    && final(reader).pos() == pos_after_short_read(
                        old(reader).bytes(),
                        old(reader).pos() as int,
                    ),
            },
    {
        match reader.read_exact(offset) {
            Ok(bytes) => Ok(Value { bytes }),
            Err(e) => Err(e),
        }
    }

    /// Moves `reader` to the absolute position `offset`. An in-memory source
    /// takes every position, so this succeeds.
    #[inline]
    pub fn seek(reader: &mut ByteReader, offset: u64) -> (r: Result<(), DCKVError>)
        ensures
            r is Ok,
            final(reader).bytes() == old(reader).bytes(),
            final(reader).pos() == offset,
    {
        reader.seek(offset);
        Ok(())
    }

    /// The value as text under the value representation `vr`. Bytes that are
    /// UTF-8 are shown as the text that they encode.
    #[inline]
    pub fn to_string(&self, vr: Option<u16>) -> (text: String)
        ensures
            text@ == rendered(self@, vr),
            vr matches Some(code) && !is_opaque(code) && valid_utf8(self@) ==> text@
                == decode_utf8(self@),
    {
        match vr {
            Some(code) => {
                if opaque(code) {
                    String::new()
                } else {
                    from_utf8_lossy(self.bytes.as_slice())
                }
            },
            None => String::new(),
        }
    }

    /// The bytes of the value.
    #[inline]
    pub fn bytes(&self) -> (bytes: &[u8])
        ensures
            bytes@ == self@,
    {
        self.bytes.as_slice()
    }

    /// The bytes of the value, owned.
    #[inline]
    pub fn into_bytes(self) -> (bytes: Vec<u8>)
        ensures
            bytes@ == self@,
    {
        self.bytes
    }
}

} // verus!
