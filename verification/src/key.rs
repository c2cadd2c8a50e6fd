//! Composite keys: the path of a data element through nested sequences, one
//! 8-byte block per nesting level.

use vstd::prelude::*;
use vstd::slice::slice_subrange;
use vstd::utf8::{decode_utf8, valid_utf8};
use crate::error::{DCKVError, Failure};

verus! {

/// The number of nesting levels a key has room for.
pub const MAX_LEVELS: usize = 12;

/// The eight bytes of a block, most significant first.
pub open spec fn block_bytes(block: u64) -> Seq<u8> {
    seq![
        (block / 0x100_0000_0000_0000) as u8,
        (block / 0x1_0000_0000_0000 % 0x100) as u8,
        (block / 0x100_0000_0000 % 0x100) as u8,
        (block / 0x1_0000_0000 % 0x100) as u8,
        (block / 0x100_0000 % 0x100) as u8,
        (block / 0x1_0000 % 0x100) as u8,
        (block / 0x100 % 0x100) as u8,
        (block % 0x100) as u8,
    ]
}

/// The bytes of a key: the bytes of each block that is not zero, in order.
#[verifier::opaque]
pub open spec fn key_bytes(blocks: Seq<u64>) -> Seq<u8>
    decreases blocks.len(),
{
    if blocks.len() == 0 {
        Seq::empty()
    } else if blocks.last() == 0 {
        key_bytes(blocks.drop_last())
    } else {
        key_bytes(blocks.drop_last()) + block_bytes(blocks.last())
    }
}

/// The nesting level of a key of `len` bytes: one less than its number of
/// blocks, and zero for the empty key.
pub open spec fn level_of(len: nat) -> nat {
    if len < 16 {
        0
    } else {
        (len / 8 - 1) as nat
    }
}

/// Where the last block of a key starts.
pub open spec fn last_block_of(key: Seq<u8>) -> int {
    8 * (level_of(key.len()) as int)
}

/// The group of a key: the first 16 bits of its last block.
pub open spec fn group_of(key: Seq<u8>) -> int {
    0x100 * key[last_block_of(key)] + key[last_block_of(key) + 1]
}

/// The element of a key: the second 16 bits of its last block.
pub open spec fn element_of(key: Seq<u8>) -> int {
    0x100 * key[last_block_of(key) + 2] + key[last_block_of(key) + 3]
}

/// The value-representation slot of a key: the fifth and sixth byte of its
/// last block.
pub open spec fn vr_bytes_of(key: Seq<u8>) -> Seq<u8> {
    key.subrange(last_block_of(key) + 4, last_block_of(key) + 6)
}

/// A key holds whole blocks, none of them zero, and at most as many as there
/// are levels.
pub proof fn lemma_key_bytes_len(blocks: Seq<u64>)
    ensures
        key_bytes(blocks).len() % 8 == 0,
        key_bytes(blocks).len() <= 8 * blocks.len(),
    decreases blocks.len(),
{
    reveal_with_fuel(key_bytes, 1);
    if blocks.len() > 0 {
        lemma_key_bytes_len(blocks.drop_last());
    }
}

/// Tells whether the block at `at` is the last of `blocks` that is not zero.
pub open spec fn last_block_at(blocks: Seq<u64>, at: int) -> bool {
    &&& 0 <= at < blocks.len()
    &&& blocks[at] != 0
    &&& forall|j: int| at < j < blocks.len() ==> blocks[j] == 0
}

/// A key ends with the bytes of the last block that is not zero, so that it
/// gives back the fields of that block: its first 16 bits as group, the next
/// 16 as element, and the fifth and sixth byte as value representation.
pub proof fn lemma_key_last_block(blocks: Seq<u64>, at: int)
    requires
        last_block_at(blocks, at),
    ensures
        ({
            let key = key_bytes(blocks);
            let block = blocks[at];
            &&& key.len() >= 8
            &&& last_block_of(key) == key.len() - 8
            &&& key.subrange(key.len() - 8, key.len() as int) == block_bytes(block)
            &&& group_of(key) == block / 0x1_0000_0000_0000
            &&& element_of(key) == block / 0x1_0000_0000 % 0x1_0000
            &&& vr_bytes_of(key) == seq![
                (block / 0x100_0000 % 0x100) as u8,
                (block / 0x1_0000 % 0x100) as u8,
            ]
        }),
    decreases blocks.len(),
{
    reveal_with_fuel(key_bytes, 1);
    let rest = blocks.drop_last();
    if at < blocks.len() - 1 {
        assert(blocks.last() == 0);
        assert(rest[at] == blocks[at]);
        lemma_key_last_block(rest, at);
    } else {
        let block = blocks[at];
        let key = key_bytes(blocks);
        let head = key_bytes(rest);
        lemma_key_bytes_len(rest);
        assert(key == head + block_bytes(block));
        assert(key.subrange(key.len() - 8, key.len() as int) =~= block_bytes(block));
        let start = key.len() - 8;
        assert(key[start] == block_bytes(block)[0]);
        assert(key[start + 1] == block_bytes(block)[1]);
        assert(key[start + 2] == block_bytes(block)[2]);
        assert(key[start + 3] == block_bytes(block)[3]);
        assert(key[start + 4] == block_bytes(block)[4]);
        assert(key[start + 5] == block_bytes(block)[5]);
        assert(block / 0x1_0000_0000_0000 == 0x100 * (block / 0x100_0000_0000_0000) + block
            / 0x1_0000_0000_0000 % 0x100) by (bit_vector);
        assert(block / 0x1_0000_0000 % 0x1_0000 == 0x100 * (block / 0x100_0000_0000 % 0x100)
            + block / 0x1_0000_0000 % 0x100) by (bit_vector);
        assert(block / 0x100_0000_0000_0000 < 0x100) by (bit_vector);
        assert(vr_bytes_of(key) =~= seq![
            (block / 0x100_0000 % 0x100) as u8,
            (block / 0x1_0000 % 0x100) as u8,
        ]);
    }
}

/// The composite identifier of a decoded unit. Keys are equal, and ordered,
/// as their bytes are.
#[derive(Debug, PartialEq, Eq, PartialOrd, Ord, Hash)]
pub struct Key {
    bytes: Vec<u8>,
}

impl View for Key {
    type V = Seq<u8>;

    closed spec fn view(&self) -> Seq<u8> {
        self.bytes@
    }
}

impl Clone for Key {
    fn clone(&self) -> (key: Self)
        ensures
            key@ == self@,
    {
        proof {
            use_type_invariant(self);
        }
        Key { bytes: self.bytes.clone() }
    }
}

impl Key {
    #[verifier::type_invariant]
    spec fn whole_blocks(self) -> bool {
        self.bytes@.len() % 8 == 0 && self.bytes@.len() <= 8 * MAX_LEVELS
    }

    /// The key of the blocks in `key_blocks` that are not zero.
    #[inline]
    pub fn from_key_blocks(key_blocks: &mut [u64; 12]) -> (key: Self)
        ensures
            key@ == key_bytes(old(key_blocks)@),
            *final(key_blocks) == *old(key_blocks),
    {
        let mut bytes: Vec<u8> = Vec::new();
        let mut i: usize = 0;
        proof {
            reveal_with_fuel(key_bytes, 1);
        }
        while i < 12
            invariant
                i <= 12,
                bytes@ == key_bytes(key_blocks@.take(i as int)),
            decreases 12 - i,
        {
            let block: u64 = key_blocks[i];
            proof {
                reveal_with_fuel(key_bytes, 1);
                assert(key_blocks@.take(i + 1).drop_last() == key_blocks@.take(i as int));
            }
            if block != 0 {
                bytes.push((block / 0x100_0000_0000_0000) as u8);
                bytes.push((block / 0x1_0000_0000_0000 % 0x100) as u8);
                bytes.push((block / 0x100_0000_0000 % 0x100) as u8);
                bytes.push((block / 0x1_0000_0000 % 0x100) as u8);
                bytes.push((block / 0x100_0000 % 0x100) as u8);
                bytes.push((block / 0x1_0000 % 0x100) as u8);
                bytes.push((block / 0x100 % 0x100) as u8);
                bytes.push((block % 0x100) as u8);
                proof {
                    assert(bytes@ == key_bytes(key_blocks@.take(i as int)) + block_bytes(block));
                }
            }
            i = i + 1;
        }
        proof {
            assert(key_blocks@.take(12) == key_blocks@);
            lemma_key_bytes_len(key_blocks@);
        }
        Key { bytes }
    }

    /// The nesting level of the key, at most 11.
    #[inline]
    pub fn level(&self) -> (level: usize)
        ensures
            level == level_of(self@.len()),
            level <= 11,
    {
        proof {
            use_type_invariant(self);
        }
        let blocks: usize = self.bytes.len() / 8;
        if blocks == 0 {
            0
        } else {
            blocks - 1
        }
    }

    /// The group of the element that the key names.
    #[inline]
    pub fn group(&self) -> (group: u16)
        requires
            self@.len() > 0,
        ensures
            group == group_of(self@),
    {
        proof {
            use_type_invariant(self);
        }
        let at: usize = self.level() * 8;
        0x100 * (self.bytes[at] as u16) + self.bytes[at + 1] as u16
    }

    /// The element number of the element that the key names.
    #[inline]
    pub fn element(&self) -> (element: u16)
        requires
            self@.len() > 0,
        ensures
            element == element_of(self@),
    {
        proof {
            use_type_invariant(self);
        }
        let at: usize = self.level() * 8;
        0x100 * (self.bytes[at + 2] as u16) + self.bytes[at + 3] as u16
    }

    /// The value-representation slot of the key as text. Fails with
    /// `Utf8Error` where the two bytes are not text.
    #[inline]
    pub fn vr(&self) -> (r: Result<&str, DCKVError>)
        requires
            self@.len() > 0,
        ensures
            match r {
                Ok(text) => valid_utf8(vr_bytes_of(self@)) && text@ == decode_utf8(
                    vr_bytes_of(self@),
                ),
                Err(e) => !valid_utf8(vr_bytes_of(self@)) && e@ == Failure::Utf8Error,
            },
    {
        proof {
            use_type_invariant(self);
        }
        let at: usize = self.level() * 8;
        match core::str::from_utf8(slice_subrange(self.bytes.as_slice(), at + 4, at + 6)) {
            Ok(text) => Ok(text),
            Err(e) => Err(DCKVError::Utf8Error(e)),
        }
    }

    /// The bytes of the key: whole blocks, twelve at most.
    #[inline]
    pub fn bytes(&self) -> (bytes: &[u8])
        ensures
            bytes@ == self@,
            bytes@.len() % 8 == 0,
            bytes@.len() <= 96,
    {
        proof {
            use_type_invariant(self);
        }
        self.bytes.as_slice()
    }

    /// The bytes of the key, owned.
    #[inline]
    pub fn into_bytes(self) -> (bytes: Vec<u8>)
        ensures
            bytes@ == self@,
            bytes@.len() % 8 == 0,
            bytes@.len() <= 96,
    {
        proof {
            use_type_invariant(&self);
        }
        self.bytes
    }
}

} // verus!
