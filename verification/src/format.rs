//! The container format, as a function from bytes to the units a decoder
//! delivers: data elements, and the markers that open and close sequences and
//! their items.

use vstd::prelude::*;
use vstd::utf8::{decode_utf8, valid_utf8};
use crate::error::{Failure, IoErrorKind};
use crate::key::key_bytes;
use crate::reader::{bytes_at, can_read, pos_after_short_read, u16_be_at, u16_le_at, u32_le_at};
use crate::vr::{category_of, Category};

verus! {

/// The bytes before the first data element. They are skipped unread.
pub const PREAMBLE: u64 = 144;

/// The tag that opens an item of a sequence.
pub const ITEM_START: u32 = 0xFFFE_E000;

/// The tag that closes an item of a sequence.
pub const ITEM_DELIMITER: u32 = 0xFFFE_E00D;

/// The tag that closes a sequence.
pub const SEQUENCE_DELIMITER: u32 = 0xFFFE_E0DD;

/// The length of a sequence that only its delimiter closes.
pub const UNDEFINED_LENGTH: u32 = 0xFFFF_FFFF;

/// The block of the level that an item opens, in the key of its start marker.
pub const ITEM_PLACEHOLDER: u64 = 0x2b2b_0000;

/// The block of the level that an item opened, in the key of its end marker.
pub const ITEM_END: u64 = 0xFFFF_FFFF_5F5F_0000;

/// The low half of a sequence's block in the key of its end marker.
pub const SEQUENCE_END: u64 = 0xFFFF_0000;

/// The end offset that stands for no end at all.
pub const UNBOUNDED: u64 = 0xFFFF_FFFF_FFFF_FFFF;

/// What a sink invocation stands for.
#[derive(Debug, Clone, Copy, PartialEq, Eq, Structural)]
pub enum UnitKind {
    /// A data element with its value.
    Element,
    /// The container marker of a sequence.
    SequenceStart,
    /// The start marker of an item.
    ItemStart,
    /// The end marker of an item.
    ItemEnd,
    /// The end marker of a sequence.
    SequenceEnd,
}

/// One sink invocation.
pub struct Unit {
    pub kind: UnitKind,
    /// The nesting level at which the decoder stood.
    pub depth: int,
    pub key: Seq<u8>,
    pub value: Seq<u8>,
    pub vr: Option<u16>,
}

/// What decoding a stretch of the stream comes to.
pub struct Decoded {
    /// The sink invocations, in order.
    pub units: Seq<Unit>,
    /// How the stretch ended.
    pub result: Result<(), Failure>,
    /// Where the source stands after a stretch that ended well.
    pub pos: int,
    /// The key blocks after a stretch that ended well.
    pub blocks: Seq<u64>,
}

impl Decoded {
    /// This outcome, preceded by the invocations `units`.
    pub open spec fn after(self, units: Seq<Unit>) -> Decoded {
        Decoded { units: units + self.units, ..self }
    }
}

/// A stretch that ended well at `pos`, with nothing delivered.
pub open spec fn stopped(pos: int, blocks: Seq<u64>) -> Decoded {
    Decoded { units: Seq::empty(), result: Ok(()), pos, blocks }
}

/// A stretch that failed, with nothing delivered.
pub open spec fn failed(failure: Failure) -> Decoded {
    Decoded { units: Seq::empty(), result: Err(failure), pos: 0, blocks: Seq::empty() }
}

/// The failure of a read that found the source exhausted.
pub open spec fn exhausted() -> Failure {
    Failure::IOError(IoErrorKind::UnexpectedEof)
}

/// The tag at `pos`: the group in the high half, the element in the low half.
pub open spec fn tag_at(data: Seq<u8>, pos: int) -> int {
    0x1_0000 * u16_le_at(data, pos) + u16_le_at(data, pos + 2)
}

/// The block of a data element: tag, value representation, empty slot.
pub open spec fn element_block(tag: int, vr: int) -> u64 {
    (0x1_0000_0000 * tag + 0x1_0000 * vr) as u64
}

/// The block of a sequence: tag, and in its low half an item number or an end
/// mark.
pub open spec fn sequence_block(tag: int, low: int) -> u64 {
    (0x1_0000_0000 * tag + low) as u64
}

/// The offset at which a stretch of `length` bytes from `pos` ends. An
/// undefined length, and an end that 64 bits cannot hold, give no end.
pub open spec fn end_offset(pos: int, length: int) -> int {
    if length == UNDEFINED_LENGTH || pos + length >= UNBOUNDED {
        UNBOUNDED as int
    } else {
        pos + length
    }
}

/// The offset at which the item whose header stands at `pos` ends: its own
/// declared length behind the header.
pub open spec fn item_end(data: Seq<u8>, pos: int) -> int {
    end_offset(pos + 8, u32_le_at(data, pos + 4))
}

/// The failure that an unknown value-representation code gives: its two
/// bytes, low byte first, as text, or a failure of its own where they are none.
#[verifier::opaque]
pub open spec fn unknown_vr(vr: int) -> Failure {
    let bytes = seq![(vr % 0x100) as u8, (vr / 0x100) as u8];
    if valid_utf8(bytes) {
        Failure::UnsupportedVR(decode_utf8(bytes))
    } else {
        Failure::InvalidVR
    }
}

/// A marker: a unit without value or value representation.
pub open spec fn marker(kind: UnitKind, depth: int, blocks: Seq<u64>) -> Unit {
    Unit { kind, depth, key: key_bytes(blocks), value: Seq::empty(), vr: None }
}

/// Tells whether a nested stretch that began at `pos` has moved on to `next`,
/// within what the source holds and four bytes more. Every stretch that ends
/// well has.
pub open spec fn advanced(data: Seq<u8>, pos: int, next: int) -> bool {
    pos < next <= data.len() + 4
}

/// The data element at `pos`, whose value of `length` bytes begins `header`
/// bytes after it, as a unit.
pub open spec fn element_unit(
    data: Seq<u8>,
    pos: int,
    depth: int,
    blocks: Seq<u64>,
    header: int,
    length: int,
) -> Unit {
    Unit {
        kind: UnitKind::Element,
        depth,
        key: key_bytes(
            blocks.update(depth, element_block(tag_at(data, pos), u16_be_at(data, pos + 4))),
        ),
        value: bytes_at(data, pos + header, length),
        vr: Some(u16_be_at(data, pos + 4) as u16),
    }
}

/// The container marker of the sequence at `pos`.
pub open spec fn sequence_start(data: Seq<u8>, pos: int, depth: int, blocks: Seq<u64>) -> Unit {
    Unit {
        kind: UnitKind::SequenceStart,
        depth,
        key: key_bytes(blocks.update(depth, sequence_block(tag_at(data, pos), 0))),
        value: Seq::empty(),
        vr: Some(u16_be_at(data, pos + 4) as u16),
    }
}

/// The end marker of the sequence `tag`.
pub open spec fn sequence_end(depth: int, blocks: Seq<u64>, tag: int) -> Unit {
    marker(
        UnitKind::SequenceEnd,
        depth,
        blocks.update(depth, sequence_block(tag, SEQUENCE_END as int)),
    )
}

/// The start marker of item `number` of the sequence `tag`.
pub open spec fn item_start(depth: int, blocks: Seq<u64>, tag: int, number: int) -> Unit {
    marker(
        UnitKind::ItemStart,
        depth + 1,
        blocks.update(depth, sequence_block(tag, number)).update(depth + 1, ITEM_PLACEHOLDER),
    )
}

/// The data elements from `pos` on, read at nesting level `depth` until the
/// offset `end`, the end of the source or an item delimiter.
pub open spec fn elements(data: Seq<u8>, pos: int, depth: int, blocks: Seq<u64>, end: int) -> Decoded
    decreases data.len() + 4 - pos, 1int,
{
    if pos >= end {
        stopped(pos, blocks)
    } else if !can_read(data, pos, 2) {
        stopped(pos_after_short_read(data, pos), blocks)
    } else if !can_read(data, pos, 4) {
        failed(exhausted())
    } else if tag_at(data, pos) == ITEM_DELIMITER {
        if pos + 8 > u64::MAX {
            failed(Failure::IOError(IoErrorKind::InvalidInput))
        } else {
            stopped(pos + 8, blocks)
        }
    } else if !can_read(data, pos, 8) {
        failed(exhausted())
    } else {
        let named = blocks.update(
            depth,
            element_block(tag_at(data, pos), u16_be_at(data, pos + 4)),
        );
        match category_of(u16_be_at(data, pos + 4) as u16) {
            Category::Short => {
                let length = u16_le_at(data, pos + 6);
                if !can_read(data, pos + 8, length) {
                    failed(exhausted())
                } else {
                    elements(data, pos + 8 + length, depth, named, end).after(
                        seq![element_unit(data, pos, depth, blocks, 8, length)],
                    )
                }
            },
            Category::Long => {
                if !can_read(data, pos, 12) {
                    failed(exhausted())
                } else {
                    let length = u32_le_at(data, pos + 8);
                    if !can_read(data, pos + 12, length) {
                        failed(exhausted())
                    } else {
                        elements(data, pos + 12 + length, depth, named, end).after(
                            seq![element_unit(data, pos, depth, blocks, 12, length)],
                        )
                    }
                }
            },
            Category::Sequence => {
                let body = sequence(data, pos, depth, blocks);
                if body.result is Ok && advanced(data, pos, body.pos) {
                    elements(data, body.pos, depth, body.blocks, end).after(body.units)
                } else {
                    body
                }
            },
            Category::Unknown => failed(unknown_vr(u16_be_at(data, pos + 4))),
        }
    }
}

/// The sequence whose header stands at `pos`: its container marker, then,
/// after its length field, its items.
pub open spec fn sequence(data: Seq<u8>, pos: int, depth: int, blocks: Seq<u64>) -> Decoded
    decreases data.len() + 4 - pos, 0int,
{
    let start = sequence_start(data, pos, depth, blocks);
    if !can_read(data, pos, 12) {
        failed(exhausted()).after(seq![start])
    } else {
        items(
            data,
            pos + 12,
            depth,
            blocks.update(depth, sequence_block(tag_at(data, pos), 0)),
            tag_at(data, pos),
            u32_le_at(data, pos + 8),
            end_offset(pos + 12, u32_le_at(data, pos + 8)),
            1,
        ).after(seq![start])
    }
}

/// The items of the sequence `tag` from `pos` on, the next of them being item
/// `number`, read until the sequence delimiter or past the offset `end`.
/// `length` is the declared length of the sequence: no item may declare more.
/// What an item holds is read until the offset that lies the item's own
/// declared length behind its header, or, where that length is undefined,
/// until its delimiter.
pub open spec fn items(
    data: Seq<u8>,
    pos: int,
    depth: int,
    blocks: Seq<u64>,
    tag: int,
    length: int,
    end: int,
    number: int,
) -> Decoded
    decreases data.len() + 4 - pos, 0int,
{
    let closed = blocks.update(depth, sequence_block(tag, SEQUENCE_END as int));
    let close = sequence_end(depth, blocks, tag);
    if pos > end {
        stopped(pos, closed).after(seq![close])
    } else if !can_read(data, pos, 4) {
        failed(exhausted())
    } else if tag_at(data, pos) == ITEM_START {
        if number > 0xFFFF_FFFF {
            failed(Failure::SQItemOverflow)
        } else if depth >= 11 {
            failed(Failure::DepthExceeded)
        } else {
            let opened = blocks.update(depth, sequence_block(tag, number)).update(
                depth + 1,
                ITEM_PLACEHOLDER,
            );
            let open = item_start(depth, blocks, tag, number);
            if !can_read(data, pos, 8) {
                failed(exhausted()).after(seq![open])
            } else if u32_le_at(data, pos + 4) > length {
                failed(Failure::InvalidSQItemLength).after(seq![open])
            } else {
                let body = elements(data, pos + 8, depth + 1, opened, item_end(data, pos));
                if body.result is Ok && advanced(data, pos, body.pos) {
                    let finished = body.blocks.update(depth + 1, ITEM_END);
                    let shut = marker(UnitKind::ItemEnd, depth + 1, finished);
                    items(
                        data,
                        body.pos,
                        depth,
                        finished.update(depth + 1, 0),
                        tag,
                        length,
                        end,
                        number + 1,
                    ).after(seq![open] + body.units + seq![shut])
                } else {
                    body.after(seq![open])
                }
            }
        }
    } else if tag_at(data, pos) == SEQUENCE_DELIMITER {
        if pos + 8 > u64::MAX {
            failed(Failure::IOError(IoErrorKind::InvalidInput)).after(seq![close])
        } else {
            stopped(pos + 8, closed).after(seq![close])
        }
    } else {
        failed(Failure::InvalidSQTag)
    }
}

/// The key blocks at the start of a decode: all empty.
pub open spec fn no_blocks() -> Seq<u64> {
    Seq::new(12, |i: int| 0u64)
}

/// What decoding the source `data` comes to: its data elements from the end of
/// the preamble on, at nesting level 0.
pub open spec fn decoded(data: Seq<u8>) -> Decoded {
    elements(data, PREAMBLE as int, 0, no_blocks(), UNBOUNDED as int)
}

/// A stretch that ends well leaves the source at or after where it began, and
/// no further than four bytes past its end unless it began there.
pub proof fn lemma_elements_advance(data: Seq<u8>, pos: int, depth: int, blocks: Seq<u64>, end: int)
    requires
        0 <= pos,
    ensures
        ({
            let d = elements(data, pos, depth, blocks, end);
            d.result is Ok ==> pos <= d.pos && (d.pos == pos || d.pos <= data.len() + 4)
        }),
    decreases data.len() + 4 - pos, 1int,
{
    if pos < end && can_read(data, pos, 8) && tag_at(data, pos) != ITEM_DELIMITER {
        let named = blocks.update(
            depth,
            element_block(tag_at(data, pos), u16_be_at(data, pos + 4)),
        );
        match category_of(u16_be_at(data, pos + 4) as u16) {
            Category::Short => {
                let length = u16_le_at(data, pos + 6);
                if can_read(data, pos + 8, length) {
                    lemma_elements_advance(data, pos + 8 + length, depth, named, end);
                }
            },
            Category::Long => {
                if can_read(data, pos, 12) {
                    let length = u32_le_at(data, pos + 8);
                    if can_read(data, pos + 12, length) {
                        lemma_elements_advance(data, pos + 12 + length, depth, named, end);
                    }
                }
            },
            Category::Sequence => {
                let body = sequence(data, pos, depth, blocks);
                lemma_sequence_advance(data, pos, depth, blocks);
                if body.result is Ok {
                    lemma_elements_advance(data, body.pos, depth, body.blocks, end);
                }
            },
            Category::Unknown => {},
        }
    }
}

/// A sequence that ends well leaves the source past its header, and no
/// further than four bytes past the end of the source.
pub proof fn lemma_sequence_advance(data: Seq<u8>, pos: int, depth: int, blocks: Seq<u64>)
    requires
        0 <= pos,
    ensures
        ({
            let d = sequence(data, pos, depth, blocks);
            d.result is Ok ==> advanced(data, pos, d.pos) && pos + 12 <= d.pos
        }),
    decreases data.len() + 4 - pos, 0int,
{
    if can_read(data, pos, 12) {
        lemma_items_advance(
            data,
            pos + 12,
            depth,
            blocks.update(depth, sequence_block(tag_at(data, pos), 0)),
            tag_at(data, pos),
            u32_le_at(data, pos + 8),
            end_offset(pos + 12, u32_le_at(data, pos + 8)),
            1,
        );
    }
}

/// The items of a sequence that ends well leave the source at or after where
/// they began, and no further than four bytes past its end unless they began
/// there.
pub proof fn lemma_items_advance(
    data: Seq<u8>,
    pos: int,
    depth: int,
    blocks: Seq<u64>,
    tag: int,
    length: int,
    end: int,
    number: int,
)
    requires
        0 <= pos,
    ensures
        ({
            let d = items(data, pos, depth, blocks, tag, length, end, number);
            d.result is Ok ==> pos <= d.pos && (d.pos == pos || d.pos <= data.len() + 4)
        }),
    decreases data.len() + 4 - pos, 0int,
{
    if pos <= end && can_read(data, pos, 8) && tag_at(data, pos) == ITEM_START && number
        <= 0xFFFF_FFFF && depth < 11 && u32_le_at(data, pos + 4) <= length {
        let opened = blocks.update(depth, sequence_block(tag, number)).update(
            depth + 1,
            ITEM_PLACEHOLDER,
        );
        let body = elements(data, pos + 8, depth + 1, opened, item_end(data, pos));
        lemma_elements_advance(data, pos + 8, depth + 1, opened, item_end(data, pos));
        if body.result is Ok {
            let finished = body.blocks.update(depth + 1, ITEM_END);
            lemma_items_advance(
                data,
                body.pos,
                depth,
                finished.update(depth + 1, 0),
                tag,
                length,
                end,
                number + 1,
            );
        }
    }
}

} // verus!
