//! What holds of every stream: how many bytes an element takes, how a
//! sequence ends, and how deep the nesting goes.

use vstd::prelude::*;
use crate::error::Failure;
use crate::format::{
    decoded, element_block, element_unit, elements, end_offset, failed, item_end, item_start,
    items,
    lemma_elements_advance, lemma_sequence_advance, marker, no_blocks, sequence, sequence_block,
    sequence_end, stopped, tag_at, Unit, UnitKind, ITEM_DELIMITER, ITEM_END, ITEM_PLACEHOLDER,
    ITEM_START, PREAMBLE, SEQUENCE_DELIMITER, SEQUENCE_END, UNBOUNDED,
};
use crate::key::{
    element_of, group_of, key_bytes, last_block_at, lemma_key_last_block, vr_bytes_of,
};
use crate::reader::{bytes_at, can_read, u16_be_at, u16_le_at, u32_le_at};
use crate::vr::{category_of, Category};

verus! {

/// Tells whether every one of `units` was handed over at a nesting level from
/// `low` to `high`.
pub open spec fn levels_within(units: Seq<Unit>, low: int, high: int) -> bool {
    forall|i: int| 0 <= i < units.len() ==> low <= (#[trigger] units[i]).depth <= high
}

/// A data element with a 16-bit length takes exactly the bytes that it
/// declares: they are its value, and the next element is read right after
/// them.
pub proof fn lemma_short_element(data: Seq<u8>, pos: int, depth: int, blocks: Seq<u64>, end: int)
    requires
        0 <= pos < end,
        can_read(data, pos, 8),
        tag_at(data, pos) != ITEM_DELIMITER,
        category_of(u16_be_at(data, pos + 4) as u16) == Category::Short,
        can_read(data, pos + 8, u16_le_at(data, pos + 6)),
    ensures
        ({
            let length = u16_le_at(data, pos + 6);
            let unit = element_unit(data, pos, depth, blocks, 8, length);
            let named = blocks.update(
                depth,
                element_block(tag_at(data, pos), u16_be_at(data, pos + 4)),
            );
            &&& unit.value.len() == length
            &&& unit.value == bytes_at(data, pos + 8, length)
            &&& elements(data, pos, depth, blocks, end) == elements(
                data,
                pos + 8 + length,
                depth,
                named,
                end,
            ).after(seq![unit])
        }),
{
}

/// A stretch of data elements hands its units over at its own nesting level
/// or deeper, and never deeper than level 11.
pub proof fn lemma_elements_levels(data: Seq<u8>, pos: int, depth: int, blocks: Seq<u64>, end: int)
    requires
        0 <= pos,
        0 <= depth <= 11,
    ensures
        levels_within(elements(data, pos, depth, blocks, end).units, depth, 11),
    decreases data.len() + 4 - pos, 1int,
{
    if pos < end && can_read(data, pos, 8) && tag_at(data, pos) != ITEM_DELIMITER {
        let named = blocks.update(
            depth,
            element_block(tag_at(data, pos), u16_be_at(data, pos + 4)),
        );
        match category_of(u16_be_at(data, pos + 4) as u16) {
            Category::Short => {
                let length = u16_le_at(data, pos + 6);
                if can_read(data, pos + 8, length) {
                    lemma_elements_levels(data, pos + 8 + length, depth, named, end);
                }
            },
            Category::Long => {
                if can_read(data, pos, 12) {
                    let length = u32_le_at(data, pos + 8);
                    if can_read(data, pos + 12, length) {
                        lemma_elements_levels(data, pos + 12 + length, depth, named, end);
                    }
                }
            },
            Category::Sequence => {
                let body = sequence(data, pos, depth, blocks);
                lemma_sequence_levels(data, pos, depth, blocks);
                lemma_sequence_advance(data, pos, depth, blocks);
                if body.result is Ok {
                    lemma_elements_levels(data, body.pos, depth, body.blocks, end);
                }
            },
            Category::Unknown => {},
        }
    }
}

/// A sequence hands its units over at its own nesting level or deeper, and
/// never deeper than level 11.
pub proof fn lemma_sequence_levels(data: Seq<u8>, pos: int, depth: int, blocks: Seq<u64>)
    requires
        0 <= pos,
        0 <= depth <= 11,
    ensures
        levels_within(sequence(data, pos, depth, blocks).units, depth, 11),
    decreases data.len() + 4 - pos, 0int,
{
    if can_read(data, pos, 12) {
        lemma_items_levels(
            data,
            pos + 12,
            depth,
            blocks.update(depth, sequence_block(tag_at(data, pos), 0)),
            tag_at(data, pos),
            u32_le_at(data, pos + 8),
            end_offset(pos + 12, u32_le_at(data, pos + 8)),
            1,
        );
    }
}

/// The items of a sequence hand their units over at the nesting level of the
/// sequence or deeper, and never deeper than level 11. Where they end well,
/// the last unit is the end marker of the sequence, at its level, and all
/// that comes before lies deeper: the sequence ends once, and only once.
pub proof fn lemma_items_levels(
    data: Seq<u8>,
    pos: int,
    depth: int,
    blocks: Seq<u64>,
    tag: int,
    length: int,
    end: int,
    number: int,
)
    requires
        0 <= pos,
        0 <= depth <= 11,
    ensures
        ({
            let d = items(data, pos, depth, blocks, tag, length, end, number);
            &&& levels_within(d.units, depth, 11)
            &&& d.result is Ok ==> {
                &&& d.units.len() > 0
                &&& d.units.last().kind == UnitKind::SequenceEnd
                &&& d.units.last().depth == depth
                &&& levels_within(d.units.drop_last(), depth + 1, 11)
            }
        }),
    decreases data.len() + 4 - pos, 0int,
{
    let d = items(data, pos, depth, blocks, tag, length, end, number);
    let close = sequence_end(depth, blocks, tag);
    if pos > end {
        assert(d.units =~= seq![close]);
        assert(d.units.drop_last() =~= Seq::<Unit>::empty());
    } else if can_read(data, pos, 4) && tag_at(data, pos) == SEQUENCE_DELIMITER {
        assert(d.units =~= seq![close]);
        assert(d.units.drop_last() =~= Seq::<Unit>::empty());
    } else if can_read(data, pos, 4) && tag_at(data, pos) == ITEM_START && number <= 0xFFFF_FFFF
        && depth < 11 {
        let opened = blocks.update(depth, sequence_block(tag, number)).update(
            depth + 1,
            ITEM_PLACEHOLDER,
        );
        let open = item_start(depth, blocks, tag, number);
        if can_read(data, pos, 8) && u32_le_at(data, pos + 4) <= length {
            let body = elements(data, pos + 8, depth + 1, opened, item_end(data, pos));
            lemma_elements_levels(data, pos + 8, depth + 1, opened, item_end(data, pos));
            lemma_elements_advance(data, pos + 8, depth + 1, opened, item_end(data, pos));
            if body.result is Ok {
                let finished = body.blocks.update(depth + 1, ITEM_END);
                let shut = marker(UnitKind::ItemEnd, depth + 1, finished);
                let rest = items(
                    data,
                    body.pos,
                    depth,
                    finished.update(depth + 1, 0),
                    tag,
                    length,
                    end,
                    number + 1,
                );
                lemma_items_levels(
                    data,
                    body.pos,
                    depth,
                    finished.update(depth + 1, 0),
                    tag,
                    length,
                    end,
                    number + 1,
                );
                let head = seq![open] + body.units + seq![shut];
                assert(levels_within(head, depth + 1, 11)) by {
                    assert forall|i: int| 0 <= i < head.len() implies depth + 1 <= (
                    #[trigger] head[i]).depth <= 11 by {
                        if 1 <= i <= body.units.len() {
                            assert(head[i] == body.units[i - 1]);
                        }
                    }
                }
                assert(d.units =~= head + rest.units);
                assert forall|i: int| 0 <= i < d.units.len() implies depth <= (
                #[trigger] d.units[i]).depth <= 11 by {
                    if i < head.len() {
                        assert(d.units[i] == head[i]);
                    } else {
                        assert(d.units[i] == rest.units[i - head.len()]);
                    }
                }
                if d.result is Ok {
                    let before = d.units.drop_last();
                    assert(d.units.last() == rest.units.last());
                    assert forall|i: int| 0 <= i < before.len() implies depth + 1 <= (
                    #[trigger] before[i]).depth <= 11 by {
                        if i < head.len() {
                            assert(before[i] == head[i]);
                        } else {
                            assert(before[i] == rest.units.drop_last()[i - head.len()]);
                        }
                    }
                }
            } else {
                assert(d.units =~= seq![open] + body.units);
                assert forall|i: int| 0 <= i < d.units.len() implies depth <= (
                #[trigger] d.units[i]).depth <= 11 by {
                    if i > 0 {
                        assert(d.units[i] == body.units[i - 1]);
                    }
                }
            }
        }
    }
}

/// A sequence of undefined length ends well only at its delimiter: the four
/// bytes of the delimiter tag, and the four of its length field, are the last
/// that its items take from the source.
pub proof fn lemma_undefined_length_needs_delimiter(
    data: Seq<u8>,
    pos: int,
    depth: int,
    blocks: Seq<u64>,
    tag: int,
    length: int,
    number: int,
)
    requires
        0 <= pos <= u64::MAX,
        data.len() <= u64::MAX,
    ensures
        ({
            let d = items(data, pos, depth, blocks, tag, length, UNBOUNDED as int, number);
            d.result is Ok ==> {
                &&& pos + 8 <= d.pos <= u64::MAX
                &&& can_read(data, d.pos - 8, 4)
                &&& tag_at(data, d.pos - 8) == SEQUENCE_DELIMITER
            }
        }),
    decreases data.len() + 4 - pos,
{
    let end = UNBOUNDED as int;
    if can_read(data, pos, 8) && tag_at(data, pos) == ITEM_START && number <= 0xFFFF_FFFF && depth
        < 11 && u32_le_at(data, pos + 4) <= length {
        let opened = blocks.update(depth, sequence_block(tag, number)).update(
            depth + 1,
            ITEM_PLACEHOLDER,
        );
        let body = elements(data, pos + 8, depth + 1, opened, item_end(data, pos));
        lemma_elements_advance(data, pos + 8, depth + 1, opened, item_end(data, pos));
        lemma_elements_in_range(data, pos + 8, depth + 1, opened, item_end(data, pos));
        if body.result is Ok {
            let finished = body.blocks.update(depth + 1, ITEM_END);
            lemma_undefined_length_needs_delimiter(
                data,
                body.pos,
                depth,
                finished.update(depth + 1, 0),
                tag,
                length,
                number + 1,
            );
        }
    }
}

/// A stretch of data elements that ends well leaves the source at an offset
/// that 64 bits hold.
pub proof fn lemma_elements_in_range(data: Seq<u8>, pos: int, depth: int, blocks: Seq<u64>, end: int)
    requires
        0 <= pos <= u64::MAX,
        data.len() <= u64::MAX,
    ensures
        ({
            let d = elements(data, pos, depth, blocks, end);
            d.result is Ok ==> d.pos <= u64::MAX
        }),
    decreases data.len() + 4 - pos, 1int,
{
    if pos < end && can_read(data, pos, 8) && tag_at(data, pos) != ITEM_DELIMITER {
        let named = blocks.update(
            depth,
            element_block(tag_at(data, pos), u16_be_at(data, pos + 4)),
        );
        match category_of(u16_be_at(data, pos + 4) as u16) {
            Category::Short => {
                let length = u16_le_at(data, pos + 6);
                if can_read(data, pos + 8, length) {
                    lemma_elements_in_range(data, pos + 8 + length, depth, named, end);
                }
            },
            Category::Long => {
                if can_read(data, pos, 12) {
                    let length = u32_le_at(data, pos + 8);
                    if can_read(data, pos + 12, length) {
                        lemma_elements_in_range(data, pos + 12 + length, depth, named, end);
                    }
                }
            },
            Category::Sequence => {
                let body = sequence(data, pos, depth, blocks);
                lemma_sequence_advance(data, pos, depth, blocks);
                if can_read(data, pos, 12) {
                    lemma_items_in_range(
                        data,
                        pos + 12,
                        depth,
                        blocks.update(depth, sequence_block(tag_at(data, pos), 0)),
                        tag_at(data, pos),
                        u32_le_at(data, pos + 8),
                        end_offset(pos + 12, u32_le_at(data, pos + 8)),
                        1,
                    );
                }
                if body.result is Ok {
                    lemma_elements_in_range(data, body.pos, depth, body.blocks, end);
                }
            },
            Category::Unknown => {},
        }
    }
}

/// The items of a sequence that ends well leave the source at an offset that
/// 64 bits hold.
pub proof fn lemma_items_in_range(
    data: Seq<u8>,
    pos: int,
    depth: int,
    blocks: Seq<u64>,
    tag: int,
    length: int,
    end: int,
    number: int,
)
    requires
        0 <= pos <= u64::MAX,
        data.len() <= u64::MAX,
    ensures
        ({
            let d = items(data, pos, depth, blocks, tag, length, end, number);
            d.result is Ok ==> d.pos <= u64::MAX
        }),
    decreases data.len() + 4 - pos, 0int,
{
    if pos <= end && can_read(data, pos, 8) && tag_at(data, pos) == ITEM_START && number
        <= 0xFFFF_FFFF && depth < 11 && u32_le_at(data, pos + 4) <= length {
        let opened = blocks.update(depth, sequence_block(tag, number)).update(
            depth + 1,
            ITEM_PLACEHOLDER,
        );
        let body = elements(data, pos + 8, depth + 1, opened, item_end(data, pos));
        lemma_elements_advance(data, pos + 8, depth + 1, opened, item_end(data, pos));
        lemma_elements_in_range(data, pos + 8, depth + 1, opened, item_end(data, pos));
        if body.result is Ok {
            let finished = body.blocks.update(depth + 1, ITEM_END);
            lemma_items_in_range(
                data,
                body.pos,
                depth,
                finished.update(depth + 1, 0),
                tag,
                length,
                end,
                number + 1,
            );
        }
    }
}

/// How the items of a sequence end: past the end offset without reading
/// anything, or at the sequence delimiter; either way with the one end
/// marker of the sequence.
pub proof fn lemma_sequence_ends(
    data: Seq<u8>,
    pos: int,
    depth: int,
    blocks: Seq<u64>,
    tag: int,
    length: int,
    end: int,
    number: int,
)
    requires
        0 <= pos,
    ensures
        ({
            let d = items(data, pos, depth, blocks, tag, length, end, number);
            let closed = blocks.update(depth, sequence_block(tag, SEQUENCE_END as int));
            let close = sequence_end(depth, blocks, tag);
            &&& pos > end ==> d == stopped(pos, closed).after(seq![close])
            &&& pos <= end && can_read(data, pos, 4) && tag_at(data, pos) == SEQUENCE_DELIMITER
                && pos + 8 <= u64::MAX ==> d == stopped(pos + 8, closed).after(seq![close])
        }),
{
}

/// An item that would open a thirteenth nesting level fails the decode, with
/// nothing more handed over.
pub proof fn lemma_thirteenth_level_fails(
    data: Seq<u8>,
    pos: int,
    depth: int,
    blocks: Seq<u64>,
    tag: int,
    length: int,
    end: int,
    number: int,
)
    requires
        0 <= pos <= end,
        can_read(data, pos, 4),
        tag_at(data, pos) == ITEM_START,
        number <= 0xFFFF_FFFF,
        depth >= 11,
    ensures
        items(data, pos, depth, blocks, tag, length, end, number) == failed(
            Failure::DepthExceeded,
        ),
{
}

/// No unit of a decode is handed over at a nesting level beyond 11.
pub proof fn lemma_decoded_levels(data: Seq<u8>)
    ensures
        levels_within(decoded(data).units, 0, 11),
{
    lemma_elements_levels(data, PREAMBLE as int, 0, no_blocks(), UNBOUNDED as int);
}

/// A source that holds nothing after its preamble, or less than a preamble,
/// or one byte more, decodes well to no unit at all.
pub proof fn lemma_nothing_after_preamble(data: Seq<u8>)
    requires
        data.len() <= PREAMBLE + 1,
    ensures
        decoded(data).result is Ok,
        decoded(data).units == Seq::<Unit>::empty(),
{
}

/// Tells whether the blocks of every level deeper than `depth` are empty.
pub open spec fn empty_below(blocks: Seq<u64>, depth: int) -> bool {
    forall|j: int| depth < j < blocks.len() ==> blocks[j] == 0
}

/// Tells whether `after` are the blocks `before` with nothing changed above
/// the level `depth`, and nothing left below it.
pub open spec fn framed(before: Seq<u64>, after: Seq<u64>, depth: int) -> bool {
    &&& after.len() == before.len()
    &&& empty_below(after, depth)
    &&& forall|j: int| 0 <= j < depth ==> after[j] == before[j]
}

/// A block gives back the fields that were packed into it.
proof fn lemma_block_fields(group: u64, element: u64, high: u64, low: u64, block: u64)
    by (bit_vector)
    requires
        group < 0x1_0000,
        element < 0x1_0000,
        high < 0x100,
        low < 0x100,
        block == 0x1_0000_0000_0000 * group + 0x1_0000_0000 * element + 0x100_0000 * high
            + 0x1_0000 * low,
    ensures
        block / 0x1_0000_0000_0000 == group,
        block / 0x1_0000_0000 % 0x1_0000 == element,
        block / 0x100_0000 % 0x100 == high,
        block / 0x1_0000 % 0x100 == low,
        (high != 0 || low != 0) ==> block != 0,
{
}

/// The key of a data element names it: where the levels below the element's
/// are empty, the key gives back the group and the element number that the
/// header holds, and the two bytes of its value representation.
pub proof fn lemma_element_key(
    data: Seq<u8>,
    pos: int,
    depth: int,
    blocks: Seq<u64>,
    header: int,
    length: int,
)
    requires
        0 <= pos,
        can_read(data, pos, 8),
        0 <= depth < blocks.len(),
        empty_below(blocks, depth),
        u16_be_at(data, pos + 4) != 0,
    ensures
        ({
            let key = element_unit(data, pos, depth, blocks, header, length).key;
            &&& key.len() >= 8
            &&& group_of(key) == u16_le_at(data, pos)
            &&& element_of(key) == u16_le_at(data, pos + 2)
            &&& vr_bytes_of(key) == data.subrange(pos + 4, pos + 6)
        }),
{
    let group = u16_le_at(data, pos) as u64;
    let element = u16_le_at(data, pos + 2) as u64;
    let high = data[pos + 4] as u64;
    let low = data[pos + 5] as u64;
    let block = element_block(tag_at(data, pos), u16_be_at(data, pos + 4));
    let named = blocks.update(depth, block);
    assert(block == 0x1_0000_0000_0000 * group + 0x1_0000_0000 * element + 0x100_0000 * high
        + 0x1_0000 * low);
    lemma_block_fields(group, element, high, low, block);
    assert(last_block_at(named, depth));
    lemma_key_last_block(named, depth);
    let key = key_bytes(named);
    assert(vr_bytes_of(key) =~= data.subrange(pos + 4, pos + 6));
}

/// A stretch of data elements that ends well leaves the blocks above its
/// level as they were, and those below it empty.
pub proof fn lemma_elements_framed(data: Seq<u8>, pos: int, depth: int, blocks: Seq<u64>, end: int)
    requires
        0 <= pos,
        0 <= depth < 12,
        blocks.len() == 12,
        empty_below(blocks, depth),
    ensures
        ({
            let d = elements(data, pos, depth, blocks, end);
            d.result is Ok ==> framed(blocks, d.blocks, depth)
        }),
    decreases data.len() + 4 - pos, 1int,
{
    if pos < end && can_read(data, pos, 8) && tag_at(data, pos) != ITEM_DELIMITER {
        let named = blocks.update(
            depth,
            element_block(tag_at(data, pos), u16_be_at(data, pos + 4)),
        );
        match category_of(u16_be_at(data, pos + 4) as u16) {
            Category::Short => {
                let length = u16_le_at(data, pos + 6);
                if can_read(data, pos + 8, length) {
                    lemma_elements_framed(data, pos + 8 + length, depth, named, end);
                }
            },
            Category::Long => {
                if can_read(data, pos, 12) {
                    let length = u32_le_at(data, pos + 8);
                    if can_read(data, pos + 12, length) {
                        lemma_elements_framed(data, pos + 12 + length, depth, named, end);
                    }
                }
            },
            Category::Sequence => {
                let body = sequence(data, pos, depth, blocks);
                lemma_sequence_advance(data, pos, depth, blocks);
                if can_read(data, pos, 12) {
                    lemma_items_framed(
                        data,
                        pos + 12,
                        depth,
                        blocks.update(depth, sequence_block(tag_at(data, pos), 0)),
                        tag_at(data, pos),
                        u32_le_at(data, pos + 8),
                        end_offset(pos + 12, u32_le_at(data, pos + 8)),
                        1,
                    );
                }
                if body.result is Ok {
                    lemma_elements_framed(data, body.pos, depth, body.blocks, end);
                }
            },
            Category::Unknown => {},
        }
    }
}

/// The items of a sequence that ends well leave the blocks above its level
/// as they were and those below it empty; the block of its own level holds
/// the tag of the sequence and the end mark.
pub proof fn lemma_items_framed(
    data: Seq<u8>,
    pos: int,
    depth: int,
    blocks: Seq<u64>,
    tag: int,
    length: int,
    end: int,
    number: int,
)
    requires
        0 <= pos,
        0 <= depth < 12,
        blocks.len() == 12,
        empty_below(blocks, depth),
    ensures
        ({
            let d = items(data, pos, depth, blocks, tag, length, end, number);
            d.result is Ok ==> framed(blocks, d.blocks, depth) && d.blocks[depth]
                == sequence_block(tag, SEQUENCE_END as int)
        }),
    decreases data.len() + 4 - pos, 0int,
{
    if pos <= end && can_read(data, pos, 8) && tag_at(data, pos) == ITEM_START && number
        <= 0xFFFF_FFFF && depth < 11 && u32_le_at(data, pos + 4) <= length {
        let opened = blocks.update(depth, sequence_block(tag, number)).update(
            depth + 1,
            ITEM_PLACEHOLDER,
        );
        let body = elements(data, pos + 8, depth + 1, opened, item_end(data, pos));
        lemma_elements_advance(data, pos + 8, depth + 1, opened, item_end(data, pos));
        if body.result is Ok {
            lemma_elements_framed(data, pos + 8, depth + 1, opened, item_end(data, pos));
            let finished = body.blocks.update(depth + 1, ITEM_END);
            let cleared = finished.update(depth + 1, 0);
            assert(empty_below(cleared, depth));
            lemma_items_framed(data, body.pos, depth, cleared, tag, length, end, number + 1);
        }
    }
}

} // verus!
