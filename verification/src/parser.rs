//! The decoder: it walks a byte source, builds the key of every unit, and
//! hands each unit to a sink.

use vstd::prelude::*;
use crate::error::{DCKVError, Failure, IoErrorKind};
use crate::filter::Filter;
use crate::format::{
    decoded, element_block, element_unit, elements, end_offset, item_start, items,
    lemma_elements_advance, lemma_sequence_advance, marker, no_blocks, sequence, sequence_end,
    sequence_start, tag_at, unknown_vr, Decoded, Unit, UnitKind, ITEM_DELIMITER, ITEM_END,
    ITEM_PLACEHOLDER, ITEM_START, PREAMBLE, SEQUENCE_DELIMITER, SEQUENCE_END, UNBOUNDED,
    UNDEFINED_LENGTH,
};
use crate::key::{key_bytes, Key};
use crate::reader::{can_read, u16_be_at, ByteReader};
use crate::value::Value;
use crate::vr::{category, Category};

verus! {

/// A consumer of decoded units. The decoder calls `append` once for every
/// data element and every marker, in the order of the stream.
pub trait Deserializer: Clone {
    /// What taking one unit makes of a sink: `post` is what `pre` may have
    /// become. A sink that says nothing of itself admits everything.
    open spec fn delivered(
        pre: Self,
        key: Seq<u8>,
        value: Seq<u8>,
        vr: Option<u16>,
        post: Self,
    ) -> bool {
        true
    }

    /// Takes one decoded unit: its key, its value bytes (none for a marker)
    /// and its value representation (none for the markers of items and for
    /// the end marker of a sequence).
    fn append(&mut self, key: Key, value: Value, vr: Option<u16>)
        ensures
            Self::delivered(*old(self), key@, value@, vr, *final(self)),
    ;
}

/// Tells whether `states` are the states of a sink that takes `units` one
/// after the other: the state before each unit, and the last state.
pub open spec fn delivery<S: Deserializer>(states: Seq<S>, units: Seq<Unit>) -> bool {
    &&& states.len() == units.len() + 1
    &&& forall|i: int|
        0 <= i < units.len() ==> S::delivered(
            #[trigger] states[i],
            units[i].key,
            units[i].value,
            units[i].vr,
            states[i + 1],
        )
}

/// Tells whether the sink `pre` may have become `post` by taking `units` one
/// after the other.
#[verifier::opaque]
pub open spec fn delivered_all<S: Deserializer>(pre: S, units: Seq<Unit>, post: S) -> bool {
    exists|states: Seq<S>|
        #[trigger] delivery(states, units) && states.first() == pre && states.last() == post
}

/// A sink that takes nothing stays as it is.
pub proof fn lemma_delivered_none<S: Deserializer>(sink: S)
    ensures
        delivered_all(sink, Seq::<Unit>::empty(), sink),
{
    reveal(delivered_all);
    let states = seq![sink];
    assert(delivery(states, Seq::<Unit>::empty()));
    assert(states.first() == sink && states.last() == sink);
}

/// Taking one more unit extends a run of deliveries.
pub proof fn lemma_delivered_push<S: Deserializer>(
    pre: S,
    units: Seq<Unit>,
    mid: S,
    unit: Unit,
    post: S,
)
    requires
        delivered_all(pre, units, mid),
        S::delivered(mid, unit.key, unit.value, unit.vr, post),
    ensures
        delivered_all(pre, units.push(unit), post),
{
    reveal(delivered_all);
    let states = choose|states: Seq<S>|
        #[trigger] delivery(states, units) && states.first() == pre && states.last() == mid;
    let longer = states.push(post);
    assert forall|i: int| 0 <= i < units.push(unit).len() implies S::delivered(
        #[trigger] longer[i],
        units.push(unit)[i].key,
        units.push(unit)[i].value,
        units.push(unit)[i].vr,
        longer[i + 1],
    ) by {
        if i < units.len() {
            assert(longer[i] == states[i]);
            assert(longer[i + 1] == states[i + 1]);
        }
    }
    assert(delivery(longer, units.push(unit)));
    assert(longer.first() == pre && longer.last() == post);
}

/// Two runs of deliveries, one after the other, are one run.
pub proof fn lemma_delivered_concat<S: Deserializer>(
    pre: S,
    first: Seq<Unit>,
    mid: S,
    second: Seq<Unit>,
    post: S,
)
    requires
        delivered_all(pre, first, mid),
        delivered_all(mid, second, post),
    ensures
        delivered_all(pre, first + second, post),
{
    reveal(delivered_all);
    let head = choose|states: Seq<S>|
        #[trigger] delivery(states, first) && states.first() == pre && states.last() == mid;
    let tail = choose|states: Seq<S>|
        #[trigger] delivery(states, second) && states.first() == mid && states.last() == post;
    let joined = head + tail.subrange(1, tail.len() as int);
    let units = first + second;
    assert forall|i: int| 0 <= i < units.len() implies S::delivered(
        #[trigger] joined[i],
        units[i].key,
        units[i].value,
        units[i].vr,
        joined[i + 1],
    ) by {
        if i < first.len() {
            assert(joined[i] == head[i]);
            assert(joined[i + 1] == head[i + 1]);
            assert(units[i] == first[i]);
        } else {
            let j = i - first.len();
            assert(joined[i] == tail[j]);
            assert(joined[i + 1] == tail[j + 1]);
            assert(units[i] == second[j]);
        }
    }
    assert(delivery(joined, units));
    assert(joined.first() == pre);
    assert(joined.last() == post);
}

/// Tells whether a decoder has carried out `outcome`: the sink `before` has
/// taken its units and become `after`; where it ended well the decoder says
/// so, and the source and the key blocks stand where it says; where it failed
/// the decoder gives that failure.
pub open spec fn carried_out<S: Deserializer>(
    outcome: Decoded,
    before: S,
    after: S,
    reader: ByteReader,
    key_blocks: Seq<u64>,
    r: Result<(), DCKVError>,
) -> bool {
    &&& delivered_all(before, outcome.units, after)
    &&& match r {
        Ok(_) => outcome.result is Ok && reader.pos() == outcome.pos && key_blocks
            == outcome.blocks,
        Err(e) => outcome.result == Err::<(), Failure>(e@),
    }
}

/// The end offset of a stretch of `length` bytes from `pos`.
fn end_of(pos: u64, length: u32) -> (end: u64)
    ensures
        end == end_offset(pos as int, length as int),
{
    if length == UNDEFINED_LENGTH {
        UNBOUNDED
    } else {
        match pos.checked_add(length as u64) {
            Some(end) => end,
            None => UNBOUNDED,
        }
    }
}

/// The failure that the unknown value-representation code `vr` gives.
fn unsupported(vr: u16) -> (e: DCKVError)
    ensures
        e@ == unknown_vr(vr as int),
{
    let mut code: Vec<u8> = Vec::new();
    code.push((vr % 0x100) as u8);
    code.push((vr / 0x100) as u8);
    proof {
        reveal(unknown_vr);
        assert(code@ =~= seq![(vr % 0x100) as u8, (vr / 0x100) as u8]);
    }
    match String::from_utf8(code) {
        Ok(text) => DCKVError::UnsupportedVR(text),
        Err(_) => DCKVError::InvalidVR,
    }
}

/// Names the data element `tag` in the block of the level `depth`, and hands
/// it to `shared` under the key that the blocks then make.
fn deliver<S: Deserializer>(
    shared: &mut S,
    depth: usize,
    key_blocks: &mut [u64; 12],
    tag: u32,
    vr: u16,
    value: Value,
)
    requires
        depth < 12,
    ensures
        final(key_blocks)@ == old(key_blocks)@.update(
            depth as int,
            element_block(tag as int, vr as int),
        ),
        S::delivered(*old(shared), key_bytes(final(key_blocks)@), value@, Some(vr), *final(shared)),
{
    key_blocks[depth] = (tag as u64) * 0x1_0000_0000 + (vr as u64) * 0x1_0000;
    let key = Key::from_key_blocks(key_blocks);
    shared.append(key, value, Some(vr));
}

/// Hands a marker to `shared` under the key that the blocks make.
fn mark<S: Deserializer>(shared: &mut S, key_blocks: &mut [u64; 12], vr: Option<u16>)
    ensures
        final(key_blocks)@ == old(key_blocks)@,
        S::delivered(
            *old(shared),
            key_bytes(old(key_blocks)@),
            Seq::<u8>::empty(),
            vr,
            *final(shared),
        ),
{
    let key = Key::from_key_blocks(key_blocks);
    shared.append(key, no_value(), vr);
}

/// A value without bytes, as the markers have it.
fn no_value() -> (value: Value)
    ensures
        value@ == Seq::<u8>::empty(),
{
    Value::new(Vec::new())
}

/// Decodes the data elements at the position of `reader`, at the nesting
/// level `key_depth`, until the offset `length`, the end of the source or an
/// item delimiter, and hands every unit to `shared`. A failure ends the decode
/// at once; what was handed over before stays with the sink. The nesting
/// level never passes 11, however the decode ends.
pub fn parser<S: Deserializer>(
    shared: &mut S,
    reader: &mut ByteReader,
    key_depth: &mut usize,
    key_blocks: &mut [u64; 12],
    length: u64,
    filter: &Filter,
) -> (r: Result<(), DCKVError>)
    requires
        *old(key_depth) < 12,
    ensures
        final(reader).bytes() == old(reader).bytes(),
        r is Ok ==> *final(key_depth) == *old(key_depth),
        *final(key_depth) <= 11,
        carried_out(
            elements(
                old(reader).bytes(),
                old(reader).pos() as int,
                *old(key_depth) as int,
                old(key_blocks)@,
                length as int,
            ),
            *old(shared),
            *final(shared),
            *final(reader),
            final(key_blocks)@,
            r,
        ),
    decreases 12 - *old(key_depth), 2int,
{
    let ghost data = reader.bytes();
    let ghost depth = *key_depth as int;
    let ghost start = *shared;
    let ghost whole = elements(data, reader.pos() as int, depth, key_blocks@, length as int);
    let ghost mut sent: Seq<Unit> = Seq::empty();
    proof {
        lemma_delivered_none(start);
    }
    loop
        invariant
            data == old(reader).bytes(),
            depth == *old(key_depth),
            start == *old(shared),
            whole == elements(
                data,
                old(reader).pos() as int,
                depth,
                old(key_blocks)@,
                length as int,
            ),
            reader.bytes() == data,
            *key_depth == depth,
            0 <= depth < 12,
            delivered_all(start, sent, *shared),
            ({
                let rest = elements(data, reader.pos() as int, depth, key_blocks@, length as int);
                &&& whole.units =~= sent + rest.units
                &&& whole.result == rest.result
                &&& whole.pos == rest.pos
                &&& whole.blocks == rest.blocks
            }),
        decreases data.len() + 4 - reader.pos(),
    {
        let ghost pos = reader.pos() as int;
        let ghost blocks = key_blocks@;
        proof {
            assert(sent + Seq::<Unit>::empty() =~= sent);
        }
        if reader.stream_position() >= length {
            return Ok(());
        }
        // The first read tells whether the source is exhausted.
        let group: u32 = match reader.read_u16_le() {
            Ok(t) => t as u32,
            Err(e) => match e {
                DCKVError::IOError(IoErrorKind::UnexpectedEof) => {
                    return Ok(());
                },
                _ => {
                    return Err(e);
                },
            },
        };
        let element: u32 = reader.read_u16_le()? as u32;
        let tag: u32 = element + group * 0x1_0000;
        if tag == ITEM_DELIMITER {
            // The length field of the delimiter is skipped.
            reader.skip(4)?;
            return Ok(());
        }
        let vr: u16 = reader.read_u16()?;
        let vl: u16 = reader.read_u16_le()?;
        match category(vr) {
            Category::Short => {
                let value = Value::read(reader, vl as usize)?;
                let ghost unit = element_unit(data, pos, depth, blocks, 8, vl as int);
                let ghost before = *shared;
                deliver(shared, *key_depth, key_blocks, tag, vr, value);
                proof {
                    lemma_delivered_push(start, sent, before, unit, *shared);
                    sent = sent.push(unit);
                }
            },
            Category::Long => {
                let vll: u32 = reader.read_u32_le()?;
                let value = Value::read(reader, vll as usize)?;
                let ghost unit = element_unit(data, pos, depth, blocks, 12, vll as int);
                let ghost before = *shared;
                deliver(shared, *key_depth, key_blocks, tag, vr, value);
                proof {
                    lemma_delivered_push(start, sent, before, unit, *shared);
                    sent = sent.push(unit);
                }
            },
            Category::Sequence => {
                let ghost body = sequence(data, pos, depth, blocks);
                let ghost before = *shared;
                proof {
                    lemma_sequence_advance(data, pos, depth, blocks);
                }
                let r = sequence_of(shared, reader, key_depth, key_blocks, tag, vr, filter);
                proof {
                    lemma_delivered_concat(start, sent, before, body.units, *shared);
                    sent = sent + body.units;
                }
                match r {
                    Ok(_) => {},
                    Err(e) => {
                        proof {
                            assert(whole.units =~= sent);
                        }
                        return Err(e);
                    },
                }
            },
            Category::Unknown => {
                return Err(unsupported(vr));
            },
        }
    }
}

/// Decodes the sequence `tag`, whose header has just been read up to its
/// length field: hands its container marker to `shared`, reads its length and
/// decodes its items.
fn sequence_of<S: Deserializer>(
    shared: &mut S,
    reader: &mut ByteReader,
    key_depth: &mut usize,
    key_blocks: &mut [u64; 12],
    tag: u32,
    vr: u16,
    filter: &Filter,
) -> (r: Result<(), DCKVError>)
    requires
        *old(key_depth) < 12,
        old(reader).pos() >= 8,
        can_read(old(reader).bytes(), old(reader).pos() - 8, 8),
        tag == tag_at(old(reader).bytes(), old(reader).pos() - 8),
        vr == u16_be_at(old(reader).bytes(), old(reader).pos() - 4),
    ensures
        final(reader).bytes() == old(reader).bytes(),
        r is Ok ==> *final(key_depth) == *old(key_depth),
        *final(key_depth) <= 11,
        carried_out(
            sequence(
                old(reader).bytes(),
                old(reader).pos() - 8,
                *old(key_depth) as int,
                old(key_blocks)@,
            ),
            *old(shared),
            *final(shared),
            *final(reader),
            final(key_blocks)@,
            r,
        ),
    decreases 12 - *old(key_depth), 1int,
{
    let ghost data = reader.bytes();
    let ghost pos = reader.pos() - 8;
    let ghost depth = *key_depth as int;
    let ghost start = *shared;
    let ghost open = sequence_start(data, pos, depth, key_blocks@);
    key_blocks[*key_depth] = (tag as u64) * 0x1_0000_0000;
    mark(shared, key_blocks, Some(vr));
    let ghost opened = *shared;
    proof {
        lemma_delivered_none(start);
        lemma_delivered_push(start, Seq::empty(), start, open, opened);
        assert(Seq::<Unit>::empty().push(open) =~= seq![open]);
        assert(seq![open] + Seq::<Unit>::empty() =~= seq![open]);
    }
    let seq_length: u32 = reader.read_u32_le()?;
    let ghost body = items(
        data,
        pos + 12,
        depth,
        key_blocks@,
        tag as int,
        seq_length as int,
        end_offset(pos + 12, seq_length as int),
        1,
    );
    let r = sequence_items(shared, reader, key_depth, key_blocks, tag, seq_length, filter);
    proof {
        lemma_delivered_concat(start, seq![open], opened, body.units, *shared);
    }
    r
}

/// Decodes the items of the sequence `tag`, whose length field `seq_length`
/// has just been read, and hands every unit to `shared`: the markers of each
/// item around what the item holds, and the end marker of the sequence.
fn sequence_items<S: Deserializer>(
    shared: &mut S,
    reader: &mut ByteReader,
    key_depth: &mut usize,
    key_blocks: &mut [u64; 12],
    tag: u32,
    seq_length: u32,
    filter: &Filter,
) -> (r: Result<(), DCKVError>)
    requires
        *old(key_depth) < 12,
    ensures
        final(reader).bytes() == old(reader).bytes(),
        r is Ok ==> *final(key_depth) == *old(key_depth),
        *final(key_depth) <= 11,
        carried_out(
            items(
                old(reader).bytes(),
                old(reader).pos() as int,
                *old(key_depth) as int,
                old(key_blocks)@,
                tag as int,
                seq_length as int,
                end_offset(old(reader).pos() as int, seq_length as int),
                1,
            ),
            *old(shared),
            *final(shared),
            *final(reader),
            final(key_blocks)@,
            r,
        ),
    decreases 12 - *old(key_depth), 0int,
{
    let ghost data = reader.bytes();
    let ghost depth = *key_depth as int;
    let ghost start = *shared;
    let seq_offset: u64 = end_of(reader.stream_position(), seq_length);
    let ghost whole = items(
        data,
        reader.pos() as int,
        depth,
        key_blocks@,
        tag as int,
        seq_length as int,
        seq_offset as int,
        1,
    );
    let ghost mut sent: Seq<Unit> = Seq::empty();
    let mut item_number: u64 = 1;
    proof {
        lemma_delivered_none(start);
    }
    loop
        invariant
            data == old(reader).bytes(),
            depth == *old(key_depth),
            start == *old(shared),
            seq_offset == end_offset(old(reader).pos() as int, seq_length as int),
            whole == items(
                data,
                old(reader).pos() as int,
                depth,
                old(key_blocks)@,
                tag as int,
                seq_length as int,
                seq_offset as int,
                1,
            ),
            reader.bytes() == data,
            *key_depth == depth,
            0 <= depth < 12,
            1 <= item_number <= 0x1_0000_0000,
            delivered_all(start, sent, *shared),
            ({
                let rest = items(
                    data,
                    reader.pos() as int,
                    depth,
                    key_blocks@,
                    tag as int,
                    seq_length as int,
                    seq_offset as int,
                    item_number as int,
                );
                &&& whole.units =~= sent + rest.units
                &&& whole.result == rest.result
                &&& whole.pos == rest.pos
                &&& whole.blocks == rest.blocks
            }),
        decreases data.len() + 4 - reader.pos(),
    {
        let ghost pos = reader.pos() as int;
        let ghost blocks = key_blocks@;
        proof {
            assert(sent + Seq::<Unit>::empty() =~= sent);
        }
        if reader.stream_position() <= seq_offset {
            let group: u32 = reader.read_u16_le()? as u32;
            let element: u32 = reader.read_u16_le()? as u32;
            let item_tag: u32 = element + group * 0x1_0000;
            if item_tag == ITEM_START {
                if item_number > 0xFFFF_FFFF {
                    return Err(DCKVError::SQItemOverflow);
                }
                if *key_depth >= 11 {
                    return Err(DCKVError::DepthExceeded);
                }
                key_blocks[*key_depth] = (tag as u64) * 0x1_0000_0000 + item_number;
                *key_depth = *key_depth + 1;
                key_blocks[*key_depth] = ITEM_PLACEHOLDER;
                let ghost open = item_start(depth, blocks, tag as int, item_number as int);
                let ghost before = *shared;
                mark(shared, key_blocks, None);
                proof {
                    lemma_delivered_push(start, sent, before, open, *shared);
                    sent = sent.push(open);
                    assert(sent + Seq::<Unit>::empty() =~= sent);
                }
                let item_length: u32 = reader.read_u32_le()?;
                if item_length > seq_length {
                    return Err(DCKVError::InvalidSQItemLength);
                }
                let item_offset: u64 = end_of(reader.stream_position(), item_length);
                let ghost body = elements(data, pos + 8, depth + 1, key_blocks@, item_offset as int);
                let ghost opened = *shared;
                proof {
                    lemma_elements_advance(data, pos + 8, depth + 1, key_blocks@, item_offset as int);
                }
                let r = parser(shared, reader, key_depth, key_blocks, item_offset, filter);
                proof {
                    lemma_delivered_concat(start, sent, opened, body.units, *shared);
                    sent = sent + body.units;
                }
                match r {
                    Ok(_) => {},
                    Err(e) => {
                        proof {
                            assert(whole.units =~= sent);
                        }
                        return Err(e);
                    },
                }
                key_blocks[*key_depth] = ITEM_END;
                let ghost shut = marker(UnitKind::ItemEnd, depth + 1, key_blocks@);
                let ghost before = *shared;
                mark(shared, key_blocks, None);
                proof {
                    lemma_delivered_push(start, sent, before, shut, *shared);
                    sent = sent.push(shut);
                }
                key_blocks[*key_depth] = 0;
                *key_depth = *key_depth - 1;
                item_number = item_number + 1;
            } else if item_tag == SEQUENCE_DELIMITER {
                key_blocks[*key_depth] = (tag as u64) * 0x1_0000_0000 + SEQUENCE_END;
                let ghost close = sequence_end(depth, blocks, tag as int);
                let ghost before = *shared;
                mark(shared, key_blocks, None);
                proof {
                    lemma_delivered_push(start, sent, before, close, *shared);
                    sent = sent.push(close);
                    assert(sent + Seq::<Unit>::empty() =~= sent);
                }
                // The length field of the delimiter is skipped.
                reader.skip(4)?;
                return Ok(());
            } else {
                return Err(DCKVError::InvalidSQTag);
            }
        } else {
            key_blocks[*key_depth] = (tag as u64) * 0x1_0000_0000 + SEQUENCE_END;
            let ghost close = sequence_end(depth, blocks, tag as int);
            let ghost before = *shared;
            mark(shared, key_blocks, None);
            proof {
                lemma_delivered_push(start, sent, before, close, *shared);
                sent = sent.push(close);
                assert(sent + Seq::<Unit>::empty() =~= sent);
            }
            return Ok(());
        }
    }
}

/// Decodes the source `reader` from the end of its preamble on and hands
/// every unit to `shared`, in the order of the stream. A source that ends
/// where a data element would begin ends the decode well.
pub fn deserialize<S: Deserializer>(shared: &mut S, reader: ByteReader, filter: &Filter) -> (r:
    Result<(), DCKVError>)
    ensures
        delivered_all(*old(shared), decoded(reader.bytes()).units, *final(shared)),
        match r {
            Ok(_) => decoded(reader.bytes()).result is Ok,
            Err(e) => decoded(reader.bytes()).result == Err::<(), Failure>(e@),
        },
{
    let mut reader = reader;
    let mut key_depth: usize = 0;
    let mut key_blocks: [u64; 12] = [0; 12];
    proof {
        assert(key_blocks@ =~= no_blocks());
    }
    reader.seek(PREAMBLE);
    parser(shared, &mut reader, &mut key_depth, &mut key_blocks, UNBOUNDED, filter)
}

} // verus!
