use dckv::parser::{deserialize, parser};
use dckv::vr;
use dckv::{ByteReader, DCKVError, Deserializer, Filter, IoErrorKind, KVMap, Key, Value};

/// A sink that records every invocation.
#[derive(Clone, Default)]
struct Log {
    units: Vec<(Vec<u8>, Vec<u8>, Option<u16>)>,
}

impl Deserializer for Log {
    fn append(&mut self, key: Key, value: Value, vr: Option<u16>) {
        self.units.push((key.into_bytes(), value.into_bytes(), vr));
    }
}

fn preamble() -> Vec<u8> {
    vec![0u8; 144]
}

fn short(group: u16, element: u16, code: &[u8; 2], value: &[u8]) -> Vec<u8> {
    let mut out = Vec::new();
    out.extend_from_slice(&group.to_le_bytes());
    out.extend_from_slice(&element.to_le_bytes());
    out.extend_from_slice(code);
    out.extend_from_slice(&(value.len() as u16).to_le_bytes());
    out.extend_from_slice(value);
    out
}

fn long(group: u16, element: u16, code: &[u8; 2], value: &[u8]) -> Vec<u8> {
    let mut out = Vec::new();
    out.extend_from_slice(&group.to_le_bytes());
    out.extend_from_slice(&element.to_le_bytes());
    out.extend_from_slice(code);
    out.extend_from_slice(&[0, 0]);
    out.extend_from_slice(&(value.len() as u32).to_le_bytes());
    out.extend_from_slice(value);
    out
}

fn sequence_header(group: u16, element: u16, length: u32) -> Vec<u8> {
    let mut out = Vec::new();
    out.extend_from_slice(&group.to_le_bytes());
    out.extend_from_slice(&element.to_le_bytes());
    out.extend_from_slice(b"SQ");
    out.extend_from_slice(&[0, 0]);
    out.extend_from_slice(&length.to_le_bytes());
    out
}

fn framing(element: u16, length: u32) -> Vec<u8> {
    let mut out = Vec::new();
    out.extend_from_slice(&0xfffeu16.to_le_bytes());
    out.extend_from_slice(&element.to_le_bytes());
    out.extend_from_slice(&length.to_le_bytes());
    out
}

fn item_start(length: u32) -> Vec<u8> {
    framing(0xe000, length)
}

fn item_delimiter() -> Vec<u8> {
    framing(0xe00d, 0)
}

fn sequence_delimiter() -> Vec<u8> {
    framing(0xe0dd, 0)
}

fn key_of(blocks: &[u64]) -> Vec<u8> {
    let mut all = [0u64; 12];
    all[..blocks.len()].copy_from_slice(blocks);
    Key::from_key_blocks(&mut all).into_bytes()
}

fn decode(stream: Vec<u8>) -> (Log, Result<(), DCKVError>) {
    let mut log = Log::default();
    let r = deserialize(&mut log, ByteReader::new(stream), &Filter::none());
    (log, r)
}

#[test]
fn one_short_element_round_trip() {
    let mut stream = preamble();
    stream.extend(short(0x0010, 0x0010, b"PN", b"DOE^JOHN"));
    let mut map = KVMap::new();
    map.deserialize(ByteReader::new(stream), &Filter::none()).unwrap();
    assert_eq!(map.len(), 1);
    let (key, value) = map.get_index(0).unwrap();
    assert_eq!(key, &vec![0x00, 0x10, 0x00, 0x10, 0x50, 0x4e, 0x00, 0x00]);
    assert_eq!(Value::new(value.clone()).to_string(Some(vr::PN)), "DOE^JOHN");
    let mut blocks = [0u64; 12];
    blocks[0] = 0x0010_0010_504e_0000;
    assert_eq!(map.get(Key::from_key_blocks(&mut blocks)), Some(&b"DOE^JOHN".to_vec()));
}

#[test]
fn short_element_reads_exactly_its_length() {
    let mut stream = preamble();
    stream.extend(short(0x0010, 0x0010, b"PN", b"DOE^JOHN"));
    stream.extend(short(0x0010, 0x0020, b"LO", b"12345"));
    let (log, r) = decode(stream);
    assert!(r.is_ok());
    assert_eq!(log.units.len(), 2);
    assert_eq!(log.units[0].1, b"DOE^JOHN".to_vec());
    assert_eq!(log.units[0].2, Some(vr::PN));
    assert_eq!(log.units[1].0, key_of(&[0x0010_0020_4c4f_0000]));
    assert_eq!(log.units[1].1, b"12345".to_vec());
    assert_eq!(log.units[1].2, Some(vr::LO));
}

#[test]
fn parser_leaves_the_source_after_the_last_element() {
    let mut stream = preamble();
    stream.extend(short(0x0010, 0x0010, b"PN", b"DOE^JOHN"));
    let end = stream.len() as u64;
    let mut log = Log::default();
    let mut reader = ByteReader::new(stream);
    reader.seek(144);
    let mut depth = 0usize;
    let mut blocks = [0u64; 12];
    let r = parser(&mut log, &mut reader, &mut depth, &mut blocks, u64::MAX, &Filter::none());
    assert!(r.is_ok());
    assert_eq!(reader.stream_position(), end);
    assert_eq!(depth, 0);
    assert_eq!(blocks[0], 0x0010_0010_504e_0000);
    assert_eq!(log.units.len(), 1);
}

#[test]
fn parser_stops_at_its_end_offset() {
    let mut stream = preamble();
    stream.extend(short(0x0010, 0x0010, b"PN", b"DOE^JOHN"));
    stream.extend(short(0x0010, 0x0020, b"LO", b"12345"));
    let mut log = Log::default();
    let mut reader = ByteReader::new(stream);
    reader.seek(144);
    let mut depth = 0usize;
    let mut blocks = [0u64; 12];
    let r = parser(&mut log, &mut reader, &mut depth, &mut blocks, 160, &Filter::none());
    assert!(r.is_ok());
    assert_eq!(reader.stream_position(), 160);
    assert_eq!(log.units.len(), 1);
}

#[test]
fn long_element_has_a_32_bit_length() {
    let mut stream = preamble();
    stream.extend(long(0x7fe0, 0x0010, b"OB", &[1, 2, 3, 4, 5]));
    stream.extend(short(0x0010, 0x0010, b"PN", b"A"));
    let (log, r) = decode(stream);
    assert!(r.is_ok());
    assert_eq!(log.units.len(), 2);
    assert_eq!(log.units[0].0, key_of(&[0x7fe0_0010_4f42_0000]));
    assert_eq!(log.units[0].1, vec![1, 2, 3, 4, 5]);
    assert_eq!(log.units[0].2, Some(vr::OB));
    assert_eq!(log.units[1].1, b"A".to_vec());
}

#[test]
fn empty_stream_after_the_preamble() {
    let (log, r) = decode(preamble());
    assert!(r.is_ok());
    assert!(log.units.is_empty());
}

#[test]
fn stream_shorter_than_the_preamble() {
    let (log, r) = decode(vec![1, 2, 3]);
    assert!(r.is_ok());
    assert!(log.units.is_empty());
    let (log, r) = decode(Vec::new());
    assert!(r.is_ok());
    assert!(log.units.is_empty());
}

#[test]
fn one_trailing_byte_is_a_clean_end() {
    let mut stream = preamble();
    stream.push(0x10);
    let (log, r) = decode(stream);
    assert!(r.is_ok());
    assert!(log.units.is_empty());
}

#[test]
fn sequence_with_one_item_and_one_element() {
    let mut stream = preamble();
    stream.extend(sequence_header(0x0008, 0x1140, 0xffff_ffff));
    stream.extend(item_start(0xffff_ffff));
    stream.extend(short(0x0008, 0x1150, b"UI", b"1.2.3"));
    stream.extend(item_delimiter());
    stream.extend(sequence_delimiter());
    let (log, r) = decode(stream.clone());
    assert!(r.is_ok());
    assert_eq!(log.units.len(), 5);
    // the container marker of the sequence
    assert_eq!(log.units[0], (key_of(&[0x0008_1140_0000_0000]), vec![], Some(vr::SQ)));
    // the start marker of the item
    assert_eq!(log.units[1], (key_of(&[0x0008_1140_0000_0001, 0x2b2b_0000]), vec![], None));
    // the nested element
    assert_eq!(
        log.units[2],
        (
            key_of(&[0x0008_1140_0000_0001, 0x0008_1150_5549_0000]),
            b"1.2.3".to_vec(),
            Some(vr::UI)
        )
    );
    // the end marker of the item
    assert_eq!(
        log.units[3],
        (key_of(&[0x0008_1140_0000_0001, 0xffff_ffff_5f5f_0000]), vec![], None)
    );
    // the end marker of the sequence
    assert_eq!(log.units[4], (key_of(&[0x0008_1140_ffff_0000]), vec![], None));

    let mut map = KVMap::new();
    map.deserialize(ByteReader::new(stream), &Filter::none()).unwrap();
    assert_eq!(map.len(), 5);
    for (i, unit) in log.units.iter().enumerate() {
        assert_eq!(map.get_index(i), Some((&unit.0, &unit.1)));
    }
}

#[test]
fn sequence_of_defined_length_ends_when_exhausted() {
    let mut stream = preamble();
    // The sequence declares the eight bytes of its item header; the item
    // declares eight bytes more, and nothing delimits either.
    stream.extend(sequence_header(0x0008, 0x1140, 8));
    stream.extend(item_start(8));
    stream.extend(short(0x0008, 0x1150, b"UI", b""));
    let (log, r) = decode(stream);
    assert!(r.is_ok());
    assert_eq!(log.units.len(), 5);
    assert_eq!(
        log.units[2],
        (key_of(&[0x0008_1140_0000_0001, 0x0008_1150_5549_0000]), vec![], Some(vr::UI))
    );
    assert_eq!(log.units[4], (key_of(&[0x0008_1140_ffff_0000]), vec![], None));
    let ends = log.units.iter().filter(|u| u.0 == key_of(&[0x0008_1140_ffff_0000])).count();
    assert_eq!(ends, 1);
}

#[test]
fn item_ends_at_its_own_length() {
    // A sequence of 26 bytes: one item of 10 bytes that holds one element,
    // then the sequence delimiter.
    let stream = vec![
        8, 0, 0x40, 0x11, 0x53, 0x51, 0, 0, 26, 0, 0, 0, 254, 255, 0, 0xe0, 10, 0, 0, 0, 0x10, 0,
        0x20, 0, 0x4c, 0x4f, 2, 0, 0x41, 0x31, 254, 255, 0xdd, 0xe0, 0, 0, 0, 0,
    ];
    let mut log = Log::default();
    let mut reader = ByteReader::new(stream);
    let mut depth = 0usize;
    let mut blocks = [0u64; 12];
    let r = parser(&mut log, &mut reader, &mut depth, &mut blocks, u64::MAX, &Filter::none());
    assert!(r.is_ok());
    assert_eq!(depth, 0);
    assert_eq!(reader.stream_position(), 38);
    assert_eq!(log.units.len(), 5);
    assert_eq!(log.units[0], (vec![0, 8, 0x11, 0x40, 0, 0, 0, 0], vec![], Some(vr::SQ)));
    assert_eq!(
        log.units[1],
        (vec![0, 8, 0x11, 0x40, 0, 0, 0, 1, 0, 0, 0, 0, 0x2b, 0x2b, 0, 0], vec![], None)
    );
    assert_eq!(
        log.units[2],
        (
            vec![0, 8, 0x11, 0x40, 0, 0, 0, 1, 0, 0x10, 0, 0x20, 0x4c, 0x4f, 0, 0],
            b"A1".to_vec(),
            Some(0x4c4f)
        )
    );
    assert_eq!(
        log.units[3],
        (
            vec![0, 8, 0x11, 0x40, 0, 0, 0, 1, 255, 255, 255, 255, 0x5f, 0x5f, 0, 0],
            vec![],
            None
        )
    );
    assert_eq!(log.units[4], (vec![0, 8, 0x11, 0x40, 255, 255, 0, 0], vec![], None));
}

#[test]
fn items_of_defined_length_follow_one_another() {
    let mut stream = preamble();
    stream.extend(sequence_header(0x0008, 0x1140, 100));
    stream.extend(item_start(9));
    stream.extend(short(0x0010, 0x0010, b"PN", b"A"));
    stream.extend(item_start(9));
    stream.extend(short(0x0010, 0x0010, b"PN", b"B"));
    stream.extend(sequence_delimiter());
    stream.extend(short(0x0010, 0x0020, b"LO", b"C"));
    let (log, r) = decode(stream);
    assert!(r.is_ok());
    assert_eq!(log.units.len(), 9);
    assert_eq!(log.units[2].0, key_of(&[0x0008_1140_0000_0001, 0x0010_0010_504e_0000]));
    assert_eq!(log.units[2].1, b"A".to_vec());
    assert_eq!(log.units[5].0, key_of(&[0x0008_1140_0000_0002, 0x0010_0010_504e_0000]));
    assert_eq!(log.units[5].1, b"B".to_vec());
    assert_eq!(log.units[7].0, key_of(&[0x0008_1140_ffff_0000]));
    assert_eq!(log.units[8].0, key_of(&[0x0010_0020_4c4f_0000]));
}

#[test]
fn depth_stays_within_bounds_after_a_failure() {
    let mut stream = Vec::new();
    for _ in 0..12 {
        stream.extend(sequence_header(0x0008, 0x1140, 0xffff_ffff));
        stream.extend(item_start(0xffff_ffff));
    }
    let mut log = Log::default();
    let mut reader = ByteReader::new(stream);
    let mut depth = 0usize;
    let mut blocks = [0u64; 12];
    let r = parser(&mut log, &mut reader, &mut depth, &mut blocks, u64::MAX, &Filter::none());
    assert!(matches!(r, Err(DCKVError::DepthExceeded)));
    assert!(depth <= 11);
    assert!(log.units.iter().all(|u| u.0.len() % 8 == 0 && u.0.len() <= 96));
}

#[test]
fn sequence_of_defined_length_ends_at_its_delimiter() {
    let mut stream = preamble();
    stream.extend(sequence_header(0x0008, 0x1140, 64));
    stream.extend(item_start(16));
    stream.extend(short(0x0008, 0x1150, b"UI", b"1.2.3.4."));
    stream.extend(sequence_delimiter());
    stream.extend(short(0x0010, 0x0010, b"PN", b"A"));
    let (log, r) = decode(stream);
    assert!(r.is_ok());
    assert_eq!(log.units.len(), 6);
    assert_eq!(log.units[4], (key_of(&[0x0008_1140_ffff_0000]), vec![], None));
    assert_eq!(log.units[5].0, key_of(&[0x0010_0010_504e_0000]));
    let ends = log.units.iter().filter(|u| u.0 == key_of(&[0x0008_1140_ffff_0000])).count();
    assert_eq!(ends, 1);
}

#[test]
fn sequence_of_undefined_length_needs_its_delimiter() {
    let mut stream = preamble();
    stream.extend(sequence_header(0x0008, 0x1140, 0xffff_ffff));
    stream.extend(item_start(0xffff_ffff));
    stream.extend(short(0x0008, 0x1150, b"UI", b"1.2.3"));
    stream.extend(item_delimiter());
    let (log, r) = decode(stream);
    assert!(matches!(r, Err(DCKVError::IOError(IoErrorKind::UnexpectedEof))));
    // no end marker of the sequence was handed over
    assert_eq!(log.units.len(), 4);
}

#[test]
fn empty_sequence() {
    let mut stream = preamble();
    stream.extend(sequence_header(0x0008, 0x1140, 0xffff_ffff));
    stream.extend(sequence_delimiter());
    let (log, r) = decode(stream);
    assert!(r.is_ok());
    assert_eq!(log.units.len(), 2);
    assert_eq!(log.units[0], (key_of(&[0x0008_1140_0000_0000]), vec![], Some(vr::SQ)));
    assert_eq!(log.units[1], (key_of(&[0x0008_1140_ffff_0000]), vec![], None));
}

#[test]
fn items_are_numbered_from_one() {
    let mut stream = preamble();
    stream.extend(sequence_header(0x0008, 0x1140, 0xffff_ffff));
    for _ in 0..3 {
        stream.extend(item_start(0xffff_ffff));
        stream.extend(item_delimiter());
    }
    stream.extend(sequence_delimiter());
    let (log, r) = decode(stream);
    assert!(r.is_ok());
    assert_eq!(log.units.len(), 8);
    assert_eq!(log.units[1].0, key_of(&[0x0008_1140_0000_0001, 0x2b2b_0000]));
    assert_eq!(log.units[3].0, key_of(&[0x0008_1140_0000_0002, 0x2b2b_0000]));
    assert_eq!(log.units[5].0, key_of(&[0x0008_1140_0000_0003, 0x2b2b_0000]));
    assert_eq!(log.units[6].0, key_of(&[0x0008_1140_0000_0003, 0xffff_ffff_5f5f_0000]));
    assert_eq!(log.units[7].0, key_of(&[0x0008_1140_ffff_0000]));
}

#[test]
fn nested_sequences() {
    let mut stream = preamble();
    stream.extend(sequence_header(0x0008, 0x1140, 0xffff_ffff));
    stream.extend(item_start(0xffff_ffff));
    stream.extend(sequence_header(0x0040, 0xa730, 0xffff_ffff));
    stream.extend(item_start(0xffff_ffff));
    stream.extend(short(0x0010, 0x0010, b"PN", b"A"));
    stream.extend(item_delimiter());
    stream.extend(sequence_delimiter());
    stream.extend(item_delimiter());
    stream.extend(sequence_delimiter());
    let (log, r) = decode(stream);
    assert!(r.is_ok());
    assert_eq!(log.units.len(), 9);
    assert_eq!(
        log.units[4].0,
        key_of(&[0x0008_1140_0000_0001, 0x0040_a730_0000_0001, 0x0010_0010_504e_0000])
    );
    let key = {
        let mut all = [0u64; 12];
        all[0] = 0x0008_1140_0000_0001;
        all[1] = 0x0040_a730_0000_0001;
        all[2] = 0x0010_0010_504e_0000;
        Key::from_key_blocks(&mut all)
    };
    assert_eq!(key.level(), 2);
    assert_eq!(key.group(), 0x0010);
    assert_eq!(key.element(), 0x0010);
    assert_eq!(key.vr().unwrap(), "PN");
}

#[test]
fn thirteenth_level_fails() {
    let mut stream = preamble();
    for _ in 0..12 {
        stream.extend(sequence_header(0x0008, 0x1140, 0xffff_ffff));
        stream.extend(item_start(0xffff_ffff));
    }
    let (log, r) = decode(stream.clone());
    assert!(matches!(r, Err(DCKVError::DepthExceeded)));
    // eleven sequences with their item, and the container marker of the twelfth
    assert_eq!(log.units.len(), 23);
    assert!(log.units.iter().all(|u| u.0.len() <= 96));
    let (again, r) = decode(stream);
    assert!(matches!(r, Err(DCKVError::DepthExceeded)));
    assert_eq!(again.units, log.units);
}

#[test]
fn twelve_levels_are_decoded() {
    let mut stream = preamble();
    for _ in 0..11 {
        stream.extend(sequence_header(0x0008, 0x1140, 0xffff_ffff));
        stream.extend(item_start(0xffff_ffff));
    }
    stream.extend(short(0x0010, 0x0010, b"PN", b"A"));
    for _ in 0..11 {
        stream.extend(item_delimiter());
        stream.extend(sequence_delimiter());
    }
    let (log, r) = decode(stream);
    assert!(r.is_ok());
    assert_eq!(log.units.len(), 45);
    assert_eq!(log.units[22].0.len(), 96);
    assert_eq!(log.units[22].1, b"A".to_vec());
}

#[test]
fn unknown_tag_in_a_sequence_fails() {
    let mut stream = preamble();
    stream.extend(sequence_header(0x0008, 0x1140, 0xffff_ffff));
    stream.extend(short(0x0010, 0x0010, b"PN", b"A"));
    let (log, r) = decode(stream);
    assert!(matches!(r, Err(DCKVError::InvalidSQTag)));
    assert_eq!(log.units.len(), 1);
}

#[test]
fn item_longer_than_its_sequence_fails() {
    let mut stream = preamble();
    stream.extend(sequence_header(0x0008, 0x1140, 16));
    stream.extend(item_start(17));
    let (log, r) = decode(stream);
    assert!(matches!(r, Err(DCKVError::InvalidSQItemLength)));
    // the container marker and the start marker of the item came first
    assert_eq!(log.units.len(), 2);
}

#[test]
fn unsupported_vr_carries_the_code_low_byte_first() {
    let mut stream = preamble();
    stream.extend(short(0x0010, 0x0010, b"AB", b""));
    let (log, r) = decode(stream);
    match r {
        Err(DCKVError::UnsupportedVR(text)) => assert_eq!(text, "BA"),
        other => panic!("{:?}", other),
    }
    assert!(log.units.is_empty());
}

#[test]
fn vr_that_is_no_text_fails() {
    let mut stream = preamble();
    stream.extend(short(0x0010, 0x0010, &[0xff, 0xfe], b""));
    let (_, r) = decode(stream);
    assert!(matches!(r, Err(DCKVError::InvalidVR)));
}

#[test]
fn source_that_ends_in_a_header_fails() {
    let mut stream = preamble();
    stream.extend(short(0x0010, 0x0010, b"PN", b"DOE^JOHN"));
    stream.extend_from_slice(&[0x10, 0x00, 0x20]);
    let (log, r) = decode(stream);
    assert!(matches!(r, Err(DCKVError::IOError(IoErrorKind::UnexpectedEof))));
    assert_eq!(log.units.len(), 1);
}

#[test]
fn source_that_ends_in_a_value_fails() {
    let mut stream = preamble();
    stream.extend(short(0x0010, 0x0010, b"PN", b"DOE^JOHN"));
    stream.truncate(144 + 8 + 4);
    let (log, r) = decode(stream);
    assert!(matches!(r, Err(DCKVError::IOError(IoErrorKind::UnexpectedEof))));
    assert!(log.units.is_empty());
}

#[test]
fn failure_keeps_what_came_before() {
    let mut stream = preamble();
    stream.extend(short(0x0010, 0x0010, b"PN", b"DOE^JOHN"));
    stream.extend(short(0x0010, 0x0020, b"ZZ", b""));
    let mut map = KVMap::new();
    let r = map.deserialize(ByteReader::new(stream), &Filter::none());
    assert!(matches!(r, Err(DCKVError::UnsupportedVR(_))));
    assert_eq!(map.len(), 1);
}

#[test]
fn item_delimiter_at_the_top_level_ends_the_decode() {
    let mut stream = preamble();
    stream.extend(short(0x0010, 0x0010, b"PN", b"A"));
    stream.extend(item_delimiter());
    stream.extend(short(0x0010, 0x0020, b"LO", b"B"));
    let (log, r) = decode(stream);
    assert!(r.is_ok());
    assert_eq!(log.units.len(), 1);
}

#[test]
fn repeated_tag_overwrites_in_place() {
    let mut stream = preamble();
    stream.extend(short(0x0010, 0x0010, b"PN", b"A"));
    stream.extend(short(0x0010, 0x0020, b"LO", b"B"));
    stream.extend(short(0x0010, 0x0010, b"PN", b"C"));
    let mut map = KVMap::new();
    map.deserialize(ByteReader::new(stream), &Filter::none()).unwrap();
    assert_eq!(map.len(), 2);
    assert_eq!(map.get_index(0).unwrap().1, &b"C".to_vec());
    assert_eq!(map.get_index(1).unwrap().1, &b"B".to_vec());
}
