use date_schema::builder::MessageBuilder;
use date_schema::bytes::{read_u16, read_u32, read_u64, write_u16, write_u32, write_u64};
use date_schema::date::Reader;
use date_schema::pointer::{decode, encode_far, encode_struct, Error, StructSize, WirePointer};
use date_schema::reader::StructReader;

fn segment(words: &[u64]) -> Vec<u8> {
    let mut s = Vec::new();
    for w in words {
        s.extend_from_slice(&w.to_le_bytes());
    }
    s
}

#[test]
fn struct_pointer_encodes_exactly() {
    assert_eq!(encode_struct(0, StructSize { data: 1, pointers: 0 }), 1u64 << 32);
    assert_eq!(encode_struct(2, StructSize { data: 3, pointers: 4 }), (2 << 2) | (3 << 32) | (4 << 48));
    assert_eq!(encode_struct(-1, StructSize { data: 0, pointers: 0 }), 0x3fff_ffff << 2);
}

#[test]
fn struct_pointer_decodes_back() {
    for &(off, d, p) in &[(0i32, 1u16, 0u16), (-5, 2, 3), (0x1fff_ffff, 0xffff, 0xffff), (-0x2000_0000, 0, 1)] {
        let w = encode_struct(off, StructSize { data: d, pointers: p });
        assert_eq!(decode(w), WirePointer::Struct { offset: off, data: d, pointers: p });
    }
    assert_eq!(decode(0), WirePointer::Null);
}

#[test]
fn other_pointer_kinds_decode() {
    assert_eq!(decode(encode_far(7, 2)), WirePointer::Far { double: false, pad: 7, segment: 2 });
    assert_eq!(decode(0x0000_0003_0000_0005 | 4), WirePointer::List { raw: 0x0000_0003_0000_0005 | 4 });
    assert_eq!(decode(3 | (9u64 << 32)), WirePointer::Capability { index: 9 });
    assert_eq!(decode(2 | 4 | (5 << 3) | (1u64 << 32)), WirePointer::Far { double: true, pad: 5, segment: 1 });
}

#[test]
fn little_endian_integers() {
    let mut s = vec![0u8; 16];
    write_u16(&mut s, 1, 0x1234);
    assert_eq!(&s[0..4], &[0, 0x34, 0x12, 0][..]);
    assert_eq!(read_u16(&s, 1), 0x1234);
    write_u32(&mut s, 4, 0xdead_beef);
    assert_eq!(&s[4..8], &[0xef, 0xbe, 0xad, 0xde][..]);
    assert_eq!(read_u32(&s, 4), 0xdead_beef);
    write_u64(&mut s, 8, 0x0102_0304_0506_0708);
    assert_eq!(&s[8..16], &[8, 7, 6, 5, 4, 3, 2, 1][..]);
    assert_eq!(read_u64(&s, 8), 0x0102_0304_0506_0708);
}

#[test]
fn shorter_struct_reads_defaults() {
    // A root written against a layout with no data words.
    let segs = vec![segment(&[encode_struct(-1, StructSize { data: 0, pointers: 0 })])];
    let root = StructReader::root(&segs, 64).unwrap();
    assert_eq!(root.data_size(), 0);
    let d = Reader::new(root);
    assert_eq!((d.get_year(), d.get_month(), d.get_day()), (0, 0, 0));
    assert_eq!(root.get_u16(0, 1999), 1999);
    assert_eq!(root.get_u8(3, 7), 7);
    assert_eq!(root.get_u64(8, 5), 5);
}

#[test]
fn missing_second_word_reads_default() {
    let segs = vec![segment(&[encode_struct(0, StructSize { data: 1, pointers: 0 }), 0x0000_0000_0000_0102])];
    let root = StructReader::root(&segs, 64).unwrap();
    assert_eq!(root.get_u16(0, 0), 0x0102);
    assert_eq!(root.get_u32(8, 0xabcd), 0xabcd);
    assert_eq!(root.get_u16(7, 0x55), 0x55);
}

#[test]
fn defaults_are_xor_masks() {
    let segs = vec![segment(&[encode_struct(0, StructSize { data: 1, pointers: 0 }), 0])];
    let root = StructReader::root(&segs, 64).unwrap();
    assert_eq!(root.get_u16(0, 0x1234), 0x1234);
    let mut msg = MessageBuilder::new();
    let mut b = msg.init_root(StructSize { data: 1, pointers: 0 }).unwrap();
    b.set_u32(0, 77, 77);
    assert_eq!(b.get_u32(0, 0), 0);
    assert_eq!(b.get_u32(0, 77), 77);
    b.set_u64(0, 5, 0);
    assert_eq!(b.get_u64(0, 0), 5);
}

#[test]
fn pointer_past_segment_is_bounds_violation() {
    let segs = vec![segment(&[encode_struct(3, StructSize { data: 1, pointers: 0 }), 0])];
    assert_eq!(StructReader::root(&segs, 64).err(), Some(Error::BoundsViolation));
    let segs = vec![segment(&[encode_struct(-2, StructSize { data: 1, pointers: 0 })])];
    assert_eq!(StructReader::root(&segs, 64).err(), Some(Error::BoundsViolation));
    let segs = vec![segment(&[encode_struct(0, StructSize { data: 1, pointers: 1 }), 0])];
    assert_eq!(StructReader::root(&segs, 64).err(), Some(Error::BoundsViolation));
}

#[test]
fn far_pointer_to_missing_segment_is_bounds_violation() {
    let segs = vec![segment(&[encode_far(0, 1)])];
    assert_eq!(StructReader::root(&segs, 64).err(), Some(Error::BoundsViolation));
    let segs = vec![segment(&[encode_far(4, 0)])];
    assert_eq!(StructReader::root(&segs, 64).err(), Some(Error::BoundsViolation));
}

#[test]
fn empty_message_is_bounds_violation() {
    let segs: Vec<Vec<u8>> = Vec::new();
    assert_eq!(StructReader::root(&segs, 64).err(), Some(Error::BoundsViolation));
}

#[test]
fn far_pointer_reaches_other_segment() {
    let date = 2024u64 | (3 << 16) | (15 << 24);
    let segs = vec![
        segment(&[encode_far(1, 1)]),
        segment(&[0, encode_struct(0, StructSize { data: 1, pointers: 0 }), date]),
    ];
    let d = Reader::new(StructReader::root(&segs, 64).unwrap());
    assert_eq!((d.get_year(), d.get_month(), d.get_day()), (2024, 3, 15));
}

#[test]
fn double_far_pointer_reaches_content() {
    let date = 1999u64;
    let pad_tag = encode_struct(0, StructSize { data: 1, pointers: 0 });
    let segs = vec![
        segment(&[2 | 4 | (0 << 3) | (1u64 << 32)]),
        segment(&[encode_far(0, 2), pad_tag]),
        segment(&[date]),
    ];
    let d = Reader::new(StructReader::root(&segs, 64).unwrap());
    assert_eq!(d.get_year(), 1999);
}

#[test]
fn far_chain_is_malformed() {
    let segs = vec![segment(&[encode_far(0, 1)]), segment(&[encode_far(0, 0)])];
    assert_eq!(StructReader::root(&segs, 64).err(), Some(Error::MalformedPointer));
}

#[test]
fn list_pointer_as_struct_is_malformed() {
    let segs = vec![segment(&[1 | (5 << 32), 0])];
    assert_eq!(StructReader::root(&segs, 64).err(), Some(Error::MalformedPointer));
}

#[test]
fn nesting_limit_stops_reading() {
    let segs = vec![segment(&[encode_struct(0, StructSize { data: 1, pointers: 0 }), 0])];
    assert_eq!(StructReader::root(&segs, 0).err(), Some(Error::RecursionLimitExceeded));
    let null = vec![segment(&[0])];
    let r = StructReader::root(&null, 0).unwrap();
    assert_eq!(r.data_size(), 0);
}

#[test]
fn pointer_slots_past_the_end_are_null() {
    let segs = vec![segment(&[encode_struct(0, StructSize { data: 0, pointers: 1 }), 0])];
    let root = StructReader::root(&segs, 64).unwrap();
    assert!(root.get_pointer_field(0).is_null());
    assert!(root.get_pointer_field(5).is_null());
    assert_eq!(root.get_pointer_field(5).get_struct().unwrap().data_size(), 0);
}

#[test]
fn total_size_counts_reachable_structs() {
    let mut msg = MessageBuilder::new();
    {
        let mut root = msg.init_root(StructSize { data: 1, pointers: 2 }).unwrap();
        let mut child = root.init_struct_field(0, StructSize { data: 2, pointers: 1 }).unwrap();
        child.set_u16(0, 1, 0);
        let _grandchild = child.init_struct_field(0, StructSize { data: 1, pointers: 0 }).unwrap();
        let _other = root.init_struct_field(1, StructSize { data: 3, pointers: 0 }).unwrap();
    }
    let r = msg.get_root_as_reader(64).unwrap();
    assert_eq!(r.total_size().unwrap().word_count, 3 + 3 + 1 + 3);
    let shallow = msg.get_root_as_reader(1).unwrap();
    assert_eq!(shallow.total_size().err(), Some(Error::RecursionLimitExceeded));
}

#[test]
fn reinitialized_field_drops_old_struct_from_size() {
    let mut msg = MessageBuilder::new();
    {
        let mut root = msg.init_root(StructSize { data: 0, pointers: 1 }).unwrap();
        let _big = root.init_struct_field(0, StructSize { data: 10, pointers: 0 }).unwrap();
        let _small = root.init_struct_field(0, StructSize { data: 1, pointers: 0 }).unwrap();
    }
    let r = msg.get_root_as_reader(64).unwrap();
    assert_eq!(r.total_size().unwrap().word_count, 1 + 1);
    assert_eq!(msg.segments()[0].len(), 8 * (1 + 1 + 10 + 1));
}

#[test]
fn total_size_reports_bad_pointer() {
    let segs = vec![segment(&[encode_struct(0, StructSize { data: 0, pointers: 1 }), encode_struct(9, StructSize { data: 1, pointers: 0 })])];
    let r = StructReader::root(&segs, 64).unwrap();
    assert_eq!(r.total_size().err(), Some(Error::BoundsViolation));
}

#[test]
fn empty_struct_pointer_is_not_null() {
    let mut msg = MessageBuilder::new();
    {
        let _e = msg.init_root(StructSize { data: 0, pointers: 0 }).unwrap();
    }
    let seg = &msg.segments()[0];
    assert_eq!(read_u64(seg, 0), encode_struct(-1, StructSize { data: 0, pointers: 0 }));
    let r = msg.get_root_as_reader(64).unwrap();
    assert_eq!(r.total_size().unwrap().word_count, 0);
}

#[test]
fn total_size_counts_capabilities() {
    let date = 2024u64;
    let segs = vec![segment(&[
        encode_struct(0, StructSize { data: 0, pointers: 2 }),
        3 | (5u64 << 32),
        encode_struct(0, StructSize { data: 1, pointers: 0 }),
        date,
    ])];
    let r = StructReader::root(&segs, 64).unwrap();
    let s = r.total_size().unwrap();
    assert_eq!(s.word_count, 2 + 1);
    assert_eq!(s.cap_count, 1);
}

#[test]
fn total_size_of_date_has_no_capabilities() {
    let mut msg = MessageBuilder::new();
    {
        let _b = date_schema::date::Builder::init_root(&mut msg).unwrap();
    }
    let s = msg.get_root_as_reader(64).unwrap().total_size().unwrap();
    assert_eq!((s.word_count, s.cap_count), (1, 0));
}
