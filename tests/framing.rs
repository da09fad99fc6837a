use date_schema::date::Reader;
use date_schema::framing::parse_segments;
use date_schema::pointer::{encode_far, encode_struct, Error, StructSize};
use date_schema::reader::StructReader;

fn words(ws: &[u64]) -> Vec<u8> {
    let mut s = Vec::new();
    for w in ws {
        s.extend_from_slice(&w.to_le_bytes());
    }
    s
}

#[test]
fn one_segment_message() {
    let mut b = vec![0, 0, 0, 0, 2, 0, 0, 0];
    b.extend(words(&[encode_struct(0, StructSize { data: 1, pointers: 0 }), 2024 | (3 << 16) | (15 << 24)]));
    let segs = parse_segments(&b).unwrap();
    assert_eq!(segs.len(), 1);
    assert_eq!(segs[0].len(), 16);
    let d = Reader::new(StructReader::root(&segs, 64).unwrap());
    assert_eq!((d.get_year(), d.get_month(), d.get_day()), (2024, 3, 15));
}

#[test]
fn two_segment_message_with_padding() {
    let mut b = vec![1, 0, 0, 0, 1, 0, 0, 0, 2, 0, 0, 0, 0, 0, 0, 0];
    b.extend(words(&[encode_far(0, 1)]));
    b.extend(words(&[encode_struct(0, StructSize { data: 1, pointers: 0 }), 1999]));
    let segs = parse_segments(&b).unwrap();
    assert_eq!(segs.len(), 2);
    assert_eq!(segs[0].len(), 8);
    assert_eq!(segs[1].len(), 16);
    let d = Reader::new(StructReader::root(&segs, 64).unwrap());
    assert_eq!(d.get_year(), 1999);
}

#[test]
fn truncated_message_is_rejected() {
    let mut b = vec![0, 0, 0, 0, 3, 0, 0, 0];
    b.extend(words(&[0, 0]));
    assert_eq!(parse_segments(&b).err(), Some(Error::BoundsViolation));
    assert_eq!(parse_segments(&vec![0, 0, 0]).err(), Some(Error::BoundsViolation));
    assert_eq!(parse_segments(&vec![5, 0, 0, 0, 1, 0, 0, 0]).err(), Some(Error::BoundsViolation));
}

#[test]
fn trailing_bytes_are_rejected() {
    let mut b = vec![0, 0, 0, 0, 1, 0, 0, 0];
    b.extend(words(&[0, 0]));
    assert_eq!(parse_segments(&b).err(), Some(Error::BoundsViolation));
}

#[test]
fn empty_segment_is_allowed() {
    let b = vec![0, 0, 0, 0, 0, 0, 0, 0];
    let segs = parse_segments(&b).unwrap();
    assert_eq!(segs, vec![Vec::<u8>::new()]);
    assert_eq!(StructReader::root(&segs, 64).err(), Some(Error::BoundsViolation));
}
