use date_schema::builder::MessageBuilder;
use date_schema::date::{Builder, Reader};
use date_schema::pointer::{Error, StructSize};
use date_schema::reader::StructReader;

fn segment(words: &[u64]) -> Vec<u8> {
    let mut s = Vec::new();
    for w in words {
        s.extend_from_slice(&w.to_le_bytes());
    }
    s
}

/// A root with two data words and three pointers: to B (a Date), to nothing, to C,
/// where C points to another Date.
fn graph() -> MessageBuilder {
    let mut msg = MessageBuilder::new();
    {
        let mut a = msg.init_root(StructSize { data: 2, pointers: 3 }).unwrap();
        a.set_u64(0, 0x1122_3344_5566_7788, 0);
        a.set_u16(8, 0xbeef, 0);
        {
            let mut b = Builder::init_pointer(&mut a, 0).unwrap();
            b.set_year(1999);
            b.set_month(12);
            b.set_day(31);
        }
        let mut c = a.init_struct_field(2, StructSize { data: 1, pointers: 1 }).unwrap();
        c.set_u32(4, 7, 0);
        let mut d = Builder::init_pointer(&mut c, 0).unwrap();
        d.set_year(2024);
    }
    msg
}

#[test]
fn deep_copy_reads_back_equal() {
    let src = graph();
    let mut dst = MessageBuilder::new();
    let src_root = src.get_root_as_reader(64).unwrap();
    dst.set_root(&src_root).unwrap();
    let a = dst.get_root_as_reader(64).unwrap();
    assert_eq!(a.get_u64(0, 0), 0x1122_3344_5566_7788);
    assert_eq!(a.get_u16(8, 0), 0xbeef);
    assert_eq!(a.pointer_count(), 3);
    let b = Reader::new(a.get_pointer_field(0).get_struct().unwrap());
    assert_eq!((b.get_year(), b.get_month(), b.get_day()), (1999, 12, 31));
    assert!(a.get_pointer_field(1).is_null());
    let c = a.get_pointer_field(2).get_struct().unwrap();
    assert_eq!(c.get_u32(4, 0), 7);
    let d = Reader::new(c.get_pointer_field(0).get_struct().unwrap());
    assert_eq!(d.get_year(), 2024);
    assert_eq!(a.total_size().unwrap(), src_root.total_size().unwrap());
}

#[test]
fn deep_copy_leaves_out_unreachable_data() {
    let mut src = MessageBuilder::new();
    {
        let mut a = src.init_root(StructSize { data: 0, pointers: 1 }).unwrap();
        let _old = a.init_struct_field(0, StructSize { data: 20, pointers: 0 }).unwrap();
        let mut b = Builder::init_pointer(&mut a, 0).unwrap();
        b.set_year(5);
    }
    let src_root = src.get_root_as_reader(64).unwrap();
    let mut dst = MessageBuilder::new();
    dst.set_root(&src_root).unwrap();
    assert_eq!(dst.get_root_as_reader(64).unwrap().total_size().unwrap().word_count, 2);
    assert_eq!(dst.segments()[0].len(), 8 * 3);
    assert!(src.segments()[0].len() > dst.segments()[0].len());
}

#[test]
fn copy_into_field_keeps_parent_data() {
    let src = graph();
    let src_root = src.get_root_as_reader(64).unwrap();
    let mut dst = MessageBuilder::new();
    {
        let mut holder = dst.init_root(StructSize { data: 1, pointers: 1 }).unwrap();
        holder.set_u8(0, 9, 0);
        holder.set_struct_field(0, &src_root).unwrap();
        assert_eq!(holder.get_u8(0, 0), 9);
    }
    let h = dst.get_root_as_reader(64).unwrap();
    let a = h.get_pointer_field(0).get_struct().unwrap();
    assert_eq!(a.get_u16(8, 0), 0xbeef);
}

#[test]
fn copy_of_malformed_source_fails() {
    let segs = vec![segment(&[
        date_schema::pointer::encode_struct(0, StructSize { data: 0, pointers: 1 }),
        1 | (3 << 32),
    ])];
    let root = StructReader::root(&segs, 64).unwrap();
    let mut dst = MessageBuilder::new();
    assert_eq!(dst.set_root(&root).err(), Some(Error::MalformedPointer));
}

#[test]
fn date_copies_into_fresh_message() {
    let mut src = MessageBuilder::new();
    {
        let mut b = Builder::init_root(&mut src).unwrap();
        b.set_year(2024);
        b.set_month(3);
        b.set_day(15);
    }
    let mut dst = MessageBuilder::new();
    dst.set_root(&src.get_root_as_reader(64).unwrap()).unwrap();
    let r = Reader::new(dst.get_root_as_reader(64).unwrap());
    assert_eq!((r.get_year(), r.get_month(), r.get_day()), (2024, 3, 15));
    assert_eq!(dst.segments()[0].len(), 16);
}

#[test]
fn copy_past_nesting_limit_fails() {
    let src = graph();
    let mut dst = MessageBuilder::new();
    let shallow = src.get_root_as_reader(2).unwrap();
    assert_eq!(dst.set_root(&shallow).err(), Some(Error::RecursionLimitExceeded));
}
