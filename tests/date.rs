use date_schema::builder::MessageBuilder;
use date_schema::date::{expect_type_id, struct_size, type_id, Builder, Reader, TYPE_ID};
use date_schema::pointer::{Error, StructSize};

#[test]
fn date_fields_round_trip() {
    let mut msg = MessageBuilder::new();
    {
        let mut b = Builder::init_root(&mut msg).unwrap();
        b.set_year(2024);
        b.set_month(3);
        b.set_day(15);
        let r = b.borrow_as_reader();
        assert_eq!((r.get_year(), r.get_month(), r.get_day()), (2024, 3, 15));
    }
    let root = msg.get_root_as_reader(64).unwrap();
    let r = Reader::new(root);
    assert_eq!(r.get_year(), 2024);
    assert_eq!(r.get_month(), 3);
    assert_eq!(r.get_day(), 15);
}

#[test]
fn untouched_fields_read_zero() {
    let mut msg = MessageBuilder::new();
    let mut b = Builder::init_root(&mut msg).unwrap();
    b.set_year(2024);
    assert_eq!(b.borrow().get_month(), 0);
    assert_eq!(b.borrow().get_day(), 0);
    assert_eq!(b.get_year(), 2024);
}

#[test]
fn negative_values_keep_their_sign() {
    let mut msg = MessageBuilder::new();
    let mut b = Builder::init_root(&mut msg).unwrap();
    b.set_year(-300);
    b.set_month(-1);
    b.set_day(i8::MIN);
    let r = b.as_reader();
    assert_eq!(r.get_year(), -300);
    assert_eq!(r.get_month(), -1);
    assert_eq!(r.get_day(), i8::MIN);
}

#[test]
fn date_is_little_endian_on_the_wire() {
    let mut msg = MessageBuilder::new();
    {
        let mut b = Builder::init_root(&mut msg).unwrap();
        b.set_year(2024);
        b.set_month(3);
        b.set_day(15);
    }
    let seg = &msg.segments()[0];
    assert_eq!(seg.len(), 16);
    // root pointer: struct, offset 0, one data word, no pointers
    assert_eq!(&seg[0..8], &(1u64 << 32).to_le_bytes()[..]);
    assert_eq!(&seg[8..16], &[0xe8, 0x07, 3, 15, 0, 0, 0, 0][..]);
}

#[test]
fn date_layout_and_type_id() {
    assert_eq!(struct_size(), StructSize { data: 1, pointers: 0 });
    assert_eq!(type_id(), 0xd9cc_ffea_5a9c_f423);
    assert_eq!(TYPE_ID, type_id());
}

#[test]
fn date_total_size_is_one_word() {
    let mut msg = MessageBuilder::new();
    let b = Builder::init_root(&mut msg).unwrap();
    assert_eq!(b.total_size().unwrap().word_count, 1);
    let r = b.as_reader();
    assert_eq!(r.borrow().total_size().unwrap().word_count, 1);
}

#[test]
fn type_id_check() {
    assert_eq!(expect_type_id(0xd9cc_ffea_5a9c_f423), Ok(()));
    assert_eq!(expect_type_id(0xd9cc_ffea_5a9c_f424), Err(Error::TypeMismatch));
}

#[test]
fn borrowed_builder_writes_are_visible() {
    let mut msg = MessageBuilder::new();
    let mut b = Builder::init_root(&mut msg).unwrap();
    {
        let mut bb = b.borrow();
        bb.set_year(77);
        bb.set_day(4);
    }
    assert_eq!(b.borrow().get_year(), 77);
    assert_eq!(b.borrow().get_day(), 4);
    assert_eq!(b.total_size().unwrap().word_count, 1);
}

#[test]
fn setters_leave_pointer_section_alone() {
    let mut msg = MessageBuilder::new();
    {
        let mut root = msg.init_root(StructSize { data: 1, pointers: 1 }).unwrap();
        let mut d = Builder::init_pointer(&mut root, 0).unwrap();
        d.set_year(5);
    }
    let before = msg.segments()[0].clone();
    {
        let root = msg.get_root_as_reader(64).unwrap();
        assert_eq!(root.get_u64(0, 0), 0);
    }
    let after = {
        let mut m2 = MessageBuilder::new();
        m2.set_root(&msg.get_root_as_reader(64).unwrap()).unwrap();
        let mut root = m2.init_root(StructSize { data: 1, pointers: 0 }).unwrap();
        root.set_u64(0, 9, 0);
        m2.segments()[0].clone()
    };
    assert_eq!(&after[8..24], &before[8..24]);
    let mut b = Builder::init_root(&mut msg).unwrap();
    b.set_year(1);
    assert_eq!(&msg.segments()[0][8..32], &before[8..32]);
}

#[test]
fn get_from_pointer_opens_null_slot() {
    let mut msg = MessageBuilder::new();
    let mut root = msg.init_root(StructSize { data: 0, pointers: 1 }).unwrap();
    {
        let mut d = Builder::get_from_pointer(&mut root, 0).unwrap();
        assert_eq!(d.borrow().get_year(), 0);
        d.set_year(2024);
        d.set_month(3);
        d.set_day(15);
    }
    let d = Builder::get_from_pointer(&mut root, 0).unwrap();
    let r = d.as_reader();
    assert_eq!((r.get_year(), r.get_month(), r.get_day()), (2024, 3, 15));
}

#[test]
fn get_from_pointer_keeps_larger_struct_in_place() {
    let mut msg = MessageBuilder::new();
    let mut root = msg.init_root(StructSize { data: 0, pointers: 1 }).unwrap();
    {
        let mut big = root.init_struct_field(0, StructSize { data: 2, pointers: 1 }).unwrap();
        big.set_u16(0, 1999, 0);
        big.set_u64(8, 42, 0);
    }
    let d = Builder::get_from_pointer(&mut root, 0).unwrap();
    assert_eq!(d.borrow_as_reader().get_year(), 1999);
    assert_eq!(d.builder.loc.ptr_count, 1);
    drop(d);
    assert_eq!(root.borrow_as_reader().get_pointer_field(0).get_struct().unwrap().get_u64(8, 0), 42);
}

#[test]
fn get_from_pointer_upgrades_smaller_struct() {
    let mut msg = MessageBuilder::new();
    let mut root = msg.init_root(StructSize { data: 0, pointers: 1 }).unwrap();
    {
        let _empty = root.init_struct_field(0, StructSize { data: 0, pointers: 0 }).unwrap();
    }
    let mut d = Builder::get_from_pointer(&mut root, 0).unwrap();
    assert_eq!(d.borrow().get_year(), 0);
    d.set_year(12);
    drop(d);
    let r = Reader::new(root.borrow_as_reader().get_pointer_field(0).get_struct().unwrap());
    assert_eq!(r.get_year(), 12);
}

#[test]
fn get_from_pointer_moves_pointer_slots() {
    let mut msg = MessageBuilder::new();
    let mut root = msg.init_root(StructSize { data: 0, pointers: 1 }).unwrap();
    {
        let mut old = root.init_struct_field(0, StructSize { data: 0, pointers: 1 }).unwrap();
        let mut inner = Builder::init_pointer(&mut old, 0).unwrap();
        inner.set_year(7);
    }
    {
        let mut d = Builder::get_from_pointer(&mut root, 0).unwrap();
        assert_eq!(d.builder.loc.ptr_count, 1);
        assert_eq!(d.borrow().get_year(), 0);
        d.set_year(3);
    }
    let moved = root.borrow_as_reader().get_pointer_field(0).get_struct().unwrap();
    assert_eq!(Reader::new(moved).get_year(), 3);
    let inner = Reader::new(moved.get_pointer_field(0).get_struct().unwrap());
    assert_eq!(inner.get_year(), 7);
}
