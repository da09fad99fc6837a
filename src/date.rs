use vstd::prelude::*;
use crate::builder::{covering, moved_slot, fresh_loc, zeros, MessageBuilder, StructBuilder, MAX_BUILDER_BYTES, READER_LIMIT};
use crate::bytes::{bytes16, field16, field8, splice};
use crate::pipeline::{Call, Pipeline as TypelessPipeline};
use crate::pointer::{Error, StructSize};
use crate::reader::{Loc, PointerReader, StructReader};
use crate::size::MessageSize;

verus! {

/// The identifier of the `Date` struct type.
pub const TYPE_ID: u64 = 0xd9cc_ffea_5a9c_f423;

/// Words of data in a `Date`: year at byte 0, month at byte 2, day at byte 3.
pub const DATA_WORDS: u16 = 1;

/// Pointer slots in a `Date`.
pub const POINTERS: u16 = 0;

pub open spec fn year_of(d: Seq<u8>) -> i16 {
    field16(d, 0, 0) as i16
}

pub open spec fn month_of(d: Seq<u8>) -> i8 {
    field8(d, 2, 0) as i8
}

pub open spec fn day_of(d: Seq<u8>) -> i8 {
    field8(d, 3, 0) as i8
}

/// The layout of a `Date`.
pub fn struct_size() -> (r: StructSize)
    ensures
        r == (StructSize { data: DATA_WORDS, pointers: POINTERS }),
{
    StructSize { data: DATA_WORDS, pointers: POINTERS }
}

pub fn type_id() -> (r: u64)
    ensures
        r == TYPE_ID,
{
    TYPE_ID
}

/// Accepts a value whose type identifier says it is a `Date`.
pub fn expect_type_id(id: u64) -> (r: Result<(), Error>)
    ensures
        id == TYPE_ID <==> r is Ok,
        r is Err ==> r == Err::<(), Error>(Error::TypeMismatch),
{
    if id == TYPE_ID {
        Ok(())
    } else {
        Err(Error::TypeMismatch)
    }
}

/// Names the `Date` type as a whole.
pub struct Owned;

/// A read-only `Date`.
#[derive(Clone, Copy)]
pub struct Reader<'a> {
    pub reader: StructReader<'a>,
}

/// A `Date` under construction.
pub struct Builder<'a> {
    pub builder: StructBuilder<'a>,
}

/// A `Date` inside the result of a call that may not have arrived.
pub struct Pipeline {
    pub typeless: TypelessPipeline,
}

proof fn lemma_cast16(v: i16)
    ensures
        ((v as u16) as i16) == v,
{
    assert(((v as u16) as i16) == v) by (bit_vector);
}

proof fn lemma_cast8(v: i8)
    ensures
        ((v as u8) as i8) == v,
{
    assert(((v as u8) as i8) == v) by (bit_vector);
}

proof fn lemma_xor_zero16(x: u16)
    ensures
        x ^ 0 == x,
{
    assert(x ^ 0 == x) by (bit_vector);
}

proof fn lemma_xor_zero8(x: u8)
    ensures
        x ^ 0 == x,
{
    assert(x ^ 0 == x) by (bit_vector);
}

impl<'a> Reader<'a> {
    pub open spec fn wf(&self) -> bool {
        self.reader.wf()
    }

    pub fn new(reader: StructReader<'a>) -> (r: Reader<'a>)
        ensures
            r.reader == reader,
    {
        Reader { reader }
    }

    /// Reads the `Date` that a pointer slot leads to.
    pub fn get_from_pointer(p: &PointerReader<'a>) -> (r: Result<Reader<'a>, Error>)
        requires
            p.wf(),
        ensures
            (match r {
                Ok(d) => Ok(d.reader.loc),
                Err(e) => Err(e),
            }) == p.struct_spec(),
            r matches Ok(d) ==> d.wf() && d.reader.segments == p.segments && d.reader.nesting_limit
                == crate::reader::child_limit(p.nesting_limit),
    {
        match p.get_struct() {
            Ok(s) => Ok(Reader { reader: s }),
            Err(e) => Err(e),
        }
    }

    pub fn borrow(&self) -> (r: Reader<'_>)
        ensures
            r.reader == self.reader,
    {
        Reader { reader: self.reader }
    }

    pub fn total_size(&self) -> (r: Result<MessageSize, Error>)
        requires
            self.wf(),
        ensures
            (match r {
                Ok(s) => Ok((s.word_count, s.cap_count)),
                Err(e) => Err(e),
            }) == crate::size::saturated_size(
                crate::size::size_of(self.reader.segments@, self.reader.loc, self.reader.nesting_limit as nat),
            ),
    {
        self.reader.total_size()
    }

    pub fn get_year(self) -> (r: i16)
        requires
            self.wf(),
        ensures
            r == year_of(self.reader.data()),
    {
        self.reader.get_u16(0, 0) as i16
    }

    pub fn get_month(self) -> (r: i8)
        requires
            self.wf(),
        ensures
            r == month_of(self.reader.data()),
    {
        self.reader.get_u8(2, 0) as i8
    }

    pub fn get_day(self) -> (r: i8)
        requires
            self.wf(),
        ensures
            r == day_of(self.reader.data()),
    {
        self.reader.get_u8(3, 0) as i8
    }
}

impl<'a> Builder<'a> {
    pub open spec fn wf(&self) -> bool {
        self.builder.wf() && self.builder.data().len() >= 8 * DATA_WORDS
    }

    pub open spec fn data(&self) -> Seq<u8> {
        self.builder.data()
    }

    pub fn new(builder: StructBuilder<'a>) -> (r: Builder<'a>)
        requires
            builder.wf(),
            builder.data().len() >= 8 * DATA_WORDS,
        ensures
            r.wf(),
            r.builder.loc == builder.loc,
            r.data() == builder.data(),
    {
        Builder { builder }
    }

    /// Makes a fresh `Date`, all fields zero, the root of `message`.
    pub fn init_root(message: &mut MessageBuilder) -> (r: Result<Builder<'_>, Error>)
        requires
            old(message).wf(),
        ensures
            old(message).segments@[0]@.len() + 8 * DATA_WORDS > MAX_BUILDER_BYTES <==> r is Err,
            r is Err ==> r == Err::<Builder, Error>(Error::CapacityExceeded),
            r matches Ok(b) ==> b.wf() && b.data() == zeros(8 * DATA_WORDS) && b.builder.loc == fresh_loc(
                0,
                old(message).segments@[0]@.len() as int,
                StructSize { data: DATA_WORDS, pointers: POINTERS },
            ) && crate::reader::follow_spec(b.builder.msg(), 0, 0) == Ok::<Loc, Error>(b.builder.loc),
            r matches Ok(b) ==> final(message).segments == *final(b.builder.segments),
    {
        match message.init_root(struct_size()) {
            Ok(b) => Ok(Builder { builder: b }),
            Err(e) => Err(e),
        }
    }

    /// Makes a fresh `Date`, all fields zero, in pointer slot `index` of `parent`.
    pub fn init_pointer<'b>(parent: &'b mut StructBuilder<'a>, index: usize) -> (r: Result<Builder<'b>, Error>)
        requires
            old(parent).wf(),
            index < old(parent).loc.ptr_count,
        ensures
            old(parent).segments@[0]@.len() + 8 * DATA_WORDS > MAX_BUILDER_BYTES <==> r is Err,
            r is Err ==> r == Err::<Builder, Error>(Error::CapacityExceeded),
            r matches Ok(b) ==> b.wf() && b.data() == zeros(8 * DATA_WORDS) && b.builder.loc == fresh_loc(
                old(parent).loc.ptr_pos + 8 * index,
                old(parent).segments@[0]@.len() as int,
                StructSize { data: DATA_WORDS, pointers: POINTERS },
            ) && crate::reader::follow_spec(b.builder.msg(), 0, old(parent).loc.ptr_pos + 8 * index)
                == Ok::<Loc, Error>(b.builder.loc),
            r matches Ok(b) ==> final(parent).loc == old(parent).loc && *final(parent).segments == *final(b.builder.segments),
    {
        match parent.init_struct_field(index, struct_size()) {
            Ok(b) => Ok(Builder { builder: b }),
            Err(e) => Err(e),
        }
    }

    /// Opens the `Date` that pointer slot `index` of `parent` leads to for writing: a
    /// null slot gets a fresh zeroed `Date`; a struct at least as large as a `Date` is
    /// opened where it lies; a smaller one is moved to a fresh struct covering
    /// a `Date`, its data kept at the front and its pointer slots moved.
    pub fn get_from_pointer<'b>(parent: &'b mut StructBuilder<'a>, index: usize) -> (r: Result<Builder<'b>, Error>)
        requires
            old(parent).wf(),
            index < old(parent).loc.ptr_count,
        ensures
            old(parent).slot_word(index) == 0 ==> (old(parent).segments@[0]@.len() + 8 * DATA_WORDS
                <= MAX_BUILDER_BYTES <==> r is Ok),
            old(parent).slot_word(index) == 0 && r is Err ==> r == Err::<Builder, Error>(Error::CapacityExceeded),
            old(parent).slot_word(index) != 0 && old(parent).slot_target(index) is Err ==> (match r {
                Ok(b) => Ok(b.builder.loc),
                Err(e) => Err(e),
            }) == old(parent).slot_target(index),
            old(parent).slot_word(index) != 0 && old(parent).slot_target(index) is Ok && 8 * DATA_WORDS
                <= old(parent).slot_target(index)->Ok_0.data_size ==> r is Ok && r->Ok_0.builder.loc == old(
                parent,
            ).slot_target(index)->Ok_0 && r->Ok_0.builder.segments@ == old(parent).segments@,
            r matches Ok(b) ==> b.wf() && crate::reader::follow_spec(b.builder.msg(), 0, old(parent).loc.ptr_pos + 8 * index)
                == Ok::<Loc, Error>(b.builder.loc),
            r matches Ok(b) ==> final(parent).loc == old(parent).loc && *final(parent).segments == *final(b.builder.segments),
            old(parent).slot_word(index) == 0 && r is Ok ==> r->Ok_0.builder.loc == fresh_loc(
                old(parent).loc.ptr_pos + 8 * index,
                old(parent).segments@[0]@.len() as int,
                StructSize { data: DATA_WORDS, pointers: POINTERS },
            ) && r->Ok_0.data() == zeros(8 * DATA_WORDS),
            ({
                let l = old(parent).slot_target(index)->Ok_0;
                let slot = old(parent).loc.ptr_pos + 8 * index;
                let grown = covering(l, StructSize { data: DATA_WORDS, pointers: POINTERS });
                old(parent).slot_word(index) != 0 && old(parent).slot_target(index) is Ok && l.data_size < 8 * DATA_WORDS
                    ==> {
                    &&& (l.ptr_pos <= slot < l.ptr_pos + 8 * l.ptr_count) ==> r == Err::<Builder, Error>(
                        Error::MalformedPointer,
                    )
                    &&& (!(l.ptr_pos <= slot < l.ptr_pos + 8 * l.ptr_count) && old(parent).segments@[0]@.len() + 8
                        * grown.words() <= MAX_BUILDER_BYTES) ==> r is Ok
                    &&& (!(l.ptr_pos <= slot < l.ptr_pos + 8 * l.ptr_count) && old(parent).segments@[0]@.len() + 8
                        * grown.words() > MAX_BUILDER_BYTES) ==> r == Err::<Builder, Error>(Error::CapacityExceeded)
                    &&& r is Ok ==> r->Ok_0.builder.loc.ptr_count == l.ptr_count && r->Ok_0.data() == crate::reader::data_of(
                        old(parent).segments@,
                        l,
                    ) + zeros(8 * DATA_WORDS - l.data_size) && forall|k: int|
                        0 <= k < l.ptr_count ==> #[trigger] moved_slot(
                            old(parent).segments@,
                            r->Ok_0.builder.msg(),
                            crate::copy::slot_of(l, k),
                            crate::copy::slot_of(r->Ok_0.builder.loc, k),
                        )
                }
            }),
            r is Ok && old(parent).slot_word(index) != 0 ==> old(parent).slot_target(index) is Ok && crate::reader::data_of(
                old(parent).segments@,
                old(parent).slot_target(index)->Ok_0,
            ) == r->Ok_0.data().subrange(0, old(parent).slot_target(index)->Ok_0.data_size as int),
    {
        match parent.get_struct_field(index, struct_size()) {
            Ok(b) => Ok(Builder { builder: b }),
            Err(e) => Err(e),
        }
    }

    pub fn as_reader(self) -> (r: Reader<'a>)
        requires
            self.wf(),
        ensures
            r.wf(),
            r.reader.data() == self.data(),
            r.reader.loc == self.builder.loc,
            r.reader.segments@ == self.builder.msg(),
            r.reader.nesting_limit == READER_LIMIT,
    {
        Reader { reader: self.builder.as_reader() }
    }

    pub fn borrow(&mut self) -> (r: Builder<'_>)
        requires
            old(self).wf(),
        ensures
            r.wf(),
            r.data() == old(self).data(),
            r.builder.loc == old(self).builder.loc,
            *r.builder.segments == *old(self).builder.segments,
            final(self).builder.loc == old(self).builder.loc,
            *final(self).builder.segments == *final(r.builder.segments),
    {
        Builder { builder: self.builder.reborrow() }
    }

    pub fn borrow_as_reader(&self) -> (r: Reader<'_>)
        requires
            self.wf(),
        ensures
            r.wf(),
            r.reader.data() == self.data(),
            r.reader.loc == self.builder.loc,
            r.reader.segments@ == self.builder.msg(),
            r.reader.nesting_limit == READER_LIMIT,
    {
        Reader { reader: self.builder.borrow_as_reader() }
    }

    pub fn total_size(&self) -> (r: Result<MessageSize, Error>)
        requires
            self.wf(),
        ensures
            (match r {
                Ok(s) => Ok((s.word_count, s.cap_count)),
                Err(e) => Err(e),
            }) == crate::size::saturated_size(self.builder.reachable_size()),
    {
        self.builder.borrow_as_reader().total_size()
    }

    pub fn get_year(self) -> (r: i16)
        requires
            self.wf(),
        ensures
            r == year_of(self.data()),
    {
        self.builder.get_u16(0, 0) as i16
    }

    pub fn set_year(&mut self, value: i16)
        requires
            old(self).wf(),
        ensures
            final(self).wf(),
            final(self).builder.loc == old(self).builder.loc,
            final(self).data() == splice(old(self).data(), 0, bytes16(value as u16)),
            final(self).builder.msg().len() == 1,
            final(self).builder.msg()[0]@ == splice(old(self).builder.msg()[0]@, old(self).builder.loc.data_pos as int, bytes16(value as u16)),
            year_of(final(self).data()) == value,
            month_of(final(self).data()) == month_of(old(self).data()),
            day_of(final(self).data()) == day_of(old(self).data()),
    {
        proof {
            lemma_xor_zero16(value as u16);
            lemma_cast16(value);
            crate::laws::lemma_round_trip_u16(self.data(), 0, value as u16, 0);
        }
        self.builder.set_u16(0, value as u16, 0);
    }

    pub fn get_month(self) -> (r: i8)
        requires
            self.wf(),
        ensures
            r == month_of(self.data()),
    {
        self.builder.get_u8(2, 0) as i8
    }

    pub fn set_month(&mut self, value: i8)
        requires
            old(self).wf(),
        ensures
            final(self).wf(),
            final(self).builder.loc == old(self).builder.loc,
            final(self).data() == old(self).data().update(2, value as u8),
            final(self).builder.msg().len() == 1,
            final(self).builder.msg()[0]@ == old(self).builder.msg()[0]@.update(old(self).builder.loc.data_pos + 2, value as u8),
            year_of(final(self).data()) == year_of(old(self).data()),
            month_of(final(self).data()) == value,
            day_of(final(self).data()) == day_of(old(self).data()),
    {
        proof {
            lemma_xor_zero8(value as u8);
            lemma_cast8(value);
        }
        self.builder.set_u8(2, value as u8, 0);
    }

    pub fn get_day(self) -> (r: i8)
        requires
            self.wf(),
        ensures
            r == day_of(self.data()),
    {
        self.builder.get_u8(3, 0) as i8
    }

    pub fn set_day(&mut self, value: i8)
        requires
            old(self).wf(),
        ensures
            final(self).wf(),
            final(self).builder.loc == old(self).builder.loc,
            final(self).data() == old(self).data().update(3, value as u8),
            final(self).builder.msg().len() == 1,
            final(self).builder.msg()[0]@ == old(self).builder.msg()[0]@.update(old(self).builder.loc.data_pos + 3, value as u8),
            year_of(final(self).data()) == year_of(old(self).data()),
            month_of(final(self).data()) == month_of(old(self).data()),
            day_of(final(self).data()) == value,
    {
        proof {
            lemma_xor_zero8(value as u8);
            lemma_cast8(value);
        }
        self.builder.set_u8(3, value as u8, 0);
    }
}

impl Pipeline {
    pub fn new(typeless: TypelessPipeline) -> (r: Pipeline)
        ensures
            r.typeless == typeless,
    {
        Pipeline { typeless }
    }

    /// The `Date` this pipeline stands for, once `call` has its result: `None` while it
    /// is pending or where the pipeline belongs to another call.
    pub fn get<'a>(&self, call: &Call<'a>) -> (r: Option<Result<Reader<'a>, Error>>)
        requires
            call.state matches crate::pipeline::CallState::Resolved(s) ==> s.wf(),
        ensures
            (match r {
                Some(Ok(d)) => Some(Ok(d.reader.loc)),
                Some(Err(e)) => Some(Err(e)),
                None => None,
            }) == call.get_spec(&self.typeless),
            r matches Some(Ok(d)) ==> d.wf() && d.reader.segments == call.root().segments,
    {
        match call.get(&self.typeless) {
            Some(Ok(s)) => Some(Ok(Reader { reader: s })),
            Some(Err(e)) => Some(Err(e)),
            None => None,
        }
    }
}

} // verus!
