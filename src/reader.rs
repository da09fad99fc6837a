use vstd::prelude::*;
use crate::bytes::{le64, read_u16, read_u32, read_u64};
use crate::pointer::{decode, decode_spec, Error, WirePointer};

verus! {

/// Largest segment, in bytes: a segment's length in words is a 32-bit count.
pub const MAX_SEGMENT_BYTES: u64 = 0x7_ffff_fff8;

/// Every segment is a whole number of words and no longer than the format allows.
pub open spec fn message_wf(segs: Seq<Vec<u8>>) -> bool {
    forall|i: int|
        0 <= i < segs.len() ==> (#[trigger] segs[i])@.len() % 8 == 0 && segs[i]@.len()
            <= MAX_SEGMENT_BYTES
}

/// Where a struct lies: its segment, its data section and its pointer section (bytes).
#[derive(Clone, Copy, Debug, PartialEq, Eq, Structural)]
pub struct Loc {
    pub segment: usize,
    pub data_pos: usize,
    pub data_size: usize,
    pub ptr_pos: usize,
    pub ptr_count: usize,
}

/// The location of the empty struct that a null pointer stands for.
pub open spec fn empty_loc() -> Loc {
    Loc { segment: 0, data_pos: 0, data_size: 0, ptr_pos: 0, ptr_count: 0 }
}

/// A location lies inside the message.
pub open spec fn loc_in(segs: Seq<Vec<u8>>, l: Loc) -> bool {
    &&& l.data_size % 8 == 0
    &&& l.data_pos % 8 == 0
    &&& l.data_size <= 8 * 0xffff
    &&& l.ptr_count <= 0xffff
    &&& l.ptr_pos == l.data_pos + l.data_size
    &&& (l.data_size > 0 || l.ptr_count > 0) ==> (l.segment < segs.len() && l.ptr_pos + 8
        * l.ptr_count <= segs[l.segment as int]@.len())
}

/// The struct of `data` words and `pointers` pointers that starts `offset` words
/// after byte `after` of segment `seg`.
pub open spec fn target_spec(
    segs: Seq<Vec<u8>>,
    seg: int,
    after: int,
    offset: i32,
    data: u16,
    pointers: u16,
) -> Result<Loc, Error> {
    let start = after + 8 * offset;
    let end = start + 8 * (data + pointers);
    if 0 <= seg < segs.len() && 0 <= start && end <= segs[seg]@.len() {
        Ok(
            Loc {
                segment: seg as usize,
                data_pos: start as usize,
                data_size: (8 * data) as usize,
                ptr_pos: (start + 8 * data) as usize,
                ptr_count: pointers as usize,
            },
        )
    } else {
        Err(Error::BoundsViolation)
    }
}

/// Where the struct pointer stored at byte `pos` of segment `seg` leads, following at
/// most one far pointer.
pub open spec fn follow_spec(segs: Seq<Vec<u8>>, seg: int, pos: int) -> Result<Loc, Error> {
    match decode_spec(le64(segs[seg]@, pos)) {
        WirePointer::Null => Ok(empty_loc()),
        WirePointer::Struct { offset, data, pointers } => target_spec(
            segs,
            seg,
            pos as u64 + 8,
            offset,
            data,
            pointers,
        ),
        WirePointer::Far { double, pad, segment } => {
            if segment >= segs.len() || 8 * pad + (if double { 16int } else { 8int }) > segs[segment as int]@.len() {
                Err(Error::BoundsViolation)
            } else if !double {
                match decode_spec(le64(segs[segment as int]@, 8 * pad)) {
                    WirePointer::Struct { offset, data, pointers } => target_spec(
                        segs,
                        segment as int,
                        8 * pad + 8,
                        offset,
                        data,
                        pointers,
                    ),
                    _ => Err(Error::MalformedPointer),
                }
            } else {
                match (
                    decode_spec(le64(segs[segment as int]@, 8 * pad)),
                    decode_spec(le64(segs[segment as int]@, 8 * pad + 8)),
                ) {
                    (
                        WirePointer::Far { double: false, pad: p2, segment: s2 },
                        WirePointer::Struct { offset: _, data, pointers },
                    ) => target_spec(segs, s2 as int, 8 * p2, 0, data, pointers),
                    _ => Err(Error::MalformedPointer),
                }
            }
        },
        _ => Err(Error::MalformedPointer),
    }
}

/// Computes `target_spec`.
fn target(
    segs: &Vec<Vec<u8>>,
    seg: usize,
    after: u64,
    offset: i32,
    data: u16,
    pointers: u16,
) -> (r: Result<Loc, Error>)
    requires
        message_wf(segs@),
        after <= MAX_SEGMENT_BYTES + 8,
        after % 8 == 0,
    ensures
        r == target_spec(segs@, seg as int, after as int, offset, data, pointers),
        r matches Ok(l) ==> loc_in(segs@, l),
{
    if seg >= segs.len() {
        return Err(Error::BoundsViolation);
    }
    let len = segs[seg].len();
    let start: i64 = after as i64 + 8 * (offset as i64);
    let end: i64 = start + 8 * (data as i64 + pointers as i64);
    if start < 0 || end > len as i64 {
        return Err(Error::BoundsViolation);
    }
    Ok(
        Loc {
            segment: seg,
            data_pos: start as usize,
            data_size: 8 * (data as usize),
            ptr_pos: start as usize + 8 * (data as usize),
            ptr_count: pointers as usize,
        },
    )
}

/// Computes `follow_spec`.
pub(crate) fn follow(segs: &Vec<Vec<u8>>, seg: usize, pos: usize) -> (r: Result<Loc, Error>)
    requires
        message_wf(segs@),
        seg < segs@.len(),
        pos + 8 <= segs@[seg as int]@.len(),
        pos % 8 == 0,
    ensures
        r == follow_spec(segs@, seg as int, pos as int),
        r matches Ok(l) ==> loc_in(segs@, l),
{
    let s = &segs[seg];
    let _n = s.len();
    match decode(read_u64(s, pos)) {
        WirePointer::Null => Ok(Loc { segment: 0, data_pos: 0, data_size: 0, ptr_pos: 0, ptr_count: 0 }),
        WirePointer::Struct { offset, data, pointers } => target(
            segs,
            seg,
            pos as u64 + 8,
            offset,
            data,
            pointers,
        ),
        WirePointer::Far { double, pad, segment } => {
            let need: u64 = if double { 16 } else { 8 };
            if segment as usize >= segs.len() || 8 * (pad as u64) + need > segs[segment as usize].len() as u64 {
                return Err(Error::BoundsViolation);
            }
            let ps = &segs[segment as usize];
            let p = 8 * (pad as usize);
            if !double {
                match decode(read_u64(ps, p)) {
                    WirePointer::Struct { offset, data, pointers } => target(
                        segs,
                        segment as usize,
                        p as u64 + 8,
                        offset,
                        data,
                        pointers,
                    ),
                    _ => Err(Error::MalformedPointer),
                }
            } else {
                match (decode(read_u64(ps, p)), decode(read_u64(ps, p + 8))) {
                    (
                        WirePointer::Far { double: false, pad: p2, segment: s2 },
                        WirePointer::Struct { offset: _, data, pointers },
                    ) => target(segs, s2 as usize, 8 * (p2 as u64), 0, data, pointers),
                    _ => Err(Error::MalformedPointer),
                }
            }
        },
        _ => Err(Error::MalformedPointer),
    }
}

} // verus!

verus! {

/// The limit a child struct gets from its parent's.
pub open spec fn child_limit(limit: u32) -> u32 {
    if limit > 0 {
        (limit - 1) as u32
    } else {
        0
    }
}

/// The data section of the struct at `l`.
pub open spec fn data_of(segs: Seq<Vec<u8>>, l: Loc) -> Seq<u8> {
    if l.data_size == 0 {
        Seq::empty()
    } else {
        segs[l.segment as int]@.subrange(l.data_pos as int, l.data_pos + l.data_size)
    }
}

/// A read-only view of one struct inside a message.
#[derive(Clone, Copy)]
pub struct StructReader<'a> {
    pub segments: &'a Vec<Vec<u8>>,
    pub loc: Loc,
    pub nesting_limit: u32,
}

/// A read-only view of one pointer slot; `pos` is `None` for a slot past the end of
/// its struct, which reads as null.
#[derive(Clone, Copy)]
pub struct PointerReader<'a> {
    pub segments: &'a Vec<Vec<u8>>,
    pub segment: usize,
    pub pos: Option<usize>,
    pub nesting_limit: u32,
}

/// The location that a `get_struct` result stands for.
pub open spec fn result_loc(r: Result<StructReader, Error>) -> Result<Loc, Error> {
    match r {
        Ok(s) => Ok(s.loc),
        Err(e) => Err(e),
    }
}

/// The location that a builder result stands for.
pub open spec fn result_loc_builder(r: Result<crate::builder::StructBuilder, Error>) -> Result<Loc, Error> {
    match r {
        Ok(s) => Ok(s.loc),
        Err(e) => Err(e),
    }
}

impl<'a> PointerReader<'a> {
    pub open spec fn wf(&self) -> bool {
        &&& message_wf(self.segments@)
        &&& self.pos matches Some(p) ==> self.segment < self.segments@.len() && p + 8
            <= self.segments@[self.segment as int]@.len() && p % 8 == 0
    }

    /// The word stored in the slot; zero for a slot past the end.
    pub open spec fn word(&self) -> u64 {
        match self.pos {
            Some(p) => le64(self.segments@[self.segment as int]@, p as int),
            None => 0,
        }
    }

    /// Where the slot leads when read as a struct.
    pub open spec fn struct_spec(&self) -> Result<Loc, Error> {
        if self.word() == 0 {
            Ok(empty_loc())
        } else if self.nesting_limit == 0 {
            Err(Error::RecursionLimitExceeded)
        } else {
            follow_spec(self.segments@, self.segment as int, self.pos.unwrap() as int)
        }
    }

    /// The pointer slot at byte `pos` of `segment`.
    pub fn at(segments: &'a Vec<Vec<u8>>, segment: usize, pos: usize, nesting_limit: u32) -> (r: PointerReader<'a>)
        requires
            message_wf(segments@),
            segment < segments@.len(),
            pos + 8 <= segments@[segment as int]@.len(),
            pos % 8 == 0,
        ensures
            r.wf(),
            r == (PointerReader { segments, segment, pos: Some(pos), nesting_limit }),
    {
        PointerReader { segments, segment, pos: Some(pos), nesting_limit }
    }

    pub fn is_null(&self) -> (r: bool)
        requires
            self.wf(),
        ensures
            r == (self.word() == 0),
    {
        match self.pos {
            Some(p) => read_u64(&self.segments[self.segment], p) == 0,
            None => true,
        }
    }

    /// Reads the slot as a struct: a null slot gives the empty struct; a pointer that
    /// leaves its segment gives `BoundsViolation`; one of another kind, or a far pointer
    /// whose landing pad does not lead straight to the struct, gives `MalformedPointer`.
    pub fn get_struct(&self) -> (r: Result<StructReader<'a>, Error>)
        requires
            self.wf(),
        ensures
            result_loc(r) == self.struct_spec(),
            r matches Ok(s) ==> s.wf() && s.segments == self.segments && s.nesting_limit
                == child_limit(self.nesting_limit),
    {
        let limit = if self.nesting_limit > 0 { self.nesting_limit - 1 } else { 0 };
        match self.pos {
            None => Ok(StructReader { segments: self.segments, loc: Loc { segment: 0, data_pos: 0, data_size: 0, ptr_pos: 0, ptr_count: 0 }, nesting_limit: limit }),
            Some(p) => {
                if read_u64(&self.segments[self.segment], p) == 0 {
                    return Ok(StructReader { segments: self.segments, loc: Loc { segment: 0, data_pos: 0, data_size: 0, ptr_pos: 0, ptr_count: 0 }, nesting_limit: limit });
                }
                if self.nesting_limit == 0 {
                    return Err(Error::RecursionLimitExceeded);
                }
                match follow(self.segments, self.segment, p) {
                    Ok(loc) => Ok(StructReader { segments: self.segments, loc, nesting_limit: limit }),
                    Err(e) => Err(e),
                }
            },
        }
    }
}

impl<'a> StructReader<'a> {
    pub open spec fn wf(&self) -> bool {
        message_wf(self.segments@) && loc_in(self.segments@, self.loc)
    }

    /// The bytes of the data section.
    pub open spec fn data(&self) -> Seq<u8> {
        data_of(self.segments@, self.loc)
    }

    /// The struct that the root pointer of a message, the first word of its first
    /// segment, leads to.
    pub fn root(segments: &'a Vec<Vec<u8>>, nesting_limit: u32) -> (r: Result<StructReader<'a>, Error>)
        requires
            message_wf(segments@),
        ensures
            segments@.len() == 0 || segments@[0]@.len() < 8 ==> r == Err::<StructReader, Error>(Error::BoundsViolation),
            segments@.len() > 0 && segments@[0]@.len() >= 8 ==> result_loc(r) == (PointerReader {
                segments,
                segment: 0,
                pos: Some(0),
                nesting_limit,
            }).struct_spec(),
            r matches Ok(s) ==> s.wf() && s.segments == segments && s.nesting_limit == child_limit(nesting_limit),
    {
        if segments.len() == 0 || segments[0].len() < 8 {
            return Err(Error::BoundsViolation);
        }
        PointerReader::at(segments, 0, 0, nesting_limit).get_struct()
    }

    /// The empty struct, where every field reads as its default.
    pub fn empty(segments: &'a Vec<Vec<u8>>) -> (r: StructReader<'a>)
        requires
            message_wf(segments@),
        ensures
            r.wf(),
            r.loc == empty_loc(),
            r.data().len() == 0,
    {
        StructReader { segments, loc: Loc { segment: 0, data_pos: 0, data_size: 0, ptr_pos: 0, ptr_count: 0 }, nesting_limit: 0 }
    }

    /// Bytes in the data section.
    pub fn data_size(&self) -> (r: usize)
        requires
            self.wf(),
        ensures
            r == self.data().len(),
    {
        self.loc.data_size
    }

    pub fn pointer_count(&self) -> (r: usize)
        ensures
            r == self.loc.ptr_count,
    {
        self.loc.ptr_count
    }

    pub fn get_u8(&self, off: usize, default: u8) -> (r: u8)
        requires
            self.wf(),
        ensures
            r == crate::bytes::field8(self.data(), off as int, default),
    {
        if off < self.loc.data_size {
            self.segments[self.loc.segment][self.loc.data_pos + off] ^ default
        } else {
            default
        }
    }

    pub fn get_u16(&self, off: usize, default: u16) -> (r: u16)
        requires
            self.wf(),
        ensures
            r == crate::bytes::field16(self.data(), off as int, default),
    {
        if off < self.loc.data_size && self.loc.data_size - off >= 2 {
            read_u16(&self.segments[self.loc.segment], self.loc.data_pos + off) ^ default
        } else {
            default
        }
    }

    pub fn get_u32(&self, off: usize, default: u32) -> (r: u32)
        requires
            self.wf(),
        ensures
            r == crate::bytes::field32(self.data(), off as int, default),
    {
        if off < self.loc.data_size && self.loc.data_size - off >= 4 {
            read_u32(&self.segments[self.loc.segment], self.loc.data_pos + off) ^ default
        } else {
            default
        }
    }

    pub fn get_u64(&self, off: usize, default: u64) -> (r: u64)
        requires
            self.wf(),
        ensures
            r == crate::bytes::field64(self.data(), off as int, default),
    {
        if off < self.loc.data_size && self.loc.data_size - off >= 8 {
            read_u64(&self.segments[self.loc.segment], self.loc.data_pos + off) ^ default
        } else {
            default
        }
    }

    /// The pointer slot `index`; past the pointer section it reads as null.
    pub fn get_pointer_field(&self, index: usize) -> (r: PointerReader<'a>)
        requires
            self.wf(),
        ensures
            r.wf(),
            r.segments == self.segments,
            r.nesting_limit == self.nesting_limit,
            index < self.loc.ptr_count ==> r.segment == self.loc.segment && r.pos == Some(
                (self.loc.ptr_pos + 8 * index) as usize,
            ),
            index >= self.loc.ptr_count ==> r.pos is None,
    {
        if index < self.loc.ptr_count {
            let _n = self.segments[self.loc.segment].len();
            assert(8 * index + 8 <= 8 * self.loc.ptr_count) by (nonlinear_arith)
                requires
                    index < self.loc.ptr_count,
            ;
            PointerReader {
                segments: self.segments,
                segment: self.loc.segment,
                pos: Some(self.loc.ptr_pos + 8 * index),
                nesting_limit: self.nesting_limit,
            }
        } else {
            PointerReader { segments: self.segments, segment: 0, pos: None, nesting_limit: self.nesting_limit }
        }
    }
}

} // verus!
