use vstd::prelude::*;

verus! {

/// The ways in which reading or building a message can fail.
#[derive(Clone, Copy, Debug, PartialEq, Eq, Structural)]
pub enum Error {
    /// A pointer or offset lies outside its segment.
    BoundsViolation,
    /// A pointer has the wrong kind, or a far pointer chains too deep.
    MalformedPointer,
    /// Pointers nest deeper than the reader's limit.
    RecursionLimitExceeded,
    /// The destination message cannot grow enough.
    CapacityExceeded,
    /// A pipeline's field path does not lead to a struct in the resolved result.
    PathNotFound,
    /// A type identifier differs from the one expected.
    TypeMismatch,
}

/// The footprint of a struct: words of data, then pointer slots.
#[derive(Clone, Copy, Debug, PartialEq, Eq, Structural)]
pub struct StructSize {
    pub data: u16,
    pub pointers: u16,
}

impl StructSize {
    pub open spec fn words(self) -> nat {
        self.data as nat + self.pointers as nat
    }

    /// Whole words taken by the struct.
    pub fn total(&self) -> (r: u32)
        ensures
            r == self.words(),
    {
        self.data as u32 + self.pointers as u32
    }
}

/// One pointer word, decoded.
#[derive(Clone, Copy, Debug, PartialEq, Eq, Structural)]
pub enum WirePointer {
    Null,
    /// A struct `offset` words after the end of the pointer.
    Struct { offset: i32, data: u16, pointers: u16 },
    List { raw: u64 },
    /// A landing pad at word `pad` of segment `segment`.
    Far { double: bool, pad: u32, segment: u32 },
    Capability { index: u32 },
}

/// Largest magnitude of a 30-bit signed word offset.
pub const OFFSET_LIMIT: i32 = 0x2000_0000;

/// The 30-bit field that stores a signed offset.
pub open spec fn offset_field(offset: i32) -> u32 {
    if offset < 0 {
        (offset + 0x4000_0000) as u32
    } else {
        offset as u32
    }
}

/// The signed offset stored in a 30-bit field.
pub open spec fn field_offset(raw: u32) -> i32 {
    if raw >= 0x2000_0000 {
        (raw as int - 0x4000_0000) as i32
    } else {
        raw as i32
    }
}

/// What a pointer word means.
pub open spec fn decode_spec(w: u64) -> WirePointer {
    if w == 0 {
        WirePointer::Null
    } else if w & 3 == 0 {
        WirePointer::Struct {
            offset: field_offset(((w >> 2u64) & 0x3fff_ffff) as u32),
            data: ((w >> 32u64) & 0xffff) as u16,
            pointers: (w >> 48u64) as u16,
        }
    } else if w & 3 == 1 {
        WirePointer::List { raw: w }
    } else if w & 3 == 2 {
        WirePointer::Far {
            double: (w >> 2u64) & 1 == 1,
            pad: ((w >> 3u64) & 0x1fff_ffff) as u32,
            segment: (w >> 32u64) as u32,
        }
    } else {
        WirePointer::Capability { index: (w >> 32u64) as u32 }
    }
}

/// The word of a struct pointer.
pub open spec fn struct_word(offset: i32, data: u16, pointers: u16) -> u64 {
    ((offset_field(offset) as u64) << 2u64) | ((data as u64) << 32u64) | ((pointers as u64) << 48u64)
}

/// The word of a single far pointer.
pub open spec fn far_word(pad: u32, segment: u32) -> u64 {
    2u64 | ((pad as u64) << 3u64) | ((segment as u64) << 32u64)
}

/// Decodes one pointer word.
pub fn decode(w: u64) -> (r: WirePointer)
    ensures
        r == decode_spec(w),
        r matches WirePointer::Far { pad, .. } ==> pad < 0x2000_0000,
{
    assert(((w >> 3u64) & 0x1fff_ffff) < 0x2000_0000) by (bit_vector);
    if w == 0 {
        WirePointer::Null
    } else if w & 3 == 0 {
        let raw = ((w >> 2u64) & 0x3fff_ffff) as u32;
        let offset = if raw >= 0x2000_0000 {
            (raw as i64 - 0x4000_0000) as i32
        } else {
            raw as i32
        };
        WirePointer::Struct {
            offset,
            data: ((w >> 32u64) & 0xffff) as u16,
            pointers: (w >> 48u64) as u16,
        }
    } else if w & 3 == 1 {
        WirePointer::List { raw: w }
    } else if w & 3 == 2 {
        WirePointer::Far {
            double: (w >> 2u64) & 1 == 1,
            pad: ((w >> 3u64) & 0x1fff_ffff) as u32,
            segment: (w >> 32u64) as u32,
        }
    } else {
        WirePointer::Capability { index: (w >> 32u64) as u32 }
    }
}

/// Encodes a struct pointer.
pub fn encode_struct(offset: i32, size: StructSize) -> (r: u64)
    requires
        -OFFSET_LIMIT <= offset < OFFSET_LIMIT,
    ensures
        r == struct_word(offset, size.data, size.pointers),
{
    let raw: u32 = if offset < 0 {
        (offset as i64 + 0x4000_0000) as u32
    } else {
        offset as u32
    };
    ((raw as u64) << 2u64) | ((size.data as u64) << 32u64) | ((size.pointers as u64) << 48u64)
}

/// Encodes a single far pointer to the landing pad at word `pad` of `segment`.
pub fn encode_far(pad: u32, segment: u32) -> (r: u64)
    requires
        pad < 0x2000_0000,
    ensures
        r == far_word(pad, segment),
{
    2u64 | ((pad as u64) << 3u64) | ((segment as u64) << 32u64)
}

proof fn lemma_struct_fields(raw: u64, d: u64, p: u64)
    requires
        raw < 0x4000_0000,
        d < 0x1_0000,
        p < 0x1_0000,
    ensures
        ((raw << 2u64) | (d << 32u64) | (p << 48u64)) & 3 == 0,
        ((((raw << 2u64) | (d << 32u64) | (p << 48u64)) >> 2u64) & 0x3fff_ffff) == raw,
        ((((raw << 2u64) | (d << 32u64) | (p << 48u64)) >> 32u64) & 0xffff) == d,
        (((raw << 2u64) | (d << 32u64) | (p << 48u64)) >> 48u64) == p,
        ((raw << 2u64) | (d << 32u64) | (p << 48u64)) == 0 <==> (raw == 0 && d == 0 && p == 0),
{
    assert(((raw << 2u64) | (d << 32u64) | (p << 48u64)) & 3 == 0) by (bit_vector)
        requires raw < 0x4000_0000, d < 0x1_0000, p < 0x1_0000;
    assert(((((raw << 2u64) | (d << 32u64) | (p << 48u64)) >> 2u64) & 0x3fff_ffff) == raw)
        by (bit_vector)
        requires raw < 0x4000_0000, d < 0x1_0000, p < 0x1_0000;
    assert(((((raw << 2u64) | (d << 32u64) | (p << 48u64)) >> 32u64) & 0xffff) == d)
        by (bit_vector)
        requires raw < 0x4000_0000, d < 0x1_0000, p < 0x1_0000;
    assert((((raw << 2u64) | (d << 32u64) | (p << 48u64)) >> 48u64) == p) by (bit_vector)
        requires raw < 0x4000_0000, d < 0x1_0000, p < 0x1_0000;
    assert(((raw << 2u64) | (d << 32u64) | (p << 48u64)) == 0 <==> (raw == 0 && d == 0 && p
        == 0)) by (bit_vector)
        requires raw < 0x4000_0000, d < 0x1_0000, p < 0x1_0000;
}

/// Decoding the word of a struct pointer gives back its offset and size; only the
/// pointer with offset zero to an empty struct shares its word with the null pointer.
pub proof fn lemma_struct_round_trip(offset: i32, size: StructSize)
    requires
        -OFFSET_LIMIT <= offset < OFFSET_LIMIT,
        !(offset == 0 && size.data == 0 && size.pointers == 0),
    ensures
        decode_spec(struct_word(offset, size.data, size.pointers)) == (WirePointer::Struct {
            offset,
            data: size.data,
            pointers: size.pointers,
        }),
{
    let raw = offset_field(offset);
    lemma_struct_fields(raw as u64, size.data as u64, size.pointers as u64);
    assert(field_offset(raw) == offset);
}

/// Decoding the word of a single far pointer gives back its landing pad.
pub proof fn lemma_far_round_trip(pad: u32, segment: u32)
    requires
        pad < 0x2000_0000,
    ensures
        decode_spec(far_word(pad, segment)) == (WirePointer::Far { double: false, pad, segment }),
{
    let p = pad as u64;
    let s = segment as u64;
    assert((2u64 | (p << 3u64) | (s << 32u64)) & 3 == 2) by (bit_vector)
        requires p < 0x2000_0000, s < 0x1_0000_0000;
    assert((2u64 | (p << 3u64) | (s << 32u64)) != 0) by (bit_vector);
    assert(((2u64 | (p << 3u64) | (s << 32u64)) >> 2u64) & 1 == 0) by (bit_vector)
        requires p < 0x2000_0000, s < 0x1_0000_0000;
    assert(((2u64 | (p << 3u64) | (s << 32u64)) >> 3u64) & 0x1fff_ffff == p) by (bit_vector)
        requires p < 0x2000_0000, s < 0x1_0000_0000;
    assert(((2u64 | (p << 3u64) | (s << 32u64)) >> 32u64) == s) by (bit_vector)
        requires p < 0x2000_0000, s < 0x1_0000_0000;
}

} // verus!
