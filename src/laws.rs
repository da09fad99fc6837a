use vstd::prelude::*;
use crate::bytes::{
    bytes16, bytes32, bytes64, field16, field32, field64, field8, lemma_le16_bytes16,
    lemma_le32_bytes32, lemma_le64_bytes64, splice,
};
use crate::pointer::{decode_spec, Error, WirePointer};
use crate::reader::PointerReader;

verus! {

/// Writing an 8-bit field and reading it back, with the same default, gives the value.
pub proof fn lemma_round_trip_u8(d: Seq<u8>, off: int, v: u8, default: u8)
    requires
        0 <= off,
        off + 1 <= d.len(),
    ensures
        field8(d.update(off, v ^ default), off, default) == v,
{
    assert((v ^ default) ^ default == v) by (bit_vector);
}

/// Writing a 16-bit field and reading it back, with the same default, gives the value.
pub proof fn lemma_round_trip_u16(d: Seq<u8>, off: int, v: u16, default: u16)
    requires
        0 <= off,
        off + 2 <= d.len(),
    ensures
        field16(splice(d, off, bytes16(v ^ default)), off, default) == v,
{
    let s = splice(d, off, bytes16(v ^ default));
    assert(s[off] == bytes16(v ^ default)[0]);
    assert(s[off + 1] == bytes16(v ^ default)[1]);
    lemma_le16_bytes16(s, off, v ^ default);
    assert((v ^ default) ^ default == v) by (bit_vector);
}

/// Writing a 32-bit field and reading it back, with the same default, gives the value.
pub proof fn lemma_round_trip_u32(d: Seq<u8>, off: int, v: u32, default: u32)
    requires
        0 <= off,
        off + 4 <= d.len(),
    ensures
        field32(splice(d, off, bytes32(v ^ default)), off, default) == v,
{
    let s = splice(d, off, bytes32(v ^ default));
    assert forall|k: int| 0 <= k < 4 implies s[off + k] == #[trigger] bytes32(v ^ default)[k] by {}
    lemma_le32_bytes32(s, off, v ^ default);
    assert((v ^ default) ^ default == v) by (bit_vector);
}

/// Writing a 64-bit field and reading it back, with the same default, gives the value.
pub proof fn lemma_round_trip_u64(d: Seq<u8>, off: int, v: u64, default: u64)
    requires
        0 <= off,
        off + 8 <= d.len(),
    ensures
        field64(splice(d, off, bytes64(v ^ default)), off, default) == v,
{
    let s = splice(d, off, bytes64(v ^ default));
    assert forall|k: int| 0 <= k < 8 implies s[off + k] == #[trigger] bytes64(v ^ default)[k] by {}
    lemma_le64_bytes64(s, off, v ^ default);
    assert((v ^ default) ^ default == v) by (bit_vector);
}

/// A field that lies, wholly or in part, in a word missing from a shorter data
/// section (one written against an older layout) reads as its default.
pub proof fn lemma_missing_word_reads_default(d: Seq<u8>, words: nat, off: int)
    requires
        d.len() == 8 * words,
        8 * words <= off,
    ensures
        forall|x: u8| #[trigger] field8(d, off, x) == x,
        forall|x: u16| #[trigger] field16(d, off, x) == x,
        forall|x: u32| #[trigger] field32(d, off, x) == x,
        forall|x: u64| #[trigger] field64(d, off, x) == x,
{
}

/// A struct pointer whose target runs outside its segment reads as `BoundsViolation`.
pub proof fn lemma_struct_out_of_bounds(p: PointerReader, offset: i32, data: u16, pointers: u16)
    requires
        p.wf(),
        p.pos is Some,
        p.nesting_limit > 0,
        decode_spec(p.word()) == (WirePointer::Struct { offset, data, pointers }),
        ({
            let start = p.pos.unwrap() + 8 + 8 * offset;
            start < 0 || start + 8 * (data + pointers) > p.segments@[p.segment as int]@.len()
        }),
    ensures
        p.struct_spec() == Err::<crate::reader::Loc, Error>(Error::BoundsViolation),
{
}

/// A far pointer into a segment that the message lacks, or to a landing pad past the
/// end of its segment, reads as `BoundsViolation`.
pub proof fn lemma_far_out_of_bounds(p: PointerReader, double: bool, pad: u32, segment: u32)
    requires
        p.wf(),
        p.pos is Some,
        p.nesting_limit > 0,
        decode_spec(p.word()) == (WirePointer::Far { double, pad, segment }),
        segment >= p.segments@.len() || 8 * pad + 8 > p.segments@[segment as int]@.len(),
    ensures
        p.struct_spec() == Err::<crate::reader::Loc, Error>(Error::BoundsViolation),
{
}

} // verus!
