use vstd::prelude::*;

verus! {

/// The little-endian 16-bit value held by the bytes at `i` and `i + 1`.
pub open spec fn le16(s: Seq<u8>, i: int) -> u16 {
    (s[i] as u16) | ((s[i + 1] as u16) << 8u16)
}

/// The little-endian 32-bit value held by the four bytes from `i`.
pub open spec fn le32(s: Seq<u8>, i: int) -> u32 {
    (le16(s, i) as u32) | ((le16(s, i + 2) as u32) << 16u32)
}

/// The little-endian 64-bit value held by the eight bytes from `i`.
pub open spec fn le64(s: Seq<u8>, i: int) -> u64 {
    (le32(s, i) as u64) | ((le32(s, i + 4) as u64) << 32u64)
}

/// The two bytes that encode `v` in little-endian order.
pub open spec fn bytes16(v: u16) -> Seq<u8> {
    seq![(v & 0xff) as u8, (v >> 8u16) as u8]
}

pub open spec fn bytes32(v: u32) -> Seq<u8> {
    bytes16((v & 0xffff) as u16) + bytes16((v >> 16u32) as u16)
}

pub open spec fn bytes64(v: u64) -> Seq<u8> {
    bytes32((v & 0xffff_ffff) as u32) + bytes32((v >> 32u64) as u32)
}

/// `s` with the bytes from `i` on replaced by `b`.
pub open spec fn splice(s: Seq<u8>, i: int, b: Seq<u8>) -> Seq<u8> {
    s.subrange(0, i) + b + s.subrange(i + b.len(), s.len() as int)
}

pub proof fn lemma_u16_bytes(v: u16)
    ensures
        ((((v & 0xff) as u8) as u16) | ((((v >> 8u16) as u8) as u16) << 8u16)) == v,
{
    assert(((((v & 0xff) as u8) as u16) | ((((v >> 8u16) as u8) as u16) << 8u16)) == v)
        by (bit_vector);
}

pub proof fn lemma_u32_halves(v: u32)
    ensures
        ((((v & 0xffff) as u16) as u32) | ((((v >> 16u32) as u16) as u32) << 16u32)) == v,
{
    assert(((((v & 0xffff) as u16) as u32) | ((((v >> 16u32) as u16) as u32) << 16u32)) == v)
        by (bit_vector);
}

pub proof fn lemma_u64_halves(v: u64)
    ensures
        ((((v & 0xffff_ffff) as u32) as u64) | ((((v >> 32u64) as u32) as u64) << 32u64)) == v,
{
    assert(((((v & 0xffff_ffff) as u32) as u64) | ((((v >> 32u64) as u32) as u64) << 32u64))
        == v) by (bit_vector);
}

/// Reading back the encoding of a value gives the value.
pub proof fn lemma_le16_bytes16(s: Seq<u8>, i: int, v: u16)
    requires
        0 <= i,
        i + 2 <= s.len(),
        s[i] == bytes16(v)[0],
        s[i + 1] == bytes16(v)[1],
    ensures
        le16(s, i) == v,
{
    lemma_u16_bytes(v);
}

pub proof fn lemma_le32_bytes32(s: Seq<u8>, i: int, v: u32)
    requires
        0 <= i,
        i + 4 <= s.len(),
        forall|k: int| 0 <= k < 4 ==> s[i + k] == #[trigger] bytes32(v)[k],
    ensures
        le32(s, i) == v,
{
    let lo = (v & 0xffff) as u16;
    let hi = (v >> 16u32) as u16;
    assert(s[i] == bytes32(v)[0]);
    assert(s[i + 1] == bytes32(v)[1]);
    assert(s[i + 2] == bytes32(v)[2]);
    assert(s[i + 3] == bytes32(v)[3]);
    lemma_le16_bytes16(s, i, lo);
    lemma_le16_bytes16(s, i + 2, hi);
    lemma_u32_halves(v);
}

pub proof fn lemma_le64_bytes64(s: Seq<u8>, i: int, v: u64)
    requires
        0 <= i,
        i + 8 <= s.len(),
        forall|k: int| 0 <= k < 8 ==> s[i + k] == #[trigger] bytes64(v)[k],
    ensures
        le64(s, i) == v,
{
    let lo = (v & 0xffff_ffff) as u32;
    let hi = (v >> 32u64) as u32;
    assert forall|k: int| 0 <= k < 4 implies s[i + k] == #[trigger] bytes32(lo)[k] by {
        assert(s[i + k] == bytes64(v)[k]);
    }
    assert forall|k: int| 0 <= k < 4 implies s[i + 4 + k] == #[trigger] bytes32(hi)[k] by {
        assert(s[i + 4 + k] == bytes64(v)[4 + k]);
    }
    lemma_le32_bytes32(s, i, lo);
    lemma_le32_bytes32(s, i + 4, hi);
    lemma_u64_halves(v);
}

/// Reads the little-endian 16-bit value at byte `i`.
pub fn read_u16(s: &Vec<u8>, i: usize) -> (r: u16)
    requires
        i + 2 <= s@.len(),
    ensures
        r == le16(s@, i as int),
{
    let _n = s.len();
    (s[i] as u16) | ((s[i + 1] as u16) << 8u16)
}

pub fn read_u32(s: &Vec<u8>, i: usize) -> (r: u32)
    requires
        i + 4 <= s@.len(),
    ensures
        r == le32(s@, i as int),
{
    let _n = s.len();
    (read_u16(s, i) as u32) | ((read_u16(s, i + 2) as u32) << 16u32)
}

pub fn read_u64(s: &Vec<u8>, i: usize) -> (r: u64)
    requires
        i + 8 <= s@.len(),
    ensures
        r == le64(s@, i as int),
{
    let _n = s.len();
    (read_u32(s, i) as u64) | ((read_u32(s, i + 4) as u64) << 32u64)
}

/// Writes the bytes `b` over `s` from byte `i` on.
pub(crate) fn write_bytes(s: &mut Vec<u8>, i: usize, b: &[u8])
    requires
        i + b@.len() <= old(s)@.len(),
    ensures
        final(s)@ =~= splice(old(s)@, i as int, b@),
{
    let _n = s.len();
    let mut k: usize = 0;
    while k < b.len()
        invariant
            0 <= k <= b@.len(),
            i + b@.len() <= old(s)@.len(),
            s@.len() == old(s)@.len(),
            s@.len() == _n,
            forall|j: int| 0 <= j < k ==> s@[i + j] == b@[j],
            forall|j: int| 0 <= j < i ==> s@[j] == old(s)@[j],
            forall|j: int| i + k <= j < s@.len() ==> s@[j] == old(s)@[j],
        decreases b@.len() - k,
    {
        s.set(i + k, b[k]);
        k = k + 1;
    }
}

/// Writes `v` in little-endian order at byte `i`.
pub fn write_u16(s: &mut Vec<u8>, i: usize, v: u16)
    requires
        i + 2 <= old(s)@.len(),
    ensures
        final(s)@ =~= splice(old(s)@, i as int, bytes16(v)),
{
    let b = [(v & 0xff) as u8, (v >> 8u16) as u8];
    assert(b@ =~= bytes16(v));
    write_bytes(s, i, &b);
}

pub fn write_u32(s: &mut Vec<u8>, i: usize, v: u32)
    requires
        i + 4 <= old(s)@.len(),
    ensures
        final(s)@ =~= splice(old(s)@, i as int, bytes32(v)),
{
    let lo = (v & 0xffff) as u16;
    let hi = (v >> 16u32) as u16;
    let b = [(lo & 0xff) as u8, (lo >> 8u16) as u8, (hi & 0xff) as u8, (hi >> 8u16) as u8];
    assert(b@ =~= bytes32(v));
    write_bytes(s, i, &b);
}

pub fn write_u64(s: &mut Vec<u8>, i: usize, v: u64)
    requires
        i + 8 <= old(s)@.len(),
    ensures
        final(s)@ =~= splice(old(s)@, i as int, bytes64(v)),
{
    let lo = (v & 0xffff_ffff) as u32;
    let hi = (v >> 32u64) as u32;
    let l0 = (lo & 0xffff) as u16;
    let l1 = (lo >> 16u32) as u16;
    let h0 = (hi & 0xffff) as u16;
    let h1 = (hi >> 16u32) as u16;
    let b = [
        (l0 & 0xff) as u8,
        (l0 >> 8u16) as u8,
        (l1 & 0xff) as u8,
        (l1 >> 8u16) as u8,
        (h0 & 0xff) as u8,
        (h0 >> 8u16) as u8,
        (h1 & 0xff) as u8,
        (h1 >> 8u16) as u8,
    ];
    assert(b@ =~= bytes64(v));
    write_bytes(s, i, &b);
}

} // verus!

verus! {

/// The 8-bit field at byte `off` of a data section, stored as the XOR with its default;
/// a field past the end of the section reads as its default.
pub open spec fn field8(d: Seq<u8>, off: int, default: u8) -> u8 {
    if off + 1 <= d.len() {
        d[off] ^ default
    } else {
        default
    }
}

pub open spec fn field16(d: Seq<u8>, off: int, default: u16) -> u16 {
    if off + 2 <= d.len() {
        le16(d, off) ^ default
    } else {
        default
    }
}

pub open spec fn field32(d: Seq<u8>, off: int, default: u32) -> u32 {
    if off + 4 <= d.len() {
        le32(d, off) ^ default
    } else {
        default
    }
}

pub open spec fn field64(d: Seq<u8>, off: int, default: u64) -> u64 {
    if off + 8 <= d.len() {
        le64(d, off) ^ default
    } else {
        default
    }
}

} // verus!
