use vstd::prelude::*;
use crate::bytes::{
    read_u64,
    bytes16, bytes32, bytes64, field16, field32, field64, field8, le64, splice, write_u16,
    write_u32, write_u64,
};
use crate::pointer::{decode_spec, encode_struct, struct_word, Error, StructSize, WirePointer};
use crate::reader::{data_of, follow, follow_spec, loc_in, message_wf, Loc, StructReader};

verus! {

/// Largest segment a builder grows to, in bytes; every word offset inside it fits the
/// 30-bit offset field of a struct pointer.
pub const MAX_BUILDER_BYTES: u64 = 0xffff_fff8;

/// The nesting limit of a reader over a message under construction.
pub const READER_LIMIT: u32 = 64;

/// A builder's message: one segment, whose first word is the root pointer.
pub open spec fn builder_wf(segs: Seq<Vec<u8>>) -> bool {
    &&& segs.len() == 1
    &&& message_wf(segs)
    &&& segs[0]@.len() >= 8
    &&& segs[0]@.len() <= MAX_BUILDER_BYTES
}

/// A message under construction.
pub struct MessageBuilder {
    pub segments: Vec<Vec<u8>>,
}

/// An exclusive view of one struct of a message under construction.
pub struct StructBuilder<'a> {
    pub segments: &'a mut Vec<Vec<u8>>,
    pub loc: Loc,
}

/// The segment after the struct pointer word `w` is written at byte `slot` and `n` zero
/// bytes are appended.
pub open spec fn after_alloc(seg: Seq<u8>, slot: int, w: u64, n: int) -> Seq<u8> {
    splice(seg, slot, bytes64(w)) + Seq::new(n as nat, |_i: int| 0u8)
}

/// The struct pointer word written at byte `slot` for a struct of `size` placed at byte
/// `at`; an empty struct is given offset -1 so that its pointer is not null.
pub open spec fn alloc_word(slot: int, at: int, size: StructSize) -> u64 {
    if size.words() == 0 {
        struct_word(-1i32, 0, 0)
    } else {
        struct_word(((at - slot - 8) / 8) as i32, size.data, size.pointers)
    }
}

/// The location of a fresh struct of `size` at byte `at` of the only segment, whose
/// pointer is at byte `slot`.
pub open spec fn fresh_loc(slot: int, at: int, size: StructSize) -> Loc {
    if size.words() == 0 {
        Loc { segment: 0, data_pos: slot as usize, data_size: 0, ptr_pos: slot as usize, ptr_count: 0 }
    } else {
        Loc {
        segment: 0,
        data_pos: at as usize,
        data_size: (8 * size.data) as usize,
        ptr_pos: (at + 8 * size.data) as usize,
        ptr_count: size.pointers as usize,
        }
    }
}

proof fn lemma_alloc_follow(old_seg: Seq<u8>, segs: Seq<Vec<u8>>, slot: int, at: int, size: StructSize)
    requires
        message_wf(segs),
        segs.len() == 1,
        at == old_seg.len(),
        at % 8 == 0,
        slot % 8 == 0,
        0 <= slot,
        slot + 8 <= at,
        at + 8 * size.words() <= MAX_BUILDER_BYTES,
        segs[0]@ == after_alloc(old_seg, slot, alloc_word(slot, at, size), (8 * size.words()) as int),
    ensures
        follow_spec(segs, 0, slot) == Ok::<Loc, Error>(fresh_loc(slot, at, size)),
        decode_spec(le64(segs[0]@, slot)) is Struct,
{
    let w = alloc_word(slot, at, size);
    let s = segs[0]@;
    assert forall|k: int| 0 <= k < 8 implies s[slot + k] == #[trigger] bytes64(w)[k] by {
        assert(s[slot + k] == splice(old_seg, slot, bytes64(w))[slot + k]);
    }
    crate::bytes::lemma_le64_bytes64(s, slot, w);
    if size.words() == 0 {
        crate::pointer::lemma_struct_round_trip(-1i32, StructSize { data: 0, pointers: 0 });
    } else {
        let off = (at - slot - 8) / 8;
        assert(8 * off == at - slot - 8);
        crate::pointer::lemma_struct_round_trip(off as i32, size);
    }
}

/// Writes the pointer for a fresh struct of `size` at byte `slot` and appends its zeroed
/// words; fails with `CapacityExceeded` where the segment would grow past its limit.
#[verifier::rlimit(40)]
pub(crate) fn allocate(segs: &mut Vec<Vec<u8>>, slot: usize, size: StructSize) -> (r: Result<Loc, Error>)
    requires
        builder_wf(old(segs)@),
        slot % 8 == 0,
        slot + 8 <= old(segs)@[0]@.len(),
    ensures
        old(segs)@[0]@.len() + 8 * size.words() > MAX_BUILDER_BYTES ==> r == Err::<Loc, Error>(
            Error::CapacityExceeded,
        ) && final(segs)@ == old(segs)@,
        old(segs)@[0]@.len() + 8 * size.words() <= MAX_BUILDER_BYTES ==> r == Ok::<Loc, Error>(
            fresh_loc(slot as int, old(segs)@[0]@.len() as int, size),
        ) && final(segs)@.len() == 1 && final(segs)@[0]@ =~= after_alloc(
            old(segs)@[0]@,
            slot as int,
            alloc_word(slot as int, old(segs)@[0]@.len() as int, size),
            (8 * size.words()) as int,
        ),
        builder_wf(final(segs)@),
        r matches Ok(l) ==> loc_in(final(segs)@, l) && follow_spec(final(segs)@, 0, slot as int)
            == Ok::<Loc, Error>(l) && decode_spec(le64(final(segs)@[0]@, slot as int)) is Struct,
        r is Ok ==> forall|j: int| 0 <= j < old(segs)@[0]@.len() && !(slot <= j < slot + 8) ==> #[trigger] final(segs)@[0]@[j] == old(segs)@[0]@[j],
        r is Ok ==> final(segs)@[0]@.len() >= old(segs)@[0]@.len(),
{
    let at = segs[0].len();
    let n: u64 = 8 * (size.total() as u64);
    if at as u64 + n > MAX_BUILDER_BYTES {
        return Err(Error::CapacityExceeded);
    }
    let mut s = segs.pop().unwrap();
    let w = if size.total() == 0 {
        encode_struct(-1, StructSize { data: 0, pointers: 0 })
    } else {
        encode_struct(((at - slot - 8) / 8) as i32, size)
    };
    write_u64(&mut s, slot, w);
    let ghost mid = s@;
    let mut k: u64 = 0;
    while k < n
        invariant
            k <= n,
            n == 8 * size.words(),
            at as u64 + n <= MAX_BUILDER_BYTES,
            mid.len() == at,
            s@.len() == at + k,
            forall|j: int| 0 <= j < at ==> s@[j] == mid[j],
            forall|j: int| at <= j < at + k ==> s@[j] == 0u8,
        decreases n - k,
    {
        s.push(0u8);
        k = k + 1;
    }
    assert(s@ =~= mid + Seq::new((8 * size.words()) as nat, |_i: int| 0u8));
    segs.push(s);
    assert(segs@.len() == 1);
    assert(message_wf(segs@)) by {
        assert(s@.len() % 8 == 0) by {
            assert(at % 8 == 0);
        }
    }
    proof {
        lemma_alloc_follow(old(segs)@[0]@, segs@, slot as int, at as int, size);
    }
    if size.total() == 0 {
        return Ok(Loc { segment: 0, data_pos: slot, data_size: 0, ptr_pos: slot, ptr_count: 0 });
    }
    Ok(
        Loc {
            segment: 0,
            data_pos: at,
            data_size: 8 * (size.data as usize),
            ptr_pos: at + 8 * (size.data as usize),
            ptr_count: size.pointers as usize,
        },
    )
}

} // verus!

verus! {

/// The word that takes the place of pointer word `w`, read at byte `op`, when the
/// pointer moves: a struct or list pointer becomes a far pointer whose landing pad
/// is the old slot, left where it was; a far or capability pointer, which does not
/// depend on where it is stored, stays as it is.
pub open spec fn moved_word(w: u64, op: int) -> u64 {
    if w == 0 {
        0
    } else if decode_spec(w) is Struct || decode_spec(w) is List {
        crate::pointer::far_word((op / 8) as u32, 0)
    } else {
        w
    }
}

/// The pointer slot at byte `np` of `new` stands for the one at byte `op` of `old`:
/// null stays null, a far or capability pointer is kept, and a struct or list
/// pointer leads where it led (a struct pointer that led somewhere).
pub open spec fn moved_slot(old: Seq<Vec<u8>>, new: Seq<Vec<u8>>, op: int, np: int) -> bool {
    let ow = le64(old[0]@, op);
    let nw = le64(new[0]@, np);
    &&& ow == 0 ==> nw == 0
    &&& (decode_spec(ow) is Far || decode_spec(ow) is Capability) ==> nw == ow
    &&& decode_spec(ow) is List ==> follow_spec(new, 0, np) == follow_spec(old, 0, op)
    &&& (decode_spec(ow) is Struct && follow_spec(old, 0, op) is Ok) ==> follow_spec(new, 0, np) == follow_spec(old, 0, op)
}

proof fn lemma_moved(old: Seq<Vec<u8>>, new: Seq<Vec<u8>>, op: int, np: int)
    requires
        old.len() == 1,
        new.len() == 1,
        message_wf(old),
        op % 8 == 0,
        0 <= op,
        op + 8 <= old[0]@.len(),
        old[0]@.len() <= new[0]@.len(),
        old[0]@.len() <= MAX_BUILDER_BYTES,
        0 <= np,
        np + 8 <= new[0]@.len(),
        forall|j: int| op <= j < op + 8 ==> #[trigger] new[0]@[j] == old[0]@[j],
        le64(new[0]@, np) == moved_word(le64(old[0]@, op), op),
    ensures
        moved_slot(old, new, op, np),
{
    let ow = le64(old[0]@, op);
    crate::copy::lemma_le64_same(old[0]@, new[0]@, op);
    if ow != 0 && (decode_spec(ow) is Struct || decode_spec(ow) is List) {
        crate::pointer::lemma_far_round_trip((op / 8) as u32, 0);
        assert(8 * ((op / 8) as u32) == op);
    }
}

/// The layout a struct at `l` grows to so that it covers `size` too.
pub open spec fn covering(l: Loc, size: StructSize) -> StructSize {
    StructSize {
        data: if l.data_size / 8 > size.data { (l.data_size / 8) as u16 } else { size.data },
        pointers: if l.ptr_count > size.pointers { l.ptr_count as u16 } else { size.pointers },
    }
}

/// Writes at byte `to` the `count` pointer words found at byte `from`, each as
/// `moved_word` gives it.
fn move_slots(s: &mut Vec<u8>, from: usize, to: usize, count: usize)
    requires
        from % 8 == 0,
        from + 8 * count <= to,
        to + 8 * count <= old(s)@.len(),
        old(s)@.len() <= MAX_BUILDER_BYTES,
    ensures
        final(s)@.len() == old(s)@.len(),
        forall|j: int| 0 <= j < old(s)@.len() && !(to <= j < to + 8 * count) ==> #[trigger] final(s)@[j] == old(s)@[j],
        forall|q: int|
            0 <= q < count ==> le64(final(s)@, to + 8 * q) == moved_word(#[trigger] le64(old(s)@, from + 8 * q), from + 8 * q),
{
    let _n = s.len();
    let mut m: usize = 0;
    while m < count
        invariant
            m <= count,
            from % 8 == 0,
            from + 8 * count <= to,
            to + 8 * count <= old(s)@.len(),
            old(s)@.len() <= MAX_BUILDER_BYTES,
            s@.len() == old(s)@.len(),
            forall|j: int| 0 <= j < old(s)@.len() && !(to <= j < to + 8 * m) ==> #[trigger] s@[j] == old(s)@[j],
            forall|q: int|
                0 <= q < m ==> le64(s@, to + 8 * q) == moved_word(#[trigger] le64(old(s)@, from + 8 * q), from + 8 * q),
        decreases count - m,
    {
        assert(8 * m + 8 <= 8 * count) by (nonlinear_arith)
            requires
                m < count,
        ;
        let op = from + 8 * m;
        let np = to + 8 * m;
        assert(op % 8 == 0) by {
            assert((8 * m) % 8 == 0) by (nonlinear_arith);
        }
        proof {
            crate::copy::lemma_le64_same(old(s)@, s@, op as int);
        }
        let w = read_u64(s, op);
        let moved = if w == 0 {
            0u64
        } else {
            match crate::pointer::decode(w) {
                WirePointer::Struct { .. } | WirePointer::List { .. } => crate::pointer::encode_far((op / 8) as u32, 0),
                _ => w,
            }
        };
        let ghost prev = s@;
        crate::bytes::write_u64(s, np, moved);
        proof {
            assert forall|kk: int| 0 <= kk < 8 implies s@[np + kk] == #[trigger] crate::bytes::bytes64(moved)[kk] by {}
            crate::bytes::lemma_le64_bytes64(s@, np as int, moved);
            assert forall|q: int| 0 <= q < m + 1 implies le64(s@, to + 8 * q) == moved_word(
                #[trigger] le64(old(s)@, from + 8 * q),
                from + 8 * q,
            ) by {
                if q < m {
                    assert(8 * q + 8 <= 8 * m) by (nonlinear_arith)
                        requires
                            0 <= q < m,
                    ;
                    crate::copy::lemma_le64_same(prev, s@, to + 8 * q);
                }
            }
        }
        m = m + 1;
    }
}

proof fn lemma_moved_all(orig: Seq<Vec<u8>>, fin: Seq<Vec<u8>>, l: Loc, loc: Loc, slot: int, s1: Seq<u8>)
    requires
        orig.len() == 1,
        fin.len() == 1,
        message_wf(orig),
        orig[0]@.len() <= MAX_BUILDER_BYTES,
        loc_in(orig, l),
        l.segment == 0,
        slot % 8 == 0,
        l.ptr_pos % 8 == 0,
        l.ptr_count > 0 ==> !(l.ptr_pos <= slot < l.ptr_pos + 8 * l.ptr_count),
        slot + 8 <= orig[0]@.len(),
        orig[0]@.len() <= loc.data_pos,
        loc.data_pos + loc.data_size == loc.ptr_pos,
        l.ptr_count <= loc.ptr_count,
        loc.ptr_pos + 8 * loc.ptr_count <= s1.len(),
        fin[0]@.len() == s1.len(),
        forall|j: int| 0 <= j < orig[0]@.len() && !(slot <= j < slot + 8) ==> #[trigger] s1[j] == orig[0]@[j],
        forall|j: int|
            0 <= j < s1.len() && !(loc.ptr_pos <= j < loc.ptr_pos + 8 * l.ptr_count) ==> #[trigger] fin[0]@[j] == s1[j],
        forall|q: int|
            0 <= q < l.ptr_count ==> le64(fin[0]@, loc.ptr_pos + 8 * q) == moved_word(
                #[trigger] le64(s1, l.ptr_pos + 8 * q),
                l.ptr_pos + 8 * q,
            ),
    ensures
        forall|k: int|
            0 <= k < l.ptr_count ==> #[trigger] moved_slot(orig, fin, crate::copy::slot_of(l, k), crate::copy::slot_of(loc, k)),
{
    assert forall|q: int| 0 <= q < l.ptr_count implies #[trigger] moved_slot(
        orig,
        fin,
        crate::copy::slot_of(l, q),
        crate::copy::slot_of(loc, q),
    ) by {
        assert(8 * q + 8 <= 8 * l.ptr_count) by (nonlinear_arith)
            requires
                0 <= q < l.ptr_count,
        ;
        assert(8 * q + 8 <= 8 * loc.ptr_count) by (nonlinear_arith)
            requires
                0 <= q < l.ptr_count,
                l.ptr_count <= loc.ptr_count,
        ;
        let op = crate::copy::slot_of(l, q);
        assert(op % 8 == 0) by {
            assert((8 * q) % 8 == 0) by (nonlinear_arith);
        }
        assert(slot + 8 <= op || op + 8 <= slot);
        assert forall|j: int| op <= j < op + 8 implies #[trigger] fin[0]@[j] == orig[0]@[j] by {
            assert(fin[0]@[j] == s1[j]);
        }
        assert forall|j: int| op <= j < op + 8 implies #[trigger] s1[j] == orig[0]@[j] by {}
        crate::copy::lemma_le64_same(orig[0]@, s1, op);
        assert(le64(s1, l.ptr_pos + 8 * q) == le64(s1, op));
        lemma_moved(orig, fin, op, crate::copy::slot_of(loc, q));
    }
}

proof fn lemma_front(pre: Seq<u8>, s1: Seq<u8>, dp: int, ds: int, front: Seq<u8>)
    requires
        0 <= dp,
        dp + ds <= pre.len(),
        front.len() <= ds,
        s1 == splice(pre, dp, front),
        ds > 0 ==> pre.subrange(dp, dp + ds) == zeros(ds),
    ensures
        s1.subrange(dp, dp + ds) == front + zeros(ds - front.len()),
{
    assert forall|j: int| 0 <= j < ds implies #[trigger] s1.subrange(dp, dp + ds)[j] == (front + zeros(ds - front.len()))[j] by {
        if j >= front.len() {
            assert(pre.subrange(dp, dp + ds)[j] == pre[dp + j]);
        }
    }
    assert(s1.subrange(dp, dp + ds) =~= front + zeros(ds - front.len()));
}

proof fn lemma_move_final(before: Seq<Vec<u8>>, fin: Seq<Vec<u8>>, s1: Seq<u8>, loc: Loc, slot: int, d: Seq<u8>)
    requires
        before.len() == 1,
        fin.len() == 1,
        0 <= slot,
        slot + 8 <= loc.data_pos,
        loc.data_pos + loc.data_size == loc.ptr_pos,
        loc.ptr_pos + 8 * loc.ptr_count <= s1.len(),
        before[0]@.len() == s1.len(),
        fin[0]@.len() == s1.len(),
        loc.data_size > 0 ==> s1.subrange(loc.data_pos as int, loc.data_pos + loc.data_size) == d,
        d.len() == loc.data_size,
        forall|j: int| 0 <= j < slot + 8 ==> #[trigger] s1[j] == before[0]@[j],
        forall|j: int|
            0 <= j < s1.len() && !(loc.ptr_pos <= j < loc.ptr_pos + 8 * loc.ptr_count) ==> #[trigger] fin[0]@[j] == s1[j],
        follow_spec(before, 0, slot) == Ok::<Loc, Error>(loc),
        decode_spec(le64(before[0]@, slot)) is Struct,
    ensures
        data_of(fin, loc) == d,
        follow_spec(fin, 0, slot) == Ok::<Loc, Error>(loc),
{
    if loc.data_size > 0 {
        assert forall|j: int| 0 <= j < loc.data_size implies #[trigger] data_of(fin, loc)[j] == d[j] by {
            assert(fin[0]@[loc.data_pos + j] == s1[loc.data_pos + j]);
            assert(s1.subrange(loc.data_pos as int, loc.data_pos + loc.data_size)[j] == s1[loc.data_pos + j]);
        }
    }
    assert(data_of(fin, loc) =~= d);
    assert forall|j: int| slot <= j < slot + 8 implies #[trigger] fin[0]@[j] == before[0]@[j] by {
        assert(fin[0]@[j] == s1[j]);
    }
    crate::copy::lemma_follow_grows(before, fin, slot, loc);
}

proof fn lemma_s1_frame(orig: Seq<u8>, before: Seq<u8>, s1: Seq<u8>, slot: int, dp: int, front: Seq<u8>)
    requires
        orig.len() <= dp,
        dp + front.len() <= before.len(),
        before.len() >= orig.len(),
        s1 == splice(before, dp, front),
        forall|j: int| 0 <= j < orig.len() && !(slot <= j < slot + 8) ==> #[trigger] before[j] == orig[j],
    ensures
        forall|j: int| 0 <= j < orig.len() && !(slot <= j < slot + 8) ==> #[trigger] s1[j] == orig[j],
{
    assert forall|j: int| 0 <= j < orig.len() && !(slot <= j < slot + 8) implies #[trigger] s1[j] == orig[j] by {
        assert(s1[j] == before[j]);
    }
}

proof fn lemma_slots_moved(orig: Seq<Vec<u8>>, mid: Seq<Vec<u8>>, fin: Seq<Vec<u8>>, l: Loc, loc: Loc, slot: int)
    requires
        orig.len() == 1,
        mid.len() == 1,
        fin.len() == 1,
        message_wf(orig),
        orig[0]@.len() <= MAX_BUILDER_BYTES,
        loc_in(orig, l),
        loc_in(mid, loc),
        l.segment == 0,
        slot % 8 == 0,
        0 <= slot,
        l.ptr_count > 0 ==> !(l.ptr_pos <= slot < l.ptr_pos + 8 * l.ptr_count),
        slot + 8 <= orig[0]@.len(),
        orig[0]@.len() <= loc.data_pos,
        l.ptr_count <= loc.ptr_count,
        loc.ptr_pos + 8 * loc.ptr_count <= mid[0]@.len(),
        fin[0]@.len() == mid[0]@.len(),
        follow_spec(mid, 0, slot) == Ok::<Loc, Error>(loc),
        decode_spec(le64(mid[0]@, slot)) is Struct,
        forall|j: int| 0 <= j < orig[0]@.len() && !(slot <= j < slot + 8) ==> #[trigger] mid[0]@[j] == orig[0]@[j],
        l.ptr_count == 0 ==> fin[0]@ == mid[0]@,
        l.ptr_count > 0 ==> forall|j: int|
            0 <= j < mid[0]@.len() && !(loc.ptr_pos <= j < loc.ptr_pos + 8 * l.ptr_count) ==> #[trigger] fin[0]@[j] == mid[0]@[j],
        l.ptr_count > 0 ==> forall|q: int|
            0 <= q < l.ptr_count ==> le64(fin[0]@, loc.ptr_pos + 8 * q) == moved_word(
                #[trigger] le64(mid[0]@, l.ptr_pos + 8 * q),
                l.ptr_pos + 8 * q,
            ),
    ensures
        follow_spec(fin, 0, slot) == Ok::<Loc, Error>(loc),
        data_of(fin, loc) == data_of(mid, loc),
        loc_in(fin, loc),
        forall|k: int|
            0 <= k < l.ptr_count ==> #[trigger] moved_slot(orig, fin, crate::copy::slot_of(l, k), crate::copy::slot_of(loc, k)),
{
    assert forall|j: int| slot <= j < slot + 8 implies #[trigger] fin[0]@[j] == mid[0]@[j] by {}
    crate::copy::lemma_follow_grows(mid, fin, slot, loc);
    if loc.data_size > 0 {
        assert(data_of(fin, loc) =~= data_of(mid, loc)) by {
            assert forall|j: int| 0 <= j < loc.data_size implies #[trigger] data_of(fin, loc)[j] == data_of(mid, loc)[j] by {
                assert(fin[0]@[loc.data_pos + j] == mid[0]@[loc.data_pos + j]);
            }
        }
    }
    if l.ptr_count > 0 {
        lemma_moved_all(orig, fin, l, loc, slot, mid[0]@);
    }
}

/// `n` zero bytes.
pub open spec fn zeros(n: int) -> Seq<u8> {
    Seq::new(n as nat, |_i: int| 0u8)
}

impl MessageBuilder {
    pub open spec fn wf(&self) -> bool {
        builder_wf(self.segments@)
    }

    /// A message holding only a null root pointer.
    pub fn new() -> (r: MessageBuilder)
        ensures
            r.wf(),
            r.segments@[0]@ == zeros(8),
    {
        let mut s: Vec<u8> = Vec::new();
        let mut k: usize = 0;
        while k < 8
            invariant
                k <= 8,
                s@ == zeros(k as int),
            decreases 8 - k,
        {
            s.push(0u8);
            k = k + 1;
            assert(s@ =~= zeros(k as int));
        }
        let mut segments: Vec<Vec<u8>> = Vec::new();
        segments.push(s);
        MessageBuilder { segments }
    }

    /// The segments built so far.
    pub fn segments(&self) -> (r: &Vec<Vec<u8>>)
        ensures
            r == &self.segments,
    {
        &self.segments
    }

    /// Allocates a struct of `size` and points the root at it; any earlier root struct
    /// stays in the segment, unreachable.
    pub fn init_root(&mut self, size: StructSize) -> (r: Result<StructBuilder<'_>, Error>)
        requires
            old(self).wf(),
        ensures
            old(self).segments@[0]@.len() + 8 * size.words() > MAX_BUILDER_BYTES <==> r is Err,
            r is Err ==> r == Err::<StructBuilder, Error>(Error::CapacityExceeded),
            r matches Ok(b) ==> b.wf() && b.loc == fresh_loc(
                0,
                old(self).segments@[0]@.len() as int,
                size,
            ) && b.data() == zeros(8 * size.data) && b.loc.ptr_count == size.pointers
                && follow_spec(b.segments@, 0, 0) == Ok::<Loc, Error>(b.loc),
            r matches Ok(b) ==> final(self).segments == *final(b.segments),
            r is Err ==> final(self).segments@ == old(self).segments@,
    {
        match allocate(&mut self.segments, 0, size) {
            Ok(loc) => {
                proof {
                    assert(data_of(self.segments@, loc) =~= zeros(8 * size.data));
                }
                Ok(StructBuilder { segments: &mut self.segments, loc })
            },
            Err(e) => Err(e),
        }
    }

    /// The root struct as a reader.
    pub fn get_root_as_reader(&self, nesting_limit: u32) -> (r: Result<StructReader<'_>, Error>)
        requires
            self.wf(),
        ensures
            crate::reader::result_loc(r) == (crate::reader::PointerReader {
                segments: &self.segments,
                segment: 0,
                pos: Some(0),
                nesting_limit,
            }).struct_spec(),
            r matches Ok(s) ==> s.wf() && s.segments == &self.segments && s.nesting_limit == crate::reader::child_limit(nesting_limit),
    {
        StructReader::root(&self.segments, nesting_limit)
    }
}

impl<'a> StructBuilder<'a> {
    pub open spec fn wf(&self) -> bool {
        &&& builder_wf(self.segments@)
        &&& loc_in(self.segments@, self.loc)
        &&& self.loc.segment == 0
    }

    /// The bytes of the data section.
    pub open spec fn data(&self) -> Seq<u8> {
        data_of(self.segments@, self.loc)
    }

    /// The word in pointer slot `index`.
    pub open spec fn slot_word(&self, index: usize) -> u64 {
        le64(self.segments@[0]@, self.loc.ptr_pos + 8 * index)
    }

    /// Where pointer slot `index` leads.
    pub open spec fn slot_target(&self, index: usize) -> Result<Loc, Error> {
        follow_spec(self.segments@, 0, self.loc.ptr_pos + 8 * index)
    }

    /// The message this builder writes into.
    pub open spec fn msg(&self) -> Seq<Vec<u8>> {
        self.segments@
    }

    /// Words and capabilities that this struct and what it leads to take, read with the nesting limit
    /// that `borrow_as_reader` gives.
    pub open spec fn reachable_size(&self) -> Result<(int, int), Error> {
        crate::size::size_of(self.segments@, self.loc, READER_LIMIT as nat)
    }

    /// Writes the low `width` bytes of `v`, little-endian, at byte `off` of the data
    /// section.
    fn put(&mut self, off: usize, v: u64, width: usize)
        requires
            old(self).wf(),
            width == 1 || width == 2 || width == 4 || width == 8,
            off + width <= old(self).data().len(),
            width == 1 ==> v < 0x100,
            width == 2 ==> v < 0x1_0000,
            width == 4 ==> v < 0x1_0000_0000,
        ensures
            final(self).wf(),
            final(self).loc == old(self).loc,
            width == 1 ==> final(self).data() =~= old(self).data().update(off as int, v as u8),
            width == 2 ==> final(self).data() =~= splice(old(self).data(), off as int, bytes16(v as u16)),
            width == 4 ==> final(self).data() =~= splice(old(self).data(), off as int, bytes32(v as u32)),
            width == 8 ==> final(self).data() =~= splice(old(self).data(), off as int, bytes64(v)),
            final(self).segments@.len() == 1,
            width == 1 ==> final(self).segments@[0]@ == old(self).segments@[0]@.update(old(self).loc.data_pos + off, v as u8),
            width == 2 ==> final(self).segments@[0]@ =~= splice(old(self).segments@[0]@, old(self).loc.data_pos + off, bytes16(v as u16)),
            width == 4 ==> final(self).segments@[0]@ =~= splice(old(self).segments@[0]@, old(self).loc.data_pos + off, bytes32(v as u32)),
            width == 8 ==> final(self).segments@[0]@ =~= splice(old(self).segments@[0]@, old(self).loc.data_pos + off, bytes64(v)),
    {
        let ghost d0 = self.data();
        let ghost s0 = self.segments@[0]@;
        let at = self.loc.data_pos + off;
        let mut s = self.segments.pop().unwrap();
        if width == 1 {
            s.set(at, v as u8);
        } else if width == 2 {
            write_u16(&mut s, at, v as u16);
        } else if width == 4 {
            write_u32(&mut s, at, v as u32);
        } else {
            write_u64(&mut s, at, v);
        }
        self.segments.push(s);
        proof {
            let dp = self.loc.data_pos as int;
            let ds = self.loc.data_size as int;
            assert(self.segments@.len() == 1);
            assert(self.segments@[0]@ == s@);
            assert(d0 =~= s0.subrange(dp, dp + ds));
            if width == 1 {
                assert(s@.subrange(dp, dp + ds) =~= d0.update(off as int, v as u8));
            } else if width == 2 {
                assert(s@.subrange(dp, dp + ds) =~= splice(d0, off as int, bytes16(v as u16)));
            } else if width == 4 {
                assert(s@.subrange(dp, dp + ds) =~= splice(d0, off as int, bytes32(v as u32)));
            } else {
                assert(s@.subrange(dp, dp + ds) =~= splice(d0, off as int, bytes64(v)));
            }
        }
    }

    /// Stores an 8-bit field at byte `off`, as the XOR with its default.
    pub fn set_u8(&mut self, off: usize, v: u8, default: u8)
        requires
            old(self).wf(),
            off + 1 <= old(self).data().len(),
        ensures
            final(self).wf(),
            final(self).loc == old(self).loc,
            final(self).data() == old(self).data().update(off as int, v ^ default),
            final(self).segments@.len() == 1,
            final(self).segments@[0]@ == old(self).segments@[0]@.update(old(self).loc.data_pos + off, v ^ default),
    {
        self.put(off, (v ^ default) as u64, 1);
    }

    pub fn set_u16(&mut self, off: usize, v: u16, default: u16)
        requires
            old(self).wf(),
            off + 2 <= old(self).data().len(),
        ensures
            final(self).wf(),
            final(self).loc == old(self).loc,
            final(self).data() == splice(old(self).data(), off as int, bytes16(v ^ default)),
            final(self).segments@.len() == 1,
            final(self).segments@[0]@ == splice(old(self).segments@[0]@, old(self).loc.data_pos + off, bytes16(v ^ default)),
    {
        self.put(off, (v ^ default) as u64, 2);
    }

    pub fn set_u32(&mut self, off: usize, v: u32, default: u32)
        requires
            old(self).wf(),
            off + 4 <= old(self).data().len(),
        ensures
            final(self).wf(),
            final(self).loc == old(self).loc,
            final(self).data() == splice(old(self).data(), off as int, bytes32(v ^ default)),
            final(self).segments@.len() == 1,
            final(self).segments@[0]@ == splice(old(self).segments@[0]@, old(self).loc.data_pos + off, bytes32(v ^ default)),
    {
        self.put(off, (v ^ default) as u64, 4);
    }

    pub fn set_u64(&mut self, off: usize, v: u64, default: u64)
        requires
            old(self).wf(),
            off + 8 <= old(self).data().len(),
        ensures
            final(self).wf(),
            final(self).loc == old(self).loc,
            final(self).data() == splice(old(self).data(), off as int, bytes64(v ^ default)),
            final(self).segments@.len() == 1,
            final(self).segments@[0]@ == splice(old(self).segments@[0]@, old(self).loc.data_pos + off, bytes64(v ^ default)),
    {
        self.put(off, v ^ default, 8);
    }

    /// A reader over the same struct, for as long as this builder is borrowed.
    pub fn borrow_as_reader(&self) -> (r: StructReader<'_>)
        requires
            self.wf(),
        ensures
            r.wf(),
            r.loc == self.loc,
            r.data() == self.data(),
            r.nesting_limit == READER_LIMIT,
            r.segments@ == self.msg(),
            crate::size::size_of(r.segments@, r.loc, READER_LIMIT as nat) == self.reachable_size(),
    {
        StructReader { segments: &*self.segments, loc: self.loc, nesting_limit: READER_LIMIT }
    }

    /// A reader over the same struct, taking the builder's place.
    pub fn as_reader(self) -> (r: StructReader<'a>)
        requires
            self.wf(),
        ensures
            r.wf(),
            r.loc == self.loc,
            r.data() == self.data(),
            r.nesting_limit == READER_LIMIT,
            r.segments@ == self.msg(),
    {
        StructReader { segments: self.segments, loc: self.loc, nesting_limit: READER_LIMIT }
    }

    pub fn get_u8(&self, off: usize, default: u8) -> (r: u8)
        requires
            self.wf(),
        ensures
            r == field8(self.data(), off as int, default),
    {
        self.borrow_as_reader().get_u8(off, default)
    }

    pub fn get_u16(&self, off: usize, default: u16) -> (r: u16)
        requires
            self.wf(),
        ensures
            r == field16(self.data(), off as int, default),
    {
        self.borrow_as_reader().get_u16(off, default)
    }

    pub fn get_u32(&self, off: usize, default: u32) -> (r: u32)
        requires
            self.wf(),
        ensures
            r == field32(self.data(), off as int, default),
    {
        self.borrow_as_reader().get_u32(off, default)
    }

    pub fn get_u64(&self, off: usize, default: u64) -> (r: u64)
        requires
            self.wf(),
        ensures
            r == field64(self.data(), off as int, default),
    {
        self.borrow_as_reader().get_u64(off, default)
    }

    /// A builder over the same struct that holds this one's borrow.
    pub fn reborrow(&mut self) -> (r: StructBuilder<'_>)
        requires
            old(self).wf(),
        ensures
            r.wf(),
            r.loc == old(self).loc,
            r.segments@ == old(self).segments@,
            *r.segments == *old(self).segments,
            final(self).loc == old(self).loc,
            *final(self).segments == *final(r.segments),
    {
        StructBuilder { segments: &mut *self.segments, loc: self.loc }
    }

    /// Allocates a zeroed struct of `size` and points slot `index` at it; a struct
    /// the slot led to before stays in the segment, unreachable.
    pub fn alloc_struct_field(&mut self, index: usize, size: StructSize) -> (r: Result<Loc, Error>)
        requires
            old(self).wf(),
            index < old(self).loc.ptr_count,
        ensures
            final(self).wf(),
            final(self).loc == old(self).loc,
            final(self).data() == old(self).data(),
            old(self).segments@[0]@.len() + 8 * size.words() > MAX_BUILDER_BYTES ==> r == Err::<Loc, Error>(
                Error::CapacityExceeded,
            ),
            old(self).segments@[0]@.len() + 8 * size.words() <= MAX_BUILDER_BYTES ==> r == Ok::<Loc, Error>(
                fresh_loc(old(self).loc.ptr_pos + 8 * index, old(self).segments@[0]@.len() as int, size),
            ),
            r matches Ok(l) ==> loc_in(final(self).segments@, l) && l.segment == 0 && follow_spec(
                final(self).segments@,
                0,
                old(self).loc.ptr_pos + 8 * index,
            ) == Ok::<Loc, Error>(l) && data_of(final(self).segments@, l) == zeros(8 * size.data),
            r is Ok ==> decode_spec(le64(final(self).segments@[0]@, old(self).loc.ptr_pos + 8 * index)) is Struct,
            r is Ok ==> forall|j: int|
                0 <= j < old(self).segments@[0]@.len() && !(old(self).loc.ptr_pos + 8 * index <= j < old(self).loc.ptr_pos
                    + 8 * index + 8) ==> #[trigger] final(self).segments@[0]@[j] == old(self).segments@[0]@[j],
    {
        let ghost s0 = self.segments@[0]@;
        let ghost d0 = self.data();
        let _n = self.segments[0].len();
        assert(8 * index + 8 <= 8 * self.loc.ptr_count) by (nonlinear_arith)
            requires
                index < self.loc.ptr_count,
        ;
        let slot = self.loc.ptr_pos + 8 * index;
        let r = allocate(&mut *self.segments, slot, size);
        proof {
            if r is Ok {
                let s1 = self.segments@[0]@;
                let dp = self.loc.data_pos as int;
                let ds = self.loc.data_size as int;
                if ds > 0 {
                    assert(s1.subrange(dp, dp + ds) =~= s0.subrange(dp, dp + ds));
                }
                assert(self.data() =~= d0);
                let l = r->Ok_0;
                if size.data > 0 {
                    assert(data_of(self.segments@, l) =~= zeros(8 * size.data));
                } else {
                    assert(data_of(self.segments@, l) =~= zeros(8 * size.data));
                }
            }
        }
        r
    }

    /// A builder over the struct at `loc` of the same message.
    pub fn struct_at(&mut self, loc: Loc) -> (r: StructBuilder<'_>)
        requires
            old(self).wf(),
            loc_in(old(self).segments@, loc),
            loc.segment == 0,
        ensures
            r.wf(),
            r.loc == loc,
            r.segments@ == old(self).segments@,
            final(self).loc == old(self).loc,
            *final(self).segments == *final(r.segments),
    {
        StructBuilder { segments: &mut *self.segments, loc }
    }

    /// Allocates a zeroed struct of `size`, points slot `index` at it, and gives a
    /// builder over it.
    pub fn init_struct_field(&mut self, index: usize, size: StructSize) -> (r: Result<StructBuilder<'_>, Error>)
        requires
            old(self).wf(),
            index < old(self).loc.ptr_count,
        ensures
            old(self).segments@[0]@.len() + 8 * size.words() > MAX_BUILDER_BYTES <==> r is Err,
            r is Err ==> r == Err::<StructBuilder, Error>(Error::CapacityExceeded),
            r matches Ok(b) ==> b.wf() && b.loc == fresh_loc(
                old(self).loc.ptr_pos + 8 * index,
                old(self).segments@[0]@.len() as int,
                size,
            ) && b.data() == zeros(8 * size.data) && follow_spec(
                b.segments@,
                0,
                old(self).loc.ptr_pos + 8 * index,
            ) == Ok::<Loc, Error>(b.loc),
            r matches Ok(b) ==> final(self).loc == old(self).loc && *final(self).segments == *final(b.segments),
    {
        match self.alloc_struct_field(index, size) {
            Ok(loc) => Ok(self.struct_at(loc)),
            Err(e) => Err(e),
        }
    }

    /// Allocates a struct that covers both the layout of the smaller struct at `l`
    /// and `size`, points slot `index` at it, and copies the data of the struct at `l`
    /// to its front.
    #[verifier::rlimit(100)]
    #[verifier::spinoff_prover]
    fn grow_copy(&mut self, index: usize, size: StructSize, l: Loc) -> (r: Result<Loc, Error>)
        requires
            old(self).wf(),
            index < old(self).loc.ptr_count,
            loc_in(old(self).segments@, l),
            l.segment == 0,
            !(8 * size.data <= l.data_size && size.pointers <= l.ptr_count),
        ensures
            final(self).wf(),
            final(self).loc == old(self).loc,
            old(self).segments@[0]@.len() + 8 * covering(l, size).words() <= MAX_BUILDER_BYTES <==> r is Ok,
            r is Err ==> r == Err::<Loc, Error>(Error::CapacityExceeded),
            r matches Ok(loc) ==> loc_in(final(self).segments@, loc) && loc.segment == 0 && loc.ptr_count
                == covering(l, size).pointers && loc.data_size == 8 * covering(l, size).data && follow_spec(
                final(self).segments@,
                0,
                old(self).loc.ptr_pos + 8 * index,
            ) == Ok::<Loc, Error>(loc) && decode_spec(le64(final(self).segments@[0]@, old(self).loc.ptr_pos + 8 * index)) is Struct
                && data_of(final(self).segments@, loc) == data_of(old(self).segments@, l) + zeros(8 * covering(l, size).data - l.data_size)
                && old(self).segments@[0]@.len() <= loc.data_pos && loc.ptr_pos + 8 * loc.ptr_count <= final(self).segments@[0]@.len(),
            r is Ok ==> forall|j: int|
                0 <= j < old(self).segments@[0]@.len() && !(old(self).loc.ptr_pos + 8 * index <= j < old(self).loc.ptr_pos
                    + 8 * index + 8) ==> #[trigger] final(self).segments@[0]@[j] == old(self).segments@[0]@[j],
    {
        let _n = self.segments[0].len();
        assert(8 * index + 8 <= 8 * self.loc.ptr_count) by (nonlinear_arith)
            requires
                index < self.loc.ptr_count,
        ;
        let slot = self.loc.ptr_pos + 8 * index;
        let ghost orig = self.segments@;
        let ghost old_data = data_of(self.segments@, l);
        let keep = if l.data_size > 0 {
            crate::framing::copy_range(&self.segments[0], l.data_pos, l.data_pos + l.data_size)
        } else {
            Vec::new()
        };
        assert(keep@ =~= old_data);
        let bigger = StructSize {
            data: if (l.data_size / 8) as u16 > size.data { (l.data_size / 8) as u16 } else { size.data },
            pointers: if l.ptr_count as u16 > size.pointers { l.ptr_count as u16 } else { size.pointers },
        };
        assert(bigger == covering(l, size));
        assert(bigger.words() > 0);
        let loc = match self.alloc_struct_field(index, bigger) {
            Ok(loc) => loc,
            Err(e) => {
                return Err(e);
            },
        };
        let ghost before = self.segments@;
        let mut s = self.segments.pop().unwrap();
        crate::bytes::write_bytes(&mut s, loc.data_pos, keep.as_slice());
        let ghost s1 = s@;
        proof {
            if loc.data_size > 0 {
                assert(data_of(before, loc) == zeros(8 * bigger.data));
            }
            lemma_front(before[0]@, s1, loc.data_pos as int, loc.data_size as int, old_data);
            lemma_s1_frame(orig[0]@, before[0]@, s1, slot as int, loc.data_pos as int, old_data);
        }
        self.segments.push(s);
        proof {
            lemma_move_final(before, self.segments@, s1, loc, slot as int, old_data + zeros(8 * bigger.data - l.data_size));
            crate::copy::lemma_le64_same(before[0]@, s1, slot as int);
        }
        Ok(loc)
    }

    /// Moves the struct at `l`, which slot `index` leads to and which is smaller than
    /// `size`, to a fresh struct that covers both layouts: its data is kept at the
    /// front and its pointer slots are moved.
    #[verifier::rlimit(100)]
    #[verifier::spinoff_prover]
    fn move_struct(&mut self, index: usize, size: StructSize, l: Loc) -> (r: Result<Loc, Error>)
        requires
            old(self).wf(),
            index < old(self).loc.ptr_count,
            loc_in(old(self).segments@, l),
            l.segment == 0,
            !(l.ptr_pos <= old(self).loc.ptr_pos + 8 * index < l.ptr_pos + 8 * l.ptr_count),
            !(8 * size.data <= l.data_size && size.pointers <= l.ptr_count),
        ensures
            final(self).wf(),
            final(self).loc == old(self).loc,
            old(self).segments@[0]@.len() + 8 * covering(l, size).words() <= MAX_BUILDER_BYTES <==> r is Ok,
            r is Err ==> r == Err::<Loc, Error>(Error::CapacityExceeded),
            r matches Ok(loc) ==> loc_in(final(self).segments@, loc) && loc.segment == 0 && loc.ptr_count
                == covering(l, size).pointers && loc.data_size == 8 * covering(l, size).data && follow_spec(
                final(self).segments@,
                0,
                old(self).loc.ptr_pos + 8 * index,
            ) == Ok::<Loc, Error>(loc) && data_of(final(self).segments@, loc) == data_of(old(self).segments@, l)
                + zeros(8 * covering(l, size).data - l.data_size) && forall|k: int|
                0 <= k < l.ptr_count ==> #[trigger] moved_slot(
                    old(self).segments@,
                    final(self).segments@,
                    crate::copy::slot_of(l, k),
                    crate::copy::slot_of(loc, k),
                ),
    {
        let ghost orig = self.segments@;
        let ghost slot = self.loc.ptr_pos + 8 * index;
        let loc = match self.grow_copy(index, size, l) {
            Ok(loc) => loc,
            Err(e) => {
                return Err(e);
            },
        };
        let ghost mid = self.segments@;
        let mut s = self.segments.pop().unwrap();
        let ghost s1 = s@;
        if l.ptr_count > 0 {
            assert(8 * (l.ptr_pos / 8) == l.ptr_pos);
            move_slots(&mut s, l.ptr_pos, loc.ptr_pos, l.ptr_count);
        }
        self.segments.push(s);
        proof {
            lemma_slots_moved(orig, mid, self.segments@, l, loc, slot);
        }
        Ok(loc)
    }

    /// Opens the struct that slot `index` leads to for writing, laid out at least as
    /// `size`. A null slot gets a fresh zeroed struct; a struct already that large
    /// is opened where it lies; a smaller one is moved to a
    /// fresh struct covering both layouts, its data kept at the front (the rest
    /// zero) and its pointer slots moved (see `moved_slot`). A smaller struct whose
    /// pointer section holds this very slot gives `MalformedPointer`, and a slot that
    /// cannot be followed its error.
    #[verifier::rlimit(100)]
    #[verifier::spinoff_prover]
    pub fn get_struct_field(&mut self, index: usize, size: StructSize) -> (r: Result<StructBuilder<'_>, Error>)
        requires
            old(self).wf(),
            index < old(self).loc.ptr_count,
        ensures
            old(self).slot_word(index) == 0 ==> (old(self).segments@[0]@.len() + 8 * size.words()
                <= MAX_BUILDER_BYTES <==> r is Ok),
            old(self).slot_word(index) == 0 && r is Err ==> r == Err::<StructBuilder, Error>(Error::CapacityExceeded),
            old(self).slot_word(index) != 0 && old(self).slot_target(index) is Err ==> crate::reader::result_loc_builder(r)
                == old(self).slot_target(index),
            old(self).slot_word(index) != 0 && old(self).slot_target(index) is Ok && 8 * size.data
                <= old(self).slot_target(index)->Ok_0.data_size && size.pointers <= old(self).slot_target(
                index,
            )->Ok_0.ptr_count ==> r is Ok && r->Ok_0.loc == old(self).slot_target(index)->Ok_0
                && r->Ok_0.segments@ == old(self).segments@,
            r matches Ok(b) ==> b.wf() && b.data().len() >= 8 * size.data && b.loc.ptr_count >= size.pointers
                && follow_spec(b.segments@, 0, old(self).loc.ptr_pos + 8 * index) == Ok::<Loc, Error>(b.loc),
            r matches Ok(b) ==> final(self).loc == old(self).loc && *final(self).segments == *final(b.segments),
            old(self).slot_word(index) == 0 && r is Ok ==> r->Ok_0.loc == fresh_loc(
                old(self).loc.ptr_pos + 8 * index,
                old(self).segments@[0]@.len() as int,
                size,
            ) && r->Ok_0.data() == zeros(8 * size.data),
            ({
                let l = old(self).slot_target(index)->Ok_0;
                let slot = old(self).loc.ptr_pos + 8 * index;
                old(self).slot_word(index) != 0 && old(self).slot_target(index) is Ok && !(8 * size.data <= l.data_size
                    && size.pointers <= l.ptr_count) ==> {
                    &&& (l.ptr_pos <= slot < l.ptr_pos + 8 * l.ptr_count) ==> r == Err::<StructBuilder, Error>(
                        Error::MalformedPointer,
                    )
                    &&& (!(l.ptr_pos <= slot < l.ptr_pos + 8 * l.ptr_count) && old(self).segments@[0]@.len() + 8
                        * covering(l, size).words() <= MAX_BUILDER_BYTES) ==> r is Ok
                    &&& (!(l.ptr_pos <= slot < l.ptr_pos + 8 * l.ptr_count) && old(self).segments@[0]@.len() + 8
                        * covering(l, size).words() > MAX_BUILDER_BYTES) ==> r == Err::<StructBuilder, Error>(
                        Error::CapacityExceeded,
                    )
                    &&& r is Ok ==> r->Ok_0.loc.ptr_count == covering(l, size).pointers && r->Ok_0.data() == data_of(
                        old(self).segments@,
                        l,
                    ) + zeros(8 * covering(l, size).data - l.data_size) && forall|k: int|
                        0 <= k < l.ptr_count ==> #[trigger] moved_slot(
                            old(self).segments@,
                            r->Ok_0.msg(),
                            crate::copy::slot_of(l, k),
                            crate::copy::slot_of(r->Ok_0.loc, k),
                        )
                }
            }),
            r is Ok && old(self).slot_word(index) != 0 ==> old(self).slot_target(index) is Ok && data_of(
                old(self).segments@,
                old(self).slot_target(index)->Ok_0,
            ) == r->Ok_0.data().subrange(0, old(self).slot_target(index)->Ok_0.data_size as int),
    {
        let _n = self.segments[0].len();
        assert(8 * index + 8 <= 8 * self.loc.ptr_count) by (nonlinear_arith)
            requires
                index < self.loc.ptr_count,
        ;
        let slot = self.loc.ptr_pos + 8 * index;
        assert(slot % 8 == 0) by {
            assert((8 * index) % 8 == 0) by (nonlinear_arith);
        }
        if read_u64(&self.segments[0], slot) == 0 {
            return self.init_struct_field(index, size);
        }
        let l = match follow(&*self.segments, 0, slot) {
            Ok(l) => l,
            Err(e) => {
                return Err(e);
            },
        };
        let need = 8 * (size.data as usize);
        if need <= l.data_size && (size.pointers as usize) <= l.ptr_count {
            return Ok(self.struct_at(l));
        }
        if l.ptr_count > 0 && slot >= l.ptr_pos && slot - l.ptr_pos < 8 * l.ptr_count {
            return Err(Error::MalformedPointer);
        }
        let loc = match self.move_struct(index, size, l) {
            Ok(loc) => loc,
            Err(e) => {
                return Err(e);
            },
        };
        proof {
            let zs = zeros(8 * covering(l, size).data - l.data_size);
            assert((data_of(old(self).segments@, l) + zs).subrange(0, l.data_size as int) =~= data_of(
                old(self).segments@,
                l,
            ));
        }
        Ok(self.struct_at(loc))
    }
}

} // verus!
