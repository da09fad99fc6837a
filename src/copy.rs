use vstd::prelude::*;
use crate::builder::{builder_wf, MessageBuilder, StructBuilder};
use crate::bytes::{le64, read_u64};
use crate::pointer::{decode_spec, Error, StructSize};
use crate::size::{
    lemma_err_stays_struct, lemma_ptr_words_mono, lemma_ptr_words_nonneg, lemma_step_child, lemma_step_err,
    lemma_step_null, lemma_ptr_words_zero, lemma_struct_words_unfold, ptr_words, struct_words,
};
use crate::builder::MAX_BUILDER_BYTES;
use crate::reader::{data_of, follow, follow_spec, loc_in, message_wf, Loc, StructReader};

verus! {

/// `b` keeps every byte of `a` outside the word at `slot`, and may be longer.
pub open spec fn keeps_outside(a: Seq<u8>, b: Seq<u8>, slot: int) -> bool {
    &&& b.len() >= a.len()
    &&& forall|j: int| 0 <= j < a.len() && !(slot <= j < slot + 8) ==> #[trigger] b[j] == a[j]
}

pub(crate) proof fn lemma_follow_grows(a: Seq<Vec<u8>>, b: Seq<Vec<u8>>, pos: int, l: Loc)
    requires
        a.len() == 1,
        b.len() == 1,
        0 <= pos,
        pos + 8 <= a[0]@.len(),
        b[0]@.len() >= a[0]@.len(),
        forall|j: int| pos <= j < pos + 8 ==> #[trigger] b[0]@[j] == a[0]@[j],
        follow_spec(a, 0, pos) == Ok::<Loc, Error>(l),
        decode_spec(le64(a[0]@, pos)) is Struct,
    ensures
        follow_spec(b, 0, pos) == Ok::<Loc, Error>(l),
{
    reveal_with_fuel(same_graph, 1);
    reveal_with_fuel(reads_within, 1);
    assert(le64(b[0]@, pos) == le64(a[0]@, pos));
}

/// Byte position of pointer slot `i` of the struct at `l`.
pub open spec fn slot_of(l: Loc, i: int) -> int {
    l.ptr_pos + 8 * i
}

/// The struct at `dl` of `ds` matches the struct at `sl` of `ss`, down `limit` levels of
/// pointers: the same data, the same number of pointer slots, a null slot where the
/// source has one, and a matching struct behind every other slot.
#[verifier::opaque]
pub open spec fn same_graph(ss: Seq<Vec<u8>>, sl: Loc, ds: Seq<Vec<u8>>, dl: Loc, limit: nat) -> bool
    decreases limit,
{
    &&& data_of(ss, sl) == data_of(ds, dl)
    &&& sl.data_size == dl.data_size
    &&& sl.ptr_count == dl.ptr_count
    &&& forall|i: int|
        0 <= i < sl.ptr_count ==> if le64(ss[sl.segment as int]@, #[trigger] slot_of(sl, i)) == 0 {
            le64(ds[0]@, slot_of(dl, i)) == 0
        } else {
            limit > 0 && match (follow_spec(ss, sl.segment as int, slot_of(sl, i)), follow_spec(ds, 0, slot_of(dl, i))) {
                (Ok(c), Ok(e)) => same_graph(ss, c, ds, e, (limit - 1) as nat),
                _ => false,
            }
        }
}

/// Every byte that `same_graph` reads of the struct at `dl` of the one-segment
/// message `ds`, and of what it leads to, lies in `[lo, hi)`, and every pointer on the
/// way is a struct pointer.
#[verifier::opaque]
pub open spec fn reads_within(ds: Seq<Vec<u8>>, dl: Loc, limit: nat, lo: int, hi: int) -> bool
    decreases limit,
{
    &&& dl.segment == 0
    &&& dl.ptr_pos == dl.data_pos + dl.data_size
    &&& (dl.data_size > 0 || dl.ptr_count > 0) ==> lo <= dl.data_pos && dl.ptr_pos + 8 * dl.ptr_count <= hi
    &&& forall|i: int|
        0 <= i < dl.ptr_count ==> (le64(ds[0]@, #[trigger] slot_of(dl, i)) != 0 ==> (decode_spec(
            le64(ds[0]@, slot_of(dl, i)),
        ) is Struct && limit > 0 && match follow_spec(ds, 0, slot_of(dl, i)) {
            Ok(e) => reads_within(ds, e, (limit - 1) as nat, lo, hi),
            Err(_) => false,
        }))
}

/// Bytes outside `[lo, hi)` do not matter to a copy that reads only there, and the
/// message may grow.
proof fn lemma_frame(ss: Seq<Vec<u8>>, sl: Loc, ds: Seq<Vec<u8>>, ds2: Seq<Vec<u8>>, dl: Loc, limit: nat, lo: int, hi: int)
    requires
        same_graph(ss, sl, ds, dl, limit),
        reads_within(ds, dl, limit, lo, hi),
        ds.len() == 1,
        ds2.len() == 1,
        ds2[0]@.len() >= ds[0]@.len(),
        0 <= lo,
        hi <= ds[0]@.len(),
        forall|j: int| lo <= j < hi ==> #[trigger] ds2[0]@[j] == ds[0]@[j],
    ensures
        same_graph(ss, sl, ds2, dl, limit),
        reads_within(ds2, dl, limit, lo, hi),
    decreases limit, 1nat,
{
    reveal_with_fuel(same_graph, 1);
    reveal_with_fuel(reads_within, 1);
    reveal(slot_frame);
    if dl.data_size > 0 {
        assert(data_of(ds2, dl) =~= data_of(ds, dl));
    }
    assert forall|i: int|
        #![trigger slot_of(sl, i)]
        #![trigger slot_of(dl, i)]
        0 <= i < sl.ptr_count implies slot_frame(ss, sl, ds2, dl, limit, lo, hi, slot_of(sl, i), slot_of(dl, i)) by {
        assert(8 * i + 8 <= 8 * dl.ptr_count) by (nonlinear_arith)
            requires
                0 <= i < dl.ptr_count,
        ;
        lemma_frame_slot(ss, sl, ds, ds2, dl, limit, lo, hi, slot_of(sl, i), slot_of(dl, i));
    }
}

/// What `same_graph` and `reads_within` say of one slot, at source byte `sp` and
/// destination byte `dp`.
#[verifier::opaque]
pub open spec fn slot_frame(ss: Seq<Vec<u8>>, sl: Loc, ds: Seq<Vec<u8>>, dl: Loc, limit: nat, lo: int, hi: int, sp: int, dp: int) -> bool {
    &&& (le64(ss[sl.segment as int]@, sp) == 0 ==> le64(ds[0]@, dp) == 0)
    &&& (le64(ss[sl.segment as int]@, sp) != 0 ==> limit > 0 && match (follow_spec(ss, sl.segment as int, sp), follow_spec(ds, 0, dp)) {
            (Ok(c), Ok(e)) => same_graph(ss, c, ds, e, (limit - 1) as nat),
            _ => false,
        })
    &&& (le64(ds[0]@, dp) != 0 ==> (decode_spec(le64(ds[0]@, dp)) is Struct && limit > 0 && match follow_spec(ds, 0, dp) {
            Ok(e) => reads_within(ds, e, (limit - 1) as nat, lo, hi),
            Err(_) => false,
        }))
}

#[verifier::rlimit(80)]
proof fn lemma_frame_slot(ss: Seq<Vec<u8>>, sl: Loc, ds: Seq<Vec<u8>>, ds2: Seq<Vec<u8>>, dl: Loc, limit: nat, lo: int, hi: int, sp: int, dp: int)
    requires
        slot_frame(ss, sl, ds, dl, limit, lo, hi, sp, dp),
        0 <= dp,
        dp + 8 <= ds[0]@.len(),
        forall|j: int| dp <= j < dp + 8 ==> #[trigger] ds2[0]@[j] == ds[0]@[j],
        ds.len() == 1,
        ds2.len() == 1,
        ds2[0]@.len() >= ds[0]@.len(),
        0 <= lo,
        hi <= ds[0]@.len(),
        forall|j: int| lo <= j < hi ==> #[trigger] ds2[0]@[j] == ds[0]@[j],
    ensures
        slot_frame(ss, sl, ds2, dl, limit, lo, hi, sp, dp),
    decreases limit, 0nat,
{
    reveal_with_fuel(same_graph, 1);
    reveal_with_fuel(reads_within, 1);
    reveal(slot_frame);
    lemma_le64_same(ds[0]@, ds2[0]@, dp);
    if le64(ds[0]@, dp) != 0 {
        let e = follow_spec(ds, 0, dp)->Ok_0;
        lemma_follow_grows(ds, ds2, dp, e);
        if le64(ss[sl.segment as int]@, sp) != 0 {
            let c = follow_spec(ss, sl.segment as int, sp)->Ok_0;
            lemma_frame(ss, c, ds, ds2, e, (limit - 1) as nat, lo, hi);
        }
    }
}

/// `reads_within` holds of any wider range.
proof fn lemma_within_widen(ds: Seq<Vec<u8>>, dl: Loc, limit: nat, lo: int, hi: int, lo2: int, hi2: int)
    requires
        reads_within(ds, dl, limit, lo, hi),
        lo2 <= lo,
        hi <= hi2,
    ensures
        reads_within(ds, dl, limit, lo2, hi2),
    decreases limit,
{
    reveal_with_fuel(same_graph, 1);
    reveal_with_fuel(reads_within, 1);
    assert forall|i: int| 0 <= i < dl.ptr_count implies (le64(ds[0]@, #[trigger] slot_of(dl, i)) != 0 ==> (decode_spec(
            le64(ds[0]@, slot_of(dl, i)),
        ) is Struct && limit > 0 && match follow_spec(ds, 0, slot_of(dl, i)) {
            Ok(e) => reads_within(ds, e, (limit - 1) as nat, lo2, hi2),
            Err(_) => false,
        })) by {
        if le64(ds[0]@, slot_of(dl, i)) != 0 {
            let e = follow_spec(ds, 0, slot_of(dl, i))->Ok_0;
            lemma_within_widen(ds, e, (limit - 1) as nat, lo, hi, lo2, hi2);
        }
    }
}

proof fn lemma_slot_frame_widen(ss: Seq<Vec<u8>>, sl: Loc, ds: Seq<Vec<u8>>, dl: Loc, limit: nat, lo: int, hi: int, lo2: int, hi2: int, sp: int, dp: int)
    requires
        slot_frame(ss, sl, ds, dl, limit, lo, hi, sp, dp),
        lo2 <= lo,
        hi <= hi2,
    ensures
        slot_frame(ss, sl, ds, dl, limit, lo2, hi2, sp, dp),
{
    reveal_with_fuel(same_graph, 1);
    reveal_with_fuel(reads_within, 1);
    reveal(slot_frame);
    if le64(ds[0]@, dp) != 0 {
        let e = follow_spec(ds, 0, dp)->Ok_0;
        lemma_within_widen(ds, e, (limit - 1) as nat, lo, hi, lo2, hi2);
    }
}

proof fn lemma_assemble(ss: Seq<Vec<u8>>, sl: Loc, ds: Seq<Vec<u8>>, dl: Loc, limit: nat, lo: int, lo2: int, hi: int)
    requires
        data_of(ss, sl) == data_of(ds, dl),
        sl.data_size == dl.data_size,
        sl.ptr_count == dl.ptr_count,
        dl.segment == 0,
        dl.ptr_pos == dl.data_pos + dl.data_size,
        (dl.data_size > 0 || dl.ptr_count > 0) ==> lo <= dl.data_pos && dl.ptr_pos + 8 * dl.ptr_count <= hi,
        lo <= lo2,
        forall|k: int|
            #![trigger slot_of(dl, k)]
            0 <= k < dl.ptr_count ==> slot_frame(ss, sl, ds, dl, limit, lo2, hi, slot_of(sl, k), slot_of(dl, k)),
    ensures
        same_graph(ss, sl, ds, dl, limit),
        reads_within(ds, dl, limit, lo, hi),
{
    reveal_with_fuel(same_graph, 1);
    reveal_with_fuel(reads_within, 1);
    reveal(slot_frame);
    assert forall|k: int|
        #![trigger slot_of(sl, k)]
        #![trigger slot_of(dl, k)]
        0 <= k < dl.ptr_count implies slot_frame(ss, sl, ds, dl, limit, lo, hi, slot_of(sl, k), slot_of(dl, k)) by {
        lemma_slot_frame_widen(ss, sl, ds, dl, limit, lo2, hi, lo, hi, slot_of(sl, k), slot_of(dl, k));
    }
}

#[verifier::rlimit(60)]
proof fn lemma_child_step(
    ss: Seq<Vec<u8>>,
    src: Loc,
    before: Seq<Vec<u8>>,
    after: Seq<Vec<u8>>,
    l: Loc,
    limit: nat,
    lo: int,
    i: int,
    c: Loc,
    e: Loc,
)
    requires
        before.len() == 1,
        after.len() == 1,
        limit > 0,
        0 <= i < l.ptr_count,
        src.ptr_count == l.ptr_count,
        0 <= l.ptr_pos,
        l.ptr_pos + 8 * l.ptr_count <= lo,
        lo <= before[0]@.len(),
        keeps_outside(before[0]@, after[0]@, slot_of(l, i)),
        forall|k: int|
            #![trigger slot_of(l, k)]
            0 <= k < i ==> slot_frame(ss, src, before, l, limit, lo, before[0]@.len() as int, slot_of(src, k), slot_of(l, k)),
        le64(ss[src.segment as int]@, slot_of(src, i)) != 0,
        follow_spec(ss, src.segment as int, slot_of(src, i)) == Ok::<Loc, Error>(c),
        follow_spec(after, 0, slot_of(l, i)) == Ok::<Loc, Error>(e),
        decode_spec(le64(after[0]@, slot_of(l, i))) is Struct,
        same_graph(ss, c, after, e, (limit - 1) as nat),
        reads_within(after, e, (limit - 1) as nat, before[0]@.len() as int, after[0]@.len() as int),
    ensures
        forall|k: int|
            #![trigger slot_of(l, k)]
            0 <= k <= i ==> slot_frame(ss, src, after, l, limit, lo, after[0]@.len() as int, slot_of(src, k), slot_of(l, k)),
{
    reveal_with_fuel(same_graph, 1);
    reveal_with_fuel(reads_within, 1);
    reveal(slot_frame);
    let hi0 = before[0]@.len() as int;
    let hi1 = after[0]@.len() as int;
    lemma_within_widen(after, e, (limit - 1) as nat, hi0, hi1, lo, hi1);
    assert forall|k: int|
        #![trigger slot_of(l, k)]
        0 <= k <= i implies slot_frame(ss, src, after, l, limit, lo, hi1, slot_of(src, k), slot_of(l, k)) by {
        if k < i {
            assert(8 * k + 8 <= 8 * i) by (nonlinear_arith)
                requires
                    0 <= k < i,
            ;
            lemma_frame_slot(ss, src, before, after, l, limit, lo, hi0, slot_of(src, k), slot_of(l, k));
            lemma_slot_frame_widen(ss, src, after, l, limit, lo, hi0, lo, hi1, slot_of(src, k), slot_of(l, k));
        } else {
            assert(le64(after[0]@, slot_of(l, i)) != 0);
        }
    }
}

proof fn lemma_null_slot(ss: Seq<Vec<u8>>, src: Loc, ds: Seq<Vec<u8>>, l: Loc, limit: nat, lo: int, hi: int, sp: int, dp: int)
    requires
        le64(ss[src.segment as int]@, sp) == 0,
        le64(ds[0]@, dp) == 0,
    ensures
        slot_frame(ss, src, ds, l, limit, lo, hi, sp, dp),
{
    reveal_with_fuel(same_graph, 1);
    reveal_with_fuel(reads_within, 1);
    reveal(slot_frame);
}

/// Words of the struct at `l` itself.
#[verifier::opaque]
pub open spec fn own_words(l: Loc) -> int {
    l.data_size / 8 + l.ptr_count
}

/// The copy of the first `i` slots' structs has grown the segment from `start` to
/// `len` by exactly what they count.
#[verifier::opaque]
pub open spec fn grown(ss: Seq<Vec<u8>>, src: Loc, i: nat, limit: nat, len: int, start: int) -> bool {
    ptr_words(ss, src, i, limit) is Ok && len == start + 8 * ptr_words(ss, src, i, limit)->Ok_0
}

proof fn lemma_own_words(l: Loc, base: int, start: int)
    requires
        start == base + 8 * (l.data_size / 8 + l.ptr_count),
    ensures
        start == base + 8 * own_words(l),
{
    reveal_with_fuel(same_graph, 1);
    reveal_with_fuel(reads_within, 1);
    reveal(own_words);
}

proof fn lemma_grown_start(ss: Seq<Vec<u8>>, src: Loc, limit: nat, start: int)
    ensures
        grown(ss, src, 0, limit, start, start),
{
    reveal_with_fuel(same_graph, 1);
    reveal_with_fuel(reads_within, 1);
    reveal(grown);
    lemma_ptr_words_zero(ss, src, limit);
}

proof fn lemma_grown_null(ss: Seq<Vec<u8>>, src: Loc, i: nat, limit: nat, len: int, start: int)
    requires
        i < src.ptr_count,
        le64(ss[src.segment as int]@, src.ptr_pos + 8 * i) == 0,
        grown(ss, src, i, limit, len, start),
    ensures
        grown(ss, src, i + 1, limit, len, start),
{
    reveal_with_fuel(same_graph, 1);
    reveal_with_fuel(reads_within, 1);
    reveal(grown);
    lemma_step_null(ss, src, i, limit);
}

proof fn lemma_grown_child(ss: Seq<Vec<u8>>, src: Loc, i: nat, limit: nat, c: Loc, len0: int, len1: int, start: int)
    requires
        i < src.ptr_count,
        le64(ss[src.segment as int]@, src.ptr_pos + 8 * i) != 0,
        limit > 0,
        follow_spec(ss, src.segment as int, src.ptr_pos + 8 * i) == Ok::<Loc, Error>(c),
        grown(ss, src, i, limit, len0, start),
        struct_words(ss, c, (limit - 1) as nat) is Ok,
        len1 == len0 + 8 * struct_words(ss, c, (limit - 1) as nat)->Ok_0,
    ensures
        grown(ss, src, i + 1, limit, len1, start),
{
    reveal_with_fuel(same_graph, 1);
    reveal_with_fuel(reads_within, 1);
    reveal(grown);
    lemma_step_child(ss, src, i, limit, c);
}

proof fn lemma_grown_end(ss: Seq<Vec<u8>>, src: Loc, limit: nat, len: int, start: int, base: int)
    requires
        grown(ss, src, src.ptr_count as nat, limit, len, start),
        start == base + 8 * own_words(src),
    ensures
        struct_words(ss, src, limit) is Ok,
        len == base + 8 * struct_words(ss, src, limit)->Ok_0,
{
    reveal_with_fuel(same_graph, 1);
    reveal_with_fuel(reads_within, 1);
    reveal(own_words);
    reveal_with_fuel(struct_words, 1);
    reveal_with_fuel(ptr_words, 1);
    reveal(grown);
}

proof fn lemma_child_failed(ss: Seq<Vec<u8>>, src: Loc, i: nat, limit: nat, c: Loc, base: int, len: int, start: int)
    requires
        i < src.ptr_count,
        le64(ss[src.segment as int]@, src.ptr_pos + 8 * i) != 0,
        limit > 0,
        follow_spec(ss, src.segment as int, src.ptr_pos + 8 * i) == Ok::<Loc, Error>(c),
        grown(ss, src, i, limit, len, start),
        start == base + 8 * own_words(src),
    ensures
        struct_words(ss, src, limit) is Ok ==> struct_words(ss, c, (limit - 1) as nat) is Ok && base + 8
            * struct_words(ss, src, limit)->Ok_0 >= len + 8 * struct_words(ss, c, (limit - 1) as nat)->Ok_0,
{
    reveal_with_fuel(same_graph, 1);
    reveal_with_fuel(reads_within, 1);
    reveal(own_words);
    reveal_with_fuel(struct_words, 1);
    reveal_with_fuel(ptr_words, 1);
    reveal(grown);
    lemma_step_child(ss, src, i, limit, c);
    if struct_words(ss, c, (limit - 1) as nat) is Err {
        lemma_err_stays_struct(ss, src, i + 1, limit);
    } else if struct_words(ss, src, limit) is Ok {
        lemma_ptr_words_mono(ss, src, i + 1, src.ptr_count as nat, limit);
    }
}

proof fn lemma_post_uncounted(d0: Seq<u8>, d: Seq<Vec<u8>>, slot: int, ss: Seq<Vec<u8>>, src: Loc, limit: nat, e: Error)
    requires
        struct_words(ss, src, limit) is Err,
    ensures
        copy_post(d0, d, slot, ss, src, limit, Err(e)),
{
    reveal(copy_post);
}

proof fn lemma_post_alloc(d0: Seq<u8>, d: Seq<Vec<u8>>, slot: int, ss: Seq<Vec<u8>>, src: Loc, limit: nat)
    requires
        d0.len() + 8 * (src.data_size / 8 + src.ptr_count) > MAX_BUILDER_BYTES,
    ensures
        copy_post(d0, d, slot, ss, src, limit, Err(Error::CapacityExceeded)),
{
    reveal(copy_post);
    lemma_ptr_words_nonneg(ss, src, src.ptr_count as nat, limit);
    lemma_struct_words_unfold(ss, src, limit);
}

proof fn lemma_post_ok(d0: Seq<u8>, d: Seq<Vec<u8>>, slot: int, ss: Seq<Vec<u8>>, src: Loc, limit: nat, l: Loc)
    requires
        loc_in(d, l) && l.segment == 0 && l.ptr_count == src.ptr_count && data_of(d, l)
            == data_of(ss, src) && follow_spec(d, 0, slot) == Ok::<Loc, Error>(l) && decode_spec(le64(d[0]@, slot)) is Struct
            && same_graph(ss, src, d, l, limit) && reads_within(d, l, limit, d0.len() as int, d[0]@.len() as int),
        struct_words(ss, src, limit) is Ok,
        d[0]@.len() == d0.len() + 8 * struct_words(ss, src, limit)->Ok_0,
    ensures
        copy_post(d0, d, slot, ss, src, limit, Ok(l)),
{
    reveal(copy_post);
}

proof fn lemma_post_open(d0: Seq<u8>, d: Seq<Vec<u8>>, slot: int, ss: Seq<Vec<u8>>, src: Loc, limit: nat, r: Result<Loc, Error>)
    requires
        copy_post(d0, d, slot, ss, src, limit, r),
    ensures
        r matches Ok(l) ==> loc_in(d, l) && l.segment == 0 && l.ptr_count == src.ptr_count && data_of(d, l)
            == data_of(ss, src) && follow_spec(d, 0, slot) == Ok::<Loc, Error>(l) && decode_spec(le64(d[0]@, slot)) is Struct
            && same_graph(ss, src, d, l, limit) && reads_within(d, l, limit, d0.len() as int, d[0]@.len() as int),
        r is Ok ==> struct_words(ss, src, limit) is Ok && d[0]@.len() == d0.len() + 8 * struct_words(ss, src, limit)->Ok_0,
        (r is Err && struct_words(ss, src, limit) is Ok) ==> r == Err::<Loc, Error>(Error::CapacityExceeded) && d0.len()
            + 8 * struct_words(ss, src, limit)->Ok_0 > MAX_BUILDER_BYTES,
{
    reveal(copy_post);
}

proof fn lemma_child_ok(
    ss: Seq<Vec<u8>>,
    src: Loc,
    before: Seq<Vec<u8>>,
    after: Seq<Vec<u8>>,
    l: Loc,
    limit: nat,
    lo: int,
    i: int,
    c: Loc,
    e: Loc,
)
    requires
        before.len() == 1,
        after.len() == 1,
        limit > 0,
        0 <= i < l.ptr_count,
        src.ptr_count == l.ptr_count,
        0 <= l.ptr_pos,
        l.ptr_pos + 8 * l.ptr_count <= lo,
        lo <= before[0]@.len(),
        keeps_outside(before[0]@, after[0]@, slot_of(l, i)),
        forall|k: int|
            #![trigger slot_of(l, k)]
            0 <= k < i ==> slot_frame(ss, src, before, l, limit, lo, before[0]@.len() as int, slot_of(src, k), slot_of(l, k)),
        le64(ss[src.segment as int]@, slot_of(src, i)) != 0,
        slot_of(src, i) == src.ptr_pos + 8 * i,
        follow_spec(ss, src.segment as int, slot_of(src, i)) == Ok::<Loc, Error>(c),
        copy_post(before[0]@, after, slot_of(l, i), ss, c, (limit - 1) as nat, Ok(e)),
        grown(ss, src, i as nat, limit, before[0]@.len() as int, lo),
    ensures
        forall|k: int|
            #![trigger slot_of(l, k)]
            0 <= k <= i ==> slot_frame(ss, src, after, l, limit, lo, after[0]@.len() as int, slot_of(src, k), slot_of(l, k)),
        grown(ss, src, (i + 1) as nat, limit, after[0]@.len() as int, lo),
{
    reveal(copy_post);
    lemma_child_step(ss, src, before, after, l, limit, lo, i, c, e);
    lemma_grown_child(ss, src, i as nat, limit, c, before[0]@.len() as int, after[0]@.len() as int, lo);
}

proof fn lemma_child_err(
    ss: Seq<Vec<u8>>,
    src: Loc,
    i: nat,
    limit: nat,
    c: Loc,
    d0: Seq<u8>,
    before: Seq<u8>,
    d: Seq<Vec<u8>>,
    dslot: int,
    slot: int,
    start: int,
    e: Error,
)
    requires
        i < src.ptr_count,
        le64(ss[src.segment as int]@, src.ptr_pos + 8 * i) != 0,
        limit > 0,
        follow_spec(ss, src.segment as int, src.ptr_pos + 8 * i) == Ok::<Loc, Error>(c),
        grown(ss, src, i, limit, before.len() as int, start),
        start == d0.len() + 8 * own_words(src),
        copy_post(before, d, dslot, ss, c, (limit - 1) as nat, Err(e)),
    ensures
        copy_post(d0, d, slot, ss, src, limit, Err(e)),
{
    reveal(copy_post);
    lemma_child_failed(ss, src, i, limit, c, d0.len() as int, before.len() as int, start);
}

pub(crate) proof fn lemma_le64_zero(s: Seq<u8>, p: int)
    requires
        0 <= p,
        p + 8 <= s.len(),
        forall|j: int| p <= j < p + 8 ==> #[trigger] s[j] == 0u8,
    ensures
        le64(s, p) == 0,
{
    reveal_with_fuel(same_graph, 1);
    reveal_with_fuel(reads_within, 1);
    assert(s[p] == 0u8 && s[p + 1] == 0u8 && s[p + 2] == 0u8 && s[p + 3] == 0u8);
    assert(s[p + 4] == 0u8 && s[p + 5] == 0u8 && s[p + 6] == 0u8 && s[p + 7] == 0u8);
    let z: u8 = 0;
    assert(((z as u16) | ((z as u16) << 8u16)) == 0u16) by (bit_vector)
        requires
            z == 0u8,
    ;
    let z16: u16 = 0;
    assert(((z16 as u32) | ((z16 as u32) << 16u32)) == 0u32) by (bit_vector)
        requires
            z16 == 0u16,
    ;
    let z32: u32 = 0;
    assert(((z32 as u64) | ((z32 as u64) << 32u64)) == 0u64) by (bit_vector)
        requires
            z32 == 0u32,
    ;
}

pub(crate) proof fn lemma_le64_same(a: Seq<u8>, b: Seq<u8>, p: int)
    requires
        0 <= p,
        p + 8 <= a.len(),
        p + 8 <= b.len(),
        forall|j: int| p <= j < p + 8 ==> #[trigger] b[j] == a[j],
    ensures
        le64(b, p) == le64(a, p),
{
    reveal_with_fuel(same_graph, 1);
    reveal_with_fuel(reads_within, 1);
    assert(b[p] == a[p] && b[p + 1] == a[p + 1] && b[p + 2] == a[p + 2] && b[p + 3] == a[p + 3]);
    assert(b[p + 4] == a[p + 4] && b[p + 5] == a[p + 5] && b[p + 6] == a[p + 6] && b[p + 7] == a[p + 7]);
}

/// What a copy of the struct at `src` of `ss`, pointed at from byte `slot`, leaves in
/// the one-segment message `d` that held `d0`: a copy that matches the source, taking
/// exactly the words the source reaches; where it fails and the source could be
/// counted, the segment could not grow enough.
#[verifier::opaque]
pub open spec fn copy_post(d0: Seq<u8>, d: Seq<Vec<u8>>, slot: int, ss: Seq<Vec<u8>>, src: Loc, limit: nat, r: Result<Loc, Error>) -> bool {
    &&& r matches Ok(l) ==> loc_in(d, l) && l.segment == 0 && l.ptr_count == src.ptr_count && data_of(d, l)
        == data_of(ss, src) && follow_spec(d, 0, slot) == Ok::<Loc, Error>(l) && decode_spec(le64(d[0]@, slot)) is Struct
        && same_graph(ss, src, d, l, limit) && reads_within(d, l, limit, d0.len() as int, d[0]@.len() as int)
    &&& r is Ok ==> struct_words(ss, src, limit) is Ok && d[0]@.len() == d0.len() + 8 * struct_words(ss, src, limit)->Ok_0
    &&& (r is Err && struct_words(ss, src, limit) is Ok) ==> r == Err::<Loc, Error>(Error::CapacityExceeded) && d0.len()
        + 8 * struct_words(ss, src, limit)->Ok_0 > MAX_BUILDER_BYTES
}

/// Only struct pointers are copied: a list or capability pointer met on the way
/// fails the copy with `MalformedPointer`.
/// Copies the struct at `src` and, depth first, every struct it leads to into `dst`,
/// pointing the word at `slot` at the copy.
#[verifier::rlimit(100)]
#[verifier::spinoff_prover]
fn copy_struct(dst: &mut Vec<Vec<u8>>, slot: usize, src_segs: &Vec<Vec<u8>>, src: Loc, limit: u32) -> (r: Result<Loc, Error>)
    requires
        builder_wf(old(dst)@),
        slot % 8 == 0,
        slot + 8 <= old(dst)@[0]@.len(),
        message_wf(src_segs@),
        loc_in(src_segs@, src),
    ensures
        builder_wf(final(dst)@),
        keeps_outside(old(dst)@[0]@, final(dst)@[0]@, slot as int),
        copy_post(old(dst)@[0]@, final(dst)@, slot as int, src_segs@, src, limit as nat, r),
    decreases limit,
{
    let ghost d0 = dst@[0]@;
    let size = StructSize { data: (src.data_size / 8) as u16, pointers: src.ptr_count as u16 };
    proof {
        lemma_ptr_words_nonneg(src_segs@, src, src.ptr_count as nat, limit as nat);
        lemma_struct_words_unfold(src_segs@, src, limit as nat);
        assert(size.words() == src.data_size / 8 + src.ptr_count);
    }
    let l = match crate::builder::allocate(dst, slot, size) {
        Ok(l) => l,
        Err(e) => {
            proof {
                lemma_post_alloc(d0, dst@, slot as int, src_segs@, src, limit as nat);
            }
            return Err(e);
        },
    };
    let ghost d1 = dst@[0]@;
    let ghost segs1 = dst@;
    // data section
    let mut s = dst.pop().unwrap();
    let n1 = s.len();
    let mut j: usize = 0;
    if src.data_size > 0 {
        let _n = src_segs[src.segment].len();
    }
    while j < src.data_size
        invariant
            j <= src.data_size,
            loc_in(src_segs@, src),
            message_wf(src_segs@),
            s@.len() == d1.len(),
            d1.len() == n1,
            l.data_size == src.data_size,
            l.data_pos + l.data_size <= d1.len(),
            forall|k: int| 0 <= k < d1.len() && !(l.data_pos <= k < l.data_pos + j) ==> #[trigger] s@[k] == d1[k],
            forall|k: int| l.data_pos <= k < l.data_pos + j ==> #[trigger] s@[k] == src_segs@[src.segment as int]@[src.data_pos + (k - l.data_pos)],
        decreases src.data_size - j,
    {
        let b = src_segs[src.segment][src.data_pos + j];
        s.set(l.data_pos + j, b);
        j = j + 1;
    }
    dst.push(s);
    let ghost d2 = dst@[0]@;
    assert(keeps_outside(d0, d2, slot as int)) by {
        assert forall|k: int| 0 <= k < d0.len() && !(slot <= k < slot + 8) implies #[trigger] d2[k] == d0[k] by {
            assert(d2[k] == d1[k]);
        }
    }
    assert(data_of(dst@, l) =~= data_of(src_segs@, src));
    assert(d2.subrange(l.data_pos as int, l.data_pos + l.data_size) =~= data_of(src_segs@, src));
    assert forall|k: int| slot <= k < slot + 8 implies #[trigger] d2[k] == d1[k] by {}
    assert forall|k: int| l.ptr_pos <= k < l.ptr_pos + 8 * l.ptr_count implies #[trigger] d2[k] == 0u8 by {
        assert(d2[k] == d1[k]);
    }
    // pointer section
    proof {
        lemma_grown_start(src_segs@, src, limit as nat, d2.len() as int);
        lemma_own_words(src, d0.len() as int, d2.len() as int);
    }
    let mut i: usize = 0;
    if src.ptr_count > 0 {
        let _n = src_segs[src.segment].len();
    }
    while i < src.ptr_count
        invariant
            i <= src.ptr_count,
            builder_wf(dst@),
            loc_in(dst@, l),
            l.segment == 0,
            l.ptr_count == src.ptr_count,
            loc_in(src_segs@, src),
            message_wf(src_segs@),
            src.ptr_count > 0 ==> src_segs@[src.segment as int]@.len() <= usize::MAX,
            keeps_outside(d0, dst@[0]@, slot as int),
            d0 == old(dst)@[0]@,
            keeps_outside(d0, d2, slot as int),
            segs1.len() == 1,
            segs1[0]@ == d1,
            follow_spec(segs1, 0, slot as int) == Ok::<Loc, Error>(l),
            decode_spec(le64(d1, slot as int)) is Struct,
            forall|k: int| slot <= k < slot + 8 ==> #[trigger] d2[k] == d1[k],
            slot + 8 <= d0.len(),
            d0.len() <= l.data_pos || l.ptr_count == 0,
            l.data_size == src.data_size,
            d2.subrange(l.data_pos as int, l.data_pos + l.data_size) == data_of(src_segs@, src),
            d2.len() <= dst@[0]@.len(),
            l.data_pos + l.data_size == l.ptr_pos,
            l.ptr_pos + 8 * l.ptr_count <= d2.len(),
            l.ptr_count > 0 ==> d0.len() <= l.data_pos,
            forall|k: int| l.ptr_pos <= k < l.ptr_pos + 8 * l.ptr_count ==> #[trigger] d2[k] == 0u8,
            forall|k: int|
                #![trigger slot_of(l, k)]
                0 <= k < i ==> slot_frame(src_segs@, src, dst@, l, limit as nat, d2.len() as int, dst@[0]@.len() as int, slot_of(src, k), slot_of(l, k)),
            forall|k: int| 0 <= k < l.ptr_pos ==> #[trigger] dst@[0]@[k] == d2[k],
            forall|k: int| l.ptr_pos + 8 * i <= k < d2.len() ==> #[trigger] dst@[0]@[k] == d2[k],
            grown(src_segs@, src, i as nat, limit as nat, dst@[0]@.len() as int, d2.len() as int),
            d2.len() == d0.len() + 8 * own_words(src),
        decreases src.ptr_count - i,
    {
        assert(8 * i + 8 <= 8 * src.ptr_count) by (nonlinear_arith)
            requires
                i < src.ptr_count,
        ;
        let pos = src.ptr_pos + 8 * i;
        assert(pos % 8 == 0) by {
            assert((8 * i) % 8 == 0) by (nonlinear_arith);
        }
        let ghost before = dst@;
        let dslot = l.ptr_pos + 8 * i;
        assert(dslot % 8 == 0) by {
            assert((8 * i) % 8 == 0) by (nonlinear_arith);
        }
        assert(slot_of(l, i as int) == dslot && slot_of(src, i as int) == pos);
        if read_u64(&src_segs[src.segment], pos) == 0 {
            proof {
                lemma_le64_zero(dst@[0]@, dslot as int);
                lemma_null_slot(src_segs@, src, dst@, l, limit as nat, d2.len() as int, dst@[0]@.len() as int, pos as int, dslot as int);
                lemma_grown_null(src_segs@, src, i as nat, limit as nat, dst@[0]@.len() as int, d2.len() as int);
            }
        } else {
            if limit == 0 {
                proof {
                    lemma_step_err(src_segs@, src, i as nat, limit as nat);
                    lemma_post_uncounted(d0, dst@, slot as int, src_segs@, src, limit as nat, Error::RecursionLimitExceeded);
                }
                return Err(Error::RecursionLimitExceeded);
            }
            let child = match follow(src_segs, src.segment, pos) {
                Ok(c) => c,
                Err(e) => {
                    proof {
                        lemma_step_err(src_segs@, src, i as nat, limit as nat);
                        lemma_post_uncounted(d0, dst@, slot as int, src_segs@, src, limit as nat, e);
                    }
                    return Err(e);
                },
            };

            match copy_struct(dst, dslot, src_segs, child, limit - 1) {
                Ok(e) => {
                    proof {
                        lemma_child_ok(src_segs@, src, before, dst@, l, limit as nat, d2.len() as int, i as int, child, e);
                    }
                },
                Err(e) => {
                    proof {
                        lemma_child_err(src_segs@, src, i as nat, limit as nat, child, d0, before[0]@, dst@, dslot as int, slot as int, d2.len() as int, e);
                    }
                    return Err(e);
                },
            }
        }
        i = i + 1;
    }
    proof {
        let d3 = dst@[0]@;
        assert forall|k: int| 0 <= k < d0.len() && !(slot <= k < slot + 8) implies #[trigger] d3[k] == d0[k] by {
            assert(k < l.ptr_pos || k >= d2.len() || k < d2.len());
        }
        assert(data_of(dst@, l) =~= data_of(src_segs@, src)) by {
            if l.data_size > 0 {
                assert forall|k: int| 0 <= k < l.data_size implies #[trigger] data_of(dst@, l)[k] == data_of(src_segs@, src)[k] by {
                    assert(dst@[0]@[l.data_pos + k] == d2[l.data_pos + k]);
                    assert(d2.subrange(l.data_pos as int, l.data_pos + l.data_size)[k] == d2[l.data_pos + k]);
                }
            }
        }
        assert forall|k: int| slot <= k < slot + 8 implies #[trigger] dst@[0]@[k] == segs1[0]@[k] by {
            assert(dst@[0]@[k] == d2[k]);
        }
        lemma_follow_grows(segs1, dst@, slot as int, l);
        lemma_grown_end(src_segs@, src, limit as nat, dst@[0]@.len() as int, d2.len() as int, d0.len() as int);
        lemma_assemble(src_segs@, src, dst@, l, limit as nat, d0.len() as int, d2.len() as int, dst@[0]@.len() as int);
        lemma_post_ok(d0, dst@, slot as int, src_segs@, src, limit as nat, l);
    }
    Ok(l)
}

/// A copy that matches its source down to the nesting limit reaches as many words as
/// the source does: what the source reached and nothing more.
pub proof fn lemma_copy_same_size(ss: Seq<Vec<u8>>, sl: Loc, ds: Seq<Vec<u8>>, dl: Loc, limit: nat, lo: int, hi: int)
    requires
        same_graph(ss, sl, ds, dl, limit),
        reads_within(ds, dl, limit, lo, hi),
    ensures
        struct_words(ss, sl, limit) == struct_words(ds, dl, limit),
    decreases limit, sl.ptr_count + 1,
{
    reveal_with_fuel(same_graph, 1);
    reveal_with_fuel(reads_within, 1);
    reveal_with_fuel(struct_words, 1);
    reveal_with_fuel(ptr_words, 1);
    lemma_ptr_words_same(ss, sl, ds, dl, limit, lo, hi, sl.ptr_count as nat);
}

proof fn lemma_ptr_words_same(ss: Seq<Vec<u8>>, sl: Loc, ds: Seq<Vec<u8>>, dl: Loc, limit: nat, lo: int, hi: int, n: nat)
    requires
        same_graph(ss, sl, ds, dl, limit),
        reads_within(ds, dl, limit, lo, hi),
        n <= sl.ptr_count,
    ensures
        ptr_words(ss, sl, n, limit) == ptr_words(ds, dl, n, limit),
    decreases limit, n,
{
    reveal_with_fuel(same_graph, 1);
    reveal_with_fuel(reads_within, 1);
    reveal_with_fuel(struct_words, 1);
    reveal_with_fuel(ptr_words, 1);
    if n > 0 {
        lemma_ptr_words_same(ss, sl, ds, dl, limit, lo, hi, (n - 1) as nat);
        let k = n - 1;
        let sp = slot_of(sl, k);
        let dp = slot_of(dl, k);
        if le64(ss[sl.segment as int]@, sp) != 0 {
            let c = follow_spec(ss, sl.segment as int, sp)->Ok_0;
            let e = follow_spec(ds, 0, dp)->Ok_0;
            if le64(ds[0]@, dp) != 0 {
                lemma_copy_same_size(ss, c, ds, e, (limit - 1) as nat, lo, hi);
            } else {
                assert(decode_spec(0u64) is Null);
                assert(e == crate::reader::empty_loc());
                assert(same_graph(ss, c, ds, e, (limit - 1) as nat));
                assert(c.ptr_count == 0 && c.data_size == 0);
                assert(ptr_words(ss, c, 0, (limit - 1) as nat) == Ok::<int, Error>(0));
                assert(struct_words(ss, c, (limit - 1) as nat) == Ok::<int, Error>(0));
            }
        }
    }
}

impl<'a> StructBuilder<'a> {
    /// Points slot `index` at a copy of `value` and of every struct it leads to; the
    /// copy reads as `value` does, and a struct the slot led to before stays in the
    /// segment, unreachable. Fails with `CapacityExceeded` where the segment cannot
    /// grow enough, and with the error of a malformed pointer met on the way.
    pub fn set_struct_field(&mut self, index: usize, value: &StructReader) -> (r: Result<Loc, Error>)
        requires
            old(self).wf(),
            index < old(self).loc.ptr_count,
            value.wf(),
        ensures
            final(self).wf(),
            final(self).loc == old(self).loc,
            final(self).data() == old(self).data(),
            r matches Ok(l) ==> loc_in(final(self).segments@, l) && l.ptr_count == value.loc.ptr_count
                && data_of(final(self).segments@, l) == value.data() && follow_spec(
                final(self).segments@,
                0,
                old(self).loc.ptr_pos + 8 * index,
            ) == Ok::<Loc, Error>(l) && same_graph(
                value.segments@,
                value.loc,
                final(self).segments@,
                l,
                value.nesting_limit as nat,
            ) && reads_within(
                final(self).segments@,
                l,
                value.nesting_limit as nat,
                old(self).segments@[0]@.len() as int,
                final(self).segments@[0]@.len() as int,
            ),
            struct_words(value.segments@, value.loc, value.nesting_limit as nat) matches Ok(n) && old(self).segments@[0]@.len() + 8 * n <= MAX_BUILDER_BYTES ==> r is Ok,
            struct_words(value.segments@, value.loc, value.nesting_limit as nat) matches Ok(n) && old(self).segments@[0]@.len() + 8 * n > MAX_BUILDER_BYTES ==> r == Err::<Loc, Error>(
                Error::CapacityExceeded,
            ),
            struct_words(value.segments@, value.loc, value.nesting_limit as nat) is Err ==> r is Err,
            r is Ok ==> struct_words(value.segments@, value.loc, value.nesting_limit as nat) is Ok && final(self).segments@[0]@.len() == old(self).segments@[0]@.len() + 8 * struct_words(value.segments@, value.loc, value.nesting_limit as nat)->Ok_0,
    {
        let ghost d0 = self.data();
        let ghost s0 = self.segments@[0]@;
        let _n = self.segments[0].len();
        assert(8 * index + 8 <= 8 * self.loc.ptr_count) by (nonlinear_arith)
            requires
                index < self.loc.ptr_count,
        ;
        let slot = self.loc.ptr_pos + 8 * index;
        assert(slot % 8 == 0) by {
            assert((8 * index) % 8 == 0) by (nonlinear_arith);
        }
        let r = copy_struct(&mut *self.segments, slot, value.segments, value.loc, value.nesting_limit);
        proof {
            lemma_post_open(s0, self.segments@, slot as int, value.segments@, value.loc, value.nesting_limit as nat, r);
            let dp = self.loc.data_pos as int;
            let ds = self.loc.data_size as int;
            if ds > 0 {
                assert(self.segments@[0]@.subrange(dp, dp + ds) =~= s0.subrange(dp, dp + ds));
            }
            assert(self.data() =~= d0);
        }
        r
    }
}

impl MessageBuilder {
    /// Makes a copy of `value`, and of every struct it leads to, the root of this
    /// message; the copy reads as `value` does, and the former root stays in the
    /// segment, unreachable.
    pub fn set_root(&mut self, value: &StructReader) -> (r: Result<Loc, Error>)
        requires
            old(self).wf(),
            value.wf(),
        ensures
            final(self).wf(),
            r matches Ok(l) ==> loc_in(final(self).segments@, l) && l.ptr_count == value.loc.ptr_count
                && data_of(final(self).segments@, l) == value.data() && follow_spec(final(self).segments@, 0, 0)
                == Ok::<Loc, Error>(l) && same_graph(
                value.segments@,
                value.loc,
                final(self).segments@,
                l,
                value.nesting_limit as nat,
            ) && reads_within(
                final(self).segments@,
                l,
                value.nesting_limit as nat,
                old(self).segments@[0]@.len() as int,
                final(self).segments@[0]@.len() as int,
            ),
            struct_words(value.segments@, value.loc, value.nesting_limit as nat) matches Ok(n) && old(self).segments@[0]@.len() + 8 * n <= MAX_BUILDER_BYTES ==> r is Ok,
            struct_words(value.segments@, value.loc, value.nesting_limit as nat) matches Ok(n) && old(self).segments@[0]@.len() + 8 * n > MAX_BUILDER_BYTES ==> r == Err::<Loc, Error>(
                Error::CapacityExceeded,
            ),
            struct_words(value.segments@, value.loc, value.nesting_limit as nat) is Err ==> r is Err,
            r is Ok ==> struct_words(value.segments@, value.loc, value.nesting_limit as nat) is Ok && final(self).segments@[0]@.len() == old(self).segments@[0]@.len() + 8 * struct_words(value.segments@, value.loc, value.nesting_limit as nat)->Ok_0,
    {
        let ghost s0 = self.segments@[0]@;
        let r = copy_struct(&mut self.segments, 0, value.segments, value.loc, value.nesting_limit);
        proof {
            lemma_post_open(s0, self.segments@, 0, value.segments@, value.loc, value.nesting_limit as nat, r);
        }
        r
    }
}

} // verus!
