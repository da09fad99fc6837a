use vstd::prelude::*;
use crate::bytes::{le32, read_u32};
use crate::pointer::Error;
use crate::reader::message_wf;

verus! {

/// Segments in a framed message: one more than the first 32-bit value.
pub open spec fn seg_count(b: Seq<u8>) -> int {
    le32(b, 0) + 1
}

/// Bytes of the segment table of `n` segments: a count, `n` sizes, padded to a word.
pub open spec fn table_bytes(n: int) -> int {
    8 * ((n + 2) / 2)
}

/// Words in segment `i`, as the table gives it.
pub open spec fn seg_words(b: Seq<u8>, i: int) -> int {
    le32(b, 4 + 4 * i) as int
}

/// Where segment `i` starts.
pub open spec fn seg_start(b: Seq<u8>, i: nat) -> int
    decreases i,
{
    if i == 0 {
        table_bytes(seg_count(b))
    } else {
        seg_start(b, (i - 1) as nat) + 8 * seg_words(b, i - 1)
    }
}

/// The table fits, and the segments it lists fill the rest of the bytes exactly.
pub open spec fn framing_ok(b: Seq<u8>) -> bool {
    &&& b.len() >= 4
    &&& table_bytes(seg_count(b)) <= b.len()
    &&& seg_start(b, seg_count(b) as nat) == b.len()
}

proof fn lemma_start_grows(b: Seq<u8>, i: nat, j: nat)
    requires
        i <= j,
    ensures
        seg_start(b, i) <= seg_start(b, j),
    decreases j - i,
{
    if i < j {
        lemma_start_grows(b, i, (j - 1) as nat);
    }
}

pub(crate) fn copy_range(b: &Vec<u8>, from: usize, to: usize) -> (r: Vec<u8>)
    requires
        from <= to <= b@.len(),
    ensures
        r@ == b@.subrange(from as int, to as int),
{
    let mut r: Vec<u8> = Vec::new();
    let mut k = from;
    while k < to
        invariant
            from <= k <= to,
            to <= b@.len(),
            r@ == b@.subrange(from as int, k as int),
        decreases to - k,
    {
        r.push(b[k]);
        k = k + 1;
        assert(r@ =~= b@.subrange(from as int, k as int));
    }
    r
}

/// Splits a framed message into its segments; a table that does not fit, or sizes
/// that do not fill the bytes exactly, give `BoundsViolation`.
pub fn parse_segments(b: &Vec<u8>) -> (r: Result<Vec<Vec<u8>>, Error>)
    ensures
        framing_ok(b@) <==> r is Ok,
        r is Err ==> r == Err::<Vec<Vec<u8>>, Error>(Error::BoundsViolation),
        r matches Ok(segs) ==> segs@.len() == seg_count(b@) && message_wf(segs@) && forall|i: int|
            0 <= i < segs@.len() ==> (#[trigger] segs@[i])@ == b@.subrange(
                seg_start(b@, i as nat),
                seg_start(b@, (i + 1) as nat),
            ),
{
    let len = b.len();
    if len < 4 {
        return Err(Error::BoundsViolation);
    }
    let n: u64 = read_u32(b, 0) as u64 + 1;
    let table: u64 = 8 * ((n + 2) / 2);
    if table > len as u64 {
        return Err(Error::BoundsViolation);
    }
    let mut segs: Vec<Vec<u8>> = Vec::new();
    let mut at: usize = table as usize;
    let mut i: u64 = 0;
    while i < n
        invariant
            len == b@.len(),
            n == seg_count(b@),
            table == table_bytes(n as int),
            table <= len,
            i <= n,
            at == seg_start(b@, i as nat),
            at <= len,
            segs@.len() == i,
            message_wf(segs@),
            forall|k: int|
                0 <= k < i ==> (#[trigger] segs@[k])@ == b@.subrange(
                    seg_start(b@, k as nat),
                    seg_start(b@, (k + 1) as nat),
                ),
        decreases n - i,
    {
        assert(4 + 4 * i + 4 <= table) by (nonlinear_arith)
            requires
                i < n,
                table == 8 * ((n + 2) / 2),
        ;
        let words = read_u32(b, (4 + 4 * i) as usize) as usize;
        if words > (len - at) / 8 {
            proof {
                lemma_start_grows(b@, (i + 1) as nat, n as nat);
            }
            return Err(Error::BoundsViolation);
        }
        let end = at + 8 * words;
        let s = copy_range(b, at, end);
        assert(message_wf(segs@.push(s))) by {
            assert(s@.len() == 8 * words);
            assert((8 * words) % 8 == 0) by (nonlinear_arith);
        }
        segs.push(s);
        at = end;
        i = i + 1;
    }
    if at != len {
        return Err(Error::BoundsViolation);
    }
    Ok(segs)
}

} // verus!
