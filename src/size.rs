use vstd::prelude::*;
use crate::bytes::{le64, read_u64};
use crate::pointer::{decode_spec, Error};
use crate::reader::{follow, follow_spec, loc_in, message_wf, Loc, StructReader};

verus! {

/// The size of what a struct reaches.
#[derive(Clone, Copy, Debug, PartialEq, Eq, Structural)]
pub struct MessageSize {
    /// Words of the struct and of every struct it leads to, counted once per pointer.
    pub word_count: u64,
    /// Capability pointers met on the way.
    pub cap_count: u64,
}

/// Words that a deep copy of the struct at `l` and of everything its pointers lead to
/// takes, with `limit` levels of nesting allowed below it. The copy follows struct
/// pointers only: a list or capability pointer in a slot counts as `MalformedPointer`,
/// as `get_struct` reads it.
#[verifier::opaque]
pub open spec fn struct_words(segs: Seq<Vec<u8>>, l: Loc, limit: nat) -> Result<int, Error>
    decreases limit, l.ptr_count + 1,
{
    match ptr_words(segs, l, l.ptr_count as nat, limit) {
        Ok(n) => Ok(l.data_size / 8 + l.ptr_count + n),
        Err(e) => Err(e),
    }
}

/// Words that the first `n` pointers of the struct at `l` lead to.
#[verifier::opaque]
pub open spec fn ptr_words(segs: Seq<Vec<u8>>, l: Loc, n: nat, limit: nat) -> Result<int, Error>
    decreases limit, n,
{
    if n == 0 || n > l.ptr_count {
        Ok(0)
    } else {
        match ptr_words(segs, l, (n - 1) as nat, limit) {
            Err(e) => Err(e),
            Ok(a) => {
                let pos = l.ptr_pos + 8 * (n - 1);
                if le64(segs[l.segment as int]@, pos) == 0 {
                    Ok(a)
                } else if limit == 0 {
                    Err(Error::RecursionLimitExceeded)
                } else {
                    match follow_spec(segs, l.segment as int, pos) {
                        Err(e) => Err(e),
                        Ok(c) => match struct_words(segs, c, (limit - 1) as nat) {
                            Err(e) => Err(e),
                            Ok(b) => Ok(a + b),
                        },
                    }
                }
            },
        }
    }
}

/// A count held in 64 bits, saturating at the largest.
pub open spec fn saturated(n: int) -> u64 {
    if n > u64::MAX {
        u64::MAX
    } else {
        n as u64
    }
}

fn add_saturating(a: u64, b: u64) -> (r: u64)
    ensures
        r == saturated(a + b),
{
    if a > u64::MAX - b {
        u64::MAX
    } else {
        a + b
    }
}


pub(crate) proof fn lemma_error_stays(segs: Seq<Vec<u8>>, l: Loc, n: nat, m: nat, limit: nat)
    requires
        n <= m <= l.ptr_count,
        ptr_words(segs, l, n, limit) is Err,
    ensures
        ptr_words(segs, l, m, limit) == ptr_words(segs, l, n, limit),
    decreases m - n,
{
    reveal_with_fuel(struct_words, 1);
    reveal_with_fuel(ptr_words, 1);
    if m > n {
        lemma_error_stays(segs, l, n, (m - 1) as nat, limit);
    }
}

pub(crate) proof fn lemma_struct_words_nonneg(segs: Seq<Vec<u8>>, l: Loc, limit: nat)
    ensures
        struct_words(segs, l, limit) matches Ok(n) ==> n >= 0,
    decreases limit, l.ptr_count + 1,
{
    reveal_with_fuel(struct_words, 1);
    reveal_with_fuel(ptr_words, 1);
    lemma_ptr_words_nonneg(segs, l, l.ptr_count as nat, limit);
}

pub(crate) proof fn lemma_ptr_words_nonneg(segs: Seq<Vec<u8>>, l: Loc, n: nat, limit: nat)
    ensures
        ptr_words(segs, l, n, limit) matches Ok(k) ==> k >= 0,
    decreases limit, n,
{
    reveal_with_fuel(struct_words, 1);
    reveal_with_fuel(ptr_words, 1);
    if n > 0 && n <= l.ptr_count {
        lemma_ptr_words_nonneg(segs, l, (n - 1) as nat, limit);
        if limit > 0 {
            let pos = l.ptr_pos + 8 * (n - 1);
            if let Ok(c) = follow_spec(segs, l.segment as int, pos) {
                lemma_struct_words_nonneg(segs, c, (limit - 1) as nat);
            }
        }
    }
}

pub(crate) proof fn lemma_ptr_words_zero(segs: Seq<Vec<u8>>, l: Loc, limit: nat)
    ensures
        ptr_words(segs, l, 0, limit) == Ok::<int, Error>(0),
{
    reveal_with_fuel(ptr_words, 1);
}

/// The count of a struct from the count of its slots.
pub(crate) proof fn lemma_struct_words_unfold(segs: Seq<Vec<u8>>, l: Loc, limit: nat)
    ensures
        struct_words(segs, l, limit) == (match ptr_words(segs, l, l.ptr_count as nat, limit) {
            Ok(n) => Ok::<int, Error>(l.data_size / 8 + l.ptr_count + n),
            Err(e) => Err::<int, Error>(e),
        }),
{
    reveal_with_fuel(struct_words, 2);
    reveal_with_fuel(ptr_words, 2);
}

/// Counting one more slot: a null slot adds nothing.
pub(crate) proof fn lemma_step_null(segs: Seq<Vec<u8>>, l: Loc, i: nat, limit: nat)
    requires
        i < l.ptr_count,
        le64(segs[l.segment as int]@, l.ptr_pos + 8 * i) == 0,
    ensures
        ptr_words(segs, l, i + 1, limit) == ptr_words(segs, l, i, limit),
{
    reveal_with_fuel(struct_words, 1);
    reveal_with_fuel(ptr_words, 1);
}

/// Counting one more slot that leads to `c`.
pub(crate) proof fn lemma_step_child(segs: Seq<Vec<u8>>, l: Loc, i: nat, limit: nat, c: Loc)
    requires
        i < l.ptr_count,
        le64(segs[l.segment as int]@, l.ptr_pos + 8 * i) != 0,
        limit > 0,
        follow_spec(segs, l.segment as int, l.ptr_pos + 8 * i) == Ok::<Loc, Error>(c),
    ensures
        ptr_words(segs, l, i, limit) matches Ok(a) ==> (struct_words(segs, c, (limit - 1) as nat) matches Ok(b)
            ==> ptr_words(segs, l, i + 1, limit) == Ok::<int, Error>(a + b)),
        ptr_words(segs, l, i, limit) is Err ==> ptr_words(segs, l, i + 1, limit) is Err,
        struct_words(segs, c, (limit - 1) as nat) is Err ==> ptr_words(segs, l, i + 1, limit) is Err,
{
    reveal_with_fuel(struct_words, 1);
    reveal_with_fuel(ptr_words, 1);
}

/// A slot that cannot be followed makes the whole count fail.
pub(crate) proof fn lemma_step_err(segs: Seq<Vec<u8>>, l: Loc, i: nat, limit: nat)
    requires
        i < l.ptr_count,
        le64(segs[l.segment as int]@, l.ptr_pos + 8 * i) != 0,
        limit == 0 || follow_spec(segs, l.segment as int, l.ptr_pos + 8 * i) is Err,
    ensures
        struct_words(segs, l, limit) is Err,
{
    reveal_with_fuel(struct_words, 1);
    reveal_with_fuel(ptr_words, 1);
    assert(ptr_words(segs, l, i + 1, limit) is Err);
    lemma_error_stays(segs, l, i + 1, l.ptr_count as nat, limit);
}

/// A slot whose struct cannot be counted makes the whole count fail.
pub(crate) proof fn lemma_err_stays_struct(segs: Seq<Vec<u8>>, l: Loc, i: nat, limit: nat)
    requires
        i <= l.ptr_count,
        ptr_words(segs, l, i, limit) is Err,
    ensures
        struct_words(segs, l, limit) is Err,
{
    reveal_with_fuel(struct_words, 1);
    reveal_with_fuel(ptr_words, 1);
    lemma_error_stays(segs, l, i, l.ptr_count as nat, limit);
}

/// Counts of fewer slots are no larger.
pub(crate) proof fn lemma_ptr_words_mono(segs: Seq<Vec<u8>>, l: Loc, m: nat, n: nat, limit: nat)
    requires
        m <= n <= l.ptr_count,
        ptr_words(segs, l, n, limit) is Ok,
    ensures
        ptr_words(segs, l, m, limit) is Ok,
        ptr_words(segs, l, m, limit)->Ok_0 <= ptr_words(segs, l, n, limit)->Ok_0,
    decreases n - m,
{
    reveal_with_fuel(struct_words, 1);
    reveal_with_fuel(ptr_words, 1);
    if m < n {
        lemma_ptr_words_mono(segs, l, m, (n - 1) as nat, limit);
        let pos = l.ptr_pos + 8 * (n - 1);
        if le64(segs[l.segment as int]@, pos) != 0 && limit > 0 {
            if let Ok(c) = follow_spec(segs, l.segment as int, pos) {
                lemma_struct_words_nonneg(segs, c, (limit - 1) as nat);
            }
        }
    }
}

/// Words and capability pointers that the struct at `l` and everything its pointers
/// lead to take, with `limit` levels of nesting allowed below it: a capability pointer
/// adds one capability and no words; a null slot adds nothing.
pub open spec fn size_of(segs: Seq<Vec<u8>>, l: Loc, limit: nat) -> Result<(int, int), Error>
    decreases limit, l.ptr_count + 1,
{
    match slots_size(segs, l, l.ptr_count as nat, limit) {
        Ok((w, c)) => Ok((l.data_size / 8 + l.ptr_count + w, c)),
        Err(e) => Err(e),
    }
}

/// What the first `n` pointer slots of the struct at `l` lead to, as `size_of` counts.
pub open spec fn slots_size(segs: Seq<Vec<u8>>, l: Loc, n: nat, limit: nat) -> Result<(int, int), Error>
    decreases limit, n,
{
    if n == 0 || n > l.ptr_count {
        Ok((0, 0))
    } else {
        match slots_size(segs, l, (n - 1) as nat, limit) {
            Err(e) => Err(e),
            Ok((a, ca)) => {
                let pos = l.ptr_pos + 8 * (n - 1);
                let w = le64(segs[l.segment as int]@, pos);
                if w == 0 {
                    Ok((a, ca))
                } else if decode_spec(w) is Capability {
                    Ok((a, ca + 1))
                } else if limit == 0 {
                    Err(Error::RecursionLimitExceeded)
                } else {
                    match follow_spec(segs, l.segment as int, pos) {
                        Err(e) => Err(e),
                        Ok(c) => match size_of(segs, c, (limit - 1) as nat) {
                            Err(e) => Err(e),
                            Ok((b, cb)) => Ok((a + b, ca + cb)),
                        },
                    }
                }
            },
        }
    }
}

/// `size_of` held in 64-bit counts, each saturating at the largest.
pub open spec fn saturated_size(r: Result<(int, int), Error>) -> Result<(u64, u64), Error> {
    match r {
        Ok((w, c)) => Ok((saturated(w), saturated(c))),
        Err(e) => Err(e),
    }
}

proof fn lemma_size_error_stays(segs: Seq<Vec<u8>>, l: Loc, n: nat, m: nat, limit: nat)
    requires
        n <= m <= l.ptr_count,
        slots_size(segs, l, n, limit) is Err,
    ensures
        slots_size(segs, l, m, limit) == slots_size(segs, l, n, limit),
    decreases m - n,
{
    if m > n {
        lemma_size_error_stays(segs, l, n, (m - 1) as nat, limit);
    }
}

proof fn lemma_size_nonneg(segs: Seq<Vec<u8>>, l: Loc, limit: nat)
    ensures
        size_of(segs, l, limit) matches Ok((w, c)) ==> w >= 0 && c >= 0,
    decreases limit, l.ptr_count + 1,
{
    lemma_slots_nonneg(segs, l, l.ptr_count as nat, limit);
}

proof fn lemma_slots_nonneg(segs: Seq<Vec<u8>>, l: Loc, n: nat, limit: nat)
    ensures
        slots_size(segs, l, n, limit) matches Ok((w, c)) ==> w >= 0 && c >= 0,
    decreases limit, n,
{
    if n > 0 && n <= l.ptr_count {
        lemma_slots_nonneg(segs, l, (n - 1) as nat, limit);
        if limit > 0 {
            let pos = l.ptr_pos + 8 * (n - 1);
            if let Ok(c) = follow_spec(segs, l.segment as int, pos) {
                lemma_size_nonneg(segs, c, (limit - 1) as nat);
            }
        }
    }
}

#[verifier::rlimit(60)]
fn size_exec(segs: &Vec<Vec<u8>>, l: Loc, limit: u32) -> (r: Result<(u64, u64), Error>)
    requires
        message_wf(segs@),
        loc_in(segs@, l),
    ensures
        r == saturated_size(size_of(segs@, l, limit as nat)),
    decreases limit, l.ptr_count + 1,
{
    let mut words: u64 = 0;
    let mut caps: u64 = 0;
    let mut i: usize = 0;
    if l.ptr_count > 0 {
        let _n = segs[l.segment].len();
    }
    while i < l.ptr_count
        invariant
            message_wf(segs@),
            loc_in(segs@, l),
            i <= l.ptr_count,
            l.ptr_count > 0 ==> segs@[l.segment as int]@.len() <= usize::MAX,
            slots_size(segs@, l, i as nat, limit as nat) matches Ok((w, c)) && words == saturated(w) && caps
                == saturated(c),
            slots_size(segs@, l, i as nat, limit as nat) matches Ok((w, c)) ==> w >= 0 && c >= 0,
        decreases l.ptr_count - i,
    {
        assert(8 * i + 8 <= 8 * l.ptr_count) by (nonlinear_arith)
            requires
                i < l.ptr_count,
        ;
        let pos = l.ptr_pos + 8 * i;
        assert(pos % 8 == 0) by {
            assert((8 * i) % 8 == 0) by (nonlinear_arith);
        }
        let w = read_u64(&segs[l.segment], pos);
        if w != 0 {
            let is_cap = match crate::pointer::decode(w) {
                crate::pointer::WirePointer::Capability { .. } => true,
                _ => false,
            };
            if is_cap {
                caps = add_saturating(caps, 1);
            } else {
                if limit == 0 {
                    proof {
                        assert(slots_size(segs@, l, (i + 1) as nat, limit as nat) is Err);
                        lemma_size_error_stays(segs@, l, (i + 1) as nat, l.ptr_count as nat, limit as nat);
                    }
                    return Err(Error::RecursionLimitExceeded);
                }
                match follow(segs, l.segment, pos) {
                    Err(e) => {
                        proof {
                            assert(slots_size(segs@, l, (i + 1) as nat, limit as nat) is Err);
                            lemma_size_error_stays(segs@, l, (i + 1) as nat, l.ptr_count as nat, limit as nat);
                        }
                        return Err(e);
                    },
                    Ok(c) => match size_exec(segs, c, limit - 1) {
                        Err(e) => {
                            proof {
                                assert(slots_size(segs@, l, (i + 1) as nat, limit as nat) is Err);
                                lemma_size_error_stays(segs@, l, (i + 1) as nat, l.ptr_count as nat, limit as nat);
                            }
                            return Err(e);
                        },
                        Ok((b, cb)) => {
                            proof {
                                lemma_size_nonneg(segs@, c, (limit - 1) as nat);
                            }
                            words = add_saturating(words, b);
                            caps = add_saturating(caps, cb);
                        },
                    },
                }
            }
        }
        i = i + 1;
    }
    let own: u64 = (l.data_size / 8) as u64 + l.ptr_count as u64;
    proof {
        lemma_slots_nonneg(segs@, l, l.ptr_count as nat, limit as nat);
    }
    Ok((add_saturating(own, words), caps))
}

impl<'a> StructReader<'a> {
    /// Words and capability pointers that this struct and everything it leads to
    /// take, each saturating at the largest 64-bit count; nesting deeper than the
    /// reader's limit gives `RecursionLimitExceeded`, and a malformed pointer on the
    /// way its error.
    pub fn total_size(&self) -> (r: Result<MessageSize, Error>)
        requires
            self.wf(),
        ensures
            (match r {
                Ok(s) => Ok((s.word_count, s.cap_count)),
                Err(e) => Err(e),
            }) == saturated_size(size_of(self.segments@, self.loc, self.nesting_limit as nat)),
    {
        match size_exec(self.segments, self.loc, self.nesting_limit) {
            Ok((w, c)) => Ok(MessageSize { word_count: w, cap_count: c }),
            Err(e) => Err(e),
        }
    }
}

} // verus!
