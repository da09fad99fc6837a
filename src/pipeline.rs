use vstd::prelude::*;
use crate::bytes::le64;
use crate::pointer::Error;
use crate::reader::{follow_spec, child_limit, Loc, PointerReader, StructReader};

verus! {

/// Where following the pointer slots `path` from the struct at `l` leads; a slot that
/// is missing, null, or does not lead to a struct gives `PathNotFound`.
pub open spec fn walk_spec(segs: Seq<Vec<u8>>, l: Loc, limit: u32, path: Seq<u16>) -> Result<Loc, Error>
    decreases path.len(),
{
    if path.len() == 0 {
        Ok(l)
    } else {
        let i = path[0] as int;
        let pos = l.ptr_pos + 8 * i;
        if i >= l.ptr_count || le64(segs[l.segment as int]@, pos) == 0 || limit == 0 {
            Err(Error::PathNotFound)
        } else {
            match follow_spec(segs, l.segment as int, pos) {
                Ok(c) => walk_spec(segs, c, child_limit(limit), path.drop_first()),
                Err(_) => Err(Error::PathNotFound),
            }
        }
    }
}

/// A placeholder for the struct at `path` inside the result of the call `call`.
#[derive(Clone, Debug)]
pub struct Pipeline {
    pub call: u64,
    pub path: Vec<u16>,
}

/// What a call's result is known to be.
#[derive(Clone, Copy)]
pub enum CallState<'a> {
    Pending,
    Resolved(StructReader<'a>),
    /// The transport reported this error for the call.
    Failed(Error),
}

/// A call that was sent, with its result once it arrives.
pub struct Call<'a> {
    pub handle: u64,
    pub state: CallState<'a>,
}

impl Pipeline {
    /// The result of the call itself.
    pub fn new(call: u64) -> (r: Pipeline)
        ensures
            r.call == call,
            r.path@ == Seq::<u16>::empty(),
    {
        Pipeline { call, path: Vec::new() }
    }

    /// The struct that pointer slot `index` of this one leads to, before it is known.
    pub fn get_pointer_field(&self, index: u16) -> (r: Pipeline)
        ensures
            r.call == self.call,
            r.path@ == self.path@.push(index),
    {
        let mut path = self.path.clone();
        path.push(index);
        Pipeline { call: self.call, path }
    }

    /// Follows this pipeline's path from `root`.
    pub fn walk<'a>(&self, root: StructReader<'a>) -> (r: Result<StructReader<'a>, Error>)
        requires
            root.wf(),
        ensures
            crate::reader::result_loc(r) == walk_spec(root.segments@, root.loc, root.nesting_limit, self.path@),
            r matches Ok(s) ==> s.wf() && s.segments == root.segments,
    {
        let mut cur = root;
        let mut k: usize = 0;
        assert(self.path@.skip(0) =~= self.path@);
        while k < self.path.len()
            invariant
                k <= self.path@.len(),
                cur.wf(),
                cur.segments == root.segments,
                walk_spec(root.segments@, root.loc, root.nesting_limit, self.path@) == walk_spec(
                    cur.segments@,
                    cur.loc,
                    cur.nesting_limit,
                    self.path@.skip(k as int),
                ),
            decreases self.path@.len() - k,
        {
            let ghost rest = self.path@.skip(k as int);
            assert(rest.drop_first() =~= self.path@.skip(k + 1));
            assert(rest.len() > 0 && rest[0] == self.path@[k as int]);
            let index = self.path[k] as usize;
            let p: PointerReader<'a> = cur.get_pointer_field(index);
            if index < cur.loc.ptr_count {
                let _n = cur.segments[cur.loc.segment].len();
                assert(8 * index + 8 <= 8 * cur.loc.ptr_count) by (nonlinear_arith)
                    requires
                        index < cur.loc.ptr_count,
                ;
            }
            if p.pos.is_none() || p.is_null() || cur.nesting_limit == 0 {
                return Err(Error::PathNotFound);
            }
            match p.get_struct() {
                Ok(s) => {
                    cur = s;
                },
                Err(_) => {
                    return Err(Error::PathNotFound);
                },
            }
            k = k + 1;
        }
        assert(self.path@.skip(k as int) =~= Seq::<u16>::empty());
        Ok(cur)
    }
}

/// The location that a `Call::get` result stands for.
pub open spec fn opt_loc(r: Option<Result<StructReader, Error>>) -> Option<Result<Loc, Error>> {
    match r {
        Some(x) => Some(crate::reader::result_loc(x)),
        None => None,
    }
}

impl<'a> Call<'a> {
    /// The result, once there is one.
    pub open spec fn root(&self) -> StructReader<'a> {
        match self.state {
            CallState::Resolved(s) => s,
            _ => arbitrary(),
        }
    }

    /// What `get` gives for `p`.
    pub open spec fn get_spec(&self, p: &Pipeline) -> Option<Result<Loc, Error>> {
        if p.call != self.handle {
            None
        } else {
            match self.state {
                CallState::Pending => None,
                CallState::Resolved(s) => Some(walk_spec(s.segments@, s.loc, s.nesting_limit, p.path@)),
                CallState::Failed(e) => Some(Err(e)),
            }
        }
    }

    /// A call whose result has not arrived.
    pub fn new(handle: u64) -> (r: Call<'a>)
        ensures
            r.handle == handle,
            r.state is Pending,
    {
        Call { handle, state: CallState::Pending }
    }

    /// The pipeline for the call's whole result.
    pub fn pipeline(&self) -> (r: Pipeline)
        ensures
            r.call == self.handle,
            r.path@ == Seq::<u16>::empty(),
    {
        Pipeline::new(self.handle)
    }

    /// The outcome that stands once the call has one.
    pub open spec fn outcome(&self) -> Result<StructReader<'a>, Error> {
        match self.state {
            CallState::Resolved(s) => Ok(s),
            CallState::Failed(e) => Err(e),
            CallState::Pending => arbitrary(),
        }
    }

    /// Records the call's outcome, once: a call that already has one keeps it. Gives
    /// the outcome that stands.
    fn settle(&mut self, outcome: CallState<'a>) -> (r: Result<StructReader<'a>, Error>)
        requires
            !(outcome is Pending),
        ensures
            final(self).handle == old(self).handle,
            old(self).state is Pending ==> final(self).state == outcome,
            !(old(self).state is Pending) ==> *final(self) == *old(self),
            !(final(self).state is Pending),
            r == final(self).outcome(),
    {
        match self.state {
            CallState::Pending => {
                self.state = outcome;
            },
            _ => {},
        }
        match self.state {
            CallState::Resolved(s) => Ok(s),
            CallState::Failed(e) => Err(e),
            CallState::Pending => Err(Error::PathNotFound),
        }
    }

    /// Records the call's result; a call that already has an outcome keeps it, so
    /// resolving again changes nothing and gives the first outcome.
    pub fn resolve(&mut self, root: StructReader<'a>) -> (r: Result<StructReader<'a>, Error>)
        ensures
            final(self).handle == old(self).handle,
            old(self).state is Pending ==> final(self).state == CallState::Resolved(root),
            !(old(self).state is Pending) ==> *final(self) == *old(self),
            r == final(self).outcome(),
    {
        self.settle(CallState::Resolved(root))
    }

    /// Records the transport's error for the call; a call that already has an outcome
    /// keeps it.
    pub fn fail(&mut self, e: Error) -> (r: Result<StructReader<'a>, Error>)
        ensures
            final(self).handle == old(self).handle,
            old(self).state is Pending ==> final(self).state == CallState::Failed(e),
            !(old(self).state is Pending) ==> *final(self) == *old(self),
            r == final(self).outcome(),
    {
        self.settle(CallState::Failed(e))
    }

    /// The struct that `p` stands for: `None` while the call is pending, or where `p`
    /// belongs to another call; the walk along its path once the result is there; the
    /// call's error where it failed.
    pub fn get(&self, p: &Pipeline) -> (r: Option<Result<StructReader<'a>, Error>>)
        requires
            self.state matches CallState::Resolved(s) ==> s.wf(),
        ensures
            opt_loc(r) == self.get_spec(p),
            r matches Some(Ok(t)) ==> t.wf() && t.segments == self.root().segments,
    {
        if p.call != self.handle {
            return None;
        }
        match self.state {
            CallState::Pending => None,
            CallState::Resolved(s) => Some(p.walk(s)),
            CallState::Failed(e) => Some(Err(e)),
        }
    }
}

} // verus!
