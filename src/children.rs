//! Bookkeeping of the child processes that run the batches: which are alive,
//! how many may be, and the argument list of each launch.

use crate::parser::{arg_views, lemma_arg_views_push};
use vstd::prelude::*;

verus! {

/// What a launch needs: the live child to wait on first, if the pool is full,
/// and the full argument list of the new child.
pub struct Launch {
    /// Process id of the child that must be waited on before launching.
    pub wait_first: Option<u32>,
    /// Initial arguments followed by the batch.
    pub args: Vec<Vec<u8>>,
}

/// Keeps track of the running children that invoke one utility, and bounds
/// how many run at once.
pub struct ChildMinder {
    /// Maximum number of children running at once.
    max_children: usize,
    /// Utility to invoke.
    cmd: Vec<u8>,
    /// Arguments passed to the utility before those of each batch.
    initial_args: Vec<Vec<u8>>,
    /// Process ids of the children not yet waited on, oldest first.
    children: Vec<u32>,
}

impl ChildMinder {
    /// Maximum number of live children.
    pub closed spec fn max_children(&self) -> nat {
        self.max_children as nat
    }

    /// The utility invoked.
    pub closed spec fn command(&self) -> Seq<u8> {
        self.cmd@
    }

    /// Arguments passed before those of each batch.
    pub closed spec fn prefix(&self) -> Seq<Seq<u8>> {
        arg_views(self.initial_args@)
    }

    /// Process ids of the children not yet waited on.
    pub closed spec fn live(&self) -> Seq<u32> {
        self.children@
    }

    /// At least one child may run, and no more run than allowed.
    pub open spec fn wf(&self) -> bool {
        1 <= self.max_children() && self.live().len() <= self.max_children()
    }

    /// Creates a pool of at most `max_children` children that invoke `cmd`
    /// with `initial_args` followed by the arguments of each batch.
    pub fn new(max_children: usize, cmd: Vec<u8>, initial_args: Vec<Vec<u8>>) -> (m: Self)
        requires
            max_children >= 1,
        ensures
            m.wf(),
            m.max_children() == max_children,
            m.command() == cmd@,
            m.prefix() == arg_views(initial_args@),
            m.live() == Seq::<u32>::empty(),
    {
        ChildMinder { max_children, cmd, initial_args, children: Vec::new() }
    }

    /// The utility invoked.
    pub fn cmd(&self) -> (r: &Vec<u8>)
        ensures
            r@ == self.command(),
    {
        &self.cmd
    }

    /// Number of children not yet waited on.
    pub fn live_count(&self) -> (r: usize)
        ensures
            r == self.live().len(),
    {
        self.children.len()
    }

    /// Prepares the launch of a child on `remaining_args`. When the pool is
    /// full, the oldest live child is taken out of it, to be waited on before
    /// the launch; otherwise no child is.
    pub fn spawn(&mut self, remaining_args: &Vec<Vec<u8>>) -> (r: Launch)
        requires
            old(self).wf(),
        ensures
            final(self).wf(),
            final(self).max_children() == old(self).max_children(),
            final(self).command() == old(self).command(),
            final(self).prefix() == old(self).prefix(),
            final(self).live().len() < final(self).max_children(),
            arg_views(r.args@) == old(self).prefix() + arg_views(remaining_args@),
            old(self).live().len() < old(self).max_children() ==> {
                &&& r.wait_first is None
                &&& final(self).live() == old(self).live()
            },
            old(self).live().len() >= old(self).max_children() ==> {
                &&& r.wait_first == Some(old(self).live()[0])
                &&& final(self).live() == old(self).live().drop_first()
            },
    {
        let mut wait_first: Option<u32> = None;
        if self.children.len() >= self.max_children {
            let ghost before = self.children@;
            let pid = self.children.remove(0);
            assert(self.children@ =~= before.drop_first());
            wait_first = Some(pid);
        }
        let args = self.invocation(remaining_args);
        Launch { wait_first, args }
    }

    /// Records a child just launched, if the pool has room for it.
    pub fn add_child(&mut self, pid: u32) -> (r: bool)
        requires
            old(self).wf(),
        ensures
            final(self).wf(),
            final(self).max_children() == old(self).max_children(),
            final(self).command() == old(self).command(),
            final(self).prefix() == old(self).prefix(),
            r == (old(self).live().len() < old(self).max_children()),
            r ==> final(self).live() == old(self).live().push(pid),
            !r ==> final(self).live() == old(self).live(),
    {
        if self.children.len() < self.max_children {
            self.children.push(pid);
            true
        } else {
            false
        }
    }

    /// Takes every live child out of the pool, to be waited on; afterwards
    /// none is live.
    pub fn wait_all(&mut self) -> (r: Vec<u32>)
        requires
            old(self).wf(),
        ensures
            final(self).wf(),
            final(self).max_children() == old(self).max_children(),
            final(self).command() == old(self).command(),
            final(self).prefix() == old(self).prefix(),
            r@ == old(self).live(),
            final(self).live().len() == 0,
    {
        let mut taken: Vec<u32> = Vec::new();
        core::mem::swap(&mut self.children, &mut taken);
        taken
    }

    /// The initial arguments followed by `remaining_args`.
    fn invocation(&self, remaining_args: &Vec<Vec<u8>>) -> (r: Vec<Vec<u8>>)
        ensures
            arg_views(r@) == self.prefix() + arg_views(remaining_args@),
    {
        let ghost init = self.initial_args@;
        let ghost rest = remaining_args@;
        let mut r: Vec<Vec<u8>> = Vec::new();
        let mut i: usize = 0;
        assert(arg_views(r@) =~= arg_views(init.subrange(0, 0)));
        while i < self.initial_args.len()
            invariant
                init == self.initial_args@,
                i <= init.len(),
                arg_views(r@) == arg_views(init.subrange(0, i as int)),
            decreases init.len() - i,
        {
            let a = self.initial_args[i].clone();
            assert(a@ =~= init[i as int]@);
            proof {
                lemma_arg_views_push(r@, a);
                lemma_arg_views_push(init.subrange(0, i as int), init[i as int]);
                assert(init.subrange(0, i + 1) =~= init.subrange(0, i as int).push(init[i as int]));
            }
            r.push(a);
            i = i + 1;
        }
        assert(init.subrange(0, i as int) =~= init);
        assert(self.prefix() + arg_views(rest.subrange(0, 0)) =~= self.prefix());
        let mut j: usize = 0;
        while j < remaining_args.len()
            invariant
                rest == remaining_args@,
                j <= rest.len(),
                arg_views(r@) == self.prefix() + arg_views(rest.subrange(0, j as int)),
            decreases rest.len() - j,
        {
            let a = remaining_args[j].clone();
            assert(a@ =~= rest[j as int]@);
            let ghost done = arg_views(rest.subrange(0, j as int));
            proof {
                lemma_arg_views_push(r@, a);
                lemma_arg_views_push(rest.subrange(0, j as int), rest[j as int]);
                assert(rest.subrange(0, j + 1) =~= rest.subrange(0, j as int).push(rest[j as int]));
                assert(self.prefix() + done.push(a@) =~= (self.prefix() + done).push(a@));
            }
            r.push(a);
            j = j + 1;
        }
        assert(rest.subrange(0, j as int) =~= rest);
        r
    }
}

} // verus!
