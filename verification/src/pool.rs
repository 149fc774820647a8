//! The worker pool's observable state: a fixed set of workers draining one
//! FIFO queue, shut down by one stop sentinel per worker. The threads
//! themselves live with the caller; the transitions here say what each event
//! does to the pool, and what holds of every accepted task once the pool has
//! stopped.
use vstd::prelude::*;

verus! {

#[derive(PartialEq, Eq, Structural)]
pub enum PoolState {
    /// Workers accept and run submitted tasks.
    Running,
    /// Shutdown was requested: one sentinel per worker stands behind the
    /// queued tasks, and no further submission is accepted.
    Draining,
    /// Every worker has exited.
    Stopped,
}

/// A pool's observable state. Tasks are carried by identity: `submitted`
/// lists every task the queue accepted, in order; `queue` what still waits;
/// `executed` what some worker ran to completion, in order.
pub struct PoolModel {
    pub size: u32,
    pub workers_alive: u32,
    pub queue: Vec<u64>,
    pub queued_sentinels: u32,
    pub submitted: Vec<u64>,
    pub executed: Vec<u64>,
    pub state: PoolState,
}

impl PoolModel {
    /// Conservation and phase invariant: what was accepted is exactly what
    /// ran followed by what still waits — no task lost, duplicated or
    /// reordered — and sentinels exist exactly while draining, one per live
    /// worker.
    pub open spec fn wf(&self) -> bool {
        &&& self.size >= 1
        &&& self.submitted@ == self.executed@ + self.queue@
        &&& (self.state == PoolState::Running ==> self.queued_sentinels == 0
            && self.workers_alive == self.size)
        &&& (self.state == PoolState::Draining ==> self.queued_sentinels == self.workers_alive
            && self.workers_alive >= 1)
        &&& (self.state == PoolState::Stopped ==> self.workers_alive == 0 && self.queue@.len()
            == 0 && self.queued_sentinels == 0)
    }

    /// A pool of `size` idle workers.
    pub fn new(size: u32) -> (r: PoolModel)
        requires
            size >= 1,
        ensures
            r.wf(),
            r.size == size,
            r.state == PoolState::Running,
            r.submitted@.len() == 0,
            r.executed@.len() == 0,
            r.queue@.len() == 0,
    {
        let r = PoolModel {
            size,
            workers_alive: size,
            queue: Vec::new(),
            queued_sentinels: 0,
            submitted: Vec::new(),
            executed: Vec::new(),
            state: PoolState::Running,
        };
        proof {
            assert(r.submitted@ =~= r.executed@ + r.queue@);
        }
        r
    }

    /// Enqueue the task `id`. Succeeds exactly while the pool still runs: a
    /// pool that has begun shutdown refuses the task and is left unchanged.
    pub fn execute(&mut self, id: u64) -> (r: bool)
        requires
            old(self).wf(),
        ensures
            final(self).wf(),
            r <==> old(self).state == PoolState::Running,
            r ==> final(self).queue@ == old(self).queue@.push(id) && final(self).submitted@
                == old(self).submitted@.push(id),
            !r ==> *final(self) == *old(self),
            final(self).executed@ == old(self).executed@,
            final(self).state == old(self).state,
            final(self).workers_alive == old(self).workers_alive,
            final(self).queued_sentinels == old(self).queued_sentinels,
            final(self).size == old(self).size,
    {
        match self.state {
            PoolState::Running => {
                self.queue.push(id);
                self.submitted.push(id);
                proof {
                    assert(self.submitted@ =~= self.executed@ + self.queue@);
                }
                true
            },
            _ => false,
        }
    }

    /// A worker takes the task at the head of the queue and runs it to
    /// completion.
    pub fn run_one(&mut self)
        requires
            old(self).wf(),
            old(self).queue@.len() > 0,
        ensures
            final(self).wf(),
            final(self).queue@ == old(self).queue@.drop_first(),
            final(self).executed@ == old(self).executed@.push(old(self).queue@[0]),
            final(self).submitted@ == old(self).submitted@,
            final(self).state == old(self).state,
            final(self).workers_alive == old(self).workers_alive,
            final(self).queued_sentinels == old(self).queued_sentinels,
            final(self).size == old(self).size,
    {
        let id = self.queue.remove(0);
        self.executed.push(id);
        proof {
            assert(self.queue@ =~= old(self).queue@.drop_first());
            assert(self.submitted@ =~= self.executed@ + self.queue@);
        }
    }

    /// Request shutdown: enqueue one stop sentinel per worker, behind every
    /// task already queued.
    pub fn begin_shutdown(&mut self)
        requires
            old(self).wf(),
            old(self).state == PoolState::Running,
        ensures
            final(self).wf(),
            *final(self) == (PoolModel {
                queued_sentinels: old(self).workers_alive,
                state: PoolState::Draining,
                ..*old(self)
            }),
    {
        self.queued_sentinels = self.workers_alive;
        self.state = PoolState::Draining;
    }

    /// A worker reaches a sentinel — the queue holds no task before it — and
    /// exits; the last exit stops the pool.
    pub fn join_one(&mut self)
        requires
            old(self).wf(),
            old(self).state == PoolState::Draining,
            old(self).queue@.len() == 0,
        ensures
            final(self).wf(),
            final(self).workers_alive == old(self).workers_alive - 1,
            final(self).queued_sentinels == old(self).queued_sentinels - 1,
            final(self).submitted@ == old(self).submitted@,
            final(self).executed@ == old(self).executed@,
            final(self).queue@.len() == 0,
            final(self).size == old(self).size,
            final(self).state == if old(self).workers_alive == 1 {
                PoolState::Stopped
            } else {
                PoolState::Draining
            },
    {
        self.workers_alive = self.workers_alive - 1;
        self.queued_sentinels = self.queued_sentinels - 1;
        if self.workers_alive == 0 {
            self.state = PoolState::Stopped;
        }
    }

    /// Drain and stop the pool: every task submitted before this call runs,
    /// then every worker exits. On return no worker is alive and exactly the
    /// accepted tasks have executed, once each, in submission order.
    pub fn shutdown(&mut self)
        requires
            old(self).wf(),
            old(self).state == PoolState::Running,
        ensures
            final(self).wf(),
            final(self).state == PoolState::Stopped,
            final(self).workers_alive == 0,
            final(self).submitted@ == old(self).submitted@,
            final(self).executed@ == old(self).submitted@,
    {
        self.begin_shutdown();
        while self.queue.len() > 0
            invariant
                self.wf(),
                self.state == PoolState::Draining,
                self.submitted@ == old(self).submitted@,
            decreases self.queue@.len(),
        {
            self.run_one();
        }
        proof {
            assert(self.submitted@ =~= self.executed@);
        }
        while self.workers_alive > 0
            invariant
                self.wf(),
                self.queue@.len() == 0,
                self.submitted@ == old(self).submitted@,
                self.executed@ == old(self).submitted@,
                self.workers_alive > 0 ==> self.state == PoolState::Draining,
                self.workers_alive == 0 ==> self.state == PoolState::Stopped,
            decreases self.workers_alive,
        {
            self.join_one();
        }
    }
}

/// Pool drain guarantee: a stopped, well-formed pool has no worker alive and
/// has executed exactly the tasks it accepted, once each, in the order they
/// were submitted.
pub proof fn lemma_pool_drained(p: PoolModel)
    requires
        p.wf(),
        p.state == PoolState::Stopped,
    ensures
        p.workers_alive == 0,
        p.executed@ == p.submitted@,
{
    assert(p.submitted@ =~= p.executed@);
}

} // verus!
