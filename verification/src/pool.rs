//! Admission logic of the bounded sender pool: a fixed number of workers
//! run outbound transfers, queued transfers wait in arrival order, and the
//! runner never blocks on completion.  The surrounding process owns the
//! worker threads; this state decides who may start.

use vstd::prelude::*;

use crate::msg::{RaftMsg, RaftMsgView};

verus! {

/// Default number of concurrent outbound sends.
pub const DEFAULT_SENDER_POOL_SIZE: usize = 3;

/// One queued outbound transfer.
pub struct SendJob {
    pub addr: String,
    pub msg: RaftMsg,
}

/// Mathematical value of a queued transfer.
pub struct SendJobView {
    pub addr: Seq<char>,
    pub msg: RaftMsgView,
}

impl View for SendJob {
    type V = SendJobView;

    open spec fn view(&self) -> SendJobView {
        SendJobView { addr: self.addr@, msg: self.msg@ }
    }
}

/// Admission state of the bounded pool.
pub struct Pool {
    limit: usize,
    running: usize,
    queue: Vec<SendJob>,
}

impl Pool {
    /// Never more transfers hold a worker than the pool has workers.
    pub closed spec fn wf(&self) -> bool {
        self.running <= self.limit && self.limit >= 1
    }

    /// The fixed number of workers.
    pub closed spec fn spec_limit(&self) -> usize {
        self.limit
    }

    /// How many transfers hold a worker right now.
    pub closed spec fn spec_running(&self) -> usize {
        self.running
    }

    /// The transfers waiting for a worker, in arrival order.
    pub closed spec fn queued(&self) -> Seq<SendJobView> {
        self.queue@.map_values(|j: SendJob| j@)
    }

    /// An idle pool of `limit` workers.
    pub fn new(limit: usize) -> (p: Pool)
        requires
            limit >= 1,
        ensures
            p.wf(),
            p.spec_limit() == limit,
            p.spec_running() == 0,
            p.queued() == Seq::<SendJobView>::empty(),
    {
        let p = Pool { limit, running: 0, queue: Vec::new() };
        proof {
            assert(p.queued() =~= Seq::<SendJobView>::empty());
        }
        p
    }

    /// Queues a transfer; admission into the pool is in arrival order.
    pub fn submit(&mut self, job: SendJob)
        requires
            old(self).wf(),
        ensures
            final(self).wf(),
            final(self).spec_limit() == old(self).spec_limit(),
            final(self).spec_running() == old(self).spec_running(),
            final(self).queued() == old(self).queued().push(job@),
    {
        let ghost jv = job@;
        self.queue.push(job);
        proof {
            assert(self.queued() =~= old(self).queued().push(jv));
        }
    }

    /// Hands the longest-waiting transfer to a free worker, if any worker
    /// is free and anything waits; otherwise nothing changes.
    pub fn try_start(&mut self) -> (r: Option<SendJob>)
        requires
            old(self).wf(),
        ensures
            final(self).wf(),
            final(self).spec_limit() == old(self).spec_limit(),
            match r {
                Option::Some(j) => {
                    &&& old(self).queued().len() > 0
                    &&& old(self).spec_running() < old(self).spec_limit()
                    &&& j@ == old(self).queued()[0]
                    &&& final(self).queued() == old(self).queued().drop_first()
                    &&& final(self).spec_running() == old(self).spec_running() + 1
                },
                Option::None => {
                    &&& (old(self).queued().len() == 0 || old(self).spec_running() == old(
                        self,
                    ).spec_limit())
                    &&& *final(self) == *old(self)
                },
            },
    {
        if self.running < self.limit && self.queue.len() > 0 {
            let ghost pq = self.queue@;
            let job = self.queue.remove(0);
            self.running = self.running + 1;
            proof {
                assert forall|i: int| 0 <= i < self.queue@.len() implies (#[trigger] self.queue@[i])@
                    == old(self).queued()[i + 1] by {
                    assert(self.queue@[i] == pq[i + 1]);
                }
                assert(self.queued() =~= old(self).queued().drop_first());
            }
            Some(job)
        } else {
            None
        }
    }

    /// A worker finished its transfer, with whatever outcome, and is free
    /// again.
    pub fn finish(&mut self)
        requires
            old(self).wf(),
            old(self).spec_running() >= 1,
        ensures
            final(self).wf(),
            final(self).spec_limit() == old(self).spec_limit(),
            final(self).spec_running() == old(self).spec_running() - 1,
            final(self).queued() == old(self).queued(),
    {
        self.running = self.running - 1;
    }

    /// How many transfers hold a worker right now.
    pub fn running(&self) -> (r: usize)
        ensures
            r == self.spec_running(),
    {
        self.running
    }

    /// How many transfers wait for a worker.
    pub fn waiting(&self) -> (r: usize)
        ensures
            r == self.queued().len(),
    {
        self.queue.len()
    }
}

/// However tasks were submitted, started and finished, never more
/// transfers hold a worker simultaneously than the pool has workers: every
/// operation keeps the pool well formed, and a well-formed pool is bounded.
pub proof fn law_pool_bounded(p: &Pool)
    requires
        p.wf(),
    ensures
        p.spec_running() <= p.spec_limit(),
{
}

} // verus!
