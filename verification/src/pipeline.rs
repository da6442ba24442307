use vstd::prelude::*;

verus! {

/// How many chunk requests a download keeps in flight at most.
pub const DOWNLOAD_CONCURRENCY: u64 = 12;

/// How many chunk pushes an upload keeps in flight at most.
pub const UPLOAD_CONCURRENCY: u64 = 3;

/// The state of a bounded-concurrency chunk pipeline: how many of the
/// `total` work items have been handed out and how many have come back.
/// The pipeline is the sole backpressure mechanism of a transfer: new work
/// is issued only while fewer than `limit` items are outstanding.
pub struct Pipeline {
    pub total: u64,
    pub issued: u64,
    pub completed: u64,
    pub limit: u64,
}

impl Pipeline {
    /// How many items are outstanding right now.
    pub open spec fn in_flight(&self) -> int {
        self.issued - self.completed
    }

    /// Every state the pipeline can reach: nothing completes before it is
    /// issued, nothing is issued beyond the work list, and never more than
    /// `limit` items are outstanding.
    pub open spec fn wf(&self) -> bool {
        &&& self.limit > 0
        &&& self.completed <= self.issued <= self.total
        &&& self.in_flight() <= self.limit
    }

    /// An idle pipeline over `total` work items with ceiling `limit`.
    pub fn new(total: u64, limit: u64) -> (p: Pipeline)
        requires
            limit > 0,
        ensures
            p.wf(),
            p.total == total,
            p.limit == limit,
            p.issued == 0,
            p.completed == 0,
    {
        Pipeline { total, issued: 0, completed: 0, limit }
    }

    /// Whether another work item may be handed out: work remains and the
    /// concurrency ceiling leaves room.
    pub fn can_issue(&self) -> (r: bool)
        requires
            self.wf(),
        ensures
            r == (self.issued < self.total && self.in_flight() < self.limit),
    {
        self.issued < self.total && self.issued - self.completed < self.limit
    }

    /// Hand out the next work item; its index is the return value.
    pub fn issue(&mut self) -> (i: u64)
        requires
            old(self).wf(),
            old(self).issued < old(self).total,
            old(self).in_flight() < old(self).limit,
        ensures
            final(self).wf(),
            i == old(self).issued,
            final(self).issued == old(self).issued + 1,
            final(self).completed == old(self).completed,
            final(self).total == old(self).total,
            final(self).limit == old(self).limit,
    {
        let i = self.issued;
        self.issued = self.issued + 1;
        i
    }

    /// Record one work item as settled.
    pub fn complete(&mut self)
        requires
            old(self).wf(),
            old(self).completed < old(self).issued,
        ensures
            final(self).wf(),
            final(self).completed == old(self).completed + 1,
            final(self).issued == old(self).issued,
            final(self).total == old(self).total,
            final(self).limit == old(self).limit,
    {
        self.completed = self.completed + 1;
    }

    /// Whether every work item has settled.
    pub fn is_done(&self) -> (r: bool)
        requires
            self.wf(),
        ensures
            r == (self.completed == self.total),
    {
        self.completed == self.total
    }
}

/// The concurrency ceiling holds in every reachable pipeline state: `new`
/// establishes `wf`, `issue` and `complete` preserve it, and `wf` bounds
/// the outstanding work by the configured limit — so at no point does a
/// transfer hold more than `limit` requests in flight.
pub proof fn lemma_in_flight_bounded(p: &Pipeline)
    requires
        p.wf(),
    ensures
        p.in_flight() <= p.limit,
        p.in_flight() >= 0,
{
}

} // verus!
