use vstd::prelude::*;

use crate::epoch::{next_epoch_spec, Epoch, MAX_PHYSICAL_TIME};

verus! {

/// Where the barrier of one epoch stands.
#[derive(Debug, Clone, Copy, PartialEq, Eq, Structural)]
pub enum BarrierState {
    /// Its command is chosen; it is not injected yet.
    Pending,
    /// Injected into the sources; acknowledgments are awaited.
    InFlight,
    /// Every actor acknowledged it; its side effects are being persisted.
    Collected,
    /// Durable; later epochs may build on it.
    Committed,
    /// Abandoned; recovery takes over.
    Failed,
}

/// The barrier of epoch `curr_epoch`, following `prev_epoch`, with the
/// actors that have not acknowledged it yet.
#[derive(Debug)]
pub struct Barrier {
    pub prev_epoch: Epoch,
    pub curr_epoch: Epoch,
    pub state: BarrierState,
    pub pending_acks: Vec<u32>,
}

/// `xs` without any occurrence of `x`.
pub open spec fn without(xs: Seq<u32>, x: u32) -> Seq<u32>
    decreases xs.len(),
{
    if xs.len() == 0 {
        Seq::empty()
    } else {
        without(xs.drop_last(), x) + if xs.last() != x {
            seq![xs.last()]
        } else {
            Seq::empty()
        }
    }
}

impl Barrier {
    pub open spec fn wf(&self) -> bool {
        self.prev_epoch.0 < self.curr_epoch.0
    }

    /// The barrier of the epoch after `prev_epoch` at clock reading `now`,
    /// awaiting the acknowledgment of every actor of `actors`.
    pub fn new(prev_epoch: Epoch, now: u64, actors: Vec<u32>) -> (r: Barrier)
        requires
            prev_epoch.0 < u64::MAX,
            now <= MAX_PHYSICAL_TIME,
        ensures
            r.wf(),
            r.prev_epoch == prev_epoch,
            r.curr_epoch.0 == next_epoch_spec(prev_epoch.0, now),
            r.state == BarrierState::Pending,
            r.pending_acks@ == actors@,
    {
        let curr_epoch = prev_epoch.next_at(now);
        Barrier { prev_epoch, curr_epoch, state: BarrierState::Pending, pending_acks: actors }
    }

    /// Records the outcome of the injection RPCs.
    pub fn injected(&mut self, ok: bool)
        requires
            old(self).state == BarrierState::Pending,
        ensures
            final(self).prev_epoch == old(self).prev_epoch,
            final(self).curr_epoch == old(self).curr_epoch,
            final(self).pending_acks@ == old(self).pending_acks@,
            final(self).state == if !ok {
                BarrierState::Failed
            } else if old(self).pending_acks.len() == 0 {
                BarrierState::Collected
            } else {
                BarrierState::InFlight
            },
    {
        if !ok {
            self.state = BarrierState::Failed;
        } else if self.pending_acks.len() == 0 {
            self.state = BarrierState::Collected;
        } else {
            self.state = BarrierState::InFlight;
        }
    }

    /// Records the acknowledgment of `actor_id`; the barrier is collected
    /// once no actor is left.
    pub fn acknowledge(&mut self, actor_id: u32)
        requires
            old(self).state == BarrierState::InFlight,
        ensures
            final(self).prev_epoch == old(self).prev_epoch,
            final(self).curr_epoch == old(self).curr_epoch,
            final(self).pending_acks@ == without(old(self).pending_acks@, actor_id),
            final(self).state == if final(self).pending_acks.len() == 0 {
                BarrierState::Collected
            } else {
                BarrierState::InFlight
            },
    {
        let ghost start = self.pending_acks@;
        let mut left: Vec<u32> = Vec::new();
        let mut i: usize = 0;
        while i < self.pending_acks.len()
            invariant
                self.pending_acks@ == start,
                i <= start.len(),
                left@ == without(start.subrange(0, i as int), actor_id),
            decreases start.len() - i,
        {
            let a = self.pending_acks[i];
            assert(start.subrange(0, i + 1).drop_last() =~= start.subrange(0, i as int));
            if a != actor_id {
                left.push(a);
            }
            i = i + 1;
        }
        assert(start.subrange(0, start.len() as int) =~= start);
        self.pending_acks = left;
        if self.pending_acks.len() == 0 {
            self.state = BarrierState::Collected;
        }
    }

    /// Records the outcome of persisting the side effects of a collected
    /// barrier.
    pub fn post_collected(&mut self, ok: bool)
        requires
            old(self).state == BarrierState::Collected,
        ensures
            final(self).prev_epoch == old(self).prev_epoch,
            final(self).curr_epoch == old(self).curr_epoch,
            final(self).pending_acks@ == old(self).pending_acks@,
            final(self).state == if ok {
                BarrierState::Committed
            } else {
                BarrierState::Failed
            },
    {
        self.state = if ok {
            BarrierState::Committed
        } else {
            BarrierState::Failed
        };
    }

    /// The barrier of the next epoch, built on this committed one.
    pub fn next(&self, now: u64, actors: Vec<u32>) -> (r: Barrier)
        requires
            self.state == BarrierState::Committed,
            self.curr_epoch.0 < u64::MAX,
            now <= MAX_PHYSICAL_TIME,
        ensures
            r.wf(),
            r.prev_epoch == self.curr_epoch,
            r.curr_epoch.0 == next_epoch_spec(self.curr_epoch.0, now),
            r.state == BarrierState::Pending,
            r.pending_acks@ == actors@,
    {
        Barrier::new(self.curr_epoch, now, actors)
    }
}

/// The `k`-th barrier of `chain` follows the epoch of the one before it.
pub open spec fn linked(chain: Seq<Barrier>, k: int) -> bool {
    chain[k].prev_epoch == chain[k - 1].curr_epoch
}

proof fn lemma_chain_increases(chain: Seq<Barrier>, i: int, j: int)
    requires
        forall|k: int| 0 <= k < chain.len() ==> #[trigger] chain[k].wf(),
        forall|k: int| 0 < k < chain.len() ==> #[trigger] linked(chain, k),
        0 <= i < j < chain.len(),
    ensures
        chain[i].curr_epoch.0 < chain[j].curr_epoch.0,
    decreases j - i,
{
    assert(chain[j].wf());
    assert(linked(chain, j));
    if j > i + 1 {
        lemma_chain_increases(chain, i, j - 1);
    }
}

/// Along a chain of barriers, each built on the one before it, the epochs
/// strictly increase; in particular every committed epoch is greater than
/// the committed epoch before it.
pub proof fn lemma_committed_epochs_increase(chain: Seq<Barrier>)
    requires
        forall|i: int| 0 <= i < chain.len() ==> #[trigger] chain[i].wf(),
        forall|i: int| 0 < i < chain.len() ==> #[trigger] linked(chain, i),
    ensures
        forall|i: int, j: int|
            0 <= i < j < chain.len() ==> chain[i].curr_epoch.0 < chain[j].curr_epoch.0,
{
    assert forall|i: int, j: int| 0 <= i < j < chain.len() implies chain[i].curr_epoch.0
        < chain[j].curr_epoch.0 by {
        lemma_chain_increases(chain, i, j);
    }
}

} // verus!
