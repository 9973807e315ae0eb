//! Ordering of durable writes: each write may start only once every write
//! accepted before it has completed.
use vstd::prelude::*;

verus! {

/// Tracks which queued writes have completed, in the order they completed.
pub struct PersistenceChain {
    completed: u64,
    log: Ghost<Seq<u64>>,
}

impl View for PersistenceChain {
    type V = Seq<u64>;

    /// Tickets of the completed writes, in completion order.
    closed spec fn view(&self) -> Seq<u64> {
        self.log@
    }
}

impl PersistenceChain {
    pub closed spec fn wf(&self) -> bool {
        &&& self.log@.len() == self.completed
        &&& forall|i: int| 0 <= i < self.log@.len() ==> #[trigger] self.log@[i] == i
    }

    /// No write completed yet.
    pub fn new() -> (r: Self)
        ensures
            r.wf(),
            r@ == Seq::<u64>::empty(),
    {
        PersistenceChain { completed: 0, log: Ghost(Seq::empty()) }
    }

    /// The ticket of the write that may start now.
    pub fn next_ticket(&self) -> (r: u64)
        requires
            self.wf(),
        ensures
            r == self@.len(),
    {
        self.completed
    }

    /// Whether the write with `ticket` may start: every earlier one completed
    /// and it has not.
    pub fn may_write(&self, ticket: u64) -> (r: bool)
        requires
            self.wf(),
        ensures
            r == (ticket == self@.len()),
    {
        ticket == self.completed
    }

    /// Records that the write with `ticket` completed, whatever the database
    /// answered, so that the next one is not stalled.
    pub fn complete(&mut self, ticket: u64)
        requires
            old(self).wf(),
            ticket == old(self)@.len(),
            ticket < u64::MAX,
        ensures
            final(self).wf(),
            final(self)@ == old(self)@.push(ticket),
    {
        self.completed = self.completed + 1;
        self.log = Ghost(self.log@.push(ticket));
    }
}

/// Writes complete in the order in which their blocks were accepted: the
/// `i`-th completed write is the one with ticket `i`, the `i`-th accepted block.
pub proof fn lemma_writes_in_acceptance_order(chain: PersistenceChain)
    requires
        chain.wf(),
    ensures
        forall|i: int| 0 <= i < chain@.len() ==> #[trigger] chain@[i] == i,
        forall|i: int, j: int| 0 <= i < j < chain@.len() ==> #[trigger] chain@[i] < #[trigger] chain@[j],
{
}

} // verus!
