//! The in-process barrier: a reusable rendezvous for a fixed number of
//! parties that share memory.
//!
//! The barrier itself never blocks. It counts arrivals and says, to each
//! party that arrives, whether the party has to wait or whether it is the
//! last and everyone may go. A party that has to wait gets the number of the
//! round it waits in, and is released when the barrier has moved on to
//! another round. The caller holds the barrier under a lock and does the
//! waiting.

use vstd::prelude::*;
use crate::phase::Phase;
use crate::sync::SyncError;

verus! {

/// A barrier as plain mathematical values.
pub struct BarrierView {
    /// Number of parties that have to arrive before anyone may go.
    pub parties: nat,
    /// Number of parties that wait in the current round.
    pub waiting: nat,
    /// Number of the current round.
    pub round: u64,
    /// The boundary at which the parties of the current round wait; `None`
    /// while nobody waits.
    pub boundary: Option<Phase>,
}

/// What the barrier tells a party that arrives.
#[derive(Clone, Copy, Debug, PartialEq, Eq, Structural)]
pub enum Arrival {
    /// The party has to wait until the round with this number is over.
    Wait(u64),
    /// The party was the last of its round: all parties of the round may go.
    Release,
}

/// The number of the round that follows round `round`. Round numbers start
/// again at zero after the largest.
pub open spec fn round_after(round: u64) -> u64 {
    if round == u64::MAX {
        0
    } else {
        (round + 1) as u64
    }
}

impl BarrierView {
    /// What holds of every barrier: it has at least one party, fewer
    /// parties wait than have to arrive, and the round has a boundary exactly
    /// while somebody waits.
    pub open spec fn wf(self) -> bool {
        &&& self.waiting < self.parties
        &&& self.boundary is Some <==> self.waiting > 0
    }

    /// A barrier for `parties` at which nobody has arrived.
    pub open spec fn initial(parties: nat) -> BarrierView {
        BarrierView { parties, waiting: 0, round: 0, boundary: None }
    }

    /// Whether a party may enter at `boundary_id`: nobody waits yet, or
    /// those who wait do so at the same boundary.
    pub open spec fn admits(self, boundary_id: Phase) -> bool {
        self.boundary is None || self.boundary == Some(boundary_id)
    }

    /// Whether the next party to arrive completes the round.
    pub open spec fn next_completes(self) -> bool {
        self.waiting + 1 == self.parties
    }

    /// What the next party to arrive is told.
    pub open spec fn answer(self) -> Arrival {
        if self.next_completes() {
            Arrival::Release
        } else {
            Arrival::Wait(self.round)
        }
    }

    /// The barrier after one more party has arrived at `boundary_id`.
    pub open spec fn arrived(self, boundary_id: Phase) -> BarrierView {
        if self.next_completes() {
            BarrierView { waiting: 0, round: round_after(self.round), boundary: None, ..self }
        } else {
            BarrierView { waiting: self.waiting + 1, boundary: Some(boundary_id), ..self }
        }
    }

    /// The barrier after `count` more parties have arrived at `boundary_id`.
    pub open spec fn after(self, boundary_id: Phase, count: nat) -> BarrierView
        decreases count,
    {
        if count == 0 {
            self
        } else {
            self.after(boundary_id, (count - 1) as nat).arrived(boundary_id)
        }
    }

    /// Whether a party that was told to wait in round `ticket` may go.
    pub open spec fn released(self, ticket: u64) -> bool {
        self.round != ticket
    }
}

/// A counting barrier for a fixed number of parties, reusable round after
/// round.
#[derive(Debug)]
pub struct CountingBarrier {
    parties: usize,
    waiting: usize,
    round: u64,
    boundary: Phase,
}

impl View for CountingBarrier {
    type V = BarrierView;

    closed spec fn view(&self) -> BarrierView {
        BarrierView {
            parties: self.parties as nat,
            waiting: self.waiting as nat,
            round: self.round,
            boundary: if self.waiting > 0 {
                Some(self.boundary)
            } else {
                None
            },
        }
    }
}

impl CountingBarrier {
    #[verifier::type_invariant]
    spec fn inv(&self) -> bool {
        self.waiting < self.parties
    }

    /// A barrier for `parties` parties. A barrier without parties cannot be
    /// made.
    pub fn new(parties: usize) -> (outcome: Result<CountingBarrier, SyncError>)
        ensures
            match outcome {
                Ok(b) => parties > 0 && b@ == BarrierView::initial(parties as nat) && b@.wf(),
                Err(e) => parties == 0 && e == SyncError::InvalidCohort,
            },
    {
        if parties == 0 {
            Err(SyncError::InvalidCohort)
        } else {
            Ok(CountingBarrier { parties, waiting: 0, round: 0, boundary: Phase::Init })
        }
    }

    /// Number of parties that have to arrive before anyone may go.
    pub fn parties(&self) -> (n: usize)
        ensures
            n == self@.parties,
    {
        self.parties
    }

    /// Number of parties that wait in the current round.
    pub fn waiting(&self) -> (n: usize)
        ensures
            n == self@.waiting,
            self@.wf(),
    {
        proof {
            use_type_invariant(self);
        }
        self.waiting
    }

    /// Number of the current round.
    pub fn round(&self) -> (round: u64)
        ensures
            round == self@.round,
    {
        self.round
    }

    /// The boundary at which the parties of the current round wait; `None`
    /// while nobody waits.
    pub fn boundary(&self) -> (boundary: Option<Phase>)
        ensures
            boundary == self@.boundary,
    {
        if self.waiting > 0 {
            Some(self.boundary)
        } else {
            None
        }
    }

    /// Counts the arrival of one party at the boundary in front of
    /// `boundary_id`. The last party of a round is told `Release`, and the
    /// barrier starts its next round with nobody waiting; every other party is
    /// told to wait for the end of the current round. A party that arrives at
    /// another boundary than the one at which others wait is refused, and
    /// nothing changes.
    pub fn enter_barrier(&mut self, boundary_id: Phase) -> (outcome: Result<Arrival, SyncError>)
        ensures
            match outcome {
                Ok(answer) => old(self)@.admits(boundary_id) && answer == old(self)@.answer()
                    && final(self)@ == old(self)@.arrived(boundary_id),
                Err(e) => !old(self)@.admits(boundary_id) && final(self)@ == old(self)@ && e
                    == SyncError::WrongBoundary,
            },
            final(self)@.wf(),
    {
        proof {
            use_type_invariant(&*self);
        }
        if self.waiting > 0 && self.boundary != boundary_id {
            return Err(SyncError::WrongBoundary);
        }
        if self.waiting + 1 == self.parties {
            let next: u64 = if self.round == u64::MAX {
                0
            } else {
                self.round + 1
            };
            self.waiting = 0;
            self.round = next;
            Ok(Arrival::Release)
        } else {
            self.boundary = boundary_id;
            self.waiting = self.waiting + 1;
            Ok(Arrival::Wait(self.round))
        }
    }

    /// Whether a party that was told to wait in round `ticket` may go: the
    /// barrier has left that round.
    pub fn has_released(&self, ticket: u64) -> (released: bool)
        ensures
            released == self@.released(ticket),
    {
        self.round != ticket
    }
}

/// Nobody goes before everybody has come. Starting from a barrier at which
/// nobody waits, the first `parties - 1` arrivals at a boundary are all told
/// to wait in the same round, and as long as fewer than `parties` have
/// arrived, none of them is released.
pub proof fn lemma_no_release_before_all_arrive(b: BarrierView, boundary_id: Phase, count: nat)
    requires
        b.wf(),
        b.waiting == 0,
        count < b.parties,
    ensures
        b.after(boundary_id, count).wf(),
        b.after(boundary_id, count).admits(boundary_id),
        b.after(boundary_id, count).waiting == count,
        b.after(boundary_id, count).round == b.round,
        b.after(boundary_id, count).parties == b.parties,
        !b.after(boundary_id, count).released(b.round),
        count + 1 < b.parties ==> b.after(boundary_id, count).answer() == Arrival::Wait(b.round),
        count + 1 == b.parties ==> b.after(boundary_id, count).answer() == Arrival::Release,
    decreases count,
{
    if count > 0 {
        lemma_no_release_before_all_arrive(b, boundary_id, (count - 1) as nat);
    }
}

/// Everybody goes at once. The arrival of the last party ends the round for
/// all: every party that was told to wait in it is released by that one
/// step, and the barrier stands ready for the next round with nobody waiting.
pub proof fn lemma_last_arrival_releases_all(b: BarrierView, boundary_id: Phase)
    requires
        b.wf(),
        b.waiting == 0,
    ensures
        b.after(boundary_id, b.parties).wf(),
        b.after(boundary_id, b.parties).waiting == 0,
        b.after(boundary_id, b.parties).boundary is None,
        b.after(boundary_id, b.parties).round == round_after(b.round),
        b.after(boundary_id, b.parties).parties == b.parties,
        b.after(boundary_id, b.parties).released(b.round),
        b.after(boundary_id, b.parties) == b.after(boundary_id, (b.parties - 1) as nat).arrived(
            boundary_id,
        ),
{
    lemma_no_release_before_all_arrive(b, boundary_id, (b.parties - 1) as nat);
}

/// All parties of a round wait at the same boundary: while somebody waits,
/// a party is admitted at that boundary and at no other.
pub proof fn lemma_one_boundary_per_round(b: BarrierView, boundary_id: Phase, other: Phase)
    requires
        b.wf(),
        b.waiting > 0,
        b.admits(boundary_id),
        other != boundary_id,
    ensures
        !b.admits(other),
        !b.next_completes() ==> b.arrived(boundary_id).boundary == b.boundary,
{
}

/// A barrier for a single party never makes it wait.
pub proof fn lemma_single_party_never_waits(b: BarrierView, boundary_id: Phase)
    requires
        b.wf(),
        b.parties == 1,
    ensures
        b.admits(boundary_id),
        b.answer() == Arrival::Release,
        b.arrived(boundary_id).waiting == 0,
{
}

} // verus!
