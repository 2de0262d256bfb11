//! The ordered pipeline of phases.

use vstd::prelude::*;

verus! {

/// One stage of the pipeline. The stages are totally ordered, from `Init`
/// to `Completed`; a node visits each exactly once, in that order.
#[derive(Clone, Copy, Debug, PartialEq, Eq, Structural)]
pub enum Phase {
    Init,
    Downloading,
    Compressing,
    Pushing,
    Completed,
}

impl Phase {
    /// Position of the phase in the pipeline, counted from zero.
    pub open spec fn rank(self) -> nat {
        match self {
            Phase::Init => 0,
            Phase::Downloading => 1,
            Phase::Compressing => 2,
            Phase::Pushing => 3,
            Phase::Completed => 4,
        }
    }

    /// The phase that directly follows `self`, if there is one.
    pub open spec fn successor_spec(self) -> Option<Phase> {
        match self {
            Phase::Init => Some(Phase::Downloading),
            Phase::Downloading => Some(Phase::Compressing),
            Phase::Compressing => Some(Phase::Pushing),
            Phase::Pushing => Some(Phase::Completed),
            Phase::Completed => None,
        }
    }

    /// The name under which the phase is announced to peers.
    pub open spec fn name_spec(self) -> Seq<char> {
        match self {
            Phase::Init => "Init"@,
            Phase::Downloading => "Downloading"@,
            Phase::Compressing => "Compressing"@,
            Phase::Pushing => "Pushing"@,
            Phase::Completed => "Completed"@,
        }
    }

    /// The phase that carries the given name, if any does.
    pub open spec fn from_name_spec(name: Seq<char>) -> Option<Phase> {
        if name == "Init"@ {
            Some(Phase::Init)
        } else if name == "Downloading"@ {
            Some(Phase::Downloading)
        } else if name == "Compressing"@ {
            Some(Phase::Compressing)
        } else if name == "Pushing"@ {
            Some(Phase::Pushing)
        } else if name == "Completed"@ {
            Some(Phase::Completed)
        } else {
            None
        }
    }

    /// Position of the phase in the pipeline.
    pub fn ordinal(self) -> (n: u8)
        ensures
            n == self.rank(),
    {
        match self {
            Phase::Init => 0,
            Phase::Downloading => 1,
            Phase::Compressing => 2,
            Phase::Pushing => 3,
            Phase::Completed => 4,
        }
    }

    /// The phase that directly follows `self`; `None` for `Completed`.
    pub fn successor(self) -> (next: Option<Phase>)
        ensures
            next == self.successor_spec(),
    {
        match self {
            Phase::Init => Some(Phase::Downloading),
            Phase::Downloading => Some(Phase::Compressing),
            Phase::Compressing => Some(Phase::Pushing),
            Phase::Pushing => Some(Phase::Completed),
            Phase::Completed => None,
        }
    }

    /// The name under which the phase is announced to peers.
    pub fn name(self) -> (name: &'static str)
        ensures
            name@ == self.name_spec(),
    {
        match self {
            Phase::Init => "Init",
            Phase::Downloading => "Downloading",
            Phase::Compressing => "Compressing",
            Phase::Pushing => "Pushing",
            Phase::Completed => "Completed",
        }
    }

    /// Reads a phase back from its name. Names are matched exactly.
    pub fn from_name(name: &str) -> (phase: Option<Phase>)
        ensures
            phase == Phase::from_name_spec(name@),
    {
        let owned = name.to_owned();
        if owned == "Init".to_owned() {
            Some(Phase::Init)
        } else if owned == "Downloading".to_owned() {
            Some(Phase::Downloading)
        } else if owned == "Compressing".to_owned() {
            Some(Phase::Compressing)
        } else if owned == "Pushing".to_owned() {
            Some(Phase::Pushing)
        } else if owned == "Completed".to_owned() {
            Some(Phase::Completed)
        } else {
            None
        }
    }
}

/// A phase's successor stands exactly one position further in the pipeline,
/// and `Completed`, the last position, is the only phase without one.
pub proof fn lemma_successor_is_next(p: Phase)
    ensures
        p.successor_spec() is None <==> p == Phase::Completed,
        p.successor_spec() matches Some(q) ==> q.rank() == p.rank() + 1,
{
}

/// No phase has `Init` as its successor, and two different phases never
/// share a successor: the pipeline neither loops back nor merges.
pub proof fn lemma_successor_injective(p: Phase, q: Phase)
    ensures
        p.successor_spec() != Some(Phase::Init),
        p.successor_spec() is Some && p.successor_spec() == q.successor_spec() ==> p == q,
{
}

/// Phases are ordered by position: the order is total, and two phases at the
/// same position are the same phase.
pub proof fn lemma_rank_total(p: Phase, q: Phase)
    ensures
        p.rank() < q.rank() || p.rank() == q.rank() || q.rank() < p.rank(),
        p.rank() == q.rank() <==> p == q,
        p.rank() <= 4,
{
}

/// Every phase is read back from its own name, and a name that reads as a
/// phase is that phase's name.
pub proof fn lemma_name_round_trip(p: Phase, name: Seq<char>)
    ensures
        Phase::from_name_spec(p.name_spec()) == Some(p),
        Phase::from_name_spec(name) == Some(p) ==> name == p.name_spec(),
{
    reveal_strlit("Init");
    reveal_strlit("Downloading");
    reveal_strlit("Compressing");
    reveal_strlit("Pushing");
    reveal_strlit("Completed");
    assert("Init"@.len() == 4);
    assert("Downloading"@.len() == 11);
    assert("Compressing"@.len() == 11);
    assert("Pushing"@.len() == 7);
    assert("Completed"@.len() == 9);
    assert("Downloading"@[0] == 'D');
    assert("Compressing"@[0] == 'C');
}

} // verus!
