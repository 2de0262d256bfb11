//! The per-node worker record and the rule that decides which phase moves
//! are legal.

use vstd::prelude::*;
use crate::phase::Phase;

verus! {

/// What a worker record says, as plain mathematical values.
pub struct WorkerView {
    /// The phase the node is in.
    pub phase: Phase,
    /// The items to download, one work unit each.
    pub urls: Seq<Seq<char>>,
    /// How many download units are finished.
    pub completed: nat,
    /// Whether the compression step is finished.
    pub compressed: bool,
    /// Whether the push step is finished.
    pub pushed: bool,
}

impl WorkerView {
    /// The number of download units the node has to finish.
    pub open spec fn required(self) -> nat {
        self.urls.len()
    }

    /// The completion predicate of the current phase: whether everything the
    /// phase has to do is done.
    pub open spec fn phase_complete(self) -> bool {
        match self.phase {
            Phase::Init => true,
            Phase::Downloading => self.completed == self.required(),
            Phase::Compressing => self.compressed,
            Phase::Pushing => self.pushed,
            Phase::Completed => true,
        }
    }

    /// A move to `target` is legal exactly when `target` directly follows the
    /// current phase and the current phase is complete.
    pub open spec fn transition_legal(self, target: Phase) -> bool {
        self.phase.successor_spec() == Some(target) && self.phase_complete()
    }

    /// The record after a move to `target`: only the phase changes.
    pub open spec fn advanced_to(self, target: Phase) -> WorkerView {
        WorkerView { phase: target, ..self }
    }

    /// How many work units the current phase still has to perform.
    pub open spec fn units_remaining(self) -> nat {
        match self.phase {
            Phase::Init => 0,
            Phase::Downloading => (self.required() - self.completed) as nat,
            Phase::Compressing => if self.compressed { 0 } else { 1 },
            Phase::Pushing => if self.pushed { 0 } else { 1 },
            Phase::Completed => 0,
        }
    }

    /// The record after one more work unit of the current phase is finished.
    /// Where the phase has no unit left, nothing changes.
    pub open spec fn unit_done(self) -> WorkerView {
        if self.units_remaining() == 0 {
            self
        } else {
            match self.phase {
                Phase::Downloading => WorkerView { completed: self.completed + 1, ..self },
                Phase::Compressing => WorkerView { compressed: true, ..self },
                Phase::Pushing => WorkerView { pushed: true, ..self },
                _ => self,
            }
        }
    }

    /// The record after every work unit of the current phase is finished.
    pub open spec fn all_units_done(self) -> WorkerView {
        match self.phase {
            Phase::Downloading => WorkerView { completed: self.required(), ..self },
            Phase::Compressing => WorkerView { compressed: true, ..self },
            Phase::Pushing => WorkerView { pushed: true, ..self },
            _ => self,
        }
    }

    /// What holds of every record that was created in `Init` and moved on by
    /// legal transitions and finished work units only: progress never runs
    /// ahead of the phase, and no phase was left before it was complete.
    pub open spec fn consistent(self) -> bool {
        &&& self.completed <= self.required()
        &&& self.phase.rank() < 1 ==> self.completed == 0
        &&& self.phase.rank() > 1 ==> self.completed == self.required()
        &&& self.phase.rank() < 2 ==> !self.compressed
        &&& self.phase.rank() > 2 ==> self.compressed
        &&& self.phase.rank() < 3 ==> !self.pushed
        &&& self.phase.rank() > 3 ==> self.pushed
    }

    /// The record of a node that has just started.
    pub open spec fn initial(urls: Seq<Seq<char>>) -> WorkerView {
        WorkerView { phase: Phase::Init, urls, completed: 0, compressed: false, pushed: false }
    }
}

/// Why a requested phase move was refused.
#[derive(Clone, Copy, Debug, PartialEq, Eq, Structural)]
pub enum TransitionError {
    /// `to` does not directly follow `from`, or `from` was not complete.
    InvalidTransition { from: Phase, to: Phase },
}

/// The views of a list of strings.
pub open spec fn texts(items: Seq<String>) -> Seq<Seq<char>> {
    items.map_values(|s: String| s@)
}

/// The state of one node: its phase and how far the phase's work has come.
/// A record is created in `Init` and moves on through `attempt_transition`
/// or `transition_state` only.
#[derive(Debug)]
pub struct WorkerState {
    phase: Phase,
    download_urls: Vec<String>,
    downloaded_count: usize,
    is_compress: bool,
    is_pushed: bool,
}

impl View for WorkerState {
    type V = WorkerView;

    closed spec fn view(&self) -> WorkerView {
        WorkerView {
            phase: self.phase,
            urls: texts(self.download_urls@),
            completed: self.downloaded_count as nat,
            compressed: self.is_compress,
            pushed: self.is_pushed,
        }
    }
}

fn copy_urls(urls: &Vec<String>) -> (copy: Vec<String>)
    ensures
        copy@ == urls@,
{
    let mut copy: Vec<String> = Vec::new();
    let mut i: usize = 0;
    while i < urls.len()
        invariant
            i <= urls.len(),
            copy@ == urls@.subrange(0, i as int),
        decreases urls.len() - i,
    {
        copy.push(urls[i].clone());
        assert(copy@ =~= urls@.subrange(0, i + 1));
        i = i + 1;
    }
    assert(urls@.subrange(0, urls.len() as int) =~= urls@);
    copy
}

impl WorkerState {
    #[verifier::type_invariant]
    spec fn inv(&self) -> bool {
        self@.consistent()
    }

    /// A fresh record in `Init` for the given download items, with no work
    /// done yet.
    pub fn new(download_urls: Vec<String>) -> (state: WorkerState)
        ensures
            state@ == WorkerView::initial(texts(download_urls@)),
            state@.consistent(),
    {
        WorkerState {
            phase: Phase::Init,
            download_urls,
            downloaded_count: 0,
            is_compress: false,
            is_pushed: false,
        }
    }

    /// The phase the node is in.
    pub fn phase(&self) -> (phase: Phase)
        ensures
            phase == self@.phase,
    {
        self.phase
    }

    /// The items to download.
    pub fn download_urls(&self) -> (urls: &Vec<String>)
        ensures
            texts(urls@) == self@.urls,
    {
        &self.download_urls
    }

    /// The number of download units the node has to finish.
    pub fn required_count(&self) -> (n: usize)
        ensures
            n == self@.required(),
    {
        self.download_urls.len()
    }

    /// The number of download units that are finished.
    pub fn downloaded_count(&self) -> (n: usize)
        ensures
            n == self@.completed,
    {
        self.downloaded_count
    }

    /// Whether the compression step is finished.
    pub fn is_compress(&self) -> (done: bool)
        ensures
            done == self@.compressed,
    {
        self.is_compress
    }

    /// Whether the push step is finished.
    pub fn is_pushed(&self) -> (done: bool)
        ensures
            done == self@.pushed,
    {
        self.is_pushed
    }

    /// Whether the current phase has done all it has to do.
    pub fn phase_complete(&self) -> (done: bool)
        ensures
            done == self@.phase_complete(),
            self@.consistent(),
    {
        proof {
            use_type_invariant(self);
        }
        match self.phase {
            Phase::Init => true,
            Phase::Downloading => self.downloaded_count == self.download_urls.len(),
            Phase::Compressing => self.is_compress,
            Phase::Pushing => self.is_pushed,
            Phase::Completed => true,
        }
    }

    /// How many work units the current phase still has to perform.
    pub fn units_remaining(&self) -> (n: usize)
        ensures
            n == self@.units_remaining(),
            self@.consistent(),
    {
        proof {
            use_type_invariant(self);
        }
        match self.phase {
            Phase::Init => 0,
            Phase::Downloading => self.download_urls.len() - self.downloaded_count,
            Phase::Compressing => if self.is_compress { 0 } else { 1 },
            Phase::Pushing => if self.is_pushed { 0 } else { 1 },
            Phase::Completed => 0,
        }
    }

    /// Records that one more work unit of the current phase is finished: a
    /// download is counted, or the phase's flag is set. Returns whether there
    /// was such a unit; if not, the record stays as it was.
    pub fn complete_unit(&mut self) -> (counted: bool)
        ensures
            counted == (old(self)@.units_remaining() > 0),
            final(self)@ == old(self)@.unit_done(),
            final(self)@.consistent(),
    {
        proof {
            use_type_invariant(&*self);
        }
        match self.phase {
            Phase::Downloading => {
                if self.downloaded_count < self.download_urls.len() {
                    self.downloaded_count = self.downloaded_count + 1;
                    true
                } else {
                    false
                }
            },
            Phase::Compressing => {
                if self.is_compress {
                    false
                } else {
                    self.is_compress = true;
                    true
                }
            },
            Phase::Pushing => {
                if self.is_pushed {
                    false
                } else {
                    self.is_pushed = true;
                    true
                }
            },
            _ => false,
        }
    }

    /// Records that all work units of the current phase are finished.
    pub fn complete_all_units(&mut self)
        ensures
            final(self)@ == old(self)@.all_units_done(),
            final(self)@.phase_complete(),
            final(self)@.consistent(),
    {
        proof {
            use_type_invariant(&*self);
        }
        match self.phase {
            Phase::Downloading => {
                self.downloaded_count = self.download_urls.len();
            },
            Phase::Compressing => {
                self.is_compress = true;
            },
            Phase::Pushing => {
                self.is_pushed = true;
            },
            _ => {},
        }
    }

    /// Moves the record itself to `new_state` if that move is legal, and
    /// leaves it untouched if it is not.
    pub fn transition_state(&mut self, new_state: Phase) -> (outcome: Result<(), TransitionError>)
        ensures
            match outcome {
                Ok(()) => old(self)@.transition_legal(new_state)
                    && final(self)@ == old(self)@.advanced_to(new_state),
                Err(e) => !old(self)@.transition_legal(new_state) && final(self)@ == old(self)@
                    && e == (TransitionError::InvalidTransition {
                        from: old(self)@.phase,
                        to: new_state,
                    }),
            },
            final(self)@.consistent(),
    {
        proof {
            use_type_invariant(&*self);
        }
        let legal = match self.phase.successor() {
            Some(next) => next == new_state && self.phase_complete(),
            None => false,
        };
        if legal {
            self.phase = new_state;
            Ok(())
        } else {
            Err(TransitionError::InvalidTransition { from: self.phase, to: new_state })
        }
    }
}

/// The transition validator. Where the move from `current`'s phase to
/// `target` is legal it returns the next record, which differs from `current`
/// in its phase only; otherwise it returns `InvalidTransition`. `current`
/// itself is never changed.
pub fn attempt_transition(current: &WorkerState, target: Phase) -> (outcome: Result<
    WorkerState,
    TransitionError,
>)
    ensures
        match outcome {
            Ok(next) => current@.transition_legal(target)
                && next@ == current@.advanced_to(target) && next@.consistent(),
            Err(e) => !current@.transition_legal(target)
                && e == (TransitionError::InvalidTransition { from: current@.phase, to: target }),
        },
{
    proof {
        use_type_invariant(current);
    }
    let legal = match current.phase.successor() {
        Some(next) => next == target && current.phase_complete(),
        None => false,
    };
    if legal {
        Ok(
            WorkerState {
                phase: target,
                download_urls: copy_urls(&current.download_urls),
                downloaded_count: current.downloaded_count,
                is_compress: current.is_compress,
                is_pushed: current.is_pushed,
            },
        )
    } else {
        Err(TransitionError::InvalidTransition { from: current.phase, to: target })
    }
}

/// The table of legal moves, written out: `Init` to `Downloading` always;
/// `Downloading` to `Compressing` once every download unit is finished;
/// `Compressing` to `Pushing` once compression is done; `Pushing` to
/// `Completed` once the push is done; and no other pair of phases.
pub proof fn lemma_legal_moves(v: WorkerView, target: Phase)
    ensures
        v.transition_legal(target) <==> {
            ||| v.phase == Phase::Init && target == Phase::Downloading
            ||| v.phase == Phase::Downloading && target == Phase::Compressing && v.completed
                == v.required()
            ||| v.phase == Phase::Compressing && target == Phase::Pushing && v.compressed
            ||| v.phase == Phase::Pushing && target == Phase::Completed && v.pushed
        },
{
}

/// `Completed` is terminal and `Init` is initial: no move leaves the first,
/// no move enters the second, and no move stays where it is, skips a phase
/// or goes back.
pub proof fn lemma_no_move_out_of_order(v: WorkerView, target: Phase)
    ensures
        v.phase == Phase::Completed ==> !v.transition_legal(target),
        target == Phase::Init ==> !v.transition_legal(target),
        v.transition_legal(target) ==> target.rank() == v.phase.rank() + 1,
{
}

/// Legal moves and finished work units keep a record consistent, and the
/// record of a node that has just started is consistent.
pub proof fn lemma_consistency_is_kept(v: WorkerView, target: Phase)
    requires
        v.consistent(),
    ensures
        v.transition_legal(target) ==> v.advanced_to(target).consistent(),
        v.unit_done().consistent(),
        WorkerView::initial(v.urls).consistent(),
{
}

/// A consistent record in `Completed` has all its work behind it: every
/// download unit is counted and both flags are set.
pub proof fn lemma_completed_has_all_work_done(v: WorkerView)
    requires
        v.consistent(),
        v.phase == Phase::Completed,
    ensures
        v.completed == v.required(),
        v.compressed,
        v.pushed,
{
}

/// Finishing a unit brings a phase one unit closer to completion, and a
/// phase is complete exactly when it has no unit left.
pub proof fn lemma_units_count_down(v: WorkerView)
    requires
        v.consistent(),
    ensures
        v.units_remaining() > 0 ==> v.unit_done().units_remaining() == v.units_remaining() - 1,
        v.units_remaining() == 0 <==> v.phase_complete(),
        v.unit_done().phase == v.phase,
        v.unit_done().urls == v.urls,
        v.units_remaining() == 0 ==> v.all_units_done() == v,
        v.all_units_done().units_remaining() == 0,
        v.all_units_done().consistent(),
{
}

} // verus!
