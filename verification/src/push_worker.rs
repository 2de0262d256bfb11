//! Workers whose phase is part of their type.
//!
//! A `PushWorker<S>` is a worker record that is known, at compile time, to
//! be in the phase that `S` stands for. Each phase offers only the
//! operations that make sense in it, and the only way from one phase to the
//! next is `move_state`, which asks the transition validator.

use vstd::prelude::*;
use crate::executor::{is_plan, is_unit_time, plan_units, unit_duration};
use crate::phase::{lemma_name_round_trip, Phase};
use crate::worker::{attempt_transition, texts, TransitionError, WorkerState, WorkerView};

verus! {

/// A type that stands for one phase of the pipeline.
pub trait State: Sized {
    /// The phase that the type stands for.
    spec fn phase_spec() -> Phase;

    /// The one value of the type.
    fn new() -> (state: Self);

    /// The name of the phase that the type stands for.
    fn state_info() -> (name: &'static str)
        ensures
            name@ == Self::phase_spec().name_spec(),
    ;
}

/// Stands for `Phase::Init`.
#[derive(Clone, Copy, Debug)]
pub struct Init;

/// Stands for `Phase::Downloading`.
#[derive(Clone, Copy, Debug)]
pub struct Downloading;

/// Stands for `Phase::Compressing`.
#[derive(Clone, Copy, Debug)]
pub struct Compressing;

/// Stands for `Phase::Pushing`.
#[derive(Clone, Copy, Debug)]
pub struct Pushing;

/// Stands for `Phase::Completed`.
#[derive(Clone, Copy, Debug)]
pub struct Completed;

impl State for Init {
    open spec fn phase_spec() -> Phase {
        Phase::Init
    }

    fn new() -> (state: Self) {
        Init
    }

    fn state_info() -> (name: &'static str) {
        "Init"
    }
}

impl State for Downloading {
    open spec fn phase_spec() -> Phase {
        Phase::Downloading
    }

    fn new() -> (state: Self) {
        Downloading
    }

    fn state_info() -> (name: &'static str) {
        "Downloading"
    }
}

impl State for Compressing {
    open spec fn phase_spec() -> Phase {
        Phase::Compressing
    }

    fn new() -> (state: Self) {
        Compressing
    }

    fn state_info() -> (name: &'static str) {
        "Compressing"
    }
}

impl State for Pushing {
    open spec fn phase_spec() -> Phase {
        Phase::Pushing
    }

    fn new() -> (state: Self) {
        Pushing
    }

    fn state_info() -> (name: &'static str) {
        "Pushing"
    }
}

impl State for Completed {
    open spec fn phase_spec() -> Phase {
        Phase::Completed
    }

    fn new() -> (state: Self) {
        Completed
    }

    fn state_info() -> (name: &'static str) {
        "Completed"
    }
}

/// A worker record in the phase that `S` stands for.
#[derive(Debug)]
pub struct PushWorker<S: State> {
    record: WorkerState,
    state: S,
}

impl<S: State> View for PushWorker<S> {
    type V = WorkerView;

    closed spec fn view(&self) -> WorkerView {
        self.record@
    }
}

impl<S: State> PushWorker<S> {
    /// What the methods keep true of the worker: its record is consistent
    /// and is in the phase that `S` stands for.
    pub closed spec fn wf(&self) -> bool {
        self.record@.consistent() && self.record@.phase == S::phase_spec()
    }

    /// A well-formed worker is in the phase of its type, and its record is
    /// consistent.
    pub proof fn lemma_phase_of_type(&self)
        requires
            self.wf(),
        ensures
            self@.phase == S::phase_spec(),
            self@.consistent(),
    {
    }

    /// The record behind the worker.
    pub fn record(&self) -> (record: &WorkerState)
        ensures
            record@ == self@,
    {
        &self.record
    }

    /// The phase the worker is in.
    pub fn phase(&self) -> (phase: Phase)
        requires
            self.wf(),
        ensures
            phase == S::phase_spec(),
            phase == self@.phase,
    {
        self.record.phase()
    }
}

impl PushWorker<Init> {
    /// A fresh worker for the given download items. Workers start in `Init`
    /// and nowhere else.
    pub fn new(download_urls: Vec<String>, state: Init) -> (worker: Self)
        ensures
            worker@ == WorkerView::initial(texts(download_urls@)),
            worker.wf(),
    {
        PushWorker { record: WorkerState::new(download_urls), state }
    }

    /// The line that a node shows when it has been set up.
    pub fn print_info(&self) -> (line: &'static str)
        ensures
            line@ == "State machine is Initiated waiting for all machine to setup"@,
    {
        "State machine is Initiated waiting for all machine to setup"
    }
}

impl PushWorker<Downloading> {
    /// Works off the downloads that are left: draws the time that each of
    /// them takes and counts it as done. Returns the times, in seconds, for
    /// the caller to wait.
    pub fn downloading_files(&mut self) -> (durations: Vec<u64>)
        requires
            old(self).wf(),
        ensures
            is_plan(durations@, old(self)@.units_remaining()),
            final(self)@ == old(self)@.all_units_done(),
            final(self)@.completed == final(self)@.required(),
            final(self).wf(),
    {
        let durations = plan_units(self.record.units_remaining());
        self.record.complete_all_units();
        durations
    }
}

impl PushWorker<Compressing> {
    /// Does the compression step: draws the time it takes and marks it as
    /// done. Returns the time, in seconds, for the caller to wait.
    pub fn compressing_files(&mut self) -> (seconds: u64)
        requires
            old(self).wf(),
        ensures
            is_unit_time(seconds),
            final(self)@ == old(self)@.all_units_done(),
            final(self)@.compressed,
            final(self).wf(),
    {
        let seconds = unit_duration();
        self.record.complete_all_units();
        seconds
    }
}

impl PushWorker<Pushing> {
    /// Does the push step: draws the time it takes and marks it as done.
    /// Returns the time, in seconds, for the caller to wait.
    pub fn pushing_files(&mut self) -> (seconds: u64)
        requires
            old(self).wf(),
        ensures
            is_unit_time(seconds),
            final(self)@ == old(self)@.all_units_done(),
            final(self)@.pushed,
            final(self).wf(),
    {
        let seconds = unit_duration();
        self.record.complete_all_units();
        seconds
    }
}

impl PushWorker<Completed> {
    /// The line that a node shows when its pipeline is finished.
    pub fn greeter(&self) -> (line: &'static str)
        ensures
            line@ == "task completed"@,
    {
        "task completed"
    }
}

/// Moves a worker from the phase of `S` to the phase of `T`. The move
/// succeeds exactly when the validator allows it: `T` has to stand for the
/// phase that directly follows, and the work of the current phase has to be
/// complete. The new worker carries the old one's record on, with nothing
/// but the phase changed.
pub fn move_state<S: State, T: State>(worker: PushWorker<S>) -> (outcome: Result<
    PushWorker<T>,
    TransitionError,
>)
    requires
        worker.wf(),
    ensures
        match outcome {
            Ok(next) => worker@.transition_legal(T::phase_spec()) && next@ == worker@.advanced_to(
                T::phase_spec(),
            ) && next.wf(),
            Err(e) => !worker@.transition_legal(T::phase_spec())
                && e == (TransitionError::InvalidTransition {
                    from: S::phase_spec(),
                    to: T::phase_spec(),
                }),
        },
{
    proof {
        lemma_name_round_trip(T::phase_spec(), T::phase_spec().name_spec());
    }
    match Phase::from_name(T::state_info()) {
        Some(target) => match attempt_transition(&worker.record, target) {
            Ok(record) => Ok(PushWorker { record, state: T::new() }),
            Err(e) => Err(e),
        },
        None => Err(
            TransitionError::InvalidTransition { from: worker.record.phase(), to: Phase::Init },
        ),
    }
}

} // verus!
