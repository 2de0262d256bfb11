//! The driver: the order in which a node works, moves on and waits.
//!
//! A node goes through its phases in a straight line. In each phase it does
//! the phase's work, asks the validator for the next state, and enters the
//! boundary in front of the next phase; only when the cohort has released it
//! does it begin the work of that phase. The driver does none of the waiting
//! itself. It is told what has happened and answers with what to do next.

use vstd::prelude::*;
use crate::executor::{is_plan, plan_units};
use crate::phase::Phase;
use crate::worker::{WorkerState, WorkerView};

verus! {

/// What the driver is told.
#[derive(Clone, Copy, Debug, PartialEq, Eq, Structural)]
pub enum Event {
    /// The node has started.
    Start,
    /// The work that the driver asked for is done.
    WorkDone,
    /// The cohort has released the node from the boundary it had entered.
    Released,
}

/// What the driver is waiting for.
#[derive(Clone, Copy, Debug, PartialEq, Eq, Structural)]
pub enum Stage {
    /// The node has not started.
    Idle,
    /// The work of the current phase is under way.
    Working,
    /// The node has entered the boundary in front of the current phase and
    /// waits for the cohort.
    Waiting,
    /// The pipeline is finished.
    Done,
}

/// What the driver asks for.
#[derive(Debug, PartialEq, Eq)]
pub enum Command {
    /// Do the work units of the current phase; each takes the given number
    /// of seconds. Answer with `WorkDone`.
    Work(Vec<u64>),
    /// Enter the boundary in front of the given phase. Answer with
    /// `Released` once the cohort has let the node pass.
    Enter(Phase),
    /// Nothing is left to do.
    Stop,
}

/// A command as plain mathematical values.
pub enum CommandView {
    /// Do work units that take the given numbers of seconds.
    Work(Seq<u64>),
    /// Enter the boundary in front of the given phase.
    Enter(Phase),
    /// Nothing is left to do.
    Stop,
}

impl View for Command {
    type V = CommandView;

    open spec fn view(&self) -> CommandView {
        match self {
            Command::Work(durations) => CommandView::Work(durations@),
            Command::Enter(phase) => CommandView::Enter(*phase),
            Command::Stop => CommandView::Stop,
        }
    }
}

/// Why the driver refused an event.
#[derive(Clone, Copy, Debug, PartialEq, Eq, Structural)]
pub enum DriverError {
    /// The event is not the one the driver was waiting for.
    UnexpectedEvent { stage: Stage, event: Event },
}

/// A driver as plain mathematical values.
pub struct DriverView {
    /// The node's record.
    pub worker: WorkerView,
    /// What the driver is waiting for.
    pub stage: Stage,
}

impl DriverView {
    /// What holds of every driver: its record is consistent, and the stage
    /// fits the phase.
    pub open spec fn wf(self) -> bool {
        &&& self.worker.consistent()
        &&& self.stage == Stage::Idle ==> self.worker.phase == Phase::Init
        &&& self.stage == Stage::Waiting ==> self.worker.phase != Phase::Init
        &&& self.stage == Stage::Working ==> self.worker.units_remaining() > 0
        &&& self.stage == Stage::Done ==> self.worker.phase == Phase::Completed
    }

    /// The driver of a node that has not started.
    pub open spec fn initial(urls: Seq<Seq<char>>) -> DriverView {
        DriverView { worker: WorkerView::initial(urls), stage: Stage::Idle }
    }

    /// Whether `event` is the one the driver is waiting for.
    pub open spec fn accepts(self, event: Event) -> bool {
        match (self.stage, event) {
            (Stage::Idle, Event::Start) => true,
            (Stage::Working, Event::WorkDone) => true,
            (Stage::Waiting, Event::Released) => true,
            _ => false,
        }
    }

    /// The current phase is complete: the record moves to the next phase,
    /// and the node has to enter the boundary in front of it.
    pub open spec fn leave_phase(self) -> (DriverView, CommandView) {
        let next = self.worker.phase.successor_spec().unwrap();
        (
            DriverView { worker: self.worker.advanced_to(next), stage: Stage::Waiting },
            CommandView::Enter(next),
        )
    }

    /// The driver's answer to `event`, and the driver after it. `durations`
    /// are the times drawn for the work units, used where work begins.
    /// `None` where the event is not the one the driver is waiting for.
    pub open spec fn step(self, event: Event, durations: Seq<u64>) -> Option<
        (DriverView, CommandView),
    > {
        match (self.stage, event) {
            (Stage::Idle, Event::Start) => Some(self.leave_phase()),
            (Stage::Working, Event::WorkDone) => Some(
                DriverView { worker: self.worker.all_units_done(), ..self }.leave_phase(),
            ),
            (Stage::Waiting, Event::Released) => if self.worker.phase == Phase::Completed {
                Some((DriverView { stage: Stage::Done, ..self }, CommandView::Stop))
            } else if self.worker.units_remaining() == 0 {
                Some(self.leave_phase())
            } else {
                Some((DriverView { stage: Stage::Working, ..self }, CommandView::Work(durations)))
            },
            _ => None,
        }
    }

    /// The event the driver is waiting for; none once the pipeline is
    /// finished.
    pub open spec fn awaited(self) -> Option<Event> {
        match self.stage {
            Stage::Idle => Some(Event::Start),
            Stage::Working => Some(Event::WorkDone),
            Stage::Waiting => Some(Event::Released),
            Stage::Done => None,
        }
    }

    /// The driver after the event it is waiting for has come. A finished
    /// driver stays as it is.
    pub open spec fn proceed(self) -> DriverView {
        match self.awaited() {
            Some(event) => match self.step(event, Seq::empty()) {
                Some((next, _)) => next,
                None => self,
            },
            None => self,
        }
    }

    /// The driver after `steps` times the event it was waiting for has come.
    pub open spec fn run(self, steps: nat) -> DriverView
        decreases steps,
    {
        if steps == 0 {
            self
        } else {
            self.proceed().run((steps - 1) as nat)
        }
    }

    /// A bound on the number of events that are still to come before the
    /// pipeline is finished.
    pub open spec fn steps_left(self) -> nat {
        let phases_left = (4 - self.worker.phase.rank()) as nat;
        match self.stage {
            Stage::Idle => 3 * phases_left + 2,
            Stage::Waiting => 3 * phases_left + 2,
            Stage::Working => 3 * phases_left + 1,
            Stage::Done => 0,
        }
    }
}

impl CommandView {
    /// The times of the work units that the command asks for; none where it
    /// asks for no work.
    pub open spec fn durations(self) -> Seq<u64> {
        match self {
            CommandView::Work(durations) => durations,
            _ => Seq::empty(),
        }
    }
}

/// Drives one node through the pipeline.
#[derive(Debug)]
pub struct Driver {
    worker: WorkerState,
    stage: Stage,
}

impl View for Driver {
    type V = DriverView;

    closed spec fn view(&self) -> DriverView {
        DriverView { worker: self.worker@, stage: self.stage }
    }
}

impl Driver {
    /// What the methods keep true of the driver: its view is well formed.
    pub closed spec fn wf(&self) -> bool {
        self@.wf()
    }

    /// A well-formed driver has a well-formed view.
    pub proof fn lemma_view_wf(&self)
        requires
            self.wf(),
        ensures
            self@.wf(),
    {
    }

    /// The driver of a node that has not started, for the given download
    /// items.
    pub fn new(download_urls: Vec<String>) -> (driver: Driver)
        ensures
            driver@ == DriverView::initial(crate::worker::texts(download_urls@)),
            driver.wf(),
    {
        Driver { worker: WorkerState::new(download_urls), stage: Stage::Idle }
    }

    /// The node's record.
    pub fn worker(&self) -> (worker: &WorkerState)
        ensures
            worker@ == self@.worker,
    {
        &self.worker
    }

    /// What the driver is waiting for.
    pub fn stage(&self) -> (stage: Stage)
        ensures
            stage == self@.stage,
    {
        self.stage
    }

    /// Whether the pipeline is finished.
    pub fn is_done(&self) -> (done: bool)
        ensures
            done == (self@.stage == Stage::Done),
    {
        self.stage == Stage::Done
    }

    fn leave_phase(&mut self) -> (command: Command)
        requires
            old(self)@.worker.consistent(),
            old(self)@.worker.phase != Phase::Completed,
            old(self)@.worker.phase_complete(),
        ensures
            (final(self)@, command@) == old(self)@.leave_phase(),
            final(self)@.wf(),
    {
        match self.worker.phase().successor() {
            Some(next) => {
                let moved = self.worker.transition_state(next);
                assert(moved is Ok);
                self.stage = Stage::Waiting;
                Command::Enter(next)
            },
            None => Command::Stop,
        }
    }

    /// Answers `event`, with `durations` as the times of the work units
    /// where work begins. An event that the driver is not waiting for is
    /// refused and changes nothing.
    pub fn handle_with(&mut self, event: Event, durations: Vec<u64>) -> (outcome: Result<
        Command,
        DriverError,
    >)
        requires
            old(self).wf(),
        ensures
            match outcome {
                Ok(command) => old(self)@.step(event, durations@) == Some(
                    (final(self)@, command@),
                ),
                Err(e) => old(self)@.step(event, durations@) is None && final(self)@ == old(self)@
                    && e == (DriverError::UnexpectedEvent { stage: old(self)@.stage, event }),
            },
            final(self).wf(),
    {
        match (self.stage, event) {
            (Stage::Idle, Event::Start) => Ok(self.leave_phase()),
            (Stage::Working, Event::WorkDone) => {
                self.worker.complete_all_units();
                Ok(self.leave_phase())
            },
            (Stage::Waiting, Event::Released) => {
                if self.worker.phase() == Phase::Completed {
                    self.stage = Stage::Done;
                    Ok(Command::Stop)
                } else if self.worker.units_remaining() == 0 {
                    proof {
                        crate::worker::lemma_units_count_down(self@.worker);
                    }
                    Ok(self.leave_phase())
                } else {
                    self.stage = Stage::Working;
                    Ok(Command::Work(durations))
                }
            },
            _ => Err(DriverError::UnexpectedEvent { stage: self.stage, event }),
        }
    }

    /// Answers `event`. Where work begins, a time is drawn at random for
    /// each unit of it. An event that the driver is not waiting for is refused
    /// and changes nothing.
    pub fn handle(&mut self, event: Event) -> (outcome: Result<Command, DriverError>)
        requires
            old(self).wf(),
        ensures
            match outcome {
                Ok(command) => old(self)@.step(event, command@.durations()) == Some(
                    (final(self)@, command@),
                ) && (command@ is Work ==> is_plan(
                    command@.durations(),
                    old(self)@.worker.units_remaining(),
                )),
                Err(e) => !old(self)@.accepts(event) && final(self)@ == old(self)@
                    && e == (DriverError::UnexpectedEvent { stage: old(self)@.stage, event }),
            },
            final(self).wf(),
    {
        let units: usize = match (self.stage, event) {
            (Stage::Waiting, Event::Released) => self.worker.units_remaining(),
            _ => 0,
        };
        let durations = plan_units(units);
        self.handle_with(event, durations)
    }
}

/// Every answer of the driver keeps it well formed, keeps the download
/// items, and moves the node on by one phase at most, never back.
pub proof fn lemma_step_keeps(d: DriverView, event: Event, durations: Seq<u64>)
    requires
        d.wf(),
        d.step(event, durations) is Some,
    ensures
        ({
            let next = d.step(event, durations).unwrap().0;
            &&& next.wf()
            &&& next.worker.urls == d.worker.urls
            &&& d.worker.phase.rank() <= next.worker.phase.rank() <= d.worker.phase.rank() + 1
        }),
        d.accepts(event),
{
    crate::worker::lemma_units_count_down(d.worker);
}

/// The driver never lets a node run ahead of the cohort. Work is asked for
/// in answer to a release only, and never for a phase without work left; a
/// boundary is entered only by a legal move out of a completed phase, and it
/// is the boundary in front of the phase the record has moved to.
pub proof fn lemma_commands_follow_the_protocol(d: DriverView, event: Event, durations: Seq<u64>)
    requires
        d.wf(),
        d.step(event, durations) is Some,
    ensures
        ({
            let next = d.step(event, durations).unwrap().0;
            let command = d.step(event, durations).unwrap().1;
            &&& command is Work ==> event == Event::Released && next.stage == Stage::Working
                && next.worker == d.worker && command == CommandView::Work(durations)
            &&& command matches CommandView::Enter(boundary) ==> next.stage == Stage::Waiting
                && next.worker.phase == boundary && (if event == Event::WorkDone {
                d.worker.all_units_done()
            } else {
                d.worker
            }).transition_legal(boundary)
            &&& command is Stop ==> next.stage == Stage::Done && d.worker.phase
                == Phase::Completed
        }),
{
    crate::worker::lemma_units_count_down(d.worker);
}

/// What the driver becomes does not depend on the times drawn for the work.
pub proof fn lemma_state_ignores_durations(
    d: DriverView,
    event: Event,
    first: Seq<u64>,
    second: Seq<u64>,
)
    ensures
        d.step(event, first) is Some <==> d.step(event, second) is Some,
        d.step(event, first) is Some ==> d.step(event, first).unwrap().0 == d.step(
            event,
            second,
        ).unwrap().0,
{
}

/// The pipeline makes progress: as long as it is not finished, the driver
/// accepts the event it is waiting for, and each such event brings it closer
/// to the end.
pub proof fn lemma_progress(d: DriverView)
    requires
        d.wf(),
        d.stage != Stage::Done,
    ensures
        d.awaited() is Some,
        d.step(d.awaited().unwrap(), Seq::empty()) is Some,
        d.proceed().wf(),
        d.proceed().steps_left() < d.steps_left(),
        d.proceed().worker.urls == d.worker.urls,
{
    crate::worker::lemma_units_count_down(d.worker);
}

/// A node that is released at every boundary and whose work gets done
/// reaches the end of the pipeline, and it does so with all its work behind
/// it: in `Completed`, with every download unit counted and both flags set.
pub proof fn lemma_run_reaches_completed(d: DriverView)
    requires
        d.wf(),
    ensures
        d.run(d.steps_left()).stage == Stage::Done,
        d.run(d.steps_left()).worker.phase == Phase::Completed,
        d.run(d.steps_left()).worker.urls == d.worker.urls,
        d.run(d.steps_left()).worker.completed == d.worker.urls.len(),
        d.run(d.steps_left()).worker.compressed,
        d.run(d.steps_left()).worker.pushed,
{
    lemma_run_finishes(d, d.steps_left());
}

/// Running for at least as many events as are left finishes the pipeline.
pub proof fn lemma_run_finishes(d: DriverView, steps: nat)
    requires
        d.wf(),
        steps >= d.steps_left(),
    ensures
        d.run(steps).wf(),
        d.run(steps).stage == Stage::Done,
        d.run(steps).worker.urls == d.worker.urls,
    decreases steps,
{
    if d.stage == Stage::Done {
        lemma_done_stays(d, steps);
    } else {
        lemma_progress(d);
        lemma_run_finishes(d.proceed(), (steps - 1) as nat);
    }
}

/// A finished driver stays finished.
pub proof fn lemma_done_stays(d: DriverView, steps: nat)
    requires
        d.stage == Stage::Done,
    ensures
        d.run(steps) == d,
    decreases steps,
{
    if steps > 0 {
        lemma_done_stays(d, (steps - 1) as nat);
    }
}

} // verus!
