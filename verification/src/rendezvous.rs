//! The distributed rendezvous: a node's own record of which peers have
//! announced their arrival at a boundary.
//!
//! Nodes share no memory. A node enters a boundary by announcing it to every
//! peer, and passes it once every other node of the cohort has announced the
//! same boundary. A peer that has already passed may announce the boundary
//! after it while this node still waits; such announcements are kept for the
//! next round. No node gets more than one boundary ahead of another.

use vstd::prelude::*;
use crate::message::{Message, MessageView};
use crate::phase::Phase;
use crate::sync::SyncError;

verus! {

/// A readiness record as plain mathematical values.
pub struct ReadinessView {
    /// Number of nodes in the cohort, this one included.
    pub cohort_size: nat,
    /// This node's place in the cohort.
    pub node_id: nat,
    /// The phase in front of which the last boundary passed stood; `Init`
    /// before the first boundary.
    pub passed: Phase,
    /// Whether this node has entered the current boundary.
    pub entered: bool,
    /// The peers that have announced the current boundary.
    pub arrived: Set<int>,
    /// The peers that have announced the boundary after the current one.
    pub early: Set<int>,
}

/// What became of an observed message.
#[derive(Clone, Copy, Debug, PartialEq, Eq, Structural)]
pub enum Observation {
    /// A peer's arrival at the current boundary was recorded.
    Recorded,
    /// A peer's arrival at the boundary after the current one was recorded.
    RecordedEarly,
    /// The peer's arrival had been recorded before.
    Duplicate,
    /// The sender is no peer of this node.
    UnknownSender,
    /// The peer reports that it could not move on.
    PeerFailed,
    /// The message names no phase.
    UnknownPhase,
    /// The message names a boundary that is neither the current one nor the
    /// one after it.
    OutOfStep,
}

impl ReadinessView {
    /// The phase in front of which the current boundary stands; `None` once
    /// the last boundary is passed.
    pub open spec fn boundary(self) -> Option<Phase> {
        self.passed.successor_spec()
    }

    /// The phase in front of which the boundary after the current one stands.
    pub open spec fn next_boundary(self) -> Option<Phase> {
        match self.boundary() {
            Some(b) => b.successor_spec(),
            None => None,
        }
    }

    /// Whether `p` is another node of the cohort.
    pub open spec fn is_peer(self, p: int) -> bool {
        0 <= p < self.cohort_size && p != self.node_id
    }

    /// The other nodes of the cohort.
    pub open spec fn peers(self) -> Set<int> {
        Set::new(|p: int| self.is_peer(p))
    }

    /// What holds of every record: the node belongs to the cohort, only
    /// peers are recorded, and a boundary that was entered exists.
    pub open spec fn wf(self) -> bool {
        &&& self.node_id < self.cohort_size
        &&& self.arrived.finite()
        &&& self.early.finite()
        &&& forall|p: int| self.arrived.contains(p) ==> self.is_peer(p)
        &&& forall|p: int| self.early.contains(p) ==> self.is_peer(p)
        &&& self.entered ==> self.boundary() is Some
    }

    /// The record of a node that has passed no boundary yet.
    pub open spec fn initial(cohort_size: nat, node_id: nat) -> ReadinessView {
        ReadinessView {
            cohort_size,
            node_id,
            passed: Phase::Init,
            entered: false,
            arrived: Set::empty(),
            early: Set::empty(),
        }
    }

    /// The node may pass: it has entered the boundary, and the number
    /// of peers that have announced it is the size of the cohort less one.
    pub open spec fn ready(self) -> bool {
        self.entered && self.arrived.len() == self.cohort_size - 1
    }

    /// What becomes of a message from `sender`.
    pub open spec fn classify(self, sender: int, message: MessageView) -> Observation {
        if !self.is_peer(sender) {
            Observation::UnknownSender
        } else {
            match message {
                MessageView::FailedToChangeState => Observation::PeerFailed,
                MessageView::StateChangingTo(_) => match message.announced() {
                    None => Observation::UnknownPhase,
                    Some(phase) => if self.boundary() == Some(phase) {
                        if self.arrived.contains(sender) {
                            Observation::Duplicate
                        } else {
                            Observation::Recorded
                        }
                    } else if self.next_boundary() == Some(phase) {
                        if self.early.contains(sender) {
                            Observation::Duplicate
                        } else {
                            Observation::RecordedEarly
                        }
                    } else {
                        Observation::OutOfStep
                    },
                },
            }
        }
    }

    /// The record after a message from `sender` was observed.
    pub open spec fn observe(self, sender: int, message: MessageView) -> ReadinessView {
        match self.classify(sender, message) {
            Observation::Recorded => ReadinessView {
                arrived: self.arrived.insert(sender),
                ..self
            },
            Observation::RecordedEarly => ReadinessView {
                early: self.early.insert(sender),
                ..self
            },
            _ => self,
        }
    }

    /// The record after the node has entered the current boundary.
    pub open spec fn entering(self) -> ReadinessView {
        ReadinessView { entered: true, ..self }
    }

    /// The record after the node has passed the current boundary: the
    /// arrivals are cleared, and what came early now counts.
    pub open spec fn passing(self) -> ReadinessView {
        ReadinessView {
            passed: self.boundary().unwrap(),
            entered: false,
            arrived: self.early,
            early: Set::empty(),
            ..self
        }
    }
}

/// The record after a run of messages was observed, one after the other.
/// Each event is a sender and the message that came from it.
pub open spec fn observe_all(
    record: ReadinessView,
    events: Seq<(int, MessageView)>,
) -> ReadinessView
    decreases events.len(),
{
    if events.len() == 0 {
        record
    } else {
        observe_all(record, events.drop_last()).observe(events.last().0, events.last().1)
    }
}

/// The node numbers that a list holds.
spec fn ids(list: Seq<usize>) -> Set<int> {
    Set::new(|p: int| 0 <= p <= usize::MAX && list.contains(p as usize))
}

proof fn lemma_ids_empty()
    ensures
        ids(Seq::<usize>::empty()) == Set::<int>::empty(),
{
    assert(ids(Seq::<usize>::empty()) =~= Set::<int>::empty());
}

proof fn lemma_ids_push(list: Seq<usize>, p: usize)
    ensures
        ids(list.push(p)) == ids(list).insert(p as int),
{
    assert forall|q: int| ids(list.push(p)).contains(q) <==> ids(list).insert(p as int).contains(
        q,
    ) by {
        if 0 <= q <= usize::MAX {
            if list.push(p).contains(q as usize) {
                let i = choose|i: int| 0 <= i < list.push(p).len() && list.push(p)[i] == q as usize;
                if i < list.len() {
                    assert(list[i] == q as usize);
                }
            }
            if list.contains(q as usize) {
                let i = choose|i: int| 0 <= i < list.len() && list[i] == q as usize;
                assert(list.push(p)[i] == q as usize);
            }
            if q == p as int {
                assert(list.push(p)[list.len() as int] == p);
            }
        }
    }
    assert(ids(list.push(p)) =~= ids(list).insert(p as int));
}

proof fn lemma_ids_len(list: Seq<usize>)
    requires
        list.no_duplicates(),
    ensures
        ids(list).finite(),
        ids(list).len() == list.len(),
    decreases list.len(),
{
    if list.len() == 0 {
        assert(list =~= Seq::<usize>::empty());
        lemma_ids_empty();
    } else {
        let front = list.drop_last();
        let last = list.last();
        assert(list =~= front.push(last));
        lemma_ids_len(front);
        lemma_ids_push(front, last);
        assert(!ids(front).contains(last as int)) by {
            if front.contains(last) {
                let i = choose|i: int| 0 <= i < front.len() && front[i] == last;
                assert(list[i] == list[list.len() - 1]);
            }
        }
    }
}

fn holds(list: &Vec<usize>, p: usize) -> (found: bool)
    ensures
        found == list@.contains(p),
{
    let mut i: usize = 0;
    while i < list.len()
        invariant
            i <= list.len(),
            forall|j: int| 0 <= j < i ==> list@[j] != p,
        decreases list.len() - i,
    {
        if list[i] == p {
            return true;
        }
        i = i + 1;
    }
    false
}

/// One node's record of the announcements it has observed.
#[derive(Debug)]
pub struct ReadinessRecord {
    cohort_size: usize,
    node_id: usize,
    passed: Phase,
    entered: bool,
    arrived: Vec<usize>,
    early: Vec<usize>,
}

impl View for ReadinessRecord {
    type V = ReadinessView;

    closed spec fn view(&self) -> ReadinessView {
        ReadinessView {
            cohort_size: self.cohort_size as nat,
            node_id: self.node_id as nat,
            passed: self.passed,
            entered: self.entered,
            arrived: ids(self.arrived@),
            early: ids(self.early@),
        }
    }
}

impl ReadinessRecord {
    /// What the methods keep true of the record itself: its view is well
    /// formed, and no peer is listed twice.
    pub closed spec fn wf(&self) -> bool {
        &&& self.node_id < self.cohort_size
        &&& self.arrived@.no_duplicates()
        &&& self.early@.no_duplicates()
        &&& forall|i: int|
            0 <= i < self.arrived@.len() ==> self@.is_peer(#[trigger] self.arrived@[i] as int)
        &&& forall|i: int|
            0 <= i < self.early@.len() ==> self@.is_peer(#[trigger] self.early@[i] as int)
        &&& self.entered ==> self.passed.successor_spec() is Some
    }

    /// A well-formed record has a well-formed view.
    pub proof fn lemma_view_wf(&self)
        requires
            self.wf(),
        ensures
            self@.wf(),
    {
        self.lemma_counts();
    }

    proof fn lemma_counts(&self)
        requires
            self.wf(),
        ensures
            self@.wf(),
            self@.arrived.len() == self.arrived@.len(),
            self@.early.len() == self.early@.len(),
    {
        lemma_ids_len(self.arrived@);
        lemma_ids_len(self.early@);
        assert forall|p: int| self@.arrived.contains(p) implies self@.is_peer(p) by {
            let i = choose|i: int| 0 <= i < self.arrived@.len() && self.arrived@[i] == p as usize;
            assert(self@.is_peer(self.arrived@[i] as int));
        }
        assert forall|p: int| self@.early.contains(p) implies self@.is_peer(p) by {
            let i = choose|i: int| 0 <= i < self.early@.len() && self.early@[i] == p as usize;
            assert(self@.is_peer(self.early@[i] as int));
        }
    }

    /// The record of node `node_id` in a cohort of `cohort_size` nodes,
    /// before the first boundary. Fails where the node's place lies outside
    /// the cohort.
    pub fn new(cohort_size: usize, node_id: usize) -> (outcome: Result<ReadinessRecord, SyncError>)
        ensures
            match outcome {
                Ok(record) => node_id < cohort_size && record@ == ReadinessView::initial(
                    cohort_size as nat,
                    node_id as nat,
                ) && record.wf(),
                Err(e) => node_id >= cohort_size && e == SyncError::InvalidCohort,
            },
    {
        if node_id >= cohort_size {
            return Err(SyncError::InvalidCohort);
        }
        let record = ReadinessRecord {
            cohort_size,
            node_id,
            passed: Phase::Init,
            entered: false,
            arrived: Vec::new(),
            early: Vec::new(),
        };
        proof {
            lemma_ids_empty();
            record.lemma_counts();
        }
        Ok(record)
    }

    /// Number of nodes in the cohort.
    pub fn cohort_size(&self) -> (n: usize)
        ensures
            n == self@.cohort_size,
    {
        self.cohort_size
    }

    /// This node's place in the cohort.
    pub fn node_id(&self) -> (id: usize)
        ensures
            id == self@.node_id,
    {
        self.node_id
    }

    /// The phase in front of which the current boundary stands; `None` once
    /// the last boundary is passed.
    pub fn boundary(&self) -> (boundary: Option<Phase>)
        ensures
            boundary == self@.boundary(),
    {
        self.passed.successor()
    }

    /// Whether this node has entered the current boundary.
    pub fn has_entered(&self) -> (entered: bool)
        ensures
            entered == self@.entered,
    {
        self.entered
    }

    /// Number of peers that have announced the current boundary.
    pub fn arrival_count(&self) -> (n: usize)
        requires
            self.wf(),
        ensures
            n == self@.arrived.len(),
    {
        proof {
            self.lemma_counts();
        }
        self.arrived.len()
    }

    /// Whether the node may pass: it has entered the boundary and
    /// every peer's announcement of it has been observed.
    pub fn is_ready(&self) -> (ready: bool)
        requires
            self.wf(),
        ensures
            ready == self@.ready(),
    {
        proof {
            self.lemma_counts();
        }
        self.entered && self.arrived.len() == self.cohort_size - 1
    }

    /// Enters the boundary in front of `boundary_id` and returns the
    /// announcement that has to go to every peer. Fails, and changes nothing,
    /// where `boundary_id` is not the boundary that comes next or the node
    /// has entered it already.
    pub fn enter_barrier(&mut self, boundary_id: Phase) -> (outcome: Result<Message, SyncError>)
        requires
            old(self).wf(),
        ensures
            match outcome {
                Ok(message) => old(self)@.boundary() == Some(boundary_id) && !old(self)@.entered
                    && final(self)@ == old(self)@.entering() && message@
                    == MessageView::StateChangingTo(boundary_id.name_spec()),
                Err(e) => !(old(self)@.boundary() == Some(boundary_id) && !old(self)@.entered)
                    && final(self)@ == old(self)@ && e == SyncError::WrongBoundary,
            },
            final(self).wf(),
    {
        proof {
            self.lemma_counts();
        }
        let next = self.passed.successor();
        let expected = match next {
            Some(b) => b == boundary_id,
            None => false,
        };
        if expected && !self.entered {
            self.entered = true;
            proof {
                self.lemma_counts();
            }
            Ok(Message::announcing(boundary_id))
        } else {
            Err(SyncError::WrongBoundary)
        }
    }

    /// Takes note of a message that arrived from `sender`. An announcement
    /// of the current boundary, or of the one after it, by a peer not yet
    /// recorded for it is recorded; every other message leaves the record as
    /// it was. The result says what became of the message.
    pub fn observe(&mut self, sender: usize, message: &Message) -> (observation: Observation)
        requires
            old(self).wf(),
        ensures
            observation == old(self)@.classify(sender as int, message@),
            final(self)@ == old(self)@.observe(sender as int, message@),
            final(self).wf(),
    {
        proof {
            self.lemma_counts();
        }
        if sender >= self.cohort_size || sender == self.node_id {
            return Observation::UnknownSender;
        }
        match message {
            Message::FailedToChangeState => Observation::PeerFailed,
            Message::StateChangingTo(_) => {
                let announced = message.announced_phase();
                let current = self.passed.successor();
                let following = match current {
                    Some(b) => b.successor(),
                    None => None,
                };
                match announced {
                    None => Observation::UnknownPhase,
                    Some(phase) => {
                        if current == Some(phase) {
                            if holds(&self.arrived, sender) {
                                Observation::Duplicate
                            } else {
                                proof {
                                    lemma_ids_push(self.arrived@, sender);
                                }
                                self.arrived.push(sender);
                                proof {
                                    self.lemma_counts();
                                }
                                Observation::Recorded
                            }
                        } else if following == Some(phase) {
                            if holds(&self.early, sender) {
                                Observation::Duplicate
                            } else {
                                proof {
                                    lemma_ids_push(self.early@, sender);
                                }
                                self.early.push(sender);
                                proof {
                                    self.lemma_counts();
                                }
                                Observation::RecordedEarly
                            }
                        } else {
                            Observation::OutOfStep
                        }
                    },
                }
            },
        }
    }

    /// Passes the current boundary if the node may pass, and says whether it
    /// did. On passing, the arrivals are cleared for the next boundary, and
    /// the announcements that came early are counted for it. While the node
    /// may not pass, nothing changes.
    pub fn try_pass(&mut self) -> (passed: bool)
        requires
            old(self).wf(),
        ensures
            passed == old(self)@.ready(),
            passed ==> final(self)@ == old(self)@.passing(),
            !passed ==> final(self)@ == old(self)@,
            final(self).wf(),
    {
        proof {
            self.lemma_counts();
        }
        if !(self.entered && self.arrived.len() == self.cohort_size - 1) {
            return false;
        }
        match self.passed.successor() {
            Some(boundary) => {
                self.entered = false;
                self.passed = boundary;
                self.arrived.clear();
                std::mem::swap(&mut self.arrived, &mut self.early);
                proof {
                    lemma_ids_empty();
                    self.lemma_counts();
                }
                true
            },
            None => false,
        }
    }
}

/// A node in a cohort of `n` has `n - 1` peers.
pub proof fn lemma_peer_count(v: ReadinessView)
    requires
        v.node_id < v.cohort_size,
    ensures
        v.peers().finite(),
        v.peers().len() == v.cohort_size - 1,
{
    let all = vstd::set_lib::set_int_range(0, v.cohort_size as int);
    vstd::set_lib::lemma_int_range(0, v.cohort_size as int);
    assert(all.contains(v.node_id as int));
    assert(v.peers() =~= all.remove(v.node_id as int));
    assert(all.len() == all.remove(v.node_id as int).len() + 1);
}

/// A node may pass on a full count and on nothing less. No more than `n - 1`
/// arrivals are ever recorded for a boundary, and the count stands at
/// `n - 1` exactly when every peer has announced the boundary. So while the
/// announcement of a single peer is missing, the node stays blocked.
pub proof fn lemma_ready_iff_all_peers_arrived(v: ReadinessView)
    requires
        v.wf(),
    ensures
        v.arrived.len() <= v.cohort_size - 1,
        v.ready() <==> v.entered && forall|p: int| v.is_peer(p) ==> v.arrived.contains(p),
{
    lemma_peer_count(v);
    assert(v.arrived.subset_of(v.peers()));
    vstd::set_lib::lemma_len_subset(v.arrived, v.peers());
    if v.arrived.len() == v.cohort_size - 1 {
        vstd::set_lib::lemma_subset_equality(v.arrived, v.peers());
        assert forall|p: int| v.is_peer(p) implies v.arrived.contains(p) by {
            assert(v.peers().contains(p));
        }
    }
    if forall|p: int| v.is_peer(p) ==> v.arrived.contains(p) {
        assert(v.arrived =~= v.peers());
    }
}

/// A cohort of one has nobody to wait for: as soon as its only node has
/// entered a boundary, it may pass.
pub proof fn lemma_lone_node_never_waits(v: ReadinessView)
    requires
        v.wf(),
        v.cohort_size == 1,
        v.entered,
    ensures
        v.ready(),
        v.arrived == Set::<int>::empty(),
{
    lemma_ready_iff_all_peers_arrived(v);
    assert(v.arrived =~= Set::<int>::empty());
}

/// Observing a message keeps the record well formed, never forgets an
/// arrival, and leaves the boundary and the node's own entry alone.
pub proof fn lemma_observe_keeps(v: ReadinessView, sender: int, message: MessageView)
    requires
        v.wf(),
    ensures
        v.observe(sender, message).wf(),
        v.arrived.subset_of(v.observe(sender, message).arrived),
        v.early.subset_of(v.observe(sender, message).early),
        v.observe(sender, message).passed == v.passed,
        v.observe(sender, message).entered == v.entered,
        v.observe(sender, message).cohort_size == v.cohort_size,
        v.observe(sender, message).node_id == v.node_id,
        v.observe(sender, message).arrived.contains(sender) <==> v.arrived.contains(sender) || (
        v.is_peer(sender) && v.boundary() is Some && message.announced() == v.boundary()),
        forall|p: int|
            p != sender ==> (v.observe(sender, message).arrived.contains(p) <==> v.arrived.contains(
                p,
            )),
{
    let after = v.observe(sender, message);
    assert forall|p: int| after.is_peer(p) <==> v.is_peer(p) by {}
    match v.classify(sender, message) {
        Observation::Recorded => {
            assert(after.arrived == v.arrived.insert(sender));
            assert forall|p: int| after.arrived.contains(p) implies after.is_peer(p) by {
                if p != sender {
                    assert(v.arrived.contains(p));
                }
            }
        },
        Observation::RecordedEarly => {
            assert(after.early == v.early.insert(sender));
            assert forall|p: int| after.early.contains(p) implies after.is_peer(p) by {
                if p != sender {
                    assert(v.early.contains(p));
                }
            }
        },
        _ => {},
    }
}

/// A peer's silence blocks the node for good. If peer `p` has not announced
/// the current boundary, then after any run of messages among which there is
/// no announcement of that boundary by `p`, the node is still blocked.
pub proof fn lemma_withheld_announcement_blocks(
    v: ReadinessView,
    events: Seq<(int, MessageView)>,
    p: int,
)
    requires
        v.wf(),
        v.is_peer(p),
        !v.arrived.contains(p),
        forall|i: int|
            0 <= i < events.len() ==> !((#[trigger] events[i]).0 == p && events[i].1.announced()
                == v.boundary()),
    ensures
        observe_all(v, events).wf(),
        observe_all(v, events).passed == v.passed,
        !observe_all(v, events).arrived.contains(p),
        !observe_all(v, events).ready(),
    decreases events.len(),
{
    if events.len() > 0 {
        let before = observe_all(v, events.drop_last());
        assert forall|i: int| 0 <= i < events.drop_last().len() implies !((
        #[trigger] events.drop_last()[i]).0 == p && events.drop_last()[i].1.announced()
            == v.boundary()) by {
            assert(events.drop_last()[i] == events[i]);
        }
        lemma_withheld_announcement_blocks(v, events.drop_last(), p);
        let last = events.last();
        assert(last == events[events.len() - 1]);
        lemma_observe_all_keeps(v, events.drop_last());
        lemma_observe_keeps(before, last.0, last.1);
        assert(before.is_peer(p));
    }
    let after = observe_all(v, events);
    lemma_observe_all_keeps(v, events);
    assert(after.is_peer(p));
    lemma_ready_iff_all_peers_arrived(after);
}

/// Once every peer's announcement of the current boundary is among the
/// messages observed, the count is full: a node that has entered the
/// boundary may pass.
pub proof fn lemma_all_announcements_let_pass(v: ReadinessView, events: Seq<(int, MessageView)>)
    requires
        v.wf(),
        v.entered,
        forall|p: int|
            v.is_peer(p) ==> v.arrived.contains(p) || exists|i: int|
                0 <= i < events.len() && (#[trigger] events[i]).0 == p && events[i].1.announced()
                    == v.boundary(),
    ensures
        observe_all(v, events).ready(),
{
    lemma_observe_all_keeps(v, events);
    let after = observe_all(v, events);
    assert forall|p: int| after.is_peer(p) implies after.arrived.contains(p) by {
        assert(v.is_peer(p));
        if !v.arrived.contains(p) {
            let i = choose|i: int|
                0 <= i < events.len() && (#[trigger] events[i]).0 == p && events[i].1.announced()
                    == v.boundary();
            lemma_announcement_is_counted(v, events, i);
        }
    }
    lemma_ready_iff_all_peers_arrived(after);
}

/// A run of observations keeps the record well formed and forgets nothing.
pub proof fn lemma_observe_all_keeps(v: ReadinessView, events: Seq<(int, MessageView)>)
    requires
        v.wf(),
    ensures
        observe_all(v, events).wf(),
        v.arrived.subset_of(observe_all(v, events).arrived),
        observe_all(v, events).passed == v.passed,
        observe_all(v, events).entered == v.entered,
        observe_all(v, events).cohort_size == v.cohort_size,
        observe_all(v, events).node_id == v.node_id,
    decreases events.len(),
{
    if events.len() > 0 {
        lemma_observe_all_keeps(v, events.drop_last());
        lemma_observe_keeps(observe_all(v, events.drop_last()), events.last().0, events.last().1);
    }
}

/// An announcement of the current boundary by a peer is counted, wherever
/// in the run of messages it stands.
pub proof fn lemma_announcement_is_counted(
    v: ReadinessView,
    events: Seq<(int, MessageView)>,
    i: int,
)
    requires
        v.wf(),
        v.boundary() is Some,
        0 <= i < events.len(),
        v.is_peer(events[i].0),
        events[i].1.announced() == v.boundary(),
    ensures
        observe_all(v, events).arrived.contains(events[i].0),
    decreases events.len(),
{
    let before = observe_all(v, events.drop_last());
    lemma_observe_all_keeps(v, events.drop_last());
    lemma_observe_keeps(before, events.last().0, events.last().1);
    if i < events.len() - 1 {
        assert(events.drop_last()[i] == events[i]);
        lemma_announcement_is_counted(v, events.drop_last(), i);
    }
}

/// Entering a boundary keeps the record well formed and changes nothing
/// but the node's own entry.
pub proof fn lemma_entering_keeps(v: ReadinessView)
    requires
        v.wf(),
        v.boundary() is Some,
    ensures
        v.entering().wf(),
        v.entering().entered,
        v.entering() == (ReadinessView { entered: true, ..v }),
{
    let after = v.entering();
    assert forall|p: int| after.is_peer(p) <==> v.is_peer(p) by {}
}

/// Passing moves the record on by exactly one boundary and keeps it well
/// formed; the node has not entered the new boundary yet.
pub proof fn lemma_passing_is_one_step(v: ReadinessView)
    requires
        v.wf(),
        v.ready(),
    ensures
        v.passing().wf(),
        v.passing().passed.rank() == v.passed.rank() + 1,
        !v.passing().entered,
        v.passing().arrived == v.early,
        v.passing().cohort_size == v.cohort_size,
        v.passing().node_id == v.node_id,
{
    let after = v.passing();
    assert forall|p: int| after.is_peer(p) <==> v.is_peer(p) by {}
    assert forall|p: int| after.arrived.contains(p) implies after.is_peer(p) by {
        assert(v.early.contains(p));
    }
}

} // verus!
