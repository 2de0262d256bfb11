//! The cohort as a whole: all nodes' readiness records and the
//! announcements on their way.
//!
//! The rendezvous is a rule for one node. What it is for shows only when all
//! nodes follow it: nobody passes a boundary before everybody has entered
//! it, and so no node gets more than one phase ahead of another. This module
//! states the cohort as a transition system over the nodes' records and
//! proves those properties of every state the cohort can reach.

use vstd::prelude::*;
use crate::message::MessageView;
use crate::phase::{lemma_name_round_trip, Phase};
use crate::rendezvous::{
    lemma_entering_keeps, lemma_observe_keeps, lemma_passing_is_one_step, ReadinessView,
};

verus! {

/// All nodes of a cohort, and what they have sent.
pub struct CohortView {
    /// The records of the nodes, each at the place of its node.
    pub nodes: Seq<ReadinessView>,
    /// The announcements sent so far: who announced the boundary in front
    /// of which phase. The network may deliver each of them at any time, and
    /// more than once.
    pub sent: Set<(int, Phase)>,
}

/// One thing that happens in a cohort.
pub enum CohortStep {
    /// A node enters its current boundary and announces it to its peers.
    Enter(int),
    /// An announcement that was sent reaches a node.
    Deliver { to: int, from: int, boundary: Phase },
    /// A node finds that it may pass, and passes.
    Pass(int),
}

/// The furthest boundary that a node has entered, by the position of the
/// phase behind it.
pub open spec fn reach(node: ReadinessView) -> nat {
    node.passed.rank() + if node.entered {
        1nat
    } else {
        0nat
    }
}

/// How many boundaries a node has still to pass.
pub open spec fn phases_ahead(node: ReadinessView) -> int {
    4 - node.passed.rank()
}

/// How much is still missing at a node's current and next boundary: its
/// own entry, and the arrivals of its peers.
pub open spec fn waits_ahead(node: ReadinessView) -> int {
    (if node.entered {
        0int
    } else {
        1int
    }) + (node.cohort_size - 1 - node.arrived.len()) + (node.cohort_size - 1 - node.early.len())
}

/// The sum of `weight` over `nodes`.
pub open spec fn sum_over(nodes: Seq<ReadinessView>, weight: spec_fn(ReadinessView) -> int) -> int
    decreases nodes.len(),
{
    if nodes.len() == 0 {
        0
    } else {
        sum_over(nodes.drop_last(), weight) + weight(nodes.last())
    }
}

impl CohortView {
    /// Number of nodes.
    pub open spec fn size(self) -> nat {
        self.nodes.len()
    }

    /// The cohort of `size` nodes before anything has happened.
    pub open spec fn initial(size: nat) -> CohortView {
        CohortView {
            nodes: Seq::new(size, |i: int| ReadinessView::initial(size, i as nat)),
            sent: Set::empty(),
        }
    }

    /// How far node `i` has passed.
    pub open spec fn passed_rank(self, i: int) -> nat {
        self.nodes[i].passed.rank()
    }

    /// How far node `i` has entered.
    pub open spec fn reach_of(self, i: int) -> nat {
        reach(self.nodes[i])
    }

    /// Whether `step` can happen.
    pub open spec fn enabled(self, step: CohortStep) -> bool {
        match step {
            CohortStep::Enter(i) => 0 <= i < self.size() && self.nodes[i].boundary() is Some
                && !self.nodes[i].entered,
            CohortStep::Deliver { to, from, boundary } => 0 <= to < self.size()
                && self.sent.contains((from, boundary)),
            CohortStep::Pass(i) => 0 <= i < self.size() && self.nodes[i].ready(),
        }
    }

    /// The cohort after `step` has happened.
    pub open spec fn next(self, step: CohortStep) -> CohortView {
        match step {
            CohortStep::Enter(i) => CohortView {
                nodes: self.nodes.update(i, self.nodes[i].entering()),
                sent: self.sent.insert((i, self.nodes[i].boundary().unwrap())),
            },
            CohortStep::Deliver { to, from, boundary } => CohortView {
                nodes: self.nodes.update(
                    to,
                    self.nodes[to].observe(
                        from,
                        MessageView::StateChangingTo(boundary.name_spec()),
                    ),
                ),
                ..self
            },
            CohortStep::Pass(i) => CohortView {
                nodes: self.nodes.update(i, self.nodes[i].passing()),
                ..self
            },
        }
    }

    /// The cohort after the steps of `steps` have happened, one after the
    /// other.
    pub open spec fn run(self, steps: Seq<CohortStep>) -> CohortView
        decreases steps.len(),
    {
        if steps.len() == 0 {
            self
        } else {
            self.run(steps.drop_last()).next(steps.last())
        }
    }

    /// Whether each step of `steps` can happen when its turn comes.
    pub open spec fn admits(self, steps: Seq<CohortStep>) -> bool
        decreases steps.len(),
    {
        steps.len() > 0 ==> self.admits(steps.drop_last()) && self.run(steps.drop_last()).enabled(
            steps.last(),
        )
    }

    /// Every record is well formed and knows its place in the cohort.
    pub open spec fn wf(self) -> bool {
        forall|i: int|
            0 <= i < self.size() ==> {
                &&& (#[trigger] self.nodes[i]).wf()
                &&& self.nodes[i].cohort_size == self.size()
                &&& self.nodes[i].node_id == i
            }
    }

    /// Whoever announced a boundary had entered it.
    pub open spec fn announcements_are_backed(self) -> bool {
        forall|p: int, b: Phase| #[trigger]
            self.sent.contains((p, b)) ==> 0 <= p < self.size() && 1 <= b.rank() <= self.reach_of(
                p,
            )
    }

    /// Whoever has entered a boundary has announced it.
    pub open spec fn entries_are_announced(self) -> bool {
        forall|p: int, b: Phase|
            0 <= p < self.size() && 1 <= b.rank() <= self.reach_of(p)
                ==> #[trigger] self.sent.contains((p, b))
    }

    /// Every recorded arrival was announced, for the boundary it is recorded
    /// for.
    pub open spec fn arrivals_were_sent(self) -> bool {
        &&& forall|i: int, p: int|
            0 <= i < self.size() && #[trigger] self.nodes[i].arrived.contains(p)
                ==> self.nodes[i].boundary() is Some && self.sent.contains(
                (p, self.nodes[i].boundary().unwrap()),
            )
        &&& forall|i: int, p: int|
            0 <= i < self.size() && #[trigger] self.nodes[i].early.contains(p)
                ==> self.nodes[i].next_boundary() is Some && self.sent.contains(
                (p, self.nodes[i].next_boundary().unwrap()),
            )
    }

    /// No node has passed a boundary that another has not entered.
    pub open spec fn in_step(self) -> bool {
        forall|i: int, j: int|
            #![trigger self.passed_rank(i), self.reach_of(j)]
            0 <= i < self.size() && 0 <= j < self.size() ==> self.passed_rank(i) <= self.reach_of(
                j,
            )
    }

    /// Whether every node has passed the last boundary.
    pub open spec fn finished(self) -> bool {
        forall|i: int|
            0 <= i < self.size() ==> (#[trigger] self.nodes[i]).passed == Phase::Completed
    }

    /// How many boundaries the nodes have still to pass, all nodes together.
    pub open spec fn phases_left(self) -> int {
        sum_over(self.nodes, |node: ReadinessView| phases_ahead(node))
    }

    /// How many entries and arrivals are still missing at the nodes'
    /// current and next boundaries, all nodes together.
    pub open spec fn waits_left(self) -> int {
        sum_over(self.nodes, |node: ReadinessView| waits_ahead(node))
    }

    /// What holds of every cohort that started from nothing.
    pub open spec fn inv(self) -> bool {
        &&& self.wf()
        &&& self.announcements_are_backed()
        &&& self.entries_are_announced()
        &&& self.arrivals_were_sent()
        &&& self.in_step()
    }
}

/// A cohort before anything has happened satisfies the invariant.
pub proof fn lemma_initial_inv(size: nat)
    ensures
        CohortView::initial(size).inv(),
{
    let c = CohortView::initial(size);
    assert forall|i: int| 0 <= i < c.size() implies {
        &&& (#[trigger] c.nodes[i]).wf()
        &&& c.nodes[i].cohort_size == c.size()
        &&& c.nodes[i].node_id == i
    } by {
        assert(c.nodes[i] == ReadinessView::initial(size, i as nat));
    }
    assert forall|i: int, j: int|
        #![trigger c.passed_rank(i), c.reach_of(j)]
        0 <= i < c.size() && 0 <= j < c.size() implies c.passed_rank(i) <= c.reach_of(j) by {
        assert(c.nodes[i] == ReadinessView::initial(size, i as nat));
    }
}

/// The node that a step is about: the one whose record the step changes.
pub open spec fn node_of(step: CohortStep) -> int {
    match step {
        CohortStep::Enter(i) => i,
        CohortStep::Deliver { to, .. } => to,
        CohortStep::Pass(i) => i,
    }
}

/// A step changes the record of one node only, and that record stays well
/// formed and in its place.
proof fn lemma_step_is_local(c: CohortView, step: CohortStep)
    requires
        c.wf(),
        c.enabled(step),
    ensures
        c.next(step).wf(),
        c.next(step).size() == c.size(),
        forall|k: int|
            0 <= k < c.size() && k != node_of(step) ==> #[trigger] c.next(step).nodes[k]
                == c.nodes[k],
{
    let d = c.next(step);
    let i = node_of(step);
    let before = c.nodes[i];
    assert(before.wf());
    let after = match step {
        CohortStep::Enter(_) => {
            lemma_entering_keeps(before);
            before.entering()
        },
        CohortStep::Deliver { to, from, boundary } => {
            let message = MessageView::StateChangingTo(boundary.name_spec());
            lemma_observe_keeps(before, from, message);
            before.observe(from, message)
        },
        CohortStep::Pass(_) => {
            lemma_passing_is_one_step(before);
            before.passing()
        },
    };
    assert(d.nodes == c.nodes.update(i, after));
    assert(after.wf() && after.cohort_size == before.cohort_size && after.node_id
        == before.node_id);
    assert forall|k: int| 0 <= k < d.size() implies {
        &&& (#[trigger] d.nodes[k]).wf()
        &&& d.nodes[k].cohort_size == d.size()
        &&& d.nodes[k].node_id == k
    } by {
        assert(c.nodes[k].wf());
        if k == i {
            assert(d.nodes[k] == after);
        } else {
            assert(d.nodes[k] == c.nodes[k]);
        }
    }
}

/// Entering keeps the invariant.
proof fn lemma_enter_keeps_inv(c: CohortView, i: int)
    requires
        c.inv(),
        c.enabled(CohortStep::Enter(i)),
    ensures
        c.next(CohortStep::Enter(i)).inv(),
{
    let d = c.next(CohortStep::Enter(i));
    let b = c.nodes[i].boundary().unwrap();
    lemma_step_is_local(c, CohortStep::Enter(i));
    assert(d.nodes[i] == c.nodes[i].entering());
    assert forall|k: int| 0 <= k < d.size() implies d.reach_of(k) >= c.reach_of(k)
        && d.passed_rank(k) == c.passed_rank(k) by {
        if k != i {
            assert(d.nodes[k] == c.nodes[k]);
        }
    }
    assert forall|p: int, q: Phase| #[trigger] d.sent.contains((p, q)) implies 0 <= p < d.size()
        && 1 <= q.rank() <= d.reach_of(p) by {
        if (p, q) != (i, b) {
            assert(c.sent.contains((p, q)));
        }
    }
    assert forall|p: int, q: Phase|
        0 <= p < d.size() && 1 <= q.rank() <= d.reach_of(p) implies #[trigger] d.sent.contains(
        (p, q),
    ) by {
        if p == i && q.rank() == c.reach_of(i) + 1 {
            crate::phase::lemma_rank_total(q, b);
            crate::phase::lemma_successor_is_next(c.nodes[i].passed);
        } else {
            if p != i {
                assert(d.nodes[p] == c.nodes[p]);
            }
            assert(c.sent.contains((p, q)));
        }
    }
    assert forall|k: int, p: int|
        0 <= k < d.size() && #[trigger] d.nodes[k].arrived.contains(p) implies {
        &&& d.nodes[k].boundary() is Some
        &&& d.sent.contains((p, d.nodes[k].boundary().unwrap()))
    } by {
        assert(c.nodes[k].arrived.contains(p));
    }
    assert forall|k: int, p: int|
        0 <= k < d.size() && #[trigger] d.nodes[k].early.contains(p) implies {
        &&& d.nodes[k].next_boundary() is Some
        &&& d.sent.contains((p, d.nodes[k].next_boundary().unwrap()))
    } by {
        assert(c.nodes[k].early.contains(p));
    }
    assert forall|k: int, j: int|
        #![trigger d.passed_rank(k), d.reach_of(j)]
        0 <= k < d.size() && 0 <= j < d.size() implies d.passed_rank(k) <= d.reach_of(j) by {
        assert(c.passed_rank(k) <= c.reach_of(j));
    }
}

/// A delivery keeps the invariant.
proof fn lemma_deliver_keeps_inv(c: CohortView, to: int, from: int, boundary: Phase)
    requires
        c.inv(),
        c.enabled(CohortStep::Deliver { to, from, boundary }),
    ensures
        c.next(CohortStep::Deliver { to, from, boundary }).inv(),
{
    let step = CohortStep::Deliver { to, from, boundary };
    let d = c.next(step);
    let message = MessageView::StateChangingTo(boundary.name_spec());
    let before = c.nodes[to];
    lemma_step_is_local(c, step);
    assert(before.wf());
    lemma_observe_keeps(before, from, message);
    lemma_name_round_trip(boundary, boundary.name_spec());
    assert(message.announced() == Some(boundary));
    assert(d.nodes[to] == before.observe(from, message));
    assert forall|k: int| 0 <= k < d.size() implies d.reach_of(k) == c.reach_of(k)
        && d.passed_rank(k) == c.passed_rank(k) by {
        if k != to {
            assert(d.nodes[k] == c.nodes[k]);
        }
    }
    assert forall|p: int, q: Phase| #[trigger] d.sent.contains((p, q)) implies 0 <= p < d.size()
        && 1 <= q.rank() <= d.reach_of(p) by {
        assert(c.sent.contains((p, q)));
    }
    assert forall|p: int, q: Phase|
        0 <= p < d.size() && 1 <= q.rank() <= d.reach_of(p) implies #[trigger] d.sent.contains(
        (p, q),
    ) by {
        assert(d.reach_of(p) == c.reach_of(p));
        assert(c.sent.contains((p, q)));
    }
    assert forall|k: int, p: int|
        0 <= k < d.size() && #[trigger] d.nodes[k].arrived.contains(p) implies {
        &&& d.nodes[k].boundary() is Some
        &&& d.sent.contains((p, d.nodes[k].boundary().unwrap()))
    } by {
        if k != to {
            assert(d.nodes[k] == c.nodes[k]);
            assert(c.nodes[k].arrived.contains(p));
        } else if !before.arrived.contains(p) {
            assert(p == from);
        }
    }
    assert forall|k: int, p: int|
        0 <= k < d.size() && #[trigger] d.nodes[k].early.contains(p) implies {
        &&& d.nodes[k].next_boundary() is Some
        &&& d.sent.contains((p, d.nodes[k].next_boundary().unwrap()))
    } by {
        if k != to {
            assert(d.nodes[k] == c.nodes[k]);
            assert(c.nodes[k].early.contains(p));
        } else if !before.early.contains(p) {
            assert(p == from);
        }
    }
    assert forall|k: int, j: int|
        #![trigger d.passed_rank(k), d.reach_of(j)]
        0 <= k < d.size() && 0 <= j < d.size() implies d.passed_rank(k) <= d.reach_of(j) by {
        assert(c.passed_rank(k) <= c.reach_of(j));
    }
}

/// Passing keeps the invariant. This is where the rendezvous does its work:
/// the node that passes has recorded every peer's arrival, every recorded
/// arrival was announced, and whoever announced the boundary had entered it.
proof fn lemma_pass_keeps_inv(c: CohortView, i: int)
    requires
        c.inv(),
        c.enabled(CohortStep::Pass(i)),
    ensures
        c.next(CohortStep::Pass(i)).inv(),
{
    let d = c.next(CohortStep::Pass(i));
    let before = c.nodes[i];
    let b = before.boundary().unwrap();
    lemma_step_is_local(c, CohortStep::Pass(i));
    assert(before.wf());
    lemma_passing_is_one_step(before);
    crate::rendezvous::lemma_ready_iff_all_peers_arrived(before);
    assert(d.nodes[i] == before.passing());
    assert(before.passing().boundary() == before.next_boundary());
    assert forall|k: int| 0 <= k < d.size() implies d.reach_of(k) == c.reach_of(k) by {
        if k != i {
            assert(d.nodes[k] == c.nodes[k]);
        }
    }
    assert forall|p: int, q: Phase| #[trigger] d.sent.contains((p, q)) implies 0 <= p < d.size()
        && 1 <= q.rank() <= d.reach_of(p) by {
        assert(c.sent.contains((p, q)));
        assert(d.reach_of(p) == c.reach_of(p));
    }
    assert forall|p: int, q: Phase|
        0 <= p < d.size() && 1 <= q.rank() <= d.reach_of(p) implies #[trigger] d.sent.contains(
        (p, q),
    ) by {
        assert(d.reach_of(p) == c.reach_of(p));
        assert(c.sent.contains((p, q)));
    }
    assert forall|k: int, p: int|
        0 <= k < d.size() && #[trigger] d.nodes[k].arrived.contains(p) implies {
        &&& d.nodes[k].boundary() is Some
        &&& d.sent.contains((p, d.nodes[k].boundary().unwrap()))
    } by {
        if k != i {
            assert(d.nodes[k] == c.nodes[k]);
            assert(c.nodes[k].arrived.contains(p));
        } else {
            assert(before.early.contains(p));
        }
    }
    assert forall|k: int, p: int|
        0 <= k < d.size() && #[trigger] d.nodes[k].early.contains(p) implies {
        &&& d.nodes[k].next_boundary() is Some
        &&& d.sent.contains((p, d.nodes[k].next_boundary().unwrap()))
    } by {
        if k != i {
            assert(d.nodes[k] == c.nodes[k]);
            assert(c.nodes[k].early.contains(p));
        }
    }
    assert forall|k: int, j: int|
        #![trigger d.passed_rank(k), d.reach_of(j)]
        0 <= k < d.size() && 0 <= j < d.size() implies d.passed_rank(k) <= d.reach_of(j) by {
        assert(d.reach_of(j) == c.reach_of(j));
        if k != i {
            assert(d.nodes[k] == c.nodes[k]);
            assert(c.passed_rank(k) <= c.reach_of(j));
        } else if j != i {
            // peer j has announced the boundary that node i passes
            assert(before.is_peer(j));
            assert(c.nodes[i].arrived.contains(j));
            assert(c.sent.contains((j, b)));
        }
    }
}

/// Every step that can happen keeps the invariant.
pub proof fn lemma_step_keeps_inv(c: CohortView, step: CohortStep)
    requires
        c.inv(),
        c.enabled(step),
    ensures
        c.next(step).inv(),
{
    match step {
        CohortStep::Enter(i) => lemma_enter_keeps_inv(c, i),
        CohortStep::Deliver { to, from, boundary } => lemma_deliver_keeps_inv(
            c,
            to,
            from,
            boundary,
        ),
        CohortStep::Pass(i) => lemma_pass_keeps_inv(c, i),
    }
}

/// Whatever happens in a cohort, in whatever order, the invariant holds.
pub proof fn lemma_run_keeps_inv(size: nat, steps: Seq<CohortStep>)
    requires
        CohortView::initial(size).admits(steps),
    ensures
        CohortView::initial(size).run(steps).inv(),
        CohortView::initial(size).run(steps).size() == size,
    decreases steps.len(),
{
    if steps.len() == 0 {
        lemma_initial_inv(size);
    } else {
        lemma_run_keeps_inv(size, steps.drop_last());
        lemma_step_keeps_inv(CohortView::initial(size).run(steps.drop_last()), steps.last());
    }
}

/// Nodes stay in step. In every state that a cohort can reach, no node has
/// passed a boundary that some other node has not entered yet, and so no
/// node is more than one phase ahead of another.
pub proof fn lemma_cohort_stays_in_step(size: nat, steps: Seq<CohortStep>, i: int, j: int)
    requires
        CohortView::initial(size).admits(steps),
        0 <= i < size,
        0 <= j < size,
    ensures
        ({
            let c = CohortView::initial(size).run(steps);
            &&& c.nodes[i].passed.rank() <= reach(c.nodes[j])
            &&& c.nodes[i].passed.rank() <= c.nodes[j].passed.rank() + 1
        }),
{
    lemma_run_keeps_inv(size, steps);
    let c = CohortView::initial(size).run(steps);
    assert(c.passed_rank(i) <= c.reach_of(j));
}

/// Nobody passes before everybody has entered. When a node of a reachable
/// cohort may pass its boundary, every node of the cohort has entered that
/// boundary, or has passed it already.
pub proof fn lemma_pass_means_all_entered(size: nat, steps: Seq<CohortStep>, i: int, j: int)
    requires
        CohortView::initial(size).admits(steps),
        0 <= i < size,
        0 <= j < size,
        CohortView::initial(size).run(steps).nodes[i].ready(),
    ensures
        ({
            let c = CohortView::initial(size).run(steps);
            c.nodes[i].boundary() matches Some(b) && b.rank() <= reach(c.nodes[j])
        }),
{
    lemma_run_keeps_inv(size, steps);
    let c = CohortView::initial(size).run(steps);
    let step = CohortStep::Pass(i);
    lemma_step_keeps_inv(c, step);
    let d = c.next(step);
    assert(c.nodes[i].wf());
    lemma_passing_is_one_step(c.nodes[i]);
    assert(d.nodes[i] == c.nodes[i].passing());
    assert(d.passed_rank(i) <= d.reach_of(j));
    if j != i {
        assert(d.nodes[j] == c.nodes[j]);
    }
}

/// No announcement comes from further ahead than the record has room for.
/// Every announcement that can reach a node of a reachable cohort is for the
/// node's current boundary, for the one after it, or for one that the node
/// has passed.
pub proof fn lemma_announcements_are_never_far_ahead(
    size: nat,
    steps: Seq<CohortStep>,
    to: int,
    from: int,
    boundary: Phase,
)
    requires
        CohortView::initial(size).admits(steps),
        0 <= to < size,
        CohortView::initial(size).run(steps).sent.contains((from, boundary)),
    ensures
        boundary.rank() <= CohortView::initial(size).run(steps).nodes[to].passed.rank() + 2,
        0 <= from < size,
{
    lemma_run_keeps_inv(size, steps);
    let c = CohortView::initial(size).run(steps);
    assert(boundary.rank() <= c.reach_of(from));
    assert(c.passed_rank(from) <= c.reach_of(to));
}

/// Replacing one node changes a sum by the difference of the two weights.
proof fn lemma_sum_update(
    nodes: Seq<ReadinessView>,
    weight: spec_fn(ReadinessView) -> int,
    i: int,
    node: ReadinessView,
)
    requires
        0 <= i < nodes.len(),
    ensures
        sum_over(nodes.update(i, node), weight) == sum_over(nodes, weight) - weight(nodes[i])
            + weight(node),
    decreases nodes.len(),
{
    let changed = nodes.update(i, node);
    if i == nodes.len() - 1 {
        assert(changed.drop_last() =~= nodes.drop_last());
    } else {
        assert(changed.drop_last() =~= nodes.drop_last().update(i, node));
        lemma_sum_update(nodes.drop_last(), weight, i, node);
    }
}

/// A sum of weights none of which is negative is not negative, and is at
/// least as large as each of them.
proof fn lemma_sum_bounds(
    nodes: Seq<ReadinessView>,
    weight: spec_fn(ReadinessView) -> int,
    i: int,
)
    requires
        forall|k: int| 0 <= k < nodes.len() ==> weight(#[trigger] nodes[k]) >= 0,
        0 <= i < nodes.len(),
    ensures
        sum_over(nodes, weight) >= weight(nodes[i]),
        sum_over(nodes, weight) >= 0,
    decreases nodes.len(),
{
    let front = nodes.drop_last();
    assert forall|k: int| 0 <= k < front.len() implies weight(#[trigger] front[k]) >= 0 by {
        assert(front[k] == nodes[k]);
    }
    if front.len() > 0 {
        if i < front.len() {
            lemma_sum_bounds(front, weight, i);
            assert(front[i] == nodes[i]);
        } else {
            lemma_sum_bounds(front, weight, 0);
        }
    } else {
        assert(sum_over(front, weight) == 0);
    }
    assert(nodes.last() == nodes[nodes.len() - 1]);
    assert(weight(nodes[nodes.len() - 1]) >= 0);
    assert(sum_over(nodes, weight) == sum_over(front, weight) + weight(nodes.last()));
}

/// What a well-formed node still has ahead of it is never negative.
proof fn lemma_ahead_is_not_negative(node: ReadinessView)
    requires
        node.wf(),
    ensures
        phases_ahead(node) >= 0,
        waits_ahead(node) >= 0,
        node.arrived.len() <= node.cohort_size - 1,
        node.early.len() <= node.cohort_size - 1,
{
    crate::rendezvous::lemma_peer_count(node);
    assert(node.arrived.subset_of(node.peers()));
    assert(node.early.subset_of(node.peers()));
    vstd::set_lib::lemma_len_subset(node.arrived, node.peers());
    vstd::set_lib::lemma_len_subset(node.early, node.peers());
}

/// In a cohort that is not empty, some node is behind no other.
proof fn lemma_slowest_node(c: CohortView) -> (i: int)
    requires
        c.size() > 0,
    ensures
        0 <= i < c.size(),
        forall|j: int| 0 <= j < c.size() ==> c.passed_rank(i) <= #[trigger] c.passed_rank(j),
{
    if exists|k: int| 0 <= k < c.size() && c.passed_rank(k) == 0 {
        choose|k: int| 0 <= k < c.size() && c.passed_rank(k) == 0
    } else if exists|k: int| 0 <= k < c.size() && c.passed_rank(k) == 1 {
        choose|k: int| 0 <= k < c.size() && c.passed_rank(k) == 1
    } else if exists|k: int| 0 <= k < c.size() && c.passed_rank(k) == 2 {
        choose|k: int| 0 <= k < c.size() && c.passed_rank(k) == 2
    } else if exists|k: int| 0 <= k < c.size() && c.passed_rank(k) == 3 {
        choose|k: int| 0 <= k < c.size() && c.passed_rank(k) == 3
    } else {
        0
    }
}

/// A cohort never gets stuck on its own. As long as some node has not
/// passed the last boundary, something can happen that brings the cohort
/// closer to the end: a node passes a boundary, or else a node enters one or
/// an announcement arrives where it was missing.
pub proof fn lemma_some_step_moves_on(c: CohortView) -> (step: CohortStep)
    requires
        c.inv(),
        c.size() > 0,
        !c.finished(),
    ensures
        c.enabled(step),
        c.next(step).phases_left() < c.phases_left() || (c.next(step).phases_left()
            == c.phases_left() && c.next(step).waits_left() < c.waits_left()),
{
    let phases = |node: ReadinessView| phases_ahead(node);
    let waits = |node: ReadinessView| waits_ahead(node);
    let i = lemma_slowest_node(c);
    let me = c.nodes[i];
    assert(me.wf());
    // the slowest node has a boundary in front of it
    assert(me.passed != Phase::Completed) by {
        if me.passed == Phase::Completed {
            assert forall|j: int| 0 <= j < c.size() implies (#[trigger] c.nodes[j]).passed
                == Phase::Completed by {
                assert(c.passed_rank(i) <= c.passed_rank(j));
            }
        }
    }
    let b = me.boundary().unwrap();
    crate::phase::lemma_successor_is_next(me.passed);
    if !me.entered {
        let step = CohortStep::Enter(i);
        lemma_sum_update(c.nodes, phases, i, me.entering());
        lemma_sum_update(c.nodes, waits, i, me.entering());
        step
    } else if forall|p: int| me.is_peer(p) ==> me.arrived.contains(p) {
        crate::rendezvous::lemma_ready_iff_all_peers_arrived(me);
        let step = CohortStep::Pass(i);
        lemma_sum_update(c.nodes, phases, i, me.passing());
        step
    } else {
        let p = choose|p: int| me.is_peer(p) && !me.arrived.contains(p);
        let peer = c.nodes[p];
        assert(peer.wf());
        assert(c.passed_rank(i) <= c.passed_rank(p));
        if c.reach_of(p) == c.passed_rank(i) {
            // the peer stands before the same boundary and has not entered it
            assert(!peer.entered);
            crate::phase::lemma_rank_total(peer.passed, me.passed);
            let step = CohortStep::Enter(p);
            lemma_sum_update(c.nodes, phases, p, peer.entering());
            lemma_sum_update(c.nodes, waits, p, peer.entering());
            step
        } else {
            // the peer has announced the boundary; the announcement can arrive
            assert(c.sent.contains((p, b)));
            let message = MessageView::StateChangingTo(b.name_spec());
            lemma_name_round_trip(b, b.name_spec());
            assert(message.announced() == Some(b));
            let after = me.observe(p, message);
            assert(me.classify(p, message) == crate::rendezvous::Observation::Recorded);
            assert(after.arrived == me.arrived.insert(p));
            assert(after.arrived.len() == me.arrived.len() + 1);
            let step = CohortStep::Deliver { to: i, from: p, boundary: b };
            lemma_sum_update(c.nodes, phases, i, after);
            lemma_sum_update(c.nodes, waits, i, after);
            step
        }
    }
}

/// A cohort can always finish. From every state that a cohort can reach,
/// there is a way on, by entries, deliveries and passes alone, to the state
/// in which every node has passed the last boundary. Only a peer that stops
/// taking part can hold the others up.
pub proof fn lemma_cohort_can_finish(size: nat, steps: Seq<CohortStep>) -> (all: Seq<CohortStep>)
    requires
        size > 0,
        CohortView::initial(size).admits(steps),
    ensures
        steps.len() <= all.len(),
        all.subrange(0, steps.len() as int) == steps,
        CohortView::initial(size).admits(all),
        CohortView::initial(size).run(all).finished(),
    decreases
        CohortView::initial(size).run(steps).phases_left(),
        CohortView::initial(size).run(steps).waits_left(),
{
    let start = CohortView::initial(size);
    let c = start.run(steps);
    lemma_run_keeps_inv(size, steps);
    if c.finished() {
        assert(steps.subrange(0, steps.len() as int) =~= steps);
        steps
    } else {
        let step = lemma_some_step_moves_on(c);
        let longer = steps.push(step);
        assert(longer.drop_last() =~= steps);
        assert(start.run(longer) == c.next(step));
        assert(start.admits(longer));
        lemma_step_keeps_inv(c, step);
        lemma_left_is_not_negative(c.next(step));
        let all = lemma_cohort_can_finish(size, longer);
        assert(all.subrange(0, steps.len() as int) =~= longer.subrange(0, steps.len() as int));
        assert(longer.subrange(0, steps.len() as int) =~= steps);
        all
    }
}

/// What a well-formed cohort still has ahead of it is never negative.
proof fn lemma_left_is_not_negative(c: CohortView)
    requires
        c.wf(),
    ensures
        c.phases_left() >= 0,
        c.waits_left() >= 0,
{
    let phases = |node: ReadinessView| phases_ahead(node);
    let waits = |node: ReadinessView| waits_ahead(node);
    assert forall|k: int| 0 <= k < c.nodes.len() implies phases(#[trigger] c.nodes[k]) >= 0
        && waits(c.nodes[k]) >= 0 by {
        assert(c.nodes[k].wf());
        lemma_ahead_is_not_negative(c.nodes[k]);
    }
    if c.nodes.len() > 0 {
        lemma_sum_bounds(c.nodes, phases, 0);
        lemma_sum_bounds(c.nodes, waits, 0);
    }
}

} // verus!
