//! How long the work units of a phase take.
//!
//! The work itself (fetching, compressing, uploading) is not this crate's
//! business. A unit of work is stood in for by a wait of a few seconds, drawn
//! at random; the caller does the waiting.

use vstd::prelude::*;
use rand::Rng;

verus! {

/// The shortest time a unit of work takes, in seconds.
pub const MIN_UNIT_SECONDS: u64 = 1;

/// The bound below which the time of every unit of work stays, in seconds.
pub const UNIT_SECONDS_BOUND: u64 = 10;

/// Whether `seconds` is a time that a unit of work may take.
pub open spec fn is_unit_time(seconds: u64) -> bool {
    MIN_UNIT_SECONDS <= seconds < UNIT_SECONDS_BOUND
}

/// Whether `durations` gives a time for each of `units` units of work.
pub open spec fn is_plan(durations: Seq<u64>, units: nat) -> bool {
    &&& durations.len() == units
    &&& forall|i: int| 0 <= i < durations.len() ==> is_unit_time(#[trigger] durations[i])
}

/// Draws a number with `gen_range` of `rand`'s thread-local generator. The
/// number is random; the contract claims only that it lies in the half-open
/// range from `low` up to, and not including, `high`. `gen_range` panics on
/// an empty range, which the precondition rules out. The generator is seeded
/// by the operating system when a thread first uses it, and `rand` gives up
/// if the system has no randomness to offer; nothing here can rule that out.
#[verifier::external_body]
fn random_in_range(low: u64, high: u64) -> (n: u64)
    requires
        low < high,
    ensures
        low <= n < high,
{
    rand::thread_rng().gen_range(low, high)
}

/// Draws the time that one unit of work takes, in seconds.
pub fn unit_duration() -> (seconds: u64)
    ensures
        is_unit_time(seconds),
{
    random_in_range(MIN_UNIT_SECONDS, UNIT_SECONDS_BOUND)
}

/// Draws a time for each of `units` units of work.
pub fn plan_units(units: usize) -> (durations: Vec<u64>)
    ensures
        is_plan(durations@, units as nat),
{
    let mut durations: Vec<u64> = Vec::new();
    let mut i: usize = 0;
    while i < units
        invariant
            i <= units,
            is_plan(durations@, i as nat),
        decreases units - i,
    {
        let seconds = unit_duration();
        durations.push(seconds);
        i = i + 1;
    }
    durations
}

/// The time a whole plan takes when its units are worked off one after the
/// other.
pub open spec fn total_seconds(durations: Seq<u64>) -> nat
    decreases durations.len(),
{
    if durations.len() == 0 {
        0
    } else {
        total_seconds(durations.drop_last()) + durations.last() as nat
    }
}

/// The work of a phase is bounded: a plan of `units` units takes at least
/// `units` seconds and less than ten times as many.
pub proof fn lemma_plan_is_bounded(durations: Seq<u64>, units: nat)
    requires
        is_plan(durations, units),
    ensures
        units * MIN_UNIT_SECONDS <= total_seconds(durations),
        total_seconds(durations) <= units * (UNIT_SECONDS_BOUND - 1),
    decreases durations.len(),
{
    if durations.len() > 0 {
        assert(is_unit_time(durations[durations.len() - 1]));
        lemma_plan_is_bounded(durations.drop_last(), (units - 1) as nat);
    }
}

} // verus!
