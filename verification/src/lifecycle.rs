//! The phases of an election, read off its time window and the clock.

use vstd::prelude::*;
use crate::records::Election;

verus! {

/// Where an election stands in time.
#[derive(Clone, Copy, Debug, PartialEq, Eq, Structural)]
pub enum Phase {
    /// Before the start: voters may register.
    NotYetOpen,
    /// From the start to the end, both included: votes are taken.
    Open,
    /// After the end: results are given.
    Closed,
}

/// The phase at time `now` of an election with the given window.
pub open spec fn phase_at(start_time: u64, end_time: u64, now: u64) -> Phase {
    if now < start_time {
        Phase::NotYetOpen
    } else if now <= end_time {
        Phase::Open
    } else {
        Phase::Closed
    }
}

/// The place of a phase in the order in which an election passes through
/// the phases.
pub open spec fn phase_rank(phase: Phase) -> nat {
    match phase {
        Phase::NotYetOpen => 0,
        Phase::Open => 1,
        Phase::Closed => 2,
    }
}

/// An election never goes back to an earlier phase: as time goes on, its
/// phase stays or moves forward from not yet open to open to closed.
pub proof fn lemma_phase_monotone(start_time: u64, end_time: u64, earlier: u64, later: u64)
    requires
        earlier <= later,
    ensures
        phase_rank(phase_at(start_time, end_time, earlier)) <= phase_rank(
            phase_at(start_time, end_time, later),
        ),
{
}

/// An election that ends after it starts is in exactly the phase that its
/// window gives: not yet open before the start, open from the start to the
/// end with both instants included, closed after the end.
pub proof fn lemma_phase_bounds(start_time: u64, end_time: u64, now: u64)
    requires
        start_time < end_time,
    ensures
        phase_at(start_time, end_time, now) == Phase::NotYetOpen <==> now < start_time,
        phase_at(start_time, end_time, now) == Phase::Open <==> start_time <= now <= end_time,
        phase_at(start_time, end_time, now) == Phase::Closed <==> now > end_time,
        phase_at(start_time, end_time, start_time) == Phase::Open,
        phase_at(start_time, end_time, end_time) == Phase::Open,
{
}

/// The phase of an election at time `now`.
pub fn election_phase(election: &Election, now: u64) -> (phase: Phase)
    ensures
        phase == phase_at(election.start_time, election.end_time, now),
{
    if now < election.start_time {
        Phase::NotYetOpen
    } else if now <= election.end_time {
        Phase::Open
    } else {
        Phase::Closed
    }
}

/// Whether the election has ended at time `now`.
pub fn is_election_ended(election: &Election, now: u64) -> (ended: bool)
    ensures
        ended == (now > election.end_time),
{
    now > election.end_time
}

} // verus!
