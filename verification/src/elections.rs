//! Creating elections and finding them by phase.

use vstd::prelude::*;
use crate::lifecycle::{election_phase, phase_at, Phase};
use crate::records::{election_row, Election, ElectionView, Error, Record};
use crate::row::text_views;
use crate::store::{lists_elections, select_marked, Store, StoreView};
use crate::table::row_storable;

verus! {

/// The elections that are in the given phase at time `now`.
pub open spec fn elections_in_phase(
    elections: Map<u64, ElectionView>,
    now: u64,
    phase: Phase,
) -> Map<u64, ElectionView> {
    Map::new(
        |k: u64|
            elections.dom().contains(k) && phase_at(
                elections[k].start_time,
                elections[k].end_time,
                now,
            ) == phase,
        |k: u64| elections[k],
    )
}

/// Creates an election. The title and the candidates are stored as they are
/// given: a candidate who is named twice is listed twice.
///
/// An identifier is taken first; it is used up even when the election is then
/// turned down. The election is turned down with `InvalidTimeWindow` unless it
/// ends after it starts, and with `CapacityExceeded` when no identifier is
/// left or the election's row would take more bytes than stable memory holds
/// in one value (`row_storable`). Nothing else limits a title or the
/// candidates.
pub fn create_election(
    store: &mut Store,
    title: String,
    candidates: Vec<String>,
    start_time: u64,
    end_time: u64,
) -> (r: Result<Election, Error>)
    requires
        old(store).wf(),
    ensures
        final(store).wf(),
        end_time <= start_time ==> r is Err,
        match r {
            Ok(e) => {
                &&& old(store)@.next_id < u64::MAX
                &&& start_time < end_time
                &&& e.start_time < e.end_time
                &&& e@ == (ElectionView {
                    id: old(store)@.next_id,
                    title: title@,
                    candidates: text_views(candidates@),
                    start_time,
                    end_time,
                })
                &&& row_storable(election_row(e@))
                &&& final(store)@ == (StoreView {
                    elections: old(store)@.elections.insert(e.id, e@),
                    ..old(store)@.bumped()
                })
            },
            Err(Error::InvalidTimeWindow) => {
                &&& old(store)@.next_id < u64::MAX
                &&& end_time <= start_time
                &&& final(store)@ == old(store)@.bumped()
            },
            Err(Error::CapacityExceeded) => {
                ||| old(store)@.next_id == u64::MAX && final(store)@ == old(store)@
                ||| {
                    &&& old(store)@.next_id < u64::MAX
                    &&& start_time < end_time
                    &&& !row_storable(
                        election_row(
                            ElectionView {
                                id: old(store)@.next_id,
                                title: title@,
                                candidates: text_views(candidates@),
                                start_time,
                                end_time,
                            },
                        ),
                    )
                    &&& final(store)@ == old(store)@.bumped()
                }
            },
            Err(_) => false,
        },
{
    let id = match store.next_id() {
        Some(id) => id,
        None => {
            return Err(Error::CapacityExceeded);
        },
    };
    if end_time <= start_time {
        return Err(Error::InvalidTimeWindow);
    }
    let election = Election { id, title, candidates, start_time, end_time };
    if store.do_insert_election(&election) {
        Ok(election)
    } else {
        Err(Error::CapacityExceeded)
    }
}

/// The election with the given identifier, or `NotFound`.
pub fn get_election(store: &Store, election_id: u64) -> (r: Result<Election, Error>)
    requires
        store.wf(),
    ensures
        match r {
            Ok(e) => store@.elections.dom().contains(election_id) && e@
                == store@.elections[election_id],
            Err(err) => err == Error::NotFound && !store@.elections.dom().contains(election_id),
        },
{
    match store.lookup_election(election_id) {
        Some(election) => Ok(election),
        None => Err(Error::NotFound),
    }
}

/// Whether the election exists and is open at time `now`.
pub fn is_election_ongoing(store: &Store, election_id: u64, now: u64) -> (ongoing: bool)
    requires
        store.wf(),
    ensures
        ongoing == (store@.elections.dom().contains(election_id) && phase_at(
            store@.elections[election_id].start_time,
            store@.elections[election_id].end_time,
            now,
        ) == Phase::Open),
{
    match store.lookup_election(election_id) {
        Some(election) => now >= election.start_time && now <= election.end_time,
        None => false,
    }
}

/// The elections that are in the given phase at time `now`, in ascending
/// order of their identifiers.
pub fn elections_by_phase(store: &Store, now: u64, phase: Phase) -> (r: Vec<Election>)
    requires
        store.wf(),
    ensures
        lists_elections(elections_in_phase(store@.elections, now, phase), r@),
{
    let all = store.all_elections();
    let mut marks: Vec<bool> = Vec::new();
    let mut i: usize = 0;
    while i < all.len()
        invariant
            i <= all.len(),
            marks@.len() == i,
            forall|j: int|
                0 <= j < i ==> marks@[j] == (phase_at(
                    (#[trigger] all@[j]).start_time,
                    all@[j].end_time,
                    now,
                ) == phase),
        decreases all.len() - i,
    {
        marks.push(election_phase(&all[i], now) == phase);
        i = i + 1;
    }
    proof {
        assert forall|j: int| 0 <= j < all@.len() implies (marks@[j] <==> elections_in_phase(
            store@.elections,
            now,
            phase,
        ).dom().contains(Election::key((#[trigger] all@[j])@))) by {
            assert(store@.elections.dom().contains(all@[j].id));
            assert(store@.elections[all@[j].id] == all@[j]@);
        }
    }
    select_marked::<Election>(
        &all,
        &marks,
        Ghost(store@.elections),
        Ghost(elections_in_phase(store@.elections, now, phase)),
    )
}

/// The elections that are open at time `now`, in ascending order of their
/// identifiers.
pub fn get_ongoing_elections(store: &Store, now: u64) -> (r: Vec<Election>)
    requires
        store.wf(),
    ensures
        lists_elections(elections_in_phase(store@.elections, now, Phase::Open), r@),
{
    elections_by_phase(store, now, Phase::Open)
}

/// The elections that have not opened yet at time `now`, and so still take
/// registrations, in ascending order of their identifiers.
pub fn get_available_elections(store: &Store, now: u64) -> (r: Vec<Election>)
    requires
        store.wf(),
    ensures
        lists_elections(elections_in_phase(store@.elections, now, Phase::NotYetOpen), r@),
{
    elections_by_phase(store, now, Phase::NotYetOpen)
}

} // verus!
