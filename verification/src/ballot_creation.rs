//! Ballots: the options put to the voters of an election.

use vstd::prelude::*;
use crate::records::{ballot_row, Ballot, BallotView, Record};
use crate::row::text_views;
use crate::store::{lists_ballots, select_marked, Store, StoreView};
use crate::table::row_storable;

verus! {

/// The ballots of one election.
pub open spec fn ballots_of(ballots: Map<u64, BallotView>, election_id: u64) -> Map<
    u64,
    BallotView,
> {
    Map::new(
        |k: u64| ballots.dom().contains(k) && ballots[k].election_id == election_id,
        |k: u64| ballots[k],
    )
}

/// The ballot that a successful call stores.
pub open spec fn new_ballot(
    before: StoreView,
    election_id: u64,
    options: Seq<Seq<char>>,
    start_time: u64,
    end_time: u64,
) -> BallotView {
    BallotView { id: before.next_id, election_id, options, start_time, end_time }
}

/// Creates a ballot for an election.
///
/// An identifier is taken first; it is used up even when no ballot is then
/// stored. There is a ballot exactly when an identifier was left, the ballot
/// ends after it starts, and its row takes no more bytes than stable memory
/// holds in one value (`row_storable`).
pub fn create_ballot(
    store: &mut Store,
    election_id: u64,
    options: Vec<String>,
    start_time: u64,
    end_time: u64,
) -> (r: Option<Ballot>)
    requires
        old(store).wf(),
    ensures
        final(store).wf(),
        match r {
            Some(b) => {
                &&& old(store)@.next_id < u64::MAX
                &&& start_time < end_time
                &&& b@ == new_ballot(
                    old(store)@,
                    election_id,
                    text_views(options@),
                    start_time,
                    end_time,
                )
                &&& row_storable(ballot_row(b@))
                &&& final(store)@ == (StoreView {
                    ballots: old(store)@.ballots.insert(b.id, b@),
                    ..old(store)@.bumped()
                })
            },
            None => if old(store)@.next_id == u64::MAX {
                final(store)@ == old(store)@
            } else {
                &&& final(store)@ == old(store)@.bumped()
                &&& end_time <= start_time || !row_storable(
                    ballot_row(
                        new_ballot(
                            old(store)@,
                            election_id,
                            text_views(options@),
                            start_time,
                            end_time,
                        ),
                    ),
                )
            },
        },
{
    let id = match store.next_id() {
        Some(id) => id,
        None => {
            return None;
        },
    };
    if end_time <= start_time {
        return None;
    }
    let ballot = Ballot { id, election_id, options, start_time, end_time };
    if store.do_insert_ballot(&ballot) {
        Some(ballot)
    } else {
        None
    }
}

/// The ballot with the given identifier, if there is one.
pub fn get_ballot(store: &Store, ballot_id: u64) -> (r: Option<Ballot>)
    requires
        store.wf(),
    ensures
        match r {
            Some(b) => store@.ballots.dom().contains(ballot_id) && b@ == store@.ballots[ballot_id],
            None => !store@.ballots.dom().contains(ballot_id),
        },
{
    store.lookup_ballot(ballot_id)
}

/// The ballots of one election, in ascending order of their identifiers.
pub fn get_ballots_for_election(store: &Store, election_id: u64) -> (r: Vec<Ballot>)
    requires
        store.wf(),
    ensures
        lists_ballots(ballots_of(store@.ballots, election_id), r@),
{
    let all = store.all_ballots();
    let mut marks: Vec<bool> = Vec::new();
    let mut i: usize = 0;
    while i < all.len()
        invariant
            i <= all.len(),
            marks@.len() == i,
            forall|j: int|
                0 <= j < i ==> marks@[j] == ((#[trigger] all@[j]).election_id == election_id),
        decreases all.len() - i,
    {
        marks.push(all[i].election_id == election_id);
        i = i + 1;
    }
    proof {
        assert forall|j: int| 0 <= j < all@.len() implies (marks@[j] <==> ballots_of(
            store@.ballots,
            election_id,
        ).dom().contains(Ballot::key((#[trigger] all@[j])@))) by {
            assert(store@.ballots.dom().contains(all@[j].id));
            assert(store@.ballots[all@[j].id] == all@[j]@);
        }
    }
    select_marked::<Ballot>(
        &all,
        &marks,
        Ghost(store@.ballots),
        Ghost(ballots_of(store@.ballots, election_id)),
    )
}

} // verus!
