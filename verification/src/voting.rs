//! Casting votes: one vote for each voter in each election, taken only
//! while the election is open and only from a registered voter.

use vstd::prelude::*;
use crate::lifecycle::{election_phase, phase_at, Phase};
use crate::records::{vote_row, Error, Vote, VotePayload, VoteView};
use crate::store::{has_voted, lists_votes, one_vote_each, Store, StoreView};
use crate::table::row_storable;
use crate::voters::{contains_id, is_registered};

verus! {

/// The vote that a successful call records.
pub open spec fn new_vote(
    before: StoreView,
    voter_id: u64,
    election_id: u64,
    candidate: Seq<char>,
    now: u64,
) -> VoteView {
    VoteView { id: before.next_id, voter_id, candidate, election_id, timestamp: now }
}

/// What casting a vote returns and does to the store, for every input.
///
/// The checks come in this order, and the first that fails decides:
/// the voter and the election exist (`NotFound`);
/// the election is open at `now` (`ElectionNotOpen`);
/// the voter is registered for it (`NotRegistered`);
/// the voter has no vote in it yet (`AlreadyVoted`);
/// an identifier is left and the vote's row takes no more bytes than stable
/// memory holds in one value (`CapacityExceeded`).
/// Only a vote that passes them all is recorded, under the next identifier
/// and with `now` as its time. The candidate is recorded as given, whether or
/// not the election lists that name. A vote whose row is beyond that size
/// uses up its identifier; every other refusal leaves the store as it was.
pub open spec fn vote_outcome(
    before: StoreView,
    voter_id: u64,
    election_id: u64,
    candidate: Seq<char>,
    now: u64,
    r: Result<Vote, Error>,
    after: StoreView,
) -> bool {
    let both_exist = before.voters.dom().contains(voter_id) && before.elections.dom().contains(
        election_id,
    );
    let open = phase_at(
        before.elections[election_id].start_time,
        before.elections[election_id].end_time,
        now,
    ) == Phase::Open;
    let registered = is_registered(before.voters, voter_id, election_id);
    let voted = has_voted(before.votes, voter_id, election_id);
    let vote = new_vote(before, voter_id, election_id, candidate, now);
    match r {
        Ok(v) => {
            &&& both_exist && open && registered && !voted
            &&& before.next_id < u64::MAX
            &&& row_storable(vote_row(vote))
            &&& v@ == vote
            &&& after == (StoreView { votes: before.votes.insert(vote.id, vote), ..before.bumped() })
        },
        Err(Error::NotFound) => !both_exist && after == before,
        Err(Error::ElectionNotOpen) => both_exist && !open && after == before,
        Err(Error::NotRegistered) => both_exist && open && !registered && after == before,
        Err(Error::AlreadyVoted) => both_exist && open && registered && voted && after == before,
        Err(Error::CapacityExceeded) => {
            &&& both_exist && open && registered && !voted
            &&& if before.next_id == u64::MAX {
                after == before
            } else {
                !row_storable(vote_row(vote)) && after == before.bumped()
            }
        },
        Err(_) => false,
    }
}

/// Casting a vote keeps the rule that no voter has two votes in one
/// election: if the rule holds of the store before the call, it holds after
/// it, whatever the call returns.
pub proof fn lemma_vote_keeps_one_vote_each(
    before: StoreView,
    voter_id: u64,
    election_id: u64,
    candidate: Seq<char>,
    now: u64,
    r: Result<Vote, Error>,
    after: StoreView,
)
    requires
        one_vote_each(before.votes),
        vote_outcome(before, voter_id, election_id, candidate, now, r, after),
    ensures
        one_vote_each(after.votes),
{
    if r is Ok {
        let vote = new_vote(before, voter_id, election_id, candidate, now);
        assert forall|a: u64, b: u64|
            #![trigger after.votes.dom().contains(a), after.votes.dom().contains(b)]
            after.votes.dom().contains(a) && after.votes.dom().contains(b)
                && after.votes[a].voter_id == after.votes[b].voter_id
                && after.votes[a].election_id == after.votes[b].election_id implies a == b by {
            if a != vote.id && b != vote.id {
                assert(before.votes.dom().contains(a) && before.votes.dom().contains(b));
            } else if a != vote.id {
                assert(before.votes.dom().contains(a));
            } else if b != vote.id {
                assert(before.votes.dom().contains(b));
            }
        }
    }
}

/// A recorded vote is permanent: casting a vote removes no vote that was
/// recorded before and changes none, and it leaves every election, voter,
/// ballot and user as it was.
pub proof fn lemma_recorded_votes_stay(
    before: StoreView,
    voter_id: u64,
    election_id: u64,
    candidate: Seq<char>,
    now: u64,
    r: Result<Vote, Error>,
    after: StoreView,
)
    requires
        before.valid(),
        vote_outcome(before, voter_id, election_id, candidate, now, r, after),
    ensures
        forall|k: u64| #[trigger]
            before.votes.dom().contains(k) ==> after.votes.dom().contains(k) && after.votes[k]
                == before.votes[k],
        after.elections == before.elections,
        after.voters == before.voters,
        after.ballots == before.ballots,
        after.users == before.users,
        after.next_id >= before.next_id,
{
    assert(before.kinds_holding(before.next_id) > 0 ==> before.next_id < before.next_id);
}

/// No voter votes twice: in every store, a vote of a voter who already has a
/// vote in the election is turned down, for any candidate, and the store
/// stays as it is. While the election is open the reason given is
/// `AlreadyVoted`; before and after, it is `ElectionNotOpen`.
pub proof fn lemma_repeated_vote_refused(
    before: StoreView,
    voter_id: u64,
    election_id: u64,
    candidate: Seq<char>,
    now: u64,
    r: Result<Vote, Error>,
    after: StoreView,
)
    requires
        before.valid(),
        has_voted(before.votes, voter_id, election_id),
        vote_outcome(before, voter_id, election_id, candidate, now, r, after),
    ensures
        after == before,
        before.elections.dom().contains(election_id),
        phase_at(
            before.elections[election_id].start_time,
            before.elections[election_id].end_time,
            now,
        ) == Phase::Open ==> r == Err::<Vote, Error>(Error::AlreadyVoted),
        phase_at(
            before.elections[election_id].start_time,
            before.elections[election_id].end_time,
            now,
        ) != Phase::Open ==> r == Err::<Vote, Error>(Error::ElectionNotOpen),
{
    let k = choose|k: u64|
        #![trigger before.votes.dom().contains(k)]
        before.votes.dom().contains(k) && before.votes[k].voter_id == voter_id
            && before.votes[k].election_id == election_id;
    assert(before.votes.dom().contains(k));
    assert(is_registered(before.voters, voter_id, election_id));
}

/// A voter who has voted in an election cannot vote in it again: after a
/// vote was recorded, a further vote of the same voter in the same election
/// is turned down, at any time and for any candidate, and the store stays as
/// it is. While the election is open the reason given is `AlreadyVoted`.
pub proof fn lemma_second_vote_refused(
    before: StoreView,
    voter_id: u64,
    election_id: u64,
    first_candidate: Seq<char>,
    first_time: u64,
    first: Result<Vote, Error>,
    between: StoreView,
    second_candidate: Seq<char>,
    second_time: u64,
    second: Result<Vote, Error>,
    after: StoreView,
)
    requires
        vote_outcome(before, voter_id, election_id, first_candidate, first_time, first, between),
        first is Ok,
        vote_outcome(between, voter_id, election_id, second_candidate, second_time, second, after),
    ensures
        second is Err,
        after == between,
        phase_at(
            between.elections[election_id].start_time,
            between.elections[election_id].end_time,
            second_time,
        ) == Phase::Open ==> second == Err::<Vote, Error>(Error::AlreadyVoted),
{
    let vote = new_vote(before, voter_id, election_id, first_candidate, first_time);
    assert(between.votes.dom().contains(vote.id));
    assert(has_voted(between.votes, voter_id, election_id));
}

/// Whether the voter has a vote in the election.
pub fn has_user_cast_vote(store: &Store, voter_id: u64, election_id: u64) -> (voted: bool)
    requires
        store.wf(),
    ensures
        voted == has_voted(store@.votes, voter_id, election_id),
{
    let votes = store.all_votes();
    let mut i: usize = 0;
    while i < votes.len()
        invariant
            i <= votes.len(),
            lists_votes(store@.votes, votes@),
            forall|j: int|
                0 <= j < i ==> !((#[trigger] votes@[j]).voter_id == voter_id
                    && votes@[j].election_id == election_id),
        decreases votes.len() - i,
    {
        if votes[i].voter_id == voter_id && votes[i].election_id == election_id {
            proof {
                assert(store@.votes.dom().contains(votes@[i as int].id));
            }
            return true;
        }
        i = i + 1;
    }
    proof {
        if has_voted(store@.votes, voter_id, election_id) {
            let k = choose|k: u64|
                #![trigger store@.votes.dom().contains(k)]
                store@.votes.dom().contains(k) && store@.votes[k].voter_id == voter_id
                    && store@.votes[k].election_id == election_id;
            let j = choose|j: int| 0 <= j < votes@.len() && #[trigger] votes@[j].id == k;
            assert(votes@[j].voter_id == voter_id);
        }
    }
    false
}

/// The vote with the given identifier, if there is one.
pub fn get_vote(store: &Store, vote_id: u64) -> (r: Option<Vote>)
    requires
        store.wf(),
    ensures
        match r {
            Some(v) => store@.votes.dom().contains(vote_id) && v@ == store@.votes[vote_id],
            None => !store@.votes.dom().contains(vote_id),
        },
{
    store.lookup_vote(vote_id)
}

/// Casts a vote at time `now`: see [`vote_outcome`].
pub fn cast_vote(store: &mut Store, payload: VotePayload, now: u64) -> (r: Result<Vote, Error>)
    requires
        old(store).wf(),
    ensures
        final(store).wf(),
        vote_outcome(
            old(store)@,
            payload.voter_id,
            payload.election_id,
            payload.candidate@,
            now,
            r,
            final(store)@,
        ),
{
    let voter = match store.lookup_voter(payload.voter_id) {
        Some(voter) => voter,
        None => {
            return Err(Error::NotFound);
        },
    };
    let election = match store.lookup_election(payload.election_id) {
        Some(election) => election,
        None => {
            return Err(Error::NotFound);
        },
    };
    if election_phase(&election, now) != Phase::Open {
        return Err(Error::ElectionNotOpen);
    }
    if !contains_id(&voter.registered_elections, payload.election_id) {
        return Err(Error::NotRegistered);
    }
    if has_user_cast_vote(store, payload.voter_id, payload.election_id) {
        return Err(Error::AlreadyVoted);
    }
    let id = match store.next_id() {
        Some(id) => id,
        None => {
            return Err(Error::CapacityExceeded);
        },
    };
    let vote = Vote {
        id,
        voter_id: payload.voter_id,
        candidate: payload.candidate,
        election_id: payload.election_id,
        timestamp: now,
    };
    if store.do_insert_vote(&vote) {
        Ok(vote)
    } else {
        Err(Error::CapacityExceeded)
    }
}

/// Casts a vote for the given candidate at time `now`: see [`vote_outcome`].
pub fn cast_vote_for_registered_voter(
    store: &mut Store,
    voter_id: u64,
    election_id: u64,
    candidate: String,
    now: u64,
) -> (r: Result<Vote, Error>)
    requires
        old(store).wf(),
    ensures
        final(store).wf(),
        vote_outcome(old(store)@, voter_id, election_id, candidate@, now, r, final(store)@),
{
    cast_vote(store, VotePayload { voter_id, candidate, election_id }, now)
}

} // verus!
