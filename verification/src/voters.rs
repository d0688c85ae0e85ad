//! Voters, and their registration for elections.

use vstd::prelude::*;
use crate::lifecycle::{phase_at, Phase};
use crate::records::{voter_row, Error, Voter, VoterView};
use crate::store::{Store, StoreView};
use crate::table::row_storable;

verus! {

/// Whether the voter exists and is registered for the election.
pub open spec fn is_registered(voters: Map<u64, VoterView>, voter_id: u64, election_id: u64) -> bool {
    voters.dom().contains(voter_id) && voters[voter_id].registered_elections.contains(election_id)
}

/// The voter with one more election at the end of the registrations.
pub open spec fn with_registration(voter: VoterView, election_id: u64) -> VoterView {
    VoterView { registered_elections: voter.registered_elections.push(election_id), ..voter }
}

/// Whether `x` occurs in `list`.
pub fn contains_id(list: &Vec<u64>, x: u64) -> (found: bool)
    ensures
        found == list@.contains(x),
{
    let mut i: usize = 0;
    while i < list.len()
        invariant
            i <= list.len(),
            forall|j: int| 0 <= j < i ==> list@[j] != x,
        decreases list.len() - i,
    {
        if list[i] == x {
            return true;
        }
        i = i + 1;
    }
    false
}

/// Adding to a list without repetition an element that it does not hold
/// gives a list without repetition.
pub proof fn lemma_push_no_duplicates(list: Seq<u64>, x: u64)
    requires
        list.no_duplicates(),
        !list.contains(x),
    ensures
        list.push(x).no_duplicates(),
{
    let longer = list.push(x);
    assert forall|i: int, j: int| 0 <= i < longer.len() && 0 <= j < longer.len() && i != j implies longer[i]
        != longer[j] by {
        if i < list.len() && j < list.len() {
        } else if i < list.len() {
            assert(list.contains(list[i]));
        } else {
            assert(list.contains(list[j]));
        }
    }
}

/// Registers a new voter, who is registered for no election yet.
///
/// The voter is turned down with `CapacityExceeded` when no identifier is
/// left, or when the voter's row would take more bytes than stable memory
/// holds in one value (`row_storable`); the identifier is then used up all
/// the same.
pub fn register_voter(store: &mut Store, username: String) -> (r: Result<Voter, Error>)
    requires
        old(store).wf(),
    ensures
        final(store).wf(),
        match r {
            Ok(v) => {
                &&& old(store)@.next_id < u64::MAX
                &&& v@ == (VoterView {
                    id: old(store)@.next_id,
                    username: username@,
                    registered_elections: Seq::empty(),
                })
                &&& row_storable(voter_row(v@))
                &&& final(store)@ == (StoreView {
                    voters: old(store)@.voters.insert(v.id, v@),
                    ..old(store)@.bumped()
                })
            },
            Err(Error::CapacityExceeded) => {
                ||| old(store)@.next_id == u64::MAX && final(store)@ == old(store)@
                ||| {
                    &&& old(store)@.next_id < u64::MAX
                    &&& !row_storable(
                        voter_row(
                            VoterView {
                                id: old(store)@.next_id,
                                username: username@,
                                registered_elections: Seq::empty(),
                            },
                        ),
                    )
                    &&& final(store)@ == old(store)@.bumped()
                }
            },
            Err(_) => false,
        },
{
    let id = match store.next_id() {
        Some(id) => id,
        None => {
            return Err(Error::CapacityExceeded);
        },
    };
    let voter = Voter { id, username, registered_elections: Vec::new() };
    if store.do_insert_voter(&voter) {
        Ok(voter)
    } else {
        Err(Error::CapacityExceeded)
    }
}

/// What registering a voter for an election returns and does to the store,
/// for every input.
///
/// The call fails with `NotFound` unless both the voter and the election
/// exist, and with `RegistrationClosed` unless `now` is before the election's
/// start. A voter who is registered already stays registered once: the call
/// succeeds and changes nothing. Otherwise the election is added at the end
/// of the voter's registrations, unless the voter's row would then take more
/// bytes than stable memory holds in one value, which fails with
/// `CapacityExceeded`. A call that fails leaves the store as it was.
pub open spec fn registration_outcome(
    before: StoreView,
    voter_id: u64,
    election_id: u64,
    now: u64,
    r: Result<(), Error>,
    after: StoreView,
) -> bool {
    let both_exist = before.voters.dom().contains(voter_id) && before.elections.dom().contains(
        election_id,
    );
    let early = now < before.elections[election_id].start_time;
    let registered = is_registered(before.voters, voter_id, election_id);
    let updated = with_registration(before.voters[voter_id], election_id);
    match r {
        Ok(_) => {
            &&& both_exist && early
            &&& if registered {
                after == before
            } else {
                &&& row_storable(voter_row(updated))
                &&& after == (StoreView { voters: before.voters.insert(voter_id, updated), ..before })
            }
        },
        Err(Error::NotFound) => !both_exist && after == before,
        Err(Error::RegistrationClosed) => both_exist && !early && after == before,
        Err(Error::CapacityExceeded) => {
            &&& both_exist && early && !registered
            &&& !row_storable(voter_row(updated))
            &&& after == before
        },
        Err(_) => false,
    }
}

/// Registration is open exactly while the election has not opened: for a
/// voter and an election that exist, and a voter whose row with one more
/// registration is within what stable memory holds in one value, registering
/// succeeds if and only if the election's phase is `NotYetOpen`. At the very instant of the start the election is
/// open already, and the registration is turned down.
pub proof fn lemma_registration_window(
    before: StoreView,
    voter_id: u64,
    election_id: u64,
    now: u64,
    r: Result<(), Error>,
    after: StoreView,
)
    requires
        before.valid(),
        before.voters.dom().contains(voter_id),
        before.elections.dom().contains(election_id),
        row_storable(voter_row(with_registration(before.voters[voter_id], election_id))),
        registration_outcome(before, voter_id, election_id, now, r, after),
    ensures
        r is Ok <==> phase_at(
            before.elections[election_id].start_time,
            before.elections[election_id].end_time,
            now,
        ) == Phase::NotYetOpen,
        r is Err ==> r == Err::<(), Error>(Error::RegistrationClosed),
        now == before.elections[election_id].start_time ==> phase_at(
            before.elections[election_id].start_time,
            before.elections[election_id].end_time,
            now,
        ) == Phase::Open && r == Err::<(), Error>(Error::RegistrationClosed),
        r is Ok ==> is_registered(after.voters, voter_id, election_id),
{
    if r is Ok && !is_registered(before.voters, voter_id, election_id) {
        let list = before.voters[voter_id].registered_elections;
        assert(list.push(election_id)[list.len() as int] == election_id);
    }
}

/// Registers a voter for an election at time `now`: see
/// [`registration_outcome`].
pub fn register_for_election(store: &mut Store, voter_id: u64, election_id: u64, now: u64) -> (r:
    Result<(), Error>)
    requires
        old(store).wf(),
    ensures
        final(store).wf(),
        registration_outcome(old(store)@, voter_id, election_id, now, r, final(store)@),
{
    let voter = match store.lookup_voter(voter_id) {
        Some(voter) => voter,
        None => {
            return Err(Error::NotFound);
        },
    };
    let election = match store.lookup_election(election_id) {
        Some(election) => election,
        None => {
            return Err(Error::NotFound);
        },
    };
    if election.start_time <= now {
        return Err(Error::RegistrationClosed);
    }
    if contains_id(&voter.registered_elections, election_id) {
        return Ok(());
    }
    let mut updated = voter;
    let ghost earlier = updated.registered_elections@;
    proof {
        lemma_push_no_duplicates(earlier, election_id);
    }
    updated.registered_elections.push(election_id);
    proof {
        assert forall|x: u64| earlier.contains(x) implies updated.registered_elections@.contains(
            x,
        ) by {
            let i = choose|i: int| 0 <= i < earlier.len() && earlier[i] == x;
            assert(updated.registered_elections@[i] == x);
        }
    }
    if store.do_insert_voter(&updated) {
        Ok(())
    } else {
        Err(Error::CapacityExceeded)
    }
}

} // verus!
