//! Checking records that were read from stable memory before they are taken
//! as the contents of a store.
//!
//! Stable memory outlives the program. What a table holds at the start may
//! have been written by anything, so the records are checked against the
//! rules that every store keeps: [`records_sound`] states the rules over plain
//! lists of records, [`records_are_sound`] decides them, and
//! [`lemma_sound_records_valid`] shows that they make a valid store.

use vstd::prelude::*;
use vstd::seq_lib::seq_to_set_is_finite;
use crate::records::{Ballot, Election, Record, User, Vote, Voter};
use crate::voters::contains_id;
use crate::store::{
    lists, lists_ballots, lists_elections, lists_users, lists_votes, lists_voters, StoreView,
};

verus! {

/// The identifiers of a list of records.
pub open spec fn ids_of<R: Record>(list: Seq<R>) -> Seq<u64> {
    Seq::new(list.len(), |i: int| R::key(list[i]@))
}

/// The identifiers of all records: of the votes, then of the elections, the
/// voters, the ballots and the users.
pub open spec fn all_ids(
    votes: Seq<Vote>,
    elections: Seq<Election>,
    voters: Seq<Voter>,
    ballots: Seq<Ballot>,
    users: Seq<User>,
) -> Seq<u64> {
    ids_of::<Vote>(votes) + ids_of::<Election>(elections) + ids_of::<Voter>(voters)
        + ids_of::<Ballot>(ballots) + ids_of::<User>(users)
}

/// Whether every element of the list is below the bound.
pub open spec fn all_below_bound(list: Seq<u64>, bound: u64) -> bool {
    forall|i: int| 0 <= i < list.len() ==> #[trigger] list[i] < bound
}

/// Whether no two votes of the list are of the same voter in the same
/// election.
pub open spec fn votes_differ(votes: Seq<Vote>) -> bool {
    forall|i: int, j: int|
        0 <= i < j < votes.len() ==> !((#[trigger] votes[i]).voter_id == (#[trigger] votes[j]).voter_id
            && votes[i].election_id == votes[j].election_id)
}

/// Whether every election of the list ends after it starts.
pub open spec fn windows_grow(elections: Seq<Election>) -> bool {
    forall|i: int|
        0 <= i < elections.len() ==> (#[trigger] elections[i]).start_time < elections[i].end_time
}

/// Whether no voter of the list is registered twice for one election.
pub open spec fn registrations_differ(voters: Seq<Voter>) -> bool {
    forall|i: int|
        0 <= i < voters.len() ==> (#[trigger] voters[i]).registered_elections@.no_duplicates()
}

/// Whether the vote is in an election of the list and of a voter of the list
/// who is registered for that election.
pub open spec fn vote_backed(vote: Vote, elections: Seq<Election>, voters: Seq<Voter>) -> bool {
    &&& exists|j: int| 0 <= j < elections.len() && (#[trigger] elections[j]).id == vote.election_id
    &&& exists|j: int|
        0 <= j < voters.len() && (#[trigger] voters[j]).id == vote.voter_id
            && voters[j].registered_elections@.contains(vote.election_id)
}

/// Whether every vote of the list is in an election of the list and of a
/// voter of the list who is registered for that election.
pub open spec fn votes_backed_by(
    votes: Seq<Vote>,
    elections: Seq<Election>,
    voters: Seq<Voter>,
) -> bool {
    forall|i: int| 0 <= i < votes.len() ==> vote_backed(#[trigger] votes[i], elections, voters)
}

/// The rules that the records of a store keep: no identifier is used twice,
/// each is below the counter, no voter has two votes in one election, every
/// vote is of a voter who is registered for the vote's election, every
/// election ends after it starts, and no voter is registered twice for one
/// election.
pub open spec fn records_sound(
    next_id: u64,
    votes: Seq<Vote>,
    elections: Seq<Election>,
    voters: Seq<Voter>,
    ballots: Seq<Ballot>,
    users: Seq<User>,
) -> bool {
    &&& all_ids(votes, elections, voters, ballots, users).no_duplicates()
    &&& all_below_bound(all_ids(votes, elections, voters, ballots, users), next_id)
    &&& votes_differ(votes)
    &&& votes_backed_by(votes, elections, voters)
    &&& windows_grow(elections)
    &&& registrations_differ(voters)
}

/// Whether no element occurs twice in the list.
pub fn has_no_duplicates(list: &Vec<u64>) -> (ok: bool)
    ensures
        ok == list@.no_duplicates(),
{
    let mut i: usize = 0;
    while i < list.len()
        invariant
            i <= list.len(),
            forall|a: int, b: int| 0 <= a < i && a < b < list@.len() ==> list@[a] != list@[b],
        decreases list.len() - i,
    {
        let mut j: usize = i + 1;
        while j < list.len()
            invariant
                i < j <= list.len(),
                forall|b: int| i < b < j ==> list@[i as int] != list@[b],
            decreases list.len() - j,
        {
            if list[i] == list[j] {
                return false;
            }
            j = j + 1;
        }
        i = i + 1;
    }
    proof {
        assert forall|a: int, b: int|
            0 <= a < list@.len() && 0 <= b < list@.len() && a != b implies list@[a] != list@[b] by {
            if a < b {
            } else {
                assert(list@[b] != list@[a]);
            }
        }
    }
    true
}

/// Whether every element of the list is below the bound.
pub fn all_below(list: &Vec<u64>, bound: u64) -> (ok: bool)
    ensures
        ok == all_below_bound(list@, bound),
{
    let mut i: usize = 0;
    while i < list.len()
        invariant
            i <= list.len(),
            forall|a: int| 0 <= a < i ==> #[trigger] list@[a] < bound,
        decreases list.len() - i,
    {
        if list[i] >= bound {
            return false;
        }
        i = i + 1;
    }
    true
}

/// Whether no two votes of the list are of the same voter in the same
/// election.
pub fn votes_all_differ(votes: &Vec<Vote>) -> (ok: bool)
    ensures
        ok == votes_differ(votes@),
{
    let mut i: usize = 0;
    while i < votes.len()
        invariant
            i <= votes.len(),
            forall|a: int, b: int|
                0 <= a < i && a < b < votes@.len() ==> !((#[trigger] votes@[a]).voter_id
                    == (#[trigger] votes@[b]).voter_id && votes@[a].election_id
                    == votes@[b].election_id),
        decreases votes.len() - i,
    {
        let mut j: usize = i + 1;
        while j < votes.len()
            invariant
                i < j <= votes.len(),
                forall|b: int|
                    i < b < j ==> !(votes@[i as int].voter_id == (#[trigger] votes@[b]).voter_id
                        && votes@[i as int].election_id == votes@[b].election_id),
            decreases votes.len() - j,
        {
            if votes[i].voter_id == votes[j].voter_id && votes[i].election_id
                == votes[j].election_id {
                return false;
            }
            j = j + 1;
        }
        i = i + 1;
    }
    true
}

/// Whether the vote is in an election of the list and of a voter of the list
/// who is registered for that election.
pub fn vote_is_backed(vote: &Vote, elections: &Vec<Election>, voters: &Vec<Voter>) -> (ok: bool)
    ensures
        ok == vote_backed(*vote, elections@, voters@),
{
    let mut found = false;
    let mut i: usize = 0;
    while i < elections.len() && !found
        invariant
            i <= elections.len(),
            found ==> exists|j: int|
                0 <= j < elections@.len() && (#[trigger] elections@[j]).id == vote.election_id,
            !found ==> forall|j: int|
                0 <= j < i ==> (#[trigger] elections@[j]).id != vote.election_id,
        decreases elections.len() - i, if found { 0int } else { 1int },
    {
        if elections[i].id == vote.election_id {
            found = true;
        } else {
            i = i + 1;
        }
    }
    if !found {
        return false;
    }
    let mut j: usize = 0;
    while j < voters.len()
        invariant
            j <= voters.len(),
            exists|e: int|
                0 <= e < elections@.len() && (#[trigger] elections@[e]).id == vote.election_id,
            forall|k: int|
                0 <= k < j ==> !((#[trigger] voters@[k]).id == vote.voter_id
                    && voters@[k].registered_elections@.contains(vote.election_id)),
        decreases voters.len() - j,
    {
        if voters[j].id == vote.voter_id && contains_id(
            &voters[j].registered_elections,
            vote.election_id,
        ) {
            proof {
                assert(voters@[j as int].id == vote.voter_id);
            }
            return true;
        }
        j = j + 1;
    }
    false
}

/// Whether every vote of the list is in an election of the list and of a
/// voter of the list who is registered for that election.
pub fn votes_all_backed(votes: &Vec<Vote>, elections: &Vec<Election>, voters: &Vec<Voter>) -> (ok:
    bool)
    ensures
        ok == votes_backed_by(votes@, elections@, voters@),
{
    let mut i: usize = 0;
    while i < votes.len()
        invariant
            i <= votes.len(),
            forall|a: int| 0 <= a < i ==> vote_backed(#[trigger] votes@[a], elections@, voters@),
        decreases votes.len() - i,
    {
        if !vote_is_backed(&votes[i], elections, voters) {
            return false;
        }
        i = i + 1;
    }
    true
}

/// Whether every election of the list ends after it starts.
pub fn windows_all_grow(elections: &Vec<Election>) -> (ok: bool)
    ensures
        ok == windows_grow(elections@),
{
    let mut i: usize = 0;
    while i < elections.len()
        invariant
            i <= elections.len(),
            forall|a: int|
                0 <= a < i ==> (#[trigger] elections@[a]).start_time < elections@[a].end_time,
        decreases elections.len() - i,
    {
        if elections[i].start_time >= elections[i].end_time {
            return false;
        }
        i = i + 1;
    }
    true
}

/// Whether no voter of the list is registered twice for one election.
pub fn registrations_all_differ(voters: &Vec<Voter>) -> (ok: bool)
    ensures
        ok == registrations_differ(voters@),
{
    let mut i: usize = 0;
    while i < voters.len()
        invariant
            i <= voters.len(),
            forall|a: int|
                0 <= a < i ==> (#[trigger] voters@[a]).registered_elections@.no_duplicates(),
        decreases voters.len() - i,
    {
        if !has_no_duplicates(&voters[i].registered_elections) {
            return false;
        }
        i = i + 1;
    }
    true
}

/// Adds the identifiers of a list of records at the end of `ids`.
pub fn push_ids<R: Record>(ids: &mut Vec<u64>, list: &Vec<R>)
    ensures
        final(ids)@ == old(ids)@ + ids_of(list@),
{
    let ghost start = ids@;
    let mut i: usize = 0;
    while i < list.len()
        invariant
            i <= list.len(),
            ids@ == start + ids_of(list@).take(i as int),
        decreases list.len() - i,
    {
        ids.push(list[i].id());
        proof {
            assert(ids@ =~= start + ids_of(list@).take(i as int + 1));
        }
        i = i + 1;
    }
    proof {
        assert(ids_of(list@).take(i as int) =~= ids_of(list@));
    }
}

/// The identifiers of all records in one list.
pub fn collect_ids(
    votes: &Vec<Vote>,
    elections: &Vec<Election>,
    voters: &Vec<Voter>,
    ballots: &Vec<Ballot>,
    users: &Vec<User>,
) -> (ids: Vec<u64>)
    ensures
        ids@ == all_ids(votes@, elections@, voters@, ballots@, users@),
{
    let mut ids: Vec<u64> = Vec::new();
    push_ids(&mut ids, votes);
    push_ids(&mut ids, elections);
    push_ids(&mut ids, voters);
    push_ids(&mut ids, ballots);
    push_ids(&mut ids, users);
    proof {
        assert(ids@ =~= all_ids(votes@, elections@, voters@, ballots@, users@));
    }
    ids
}

/// What a listing tells of the records it lists: they are finitely many, each
/// is kept under its own identifier, and their identifiers are those of the
/// list.
pub proof fn lemma_listed<R: Record>(records: Map<u64, R::V>, list: Seq<R>)
    requires
        lists::<R>(records, list),
    ensures
        records.dom().finite(),
        records.dom() == ids_of(list).to_set(),
        forall|k: u64| #[trigger] records.dom().contains(k) ==> R::key(records[k]) == k,
{
    assert forall|k: u64| records.dom().contains(k) <==> ids_of(list).contains(k) by {
        if records.dom().contains(k) {
            let i = choose|i: int| 0 <= i < list.len() && R::key((#[trigger] list[i])@) == k;
            assert(ids_of(list)[i] == k);
        }
        if ids_of(list).contains(k) {
            let i = choose|i: int| 0 <= i < ids_of(list).len() && ids_of(list)[i] == k;
            assert(records.dom().contains(R::key(list[i]@)));
        }
    }
    assert(records.dom() =~= ids_of(list).to_set());
    seq_to_set_is_finite(ids_of(list));
    assert forall|k: u64| #[trigger] records.dom().contains(k) implies R::key(records[k])
        == k by {
        let i = choose|i: int| 0 <= i < list.len() && R::key((#[trigger] list[i])@) == k;
        assert(records[R::key(list[i]@)] == list[i]@);
    }
}

/// Whether the records keep the rules of a store whose counter stands at
/// `next_id`.
pub fn records_are_sound(
    next_id: u64,
    votes: &Vec<Vote>,
    elections: &Vec<Election>,
    voters: &Vec<Voter>,
    ballots: &Vec<Ballot>,
    users: &Vec<User>,
) -> (ok: bool)
    ensures
        ok == records_sound(next_id, votes@, elections@, voters@, ballots@, users@),
{
    let ids = collect_ids(votes, elections, voters, ballots, users);
    has_no_duplicates(&ids) && all_below(&ids, next_id) && votes_all_differ(votes)
        && votes_all_backed(votes, elections, voters) && windows_all_grow(elections)
        && registrations_all_differ(voters)
}

/// Records that keep the rules make a valid store: where each table of a
/// store is listed by one of the lists, and the lists keep the rules under
/// the store's counter, the store is valid.
pub proof fn lemma_sound_records_valid(
    view: StoreView,
    votes: Seq<Vote>,
    elections: Seq<Election>,
    voters: Seq<Voter>,
    ballots: Seq<Ballot>,
    users: Seq<User>,
)
    requires
        lists_votes(view.votes, votes),
        lists_elections(view.elections, elections),
        lists_voters(view.voters, voters),
        lists_ballots(view.ballots, ballots),
        lists_users(view.users, users),
        records_sound(view.next_id, votes, elections, voters, ballots, users),
    ensures
        view.valid(),
{
    let ids = all_ids(votes, elections, voters, ballots, users);
    let from_elections = votes.len() as int;
    let from_voters = from_elections + elections.len();
    let from_ballots = from_voters + voters.len();
    let from_users = from_ballots + ballots.len();
    assert(ids.len() == from_users + users.len());
    assert forall|i: int| 0 <= i < votes.len() implies ids[i] == (#[trigger] votes[i]).id by {}
    assert forall|i: int| 0 <= i < elections.len() implies ids[from_elections + i] == (
    #[trigger] elections[i]).id by {}
    assert forall|i: int| 0 <= i < voters.len() implies ids[from_voters + i] == (#[trigger] voters[i]).id by {}
    assert forall|i: int| 0 <= i < ballots.len() implies ids[from_ballots + i] == (
    #[trigger] ballots[i]).id by {}
    assert forall|i: int| 0 <= i < users.len() implies ids[from_users + i] == (#[trigger] users[i]).id by {}

    lemma_listed::<Vote>(view.votes, votes);
    lemma_listed::<Election>(view.elections, elections);
    lemma_listed::<Voter>(view.voters, voters);
    lemma_listed::<Ballot>(view.ballots, ballots);
    lemma_listed::<User>(view.users, users);
    assert(view.keyed_by_id());

    assert forall|id: u64| #[trigger] view.kinds_holding(id) > 0 implies id < view.next_id by {
        if view.votes.dom().contains(id) {
            let i = choose|i: int| 0 <= i < votes.len() && #[trigger] votes[i].id == id;
            assert(ids[i] < view.next_id);
        } else if view.elections.dom().contains(id) {
            let i = choose|i: int| 0 <= i < elections.len() && #[trigger] elections[i].id == id;
            assert(ids[from_elections + i] < view.next_id);
        } else if view.voters.dom().contains(id) {
            let i = choose|i: int| 0 <= i < voters.len() && #[trigger] voters[i].id == id;
            assert(ids[from_voters + i] < view.next_id);
        } else if view.ballots.dom().contains(id) {
            let i = choose|i: int| 0 <= i < ballots.len() && #[trigger] ballots[i].id == id;
            assert(ids[from_ballots + i] < view.next_id);
        } else {
            let i = choose|i: int| 0 <= i < users.len() && #[trigger] users[i].id == id;
            assert(ids[from_users + i] < view.next_id);
        }
    }

    assert forall|id: u64| #[trigger] view.kinds_holding(id) <= 1 by {
        let in_votes = if view.votes.dom().contains(id) {
            choose|i: int| 0 <= i < votes.len() && #[trigger] votes[i].id == id
        } else {
            -1
        };
        let in_elections = if view.elections.dom().contains(id) {
            from_elections + choose|i: int| 0 <= i < elections.len() && #[trigger] elections[i].id == id
        } else {
            -1
        };
        let in_voters = if view.voters.dom().contains(id) {
            from_voters + choose|i: int| 0 <= i < voters.len() && #[trigger] voters[i].id == id
        } else {
            -1
        };
        let in_ballots = if view.ballots.dom().contains(id) {
            from_ballots + choose|i: int| 0 <= i < ballots.len() && #[trigger] ballots[i].id == id
        } else {
            -1
        };
        let in_users = if view.users.dom().contains(id) {
            from_users + choose|i: int| 0 <= i < users.len() && #[trigger] users[i].id == id
        } else {
            -1
        };
        if in_votes >= 0 {
            assert(ids[in_votes] == id);
        }
        if in_elections >= 0 {
            assert(ids[in_elections] == id);
        }
        if in_voters >= 0 {
            assert(ids[in_voters] == id);
        }
        if in_ballots >= 0 {
            assert(ids[in_ballots] == id);
        }
        if in_users >= 0 {
            assert(ids[in_users] == id);
        }
    }

    assert forall|a: u64, b: u64|
        #![trigger view.votes.dom().contains(a), view.votes.dom().contains(b)]
        view.votes.dom().contains(a) && view.votes.dom().contains(b) && view.votes[a].voter_id
            == view.votes[b].voter_id && view.votes[a].election_id
            == view.votes[b].election_id implies a == b by {
        let i = choose|i: int| 0 <= i < votes.len() && #[trigger] votes[i].id == a;
        let j = choose|j: int| 0 <= j < votes.len() && #[trigger] votes[j].id == b;
        assert(view.votes[votes[i].id] == votes[i]@);
        assert(view.votes[votes[j].id] == votes[j]@);
        if i < j {
            assert(!(votes[i].voter_id == votes[j].voter_id && votes[i].election_id
                == votes[j].election_id));
        } else if j < i {
            assert(!(votes[j].voter_id == votes[i].voter_id && votes[j].election_id
                == votes[i].election_id));
        }
    }

    assert forall|k: u64| #[trigger] view.votes.dom().contains(k) implies {
        &&& view.elections.dom().contains(view.votes[k].election_id)
        &&& view.voters.dom().contains(view.votes[k].voter_id)
        &&& view.voters[view.votes[k].voter_id].registered_elections.contains(
            view.votes[k].election_id,
        )
    } by {
        let i = choose|i: int| 0 <= i < votes.len() && #[trigger] votes[i].id == k;
        assert(view.votes[votes[i].id] == votes[i]@);
        assert(vote_backed(votes[i], elections, voters));
        let e = choose|j: int|
            0 <= j < elections.len() && (#[trigger] elections[j]).id == votes[i].election_id;
        assert(view.elections.dom().contains(elections[e].id));
        let v = choose|j: int|
            0 <= j < voters.len() && (#[trigger] voters[j]).id == votes[i].voter_id
                && voters[j].registered_elections@.contains(votes[i].election_id);
        assert(view.voters.dom().contains(voters[v].id) && view.voters[voters[v].id] == voters[v]@);
    }

    assert forall|k: u64| #[trigger]
        view.elections.dom().contains(k) implies view.elections[k].start_time
        < view.elections[k].end_time by {
        let i = choose|i: int| 0 <= i < elections.len() && #[trigger] elections[i].id == k;
        assert(view.elections[elections[i].id] == elections[i]@);
    }

    assert forall|k: u64| #[trigger]
        view.voters.dom().contains(k) implies view.voters[k].registered_elections.no_duplicates() by {
        let i = choose|i: int| 0 <= i < voters.len() && #[trigger] voters[i].id == k;
        assert(view.voters[voters[i].id] == voters[i]@);
    }
}

/// The records of a valid store keep the rules: where each table of a valid
/// store is listed by one of the lists, the lists keep the rules under the
/// store's counter.
pub proof fn lemma_valid_records_sound(
    view: StoreView,
    votes: Seq<Vote>,
    elections: Seq<Election>,
    voters: Seq<Voter>,
    ballots: Seq<Ballot>,
    users: Seq<User>,
)
    requires
        lists_votes(view.votes, votes),
        lists_elections(view.elections, elections),
        lists_voters(view.voters, voters),
        lists_ballots(view.ballots, ballots),
        lists_users(view.users, users),
        view.valid(),
    ensures
        records_sound(view.next_id, votes, elections, voters, ballots, users),
{
    let ids = all_ids(votes, elections, voters, ballots, users);
    let from_elections = votes.len() as int;
    let from_voters = from_elections + elections.len();
    let from_ballots = from_voters + voters.len();
    let from_users = from_ballots + ballots.len();
    assert(ids.len() == from_users + users.len());

    // 0 for a vote, 1 for an election, 2 for a voter, 3 for a ballot, 4 for a user
    let kind = |p: int|
        if p < from_elections {
            0int
        } else if p < from_voters {
            1int
        } else if p < from_ballots {
            2int
        } else if p < from_users {
            3int
        } else {
            4int
        };
    assert forall|p: int| 0 <= p < ids.len() implies {
        &&& kind(p) == 0 ==> ids[p] == votes[p].id && view.votes.dom().contains(ids[p])
        &&& kind(p) == 1 ==> ids[p] == elections[p - from_elections].id
            && view.elections.dom().contains(ids[p])
        &&& kind(p) == 2 ==> ids[p] == voters[p - from_voters].id && view.voters.dom().contains(
            ids[p],
        )
        &&& kind(p) == 3 ==> ids[p] == ballots[p - from_ballots].id
            && view.ballots.dom().contains(ids[p])
        &&& kind(p) == 4 ==> ids[p] == users[p - from_users].id && view.users.dom().contains(
            ids[p],
        )
        &&& view.kinds_holding(#[trigger] ids[p]) > 0
    } by {
        if kind(p) == 0 {
            assert(view.votes.dom().contains(votes[p].id));
        } else if kind(p) == 1 {
            assert(view.elections.dom().contains(elections[p - from_elections].id));
        } else if kind(p) == 2 {
            assert(view.voters.dom().contains(voters[p - from_voters].id));
        } else if kind(p) == 3 {
            assert(view.ballots.dom().contains(ballots[p - from_ballots].id));
        } else {
            assert(view.users.dom().contains(users[p - from_users].id));
        }
    }

    assert forall|p: int, q: int|
        0 <= p < ids.len() && 0 <= q < ids.len() && p != q implies ids[p] != ids[q] by {
        let a = if p < q {
            p
        } else {
            q
        };
        let b = if p < q {
            q
        } else {
            p
        };
        assert(view.kinds_holding(ids[a]) > 0 && view.kinds_holding(ids[b]) > 0);
        assert(view.kinds_holding(ids[a]) <= 1);
        if kind(a) == kind(b) {
            if kind(a) == 0 {
                assert(votes[a].id < votes[b].id);
            } else if kind(a) == 1 {
                assert(elections[a - from_elections].id < elections[b - from_elections].id);
            } else if kind(a) == 2 {
                assert(voters[a - from_voters].id < voters[b - from_voters].id);
            } else if kind(a) == 3 {
                assert(ballots[a - from_ballots].id < ballots[b - from_ballots].id);
            } else {
                assert(users[a - from_users].id < users[b - from_users].id);
            }
        }
    }

    assert forall|p: int| 0 <= p < ids.len() implies #[trigger] ids[p] < view.next_id by {
        assert(view.kinds_holding(ids[p]) > 0);
    }

    assert forall|i: int, j: int| 0 <= i < j < votes.len() implies !((#[trigger] votes[i]).voter_id
        == (#[trigger] votes[j]).voter_id && votes[i].election_id == votes[j].election_id) by {
        assert(view.votes.dom().contains(votes[i].id) && view.votes[votes[i].id] == votes[i]@);
        assert(view.votes.dom().contains(votes[j].id) && view.votes[votes[j].id] == votes[j]@);
        assert(votes[i].id < votes[j].id);
    }

    assert forall|i: int| 0 <= i < votes.len() implies vote_backed(
        #[trigger] votes[i],
        elections,
        voters,
    ) by {
        assert(view.votes.dom().contains(votes[i].id) && view.votes[votes[i].id] == votes[i]@);
        let e = choose|j: int|
            0 <= j < elections.len() && #[trigger] elections[j].id == votes[i].election_id;
        assert(elections[e].id == votes[i].election_id);
        let v = choose|j: int| 0 <= j < voters.len() && #[trigger] voters[j].id == votes[i].voter_id;
        assert(view.voters.dom().contains(voters[v].id) && view.voters[voters[v].id] == voters[v]@);
        assert(voters[v].registered_elections@.contains(votes[i].election_id));
    }

    assert forall|i: int| 0 <= i < elections.len() implies (#[trigger] elections[i]).start_time
        < elections[i].end_time by {
        assert(view.elections.dom().contains(elections[i].id) && view.elections[elections[i].id]
            == elections[i]@);
    }

    assert forall|i: int| 0 <= i < voters.len() implies (
    #[trigger] voters[i]).registered_elections@.no_duplicates() by {
        assert(view.voters.dom().contains(voters[i].id) && view.voters[voters[i].id]
            == voters[i]@);
    }
}

} // verus!
