//! Results: the votes of an election counted for each candidate, given out
//! only once the election has closed.
//!
//! A tally names each candidate who has at least one vote, once, with the
//! number of votes. A candidate whom nobody voted for is not in the tally,
//! whether or not the election lists them.

use vstd::prelude::*;
use crate::records::{Error, Vote, VoteView};
use crate::row::text_views;
use crate::store::{lists_votes, Store, StoreView};

verus! {

/// The identifiers of the votes for a candidate in an election.
pub open spec fn votes_for(votes: Map<u64, VoteView>, election_id: u64, candidate: Seq<char>) -> Set<
    u64,
> {
    Set::new(
        |id: u64|
            votes.dom().contains(id) && votes[id].election_id == election_id && votes[id].candidate
                == candidate,
    )
}

/// The number of votes for a candidate in an election.
pub open spec fn vote_count(votes: Map<u64, VoteView>, election_id: u64, candidate: Seq<char>) -> nat {
    votes_for(votes, election_id, candidate).len()
}

/// Whether `tally` is the tally of the election over the recorded votes:
/// each entry gives a candidate's number of votes, which is not zero; no
/// candidate has two entries; every candidate with a vote has an entry.
pub open spec fn is_tally(votes: Map<u64, VoteView>, election_id: u64, tally: Seq<(String, u64)>) -> bool {
    &&& forall|i: int|
        0 <= i < tally.len() ==> (#[trigger] tally[i]).1 > 0 && tally[i].1 == vote_count(
            votes,
            election_id,
            tally[i].0@,
        )
    &&& forall|i: int, j: int|
        0 <= i < j < tally.len() ==> (#[trigger] tally[i]).0@ != (#[trigger] tally[j]).0@
    &&& forall|c: Seq<char>| #[trigger]
        vote_count(votes, election_id, c) > 0 ==> exists|i: int|
            0 <= i < tally.len() && (#[trigger] tally[i]).0@ == c
}

/// Whether a vote is for the candidate in the election.
pub open spec fn counts_for(vote: Vote, election_id: u64, candidate: Seq<char>) -> bool {
    vote.election_id == election_id && vote.candidate@ == candidate
}

/// The number of votes in a list that are for a candidate in an election.
pub open spec fn count_in(list: Seq<Vote>, election_id: u64, candidate: Seq<char>) -> nat
    decreases list.len(),
{
    if list.len() == 0 {
        0
    } else {
        count_in(list.drop_last(), election_id, candidate) + if counts_for(
            list.last(),
            election_id,
            candidate,
        ) {
            1nat
        } else {
            0nat
        }
    }
}

/// Whether `tally` is the tally of the election over a list of votes.
pub open spec fn is_tally_of_list(list: Seq<Vote>, election_id: u64, tally: Seq<(String, u64)>) -> bool {
    &&& forall|i: int|
        0 <= i < tally.len() ==> (#[trigger] tally[i]).1 > 0 && tally[i].1 == count_in(
            list,
            election_id,
            tally[i].0@,
        )
    &&& forall|i: int, j: int|
        0 <= i < j < tally.len() ==> (#[trigger] tally[i]).0@ != (#[trigger] tally[j]).0@
    &&& forall|c: Seq<char>| #[trigger]
        count_in(list, election_id, c) > 0 ==> exists|i: int|
            0 <= i < tally.len() && (#[trigger] tally[i]).0@ == c
}

/// The candidates with a vote for an election in a list, each once, in the
/// order in which the list first has a vote for them.
pub open spec fn candidates_in_order(list: Seq<Vote>, election_id: u64) -> Seq<Seq<char>>
    decreases list.len(),
{
    if list.len() == 0 {
        Seq::empty()
    } else {
        let earlier = candidates_in_order(list.drop_last(), election_id);
        if list.last().election_id == election_id && !earlier.contains(list.last().candidate@) {
            earlier.push(list.last().candidate@)
        } else {
            earlier
        }
    }
}

/// The candidates of a tally, in its order.
pub open spec fn tally_names(tally: Seq<(String, u64)>) -> Seq<Seq<char>> {
    Seq::new(tally.len(), |i: int| tally[i].0@)
}

/// A list holds no more votes for a candidate than it holds votes.
pub proof fn lemma_count_in_bound(list: Seq<Vote>, election_id: u64, candidate: Seq<char>)
    ensures
        count_in(list, election_id, candidate) <= list.len(),
    decreases list.len(),
{
    if list.len() > 0 {
        lemma_count_in_bound(list.drop_last(), election_id, candidate);
    }
}

/// The identifiers of the votes for a candidate among the first `n` of a
/// list.
pub open spec fn matched_ids(list: Seq<Vote>, n: int, election_id: u64, candidate: Seq<char>) -> Set<
    u64,
> {
    Set::new(
        |id: u64|
            exists|i: int|
                0 <= i < n && (#[trigger] list[i]).id == id && counts_for(
                    list[i],
                    election_id,
                    candidate,
                ),
    )
}

/// Among the first `n` votes of a list with ascending identifiers, the votes
/// for a candidate are as many as their identifiers.
proof fn lemma_prefix_count(list: Seq<Vote>, n: int, election_id: u64, candidate: Seq<char>)
    requires
        0 <= n <= list.len(),
        forall|i: int, j: int| 0 <= i < j < list.len() ==> list[i].id < list[j].id,
    ensures
        matched_ids(list, n, election_id, candidate).finite(),
        matched_ids(list, n, election_id, candidate).len() == count_in(
            list.take(n),
            election_id,
            candidate,
        ),
    decreases n,
{
    let here = matched_ids(list, n, election_id, candidate);
    if n == 0 {
        assert(here =~= Set::<u64>::empty());
    } else {
        let before = matched_ids(list, n - 1, election_id, candidate);
        lemma_prefix_count(list, n - 1, election_id, candidate);
        assert(list.take(n).drop_last() =~= list.take(n - 1));
        assert(list.take(n).last() == list[n - 1]);
        if counts_for(list[n - 1], election_id, candidate) {
            assert(!before.contains(list[n - 1].id));
            assert forall|id: u64| here.contains(id) <==> before.insert(list[n - 1].id).contains(
                id,
            ) by {
                if here.contains(id) {
                    let i = choose|i: int|
                        0 <= i < n && (#[trigger] list[i]).id == id && counts_for(
                            list[i],
                            election_id,
                            candidate,
                        );
                    if i < n - 1 {
                        assert(before.contains(id));
                    }
                }
                if before.contains(id) {
                    let i = choose|i: int|
                        0 <= i < n - 1 && (#[trigger] list[i]).id == id && counts_for(
                            list[i],
                            election_id,
                            candidate,
                        );
                    assert(0 <= i < n && list[i].id == id);
                }
                if id == list[n - 1].id {
                    assert(0 <= n - 1 < n && list[n - 1].id == id);
                }
            }
            assert(here =~= before.insert(list[n - 1].id));
        } else {
            assert forall|id: u64| here.contains(id) <==> before.contains(id) by {
                if here.contains(id) {
                    let i = choose|i: int|
                        0 <= i < n && (#[trigger] list[i]).id == id && counts_for(
                            list[i],
                            election_id,
                            candidate,
                        );
                    assert(i < n - 1);
                }
                if before.contains(id) {
                    let i = choose|i: int|
                        0 <= i < n - 1 && (#[trigger] list[i]).id == id && counts_for(
                            list[i],
                            election_id,
                            candidate,
                        );
                    assert(0 <= i < n && list[i].id == id);
                }
            }
            assert(here =~= before);
        }
    }
}

/// A list of all recorded votes holds as many votes for a candidate as are
/// recorded for them.
pub proof fn lemma_count_of_listing(
    votes: Map<u64, VoteView>,
    list: Seq<Vote>,
    election_id: u64,
    candidate: Seq<char>,
)
    requires
        lists_votes(votes, list),
    ensures
        count_in(list, election_id, candidate) == vote_count(votes, election_id, candidate),
{
    let n = list.len() as int;
    lemma_prefix_count(list, n, election_id, candidate);
    assert(list.take(n) =~= list);
    let matched = matched_ids(list, n, election_id, candidate);
    let wanted = votes_for(votes, election_id, candidate);
    assert forall|id: u64| matched.contains(id) <==> wanted.contains(id) by {
        if matched.contains(id) {
            let i = choose|i: int|
                0 <= i < n && (#[trigger] list[i]).id == id && counts_for(
                    list[i],
                    election_id,
                    candidate,
                );
            assert(votes.dom().contains(list[i].id));
        }
        if wanted.contains(id) {
            let i = choose|i: int| 0 <= i < list.len() && #[trigger] list[i].id == id;
            assert(votes[list[i].id] == list[i]@);
            assert(counts_for(list[i], election_id, candidate));
        }
    }
    assert(matched =~= wanted);
}

/// The place of a name in a list of names.
fn find_name(names: &Vec<String>, name: &String) -> (r: Option<usize>)
    ensures
        match r {
            Some(j) => j < names@.len() && names@[j as int]@ == name@,
            None => forall|j: int| 0 <= j < names@.len() ==> (#[trigger] names@[j])@ != name@,
        },
{
    let mut j: usize = 0;
    while j < names.len()
        invariant
            j <= names.len(),
            forall|k: int| 0 <= k < j ==> (#[trigger] names@[k])@ != name@,
        decreases names.len() - j,
    {
        if names[j] == *name {
            return Some(j);
        }
        j = j + 1;
    }
    None
}

/// Counts the votes of a list for each candidate of one election. The
/// candidates come in the order in which the list first has a vote for them.
pub fn tabulate(votes: &Vec<Vote>, election_id: u64) -> (tally: Vec<(String, u64)>)
    ensures
        is_tally_of_list(votes@, election_id, tally@),
        tally_names(tally@) == candidates_in_order(votes@, election_id),
{
    let mut names: Vec<String> = Vec::new();
    let mut counts: Vec<u64> = Vec::new();
    let mut i: usize = 0;
    while i < votes.len()
        invariant
            i <= votes.len(),
            names@.len() == counts@.len(),
            forall|j: int|
                0 <= j < names@.len() ==> (#[trigger] counts@[j]) > 0 && counts@[j] == count_in(
                    votes@.take(i as int),
                    election_id,
                    names@[j]@,
                ),
            forall|j: int, k: int|
                0 <= j < k < names@.len() ==> (#[trigger] names@[j])@ != (#[trigger] names@[k])@,
            forall|c: Seq<char>| #[trigger]
                count_in(votes@.take(i as int), election_id, c) > 0 ==> exists|j: int|
                    0 <= j < names@.len() && (#[trigger] names@[j])@ == c,
            text_views(names@) == candidates_in_order(votes@.take(i as int), election_id),
        decreases votes.len() - i,
    {
        let ghost before = votes@.take(i as int);
        let ghost after = votes@.take(i as int + 1);
        let ghost old_names = names@;
        let ghost old_counts = counts@;
        proof {
            assert(after.drop_last() =~= before);
            assert(after.last() == votes@[i as int]);
        }
        if votes[i].election_id == election_id {
            match find_name(&names, &votes[i].candidate) {
                Some(j) => {
                    proof {
                        lemma_count_in_bound(before, election_id, names@[j as int]@);
                        assert(text_views(names@)[j as int] == votes@[i as int].candidate@);
                    }
                    let more = counts[j] + 1;
                    counts.set(j, more);
                },
                None => {
                    proof {
                        if count_in(before, election_id, votes@[i as int].candidate@) > 0 {
                            let j = choose|j: int|
                                0 <= j < names@.len() && (#[trigger] names@[j])@
                                    == votes@[i as int].candidate@;
                            assert(false);
                        }
                        if text_views(names@).contains(votes@[i as int].candidate@) {
                            let j = choose|j: int|
                                0 <= j < text_views(names@).len() && text_views(names@)[j]
                                    == votes@[i as int].candidate@;
                            assert(names@[j]@ == votes@[i as int].candidate@);
                        }
                    }
                    names.push(votes[i].candidate.clone());
                    counts.push(1);
                    proof {
                        assert(text_views(names@) =~= text_views(old_names).push(
                            votes@[i as int].candidate@,
                        ));
                    }
                },
            }
        }
        proof {
            assert forall|c: Seq<char>| #[trigger]
                count_in(after, election_id, c) > 0 implies exists|j: int|
                0 <= j < names@.len() && (#[trigger] names@[j])@ == c by {
                if count_in(before, election_id, c) > 0 {
                    let j = choose|j: int|
                        0 <= j < old_names.len() && (#[trigger] old_names[j])@ == c;
                    assert(names@[j]@ == c);
                } else {
                    assert(counts_for(votes@[i as int], election_id, c));
                    if old_names.len() == names@.len() {
                    } else {
                        assert(names@[names@.len() - 1]@ == c);
                    }
                }
            }
        }
        i = i + 1;
    }
    proof {
        assert(votes@.take(i as int) =~= votes@);
    }
    let mut tally: Vec<(String, u64)> = Vec::new();
    let mut j: usize = 0;
    while j < names.len()
        invariant
            j <= names.len(),
            names@.len() == counts@.len(),
            tally@.len() == j,
            forall|k: int|
                0 <= k < j ==> (#[trigger] tally@[k]).0@ == names@[k]@ && tally@[k].1 == counts@[k],
        decreases names.len() - j,
    {
        tally.push((names[j].clone(), counts[j]));
        j = j + 1;
    }
    proof {
        assert forall|c: Seq<char>| #[trigger]
            count_in(votes@, election_id, c) > 0 implies exists|k: int|
            0 <= k < tally@.len() && (#[trigger] tally@[k]).0@ == c by {
            let k = choose|k: int| 0 <= k < names@.len() && (#[trigger] names@[k])@ == c;
            assert(tally@[k].0@ == c);
        }
        assert(tally_names(tally@) =~= text_views(names@));
    }
    tally
}

/// What asking for the results of an election at time `now` returns:
/// `NotFound` where there is no such election, `ElectionOngoing` until the
/// election's end has passed, and from then on the tally. No tally is given
/// out while votes may still come in.
pub open spec fn results_outcome(
    store: StoreView,
    election_id: u64,
    now: u64,
    r: Result<Vec<(String, u64)>, Error>,
) -> bool {
    match r {
        Ok(tally) => {
            &&& store.elections.dom().contains(election_id)
            &&& now > store.elections[election_id].end_time
            &&& is_tally(store.votes, election_id, tally@)
        },
        Err(Error::NotFound) => !store.elections.dom().contains(election_id),
        Err(Error::ElectionOngoing) => {
            &&& store.elections.dom().contains(election_id)
            &&& now <= store.elections[election_id].end_time
        },
        Err(_) => false,
    }
}

/// The tally of an election over the recorded votes.
fn count_recorded_votes(store: &Store, election_id: u64) -> (tally: Vec<(String, u64)>)
    requires
        store.wf(),
    ensures
        is_tally(store@.votes, election_id, tally@),
{
    let votes = store.all_votes();
    let tally = tabulate(&votes, election_id);
    proof {
        assert forall|c: Seq<char>|
            #![trigger count_in(votes@, election_id, c)]
            #![trigger vote_count(store@.votes, election_id, c)]
            count_in(votes@, election_id, c) == vote_count(store@.votes, election_id, c) by {
            lemma_count_of_listing(store@.votes, votes@, election_id, c);
        }
    }
    tally
}

/// Counts the votes of an election at time `now`: see [`results_outcome`].
/// The order of the tally's entries is not part of what is promised.
pub fn calculate_election_results(store: &Store, election_id: u64, now: u64) -> (r: Result<
    Vec<(String, u64)>,
    Error,
>)
    requires
        store.wf(),
    ensures
        results_outcome(store@, election_id, now, r),
        store@.elections.dom().contains(election_id) && now
            <= store@.elections[election_id].end_time ==> r == Err::<Vec<(String, u64)>, Error>(
            Error::ElectionOngoing,
        ),
        store@.elections.dom().contains(election_id) && now > store@.elections[election_id].end_time
            ==> r is Ok,
{
    match store.lookup_election(election_id) {
        Some(election) => {
            if now > election.end_time {
                Ok(count_recorded_votes(store, election_id))
            } else {
                Err(Error::ElectionOngoing)
            }
        },
        None => Err(Error::NotFound),
    }
}

/// The results of an election at time `now`: see [`results_outcome`].
pub fn get_election_results(store: &Store, election_id: u64, now: u64) -> (r: Result<
    Vec<(String, u64)>,
    Error,
>)
    requires
        store.wf(),
    ensures
        results_outcome(store@, election_id, now, r),
        store@.elections.dom().contains(election_id) && now
            <= store@.elections[election_id].end_time ==> r == Err::<Vec<(String, u64)>, Error>(
            Error::ElectionOngoing,
        ),
        store@.elections.dom().contains(election_id) && now > store@.elections[election_id].end_time
            ==> r is Ok,
{
    calculate_election_results(store, election_id, now)
}

} // verus!
