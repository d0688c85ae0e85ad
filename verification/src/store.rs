//! The store: the identifier counter and one table for each kind of record.
//!
//! The store is the only owner of the state. Its view, a [`StoreView`], is
//! what every contract of the library speaks of; [`StoreView::valid`] is what
//! holds of it in every state that the operations can reach.

use vstd::prelude::*;
use crate::records::{
    ballot_row, election_row, user_row, vote_row, voter_row, Ballot, BallotView, Election,
    ElectionView, Record, User, UserView, Vote, VoteView, Voter, VoterView,
};
use crate::row::RowView;
use crate::audit::{lemma_sound_records_valid, lemma_valid_records_sound, records_are_sound};
use crate::stable::{
    counter_create, counter_get, counter_open, counter_set, counter_value, regions_open, Counter,
};
use crate::table::{row_storable, RowTable};

verus! {

/// What a store holds.
pub struct StoreView {
    /// The identifier that is handed out next.
    pub next_id: u64,
    pub votes: Map<u64, VoteView>,
    pub elections: Map<u64, ElectionView>,
    pub voters: Map<u64, VoterView>,
    pub ballots: Map<u64, BallotView>,
    pub users: Map<u64, UserView>,
}

/// No two votes are of the same voter in the same election.
pub open spec fn one_vote_each(votes: Map<u64, VoteView>) -> bool {
    forall|a: u64, b: u64|
        #![trigger votes.dom().contains(a), votes.dom().contains(b)]
        votes.dom().contains(a) && votes.dom().contains(b) && votes[a].voter_id
            == votes[b].voter_id && votes[a].election_id == votes[b].election_id ==> a == b
}

/// Whether some vote of the voter in the election is recorded.
pub open spec fn has_voted(votes: Map<u64, VoteView>, voter_id: u64, election_id: u64) -> bool {
    exists|k: u64|
        #![trigger votes.dom().contains(k)]
        votes.dom().contains(k) && votes[k].voter_id == voter_id && votes[k].election_id
            == election_id
}

impl StoreView {
    /// In how many of the five tables the identifier is a key.
    pub open spec fn kinds_holding(self, id: u64) -> nat {
        (if self.votes.dom().contains(id) {
            1nat
        } else {
            0nat
        }) + (if self.elections.dom().contains(id) {
            1nat
        } else {
            0nat
        }) + (if self.voters.dom().contains(id) {
            1nat
        } else {
            0nat
        }) + (if self.ballots.dom().contains(id) {
            1nat
        } else {
            0nat
        }) + (if self.users.dom().contains(id) {
            1nat
        } else {
            0nat
        })
    }

    /// Every record is stored under its own identifier.
    pub open spec fn keyed_by_id(self) -> bool {
        &&& forall|k: u64| #[trigger] self.votes.dom().contains(k) ==> self.votes[k].id == k
        &&& forall|k: u64| #[trigger]
            self.elections.dom().contains(k) ==> self.elections[k].id == k
        &&& forall|k: u64| #[trigger] self.voters.dom().contains(k) ==> self.voters[k].id == k
        &&& forall|k: u64| #[trigger] self.ballots.dom().contains(k) ==> self.ballots[k].id == k
        &&& forall|k: u64| #[trigger] self.users.dom().contains(k) ==> self.users[k].id == k
    }

    /// Every vote is of a voter and in an election that exist, and the voter
    /// is registered for that election.
    pub open spec fn votes_backed(self) -> bool {
        forall|k: u64| #[trigger]
            self.votes.dom().contains(k) ==> {
                &&& self.elections.dom().contains(self.votes[k].election_id)
                &&& self.voters.dom().contains(self.votes[k].voter_id)
                &&& self.voters[self.votes[k].voter_id].registered_elections.contains(
                    self.votes[k].election_id,
                )
            }
    }

    /// What holds of every store:
    /// each table is finite and keyed by its records' identifiers;
    /// every identifier in use was handed out, and to one record only;
    /// no voter has two votes in one election;
    /// every vote is of a voter who is registered for the vote's election;
    /// every election ends after it starts;
    /// no voter is registered twice for one election.
    pub open spec fn valid(self) -> bool {
        &&& self.votes.dom().finite()
        &&& self.elections.dom().finite()
        &&& self.voters.dom().finite()
        &&& self.ballots.dom().finite()
        &&& self.users.dom().finite()
        &&& self.keyed_by_id()
        &&& forall|id: u64| #[trigger] self.kinds_holding(id) > 0 ==> id < self.next_id
        &&& forall|id: u64| #[trigger] self.kinds_holding(id) <= 1
        &&& one_vote_each(self.votes)
        &&& self.votes_backed()
        &&& forall|k: u64| #[trigger]
            self.elections.dom().contains(k) ==> self.elections[k].start_time
                < self.elections[k].end_time
        &&& forall|k: u64| #[trigger]
            self.voters.dom().contains(k) ==> self.voters[k].registered_elections.no_duplicates()
    }

    /// The same store with the counter moved past one identifier.
    pub open spec fn bumped(self) -> StoreView {
        StoreView { next_id: (self.next_id + 1) as u64, ..self }
    }

    /// Whether the identifier is in no table and below the counter, so that
    /// a new record may take it.
    pub open spec fn vacant(self, id: u64) -> bool {
        self.kinds_holding(id) == 0 && id < self.next_id
    }
}

/// The records of `list` are those of `records`, each once, in ascending
/// order of their identifiers.
pub open spec fn lists<R: Record>(records: Map<u64, R::V>, list: Seq<R>) -> bool {
    &&& forall|i: int|
        0 <= i < list.len() ==> records.dom().contains(R::key((#[trigger] list[i])@))
            && records[R::key(list[i]@)] == list[i]@
    &&& forall|i: int, j: int|
        0 <= i < j < list.len() ==> R::key((#[trigger] list[i])@) < R::key((#[trigger] list[j])@)
    &&& forall|k: u64| #[trigger]
        records.dom().contains(k) ==> exists|i: int|
            0 <= i < list.len() && R::key((#[trigger] list[i])@) == k
}

/// The votes of `list` are those of `votes`, each once, in ascending order
/// of their identifiers.
pub open spec fn lists_votes(votes: Map<u64, VoteView>, list: Seq<Vote>) -> bool {
    lists::<Vote>(votes, list)
}

/// The elections of `list` are those of `elections`, each once, in ascending order
/// of their identifiers.
pub open spec fn lists_elections(elections: Map<u64, ElectionView>, list: Seq<Election>) -> bool {
    lists::<Election>(elections, list)
}

/// The voters of `list` are those of `voters`, each once, in ascending order
/// of their identifiers.
pub open spec fn lists_voters(voters: Map<u64, VoterView>, list: Seq<Voter>) -> bool {
    lists::<Voter>(voters, list)
}

/// The ballots of `list` are those of `ballots`, each once, in ascending order
/// of their identifiers.
pub open spec fn lists_ballots(ballots: Map<u64, BallotView>, list: Seq<Ballot>) -> bool {
    lists::<Ballot>(ballots, list)
}

/// The users of `list` are those of `users`, each once, in ascending order
/// of their identifiers.
pub open spec fn lists_users(users: Map<u64, UserView>, list: Seq<User>) -> bool {
    lists::<User>(users, list)
}

/// The records of one kind that a table of rows holds.
pub open spec fn typed<R: Record>(rows: Map<u64, RowView>) -> Map<u64, R::V> {
    Map::new(|k: u64| rows.dom().contains(k), |k: u64| R::of_row(k, rows[k]).unwrap())
}

/// Whether every row of a table has the shape of one kind of record.
pub open spec fn shaped<R: Record>(rows: Map<u64, RowView>) -> bool {
    forall|k: u64| #[trigger] rows.dom().contains(k) ==> R::of_row(k, rows[k]) is Some
}

/// Whether every row of each table has the shape of the table's kind of
/// record.
pub open spec fn rows_shaped(
    votes: Map<u64, RowView>,
    elections: Map<u64, RowView>,
    voters: Map<u64, RowView>,
    ballots: Map<u64, RowView>,
    users: Map<u64, RowView>,
) -> bool {
    &&& shaped::<Vote>(votes)
    &&& shaped::<Election>(elections)
    &&& shaped::<Voter>(voters)
    &&& shaped::<Ballot>(ballots)
    &&& shaped::<User>(users)
}

/// What a counter that stands at `next_id` and five tables of rows hold as a
/// store.
pub open spec fn store_view(
    next_id: u64,
    votes: Map<u64, RowView>,
    elections: Map<u64, RowView>,
    voters: Map<u64, RowView>,
    ballots: Map<u64, RowView>,
    users: Map<u64, RowView>,
) -> StoreView {
    StoreView {
        next_id,
        votes: typed::<Vote>(votes),
        elections: typed::<Election>(elections),
        voters: typed::<Voter>(voters),
        ballots: typed::<Ballot>(ballots),
        users: typed::<User>(users),
    }
}

/// The record of one kind that a table holds under an identifier, if there
/// is one.
fn find_record<R: Record>(table: &RowTable, id: u64) -> (r: Option<R>)
    requires
        table.wf(),
        shaped::<R>(table@),
    ensures
        match r {
            Some(record) => typed::<R>(table@).dom().contains(id) && typed::<R>(table@)[id]
                == record@,
            None => !typed::<R>(table@).dom().contains(id),
        },
{
    match table.get(id) {
        Some(row) => R::from_row(id, &row),
        None => None,
    }
}

/// The records of one kind that a table holds, in ascending order of their
/// identifiers, or `None` where a row of the table has not the shape of the
/// kind.
fn read_records<R: Record>(table: &RowTable) -> (r: Option<Vec<R>>)
    requires
        table.wf(),
    ensures
        match r {
            Some(list) => shaped::<R>(table@) && lists::<R>(typed::<R>(table@), list@),
            None => !shaped::<R>(table@),
        },
{
    let rows = table.scan();
    let mut out: Vec<R> = Vec::new();
    let mut i: usize = 0;
    while i < rows.len()
        invariant
            i <= rows.len(),
            out@.len() == i,
            forall|j: int|
                0 <= j < rows@.len() ==> table@.dom().contains(#[trigger] rows@[j].0)
                    && table@[rows@[j].0] == rows@[j].1@,
            forall|j: int|
                0 <= j < i ==> R::of_row(rows@[j].0, rows@[j].1@) == Some((#[trigger] out@[j])@),
        decreases rows.len() - i,
    {
        match R::from_row(rows[i].0, &rows[i].1) {
            Some(record) => {
                out.push(record);
            },
            None => {
                proof {
                    assert(table@.dom().contains(rows@[i as int].0));
                }
                return None;
            },
        }
        i = i + 1;
    }
    proof {
        let records = typed::<R>(table@);
        assert forall|k: u64| #[trigger] table@.dom().contains(k) implies R::of_row(
            k,
            table@[k],
        ) is Some by {
            let j = choose|j: int| 0 <= j < rows@.len() && #[trigger] rows@[j].0 == k;
            assert(R::of_row(rows@[j].0, rows@[j].1@) == Some(out@[j]@));
        }
        assert forall|j: int| 0 <= j < out@.len() implies R::key((#[trigger] out@[j])@)
            == rows@[j].0 by {
            assert(R::of_row(rows@[j].0, rows@[j].1@) == Some(out@[j]@));
            R::lemma_keyed(rows@[j].0, rows@[j].1@);
        }
        assert forall|j: int| 0 <= j < out@.len() implies records.dom().contains(
            R::key((#[trigger] out@[j])@),
        ) && records[R::key(out@[j]@)] == out@[j]@ by {
            assert(table@.dom().contains(rows@[j].0));
            assert(R::of_row(rows@[j].0, rows@[j].1@) == Some(out@[j]@));
        }
        assert forall|k: u64| #[trigger] records.dom().contains(k) implies exists|j: int|
            0 <= j < out@.len() && R::key((#[trigger] out@[j])@) == k by {
            let j = choose|j: int| 0 <= j < rows@.len() && #[trigger] rows@[j].0 == k;
            assert(R::key(out@[j]@) == k);
        }
        assert forall|x: int, y: int| 0 <= x < y < out@.len() implies R::key(
            (#[trigger] out@[x])@,
        ) < R::key((#[trigger] out@[y])@) by {
            assert(rows@[x].0 < rows@[y].0);
        }
    }
    Some(out)
}

/// Stores a record of one kind in a table under the record's identifier, in
/// place of the record stored there before. A record whose row is too large
/// is not stored, and `false` is returned.
fn put_record<R: Record>(table: &mut RowTable, record: &R) -> (stored: bool)
    requires
        old(table).wf(),
        shaped::<R>(old(table)@),
    ensures
        final(table).wf(),
        shaped::<R>(final(table)@),
        stored == row_storable(R::row(record@)),
        stored ==> typed::<R>(final(table)@) == typed::<R>(old(table)@).insert(
            R::key(record@),
            record@,
        ),
        !stored ==> final(table)@ == old(table)@,
{
    let row = record.to_row();
    let stored = table.put(record.id(), &row);
    proof {
        if stored {
            R::lemma_read_back(record@);
            assert(typed::<R>(final(table)@) =~= typed::<R>(old(table)@).insert(
                R::key(record@),
                record@,
            ));
        }
    }
    stored
}

/// The records of a list that are marked, in the order of the list. Where the
/// list lists `records` and the marks are those of the records of `wanted`,
/// the result lists `wanted`.
pub(crate) fn select_marked<R: Record>(
    all: &Vec<R>,
    marks: &Vec<bool>,
    Ghost(records): Ghost<Map<u64, R::V>>,
    Ghost(wanted): Ghost<Map<u64, R::V>>,
) -> (out: Vec<R>)
    requires
        lists::<R>(records, all@),
        marks@.len() == all@.len(),
        forall|i: int|
            0 <= i < all@.len() ==> (marks@[i] <==> wanted.dom().contains(
                R::key((#[trigger] all@[i])@),
            )),
        forall|k: u64| #[trigger]
            wanted.dom().contains(k) ==> records.dom().contains(k) && wanted[k] == records[k],
    ensures
        lists::<R>(wanted, out@),
{
    let mut out: Vec<R> = Vec::new();
    let mut i: usize = 0;
    while i < all.len()
        invariant
            i <= all.len(),
            marks@.len() == all@.len(),
            lists::<R>(records, all@),
            forall|i: int|
                0 <= i < all@.len() ==> (marks@[i] <==> wanted.dom().contains(
                    R::key((#[trigger] all@[i])@),
                )),
            forall|k: u64| #[trigger]
                wanted.dom().contains(k) ==> records.dom().contains(k) && wanted[k] == records[k],
            forall|j: int|
                0 <= j < out@.len() ==> wanted.dom().contains(R::key((#[trigger] out@[j])@))
                    && wanted[R::key(out@[j]@)] == out@[j]@,
            forall|j: int, k: int|
                0 <= j < k < out@.len() ==> R::key((#[trigger] out@[j])@) < R::key(
                    (#[trigger] out@[k])@,
                ),
            forall|j: int, a: int|
                0 <= j < out@.len() && i <= a < all@.len() ==> R::key((#[trigger] out@[j])@)
                    < R::key((#[trigger] all@[a])@),
            forall|a: int|
                0 <= a < i && #[trigger] marks@[a] ==> exists|j: int|
                    0 <= j < out@.len() && R::key((#[trigger] out@[j])@) == R::key(all@[a]@),
        decreases all.len() - i,
    {
        if marks[i] {
            let ghost before = out@;
            let copy = all[i].duplicate();
            out.push(copy);
            proof {
                assert(records.dom().contains(R::key(all@[i as int]@)));
                assert forall|a: int| 0 <= a < i + 1 && #[trigger] marks@[a] implies exists|
                    j: int,
                | 0 <= j < out@.len() && R::key((#[trigger] out@[j])@) == R::key(all@[a]@) by {
                    if a < i {
                        let j = choose|j: int|
                            0 <= j < before.len() && R::key((#[trigger] before[j])@) == R::key(
                                all@[a]@,
                            );
                        assert(R::key(out@[j]@) == R::key(all@[a]@));
                    } else {
                        assert(R::key(out@[out@.len() - 1]@) == R::key(all@[a]@));
                    }
                }
            }
        }
        i = i + 1;
    }
    proof {
        assert forall|k: u64| #[trigger] wanted.dom().contains(k) implies exists|j: int|
            0 <= j < out@.len() && R::key((#[trigger] out@[j])@) == k by {
            let a = choose|a: int| 0 <= a < all@.len() && R::key((#[trigger] all@[a])@) == k;
            assert(marks@[a]);
        }
    }
    out
}

/// A record that takes an identifier in use by no other record keeps the
/// identifiers in order: each is still below the counter and still used once.
proof fn lemma_ids_after_insert(before: StoreView, after: StoreView, id: u64)
    requires
        forall|k: u64| #[trigger] before.kinds_holding(k) > 0 ==> k < before.next_id,
        forall|k: u64| #[trigger] before.kinds_holding(k) <= 1,
        after.next_id == before.next_id,
        id < before.next_id,
        after.kinds_holding(id) == 1,
        forall|k: u64| k != id ==> #[trigger] after.kinds_holding(k) == before.kinds_holding(k),
    ensures
        forall|k: u64| #[trigger] after.kinds_holding(k) > 0 ==> k < after.next_id,
        forall|k: u64| #[trigger] after.kinds_holding(k) <= 1,
{
    assert forall|k: u64| #[trigger] after.kinds_holding(k) > 0 implies k < after.next_id by {
        if k != id {
            assert(before.kinds_holding(k) > 0);
        }
    }
    assert forall|k: u64| #[trigger] after.kinds_holding(k) <= 1 by {
        if k != id {
            assert(before.kinds_holding(k) <= 1);
        }
    }
}

/// The state of the system, kept in stable memory.
///
/// A canister has one stable memory, so it keeps one store: a second store
/// made in the same canister would write over the first. Off a canister every
/// store has a memory of its own.
pub struct Store {
    counter: Counter,
    votes: RowTable,
    elections: RowTable,
    voters: RowTable,
    ballots: RowTable,
    users: RowTable,
}

impl View for Store {
    type V = StoreView;

    closed spec fn view(&self) -> StoreView {
        store_view(
            counter_value(self.counter),
            self.votes@,
            self.elections@,
            self.voters@,
            self.ballots@,
            self.users@,
        )
    }
}

impl Store {
    /// Every table holds rows and every row has the shape of its kind.
    pub closed spec fn rows_ok(&self) -> bool {
        &&& self.votes.wf()
        &&& self.elections.wf()
        &&& self.voters.wf()
        &&& self.ballots.wf()
        &&& self.users.wf()
        &&& rows_shaped(self.votes@, self.elections@, self.voters@, self.ballots@, self.users@)
    }

    /// The store is sound: its rows are, and its view is valid.
    pub open spec fn wf(&self) -> bool {
        self.rows_ok() && self@.valid()
    }

    /// A store with nothing in it, whose first identifier is zero. Whatever
    /// stable memory held before is given up.
    pub fn new() -> (s: Store)
        ensures
            s.wf(),
            s@.next_id == 0,
            s@.votes == Map::<u64, VoteView>::empty(),
            s@.elections == Map::<u64, ElectionView>::empty(),
            s@.voters == Map::<u64, VoterView>::empty(),
            s@.ballots == Map::<u64, BallotView>::empty(),
            s@.users == Map::<u64, UserView>::empty(),
    {
        let regions = regions_open();
        let s = Store {
            counter: counter_create(&regions, 0),
            votes: RowTable::create(&regions, 1),
            elections: RowTable::create(&regions, 2),
            voters: RowTable::create(&regions, 3),
            ballots: RowTable::create(&regions, 4),
            users: RowTable::create(&regions, 5),
        };
        proof {
            assert(s@.votes =~= Map::<u64, VoteView>::empty());
            assert(s@.elections =~= Map::<u64, ElectionView>::empty());
            assert(s@.voters =~= Map::<u64, VoterView>::empty());
            assert(s@.ballots =~= Map::<u64, BallotView>::empty());
            assert(s@.users =~= Map::<u64, UserView>::empty());
        }
        s
    }

    /// The store that stable memory holds.
    ///
    /// The counter and the tables are taken as they are found: a memory that
    /// was never written gives a store with nothing in it. What is found is
    /// checked in full before it is taken ([`Store::assemble`]): the result is
    /// `None` where a value is not a row, a row has not the shape of its kind,
    /// or the records do not keep the rules of a store. The check compares
    /// every identifier with every other, and every vote with every other.
    pub fn open() -> (r: Option<Store>)
        ensures
            r matches Some(s) ==> s.wf(),
    {
        let regions = regions_open();
        let counter = counter_open(&regions, 0);
        let votes = match RowTable::open(&regions, 1) {
            Some(table) => table,
            None => {
                return None;
            },
        };
        let elections = match RowTable::open(&regions, 2) {
            Some(table) => table,
            None => {
                return None;
            },
        };
        let voters = match RowTable::open(&regions, 3) {
            Some(table) => table,
            None => {
                return None;
            },
        };
        let ballots = match RowTable::open(&regions, 4) {
            Some(table) => table,
            None => {
                return None;
            },
        };
        let users = match RowTable::open(&regions, 5) {
            Some(table) => table,
            None => {
                return None;
            },
        };
        Store::assemble(counter, votes, elections, voters, ballots, users)
    }

    /// Takes a counter and five tables as a store, if they hold one: if
    /// every row has the shape of its kind and the records keep the rules of
    /// a store.
    pub(crate) fn assemble(
        counter: Counter,
        votes: RowTable,
        elections: RowTable,
        voters: RowTable,
        ballots: RowTable,
        users: RowTable,
    ) -> (r: Option<Store>)
        requires
            votes.wf(),
            elections.wf(),
            voters.wf(),
            ballots.wf(),
            users.wf(),
        ensures
            r is Some <==> rows_shaped(votes@, elections@, voters@, ballots@, users@) && store_view(
                counter_value(counter),
                votes@,
                elections@,
                voters@,
                ballots@,
                users@,
            ).valid(),
            r matches Some(s) ==> s.wf() && s@ == store_view(
                counter_value(counter),
                votes@,
                elections@,
                voters@,
                ballots@,
                users@,
            ),
    {
        let vote_list = match read_records::<Vote>(&votes) {
            Some(list) => list,
            None => {
                return None;
            },
        };
        let election_list = match read_records::<Election>(&elections) {
            Some(list) => list,
            None => {
                return None;
            },
        };
        let voter_list = match read_records::<Voter>(&voters) {
            Some(list) => list,
            None => {
                return None;
            },
        };
        let ballot_list = match read_records::<Ballot>(&ballots) {
            Some(list) => list,
            None => {
                return None;
            },
        };
        let user_list = match read_records::<User>(&users) {
            Some(list) => list,
            None => {
                return None;
            },
        };
        let next_id = counter_get(&counter);
        let ghost view = store_view(next_id, votes@, elections@, voters@, ballots@, users@);
        if !records_are_sound(
            next_id,
            &vote_list,
            &election_list,
            &voter_list,
            &ballot_list,
            &user_list,
        ) {
            proof {
                if view.valid() {
                    lemma_valid_records_sound(
                        view,
                        vote_list@,
                        election_list@,
                        voter_list@,
                        ballot_list@,
                        user_list@,
                    );
                }
            }
            return None;
        }
        proof {
            lemma_sound_records_valid(
                view,
                vote_list@,
                election_list@,
                voter_list@,
                ballot_list@,
                user_list@,
            );
        }
        Some(Store { counter, votes, elections, voters, ballots, users })
    }

    /// The identifier that `next_id` would hand out, without taking it.
    pub fn peek_id(&self) -> (id: u64)
        ensures
            id == self@.next_id,
    {
        counter_get(&self.counter)
    }

    /// Hands out the next identifier and moves the counter past it. When the
    /// counter has reached the last 64-bit value, no identifier is left: the
    /// result is `None` and the store stays as it is.
    pub fn next_id(&mut self) -> (r: Option<u64>)
        requires
            old(self).wf(),
        ensures
            final(self).wf(),
            match r {
                Some(id) => id == old(self)@.next_id && id < u64::MAX && final(self)@ == old(
                    self,
                )@.bumped() && final(self)@.vacant(id),
                None => old(self)@.next_id == u64::MAX && final(self)@ == old(self)@,
            },
    {
        let current = counter_get(&self.counter);
        if current == u64::MAX {
            return None;
        }
        let id = counter_set(&mut self.counter, current + 1);
        proof {
            assert forall|k: u64| #[trigger]
                final(self)@.kinds_holding(k) == old(self)@.kinds_holding(k) by {}
        }
        Some(id)
    }

    /// The vote with the given identifier, if there is one.
    pub fn lookup_vote(&self, id: u64) -> (r: Option<Vote>)
        requires
            self.wf(),
        ensures
            match r {
                Some(x) => self@.votes.dom().contains(id) && self@.votes[id] == x@,
                None => !self@.votes.dom().contains(id),
            },
    {
        find_record::<Vote>(&self.votes, id)
    }

    /// The election with the given identifier, if there is one.
    pub fn lookup_election(&self, id: u64) -> (r: Option<Election>)
        requires
            self.wf(),
        ensures
            match r {
                Some(x) => self@.elections.dom().contains(id) && self@.elections[id] == x@,
                None => !self@.elections.dom().contains(id),
            },
    {
        find_record::<Election>(&self.elections, id)
    }

    /// The voter with the given identifier, if there is one.
    pub fn lookup_voter(&self, id: u64) -> (r: Option<Voter>)
        requires
            self.wf(),
        ensures
            match r {
                Some(x) => self@.voters.dom().contains(id) && self@.voters[id] == x@,
                None => !self@.voters.dom().contains(id),
            },
    {
        find_record::<Voter>(&self.voters, id)
    }

    /// The ballot with the given identifier, if there is one.
    pub fn lookup_ballot(&self, id: u64) -> (r: Option<Ballot>)
        requires
            self.wf(),
        ensures
            match r {
                Some(x) => self@.ballots.dom().contains(id) && self@.ballots[id] == x@,
                None => !self@.ballots.dom().contains(id),
            },
    {
        find_record::<Ballot>(&self.ballots, id)
    }

    /// The user with the given identifier, if there is one.
    pub fn lookup_user(&self, id: u64) -> (r: Option<User>)
        requires
            self.wf(),
        ensures
            match r {
                Some(x) => self@.users.dom().contains(id) && self@.users[id] == x@,
                None => !self@.users.dom().contains(id),
            },
    {
        find_record::<User>(&self.users, id)
    }

    /// All votes, in ascending order of their identifiers.
    pub fn all_votes(&self) -> (r: Vec<Vote>)
        requires
            self.wf(),
        ensures
            lists_votes(self@.votes, r@),
    {
        match read_records::<Vote>(&self.votes) {
            Some(list) => list,
            None => Vec::new(),
        }
    }

    /// All elections, in ascending order of their identifiers.
    pub fn all_elections(&self) -> (r: Vec<Election>)
        requires
            self.wf(),
        ensures
            lists_elections(self@.elections, r@),
    {
        match read_records::<Election>(&self.elections) {
            Some(list) => list,
            None => Vec::new(),
        }
    }

    /// All voters, in ascending order of their identifiers.
    pub fn all_voters(&self) -> (r: Vec<Voter>)
        requires
            self.wf(),
        ensures
            lists_voters(self@.voters, r@),
    {
        match read_records::<Voter>(&self.voters) {
            Some(list) => list,
            None => Vec::new(),
        }
    }

    /// All ballots, in ascending order of their identifiers.
    pub fn all_ballots(&self) -> (r: Vec<Ballot>)
        requires
            self.wf(),
        ensures
            lists_ballots(self@.ballots, r@),
    {
        match read_records::<Ballot>(&self.ballots) {
            Some(list) => list,
            None => Vec::new(),
        }
    }

    /// All users, in ascending order of their identifiers.
    pub fn all_users(&self) -> (r: Vec<User>)
        requires
            self.wf(),
        ensures
            lists_users(self@.users, r@),
    {
        match read_records::<User>(&self.users) {
            Some(list) => list,
            None => Vec::new(),
        }
    }

    /// Stores a new vote of a registered voter who has none in that election
    /// yet. A vote whose row is too large is not stored, and `false` is
    /// returned.
    pub(crate) fn do_insert_vote(&mut self, vote: &Vote) -> (stored: bool)
        requires
            old(self).wf(),
            old(self)@.vacant(vote.id),
            !has_voted(old(self)@.votes, vote.voter_id, vote.election_id),
            old(self)@.elections.dom().contains(vote.election_id),
            old(self)@.voters.dom().contains(vote.voter_id),
            old(self)@.voters[vote.voter_id].registered_elections.contains(vote.election_id),
        ensures
            final(self).wf(),
            stored == row_storable(vote_row(vote@)),
            stored ==> final(self)@ == (StoreView {
                votes: old(self)@.votes.insert(vote.id, vote@),
                ..old(self)@
            }),
            !stored ==> final(self)@ == old(self)@,
    {
        let stored = put_record::<Vote>(&mut self.votes, vote);
        proof {
            if stored {
                assert forall|k: u64| k != vote.id implies #[trigger] final(self)@.kinds_holding(k)
                    == old(self)@.kinds_holding(k) by {}
                assert(old(self)@.kinds_holding(vote.id) > 0 ==> vote.id < old(self)@.next_id);
                assert(old(self)@.kinds_holding(vote.id) <= 1);
                lemma_ids_after_insert(old(self)@, final(self)@, vote.id);
            }
        }
        stored
    }

    /// Stores a new election that ends after it starts. An election whose
    /// row is too large is not stored, and `false` is returned.
    pub(crate) fn do_insert_election(&mut self, election: &Election) -> (stored: bool)
        requires
            old(self).wf(),
            old(self)@.vacant(election.id),
            election.start_time < election.end_time,
        ensures
            final(self).wf(),
            stored == row_storable(election_row(election@)),
            stored ==> final(self)@ == (StoreView {
                elections: old(self)@.elections.insert(election.id, election@),
                ..old(self)@
            }),
            !stored ==> final(self)@ == old(self)@,
    {
        let stored = put_record::<Election>(&mut self.elections, election);
        proof {
            if stored {
                assert forall|k: u64| k != election.id implies #[trigger] final(self)@.kinds_holding(k)
                    == old(self)@.kinds_holding(k) by {}
                assert(old(self)@.kinds_holding(election.id) > 0 ==> election.id < old(self)@.next_id);
                assert(old(self)@.kinds_holding(election.id) <= 1);
                lemma_ids_after_insert(old(self)@, final(self)@, election.id);
            }
        }
        stored
    }

    /// Stores a voter, new or in place of the voter with the same identifier,
    /// who stays registered wherever they have voted. A voter whose row is too
    /// large is not stored, and `false` is returned.
    pub(crate) fn do_insert_voter(&mut self, voter: &Voter) -> (stored: bool)
        requires
            old(self).wf(),
            old(self)@.vacant(voter.id) || old(self)@.voters.dom().contains(voter.id),
            voter.registered_elections@.no_duplicates(),
            forall|k: u64| #[trigger]
                old(self)@.votes.dom().contains(k) && old(self)@.votes[k].voter_id == voter.id
                    ==> voter.registered_elections@.contains(old(self)@.votes[k].election_id),
        ensures
            final(self).wf(),
            stored == row_storable(voter_row(voter@)),
            stored ==> final(self)@ == (StoreView {
                voters: old(self)@.voters.insert(voter.id, voter@),
                ..old(self)@
            }),
            !stored ==> final(self)@ == old(self)@,
    {
        let stored = put_record::<Voter>(&mut self.voters, voter);
        proof {
            if stored {
                assert forall|k: u64| k != voter.id implies #[trigger] final(self)@.kinds_holding(k)
                    == old(self)@.kinds_holding(k) by {}
                assert(old(self)@.kinds_holding(voter.id) > 0 ==> voter.id < old(self)@.next_id);
                assert(old(self)@.kinds_holding(voter.id) <= 1);
                lemma_ids_after_insert(old(self)@, final(self)@, voter.id);
            }
        }
        stored
    }

    /// Stores a new ballot. A ballot whose row is too large is not stored,
    /// and `false` is returned.
    pub(crate) fn do_insert_ballot(&mut self, ballot: &Ballot) -> (stored: bool)
        requires
            old(self).wf(),
            old(self)@.vacant(ballot.id),
        ensures
            final(self).wf(),
            stored == row_storable(ballot_row(ballot@)),
            stored ==> final(self)@ == (StoreView {
                ballots: old(self)@.ballots.insert(ballot.id, ballot@),
                ..old(self)@
            }),
            !stored ==> final(self)@ == old(self)@,
    {
        let stored = put_record::<Ballot>(&mut self.ballots, ballot);
        proof {
            if stored {
                assert forall|k: u64| k != ballot.id implies #[trigger] final(self)@.kinds_holding(k)
                    == old(self)@.kinds_holding(k) by {}
                assert(old(self)@.kinds_holding(ballot.id) > 0 ==> ballot.id < old(self)@.next_id);
                assert(old(self)@.kinds_holding(ballot.id) <= 1);
                lemma_ids_after_insert(old(self)@, final(self)@, ballot.id);
            }
        }
        stored
    }

    /// Stores a new user. A user whose row is too large is not stored, and
    /// `false` is returned.
    pub(crate) fn do_insert_user(&mut self, user: &User) -> (stored: bool)
        requires
            old(self).wf(),
            old(self)@.vacant(user.id),
        ensures
            final(self).wf(),
            stored == row_storable(user_row(user@)),
            stored ==> final(self)@ == (StoreView {
                users: old(self)@.users.insert(user.id, user@),
                ..old(self)@
            }),
            !stored ==> final(self)@ == old(self)@,
    {
        let stored = put_record::<User>(&mut self.users, user);
        proof {
            if stored {
                assert forall|k: u64| k != user.id implies #[trigger] final(self)@.kinds_holding(k)
                    == old(self)@.kinds_holding(k) by {}
                assert(old(self)@.kinds_holding(user.id) > 0 ==> user.id < old(self)@.next_id);
                assert(old(self)@.kinds_holding(user.id) <= 1);
                lemma_ids_after_insert(old(self)@, final(self)@, user.id);
            }
        }
        stored
    }
}

} // verus!
