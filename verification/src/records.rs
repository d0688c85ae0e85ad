//! The records of the system, and the row that each is kept as.
//!
//! A record's identifier is the key under which its row is stored; the row
//! holds the other fields. For each kind of record, reading back the row that
//! was written for it gives the record again.

use vstd::prelude::*;
use crate::row::{text_views, Row, RowView};

verus! {

/// Why an operation was turned down.
#[derive(Clone, Copy, Debug, PartialEq, Eq, Structural)]
pub enum Error {
    /// A voter or an election with the given identifier does not exist.
    NotFound,
    /// The election has started: registration is over.
    RegistrationClosed,
    /// The election is not open at this time.
    ElectionNotOpen,
    /// The voter has already voted in the election.
    AlreadyVoted,
    /// The voter is not registered for the election.
    NotRegistered,
    /// The election has not closed yet: no results are given.
    ElectionOngoing,
    /// The election would not end after it starts.
    InvalidTimeWindow,
    /// No identifier is left, or the record takes more bytes than stable
    /// memory can hold in one value.
    CapacityExceeded,
}

/// One vote of one voter in one election.
#[derive(Clone, Debug, PartialEq, Eq, Default)]
pub struct Vote {
    pub id: u64,
    pub voter_id: u64,
    pub candidate: String,
    pub election_id: u64,
    pub timestamp: u64,
}

/// What a vote holds, as mathematical values.
pub struct VoteView {
    pub id: u64,
    pub voter_id: u64,
    pub candidate: Seq<char>,
    pub election_id: u64,
    pub timestamp: u64,
}

impl View for Vote {
    type V = VoteView;

    open spec fn view(&self) -> VoteView {
        VoteView {
            id: self.id,
            voter_id: self.voter_id,
            candidate: self.candidate@,
            election_id: self.election_id,
            timestamp: self.timestamp,
        }
    }
}

/// What a caller hands in to vote.
#[derive(Clone, Debug, PartialEq, Eq, Default)]
pub struct VotePayload {
    pub voter_id: u64,
    pub candidate: String,
    pub election_id: u64,
}

/// An election: its candidates and the time window in which votes count.
#[derive(Clone, Debug, PartialEq, Eq, Default)]
pub struct Election {
    pub id: u64,
    pub title: String,
    pub candidates: Vec<String>,
    pub start_time: u64,
    pub end_time: u64,
}

/// What an election holds, as mathematical values.
pub struct ElectionView {
    pub id: u64,
    pub title: Seq<char>,
    pub candidates: Seq<Seq<char>>,
    pub start_time: u64,
    pub end_time: u64,
}

impl View for Election {
    type V = ElectionView;

    open spec fn view(&self) -> ElectionView {
        ElectionView {
            id: self.id,
            title: self.title@,
            candidates: text_views(self.candidates@),
            start_time: self.start_time,
            end_time: self.end_time,
        }
    }
}

/// A voter and the elections they have registered for, in the order of
/// registration.
#[derive(Clone, Debug, PartialEq, Eq, Default)]
pub struct Voter {
    pub id: u64,
    pub username: String,
    pub registered_elections: Vec<u64>,
}

/// What a voter holds, as mathematical values.
pub struct VoterView {
    pub id: u64,
    pub username: Seq<char>,
    pub registered_elections: Seq<u64>,
}

impl View for Voter {
    type V = VoterView;

    open spec fn view(&self) -> VoterView {
        VoterView {
            id: self.id,
            username: self.username@,
            registered_elections: self.registered_elections@,
        }
    }
}

/// A ballot of an election: the options offered and a time window.
#[derive(Clone, Debug, PartialEq, Eq, Default)]
pub struct Ballot {
    pub id: u64,
    pub election_id: u64,
    pub options: Vec<String>,
    pub start_time: u64,
    pub end_time: u64,
}

/// What a ballot holds, as mathematical values.
pub struct BallotView {
    pub id: u64,
    pub election_id: u64,
    pub options: Seq<Seq<char>>,
    pub start_time: u64,
    pub end_time: u64,
}

impl View for Ballot {
    type V = BallotView;

    open spec fn view(&self) -> BallotView {
        BallotView {
            id: self.id,
            election_id: self.election_id,
            options: text_views(self.options@),
            start_time: self.start_time,
            end_time: self.end_time,
        }
    }
}

/// A user account.
#[derive(Clone, Debug, PartialEq, Eq, Default)]
pub struct User {
    pub id: u64,
    pub username: String,
}

/// What a user holds, as mathematical values.
pub struct UserView {
    pub id: u64,
    pub username: Seq<char>,
}

impl View for User {
    type V = UserView;

    open spec fn view(&self) -> UserView {
        UserView { id: self.id, username: self.username@ }
    }
}

/// The row of a vote: voter, election and time, then the candidate.
pub open spec fn vote_row(v: VoteView) -> RowView {
    RowView { nums: seq![v.voter_id, v.election_id, v.timestamp], texts: seq![v.candidate] }
}

/// The vote that a row stored under `id` stands for, if it has that shape.
pub open spec fn row_vote(id: u64, r: RowView) -> Option<VoteView> {
    if r.nums.len() == 3 && r.texts.len() == 1 {
        Some(
            VoteView {
                id,
                voter_id: r.nums[0],
                election_id: r.nums[1],
                timestamp: r.nums[2],
                candidate: r.texts[0],
            },
        )
    } else {
        None
    }
}

/// The row of an election: start and end, then the title and the candidates.
pub open spec fn election_row(e: ElectionView) -> RowView {
    RowView { nums: seq![e.start_time, e.end_time], texts: seq![e.title] + e.candidates }
}

/// The election that a row stored under `id` stands for, if it has that shape.
pub open spec fn row_election(id: u64, r: RowView) -> Option<ElectionView> {
    if r.nums.len() == 2 && r.texts.len() >= 1 {
        Some(
            ElectionView {
                id,
                title: r.texts[0],
                candidates: r.texts.drop_first(),
                start_time: r.nums[0],
                end_time: r.nums[1],
            },
        )
    } else {
        None
    }
}

/// The row of a voter: the elections registered for, then the name.
pub open spec fn voter_row(v: VoterView) -> RowView {
    RowView { nums: v.registered_elections, texts: seq![v.username] }
}

/// The voter that a row stored under `id` stands for, if it has that shape.
pub open spec fn row_voter(id: u64, r: RowView) -> Option<VoterView> {
    if r.texts.len() == 1 {
        Some(VoterView { id, username: r.texts[0], registered_elections: r.nums })
    } else {
        None
    }
}

/// The row of a ballot: election, start and end, then the options.
pub open spec fn ballot_row(b: BallotView) -> RowView {
    RowView { nums: seq![b.election_id, b.start_time, b.end_time], texts: b.options }
}

/// The ballot that a row stored under `id` stands for, if it has that shape.
pub open spec fn row_ballot(id: u64, r: RowView) -> Option<BallotView> {
    if r.nums.len() == 3 {
        Some(
            BallotView {
                id,
                election_id: r.nums[0],
                options: r.texts,
                start_time: r.nums[1],
                end_time: r.nums[2],
            },
        )
    } else {
        None
    }
}

/// The row of a user: the name alone.
pub open spec fn user_row(u: UserView) -> RowView {
    RowView { nums: Seq::empty(), texts: seq![u.username] }
}

/// The user that a row stored under `id` stands for, if it has that shape.
pub open spec fn row_user(id: u64, r: RowView) -> Option<UserView> {
    if r.nums.len() == 0 && r.texts.len() == 1 {
        Some(UserView { id, username: r.texts[0] })
    } else {
        None
    }
}

/// A copy of a list of texts without its first `start` texts.
pub fn copy_texts(texts: &Vec<String>, start: usize) -> (r: Vec<String>)
    requires
        start <= texts.len(),
    ensures
        r@ == texts@.skip(start as int),
{
    let mut out: Vec<String> = Vec::new();
    let mut i: usize = start;
    while i < texts.len()
        invariant
            start <= i <= texts.len(),
            out@ == texts@.subrange(start as int, i as int),
        decreases texts.len() - i,
    {
        out.push(texts[i].clone());
        proof {
            assert(texts@.subrange(start as int, i as int).push(texts@[i as int])
                =~= texts@.subrange(start as int, i as int + 1));
        }
        i = i + 1;
    }
    proof {
        assert(texts@.subrange(start as int, i as int) =~= texts@.skip(start as int));
    }
    out
}

/// A copy of a list of integers.
pub fn copy_nums(nums: &Vec<u64>) -> (r: Vec<u64>)
    ensures
        r@ == nums@,
{
    let mut out: Vec<u64> = Vec::new();
    let mut i: usize = 0;
    while i < nums.len()
        invariant
            i <= nums.len(),
            out@ == nums@.take(i as int),
        decreases nums.len() - i,
    {
        out.push(nums[i]);
        proof {
            assert(nums@.take(i as int).push(nums@[i as int]) =~= nums@.take(i as int + 1));
        }
        i = i + 1;
    }
    proof {
        assert(nums@.take(i as int) =~= nums@);
    }
    out
}

/// A kind of record: a value with an identifier that is kept as a row under
/// that identifier.
pub trait Record: View + Sized {
    /// The identifier of a record.
    spec fn key(v: Self::V) -> u64;

    /// The row that a record is kept as.
    spec fn row(v: Self::V) -> RowView;

    /// The record that a row kept under `id` stands for, if the row has the
    /// shape of the kind.
    spec fn of_row(id: u64, r: RowView) -> Option<Self::V>;

    /// A record read from a row has the identifier that the row is kept
    /// under.
    proof fn lemma_keyed(id: u64, r: RowView)
        ensures
            Self::of_row(id, r) matches Some(v) ==> Self::key(v) == id,
    ;

    /// A record is read back from its own row.
    proof fn lemma_read_back(v: Self::V)
        ensures
            Self::of_row(Self::key(v), Self::row(v)) == Some(v),
    ;

    /// The identifier of this record.
    fn id(&self) -> (id: u64)
        ensures
            id == Self::key(self@),
    ;

    /// A copy of this record.
    fn duplicate(&self) -> (r: Self)
        ensures
            r@ == self@,
    ;

    /// The row under which this record is stored.
    fn to_row(&self) -> (row: Row)
        ensures
            row@ == Self::row(self@),
    ;

    /// The record that a row stored under `id` stands for.
    fn from_row(id: u64, row: &Row) -> (r: Option<Self>)
        ensures
            match r {
                Some(x) => Self::of_row(id, row@) == Some(x@),
                None => Self::of_row(id, row@) is None,
            },
    ;
}

impl Record for Vote {
    open spec fn key(v: VoteView) -> u64 {
        v.id
    }

    open spec fn row(v: VoteView) -> RowView {
        vote_row(v)
    }

    open spec fn of_row(id: u64, r: RowView) -> Option<VoteView> {
        row_vote(id, r)
    }

    proof fn lemma_keyed(id: u64, r: RowView) {
    }

    proof fn lemma_read_back(v: VoteView) {
    }

    fn id(&self) -> (id: u64) {
        self.id
    }

    /// The row under which this vote is stored.
    fn duplicate(&self) -> (r: Vote) {
        Vote {
            id: self.id,
            voter_id: self.voter_id,
            candidate: self.candidate.clone(),
            election_id: self.election_id,
            timestamp: self.timestamp,
        }
    }

    fn to_row(&self) -> (row: Row) {
        let row = Row {
            nums: vec![self.voter_id, self.election_id, self.timestamp],
            texts: vec![self.candidate.clone()],
        };
        proof {
            assert(row@.nums =~= vote_row(self@).nums);
            assert(row@.texts =~= vote_row(self@).texts);
        }
        row
    }

    /// The vote that a row stored under `id` stands for.
    fn from_row(id: u64, row: &Row) -> (r: Option<Vote>) {
        if row.nums.len() != 3 || row.texts.len() != 1 {
            return None;
        }
        Some(
            Vote {
                id,
                voter_id: row.nums[0],
                candidate: row.texts[0].clone(),
                election_id: row.nums[1],
                timestamp: row.nums[2],
            },
        )
    }
}

impl Record for Election {
    open spec fn key(v: ElectionView) -> u64 {
        v.id
    }

    open spec fn row(v: ElectionView) -> RowView {
        election_row(v)
    }

    open spec fn of_row(id: u64, r: RowView) -> Option<ElectionView> {
        row_election(id, r)
    }

    proof fn lemma_keyed(id: u64, r: RowView) {
    }

    proof fn lemma_read_back(v: ElectionView) {
        assert(election_row(v).texts.drop_first() =~= v.candidates);
    }

    fn id(&self) -> (id: u64) {
        self.id
    }

    /// The row under which this election is stored.
    fn duplicate(&self) -> (r: Election) {
        let candidates = copy_texts(&self.candidates, 0);
        proof {
            assert(self.candidates@.skip(0) =~= self.candidates@);
        }
        Election {
            id: self.id,
            title: self.title.clone(),
            candidates,
            start_time: self.start_time,
            end_time: self.end_time,
        }
    }

    fn to_row(&self) -> (row: Row) {
        let mut texts: Vec<String> = vec![self.title.clone()];
        let mut candidates = copy_texts(&self.candidates, 0);
        proof {
            assert(self.candidates@.skip(0) =~= self.candidates@);
        }
        texts.append(&mut candidates);
        let row = Row { nums: vec![self.start_time, self.end_time], texts };
        proof {
            assert(row@.nums =~= election_row(self@).nums);
            assert(row@.texts =~= election_row(self@).texts);
        }
        row
    }

    /// The election that a row stored under `id` stands for.
    fn from_row(id: u64, row: &Row) -> (r: Option<Election>) {
        if row.nums.len() != 2 || row.texts.len() < 1 {
            return None;
        }
        let candidates = copy_texts(&row.texts, 1);
        proof {
            assert(text_views(candidates@) =~= text_views(row.texts@).drop_first());
        }
        Some(
            Election {
                id,
                title: row.texts[0].clone(),
                candidates,
                start_time: row.nums[0],
                end_time: row.nums[1],
            },
        )
    }
}

impl Record for Voter {
    open spec fn key(v: VoterView) -> u64 {
        v.id
    }

    open spec fn row(v: VoterView) -> RowView {
        voter_row(v)
    }

    open spec fn of_row(id: u64, r: RowView) -> Option<VoterView> {
        row_voter(id, r)
    }

    proof fn lemma_keyed(id: u64, r: RowView) {
    }

    proof fn lemma_read_back(v: VoterView) {
    }

    fn id(&self) -> (id: u64) {
        self.id
    }

    /// The row under which this voter is stored.
    fn duplicate(&self) -> (r: Voter) {
        Voter {
            id: self.id,
            username: self.username.clone(),
            registered_elections: copy_nums(&self.registered_elections),
        }
    }

    fn to_row(&self) -> (row: Row) {
        let row = Row {
            nums: copy_nums(&self.registered_elections),
            texts: vec![self.username.clone()],
        };
        proof {
            assert(row@.texts =~= voter_row(self@).texts);
        }
        row
    }

    /// The voter that a row stored under `id` stands for.
    fn from_row(id: u64, row: &Row) -> (r: Option<Voter>) {
        if row.texts.len() != 1 {
            return None;
        }
        Some(
            Voter {
                id,
                username: row.texts[0].clone(),
                registered_elections: copy_nums(&row.nums),
            },
        )
    }
}

impl Record for Ballot {
    open spec fn key(v: BallotView) -> u64 {
        v.id
    }

    open spec fn row(v: BallotView) -> RowView {
        ballot_row(v)
    }

    open spec fn of_row(id: u64, r: RowView) -> Option<BallotView> {
        row_ballot(id, r)
    }

    proof fn lemma_keyed(id: u64, r: RowView) {
    }

    proof fn lemma_read_back(v: BallotView) {
    }

    fn id(&self) -> (id: u64) {
        self.id
    }

    /// The row under which this ballot is stored.
    fn duplicate(&self) -> (r: Ballot) {
        let options = copy_texts(&self.options, 0);
        proof {
            assert(self.options@.skip(0) =~= self.options@);
        }
        Ballot {
            id: self.id,
            election_id: self.election_id,
            options,
            start_time: self.start_time,
            end_time: self.end_time,
        }
    }

    fn to_row(&self) -> (row: Row) {
        let row = Row {
            nums: vec![self.election_id, self.start_time, self.end_time],
            texts: copy_texts(&self.options, 0),
        };
        proof {
            assert(self.options@.skip(0) =~= self.options@);
            assert(row@.nums =~= ballot_row(self@).nums);
        }
        row
    }

    /// The ballot that a row stored under `id` stands for.
    fn from_row(id: u64, row: &Row) -> (r: Option<Ballot>) {
        if row.nums.len() != 3 {
            return None;
        }
        let options = copy_texts(&row.texts, 0);
        proof {
            assert(row.texts@.skip(0) =~= row.texts@);
        }
        Some(
            Ballot {
                id,
                election_id: row.nums[0],
                options,
                start_time: row.nums[1],
                end_time: row.nums[2],
            },
        )
    }
}

impl Record for User {
    open spec fn key(v: UserView) -> u64 {
        v.id
    }

    open spec fn row(v: UserView) -> RowView {
        user_row(v)
    }

    open spec fn of_row(id: u64, r: RowView) -> Option<UserView> {
        row_user(id, r)
    }

    proof fn lemma_keyed(id: u64, r: RowView) {
    }

    proof fn lemma_read_back(v: UserView) {
    }

    fn id(&self) -> (id: u64) {
        self.id
    }

    /// The row under which this user is stored.
    fn duplicate(&self) -> (r: User) {
        User { id: self.id, username: self.username.clone() }
    }

    fn to_row(&self) -> (row: Row) {
        let row = Row { nums: Vec::new(), texts: vec![self.username.clone()] };
        proof {
            assert(row@.texts =~= user_row(self@).texts);
        }
        row
    }

    /// The user that a row stored under `id` stands for.
    fn from_row(id: u64, row: &Row) -> (r: Option<User>) {
        if row.nums.len() != 0 || row.texts.len() != 1 {
            return None;
        }
        Some(User { id, username: row.texts[0].clone() })
    }
}

} // verus!
