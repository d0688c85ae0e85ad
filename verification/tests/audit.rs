use decentralized_voting_system_backend::audit::{
    all_below, collect_ids, has_no_duplicates, records_are_sound, registrations_all_differ,
    vote_is_backed, votes_all_backed, votes_all_differ, windows_all_grow,
};
use decentralized_voting_system_backend::records::{Ballot, Election, User, Vote, Voter};
use decentralized_voting_system_backend::store::Store;
use decentralized_voting_system_backend::user_management::register_user;

fn vote(id: u64, voter_id: u64, election_id: u64) -> Vote {
    Vote { id, voter_id, candidate: "A".to_string(), election_id, timestamp: 1 }
}

fn election(id: u64, start_time: u64, end_time: u64) -> Election {
    Election { id, title: "e".to_string(), candidates: Vec::new(), start_time, end_time }
}

fn voter(id: u64, registered_elections: Vec<u64>) -> Voter {
    Voter { id, username: "v".to_string(), registered_elections }
}

fn ballot(id: u64) -> Ballot {
    Ballot { id, election_id: 1, options: Vec::new(), start_time: 1, end_time: 2 }
}

fn user(id: u64) -> User {
    User { id, username: "u".to_string() }
}

struct Records {
    next_id: u64,
    votes: Vec<Vote>,
    elections: Vec<Election>,
    voters: Vec<Voter>,
    ballots: Vec<Ballot>,
    users: Vec<User>,
}

fn sound_records() -> Records {
    Records {
        next_id: 9,
        votes: vec![vote(6, 2, 0), vote(7, 3, 0), vote(8, 2, 1)],
        elections: vec![election(0, 10, 20), election(1, 10, 11)],
        voters: vec![voter(2, vec![0, 1]), voter(3, vec![0])],
        ballots: vec![ballot(4)],
        users: vec![user(5)],
    }
}

fn sound(r: &Records) -> bool {
    records_are_sound(r.next_id, &r.votes, &r.elections, &r.voters, &r.ballots, &r.users)
}

#[test]
fn open_on_unwritten_memory_gives_an_empty_store() {
    let mut store = Store::open().unwrap();
    assert_eq!(store.peek_id(), 0);
    assert!(store.all_votes().is_empty());
    assert!(store.all_elections().is_empty());
    assert!(store.all_voters().is_empty());
    assert!(store.all_ballots().is_empty());
    assert!(store.all_users().is_empty());
    let u = register_user(&mut store, "ada".to_string()).unwrap();
    assert_eq!(u.id, 0);
    assert_eq!(store.all_users(), vec![u]);
}

#[test]
fn sound_records_are_accepted() {
    assert!(sound(&sound_records()));
    let empty = Records {
        next_id: 0,
        votes: Vec::new(),
        elections: Vec::new(),
        voters: Vec::new(),
        ballots: Vec::new(),
        users: Vec::new(),
    };
    assert!(sound(&empty));
}

#[test]
fn an_identifier_used_twice_is_refused() {
    let mut r = sound_records();
    r.users.push(user(4));
    assert!(!sound(&r));

    let mut r = sound_records();
    r.elections.push(election(8, 1, 2));
    assert!(!sound(&r));

    let mut r = sound_records();
    r.votes.push(vote(6, 30, 30));
    assert!(!sound(&r));
}

#[test]
fn an_identifier_at_or_above_the_counter_is_refused() {
    let mut r = sound_records();
    r.next_id = 8;
    assert!(!sound(&r));
    r.next_id = 9;
    assert!(sound(&r));
    r.ballots.push(ballot(9));
    assert!(!sound(&r));
    r.next_id = 10;
    assert!(sound(&r));
}

#[test]
fn two_votes_of_one_voter_in_one_election_are_refused() {
    let mut r = sound_records();
    r.next_id = 20;
    r.voters[1].registered_elections.push(1);
    r.votes.push(vote(10, 3, 1));
    assert!(sound(&r));
    r.votes.push(vote(11, 2, 1));
    assert!(!sound(&r));
}

#[test]
fn a_vote_without_its_voter_election_or_registration_is_refused() {
    let mut r = sound_records();
    r.next_id = 20;
    r.votes.push(vote(10, 3, 1));
    assert!(!sound(&r));

    let mut r = sound_records();
    r.next_id = 20;
    r.votes.push(vote(10, 15, 0));
    assert!(!sound(&r));

    let mut r = sound_records();
    r.next_id = 20;
    r.votes.push(vote(10, 3, 15));
    assert!(!sound(&r));

    let r = sound_records();
    assert!(vote_is_backed(&vote(10, 3, 0), &r.elections, &r.voters));
    assert!(!vote_is_backed(&vote(10, 3, 1), &r.elections, &r.voters));
    assert!(!vote_is_backed(&vote(10, 4, 0), &r.elections, &r.voters));
    assert!(!vote_is_backed(&vote(10, 3, 9), &r.elections, &r.voters));
    assert!(votes_all_backed(&r.votes, &r.elections, &r.voters));
    assert!(!votes_all_backed(&r.votes, &r.elections, &r.voters[1..].to_vec()));
}

#[test]
fn an_election_that_does_not_end_after_its_start_is_refused() {
    let mut r = sound_records();
    r.elections[1].end_time = 10;
    assert!(!sound(&r));
    r.elections[1].end_time = 9;
    assert!(!sound(&r));
}

#[test]
fn a_repeated_registration_is_refused() {
    let mut r = sound_records();
    r.voters[0].registered_elections.push(0);
    assert!(!sound(&r));
}

#[test]
fn the_parts_of_the_check_decide_what_they_name() {
    assert!(has_no_duplicates(&Vec::new()));
    assert!(has_no_duplicates(&vec![1]));
    assert!(has_no_duplicates(&vec![3, 1, 2]));
    assert!(!has_no_duplicates(&vec![3, 1, 3]));
    assert!(!has_no_duplicates(&vec![1, 2, 2]));

    assert!(all_below(&Vec::new(), 0));
    assert!(all_below(&vec![0, 4], 5));
    assert!(!all_below(&vec![0, 5], 5));

    assert!(votes_all_differ(&vec![vote(0, 1, 1), vote(1, 1, 2), vote(2, 2, 1)]));
    assert!(!votes_all_differ(&vec![vote(0, 1, 1), vote(1, 2, 2), vote(2, 1, 1)]));

    assert!(windows_all_grow(&vec![election(0, 0, 1)]));
    assert!(!windows_all_grow(&vec![election(0, 0, 1), election(1, 5, 5)]));

    assert!(registrations_all_differ(&vec![voter(0, vec![1, 2]), voter(1, Vec::new())]));
    assert!(!registrations_all_differ(&vec![voter(0, vec![1, 2]), voter(1, vec![7, 7])]));
}

#[test]
fn identifiers_are_collected_kind_by_kind() {
    let r = sound_records();
    assert_eq!(
        collect_ids(&r.votes, &r.elections, &r.voters, &r.ballots, &r.users),
        vec![6, 7, 8, 0, 1, 2, 3, 4, 5]
    );
}
