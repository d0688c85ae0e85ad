use decentralized_voting_system_backend::elections::create_election;
use decentralized_voting_system_backend::records::{Error, Vote, VotePayload};
use decentralized_voting_system_backend::result::{
    calculate_election_results, get_election_results, tabulate,
};
use decentralized_voting_system_backend::store::Store;
use decentralized_voting_system_backend::voters::{
    contains_id, register_for_election, register_voter,
};
use decentralized_voting_system_backend::voting::{
    cast_vote, cast_vote_for_registered_voter, get_vote, has_user_cast_vote,
};

fn names(list: &[&str]) -> Vec<String> {
    list.iter().map(|s| s.to_string()).collect()
}

fn payload(voter_id: u64, election_id: u64, candidate: &str) -> VotePayload {
    VotePayload { voter_id, candidate: candidate.to_string(), election_id }
}

fn sorted(mut tally: Vec<(String, u64)>) -> Vec<(String, u64)> {
    tally.sort();
    tally
}

/// An election from 100 to 200 and `voters` voters registered for it.
fn open_election(store: &mut Store, voters: usize) -> (u64, Vec<u64>) {
    let e = create_election(store, "Board".to_string(), names(&["A", "B"]), 100, 200).unwrap();
    let mut ids = Vec::new();
    for i in 0..voters {
        let v = register_voter(store, format!("voter{}", i)).unwrap();
        assert_eq!(register_for_election(store, v.id, e.id, 50), Ok(()));
        ids.push(v.id);
    }
    (e.id, ids)
}

#[test]
fn end_to_end_scenario() {
    let mut store = Store::new();
    let e = create_election(&mut store, "Board".to_string(), names(&["A", "B"]), 100, 200)
        .unwrap();
    let x = register_voter(&mut store, "X".to_string()).unwrap();

    assert_eq!(register_for_election(&mut store, x.id, e.id, 50), Ok(()));
    assert_eq!(cast_vote(&mut store, payload(x.id, e.id, "A"), 90), Err(Error::ElectionNotOpen));

    let vote = cast_vote(&mut store, payload(x.id, e.id, "A"), 150).unwrap();
    assert_eq!(vote.voter_id, x.id);
    assert_eq!(vote.election_id, e.id);
    assert_eq!(vote.candidate, "A");
    assert_eq!(vote.timestamp, 150);

    assert_eq!(cast_vote(&mut store, payload(x.id, e.id, "A"), 160), Err(Error::AlreadyVoted));
    assert_eq!(get_election_results(&store, e.id, 150), Err(Error::ElectionOngoing));
    assert_eq!(get_election_results(&store, e.id, 250), Ok(vec![("A".to_string(), 1)]));
}

#[test]
fn tabulation_counts_each_candidate() {
    let mut store = Store::new();
    let (e, v) = open_election(&mut store, 3);
    cast_vote(&mut store, payload(v[0], e, "A"), 150).unwrap();
    cast_vote(&mut store, payload(v[1], e, "B"), 151).unwrap();
    cast_vote(&mut store, payload(v[2], e, "A"), 152).unwrap();

    let tally = get_election_results(&store, e, 201).unwrap();
    assert_eq!(sorted(tally), vec![("A".to_string(), 2), ("B".to_string(), 1)]);
}

#[test]
fn tabulation_leaves_out_other_elections_and_unvoted_candidates() {
    let mut store = Store::new();
    let (e1, v) = open_election(&mut store, 2);
    let e2 = create_election(&mut store, "Other".to_string(), names(&["A", "C"]), 100, 200)
        .unwrap();
    register_for_election(&mut store, v[0], e2.id, 10).unwrap();
    cast_vote(&mut store, payload(v[0], e1, "A"), 150).unwrap();
    cast_vote(&mut store, payload(v[1], e1, "A"), 150).unwrap();
    cast_vote(&mut store, payload(v[0], e2.id, "C"), 150).unwrap();

    assert_eq!(get_election_results(&store, e1, 300), Ok(vec![("A".to_string(), 2)]));
    assert_eq!(get_election_results(&store, e2.id, 300), Ok(vec![("C".to_string(), 1)]));
}

#[test]
fn tabulation_of_an_election_without_votes_is_empty() {
    let mut store = Store::new();
    let (e, _) = open_election(&mut store, 1);
    assert_eq!(get_election_results(&store, e, 201), Ok(Vec::new()));
}

#[test]
fn tabulation_is_gated_by_the_end() {
    let mut store = Store::new();
    let (e, v) = open_election(&mut store, 1);
    cast_vote(&mut store, payload(v[0], e, "B"), 200).unwrap();
    assert_eq!(get_election_results(&store, e, 0), Err(Error::ElectionOngoing));
    assert_eq!(get_election_results(&store, e, 199), Err(Error::ElectionOngoing));
    assert_eq!(get_election_results(&store, e, 200), Err(Error::ElectionOngoing));
    assert_eq!(get_election_results(&store, e, 201), Ok(vec![("B".to_string(), 1)]));
    assert_eq!(get_election_results(&store, e, u64::MAX), Ok(vec![("B".to_string(), 1)]));
}

#[test]
fn results_of_unknown_election_are_not_found() {
    let store = Store::new();
    assert_eq!(get_election_results(&store, 9, 1000), Err(Error::NotFound));
}

#[test]
fn calculate_election_results_is_gated_by_the_end() {
    let mut store = Store::new();
    let (e, v) = open_election(&mut store, 2);
    cast_vote(&mut store, payload(v[0], e, "B"), 120).unwrap();
    cast_vote(&mut store, payload(v[1], e, "A"), 130).unwrap();
    assert_eq!(calculate_election_results(&store, e, 50), Err(Error::ElectionOngoing));
    assert_eq!(calculate_election_results(&store, e, 150), Err(Error::ElectionOngoing));
    assert_eq!(calculate_election_results(&store, e, 200), Err(Error::ElectionOngoing));
    assert_eq!(
        calculate_election_results(&store, e, 201),
        Ok(vec![("B".to_string(), 1), ("A".to_string(), 1)])
    );
    assert_eq!(calculate_election_results(&store, e + 100, 201), Err(Error::NotFound));
    assert_eq!(calculate_election_results(&store, e + 100, 0), Err(Error::NotFound));
}

#[test]
fn tabulate_counts_a_list_in_order_of_first_vote() {
    let vote = |id: u64, election_id: u64, candidate: &str| Vote {
        id,
        voter_id: id + 100,
        candidate: candidate.to_string(),
        election_id,
        timestamp: 0,
    };
    let votes = vec![
        vote(1, 5, "B"),
        vote(2, 6, "Z"),
        vote(3, 5, "A"),
        vote(4, 5, "B"),
        vote(5, 5, "B"),
        vote(6, 5, ""),
    ];
    assert_eq!(
        tabulate(&votes, 5),
        vec![("B".to_string(), 3), ("A".to_string(), 1), ("".to_string(), 1)]
    );
    assert_eq!(tabulate(&votes, 6), vec![("Z".to_string(), 1)]);
    assert_eq!(tabulate(&votes, 7), Vec::new());
    assert_eq!(tabulate(&Vec::new(), 5), Vec::new());
}

#[test]
fn vote_of_unknown_voter_or_election_is_not_found() {
    let mut store = Store::new();
    let (e, v) = open_election(&mut store, 1);
    assert_eq!(cast_vote(&mut store, payload(v[0] + 50, e, "A"), 150), Err(Error::NotFound));
    assert_eq!(cast_vote(&mut store, payload(v[0], e + 50, "A"), 150), Err(Error::NotFound));
    assert!(store.all_votes().is_empty());
}

#[test]
fn vote_outside_the_window_is_refused() {
    let mut store = Store::new();
    let (e, v) = open_election(&mut store, 1);
    assert_eq!(cast_vote(&mut store, payload(v[0], e, "A"), 99), Err(Error::ElectionNotOpen));
    assert_eq!(cast_vote(&mut store, payload(v[0], e, "A"), 201), Err(Error::ElectionNotOpen));
    assert!(store.all_votes().is_empty());
}

#[test]
fn vote_on_the_bounds_of_the_window_is_taken() {
    let mut store = Store::new();
    let (e, v) = open_election(&mut store, 2);
    assert!(cast_vote(&mut store, payload(v[0], e, "A"), 100).is_ok());
    assert!(cast_vote(&mut store, payload(v[1], e, "A"), 200).is_ok());
}

#[test]
fn vote_of_unregistered_voter_is_refused() {
    let mut store = Store::new();
    let (e, _) = open_election(&mut store, 1);
    let stranger = register_voter(&mut store, "stranger".to_string()).unwrap();
    assert_eq!(
        cast_vote(&mut store, payload(stranger.id, e, "A"), 150),
        Err(Error::NotRegistered)
    );
    assert!(!has_user_cast_vote(&store, stranger.id, e));
}

#[test]
fn window_is_checked_before_registration_and_registration_before_duplicates() {
    let mut store = Store::new();
    let (e, v) = open_election(&mut store, 1);
    let stranger = register_voter(&mut store, "stranger".to_string()).unwrap();
    assert_eq!(
        cast_vote(&mut store, payload(stranger.id, e, "A"), 10),
        Err(Error::ElectionNotOpen)
    );
    cast_vote(&mut store, payload(v[0], e, "A"), 150).unwrap();
    assert_eq!(cast_vote(&mut store, payload(v[0], e, "A"), 300), Err(Error::ElectionNotOpen));
    assert_eq!(cast_vote(&mut store, payload(v[0], e, "A"), 150), Err(Error::AlreadyVoted));
}

#[test]
fn at_most_one_vote_for_each_voter_and_election() {
    let mut store = Store::new();
    let (e, v) = open_election(&mut store, 2);
    assert!(cast_vote(&mut store, payload(v[0], e, "A"), 110).is_ok());
    for t in 100..=200u64 {
        assert_eq!(cast_vote(&mut store, payload(v[0], e, "B"), t), Err(Error::AlreadyVoted));
    }
    assert!(cast_vote(&mut store, payload(v[1], e, "B"), 120).is_ok());
    assert_eq!(cast_vote(&mut store, payload(v[1], e, "B"), 121), Err(Error::AlreadyVoted));

    let votes = store.all_votes();
    assert_eq!(votes.len(), 2);
    for voter in &v {
        let n = votes.iter().filter(|x| x.voter_id == *voter && x.election_id == e).count();
        assert_eq!(n, 1);
    }
    assert_eq!(
        sorted(get_election_results(&store, e, 500).unwrap()),
        vec![("A".to_string(), 1), ("B".to_string(), 1)]
    );
}

#[test]
fn one_voter_may_vote_in_two_elections() {
    let mut store = Store::new();
    let (e1, v) = open_election(&mut store, 1);
    let e2 = create_election(&mut store, "Two".to_string(), names(&["A"]), 100, 200).unwrap();
    register_for_election(&mut store, v[0], e2.id, 0).unwrap();
    assert!(cast_vote(&mut store, payload(v[0], e1, "A"), 150).is_ok());
    assert!(cast_vote(&mut store, payload(v[0], e2.id, "A"), 150).is_ok());
    assert!(has_user_cast_vote(&store, v[0], e1));
    assert!(has_user_cast_vote(&store, v[0], e2.id));
}

#[test]
fn has_user_cast_vote_tells_the_pair() {
    let mut store = Store::new();
    let (e, v) = open_election(&mut store, 2);
    assert!(!has_user_cast_vote(&store, v[0], e));
    cast_vote(&mut store, payload(v[0], e, "A"), 150).unwrap();
    assert!(has_user_cast_vote(&store, v[0], e));
    assert!(!has_user_cast_vote(&store, v[1], e));
    assert!(!has_user_cast_vote(&store, v[0], e + 1));
}

#[test]
fn get_vote_returns_the_recorded_vote() {
    let mut store = Store::new();
    let (e, v) = open_election(&mut store, 1);
    let vote = cast_vote(&mut store, payload(v[0], e, "Ärzte für alle"), 150).unwrap();
    assert_eq!(get_vote(&store, vote.id), Some(vote.clone()));
    assert_eq!(store.lookup_vote(vote.id), Some(vote.clone()));
    assert_eq!(get_vote(&store, vote.id + 1), None);
    assert_eq!(
        vote,
        Vote {
            id: 2,
            voter_id: v[0],
            candidate: "Ärzte für alle".to_string(),
            election_id: e,
            timestamp: 150,
        }
    );
}

#[test]
fn a_refused_vote_leaves_the_counter_alone() {
    let mut store = Store::new();
    let (e, v) = open_election(&mut store, 1);
    let before = store.peek_id();
    assert!(cast_vote(&mut store, payload(v[0], e, "A"), 99).is_err());
    assert!(cast_vote(&mut store, payload(v[0] + 9, e, "A"), 150).is_err());
    assert_eq!(store.peek_id(), before);
    let vote = cast_vote(&mut store, payload(v[0], e, "A"), 150).unwrap();
    assert_eq!(vote.id, before);
    assert_eq!(store.peek_id(), before + 1);
}

#[test]
fn a_vote_for_a_long_name_is_taken() {
    let mut store = Store::new();
    let (e, v) = open_election(&mut store, 1);
    let long = "c".repeat(5000);
    let vote = cast_vote(&mut store, payload(v[0], e, &long), 150).unwrap();
    assert_eq!(vote.candidate, long);
    assert_eq!(get_vote(&store, vote.id), Some(vote));
    assert_eq!(get_election_results(&store, e, 201), Ok(vec![(long, 1)]));
}

#[test]
fn cast_vote_for_registered_voter_follows_the_same_rules() {
    let mut store = Store::new();
    let (e, v) = open_election(&mut store, 1);
    let stranger = register_voter(&mut store, "stranger".to_string()).unwrap();
    assert_eq!(
        cast_vote_for_registered_voter(&mut store, stranger.id, e, "A".to_string(), 150),
        Err(Error::NotRegistered)
    );
    assert_eq!(
        cast_vote_for_registered_voter(&mut store, 77, e, "A".to_string(), 150),
        Err(Error::NotFound)
    );
    assert_eq!(
        cast_vote_for_registered_voter(&mut store, v[0], e, "A".to_string(), 50),
        Err(Error::ElectionNotOpen)
    );
    let vote = cast_vote_for_registered_voter(&mut store, v[0], e, "A".to_string(), 150).unwrap();
    assert_eq!(vote.candidate, "A");
    assert_eq!(
        cast_vote_for_registered_voter(&mut store, v[0], e, "B".to_string(), 150),
        Err(Error::AlreadyVoted)
    );
}

#[test]
fn registration_is_open_only_before_the_start() {
    let mut store = Store::new();
    let e = create_election(&mut store, "Board".to_string(), names(&["A"]), 100, 200).unwrap();
    let early = register_voter(&mut store, "early".to_string()).unwrap();
    let late = register_voter(&mut store, "late".to_string()).unwrap();

    assert_eq!(register_for_election(&mut store, early.id, e.id, 99), Ok(()));
    assert_eq!(
        register_for_election(&mut store, late.id, e.id, 100),
        Err(Error::RegistrationClosed)
    );
    assert_eq!(
        register_for_election(&mut store, late.id, e.id, 150),
        Err(Error::RegistrationClosed)
    );
    assert_eq!(
        register_for_election(&mut store, late.id, e.id, 201),
        Err(Error::RegistrationClosed)
    );
    assert_eq!(store.lookup_voter(early.id).unwrap().registered_elections, vec![e.id]);
    assert_eq!(store.lookup_voter(late.id).unwrap().registered_elections, Vec::<u64>::new());
}

#[test]
fn registration_of_unknown_voter_or_election_is_not_found() {
    let mut store = Store::new();
    let e = create_election(&mut store, "Board".to_string(), names(&["A"]), 100, 200).unwrap();
    let v = register_voter(&mut store, "v".to_string()).unwrap();
    assert_eq!(register_for_election(&mut store, v.id + 10, e.id, 0), Err(Error::NotFound));
    assert_eq!(register_for_election(&mut store, v.id, e.id + 10, 0), Err(Error::NotFound));
    assert_eq!(register_for_election(&mut store, e.id, v.id, 0), Err(Error::NotFound));
}

#[test]
fn registering_twice_registers_once() {
    let mut store = Store::new();
    let e1 = create_election(&mut store, "One".to_string(), names(&["A"]), 100, 200).unwrap();
    let e2 = create_election(&mut store, "Two".to_string(), names(&["A"]), 100, 200).unwrap();
    let v = register_voter(&mut store, "v".to_string()).unwrap();
    assert_eq!(register_for_election(&mut store, v.id, e1.id, 0), Ok(()));
    assert_eq!(register_for_election(&mut store, v.id, e2.id, 1), Ok(()));
    assert_eq!(register_for_election(&mut store, v.id, e1.id, 2), Ok(()));
    let stored = store.lookup_voter(v.id).unwrap();
    assert_eq!(stored.registered_elections, vec![e1.id, e2.id]);
    assert_eq!(stored.username, "v");
}

#[test]
fn a_voter_may_register_for_many_elections() {
    let mut store = Store::new();
    let v = register_voter(&mut store, "v".to_string()).unwrap();
    let mut expected = Vec::new();
    for _ in 0..200 {
        let e = create_election(&mut store, "e".to_string(), Vec::new(), 100, 200).unwrap();
        assert_eq!(register_for_election(&mut store, v.id, e.id, 0), Ok(()));
        expected.push(e.id);
    }
    assert_eq!(store.lookup_voter(v.id).unwrap().registered_elections, expected);
}

#[test]
fn register_voter_starts_without_registrations() {
    let mut store = Store::new();
    let v = register_voter(&mut store, "Zoë".to_string()).unwrap();
    assert_eq!(v.id, 0);
    assert_eq!(v.username, "Zoë");
    assert!(v.registered_elections.is_empty());
    assert_eq!(store.lookup_voter(0), Some(v));
    assert_eq!(store.lookup_voter(1), None);
    let long = register_voter(&mut store, "n".repeat(1024)).unwrap();
    assert_eq!(long.id, 1);
    assert_eq!(store.lookup_voter(1), Some(long));
}

#[test]
fn contains_id_finds_what_is_there() {
    assert!(contains_id(&vec![3, 1, 2], 1));
    assert!(contains_id(&vec![3, 1, 2], 2));
    assert!(!contains_id(&vec![3, 1, 2], 4));
    assert!(!contains_id(&Vec::new(), 0));
}
