use decentralized_voting_system_backend::ballot_creation::{
    create_ballot, get_ballot, get_ballots_for_election,
};
use decentralized_voting_system_backend::elections::create_election;
use decentralized_voting_system_backend::records::{
    copy_nums, copy_texts, Ballot, Election, Record, User, Vote, Voter,
};
use decentralized_voting_system_backend::row::{decode_row, encode_row, Row};
use decentralized_voting_system_backend::store::Store;
use decentralized_voting_system_backend::user_management::{
    get_user, is_user_registered_for_election, register_user,
};
use decentralized_voting_system_backend::voters::register_voter;

fn names(list: &[&str]) -> Vec<String> {
    list.iter().map(|s| s.to_string()).collect()
}

#[test]
fn new_store_is_empty_and_starts_at_zero() {
    let store = Store::new();
    assert_eq!(store.peek_id(), 0);
    assert!(store.all_votes().is_empty());
    assert!(store.all_elections().is_empty());
    assert!(store.all_ballots().is_empty());
    assert_eq!(store.lookup_vote(0), None);
    assert_eq!(store.lookup_election(0), None);
    assert_eq!(store.lookup_voter(0), None);
    assert_eq!(store.lookup_ballot(0), None);
    assert_eq!(store.lookup_user(0), None);
}

#[test]
fn two_stores_do_not_share_state() {
    let mut a = Store::new();
    let b = Store::new();
    register_user(&mut a, "a".to_string()).unwrap();
    assert_eq!(a.peek_id(), 1);
    assert_eq!(b.peek_id(), 0);
    assert_eq!(b.lookup_user(0), None);
}

#[test]
fn next_id_counts_up_from_zero() {
    let mut store = Store::new();
    assert_eq!(store.next_id(), Some(0));
    assert_eq!(store.next_id(), Some(1));
    assert_eq!(store.peek_id(), 2);
    assert_eq!(store.next_id(), Some(2));
    assert_eq!(store.peek_id(), 3);
}

#[test]
fn identifiers_are_shared_by_all_kinds_of_record() {
    let mut store = Store::new();
    let voter = register_voter(&mut store, "v".to_string()).unwrap();
    let election = create_election(&mut store, "e".to_string(), names(&["A"]), 1, 2).unwrap();
    let user = register_user(&mut store, "u".to_string()).unwrap();
    let ballot = create_ballot(&mut store, election.id, names(&["yes", "no"]), 1, 2).unwrap();
    assert_eq!((voter.id, election.id, user.id, ballot.id), (0, 1, 2, 3));
    assert_eq!(store.lookup_voter(1), None);
    assert_eq!(store.lookup_election(0), None);
    assert_eq!(store.lookup_user(3), None);
    assert_eq!(store.lookup_ballot(2), None);
}

#[test]
fn lists_come_in_order_of_identifier() {
    let mut store = Store::new();
    for i in 0..40u64 {
        let e = create_election(&mut store, format!("e{}", i), Vec::new(), i, i + 1).unwrap();
        assert_eq!(e.id, i);
    }
    let all = store.all_elections();
    assert_eq!(all.len(), 40);
    for (i, e) in all.iter().enumerate() {
        assert_eq!(e.id, i as u64);
        assert_eq!(e.title, format!("e{}", i));
        assert_eq!(e.start_time, i as u64);
    }
}

#[test]
fn create_ballot_stores_what_it_returns() {
    let mut store = Store::new();
    let b = create_ballot(&mut store, 7, names(&["yes", "no"]), 10, 20).unwrap();
    assert_eq!(
        b,
        Ballot { id: 0, election_id: 7, options: names(&["yes", "no"]), start_time: 10, end_time: 20 }
    );
    assert_eq!(get_ballot(&store, 0), Some(b));
    assert_eq!(get_ballot(&store, 1), None);
}

#[test]
fn create_ballot_needs_a_window_that_grows() {
    let mut store = Store::new();
    assert_eq!(create_ballot(&mut store, 7, names(&["yes"]), 20, 20), None);
    assert_eq!(create_ballot(&mut store, 7, names(&["yes"]), 20, 10), None);
    assert_eq!(get_ballot(&store, 0), None);
    assert_eq!(store.peek_id(), 2);
    assert_eq!(create_ballot(&mut store, 7, names(&["yes"]), 20, 21).unwrap().id, 2);
}

#[test]
fn create_ballot_takes_many_options() {
    let mut store = Store::new();
    let many: Vec<String> = (0..200).map(|i| format!("option {}", i)).collect();
    let b = create_ballot(&mut store, 7, many.clone(), 1, 2).unwrap();
    assert_eq!(b.options, many);
    assert_eq!(get_ballot(&store, b.id), Some(b));
}

#[test]
fn ballots_of_one_election_in_order_of_identifier() {
    let mut store = Store::new();
    let a = create_ballot(&mut store, 7, names(&["a"]), 1, 2).unwrap();
    let b = create_ballot(&mut store, 8, names(&["b"]), 1, 2).unwrap();
    let c = create_ballot(&mut store, 7, names(&["c"]), 1, 2).unwrap();
    assert_eq!(get_ballots_for_election(&store, 7), vec![a, c]);
    assert_eq!(get_ballots_for_election(&store, 8), vec![b]);
    assert_eq!(get_ballots_for_election(&store, 9), Vec::new());
}

#[test]
fn register_user_stores_what_it_returns() {
    let mut store = Store::new();
    let u = register_user(&mut store, "ada".to_string()).unwrap();
    assert_eq!(u, User { id: 0, username: "ada".to_string() });
    assert_eq!(get_user(&store, 0), Some(u));
    assert_eq!(get_user(&store, 1), None);
    let long = register_user(&mut store, "x".repeat(1100)).unwrap();
    assert_eq!(long.id, 1);
    assert_eq!(get_user(&store, 1), Some(long));
    assert_eq!(store.peek_id(), 2);
}

#[test]
fn every_user_counts_as_registered() {
    let mut store = Store::new();
    let u = register_user(&mut store, "ada".to_string()).unwrap();
    assert!(is_user_registered_for_election(&store, u.id, 0));
    assert!(is_user_registered_for_election(&store, u.id, 99));
    assert!(!is_user_registered_for_election(&store, u.id + 1, 0));
}

#[test]
fn row_bytes_are_counts_integers_and_framed_texts() {
    let row = Row { nums: vec![1, 0x0102030405060708], texts: vec!["A".to_string(), "é".to_string()] };
    let mut expected: Vec<u8> = Vec::new();
    expected.extend_from_slice(&[2, 0, 0, 0, 0, 0, 0, 0]);
    expected.extend_from_slice(&[1, 0, 0, 0, 0, 0, 0, 0]);
    expected.extend_from_slice(&[8, 7, 6, 5, 4, 3, 2, 1]);
    expected.extend_from_slice(&[1, 0, 0, 0, 0, 0, 0, 0, 65]);
    expected.extend_from_slice(&[2, 0, 0, 0, 0, 0, 0, 0, 0xC3, 0xA9]);
    assert_eq!(encode_row(&row), expected);
}

#[test]
fn empty_row_is_eight_zero_bytes() {
    let row = Row { nums: Vec::new(), texts: Vec::new() };
    assert_eq!(encode_row(&row), vec![0u8; 8]);
    let back = decode_row(&vec![0u8; 8]).unwrap();
    assert!(back.nums.is_empty());
    assert!(back.texts.is_empty());
}

#[test]
fn rows_are_read_back_as_written() {
    let row = Row {
        nums: vec![0, u64::MAX, 42],
        texts: vec!["".to_string(), "日本語".to_string(), "plain".to_string()],
    };
    let back = decode_row(&encode_row(&row)).unwrap();
    assert_eq!(back.nums, row.nums);
    assert_eq!(back.texts, row.texts);
}

#[test]
fn bytes_that_are_no_row_are_refused() {
    assert!(decode_row(&Vec::new()).is_none());
    assert!(decode_row(&vec![0u8; 7]).is_none());
    // one integer announced, none given
    assert!(decode_row(&vec![1, 0, 0, 0, 0, 0, 0, 0]).is_none());
    // a text of three bytes announced, two given
    let mut cut = vec![0u8; 8];
    cut.extend_from_slice(&[3, 0, 0, 0, 0, 0, 0, 0, 65, 66]);
    assert!(decode_row(&cut).is_none());
    // a text that is not UTF-8
    let mut bad = vec![0u8; 8];
    bad.extend_from_slice(&[2, 0, 0, 0, 0, 0, 0, 0, 0xC3, 0x28]);
    assert!(decode_row(&bad).is_none());
    // a length cut short after a complete text
    let mut tail = vec![0u8; 8];
    tail.extend_from_slice(&[1, 0, 0, 0, 0, 0, 0, 0, 65, 9, 9]);
    assert!(decode_row(&tail).is_none());
}

#[test]
fn records_are_read_back_from_their_rows() {
    let vote = Vote { id: 9, voter_id: 1, candidate: "A".to_string(), election_id: 2, timestamp: 3 };
    assert_eq!(Vote::from_row(9, &vote.to_row()), Some(vote.clone()));
    assert_eq!(vote.to_row().nums, vec![1, 2, 3]);
    assert_eq!(vote.to_row().texts, names(&["A"]));

    let election = Election {
        id: 4,
        title: "Board".to_string(),
        candidates: names(&["A", "B"]),
        start_time: 100,
        end_time: 200,
    };
    assert_eq!(Election::from_row(4, &election.to_row()), Some(election.clone()));
    assert_eq!(election.to_row().nums, vec![100, 200]);
    assert_eq!(election.to_row().texts, names(&["Board", "A", "B"]));
    assert_eq!(election.duplicate(), election);

    let voter = Voter { id: 5, username: "v".to_string(), registered_elections: vec![4, 8] };
    assert_eq!(Voter::from_row(5, &voter.to_row()), Some(voter.clone()));
    assert_eq!(voter.to_row().nums, vec![4, 8]);

    let ballot = Ballot {
        id: 6,
        election_id: 4,
        options: names(&["yes", "no"]),
        start_time: 1,
        end_time: 2,
    };
    assert_eq!(Ballot::from_row(6, &ballot.to_row()), Some(ballot.clone()));
    assert_eq!(ballot.to_row().nums, vec![4, 1, 2]);
    assert_eq!(ballot.duplicate(), ballot);

    let user = User { id: 7, username: "u".to_string() };
    assert_eq!(User::from_row(7, &user.to_row()), Some(user.clone()));
    assert!(user.to_row().nums.is_empty());

    assert_eq!(
        (Record::id(&vote), Record::id(&election), voter.id(), ballot.id(), user.id()),
        (9, 4, 5, 6, 7)
    );
}

#[test]
fn rows_of_another_shape_are_no_record() {
    let row = Row { nums: vec![1, 2], texts: vec!["x".to_string()] };
    assert_eq!(Vote::from_row(0, &row), None);
    assert_eq!(Ballot::from_row(0, &row), None);
    assert_eq!(User::from_row(0, &row), None);
    assert!(Election::from_row(0, &row).is_some());
    assert!(Voter::from_row(0, &row).is_some());
    let bare = Row { nums: vec![1, 2], texts: Vec::new() };
    assert_eq!(Election::from_row(0, &bare), None);
    assert_eq!(Voter::from_row(0, &bare), None);
}

#[test]
fn copies_keep_the_elements() {
    assert_eq!(copy_nums(&vec![3, 1, 2]), vec![3, 1, 2]);
    assert_eq!(copy_texts(&names(&["a", "b", "c"]), 0), names(&["a", "b", "c"]));
    assert_eq!(copy_texts(&names(&["a", "b", "c"]), 1), names(&["b", "c"]));
    assert_eq!(copy_texts(&names(&["a", "b", "c"]), 3), Vec::<String>::new());
}
