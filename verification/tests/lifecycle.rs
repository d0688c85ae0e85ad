use decentralized_voting_system_backend::elections::{
    create_election, elections_by_phase, get_available_elections, get_election,
    get_ongoing_elections, is_election_ongoing,
};
use decentralized_voting_system_backend::lifecycle::{election_phase, is_election_ended, Phase};
use decentralized_voting_system_backend::records::{Election, Error};
use decentralized_voting_system_backend::store::Store;

fn names(list: &[&str]) -> Vec<String> {
    list.iter().map(|s| s.to_string()).collect()
}

fn election(start_time: u64, end_time: u64) -> Election {
    Election { id: 7, title: "t".to_string(), candidates: names(&["A"]), start_time, end_time }
}

#[test]
fn phase_is_not_yet_open_before_the_start() {
    let e = election(100, 200);
    assert_eq!(election_phase(&e, 0), Phase::NotYetOpen);
    assert_eq!(election_phase(&e, 99), Phase::NotYetOpen);
}

#[test]
fn phase_is_open_on_both_bounds() {
    let e = election(100, 200);
    assert_eq!(election_phase(&e, 100), Phase::Open);
    assert_eq!(election_phase(&e, 150), Phase::Open);
    assert_eq!(election_phase(&e, 200), Phase::Open);
}

#[test]
fn phase_is_closed_after_the_end() {
    let e = election(100, 200);
    assert_eq!(election_phase(&e, 201), Phase::Closed);
    assert_eq!(election_phase(&e, u64::MAX), Phase::Closed);
}

#[test]
fn phase_never_goes_back() {
    let e = election(100, 200);
    let rank = |p: Phase| match p {
        Phase::NotYetOpen => 0,
        Phase::Open => 1,
        Phase::Closed => 2,
    };
    let times = [0u64, 50, 99, 100, 101, 199, 200, 201, 1000];
    for w in times.windows(2) {
        assert!(rank(election_phase(&e, w[0])) <= rank(election_phase(&e, w[1])));
    }
}

#[test]
fn ended_only_after_the_end() {
    let e = election(100, 200);
    assert!(!is_election_ended(&e, 199));
    assert!(!is_election_ended(&e, 200));
    assert!(is_election_ended(&e, 201));
}

#[test]
fn create_election_stores_what_it_returns() {
    let mut store = Store::new();
    let e = create_election(&mut store, "Board".to_string(), names(&["A", "B"]), 100, 200)
        .unwrap();
    assert_eq!(e.id, 0);
    assert_eq!(e.title, "Board");
    assert_eq!(e.candidates, names(&["A", "B"]));
    assert_eq!(e.start_time, 100);
    assert_eq!(e.end_time, 200);
    assert_eq!(get_election(&store, 0), Ok(e));
}

#[test]
fn create_election_without_candidates() {
    let mut store = Store::new();
    let e = create_election(&mut store, "Empty".to_string(), Vec::new(), 1, 2).unwrap();
    assert_eq!(get_election(&store, e.id).unwrap().candidates, Vec::<String>::new());
}

#[test]
fn create_election_rejects_a_window_that_does_not_grow() {
    let mut store = Store::new();
    assert_eq!(
        create_election(&mut store, "x".to_string(), names(&["A"]), 200, 100),
        Err(Error::InvalidTimeWindow)
    );
    assert_eq!(
        create_election(&mut store, "x".to_string(), names(&["A"]), 100, 100),
        Err(Error::InvalidTimeWindow)
    );
    assert_eq!(get_election(&store, 0), Err(Error::NotFound));
    assert_eq!(get_election(&store, 1), Err(Error::NotFound));
}

#[test]
fn a_rejected_election_uses_up_its_identifier() {
    let mut store = Store::new();
    assert!(create_election(&mut store, "x".to_string(), Vec::new(), 5, 5).is_err());
    assert_eq!(store.peek_id(), 1);
    let e = create_election(&mut store, "y".to_string(), Vec::new(), 5, 6).unwrap();
    assert_eq!(e.id, 1);
}

#[test]
fn create_election_takes_many_candidates_and_a_long_title() {
    let mut store = Store::new();
    let many: Vec<String> = (0..130).map(|_| "A".to_string()).collect();
    let e = create_election(&mut store, "T".to_string(), many.clone(), 100, 200).unwrap();
    assert_eq!(e.id, 0);
    assert_eq!(e.candidates, many);
    assert_eq!(get_election(&store, 0), Ok(e));

    let long = "x".repeat(20_000);
    let e = create_election(&mut store, long.clone(), names(&["A"]), 1, 2).unwrap();
    assert_eq!(e.id, 1);
    assert_eq!(get_election(&store, 1).unwrap().title, long);
    assert_eq!(store.peek_id(), 2);
}

#[test]
fn get_election_of_unknown_id_is_not_found() {
    let store = Store::new();
    assert_eq!(get_election(&store, 3), Err(Error::NotFound));
}

#[test]
fn ongoing_follows_the_window() {
    let mut store = Store::new();
    let e = create_election(&mut store, "a".to_string(), names(&["A"]), 100, 200).unwrap();
    assert!(!is_election_ongoing(&store, e.id, 99));
    assert!(is_election_ongoing(&store, e.id, 100));
    assert!(is_election_ongoing(&store, e.id, 200));
    assert!(!is_election_ongoing(&store, e.id, 201));
    assert!(!is_election_ongoing(&store, e.id + 1, 150));
}

#[test]
fn elections_are_listed_by_phase_in_order_of_identifier() {
    let mut store = Store::new();
    let a = create_election(&mut store, "a".to_string(), names(&["A"]), 100, 200).unwrap();
    let b = create_election(&mut store, "b".to_string(), names(&["B"]), 150, 300).unwrap();
    let c = create_election(&mut store, "c".to_string(), names(&["C"]), 10, 120).unwrap();

    let ids = |list: Vec<Election>| list.iter().map(|e| e.id).collect::<Vec<u64>>();

    assert_eq!(ids(get_ongoing_elections(&store, 110)), vec![a.id, c.id]);
    assert_eq!(ids(get_available_elections(&store, 110)), vec![b.id]);
    assert_eq!(ids(elections_by_phase(&store, 110, Phase::Closed)), Vec::<u64>::new());

    assert_eq!(ids(get_ongoing_elections(&store, 5)), Vec::<u64>::new());
    assert_eq!(ids(get_available_elections(&store, 5)), vec![a.id, b.id, c.id]);

    assert_eq!(ids(get_ongoing_elections(&store, 250)), vec![b.id]);
    assert_eq!(ids(elections_by_phase(&store, 250, Phase::Closed)), vec![a.id, c.id]);

    let open = get_ongoing_elections(&store, 160);
    assert_eq!(open, vec![a, b]);
}
