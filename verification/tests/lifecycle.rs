use e_voting_system::models::{ElectionStatus, VoteError};
use e_voting_system::store::Store;

fn two_position_election(store: &mut Store) -> i64 {
    store
        .create_election_at(
            "General".to_string(),
            vec!["President".to_string(), "Secretary".to_string()],
            "2025-01-01T00:00:00+00:00".to_string(),
        )
        .unwrap()
}

#[test]
fn create_election_assigns_draft_and_positions() {
    let mut store = Store::new();
    let eid = two_position_election(&mut store);
    assert_eq!(eid, 1);
    let elections = store.list_elections();
    assert_eq!(elections.len(), 1);
    assert_eq!(elections[0].id, 1);
    assert_eq!(elections[0].name, "General");
    assert_eq!(elections[0].status, ElectionStatus::Draft);
    assert_eq!(
        elections[0].positions,
        vec!["President".to_string(), "Secretary".to_string()]
    );
    assert!(!store.is_open(eid));
}

#[test]
fn create_election_rejects_empty_name() {
    let mut store = Store::new();
    let r = store.create_election_at(
        "".to_string(),
        vec!["President".to_string()],
        "t".to_string(),
    );
    assert_eq!(r, Err(VoteError::ValidationError));
    assert_eq!(store.list_elections().len(), 0);
}

#[test]
fn create_election_rejects_empty_positions() {
    let mut store = Store::new();
    let r = store.create_election_at("General".to_string(), vec![], "t".to_string());
    assert_eq!(r, Err(VoteError::ValidationError));
    assert_eq!(store.list_elections().len(), 0);
}

#[test]
fn open_is_idempotent_and_close_from_draft_is_refused() {
    let mut store = Store::new();
    let eid = two_position_election(&mut store);
    // close from Draft is an invalid transition
    assert_eq!(store.close_election(eid), Err(VoteError::InvalidTransition));
    // the first open transitions, the second is a no-op success
    assert_eq!(store.open_election(eid), Ok(()));
    assert!(store.is_open(eid));
    let snapshot = store.list_elections().clone();
    assert_eq!(store.open_election(eid), Ok(()));
    assert!(store.is_open(eid));
    assert_eq!(store.list_elections(), &snapshot);
    assert_eq!(store.list_elections()[0].status, ElectionStatus::Open);
}

#[test]
fn closed_is_terminal() {
    let mut store = Store::new();
    let eid = two_position_election(&mut store);
    store.open_election(eid).unwrap();
    assert_eq!(store.close_election(eid), Ok(()));
    assert!(!store.is_open(eid));
    assert_eq!(store.open_election(eid), Err(VoteError::InvalidTransition));
    assert_eq!(store.close_election(eid), Err(VoteError::InvalidTransition));
}

#[test]
fn transitions_on_unknown_election_are_not_found() {
    let mut store = Store::new();
    assert_eq!(store.open_election(9), Err(VoteError::NotFound));
    assert_eq!(store.close_election(9), Err(VoteError::NotFound));
}

#[test]
fn add_candidate_checks_election_and_position() {
    let mut store = Store::new();
    let eid = two_position_election(&mut store);
    assert_eq!(
        store.add_candidate(77, 0, "A".to_string(), "P1".to_string()),
        Err(VoteError::NotFound)
    );
    assert_eq!(
        store.add_candidate(eid, 2, "A".to_string(), "P1".to_string()),
        Err(VoteError::NotFound)
    );
    let cid = store
        .add_candidate(eid, 0, "A".to_string(), "P1".to_string())
        .unwrap();
    assert_eq!(cid, 1);
}

#[test]
fn list_candidates_groups_by_position() {
    let mut store = Store::new();
    let eid = two_position_election(&mut store);
    // registered out of position order
    let c_sec = store
        .add_candidate(eid, 1, "C".to_string(), "P3".to_string())
        .unwrap();
    let c_pre = store
        .add_candidate(eid, 0, "A".to_string(), "P1".to_string())
        .unwrap();
    let listed = store.list_candidates(eid).unwrap();
    assert_eq!(listed.len(), 2);
    assert_eq!(listed[0].id, c_pre);
    assert_eq!(listed[0].position_index, 0);
    assert_eq!(listed[1].id, c_sec);
    assert_eq!(listed[1].position_index, 1);
    assert_eq!(store.list_candidates(9), Err(VoteError::NotFound));
}

#[test]
fn cast_vote_is_gated_on_the_open_state() {
    let mut store = Store::new();
    let eid = two_position_election(&mut store);
    let cid = store
        .add_candidate(eid, 0, "A".to_string(), "P1".to_string())
        .unwrap();
    // Draft: rejected, nothing committed
    assert_eq!(
        store.cast_vote_at(eid, 1, 0, cid, "t1".to_string()),
        Err(VoteError::ElectionNotOpen)
    );
    assert!(!store.has_voted(1, eid));
    // unknown election counts as not open
    assert_eq!(
        store.cast_vote_at(9, 1, 0, cid, "t1".to_string()),
        Err(VoteError::ElectionNotOpen)
    );
    store.open_election(eid).unwrap();
    assert_eq!(store.cast_vote_at(eid, 1, 0, cid, "t1".to_string()), Ok(()));
    // Closed: rejected again, nothing further committed
    store.close_election(eid).unwrap();
    assert_eq!(
        store.cast_vote_at(eid, 2, 0, cid, "t2".to_string()),
        Err(VoteError::ElectionNotOpen)
    );
    assert!(store.has_voted(1, eid));
    assert!(!store.has_voted(2, eid));
}

#[test]
fn cast_vote_rejects_unknown_and_mismatched_candidates() {
    let mut store = Store::new();
    let e1 = two_position_election(&mut store);
    let e2 = store
        .create_election_at(
            "Board".to_string(),
            vec!["Chair".to_string()],
            "t".to_string(),
        )
        .unwrap();
    let c1 = store
        .add_candidate(e1, 0, "A".to_string(), "P1".to_string())
        .unwrap();
    let c2 = store
        .add_candidate(e2, 0, "Z".to_string(), "P9".to_string())
        .unwrap();
    store.open_election(e1).unwrap();
    store.open_election(e2).unwrap();
    // a candidate id that exists nowhere
    assert_eq!(
        store.cast_vote_at(e1, 1, 0, 999, "t".to_string()),
        Err(VoteError::NotFound)
    );
    // exists, but belongs to the other election: a mismatch, not NotFound
    assert_eq!(
        store.cast_vote_at(e1, 1, 0, c2, "t".to_string()),
        Err(VoteError::CandidateMismatch)
    );
    // exists in this election, but cited under the wrong position
    assert_eq!(
        store.cast_vote_at(e1, 1, 1, c1, "t".to_string()),
        Err(VoteError::CandidateMismatch)
    );
    assert!(!store.has_voted(1, e1));
}

#[test]
fn one_vote_per_voter_per_election() {
    let mut store = Store::new();
    let eid = two_position_election(&mut store);
    let a = store
        .add_candidate(eid, 0, "A".to_string(), "P1".to_string())
        .unwrap();
    let b = store
        .add_candidate(eid, 0, "B".to_string(), "P2".to_string())
        .unwrap();
    let c = store
        .add_candidate(eid, 1, "C".to_string(), "P3".to_string())
        .unwrap();
    store.open_election(eid).unwrap();
    assert_eq!(store.cast_vote_at(eid, 1, 0, a, "t".to_string()), Ok(()));
    // the same ballot again
    assert_eq!(
        store.cast_vote_at(eid, 1, 0, a, "t".to_string()),
        Err(VoteError::AlreadyVoted)
    );
    // another candidate, even another position: still one vote per election
    assert_eq!(
        store.cast_vote_at(eid, 1, 0, b, "t".to_string()),
        Err(VoteError::AlreadyVoted)
    );
    assert_eq!(
        store.cast_vote_at(eid, 1, 1, c, "t".to_string()),
        Err(VoteError::AlreadyVoted)
    );
    assert_eq!(store.votes.len(), 1);
    // a different voter is independent
    assert_eq!(store.cast_vote_at(eid, 2, 0, b, "t".to_string()), Ok(()));
}

#[test]
fn round_trip_create_vote_tally() {
    let mut store = Store::new();
    let eid = two_position_election(&mut store);
    let a = store
        .add_candidate(eid, 0, "A".to_string(), "P1".to_string())
        .unwrap();
    let b = store
        .add_candidate(eid, 0, "B".to_string(), "P2".to_string())
        .unwrap();
    let c = store
        .add_candidate(eid, 1, "C".to_string(), "P3".to_string())
        .unwrap();
    store.open_election(eid).unwrap();
    store.cast_vote_at(eid, 1, 0, a, "t1".to_string()).unwrap();
    store.cast_vote_at(eid, 2, 0, a, "t2".to_string()).unwrap();
    store.cast_vote_at(eid, 3, 0, b, "t3".to_string()).unwrap();
    store.cast_vote_at(eid, 4, 1, c, "t4".to_string()).unwrap();

    let result = store.tally(eid).unwrap();
    assert_eq!(result.len(), 2);
    assert_eq!(result[0].position_index, 0);
    assert_eq!(result[0].rows.len(), 2);
    assert_eq!(result[0].rows[0].candidate_id, a);
    assert_eq!(result[0].rows[0].name, "A");
    assert_eq!(result[0].rows[0].party, "P1");
    assert_eq!(result[0].rows[0].count, 2);
    assert_eq!(result[0].rows[1].candidate_id, b);
    assert_eq!(result[0].rows[1].count, 1);
    assert_eq!(result[1].position_index, 1);
    assert_eq!(result[1].rows.len(), 1);
    assert_eq!(result[1].rows[0].candidate_id, c);
    assert_eq!(result[1].rows[0].count, 1);

    // a fifth vote attempt by the first voter fails
    assert_eq!(
        store.cast_vote_at(eid, 1, 0, b, "t5".to_string()),
        Err(VoteError::AlreadyVoted)
    );
}

#[test]
fn tally_is_deterministic_and_breaks_ties_by_ascending_id() {
    let mut store = Store::new();
    let eid = store
        .create_election_at(
            "General".to_string(),
            vec!["President".to_string()],
            "t".to_string(),
        )
        .unwrap();
    // register in descending-name order so ids decide, not names
    let x = store
        .add_candidate(eid, 0, "X".to_string(), "P1".to_string())
        .unwrap();
    let y = store
        .add_candidate(eid, 0, "Y".to_string(), "P2".to_string())
        .unwrap();
    let z = store
        .add_candidate(eid, 0, "Z".to_string(), "P3".to_string())
        .unwrap();
    store.open_election(eid).unwrap();
    // one vote each for y and z, none for x: equal counts sort by id ascending
    store.cast_vote_at(eid, 1, 0, z, "t".to_string()).unwrap();
    store.cast_vote_at(eid, 2, 0, y, "t".to_string()).unwrap();
    let r1 = store.tally(eid).unwrap();
    let r2 = store.tally(eid).unwrap();
    assert_eq!(r1, r2);
    let rows = &r1[0].rows;
    assert_eq!(rows.len(), 3);
    // y and z tie with one vote each: ascending id order
    assert_eq!(rows[0].candidate_id, y);
    assert_eq!(rows[1].candidate_id, z);
    // x trails with zero votes but still appears
    assert_eq!(rows[2].candidate_id, x);
    assert_eq!(rows[2].count, 0);
}

#[test]
fn tally_of_unknown_election_is_not_found() {
    let store = Store::new();
    assert_eq!(store.tally(5), Err(VoteError::NotFound));
}

#[test]
fn tally_skips_positions_without_candidates() {
    let mut store = Store::new();
    let eid = two_position_election(&mut store);
    store
        .add_candidate(eid, 1, "C".to_string(), "P3".to_string())
        .unwrap();
    let result = store.tally(eid).unwrap();
    assert_eq!(result.len(), 1);
    assert_eq!(result[0].position_index, 1);
    assert_eq!(result[0].rows[0].count, 0);
}

#[test]
fn clocked_operations_stamp_and_commit() {
    let mut store = Store::new();
    let eid = store
        .create_election(
            "General".to_string(),
            vec!["President".to_string()],
        )
        .unwrap();
    let cid = store
        .add_candidate(eid, 0, "A".to_string(), "P1".to_string())
        .unwrap();
    store.open_election(eid).unwrap();
    assert_eq!(store.cast_vote(eid, 7, 0, cid), Ok(()));
    assert!(store.has_voted(7, eid));
    assert!(!store.list_elections()[0].created_at.is_empty());
    assert!(!store.votes[0].cast_at.is_empty());
}

#[test]
fn update_and_delete_administration() {
    let mut store = Store::new();
    let e1 = two_position_election(&mut store);
    let e2 = store
        .create_election_at(
            "Board".to_string(),
            vec!["Chair".to_string()],
            "t".to_string(),
        )
        .unwrap();
    let c1 = store
        .add_candidate(e1, 0, "A".to_string(), "P1".to_string())
        .unwrap();
    let c2 = store
        .add_candidate(e2, 0, "Z".to_string(), "P9".to_string())
        .unwrap();

    store.update_election_name(e1, "General 2025".to_string());
    assert_eq!(store.list_elections()[0].name, "General 2025");

    store.update_candidate(c1, "A2".to_string(), "P1b".to_string());
    let listed = store.list_candidates(e1).unwrap();
    assert_eq!(listed[0].name, "A2");
    assert_eq!(listed[0].party, "P1b");

    // deleting the first election cascades to its candidates only
    store.delete_election(e1);
    assert_eq!(store.list_elections().len(), 1);
    assert_eq!(store.list_candidates(e1), Err(VoteError::NotFound));
    assert_eq!(store.tally(e1), Err(VoteError::NotFound));
    let remaining = store.list_candidates(e2).unwrap();
    assert_eq!(remaining.len(), 1);
    assert_eq!(remaining[0].id, c2);

    store.remove_candidate(c2);
    assert_eq!(store.list_candidates(e2).unwrap().len(), 0);

    // unknown ids change nothing
    store.update_election_name(99, "x".to_string());
    store.update_candidate(99, "x".to_string(), "y".to_string());
    store.remove_candidate(99);
    store.delete_election(99);
    assert_eq!(store.list_elections().len(), 1);
}
