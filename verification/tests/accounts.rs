use e_voting_system::auth::{hash_password, verify_password};
use e_voting_system::models::{Candidate, Election, ElectionStatus, Registration, Vote, Voter};
use e_voting_system::store::Store;

#[test]
fn password_hash_round_trip() {
    let hash = hash_password("1234");
    // a real PHC hash, not the plain secret handed back
    assert_ne!(hash, "1234");
    assert!(verify_password(&hash, "1234"));
    assert!(!verify_password(&hash, "4321"));
    // an unparsable hash verifies nothing
    assert!(!verify_password("not a hash", "1234"));
}

#[test]
fn register_and_login() {
    let mut store = Store::new();
    let vid = store.register_voter("Ada Lovelace".to_string(), "1815-12-10".to_string(), "1234");
    assert_eq!(vid, 1);
    assert_eq!(
        store.voter_login(&"Ada Lovelace".to_string(), "1234"),
        Some(vid)
    );
    assert_eq!(store.voter_login(&"Ada Lovelace".to_string(), "9999"), None);
    assert_eq!(store.voter_login(&"Nobody".to_string(), "1234"), None);
}

#[test]
fn login_resolves_the_first_voter_with_the_name() {
    let mut store = Store::new();
    let first = store.register_voter("Kim Gray".to_string(), "1990-01-01".to_string(), "aaaa");
    let _second = store.register_voter("Kim Gray".to_string(), "1991-02-02".to_string(), "bbbb");
    // the first enrollment decides, so its credential logs in ...
    assert_eq!(store.voter_login(&"Kim Gray".to_string(), "aaaa"), Some(first));
    // ... and the second one's does not
    assert_eq!(store.voter_login(&"Kim Gray".to_string(), "bbbb"), None);
}

#[test]
fn remove_voter_keeps_their_votes() {
    let mut store = Store::new();
    let eid = store
        .create_election_at(
            "General".to_string(),
            vec!["President".to_string()],
            "t".to_string(),
        )
        .unwrap();
    let cid = store
        .add_candidate(eid, 0, "A".to_string(), "P1".to_string())
        .unwrap();
    store.open_election(eid).unwrap();
    let vid = store.register_voter("Ada".to_string(), "1815-12-10".to_string(), "1234");
    store.cast_vote_at(eid, vid, 0, cid, "t".to_string()).unwrap();
    store.remove_voter(vid);
    assert_eq!(store.voter_login(&"Ada".to_string(), "1234"), None);
    // the ledger is never thinned
    assert!(store.has_voted(vid, eid));
    assert_eq!(store.tally(eid).unwrap()[0].rows[0].count, 1);
    // removing an unknown voter changes nothing
    store.remove_voter(99);
    assert_eq!(store.voters.len(), 0);
}

fn sample_rows() -> (Vec<Election>, Vec<Candidate>, Vec<Registration>, Vec<Vote>) {
    let elections = vec![Election {
        id: 1,
        name: "General".to_string(),
        status: ElectionStatus::Open,
        created_at: "t".to_string(),
        positions: vec!["President".to_string()],
    }];
    let candidates = vec![Candidate {
        id: 1,
        election_id: 1,
        position_index: 0,
        name: "A".to_string(),
        party: "P1".to_string(),
    }];
    let voters = vec![Registration {
        voter: Voter {
            id: 1,
            fullname: "Ada".to_string(),
            dob: "1815-12-10".to_string(),
        },
        pinhash: "opaque".to_string(),
    }];
    let votes = vec![
        Vote {
            id: 1,
            election_id: 1,
            voter_id: 1,
            position_index: 0,
            candidate_id: 1,
            cast_at: "t".to_string(),
        },
        Vote {
            id: 2,
            election_id: 1,
            voter_id: 2,
            position_index: 0,
            candidate_id: 1,
            cast_at: "t".to_string(),
        },
    ];
    (elections, candidates, voters, votes)
}

#[test]
fn from_parts_accepts_a_well_formed_snapshot() {
    let (elections, candidates, voters, votes) = sample_rows();
    let store = Store::from_parts(elections, candidates, voters, votes, 2, 2, 2, 3).unwrap();
    assert!(store.is_open(1));
    assert!(store.has_voted(1, 1));
    assert_eq!(store.tally(1).unwrap()[0].rows[0].count, 2);
}

#[test]
fn from_parts_rejects_a_duplicate_ballot() {
    let (elections, candidates, voters, mut votes) = sample_rows();
    votes[1].voter_id = 1;
    assert!(Store::from_parts(elections, candidates, voters, votes, 2, 2, 2, 3).is_none());
}

#[test]
fn from_parts_rejects_ids_out_of_order_or_beyond_the_counter() {
    let (elections, candidates, voters, mut votes) = sample_rows();
    votes[1].id = 1;
    assert!(Store::from_parts(
        elections.clone(),
        candidates.clone(),
        voters.clone(),
        votes,
        2,
        2,
        2,
        3
    )
    .is_none());
    let (_, _, _, votes) = sample_rows();
    assert!(Store::from_parts(elections, candidates, voters, votes, 2, 2, 2, 2).is_none());
}

#[test]
fn from_parts_rejects_an_unlinked_candidate() {
    let (elections, mut candidates, voters, votes) = sample_rows();
    candidates[0].position_index = 1;
    assert!(Store::from_parts(
        elections.clone(),
        candidates.clone(),
        voters.clone(),
        votes.clone(),
        2,
        2,
        2,
        3
    )
    .is_none());
    candidates[0].position_index = 0;
    candidates[0].election_id = 7;
    assert!(Store::from_parts(elections, candidates, voters, votes, 2, 2, 2, 3).is_none());
}
