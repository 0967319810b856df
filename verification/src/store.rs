//! The shared store behind the election registry and the vote ledger.
//!
//! A `Store` holds every record of the system. It is the single source of
//! truth and the unit of consistency: every operation takes the store by
//! reference, so two operations can never interleave between their check
//! and their commit. Its well-formedness predicate `wf` carries the
//! durable invariants, among them the core one: at most one vote per
//! voter per election.

use vstd::prelude::*;

use crate::models::{Candidate, Election, ElectionStatus, Registration, Vote};

verus! {

/// The store of all records. Identifiers are handed out by the `next_*`
/// counters, so within each collection the ids are strictly increasing
/// in insertion order.
pub struct Store {
    pub elections: Vec<Election>,
    pub candidates: Vec<Candidate>,
    pub voters: Vec<Registration>,
    pub votes: Vec<Vote>,
    pub next_election_id: i64,
    pub next_candidate_id: i64,
    pub next_voter_id: i64,
    pub next_vote_id: i64,
}

impl Store {
    /// Election ids are strictly increasing in insertion order.
    pub open spec fn elections_sorted(self) -> bool {
        forall|i: int, j: int|
            #![trigger self.elections@[i], self.elections@[j]]
            0 <= i < j < self.elections@.len() ==> self.elections@[i].id < self.elections@[j].id
    }

    /// Election ids are strictly increasing and below the id counter.
    pub open spec fn elections_wf(self) -> bool {
        &&& self.elections_sorted()
        &&& forall|i: int|
            0 <= i < self.elections@.len() ==> (#[trigger] self.elections@[i]).id
                < self.next_election_id
    }

    /// Candidate ids are strictly increasing in insertion order.
    pub open spec fn candidates_sorted(self) -> bool {
        forall|i: int, j: int|
            #![trigger self.candidates@[i], self.candidates@[j]]
            0 <= i < j < self.candidates@.len() ==> self.candidates@[i].id
                < self.candidates@[j].id
    }

    /// Candidate ids are strictly increasing and below the id counter.
    pub open spec fn candidates_wf(self) -> bool {
        &&& self.candidates_sorted()
        &&& forall|i: int|
            0 <= i < self.candidates@.len() ==> (#[trigger] self.candidates@[i]).id
                < self.next_candidate_id
    }

    /// Voter ids are strictly increasing in insertion order.
    pub open spec fn voters_sorted(self) -> bool {
        forall|i: int, j: int|
            #![trigger self.voters@[i], self.voters@[j]]
            0 <= i < j < self.voters@.len() ==> self.voters@[i].voter.id
                < self.voters@[j].voter.id
    }

    /// Voter ids are strictly increasing and below the id counter.
    pub open spec fn voters_wf(self) -> bool {
        &&& self.voters_sorted()
        &&& forall|i: int|
            0 <= i < self.voters@.len() ==> (#[trigger] self.voters@[i]).voter.id
                < self.next_voter_id
    }

    /// Vote ids are strictly increasing and below the id counter.
    pub open spec fn votes_wf(self) -> bool {
        &&& forall|i: int, j: int|
            #![trigger self.votes@[i], self.votes@[j]]
            0 <= i < j < self.votes@.len() ==> self.votes@[i].id < self.votes@[j].id
        &&& forall|i: int|
            0 <= i < self.votes@.len() ==> (#[trigger] self.votes@[i]).id < self.next_vote_id
    }

    /// A candidate must run in an election of the store, under one of the
    /// position indices that election really has.
    pub open spec fn candidate_linked(self, c: Candidate) -> bool {
        &&& self.has_election(c.election_id)
        &&& (c.position_index as int) < self.election_of(c.election_id).positions@.len()
    }

    pub open spec fn candidates_linked(self) -> bool {
        forall|i: int|
            0 <= i < self.candidates@.len() ==> self.candidate_linked(
                #[trigger] self.candidates@[i],
            )
    }

    /// The core invariant of the ledger: for a given (election id, voter id)
    /// pair at most one vote exists.
    pub open spec fn ballots_unique(self) -> bool {
        forall|i: int, j: int|
            #![trigger self.votes@[i], self.votes@[j]]
            0 <= i < self.votes@.len() && 0 <= j < self.votes@.len() && self.votes@[i].election_id
                == self.votes@[j].election_id && self.votes@[i].voter_id
                == self.votes@[j].voter_id ==> i == j
    }

    /// Well-formedness of the whole store: what every operation preserves.
    pub open spec fn wf(self) -> bool {
        &&& self.elections_wf()
        &&& self.candidates_wf()
        &&& self.voters_wf()
        &&& self.votes_wf()
        &&& self.candidates_linked()
        &&& self.ballots_unique()
    }

    // ------------------ lookups, at the specification level ------------------

    pub open spec fn has_election(self, election_id: i64) -> bool {
        exists|i: int|
            0 <= i < self.elections@.len() && (#[trigger] self.elections@[i]).id == election_id
    }

    pub open spec fn election_idx(self, election_id: i64) -> int {
        choose|i: int|
            0 <= i < self.elections@.len() && (#[trigger] self.elections@[i]).id == election_id
    }

    /// The election record carrying `election_id`; meaningful under
    /// `has_election`, where `wf` makes the record unique.
    pub open spec fn election_of(self, election_id: i64) -> Election {
        self.elections@[self.election_idx(election_id)]
    }

    pub open spec fn has_candidate(self, candidate_id: i64) -> bool {
        exists|i: int|
            0 <= i < self.candidates@.len() && (#[trigger] self.candidates@[i]).id == candidate_id
    }

    pub open spec fn candidate_idx(self, candidate_id: i64) -> int {
        choose|i: int|
            0 <= i < self.candidates@.len() && (#[trigger] self.candidates@[i]).id == candidate_id
    }

    /// The candidate record carrying `candidate_id`; meaningful under
    /// `has_candidate`, where `wf` makes the record unique.
    pub open spec fn candidate_of(self, candidate_id: i64) -> Candidate {
        self.candidates@[self.candidate_idx(candidate_id)]
    }

    pub open spec fn has_voter(self, voter_id: i64) -> bool {
        exists|i: int|
            0 <= i < self.voters@.len() && (#[trigger] self.voters@[i]).voter.id == voter_id
    }

    pub open spec fn voter_idx(self, voter_id: i64) -> int {
        choose|i: int|
            0 <= i < self.voters@.len() && (#[trigger] self.voters@[i]).voter.id == voter_id
    }

    /// Whether the ledger holds a vote by `voter_id` in `election_id`.
    pub open spec fn has_vote(self, election_id: i64, voter_id: i64) -> bool {
        exists|i: int|
            0 <= i < self.votes@.len() && (#[trigger] self.votes@[i]).election_id == election_id
                && self.votes@[i].voter_id == voter_id
    }

    /// Whether the election exists and currently admits votes.
    pub open spec fn is_open_spec(self, election_id: i64) -> bool {
        self.has_election(election_id) && self.election_of(election_id).status
            == ElectionStatus::Open
    }

    // ------------------ frame predicates ------------------

    /// Everything but the election records and their id counter agrees.
    pub open spec fn agrees_outside_elections(self, other: Store) -> bool {
        &&& self.candidates == other.candidates
        &&& self.voters == other.voters
        &&& self.votes == other.votes
        &&& self.next_candidate_id == other.next_candidate_id
        &&& self.next_voter_id == other.next_voter_id
        &&& self.next_vote_id == other.next_vote_id
    }

    /// Everything but the candidate records and their id counter agrees.
    pub open spec fn agrees_outside_candidates(self, other: Store) -> bool {
        &&& self.elections == other.elections
        &&& self.voters == other.voters
        &&& self.votes == other.votes
        &&& self.next_election_id == other.next_election_id
        &&& self.next_voter_id == other.next_voter_id
        &&& self.next_vote_id == other.next_vote_id
    }

    /// Everything but the voter records and their id counter agrees.
    pub open spec fn agrees_outside_voters(self, other: Store) -> bool {
        &&& self.elections == other.elections
        &&& self.candidates == other.candidates
        &&& self.votes == other.votes
        &&& self.next_election_id == other.next_election_id
        &&& self.next_candidate_id == other.next_candidate_id
        &&& self.next_vote_id == other.next_vote_id
    }

    /// Everything but the vote records and their id counter agrees.
    pub open spec fn agrees_outside_votes(self, other: Store) -> bool {
        &&& self.elections == other.elections
        &&& self.candidates == other.candidates
        &&& self.voters == other.voters
        &&& self.next_election_id == other.next_election_id
        &&& self.next_candidate_id == other.next_candidate_id
        &&& self.next_voter_id == other.next_voter_id
    }

    // ------------------ lookup lemmas ------------------

    /// Under `wf`, an index whose election carries the id is the one
    /// `election_idx` denotes.
    pub proof fn lemma_election_idx_is(self, i: int, election_id: i64)
        requires
            self.elections_sorted(),
            0 <= i < self.elections@.len(),
            self.elections@[i].id == election_id,
        ensures
            self.has_election(election_id),
            self.election_idx(election_id) == i,
            self.election_of(election_id) == self.elections@[i],
    {
        assert(self.has_election(election_id));
        let k = self.election_idx(election_id);
        assert(0 <= k < self.elections@.len() && self.elections@[k].id == election_id);
        if k < i {
            assert(self.elections@[k].id < self.elections@[i].id);
        } else if i < k {
            assert(self.elections@[i].id < self.elections@[k].id);
        }
    }

    /// Under `wf`, an index whose candidate carries the id is the one
    /// `candidate_idx` denotes.
    pub proof fn lemma_candidate_idx_is(self, i: int, candidate_id: i64)
        requires
            self.candidates_sorted(),
            0 <= i < self.candidates@.len(),
            self.candidates@[i].id == candidate_id,
        ensures
            self.has_candidate(candidate_id),
            self.candidate_idx(candidate_id) == i,
            self.candidate_of(candidate_id) == self.candidates@[i],
    {
        assert(self.has_candidate(candidate_id));
        let k = self.candidate_idx(candidate_id);
        assert(0 <= k < self.candidates@.len() && self.candidates@[k].id == candidate_id);
        if k < i {
            assert(self.candidates@[k].id < self.candidates@[i].id);
        } else if i < k {
            assert(self.candidates@[i].id < self.candidates@[k].id);
        }
    }

    /// Under `wf`, an index whose voter carries the id is the one
    /// `voter_idx` denotes.
    pub proof fn lemma_voter_idx_is(self, i: int, voter_id: i64)
        requires
            self.voters_sorted(),
            0 <= i < self.voters@.len(),
            self.voters@[i].voter.id == voter_id,
        ensures
            self.has_voter(voter_id),
            self.voter_idx(voter_id) == i,
    {
        assert(self.has_voter(voter_id));
        let k = self.voter_idx(voter_id);
        assert(0 <= k < self.voters@.len() && self.voters@[k].voter.id == voter_id);
        if k < i {
            assert(self.voters@[k].voter.id < self.voters@[i].voter.id);
        } else if i < k {
            assert(self.voters@[i].voter.id < self.voters@[k].voter.id);
        }
    }

    /// Linkage survives any change that keeps each existing election's
    /// identity and number of positions, even when elections are appended.
    pub proof fn lemma_candidate_linked_preserved(pre: Store, post: Store, c: Candidate)
        requires
            pre.elections_sorted(),
            post.elections_sorted(),
            pre.candidate_linked(c),
            pre.elections@.len() <= post.elections@.len(),
            forall|i: int|
                0 <= i < pre.elections@.len() ==> (#[trigger] post.elections@[i]).id
                    == pre.elections@[i].id && post.elections@[i].positions@.len()
                    == pre.elections@[i].positions@.len(),
        ensures
            post.candidate_linked(c),
    {
        let k = pre.election_idx(c.election_id);
        assert(0 <= k < pre.elections@.len() && pre.elections@[k].id == c.election_id);
        post.lemma_election_idx_is(k, c.election_id);
    }

    // ------------------ executable lookups ------------------

    /// Index of the election carrying `election_id`, if any.
    pub(crate) fn find_election(&self, election_id: i64) -> (r: Option<usize>)
        requires
            self.elections_sorted(),
        ensures
            match r {
                Some(i) => i < self.elections@.len() && self.has_election(election_id)
                    && self.election_idx(election_id) == i,
                None => !self.has_election(election_id),
            },
    {
        let mut i: usize = 0;
        while i < self.elections.len()
            invariant
                self.elections_sorted(),
                i <= self.elections@.len(),
                forall|j: int| 0 <= j < i ==> (#[trigger] self.elections@[j]).id != election_id,
            decreases self.elections@.len() - i,
        {
            if self.elections[i].id == election_id {
                proof {
                    self.lemma_election_idx_is(i as int, election_id);
                }
                return Some(i);
            }
            i = i + 1;
        }
        None
    }

    /// Index of the candidate carrying `candidate_id`, if any.
    pub(crate) fn find_candidate(&self, candidate_id: i64) -> (r: Option<usize>)
        requires
            self.candidates_sorted(),
        ensures
            match r {
                Some(i) => i < self.candidates@.len() && self.has_candidate(candidate_id)
                    && self.candidate_idx(candidate_id) == i,
                None => !self.has_candidate(candidate_id),
            },
    {
        let mut i: usize = 0;
        while i < self.candidates.len()
            invariant
                self.candidates_sorted(),
                i <= self.candidates@.len(),
                forall|j: int| 0 <= j < i ==> (#[trigger] self.candidates@[j]).id != candidate_id,
            decreases self.candidates@.len() - i,
        {
            if self.candidates[i].id == candidate_id {
                proof {
                    self.lemma_candidate_idx_is(i as int, candidate_id);
                }
                return Some(i);
            }
            i = i + 1;
        }
        None
    }

    /// Decides whether the election ids form a strict chain below the
    /// counter.
    fn check_elections_wf(&self) -> (b: bool)
        ensures
            b == self.elections_wf(),
    {
        let mut i: usize = 1;
        while i < self.elections.len()
            invariant
                1 <= i,
                forall|a: int, b: int|
                    #![trigger self.elections@[a], self.elections@[b]]
                    0 <= a < b < i ==> self.elections@[a].id < self.elections@[b].id,
            decreases self.elections@.len() - i,
        {
            if self.elections[i - 1].id >= self.elections[i].id {
                return false;
            }
            proof {
                assert forall|a: int, b: int| 0 <= a < b < i + 1 implies self.elections@[a].id
                    < self.elections@[b].id by {
                    if b == i && a < i - 1 {
                        assert(self.elections@[a].id < self.elections@[i - 1].id);
                    }
                }
            }
            i = i + 1;
        }
        if self.elections.len() > 0 && self.elections[self.elections.len() - 1].id >= self.next_election_id {
            return false;
        }
        proof {
            assert forall|a: int|
                0 <= a < self.elections@.len() implies (#[trigger] self.elections@[a]).id
                < self.next_election_id by {
                if a < self.elections@.len() - 1 {
                    assert(self.elections@[a].id < self.elections@[self.elections@.len() - 1].id);
                }
            }
        }
        true
    }

    /// Decides whether the candidate ids form a strict chain below the
    /// counter.
    fn check_candidates_wf(&self) -> (b: bool)
        ensures
            b == self.candidates_wf(),
    {
        let mut i: usize = 1;
        while i < self.candidates.len()
            invariant
                1 <= i,
                forall|a: int, b: int|
                    #![trigger self.candidates@[a], self.candidates@[b]]
                    0 <= a < b < i ==> self.candidates@[a].id < self.candidates@[b].id,
            decreases self.candidates@.len() - i,
        {
            if self.candidates[i - 1].id >= self.candidates[i].id {
                return false;
            }
            proof {
                assert forall|a: int, b: int| 0 <= a < b < i + 1 implies self.candidates@[a].id
                    < self.candidates@[b].id by {
                    if b == i && a < i - 1 {
                        assert(self.candidates@[a].id < self.candidates@[i - 1].id);
                    }
                }
            }
            i = i + 1;
        }
        if self.candidates.len() > 0 && self.candidates[self.candidates.len() - 1].id >= self.next_candidate_id {
            return false;
        }
        proof {
            assert forall|a: int|
                0 <= a < self.candidates@.len() implies (#[trigger] self.candidates@[a]).id
                < self.next_candidate_id by {
                if a < self.candidates@.len() - 1 {
                    assert(self.candidates@[a].id < self.candidates@[self.candidates@.len() - 1].id);
                }
            }
        }
        true
    }

    /// Decides whether the voter ids form a strict chain below the counter.
    fn check_voters_wf(&self) -> (b: bool)
        ensures
            b == self.voters_wf(),
    {
        let mut i: usize = 1;
        while i < self.voters.len()
            invariant
                1 <= i,
                forall|a: int, b: int|
                    #![trigger self.voters@[a], self.voters@[b]]
                    0 <= a < b < i ==> self.voters@[a].voter.id < self.voters@[b].voter.id,
            decreases self.voters@.len() - i,
        {
            if self.voters[i - 1].voter.id >= self.voters[i].voter.id {
                return false;
            }
            proof {
                assert forall|a: int, b: int| 0 <= a < b < i + 1 implies self.voters@[a].voter.id
                    < self.voters@[b].voter.id by {
                    if b == i && a < i - 1 {
                        assert(self.voters@[a].voter.id < self.voters@[i - 1].voter.id);
                    }
                }
            }
            i = i + 1;
        }
        if self.voters.len() > 0 && self.voters[self.voters.len() - 1].voter.id >= self.next_voter_id {
            return false;
        }
        proof {
            assert forall|a: int|
                0 <= a < self.voters@.len() implies (#[trigger] self.voters@[a]).voter.id
                < self.next_voter_id by {
                if a < self.voters@.len() - 1 {
                    assert(self.voters@[a].voter.id < self.voters@[self.voters@.len() - 1].voter.id);
                }
            }
        }
        true
    }

    /// Decides whether the vote ids form a strict chain below the counter.
    fn check_votes_wf(&self) -> (b: bool)
        ensures
            b == self.votes_wf(),
    {
        let mut i: usize = 1;
        while i < self.votes.len()
            invariant
                1 <= i,
                forall|a: int, b: int|
                    #![trigger self.votes@[a], self.votes@[b]]
                    0 <= a < b < i ==> self.votes@[a].id < self.votes@[b].id,
            decreases self.votes@.len() - i,
        {
            if self.votes[i - 1].id >= self.votes[i].id {
                return false;
            }
            proof {
                assert forall|a: int, b: int| 0 <= a < b < i + 1 implies self.votes@[a].id
                    < self.votes@[b].id by {
                    if b == i && a < i - 1 {
                        assert(self.votes@[a].id < self.votes@[i - 1].id);
                    }
                }
            }
            i = i + 1;
        }
        if self.votes.len() > 0 && self.votes[self.votes.len() - 1].id >= self.next_vote_id {
            return false;
        }
        proof {
            assert forall|a: int|
                0 <= a < self.votes@.len() implies (#[trigger] self.votes@[a]).id
                < self.next_vote_id by {
                if a < self.votes@.len() - 1 {
                    assert(self.votes@[a].id < self.votes@[self.votes@.len() - 1].id);
                }
            }
        }
        true
    }

    /// Decides whether every candidate cites an existing election and one
    /// of its positions.
    fn check_links(&self) -> (b: bool)
        requires
            self.elections_sorted(),
        ensures
            b == self.candidates_linked(),
    {
        let mut i: usize = 0;
        while i < self.candidates.len()
            invariant
                self.elections_sorted(),
                i <= self.candidates@.len(),
                forall|k: int| 0 <= k < i ==> self.candidate_linked(
                    #[trigger] self.candidates@[k],
                ),
            decreases self.candidates@.len() - i,
        {
            match self.find_election(self.candidates[i].election_id) {
                None => {
                    return false;
                },
                Some(k) => {
                    if self.candidates[i].position_index >= self.elections[k].positions.len() {
                        return false;
                    }
                },
            }
            i = i + 1;
        }
        true
    }

    /// Decides whether at most one vote exists per (election id, voter id)
    /// pair.
    fn check_ballots(&self) -> (b: bool)
        ensures
            b == self.ballots_unique(),
    {
        let mut i: usize = 0;
        while i < self.votes.len()
            invariant
                i <= self.votes@.len(),
                forall|a: int, b: int|
                    #![trigger self.votes@[a], self.votes@[b]]
                    0 <= a < b < self.votes@.len() && a < i ==> !(self.votes@[a].election_id
                        == self.votes@[b].election_id && self.votes@[a].voter_id
                        == self.votes@[b].voter_id),
            decreases self.votes@.len() - i,
        {
            let mut j: usize = i + 1;
            while j < self.votes.len()
                invariant
                    i < self.votes@.len(),
                    i < j,
                    j <= self.votes@.len(),
                    forall|b: int|
                        i < b < j ==> !(self.votes@[i as int].election_id
                            == (#[trigger] self.votes@[b]).election_id
                            && self.votes@[i as int].voter_id == self.votes@[b].voter_id),
                decreases self.votes@.len() - j,
            {
                if self.votes[i].election_id == self.votes[j].election_id
                    && self.votes[i].voter_id == self.votes[j].voter_id {
                    return false;
                }
                j = j + 1;
            }
            i = i + 1;
        }
        proof {
            assert forall|a: int, b: int|
                #![trigger self.votes@[a], self.votes@[b]]
                0 <= a < self.votes@.len() && 0 <= b < self.votes@.len()
                    && self.votes@[a].election_id == self.votes@[b].election_id
                    && self.votes@[a].voter_id == self.votes@[b].voter_id implies a == b by {
                if a < b {
                } else if b < a {
                }
            }
        }
        true
    }

    /// Decides `wf` at run time: true exactly when every durable invariant
    /// holds of this store.
    pub fn check_wf(&self) -> (b: bool)
        ensures
            b == self.wf(),
    {
        self.check_elections_wf() && self.check_candidates_wf() && self.check_voters_wf()
            && self.check_votes_wf() && self.check_links() && self.check_ballots()
    }

    /// Rebuilds a store from plain records, as a persistence collaborator
    /// hands them back, re-establishing every durable invariant at run
    /// time: the assembled store is returned exactly when it is
    /// well-formed.
    pub fn from_parts(
        elections: Vec<Election>,
        candidates: Vec<Candidate>,
        voters: Vec<Registration>,
        votes: Vec<Vote>,
        next_election_id: i64,
        next_candidate_id: i64,
        next_voter_id: i64,
        next_vote_id: i64,
    ) -> (r: Option<Store>)
        ensures
            match r {
                Some(s) => s.wf() && s == (Store {
                    elections,
                    candidates,
                    voters,
                    votes,
                    next_election_id,
                    next_candidate_id,
                    next_voter_id,
                    next_vote_id,
                }),
                None => !(Store {
                    elections,
                    candidates,
                    voters,
                    votes,
                    next_election_id,
                    next_candidate_id,
                    next_voter_id,
                    next_vote_id,
                }).wf(),
            },
    {
        let s = Store {
            elections,
            candidates,
            voters,
            votes,
            next_election_id,
            next_candidate_id,
            next_voter_id,
            next_vote_id,
        };
        if s.check_wf() {
            Some(s)
        } else {
            None
        }
    }

    /// A fresh, well-formed store with no records.
    pub fn new() -> (s: Store)
        ensures
            s.wf(),
            s.elections@.len() == 0,
            s.candidates@.len() == 0,
            s.voters@.len() == 0,
            s.votes@.len() == 0,
            s.next_election_id == 1,
            s.next_candidate_id == 1,
            s.next_voter_id == 1,
            s.next_vote_id == 1,
    {
        Store {
            elections: Vec::new(),
            candidates: Vec::new(),
            voters: Vec::new(),
            votes: Vec::new(),
            next_election_id: 1,
            next_candidate_id: 1,
            next_voter_id: 1,
            next_vote_id: 1,
        }
    }
}

} // verus!
