//! The vote ledger: the sole writer of vote records. Each cast is one
//! atomic check-and-commit against the store, so the "not already voted"
//! test and the insert can never interleave with another cast, and the
//! at-most-one-vote-per-voter-per-election invariant of `Store::wf` is
//! preserved by every commit.

use vstd::prelude::*;

use crate::clock::now_rfc3339;
use crate::models::{Vote, VoteError};
use crate::store::Store;

verus! {

impl Store {
    /// Whether the cited candidate exists and runs in `election_id` under
    /// `position_index`.
    pub open spec fn candidate_matches(
        self,
        election_id: i64,
        position_index: usize,
        candidate_id: i64,
    ) -> bool {
        &&& self.has_candidate(candidate_id)
        &&& self.candidate_of(candidate_id).election_id == election_id
        &&& self.candidate_of(candidate_id).position_index == position_index
    }

    /// What `cast_vote` reports, in the order the checks are made:
    /// `None` means the vote may commit.
    pub open spec fn cast_outcome(
        self,
        election_id: i64,
        voter_id: i64,
        position_index: usize,
        candidate_id: i64,
    ) -> Option<VoteError> {
        if !self.is_open_spec(election_id) {
            Some(VoteError::ElectionNotOpen)
        } else if !self.has_candidate(candidate_id) {
            Some(VoteError::NotFound)
        } else if self.candidate_of(candidate_id).election_id != election_id
            || self.candidate_of(candidate_id).position_index != position_index {
            Some(VoteError::CandidateMismatch)
        } else if self.has_vote(election_id, voter_id) {
            Some(VoteError::AlreadyVoted)
        } else {
            None
        }
    }

    /// One serialized cast for `(election_id, voter_id)`, exactly as
    /// `cast_vote` and `cast_vote_at` promise it: on success the checks
    /// were clear and one vote for the pair was appended with the registry
    /// untouched; on failure the reported kind is the outcome and nothing
    /// changed at all.
    pub open spec fn cast_rel(
        pre: Store,
        post: Store,
        election_id: i64,
        voter_id: i64,
        position_index: usize,
        candidate_id: i64,
        r: Result<(), VoteError>,
    ) -> bool {
        match r {
            Ok(()) => {
                &&& pre.cast_outcome(election_id, voter_id, position_index, candidate_id) is None
                &&& exists|vt: Vote|
                    #![trigger pre.votes@.push(vt)]
                    vt.election_id == election_id && vt.voter_id == voter_id && post.votes@
                        == pre.votes@.push(vt)
                &&& post.elections == pre.elections
                &&& post.candidates == pre.candidates
            },
            Err(k) => {
                &&& pre.cast_outcome(election_id, voter_id, position_index, candidate_id) == Some(
                    k,
                )
                &&& post == pre
            },
        }
    }

    /// Whether the ledger already holds a vote by `voter_id` in
    /// `election_id`.
    pub fn has_voted(&self, voter_id: i64, election_id: i64) -> (r: bool)
        ensures
            r == self.has_vote(election_id, voter_id),
    {
        let mut i: usize = 0;
        while i < self.votes.len()
            invariant
                i <= self.votes@.len(),
                forall|j: int|
                    0 <= j < i ==> !((#[trigger] self.votes@[j]).election_id == election_id
                        && self.votes@[j].voter_id == voter_id),
            decreases self.votes@.len() - i,
        {
            if self.votes[i].election_id == election_id && self.votes[i].voter_id == voter_id {
                return true;
            }
            i = i + 1;
        }
        false
    }

    /// Casts a vote, stamped `cast_at`. The checks and the commit are one
    /// atomic step against the store: the election must be `Open`
    /// (`ElectionNotOpen`), the candidate must exist (`NotFound`) and run in
    /// this election under this position (`CandidateMismatch`), and the
    /// voter must not have voted in this election before (`AlreadyVoted`).
    /// On success exactly one immutable vote record is appended; on failure
    /// nothing changes.
    pub fn cast_vote_at(
        &mut self,
        election_id: i64,
        voter_id: i64,
        position_index: usize,
        candidate_id: i64,
        cast_at: String,
    ) -> (r: Result<(), VoteError>)
        requires
            old(self).wf(),
            old(self).next_vote_id < i64::MAX,
        ensures
            final(self).wf(),
            Store::cast_rel(
                *old(self),
                *final(self),
                election_id,
                voter_id,
                position_index,
                candidate_id,
                r,
            ),
            match r {
                Ok(()) => {
                    &&& old(self).cast_outcome(
                        election_id,
                        voter_id,
                        position_index,
                        candidate_id,
                    ) is None
                    &&& final(self).votes@ == old(self).votes@.push(
                        (Vote {
                            id: old(self).next_vote_id,
                            election_id,
                            voter_id,
                            position_index,
                            candidate_id,
                            cast_at,
                        }),
                    )
                    &&& final(self).next_vote_id == old(self).next_vote_id + 1
                    &&& final(self).agrees_outside_votes(*old(self))
                },
                Err(k) => {
                    &&& old(self).cast_outcome(election_id, voter_id, position_index, candidate_id)
                        == Some(k)
                    &&& *final(self) == *old(self)
                },
            },
    {
        if !self.is_open(election_id) {
            return Err(VoteError::ElectionNotOpen);
        }
        match self.find_candidate(candidate_id) {
            None => {
                return Err(VoteError::NotFound);
            },
            Some(ci) => {
                if self.candidates[ci].election_id != election_id || self.candidates[ci].position_index
                    != position_index {
                    return Err(VoteError::CandidateMismatch);
                }
            },
        }
        // re-validate "no existing vote" immediately before the insert
        if self.has_voted(voter_id, election_id) {
            return Err(VoteError::AlreadyVoted);
        }
        let vote = Vote {
            id: self.next_vote_id,
            election_id,
            voter_id,
            position_index,
            candidate_id,
            cast_at,
        };
        self.votes.push(vote);
        self.next_vote_id = self.next_vote_id + 1;
        proof {
            let pre = *old(self);
            let post = *self;
            assert(post.votes_wf());
            assert forall|i: int, j: int|
                0 <= i < post.votes@.len() && 0 <= j < post.votes@.len()
                    && (#[trigger] post.votes@[i]).election_id
                    == (#[trigger] post.votes@[j]).election_id && post.votes@[i].voter_id
                    == post.votes@[j].voter_id implies i == j by {
                let n = pre.votes@.len() as int;
                if i < n && j < n {
                    assert(pre.votes@[i] == post.votes@[i]);
                    assert(pre.votes@[j] == post.votes@[j]);
                } else if i == n && j < n {
                    assert(pre.votes@[j] == post.votes@[j]);
                    assert(pre.has_vote(election_id, voter_id));
                } else if j == n && i < n {
                    assert(pre.votes@[i] == post.votes@[i]);
                    assert(pre.has_vote(election_id, voter_id));
                }
            }
            assert forall|k: int| 0 <= k < post.candidates@.len() implies post.candidate_linked(
                #[trigger] post.candidates@[k],
            ) by {
                Store::lemma_candidate_linked_preserved(pre, post, post.candidates@[k]);
            }
        }
        Ok(())
    }

    /// As `cast_vote_at`, stamped with the current time.
    pub fn cast_vote(
        &mut self,
        election_id: i64,
        voter_id: i64,
        position_index: usize,
        candidate_id: i64,
    ) -> (r: Result<(), VoteError>)
        requires
            old(self).wf(),
            old(self).next_vote_id < i64::MAX,
        ensures
            final(self).wf(),
            Store::cast_rel(
                *old(self),
                *final(self),
                election_id,
                voter_id,
                position_index,
                candidate_id,
                r,
            ),
            match r {
                Ok(()) => {
                    &&& old(self).cast_outcome(
                        election_id,
                        voter_id,
                        position_index,
                        candidate_id,
                    ) is None
                    &&& exists|t: String|
                        final(self).votes@ == old(self).votes@.push(
                            (Vote {
                                id: old(self).next_vote_id,
                                election_id,
                                voter_id,
                                position_index,
                                candidate_id,
                                cast_at: t,
                            }),
                        )
                    &&& final(self).next_vote_id == old(self).next_vote_id + 1
                    &&& final(self).agrees_outside_votes(*old(self))
                },
                Err(k) => {
                    &&& old(self).cast_outcome(election_id, voter_id, position_index, candidate_id)
                        == Some(k)
                    &&& *final(self) == *old(self)
                },
            },
    {
        let cast_at = now_rfc3339();
        let ghost t = cast_at;
        let r = self.cast_vote_at(election_id, voter_id, position_index, candidate_id, cast_at);
        proof {
            if r is Ok {
                assert(final(self).votes@ == old(self).votes@.push(
                    (Vote {
                        id: old(self).next_vote_id,
                        election_id,
                        voter_id,
                        position_index,
                        candidate_id,
                        cast_at: t,
                    }),
                ));
            }
        }
        r
    }
}

/// Ballot uniqueness, stated once and for all: after a cast for
/// `(election_id, voter_id)` commits, no later cast for the same pair can
/// succeed, whatever candidate it cites and however the calls interleave
/// (every cast is one atomic step against the store); and retrying the very
/// same ballot reports `AlreadyVoted`.
pub proof fn lemma_cast_uniqueness(
    pre: Store,
    post: Store,
    election_id: i64,
    voter_id: i64,
    position_index: usize,
    candidate_id: i64,
    vt: Vote,
    later_position_index: usize,
    later_candidate_id: i64,
)
    requires
        pre.wf(),
        pre.cast_outcome(election_id, voter_id, position_index, candidate_id) is None,
        vt.election_id == election_id,
        vt.voter_id == voter_id,
        post.votes@ == pre.votes@.push(vt),
        post.elections == pre.elections,
        post.candidates == pre.candidates,
    ensures
        post.cast_outcome(election_id, voter_id, later_position_index, later_candidate_id) is Some,
        post.cast_outcome(election_id, voter_id, position_index, candidate_id) == Some(
            VoteError::AlreadyVoted,
        ),
{
    let n = pre.votes@.len() as int;
    assert(post.votes@[n] == vt);
    assert(post.has_vote(election_id, voter_id));
    // the registry part of the store did not move: the election still reads
    // `Open` and the candidate still matches
    let k = pre.election_idx(election_id);
    assert(0 <= k < pre.elections@.len() && pre.elections@[k].id == election_id);
    post.lemma_election_idx_is(k, election_id);
    assert(post.is_open_spec(election_id));
    let ck = pre.candidate_idx(candidate_id);
    assert(0 <= ck < pre.candidates@.len() && pre.candidates@[ck].id == candidate_id);
    post.lemma_candidate_idx_is(ck, candidate_id);
    assert(post.candidate_matches(election_id, position_index, candidate_id));
}

/// Once the ledger holds a vote for the pair, every further serialized
/// cast for it that cites a matching candidate reports `AlreadyVoted` and
/// changes nothing, link by link along the chain.
proof fn lemma_cast_chain_after_commit(
    stores: Seq<Store>,
    results: Seq<Result<(), VoteError>>,
    position_indices: Seq<usize>,
    candidate_ids: Seq<i64>,
    base: Store,
    election_id: i64,
    voter_id: i64,
)
    requires
        stores.len() == results.len() + 1,
        position_indices.len() == results.len(),
        candidate_ids.len() == results.len(),
        base.wf(),
        base.is_open_spec(election_id),
        forall|i: int|
            #![trigger position_indices[i], candidate_ids[i]]
            0 <= i < results.len() ==> base.candidate_matches(
                election_id,
                position_indices[i],
                candidate_ids[i],
            ),
        stores[0].elections == base.elections,
        stores[0].candidates == base.candidates,
        stores[0].has_vote(election_id, voter_id),
        forall|i: int|
            #![trigger results[i]]
            0 <= i < results.len() ==> Store::cast_rel(
                stores[i],
                stores[i + 1],
                election_id,
                voter_id,
                position_indices[i],
                candidate_ids[i],
                results[i],
            ),
    ensures
        forall|j: int|
            0 <= j < results.len() ==> results[j] == Err::<(), VoteError>(VoteError::AlreadyVoted),
    decreases results.len(),
{
    if results.len() > 0 {
        let s0 = stores[0];
        // the election still reads Open and the candidate still matches
        let k = base.election_idx(election_id);
        assert(0 <= k < base.elections@.len() && base.elections@[k].id == election_id);
        s0.lemma_election_idx_is(k, election_id);
        assert(s0.is_open_spec(election_id));
        assert(base.candidate_matches(election_id, position_indices[0], candidate_ids[0]));
        let ck = base.candidate_idx(candidate_ids[0]);
        assert(0 <= ck < base.candidates@.len() && base.candidates@[ck].id == candidate_ids[0]);
        s0.lemma_candidate_idx_is(ck, candidate_ids[0]);
        assert(s0.candidate_matches(election_id, position_indices[0], candidate_ids[0]));
        assert(s0.cast_outcome(election_id, voter_id, position_indices[0], candidate_ids[0])
            == Some(VoteError::AlreadyVoted));
        assert(Store::cast_rel(
            stores[0],
            stores[1],
            election_id,
            voter_id,
            position_indices[0],
            candidate_ids[0],
            results[0],
        ));
        assert(results[0] == Err::<(), VoteError>(VoteError::AlreadyVoted));
        assert(stores[1] == stores[0]);
        // the suffix starts from the same state and repeats the argument
        let stores1 = stores.skip(1);
        let results1 = results.skip(1);
        let pos1 = position_indices.skip(1);
        let cand1 = candidate_ids.skip(1);
        assert forall|i: int|
            #![trigger pos1[i], cand1[i]]
            0 <= i < results1.len() implies base.candidate_matches(
            election_id,
            pos1[i],
            cand1[i],
        ) by {
            assert(pos1[i] == position_indices[i + 1]);
            assert(cand1[i] == candidate_ids[i + 1]);
            assert(base.candidate_matches(
                election_id,
                position_indices[i + 1],
                candidate_ids[i + 1],
            ));
        }
        assert forall|i: int|
            #![trigger results1[i]]
            0 <= i < results1.len() implies Store::cast_rel(
            stores1[i],
            stores1[i + 1],
            election_id,
            voter_id,
            pos1[i],
            cand1[i],
            results1[i],
        ) by {
            assert(stores1[i] == stores[i + 1]);
            assert(stores1[i + 1] == stores[i + 2]);
            assert(Store::cast_rel(
                stores[i + 1],
                stores[i + 2],
                election_id,
                voter_id,
                position_indices[i + 1],
                candidate_ids[i + 1],
                results[i + 1],
            ));
        }
        lemma_cast_chain_after_commit(
            stores1,
            results1,
            pos1,
            cand1,
            base,
            election_id,
            voter_id,
        );
        assert forall|j: int|
            0 <= j < results.len() implies results[j] == Err::<(), VoteError>(
            VoteError::AlreadyVoted,
        ) by {
            if j > 0 {
                assert(results1[j - 1] == results[j]);
            }
        }
    }
}

/// Ballot uniqueness for any number of casts: take any serialized sequence
/// of casts sharing one `(election_id, voter_id)` pair — serialization is
/// what exclusive access to the one store gives every interleaving —
/// starting from a well-formed store where the election is open, the pair
/// has not voted, and each call cites a candidate of this election under
/// the right position. Then the first cast succeeds and every later one,
/// however many and in whatever order they were serialized, reports
/// `AlreadyVoted`: exactly one succeeds.
pub proof fn lemma_cast_uniqueness_serialized(
    stores: Seq<Store>,
    results: Seq<Result<(), VoteError>>,
    position_indices: Seq<usize>,
    candidate_ids: Seq<i64>,
    election_id: i64,
    voter_id: i64,
)
    requires
        stores.len() == results.len() + 1,
        position_indices.len() == results.len(),
        candidate_ids.len() == results.len(),
        results.len() >= 1,
        stores[0].wf(),
        stores[0].is_open_spec(election_id),
        !stores[0].has_vote(election_id, voter_id),
        forall|i: int|
            #![trigger position_indices[i], candidate_ids[i]]
            0 <= i < results.len() ==> stores[0].candidate_matches(
                election_id,
                position_indices[i],
                candidate_ids[i],
            ),
        forall|i: int|
            #![trigger results[i]]
            0 <= i < results.len() ==> Store::cast_rel(
                stores[i],
                stores[i + 1],
                election_id,
                voter_id,
                position_indices[i],
                candidate_ids[i],
                results[i],
            ),
    ensures
        results[0] is Ok,
        forall|j: int|
            1 <= j < results.len() ==> results[j] == Err::<(), VoteError>(VoteError::AlreadyVoted),
{
    let s0 = stores[0];
    assert(s0.candidate_matches(election_id, position_indices[0], candidate_ids[0]));
    assert(s0.cast_outcome(election_id, voter_id, position_indices[0], candidate_ids[0]) is None);
    assert(Store::cast_rel(
        stores[0],
        stores[1],
        election_id,
        voter_id,
        position_indices[0],
        candidate_ids[0],
        results[0],
    ));
    let r0 = results[0];
    if r0 is Err {
        assert(s0.cast_outcome(election_id, voter_id, position_indices[0], candidate_ids[0])
            == Some(r0->Err_0));
        assert(false);
    }
    // the committed vote makes the pair visible to every later cast
    let vt = choose|vt: Vote|
        #![trigger s0.votes@.push(vt)]
        vt.election_id == election_id && vt.voter_id == voter_id && stores[1].votes@
            == s0.votes@.push(vt);
    assert(stores[1].votes@[s0.votes@.len() as int] == vt);
    assert(stores[1].has_vote(election_id, voter_id));
    let stores1 = stores.skip(1);
    let results1 = results.skip(1);
    let pos1 = position_indices.skip(1);
    let cand1 = candidate_ids.skip(1);
    assert forall|i: int|
        #![trigger pos1[i], cand1[i]]
        0 <= i < results1.len() implies s0.candidate_matches(
        election_id,
        pos1[i],
        cand1[i],
    ) by {
        assert(pos1[i] == position_indices[i + 1]);
        assert(cand1[i] == candidate_ids[i + 1]);
        assert(s0.candidate_matches(election_id, position_indices[i + 1], candidate_ids[i + 1]));
    }
    assert forall|i: int|
        #![trigger results1[i]]
        0 <= i < results1.len() implies Store::cast_rel(
        stores1[i],
        stores1[i + 1],
        election_id,
        voter_id,
        pos1[i],
        cand1[i],
        results1[i],
    ) by {
        assert(stores1[i] == stores[i + 1]);
        assert(stores1[i + 1] == stores[i + 2]);
        assert(Store::cast_rel(
            stores[i + 1],
            stores[i + 2],
            election_id,
            voter_id,
            position_indices[i + 1],
            candidate_ids[i + 1],
            results[i + 1],
        ));
    }
    lemma_cast_chain_after_commit(
        stores1,
        results1,
        pos1,
        cand1,
        s0,
        election_id,
        voter_id,
    );
    assert forall|j: int|
        1 <= j < results.len() implies results[j] == Err::<(), VoteError>(
        VoteError::AlreadyVoted,
    ) by {
        assert(results1[j - 1] == results[j]);
    }
}

} // verus!
