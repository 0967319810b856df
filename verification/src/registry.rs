//! The election registry: election records, their lifecycle transitions
//! (`Draft -> Open -> Closed`), and candidate registration.

use vstd::prelude::*;

use crate::clock::now_rfc3339;
use crate::models::{Candidate, Election, ElectionStatus, VoteError};
use crate::store::Store;

verus! {

impl Store {
    /// What `open_election` reports: `None` means success.
    pub open spec fn open_outcome(self, election_id: i64) -> Option<VoteError> {
        if !self.has_election(election_id) {
            Some(VoteError::NotFound)
        } else if self.election_of(election_id).status == ElectionStatus::Closed {
            Some(VoteError::InvalidTransition)
        } else {
            None
        }
    }

    /// What `close_election` reports: `None` means success.
    pub open spec fn close_outcome(self, election_id: i64) -> Option<VoteError> {
        if !self.has_election(election_id) {
            Some(VoteError::NotFound)
        } else if self.election_of(election_id).status != ElectionStatus::Open {
            Some(VoteError::InvalidTransition)
        } else {
            None
        }
    }

    /// What `add_candidate` reports: `None` means success.
    pub open spec fn add_candidate_outcome(self, election_id: i64, position_index: usize) -> Option<
        VoteError,
    > {
        if !self.has_election(election_id) {
            Some(VoteError::NotFound)
        } else if self.election_of(election_id).positions@.len() <= position_index as int {
            Some(VoteError::NotFound)
        } else {
            None
        }
    }

    /// Creates an election in `Draft` state with the given ordered position
    /// titles and the given creation timestamp. Rejects an empty name or an
    /// empty position list with `ValidationError`; otherwise the new record
    /// is appended and its fresh id returned.
    pub fn create_election_at(
        &mut self,
        name: String,
        positions: Vec<String>,
        created_at: String,
    ) -> (r: Result<i64, VoteError>)
        requires
            old(self).wf(),
            old(self).next_election_id < i64::MAX,
        ensures
            final(self).wf(),
            match r {
                Ok(id) => {
                    &&& name@.len() > 0
                    &&& positions@.len() > 0
                    &&& id == old(self).next_election_id
                    &&& final(self).elections@ == old(self).elections@.push(
                        (Election {
                            id,
                            name,
                            status: ElectionStatus::Draft,
                            created_at,
                            positions,
                        }),
                    )
                    &&& final(self).next_election_id == old(self).next_election_id + 1
                    &&& final(self).agrees_outside_elections(*old(self))
                },
                Err(k) => {
                    &&& k == VoteError::ValidationError
                    &&& (name@.len() == 0 || positions@.len() == 0)
                    &&& *final(self) == *old(self)
                },
            },
    {
        if name.as_str().is_empty() || positions.is_empty() {
            return Err(VoteError::ValidationError);
        }
        let id = self.next_election_id;
        self.elections.push(
            Election { id, name, status: ElectionStatus::Draft, created_at, positions },
        );
        self.next_election_id = self.next_election_id + 1;
        proof {
            let pre = *old(self);
            let post = *self;
            assert(post.elections_wf());
            assert forall|i: int| 0 <= i < post.candidates@.len() implies post.candidate_linked(
                #[trigger] post.candidates@[i],
            ) by {
                Store::lemma_candidate_linked_preserved(pre, post, post.candidates@[i]);
            }
        }
        Ok(id)
    }

    /// As `create_election_at`, stamped with the current time.
    pub fn create_election(&mut self, name: String, positions: Vec<String>) -> (r: Result<
        i64,
        VoteError,
    >)
        requires
            old(self).wf(),
            old(self).next_election_id < i64::MAX,
        ensures
            final(self).wf(),
            match r {
                Ok(id) => {
                    &&& name@.len() > 0
                    &&& positions@.len() > 0
                    &&& id == old(self).next_election_id
                    &&& exists|t: String|
                        final(self).elections@ == old(self).elections@.push(
                            (Election {
                                id,
                                name,
                                status: ElectionStatus::Draft,
                                created_at: t,
                                positions,
                            }),
                        )
                    &&& final(self).next_election_id == old(self).next_election_id + 1
                    &&& final(self).agrees_outside_elections(*old(self))
                },
                Err(k) => {
                    &&& k == VoteError::ValidationError
                    &&& (name@.len() == 0 || positions@.len() == 0)
                    &&& *final(self) == *old(self)
                },
            },
    {
        let created_at = now_rfc3339();
        let ghost t = created_at;
        let r = self.create_election_at(name, positions, created_at);
        proof {
            if r is Ok {
                assert(final(self).elections@ == old(self).elections@.push(
                    (Election {
                        id: r->Ok_0,
                        name,
                        status: ElectionStatus::Draft,
                        created_at: t,
                        positions,
                    }),
                ));
            }
        }
        r
    }

    /// Transitions `Draft -> Open`. Opening an `Open` election is an
    /// idempotent success that changes nothing; a `Closed` one is refused
    /// with `InvalidTransition`, an unknown one with `NotFound`.
    pub fn open_election(&mut self, election_id: i64) -> (r: Result<(), VoteError>)
        requires
            old(self).wf(),
        ensures
            final(self).wf(),
            match r {
                Ok(()) => {
                    &&& old(self).open_outcome(election_id) is None
                    &&& final(self).elections@ == old(self).elections@.update(
                        old(self).election_idx(election_id),
                        (Election {
                            status: ElectionStatus::Open,
                            ..old(self).election_of(election_id)
                        }),
                    )
                    &&& final(self).next_election_id == old(self).next_election_id
                    &&& final(self).agrees_outside_elections(*old(self))
                    &&& final(self).is_open_spec(election_id)
                },
                Err(k) => {
                    &&& old(self).open_outcome(election_id) == Some(k)
                    &&& *final(self) == *old(self)
                },
            },
    {
        match self.find_election(election_id) {
            None => Err(VoteError::NotFound),
            Some(i) => {
                if self.elections[i].status == ElectionStatus::Closed {
                    Err(VoteError::InvalidTransition)
                } else if self.elections[i].status == ElectionStatus::Open {
                    proof {
                        let pre = *old(self);
                        assert((Election {
                            status: ElectionStatus::Open,
                            ..pre.election_of(election_id)
                        }) == pre.elections@[i as int]);
                        assert(pre.elections@.update(i as int, pre.elections@[i as int])
                            =~= pre.elections@);
                    }
                    Ok(())
                } else {
                    self.elections[i].status = ElectionStatus::Open;
                    proof {
                        let pre = *old(self);
                        let post = *self;
                        assert(post.elections_wf());
                        assert forall|k: int|
                            0 <= k < post.candidates@.len() implies post.candidate_linked(
                            #[trigger] post.candidates@[k],
                        ) by {
                            Store::lemma_candidate_linked_preserved(pre, post, post.candidates@[k]);
                        }
                        post.lemma_election_idx_is(i as int, election_id);
                    }
                    Ok(())
                }
            },
        }
    }

    /// Transitions `Open -> Closed`. Refused with `InvalidTransition` from
    /// any state but `Open`; `Closed` is terminal.
    pub fn close_election(&mut self, election_id: i64) -> (r: Result<(), VoteError>)
        requires
            old(self).wf(),
        ensures
            final(self).wf(),
            match r {
                Ok(()) => {
                    &&& old(self).close_outcome(election_id) is None
                    &&& final(self).elections@ == old(self).elections@.update(
                        old(self).election_idx(election_id),
                        (Election {
                            status: ElectionStatus::Closed,
                            ..old(self).election_of(election_id)
                        }),
                    )
                    &&& final(self).next_election_id == old(self).next_election_id
                    &&& final(self).agrees_outside_elections(*old(self))
                    &&& !final(self).is_open_spec(election_id)
                },
                Err(k) => {
                    &&& old(self).close_outcome(election_id) == Some(k)
                    &&& *final(self) == *old(self)
                },
            },
    {
        match self.find_election(election_id) {
            None => Err(VoteError::NotFound),
            Some(i) => {
                if self.elections[i].status == ElectionStatus::Open {
                    self.elections[i].status = ElectionStatus::Closed;
                    proof {
                        let pre = *old(self);
                        let post = *self;
                        assert(post.elections_wf());
                        assert forall|k: int|
                            0 <= k < post.candidates@.len() implies post.candidate_linked(
                            #[trigger] post.candidates@[k],
                        ) by {
                            Store::lemma_candidate_linked_preserved(pre, post, post.candidates@[k]);
                        }
                        post.lemma_election_idx_is(i as int, election_id);
                    }
                    Ok(())
                } else {
                    Err(VoteError::InvalidTransition)
                }
            },
        }
    }

    /// Registers a candidate for a position of an election. Refused with
    /// `NotFound` when the election, or that position index of it, does not
    /// exist; otherwise the new record is appended and its fresh id returned.
    pub fn add_candidate(
        &mut self,
        election_id: i64,
        position_index: usize,
        name: String,
        party: String,
    ) -> (r: Result<i64, VoteError>)
        requires
            old(self).wf(),
            old(self).next_candidate_id < i64::MAX,
        ensures
            final(self).wf(),
            match r {
                Ok(id) => {
                    &&& old(self).add_candidate_outcome(election_id, position_index) is None
                    &&& id == old(self).next_candidate_id
                    &&& final(self).candidates@ == old(self).candidates@.push(
                        (Candidate { id, election_id, position_index, name, party }),
                    )
                    &&& final(self).next_candidate_id == old(self).next_candidate_id + 1
                    &&& final(self).agrees_outside_candidates(*old(self))
                },
                Err(k) => {
                    &&& old(self).add_candidate_outcome(election_id, position_index) == Some(k)
                    &&& *final(self) == *old(self)
                },
            },
    {
        match self.find_election(election_id) {
            None => Err(VoteError::NotFound),
            Some(i) => {
                if position_index >= self.elections[i].positions.len() {
                    return Err(VoteError::NotFound);
                }
                let id = self.next_candidate_id;
                self.candidates.push(Candidate { id, election_id, position_index, name, party });
                self.next_candidate_id = self.next_candidate_id + 1;
                proof {
                    let pre = *old(self);
                    let post = *self;
                    assert(post.candidates_wf());
                    assert forall|k: int|
                        0 <= k < post.candidates@.len() implies post.candidate_linked(
                        #[trigger] post.candidates@[k],
                    ) by {
                        if k < pre.candidates@.len() {
                            Store::lemma_candidate_linked_preserved(pre, post, post.candidates@[k]);
                        } else {
                            post.lemma_election_idx_is(pre.election_idx(election_id), election_id);
                        }
                    }
                }
                Ok(id)
            },
        }
    }

    /// Renames an election. An unknown id changes nothing.
    pub fn update_election_name(&mut self, election_id: i64, new_name: String)
        requires
            old(self).wf(),
        ensures
            final(self).wf(),
            final(self).agrees_outside_elections(*old(self)),
            final(self).next_election_id == old(self).next_election_id,
            if old(self).has_election(election_id) {
                final(self).elections@ == old(self).elections@.update(
                    old(self).election_idx(election_id),
                    (Election { name: new_name, ..old(self).election_of(election_id) }),
                )
            } else {
                *final(self) == *old(self)
            },
    {
        match self.find_election(election_id) {
            None => {},
            Some(i) => {
                self.elections[i].name = new_name;
                proof {
                    let pre = *old(self);
                    let post = *self;
                    assert(post.elections_wf());
                    assert forall|k: int|
                        0 <= k < post.candidates@.len() implies post.candidate_linked(
                        #[trigger] post.candidates@[k],
                    ) by {
                        Store::lemma_candidate_linked_preserved(pre, post, post.candidates@[k]);
                    }
                }
            },
        }
    }

    /// Renames a candidate and their party. An unknown id changes nothing.
    pub fn update_candidate(&mut self, candidate_id: i64, new_name: String, new_party: String)
        requires
            old(self).wf(),
        ensures
            final(self).wf(),
            final(self).agrees_outside_candidates(*old(self)),
            final(self).next_candidate_id == old(self).next_candidate_id,
            if old(self).has_candidate(candidate_id) {
                final(self).candidates@ == old(self).candidates@.update(
                    old(self).candidate_idx(candidate_id),
                    (Candidate {
                        name: new_name,
                        party: new_party,
                        ..old(self).candidate_of(candidate_id)
                    }),
                )
            } else {
                *final(self) == *old(self)
            },
    {
        match self.find_candidate(candidate_id) {
            None => {},
            Some(i) => {
                let id = self.candidates[i].id;
                let election_id = self.candidates[i].election_id;
                let position_index = self.candidates[i].position_index;
                self.candidates[i] = Candidate {
                    id,
                    election_id,
                    position_index,
                    name: new_name,
                    party: new_party,
                };
                proof {
                    let pre = *old(self);
                    let post = *self;
                    assert(post.candidates_wf());
                    assert forall|k: int|
                        0 <= k < post.candidates@.len() implies post.candidate_linked(
                        #[trigger] post.candidates@[k],
                    ) by {
                        assert(pre.candidate_linked(pre.candidates@[k]));
                        assert(post.candidates@[k].election_id == pre.candidates@[k].election_id);
                        assert(post.candidates@[k].position_index
                            == pre.candidates@[k].position_index);
                        Store::lemma_candidate_linked_preserved(pre, post, post.candidates@[k]);
                    }
                }
            },
        }
    }

    /// Withdraws a candidate. An unknown id changes nothing.
    pub fn remove_candidate(&mut self, candidate_id: i64)
        requires
            old(self).wf(),
        ensures
            final(self).wf(),
            final(self).agrees_outside_candidates(*old(self)),
            final(self).next_candidate_id == old(self).next_candidate_id,
            if old(self).has_candidate(candidate_id) {
                final(self).candidates@ == old(self).candidates@.remove(
                    old(self).candidate_idx(candidate_id),
                )
            } else {
                *final(self) == *old(self)
            },
    {
        match self.find_candidate(candidate_id) {
            None => {},
            Some(i) => {
                self.candidates.remove(i);
                proof {
                    let pre = *old(self);
                    let post = *self;
                    assert forall|a: int, b: int|
                        #![trigger post.candidates@[a], post.candidates@[b]]
                        0 <= a < b < post.candidates@.len() implies post.candidates@[a].id
                        < post.candidates@[b].id by {
                        assert(post.candidates@[a] == if a < i as int {
                            pre.candidates@[a]
                        } else {
                            pre.candidates@[a + 1]
                        });
                        assert(post.candidates@[b] == if b < i as int {
                            pre.candidates@[b]
                        } else {
                            pre.candidates@[b + 1]
                        });
                    }
                    assert forall|a: int|
                        0 <= a < post.candidates@.len() implies (#[trigger] post.candidates@[a]).id
                        < post.next_candidate_id by {
                        assert(post.candidates@[a] == if a < i as int {
                            pre.candidates@[a]
                        } else {
                            pre.candidates@[a + 1]
                        });
                    }
                    assert forall|k: int|
                        0 <= k < post.candidates@.len() implies post.candidate_linked(
                        #[trigger] post.candidates@[k],
                    ) by {
                        assert(post.candidates@[k] == if k < i as int {
                            pre.candidates@[k]
                        } else {
                            pre.candidates@[k + 1]
                        });
                        Store::lemma_candidate_linked_preserved(pre, post, post.candidates@[k]);
                    }
                }
            },
        }
    }

    /// Whether the election exists and is currently `Open`: the condition
    /// the vote ledger tests before it commits a vote.
    pub fn is_open(&self, election_id: i64) -> (r: bool)
        requires
            self.wf(),
        ensures
            r == self.is_open_spec(election_id),
    {
        match self.find_election(election_id) {
            None => false,
            Some(i) => self.elections[i].status == ElectionStatus::Open,
        }
    }

    /// The candidates of the election at position indices below `n`,
    /// grouped by position, ascending, in registration order within each
    /// group.
    pub open spec fn grouped_candidates_prefix(self, election_id: i64, n: int) -> Seq<Candidate>
        decreases n,
    {
        if n <= 0 {
            Seq::empty()
        } else {
            self.grouped_candidates_prefix(election_id, n - 1) + self.candidates_at(
                election_id,
                (n - 1) as usize,
            )
        }
    }

    /// All candidates of the election, grouped by position.
    pub open spec fn grouped_candidates(self, election_id: i64) -> Seq<Candidate> {
        self.grouped_candidates_prefix(
            election_id,
            self.election_of(election_id).positions@.len() as int,
        )
    }

    /// Lists the candidates of an election, grouped by position index,
    /// ascending, and in registration order within each position.
    /// Read-only. Fails with `NotFound` when the election does not exist.
    pub fn list_candidates(&self, election_id: i64) -> (r: Result<Vec<Candidate>, VoteError>)
        requires
            self.wf(),
        ensures
            match r {
                Ok(res) => self.has_election(election_id) && res@ == self.grouped_candidates(
                    election_id,
                ),
                Err(k) => k == VoteError::NotFound && !self.has_election(election_id),
            },
    {
        let ei = match self.find_election(election_id) {
            None => {
                return Err(VoteError::NotFound);
            },
            Some(i) => i,
        };
        let npos = self.elections[ei].positions.len();
        let mut res: Vec<Candidate> = Vec::new();
        let mut p: usize = 0;
        while p < npos
            invariant
                self.wf(),
                self.has_election(election_id),
                ei < self.elections@.len(),
                self.election_idx(election_id) == ei as int,
                npos == self.election_of(election_id).positions@.len(),
                p <= npos,
                res@ == self.grouped_candidates_prefix(election_id, p as int),
            decreases npos - p,
        {
            proof {
                assert(res@ =~= self.grouped_candidates_prefix(election_id, p as int)
                    + self.candidates_at_prefix(election_id, p, 0));
            }
            let mut ci: usize = 0;
            while ci < self.candidates.len()
                invariant
                    self.wf(),
                    ci <= self.candidates@.len(),
                    res@ == self.grouped_candidates_prefix(election_id, p as int)
                        + self.candidates_at_prefix(election_id, p, ci as int),
                decreases self.candidates@.len() - ci,
            {
                if self.candidates[ci].election_id == election_id
                    && self.candidates[ci].position_index == p {
                    let dup = Candidate {
                        id: self.candidates[ci].id,
                        election_id: self.candidates[ci].election_id,
                        position_index: self.candidates[ci].position_index,
                        name: self.candidates[ci].name.clone(),
                        party: self.candidates[ci].party.clone(),
                    };
                    proof {
                        assert(dup == self.candidates@[ci as int]);
                        assert(self.candidates_at_prefix(election_id, p, ci + 1)
                            == self.candidates_at_prefix(election_id, p, ci as int).push(dup));
                        assert(res@.push(dup) =~= self.grouped_candidates_prefix(
                            election_id,
                            p as int,
                        ) + self.candidates_at_prefix(election_id, p, ci + 1));
                    }
                    res.push(dup);
                } else {
                    proof {
                        assert(self.candidates_at_prefix(election_id, p, ci + 1)
                            == self.candidates_at_prefix(election_id, p, ci as int));
                    }
                }
                ci = ci + 1;
            }
            p = p + 1;
        }
        Ok(res)
    }

    /// The candidate records that survive deleting `election_id`, among the
    /// first `n`: deleting an election cascades to its candidates.
    pub open spec fn candidates_without_prefix(self, election_id: i64, n: int) -> Seq<Candidate>
        decreases n,
    {
        if n <= 0 {
            Seq::empty()
        } else if self.candidates@[n - 1].election_id == election_id {
            self.candidates_without_prefix(election_id, n - 1)
        } else {
            self.candidates_without_prefix(election_id, n - 1).push(self.candidates@[n - 1])
        }
    }

    /// The candidate records that survive deleting `election_id`, in their
    /// original order.
    pub open spec fn candidates_without(self, election_id: i64) -> Seq<Candidate> {
        self.candidates_without_prefix(election_id, self.candidates@.len() as int)
    }

    /// Deletes an election and, with it, its candidates. Votes and voters
    /// stay: the ledger is never thinned. An unknown id removes no
    /// election.
    pub fn delete_election(&mut self, election_id: i64)
        requires
            old(self).wf(),
        ensures
            final(self).wf(),
            final(self).voters == old(self).voters,
            final(self).votes == old(self).votes,
            final(self).next_election_id == old(self).next_election_id,
            final(self).next_candidate_id == old(self).next_candidate_id,
            final(self).next_voter_id == old(self).next_voter_id,
            final(self).next_vote_id == old(self).next_vote_id,
            if old(self).has_election(election_id) {
                final(self).elections@ == old(self).elections@.remove(
                    old(self).election_idx(election_id),
                )
            } else {
                final(self).elections == old(self).elections
            },
            final(self).candidates@ == old(self).candidates_without(election_id),
    {
        let ghost pre = *old(self);
        match self.find_election(election_id) {
            None => {},
            Some(r) => {
                self.elections.remove(r);
                proof {
                    assert forall|a: int, b: int|
                        #![trigger self.elections@[a], self.elections@[b]]
                        0 <= a < b < self.elections@.len() implies self.elections@[a].id
                        < self.elections@[b].id by {
                        assert(self.elections@[a] == if a < r as int {
                            pre.elections@[a]
                        } else {
                            pre.elections@[a + 1]
                        });
                        assert(self.elections@[b] == if b < r as int {
                            pre.elections@[b]
                        } else {
                            pre.elections@[b + 1]
                        });
                    }
                    assert forall|a: int|
                        0 <= a < self.elections@.len() implies (#[trigger] self.elections@[a]).id
                        < self.next_election_id by {
                        assert(self.elections@[a] == if a < r as int {
                            pre.elections@[a]
                        } else {
                            pre.elections@[a + 1]
                        });
                    }
                }
            },
        }
        let ghost elecs = self.elections;
        proof {
            assert(self.candidates@ =~= pre.candidates_without_prefix(election_id, 0)
                + pre.candidates@.skip(0));
        }
        let mut i: usize = 0;
        let ghost mut j: int = 0;
        while i < self.candidates.len()
            invariant
                0 <= j <= pre.candidates@.len(),
                i as int == pre.candidates_without_prefix(election_id, j).len(),
                self.candidates@ == pre.candidates_without_prefix(election_id, j)
                    + pre.candidates@.skip(j),
                self.elections == elecs,
                self.voters == pre.voters,
                self.votes == pre.votes,
                self.next_election_id == pre.next_election_id,
                self.next_candidate_id == pre.next_candidate_id,
                self.next_voter_id == pre.next_voter_id,
                self.next_vote_id == pre.next_vote_id,
            decreases pre.candidates@.len() - j,
        {
            proof {
                assert(self.candidates@[i as int] == pre.candidates@.skip(j)[0]);
                assert(pre.candidates@.skip(j)[0] == pre.candidates@[j]);
            }
            if self.candidates[i].election_id == election_id {
                self.candidates.remove(i);
                proof {
                    assert(pre.candidates_without_prefix(election_id, j + 1)
                        == pre.candidates_without_prefix(election_id, j));
                    assert(self.candidates@ =~= pre.candidates_without_prefix(election_id, j + 1)
                        + pre.candidates@.skip(j + 1));
                    j = j + 1;
                }
            } else {
                proof {
                    assert(pre.candidates_without_prefix(election_id, j + 1)
                        == pre.candidates_without_prefix(election_id, j).push(pre.candidates@[j]));
                    assert(self.candidates@ =~= pre.candidates_without_prefix(election_id, j + 1)
                        + pre.candidates@.skip(j + 1));
                    j = j + 1;
                }
                i = i + 1;
            }
        }
        proof {
            assert(pre.candidates@.skip(j).len() == 0);
            assert(j == pre.candidates@.len());
            assert(self.candidates@ =~= pre.candidates_without_prefix(election_id, j));
            lemma_candidates_without_props(pre, election_id, j);
            let post = *self;
            let w = pre.candidates_without_prefix(election_id, j);
            assert(post.candidates_sorted());
            assert forall|a: int|
                0 <= a < post.candidates@.len() implies (#[trigger] post.candidates@[a]).id
                < post.next_candidate_id by {
                let k = choose|k: int| 0 <= k < j && pre.candidates@[k] == w[a];
                assert(pre.candidates@[k].id < pre.next_candidate_id);
            }
            assert forall|a: int| 0 <= a < post.candidates@.len() implies post.candidate_linked(
                #[trigger] post.candidates@[a],
            ) by {
                let c = post.candidates@[a];
                let k = choose|k: int| 0 <= k < j && pre.candidates@[k] == c;
                assert(pre.candidate_linked(c));
                assert(c.election_id != election_id);
                let ke = pre.election_idx(c.election_id);
                assert(0 <= ke < pre.elections@.len() && pre.elections@[ke].id == c.election_id);
                if pre.has_election(election_id) {
                    let r = pre.election_idx(election_id);
                    assert(pre.elections@[r].id == election_id);
                    assert(ke != r);
                    if ke < r {
                        assert(post.elections@[ke] == pre.elections@[ke]);
                        post.lemma_election_idx_is(ke, c.election_id);
                    } else {
                        assert(post.elections@[ke - 1] == pre.elections@[ke]);
                        post.lemma_election_idx_is(ke - 1, c.election_id);
                    }
                } else {
                    post.lemma_election_idx_is(ke, c.election_id);
                }
            }
        }
    }

    /// All election records, in order of creation.
    pub fn list_elections(&self) -> (r: &Vec<Election>)
        ensures
            r@ == self.elections@,
    {
        &self.elections
    }
}

/// The survivors of a cascade delete cite other elections, all come from
/// the original records, and keep their strictly increasing id order.
pub proof fn lemma_candidates_without_props(s: Store, election_id: i64, n: int)
    requires
        0 <= n <= s.candidates@.len(),
        s.candidates_sorted(),
    ensures
        forall|a: int|
            #![trigger s.candidates_without_prefix(election_id, n)[a]]
            0 <= a < s.candidates_without_prefix(election_id, n).len()
                ==> s.candidates_without_prefix(election_id, n)[a].election_id != election_id
                && exists|k: int|
                0 <= k < n && s.candidates@[k] == s.candidates_without_prefix(election_id, n)[a],
        forall|a: int, b: int|
            #![trigger s.candidates_without_prefix(election_id, n)[a], s.candidates_without_prefix(election_id, n)[b]]
            0 <= a < b < s.candidates_without_prefix(election_id, n).len()
                ==> s.candidates_without_prefix(election_id, n)[a].id
                < s.candidates_without_prefix(election_id, n)[b].id,
    decreases n,
{
    if n > 0 {
        lemma_candidates_without_props(s, election_id, n - 1);
        let w0 = s.candidates_without_prefix(election_id, n - 1);
        let w = s.candidates_without_prefix(election_id, n);
        if s.candidates@[n - 1].election_id != election_id {
            assert(w == w0.push(s.candidates@[n - 1]));
            assert forall|a: int|
                0 <= a < w.len() implies #[trigger] w[a].election_id != election_id && exists|
                k: int,
            | 0 <= k < n && s.candidates@[k] == w[a] by {
                if a < w0.len() {
                    assert(w[a] == w0[a]);
                    let k = choose|k: int| 0 <= k < n - 1 && s.candidates@[k] == w0[a];
                    assert(0 <= k < n && s.candidates@[k] == w[a]);
                } else {
                    assert(w[a] == s.candidates@[n - 1]);
                }
            }
            assert forall|a: int, b: int| 0 <= a < b < w.len() implies #[trigger] w[a].id
                < #[trigger] w[b].id by {
                if b < w0.len() {
                    assert(w0[a].id < w0[b].id);
                } else {
                    assert(w[a] == w0[a]);
                    let k = choose|k: int| 0 <= k < n - 1 && s.candidates@[k] == w0[a];
                    assert(s.candidates@[k].id < s.candidates@[n - 1].id);
                }
            }
        }
    }
}

/// Idempotent transitions, stated once and for all: from `Draft`, one
/// `open_election` succeeds and makes the election `Open`; a second
/// `open_election` on the result also succeeds and changes nothing; and
/// `close_election` from `Draft` is refused with `InvalidTransition`.
pub proof fn lemma_transition_laws(pre: Store, post: Store, election_id: i64)
    requires
        pre.wf(),
        pre.has_election(election_id),
        pre.election_of(election_id).status == ElectionStatus::Draft,
        post.elections@ == pre.elections@.update(
            pre.election_idx(election_id),
            (Election { status: ElectionStatus::Open, ..pre.election_of(election_id) }),
        ),
    ensures
        pre.open_outcome(election_id) is None,
        pre.close_outcome(election_id) == Some(VoteError::InvalidTransition),
        post.open_outcome(election_id) is None,
        post.is_open_spec(election_id),
        post.elections@.update(
            post.election_idx(election_id),
            (Election { status: ElectionStatus::Open, ..post.election_of(election_id) }),
        ) == post.elections@,
{
    let k = pre.election_idx(election_id);
    assert(0 <= k < pre.elections@.len() && pre.elections@[k].id == election_id);
    assert(post.elections_sorted()) by {
        assert(forall|i: int|
            0 <= i < post.elections@.len() ==> (#[trigger] post.elections@[i]).id
                == pre.elections@[i].id);
    }
    post.lemma_election_idx_is(k, election_id);
    assert(post.election_of(election_id).status == ElectionStatus::Open);
    assert(post.elections@.update(k, (Election {
        status: ElectionStatus::Open,
        ..post.election_of(election_id)
    })) =~= post.elections@);
}

} // verus!
