//! The tally engine: a read-only projection of the ledger. For each
//! position of an election that has registered candidates, it counts the
//! votes each candidate drew and ranks the candidates by descending count,
//! ties broken by ascending candidate id — a total order, so the result is
//! deterministic and order-stable for a fixed store snapshot.

use vstd::prelude::*;

use crate::models::{Candidate, PositionTally, TallyRow, VoteError};
use crate::store::Store;

verus! {

/// The ranking order of tally rows: more votes first, ties broken by
/// ascending candidate id.
pub open spec fn row_le(a: TallyRow, b: TallyRow) -> bool {
    a.count > b.count || (a.count == b.count && a.candidate_id <= b.candidate_id)
}

/// Sortedness under the ranking order.
pub open spec fn rows_sorted(s: Seq<TallyRow>) -> bool {
    forall|i: int, j: int| 0 <= i < j < s.len() ==> row_le(#[trigger] s[i], #[trigger] s[j])
}

/// Insertion into a ranked sequence, before the first row it does not
/// outrank.
pub open spec fn insert_row(r: TallyRow, s: Seq<TallyRow>) -> Seq<TallyRow>
    decreases s.len(),
{
    if s.len() == 0 {
        seq![r]
    } else if row_le(r, s[0]) {
        seq![r] + s
    } else {
        seq![s[0]] + insert_row(r, s.drop_first())
    }
}

/// Insertion sort under the ranking order.
pub open spec fn sort_rows(s: Seq<TallyRow>) -> Seq<TallyRow>
    decreases s.len(),
{
    if s.len() == 0 {
        Seq::empty()
    } else {
        insert_row(s.last(), sort_rows(s.drop_last()))
    }
}

/// `insert_row` keeps a ranked sequence ranked, and adds exactly the new
/// row.
pub proof fn lemma_insert_row_props(r: TallyRow, s: Seq<TallyRow>)
    requires
        rows_sorted(s),
    ensures
        rows_sorted(insert_row(r, s)),
        insert_row(r, s).to_multiset() == s.push(r).to_multiset(),
        insert_row(r, s).len() == s.len() + 1,
    decreases s.len(),
{
    broadcast use vstd::seq_lib::group_to_multiset_ensures;

    if s.len() == 0 {
        assert(s.push(r) =~= seq![r]);
    } else if row_le(r, s[0]) {
        let out = seq![r] + s;
        assert(out =~= s.insert(0, r));
        assert(s.push(r) =~= s.insert(s.len() as int, r));
        assert forall|i: int, j: int| 0 <= i < j < out.len() implies row_le(out[i], out[j]) by {
            if 0 < i {
                assert(row_le(s[i - 1], s[j - 1]));
            }
        }
    } else {
        let rest = s.drop_first();
        assert(rows_sorted(rest)) by {
            assert(forall|i: int, j: int|
                0 <= i < j < rest.len() ==> row_le(#[trigger] rest[i], #[trigger] rest[j])
                    == row_le(s[i + 1], s[j + 1]));
        }
        lemma_insert_row_props(r, rest);
        let tail = insert_row(r, rest);
        let out = seq![s[0]] + tail;
        // multisets: out adds r to s
        assert(out =~= tail.insert(0, s[0]));
        assert(s =~= rest.insert(0, s[0]));
        assert(out.to_multiset() == tail.to_multiset().insert(s[0]));
        assert(tail.to_multiset() == rest.push(r).to_multiset());
        assert(s.to_multiset() == rest.to_multiset().insert(s[0]));
        assert(out.to_multiset() =~= s.to_multiset().insert(r));
        assert(s.push(r).to_multiset() =~= s.to_multiset().insert(r));
        // order: the head outranks the new row and every old row
        assert forall|i: int, j: int| 0 <= i < j < out.len() implies row_le(out[i], out[j]) by {
            if i == 0 {
                let x = out[j];
                assert(tail.contains(x)) by {
                    assert(tail[j - 1] == x);
                }
                assert(tail.to_multiset().count(x) > 0);
                assert(rest.push(r).to_multiset().count(x) > 0);
                assert(rest.push(r).contains(x));
                let w = choose|w: int| 0 <= w < rest.push(r).len() && rest.push(r)[w] == x;
                if w < rest.len() {
                    assert(s[w + 1] == x);
                    assert(row_le(s[0], x));
                } else {
                    assert(x == r);
                    assert(row_le(s[0], r));
                }
            } else {
                assert(row_le(tail[i - 1], tail[j - 1]));
            }
        }
    }
}

/// `sort_rows` ranks its input: the output is sorted under the ranking
/// order and is a permutation of the input.
pub proof fn lemma_sort_rows_props(s: Seq<TallyRow>)
    ensures
        rows_sorted(sort_rows(s)),
        sort_rows(s).to_multiset() == s.to_multiset(),
        sort_rows(s).len() == s.len(),
    decreases s.len(),
{
    broadcast use vstd::seq_lib::group_to_multiset_ensures;

    if s.len() > 0 {
        let head = s.drop_last();
        lemma_sort_rows_props(head);
        lemma_insert_row_props(s.last(), sort_rows(head));
        assert(s =~= head.push(s.last()));
        assert(sort_rows(head).push(s.last()).to_multiset() == sort_rows(head).to_multiset().insert(
            s.last(),
        ));
        assert(head.push(s.last()).to_multiset() == head.to_multiset().insert(s.last()));
    }
}

impl Store {
    /// Votes for `candidate_id` in `election_id` among the first `n` ledger
    /// records.
    pub open spec fn vote_count_prefix(self, election_id: i64, candidate_id: i64, n: int) -> nat
        decreases n,
    {
        if n <= 0 {
            0
        } else if self.votes@[n - 1].election_id == election_id && self.votes@[n - 1].candidate_id
            == candidate_id {
            self.vote_count_prefix(election_id, candidate_id, n - 1) + 1
        } else {
            self.vote_count_prefix(election_id, candidate_id, n - 1)
        }
    }

    /// Votes for `candidate_id` in `election_id` across the whole ledger.
    pub open spec fn vote_count(self, election_id: i64, candidate_id: i64) -> nat {
        self.vote_count_prefix(election_id, candidate_id, self.votes@.len() as int)
    }

    /// The candidates of `election_id` at `position_index` among the first
    /// `n` candidate records, in registration order.
    pub open spec fn candidates_at_prefix(
        self,
        election_id: i64,
        position_index: usize,
        n: int,
    ) -> Seq<Candidate>
        decreases n,
    {
        if n <= 0 {
            Seq::empty()
        } else if self.candidates@[n - 1].election_id == election_id && self.candidates@[n
            - 1].position_index == position_index {
            self.candidates_at_prefix(election_id, position_index, n - 1).push(
                self.candidates@[n - 1],
            )
        } else {
            self.candidates_at_prefix(election_id, position_index, n - 1)
        }
    }

    /// All candidates of `election_id` at `position_index`, in registration
    /// order.
    pub open spec fn candidates_at(self, election_id: i64, position_index: usize) -> Seq<
        Candidate,
    > {
        self.candidates_at_prefix(election_id, position_index, self.candidates@.len() as int)
    }

    /// The tally row of one candidate.
    pub open spec fn row_of(self, election_id: i64, c: Candidate) -> TallyRow {
        TallyRow {
            candidate_id: c.id,
            name: c.name,
            party: c.party,
            count: self.vote_count(election_id, c.id) as usize,
        }
    }

    /// One tally row per candidate of `election_id` at `position_index`
    /// among the first `n` candidate records, in registration order,
    /// before ranking.
    pub open spec fn rows_of_prefix(
        self,
        election_id: i64,
        position_index: usize,
        n: int,
    ) -> Seq<TallyRow>
        decreases n,
    {
        if n <= 0 {
            Seq::empty()
        } else if self.candidates@[n - 1].election_id == election_id && self.candidates@[n
            - 1].position_index == position_index {
            self.rows_of_prefix(election_id, position_index, n - 1).push(
                self.row_of(election_id, self.candidates@[n - 1]),
            )
        } else {
            self.rows_of_prefix(election_id, position_index, n - 1)
        }
    }

    /// One unranked tally row per candidate of the position, in
    /// registration order.
    pub open spec fn rows_of(self, election_id: i64, position_index: usize) -> Seq<TallyRow> {
        self.rows_of_prefix(election_id, position_index, self.candidates@.len() as int)
    }

    /// The ranked rows of a position, built from the first `n` candidate
    /// records.
    pub open spec fn position_rows_prefix(
        self,
        election_id: i64,
        position_index: usize,
        n: int,
    ) -> Seq<TallyRow> {
        sort_rows(self.rows_of_prefix(election_id, position_index, n))
    }

    /// The ranked rows of a position: one row per registered candidate,
    /// sorted by descending count, ties by ascending candidate id.
    pub open spec fn position_rows(self, election_id: i64, position_index: usize) -> Seq<
        TallyRow,
    > {
        self.position_rows_prefix(election_id, position_index, self.candidates@.len() as int)
    }

    /// The position indices below `n` that have at least one registered
    /// candidate in `election_id`, ascending.
    pub open spec fn present_positions(self, election_id: i64, n: int) -> Seq<usize>
        decreases n,
    {
        if n <= 0 {
            Seq::empty()
        } else if self.candidates_at(election_id, (n - 1) as usize).len() > 0 {
            self.present_positions(election_id, n - 1).push((n - 1) as usize)
        } else {
            self.present_positions(election_id, n - 1)
        }
    }

    /// The tally of the positions below `n`: each position with candidates,
    /// paired with its ranked rows.
    pub open spec fn tally_spec_prefix(self, election_id: i64, n: int) -> Seq<
        (usize, Seq<TallyRow>),
    > {
        self.present_positions(election_id, n).map_values(
            |q: usize| (q, self.position_rows(election_id, q)),
        )
    }

    /// What `tally` returns for an existing election, as a function of the
    /// store snapshot alone.
    pub open spec fn tally_spec(self, election_id: i64) -> Seq<(usize, Seq<TallyRow>)> {
        self.tally_spec_prefix(
            election_id,
            self.election_of(election_id).positions@.len() as int,
        )
    }

    /// Counts the votes for `candidate_id` in `election_id`.
    fn count_votes(&self, election_id: i64, candidate_id: i64) -> (n: usize)
        ensures
            n == self.vote_count(election_id, candidate_id),
    {
        let mut n: usize = 0;
        let mut i: usize = 0;
        while i < self.votes.len()
            invariant
                i <= self.votes@.len(),
                n <= i,
                n == self.vote_count_prefix(election_id, candidate_id, i as int),
            decreases self.votes@.len() - i,
        {
            if self.votes[i].election_id == election_id && self.votes[i].candidate_id
                == candidate_id {
                n = n + 1;
            }
            i = i + 1;
        }
        n
    }

    /// Inserts `row` into the ranked sequence `rows`, keeping the ranking.
    fn insert_row_exec(rows: &mut Vec<TallyRow>, row: TallyRow)
        ensures
            final(rows)@ == insert_row(row, old(rows)@),
    {
        let mut k: usize = 0;
        while k < rows.len() && !(row.count > rows[k].count || (row.count == rows[k].count
            && row.candidate_id <= rows[k].candidate_id))
            invariant
                k <= rows@.len(),
                forall|j: int| 0 <= j < k ==> !row_le(row, rows@[j]),
            decreases rows@.len() - k,
        {
            k = k + 1;
        }
        proof {
            lemma_insert_row_at(row, rows@, k as int);
        }
        rows.insert(k, row);
    }

    /// Computes the tally of an election: for each of its position indices
    /// with registered candidates, ascending, the candidates of that
    /// position with their vote counts, sorted by descending count and ties
    /// by ascending candidate id. Candidates with no votes appear with
    /// count 0. Read-only: a consistent snapshot of the ledger is
    /// aggregated, and the store is untouched. Fails with `NotFound` when
    /// the election does not exist.
    pub fn tally(&self, election_id: i64) -> (r: Result<Vec<PositionTally>, VoteError>)
        requires
            self.wf(),
        ensures
            match r {
                Ok(res) => self.has_election(election_id) && tally_view(res@)
                    == self.tally_spec(election_id),
                Err(k) => k == VoteError::NotFound && !self.has_election(election_id),
            },
    {
        let ei = match self.find_election(election_id) {
            None => {
                return Err(VoteError::NotFound);
            },
            Some(i) => i,
        };
        let npos = self.elections[ei].positions.len();
        let mut out: Vec<PositionTally> = Vec::new();
        let mut p: usize = 0;
        while p < npos
            invariant
                self.wf(),
                self.has_election(election_id),
                ei < self.elections@.len(),
                self.election_idx(election_id) == ei as int,
                npos == self.election_of(election_id).positions@.len(),
                p <= npos,
                tally_view(out@) == self.tally_spec_prefix(election_id, p as int),
            decreases npos - p,
        {
            let mut rows: Vec<TallyRow> = Vec::new();
            let mut ci: usize = 0;
            while ci < self.candidates.len()
                invariant
                    self.wf(),
                    ci <= self.candidates@.len(),
                    rows@ == self.position_rows_prefix(election_id, p, ci as int),
                decreases self.candidates@.len() - ci,
            {
                if self.candidates[ci].election_id == election_id
                    && self.candidates[ci].position_index == p {
                    let count = self.count_votes(election_id, self.candidates[ci].id);
                    let row = TallyRow {
                        candidate_id: self.candidates[ci].id,
                        name: self.candidates[ci].name.clone(),
                        party: self.candidates[ci].party.clone(),
                        count,
                    };
                    proof {
                        let c = self.candidates@[ci as int];
                        assert(row == self.row_of(election_id, c));
                        let base = self.rows_of_prefix(election_id, p, ci as int);
                        assert(self.rows_of_prefix(election_id, p, ci + 1) == base.push(row));
                        assert(base.push(row).drop_last() =~= base);
                        assert(sort_rows(base.push(row)) == insert_row(row, sort_rows(base)));
                    }
                    Self::insert_row_exec(&mut rows, row);
                } else {
                    proof {
                        assert(self.rows_of_prefix(election_id, p, ci + 1) == self.rows_of_prefix(
                            election_id,
                            p,
                            ci as int,
                        ));
                    }
                }
                ci = ci + 1;
            }
            proof {
                assert(rows@ == self.position_rows(election_id, p));
                lemma_sort_rows_props(self.rows_of(election_id, p));
                lemma_rows_of_matches_candidates(
                    *self,
                    election_id,
                    p,
                    self.candidates@.len() as int,
                );
            }
            if !rows.is_empty() {
                let ghost out0 = out@;
                let ghost rows0 = rows@;
                out.push(PositionTally { position_index: p, rows });
                proof {
                    assert(self.candidates_at(election_id, p).len() > 0);
                    assert(tally_view(out@) =~= tally_view(out0).push(
                        (p, self.position_rows(election_id, p)),
                    ));
                    assert(self.present_positions(election_id, p as int + 1)
                        == self.present_positions(election_id, p as int).push(p));
                    assert(self.tally_spec_prefix(election_id, p as int + 1)
                        =~= self.tally_spec_prefix(election_id, p as int).push(
                        (p, self.position_rows(election_id, p)),
                    ));
                }
            } else {
                proof {
                    assert(self.candidates_at(election_id, p).len() == 0);
                    assert(self.present_positions(election_id, p as int + 1)
                        == self.present_positions(election_id, p as int));
                    assert(self.tally_spec_prefix(election_id, p as int + 1) == self.tally_spec_prefix(
                        election_id,
                        p as int,
                    ));
                }
            }
            p = p + 1;
        }
        Ok(out)
    }
}

/// Projection of a tally to its mathematical content: the position index
/// and the row sequence of each entry.
pub open spec fn tally_view(res: Seq<PositionTally>) -> Seq<(usize, Seq<TallyRow>)> {
    res.map_values(|pt: PositionTally| (pt.position_index, pt.rows@))
}

/// Where `insert_row` puts the new row: at the first index whose row it
/// outranks.
pub proof fn lemma_insert_row_at(row: TallyRow, s: Seq<TallyRow>, k: int)
    requires
        0 <= k <= s.len(),
        forall|j: int| 0 <= j < k ==> !row_le(row, s[j]),
        k < s.len() ==> row_le(row, s[k]),
    ensures
        insert_row(row, s) == s.insert(k, row),
    decreases k,
{
    if k == 0 {
        if s.len() == 0 {
            assert(insert_row(row, s) =~= s.insert(0, row));
        } else {
            assert(seq![row] + s =~= s.insert(0, row));
        }
    } else {
        let rest = s.drop_first();
        assert(!row_le(row, s[0]));
        lemma_insert_row_at(row, rest, k - 1);
        assert(seq![s[0]] + rest.insert(k - 1, row) =~= s.insert(k, row));
    }
}

/// There is one unranked tally row per registered candidate of a position:
/// the two prefix sequences keep step.
pub proof fn lemma_rows_of_matches_candidates(
    s: Store,
    election_id: i64,
    position_index: usize,
    n: int,
)
    ensures
        s.rows_of_prefix(election_id, position_index, n).len() == s.candidates_at_prefix(
            election_id,
            position_index,
            n,
        ).len(),
    decreases n,
{
    if n > 0 {
        lemma_rows_of_matches_candidates(s, election_id, position_index, n - 1);
    }
}

/// Tally determinism: the tally of a fixed store snapshot is one fixed
/// value — repeated calls agree entry for entry.
pub proof fn lemma_tally_deterministic(
    s: Store,
    election_id: i64,
    out1: Seq<(usize, Seq<TallyRow>)>,
    out2: Seq<(usize, Seq<TallyRow>)>,
)
    requires
        out1 == s.tally_spec(election_id),
        out2 == s.tally_spec(election_id),
    ensures
        out1 == out2,
{
}

/// The entries of a tally stand for exactly the position indices below `n`
/// that have registered candidates — no position is dropped, none is
/// invented — and they come in ascending order.
pub proof fn lemma_present_positions_props(s: Store, election_id: i64, n: int)
    requires
        n <= usize::MAX,
    ensures
        forall|k: int|
            #![trigger s.present_positions(election_id, n)[k]]
            0 <= k < s.present_positions(election_id, n).len() ==> (s.present_positions(
                election_id,
                n,
            )[k] as int) < n && s.candidates_at(
                election_id,
                s.present_positions(election_id, n)[k],
            ).len() > 0,
        forall|k1: int, k2: int|
            #![trigger s.present_positions(election_id, n)[k1], s.present_positions(election_id, n)[k2]]
            0 <= k1 < k2 < s.present_positions(election_id, n).len() ==> s.present_positions(
                election_id,
                n,
            )[k1] < s.present_positions(election_id, n)[k2],
        forall|p: usize|
            0 <= (p as int) < n && (#[trigger] s.candidates_at(election_id, p)).len() > 0
                ==> s.present_positions(election_id, n).contains(p),
    decreases n,
{
    if n > 0 {
        lemma_present_positions_props(s, election_id, n - 1);
        let p0 = s.present_positions(election_id, n - 1);
        let p1 = s.present_positions(election_id, n);
        assert forall|p: usize|
            0 <= (p as int) < n && (#[trigger] s.candidates_at(election_id, p)).len()
                > 0 implies p1.contains(p) by {
            if (p as int) < n - 1 {
                assert(p0.contains(p));
                let k = choose|k: int| 0 <= k < p0.len() && p0[k] == p;
                assert(p1[k] == p);
            } else {
                assert(p1[p1.len() - 1] == p);
            }
        }
    }
}

/// Order stability of a tally: the rows of every position are sorted by
/// descending count, ties broken by ascending candidate id, and they are a
/// permutation of one row per registered candidate of that position.
pub proof fn lemma_position_rows_sorted(s: Store, election_id: i64, position_index: usize)
    ensures
        rows_sorted(s.position_rows(election_id, position_index)),
        s.position_rows(election_id, position_index).to_multiset() == s.rows_of(
            election_id,
            position_index,
        ).to_multiset(),
        s.position_rows(election_id, position_index).len() == s.candidates_at(
            election_id,
            position_index,
        ).len(),
{
    lemma_sort_rows_props(s.rows_of(election_id, position_index));
    lemma_rows_of_matches_candidates(
        s,
        election_id,
        position_index,
        s.candidates@.len() as int,
    );
}

} // verus!
