//! Core data model: elections with their ordered positions, candidates,
//! registered voters, and the immutable vote records of the ledger.

use vstd::prelude::*;

verus! {

/// Lifecycle state of an election. An election is created in `Draft`,
/// is opened for voting with `Draft -> Open`, and is closed with
/// `Open -> Closed`. `Closed` is terminal.
#[derive(Clone, Copy, Debug, PartialEq, Eq, Structural)]
pub enum ElectionStatus {
    Draft,
    Open,
    Closed,
}

/// The kinds of failure an operation of the core can report. All of them
/// are terminal outcomes: none is retried by the core itself.
#[derive(Clone, Copy, Debug, PartialEq, Eq, Structural)]
pub enum VoteError {
    /// Malformed input: an empty election name or an empty position list.
    ValidationError,
    /// A referenced election, candidate or position does not exist.
    NotFound,
    /// A lifecycle transition was attempted from a state that forbids it.
    InvalidTransition,
    /// A vote was attempted against an election that is not `Open`.
    ElectionNotOpen,
    /// The cited candidate exists but does not run in the stated election
    /// under the stated position.
    CandidateMismatch,
    /// The voter already has a vote recorded for this election.
    AlreadyVoted,
    /// The persistence collaborator could not complete the operation.
    /// The in-memory store never reports it; callers that persist a
    /// snapshot map their storage errors to this kind.
    StorageFailure,
}

/// A named contest. It owns its ordered list of position titles: the
/// position with index `i` is `positions[i]`.
#[derive(Clone, Debug, PartialEq)]
pub struct Election {
    pub id: i64,
    pub name: String,
    pub status: ElectionStatus,
    pub created_at: String,
    pub positions: Vec<String>,
}

/// A contestant, bound to exactly one election and one of its positions.
#[derive(Clone, Debug, PartialEq)]
pub struct Candidate {
    pub id: i64,
    pub election_id: i64,
    pub position_index: usize,
    pub name: String,
    pub party: String,
}

/// An enrolled voter.
#[derive(Clone, Debug, PartialEq)]
pub struct Voter {
    pub id: i64,
    pub fullname: String,
    pub dob: String,
}

/// A voter together with the opaque credential hash that the credential
/// collaborator produced for them.
#[derive(Clone, Debug, PartialEq)]
pub struct Registration {
    pub voter: Voter,
    pub pinhash: String,
}

/// One cast vote. Votes are immutable once recorded: the ledger is
/// append-only and never updates or deletes them.
#[derive(Clone, Debug, PartialEq)]
pub struct Vote {
    pub id: i64,
    pub election_id: i64,
    pub voter_id: i64,
    pub position_index: usize,
    pub candidate_id: i64,
    pub cast_at: String,
}

/// One line of a tally: a candidate and the number of votes they drew.
#[derive(Clone, Debug, PartialEq)]
pub struct TallyRow {
    pub candidate_id: i64,
    pub name: String,
    pub party: String,
    pub count: usize,
}

/// The ranked rows of one position of a tally.
#[derive(Clone, Debug, PartialEq)]
pub struct PositionTally {
    pub position_index: usize,
    pub rows: Vec<TallyRow>,
}

} // verus!
