//! The records of a trivia game and the errors its operations report.

use vstd::prelude::*;

verus! {

/// The rating every player starts with.
pub const DEFAULT_ELO: i32 = 1200;

/// Points for a correct answer in an ordinary round.
pub const BASE_POINTS: u32 = 10;

/// The option index that counts as the correct answer. Scoring goes by this
/// index alone and never reads a question's `correct_answer`: whoever shows
/// a question has to put the correct answer first.
pub const CORRECT_INDEX: u32 = 0;

/// An authenticated caller: a 256-bit number, held as its upper and lower half.
#[derive(Clone, Copy, Debug, PartialEq, Eq, Structural)]
pub struct Identity {
    pub hi: u128,
    pub lo: u128,
}

/// Where a lobby stands: it waits for players, then its game runs, then it
/// is over.
#[derive(Clone, Copy, Debug, PartialEq, Eq, Structural)]
pub enum LobbyStatus {
    Waiting,
    InGame,
    Finished,
}

/// Where a round stands. A round only moves forward, one step at a time.
#[derive(Clone, Copy, Debug, PartialEq, Eq, Structural)]
pub enum RoundStatus {
    Waiting,
    InProgress,
    Scoring,
    Finished,
}

/// Where an agent job stands, as its worker reports it.
#[derive(Clone, Copy, Debug, PartialEq, Eq, Structural)]
pub enum JobStatus {
    Pending,
    Processing,
    Completed,
    Failed,
}

/// Why an operation was refused. A refused operation leaves the store as it was.
#[derive(Clone, Copy, Debug, PartialEq, Eq, Structural)]
pub enum GameError {
    /// A referenced record does not exist.
    NotFound,
    /// The caller is not the host of the lobby.
    Forbidden,
    /// The record is not in the state the transition starts from.
    InvalidState,
    /// An argument is empty or malformed.
    InvalidInput,
    /// The caller has already answered this round.
    DuplicateSubmission,
    /// No free display name could be given to a new player.
    NameConflict,
    /// The question bank is empty.
    NoContent,
    /// A new lobby could not be stored.
    LobbyCreateFailed,
    /// A record could not be stored.
    StoreFailure,
}

/// A question draft handed in by an agent.
#[derive(Debug)]
pub struct NewQuestionData {
    pub text: String,
    pub correct_answer: String,
    pub wrong_answers: Vec<String>,
    pub topic: String,
    pub difficulty: String,
}

/// A question of the bank. The correct answer is shown as option 0.
#[derive(Debug)]
pub struct Question {
    pub question_id: u64,
    pub text: String,
    pub correct_answer: String,
    pub wrong_answers: Vec<String>,
    pub topic: String,
    pub difficulty: String,
    pub quality_score: i32,
    pub origin_agent: Option<String>,
}

/// A caller as a player: a unique name, the score of the running game, and
/// the rating.
#[derive(Debug)]
pub struct Player {
    pub player_id: Identity,
    pub name: String,
    pub score: u32,
    pub elo: i32,
}

/// A waiting room, hosted by the caller who opened it, and later its game.
#[derive(Debug)]
pub struct Lobby {
    pub lobby_id: u64,
    pub name: Option<String>,
    pub status: LobbyStatus,
    pub host_id: Identity,
    pub next_round_is_lightning: bool,
}

/// One question put to the players of a lobby.
#[derive(Clone, Copy, Debug, PartialEq, Eq, Structural)]
pub struct ActiveRound {
    pub round_id: u64,
    pub lobby_id: u64,
    pub question_id: u64,
    /// Microseconds since the Unix epoch.
    pub start_time: i64,
    pub status: RoundStatus,
    pub is_lightning: bool,
}

/// The option a player chose in a round. The score is set when the round is
/// scored.
#[derive(Clone, Copy, Debug, PartialEq, Eq, Structural)]
pub struct Answer {
    pub answer_id: u64,
    pub round_id: u64,
    pub player_id: Identity,
    pub chosen_answer_index: u32,
    pub score: Option<u32>,
}

/// A job for an agent, with its payload as the requester wrote it.
#[derive(Debug)]
pub struct AgentJobQueue {
    pub job_id: u64,
    pub agent_id: u64,
    pub payload_json: String,
    pub status: JobStatus,
    pub error_message: Option<String>,
}

/// An agent as its owner registered it.
#[derive(Debug)]
pub struct AgentRegistry {
    pub agent_id: u64,
    pub owner_id: Identity,
    pub wasm_hash: String,
    pub capabilities: Vec<String>,
    pub energy_quota: u64,
}

/// How many players chose one option in one round.
#[derive(Clone, Copy, Debug, PartialEq, Eq, Structural)]
pub struct CrowdMeterStats {
    pub round_id: u64,
    pub answer_index: u32,
    pub count: u32,
}

} // verus!
