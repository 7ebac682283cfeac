//! The words by which statuses are written outside the library.

use vstd::prelude::*;
use crate::types::{JobStatus, LobbyStatus, RoundStatus};

verus! {

/// The word for the status of a lobby.
pub open spec fn spec_lobby_status_name(status: LobbyStatus) -> Seq<char> {
    match status {
        LobbyStatus::Waiting => "waiting"@,
        LobbyStatus::InGame => "in_game"@,
        LobbyStatus::Finished => "finished"@,
    }
}

/// Writes the status of a lobby as its word.
pub fn lobby_status_name(status: LobbyStatus) -> (word: &'static str)
    ensures
        word@ == spec_lobby_status_name(status),
{
    match status {
        LobbyStatus::Waiting => "waiting",
        LobbyStatus::InGame => "in_game",
        LobbyStatus::Finished => "finished",
    }
}

/// The status of a lobby that a word names, if it names one.
pub open spec fn spec_parse_lobby_status(word: Seq<char>) -> Option<LobbyStatus> {
    if word == "waiting"@ {
        Some(LobbyStatus::Waiting)
    } else if word == "in_game"@ {
        Some(LobbyStatus::InGame)
    } else if word == "finished"@ {
        Some(LobbyStatus::Finished)
    } else {
        None
    }
}

/// Reads the status of a lobby from its word.
pub fn parse_lobby_status(word: &String) -> (status: Option<LobbyStatus>)
    ensures
        status == spec_parse_lobby_status(word@),
{
    if *word == String::from_str("waiting") {
        Some(LobbyStatus::Waiting)
    } else if *word == String::from_str("in_game") {
        Some(LobbyStatus::InGame)
    } else if *word == String::from_str("finished") {
        Some(LobbyStatus::Finished)
    } else {
        None
    }
}

/// Every status of a lobby is read back from its own word.
pub proof fn lemma_lobby_status_round_trip(status: LobbyStatus)
    ensures
        spec_parse_lobby_status(spec_lobby_status_name(status)) == Some(status),
{
    reveal_strlit("waiting");
    reveal_strlit("in_game");
    reveal_strlit("finished");
    assert("waiting"@.len() == 7);
    assert("in_game"@.len() == 7);
    assert("finished"@.len() == 8);
    assert("waiting"@[0] != "in_game"@[0]);
}

/// The word for the status of a round.
pub open spec fn spec_round_status_name(status: RoundStatus) -> Seq<char> {
    match status {
        RoundStatus::Waiting => "waiting"@,
        RoundStatus::InProgress => "in_progress"@,
        RoundStatus::Scoring => "scoring"@,
        RoundStatus::Finished => "finished"@,
    }
}

/// Writes the status of a round as its word.
pub fn round_status_name(status: RoundStatus) -> (word: &'static str)
    ensures
        word@ == spec_round_status_name(status),
{
    match status {
        RoundStatus::Waiting => "waiting",
        RoundStatus::InProgress => "in_progress",
        RoundStatus::Scoring => "scoring",
        RoundStatus::Finished => "finished",
    }
}

/// The status of a round that a word names, if it names one.
pub open spec fn spec_parse_round_status(word: Seq<char>) -> Option<RoundStatus> {
    if word == "waiting"@ {
        Some(RoundStatus::Waiting)
    } else if word == "in_progress"@ {
        Some(RoundStatus::InProgress)
    } else if word == "scoring"@ {
        Some(RoundStatus::Scoring)
    } else if word == "finished"@ {
        Some(RoundStatus::Finished)
    } else {
        None
    }
}

/// Reads the status of a round from its word.
pub fn parse_round_status(word: &String) -> (status: Option<RoundStatus>)
    ensures
        status == spec_parse_round_status(word@),
{
    if *word == String::from_str("waiting") {
        Some(RoundStatus::Waiting)
    } else if *word == String::from_str("in_progress") {
        Some(RoundStatus::InProgress)
    } else if *word == String::from_str("scoring") {
        Some(RoundStatus::Scoring)
    } else if *word == String::from_str("finished") {
        Some(RoundStatus::Finished)
    } else {
        None
    }
}

/// Every status of a round is read back from its own word.
pub proof fn lemma_round_status_round_trip(status: RoundStatus)
    ensures
        spec_parse_round_status(spec_round_status_name(status)) == Some(status),
{
    reveal_strlit("waiting");
    reveal_strlit("in_progress");
    reveal_strlit("scoring");
    reveal_strlit("finished");
    assert("waiting"@.len() == 7);
    assert("in_progress"@.len() == 11);
    assert("scoring"@.len() == 7);
    assert("finished"@.len() == 8);
    assert("waiting"@[0] != "scoring"@[0]);
}

/// The word for the status of an agent job.
pub open spec fn spec_job_status_name(status: JobStatus) -> Seq<char> {
    match status {
        JobStatus::Pending => "pending"@,
        JobStatus::Processing => "processing"@,
        JobStatus::Completed => "completed"@,
        JobStatus::Failed => "failed"@,
    }
}

/// Writes the status of an agent job as its word.
pub fn job_status_name(status: JobStatus) -> (word: &'static str)
    ensures
        word@ == spec_job_status_name(status),
{
    match status {
        JobStatus::Pending => "pending",
        JobStatus::Processing => "processing",
        JobStatus::Completed => "completed",
        JobStatus::Failed => "failed",
    }
}

/// The status of an agent job that a word names, if it names one.
pub open spec fn spec_parse_job_status(word: Seq<char>) -> Option<JobStatus> {
    if word == "pending"@ {
        Some(JobStatus::Pending)
    } else if word == "processing"@ {
        Some(JobStatus::Processing)
    } else if word == "completed"@ {
        Some(JobStatus::Completed)
    } else if word == "failed"@ {
        Some(JobStatus::Failed)
    } else {
        None
    }
}

/// Reads the status of an agent job from its word.
pub fn parse_job_status(word: &String) -> (status: Option<JobStatus>)
    ensures
        status == spec_parse_job_status(word@),
{
    if *word == String::from_str("pending") {
        Some(JobStatus::Pending)
    } else if *word == String::from_str("processing") {
        Some(JobStatus::Processing)
    } else if *word == String::from_str("completed") {
        Some(JobStatus::Completed)
    } else if *word == String::from_str("failed") {
        Some(JobStatus::Failed)
    } else {
        None
    }
}

/// Every status of an agent job is read back from its own word.
pub proof fn lemma_job_status_round_trip(status: JobStatus)
    ensures
        spec_parse_job_status(spec_job_status_name(status)) == Some(status),
{
    reveal_strlit("pending");
    reveal_strlit("processing");
    reveal_strlit("completed");
    reveal_strlit("failed");
    assert("pending"@.len() == 7);
    assert("processing"@.len() == 10);
    assert("completed"@.len() == 9);
    assert("failed"@.len() == 6);
}

} // verus!
