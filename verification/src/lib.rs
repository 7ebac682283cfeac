//! Game logic of a multiplayer trivia server: lobbies, rounds, answers,
//! scoring, rating updates at the end of a game, and a queue of work for
//! question-writing agents.
//!
//! Every operation takes the [`store::Store`] it works on and the identity
//! of the caller. An operation that is refused returns a
//! [`types::GameError`] and leaves the store as it was. Each operation keeps
//! the rules of the tables ([`store::Tables::wf`]) and never takes anything
//! back ([`store::Tables::follows`]).
//!
//! - [`types`]: the records and the errors
//! - [`store`]: the tables, their rules, and lookups by key
//! - [`bootstrap`]: the questions a new server starts with
//! - [`lobby`]: players and lobbies
//! - [`round`]: starting a game, taking answers, scoring
//! - [`finalize`]: places, matchups and the rating update at the end
//! - [`agents`]: agent jobs, registrations and handed-in questions
//! - [`status`]: the words for statuses
//! - [`text`]: hexadecimal, decimal and blank texts

pub mod agents;
pub mod bootstrap;
pub mod finalize;
pub mod lobby;
pub mod round;
pub mod status;
pub mod store;
pub mod text;
pub mod types;
