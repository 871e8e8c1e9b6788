//! Domain types of the guessing game and the errors its operations return.

use vstd::prelude::*;

verus! {

/// A player's guess for a target block nonce.
///
/// The player is identified by the 128-bit value of their UUID.
#[derive(Debug, Clone, Copy, PartialEq, Eq, Structural)]
pub struct Guess {
    pub player: u128,
    pub nonce: u32,
}

/// The target block that players are trying to guess the nonce for.
#[derive(Debug, Clone, Copy, PartialEq, Eq, Structural)]
pub struct Target {
    pub block: u32,
    pub nonce: Option<u32>,
}

/// Block data as reported by the external block-explorer service.
#[derive(Debug, Clone)]
pub struct Block {
    pub id: String,
    pub height: u32,
    pub nonce: u32,
}

/// Failures of the storage engine, the worker pool, or the network.
///
/// Carries no payload: the message rendering of the underlying libraries is
/// presentation, done by the unverified shell.
#[derive(Debug, Clone, Copy, PartialEq, Eq, Structural)]
pub enum InternalError {
    /// A table could not be opened.
    Table,
    /// A transaction could not be started.
    Transaction,
    /// A read or write inside a transaction failed.
    Storage,
    /// A commit failed.
    Commit,
    /// A stored guess row is not a valid encoding.
    CorruptGuess,
    /// A worker-pool task could not be joined.
    Join,
    /// An HTTP request failed.
    Network,
}

/// Domain errors of guess operations.
#[derive(Debug, Clone, PartialEq, Eq)]
pub enum GuessError {
    /// The player already made a guess for this target height.
    DuplicateGuess(u32),
    /// The submitted nonce text is not a valid guess.
    InvalidNonce(String),
    /// The nonce was already guessed by another player.
    DuplicateNonce(String),
    /// The block was already confirmed for this target height.
    ConfirmedTarget(u32),
    /// No target row exists at this height.
    MissingTarget(u32),
    /// A storage, worker-pool, or network failure.
    Internal(InternalError),
}

/// Domain errors of target changes.
#[derive(Debug, Clone, Copy, PartialEq, Eq, Structural)]
pub enum TargetError {
    /// The requested height is not greater than the current target height.
    InvalidHeight(u32),
    /// A storage, worker-pool, or network failure.
    Internal(InternalError),
}

} // verus!
