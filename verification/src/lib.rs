//! Verified core of a block-nonce guessing game.
//!
//! Players guess the nonce of a future block at a chosen target height.
//! The state — the target heights with their (eventually confirmed) nonces,
//! and the per-height collections of guesses — lives in two tables of an
//! embedded `redb` store. This crate verifies the codec that turns guesses
//! into stored bytes, the table operations run inside `redb` transactions,
//! and the pure decision rules of the surrounding service; the store itself
//! is an external collaborator reached through a small trusted adapter.

pub mod auth;
pub mod codec;
pub mod db;
pub mod reconcile;
pub mod rows;
pub mod store;
pub mod types;
pub mod web;
