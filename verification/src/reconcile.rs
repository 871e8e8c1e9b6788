//! Decision core of the reconciliation loop.
//!
//! On a fixed interval, the background task fetches the current target and
//! asks [`plan_tick`] what to do. While the target is unconfirmed, the task
//! queries the block-explorer service for the block hash at the target
//! height and then for the block's detail; a non-success response simply
//! ends the tick, and the next tick retries. On success, the block's nonce
//! is written back through `GuessDb::insert_target`, confirming the target —
//! the one transition of the target's two-state life, and a terminal one.

use vstd::prelude::*;

verus! {

/// What one tick of the reconciliation loop does.
#[derive(Debug, Clone, Copy, PartialEq, Eq, Structural)]
pub enum TickAction {
    /// No target exists, or the target is already confirmed: do nothing.
    Idle,
    /// The target at this height is unconfirmed: ask the block-explorer
    /// service for its block, and on success confirm its nonce.
    FetchHash(u32),
}

/// Decide what a tick does, given the current target row: only a present,
/// unconfirmed target is worth a fetch.
pub fn plan_tick(last_target: Option<(u32, Option<u32>)>) -> (r: TickAction)
    ensures
        r == (match last_target {
            Some((height, None)) => TickAction::FetchHash(height),
            _ => TickAction::Idle,
        }),
{
    match last_target {
        Some((height, None)) => TickAction::FetchHash(height),
        _ => TickAction::Idle,
    }
}

} // verus!
