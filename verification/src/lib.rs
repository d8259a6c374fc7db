//! Subscription ledger and polling engine for tracked vehicle plates:
//! chats subscribe to plates, a scheduled poll task per plate asks an
//! external registry whether the vehicle was found, and subscribers are
//! notified exactly once per found transition.

use vstd::prelude::*;

pub mod codec;
pub mod db;
pub mod digits;
pub mod tasks;
pub mod time;
pub mod update_handler;

verus! {

/// Errors of the engine: ledger failures carried through, and the
/// configuration error of a poll task that runs for a plate without
/// subscribers.
#[derive(Debug, Clone)]
pub enum BotError {
    DbError(crate::db::BotDbError),
    FetchTaskError(String),
}

} // verus!
