use vstd::prelude::*;

pub mod model;
pub mod repo;


verus! {

/// Errors of the storage-backed subscription ledger. Row lookups that find
/// nothing and duplicate-key inserts stand in for the storage engine's own
/// failures; the subscription variants are expected business outcomes.
#[derive(Debug, Clone)]
pub enum BotDbError {
    RowNotFoundError,
    DuplicateKeyError,
    CronError,
    NoTimestampsError,
    AlreadySubscribedError(i64, String),
    CouldNotEndSubscription(i64, String, String),
}

} // verus!
