//! Persistence interface. The engine talks to storage through
//! `ConversationStore`, so it stays decoupled from the SQLite details.

pub mod types;

use vstd::prelude::*;

verus! {

/// `anyhow::Error`, the error type of the storage interface.
#[verifier::external_type_specification]
#[verifier::external_body]
pub struct ExAnyhowError(anyhow::Error);

/// Storage trait so the engine stays decoupled from SQLite details.
pub trait ConversationStore: Send + Sync {
    fn append_turn(&self) -> anyhow::Result<()>;

    fn recent_turns(&self) -> anyhow::Result<Vec<String>>;
}

/// The SQLite-backed store.
pub struct SqliteStore;

} // verus!
