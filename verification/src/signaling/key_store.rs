//! The store of certificate hashes by uuid: its statements, and what its answers
//! mean.

use crate::clock;
use crate::signaling::{SignalingError, SignalingResult};
use vstd::prelude::*;
use vstd::string::*;

verus! {

/// Makes the table, if it is not there.
pub const CREATE_TABLE: &'static str =
    "CREATE TABLE IF NOT EXISTS PubKeys (\n    uuid TEXT PRIMARY KEY,\n    key TEXT NOT NULL,\n    atime INTEGER NOT NULL\n)";

/// Looks up the hash for a uuid.
pub const SELECT_KEY: &'static str = "SELECT key FROM PubKeys WHERE uuid = ?";

/// Stores the hash for a uuid, in place of an earlier one.
pub const INSERT_KEY: &'static str =
    "INSERT OR REPLACE\nINTO PubKeys (uuid, key, atime)\nVALUES (?1, ?2, ?3)";

/// The answer of the store to a lookup.
#[derive(Debug, PartialEq, Eq)]
pub enum Lookup {
    /// There is no row.
    NoRows,
    /// The hash.
    Row(String),
    /// The store failed, with the description.
    Failed(String),
}

/// What the answer to a lookup means: a missing row is no failure.
pub fn key_of(answer: Lookup) -> (r: SignalingResult<Option<String>>)
    ensures
        match answer {
            Lookup::NoRows => r == Ok::<Option<String>, SignalingError>(None),
            Lookup::Row(key) => r == Ok::<Option<String>, SignalingError>(Some(key)),
            Lookup::Failed(e) => r == Err::<Option<String>, SignalingError>(
                SignalingError::OtherError(e),
            ),
        },
{
    match answer {
        Lookup::NoRows => Ok(None),
        Lookup::Row(key) => Ok(Some(key)),
        Lookup::Failed(e) => Err(SignalingError::OtherError(e)),
    }
}

/// The current time in seconds since the Unix epoch, or `None` where the clock
/// shows an earlier time. Any value may come back: it is up to the clock.
pub fn current_unix_epoch_in_secs() -> (r: Option<u64>) {
    clock::unix_seconds()
}

} // verus!
