//! The computations behind the ledger storage helpers: looking an entry up
//! and advancing the id counters.

use vstd::prelude::*;

verus! {

/// Storage entries are kept alive for about one year of ledgers
/// (365 days × 24 h × 3600 s / 5 s per ledger).
pub const TTL_LEDGERS: u32 = 6_307_200;

/// Errors returned by storage lookups.
#[derive(Clone, Copy, Debug, PartialEq, Eq, Structural)]
pub enum StorageError {
    /// The requested key does not exist in storage.
    NotFound,
}

/// The result of looking up an entry: the entry, or `NotFound` when the
/// storage holds none.
pub fn found_or_not_found<T>(entry: Option<T>) -> (r: Result<T, StorageError>)
    ensures
        match entry {
            Some(v) => r == Ok::<T, StorageError>(v),
            None => r == Err::<T, StorageError>(StorageError::NotFound),
        },
{
    match entry {
        Some(v) => Ok(v),
        None => Err(StorageError::NotFound),
    }
}

/// The value a counter takes when it is advanced: one more than the stored
/// value, counting an absent counter as 0, so the first id handed out is 1
/// and ids strictly increase.
pub fn next_counter_value(stored: Option<u64>) -> (r: u64)
    requires
        match stored {
            Some(c) => c < u64::MAX,
            None => true,
        },
    ensures
        r == match stored {
            Some(c) => c + 1,
            None => 1,
        },
        r >= 1,
{
    let current: u64 = match stored {
        Some(c) => c,
        None => 0,
    };
    current + 1
}

} // verus!
