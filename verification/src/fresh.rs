//! Fresh values drawn from the environment: record identifiers and the
//! current date. Both are outside the model — the ledger states what holds
//! of every outcome.

use vstd::prelude::*;

verus! {

/// Relies on uuid's `Uuid::new_v4`, rendered through `Display`: a random
/// version-4 UUID in the hyphenated form, which is 36 characters long.
/// The value is random; nothing else is assumed of it.
#[verifier::external_body]
pub fn fresh_id() -> (r: String)
    ensures
        r@.len() == 36,
{
    uuid::Uuid::new_v4().to_string()
}

/// Relies on chrono's `Local::now`, formatted as year, month and day.
/// The value depends on the clock; nothing is assumed of it.
#[verifier::external_body]
pub fn today_string() -> (r: String)
{
    chrono::Local::now().format("%Y-%m-%d").to_string()
}

} // verus!
