//! Fresh identifiers and timestamps for new records.

use vstd::prelude::*;

verus! {

/// A new random (version 4) UUID in its hyphenated form, as
/// `uuid::Uuid::new_v4().to_string()` gives it: 36 characters. The value is
/// random, so nothing more is stated of it.
#[verifier::external_body]
pub(crate) fn new_uuid() -> (res: String)
    ensures
        res@.len() == 36,
{
    uuid::Uuid::new_v4().to_string()
}

/// The current local time as an ISO-8601 timestamp
/// (`chrono::Local::now()` formatted as `%Y-%m-%dT%H:%M:%S%z`). It depends
/// on the clock, so nothing is stated of it.
#[verifier::external_body]
pub(crate) fn now_timestamp() -> (res: String) {
    chrono::Local::now().format("%Y-%m-%dT%H:%M:%S%z").to_string()
}

} // verus!
