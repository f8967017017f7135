//! Calls into outside crates that the control plane relies on.
use vstd::prelude::*;

verus! {

/// Relies on `uuid::Uuid::new_v4` and its `Display`: a fresh random uid in hyphenated form.
/// Nothing is promised of its value.
#[verifier::external_body]
pub(crate) fn fresh_uid() -> (r: String) {
    uuid::Uuid::new_v4().to_string()
}

/// Relies on `chrono::Utc::now` and `DateTime::timestamp_millis`: the time now, in
/// milliseconds since the UNIX epoch. Nothing is promised of its value.
#[verifier::external_body]
pub(crate) fn now_millis() -> (r: i64) {
    chrono::Utc::now().timestamp_millis()
}

} // verus!
