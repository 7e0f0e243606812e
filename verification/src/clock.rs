use vstd::prelude::*;

verus! {

/// Relies on chrono's `Utc::now` and `DateTime::timestamp`: the current time
/// as whole seconds since the epoch. Nothing is promised of the clock's
/// value; callers state what holds whatever it returns.
#[verifier::external_body]
pub(crate) fn now_epoch_seconds() -> i64 {
    chrono::Utc::now().timestamp()
}

/// Relies on chrono's `Utc::now` and `DateTime::to_rfc3339`: the current time
/// as an RFC 3339 text. Nothing is promised of the clock's value; callers
/// state what holds whatever it returns.
#[verifier::external_body]
pub(crate) fn now_rfc3339() -> String {
    chrono::Utc::now().to_rfc3339()
}

} // verus!
