use vstd::prelude::*;

verus! {

/// Relies on `chrono::Utc::now` and `DateTime::to_rfc3339`: the current UTC
/// time as RFC 3339 text. It depends on the clock, so nothing is promised of it.
#[verifier::external_body]
pub(crate) fn utc_now_rfc3339() -> String {
    chrono::Utc::now().to_rfc3339()
}

/// Relies on `chrono::Utc::now` and `DateTime::timestamp`: the current UTC time
/// in seconds since the Unix epoch. It depends on the clock, so nothing is
/// promised of it.
#[verifier::external_body]
pub(crate) fn utc_now_timestamp() -> i64 {
    chrono::Utc::now().timestamp()
}

/// Relies on `chrono::Local::now` and `DateTime::format`: the current local time
/// as `YYYY-MM-DD HH:MM:SS`. It depends on the clock and the time zone, so
/// nothing is promised of it.
#[verifier::external_body]
pub(crate) fn local_now_text() -> String {
    chrono::Local::now().format("%Y-%m-%d %H:%M:%S").to_string()
}

} // verus!
