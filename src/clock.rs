use vstd::prelude::*;

verus! {

/// Relies on chrono's `From<SystemTime> for DateTime<Utc>` and
/// `Datelike::num_days_from_ce`: today's date in UTC by the system clock,
/// counted with 1 January of year 1 as day 1. The conversion takes a clock
/// reading before 1970 as a negative timestamp; nothing is promised of the
/// day that comes back.
#[verifier::external_body]
pub(crate) fn today() -> (r: i32) {
    let now = chrono::DateTime::<chrono::Utc>::from(std::time::SystemTime::now());
    chrono::Datelike::num_days_from_ce(&now.date_naive())
}

} // verus!
