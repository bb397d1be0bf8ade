use vstd::prelude::*;

verus! {

/// Relies on chrono's Utc::now: the current time as whole seconds since the
/// Unix epoch. Nothing is assumed of the value.
#[verifier::external_body]
pub(crate) fn now_ts() -> i64 {
    chrono::Utc::now().timestamp()
}

/// The day count that chrono parses from a `%Y-%m-%d` string: whole days
/// since 1970-01-01, or nothing when the string is not a date in that format.
pub uninterp spec fn date_days_of(s: Seq<char>) -> Option<i64>;

/// Relies on chrono's NaiveDate::parse_from_str with format `%Y-%m-%d`: the
/// parsed calendar date is a function of the string alone.
#[verifier::external_body]
pub(crate) fn parse_date_days(s: &str) -> (r: Option<i64>)
    ensures
        r == date_days_of(s@),
{
    match chrono::NaiveDate::parse_from_str(s, "%Y-%m-%d") {
        Ok(d) => {
            let epoch = chrono::NaiveDate::from_ymd_opt(1970, 1, 1).unwrap();
            Some((d - epoch).num_days())
        },
        Err(_) => None,
    }
}

} // verus!
