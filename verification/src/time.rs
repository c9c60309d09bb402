//! Access to the current local time, the one effect the repositories need.

use vstd::prelude::*;

verus! {

/// Relies on `chrono::Local::now` (with `NaiveDateTime`'s `Display`): the
/// current local date and time as `"year-month-day hour:minute:second"`
/// text with an optional fraction, at least 19 characters. Nothing more is
/// assumed: callers state what holds of the store for every timestamp text.
#[verifier::external_body]
pub(crate) fn now_timestamp() -> (r: String)
    ensures
        r@.len() >= 19,
{
    chrono::Local::now().naive_local().to_string()
}

} // verus!
