//! Calendar dates are chrono's; nothing here looks inside one.

use vstd::prelude::*;

verus! {

/// chrono's `NaiveDate`, a calendar date without a time zone. It is carried
/// through as it is.
#[verifier::external_type_specification]
#[verifier::external_body]
pub struct ExNaiveDate(chrono::NaiveDate);

/// A date in UTC on which work was done.
#[derive(Debug)]
pub struct Date(pub chrono::NaiveDate);

} // verus!
