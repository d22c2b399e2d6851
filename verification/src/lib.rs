//! A name-registration registry: it maps human-readable names to opaque
//! target addresses, backed by a refundable deposit and time-bounded by a
//! lease that must be renewed.

use vstd::prelude::*;

pub mod ids;
pub mod laws;
pub mod registry;
pub mod types;

verus! {

/// Rough number of ledger periods in one year, used to convert a reservation
/// in years into a lease deadline on the period counter.
pub const PERIODS_PER_YEAR: u64 = 15_000;

/// Converts a reservation in whole years into a number of ledger periods.
pub fn years_to_periods(years: u8) -> (periods: u64)
    ensures
        periods == years * PERIODS_PER_YEAR,
{
    (years as u64) * PERIODS_PER_YEAR
}

} // verus!
