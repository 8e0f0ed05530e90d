//! What an account owes for its storage.

use vstd::prelude::*;

verus! {

/// The default rental rate in lamports per byte and year.
pub const DEFAULT_LAMPORTS_PER_BYTE_YEAR: u64 = 1_000_000_000 / 100 * 365 / (1024 * 1024);

/// The default percentage of collected rent that is burned.
pub const DEFAULT_BURN_PERCENT: u8 = 50;

/// The bytes that every account is charged for beyond its data.
pub const ACCOUNT_STORAGE_OVERHEAD: u64 = 128;

/// What an account owes in rent.
#[derive(Debug, Copy, Clone, Eq, PartialEq, Structural)]
pub enum RentDue {
    /// The account is rent exempt.
    Exempt,
    /// The account owes this many lamports.
    Paying(u64),
}

impl RentDue {
    /// The lamports due: none for an exempt account.
    pub open spec fn spec_lamports(self) -> u64 {
        match self {
            RentDue::Exempt => 0,
            RentDue::Paying(x) => x,
        }
    }

    /// The lamports due for rent.
    pub fn lamports(&self) -> (due: u64)
        ensures
            due == self.spec_lamports(),
    {
        match self {
            RentDue::Exempt => 0,
            RentDue::Paying(x) => *x,
        }
    }

    /// Whether the account is rent exempt.
    pub fn is_exempt(&self) -> (exempt: bool)
        ensures
            exempt == (*self == RentDue::Exempt),
    {
        match self {
            RentDue::Exempt => true,
            RentDue::Paying(_) => false,
        }
    }
}

/// Splits collected rent into the part that is burned and the part that is
/// distributed: the burned part is `burn_percent` hundredths, rounded down.
/// The percentage is at most 100, and the rent times the percentage fits
/// `u64`.
pub fn calculate_burn(burn_percent: u8, rent_collected: u64) -> (parts: (u64, u64))
    requires
        burn_percent <= 100,
        rent_collected * burn_percent <= u64::MAX,
    ensures
        parts.0 == rent_collected * burn_percent / 100,
        parts.0 + parts.1 == rent_collected,
{
    let burned_portion: u64 = (rent_collected * (burn_percent as u64)) / 100;
    assert(burned_portion <= rent_collected) by (nonlinear_arith)
        requires
            burned_portion == rent_collected * burn_percent / 100,
            burn_percent <= 100,
    ;
    (burned_portion, rent_collected - burned_portion)
}

} // verus!
