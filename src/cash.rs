use vstd::prelude::*;

verus! {

/// A cash amount: millionths of a unit, times multiplier, times price ticks.
pub type Cash = i128;

/// The largest magnitude a fee may have.
pub const MAX_FEE: i128 = 1_000_000_000_000_000_000_000_000_000_000;

/// The largest magnitude an account balance may have before a reconciliation.
pub const MAX_BALANCE: i128 = 1_000_000_000_000_000_000_000_000_000_000_000_000;

pub open spec fn fee_in_range(fee: int) -> bool {
    -MAX_FEE <= fee <= MAX_FEE
}

} // verus!
