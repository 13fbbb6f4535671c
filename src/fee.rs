use vstd::prelude::*;

use crate::cash::{fee_in_range, Cash};
use crate::util::NotionalPercent;

verus! {

/// The largest magnitude of a fee charged per whole unit.
pub const MAX_FEE_PER_UNIT: i128 = 1_000_000_000_000_000_000_000;

/// How an instrument charges for a trade.
#[derive(Clone, Copy, Debug)]
pub enum Commission {
    /// The same amount on every trade.
    Fixed(Cash),
    /// An amount per whole unit traded.
    FixedPerUnit(Cash),
    /// A share of the traded notional value, one rate for each side.
    FixedMakerTaker { maker: NotionalPercent, taker: NotionalPercent },
}

impl Commission {
    pub open spec fn wf(&self) -> bool {
        match *self {
            Commission::Fixed(cash) => fee_in_range(cash as int),
            Commission::FixedPerUnit(cash) => -MAX_FEE_PER_UNIT <= cash <= MAX_FEE_PER_UNIT,
            Commission::FixedMakerTaker { maker, taker } => maker.wf() && taker.wf(),
        }
    }
}

/// A pair of values, one for liquidity makers and one for takers.
#[derive(Clone, Copy, Debug)]
pub struct MakerTaker<T> {
    pub maker: T,
    pub taker: T,
}

impl<T: Copy> MakerTaker<T> {
    pub fn from_single(val: T) -> (r: Self)
        ensures
            r.maker == val,
            r.taker == val,
    {
        MakerTaker { maker: val, taker: val }
    }
}

impl<T> MakerTaker<T> {
    /// Applies `f` to both sides.
    pub fn map<F, U>(&self, f: F) -> (r: MakerTaker<U>)
        where
            F: Fn(&T) -> U,
        requires
            f.requires((&self.maker,)),
            f.requires((&self.taker,)),
        ensures
            f.ensures((&self.maker,), r.maker),
            f.ensures((&self.taker,), r.taker),
    {
        MakerTaker { maker: f(&self.maker), taker: f(&self.taker) }
    }
}

} // verus!
