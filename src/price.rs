use vstd::prelude::*;

verus! {

/// A price in ticks.
pub type Price = i64;

/// The largest magnitude a price may have.
pub const MAX_PRICE: i64 = 1_000_000_000;

pub open spec fn price_in_range(p: int) -> bool {
    -MAX_PRICE <= p <= MAX_PRICE
}

/// A top-of-book quote.
#[derive(Clone, Copy, Debug)]
pub struct BestPrices {
    pub ask: Price,
    pub bid: Price,
}

impl BestPrices {
    pub open spec fn wf(&self) -> bool {
        price_in_range(self.ask as int) && price_in_range(self.bid as int)
    }

    pub fn from_single(px: Price) -> (r: Self)
        ensures
            r.ask == px,
            r.bid == px,
    {
        BestPrices { ask: px, bid: px }
    }
}

/// The prices at which a position was entered and is exited.
#[derive(Clone, Copy, Debug)]
pub struct PositionPrices {
    pub entry: Price,
    pub exit: Price,
}

impl PositionPrices {
    pub open spec fn wf(&self) -> bool {
        price_in_range(self.entry as int) && price_in_range(self.exit as int)
    }
}

} // verus!
