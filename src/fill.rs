use vstd::prelude::*;

use crate::cash::{fee_in_range, Cash};
use crate::instrument::{quantity_in_range, InstrumentId};
use crate::price::{price_in_range, Price};
use crate::size::{NonZeroQuantity, Quantity};

verus! {

/// The price and size at which a trade executed.
#[derive(Clone, Copy, Debug)]
pub struct FillLevel {
    pub price: Price,
    pub quantity: NonZeroQuantity,
}

/// One executed trade; without a level it traded nothing and only charges its fee.
#[derive(Clone, Debug)]
pub struct SimulatorFill {
    pub instrument_id: InstrumentId,
    pub level: Option<FillLevel>,
    pub fee: Cash,
}

impl SimulatorFill {
    pub open spec fn spec_quantity(&self) -> int {
        match self.level {
            Some(level) => level.quantity@,
            None => 0,
        }
    }

    pub open spec fn spec_price(&self) -> int {
        match self.level {
            Some(level) => level.price as int,
            None => 0,
        }
    }

    /// Amounts within the ranges this library handles.
    pub open spec fn wf(&self) -> bool {
        &&& fee_in_range(self.fee as int)
        &&& self.level matches Some(level) ==> price_in_range(level.price as int)
            && quantity_in_range(level.quantity@)
    }

    pub fn instrument_id(&self) -> (r: &InstrumentId)
        ensures
            r@ == self.instrument_id@,
    {
        &self.instrument_id
    }

    /// The signed quantity traded, zero when nothing traded.
    pub fn quantity(&self) -> (r: Quantity)
        ensures
            r == self.spec_quantity(),
            r == 0 <==> self.level is None,
    {
        match self.level {
            Some(level) => level.quantity.get(),
            None => 0,
        }
    }

    pub fn price(&self) -> (r: Price)
        requires
            self.level is Some,
        ensures
            r == self.spec_price(),
    {
        match self.level {
            Some(level) => level.price,
            None => 0,
        }
    }

    pub fn fee(&self) -> (r: Cash)
        ensures
            r == self.fee,
    {
        self.fee
    }
}

} // verus!
