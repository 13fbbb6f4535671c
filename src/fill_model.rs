use vstd::prelude::*;

use crate::cash::Cash;
use crate::error::AccountingError;
use crate::fill::{FillLevel, SimulatorFill};
use crate::instrument::{commission_due, quantity_in_range, InstrumentSpec};
use crate::order::Order;
use crate::price::{BestPrices, Price, MAX_PRICE};
use crate::size::NonZeroQuantity;

verus! {

/// The price a market order of `q` gets: buys pay the ask, sells get the bid.
pub open spec fn top_of_book_price(q: int, prices: BestPrices) -> int {
    if q > 0 {
        prices.ask as int
    } else {
        prices.bid as int
    }
}

/// Fills market orders at the best quote last seen, always paying the taker fee.
#[derive(Clone, Debug)]
pub struct TopOfBookFillModel {
    instrument: InstrumentSpec,
    prices: Option<BestPrices>,
}

impl TopOfBookFillModel {
    pub closed spec fn spec_instrument(&self) -> InstrumentSpec {
        self.instrument
    }

    pub closed spec fn spec_prices(&self) -> Option<BestPrices> {
        self.prices
    }

    pub open spec fn wf(&self) -> bool {
        &&& self.spec_instrument().wf()
        &&& self.spec_prices() matches Some(p) ==> p.wf()
    }

    /// What `execute` returns for a market order of `q` on `id`.
    pub open spec fn executes(&self, id: (Seq<char>, Seq<char>), q: int, r: Result<SimulatorFill, AccountingError>) -> bool {
        let instrument = self.spec_instrument();
        if id != instrument.id() {
            r == Err::<SimulatorFill, AccountingError>(AccountingError::InstrumentMismatch)
        } else if q == 0 {
            r matches Ok(fill) && fill.instrument_id@ == id && fill.level is None && fill.fee == 0
        } else {
            match self.spec_prices() {
                None => r == Err::<SimulatorFill, AccountingError>(AccountingError::NotUpdated),
                Some(prices) => r matches Ok(fill) && {
                    &&& fill.instrument_id@ == id
                    &&& fill.level matches Some(level) && level.quantity@ == q
                        && level.price == top_of_book_price(q, prices)
                    &&& fill.fee == commission_due(instrument.spec_commission(), instrument.spec_multiplier(), q, prices.bid as int).taker
                    &&& fill.wf()
                },
            }
        }
    }

    pub fn new(instrument: InstrumentSpec) -> (r: Self)
        ensures
            r.spec_instrument() == instrument,
            r.spec_prices() is None,
    {
        TopOfBookFillModel { instrument, prices: None }
    }

    pub fn instrument(&self) -> (r: &InstrumentSpec)
        ensures
            *r == self.spec_instrument(),
    {
        &self.instrument
    }

    fn create_fill(&self, level: Option<FillLevel>, fee: Cash) -> (r: SimulatorFill)
        ensures
            r.instrument_id@ == self.spec_instrument().id(),
            r.level == level,
            r.fee == fee,
    {
        SimulatorFill { instrument_id: self.instrument.unique_id().duplicate(), level, fee }
    }

    /// Takes in a new quote; a quote beyond the price range is refused and changes nothing.
    pub fn update(&mut self, prices: BestPrices) -> (r: Result<(), AccountingError>)
        ensures
            r is Ok <==> prices.wf(),
            r is Ok ==> final(self).spec_prices() == Some(prices),
            r is Err ==> final(self).spec_prices() == old(self).spec_prices(),
            r is Err ==> r == Err::<(), AccountingError>(AccountingError::PriceOutOfRange),
            final(self).spec_instrument() == old(self).spec_instrument(),
    {
        if -MAX_PRICE <= prices.ask && prices.ask <= MAX_PRICE && -MAX_PRICE <= prices.bid
            && prices.bid <= MAX_PRICE {
            self.prices = Some(prices);
            Ok(())
        } else {
            Err(AccountingError::PriceOutOfRange)
        }
    }

    /// The fill a market order would get now. Nothing changes.
    pub fn execute(&self, order: &Order) -> (r: Result<SimulatorFill, AccountingError>)
        requires
            self.wf(),
            order matches Order::Market { quantity, .. } && quantity_in_range(quantity as int),
        ensures
            match order {
                Order::Market { instrument_id, quantity } => self.executes(instrument_id@, quantity as int, r),
            },
    {
        match order {
            Order::Market { instrument_id, quantity } => {
                if !instrument_id.same(self.instrument.unique_id()) {
                    return Err(AccountingError::InstrumentMismatch);
                }
                match NonZeroQuantity::new(*quantity) {
                    Some(quantity) => match self.prices {
                        Some(prices) => {
                            let price = top_of_book_fill_price(quantity, prices);
                            let fee = self.instrument.commission(quantity.get(), prices).taker;
                            Ok(self.create_fill(Some(FillLevel { price, quantity }), fee))
                        },
                        None => Err(AccountingError::NotUpdated),
                    },
                    None => Ok(self.create_fill(None, 0)),
                }
            },
        }
    }
}

fn top_of_book_fill_price(quantity: NonZeroQuantity, prices: BestPrices) -> (r: Price)
    ensures
        r == top_of_book_price(quantity@, prices),
{
    if quantity.get() > 0 {
        prices.ask
    } else {
        prices.bid
    }
}

} // verus!
