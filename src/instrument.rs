use vstd::arithmetic::div_mod::{lemma_div_is_ordered_by_denominator, lemma_fundamental_div_mod};
use vstd::prelude::*;

use crate::cash::{fee_in_range, Cash, MAX_FEE};
use crate::fee::{Commission, MakerTaker, MAX_FEE_PER_UNIT};
use crate::price::{price_in_range, BestPrices, PositionPrices, MAX_PRICE};
use crate::size::{abs, sign, NotionalQuantity, Quantity, MAX_QUANTITY, QUANTITY_SCALE};
use crate::util::{lemma_scale_down_bound, scale_down, scale_down_exec, Percent, PERCENT_SCALE};

verus! {

/// The largest contract multiplier an instrument may have.
pub const MAX_MULTIPLIER: i64 = 1_000_000;

pub open spec fn quantity_in_range(q: int) -> bool {
    -MAX_QUANTITY <= q <= MAX_QUANTITY
}

/// Profit of holding `q` bought at `entry` and sold at `exit`, under multiplier `m`.
pub open spec fn gross(m: int, q: int, entry: int, exit: int) -> int {
    (q * m) * (exit - entry)
}

/// What a trade of `q` costs under commission `c`, with the notional valued at `bid`.
pub open spec fn commission_due(c: Commission, m: int, q: int, bid: int) -> MakerTaker<int> {
    if q == 0 {
        MakerTaker { maker: 0, taker: 0 }
    } else {
        match c {
            Commission::Fixed(cash) => MakerTaker { maker: cash as int, taker: cash as int },
            Commission::FixedPerUnit(cash) => {
                let fee = scale_down(cash * abs(q), QUANTITY_SCALE as int);
                MakerTaker { maker: fee, taker: fee }
            },
            Commission::FixedMakerTaker { maker, taker } => MakerTaker {
                maker: scale_down(maker.multiplier * (abs(q) * m * bid), PERCENT_SCALE as int),
                taker: scale_down(taker.multiplier * (abs(q) * m * bid), PERCENT_SCALE as int),
            },
        }
    }
}

/// Trading nothing costs nothing, whatever the commission.
pub proof fn lemma_commission_zero(c: Commission, m: int, bid: int)
    ensures
        commission_due(c, m, 0, bid) == (MakerTaker::<int> { maker: 0, taker: 0 }),
{
}

/// `q` rounded to the nearest whole unit, halves away from zero.
pub open spec fn round_to_unit(q: int) -> int {
    sign(q) * (((abs(q) + QUANTITY_SCALE / 2) / QUANTITY_SCALE as int) * QUANTITY_SCALE)
}

/// Identifies an instrument by the venue it trades on and its symbol there.
#[derive(Clone, Debug, PartialEq, Eq, PartialOrd, Ord, Hash)]
pub struct InstrumentId {
    venue: String,
    symbol: String,
}

impl View for InstrumentId {
    type V = (Seq<char>, Seq<char>);

    closed spec fn view(&self) -> (Seq<char>, Seq<char>) {
        (self.venue@, self.symbol@)
    }
}

impl InstrumentId {
    pub fn new(venue: String, symbol: String) -> (r: Self)
        ensures
            r@ == (venue@, symbol@),
    {
        InstrumentId { venue, symbol }
    }

    pub fn venue(&self) -> (r: &str)
        ensures
            r@ == self@.0,
    {
        self.venue.as_str()
    }

    pub fn symbol(&self) -> (r: &str)
        ensures
            r@ == self@.1,
    {
        self.symbol.as_str()
    }

    /// Whether both ids name the same instrument.
    pub fn same(&self, other: &InstrumentId) -> (r: bool)
        ensures
            r == (self@ == other@),
    {
        self.venue == other.venue && self.symbol == other.symbol
    }

    /// A fresh copy of this id.
    pub fn duplicate(&self) -> (r: InstrumentId)
        ensures
            r == *self,
    {
        InstrumentId { venue: self.venue.clone(), symbol: self.symbol.clone() }
    }
}

/// A tradable instrument with a linear payoff.
#[derive(Clone, Debug)]
pub struct InstrumentSpec {
    unique_id: InstrumentId,
    multiplier: i64,
    commission: Commission,
}

impl InstrumentSpec {
    pub closed spec fn id(&self) -> (Seq<char>, Seq<char>) {
        self.unique_id@
    }

    pub closed spec fn spec_multiplier(&self) -> int {
        self.multiplier as int
    }

    pub closed spec fn spec_commission(&self) -> Commission {
        self.commission
    }

    pub open spec fn wf(&self) -> bool {
        &&& 1 <= self.spec_multiplier() <= MAX_MULTIPLIER
        &&& self.spec_commission().wf()
    }

    /// An instrument, if the multiplier and the commission are within range.
    pub fn new(unique_id: InstrumentId, multiplier: i64, commission: Commission) -> (r: Option<
        Self,
    >)
        ensures
            r is Some <==> (1 <= multiplier <= MAX_MULTIPLIER && commission.wf()),
            r matches Some(s) ==> {
                &&& s.id() == unique_id@
                &&& s.spec_multiplier() == multiplier
                &&& s.spec_commission() == commission
                &&& s.wf()
            },
    {
        let ok = match commission {
            Commission::Fixed(cash) => -MAX_FEE <= cash && cash <= MAX_FEE,
            Commission::FixedPerUnit(cash) => -MAX_FEE_PER_UNIT <= cash && cash
                <= MAX_FEE_PER_UNIT,
            Commission::FixedMakerTaker { maker, taker } => -PERCENT_SCALE <= maker.multiplier
                && maker.multiplier <= PERCENT_SCALE && -PERCENT_SCALE <= taker.multiplier
                && taker.multiplier <= PERCENT_SCALE,
        };
        if 1 <= multiplier && multiplier <= MAX_MULTIPLIER && ok {
            Some(InstrumentSpec { unique_id, multiplier, commission })
        } else {
            None
        }
    }

    /// A fresh copy of this instrument.
    pub fn duplicate(&self) -> (r: InstrumentSpec)
        ensures
            r == *self,
    {
        InstrumentSpec {
            unique_id: self.unique_id.duplicate(),
            multiplier: self.multiplier,
            commission: self.commission,
        }
    }

    pub fn unique_id(&self) -> (r: &InstrumentId)
        ensures
            r@ == self.id(),
    {
        &self.unique_id
    }

    pub fn venue(&self) -> (r: &str)
        ensures
            r@ == self.id().0,
    {
        self.unique_id.venue()
    }

    pub fn symbol(&self) -> (r: &str)
        ensures
            r@ == self.id().1,
    {
        self.unique_id.symbol()
    }

    pub fn multiplier(&self) -> (r: i64)
        ensures
            r == self.spec_multiplier(),
    {
        self.multiplier
    }

    /// The commission this instrument charges.
    pub fn commission_schedule(&self) -> (r: Commission)
        ensures
            r == self.spec_commission(),
    {
        self.commission
    }

    pub fn to_notional(&self, quantity: Quantity) -> (r: NotionalQuantity)
        requires
            self.wf(),
            quantity_in_range(quantity as int),
        ensures
            r == quantity * self.spec_multiplier(),
            -MAX_QUANTITY * MAX_MULTIPLIER <= r <= MAX_QUANTITY * MAX_MULTIPLIER,
    {
        proof {
            assert(-MAX_QUANTITY * MAX_MULTIPLIER <= quantity * self.multiplier <= MAX_QUANTITY
                * MAX_MULTIPLIER) by (nonlinear_arith)
                requires
                    quantity_in_range(quantity as int),
                    1 <= self.multiplier <= MAX_MULTIPLIER,
            ;
        }
        quantity as i128 * self.multiplier as i128
    }

    /// The cash value of a notional quantity at the bid.
    pub fn to_settlement_value(quantity: NotionalQuantity, prices: BestPrices) -> (r: Cash)
        requires
            -MAX_QUANTITY * MAX_MULTIPLIER <= quantity <= MAX_QUANTITY * MAX_MULTIPLIER,
            prices.wf(),
        ensures
            r == quantity * prices.bid,
            -(MAX_QUANTITY * MAX_MULTIPLIER * MAX_PRICE) <= r <= MAX_QUANTITY * MAX_MULTIPLIER * MAX_PRICE,
    {
        proof {
            assert(-(MAX_QUANTITY * MAX_MULTIPLIER * MAX_PRICE) <= quantity * prices.bid
                <= MAX_QUANTITY * MAX_MULTIPLIER * MAX_PRICE) by (nonlinear_arith)
                requires
                    -MAX_QUANTITY * MAX_MULTIPLIER <= quantity <= MAX_QUANTITY * MAX_MULTIPLIER,
                    price_in_range(prices.bid as int),
            ;
        }
        quantity * prices.bid as i128
    }

    pub fn to_notional_value(&self, quantity: Quantity, prices: BestPrices) -> (r: Cash)
        requires
            self.wf(),
            quantity_in_range(quantity as int),
            prices.wf(),
        ensures
            r == quantity * self.spec_multiplier() * prices.bid,
            -(MAX_QUANTITY * MAX_MULTIPLIER * MAX_PRICE) <= r <= MAX_QUANTITY * MAX_MULTIPLIER * MAX_PRICE,
    {
        Self::to_settlement_value(self.to_notional(quantity), prices)
    }

    pub fn gross_pnl(&self, quantity: Quantity, prices: PositionPrices) -> (r: Cash)
        requires
            self.wf(),
            quantity_in_range(quantity as int),
            prices.wf(),
        ensures
            r == gross(self.spec_multiplier(), quantity as int, prices.entry as int, prices.exit as int),
            abs(r as int) <= abs(quantity as int) * self.spec_multiplier() * (2 * MAX_PRICE),
    {
        let notional = self.to_notional(quantity);
        let diff = prices.exit as i128 - prices.entry as i128;
        proof {
            lemma_gross_bound(self.spec_multiplier(), quantity as int, prices.entry as int, prices.exit as int);
            assert(notional * diff == gross(self.spec_multiplier(), quantity as int, prices.entry as int, prices.exit as int));
        }
        notional * diff
    }

    pub fn net_pnl(&self, quantity: Quantity, prices: PositionPrices, fee: Cash) -> (r: Cash)
        requires
            self.wf(),
            quantity_in_range(quantity as int),
            prices.wf(),
            fee_in_range(fee as int),
        ensures
            r == gross(self.spec_multiplier(), quantity as int, prices.entry as int, prices.exit as int) - fee,
    {
        proof {
            lemma_gross_bound(self.spec_multiplier(), quantity as int, prices.entry as int, prices.exit as int);
        }
        self.gross_pnl(quantity, prices) - fee
    }

    /// The maker and taker fees of a trade of `quantity` at `prices`.
    pub fn commission(&self, quantity: Quantity, prices: BestPrices) -> (r: MakerTaker<Cash>)
        requires
            self.wf(),
            quantity_in_range(quantity as int),
            prices.wf(),
        ensures
            r.maker == commission_due(self.spec_commission(), self.spec_multiplier(), quantity as int, prices.bid as int).maker,
            r.taker == commission_due(self.spec_commission(), self.spec_multiplier(), quantity as int, prices.bid as int).taker,
            fee_in_range(r.maker as int),
            fee_in_range(r.taker as int),
    {
        if quantity == 0 {
            MakerTaker::from_single(0)
        } else {
            let size: i64 = if quantity < 0 { -quantity } else { quantity };
            match self.commission {
                Commission::Fixed(cash) => MakerTaker::from_single(cash),
                Commission::FixedPerUnit(cash) => {
                    proof {
                        assert(-(MAX_FEE_PER_UNIT * MAX_QUANTITY) <= cash * size <= MAX_FEE_PER_UNIT * MAX_QUANTITY) by (nonlinear_arith)
                            requires
                                -MAX_FEE_PER_UNIT <= cash <= MAX_FEE_PER_UNIT,
                                0 <= size <= MAX_QUANTITY,
                        ;
                        lemma_scale_down_bound(cash * size, QUANTITY_SCALE as int, MAX_FEE as int);
                    }
                    MakerTaker::from_single(scale_down_exec(cash * size as i128, QUANTITY_SCALE as i128))
                },
                Commission::FixedMakerTaker { maker, taker } => {
                    let value = self.to_notional_value(size, prices);
                    proof {
                        lemma_rate_bound(maker.multiplier as int, value as int);
                        lemma_rate_bound(taker.multiplier as int, value as int);
                        assert(value == abs(quantity as int) * self.spec_multiplier() * prices.bid);
                    }
                    let fee = |pct: &Percent| -> (r: Cash)
                        requires
                            pct.wf(),
                        ensures
                            r == scale_down(pct.multiplier * value, PERCENT_SCALE as int),
                            fee_in_range(r as int),
                        {
                            proof {
                                lemma_rate_bound(pct.multiplier as int, value as int);
                            }
                            scale_down_exec(pct.multiplier as i128 * value, PERCENT_SCALE as i128)
                        };
                    MakerTaker { maker, taker }.map(fee)
                },
            }
        }
    }

    /// `quantity` rounded to the nearest whole unit that can be traded.
    pub fn to_transactable(&self, quantity: Quantity) -> (r: Quantity)
        requires
            quantity_in_range(quantity as int),
        ensures
            r == round_to_unit(quantity as int),
    {
        let size: i64 = if quantity < 0 { -quantity } else { quantity };
        let units = (size + QUANTITY_SCALE / 2) / QUANTITY_SCALE;
        proof {
            lemma_div_is_ordered_by_denominator(size + QUANTITY_SCALE / 2, 1, QUANTITY_SCALE as int);
            assert((size + QUANTITY_SCALE / 2) / 1 == size + QUANTITY_SCALE / 2);
            assert(units * QUANTITY_SCALE <= (size + QUANTITY_SCALE / 2)) by {
                lemma_fundamental_div_mod(size + QUANTITY_SCALE / 2, QUANTITY_SCALE as int);
            }
        }
        let rounded = units * QUANTITY_SCALE;
        if quantity < 0 {
            -rounded
        } else if quantity > 0 {
            rounded
        } else {
            0
        }
    }
}

pub proof fn lemma_gross_bound(m: int, q: int, entry: int, exit: int)
    requires
        1 <= m <= MAX_MULTIPLIER,
        quantity_in_range(q),
        price_in_range(entry),
        price_in_range(exit),
    ensures
        abs(gross(m, q, entry, exit)) <= abs(q) * m * (2 * MAX_PRICE),
        abs(q) * m * (2 * MAX_PRICE) <= MAX_QUANTITY * (MAX_MULTIPLIER * (2 * MAX_PRICE)),
{
    assert(abs((q * m) * (exit - entry)) <= abs(q) * m * (2 * MAX_PRICE)) by (nonlinear_arith)
        requires
            1 <= m,
            -MAX_PRICE <= entry <= MAX_PRICE,
            -MAX_PRICE <= exit <= MAX_PRICE,
    ;
    assert(abs(q) * m * (2 * MAX_PRICE) <= MAX_QUANTITY * (MAX_MULTIPLIER * (2 * MAX_PRICE))) by (nonlinear_arith)
        requires
            1 <= m <= MAX_MULTIPLIER,
            0 <= abs(q) <= MAX_QUANTITY,
    ;
}

proof fn lemma_rate_bound(rate: int, value: int)
    requires
        -PERCENT_SCALE <= rate <= PERCENT_SCALE,
        -(MAX_QUANTITY * MAX_MULTIPLIER * MAX_PRICE) <= value <= MAX_QUANTITY * MAX_MULTIPLIER * MAX_PRICE,
    ensures
        -(MAX_FEE * PERCENT_SCALE) <= rate * value <= MAX_FEE * PERCENT_SCALE,
        fee_in_range(scale_down(rate * value, PERCENT_SCALE as int)),
{
    assert(-(MAX_FEE * PERCENT_SCALE) <= rate * value <= MAX_FEE * PERCENT_SCALE) by (nonlinear_arith)
        requires
            -PERCENT_SCALE <= rate <= PERCENT_SCALE,
            -(MAX_QUANTITY * MAX_MULTIPLIER * MAX_PRICE) <= value <= MAX_QUANTITY * MAX_MULTIPLIER * MAX_PRICE,
    ;
    lemma_scale_down_bound(rate * value, PERCENT_SCALE as int, MAX_FEE as int);
}

} // verus!
