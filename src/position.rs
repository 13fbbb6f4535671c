use std::collections::VecDeque;

use itertools::Itertools;
use vstd::prelude::*;

use crate::cash::Cash;
use crate::error::AccountingError;
use crate::fill::SimulatorFill;
use crate::fill_model::{top_of_book_price, TopOfBookFillModel};
use crate::instrument::{
    commission_due, gross, lemma_gross_bound, quantity_in_range, InstrumentSpec, MAX_MULTIPLIER,
};
use crate::lots::{
    entries_in_range, fill_legs, fill_pnl, leg, legs_wf, lemma_mark_bound, lemma_one_side_net,
    lemma_push, lemma_reduce, lemma_step, lemma_weighted_bound, mark, net, one_side, reduce_legs,
    size, step_legs, weighted_entry, PositionLeg,
};
use crate::order::Order;
use crate::price::{price_in_range, PositionPrices, Price, MAX_PRICE};
use crate::size::{abs, same_side, same_side_spec, sign, Quantity, MAX_QUANTITY};
use crate::util::{lemma_scale_down_bound, scale_down, scale_down_exec};

verus! {

/// The largest magnitude of what one fill may realize: twice the gross profit
/// of the largest position across the whole price range, and the largest fee.
pub open spec fn max_step_pnl() -> int {
    4 * (MAX_QUANTITY * MAX_MULTIPLIER * MAX_PRICE) + crate::cash::MAX_FEE
}

/// Open lots of one instrument, closed oldest first.
#[derive(Clone, Debug)]
pub struct FifoPosition {
    underlying: InstrumentSpec,
    legs: VecDeque<PositionLeg>,
    net: Quantity,
}

impl FifoPosition {
    pub closed spec fn legs(&self) -> Seq<PositionLeg> {
        self.legs@
    }

    pub closed spec fn instrument(&self) -> InstrumentSpec {
        self.underlying
    }

    pub closed spec fn net_cached(&self) -> bool {
        self.net == net(self.legs@)
    }

    pub open spec fn wf(&self) -> bool {
        &&& self.net_cached()
        &&& self.instrument().wf()
        &&& legs_wf(self.legs())
    }

    /// Whether a fill is within the ranges `reconcile` handles here.
    pub open spec fn accepts(&self, fill: SimulatorFill) -> bool {
        &&& fill.wf()
        &&& quantity_in_range(net(self.legs()) + fill.spec_quantity())
    }

    /// A flat position in `underlying`.
    pub fn new(underlying: InstrumentSpec) -> (r: Self)
        requires
            underlying.wf(),
        ensures
            r.wf(),
            r.instrument() == underlying,
            r.legs() == Seq::<PositionLeg>::empty(),
    {
        FifoPosition { underlying, legs: VecDeque::new(), net: 0 }
    }

    pub fn underlying(&self) -> (r: &InstrumentSpec)
        ensures
            *r == self.instrument(),
    {
        &self.underlying
    }

    pub fn net_quantity(&self) -> (r: Quantity)
        requires
            self.wf(),
        ensures
            r == net(self.legs()),
    {
        self.net
    }

    /// The open legs, oldest first.
    pub fn open_legs(&self) -> (r: Vec<PositionLeg>)
        ensures
            r@ == self.legs(),
    {
        let mut r: Vec<PositionLeg> = Vec::new();
        let mut i: usize = 0;
        while i < self.legs.len()
            invariant
                i <= self.legs@.len(),
                r@ == self.legs@.take(i as int),
            decreases self.legs@.len() - i,
        {
            r.push(self.legs[i]);
            i += 1;
            assert(r@ =~= self.legs@.take(i as int));
        }
        assert(r@ =~= self.legs@);
        r
    }

    /// Whether every leg has the sign of the first; always so for a valid position.
    pub fn all_legs_same_side(&self) -> (r: bool)
        requires
            self.wf(),
        ensures
            r,
    {
        let mut signs: Vec<i64> = Vec::new();
        let mut i: usize = 0;
        while i < self.legs.len()
            invariant
                i <= self.legs@.len(),
                signs@.len() == i,
                forall|j: int| 0 <= j < i ==> signs@[j] == sign(#[trigger] self.legs@[j].quantity as int),
            decreases self.legs@.len() - i,
        {
            let q = self.legs[i].quantity;
            signs.push(if q > 0 { 1 } else if q < 0 { -1 } else { 0 });
            i += 1;
        }
        proof {
            assert forall|a: int, b: int| 0 <= a < signs@.len() && 0 <= b < signs@.len() implies signs@[a]
                == signs@[b] by {
                assert(same_side_spec(self.legs@[a].quantity as int, self.legs@[0].quantity as int));
                assert(same_side_spec(self.legs@[b].quantity as int, self.legs@[0].quantity as int));
            }
        }
        all_equal(&signs)
    }

    /// The quantity-weighted mean entry price, rounded toward zero; none when flat.
    pub fn average_entry_price(&self) -> (r: Option<Price>)
        requires
            self.wf(),
        ensures
            self.legs().len() == 0 <==> r is None,
            r matches Some(p) ==> p == scale_down(
                sign(net(self.legs())) * weighted_entry(self.legs()),
                abs(net(self.legs())),
            ),
    {
        if self.legs.len() == 0 {
            return None;
        }
        let ghost legs = self.legs@;
        proof {
            lemma_one_side_net(legs);
            lemma_legs_bounded(legs);
        }
        let mut sum: i128 = 0;
        let mut i: usize = self.legs.len();
        while i > 0
            invariant
                i <= legs.len(),
                legs == self.legs@,
                self.wf(),
                forall|j: int| 0 <= j < legs.len() ==> quantity_in_range(#[trigger] legs[j].quantity as int),
                size(legs) <= MAX_QUANTITY,
                size(legs.skip(i as int)) <= size(legs),
                sum == weighted_entry(legs.skip(i as int)),
            decreases i,
        {
            i -= 1;
            let ghost tail = legs.skip(i as int);
            proof {
                assert(tail.drop_first() =~= legs.skip(i + 1));
                assert(tail[0] == legs[i as int]);
                lemma_skip_size(legs, i as int);
                lemma_skip_entries(legs, i as int);
                lemma_skip_entries(legs, i as int + 1);
                lemma_weighted_bound(tail);
                lemma_weighted_bound(legs.skip(i + 1));
                assert(size(tail) * MAX_PRICE <= MAX_QUANTITY * MAX_PRICE) by (nonlinear_arith)
                    requires
                        size(tail) <= MAX_QUANTITY,
                ;
                assert(size(legs.skip(i + 1)) * MAX_PRICE <= MAX_QUANTITY * MAX_PRICE) by (nonlinear_arith)
                    requires
                        size(legs.skip(i + 1)) <= size(tail),
                        size(tail) <= MAX_QUANTITY,
                ;
            }
            let leg = self.legs[i];
            sum = leg.quantity as i128 * leg.entry_price as i128 + sum;
        }
        assert(legs.skip(0) =~= legs);
        let net = self.net;
        proof {
            lemma_weighted_bound(legs);
            assert(size(legs) * MAX_PRICE <= MAX_QUANTITY * MAX_PRICE) by (nonlinear_arith)
                requires
                    size(legs) <= MAX_QUANTITY,
            ;
        }
        let (signed, magnitude) = if net < 0 { (-sum, -(net as i128)) } else { (sum, net as i128) };
        proof {
            lemma_weighted_bound(legs);
            let w = sign(net as int) * weighted_entry(legs);
            assert(abs(w) <= magnitude * MAX_PRICE) by (nonlinear_arith)
                requires
                    abs(weighted_entry(legs)) <= size(legs) * MAX_PRICE,
                    magnitude == size(legs),
                    w == weighted_entry(legs) || w == -weighted_entry(legs),
            ;
            lemma_scale_down_bound(w, magnitude as int, MAX_PRICE as int);
        }
        Some(scale_down_exec(signed, magnitude) as i64)
    }

    fn gross_pnl_one_leg(&self, leg: PositionLeg, exit_price: Price) -> (r: Cash)
        requires
            self.instrument().wf(),
            quantity_in_range(leg.quantity as int),
            price_in_range(leg.entry_price as int),
            price_in_range(exit_price as int),
        ensures
            r == gross(self.instrument().spec_multiplier(), leg.quantity as int, leg.entry_price as int, exit_price as int),
    {
        let prices = PositionPrices { entry: leg.entry_price, exit: exit_price };
        self.underlying.gross_pnl(leg.quantity, prices)
    }

    fn gross_pnl_all_legs(&self, exit_price: Price) -> (r: Cash)
        requires
            self.wf(),
            price_in_range(exit_price as int),
        ensures
            r == mark(self.instrument().spec_multiplier(), self.legs(), exit_price as int),
    {
        let ghost m = self.instrument().spec_multiplier();
        let ghost k = m * (2 * MAX_PRICE);
        let ghost legs = self.legs@;
        proof {
            lemma_one_side_net(legs);
            lemma_legs_bounded(legs);
            assert(size(legs) * k <= MAX_QUANTITY * (MAX_MULTIPLIER * (2 * MAX_PRICE))) by (nonlinear_arith)
                requires
                    0 <= size(legs) <= MAX_QUANTITY,
                    1 <= m <= MAX_MULTIPLIER,
                    k == m * (2 * MAX_PRICE),
            ;
        }
        let mut pnl: Cash = 0;
        let mut i: usize = self.legs.len();
        while i > 0
            invariant
                i <= legs.len(),
                legs == self.legs@,
                self.wf(),
                m == self.instrument().spec_multiplier(),
                k == m * (2 * MAX_PRICE),
                price_in_range(exit_price as int),
                size(legs) * k <= MAX_QUANTITY * (MAX_MULTIPLIER * (2 * MAX_PRICE)),
                forall|j: int| 0 <= j < legs.len() ==> quantity_in_range(#[trigger] legs[j].quantity as int),
                size(legs.skip(i as int)) <= size(legs),
                pnl == mark(m, legs.skip(i as int), exit_price as int),
            decreases i,
        {
            i -= 1;
            let ghost tail = legs.skip(i as int);
            proof {
                assert(tail.drop_first() =~= legs.skip(i + 1));
                assert(tail[0] == legs[i as int]);
                lemma_skip_size(legs, i as int);
                lemma_skip_entries(legs, i as int);
                lemma_mark_bound(m, tail, exit_price as int, k);
                lemma_mark_bound(m, legs.skip(i + 1), exit_price as int, k);
                assert(size(tail) * k <= size(legs) * k) by (nonlinear_arith)
                    requires
                        size(tail) <= size(legs),
                        k >= 0,
                ;
                assert(size(legs.skip(i + 1)) * k <= size(legs) * k) by (nonlinear_arith)
                    requires
                        size(legs.skip(i + 1)) <= size(tail),
                        size(tail) <= size(legs),
                        k >= 0,
                ;
            }
            let g = self.gross_pnl_one_leg(self.legs[i], exit_price);
            pnl = g + pnl;
        }
        assert(legs.skip(0) =~= legs);
        pnl
    }

    fn accumulate_gross(&mut self, fill_quantity: Quantity, fill_price: Price) -> (r: Cash)
        requires
            price_in_range(fill_price as int),
        ensures
            final(self).legs() == old(self).legs().push(leg(fill_quantity as int, fill_price as int)),
            final(self).instrument() == old(self).instrument(),
            final(self).net == old(self).net,
            r == 0,
    {
        let leg = PositionLeg { quantity: fill_quantity, entry_price: fill_price };
        self.legs.push_back(leg);
        0
    }

    fn close_gross(&mut self, fill_price: Price) -> (r: Cash)
        requires
            old(self).wf(),
            price_in_range(fill_price as int),
        ensures
            final(self).legs() == Seq::<PositionLeg>::empty(),
            final(self).instrument() == old(self).instrument(),
            final(self).net == old(self).net,
            r == mark(old(self).instrument().spec_multiplier(), old(self).legs(), fill_price as int),
    {
        let pnl = self.gross_pnl_all_legs(fill_price);
        self.legs.clear();
        pnl
    }

    fn close_first_leg_gross(&mut self, exit_price: Price) -> (r: Cash)
        requires
            old(self).instrument().wf(),
            old(self).legs().len() > 0,
            quantity_in_range(old(self).legs()[0].quantity as int),
            entries_in_range(old(self).legs()),
            price_in_range(exit_price as int),
        ensures
            final(self).legs() == old(self).legs().drop_first(),
            final(self).instrument() == old(self).instrument(),
            final(self).net == old(self).net,
            r == gross(old(self).instrument().spec_multiplier(), old(self).legs()[0].quantity as int, old(self).legs()[0].entry_price as int, exit_price as int),
    {
        let pnl = self.gross_pnl_one_leg(self.legs[0], exit_price);
        self.legs.pop_front();
        proof {
            assert(self.legs@ =~= old(self).legs@.drop_first());
        }
        pnl
    }

    fn reduce_gross(&mut self, fill_quantity: Quantity, fill_price: Price) -> (r: Cash)
        requires
            old(self).wf(),
            price_in_range(fill_price as int),
            fill_quantity != 0,
            sign(fill_quantity as int) == -sign(net(old(self).legs())),
            abs(fill_quantity as int) < abs(net(old(self).legs())),
        ensures
            final(self).legs() == reduce_legs(old(self).legs(), fill_quantity as int),
            final(self).instrument() == old(self).instrument(),
            final(self).net == old(self).net,
            r == mark(old(self).instrument().spec_multiplier(), old(self).legs(), fill_price as int)
                - mark(old(self).instrument().spec_multiplier(), final(self).legs(), fill_price as int),
    {
        let ghost m = self.instrument().spec_multiplier();
        let ghost k = m * (2 * MAX_PRICE);
        let ghost orig = self.legs@;
        let ghost target = reduce_legs(orig, fill_quantity as int);
        proof {
            lemma_one_side_net(orig);
            lemma_legs_bounded(orig);
            lemma_mark_bound(m, orig, fill_price as int, k);
            assert(size(orig) * k <= MAX_QUANTITY * (MAX_MULTIPLIER * (2 * MAX_PRICE))) by (nonlinear_arith)
                requires
                    0 <= size(orig) <= MAX_QUANTITY,
                    1 <= m <= MAX_MULTIPLIER,
                    k == m * (2 * MAX_PRICE),
            ;
        }
        let mut remaining = fill_quantity;
        let mut pnl: Cash = 0;
        loop
            invariant
                orig == old(self).legs(),
                target == reduce_legs(orig, fill_quantity as int),
                self.instrument() == old(self).instrument(),
                self.instrument().wf(),
                self.net == old(self).net,
                m == self.instrument().spec_multiplier(),
                k == m * (2 * MAX_PRICE),
                price_in_range(fill_price as int),
                size(orig) <= MAX_QUANTITY,
                abs(mark(m, orig, fill_price as int)) <= MAX_QUANTITY * (MAX_MULTIPLIER * (2 * MAX_PRICE)),
                one_side(self.legs@),
                entries_in_range(self.legs@),
                size(self.legs@) <= size(orig),
                remaining != 0,
                sign(remaining as int) == -sign(net(self.legs@)),
                abs(remaining as int) < abs(net(self.legs@)),
                reduce_legs(self.legs@, remaining as int) == target,
                pnl == mark(m, orig, fill_price as int) - mark(m, self.legs@, fill_price as int),
            decreases self.legs@.len(),
        {
            let ghost cur = self.legs@;
            proof {
                lemma_one_side_net(cur);
                lemma_legs_bounded(cur);
                lemma_mark_bound(m, cur, fill_price as int, k);
                assert(size(cur) * k <= MAX_QUANTITY * (MAX_MULTIPLIER * (2 * MAX_PRICE))) by (nonlinear_arith)
                    requires
                        0 <= size(cur) <= MAX_QUANTITY,
                        1 <= m <= MAX_MULTIPLIER,
                        k == m * (2 * MAX_PRICE),
                ;
                lemma_reduce(cur, remaining as int);
                assert(size(cur) == abs(cur[0].quantity as int) + size(cur.drop_first()));
                assert(cur.skip(1) =~= cur.drop_first());
                lemma_skip_entries(cur, 1);
                lemma_mark_within(m, cur.drop_first(), fill_price as int);
                assert(mark(m, cur, fill_price as int) == gross(m, cur[0].quantity as int, cur[0].entry_price as int, fill_price as int) + mark(m, cur.drop_first(), fill_price as int));
            }
            let front = self.legs[0];
            let quantity = front.quantity + remaining;
            if quantity == 0 {
                proof {
                    assert(cur.len() > 0);
                    assert(cur[0] == front);
                    assert(reduce_legs(cur, remaining as int) == cur.drop_first());
                }
                let g = self.close_first_leg_gross(fill_price);
                return pnl + g;
            } else if same_side(quantity, front.quantity) {
                let prices = PositionPrices { entry: front.entry_price, exit: fill_price };
                let g = self.underlying.gross_pnl(-remaining, prices);
                self.legs.pop_front();
                self.legs.push_front(PositionLeg { quantity, entry_price: front.entry_price });
                proof {
                    assert(self.legs@ =~= cur.update(0, leg(quantity as int, front.entry_price as int)));
                    assert(self.legs@.drop_first() =~= cur.drop_first());
                    let e = front.entry_price as int;
                    let p = fill_price as int;
                    let q0 = front.quantity as int;
                    let f = remaining as int;
                    assert((q0 * m) * (p - e) - ((-f) * m) * (p - e) == ((q0 + f) * m) * (p - e)) by (nonlinear_arith);
                    lemma_gross_bound(m, q0 + f, e, p);
                    lemma_gross_bound(m, -f, e, p);
                    assert(g == gross(m, -f, e, p));
                    assert(pnl + g == mark(m, orig, p) - mark(m, cur.drop_first(), p) - gross(m, q0 + f, e, p));
                    assert(abs(mark(m, cur.drop_first(), p)) <= MAX_QUANTITY * (MAX_MULTIPLIER * (2 * MAX_PRICE)));
                    assert(abs(gross(m, q0 + f, e, p)) <= MAX_QUANTITY * (MAX_MULTIPLIER * (2 * MAX_PRICE)));
                }
                return pnl + g;
            } else {
                let g = self.close_first_leg_gross(fill_price);
                proof {
                    lemma_one_side_net(cur.drop_first());
                    assert(net(cur) == front.quantity + net(cur.drop_first()));
                }
                pnl = pnl + g;
                remaining = quantity;
            }
        }
    }

    fn reverse_gross(&mut self, target_quantity: Quantity, fill_price: Price) -> (r: Cash)
        requires
            old(self).wf(),
            price_in_range(fill_price as int),
        ensures
            final(self).legs() == seq![leg(target_quantity as int, fill_price as int)],
            final(self).instrument() == old(self).instrument(),
            final(self).net == old(self).net,
            r == mark(old(self).instrument().spec_multiplier(), old(self).legs(), fill_price as int),
    {
        let pnl = self.gross_pnl_all_legs(fill_price);
        self.legs.clear();
        self.legs.push_back(PositionLeg { quantity: target_quantity, entry_price: fill_price });
        proof {
            assert(self.legs@ =~= seq![leg(target_quantity as int, fill_price as int)]);
        }
        pnl
    }

    fn reconcile_gross(&mut self, fill_quantity: Quantity, fill_price: Price) -> (r: Cash)
        requires
            old(self).wf(),
            fill_quantity != 0,
            quantity_in_range(fill_quantity as int),
            price_in_range(fill_price as int),
            quantity_in_range(net(old(self).legs()) + fill_quantity),
        ensures
            final(self).wf(),
            final(self).instrument() == old(self).instrument(),
            final(self).legs() == step_legs(old(self).legs(), fill_quantity as int, fill_price as int),
            r == mark(old(self).instrument().spec_multiplier(), old(self).legs(), fill_price as int)
                - mark(old(self).instrument().spec_multiplier(), final(self).legs(), fill_price as int),
    {
        let ghost m = self.instrument().spec_multiplier();
        let ghost old_legs = self.legs@;
        proof {
            lemma_one_side_net(old_legs);
            lemma_step(old_legs, fill_quantity as int, fill_price as int);
        }
        let current_quantity = self.net;
        let pnl = if current_quantity == 0 || same_side(fill_quantity, current_quantity) {
            let g = self.accumulate_gross(fill_quantity, fill_price);
            proof {
                lemma_push(m, old_legs, leg(fill_quantity as int, fill_price as int), fill_price as int);
                assert(gross(m, fill_quantity as int, fill_price as int, fill_price as int) == 0);
            }
            g
        } else {
            let target_quantity = current_quantity + fill_quantity;
            if target_quantity == 0 {
                self.close_gross(fill_price)
            } else if same_side(target_quantity, current_quantity) {
                self.reduce_gross(fill_quantity, fill_price)
            } else {
                let g = self.reverse_gross(target_quantity, fill_price);
                proof {
                    let one = seq![leg(target_quantity as int, fill_price as int)];
                    assert(one.drop_first() =~= Seq::<PositionLeg>::empty());
                    assert(mark(m, Seq::<PositionLeg>::empty(), fill_price as int) == 0);
                    assert(gross(m, target_quantity as int, fill_price as int, fill_price as int) == 0) by (nonlinear_arith);
                    assert(mark(m, one, fill_price as int) == 0);
                }
                g
            }
        };
        self.net = current_quantity + fill_quantity;
        pnl
    }

    /// Books a fill and returns the profit it realizes, net of its fee.
    pub fn reconcile(&mut self, fill: &SimulatorFill) -> (r: Result<Cash, AccountingError>)
        requires
            old(self).wf(),
            old(self).accepts(*fill),
        ensures
            final(self).wf(),
            final(self).instrument() == old(self).instrument(),
            fill.instrument_id@ != old(self).instrument().id() ==> {
                &&& r == Err::<Cash, AccountingError>(AccountingError::InstrumentMismatch)
                &&& final(self).legs() == old(self).legs()
            },
            fill.instrument_id@ == old(self).instrument().id() ==> {
                &&& final(self).legs() == fill_legs(old(self).legs(), *fill)
                &&& r == Ok::<Cash, AccountingError>(
                    fill_pnl(old(self).instrument().spec_multiplier(), old(self).legs(), *fill) as i128,
                )
            },
            -max_step_pnl() <= fill_pnl(old(self).instrument().spec_multiplier(), old(self).legs(), *fill)
                <= max_step_pnl(),
    {
        let ghost m = self.instrument().spec_multiplier();
        proof {
            lemma_fill_pnl_bound(self.legs@, m, *fill);
        }
        if !fill.instrument_id().same(self.underlying.unique_id()) {
            return Err(AccountingError::InstrumentMismatch);
        }
        let quantity = fill.quantity();
        if quantity == 0 {
            Ok(-fill.fee())
        } else {
            let gross = self.reconcile_gross(quantity, fill.price());
            Ok(gross - fill.fee())
        }
    }

    /// What closing the whole position through `fill_model` would realize now,
    /// net of the closing fee; zero when flat. Nothing changes.
    pub fn unrealized_pnl(&self, fill_model: &TopOfBookFillModel) -> (r: Result<Cash, AccountingError>)
        requires
            self.wf(),
            fill_model.wf(),
        ensures
            r == self.unrealized_spec(fill_model),
            r matches Ok(v) ==> -max_step_pnl() <= v <= max_step_pnl(),
    {
        if self.legs.len() == 0 {
            return Ok(0);
        }
        proof {
            lemma_one_side_net(self.legs@);
        }
        let order = Order::Market { instrument_id: self.underlying.unique_id().duplicate(), quantity: -self.net };
        match fill_model.execute(&order) {
            Ok(fill) => {
                let exit = fill.price();
                let gross = self.gross_pnl_all_legs(exit);
                proof {
                    lemma_legs_bounded(self.legs@);
                    lemma_mark_bound(self.instrument().spec_multiplier(), self.legs@, exit as int, self.instrument().spec_multiplier() * (2 * MAX_PRICE));
                    assert(size(self.legs@) * (self.instrument().spec_multiplier() * (2 * MAX_PRICE)) <= MAX_QUANTITY * (MAX_MULTIPLIER * (2 * MAX_PRICE))) by (nonlinear_arith)
                        requires
                            0 <= size(self.legs@) <= MAX_QUANTITY,
                            1 <= self.instrument().spec_multiplier() <= MAX_MULTIPLIER,
                    ;
                }
                Ok(gross - fill.fee())
            },
            Err(e) => Err(e),
        }
    }

    pub open spec fn unrealized_spec(&self, fill_model: &TopOfBookFillModel) -> Result<Cash, AccountingError> {
        let legs = self.legs();
        let instrument = fill_model.spec_instrument();
        if legs.len() == 0 {
            Ok(0)
        } else if self.instrument().id() != instrument.id() {
            Err(AccountingError::InstrumentMismatch)
        } else {
            match fill_model.spec_prices() {
                None => Err(AccountingError::NotUpdated),
                Some(prices) => {
                    let q = -net(legs);
                    let exit = top_of_book_price(q, prices);
                    let fee = commission_due(instrument.spec_commission(), instrument.spec_multiplier(), q, prices.bid as int).taker;
                    Ok((mark(self.instrument().spec_multiplier(), legs, exit) - fee) as i128)
                },
            }
        }
    }
}

/// Relies on `itertools::Itertools::all_equal`: true when no two items differ.
#[verifier::external_body]
fn all_equal(items: &Vec<i64>) -> (r: bool)
    ensures
        r == (forall|a: int, b: int| 0 <= a < items@.len() && 0 <= b < items@.len() ==> items@[a] == items@[b]),
{
    items.iter().all_equal()
}

proof fn lemma_legs_bounded(legs: Seq<PositionLeg>)
    requires
        one_side(legs),
        quantity_in_range(net(legs)),
    ensures
        forall|j: int| 0 <= j < legs.len() ==> quantity_in_range(#[trigger] legs[j].quantity as int),
        0 <= size(legs) <= MAX_QUANTITY,
{
    lemma_one_side_net(legs);
    assert forall|j: int| 0 <= j < legs.len() implies quantity_in_range(#[trigger] legs[j].quantity as int) by {
        lemma_size_bounds_leg(legs, j);
    }
}

proof fn lemma_size_bounds_leg(legs: Seq<PositionLeg>, j: int)
    requires
        0 <= j < legs.len(),
    ensures
        abs(legs[j].quantity as int) <= size(legs),
        size(legs) >= 0,
    decreases legs.len(),
{
    lemma_size_nonneg(legs.drop_first());
    if j > 0 {
        assert(legs.drop_first()[j - 1] == legs[j]);
        lemma_size_bounds_leg(legs.drop_first(), j - 1);
    }
}

proof fn lemma_mark_within(m: int, legs: Seq<PositionLeg>, p: int)
    requires
        1 <= m <= MAX_MULTIPLIER,
        price_in_range(p),
        entries_in_range(legs),
        forall|j: int| 0 <= j < legs.len() ==> quantity_in_range(#[trigger] legs[j].quantity as int),
        size(legs) <= MAX_QUANTITY,
    ensures
        abs(mark(m, legs, p)) <= MAX_QUANTITY * (MAX_MULTIPLIER * (2 * MAX_PRICE)),
{
    let k = m * (2 * MAX_PRICE);
    lemma_mark_bound(m, legs, p, k);
    assert(size(legs) * k <= MAX_QUANTITY * (MAX_MULTIPLIER * (2 * MAX_PRICE))) by (nonlinear_arith)
        requires
            0 <= size(legs) <= MAX_QUANTITY,
            1 <= m <= MAX_MULTIPLIER,
            k == m * (2 * MAX_PRICE),
    ;
}

proof fn lemma_skip_size(legs: Seq<PositionLeg>, i: int)
    requires
        0 <= i <= legs.len(),
    ensures
        size(legs.skip(i)) <= size(legs),
    decreases i,
{
    if i > 0 {
        lemma_skip_size(legs, i - 1);
        assert(legs.skip(i - 1).drop_first() =~= legs.skip(i));
    } else {
        assert(legs.skip(0) =~= legs);
    }
}

proof fn lemma_size_nonneg(legs: Seq<PositionLeg>)
    ensures
        size(legs) >= 0,
    decreases legs.len(),
{
    if legs.len() > 0 {
        lemma_size_nonneg(legs.drop_first());
    }
}

proof fn lemma_skip_entries(legs: Seq<PositionLeg>, i: int)
    requires
        0 <= i <= legs.len(),
        entries_in_range(legs),
        forall|j: int| 0 <= j < legs.len() ==> quantity_in_range(#[trigger] legs[j].quantity as int),
    ensures
        entries_in_range(legs.skip(i)),
        forall|j: int| 0 <= j < legs.skip(i).len() ==> quantity_in_range(#[trigger] legs.skip(i)[j].quantity as int),
        size(legs.skip(i)) >= 0,
{
    lemma_size_nonneg(legs.skip(i));
    assert forall|j: int| 0 <= j < legs.skip(i).len() implies price_in_range(#[trigger] legs.skip(i)[j].entry_price as int) by {
        assert(legs.skip(i)[j] == legs[i + j]);
    }
    assert forall|j: int| 0 <= j < legs.skip(i).len() implies quantity_in_range(#[trigger] legs.skip(i)[j].quantity as int) by {
        assert(legs.skip(i)[j] == legs[i + j]);
    }
}

/// What one accepted fill realizes stays within `max_step_pnl`.
proof fn lemma_fill_pnl_bound(legs: Seq<PositionLeg>, m: int, fill: SimulatorFill)
    requires
        legs_wf(legs),
        1 <= m <= MAX_MULTIPLIER,
        fill.wf(),
        quantity_in_range(net(legs) + fill.spec_quantity()),
    ensures
        -max_step_pnl() <= fill_pnl(m, legs, fill) <= max_step_pnl(),
{
    let q = fill.spec_quantity();
    let p = fill.spec_price();
    let k = m * (2 * MAX_PRICE);
    lemma_step(legs, q, p);
    let after = step_legs(legs, q, p);
    lemma_one_side_net(legs);
    lemma_one_side_net(after);
    lemma_legs_bounded(legs);
    lemma_legs_bounded(after);
    assert(price_in_range(p));
    lemma_mark_bound(m, legs, p, k);
    lemma_mark_bound(m, after, p, k);
    assert(size(legs) * k <= MAX_QUANTITY * (MAX_MULTIPLIER * (2 * MAX_PRICE))) by (nonlinear_arith)
        requires
            0 <= size(legs) <= MAX_QUANTITY,
            1 <= m <= MAX_MULTIPLIER,
            k == m * (2 * MAX_PRICE),
    ;
    assert(size(after) * k <= MAX_QUANTITY * (MAX_MULTIPLIER * (2 * MAX_PRICE))) by (nonlinear_arith)
        requires
            0 <= size(after) <= MAX_QUANTITY,
            1 <= m <= MAX_MULTIPLIER,
            k == m * (2 * MAX_PRICE),
    ;
}

} // verus!
