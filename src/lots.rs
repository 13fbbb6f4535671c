use vstd::prelude::*;

use crate::fill::SimulatorFill;
use crate::instrument::{gross, quantity_in_range};
use crate::price::{price_in_range, Price};
use crate::size::{abs, same_side_spec, sign, Quantity};

verus! {

/// One open lot: a signed quantity bought or sold at one price.
#[derive(Clone, Copy, Debug)]
pub struct PositionLeg {
    pub quantity: Quantity,
    pub entry_price: Price,
}

/// Net quantity of a sequence of legs.
pub open spec fn net(legs: Seq<PositionLeg>) -> int
    decreases legs.len(),
{
    if legs.len() == 0 {
        0
    } else {
        legs[0].quantity + net(legs.drop_first())
    }
}

/// Sum of the magnitudes of the legs.
pub open spec fn size(legs: Seq<PositionLeg>) -> int
    decreases legs.len(),
{
    if legs.len() == 0 {
        0
    } else {
        abs(legs[0].quantity as int) + size(legs.drop_first())
    }
}

/// Gross profit of every leg, each priced from its own entry to `exit`.
pub open spec fn mark(m: int, legs: Seq<PositionLeg>, exit: int) -> int
    decreases legs.len(),
{
    if legs.len() == 0 {
        0
    } else {
        gross(m, legs[0].quantity as int, legs[0].entry_price as int, exit) + mark(
            m,
            legs.drop_first(),
            exit,
        )
    }
}

/// Sum of each leg's quantity times its entry price.
pub open spec fn weighted_entry(legs: Seq<PositionLeg>) -> int
    decreases legs.len(),
{
    if legs.len() == 0 {
        0
    } else {
        legs[0].quantity * legs[0].entry_price + weighted_entry(legs.drop_first())
    }
}

/// Every leg is nonzero and on the side of the first.
pub open spec fn one_side(legs: Seq<PositionLeg>) -> bool {
    forall|i: int|
        0 <= i < legs.len() ==> #[trigger] legs[i].quantity != 0 && same_side_spec(
            legs[i].quantity as int,
            legs[0].quantity as int,
        )
}

pub open spec fn entries_in_range(legs: Seq<PositionLeg>) -> bool {
    forall|i: int| 0 <= i < legs.len() ==> price_in_range(#[trigger] legs[i].entry_price as int)
}

/// The legs of a position in a valid state.
pub open spec fn legs_wf(legs: Seq<PositionLeg>) -> bool {
    &&& one_side(legs)
    &&& entries_in_range(legs)
    &&& quantity_in_range(net(legs))
}

pub open spec fn leg(q: int, p: int) -> PositionLeg {
    PositionLeg { quantity: q as i64, entry_price: p as i64 }
}

/// Takes an opposite-side quantity `q` off the oldest legs first.
pub open spec fn reduce_legs(legs: Seq<PositionLeg>, q: int) -> Seq<PositionLeg>
    decreases legs.len(),
{
    if legs.len() == 0 {
        legs
    } else {
        let t = legs[0].quantity + q;
        if t == 0 {
            legs.drop_first()
        } else if same_side_spec(t, legs[0].quantity as int) {
            legs.update(0, leg(t, legs[0].entry_price as int))
        } else {
            reduce_legs(legs.drop_first(), t)
        }
    }
}

/// The legs after a fill of `q` at price `p`: accumulate, close, reduce or reverse.
pub open spec fn step_legs(legs: Seq<PositionLeg>, q: int, p: int) -> Seq<PositionLeg> {
    let current = net(legs);
    if q == 0 {
        legs
    } else if current == 0 || same_side_spec(q, current) {
        legs.push(leg(q, p))
    } else {
        let target = current + q;
        if target == 0 {
            Seq::empty()
        } else if same_side_spec(target, current) {
            reduce_legs(legs, q)
        } else {
            seq![leg(target, p)]
        }
    }
}

/// Realized profit of a fill of `q` at `p` charging `fee`: the gross profit of
/// the quantity it closed, priced at `p`, less the fee.
pub open spec fn step_pnl(m: int, legs: Seq<PositionLeg>, q: int, p: int, fee: int) -> int {
    mark(m, legs, p) - mark(m, step_legs(legs, q, p), p) - fee
}

pub open spec fn fill_legs(legs: Seq<PositionLeg>, fill: SimulatorFill) -> Seq<PositionLeg> {
    step_legs(legs, fill.spec_quantity(), fill.spec_price())
}

pub open spec fn fill_pnl(m: int, legs: Seq<PositionLeg>, fill: SimulatorFill) -> int {
    step_pnl(m, legs, fill.spec_quantity(), fill.spec_price(), fill.fee as int)
}

/// The legs after each fill in turn.
pub open spec fn legs_after(legs: Seq<PositionLeg>, fills: Seq<SimulatorFill>) -> Seq<PositionLeg>
    decreases fills.len(),
{
    if fills.len() == 0 {
        legs
    } else {
        legs_after(fill_legs(legs, fills[0]), fills.drop_first())
    }
}

/// The realized profit that the fills return, summed.
pub open spec fn realized_over(m: int, legs: Seq<PositionLeg>, fills: Seq<SimulatorFill>) -> int
    decreases fills.len(),
{
    if fills.len() == 0 {
        0
    } else {
        fill_pnl(m, legs, fills[0]) + realized_over(m, fill_legs(legs, fills[0]), fills.drop_first())
    }
}

/// Gross profit of every traded quantity, held from its fill price to `exit`.
pub open spec fn traded_gross(m: int, fills: Seq<SimulatorFill>, exit: int) -> int
    decreases fills.len(),
{
    if fills.len() == 0 {
        0
    } else {
        gross(m, fills[0].spec_quantity(), fills[0].spec_price(), exit) + traded_gross(
            m,
            fills.drop_first(),
            exit,
        )
    }
}

pub open spec fn fees_over(fills: Seq<SimulatorFill>) -> int
    decreases fills.len(),
{
    if fills.len() == 0 {
        0
    } else {
        fills[0].fee + fees_over(fills.drop_first())
    }
}

pub proof fn lemma_push(m: int, legs: Seq<PositionLeg>, x: PositionLeg, exit: int)
    ensures
        net(legs.push(x)) == net(legs) + x.quantity,
        size(legs.push(x)) == size(legs) + abs(x.quantity as int),
        mark(m, legs.push(x), exit) == mark(m, legs, exit) + gross(m, x.quantity as int, x.entry_price as int, exit),
    decreases legs.len(),
{
    if legs.len() > 0 {
        assert(legs.push(x).drop_first() =~= legs.drop_first().push(x));
        lemma_push(m, legs.drop_first(), x, exit);
    } else {
        assert(legs.push(x).drop_first() =~= legs);
    }
}

/// On one side, the net quantity is as large as all legs together, with their sign.
pub proof fn lemma_one_side_net(legs: Seq<PositionLeg>)
    requires
        one_side(legs),
    ensures
        abs(net(legs)) == size(legs),
        legs.len() > 0 ==> sign(net(legs)) == sign(legs[0].quantity as int) && net(legs) != 0,
        legs.len() == 0 ==> net(legs) == 0,
    decreases legs.len(),
{
    if legs.len() > 0 {
        let rest = legs.drop_first();
        assert forall|i: int| 0 <= i < rest.len() implies #[trigger] rest[i].quantity != 0
            && same_side_spec(rest[i].quantity as int, rest[0].quantity as int) by {
            assert(rest[i] == legs[i + 1]);
            assert(legs[1].quantity != 0);
        }
        lemma_one_side_net(rest);
        if rest.len() > 0 {
            assert(rest[0] == legs[1]);
        }
    }
}

/// The gross profit of all legs is bounded by their size.
pub proof fn lemma_mark_bound(m: int, legs: Seq<PositionLeg>, exit: int, k: int)
    requires
        entries_in_range(legs),
        price_in_range(exit),
        m >= 1,
        k == m * (2 * crate::price::MAX_PRICE),
        forall|i: int| 0 <= i < legs.len() ==> quantity_in_range(#[trigger] legs[i].quantity as int),
    ensures
        abs(mark(m, legs, exit)) <= size(legs) * k,
        size(legs) >= 0,
    decreases legs.len(),
{
    if legs.len() > 0 {
        let rest = legs.drop_first();
        assert forall|i: int| 0 <= i < rest.len() implies quantity_in_range(#[trigger] rest[i].quantity as int) by {
            assert(rest[i] == legs[i + 1]);
        }
        assert forall|i: int| 0 <= i < rest.len() implies price_in_range(#[trigger] rest[i].entry_price as int) by {
            assert(rest[i] == legs[i + 1]);
        }
        lemma_mark_bound(m, rest, exit, k);
        let q = legs[0].quantity as int;
        let e = legs[0].entry_price as int;
        assert(price_in_range(e));
        assert(abs(gross(m, q, e, exit)) <= abs(q) * k) by (nonlinear_arith)
            requires
                m >= 1,
                k == m * (2 * crate::price::MAX_PRICE),
                price_in_range(e),
                price_in_range(exit),
        ;
        assert(size(legs) * k == abs(q) * k + size(rest) * k) by (nonlinear_arith)
            requires
                size(legs) == abs(q) + size(rest),
        ;
    }
}

pub proof fn lemma_weighted_bound(legs: Seq<PositionLeg>)
    requires
        entries_in_range(legs),
    ensures
        abs(weighted_entry(legs)) <= size(legs) * crate::price::MAX_PRICE,
    decreases legs.len(),
{
    if legs.len() > 0 {
        let rest = legs.drop_first();
        assert forall|i: int| 0 <= i < rest.len() implies price_in_range(#[trigger] rest[i].entry_price as int) by {
            assert(rest[i] == legs[i + 1]);
        }
        lemma_weighted_bound(rest);
        let q = legs[0].quantity as int;
        let e = legs[0].entry_price as int;
        assert(price_in_range(e));
        assert(abs(q * e) <= abs(q) * crate::price::MAX_PRICE) by (nonlinear_arith)
            requires
                price_in_range(e),
        ;
        assert(size(legs) * crate::price::MAX_PRICE == abs(q) * crate::price::MAX_PRICE + size(rest)
            * crate::price::MAX_PRICE) by (nonlinear_arith)
            requires
                size(legs) == abs(q) + size(rest),
        ;
    }
}

/// Moving the exit price moves the gross profit of all legs by their net quantity.
pub proof fn lemma_mark_shift(m: int, legs: Seq<PositionLeg>, p: int, exit: int)
    ensures
        mark(m, legs, exit) - mark(m, legs, p) == (net(legs) * m) * (exit - p),
    decreases legs.len(),
{
    if legs.len() > 0 {
        lemma_mark_shift(m, legs.drop_first(), p, exit);
        let q = legs[0].quantity as int;
        let e = legs[0].entry_price as int;
        let n = net(legs.drop_first());
        assert(mark(m, legs, exit) == (q * m) * (exit - e) + mark(m, legs.drop_first(), exit));
        assert(mark(m, legs, p) == (q * m) * (p - e) + mark(m, legs.drop_first(), p));
        assert(net(legs) == q + n);
        assert((q * m) * (exit - e) - (q * m) * (p - e) + (n * m) * (exit - p) == (net(legs) * m) * (
        exit - p)) by (nonlinear_arith)
            requires
                net(legs) == q + n,
        ;
        assert(mark(m, legs.drop_first(), exit) - mark(m, legs.drop_first(), p) == (n * m) * (exit - p));
    } else {
        assert((0 * m) * (exit - p) == 0) by (nonlinear_arith);
    }
}

/// A reduction that stops short of the net quantity keeps the legs on one side.
pub proof fn lemma_reduce(legs: Seq<PositionLeg>, q: int)
    requires
        one_side(legs),
        q != 0,
        sign(q) == -sign(net(legs)),
        abs(q) < abs(net(legs)),
    ensures
        net(reduce_legs(legs, q)) == net(legs) + q,
        one_side(reduce_legs(legs, q)),
        entries_in_range(legs) ==> entries_in_range(reduce_legs(legs, q)),
        reduce_legs(legs, q).len() > 0,
        reduce_legs(legs, q).len() > 0 ==> sign(reduce_legs(legs, q)[0].quantity as int) == sign(
            net(legs),
        ),
    decreases legs.len(),
{
    lemma_one_side_net(legs);
    let rest = legs.drop_first();
    assert forall|i: int| 0 <= i < rest.len() implies #[trigger] rest[i].quantity != 0
        && same_side_spec(rest[i].quantity as int, rest[0].quantity as int) by {
        assert(rest[i] == legs[i + 1]);
        assert(legs[1].quantity != 0);
    }
    assert(entries_in_range(legs) ==> entries_in_range(rest)) by {
        if entries_in_range(legs) {
            assert forall|i: int| 0 <= i < rest.len() implies price_in_range(
                #[trigger] rest[i].entry_price as int,
            ) by {
                assert(rest[i] == legs[i + 1]);
            }
        }
    }
    lemma_one_side_net(rest);
    let q0 = legs[0].quantity as int;
    let t = q0 + q;
    if t == 0 {
        assert(rest.len() > 0);
        assert(rest[0] == legs[1]);
    } else if same_side_spec(t, q0) {
        let r = legs.update(0, leg(t, legs[0].entry_price as int));
        assert(r.drop_first() =~= rest);
        assert forall|i: int| 0 <= i < r.len() implies #[trigger] r[i].quantity != 0
            && same_side_spec(r[i].quantity as int, r[0].quantity as int) by {
            if i > 0 {
                assert(r[i] == legs[i]);
            }
        }
    } else {
        if rest.len() > 0 {
            assert(rest[0] == legs[1]);
        }
        lemma_reduce(rest, t);
    }
}

/// Every fill keeps the legs on one side and adds its quantity to the net.
pub proof fn lemma_step(legs: Seq<PositionLeg>, q: int, p: int)
    requires
        one_side(legs),
        i64::MIN <= q <= i64::MAX,
        i64::MIN <= net(legs) + q <= i64::MAX,
    ensures
        one_side(step_legs(legs, q, p)),
        net(step_legs(legs, q, p)) == net(legs) + q,
        entries_in_range(legs) && price_in_range(p) ==> entries_in_range(step_legs(legs, q, p)),
{
    lemma_one_side_net(legs);
    let current = net(legs);
    let r = step_legs(legs, q, p);
    if q == 0 {
    } else if current == 0 || same_side_spec(q, current) {
        lemma_push(0, legs, leg(q, p), 0);
        assert forall|i: int| 0 <= i < r.len() implies #[trigger] r[i].quantity != 0
            && same_side_spec(r[i].quantity as int, r[0].quantity as int) by {
            if i < legs.len() {
                assert(r[i] == legs[i]);
            }
        }
        assert(entries_in_range(legs) && price_in_range(p) ==> entries_in_range(r)) by {
            if entries_in_range(legs) && price_in_range(p) {
                assert forall|i: int| 0 <= i < r.len() implies price_in_range(
                    #[trigger] r[i].entry_price as int,
                ) by {
                    if i < legs.len() {
                        assert(r[i] == legs[i]);
                    }
                }
            }
        }
    } else {
        let target = current + q;
        if target == 0 {
        } else if same_side_spec(target, current) {
            lemma_reduce(legs, q);
        } else {
            assert(net(r.drop_first()) == 0);
        }
    }
}

/// One fill conserves value: what it realizes, plus the open legs marked at any
/// price, equals the legs before marked at that price, plus the fill's own
/// quantity held from its price to that one, less its fee.
pub proof fn lemma_step_conserves(
    m: int,
    legs: Seq<PositionLeg>,
    q: int,
    p: int,
    fee: int,
    exit: int,
)
    requires
        one_side(legs),
        i64::MIN <= q <= i64::MAX,
        i64::MIN <= net(legs) + q <= i64::MAX,
    ensures
        step_pnl(m, legs, q, p, fee) + mark(m, step_legs(legs, q, p), exit) == mark(m, legs, exit)
            + gross(m, q, p, exit) - fee,
{
    lemma_step(legs, q, p);
    let after = step_legs(legs, q, p);
    lemma_mark_shift(m, legs, p, exit);
    lemma_mark_shift(m, after, p, exit);
    let n = net(legs);
    assert(((n + q) * m) * (exit - p) == (n * m) * (exit - p) + (q * m) * (exit - p)) by (nonlinear_arith);
}

/// Conservation over any run of fills: the realized profit summed over the
/// run, plus what closing the remaining legs at `exit` would realize, equals
/// the legs held at the start marked to `exit`, plus every traded quantity held
/// from its fill price to `exit`, less all fees.
pub proof fn lemma_conservation(
    m: int,
    legs: Seq<PositionLeg>,
    fills: Seq<SimulatorFill>,
    exit: int,
)
    requires
        one_side(legs),
        forall|i: int| 0 <= i < fills.len() ==> quantity_in_range(#[trigger] fills[i].spec_quantity()),
        forall|i: int|
            0 <= i <= fills.len() ==> quantity_in_range(#[trigger] net(legs) + traded(fills.take(i))),
    ensures
        realized_over(m, legs, fills) + mark(m, legs_after(legs, fills), exit) == mark(m, legs, exit)
            + traded_gross(m, fills, exit) - fees_over(fills),
    decreases fills.len(),
{
    if fills.len() > 0 {
        let f = fills[0];
        let rest = fills.drop_first();
        assert(quantity_in_range(f.spec_quantity()));
        assert(fills.take(1) =~= seq![f]);
        assert(traded(seq![f]) == f.spec_quantity()) by {
            assert(seq![f].drop_first() =~= Seq::<SimulatorFill>::empty());
            assert(traded(Seq::<SimulatorFill>::empty()) == 0);
        }
        assert(quantity_in_range(net(legs) + traded(fills.take(1))));
        lemma_step_conserves(m, legs, f.spec_quantity(), f.spec_price(), f.fee as int, exit);
        lemma_step(legs, f.spec_quantity(), f.spec_price());
        let next = fill_legs(legs, f);
        assert forall|i: int| 0 <= i < rest.len() implies quantity_in_range(
            #[trigger] rest[i].spec_quantity(),
        ) by {
            assert(rest[i] == fills[i + 1]);
        }
        assert forall|i: int| 0 <= i <= rest.len() implies quantity_in_range(
            #[trigger] net(next) + traded(rest.take(i)),
        ) by {
            assert(fills.take(i + 1).drop_first() =~= rest.take(i));
            assert(fills.take(i + 1)[0] == f);
            assert(quantity_in_range(net(legs) + traded(fills.take(i + 1))));
        }
        lemma_conservation(m, next, rest, exit);
    }
}

/// Net quantity traded by a run of fills.
pub open spec fn traded(fills: Seq<SimulatorFill>) -> int
    decreases fills.len(),
{
    if fills.len() == 0 {
        0
    } else {
        fills[0].spec_quantity() + traded(fills.drop_first())
    }
}

/// A fill of zero quantity leaves the legs as they are and realizes only its fee, negated.
pub proof fn lemma_zero_fill(m: int, legs: Seq<PositionLeg>, p: int, fee: int)
    ensures
        step_legs(legs, 0, p) == legs,
        step_pnl(m, legs, 0, p, fee) == -fee,
        net(step_legs(legs, 0, p)) == net(legs),
{
}

/// Opening `n` at `entry` and closing it at `exit` realizes the gross profit of `n`
/// from `entry` to `exit` less both fees, and leaves no legs.
pub proof fn lemma_round_trip(m: int, n: int, entry: int, exit: int, fee_open: int, fee_close: int)
    requires
        n != 0,
        quantity_in_range(n),
        price_in_range(entry),
        price_in_range(exit),
    ensures
        step_legs(step_legs(Seq::empty(), n, entry), -n, exit) == Seq::<PositionLeg>::empty(),
        step_pnl(m, Seq::empty(), n, entry, fee_open) + step_pnl(
            m,
            step_legs(Seq::empty(), n, entry),
            -n,
            exit,
            fee_close,
        ) == gross(m, n, entry, exit) - fee_open - fee_close,
{
    let opened = step_legs(Seq::empty(), n, entry);
    lemma_push(m, Seq::empty(), leg(n, entry), entry);
    lemma_push(m, Seq::empty(), leg(n, entry), exit);
    let empty = Seq::<PositionLeg>::empty();
    assert(net(empty) == 0);
    assert(mark(m, empty, entry) == 0);
    assert(mark(m, empty, exit) == 0);
    assert(opened == empty.push(leg(n, entry)));
    assert(gross(m, n, entry, entry) == 0);
    assert(net(opened) == n);
    assert(sign(-n) != sign(n));
    assert(step_legs(opened, -n, exit) == empty);
    assert(mark(m, opened, entry) == 0);
    assert(mark(m, opened, exit) == gross(m, n, entry, exit));
}

} // verus!
