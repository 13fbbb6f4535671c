use alfa_core::{
    AccountingError, Commission, FifoPosition, FillLevel, InstrumentId, InstrumentSpec,
    NonZeroQuantity, SimulatorFill,
};

const UNIT: i64 = 1_000_000;

fn id(symbol: &str) -> InstrumentId {
    InstrumentId::new("XNAS".to_string(), symbol.to_string())
}

fn spec(symbol: &str, multiplier: i64, commission: Commission) -> InstrumentSpec {
    InstrumentSpec::new(id(symbol), multiplier, commission).unwrap()
}

fn fill(symbol: &str, quantity: i64, price: i64, fee: i128) -> SimulatorFill {
    SimulatorFill {
        instrument_id: id(symbol),
        level: NonZeroQuantity::new(quantity).map(|quantity| FillLevel { price, quantity }),
        fee,
    }
}

fn position() -> FifoPosition {
    FifoPosition::new(spec("AAA", 1, Commission::Fixed(0)))
}

#[test]
fn reverse_long_to_short() {
    let mut p = position();
    assert_eq!(p.reconcile(&fill("AAA", 10 * UNIT, 100, 0)), Ok(0));
    let pnl = p.reconcile(&fill("AAA", -15 * UNIT, 90, 0)).unwrap();
    assert_eq!(pnl, (10 * UNIT as i128) * (90 - 100));
    assert_eq!(p.net_quantity(), -5 * UNIT);
    let legs = p.open_legs();
    assert_eq!(legs.len(), 1);
    assert_eq!(legs[0].quantity, -5 * UNIT);
    assert_eq!(legs[0].entry_price, 90);
}

#[test]
fn round_trip_leaves_position_flat() {
    let mut p = position();
    let opened = p.reconcile(&fill("AAA", 3 * UNIT, 100, 5)).unwrap();
    let closed = p.reconcile(&fill("AAA", -3 * UNIT, 110, 7)).unwrap();
    assert_eq!(opened + closed, (3 * UNIT as i128) * 10 - 5 - 7);
    assert_eq!(p.net_quantity(), 0);
    assert!(p.open_legs().is_empty());
}

#[test]
fn zero_fill_only_charges_fee() {
    let mut p = position();
    p.reconcile(&fill("AAA", 4 * UNIT, 100, 0)).unwrap();
    let before = p.open_legs();
    assert_eq!(p.reconcile(&fill("AAA", 0, 0, 9)), Ok(-9));
    let after = p.open_legs();
    assert_eq!(p.net_quantity(), 4 * UNIT);
    assert_eq!(before.len(), after.len());
    assert_eq!(after[0].quantity, before[0].quantity);
    assert_eq!(after[0].entry_price, before[0].entry_price);
}

#[test]
fn legs_share_one_side_after_every_fill() {
    let mut p = position();
    let quantities = [2 * UNIT, 3 * UNIT, -1 * UNIT, -6 * UNIT, -2 * UNIT, 9 * UNIT, 0, -4 * UNIT];
    for (i, q) in quantities.iter().enumerate() {
        p.reconcile(&fill("AAA", *q, 100 + i as i64, 1)).unwrap();
        assert!(p.all_legs_same_side());
        let legs = p.open_legs();
        let net: i64 = legs.iter().map(|l| l.quantity).sum();
        assert_eq!(net, p.net_quantity());
        assert!(legs.iter().all(|l| l.quantity != 0 && (l.quantity > 0) == (net > 0)));
    }
}

#[test]
fn realized_profit_is_path_consistent() {
    let multiplier: i64 = 3;
    let mut p = FifoPosition::new(spec("AAA", multiplier, Commission::Fixed(0)));
    let fills = [(5 * UNIT, 100, 2), (-2 * UNIT, 104, 3), (4 * UNIT, 98, 1), (-9 * UNIT, 110, 4), (-3 * UNIT, 107, 5), (1 * UNIT, 101, 6)];
    let mut realized: i128 = 0;
    for (q, price, fee) in fills.iter() {
        realized += p.reconcile(&fill("AAA", *q, *price, *fee)).unwrap();
    }
    let exit: i64 = 105;
    let net = p.net_quantity();
    realized += p.reconcile(&fill("AAA", -net, exit, 0)).unwrap();
    let traded: i128 = fills.iter().map(|(q, price, _)| (*q as i128) * multiplier as i128 * (exit - price) as i128).sum();
    let fees: i128 = fills.iter().map(|(_, _, fee)| *fee).sum();
    assert_eq!(realized, traded - fees);
    assert_eq!(p.net_quantity(), 0);
}

#[test]
fn reduce_takes_oldest_leg_first() {
    let mut p = position();
    p.reconcile(&fill("AAA", 2 * UNIT, 100, 0)).unwrap();
    p.reconcile(&fill("AAA", 3 * UNIT, 110, 0)).unwrap();
    let pnl = p.reconcile(&fill("AAA", -4 * UNIT, 120, 0)).unwrap();
    assert_eq!(pnl, (2 * UNIT as i128) * 20 + (2 * UNIT as i128) * 10);
    let legs = p.open_legs();
    assert_eq!(legs.len(), 1);
    assert_eq!(legs[0].quantity, UNIT);
    assert_eq!(legs[0].entry_price, 110);
}

#[test]
fn reduce_ending_on_a_leg_boundary_removes_that_leg() {
    let mut p = position();
    p.reconcile(&fill("AAA", 2 * UNIT, 100, 0)).unwrap();
    p.reconcile(&fill("AAA", 3 * UNIT, 110, 0)).unwrap();
    let pnl = p.reconcile(&fill("AAA", -2 * UNIT, 90, 0)).unwrap();
    assert_eq!(pnl, (2 * UNIT as i128) * -10);
    let legs = p.open_legs();
    assert_eq!(legs.len(), 1);
    assert_eq!(legs[0].quantity, 3 * UNIT);
}

#[test]
fn reduction_landing_on_zero_closes_rather_than_reverses() {
    let mut p = position();
    p.reconcile(&fill("AAA", -2 * UNIT, 100, 0)).unwrap();
    p.reconcile(&fill("AAA", -3 * UNIT, 110, 0)).unwrap();
    let pnl = p.reconcile(&fill("AAA", 5 * UNIT, 105, 0)).unwrap();
    assert_eq!(pnl, (-2 * UNIT as i128) * 5 + (-3 * UNIT as i128) * -5);
    assert!(p.open_legs().is_empty());
    assert_eq!(p.net_quantity(), 0);
}

#[test]
fn smallest_step_off_zero_reverses() {
    let mut p = position();
    p.reconcile(&fill("AAA", 2 * UNIT, 100, 0)).unwrap();
    p.reconcile(&fill("AAA", -2 * UNIT - 1, 100, 0)).unwrap();
    assert_eq!(p.net_quantity(), -1);
    assert_eq!(p.open_legs().len(), 1);
}

#[test]
fn same_side_fill_accumulates_a_leg() {
    let mut p = position();
    assert_eq!(p.reconcile(&fill("AAA", UNIT, 100, 0)), Ok(0));
    assert_eq!(p.reconcile(&fill("AAA", UNIT, 101, 2)), Ok(-2));
    assert_eq!(p.open_legs().len(), 2);
    assert_eq!(p.net_quantity(), 2 * UNIT);
}

#[test]
fn fill_for_another_instrument_is_refused() {
    let mut p = position();
    p.reconcile(&fill("AAA", UNIT, 100, 0)).unwrap();
    assert_eq!(p.reconcile(&fill("BBB", UNIT, 100, 0)), Err(AccountingError::InstrumentMismatch));
    assert_eq!(p.net_quantity(), UNIT);
}

#[test]
fn average_entry_price_is_weighted_mean() {
    let mut p = position();
    assert_eq!(p.average_entry_price(), None);
    p.reconcile(&fill("AAA", 2 * UNIT, 100, 0)).unwrap();
    p.reconcile(&fill("AAA", 3 * UNIT, 110, 0)).unwrap();
    assert_eq!(p.average_entry_price(), Some(106));
    let mut q = position();
    q.reconcile(&fill("AAA", -UNIT, 100, 0)).unwrap();
    q.reconcile(&fill("AAA", -2 * UNIT, 101, 0)).unwrap();
    assert_eq!(q.average_entry_price(), Some(100));
}
