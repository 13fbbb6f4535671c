use alfa_core::{
    same_side, AccountingError, BestPrices, Commission, FifoPosition, FillLevel, InstrumentId,
    InstrumentSpec, MakerTaker, NonZeroQuantity, Order, Percent, PositionPrices, SimulatorFill,
    TopOfBookFillModel, MAX_PRICE,
};

const UNIT: i64 = 1_000_000;

fn id(symbol: &str) -> InstrumentId {
    InstrumentId::new("XNAS".to_string(), symbol.to_string())
}

fn spec(multiplier: i64, commission: Commission) -> InstrumentSpec {
    InstrumentSpec::new(id("AAA"), multiplier, commission).unwrap()
}

fn market(symbol: &str, quantity: i64) -> Order {
    Order::Market { instrument_id: id(symbol), quantity }
}

#[test]
fn commission_is_zero_for_zero_quantity() {
    let prices = BestPrices { ask: 101, bid: 100 };
    let commissions = [
        Commission::Fixed(50),
        Commission::FixedPerUnit(7),
        Commission::FixedMakerTaker { maker: Percent::new(1), taker: Percent::new(2) },
    ];
    for c in commissions.iter() {
        let fee = spec(10, *c).commission(0, prices);
        assert_eq!((fee.maker, fee.taker), (0, 0));
    }
}

#[test]
fn fixed_commission_ignores_size() {
    let fee = spec(1, Commission::Fixed(50)).commission(-3 * UNIT, BestPrices::from_single(10));
    assert_eq!((fee.maker, fee.taker), (50, 50));
}

#[test]
fn per_unit_commission_scales_with_size() {
    let fee = spec(1, Commission::FixedPerUnit(7)).commission(-3 * UNIT, BestPrices::from_single(10));
    assert_eq!((fee.maker, fee.taker), (21, 21));
    let half = spec(1, Commission::FixedPerUnit(7)).commission(UNIT / 2, BestPrices::from_single(10));
    assert_eq!(half.taker, 3);
}

#[test]
fn maker_taker_commission_is_share_of_bid_notional() {
    let c = Commission::FixedMakerTaker { maker: Percent { multiplier: 1_000 }, taker: Percent::new(2) };
    let fee = spec(10, c).commission(-4 * UNIT, BestPrices { ask: 101, bid: 100 });
    let notional: i128 = 4 * UNIT as i128 * 10 * 100;
    assert_eq!(fee.maker, notional / 1_000);
    assert_eq!(fee.taker, notional * 2 / 100);
}

#[test]
fn gross_and_net_pnl_are_linear() {
    let s = spec(5, Commission::Fixed(0));
    let prices = PositionPrices { entry: 100, exit: 103 };
    assert_eq!(s.gross_pnl(2 * UNIT, prices), 2 * UNIT as i128 * 5 * 3);
    assert_eq!(s.gross_pnl(-2 * UNIT, prices), -(2 * UNIT as i128) * 5 * 3);
    assert_eq!(s.net_pnl(2 * UNIT, prices, 11), 2 * UNIT as i128 * 15 - 11);
    assert_eq!(s.to_notional(3), 15);
    assert_eq!(s.to_notional_value(3, BestPrices { ask: 9, bid: 8 }), 120);
    assert_eq!(InstrumentSpec::to_settlement_value(15, BestPrices { ask: 9, bid: 8 }), 120);
}

#[test]
fn transactable_quantity_rounds_to_whole_units() {
    let s = spec(1, Commission::Fixed(0));
    assert_eq!(s.to_transactable(2 * UNIT + UNIT / 2), 3 * UNIT);
    assert_eq!(s.to_transactable(-2 * UNIT - UNIT / 2), -3 * UNIT);
    assert_eq!(s.to_transactable(2 * UNIT + UNIT / 2 - 1), 2 * UNIT);
    assert_eq!(s.to_transactable(UNIT / 3), 0);
    assert_eq!(s.to_transactable(0), 0);
}

#[test]
fn instrument_rejects_values_out_of_range() {
    assert!(InstrumentSpec::new(id("AAA"), 0, Commission::Fixed(0)).is_none());
    assert!(InstrumentSpec::new(id("AAA"), 1, Commission::FixedMakerTaker {
        maker: Percent { multiplier: 2_000_000 },
        taker: Percent::new(1),
    })
    .is_none());
    let s = InstrumentSpec::new(id("AAA"), 2, Commission::Fixed(1)).unwrap();
    assert_eq!(s.venue(), "XNAS");
    assert_eq!(s.symbol(), "AAA");
    assert_eq!(s.multiplier(), 2);
}

#[test]
fn small_values_behave() {
    assert!(NonZeroQuantity::new(0).is_none());
    assert_eq!(NonZeroQuantity::new(-4).unwrap().get(), -4);
    assert!(same_side(3, 9));
    assert!(!same_side(3, -9));
    assert!(!same_side(0, 2));
    assert!(same_side(0, 0));
    let pair = MakerTaker::from_single(4);
    assert_eq!(pair.map(|x| x * 2).taker, 8);
    assert_eq!(Percent::new(1).multiplier, 10_000);
    assert!(id("AAA").same(&id("AAA")));
    assert!(!id("AAA").same(&id("BBB")));
}

#[test]
fn market_buy_pays_ask_and_sell_gets_bid() {
    let mut model = TopOfBookFillModel::new(spec(1, Commission::FixedPerUnit(2)));
    assert_eq!(model.update(BestPrices { ask: 101, bid: 99 }), Ok(()));
    let buy = model.execute(&market("AAA", 3 * UNIT)).unwrap();
    assert_eq!(buy.price(), 101);
    assert_eq!(buy.quantity(), 3 * UNIT);
    assert_eq!(buy.fee(), 6);
    let sell = model.execute(&market("AAA", -UNIT)).unwrap();
    assert_eq!(sell.price(), 99);
    assert_eq!(sell.quantity(), -UNIT);
    assert_eq!(sell.instrument_id().symbol(), "AAA");
}

#[test]
fn zero_order_gives_empty_fill_even_before_a_quote() {
    let model = TopOfBookFillModel::new(spec(1, Commission::Fixed(5)));
    let f = model.execute(&market("AAA", 0)).unwrap();
    assert!(f.level.is_none());
    assert_eq!(f.quantity(), 0);
    assert_eq!(f.fee(), 0);
}

#[test]
fn execute_before_update_is_refused() {
    let model = TopOfBookFillModel::new(spec(1, Commission::Fixed(5)));
    assert_eq!(model.execute(&market("AAA", UNIT)).err(), Some(AccountingError::NotUpdated));
}

#[test]
fn execute_for_another_instrument_is_refused() {
    let mut model = TopOfBookFillModel::new(spec(1, Commission::Fixed(5)));
    model.update(BestPrices::from_single(10)).unwrap();
    assert_eq!(model.execute(&market("BBB", UNIT)).err(), Some(AccountingError::InstrumentMismatch));
}

#[test]
fn quote_out_of_range_is_refused() {
    let mut model = TopOfBookFillModel::new(spec(1, Commission::Fixed(5)));
    assert_eq!(model.update(BestPrices { ask: MAX_PRICE + 1, bid: 1 }), Err(AccountingError::PriceOutOfRange));
    assert_eq!(model.execute(&market("AAA", UNIT)).err(), Some(AccountingError::NotUpdated));
}

#[test]
fn unrealized_pnl_closes_at_the_far_side() {
    let instrument = spec(1, Commission::Fixed(3));
    let mut p = FifoPosition::new(instrument.clone());
    let mut model = TopOfBookFillModel::new(instrument);
    model.update(BestPrices { ask: 96, bid: 95 }).unwrap();
    assert_eq!(p.unrealized_pnl(&model), Ok(0));
    let f = SimulatorFill {
        instrument_id: id("AAA"),
        level: Some(FillLevel { price: 100, quantity: NonZeroQuantity::new(10 * UNIT).unwrap() }),
        fee: 0,
    };
    p.reconcile(&f).unwrap();
    assert_eq!(p.unrealized_pnl(&model), Ok(10 * UNIT as i128 * -5 - 3));
    let g = SimulatorFill {
        instrument_id: id("AAA"),
        level: Some(FillLevel { price: 90, quantity: NonZeroQuantity::new(-15 * UNIT).unwrap() }),
        fee: 0,
    };
    p.reconcile(&g).unwrap();
    assert_eq!(p.unrealized_pnl(&model), Ok(5 * UNIT as i128 * -6 - 3));
    assert_eq!(p.net_quantity(), -5 * UNIT);
}
