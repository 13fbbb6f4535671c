use alfa_core::{
    AccountConfig, AccountingError, BestPrices, Commission, FillLevel, InstrumentId,
    InstrumentSpec, NonZeroQuantity, SimulatorFill, StaticAccount, StaticTradingBook,
    TopOfBookFillModel,
};

const UNIT: i64 = 1_000_000;

fn id(symbol: &str) -> InstrumentId {
    InstrumentId::new("XNAS".to_string(), symbol.to_string())
}

fn universe() -> Vec<InstrumentSpec> {
    vec![
        InstrumentSpec::new(id("AAA"), 1, Commission::Fixed(1)).unwrap(),
        InstrumentSpec::new(id("BBB"), 2, Commission::Fixed(2)).unwrap(),
    ]
}

fn fill(symbol: &str, quantity: i64, price: i64, fee: i128) -> SimulatorFill {
    SimulatorFill {
        instrument_id: id(symbol),
        level: NonZeroQuantity::new(quantity).map(|quantity| FillLevel { price, quantity }),
        fee,
    }
}

fn models(prices: &[(i64, i64)]) -> Vec<TopOfBookFillModel> {
    universe()
        .into_iter()
        .zip(prices.iter())
        .map(|(i, (ask, bid))| {
            let mut m = TopOfBookFillModel::new(i);
            m.update(BestPrices { ask: *ask, bid: *bid }).unwrap();
            m
        })
        .collect()
}

#[test]
fn fresh_account_equity_is_initial_balance() {
    let account = StaticAccount::new(AccountConfig::new("main".to_string(), 1_000_000), &universe());
    assert_eq!(account.name(), "main");
    assert_eq!(account.initial_balance(), 1_000_000);
    assert_eq!(account.equity(&models(&[(11, 10), (21, 20)])), Ok(1_000_000));
    let unquoted: Vec<TopOfBookFillModel> = universe().into_iter().map(TopOfBookFillModel::new).collect();
    assert_eq!(account.equity(&unquoted), Ok(1_000_000));
}

#[test]
fn book_refuses_fills_of_the_wrong_length() {
    let mut book = StaticTradingBook::new(&universe());
    assert_eq!(book.reconcile(&[fill("AAA", UNIT, 10, 0)]), Err(AccountingError::LengthMismatch));
    let three = [fill("AAA", UNIT, 10, 0), fill("BBB", UNIT, 10, 0), fill("BBB", UNIT, 10, 0)];
    assert_eq!(book.reconcile(&three), Err(AccountingError::LengthMismatch));
    assert!(book.holdings().iter().all(|p| p.net_quantity() == 0));
    assert_eq!(book.unrealized_pnl(&models(&[(11, 10)])), Err(AccountingError::LengthMismatch));
}

#[test]
fn book_refuses_misplaced_fills_without_changing() {
    let mut book = StaticTradingBook::new(&universe());
    let swapped = [fill("BBB", UNIT, 10, 0), fill("AAA", UNIT, 10, 0)];
    assert_eq!(book.reconcile(&swapped), Err(AccountingError::InstrumentMismatch));
    assert!(book.holdings().iter().all(|p| p.net_quantity() == 0));
}

#[test]
fn book_sums_realized_profit() {
    let mut book = StaticTradingBook::new(&universe());
    assert_eq!(book.reconcile(&[fill("AAA", UNIT, 10, 1), fill("BBB", -UNIT, 20, 2)]), Ok(-3));
    let pnl = book.reconcile(&[fill("AAA", -UNIT, 12, 1), fill("BBB", 0, 0, 2)]).unwrap();
    assert_eq!(pnl, UNIT as i128 * 2 - 1 - 2);
    assert_eq!(book.holdings()[1].net_quantity(), -UNIT);
}

#[test]
fn account_balance_and_equity_follow_fills() {
    let mut account = StaticAccount::new(AccountConfig::new("main".to_string(), 500), &universe());
    account.reconcile(&[fill("AAA", 2 * UNIT, 10, 1), fill("BBB", 0, 0, 0)]).unwrap();
    assert_eq!(account.balance(), 499);
    account.reconcile(&[fill("AAA", -UNIT, 13, 1), fill("BBB", UNIT, 20, 2)]).unwrap();
    assert_eq!(account.balance(), 499 + UNIT as i128 * 3 - 1 - 2);
    let equity = account.equity(&models(&[(15, 14), (23, 22)])).unwrap();
    let unrealized = (UNIT as i128 * (14 - 10) - 1) + (UNIT as i128 * 2 * (22 - 20) - 2);
    assert_eq!(equity, account.balance() + unrealized);
    assert_eq!(account.holdings()[0].net_quantity(), UNIT);
}

#[test]
fn account_refuses_short_fill_list() {
    let mut account = StaticAccount::new(AccountConfig::new("main".to_string(), 500), &universe());
    assert_eq!(account.reconcile(&[fill("AAA", UNIT, 10, 1)]), Err(AccountingError::LengthMismatch));
    assert_eq!(account.balance(), 500);
}

#[test]
fn equity_reports_unquoted_model() {
    let mut account = StaticAccount::new(AccountConfig::new("main".to_string(), 0), &universe());
    account.reconcile(&[fill("AAA", UNIT, 10, 0), fill("BBB", 0, 0, 0)]).unwrap();
    let unquoted: Vec<TopOfBookFillModel> = universe().into_iter().map(TopOfBookFillModel::new).collect();
    assert_eq!(account.equity(&unquoted), Err(AccountingError::NotUpdated));
}
