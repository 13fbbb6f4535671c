//! Lot-based position accounting: FIFO positions reconciled against fills,
//! aggregated into a trading book and an account ledger.
//!
//! All amounts are integers. A quantity counts millionths of a unit, a price
//! counts ticks, and a cash amount is quantity times multiplier times price,
//! so profit and loss are exact and a position is flat exactly when its net
//! quantity is zero.

mod account;
mod cash;
mod error;
mod fee;
mod fill;
mod fill_model;
mod instrument;
mod lots;
mod order;
mod position;
mod price;
mod size;
mod trading_book;
mod util;

pub use account::{lemma_fresh_equity, AccountConfig, StaticAccount};
pub use cash::{fee_in_range, Cash, MAX_BALANCE, MAX_FEE};
pub use error::AccountingError;
pub use fee::{Commission, MakerTaker, MAX_FEE_PER_UNIT};
pub use fill::{FillLevel, SimulatorFill};
pub use fill_model::{top_of_book_price, TopOfBookFillModel};
pub use instrument::{
    commission_due, gross, lemma_commission_zero, quantity_in_range, round_to_unit, InstrumentId,
    InstrumentSpec, MAX_MULTIPLIER,
};
pub use lots::{
    entries_in_range, fees_over, fill_legs, fill_pnl, legs_after, legs_wf, lemma_conservation,
    lemma_round_trip, lemma_step, lemma_step_conserves, lemma_zero_fill, mark, net, one_side,
    realized_over, reduce_legs, size, step_legs, step_pnl, traded, traded_gross, weighted_entry,
    PositionLeg,
};
pub use order::Order;
pub use position::{max_step_pnl, FifoPosition};
pub use price::{price_in_range, BestPrices, PositionPrices, Price, MAX_PRICE};
pub use size::{
    abs, same_side, same_side_spec, sign, NonZeroQuantity, NotionalQuantity, Quantity,
    MAX_QUANTITY, QUANTITY_SCALE,
};
pub use trading_book::{
    book_realized, book_unrealized, lemma_flat_book_unrealized, some_fill_misplaced,
    StaticTradingBook, MAX_INSTRUMENTS,
};
pub use util::{scale_down, NotionalPercent, Percent, PERCENT_SCALE};
