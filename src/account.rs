use vstd::prelude::*;

use crate::cash::{Cash, MAX_BALANCE};
use crate::error::AccountingError;
use crate::fill::SimulatorFill;
use crate::fill_model::TopOfBookFillModel;
use crate::instrument::InstrumentSpec;
use crate::lots::{fill_legs, PositionLeg};
use crate::position::FifoPosition;
use crate::trading_book::{
    book_realized, book_unrealized, lemma_flat_book_unrealized, some_fill_misplaced,
    StaticTradingBook, MAX_INSTRUMENTS,
};

verus! {

/// How an account starts: its name and opening balance.
#[derive(Clone, Debug)]
pub struct AccountConfig {
    name: String,
    initial_balance: Cash,
}

impl AccountConfig {
    pub closed spec fn spec_name(&self) -> Seq<char> {
        self.name@
    }

    pub closed spec fn spec_initial_balance(&self) -> int {
        self.initial_balance as int
    }

    pub fn new(name: String, initial_balance: Cash) -> (r: Self)
        ensures
            r.spec_name() == name@,
            r.spec_initial_balance() == initial_balance,
    {
        AccountConfig { name, initial_balance }
    }

    pub fn name(&self) -> (r: &str)
        ensures
            r@ == self.spec_name(),
    {
        self.name.as_str()
    }

    pub fn initial_balance(&self) -> (r: Cash)
        ensures
            r == self.spec_initial_balance(),
    {
        self.initial_balance
    }
}

/// A cash balance and one position per instrument of a fixed universe.
#[derive(Clone, Debug)]
pub struct StaticAccount {
    config: AccountConfig,
    balance: Cash,
    portfolio: StaticTradingBook,
}

impl StaticAccount {
    pub closed spec fn spec_config(&self) -> AccountConfig {
        self.config
    }

    pub closed spec fn spec_balance(&self) -> int {
        self.balance as int
    }

    pub closed spec fn book(&self) -> StaticTradingBook {
        self.portfolio
    }

    pub open spec fn wf(&self) -> bool {
        self.book().wf()
    }

    /// Balance plus unrealized profit, or the error that valuing the positions gives.
    pub open spec fn equity_spec(&self, fill_models: Seq<TopOfBookFillModel>) -> Result<Cash, AccountingError> {
        let positions = self.book().positions();
        if fill_models.len() != positions.len() {
            Err(AccountingError::LengthMismatch)
        } else {
            match book_unrealized(positions, fill_models, fill_models.len() as int) {
                Ok(v) => Ok((self.spec_balance() + v) as i128),
                Err(e) => Err(e),
            }
        }
    }

    /// An account with the configured balance and a flat position in each instrument.
    pub fn new(config: AccountConfig, universe: &[InstrumentSpec]) -> (r: Self)
        requires
            universe@.len() <= MAX_INSTRUMENTS,
            forall|i: int| 0 <= i < universe@.len() ==> (#[trigger] universe@[i]).wf(),
        ensures
            r.wf(),
            r.spec_config() == config,
            r.spec_balance() == config.spec_initial_balance(),
            r.book().positions().len() == universe@.len(),
            forall|i: int|
                0 <= i < universe@.len() ==> (#[trigger] r.book().positions()[i]).instrument()
                    == universe@[i] && r.book().positions()[i].legs() == Seq::<PositionLeg>::empty(),
    {
        let balance = config.initial_balance;
        StaticAccount { config, balance, portfolio: StaticTradingBook::new(universe) }
    }

    pub fn name(&self) -> (r: &str)
        ensures
            r@ == self.spec_config().spec_name(),
    {
        self.config.name()
    }

    pub fn initial_balance(&self) -> (r: Cash)
        ensures
            r == self.spec_config().spec_initial_balance(),
    {
        self.config.initial_balance()
    }

    pub fn balance(&self) -> (r: Cash)
        ensures
            r == self.spec_balance(),
    {
        self.balance
    }

    pub fn holdings(&self) -> (r: &[FifoPosition])
        ensures
            r@ == self.book().positions(),
    {
        self.portfolio.holdings()
    }

    /// The balance plus what closing every position now would realize. Nothing changes.
    pub fn equity(&self, fill_models: &[TopOfBookFillModel]) -> (r: Result<Cash, AccountingError>)
        requires
            self.wf(),
            -MAX_BALANCE <= self.spec_balance() <= MAX_BALANCE,
            forall|i: int| 0 <= i < fill_models@.len() ==> (#[trigger] fill_models@[i]).wf(),
        ensures
            r == self.equity_spec(fill_models@),
    {
        match self.portfolio.unrealized_pnl(fill_models) {
            Ok(pnl) => Ok(self.balance + pnl),
            Err(e) => Err(e),
        }
    }

    /// Books one fill per instrument and adds what they realize to the balance.
    /// On an error nothing changes.
    pub fn reconcile(&mut self, fills: &[SimulatorFill]) -> (r: Result<(), AccountingError>)
        requires
            old(self).wf(),
            old(self).book().accepts(fills@),
            -MAX_BALANCE <= old(self).spec_balance() <= MAX_BALANCE,
        ensures
            final(self).wf(),
            final(self).spec_config() == old(self).spec_config(),
            final(self).book().positions().len() == old(self).book().positions().len(),
            fills@.len() != old(self).book().positions().len() ==> r == Err::<(), AccountingError>(
                AccountingError::LengthMismatch,
            ),
            fills@.len() == old(self).book().positions().len() && some_fill_misplaced(
                old(self).book().positions(),
                fills@,
            ) ==> r == Err::<(), AccountingError>(AccountingError::InstrumentMismatch),
            r is Err ==> *final(self) == *old(self),
            fills@.len() == old(self).book().positions().len() && !some_fill_misplaced(
                old(self).book().positions(),
                fills@,
            ) ==> r is Ok,
            r is Ok ==> {
                &&& fills@.len() == old(self).book().positions().len()
                &&& !some_fill_misplaced(old(self).book().positions(), fills@)
                &&& final(self).spec_balance() == old(self).spec_balance() + book_realized(
                    old(self).book().positions(),
                    fills@,
                    fills@.len() as int,
                )
                &&& forall|i: int|
                    0 <= i < fills@.len() ==> (#[trigger] final(self).book().positions()[i]).instrument()
                        == old(self).book().positions()[i].instrument()
                        && final(self).book().positions()[i].legs() == fill_legs(
                        old(self).book().positions()[i].legs(),
                        fills@[i],
                    )
            },
    {
        match self.portfolio.reconcile(fills) {
            Ok(pnl) => {
                self.balance = self.balance + pnl;
                Ok(())
            },
            Err(e) => Err(e),
        }
    }
}

/// A freshly opened account is worth its opening balance, valued through any
/// fill models, one per instrument.
pub proof fn lemma_fresh_equity(account: StaticAccount, fill_models: Seq<TopOfBookFillModel>)
    requires
        account.spec_balance() == account.spec_config().spec_initial_balance(),
        forall|i: int|
            0 <= i < account.book().positions().len() ==> (#[trigger] account.book().positions()[i]).legs()
                == Seq::<PositionLeg>::empty(),
        fill_models.len() == account.book().positions().len(),
        -MAX_BALANCE <= account.spec_balance() <= MAX_BALANCE,
    ensures
        account.equity_spec(fill_models) == Ok::<Cash, AccountingError>(
            account.spec_config().spec_initial_balance() as i128,
        ),
{
    let ps = account.book().positions();
    lemma_flat_book_unrealized(ps, fill_models, ps.len() as int);
}

} // verus!
