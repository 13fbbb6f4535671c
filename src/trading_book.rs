use vstd::prelude::*;

use crate::cash::Cash;
use crate::error::AccountingError;
use crate::fill::SimulatorFill;
use crate::fill_model::TopOfBookFillModel;
use crate::instrument::InstrumentSpec;
use crate::lots::{fill_legs, fill_pnl, PositionLeg};
use crate::position::{max_step_pnl, FifoPosition};

verus! {

/// The most instruments a book may hold.
pub const MAX_INSTRUMENTS: usize = 1_000_000;

/// What the first `n` fills realize on the first `n` positions, summed.
pub open spec fn book_realized(ps: Seq<FifoPosition>, fills: Seq<SimulatorFill>, n: int) -> int
    decreases n,
{
    if n <= 0 {
        0
    } else {
        book_realized(ps, fills, n - 1) + fill_pnl(
            ps[n - 1].instrument().spec_multiplier(),
            ps[n - 1].legs(),
            fills[n - 1],
        )
    }
}

/// The unrealized profit of the first `n` positions, summed, or the first error.
pub open spec fn book_unrealized(
    ps: Seq<FifoPosition>,
    models: Seq<TopOfBookFillModel>,
    n: int,
) -> Result<int, AccountingError>
    decreases n,
{
    if n <= 0 {
        Ok(0)
    } else {
        match book_unrealized(ps, models, n - 1) {
            Err(e) => Err(e),
            Ok(sum) => match ps[n - 1].unrealized_spec(&models[n - 1]) {
                Err(e) => Err(e),
                Ok(v) => Ok(sum + v),
            },
        }
    }
}

/// Whether some fill names another instrument than its position.
pub open spec fn some_fill_misplaced(ps: Seq<FifoPosition>, fills: Seq<SimulatorFill>) -> bool {
    exists|i: int| 0 <= i < ps.len() && #[trigger] fills[i].instrument_id@ != ps[i].instrument().id()
}

/// One position per instrument of a fixed universe, in the universe's order.
#[derive(Clone, Debug)]
pub struct StaticTradingBook {
    positions: Vec<FifoPosition>,
}

impl StaticTradingBook {
    pub closed spec fn positions(&self) -> Seq<FifoPosition> {
        self.positions@
    }

    pub open spec fn wf(&self) -> bool {
        &&& self.positions().len() <= MAX_INSTRUMENTS
        &&& forall|i: int| 0 <= i < self.positions().len() ==> (#[trigger] self.positions()[i]).wf()
    }

    /// Whether every fill is within the ranges its position handles.
    pub open spec fn accepts(&self, fills: Seq<SimulatorFill>) -> bool {
        forall|i: int|
            0 <= i < self.positions().len() && 0 <= i < fills.len() ==> (
            #[trigger] self.positions()[i]).accepts(fills[i])
    }

    /// A flat position for each instrument of `universe`.
    pub fn new(universe: &[InstrumentSpec]) -> (r: Self)
        requires
            universe@.len() <= MAX_INSTRUMENTS,
            forall|i: int| 0 <= i < universe@.len() ==> (#[trigger] universe@[i]).wf(),
        ensures
            r.wf(),
            r.positions().len() == universe@.len(),
            forall|i: int|
                0 <= i < universe@.len() ==> (#[trigger] r.positions()[i]).instrument() == universe@[i]
                    && r.positions()[i].legs() == Seq::<PositionLeg>::empty(),
    {
        let mut positions: Vec<FifoPosition> = Vec::new();
        let mut i: usize = 0;
        while i < universe.len()
            invariant
                i <= universe@.len(),
                universe@.len() <= MAX_INSTRUMENTS,
                forall|j: int| 0 <= j < universe@.len() ==> (#[trigger] universe@[j]).wf(),
                positions@.len() == i,
                forall|j: int|
                    0 <= j < i ==> (#[trigger] positions@[j]).wf() && positions@[j].instrument()
                        == universe@[j] && positions@[j].legs() == Seq::<PositionLeg>::empty(),
            decreases universe@.len() - i,
        {
            positions.push(FifoPosition::new(universe[i].duplicate()));
            i += 1;
        }
        StaticTradingBook { positions }
    }

    /// Books one fill on each position, in order, and returns what they realize together.
    /// A fill sequence of another length, or a fill for another instrument, changes nothing.
    pub fn reconcile(&mut self, fills: &[SimulatorFill]) -> (r: Result<Cash, AccountingError>)
        requires
            old(self).wf(),
            old(self).accepts(fills@),
        ensures
            final(self).wf(),
            final(self).positions().len() == old(self).positions().len(),
            fills@.len() != old(self).positions().len() ==> r == Err::<Cash, AccountingError>(
                AccountingError::LengthMismatch,
            ),
            fills@.len() == old(self).positions().len() && some_fill_misplaced(old(self).positions(), fills@)
                ==> r == Err::<Cash, AccountingError>(AccountingError::InstrumentMismatch),
            r is Err ==> *final(self) == *old(self),
            fills@.len() == old(self).positions().len() && !some_fill_misplaced(old(self).positions(), fills@)
                ==> r is Ok,
            r is Ok ==> {
                &&& fills@.len() == old(self).positions().len()
                &&& !some_fill_misplaced(old(self).positions(), fills@)
                &&& r == Ok::<Cash, AccountingError>(
                    book_realized(old(self).positions(), fills@, fills@.len() as int) as i128,
                )
                &&& -(MAX_INSTRUMENTS * max_step_pnl()) <= book_realized(old(self).positions(), fills@, fills@.len() as int)
                    <= MAX_INSTRUMENTS * max_step_pnl()
                &&& forall|i: int|
                    0 <= i < fills@.len() ==> (#[trigger] final(self).positions()[i]).instrument()
                        == old(self).positions()[i].instrument() && final(self).positions()[i].legs()
                        == fill_legs(old(self).positions()[i].legs(), fills@[i])
            },
    {
        if fills.len() != self.positions.len() {
            return Err(AccountingError::LengthMismatch);
        }
        let n = fills.len();
        let mut i: usize = 0;
        while i < n
            invariant
                n == fills@.len(),
                n == self.positions@.len(),
                i <= n,
                self.positions@ == old(self).positions(),
                old(self).wf(),
                forall|j: int| 0 <= j < i ==> (#[trigger] fills@[j]).instrument_id@ == self.positions@[j].instrument().id(),
            decreases n - i,
        {
            if !fills[i].instrument_id().same(self.positions[i].underlying().unique_id()) {
                return Err(AccountingError::InstrumentMismatch);
            }
            i += 1;
        }
        let ghost olds = self.positions@;
        let mut total: Cash = 0;
        let mut i: usize = 0;
        while i < n
            invariant
                n == fills@.len(),
                n == olds.len(),
                n <= MAX_INSTRUMENTS,
                i <= n,
                olds == old(self).positions(),
                self.positions@.len() == n,
                old(self).accepts(fills@),
                forall|j: int| 0 <= j < n ==> (#[trigger] fills@[j]).instrument_id@ == olds[j].instrument().id(),
                forall|j: int| 0 <= j < n ==> (#[trigger] olds[j]).wf(),
                forall|j: int| 0 <= j < n ==> (#[trigger] self.positions@[j]).wf(),
                forall|j: int| i <= j < n ==> #[trigger] self.positions@[j] == olds[j],
                forall|j: int|
                    0 <= j < i ==> (#[trigger] self.positions@[j]).instrument() == olds[j].instrument()
                        && self.positions@[j].legs() == fill_legs(olds[j].legs(), fills@[j]),
                total == book_realized(olds, fills@, i as int),
                -(i * max_step_pnl()) <= total <= i * max_step_pnl(),
            decreases n - i,
        {
            assert(self.positions@[i as int] == olds[i as int]);
            assert(olds[i as int].accepts(fills@[i as int]));
            let r = self.positions[i].reconcile(&fills[i]);
            match r {
                Ok(v) => {
                    proof {
                        assert((i + 1) * max_step_pnl() == i * max_step_pnl() + max_step_pnl()) by (nonlinear_arith);
                        assert((i + 1) * max_step_pnl() <= MAX_INSTRUMENTS * max_step_pnl()) by (nonlinear_arith)
                            requires
                                i + 1 <= MAX_INSTRUMENTS,
                                max_step_pnl() >= 0,
                        ;
                    }
                    total = total + v;
                },
                Err(e) => {
                    return Err(e);
                },
            }
            i += 1;
        }
        proof {
            assert((n as int) * max_step_pnl() <= MAX_INSTRUMENTS * max_step_pnl()) by (nonlinear_arith)
                requires
                    n <= MAX_INSTRUMENTS,
                    max_step_pnl() >= 0,
            ;
        }
        Ok(total)
    }

    /// What closing every position through its fill model would realize now, summed.
    /// Fill models of another number than the positions give an error; nothing changes.
    pub fn unrealized_pnl(&self, fill_models: &[TopOfBookFillModel]) -> (r: Result<Cash, AccountingError>)
        requires
            self.wf(),
            forall|i: int| 0 <= i < fill_models@.len() ==> (#[trigger] fill_models@[i]).wf(),
        ensures
            fill_models@.len() != self.positions().len() ==> r == Err::<Cash, AccountingError>(
                AccountingError::LengthMismatch,
            ),
            fill_models@.len() == self.positions().len() ==> match book_unrealized(
                self.positions(),
                fill_models@,
                fill_models@.len() as int,
            ) {
                Ok(v) => r == Ok::<Cash, AccountingError>(v as i128),
                Err(e) => r == Err::<Cash, AccountingError>(e),
            },
            r matches Ok(v) ==> -(MAX_INSTRUMENTS * max_step_pnl()) <= v <= MAX_INSTRUMENTS * max_step_pnl(),
            fill_models@.len() == self.positions().len() ==> (book_unrealized(self.positions(), fill_models@, fill_models@.len() as int) matches Ok(v)
                ==> -(MAX_INSTRUMENTS * max_step_pnl()) <= v <= MAX_INSTRUMENTS * max_step_pnl()),
    {
        if fill_models.len() != self.positions.len() {
            return Err(AccountingError::LengthMismatch);
        }
        let n = fill_models.len();
        let mut total: Cash = 0;
        let mut i: usize = 0;
        while i < n
            invariant
                n == fill_models@.len(),
                n == self.positions@.len(),
                n <= MAX_INSTRUMENTS,
                i <= n,
                self.wf(),
                forall|j: int| 0 <= j < n ==> (#[trigger] fill_models@[j]).wf(),
                book_unrealized(self.positions@, fill_models@, i as int) == Ok::<int, AccountingError>(total as int),
                -(i * max_step_pnl()) <= total <= i * max_step_pnl(),
            decreases n - i,
        {
            assert(self.positions@[i as int].wf());
            match self.positions[i].unrealized_pnl(&fill_models[i]) {
                Ok(v) => {
                    proof {
                        assert((i + 1) * max_step_pnl() == i * max_step_pnl() + max_step_pnl()) by (nonlinear_arith);
                        assert((i + 1) * max_step_pnl() <= MAX_INSTRUMENTS * max_step_pnl()) by (nonlinear_arith)
                            requires
                                i + 1 <= MAX_INSTRUMENTS,
                                max_step_pnl() >= 0,
                        ;
                    }
                    total = total + v;
                },
                Err(e) => {
                    proof {
                        lemma_unrealized_error_sticks(self.positions@, fill_models@, i as int + 1, n as int);
                    }
                    return Err(e);
                },
            }
            i += 1;
        }
        proof {
            assert((n as int) * max_step_pnl() <= MAX_INSTRUMENTS * max_step_pnl()) by (nonlinear_arith)
                requires
                    n <= MAX_INSTRUMENTS,
                    max_step_pnl() >= 0,
            ;
        }
        Ok(total)
    }

    pub fn holdings(&self) -> (r: &[FifoPosition])
        ensures
            r@ == self.positions(),
    {
        self.positions.as_slice()
    }
}

/// Once a position reports an error, the sum over a longer prefix reports it too.
proof fn lemma_unrealized_error_sticks(
    ps: Seq<FifoPosition>,
    models: Seq<TopOfBookFillModel>,
    i: int,
    n: int,
)
    requires
        0 <= i <= n,
        book_unrealized(ps, models, i) is Err,
    ensures
        book_unrealized(ps, models, n) == book_unrealized(ps, models, i),
    decreases n - i,
{
    if i < n {
        lemma_unrealized_error_sticks(ps, models, i + 1, n);
    }
}

/// A book whose positions are all flat has no unrealized profit, whatever the fill models.
pub proof fn lemma_flat_book_unrealized(ps: Seq<FifoPosition>, models: Seq<TopOfBookFillModel>, n: int)
    requires
        0 <= n <= ps.len(),
        forall|i: int| 0 <= i < ps.len() ==> (#[trigger] ps[i]).legs().len() == 0,
    ensures
        book_unrealized(ps, models, n) == Ok::<int, AccountingError>(0),
    decreases n,
{
    if n > 0 {
        lemma_flat_book_unrealized(ps, models, n - 1);
        assert(ps[n - 1].legs().len() == 0);
    }
}

} // verus!
