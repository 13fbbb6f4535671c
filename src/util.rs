use vstd::arithmetic::div_mod::{
    lemma_div_by_multiple, lemma_div_is_ordered,
    lemma_div_is_ordered_by_denominator, lemma_div_pos_is_pos,
};
use vstd::prelude::*;

verus! {

/// Parts per million in one whole (a multiplier of 1).
pub const PERCENT_SCALE: i64 = 1_000_000;

/// A rate held as a multiplier in parts per million: 1% is 10_000.
#[derive(Clone, Copy, Debug)]
pub struct Percent {
    pub multiplier: i64,
}

pub type NotionalPercent = Percent;

impl Percent {
    pub open spec fn wf(&self) -> bool {
        -PERCENT_SCALE <= self.multiplier <= PERCENT_SCALE
    }

    /// The rate of `pct` percent.
    pub fn new(pct: i64) -> (r: Self)
        requires
            -100 <= pct <= 100,
        ensures
            r.multiplier == pct * 10_000,
            r.wf(),
    {
        Percent { multiplier: pct * 10_000 }
    }
}

/// Division that rounds toward zero, as integer division does in Rust.
pub open spec fn scale_down(a: int, d: int) -> int {
    if a >= 0 {
        a / d
    } else {
        -((-a) / d)
    }
}

pub proof fn lemma_scale_down_bound(a: int, d: int, k: int)
    requires
        d > 0,
        k >= 0,
        -(k * d) <= a <= k * d,
    ensures
        -k <= scale_down(a, d) <= k,
{
    if a >= 0 {
        lemma_div_is_ordered(a, k * d, d);
        lemma_div_by_multiple(k, d);
        lemma_div_pos_is_pos(a, d);
    } else {
        lemma_div_is_ordered(-a, k * d, d);
        lemma_div_by_multiple(k, d);
        lemma_div_pos_is_pos(-a, d);
    }
}

/// `a / d`, rounded toward zero.
pub fn scale_down_exec(a: i128, d: i128) -> (r: i128)
    requires
        d > 0,
        a > i128::MIN,
    ensures
        r == scale_down(a as int, d as int),
{
    if a >= 0 {
        a / d
    } else {
        proof {
            lemma_div_pos_is_pos(-a as int, d as int);
            lemma_div_is_ordered_by_denominator(-a as int, 1, d as int);
            assert((-a as int) / 1 == -a);
        }
        -((-a) / d)
    }
}

} // verus!
