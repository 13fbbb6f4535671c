use vstd::prelude::*;

verus! {

/// A signed quantity in millionths of a unit: positive is long, negative short.
pub type Quantity = i64;

/// A quantity already scaled by an instrument's multiplier.
pub type NotionalQuantity = i128;

/// Millionths per whole unit.
pub const QUANTITY_SCALE: i64 = 1_000_000;

/// The largest magnitude a fill or a net position may reach.
pub const MAX_QUANTITY: i64 = 1_000_000_000_000_000;

pub open spec fn sign(x: int) -> int {
    if x > 0 {
        1
    } else if x < 0 {
        -1
    } else {
        0
    }
}

pub open spec fn abs(x: int) -> int {
    if x < 0 {
        -x
    } else {
        x
    }
}

/// Whether two quantities have the same sign (zero only matches zero).
pub open spec fn same_side_spec(lhs: int, rhs: int) -> bool {
    sign(lhs) == sign(rhs)
}

fn signum(x: Quantity) -> (r: i64)
    ensures
        r == sign(x as int),
{
    if x > 0 {
        1
    } else if x < 0 {
        -1
    } else {
        0
    }
}

pub fn same_side(lhs: Quantity, rhs: Quantity) -> (r: bool)
    ensures
        r == same_side_spec(lhs as int, rhs as int),
{
    signum(lhs) == signum(rhs)
}

/// A quantity that is never zero.
#[derive(Clone, Copy, Debug)]
pub struct NonZeroQuantity(Quantity);

impl View for NonZeroQuantity {
    type V = int;

    closed spec fn view(&self) -> int {
        self.0 as int
    }
}

impl NonZeroQuantity {
    #[verifier::type_invariant]
    spec fn nonzero(self) -> bool {
        self.0 != 0
    }

    pub fn new(quantity: Quantity) -> (r: Option<Self>)
        ensures
            quantity == 0 <==> r.is_none(),
            r matches Some(q) ==> q@ == quantity,
    {
        if quantity == 0 {
            None
        } else {
            Some(NonZeroQuantity(quantity))
        }
    }

    pub fn get(self) -> (r: Quantity)
        ensures
            r as int == self@,
            r != 0,
    {
        proof {
            use_type_invariant(&self);
        }
        self.0
    }

}

} // verus!
