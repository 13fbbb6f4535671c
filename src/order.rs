use vstd::prelude::*;

use crate::instrument::InstrumentId;
use crate::size::Quantity;

verus! {

/// A request to trade; a zero quantity asks for nothing.
#[derive(Clone, Debug)]
pub enum Order {
    Market { instrument_id: InstrumentId, quantity: Quantity },
}

} // verus!
