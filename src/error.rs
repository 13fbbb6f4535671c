use vstd::prelude::*;

verus! {

/// Why an operation refused its arguments. Nothing is changed when one is returned.
#[derive(Clone, Copy, Debug, PartialEq, Eq, Structural)]
pub enum AccountingError {
    /// A fill, order or fill model belongs to another instrument.
    InstrumentMismatch,
    /// A fill model was asked to price a trade before any quote reached it.
    NotUpdated,
    /// A quote holds a price beyond the range this library handles.
    PriceOutOfRange,
    /// A sequence of fills or fill models does not match the universe in length.
    LengthMismatch,
}

} // verus!
