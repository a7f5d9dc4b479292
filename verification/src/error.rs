//! The ways a return computation can fail.

use vstd::prelude::*;

verus! {

/// Why no return could be computed. Every kind ends the computation.
#[derive(Clone, Copy, PartialEq, Eq, Structural, Debug)]
pub enum ReturnError {
    /// The timeframe label is not one of the recognized ones.
    InvalidTimeframe,
    /// The customer has no holdings on record.
    CustomerNotFound,
    /// A ticker has no priced day at or before the start of the window.
    NoPriorTradingDay,
    /// A ticker has no price on the last day of the window.
    MissingEndPrice,
    /// A price series holds no price for the date asked for.
    PriceNotFound,
    /// An exact figure does not fit the machine representation.
    Overflow,
}

impl ReturnError {
    /// What to tell the user about the error.
    pub open spec fn spec_message(&self) -> Seq<char> {
        match self {
            ReturnError::InvalidTimeframe => "Invalid timeframe"@,
            ReturnError::CustomerNotFound => "Customer not found"@,
            ReturnError::NoPriorTradingDay => "Requested period not found for ticker"@,
            ReturnError::MissingEndPrice => "End price not found for ticker"@,
            ReturnError::PriceNotFound => "Price not found for ticker"@,
            ReturnError::Overflow => "Amount out of range"@,
        }
    }

    /// What to tell the user about the error.
    pub fn message(&self) -> (text: String)
        ensures
            text@ == self.spec_message(),
    {
        match self {
            ReturnError::InvalidTimeframe => "Invalid timeframe".to_owned(),
            ReturnError::CustomerNotFound => "Customer not found".to_owned(),
            ReturnError::NoPriorTradingDay => "Requested period not found for ticker".to_owned(),
            ReturnError::MissingEndPrice => "End price not found for ticker".to_owned(),
            ReturnError::PriceNotFound => "Price not found for ticker".to_owned(),
            ReturnError::Overflow => "Amount out of range".to_owned(),
        }
    }
}

} // verus!
