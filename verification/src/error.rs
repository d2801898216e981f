//! Error types.

use vstd::prelude::*;
use vstd::string::StringExecFns;

verus! {

/// A filter error which can occur when parsing or applying a filter.
#[derive(Debug, Clone)]
pub enum FilterError {
    /// The filter operand's kind does not match the kind of the value it is
    /// compared against.
    InvalidFilterValueType,
    /// The two values cannot be compared at all.
    ValuesCannotBeCompared,
    /// The query text could not be parsed; carries a human-readable diagnostic.
    Parse(String),
}

impl FilterError {
    /// The human-readable description of the error.
    pub open spec fn message_spec(&self) -> Seq<char> {
        match self {
            FilterError::InvalidFilterValueType => {
                "The filter operation is invalid due to having an invalid value type"@
            },
            FilterError::ValuesCannotBeCompared => "The values cannot be compared"@,
            FilterError::Parse(e) => "Parsing failed: "@ + e@,
        }
    }

    /// Renders the error as a human-readable message.
    pub fn message(&self) -> (r: String)
        ensures
            r@ == self.message_spec(),
    {
        match self {
            FilterError::InvalidFilterValueType => {
                String::from_str(
                    "The filter operation is invalid due to having an invalid value type",
                )
            },
            FilterError::ValuesCannotBeCompared => {
                String::from_str("The values cannot be compared")
            },
            FilterError::Parse(e) => String::from_str("Parsing failed: ").concat(e.as_str()),
        }
    }
}

/// An error which can occur within the crate.
#[derive(Debug, Clone)]
pub enum Error {
    /// A value parse error.
    ValueParse(String),
    /// A filter error.
    Filter(FilterError),
    /// Any other error, wrapped opaquely as text for display purposes only.
    Other(String),
}

impl Error {
    /// The human-readable description of the error.
    pub open spec fn message_spec(&self) -> Seq<char> {
        match self {
            Error::ValueParse(e) => "Value parse: "@ + e@,
            Error::Filter(e) => "Filter: "@ + e.message_spec(),
            Error::Other(e) => "Other: "@ + e@,
        }
    }

    /// Renders the error as a human-readable message.
    pub fn message(&self) -> (r: String)
        ensures
            r@ == self.message_spec(),
    {
        match self {
            Error::ValueParse(e) => String::from_str("Value parse: ").concat(e.as_str()),
            Error::Filter(e) => String::from_str("Filter: ").concat(e.message().as_str()),
            Error::Other(e) => String::from_str("Other: ").concat(e.as_str()),
        }
    }
}

impl From<FilterError> for Error {
    fn from(e: FilterError) -> (r: Error) {
        Error::Filter(e)
    }
}

impl vstd::std_specs::convert::FromSpecImpl<FilterError> for Error {
    open spec fn obeys_from_spec() -> bool {
        true
    }

    open spec fn from_spec(e: FilterError) -> Error {
        Error::Filter(e)
    }
}

} // verus!
