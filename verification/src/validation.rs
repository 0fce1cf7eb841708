//! Input validation: the error type and the trait that validatable inputs
//! implement.

use vstd::prelude::*;

verus! {

/// Why an input was rejected before a request was created.
#[derive(Clone, Copy, Debug, PartialEq, Eq, Structural)]
pub enum ValidationError {
    /// The input is not in the expected textual format.
    InvalidFormat,
    /// The input decodes, but to a value of an unexpected length.
    InvalidLength,
}

} // verus!
