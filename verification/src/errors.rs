//! Error taxonomy of the field and curve layers.
//!
//! Every failure is reported to the immediate caller through one of these
//! variants; nothing is silently corrected.

use vstd::prelude::*;

verus! {

#[derive(Debug, Clone, PartialEq)]
pub enum FieldErrors {
    /// A field-element construction received a residue outside `[0, p)`,
    /// or an operation that needs a nonzero element received zero.
    InvalidParams(String),
    /// Reserved for curve-membership validation.
    PointNotOnCurve(String),
    /// A binary operation was attempted between operands defined over
    /// different primes or different curves.
    Mismatch(String),
}

} // verus!
