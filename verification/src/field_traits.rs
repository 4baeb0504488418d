//! The capability interface of a field-element representation.
//!
//! The point layer consumes field elements only through this interface, so
//! an alternative representation (for instance a fixed-width modulus for
//! one named curve) could be substituted without touching the point logic.

use vstd::prelude::*;
use num_bigint::BigInt;

use crate::bigint::big_value;
use crate::errors::FieldErrors;
use crate::field::FieldElement;
use crate::numeric::{is_inverse, is_prime};

verus! {

/// What a field-element representation must offer: access to the residue
/// and modulus it stands for, and a modular inverse with exact semantics.
pub trait FieldElementTraits: Sized {
    /// The residue this value represents.
    spec fn number_model(&self) -> int;

    /// The modulus this value represents.
    spec fn prime_model(&self) -> int;

    fn get_number(&self) -> (r: &BigInt)
        ensures
            big_value(*r) == self.number_model(),
    ;

    fn get_prime(&self) -> (r: &BigInt)
        ensures
            big_value(*r) == self.prime_model(),
    ;

    /// Multiplicative inverse modulo the prime.  The zero residue has no
    /// inverse and is rejected with `InvalidParams`.
    fn modinv(&self) -> (r: Result<FieldElement, FieldErrors>)
        requires
            is_prime(self.prime_model()),
            0 <= self.number_model() < self.prime_model(),
        ensures
            r is Ok <==> self.number_model() != 0,
            r matches Ok(f) ==> f@.p == self.prime_model() && is_inverse(
                f@.n,
                self.number_model(),
                self.prime_model(),
            ) && f.wf(),
            r matches Err(e) ==> e is InvalidParams,
    ;
}

} // verus!
