//! The operations a curve-point representation must offer.
//!
//! The contracts are stated over the point's mathematical model, so any
//! representation that exposes one can implement them.

use vstd::prelude::*;
use num_bigint::BigInt;

use crate::bigint::big_value;
use crate::errors::FieldErrors;
use crate::numeric::is_prime;
use crate::point::{point_identity, spec_double_and_add, spec_point_add, spec_point_double, PointModel};

verus! {

pub trait PointOperations: Sized {
    /// The mathematical model of this point.
    spec fn model(&self) -> PointModel;

    /// The representation invariant of this point.
    spec fn well_formed(&self) -> bool;

    /// Scalar multiplication by a nonnegative integer, by binary
    /// double-and-add from the least significant bit.
    fn multiply(&self, n: BigInt) -> (r: Self)
        requires
            self.well_formed(),
            is_prime(self.model().p),
            big_value(n) >= 0,
        ensures
            r.well_formed(),
            r.model() == spec_double_and_add(
                point_identity(self.model()),
                self.model(),
                big_value(n),
            ),
            r.model().p == self.model().p,
            r.model().a == self.model().a,
            r.model().b == self.model().b,
    ;

    /// The tangent-line doubling of the group law.
    fn double(&self) -> (r: Self)
        requires
            self.well_formed(),
            is_prime(self.model().p),
        ensures
            r.well_formed(),
            r.model() == spec_point_double(self.model()),
    ;

    /// The chord addition of the group law.  Fails exactly when the two
    /// points live over different primes or different curves.
    fn add(&self, other: Self) -> (r: Result<Self, FieldErrors>)
        requires
            self.well_formed(),
            other.well_formed(),
            is_prime(self.model().p),
        ensures
            r is Ok <==> self.model().p == other.model().p && self.model().a == other.model().a
                && self.model().b == other.model().b,
            r matches Ok(v) ==> v.well_formed() && v.model() == spec_point_add(
                self.model(),
                other.model(),
            ),
            r matches Err(e) ==> e is Mismatch,
    ;
}

} // verus!
