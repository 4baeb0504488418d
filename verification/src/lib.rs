//! Prime-field and elliptic-curve arithmetic.
//!
//! A `FieldElement` is a residue in Z/pZ for a prime modulus `p`, with the
//! ring and field operations stated and proved over their mathematical
//! models.  `PointAffine` and `PointProjective` build short Weierstrass
//! curve-point operations (addition, doubling, scalar multiplication,
//! normalization) on top of the field layer.

pub mod bigint;
pub mod errors;
pub mod field;
pub mod field_traits;
pub mod numeric;
pub mod point;
pub mod point_traits;
pub mod polynomial;
