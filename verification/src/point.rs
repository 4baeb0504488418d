//! Points on a short Weierstrass curve `y^2 = x^3 + a*x + b` over a prime
//! field.
//!
//! `PointAffine` carries its coordinates together with the curve
//! parameters; `PointProjective` adds a denominator coordinate `z` so that
//! `(x, y, z)` stands for the affine point `(x/z, y/z)`.  The group
//! operations follow the chord-and-tangent law.  The identity element
//! ("point at infinity") is represented by the coordinate pair `(0, 0)`;
//! on curves with `b = 0` that pair is also a genuine curve point, so
//! callers who rely on the identity must work over curves where it is not.
//! The degenerate slope geometries (adding a point to its inverse, and
//! doubling a point whose tangent is vertical) return the identity, as the
//! group law dictates, instead of dividing by zero.

use vstd::prelude::*;
use num_bigint::BigInt;

use crate::bigint::{
    big_clone, big_div, big_eq, big_from_u64, big_is_one, big_is_zero, big_rem, big_value,
};
use crate::errors::FieldErrors;
use crate::field::{
    f_add, f_div, f_inv, f_mul, f_sub, lemma_f_div_unique, lemma_f_inv_of, lemma_small_diff_mod,
    FieldElement, FieldModel,
};
use crate::field_traits::FieldElementTraits;
use crate::numeric::{is_inverse, is_prime, lemma_inverse_exists};
use crate::point_traits::PointOperations;

verus! {

/// Mathematical model of an affine point: coordinates, curve parameters
/// and the prime, all as residues of the prime.
pub ghost struct PointModel {
    pub x: int,
    pub y: int,
    pub a: int,
    pub b: int,
    pub p: int,
}

/// Mathematical model of a projective point.
pub ghost struct ProjectiveModel {
    pub x: int,
    pub y: int,
    pub z: int,
    pub a: int,
    pub b: int,
    pub p: int,
}

/// The identity element on the same curve as `q`.
pub open spec fn point_identity(q: PointModel) -> PointModel {
    PointModel { x: 0, y: 0, a: q.a, b: q.b, p: q.p }
}

/// The coordinates of `q` satisfy the curve equation
/// `y^2 = x^3 + a*x + b` in the field.
pub open spec fn spec_on_curve(q: PointModel) -> bool {
    f_mul(q.p, q.y, q.y) == f_add(
        q.p,
        f_add(q.p, f_mul(q.p, q.x, f_mul(q.p, q.x, q.x)), f_mul(q.p, q.a, q.x)),
        q.b,
    )
}

/// All components of the model are residues of its prime.
pub open spec fn point_model_wf(q: PointModel) -> bool {
    &&& 0 <= q.x < q.p
    &&& 0 <= q.y < q.p
    &&& 0 <= q.a < q.p
    &&& 0 <= q.b < q.p
}

/// The tangent-line doubling of the group law.  A point with a vertical
/// tangent (`2 * y = 0` in the field) doubles to the identity; the
/// identity itself falls under the same test.
pub open spec fn spec_point_double(q: PointModel) -> PointModel {
    let d = f_mul(q.p, 2, q.y);
    if d == 0 {
        point_identity(q)
    } else {
        let s = f_div(q.p, f_add(q.p, f_mul(q.p, 3, f_mul(q.p, q.x, q.x)), q.a), d);
        let xr = f_sub(q.p, f_mul(q.p, s, s), f_mul(q.p, 2, q.x));
        let yr = f_sub(q.p, f_mul(q.p, s, f_sub(q.p, q.x, xr)), q.y);
        PointModel { x: xr, y: yr, a: q.a, b: q.b, p: q.p }
    }
}

/// The chord addition of the group law: the identity absorbs, equal points
/// double, a point plus its inverse (equal `x`, different `y`) yields the
/// identity, and the remaining case takes the chord through the two
/// points.
pub open spec fn spec_point_add(q1: PointModel, q2: PointModel) -> PointModel {
    if q1.x == 0 && q1.y == 0 {
        q2
    } else if q2.x == 0 && q2.y == 0 {
        q1
    } else if q1.x == q2.x && q1.y == q2.y {
        spec_point_double(q1)
    } else if q1.x == q2.x {
        point_identity(q1)
    } else {
        let s = f_div(q1.p, f_sub(q1.p, q1.y, q2.y), f_sub(q1.p, q1.x, q2.x));
        let xr = f_sub(q1.p, f_sub(q1.p, f_mul(q1.p, s, s), q1.x), q2.x);
        let yr = f_sub(q1.p, f_mul(q1.p, s, f_sub(q1.p, q1.x, xr)), q1.y);
        PointModel { x: xr, y: yr, a: q1.a, b: q1.b, p: q1.p }
    }
}

/// Binary double-and-add, processing the scalar from its least significant
/// bit: the accumulator `r` absorbs `q` on set bits while `q` doubles at
/// every step.
pub open spec fn spec_double_and_add(r: PointModel, q: PointModel, k: int) -> PointModel
    decreases k,
{
    if k <= 0 {
        r
    } else {
        spec_double_and_add(
            if k % 2 == 1 {
                spec_point_add(r, q)
            } else {
                r
            },
            spec_point_double(q),
            k / 2,
        )
    }
}

/// `q` added to the identity `k` times over, by repeated chord addition.
pub open spec fn spec_repeated_add(q: PointModel, k: int) -> PointModel
    decreases k,
{
    if k <= 0 {
        point_identity(q)
    } else {
        spec_point_add(spec_repeated_add(q, k - 1), q)
    }
}

/// Field addition of two elements already known to share a prime.
fn fe_add(a: &FieldElement, b: &FieldElement) -> (r: FieldElement)
    requires
        a.wf(),
        b.wf(),
        a@.p == b@.p,
    ensures
        r.wf(),
        r@ == (FieldModel { n: f_add(a@.p, a@.n, b@.n), p: a@.p }),
{
    match a.add(b) {
        Ok(v) => v,
        Err(_) => {
            proof {
                assert(false);
            }
            a.clone()
        },
    }
}

/// Field subtraction of two elements already known to share a prime.
fn fe_sub(a: &FieldElement, b: &FieldElement) -> (r: FieldElement)
    requires
        a.wf(),
        b.wf(),
        a@.p == b@.p,
    ensures
        r.wf(),
        r@ == (FieldModel { n: f_sub(a@.p, a@.n, b@.n), p: a@.p }),
{
    match a.sub(b) {
        Ok(v) => v,
        Err(_) => {
            proof {
                assert(false);
            }
            a.clone()
        },
    }
}

/// Field multiplication of two elements already known to share a prime.
fn fe_mul(a: &FieldElement, b: &FieldElement) -> (r: FieldElement)
    requires
        a.wf(),
        b.wf(),
        a@.p == b@.p,
    ensures
        r.wf(),
        r@ == (FieldModel { n: f_mul(a@.p, a@.n, b@.n), p: a@.p }),
{
    match a.mul(b) {
        Ok(v) => v,
        Err(_) => {
            proof {
                assert(false);
            }
            a.clone()
        },
    }
}

/// Field division by an element already known to share a prime and to be
/// nonzero.
fn fe_div(a: &FieldElement, b: &FieldElement) -> (r: FieldElement)
    requires
        a.wf(),
        b.wf(),
        a@.p == b@.p,
        is_prime(a@.p),
        b@.n != 0,
    ensures
        r.wf(),
        r@ == (FieldModel { n: f_div(a@.p, a@.n, b@.n), p: a@.p }),
{
    match a.div(b) {
        Ok(v) => {
            proof {
                lemma_f_div_unique(a@.p, a@.n, b@.n, v@.n);
            }
            v
        },
        Err(_) => {
            proof {
                assert(false);
            }
            a.clone()
        },
    }
}

#[derive(Debug, PartialEq)]
pub struct PointAffine {
    x: FieldElement,
    y: FieldElement,
    a: FieldElement,
    b: FieldElement,
}

impl View for PointAffine {
    type V = PointModel;

    closed spec fn view(&self) -> PointModel {
        PointModel { x: self.x@.n, y: self.y@.n, a: self.a@.n, b: self.b@.n, p: self.x@.p }
    }
}

impl Clone for PointAffine {
    fn clone(&self) -> (r: Self)
        ensures
            r@ == self@,
            r.wf() == self.wf(),
    {
        PointAffine { x: self.x.clone(), y: self.y.clone(), a: self.a.clone(), b: self.b.clone() }
    }
}

impl PointAffine {
    /// The representation invariant: the coordinates and curve parameters
    /// are residues of one shared prime.
    pub closed spec fn wf(&self) -> bool {
        &&& self.x.wf()
        &&& self.y.wf()
        &&& self.a.wf()
        &&& self.b.wf()
        &&& self.y@.p == self.x@.p
        &&& self.a@.p == self.x@.p
        &&& self.b@.p == self.x@.p
    }

    /// A well-formed point has a well-formed model.
    pub proof fn lemma_wf_model(&self)
        requires
            self.wf(),
        ensures
            point_model_wf(self@),
    {
    }

    /// Plain constructor from coordinates and curve parameters sharing one
    /// prime; it does not check the curve equation.
    pub fn new(x: FieldElement, y: FieldElement, a: FieldElement, b: FieldElement) -> (r: Self)
        requires
            x.wf(),
            y.wf(),
            a.wf(),
            b.wf(),
            y@.p == x@.p,
            a@.p == x@.p,
            b@.p == x@.p,
        ensures
            r.wf(),
            r@ == (PointModel { x: x@.n, y: y@.n, a: a@.n, b: b@.n, p: x@.p }),
    {
        PointAffine { x, y, a, b }
    }

    pub fn get_x(&self) -> (r: &FieldElement)
        ensures
            r@.n == self@.x,
            r@.p == self@.p,
    {
        &self.x
    }

    pub fn get_y(&self) -> (r: &FieldElement)
        ensures
            r@.n == self@.y,
            self.wf() ==> r@.p == self@.p,
    {
        &self.y
    }

    /// Both coordinates, x first.
    pub fn get_values(&self) -> (r: (&FieldElement, &FieldElement))
        ensures
            r.0@.n == self@.x,
            r.1@.n == self@.y,
    {
        (&self.x, &self.y)
    }

    pub fn get_a(&self) -> (r: &FieldElement)
        ensures
            r@.n == self@.a,
            self.wf() ==> r@.p == self@.p,
    {
        &self.a
    }

    pub fn get_b(&self) -> (r: &FieldElement)
        ensures
            r@.n == self@.b,
            self.wf() ==> r@.p == self@.p,
    {
        &self.b
    }

    /// The prime of the field the coordinates live in.
    pub fn element_prime(&self) -> (r: BigInt)
        ensures
            big_value(r) == self@.p,
    {
        big_clone(self.x.get_prime())
    }

    /// Curve-membership validation: checks that the coordinates satisfy
    /// the curve equation `y^2 = x^3 + a*x + b` in the field, and reports
    /// `PointNotOnCurve` otherwise.  No constructor runs it; callers
    /// invoke it at trust boundaries.
    pub fn check_in_curve(&self) -> (r: Result<(), FieldErrors>)
        requires
            self.wf(),
        ensures
            r is Ok <==> spec_on_curve(self@),
            r matches Err(e) ==> e is PointNotOnCurve,
    {
        let lhs = fe_mul(&self.y, &self.y);
        let xsq = fe_mul(&self.x, &self.x);
        let xcu = fe_mul(&self.x, &xsq);
        let ax = fe_mul(&self.a, &self.x);
        let rhs = fe_add(&fe_add(&xcu, &ax), &self.b);
        if big_eq(lhs.get_number(), rhs.get_number()) {
            Ok(())
        } else {
            Err(FieldErrors::PointNotOnCurve("Point is not on the curve".to_string()))
        }
    }

    /// The projective representative of this point with denominator `z`:
    /// the coordinates are scaled by `z`, so that normalizing (dividing by
    /// `z`) reproduces them.  The curve parameters of the projective point
    /// are the ones passed in.
    pub fn to_projectivez(&self, z: FieldElement, a: FieldElement, b: FieldElement) -> (r:
        PointProjective)
        requires
            self.wf(),
            z.wf(),
            a.wf(),
            b.wf(),
            z@.p == self@.p,
            a@.p == self@.p,
            b@.p == self@.p,
        ensures
            r.wf(),
            r@ == (ProjectiveModel {
                x: f_mul(self@.p, self@.x, z@.n),
                y: f_mul(self@.p, self@.y, z@.n),
                z: z@.n,
                a: a@.n,
                b: b@.n,
                p: self@.p,
            }),
    {
        let x = fe_mul(&self.x, &z);
        let y = fe_mul(&self.y, &z);
        PointProjective { x, y, z, a, b }
    }

    /// The chord-and-tangent addition for two points already known to lie
    /// over the same curve.
    fn add_core(&self, other: &Self) -> (r: Self)
        requires
            self.wf(),
            other.wf(),
            is_prime(self@.p),
            other@.p == self@.p,
            other@.a == self@.a,
            other@.b == self@.b,
        ensures
            r.wf(),
            r@ == spec_point_add(self@, other@),
            r@.p == self@.p,
            r@.a == self@.a,
            r@.b == self@.b,
    {
        if big_is_zero(self.x.get_number()) && big_is_zero(self.y.get_number()) {
            other.clone()
        } else if big_is_zero(other.x.get_number()) && big_is_zero(other.y.get_number()) {
            self.clone()
        } else if big_eq(self.x.get_number(), other.x.get_number()) && big_eq(
            self.y.get_number(),
            other.y.get_number(),
        ) {
            self.double()
        } else if big_eq(self.x.get_number(), other.x.get_number()) {
            let prime = self.x.get_prime();
            let zx = FieldElement::zero(big_clone(prime));
            let zy = FieldElement::zero(big_clone(prime));
            PointAffine { x: zx, y: zy, a: self.a.clone(), b: self.b.clone() }
        } else {
            proof {
                lemma_small_diff_mod(self@.x, other@.x, self@.p);
            }
            let num = fe_sub(&self.y, &other.y);
            let den = fe_sub(&self.x, &other.x);
            let s = fe_div(&num, &den);
            let ssq = fe_mul(&s, &s);
            let t1 = fe_sub(&ssq, &self.x);
            let xr = fe_sub(&t1, &other.x);
            let xdiff = fe_sub(&self.x, &xr);
            let t2 = fe_mul(&s, &xdiff);
            let yr = fe_sub(&t2, &self.y);
            PointAffine { x: xr, y: yr, a: self.a.clone(), b: self.b.clone() }
        }
    }
}

impl PointOperations for PointAffine {
    open spec fn model(&self) -> PointModel {
        self@
    }

    open spec fn well_formed(&self) -> bool {
        self.wf()
    }

    fn add(&self, other: Self) -> (r: Result<Self, FieldErrors>) {
        if !big_eq(self.x.get_prime(), other.x.get_prime()) || !big_eq(
            self.a.get_number(),
            other.a.get_number(),
        ) || !big_eq(self.b.get_number(), other.b.get_number()) {
            return Err(FieldErrors::Mismatch("Different curves".to_string()));
        }
        Ok(self.add_core(&other))
    }

    fn double(&self) -> (r: Self) {
        let prime = self.x.get_prime();
        let two = FieldElement::from_u64_mod(2, prime);
        let three = FieldElement::from_u64_mod(3, prime);
        proof {
            vstd::arithmetic::div_mod::lemma_mul_mod_noop_left(2, self@.y, self@.p);
            vstd::arithmetic::div_mod::lemma_mul_mod_noop_left(2, self@.x, self@.p);
        }
        let d = fe_mul(&two, &self.y);
        if big_is_zero(d.get_number()) {
            let zx = FieldElement::zero(big_clone(prime));
            let zy = FieldElement::zero(big_clone(prime));
            PointAffine { x: zx, y: zy, a: self.a.clone(), b: self.b.clone() }
        } else {
            let xsq = fe_mul(&self.x, &self.x);
            let t3 = fe_mul(&three, &xsq);
            proof {
                vstd::arithmetic::div_mod::lemma_mul_mod_noop_left(
                    3,
                    f_mul(self@.p, self@.x, self@.x),
                    self@.p,
                );
            }
            let numer = fe_add(&t3, &self.a);
            let s = fe_div(&numer, &d);
            let ssq = fe_mul(&s, &s);
            let twox = fe_mul(&two, &self.x);
            let xr = fe_sub(&ssq, &twox);
            let xdiff = fe_sub(&self.x, &xr);
            let t2 = fe_mul(&s, &xdiff);
            let yr = fe_sub(&t2, &self.y);
            PointAffine { x: xr, y: yr, a: self.a.clone(), b: self.b.clone() }
        }
    }

    fn multiply(&self, n: BigInt) -> (r: Self) {
        let mut q = self.clone();
        let prime = self.element_prime();
        let zx = FieldElement::zero(big_clone(&prime));
        let zy = FieldElement::zero(big_clone(&prime));
        let mut acc = PointAffine { x: zx, y: zy, a: self.a.clone(), b: self.b.clone() };
        let mut n = n;
        let two = big_from_u64(2);
        let ghost k0 = big_value(n);
        while !big_is_zero(&n)
            invariant
                is_prime(self@.p),
                acc.wf(),
                q.wf(),
                acc@.p == self@.p,
                acc@.a == self@.a,
                acc@.b == self@.b,
                q@.p == self@.p,
                q@.a == self@.a,
                q@.b == self@.b,
                big_value(two) == 2,
                big_value(n) >= 0,
                k0 >= 0,
                spec_double_and_add(acc@, q@, big_value(n)) == spec_double_and_add(
                    point_identity(self@),
                    self@,
                    k0,
                ),
            decreases big_value(n),
        {
            let ghost kv = big_value(n);
            let coeff = big_rem(&n, &two);
            proof {
                vstd::arithmetic::div_mod::lemma_mod_bound(kv, 2);
                vstd::arithmetic::div_mod::lemma_div_pos_is_pos(kv, 2);
                if kv > 0 {
                    vstd::arithmetic::div_mod::lemma_div_decreases(kv, 2);
                }
            }
            if big_is_one(&coeff) {
                acc = acc.add_core(&q);
            }
            q = q.double();
            n = big_div(&n, &two);
        }
        acc
    }
}

#[derive(Debug, PartialEq)]
pub struct PointProjective {
    x: FieldElement,
    y: FieldElement,
    z: FieldElement,
    a: FieldElement,
    b: FieldElement,
}

impl View for PointProjective {
    type V = ProjectiveModel;

    closed spec fn view(&self) -> ProjectiveModel {
        ProjectiveModel {
            x: self.x@.n,
            y: self.y@.n,
            z: self.z@.n,
            a: self.a@.n,
            b: self.b@.n,
            p: self.x@.p,
        }
    }
}

impl Clone for PointProjective {
    fn clone(&self) -> (r: Self)
        ensures
            r@ == self@,
            r.wf() == self.wf(),
    {
        PointProjective {
            x: self.x.clone(),
            y: self.y.clone(),
            z: self.z.clone(),
            a: self.a.clone(),
            b: self.b.clone(),
        }
    }
}

impl PointProjective {
    /// The representation invariant: all components are residues of one
    /// shared prime.
    pub closed spec fn wf(&self) -> bool {
        &&& self.x.wf()
        &&& self.y.wf()
        &&& self.z.wf()
        &&& self.a.wf()
        &&& self.b.wf()
        &&& self.y@.p == self.x@.p
        &&& self.z@.p == self.x@.p
        &&& self.a@.p == self.x@.p
        &&& self.b@.p == self.x@.p
    }

    /// Plain constructor; it does not check the curve equation.
    pub fn new(
        x: FieldElement,
        y: FieldElement,
        z: FieldElement,
        a: FieldElement,
        b: FieldElement,
    ) -> (r: Self)
        requires
            x.wf(),
            y.wf(),
            z.wf(),
            a.wf(),
            b.wf(),
            y@.p == x@.p,
            z@.p == x@.p,
            a@.p == x@.p,
            b@.p == x@.p,
        ensures
            r.wf(),
            r@ == (ProjectiveModel { x: x@.n, y: y@.n, z: z@.n, a: a@.n, b: b@.n, p: x@.p }),
    {
        PointProjective { x, y, z, a, b }
    }

    pub fn get_x(&self) -> (r: &FieldElement)
        ensures
            r@.n == self@.x,
            r@.p == self@.p,
    {
        &self.x
    }

    pub fn get_y(&self) -> (r: &FieldElement)
        ensures
            r@.n == self@.y,
            self.wf() ==> r@.p == self@.p,
    {
        &self.y
    }

    pub fn get_z(&self) -> (r: &FieldElement)
        ensures
            r@.n == self@.z,
            self.wf() ==> r@.p == self@.p,
    {
        &self.z
    }

    pub fn get_a(&self) -> (r: &FieldElement)
        ensures
            r@.n == self@.a,
            self.wf() ==> r@.p == self@.p,
    {
        &self.a
    }

    pub fn get_b(&self) -> (r: &FieldElement)
        ensures
            r@.n == self@.b,
            self.wf() ==> r@.p == self@.p,
    {
        &self.b
    }

    /// Divide both coordinates by the denominator `z`, producing the
    /// canonical representative with `z = 1`.
    pub fn normalize_z(&self) -> (r: Self)
        requires
            self.wf(),
            is_prime(self@.p),
            self@.z != 0,
        ensures
            r.wf(),
            r@ == (ProjectiveModel {
                x: f_div(self@.p, self@.x, self@.z),
                y: f_div(self@.p, self@.y, self@.z),
                z: 1,
                a: self@.a,
                b: self@.b,
                p: self@.p,
            }),
    {
        let z_inv = match self.z.modinv() {
            Ok(v) => v,
            Err(_) => {
                proof {
                    assert(false);
                }
                self.z.clone()
            },
        };
        proof {
            lemma_f_inv_of(z_inv@.n, self@.z, self@.p);
        }
        let x = fe_mul(&self.x, &z_inv);
        let y = fe_mul(&self.y, &z_inv);
        let z = FieldElement::one(big_clone(self.x.get_prime()));
        PointProjective { x, y, z, a: self.a.clone(), b: self.b.clone() }
    }
}

/// A cancellation form of field division: dividing `x` by `y` and
/// multiplying by `y` again reproduces `x`.
pub proof fn lemma_f_div_cancel(p: int, x: int, y: int)
    requires
        is_prime(p),
        0 <= x < p,
        0 < y < p,
    ensures
        0 <= f_div(p, x, y) < p,
        f_mul(p, f_div(p, x, y), y) == x,
{
    lemma_inverse_exists(y, p);
    let i = f_inv(p, y);
    assert(is_inverse(i, y, p));
    vstd::arithmetic::div_mod::lemma_mod_bound(x * i, p);
    vstd::arithmetic::div_mod::lemma_mul_mod_noop_left(x * i, y, p);
    assert((x * i) * y == x * (i * y)) by (nonlinear_arith);
    vstd::arithmetic::div_mod::lemma_mul_mod_noop_right(x, i * y, p);
    vstd::arithmetic::div_mod::lemma_small_mod(x as nat, p as nat);
}

/// Identity absorption: adding the identity element on either side of the
/// chord addition leaves a point unchanged.
pub proof fn lemma_identity_absorption(q: PointModel)
    ensures
        spec_point_add(point_identity(q), q) == q,
        spec_point_add(q, point_identity(q)) == q,
{
}

/// Round trip through the projective form: the projective representative
/// of `(x, y)` with a nonzero denominator `z` has coordinates `x * z` and
/// `y * z`, and normalizing divides them by `z` again, which reproduces
/// `x` and `y`.
pub proof fn lemma_projective_round_trip(p: int, x: int, y: int, z: int)
    requires
        is_prime(p),
        0 <= x < p,
        0 <= y < p,
        0 < z < p,
    ensures
        f_div(p, f_mul(p, x, z), z) == x,
        f_div(p, f_mul(p, y, z), z) == y,
{
    vstd::arithmetic::div_mod::lemma_mod_bound(x * z, p);
    vstd::arithmetic::div_mod::lemma_mod_bound(y * z, p);
    lemma_f_div_unique(p, f_mul(p, x, z), z, x);
    lemma_f_div_unique(p, f_mul(p, y, z), z, y);
}

/// Doubling a point is the same as adding it to itself by the chord rule.
pub proof fn lemma_add_self_is_double(q: PointModel)
    requires
        q.p >= 2,
    ensures
        spec_point_add(q, q) == spec_point_double(q),
{
    if q.x == 0 && q.y == 0 {
        vstd::arithmetic::div_mod::lemma_small_mod(0, q.p as nat);
        assert(f_mul(q.p, 2, q.y) == 0);
    }
}

/// Doubling keeps the curve parameters and yields residues of the prime.
pub proof fn lemma_double_preserves_wf(q: PointModel)
    requires
        point_model_wf(q),
        q.p >= 2,
    ensures
        point_model_wf(spec_point_double(q)),
        spec_point_double(q).a == q.a,
        spec_point_double(q).b == q.b,
        spec_point_double(q).p == q.p,
{
    let p = q.p;
    let d = f_mul(p, 2, q.y);
    if d != 0 {
        let s = f_div(p, f_add(p, f_mul(p, 3, f_mul(p, q.x, q.x)), q.a), d);
        let xr = f_sub(p, f_mul(p, s, s), f_mul(p, 2, q.x));
        vstd::arithmetic::div_mod::lemma_mod_bound(f_mul(p, s, s) - f_mul(p, 2, q.x), p);
        vstd::arithmetic::div_mod::lemma_mod_bound(f_mul(p, s, f_sub(p, q.x, xr)) - q.y, p);
    }
}

/// The chord addition is commutative: the slope, and with it the whole
/// resulting point, does not depend on the order of the two points.
pub proof fn lemma_point_add_commutes(q1: PointModel, q2: PointModel)
    requires
        is_prime(q1.p),
        point_model_wf(q1),
        point_model_wf(q2),
        q2.p == q1.p,
        q2.a == q1.a,
        q2.b == q1.b,
    ensures
        spec_point_add(q1, q2) == spec_point_add(q2, q1),
{
    let p = q1.p;
    if q1.x == 0 && q1.y == 0 {
    } else if q2.x == 0 && q2.y == 0 {
    } else if q1.x == q2.x {
    } else {
        let x1 = q1.x;
        let y1 = q1.y;
        let x2 = q2.x;
        let y2 = q2.y;
        let u = f_sub(p, x1, x2);
        let u2 = f_sub(p, x2, x1);
        let v = f_sub(p, y1, y2);
        let v2 = f_sub(p, y2, y1);
        lemma_small_diff_mod(x1, x2, p);
        lemma_small_diff_mod(x2, x1, p);
        lemma_small_diff_mod(y1, y2, p);
        lemma_small_diff_mod(y2, y1, p);
        assert(u2 == p - u);
        assert(v == 0 ==> v2 == 0);
        assert(v != 0 ==> v2 == p - v);
        let s1 = f_div(p, v, u);
        let s2 = f_div(p, v2, u2);
        lemma_f_div_cancel(p, v, u);
        lemma_f_div_cancel(p, v2, u2);
        // Transport the characterization of s2 from denominator u2 to u.
        assert(s2 * u == p * s2 + (-(s2 * u2))) by (nonlinear_arith)
            requires
                u == p - u2,
        ;
        vstd::arithmetic::div_mod::lemma_mod_multiples_vanish(s2, -(s2 * u2), p);
        vstd::arithmetic::div_mod::lemma_sub_mod_noop(0, s2 * u2, p);
        vstd::arithmetic::div_mod::lemma_small_mod(0, p as nat);
        assert((-(s2 * u2)) % p == (0 - v2) % p);
        if v == 0 {
            vstd::arithmetic::div_mod::lemma_small_mod(0, p as nat);
            assert((s2 * u) % p == v);
        } else {
            vstd::arithmetic::div_mod::lemma_mod_sub_multiples_vanish(v, p);
            vstd::arithmetic::div_mod::lemma_small_mod(v as nat, p as nat);
            assert((0 - v2) % p == (v - p) % p);
            assert((s2 * u) % p == v);
        }
        lemma_f_div_unique(p, v, u, s2);
        assert(s1 == s2);
        let s = s1;
        let ss = f_mul(p, s, s);
        vstd::arithmetic::div_mod::lemma_mod_bound(s * s, p);
        // The x coordinate subtracts both points' x in either order.
        vstd::arithmetic::div_mod::lemma_small_mod(x1 as nat, p as nat);
        vstd::arithmetic::div_mod::lemma_small_mod(x2 as nat, p as nat);
        vstd::arithmetic::div_mod::lemma_sub_mod_noop(ss - x1, x2, p);
        vstd::arithmetic::div_mod::lemma_sub_mod_noop(ss - x2, x1, p);
        vstd::arithmetic::div_mod::lemma_mod_bound(ss - x1, p);
        vstd::arithmetic::div_mod::lemma_mod_bound(ss - x2, p);
        let xr = f_sub(p, f_sub(p, ss, x1), x2);
        assert(f_sub(p, f_sub(p, ss, x2), x1) == xr) by {
            assert((((ss - x1) % p) - x2) % p == (ss - x1 - x2) % p);
            assert((((ss - x2) % p) - x1) % p == (ss - x2 - x1) % p);
        }
        // The y coordinates agree because the slope satisfies
        // s * (x1 - x2) = y1 - y2 in the field.
        let w1 = f_sub(p, x1, xr);
        let w2 = f_sub(p, x2, xr);
        vstd::arithmetic::div_mod::lemma_mul_mod_noop_right(s, x1 - xr, p);
        vstd::arithmetic::div_mod::lemma_mul_mod_noop_right(s, x2 - xr, p);
        vstd::arithmetic::div_mod::lemma_mod_bound(x1 - xr, p);
        vstd::arithmetic::div_mod::lemma_mod_bound(x2 - xr, p);
        assert(f_mul(p, s, w1) == (s * (x1 - xr)) % p);
        assert(f_mul(p, s, w2) == (s * (x2 - xr)) % p);
        vstd::arithmetic::div_mod::lemma_small_mod(y1 as nat, p as nat);
        vstd::arithmetic::div_mod::lemma_small_mod(y2 as nat, p as nat);
        vstd::arithmetic::div_mod::lemma_sub_mod_noop(s * (x1 - xr), y1, p);
        vstd::arithmetic::div_mod::lemma_sub_mod_noop(s * (x2 - xr), y2, p);
        vstd::arithmetic::div_mod::lemma_mod_bound(s * (x1 - xr), p);
        vstd::arithmetic::div_mod::lemma_mod_bound(s * (x2 - xr), p);
        let yr1 = f_sub(p, f_mul(p, s, w1), y1);
        let yr2 = f_sub(p, f_mul(p, s, w2), y2);
        assert(yr1 == (s * (x1 - xr) - y1) % p);
        assert(yr2 == (s * (x2 - xr) - y2) % p);
        vstd::arithmetic::div_mod::lemma_mul_mod_noop_right(s, x1 - x2, p);
        assert((s * (x1 - x2)) % p == (s * u) % p);
        assert((s * (x1 - x2)) % p == (y1 - y2) % p);
        vstd::arithmetic::div_mod::lemma_mod_equivalence(s * (x1 - x2), y1 - y2, p);
        assert((s * (x1 - xr) - y1) - (s * (x2 - xr) - y2) == s * (x1 - x2) - (y1 - y2))
            by (nonlinear_arith);
        vstd::arithmetic::div_mod::lemma_mod_equivalence(
            s * (x1 - xr) - y1,
            s * (x2 - xr) - y2,
            p,
        );
        assert(yr1 == yr2);
    }
}

/// For scalars up to three, binary double-and-add started from the
/// identity agrees with adding the point to the identity that many times
/// over.  Larger scalars hinge on associativity of the chord-and-tangent
/// law, which is not proved here.
pub proof fn lemma_multiply_matches_repeated_add_small(q: PointModel, k: int)
    requires
        0 <= k <= 3,
        is_prime(q.p),
        point_model_wf(q),
    ensures
        spec_double_and_add(point_identity(q), q, k) == spec_repeated_add(q, k),
{
    let o = point_identity(q);
    let dq = spec_point_double(q);
    lemma_identity_absorption(q);
    lemma_identity_absorption(dq);
    lemma_add_self_is_double(q);
    assert(point_identity(dq) == o);
    assert(spec_repeated_add(q, 0) == o);
    if k == 0 {
        assert(spec_double_and_add(o, q, 0) == o);
    } else if k == 1 {
        assert(spec_double_and_add(o, q, 1) == spec_double_and_add(
            spec_point_add(o, q),
            dq,
            0,
        ));
        assert(spec_repeated_add(q, 1) == spec_point_add(spec_repeated_add(q, 0), q));
    } else if k == 2 {
        assert(spec_double_and_add(o, q, 2) == spec_double_and_add(o, dq, 1));
        assert(spec_double_and_add(o, dq, 1) == spec_double_and_add(
            spec_point_add(o, dq),
            spec_point_double(dq),
            0,
        ));
        assert(spec_repeated_add(q, 1) == spec_point_add(spec_repeated_add(q, 0), q));
        assert(spec_repeated_add(q, 2) == spec_point_add(spec_repeated_add(q, 1), q));
    } else {
        assert(spec_double_and_add(o, q, 3) == spec_double_and_add(
            spec_point_add(o, q),
            dq,
            1,
        ));
        assert(spec_double_and_add(q, dq, 1) == spec_double_and_add(
            spec_point_add(q, dq),
            spec_point_double(dq),
            0,
        ));
        assert(spec_repeated_add(q, 1) == spec_point_add(spec_repeated_add(q, 0), q));
        assert(spec_repeated_add(q, 2) == spec_point_add(spec_repeated_add(q, 1), q));
        assert(spec_repeated_add(q, 3) == spec_point_add(spec_repeated_add(q, 2), q));
        assert(spec_repeated_add(q, 2) == dq);
        lemma_double_preserves_wf(q);
        lemma_point_add_commutes(dq, q);
        assert(spec_repeated_add(q, 3) == spec_point_add(q, dq));
    }
}

} // verus!
