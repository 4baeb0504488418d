//! Residues in a prime field Z/pZ.
//!
//! A `FieldElement` pairs a residue `n` with its modulus `p` and maintains
//! the invariant `0 <= n < p`.  The arithmetic operations reduce into
//! `[0, p)` and reject operands that live over different primes.

use vstd::prelude::*;
use num_bigint::BigInt;

use crate::bigint::{
    big_add, big_clone, big_div, big_eq, big_from_i32, big_from_u64, big_is_negative, big_is_zero,
    big_lt, big_mul, big_one, big_rem, big_sub, big_value, big_zero,
};
use crate::errors::FieldErrors;
use crate::field_traits::FieldElementTraits;
use crate::numeric::{gcd, is_inverse, is_prime, lemma_prime_coprime, mag};

verus! {

/// Mathematical model of a field element: the residue and the modulus.
pub ghost struct FieldModel {
    pub n: int,
    pub p: int,
}

/// Addition in Z/pZ.
pub open spec fn f_add(p: int, a: int, b: int) -> int {
    (a + b) % p
}

/// Subtraction in Z/pZ.
pub open spec fn f_sub(p: int, a: int, b: int) -> int {
    (a - b) % p
}

/// Multiplication in Z/pZ.
pub open spec fn f_mul(p: int, a: int, b: int) -> int {
    (a * b) % p
}

/// The multiplicative inverse in Z/pZ, as a specification value.  It is
/// well defined whenever an inverse exists, which
/// `crate::numeric::lemma_inverse_exists` guarantees for nonzero residues
/// of a prime modulus.
pub open spec fn f_inv(p: int, y: int) -> int {
    choose|i: int| is_inverse(i, y, p)
}

/// Division in Z/pZ: multiplication by the inverse of the divisor.
pub open spec fn f_div(p: int, a: int, b: int) -> int {
    f_mul(p, a, f_inv(p, b))
}

#[derive(Debug, PartialEq)]
pub struct FieldElement {
    n: BigInt,
    p: BigInt,
}

impl View for FieldElement {
    type V = FieldModel;

    closed spec fn view(&self) -> FieldModel {
        FieldModel { n: big_value(self.n), p: big_value(self.p) }
    }
}

impl Clone for FieldElement {
    fn clone(&self) -> (r: Self)
        ensures
            r@ == self@,
    {
        FieldElement { n: big_clone(&self.n), p: big_clone(&self.p) }
    }
}

impl FieldElement {
    /// The representation invariant: the residue lies in `[0, p)`.
    pub open spec fn wf(&self) -> bool {
        0 <= self@.n < self@.p
    }

    /// Validating constructor: accepts exactly the residues in `[0, p)`.
    pub fn new(number: BigInt, prime: BigInt) -> (r: Result<FieldElement, FieldErrors>)
        ensures
            r is Ok <==> 0 <= big_value(number) < big_value(prime),
            r matches Ok(f) ==> f@ == (FieldModel { n: big_value(number), p: big_value(prime) })
                && f.wf(),
            r matches Err(e) ==> e is InvalidParams,
    {
        if !big_lt(&number, &prime) || big_is_negative(&number) {
            Err(FieldErrors::InvalidParams("Bad Parameters".to_string()))
        } else {
            Ok(FieldElement { n: number, p: prime })
        }
    }

    /// Validating constructor from a machine integer.
    pub fn new_from_i32(number: i32, prime: BigInt) -> (r: Result<FieldElement, FieldErrors>)
        ensures
            r is Ok <==> 0 <= number < big_value(prime),
            r matches Ok(f) ==> f@ == (FieldModel { n: number as int, p: big_value(prime) })
                && f.wf(),
            r matches Err(e) ==> e is InvalidParams,
    {
        let number = big_from_i32(number);
        if !big_lt(&number, &prime) || big_is_negative(&number) {
            Err(FieldErrors::InvalidParams("Bad Parameters".to_string()))
        } else {
            Ok(FieldElement { n: number, p: prime })
        }
    }

    /// The additive identity of Z/pZ.
    pub fn zero(p: BigInt) -> (r: FieldElement)
        requires
            big_value(p) >= 1,
        ensures
            r@ == (FieldModel { n: 0, p: big_value(p) }),
            r.wf(),
    {
        FieldElement { n: big_zero(), p }
    }

    /// The multiplicative identity of Z/pZ.
    pub fn one(p: BigInt) -> (r: FieldElement)
        requires
            big_value(p) >= 2,
        ensures
            r@ == (FieldModel { n: 1, p: big_value(p) }),
            r.wf(),
    {
        FieldElement { n: big_one(), p }
    }

    /// A small constant reduced into the field: the residue of `v` mod `p`.
    pub(crate) fn from_u64_mod(v: u64, p: &BigInt) -> (r: FieldElement)
        requires
            big_value(*p) >= 1,
        ensures
            r@ == (FieldModel { n: (v as int) % big_value(*p), p: big_value(*p) }),
            r.wf(),
    {
        let vb = big_from_u64(v);
        let num = big_rem(&vb, p);
        proof {
            vstd::arithmetic::div_mod::lemma_mod_pos_bound(v as int, big_value(*p));
        }
        FieldElement { n: num, p: big_clone(p) }
    }

    /// Addition: reduces the integer sum into `[0, p)`.  Fails exactly when
    /// the operands live over different primes.
    pub fn add(&self, other: &FieldElement) -> (r: Result<FieldElement, FieldErrors>)
        requires
            self.wf(),
            other.wf(),
        ensures
            r is Ok <==> self@.p == other@.p,
            r matches Ok(f) ==> f@ == (FieldModel {
                n: f_add(self@.p, self@.n, other@.n),
                p: self@.p,
            }) && f.wf(),
            r matches Err(e) ==> e is Mismatch,
    {
        if !big_eq(&self.p, &other.p) {
            return Err(FieldErrors::Mismatch("Different prime fields".to_string()));
        }
        let added = big_add(&self.n, &other.n);
        let num = big_rem(&added, &self.p);
        proof {
            vstd::arithmetic::div_mod::lemma_mod_pos_bound(self@.n + other@.n, self@.p);
        }
        Ok(FieldElement { n: num, p: big_clone(&self.p) })
    }

    /// Subtraction: the truncating remainder of the raw difference carries
    /// the sign of the dividend, so a negative result is re-aligned into
    /// `[0, p)` by adding `p` back.  Fails exactly when the operands live
    /// over different primes.
    pub fn sub(&self, other: &FieldElement) -> (r: Result<FieldElement, FieldErrors>)
        requires
            self.wf(),
            other.wf(),
        ensures
            r is Ok <==> self@.p == other@.p,
            r matches Ok(f) ==> f@ == (FieldModel {
                n: f_sub(self@.p, self@.n, other@.n),
                p: self@.p,
            }) && f.wf(),
            r matches Err(e) ==> e is Mismatch,
    {
        if !big_eq(&self.p, &other.p) {
            return Err(FieldErrors::Mismatch("Different prime fields".to_string()));
        }
        let diff = big_sub(&self.n, &other.n);
        let mut num = big_rem(&diff, &self.p);
        proof {
            lemma_small_diff_mod(self@.n, other@.n, self@.p);
        }
        if big_is_negative(&num) {
            num = big_add(&num, &self.p);
        }
        Ok(FieldElement { n: num, p: big_clone(&self.p) })
    }

    /// Multiplication: reduces the integer product into `[0, p)`.  Fails
    /// exactly when the operands live over different primes.
    pub fn mul(&self, other: &FieldElement) -> (r: Result<FieldElement, FieldErrors>)
        requires
            self.wf(),
            other.wf(),
        ensures
            r is Ok <==> self@.p == other@.p,
            r matches Ok(f) ==> f@ == (FieldModel {
                n: f_mul(self@.p, self@.n, other@.n),
                p: self@.p,
            }) && f.wf(),
            r matches Err(e) ==> e is Mismatch,
    {
        if !big_eq(&self.p, &other.p) {
            return Err(FieldErrors::Mismatch("Different prime fields".to_string()));
        }
        let prod = big_mul(&self.n, &other.n);
        proof {
            vstd::arithmetic::mul::lemma_mul_nonnegative(self@.n, other@.n);
        }
        let num = big_rem(&prod, &self.p);
        proof {
            vstd::arithmetic::div_mod::lemma_mod_pos_bound(self@.n * other@.n, self@.p);
        }
        Ok(FieldElement { n: num, p: big_clone(&self.p) })
    }

    /// Division in Z/pZ, defined as multiplication by the inverse of the
    /// divisor.  The result is the unique residue whose product with the
    /// divisor reduces back to the dividend.
    pub fn div(&self, other: &FieldElement) -> (r: Result<FieldElement, FieldErrors>)
        requires
            self.wf(),
            other.wf(),
            is_prime(self@.p),
        ensures
            r is Ok <==> self@.p == other@.p && other@.n != 0,
            r matches Ok(f) ==> f@.p == self@.p && f.wf() && f_mul(self@.p, f@.n, other@.n)
                == self@.n && f@.n == f_div(self@.p, self@.n, other@.n),
            self@.p != other@.p ==> (r matches Err(e) && e is Mismatch),
            self@.p == other@.p && other@.n == 0 ==> (r matches Err(e) && e is InvalidParams),
    {
        if !big_eq(&self.p, &other.p) {
            return Err(FieldErrors::Mismatch("Different prime fields".to_string()));
        }
        let inverse = match other.modinv() {
            Ok(v) => v,
            Err(e) => {
                return Err(e);
            },
        };
        let prod = big_mul(&self.n, &inverse.n);
        proof {
            vstd::arithmetic::mul::lemma_mul_nonnegative(self@.n, inverse@.n);
        }
        let num = big_rem(&prod, &self.p);
        proof {
            let p = self@.p;
            let n1 = self@.n;
            let n2 = other@.n;
            let i = inverse@.n;
            vstd::arithmetic::div_mod::lemma_mod_bound(n1 * i, p);
            vstd::arithmetic::div_mod::lemma_mul_mod_noop_left(n1 * i, n2, p);
            assert((n1 * i) * n2 == n1 * (i * n2)) by (nonlinear_arith);
            vstd::arithmetic::div_mod::lemma_mul_mod_noop_right(n1, i * n2, p);
            vstd::arithmetic::div_mod::lemma_small_mod(n1 as nat, p as nat);
            lemma_f_div_unique(p, n1, n2, (n1 * i) % p);
        }
        Ok(FieldElement { n: num, p: big_clone(&self.p) })
    }
}

impl FieldElementTraits for FieldElement {
    open spec fn number_model(&self) -> int {
        self@.n
    }

    open spec fn prime_model(&self) -> int {
        self@.p
    }

    /// The residue as an arbitrary-precision integer.
    fn get_number(&self) -> (r: &BigInt) {
        &self.n
    }

    /// The modulus as an arbitrary-precision integer.
    fn get_prime(&self) -> (r: &BigInt) {
        &self.p
    }

    /// Multiplicative inverse modulo the prime `p`, by the iterative
    /// extended Euclidean algorithm: the pair `(a, m)` runs the Euclidean
    /// reduction from `(n, p)` while `(inv, x0)` accumulates the Bezout
    /// coefficient of `n`; a final negative coefficient is re-aligned into
    /// `[0, p)` by adding `p`.  The zero residue has no inverse and is
    /// rejected.
    fn modinv(&self) -> (r: Result<FieldElement, FieldErrors>) {
        if big_is_zero(&self.n) {
            return Err(FieldErrors::InvalidParams("Zero has no inverse".to_string()));
        }
        let ghost n = self@.n;
        let ghost p = self@.p;
        let mut a = big_clone(&self.n);
        let mut m = big_clone(&self.p);
        let mut x0 = big_zero();
        let mut inv = big_one();
        let one_c = big_one();
        proof {
            lemma_prime_coprime(n, p);
            vstd::arithmetic::div_mod::lemma_small_mod(n as nat, p as nat);
            vstd::arithmetic::div_mod::lemma_mod_self_0(p);
            vstd::arithmetic::div_mod::lemma_small_mod(0, p as nat);
            assert(1 * n == n);
            assert(0 * n == 0);
            assert(mag(0) == 0);
            assert(mag(1) == 1);
            assert(mag(0) * n + mag(1) * p == p) by (nonlinear_arith)
                requires
                    mag(0) == 0,
                    mag(1) == 1,
            ;
        }
        while big_lt(&one_c, &a)
            invariant
                is_prime(p),
                p == self@.p,
                n == self@.n,
                0 < n < p,
                big_value(one_c) == 1,
                big_value(a) >= 1,
                big_value(m) >= 0,
                gcd(big_value(a), big_value(m)) == 1,
                big_value(a) % p == (big_value(inv) * n) % p,
                big_value(m) % p == (big_value(x0) * n) % p,
                big_value(x0) * big_value(inv) <= 0,
                mag(big_value(x0)) * big_value(a) + mag(big_value(inv)) * big_value(m) == p,
                mag(big_value(inv)) <= p,
            decreases big_value(m),
        {
            proof {
                if big_value(m) == 0 {
                    assert(gcd(big_value(a), 0) == big_value(a));
                }
            }
            let ghost av = big_value(a);
            let ghost mv = big_value(m);
            let ghost iv = big_value(inv);
            let ghost xv = big_value(x0);
            let q = big_div(&a, &m);
            let r0 = big_rem(&a, &m);
            let ghost qv = big_value(q);
            proof {
                vstd::arithmetic::div_mod::lemma_mod_bound(av, mv);
                vstd::arithmetic::div_mod::lemma_fundamental_div_mod(av, mv);
                vstd::arithmetic::div_mod::lemma_div_pos_is_pos(av, mv);
                assert(qv == av / mv);
                assert(big_value(r0) == av % mv);
                assert(mv * qv == qv * mv) by (nonlinear_arith);
                assert(big_value(r0) == av - mv * qv);
                lemma_euclid_step_congruence(av, mv, iv, xv, qv, n, p);
                assert((av - qv * mv) % p == ((iv - qv * xv) * n) % p);
                lemma_euclid_step_measure(av, mv, iv, xv, qv, big_value(r0), p);
                assert(gcd(av, mv) == gcd(mv, av % mv));
            }
            let prod = big_mul(&q, &x0);
            let new_x0 = big_sub(&inv, &prod);
            proof {
                assert(big_value(new_x0) == iv - qv * xv);
            }
            inv = x0;
            x0 = new_x0;
            a = m;
            m = r0;
            proof {
                assert(big_value(inv) == xv);
                assert(big_value(x0) == iv - qv * xv);
                assert(big_value(a) == mv);
                assert(big_value(m) == av - qv * mv);
                assert(big_value(m) % p == (big_value(x0) * n) % p);
            }
        }
        let ghost iv = big_value(inv);
        proof {
            assert(big_value(a) == 1);
            vstd::arithmetic::div_mod::lemma_small_mod(1, p as nat);
            assert((iv * n) % p == 1);
            if iv == p {
                vstd::arithmetic::div_mod::lemma_mod_multiples_basic(n, p);
                assert(iv * n == n * p) by (nonlinear_arith)
                    requires
                        iv == p,
                ;
            }
            if iv == -p {
                vstd::arithmetic::div_mod::lemma_mod_multiples_basic(-n, p);
                assert(iv * n == (-n) * p) by (nonlinear_arith)
                    requires
                        iv == -p,
                ;
            }
        }
        let num = if big_is_negative(&inv) {
            proof {
                vstd::arithmetic::div_mod::lemma_mod_multiples_vanish(n, iv * n, p);
                assert((iv + p) * n == p * n + iv * n) by (nonlinear_arith);
            }
            big_add(&inv, &self.p)
        } else {
            inv
        };
        Ok(FieldElement { n: num, p: big_clone(&self.p) })
    }

}

/// Any concrete inverse determines the specification-level inverse.
pub proof fn lemma_f_inv_of(i: int, y: int, p: int)
    requires
        is_inverse(i, y, p),
    ensures
        f_inv(p, y) == i,
        is_inverse(f_inv(p, y), y, p),
{
    assert(exists|j: int| is_inverse(j, y, p));
    crate::numeric::lemma_inverse_unique(f_inv(p, y), i, y, p);
}

/// Multiplying a residue by `y` and dividing by `y` returns the residue:
/// the residue `d` with `d * y = x` is exactly `x * f_inv(p, y)`.
pub proof fn lemma_f_div_unique(p: int, x: int, y: int, d: int)
    requires
        is_prime(p),
        0 <= x < p,
        0 < y < p,
        0 <= d < p,
        f_mul(p, d, y) == x,
    ensures
        d == f_div(p, x, y),
{
    crate::numeric::lemma_inverse_exists(y, p);
    let i = f_inv(p, y);
    assert(is_inverse(i, y, p));
    let m = f_mul(p, x, i);
    assert(f_mul(p, m, y) == x) by {
        vstd::arithmetic::div_mod::lemma_mod_bound(x * i, p);
        vstd::arithmetic::div_mod::lemma_mul_mod_noop_left(x * i, y, p);
        assert((x * i) * y == x * (i * y)) by (nonlinear_arith);
        vstd::arithmetic::div_mod::lemma_mul_mod_noop_right(x, i * y, p);
        vstd::arithmetic::div_mod::lemma_small_mod(x as nat, p as nat);
    }
    vstd::arithmetic::div_mod::lemma_mod_bound(x * i, p);
    crate::numeric::lemma_mul_mod_cancel(d, m, y, i, p);
}

/// Division agrees with multiplication by the inverse: a residue `d` that
/// satisfies the division contract (`d * y` reduces to `x`) equals the
/// product of `x` with any inverse of `y`, reduced into the field.
pub proof fn lemma_division_is_multiplication_by_inverse(p: int, x: int, y: int, d: int, i: int)
    requires
        is_prime(p),
        0 <= x < p,
        0 < y < p,
        0 <= d < p,
        f_mul(p, d, y) == x,
        is_inverse(i, y, p),
    ensures
        d == f_mul(p, x, i),
{
    lemma_f_div_unique(p, x, y, d);
    lemma_f_inv_of(i, y, p);
}

/// The additive and multiplicative identities act trivially: adding the
/// zero element or multiplying by the one element leaves a residue as it
/// was.
pub proof fn lemma_identity_elements(p: int, x: int)
    requires
        0 <= x < p,
    ensures
        f_add(p, x, 0) == x,
        f_mul(p, x, 1) == x,
{
    vstd::arithmetic::div_mod::lemma_small_mod(x as nat, p as nat);
    assert(x * 1 == x) by (nonlinear_arith);
}

/// One step of the extended Euclidean iteration keeps both tracked values
/// congruent to multiples of `n`: if `a` and `m` are congruent to `inv * n`
/// and `x0 * n`, then `a - q * m` is congruent to `(inv - q * x0) * n`.
proof fn lemma_euclid_step_congruence(av: int, mv: int, iv: int, xv: int, q: int, n: int, p: int)
    requires
        p >= 2,
        av % p == (iv * n) % p,
        mv % p == (xv * n) % p,
    ensures
        (av - q * mv) % p == ((iv - q * xv) * n) % p,
{
    vstd::arithmetic::div_mod::lemma_sub_mod_noop(av, q * mv, p);
    vstd::arithmetic::div_mod::lemma_mul_mod_noop_right(q, mv, p);
    vstd::arithmetic::div_mod::lemma_mul_mod_noop_right(q, xv * n, p);
    assert(q * (xv * n) == (q * xv) * n) by (nonlinear_arith);
    vstd::arithmetic::div_mod::lemma_sub_mod_noop(iv * n, (q * xv) * n, p);
    assert(iv * n - (q * xv) * n == (iv - q * xv) * n) by (nonlinear_arith);
}

/// One step of the extended Euclidean iteration keeps the signs of the two
/// Bezout coefficients opposed and preserves the combined magnitude
/// `mag(x0) * a + mag(inv) * m`.
proof fn lemma_euclid_step_measure(av: int, mv: int, iv: int, xv: int, q: int, r: int, p: int)
    requires
        av > 1,
        mv >= 1,
        q >= 0,
        r == av - mv * q,
        r >= 0,
        xv * iv <= 0,
        mag(xv) * av + mag(iv) * mv == p,
        mag(iv) <= p,
    ensures
        mag(iv - q * xv) == mag(iv) + q * mag(xv),
        (iv - q * xv) * xv <= 0,
        mag(iv - q * xv) * mv + mag(xv) * r == p,
        mag(xv) <= p,
{
    let nxv = iv - q * xv;
    if xv > 0 {
        assert(iv <= 0) by (nonlinear_arith)
            requires
                xv * iv <= 0,
                xv > 0,
        ;
        assert(q * xv >= 0) by (nonlinear_arith)
            requires
                q >= 0,
                xv > 0,
        ;
        assert(nxv <= 0);
        assert(mag(nxv) == mag(iv) + q * mag(xv));
        assert(nxv * xv <= 0) by (nonlinear_arith)
            requires
                nxv <= 0,
                xv > 0,
        ;
    } else if xv < 0 {
        assert(iv >= 0) by (nonlinear_arith)
            requires
                xv * iv <= 0,
                xv < 0,
        ;
        assert(q * xv <= 0) by (nonlinear_arith)
            requires
                q >= 0,
                xv < 0,
        ;
        assert(nxv >= 0);
        assert(mag(nxv) == mag(iv) + q * mag(xv)) by (nonlinear_arith)
            requires
                nxv == iv - q * xv,
                iv >= 0,
                xv < 0,
                q >= 0,
                mag(nxv) == nxv,
                mag(iv) == iv,
                mag(xv) == -xv,
        ;
        assert(nxv * xv <= 0) by (nonlinear_arith)
            requires
                nxv >= 0,
                xv < 0,
        ;
    } else {
        assert(nxv == iv);
        assert(mag(nxv) == mag(iv) + q * mag(xv)) by (nonlinear_arith)
            requires
                mag(nxv) == mag(iv),
                mag(xv) == 0,
        ;
        assert(nxv * xv == 0) by (nonlinear_arith)
            requires
                xv == 0,
        ;
    }
    assert(mag(nxv) * mv + mag(xv) * r == p) by (nonlinear_arith)
        requires
            mag(nxv) == mag(iv) + q * mag(xv),
            r == av - mv * q,
            mag(xv) * av + mag(iv) * mv == p,
    ;
    assert(mag(xv) <= mag(xv) * av) by (nonlinear_arith)
        requires
            av > 1,
            mag(xv) >= 0,
    ;
    assert(mag(iv) * mv >= 0) by (nonlinear_arith)
        requires
            mag(iv) >= 0,
            mv >= 1,
    ;
}

/// For residues `a, b` of a modulus `p`, the truncating remainder of
/// `a - b` equals the mathematical remainder when `a >= b`, and lies one
/// `p` below it otherwise.
pub(crate) proof fn lemma_small_diff_mod(a: int, b: int, p: int)
    requires
        0 <= a < p,
        0 <= b < p,
    ensures
        a >= b ==> crate::bigint::trunc_rem(a - b, p) == (a - b) % p,
        a < b ==> crate::bigint::trunc_rem(a - b, p) == (a - b) % p - p,
        0 <= (a - b) % p < p,
        a != b ==> (a - b) % p != 0,
        a >= b ==> (a - b) % p == a - b,
        a < b ==> (a - b) % p == a - b + p,
{
    vstd::arithmetic::div_mod::lemma_mod_bound(a - b, p);
    if a >= b {
        vstd::arithmetic::div_mod::lemma_small_mod((a - b) as nat, p as nat);
    } else {
        vstd::arithmetic::div_mod::lemma_small_mod((b - a) as nat, p as nat);
        vstd::arithmetic::div_mod::lemma_mod_add_multiples_vanish(a - b, p);
        vstd::arithmetic::div_mod::lemma_small_mod((a - b + p) as nat, p as nat);
    }
}

} // verus!
