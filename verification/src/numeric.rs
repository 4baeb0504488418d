//! Number-theoretic groundwork: primality, greatest common divisors,
//! Bezout coefficients, and existence and uniqueness of modular inverses.
//!
//! Everything here is specification and proof; the executable field layer
//! builds on these facts.

use vstd::prelude::*;

verus! {

/// The modulus of a prime field is at least 2 and has no proper divisor.
pub open spec fn is_prime(p: int) -> bool {
    p >= 2 && forall|d: int| 2 <= d < p ==> #[trigger] (p % d) != 0
}

/// Magnitude of an integer, kept in `int` for arithmetic.
pub open spec fn mag(x: int) -> int {
    if x < 0 {
        -x
    } else {
        x
    }
}

/// Greatest common divisor by the Euclidean recursion, for nonnegative
/// arguments.
pub open spec fn gcd(a: int, b: int) -> int
    recommends
        a >= 0,
        b >= 0,
    decreases b,
{
    if b <= 0 {
        a
    } else {
        gcd(b, a % b)
    }
}

/// `i` is the multiplicative inverse of `n` in the field of order `p`.
pub open spec fn is_inverse(i: int, n: int, p: int) -> bool {
    0 <= i < p && (i * n) % p == 1
}

/// `s` and `t` witness that `g` is an integer combination of `a` and `b`.
pub open spec fn bezout_pair(s: int, t: int, a: int, b: int, g: int) -> bool {
    s * a + t * b == g
}

/// The greatest common divisor is positive when either argument is, and it
/// divides both arguments.
pub proof fn lemma_gcd_divides(a: int, b: int)
    requires
        a >= 0,
        b >= 0,
    ensures
        gcd(a, b) >= 0,
        a > 0 || b > 0 ==> gcd(a, b) > 0,
        gcd(a, b) > 0 ==> a % gcd(a, b) == 0 && b % gcd(a, b) == 0,
    decreases b,
{
    if b <= 0 {
        if a > 0 {
            vstd::arithmetic::div_mod::lemma_mod_self_0(a);
            vstd::arithmetic::div_mod::lemma_small_mod(0, a as nat);
        }
    } else {
        vstd::arithmetic::div_mod::lemma_mod_bound(a, b);
        lemma_gcd_divides(b, a % b);
        let g = gcd(b, a % b);
        assert(g > 0);
        vstd::arithmetic::div_mod::lemma_fundamental_div_mod(a, b);
        vstd::arithmetic::div_mod::lemma_fundamental_div_mod(b, g);
        vstd::arithmetic::div_mod::lemma_fundamental_div_mod(a % b, g);
        let k = (a / b) * (b / g) + (a % b) / g;
        assert(a == k * g) by (nonlinear_arith)
            requires
                a == b * (a / b) + a % b,
                b == g * (b / g) + b % g,
                a % b == g * ((a % b) / g) + (a % b) % g,
                b % g == 0,
                (a % b) % g == 0,
                k == (a / b) * (b / g) + (a % b) / g,
        ;
        vstd::arithmetic::div_mod::lemma_mod_multiples_basic(k, g);
    }
}

/// A positive divisor of a positive integer is no larger than it.
pub proof fn lemma_divisor_le(d: int, n: int)
    requires
        d > 0,
        n > 0,
        n % d == 0,
    ensures
        d <= n,
{
    if d > n {
        vstd::arithmetic::div_mod::lemma_small_mod(n as nat, d as nat);
    }
}

/// A nonzero residue of a prime modulus is coprime to it.
pub proof fn lemma_prime_coprime(n: int, p: int)
    requires
        is_prime(p),
        0 < n < p,
    ensures
        gcd(n, p) == 1,
{
    let g = gcd(n, p);
    lemma_gcd_divides(n, p);
    if g >= 2 {
        lemma_divisor_le(g, n);
        assert(2 <= g < p);
        assert(p % g != 0);
    }
}

/// Bezout's identity: the greatest common divisor of two nonnegative
/// integers is an integer combination of them.
pub proof fn lemma_bezout(a: int, b: int)
    requires
        a >= 0,
        b >= 0,
    ensures
        exists|s: int, t: int| #[trigger] bezout_pair(s, t, a, b, gcd(a, b)),
    decreases b,
{
    if b <= 0 {
        assert(bezout_pair(1, 0, a, b, gcd(a, b))) by (nonlinear_arith)
            requires
                gcd(a, b) == a,
        ;
    } else {
        vstd::arithmetic::div_mod::lemma_mod_bound(a, b);
        lemma_bezout(b, a % b);
        let (s, t) = choose|s: int, t: int| #[trigger] bezout_pair(s, t, b, a % b, gcd(b, a % b));
        vstd::arithmetic::div_mod::lemma_fundamental_div_mod(a, b);
        assert(bezout_pair(t, s - t * (a / b), a, b, gcd(a, b))) by (nonlinear_arith)
            requires
                s * b + t * (a % b) == gcd(b, a % b),
                a % b == a - b * (a / b),
                gcd(a, b) == gcd(b, a % b),
        ;
    }
}

/// Every nonzero residue of a prime modulus has a multiplicative inverse.
pub proof fn lemma_inverse_exists(n: int, p: int)
    requires
        is_prime(p),
        0 < n < p,
    ensures
        exists|i: int| is_inverse(i, n, p),
{
    lemma_prime_coprime(n, p);
    lemma_bezout(n, p);
    let (s, t) = choose|s: int, t: int| #[trigger] bezout_pair(s, t, n, p, gcd(n, p));
    assert(s * n == p * (-t) + 1) by (nonlinear_arith)
        requires
            s * n + t * p == 1,
    ;
    vstd::arithmetic::div_mod::lemma_mod_multiples_vanish(-t, 1, p);
    vstd::arithmetic::div_mod::lemma_small_mod(1, p as nat);
    vstd::arithmetic::div_mod::lemma_mul_mod_noop_left(s, n, p);
    vstd::arithmetic::div_mod::lemma_mod_bound(s, p);
    assert(is_inverse(s % p, n, p));
}

/// Multiplication by an invertible residue can be cancelled: two residues
/// with the same product by `y` are equal.
pub proof fn lemma_mul_mod_cancel(u: int, v: int, y: int, i: int, p: int)
    requires
        (i * y) % p == 1,
        0 <= u < p,
        0 <= v < p,
        (u * y) % p == (v * y) % p,
    ensures
        u == v,
{
    assert(p >= 2) by {
        vstd::arithmetic::div_mod::lemma_mod_bound(i * y, p);
    }
    lemma_residue_times_inverse(u, y, i, p);
    lemma_residue_times_inverse(v, y, i, p);
}

/// For a residue `u` and an inverse `i` of `y`, multiplying `u * y` by `i`
/// and reducing gives `u` back.
proof fn lemma_residue_times_inverse(u: int, y: int, i: int, p: int)
    requires
        p >= 2,
        (i * y) % p == 1,
        0 <= u < p,
    ensures
        ((u * y) % p * i) % p == u,
{
    vstd::arithmetic::div_mod::lemma_mul_mod_noop_left(u * y, i, p);
    assert((u * y) * i == u * (i * y)) by (nonlinear_arith);
    vstd::arithmetic::div_mod::lemma_mul_mod_noop_right(u, i * y, p);
    vstd::arithmetic::div_mod::lemma_small_mod(u as nat, p as nat);
}

/// The multiplicative inverse of a residue is unique.
pub proof fn lemma_inverse_unique(i: int, j: int, n: int, p: int)
    requires
        is_inverse(i, n, p),
        is_inverse(j, n, p),
    ensures
        i == j,
{
    lemma_mul_mod_cancel(i, j, n, i, p);
}

} // verus!
