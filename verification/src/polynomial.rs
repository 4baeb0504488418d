//! Polynomials with field-element coefficients, in ascending order of
//! degree: `coefficients[i]` is the coefficient of `x^i`.

use vstd::prelude::*;

use crate::bigint::{big_add, big_clone, big_mul, big_rem, big_value, big_zero};
use crate::field::{f_add, FieldElement, FieldModel};
use crate::field_traits::FieldElementTraits;

verus! {

/// Every coefficient is a residue of its own modulus.
pub open spec fn coeffs_wf(s: Seq<FieldModel>) -> bool {
    forall|i: int| 0 <= i < s.len() ==> 0 <= #[trigger] s[i].n < s[i].p
}

/// Every coefficient lives over the modulus `p`.
pub open spec fn coeffs_over(s: Seq<FieldModel>, p: int) -> bool {
    forall|i: int| 0 <= i < s.len() ==> #[trigger] s[i].p == p
}

/// The coefficient of `x^i`, reading past the end as zero.
pub open spec fn coef_or_zero(s: Seq<FieldModel>, i: int) -> int {
    if 0 <= i < s.len() {
        s[i].n
    } else {
        0
    }
}

/// The raw integer sum `c_0 * v + c_1 * v + ... + c_(k-1) * v` of the
/// first `k` coefficients, each multiplied by the evaluation point `v`.
pub open spec fn eval_sum(s: Seq<FieldModel>, v: int, k: int) -> int
    decreases k,
{
    if k <= 0 {
        0
    } else {
        eval_sum(s, v, k - 1) + s[k - 1].n * v
    }
}

#[derive(Debug, PartialEq)]
pub struct Polynomial {
    coefficients: Vec<FieldElement>,
}

impl View for Polynomial {
    type V = Seq<FieldModel>;

    closed spec fn view(&self) -> Seq<FieldModel> {
        self.coefficients@.map_values(|c: FieldElement| c@)
    }
}

impl Clone for Polynomial {
    fn clone(&self) -> (r: Self)
        ensures
            r@ == self@,
    {
        let mut v: Vec<FieldElement> = Vec::new();
        let mut i: usize = 0;
        while i < self.coefficients.len()
            invariant
                i <= self.coefficients.len(),
                v@.len() == i as int,
                forall|j: int| 0 <= j < i as int ==> v@[j]@ == self@[j],
            decreases self.coefficients.len() - i,
        {
            v.push(self.coefficients[i].clone());
            i = i + 1;
        }
        let r = Polynomial { coefficients: v };
        proof {
            assert(r@ =~= self@);
        }
        r
    }
}

impl Polynomial {
    /// Plain constructor from the coefficient vector, constant term first.
    pub fn new(coefficients: Vec<FieldElement>) -> (r: Self)
        ensures
            r@ == coefficients@.map_values(|c: FieldElement| c@),
    {
        Polynomial { coefficients }
    }

    /// How many coefficients the polynomial carries.
    pub fn len(&self) -> (r: usize)
        ensures
            r == self@.len(),
    {
        self.coefficients.len()
    }

    /// Coefficient-wise sum: the shorter polynomial is read as extended
    /// with zeros, and every coefficient of the result is reduced over the
    /// shared prime.
    pub fn add(&self, other: &Polynomial) -> (r: Polynomial)
        requires
            self@.len() >= 1,
            coeffs_wf(self@),
            coeffs_wf(other@),
            coeffs_over(self@, self@[0].p),
            coeffs_over(other@, self@[0].p),
        ensures
            r@.len() == vstd::math::max(self@.len() as int, other@.len() as int),
            coeffs_wf(r@),
            coeffs_over(r@, self@[0].p),
            forall|i: int| 0 <= i < r@.len() ==> #[trigger] r@[i].n == f_add(
                self@[0].p,
                coef_or_zero(self@, i),
                coef_or_zero(other@, i),
            ),
    {
        let ghost p = self@[0].p;
        let l1 = self.coefficients.len();
        let l2 = other.coefficients.len();
        let max_length = if l1 < l2 {
            l2
        } else {
            l1
        };
        let prime = self.coefficients[0].get_prime();
        let mut result: Vec<FieldElement> = Vec::new();
        let mut i: usize = 0;
        while i < max_length
            invariant
                max_length == vstd::math::max(l1 as int, l2 as int),
                l1 == self@.len(),
                l2 == other@.len(),
                l1 >= 1,
                coeffs_wf(self@),
                coeffs_wf(other@),
                coeffs_over(self@, p),
                coeffs_over(other@, p),
                p == self@[0].p,
                big_value(*prime) == p,
                i <= max_length,
                result@.len() == i as int,
                forall|j: int| 0 <= j < i as int ==> 0 <= #[trigger] result@[j]@.n < p
                    && result@[j]@.p == p,
                forall|j: int| 0 <= j < i as int ==> #[trigger] result@[j]@.n == f_add(
                    p,
                    coef_or_zero(self@, j),
                    coef_or_zero(other@, j),
                ),
            decreases max_length - i,
        {
            proof {
                assert(0 <= self@[0].n < p);
                if (i as int) < l1 as int {
                    assert(self.coefficients@[i as int]@ == self@[i as int]);
                }
                if (i as int) < l2 as int {
                    assert(other.coefficients@[i as int]@ == other@[i as int]);
                }
            }
            let mut c = if i < l1 {
                self.coefficients[i].clone()
            } else {
                FieldElement::zero(big_clone(prime))
            };
            if i < l2 {
                c = match c.add(&other.coefficients[i]) {
                    Ok(v) => v,
                    Err(_) => {
                        proof {
                            assert(false);
                        }
                        c
                    },
                };
            } else {
                proof {
                    vstd::arithmetic::div_mod::lemma_small_mod(
                        coef_or_zero(self@, i as int) as nat,
                        p as nat,
                    );
                }
            }
            result.push(c);
            i = i + 1;
        }
        let r = Polynomial { coefficients: result };
        proof {
            assert forall|j: int| 0 <= j < r@.len() implies r@[j] == result@[j]@ by {}
            assert forall|j: int| 0 <= j < r@.len() implies 0 <= #[trigger] r@[j].n < r@[j].p by {
                assert(r@[j] == result@[j]@);
            }
            assert forall|j: int| 0 <= j < r@.len() implies #[trigger] r@[j].p == p by {
                assert(r@[j] == result@[j]@);
                assert(0 <= result@[j]@.n);
            }
            assert forall|j: int| 0 <= j < r@.len() implies #[trigger] r@[j].n == f_add(
                p,
                coef_or_zero(self@, j),
                coef_or_zero(other@, j),
            ) by {
                assert(r@[j] == result@[j]@);
            }
        }
        r
    }

    /// Evaluation at the point `x`: the raw integer sum of every
    /// coefficient multiplied by `x`, reduced once over the prime of
    /// `x`.
    pub fn evaluate(&self, x: FieldElement) -> (r: FieldElement)
        requires
            coeffs_wf(self@),
            x.wf(),
        ensures
            r@ == (FieldModel {
                n: eval_sum(self@, x@.n, self@.len() as int) % x@.p,
                p: x@.p,
            }),
            r.wf(),
    {
        let length = self.coefficients.len();
        let mut sum = big_zero();
        let mut i: usize = 0;
        while i < length
            invariant
                length == self@.len(),
                coeffs_wf(self@),
                x.wf(),
                i <= length,
                big_value(sum) == eval_sum(self@, x@.n, i as int),
                big_value(sum) >= 0,
            decreases length - i,
        {
            let term = big_mul(self.coefficients[i].get_number(), x.get_number());
            proof {
                vstd::arithmetic::mul::lemma_mul_nonnegative(self@[i as int].n, x@.n);
            }
            sum = big_add(&sum, &term);
            i = i + 1;
        }
        let prime = x.get_prime();
        let num = big_rem(&sum, prime);
        proof {
            vstd::arithmetic::div_mod::lemma_mod_pos_bound(big_value(sum), x@.p);
        }
        match FieldElement::new(num, big_clone(prime)) {
            Ok(v) => v,
            Err(_) => {
                proof {
                    assert(false);
                }
                x
            },
        }
    }
}

} // verus!
