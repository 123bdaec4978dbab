//! The evaluation domain of the low-degree test: a coset of a multiplicative
//! subgroup of the base field.

use crate::shared_math::b_field_element::BFieldElement;
use crate::shared_math::b_field_element::lemma_mul_mod_assoc;
use crate::shared_math::b_field_element::lemma_mul_mod_comm;
use crate::shared_math::b_field_element::lemma_mul_mod_unit;
use crate::shared_math::b_field_element::mul_mod;
use crate::shared_math::b_field_element::P;
use crate::shared_math::b_field_element::pow_mod;
use crate::shared_math::b_field_element::values;
use crate::shared_math::polynomial::eval;
use crate::shared_math::polynomial::interpolable;
use crate::shared_math::polynomial::interpolant;
use crate::shared_math::polynomial::lemma_interpolant_meets_points;
use crate::shared_math::polynomial::Polynomial;
use vstd::arithmetic::div_mod::*;
use vstd::prelude::*;

verus! {

/// The point `offset * omega^i`.
pub open spec fn domain_point(offset: int, omega: int, i: nat) -> int {
    mul_mod(offset, pow_mod(omega, i))
}

/// The first `length` points `offset * omega^i`.
pub open spec fn domain_points(offset: int, omega: int, length: nat) -> Seq<int> {
    Seq::new(length, |i: int| domain_point(offset, omega, i as nat))
}

/// The values of the polynomial with coefficients `c` at the given points.
pub open spec fn codeword_of(c: Seq<int>, points: Seq<int>) -> Seq<int> {
    Seq::new(points.len(), |i: int| eval(c, points[i]))
}

/// The domain over which codewords are evaluated: `length` points, the
/// `i`-th being `offset * omega^i`.
#[derive(Debug, Clone, Copy)]
pub struct FriDomain {
    pub offset: BFieldElement,
    pub omega: BFieldElement,
    pub length: usize,
}

impl FriDomain {
    /// The points of the domain, in order.
    pub open spec fn points(&self) -> Seq<int> {
        domain_points(self.offset@, self.omega@, self.length as nat)
    }

    /// The `index`-th point of the domain.
    pub fn b_domain_value(&self, index: u32) -> (r: BFieldElement)
        ensures
            r@ == domain_point(self.offset@, self.omega@, index as nat),
    {
        self.offset.mul(self.omega.mod_pow_u64(index as u64))
    }

    /// All points of the domain, in order.
    pub fn b_domain_values(&self) -> (r: Vec<BFieldElement>)
        ensures
            r.len() == self.length,
            values(r@) == self.points(),
    {
        let mut out: Vec<BFieldElement> = Vec::new();
        let mut acc = BFieldElement::new(self.offset.value());
        let mut i: usize = 0;
        proof {
            lemma_mul_mod_unit(self.offset@);
            lemma_mod_twice(self.offset.0 as int, P as int);
        }
        while i < self.length
            invariant
                i <= self.length,
                out.len() == i,
                acc@ == domain_point(self.offset@, self.omega@, i as nat),
                forall|j: int|
                    0 <= j < i ==> out[j]@ == domain_point(self.offset@, self.omega@, j as nat),
            decreases self.length - i,
        {
            out.push(acc);
            proof {
                let pw = pow_mod(self.omega@, i as nat);
                lemma_mul_mod_assoc(self.offset@, pw, self.omega@);
                lemma_mul_mod_comm(pw, self.omega@);
            }
            acc = acc.mul(self.omega);
            i = i + 1;
        }
        assert(values(out@) =~= self.points());
        out
    }

    /// The codeword of a polynomial: its values at the points of the domain.
    pub fn b_evaluate(&self, polynomial: &Polynomial) -> (r: Vec<BFieldElement>)
        ensures
            r.len() == self.length,
            values(r@) == codeword_of(polynomial.coefficient_values(), self.points()),
    {
        let points = self.b_domain_values();
        let r = evaluate_at_points(polynomial, &points);
        r
    }

    /// The polynomial of least degree that has the given codeword: `None`
    /// where two points of the domain cannot be told apart.
    pub fn b_interpolate(&self, codeword: &Vec<BFieldElement>) -> (r: Option<Polynomial>)
        requires
            codeword.len() == self.length,
        ensures
            r is Some <==> interpolable(self.points(), self.length as nat),
            r is Some ==> r->Some_0.coefficient_values() == interpolant(
                self.points(),
                values(codeword@),
                self.length as nat,
            ),
    {
        let points = self.b_domain_values();
        Polynomial::interpolate(&points, codeword)
    }
}

/// The values of a polynomial at each of the given points.
pub fn evaluate_at_points(polynomial: &Polynomial, points: &Vec<BFieldElement>) -> (r: Vec<
    BFieldElement,
>)
    ensures
        r.len() == points.len(),
        values(r@) == codeword_of(polynomial.coefficient_values(), values(points@)),
{
    let mut out: Vec<BFieldElement> = Vec::new();
    let mut i: usize = 0;
    while i < points.len()
        invariant
            i <= points.len(),
            out.len() == i,
            forall|j: int|
                0 <= j < i ==> out[j]@ == eval(polynomial.coefficient_values(), points[j]@),
        decreases points.len() - i,
    {
        out.push(polynomial.evaluate(points[i]));
        i = i + 1;
    }
    assert(values(out@) =~= codeword_of(polynomial.coefficient_values(), values(points@)));
    out
}

/// Interpolation followed by evaluation gives the codeword back: the
/// interpolant of a codeword over a domain takes the codeword's values at
/// the domain's points.
pub proof fn lemma_interpolate_then_evaluate(domain: FriDomain, codeword: Seq<int>, i: int)
    requires
        interpolable(domain.points(), domain.length as nat),
        codeword.len() == domain.length,
        0 <= i < domain.length,
    ensures
        eval(interpolant(domain.points(), codeword, domain.length as nat), domain.points()[i])
            == codeword[i] % (P as int),
{
    lemma_interpolant_meets_points(domain.points(), codeword, domain.length as nat, i);
}

} // verus!
