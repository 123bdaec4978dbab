//! Polynomials in several variables over the extension field, kept as the
//! expressions that define them.

use crate::shared_math::b_field_element::BFieldElement;
use crate::shared_math::x_field_element::x_add;
use crate::shared_math::x_field_element::x_mul;
use crate::shared_math::x_field_element::x_sub;
use crate::shared_math::x_field_element::XFieldElement;
use crate::shared_math::x_field_element::XValue;
use vstd::prelude::*;

verus! {

/// A degree of a polynomial, or a bound on one; the zero polynomial has
/// degree -1.
pub type Degree = i64;

/// The largest degree per variable, in absolute value, for which degree
/// bounds are computed.
pub const DEGREE_LIMIT: i64 = 0x100_0000_0000;

/// The largest total degree for which degree bounds are computed.
pub const TOTAL_DEGREE_LIMIT: u64 = 0x10_0000;

/// The values of a sequence of extension-field elements.
pub open spec fn x_values(s: Seq<XFieldElement>) -> Seq<XValue> {
    Seq::new(s.len(), |i: int| s[i]@)
}

/// The values of a sequence of degrees.
pub open spec fn degree_values(s: Seq<Degree>) -> Seq<int> {
    Seq::new(s.len(), |i: int| s[i] as int)
}

/// The element of the extension field that the small number `v` stands for.
pub open spec fn x_constant(v: u64) -> XFieldElement {
    XFieldElement { coefficients: [BFieldElement(v), BFieldElement(0), BFieldElement(0)] }
}

/// The element of the extension field that the small number `v` stands for.
#[verifier::when_used_as_spec(x_constant)]
pub fn x_constant_of(v: u64) -> (r: XFieldElement)
    ensures
        r == x_constant(v),
{
    let r = XFieldElement { coefficients: [BFieldElement(v), BFieldElement(0), BFieldElement(0)] };
    assert(r.coefficients =~= x_constant(v).coefficients);
    r
}

/// A polynomial in several variables: a constant, a variable by its index,
/// or the sum, difference or product of two polynomials.
#[derive(Debug)]
pub enum MPolynomial {
    Constant(XFieldElement),
    Variable(usize),
    Sum(Box<MPolynomial>, Box<MPolynomial>),
    Difference(Box<MPolynomial>, Box<MPolynomial>),
    Product(Box<MPolynomial>, Box<MPolynomial>),
}

impl MPolynomial {
    /// The value of the polynomial where variable `i` is `point[i]`.
    pub open spec fn value(&self, point: Seq<XValue>) -> XValue
        decreases self,
    {
        match self {
            MPolynomial::Constant(c) => c@,
            MPolynomial::Variable(i) => point[*i as int],
            MPolynomial::Sum(a, b) => x_add(a.value(point), b.value(point)),
            MPolynomial::Difference(a, b) => x_sub(a.value(point), b.value(point)),
            MPolynomial::Product(a, b) => x_mul(a.value(point), b.value(point)),
        }
    }

    /// The number of variables that the polynomial is written in: one more
    /// than the largest index of a variable in it, and zero where it has
    /// none.
    pub open spec fn variable_count(&self) -> nat
        decreases self,
    {
        match self {
            MPolynomial::Constant(_) => 0,
            MPolynomial::Variable(i) => (*i + 1) as nat,
            MPolynomial::Sum(a, b) => if a.variable_count() >= b.variable_count() {
                a.variable_count()
            } else {
                b.variable_count()
            },
            MPolynomial::Difference(a, b) => if a.variable_count() >= b.variable_count() {
                a.variable_count()
            } else {
                b.variable_count()
            },
            MPolynomial::Product(a, b) => if a.variable_count() >= b.variable_count() {
                a.variable_count()
            } else {
                b.variable_count()
            },
        }
    }

    /// Whether every variable of the polynomial has an index below
    /// `variable_count`.
    pub open spec fn fits(&self, variable_count: nat) -> bool {
        self.variable_count() <= variable_count
    }

    /// The degree that the polynomial has at most once each variable `i` is
    /// replaced by a polynomial in one variable of degree `max_degrees[i]`:
    /// that of a constant is 0, that of a sum or difference the larger of
    /// the two, that of a product their sum.
    pub open spec fn degree_bound(&self, max_degrees: Seq<int>) -> int
        decreases self,
    {
        match self {
            MPolynomial::Constant(_) => 0,
            MPolynomial::Variable(i) => max_degrees[*i as int],
            MPolynomial::Sum(a, b) => {
                let x = a.degree_bound(max_degrees);
                let y = b.degree_bound(max_degrees);
                if x >= y {
                    x
                } else {
                    y
                }
            },
            MPolynomial::Difference(a, b) => {
                let x = a.degree_bound(max_degrees);
                let y = b.degree_bound(max_degrees);
                if x >= y {
                    x
                } else {
                    y
                }
            },
            MPolynomial::Product(a, b) => a.degree_bound(max_degrees) + b.degree_bound(
                max_degrees,
            ),
        }
    }

    /// The total degree of the expression: the largest number of variables,
    /// counted with repetition, that it multiplies together.
    pub open spec fn total_degree(&self) -> nat
        decreases self,
    {
        match self {
            MPolynomial::Constant(_) => 0,
            MPolynomial::Variable(_) => 1,
            MPolynomial::Sum(a, b) => if a.total_degree() >= b.total_degree() {
                a.total_degree()
            } else {
                b.total_degree()
            },
            MPolynomial::Difference(a, b) => if a.total_degree() >= b.total_degree() {
                a.total_degree()
            } else {
                b.total_degree()
            },
            MPolynomial::Product(a, b) => a.total_degree() + b.total_degree(),
        }
    }

    /// A degree bound is at most the total degree times the largest degree of
    /// a variable, in absolute value.
    pub proof fn lemma_degree_bound_range(&self, max_degrees: Seq<int>)
        requires
            self.fits(max_degrees.len()),
            forall|i: int|
                0 <= i < max_degrees.len() ==> -DEGREE_LIMIT <= #[trigger] max_degrees[i]
                    <= DEGREE_LIMIT,
        ensures
            -self.total_degree() * DEGREE_LIMIT <= self.degree_bound(max_degrees)
                <= self.total_degree() * DEGREE_LIMIT,
        decreases self,
    {
        match self {
            MPolynomial::Constant(_) => {},
            MPolynomial::Variable(_) => {},
            MPolynomial::Sum(a, b) => {
                a.lemma_degree_bound_range(max_degrees);
                b.lemma_degree_bound_range(max_degrees);
            },
            MPolynomial::Difference(a, b) => {
                a.lemma_degree_bound_range(max_degrees);
                b.lemma_degree_bound_range(max_degrees);
            },
            MPolynomial::Product(a, b) => {
                a.lemma_degree_bound_range(max_degrees);
                b.lemma_degree_bound_range(max_degrees);
            },
        }
    }

    /// A copy of the polynomial.
    pub fn duplicate(&self) -> (r: Self)
        ensures
            r == *self,
        decreases self,
    {
        match self {
            MPolynomial::Constant(c) => MPolynomial::Constant(*c),
            MPolynomial::Variable(i) => MPolynomial::Variable(*i),
            MPolynomial::Sum(a, b) => MPolynomial::Sum(
                Box::new(a.duplicate()),
                Box::new(b.duplicate()),
            ),
            MPolynomial::Difference(a, b) => MPolynomial::Difference(
                Box::new(a.duplicate()),
                Box::new(b.duplicate()),
            ),
            MPolynomial::Product(a, b) => MPolynomial::Product(
                Box::new(a.duplicate()),
                Box::new(b.duplicate()),
            ),
        }
    }

    /// The value of the polynomial at `point`.
    pub fn evaluate(&self, point: &Vec<XFieldElement>) -> (r: XFieldElement)
        requires
            self.fits(point.len() as nat),
        ensures
            r@ == self.value(x_values(point@)),
        decreases self,
    {
        match self {
            MPolynomial::Constant(c) => *c,
            MPolynomial::Variable(i) => point[*i],
            MPolynomial::Sum(a, b) => a.evaluate(point).add(b.evaluate(point)),
            MPolynomial::Difference(a, b) => a.evaluate(point).sub(b.evaluate(point)),
            MPolynomial::Product(a, b) => a.evaluate(point).mul(b.evaluate(point)),
        }
    }

    /// The bound on the degree that the polynomial has once each variable
    /// `i` is replaced by a polynomial in one variable of degree
    /// `max_degrees[i]`.
    pub fn symbolic_degree_bound(&self, max_degrees: &Vec<Degree>) -> (r: Degree)
        requires
            self.fits(max_degrees.len() as nat),
            self.total_degree() <= TOTAL_DEGREE_LIMIT,
            forall|i: int|
                0 <= i < max_degrees.len() ==> -DEGREE_LIMIT <= #[trigger] max_degrees[i]
                    <= DEGREE_LIMIT,
        ensures
            r == self.degree_bound(degree_values(max_degrees@)),
        decreases self,
    {
        match self {
            MPolynomial::Constant(_) => 0,
            MPolynomial::Variable(i) => max_degrees[*i],
            MPolynomial::Sum(a, b) => {
                let x = a.symbolic_degree_bound(max_degrees);
                let y = b.symbolic_degree_bound(max_degrees);
                if x >= y {
                    x
                } else {
                    y
                }
            },
            MPolynomial::Difference(a, b) => {
                let x = a.symbolic_degree_bound(max_degrees);
                let y = b.symbolic_degree_bound(max_degrees);
                if x >= y {
                    x
                } else {
                    y
                }
            },
            MPolynomial::Product(a, b) => {
                proof {
                    a.lemma_degree_bound_range(degree_values(max_degrees@));
                    b.lemma_degree_bound_range(degree_values(max_degrees@));
                    assert(a.total_degree() * DEGREE_LIMIT + b.total_degree() * DEGREE_LIMIT
                        <= TOTAL_DEGREE_LIMIT * DEGREE_LIMIT) by (nonlinear_arith)
                        requires
                            a.total_degree() + b.total_degree() <= TOTAL_DEGREE_LIMIT,
                    ;
                }
                let x = a.symbolic_degree_bound(max_degrees);
                let y = b.symbolic_degree_bound(max_degrees);
                x + y
            },
        }
    }
}

/// The index `b` places after `a`.
pub open spec fn spec_offset(a: usize, b: usize) -> usize {
    (a + b) as usize
}

/// The index `b` places after `a`.
#[verifier::when_used_as_spec(spec_offset)]
pub fn offset(a: usize, b: usize) -> (r: usize)
    requires
        a + b <= usize::MAX,
    ensures
        r == spec_offset(a, b),
        r == a + b,
{
    a + b
}

/// The variable of index `i`.
pub open spec fn spec_variable(i: usize) -> MPolynomial {
    MPolynomial::Variable(i)
}

/// The variable of index `i`.
#[verifier::when_used_as_spec(spec_variable)]
pub fn variable(i: usize) -> (r: MPolynomial)
    ensures
        r == spec_variable(i),
        r.variable_count() == i + 1,
        r.total_degree() == 1,
{
    MPolynomial::Variable(i)
}

/// The constant that the small number `v` stands for.
pub open spec fn spec_constant(v: u64) -> MPolynomial {
    MPolynomial::Constant(x_constant(v))
}

/// The constant that the small number `v` stands for.
#[verifier::when_used_as_spec(spec_constant)]
pub fn constant(v: u64) -> (r: MPolynomial)
    ensures
        r == spec_constant(v),
        r.variable_count() == 0,
        r.total_degree() == 0,
{
    MPolynomial::Constant(x_constant_of(v))
}

/// The sum of two polynomials.
pub open spec fn spec_sum(a: MPolynomial, b: MPolynomial) -> MPolynomial {
    MPolynomial::Sum(Box::new(a), Box::new(b))
}

/// The sum of two polynomials.
#[verifier::when_used_as_spec(spec_sum)]
pub fn sum(a: MPolynomial, b: MPolynomial) -> (r: MPolynomial)
    ensures
        r == spec_sum(a, b),
        r.variable_count() >= a.variable_count(),
        r.variable_count() >= b.variable_count(),
        r.variable_count() == a.variable_count() || r.variable_count() == b.variable_count(),
        r.total_degree() >= a.total_degree(),
        r.total_degree() >= b.total_degree(),
        r.total_degree() == a.total_degree() || r.total_degree() == b.total_degree(),
{
    MPolynomial::Sum(Box::new(a), Box::new(b))
}

/// The difference of two polynomials.
pub open spec fn spec_difference(a: MPolynomial, b: MPolynomial) -> MPolynomial {
    MPolynomial::Difference(Box::new(a), Box::new(b))
}

/// The difference of two polynomials.
#[verifier::when_used_as_spec(spec_difference)]
pub fn difference(a: MPolynomial, b: MPolynomial) -> (r: MPolynomial)
    ensures
        r == spec_difference(a, b),
        r.variable_count() >= a.variable_count(),
        r.variable_count() >= b.variable_count(),
        r.variable_count() == a.variable_count() || r.variable_count() == b.variable_count(),
        r.total_degree() >= a.total_degree(),
        r.total_degree() >= b.total_degree(),
        r.total_degree() == a.total_degree() || r.total_degree() == b.total_degree(),
{
    MPolynomial::Difference(Box::new(a), Box::new(b))
}

/// The product of two polynomials.
pub open spec fn spec_product(a: MPolynomial, b: MPolynomial) -> MPolynomial {
    MPolynomial::Product(Box::new(a), Box::new(b))
}

/// The product of two polynomials.
#[verifier::when_used_as_spec(spec_product)]
pub fn product(a: MPolynomial, b: MPolynomial) -> (r: MPolynomial)
    ensures
        r == spec_product(a, b),
        r.variable_count() >= a.variable_count(),
        r.variable_count() >= b.variable_count(),
        r.variable_count() == a.variable_count() || r.variable_count() == b.variable_count(),
        r.total_degree() == a.total_degree() + b.total_degree(),
{
    MPolynomial::Product(Box::new(a), Box::new(b))
}

} // verus!
