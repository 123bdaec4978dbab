//! The extension field: polynomials of degree below three over the base
//! field, multiplied modulo `x^3 - x + 1`.

use crate::shared_math::b_field_element::add_mod;
use crate::shared_math::b_field_element::BFieldElement;
use crate::shared_math::b_field_element::mul_mod;
use crate::shared_math::b_field_element::sub_mod;
use vstd::prelude::*;
use vstd::std_specs::cmp::PartialEqSpecImpl;

verus! {

/// The value of an extension-field element: the coefficients of `1`, `x`
/// and `x^2`, each in the canonical range of the base field.
pub struct XValue {
    pub c0: int,
    pub c1: int,
    pub c2: int,
}

/// The zero of the extension field.
pub open spec fn x_zero() -> XValue {
    XValue { c0: 0, c1: 0, c2: 0 }
}

/// The one of the extension field.
pub open spec fn x_one() -> XValue {
    XValue { c0: 1, c1: 0, c2: 0 }
}

/// A base-field value seen as an element of the extension field.
pub open spec fn x_lift(b: int) -> XValue {
    XValue { c0: b, c1: 0, c2: 0 }
}

/// Sum in the extension field.
pub open spec fn x_add(a: XValue, b: XValue) -> XValue {
    XValue { c0: add_mod(a.c0, b.c0), c1: add_mod(a.c1, b.c1), c2: add_mod(a.c2, b.c2) }
}

/// Difference in the extension field.
pub open spec fn x_sub(a: XValue, b: XValue) -> XValue {
    XValue { c0: sub_mod(a.c0, b.c0), c1: sub_mod(a.c1, b.c1), c2: sub_mod(a.c2, b.c2) }
}

/// Product of an extension-field element with a base-field value.
pub open spec fn x_scale(a: XValue, k: int) -> XValue {
    XValue { c0: mul_mod(a.c0, k), c1: mul_mod(a.c1, k), c2: mul_mod(a.c2, k) }
}

/// Product in the extension field: the product of the two polynomials with
/// `x^3` replaced by `x - 1` and `x^4` by `x^2 - x`.
pub open spec fn x_mul(a: XValue, b: XValue) -> XValue {
    let high3 = add_mod(mul_mod(a.c2, b.c1), mul_mod(a.c1, b.c2));
    let high4 = mul_mod(a.c2, b.c2);
    XValue {
        c0: sub_mod(mul_mod(a.c0, b.c0), high3),
        c1: add_mod(
            sub_mod(add_mod(mul_mod(a.c1, b.c0), mul_mod(a.c0, b.c1)), high4),
            high3,
        ),
        c2: add_mod(
            add_mod(add_mod(mul_mod(a.c2, b.c0), mul_mod(a.c1, b.c1)), mul_mod(a.c0, b.c2)),
            high4,
        ),
    }
}

/// An element of the extension field.
#[derive(Clone, Copy, Debug)]
pub struct XFieldElement {
    pub coefficients: [BFieldElement; 3],
}

impl View for XFieldElement {
    type V = XValue;

    open spec fn view(&self) -> XValue {
        XValue {
            c0: self.coefficients[0]@,
            c1: self.coefficients[1]@,
            c2: self.coefficients[2]@,
        }
    }
}

impl PartialEq for XFieldElement {
    fn eq(&self, other: &Self) -> (r: bool) {
        self.coefficients[0] == other.coefficients[0] && self.coefficients[1]
            == other.coefficients[1] && self.coefficients[2] == other.coefficients[2]
    }
}

impl Eq for XFieldElement {

}

impl PartialEqSpecImpl for XFieldElement {
    open spec fn obeys_eq_spec() -> bool {
        true
    }

    open spec fn eq_spec(&self, other: &Self) -> bool {
        self@ == other@
    }
}

impl BFieldElement {
    /// The element seen as an element of the extension field.
    pub fn lift(&self) -> (r: XFieldElement)
        ensures
            r@ == x_lift(self@),
    {
        XFieldElement::new_const(*self)
    }
}

impl XFieldElement {
    /// The element with the given coefficients of `1`, `x` and `x^2`.
    pub fn new(coefficients: [BFieldElement; 3]) -> (r: Self)
        ensures
            r.coefficients == coefficients,
    {
        XFieldElement { coefficients }
    }

    /// The base-field element `element` seen as an element of the extension
    /// field.
    pub fn new_const(element: BFieldElement) -> (r: Self)
        ensures
            r@ == x_lift(element@),
    {
        XFieldElement {
            coefficients: [element, BFieldElement::ring_zero(), BFieldElement::ring_zero()],
        }
    }

    /// The additive identity.
    pub fn ring_zero() -> (r: Self)
        ensures
            r@ == x_zero(),
    {
        XFieldElement {
            coefficients: [
                BFieldElement::ring_zero(),
                BFieldElement::ring_zero(),
                BFieldElement::ring_zero(),
            ],
        }
    }

    /// The multiplicative identity.
    pub fn ring_one() -> (r: Self)
        ensures
            r@ == x_one(),
    {
        XFieldElement {
            coefficients: [
                BFieldElement::ring_one(),
                BFieldElement::ring_zero(),
                BFieldElement::ring_zero(),
            ],
        }
    }

    /// The base-field element that this is, where it is one.
    pub fn unlift(&self) -> (r: Option<BFieldElement>)
        ensures
            match r {
                Some(b) => self@ == x_lift(b@),
                None => self@.c1 != 0 || self@.c2 != 0,
            },
    {
        if self.coefficients[1].is_zero() && self.coefficients[2].is_zero() {
            Some(self.coefficients[0])
        } else {
            None
        }
    }

    pub fn is_zero(&self) -> (r: bool)
        ensures
            r == (self@ == x_zero()),
    {
        self.coefficients[0].is_zero() && self.coefficients[1].is_zero()
            && self.coefficients[2].is_zero()
    }

    pub fn add(&self, rhs: Self) -> (r: Self)
        ensures
            r@ == x_add(self@, rhs@),
    {
        XFieldElement {
            coefficients: [
                self.coefficients[0].add(rhs.coefficients[0]),
                self.coefficients[1].add(rhs.coefficients[1]),
                self.coefficients[2].add(rhs.coefficients[2]),
            ],
        }
    }

    pub fn sub(&self, rhs: Self) -> (r: Self)
        ensures
            r@ == x_sub(self@, rhs@),
    {
        XFieldElement {
            coefficients: [
                self.coefficients[0].sub(rhs.coefficients[0]),
                self.coefficients[1].sub(rhs.coefficients[1]),
                self.coefficients[2].sub(rhs.coefficients[2]),
            ],
        }
    }

    /// The product with a base-field element.
    pub fn scale(&self, k: BFieldElement) -> (r: Self)
        ensures
            r@ == x_scale(self@, k@),
    {
        XFieldElement {
            coefficients: [
                self.coefficients[0].mul(k),
                self.coefficients[1].mul(k),
                self.coefficients[2].mul(k),
            ],
        }
    }

    pub fn mul(&self, rhs: Self) -> (r: Self)
        ensures
            r@ == x_mul(self@, rhs@),
    {
        let a0 = self.coefficients[0];
        let a1 = self.coefficients[1];
        let a2 = self.coefficients[2];
        let b0 = rhs.coefficients[0];
        let b1 = rhs.coefficients[1];
        let b2 = rhs.coefficients[2];
        let high3 = a2.mul(b1).add(a1.mul(b2));
        let high4 = a2.mul(b2);
        let c0 = a0.mul(b0).sub(high3);
        let c1 = a1.mul(b0).add(a0.mul(b1)).sub(high4).add(high3);
        let c2 = a2.mul(b0).add(a1.mul(b1)).add(a0.mul(b2)).add(high4);
        XFieldElement { coefficients: [c0, c1, c2] }
    }
}

} // verus!
