//! Polynomials in one variable over the base field, and the polynomial of
//! least degree through given points.

use crate::shared_math::b_field_element::add_mod;
use crate::shared_math::b_field_element::BFieldElement;
use crate::shared_math::b_field_element::has_inverse;
use crate::shared_math::b_field_element::inverse_of;
use crate::shared_math::b_field_element::lemma_add_mod_reduce;
use crate::shared_math::b_field_element::lemma_add_mod_regroup;
use crate::shared_math::b_field_element::lemma_add_mod_zero;
use crate::shared_math::b_field_element::lemma_inverse_of;
use crate::shared_math::b_field_element::lemma_mul_mod_assoc;
use crate::shared_math::b_field_element::lemma_mul_mod_comm;
use crate::shared_math::b_field_element::lemma_mul_mod_distributes;
use crate::shared_math::b_field_element::lemma_mul_mod_reduce;
use crate::shared_math::b_field_element::lemma_mul_mod_unit;
use crate::shared_math::b_field_element::mul_mod;
use crate::shared_math::b_field_element::neg_mod;
use crate::shared_math::b_field_element::P;
use crate::shared_math::b_field_element::sub_mod;
use crate::shared_math::b_field_element::values;
use vstd::arithmetic::div_mod::*;
use vstd::prelude::*;

verus! {

/// The coefficient of `z^i`, zero beyond the stored coefficients.
pub open spec fn coef(c: Seq<int>, i: int) -> int {
    if 0 <= i < c.len() {
        c[i]
    } else {
        0
    }
}

/// The coefficients without the constant one.
pub open spec fn tail(c: Seq<int>) -> Seq<int> {
    if c.len() == 0 {
        c
    } else {
        c.subrange(1, c.len() as int)
    }
}

/// The value at `z` of the polynomial with coefficients `c`, lowest first.
pub open spec fn eval(c: Seq<int>, z: int) -> int
    decreases c.len(),
{
    if c.len() == 0 {
        0
    } else {
        add_mod(c[0], mul_mod(z, eval(c.subrange(1, c.len() as int), z)))
    }
}

/// The sum of two polynomials.
pub open spec fn poly_add(p: Seq<int>, q: Seq<int>) -> Seq<int> {
    Seq::new(
        if p.len() >= q.len() {
            p.len()
        } else {
            q.len()
        },
        |i: int| add_mod(coef(p, i), coef(q, i)),
    )
}

/// The polynomial multiplied by the constant `a`.
pub open spec fn poly_scale(p: Seq<int>, a: int) -> Seq<int> {
    Seq::new(p.len(), |i: int| mul_mod(a, p[i]))
}

/// The polynomial multiplied by `z`.
pub open spec fn poly_shift(p: Seq<int>) -> Seq<int> {
    seq![0int] + p
}

/// The polynomial multiplied by `z - x`.
pub open spec fn poly_mul_linear(p: Seq<int>, x: int) -> Seq<int> {
    poly_add(poly_shift(p), poly_scale(p, neg_mod(x)))
}

/// The product of `z - xs[k]` over the first `m` points.
pub open spec fn node_polynomial(xs: Seq<int>, m: nat) -> Seq<int>
    decreases m,
{
    if m == 0 {
        seq![1int]
    } else {
        poly_mul_linear(node_polynomial(xs, (m - 1) as nat), xs[m - 1])
    }
}

/// Newton's interpolant through the first `m` of the points `(xs[k], ys[k])`:
/// the interpolant through the points before the last, corrected by a
/// multiple of their node polynomial.
pub open spec fn interpolant(xs: Seq<int>, ys: Seq<int>, m: nat) -> Seq<int>
    decreases m,
{
    if m == 0 {
        Seq::<int>::empty()
    } else {
        let prev = interpolant(xs, ys, (m - 1) as nat);
        let w = node_polynomial(xs, (m - 1) as nat);
        let x = xs[m - 1];
        let a = mul_mod(sub_mod(ys[m - 1], eval(prev, x)), inverse_of(eval(w, x)));
        poly_add(prev, poly_scale(w, a))
    }
}

/// The value of the node polynomial of the points before `xs[k]` at `xs[k]`.
pub open spec fn node_value(xs: Seq<int>, k: int) -> int {
    eval(node_polynomial(xs, k as nat), xs[k])
}

/// Whether the first `m` points can be interpolated: each one's node value
/// has an inverse, which in a field says that the points are distinct.
pub open spec fn interpolable(xs: Seq<int>, m: nat) -> bool {
    forall|k: int| 0 <= k < m ==> has_inverse(#[trigger] node_value(xs, k))
}

/// The degree of the polynomial with coefficients `c`: the index of its last
/// coefficient that is not zero, and -1 where there is none.
pub open spec fn degree_of(c: Seq<int>) -> int
    decreases c.len(),
{
    if c.len() == 0 {
        -1
    } else if c.last() % (P as int) != 0 {
        c.len() - 1
    } else {
        degree_of(c.drop_last())
    }
}

/// The value of a polynomial in terms of its constant coefficient and the
/// value of the rest.
pub proof fn lemma_eval_unfold(c: Seq<int>, z: int)
    ensures
        eval(c, z) == add_mod(coef(c, 0), mul_mod(z, eval(tail(c), z))),
{
    if c.len() == 0 {
        lemma_mul_mod_unit(z);
        lemma_add_mod_zero(0);
        lemma_small_mod(0, P as nat);
    }
}

/// The value of a sum is the sum of the values.
pub proof fn lemma_eval_add(p: Seq<int>, q: Seq<int>, z: int)
    ensures
        eval(poly_add(p, q), z) == add_mod(eval(p, z), eval(q, z)),
    decreases p.len() + q.len(),
{
    let r = poly_add(p, q);
    if p.len() == 0 && q.len() == 0 {
        lemma_add_mod_zero(0);
        lemma_small_mod(0, P as nat);
    } else {
        assert(tail(r) =~= poly_add(tail(p), tail(q)));
        lemma_eval_add(tail(p), tail(q), z);
        lemma_eval_unfold(r, z);
        lemma_eval_unfold(p, z);
        lemma_eval_unfold(q, z);
        let ep = eval(tail(p), z);
        let eq = eval(tail(q), z);
        lemma_mul_mod_distributes(z, ep, eq);
        lemma_add_mod_regroup(coef(p, 0), coef(q, 0), mul_mod(z, ep), mul_mod(z, eq));
    }
}

/// The value of a multiple is the multiple of the value.
pub proof fn lemma_eval_scale(p: Seq<int>, a: int, z: int)
    ensures
        eval(poly_scale(p, a), z) == mul_mod(a, eval(p, z)),
    decreases p.len(),
{
    let r = poly_scale(p, a);
    if p.len() == 0 {
        lemma_mul_mod_unit(a);
    } else {
        assert(tail(r) =~= poly_scale(tail(p), a));
        lemma_eval_scale(tail(p), a, z);
        let e = eval(tail(p), z);
        lemma_mul_mod_assoc(z, a, e);
        lemma_mul_mod_comm(z, a);
        lemma_mul_mod_assoc(a, z, e);
        lemma_mul_mod_distributes(a, p[0], mul_mod(z, e));
    }
}

/// The value of `z` times a polynomial.
pub proof fn lemma_eval_shift(p: Seq<int>, z: int)
    ensures
        eval(poly_shift(p), z) == mul_mod(z, eval(p, z)),
{
    let r = poly_shift(p);
    assert(r.subrange(1, r.len() as int) =~= p);
    lemma_add_mod_zero(mul_mod(z, eval(p, z)));
    lemma_mod_twice(z * eval(p, z), P as int);
}

/// The value of `z - x` times a polynomial.
pub proof fn lemma_eval_mul_linear(p: Seq<int>, x: int, z: int)
    ensures
        eval(poly_mul_linear(p, x), z) == mul_mod(eval(p, z), sub_mod(z, x)),
{
    let e = eval(p, z);
    lemma_eval_add(poly_shift(p), poly_scale(p, neg_mod(x)), z);
    lemma_eval_shift(p, z);
    lemma_eval_scale(p, neg_mod(x), z);
    // z * e + (-x) * e == e * (z - x)
    lemma_mul_mod_comm(z, e);
    lemma_mul_mod_comm(neg_mod(x), e);
    lemma_mul_mod_distributes(e, z, neg_mod(x));
    lemma_mul_mod_reduce(e, z + neg_mod(x));
    lemma_mul_mod_reduce(e, z - x);
    lemma_add_mod_reduce(z, -x);
    assert(add_mod(z, neg_mod(x)) == sub_mod(z, x));
}

/// The node polynomial of the first `m` points vanishes at each of them.
pub proof fn lemma_node_polynomial_vanishes(xs: Seq<int>, m: nat, i: int)
    requires
        0 <= i < m,
    ensures
        eval(node_polynomial(xs, m), xs[i]) == 0,
    decreases m,
{
    let w = node_polynomial(xs, (m - 1) as nat);
    lemma_eval_mul_linear(w, xs[m - 1], xs[i]);
    if i == m - 1 {
        lemma_add_mod_zero(xs[i]);
        lemma_mul_mod_unit(eval(w, xs[i]));
    } else {
        lemma_node_polynomial_vanishes(xs, (m - 1) as nat, i);
        lemma_mul_mod_unit(sub_mod(xs[i], xs[m - 1]));
    }
}

/// Where the first `m` points can be interpolated, the interpolant takes at
/// each `xs[i]` the value `ys[i]`.
pub proof fn lemma_interpolant_meets_points(xs: Seq<int>, ys: Seq<int>, m: nat, i: int)
    requires
        interpolable(xs, m),
        0 <= i < m,
    ensures
        eval(interpolant(xs, ys, m), xs[i]) == ys[i] % (P as int),
    decreases m,
{
    let prev = interpolant(xs, ys, (m - 1) as nat);
    let w = node_polynomial(xs, (m - 1) as nat);
    let x = xs[m - 1];
    let d = eval(w, x);
    let e = eval(prev, x);
    let a = mul_mod(sub_mod(ys[m - 1], e), inverse_of(d));
    lemma_eval_add(prev, poly_scale(w, a), xs[i]);
    lemma_eval_scale(w, a, xs[i]);
    if i == m - 1 {
        assert(has_inverse(node_value(xs, m - 1)));
        assert(mul_mod(d, inverse_of(d)) == 1);
        let s = sub_mod(ys[m - 1], e);
        // a * d == s
        lemma_mul_mod_assoc(s, inverse_of(d), d);
        lemma_mul_mod_comm(inverse_of(d), d);
        lemma_mul_mod_unit(s);
        lemma_mod_twice(ys[m - 1] - e, P as int);
        assert(mul_mod(a, d) == s);
        // e + (y - e) == y
        lemma_add_mod_reduce(e, ys[m - 1] - e);
        assert(add_mod(e, s) == ys[i] % (P as int));
    } else {
        assert(interpolable(xs, (m - 1) as nat)) by {
            assert forall|k: int| 0 <= k < m - 1 implies has_inverse(
                #[trigger] node_value(xs, k),
            ) by {}
        }
        lemma_interpolant_meets_points(xs, ys, (m - 1) as nat, i);
        lemma_node_polynomial_vanishes(xs, (m - 1) as nat, i);
        lemma_mul_mod_unit(a);
        lemma_add_mod_zero(eval(prev, xs[i]));
        lemma_mod_twice(ys[i], P as int);
    }
}

/// The node polynomial of `m` points has `m + 1` coefficients, and the
/// interpolant through `m` points has `m`.
pub proof fn lemma_interpolant_length(xs: Seq<int>, ys: Seq<int>, m: nat)
    ensures
        node_polynomial(xs, m).len() == m + 1,
        interpolant(xs, ys, m).len() == m,
    decreases m,
{
    if m > 0 {
        lemma_interpolant_length(xs, ys, (m - 1) as nat);
    }
}

/// The value of a polynomial is in the canonical range.
pub proof fn lemma_eval_range(c: Seq<int>, z: int)
    ensures
        0 <= eval(c, z) < P,
{
    if c.len() > 0 {
        lemma_mod_bound(c[0] + mul_mod(z, eval(c.subrange(1, c.len() as int), z)), P as int);
    }
}

/// Where a product has an inverse, so has each factor.
pub proof fn lemma_factors_have_inverses(a: int, b: int)
    requires
        has_inverse(mul_mod(a, b)),
    ensures
        has_inverse(a),
        has_inverse(b),
{
    let u = inverse_of(mul_mod(a, b));
    assert(mul_mod(mul_mod(a, b), u) == 1);
    lemma_mul_mod_assoc(a, b, u);
    lemma_mod_bound(b * u, P as int);
    assert(mul_mod(a, mul_mod(b, u)) == 1);
    lemma_mul_mod_comm(a, b);
    lemma_mul_mod_assoc(b, a, u);
    lemma_mod_bound(a * u, P as int);
    assert(mul_mod(b, mul_mod(a, u)) == 1);
}

/// Where a difference has an inverse, so has the difference the other way
/// round.
pub proof fn lemma_difference_either_way(a: int, b: int)
    requires
        has_inverse(sub_mod(a, b)),
    ensures
        has_inverse(sub_mod(b, a)),
{
    let u = inverse_of(sub_mod(a, b));
    let v = neg_mod(u);
    assert(mul_mod(sub_mod(a, b), u) == 1);
    lemma_mod_bound(-u, P as int);
    lemma_mul_mod_reduce(a - b, u);
    lemma_mul_mod_reduce(b - a, v);
    lemma_mul_mod_reduce(b - a, -u);
    assert((b - a) * (-u) == (a - b) * u) by (nonlinear_arith);
    assert(mul_mod(sub_mod(b, a), v) == 1);
}

/// Where a value with an inverse times a value of the field is zero, the
/// value of the field is zero.
pub proof fn lemma_no_zero_divisor(d: int, q: int)
    requires
        has_inverse(d),
        0 <= q < P,
        mul_mod(d, q) == 0,
    ensures
        q == 0,
{
    let u = inverse_of(d);
    lemma_mul_mod_comm(d, u);
    lemma_mul_mod_assoc(u, d, q);
    lemma_mul_mod_unit(q);
    lemma_mul_mod_unit(u);
    lemma_small_mod(q as nat, P as nat);
}

/// Where the node polynomial of the first `k` points has a value with an
/// inverse at `z`, the difference of `z` and each of the points has one.
pub proof fn lemma_node_differences(xs: Seq<int>, k: nat, z: int, j: int)
    requires
        has_inverse(eval(node_polynomial(xs, k), z)),
        0 <= j < k,
    ensures
        has_inverse(sub_mod(z, xs[j])),
    decreases k,
{
    let w = node_polynomial(xs, (k - 1) as nat);
    lemma_eval_mul_linear(w, xs[k - 1], z);
    lemma_factors_have_inverses(eval(w, z), sub_mod(z, xs[k - 1]));
    if j < k - 1 {
        lemma_node_differences(xs, (k - 1) as nat, z, j);
    }
}

/// The quotient of a polynomial by `z - r`: its first coefficient is the
/// value of the rest of the polynomial at `r`.
pub open spec fn quotient_by_linear(c: Seq<int>, r: int) -> Seq<int>
    decreases c.len(),
{
    if c.len() <= 1 {
        Seq::<int>::empty()
    } else {
        seq![eval(tail(c), r)] + quotient_by_linear(tail(c), r)
    }
}

/// A polynomial is its value at `r` plus `z - r` times its quotient by
/// `z - r`, which has one coefficient less.
pub proof fn lemma_divide_by_linear(c: Seq<int>, r: int, z: int)
    ensures
        eval(c, z) == add_mod(
            eval(c, r),
            mul_mod(sub_mod(z, r), eval(quotient_by_linear(c, r), z)),
        ),
        c.len() > 0 ==> quotient_by_linear(c, r).len() == c.len() - 1,
        c.len() == 0 ==> quotient_by_linear(c, r).len() == 0,
    decreases c.len(),
{
    let p = P as int;
    let d = sub_mod(z, r);
    if c.len() <= 1 {
        let whole = quotient_by_linear(c, r);
        assert(whole.len() == 0);
        assert(eval(whole, z) == 0);
        lemma_mul_mod_unit(d);
        lemma_eval_range(c, z);
        lemma_eval_range(c, r);
        lemma_add_mod_zero(eval(c, r));
        lemma_small_mod(eval(c, r) as nat, P as nat);
        if c.len() == 1 {
            let rest = c.subrange(1, c.len() as int);
            assert(rest.len() == 0);
            assert(eval(rest, z) == 0);
            assert(eval(rest, r) == 0);
            lemma_mul_mod_unit(z);
            lemma_mul_mod_unit(r);
            assert(eval(c, z) == add_mod(c[0], 0));
            assert(eval(c, r) == add_mod(c[0], 0));
        } else {
            assert(eval(c, z) == 0);
            assert(eval(c, r) == 0);
        }
        assert(eval(c, z) == add_mod(eval(c, r), mul_mod(d, eval(whole, z))));
    } else {
        let t = tail(c);
        let q = quotient_by_linear(t, r);
        let whole = quotient_by_linear(c, r);
        lemma_divide_by_linear(t, r, z);
        let a0 = c[0];
        let tz = eval(t, z);
        let tr = eval(t, r);
        let qz = eval(q, z);
        assert(whole.subrange(1, whole.len() as int) =~= q);
        assert(whole[0] == tr);
        assert(eval(whole, z) == add_mod(tr, mul_mod(z, qz)));
        assert(tz == add_mod(tr, mul_mod(d, qz)));
        // the left side as one remainder
        lemma_mul_mod_reduce(z - r, qz);
        lemma_add_mod_reduce(tr, (z - r) * qz);
        assert(tz == (tr + (z - r) * qz) % p);
        lemma_mul_mod_reduce(z, tr + (z - r) * qz);
        lemma_add_mod_reduce(a0, z * (tr + (z - r) * qz));
        assert(eval(c, z) == (a0 + z * (tr + (z - r) * qz)) % p);
        // the right side as one remainder
        lemma_add_mod_reduce(a0, r * tr);
        assert(eval(c, r) == (a0 + r * tr) % p);
        lemma_add_mod_reduce(tr, z * qz);
        lemma_mul_mod_reduce(z - r, tr + z * qz);
        lemma_mul_mod_reduce(z - r, (tr + z * qz) % p);
        assert(mul_mod(d, eval(whole, z)) == ((z - r) * (tr + z * qz)) % p);
        lemma_add_mod_reduce(a0 + r * tr, (z - r) * (tr + z * qz));
        lemma_add_mod_reduce((a0 + r * tr) % p, (z - r) * (tr + z * qz));
        assert(add_mod(eval(c, r), mul_mod(d, eval(whole, z))) == (a0 + r * tr + (z - r) * (tr
            + z * qz)) % p);
        assert(a0 + z * (tr + (z - r) * qz) == a0 + r * tr + (z - r) * (tr + z * qz))
            by (nonlinear_arith);
        assert(eval(c, z) == add_mod(eval(c, r), mul_mod(d, eval(whole, z))));
    }
}

/// A polynomial with no more coefficients than it has zeros among points
/// that can be interpolated is zero everywhere.
pub proof fn lemma_vanishing_polynomial_is_zero(xs: Seq<int>, f: Seq<int>, m: nat, z: int)
    requires
        interpolable(xs, m),
        f.len() <= m,
        forall|i: int| 0 <= i < m ==> eval(f, #[trigger] xs[i]) == 0,
    ensures
        eval(f, z) == 0,
    decreases m,
{
    if f.len() > 0 {
        let r = xs[m - 1];
        let q = quotient_by_linear(f, r);
        assert(eval(f, xs[m - 1]) == 0);
        assert(has_inverse(node_value(xs, m - 1)));
        assert(interpolable(xs, (m - 1) as nat)) by {
            assert forall|k: int| 0 <= k < m - 1 implies has_inverse(
                #[trigger] node_value(xs, k),
            ) by {}
        }
        assert forall|i: int| 0 <= i < m - 1 implies eval(q, #[trigger] xs[i]) == 0 by {
            lemma_divide_by_linear(f, r, xs[i]);
            lemma_node_differences(xs, (m - 1) as nat, r, i);
            lemma_difference_either_way(r, xs[i]);
            lemma_eval_range(q, xs[i]);
            let product = mul_mod(sub_mod(xs[i], r), eval(q, xs[i]));
            assert(eval(f, xs[i]) == 0);
            lemma_mod_bound(sub_mod(xs[i], r) * eval(q, xs[i]), P as int);
            lemma_add_mod_zero(product);
            lemma_small_mod(product as nat, P as nat);
            lemma_no_zero_divisor(sub_mod(xs[i], r), eval(q, xs[i]));
        }
        lemma_divide_by_linear(f, r, z);
        lemma_vanishing_polynomial_is_zero(xs, q, (m - 1) as nat, z);
        lemma_mul_mod_unit(sub_mod(z, r));
        lemma_add_mod_zero(0);
        lemma_small_mod(0, P as nat);
    }
}

/// Two polynomials with no more coefficients than there are points, which
/// agree at points that can be interpolated, agree everywhere: there is one
/// interpolant only.
pub proof fn lemma_interpolant_is_unique(xs: Seq<int>, f: Seq<int>, g: Seq<int>, m: nat, z: int)
    requires
        interpolable(xs, m),
        f.len() <= m,
        g.len() <= m,
        forall|i: int| 0 <= i < m ==> eval(f, #[trigger] xs[i]) == eval(g, xs[i]),
    ensures
        eval(f, z) == eval(g, z),
{
    let difference = poly_add(f, poly_scale(g, neg_mod(1)));
    assert forall|y: int| sub_mod(eval(f, y), eval(g, y)) == #[trigger] eval(difference, y) by {
        lemma_eval_add(f, poly_scale(g, neg_mod(1)), y);
        lemma_eval_scale(g, neg_mod(1), y);
        let e = eval(g, y);
        lemma_mul_mod_reduce(-1, e);
        lemma_add_mod_reduce(eval(f, y), -1 * e);
        assert(eval(f, y) + -1 * e == eval(f, y) - e);
    }
    assert forall|i: int| 0 <= i < m implies eval(difference, #[trigger] xs[i]) == 0 by {
        assert(sub_mod(eval(f, xs[i]), eval(g, xs[i])) == eval(difference, xs[i]));
        lemma_add_mod_zero(eval(f, xs[i]));
    }
    lemma_vanishing_polynomial_is_zero(xs, difference, m, z);
    assert(sub_mod(eval(f, z), eval(g, z)) == eval(difference, z));
    lemma_eval_range(f, z);
    lemma_eval_range(g, z);
    let a = eval(f, z);
    let b = eval(g, z);
    if a != b {
        if a > b {
            lemma_small_mod((a - b) as nat, P as nat);
        } else {
            lemma_mod_add_multiples_vanish(a - b, P as int);
            lemma_small_mod((a - b + P) as nat, P as nat);
        }
    }
}

/// A polynomial in one variable, its coefficients stored lowest first.
#[derive(Debug, Clone)]
pub struct Polynomial {
    pub coefficients: Vec<BFieldElement>,
}

impl Polynomial {
    /// The values of the coefficients, lowest first.
    pub open spec fn coefficient_values(&self) -> Seq<int> {
        values(self.coefficients@)
    }

    /// The polynomial without coefficients, which is zero.
    pub fn ring_zero() -> (r: Self)
        ensures
            r.coefficient_values() == Seq::<int>::empty(),
    {
        let r = Polynomial { coefficients: Vec::new() };
        assert(r.coefficient_values() =~= Seq::<int>::empty());
        r
    }

    /// The constant polynomial `c`.
    pub fn from_constant(c: BFieldElement) -> (r: Self)
        ensures
            r.coefficient_values() == seq![c@],
    {
        let mut coefficients = Vec::new();
        coefficients.push(c);
        let r = Polynomial { coefficients };
        assert(r.coefficient_values() =~= seq![c@]);
        r
    }

    /// The degree: the index of the last coefficient that is not zero, and
    /// -1 for the zero polynomial.
    pub fn degree(&self) -> (r: i64)
        requires
            self.coefficients.len() <= i64::MAX,
        ensures
            r == degree_of(self.coefficient_values()),
    {
        let ghost c = self.coefficient_values();
        let mut n: usize = self.coefficients.len();
        proof {
            assert(c.subrange(0, n as int) =~= c);
        }
        while n > 0
            invariant
                n <= self.coefficients.len() <= i64::MAX,
                c == self.coefficient_values(),
                degree_of(c) == degree_of(c.subrange(0, n as int)),
            decreases n,
        {
            let ghost head = c.subrange(0, n as int);
            assert(head.last() == self.coefficients[n - 1]@);
            if !self.coefficients[n - 1].is_zero() {
                proof {
                    lemma_mod_twice(self.coefficients[n - 1].0 as int, P as int);
                }
                return (n - 1) as i64;
            }
            proof {
                lemma_small_mod(0, P as nat);
                assert(head.drop_last() =~= c.subrange(0, n - 1));
            }
            n = n - 1;
        }
        proof {
            assert(c.subrange(0, 0) =~= Seq::<int>::empty());
        }
        -1
    }

    /// The value of the polynomial at `z`.
    pub fn evaluate(&self, z: BFieldElement) -> (r: BFieldElement)
        ensures
            r@ == eval(self.coefficient_values(), z@),
    {
        let ghost c = self.coefficient_values();
        let n = self.coefficients.len();
        let mut acc = BFieldElement::ring_zero();
        let mut i: usize = n;
        proof {
            assert(c.subrange(n as int, n as int) =~= Seq::<int>::empty());
        }
        while i > 0
            invariant
                i <= n,
                n == self.coefficients.len(),
                c == self.coefficient_values(),
                acc@ == eval(c.subrange(i as int, n as int), z@),
            decreases i,
        {
            i = i - 1;
            proof {
                let s = c.subrange(i as int, n as int);
                assert(s.subrange(1, s.len() as int) =~= c.subrange(i + 1, n as int));
                assert(s[0] == self.coefficients[i as int]@);
            }
            acc = self.coefficients[i].add(z.mul(acc));
        }
        proof {
            assert(c.subrange(0, n as int) =~= c);
        }
        acc
    }

    /// The sum of two polynomials.
    pub fn add(&self, other: &Polynomial) -> (r: Polynomial)
        ensures
            r.coefficient_values() == poly_add(
                self.coefficient_values(),
                other.coefficient_values(),
            ),
    {
        let n = if self.coefficients.len() >= other.coefficients.len() {
            self.coefficients.len()
        } else {
            other.coefficients.len()
        };
        let mut out: Vec<BFieldElement> = Vec::new();
        let mut i: usize = 0;
        while i < n
            invariant
                i <= n,
                out.len() == i,
                n >= self.coefficients.len(),
                n >= other.coefficients.len(),
                forall|j: int|
                    0 <= j < i ==> out[j]@ == add_mod(
                        coef(self.coefficient_values(), j),
                        coef(other.coefficient_values(), j),
                    ),
            decreases n - i,
        {
            let a = if i < self.coefficients.len() {
                self.coefficients[i]
            } else {
                BFieldElement::ring_zero()
            };
            let b = if i < other.coefficients.len() {
                other.coefficients[i]
            } else {
                BFieldElement::ring_zero()
            };
            out.push(a.add(b));
            i = i + 1;
        }
        let r = Polynomial { coefficients: out };
        assert(r.coefficient_values() =~= poly_add(
            self.coefficient_values(),
            other.coefficient_values(),
        ));
        r
    }

    /// The polynomial multiplied by the constant `a`.
    pub fn scale(&self, a: BFieldElement) -> (r: Polynomial)
        ensures
            r.coefficient_values() == poly_scale(self.coefficient_values(), a@),
    {
        let n = self.coefficients.len();
        let mut out: Vec<BFieldElement> = Vec::new();
        let mut i: usize = 0;
        while i < n
            invariant
                i <= n,
                n == self.coefficients.len(),
                out.len() == i,
                forall|j: int| 0 <= j < i ==> out[j]@ == mul_mod(a@, self.coefficients[j]@),
            decreases n - i,
        {
            out.push(a.mul(self.coefficients[i]));
            i = i + 1;
        }
        let r = Polynomial { coefficients: out };
        assert(r.coefficient_values() =~= poly_scale(self.coefficient_values(), a@));
        r
    }

    /// The polynomial multiplied by `z - x`.
    pub fn mul_linear(&self, x: BFieldElement) -> (r: Polynomial)
        ensures
            r.coefficient_values() == poly_mul_linear(self.coefficient_values(), x@),
    {
        let n = self.coefficients.len();
        let mut shifted: Vec<BFieldElement> = Vec::new();
        shifted.push(BFieldElement::ring_zero());
        let mut i: usize = 0;
        while i < n
            invariant
                i <= n,
                n == self.coefficients.len(),
                shifted.len() == i + 1,
                shifted[0]@ == 0,
                forall|j: int| 0 <= j < i ==> shifted[j + 1]@ == self.coefficients[j]@,
            decreases n - i,
        {
            shifted.push(self.coefficients[i]);
            i = i + 1;
        }
        let shifted = Polynomial { coefficients: shifted };
        assert(shifted.coefficient_values() =~= poly_shift(self.coefficient_values()));
        shifted.add(&self.scale(x.neg()))
    }

    /// The polynomial of least degree through the points
    /// `(points[k], targets[k])`, by Newton's method; `None` where two of the
    /// points cannot be told apart.
    pub fn interpolate(points: &Vec<BFieldElement>, targets: &Vec<BFieldElement>) -> (r: Option<
        Polynomial,
    >)
        requires
            points.len() == targets.len(),
        ensures
            r is Some <==> interpolable(values(points@), points.len() as nat),
            r is Some ==> r->Some_0.coefficient_values() == interpolant(
                values(points@),
                values(targets@),
                points.len() as nat,
            ),
    {
        let ghost xs = values(points@);
        let ghost ys = values(targets@);
        let n = points.len();
        let mut poly = Polynomial::ring_zero();
        let mut w = Polynomial::from_constant(BFieldElement::ring_one());
        let mut m: usize = 0;
        while m < n
            invariant
                m <= n,
                n == points.len(),
                n == targets.len(),
                xs == values(points@),
                ys == values(targets@),
                poly.coefficient_values() == interpolant(xs, ys, m as nat),
                w.coefficient_values() == node_polynomial(xs, m as nat),
                interpolable(xs, m as nat),
            decreases n - m,
        {
            let x = points[m];
            let d = w.evaluate(x);
            assert(d@ == node_value(xs, m as int));
            match d.inverse() {
                None => {
                    return None;
                },
                Some(inv) => {
                    proof {
                        lemma_small_mod(inv.0 as nat, P as nat);
                        lemma_inverse_of(d@, inv@);
                    }
                    let a = targets[m].sub(poly.evaluate(x)).mul(inv);
                    poly = poly.add(&w.scale(a));
                    w = w.mul_linear(x);
                    proof {
                        assert forall|k: int| 0 <= k < m + 1 implies has_inverse(
                            #[trigger] node_value(xs, k),
                        ) by {}
                    }
                    m = m + 1;
                },
            }
        }
        Some(poly)
    }
}

} // verus!
