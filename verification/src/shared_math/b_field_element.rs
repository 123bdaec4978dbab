//! The base field: integers modulo the prime 2^64 - 2^32 + 1.

use vstd::arithmetic::div_mod::*;
use vstd::arithmetic::mul::*;
use vstd::prelude::*;
use vstd::std_specs::cmp::PartialEqSpecImpl;

verus! {

/// The modulus of the base field, 2^64 - 2^32 + 1.
pub const P: u64 = 0xffff_ffff_0000_0001;

/// A generator of the largest subgroup of the field whose order is a power
/// of two.
pub const TWO_ADIC_GENERATOR: u64 = 1753635133440165772;

/// The order of that subgroup, 2^32.
pub const TWO_ADIC_ORDER: u64 = 0x1_0000_0000;

/// Sum of two integers in the field.
pub open spec fn add_mod(a: int, b: int) -> int {
    (a + b) % (P as int)
}

/// Difference of two integers in the field.
pub open spec fn sub_mod(a: int, b: int) -> int {
    (a - b) % (P as int)
}

/// Product of two integers in the field.
pub open spec fn mul_mod(a: int, b: int) -> int {
    (a * b) % (P as int)
}

/// Additive inverse in the field.
pub open spec fn neg_mod(a: int) -> int {
    (-a) % (P as int)
}

/// `base` raised to `exp` in the field.
pub open spec fn pow_mod(base: int, exp: nat) -> int
    decreases exp,
{
    if exp == 0 {
        1
    } else {
        mul_mod(base, pow_mod(base, (exp - 1) as nat))
    }
}

/// Whether `n` is a power of two.
pub open spec fn is_power_of_two(n: nat) -> bool
    decreases n,
{
    if n <= 1 {
        n == 1
    } else {
        n % 2 == 0 && is_power_of_two(n / 2)
    }
}

/// Two to the power `n`.
pub open spec fn pow2(n: nat) -> nat
    decreases n,
{
    if n == 0 {
        1
    } else {
        2 * pow2((n - 1) as nat)
    }
}

/// The next power of two is twice the one before.
pub proof fn lemma_pow2_step(n: nat)
    ensures
        pow2(n + 1) == 2 * pow2(n),
        pow2(n) >= 1,
    decreases n,
{
    if n > 0 {
        lemma_pow2_step((n - 1) as nat);
    }
}

/// Two to the power 64 is beyond what a machine word holds.
pub proof fn lemma_pow2_64()
    ensures
        pow2(64) == 0x1_0000_0000_0000_0000,
{
    reveal_with_fuel(pow2, 65);
}

/// Of two powers of two, the larger is at least twice the smaller.
pub proof fn lemma_two_powers_apart(p: nat, q: nat)
    requires
        is_power_of_two(p),
        is_power_of_two(q),
        p < q,
    ensures
        2 * p <= q,
    decreases p,
{
    if p > 1 {
        lemma_two_powers_apart(p / 2, q / 2);
    }
}

/// Whether `a` has a multiplicative inverse in the field.
pub open spec fn has_inverse(a: int) -> bool {
    exists|y: int| 0 <= y < P && #[trigger] mul_mod(a, y) == 1
}

/// Whether `d` divides both `x` and `y`.
pub open spec fn common_divisor(d: int, x: int, y: int) -> bool {
    x % d == 0 && y % d == 0
}

/// Multiplication in the field is associative.
pub proof fn lemma_mul_mod_assoc(a: int, b: int, c: int)
    ensures
        mul_mod(mul_mod(a, b), c) == mul_mod(a, mul_mod(b, c)),
{
    let p = P as int;
    lemma_mul_mod_noop_left(a * b, c, p);
    lemma_mul_mod_noop_right(a, b * c, p);
    lemma_mul_is_associative(a, b, c);
}

/// Multiplication in the field is commutative.
pub proof fn lemma_mul_mod_comm(a: int, b: int)
    ensures
        mul_mod(a, b) == mul_mod(b, a),
{
    lemma_mul_is_commutative(a, b);
}

/// Multiplication in the field distributes over addition.
pub proof fn lemma_mul_mod_distributes(a: int, b: int, c: int)
    ensures
        mul_mod(a, add_mod(b, c)) == add_mod(mul_mod(a, b), mul_mod(a, c)),
{
    let p = P as int;
    lemma_mul_mod_noop_right(a, b + c, p);
    lemma_mul_is_distributive_add(a, b, c);
    lemma_add_mod_noop(a * b, a * c, p);
}

/// A factor may be reduced before or after multiplying.
pub proof fn lemma_mul_mod_reduce(a: int, b: int)
    ensures
        mul_mod(a % (P as int), b) == mul_mod(a, b),
        mul_mod(a, b % (P as int)) == mul_mod(a, b),
{
    lemma_mul_mod_noop_left(a, b, P as int);
    lemma_mul_mod_noop_right(a, b, P as int);
}

/// A summand may be reduced before or after adding.
pub proof fn lemma_add_mod_reduce(a: int, b: int)
    ensures
        add_mod(a % (P as int), b) == add_mod(a, b),
        add_mod(a, b % (P as int)) == add_mod(a, b),
        sub_mod(a % (P as int), b) == sub_mod(a, b),
        sub_mod(a, b % (P as int)) == sub_mod(a, b),
{
    let p = P as int;
    lemma_fundamental_div_mod(a, p);
    lemma_fundamental_div_mod(b, p);
    lemma_mod_multiples_vanish(-(a / p), a + b, p);
    lemma_mod_multiples_vanish(-(b / p), a + b, p);
    lemma_mod_multiples_vanish(-(a / p), a - b, p);
    lemma_mod_multiples_vanish(b / p, a - b, p);
    assert(a % p + b == p * (-(a / p)) + (a + b));
    assert(a + b % p == p * (-(b / p)) + (a + b));
    assert(a % p - b == p * (-(a / p)) + (a - b));
    assert(a - b % p == p * (b / p) + (a - b));
}

/// The sum of two sums is the sum of the four summands in any grouping.
pub proof fn lemma_add_mod_regroup(a: int, b: int, c: int, d: int)
    ensures
        add_mod(add_mod(a, b), add_mod(c, d)) == add_mod(add_mod(a, c), add_mod(b, d)),
{
    lemma_add_mod_noop(a + b, c + d, P as int);
    lemma_add_mod_noop(a + c, b + d, P as int);
}

/// Multiplying by one reduces, and multiplying by zero gives zero.
pub proof fn lemma_mul_mod_unit(a: int)
    ensures
        mul_mod(a, 1) == a % (P as int),
        mul_mod(1, a) == a % (P as int),
        mul_mod(a, 0) == 0,
        mul_mod(0, a) == 0,
{
    assert(a * 1 == a);
    assert(1 * a == a);
    assert(a * 0 == 0);
    assert(0 * a == 0);
    lemma_small_mod(0, P as nat);
}

/// Adding zero reduces.
pub proof fn lemma_add_mod_zero(a: int)
    ensures
        add_mod(a, 0) == a % (P as int),
        add_mod(0, a) == a % (P as int),
        sub_mod(a, a) == 0,
{
    lemma_small_mod(0, P as nat);
}

/// An inverse of `d` in the canonical range is the only one.
pub proof fn lemma_inverse_unique(d: int, y1: int, y2: int)
    requires
        0 <= y1 < P,
        0 <= y2 < P,
        mul_mod(d, y1) == 1,
        mul_mod(d, y2) == 1,
    ensures
        y1 == y2,
{
    lemma_mul_mod_unit(y1);
    lemma_mul_mod_unit(y2);
    lemma_small_mod(y1 as nat, P as nat);
    lemma_small_mod(y2 as nat, P as nat);
    lemma_mul_mod_assoc(y1, d, y2);
    lemma_mul_mod_comm(y1, d);
}

/// The inverse of `d` in the canonical range, where `d` has one.
pub open spec fn inverse_of(d: int) -> int {
    choose|y: int| 0 <= y < P && #[trigger] mul_mod(d, y) == 1
}

/// Whatever inverts `d` from within the canonical range is `inverse_of(d)`.
pub proof fn lemma_inverse_of(d: int, y: int)
    requires
        0 <= y < P,
        mul_mod(d, y) == 1,
    ensures
        has_inverse(d),
        inverse_of(d) == y,
{
    lemma_inverse_unique(d, y, inverse_of(d));
}

/// Every power lies in the canonical range.
pub proof fn lemma_pow_mod_range(base: int, exp: nat)
    ensures
        0 <= pow_mod(base, exp) < P,
    decreases exp,
{
    if exp > 0 {
        lemma_pow_mod_range(base, (exp - 1) as nat);
    }
}

/// A power with a sum for its exponent is the product of the two powers.
pub proof fn lemma_pow_mod_add(base: int, m: nat, n: nat)
    ensures
        pow_mod(base, m + n) == mul_mod(pow_mod(base, m), pow_mod(base, n)),
    decreases m,
{
    lemma_pow_mod_range(base, n);
    if m == 0 {
        lemma_mul_mod_unit(pow_mod(base, n));
        lemma_small_mod(pow_mod(base, n) as nat, P as nat);
    } else {
        lemma_pow_mod_add(base, (m - 1) as nat, n);
        lemma_mul_mod_assoc(base, pow_mod(base, (m - 1) as nat), pow_mod(base, n));
        assert(pow_mod(base, m + n) == mul_mod(base, pow_mod(base, (m + n - 1) as nat)));
    }
}

/// Raising the square to `k` is raising the base to `2k`.
pub proof fn lemma_pow_mod_square(base: int, k: nat)
    ensures
        pow_mod(mul_mod(base, base), k) == pow_mod(base, 2 * k),
    decreases k,
{
    if k > 0 {
        let j = (k - 1) as nat;
        lemma_pow_mod_square(base, j);
        let x = pow_mod(base, 2 * j);
        assert(pow_mod(base, 2 * k) == mul_mod(base, pow_mod(base, (2 * k - 1) as nat)));
        assert(pow_mod(base, (2 * k - 1) as nat) == mul_mod(base, x));
        lemma_mul_mod_assoc(base, base, x);
    }
}

/// Two numbers that differ by a multiple of a common divisor of `x` and `y`
/// share their common divisors with the pair that Euclid's step produces.
proof fn lemma_common_divisor_step(d: int, x: int, y: int, q: int, r: int)
    requires
        d > 0,
        x == q * y + r,
    ensures
        common_divisor(d, y, r) <==> common_divisor(d, x, y),
{
    if y % d == 0 {
        let k = y / d;
        lemma_fundamental_div_mod(y, d);
        assert(y == d * k);
        assert(q * y == d * (q * k)) by (nonlinear_arith)
            requires
                y == d * k,
        ;
        lemma_mod_multiples_vanish(q * k, r, d);
        assert(x == d * (q * k) + r);
        assert(x % d == r % d);
    }
}

/// No number that shares a divisor greater than one with the modulus has an
/// inverse.
proof fn lemma_shared_divisor_blocks_inverse(a: int, g: int, y: int)
    requires
        g > 1,
        (P as int) % g == 0,
        a % g == 0,
    ensures
        mul_mod(a, y) != 1,
{
    let p = P as int;
    if mul_mod(a, y) == 1 {
        let k = (a * y) / p;
        lemma_fundamental_div_mod(a * y, p);
        assert(a * y == p * k + 1);
        let a_part = a / g;
        let p_part = p / g;
        lemma_fundamental_div_mod(a, g);
        lemma_fundamental_div_mod(p, g);
        assert(a == g * a_part);
        assert(p == g * p_part);
        assert(g * (a_part * y - p_part * k) == 1) by (nonlinear_arith)
            requires
                a * y == p * k + 1,
                a == g * a_part,
                p == g * p_part,
        ;
        assert(false) by (nonlinear_arith)
            requires
                g > 1,
                g * (a_part * y - p_part * k) == 1,
        ;
    }
}

/// One step of the extended Euclidean algorithm keeps the remainder a
/// multiple of `a` in the field.
proof fn lemma_bezout_step(r0: int, r1: int, q: int, t0: int, t1: int, a: int)
    requires
        r0 % (P as int) == mul_mod(t0, a),
        r1 % (P as int) == mul_mod(t1, a),
    ensures
        (r0 - q * r1) % (P as int) == mul_mod(sub_mod(t0, mul_mod(q % (P as int), t1)), a),
{
    let p = P as int;
    let w = mul_mod(q % p, t1);
    lemma_mul_mod_noop_left(t0 - w, a, p);
    lemma_mul_is_distributive_sub_other_way(a, t0, w);
    lemma_sub_mod_noop(t0 * a, w * a, p);
    // (w * a) % p == (q * r1) % p
    lemma_mul_mod_noop_left((q % p) * t1, a, p);
    lemma_mul_is_associative(q % p, t1, a);
    lemma_mul_mod_noop_left(q, t1 * a, p);
    lemma_mul_mod_noop_right(q, t1 * a, p);
    lemma_mul_mod_noop_right(q, r1, p);
    lemma_sub_mod_noop(r0, q * r1, p);
}

/// An element of the base field.
///
/// Any 64-bit value stands for its residue modulo the prime; the functions
/// of this type always hand out the canonical representative.
#[derive(Clone, Copy, Debug)]
pub struct BFieldElement(pub u64);

impl View for BFieldElement {
    type V = int;

    open spec fn view(&self) -> int {
        (self.0 as int) % (P as int)
    }
}

impl PartialEq for BFieldElement {
    fn eq(&self, other: &Self) -> (r: bool) {
        self.0 % P == other.0 % P
    }
}

impl Eq for BFieldElement {

}

impl PartialEqSpecImpl for BFieldElement {
    open spec fn obeys_eq_spec() -> bool {
        true
    }

    open spec fn eq_spec(&self, other: &Self) -> bool {
        self.0 % P == other.0 % P
    }
}

/// The number that a sequence of bytes stands for in the field, lowest byte
/// first.
pub open spec fn bytes_value(bytes: Seq<u8>) -> int
    decreases bytes.len(),
{
    if bytes.len() == 0 {
        0
    } else {
        add_mod(bytes[0] as int, mul_mod(256, bytes_value(bytes.subrange(1, bytes.len() as int))))
    }
}

/// The values of an array of field elements.
pub open spec fn elements<const N: usize>(a: [BFieldElement; N]) -> Seq<int> {
    Seq::new(N as nat, |i: int| a[i]@)
}

/// The values of a sequence of field elements.
pub open spec fn values(s: Seq<BFieldElement>) -> Seq<int> {
    Seq::new(s.len(), |i: int| s[i]@)
}

impl BFieldElement {
    /// Whether the stored value is the canonical representative.
    pub open spec fn is_canonical(&self) -> bool {
        self.0 < P
    }

    /// The element that `value` stands for.
    pub fn new(value: u64) -> (r: Self)
        ensures
            r@ == value % P,
            r.is_canonical(),
    {
        BFieldElement(value % P)
    }

    /// The element that a sequence of bytes stands for, lowest byte first.
    pub fn from_bytes(bytes: &Vec<u8>) -> (r: Self)
        ensures
            r@ == bytes_value(bytes@),
            r.is_canonical(),
    {
        let n = bytes.len();
        let radix = BFieldElement(256);
        let mut acc = BFieldElement(0);
        let mut i: usize = n;
        proof {
            lemma_small_mod(0, P as nat);
            lemma_small_mod(256, P as nat);
        }
        while i > 0
            invariant
                i <= n,
                n == bytes.len(),
                radix@ == 256,
                acc.is_canonical(),
                acc@ == bytes_value(bytes@.subrange(i as int, n as int)),
            decreases i,
        {
            i = i - 1;
            proof {
                let rest = bytes@.subrange(i as int, n as int);
                assert(rest.subrange(1, rest.len() as int) =~= bytes@.subrange(i + 1, n as int));
                lemma_small_mod(bytes[i as int] as nat, P as nat);
            }
            acc = BFieldElement(bytes[i] as u64).add(radix.mul(acc));
        }
        proof {
            assert(bytes@.subrange(0, n as int) =~= bytes@);
        }
        acc
    }

    /// The additive identity.
    pub fn ring_zero() -> (r: Self)
        ensures
            r@ == 0,
            r.is_canonical(),
    {
        BFieldElement(0)
    }

    /// The multiplicative identity.
    pub fn ring_one() -> (r: Self)
        ensures
            r@ == 1,
            r.is_canonical(),
    {
        BFieldElement(1)
    }

    /// The canonical representative.
    pub fn value(&self) -> (r: u64)
        ensures
            r == self@,
    {
        self.0 % P
    }

    pub fn is_zero(&self) -> (r: bool)
        ensures
            r == (self@ == 0),
    {
        self.0 % P == 0
    }

    pub fn is_one(&self) -> (r: bool)
        ensures
            r == (self@ == 1),
    {
        self.0 % P == 1
    }

    pub fn add(&self, rhs: Self) -> (r: Self)
        ensures
            r@ == add_mod(self@, rhs@),
            r.is_canonical(),
    {
        let x: u64 = self.0 % P;
        let y: u64 = rhs.0 % P;
        if x >= P - y {
            BFieldElement(x - (P - y))
        } else {
            BFieldElement(x + y)
        }
    }

    pub fn sub(&self, rhs: Self) -> (r: Self)
        ensures
            r@ == sub_mod(self@, rhs@),
            r.is_canonical(),
    {
        let x: u64 = self.0 % P;
        let y: u64 = rhs.0 % P;
        if x >= y {
            BFieldElement(x - y)
        } else {
            BFieldElement(x + (P - y))
        }
    }

    pub fn neg(&self) -> (r: Self)
        ensures
            r@ == neg_mod(self@),
            r.is_canonical(),
    {
        let x: u64 = self.0 % P;
        if x == 0 {
            BFieldElement(0)
        } else {
            BFieldElement(P - x)
        }
    }

    pub fn mul(&self, rhs: Self) -> (r: Self)
        ensures
            r@ == mul_mod(self@, rhs@),
            r.is_canonical(),
    {
        let x: u128 = (self.0 % P) as u128;
        let y: u128 = (rhs.0 % P) as u128;
        assert(x * y <= 0xffff_ffff_0000_0000 * 0xffff_ffff_0000_0000) by (nonlinear_arith)
            requires
                x <= 0xffff_ffff_0000_0000,
                y <= 0xffff_ffff_0000_0000,
        ;
        let z: u128 = (x * y) % (P as u128);
        BFieldElement(z as u64)
    }

    /// The element raised to the power `exp`.
    pub fn mod_pow_u64(&self, exp: u64) -> (r: Self)
        ensures
            r@ == pow_mod(self@, exp as nat),
            r.is_canonical(),
    {
        let mut acc = BFieldElement(1);
        let mut base = BFieldElement(self.0 % P);
        let mut e: u64 = exp;
        proof {
            lemma_pow_mod_range(base@, e as nat);
            lemma_mod_twice(self.0 as int, P as int);
            assert(base@ == self@);
            assert(1 * pow_mod(base@, e as nat) == pow_mod(base@, e as nat));
            lemma_small_mod(pow_mod(base@, e as nat) as nat, P as nat);
        }
        while e > 0
            invariant
                acc.is_canonical(),
                base.is_canonical(),
                mul_mod(acc@, pow_mod(base@, e as nat)) == pow_mod(self@, exp as nat),
            decreases e,
        {
            let ghost k = (e / 2) as nat;
            proof {
                lemma_pow_mod_square(base@, k);
                lemma_pow_mod_range(base@, 2 * k);
            }
            if e % 2 == 1 {
                proof {
                    assert(e as nat == 2 * k + 1);
                    assert(pow_mod(base@, e as nat) == mul_mod(base@, pow_mod(base@, 2 * k)));
                    lemma_mul_mod_assoc(acc@, base@, pow_mod(base@, 2 * k));
                }
                acc = acc.mul(base);
            } else {
                assert(e as nat == 2 * k);
            }
            base = base.mul(base);
            e = e / 2;
        }
        acc
    }

    /// A generator of the subgroup of the given order, for the orders that
    /// are powers of two up to 2^32: the generator of the largest such
    /// subgroup raised to the power that brings its order down.
    pub fn get_primitive_root_of_unity(&self, order: u64) -> (r: Option<Self>)
        ensures
            r is Some <==> is_power_of_two(order as nat) && order <= TWO_ADIC_ORDER,
            r is Some ==> r->Some_0@ == pow_mod(
                TWO_ADIC_GENERATOR as int,
                (TWO_ADIC_ORDER / order) as nat,
            ) && r->Some_0.is_canonical(),
    {
        if order == 0 || order > TWO_ADIC_ORDER {
            return None;
        }
        let mut root = BFieldElement(TWO_ADIC_GENERATOR);
        let mut n: u64 = TWO_ADIC_ORDER;
        proof {
            reveal_with_fuel(is_power_of_two, 34);
            assert(is_power_of_two(TWO_ADIC_ORDER as nat));
            lemma_small_mod(TWO_ADIC_GENERATOR as nat, P as nat);
            lemma_mul_mod_unit(TWO_ADIC_GENERATOR as int);
            assert(pow_mod(TWO_ADIC_GENERATOR as int, 1) == mul_mod(
                TWO_ADIC_GENERATOR as int,
                pow_mod(TWO_ADIC_GENERATOR as int, 0),
            ));
        }
        let ghost mut e: nat = 1;
        while n > order
            invariant
                1 <= order,
                1 <= n <= TWO_ADIC_ORDER,
                is_power_of_two(n as nat),
                is_power_of_two(order as nat) ==> order <= n,
                root.is_canonical(),
                e * n == TWO_ADIC_ORDER,
                e >= 1,
                root@ == pow_mod(TWO_ADIC_GENERATOR as int, e),
            decreases n,
        {
            proof {
                lemma_pow_mod_add(TWO_ADIC_GENERATOR as int, e, e);
                if is_power_of_two(order as nat) {
                    lemma_two_powers_apart(order as nat, n as nat);
                }
                assert((2 * e) * (n / 2) == TWO_ADIC_ORDER) by (nonlinear_arith)
                    requires
                        e * n == TWO_ADIC_ORDER,
                        n % 2 == 0,
                ;
                e = 2 * e;
            }
            root = root.mul(root);
            n = n / 2;
        }
        proof {
            assert(e == TWO_ADIC_ORDER as nat / n as nat) by (nonlinear_arith)
                requires
                    e * n == TWO_ADIC_ORDER,
                    n >= 1,
            ;
        }
        if n == order {
            Some(root)
        } else {
            None
        }
    }

    /// The multiplicative inverse, where there is one.
    pub fn inverse(&self) -> (r: Option<Self>)
        ensures
            match r {
                Some(x) => mul_mod(self@, x@) == 1 && x.is_canonical(),
                None => !has_inverse(self@),
            },
    {
        let a: u64 = self.0 % P;
        let mut r0: u64 = P;
        let mut r1: u64 = a;
        let mut t0 = BFieldElement(0);
        let mut t1 = BFieldElement(1);
        proof {
            lemma_mod_twice(self.0 as int, P as int);
            lemma_mod_self_0(P as int);
            lemma_small_mod(0, P as nat);
            lemma_small_mod(1, P as nat);
            assert(0 * (a as int) == 0);
            assert(1 * (a as int) == a as int);
            assert(t0@ == 0);
            assert(t1@ == 1);
        }
        while r1 != 0
            invariant
                a == self@,
                r0 > 0,
                t0.is_canonical(),
                t1.is_canonical(),
                (r0 as int) % (P as int) == mul_mod(t0@, a as int),
                (r1 as int) % (P as int) == mul_mod(t1@, a as int),
                forall|d: int|
                    d > 0 ==> (#[trigger] common_divisor(d, r0 as int, r1 as int)
                        <==> common_divisor(d, P as int, a as int)),
            decreases r1,
        {
            let q: u64 = r0 / r1;
            let r2: u64 = r0 % r1;
            let t2 = t0.sub(BFieldElement::new(q).mul(t1));
            proof {
                lemma_fundamental_div_mod(r0 as int, r1 as int);
                assert(r0 as int == q * r1 + r2) by (nonlinear_arith)
                    requires
                        r0 as int == r1 * (r0 as int / r1 as int) + r0 as int % r1 as int,
                        q == r0 as int / r1 as int,
                        r2 == r0 as int % r1 as int,
                ;
                lemma_bezout_step(r0 as int, r1 as int, q as int, t0@, t1@, a as int);
                assert forall|d: int| d > 0 implies (#[trigger] common_divisor(
                    d,
                    r1 as int,
                    r2 as int,
                ) <==> common_divisor(d, P as int, a as int)) by {
                    lemma_common_divisor_step(d, r0 as int, r1 as int, q as int, r2 as int);
                    assert(common_divisor(d, r0 as int, r1 as int) <==> common_divisor(
                        d,
                        P as int,
                        a as int,
                    ));
                }
            }
            r0 = r1;
            r1 = r2;
            t0 = t1;
            t1 = t2;
        }
        if r0 == 1 {
            proof {
                lemma_mul_mod_comm(t0@, a as int);
            }
            Some(t0)
        } else {
            proof {
                let g = r0 as int;
                assert(common_divisor(g, r0 as int, r1 as int));
                assert(common_divisor(g, P as int, a as int));
                assert forall|y: int| 0 <= y < P implies #[trigger] mul_mod(self@, y) != 1 by {
                    lemma_shared_divisor_blocks_inverse(a as int, g, y);
                }
            }
            None
        }
    }
}

} // verus!
