//! Helpers that the rest of the crate shares: powers of two, random field
//! elements, and the joining of lists.

use crate::shared_math::b_field_element::BFieldElement;
use crate::shared_math::b_field_element::is_power_of_two;
use crate::shared_math::b_field_element::lemma_two_powers_apart;
use crate::shared_math::x_field_element::XFieldElement;
use itertools::Itertools;
use rand::RngCore;
use vstd::prelude::*;

verus! {

/// The lists of `parts` one after the other.
pub open spec fn joined<T>(parts: Seq<Vec<T>>) -> Seq<T>
    decreases parts.len(),
{
    if parts.len() == 0 {
        Seq::<T>::empty()
    } else {
        joined(parts.drop_last()) + parts.last()@
    }
}

/// Five lists joined are the five lists one after the other.
pub proof fn lemma_joined_five<T>(parts: Seq<Vec<T>>)
    requires
        parts.len() == 5,
    ensures
        joined(parts) == parts[0]@ + parts[1]@ + parts[2]@ + parts[3]@ + parts[4]@,
{
    let four = parts.drop_last();
    let three = four.drop_last();
    let two = three.drop_last();
    let one = two.drop_last();
    let none = one.drop_last();
    assert(joined(none) =~= Seq::<T>::empty());
    assert(joined(one) =~= parts[0]@);
    assert(joined(two) =~= parts[0]@ + parts[1]@);
    assert(joined(three) =~= parts[0]@ + parts[1]@ + parts[2]@);
    assert(joined(four) =~= parts[0]@ + parts[1]@ + parts[2]@ + parts[3]@);
}

/// The least power of two that is at least `x`, and zero for zero.
pub fn roundup_npo2(x: u64) -> (r: u64)
    requires
        x <= 0x4000_0000_0000_0000,
    ensures
        x == 0 ==> r == 0,
        x > 0 ==> is_power_of_two(r as nat) && x <= r < 2 * x,
        forall|q: nat| is_power_of_two(q) && x <= q ==> r <= q,
{
    if x == 0 {
        return 0;
    }
    let mut p: u64 = 1;
    while p < x
        invariant
            is_power_of_two(p as nat),
            x <= 0x4000_0000_0000_0000,
            1 <= p < 2 * x,
            forall|q: nat| is_power_of_two(q) && x <= q ==> p <= q,
        decreases 2 * x - p,
    {
        proof {
            assert forall|q: nat| is_power_of_two(q) && x <= q implies 2 * p <= q by {
                lemma_two_powers_apart(p as nat, q);
            }
        }
        p = p * 2;
    }
    p
}

/// Calls `Itertools::concat` on the lists of `parts`: the result holds the
/// items of the first list, then those of the second, and so on, each item
/// moved and none changed.
#[verifier::external_body]
pub(crate) fn concat_vecs<T>(parts: Vec<Vec<T>>) -> (r: Vec<T>)
    ensures
        r@ == joined(parts@),
{
    parts.into_iter().concat()
}

/// Calls `next_u64` on the thread-local generator of `rand`. Nothing is
/// claimed of the value: two calls may give any two values.
#[verifier::external_body]
fn random_u64() -> u64 {
    rand::thread_rng().next_u64()
}

/// Calls `fill_bytes` on the thread-local generator of `rand` with a
/// buffer of `count` bytes, which the call fills whole. Nothing is claimed
/// of the bytes but their number.
#[verifier::external_body]
fn fill_random_bytes(count: usize) -> (r: Vec<u8>)
    ensures
        r.len() == count,
{
    let mut bytes = vec![0u8; count];
    rand::thread_rng().fill_bytes(&mut bytes);
    bytes
}

/// `count` bytes drawn at random.
pub fn random_bytes(count: usize) -> (r: Vec<u8>)
    ensures
        r.len() == count,
{
    fill_random_bytes(count)
}

/// `n` field elements drawn at random.
pub fn random_elements(n: usize) -> (r: Vec<BFieldElement>)
    ensures
        r.len() == n,
{
    let mut out: Vec<BFieldElement> = Vec::new();
    let mut i: usize = 0;
    while i < n
        invariant
            i <= n,
            out.len() == i,
        decreases n - i,
    {
        out.push(BFieldElement::new(random_u64()));
        i = i + 1;
    }
    out
}

/// `n` extension-field elements drawn at random.
pub fn random_x_elements(n: usize) -> (r: Vec<XFieldElement>)
    ensures
        r.len() == n,
{
    let mut out: Vec<XFieldElement> = Vec::new();
    let mut i: usize = 0;
    while i < n
        invariant
            i <= n,
            out.len() == i,
        decreases n - i,
    {
        let c0 = BFieldElement::new(random_u64());
        let c1 = BFieldElement::new(random_u64());
        let c2 = BFieldElement::new(random_u64());
        out.push(XFieldElement::new([c0, c1, c2]));
        i = i + 1;
    }
    out
}

} // verus!
