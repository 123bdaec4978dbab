use twenty_first::shared_math::b_field_element::BFieldElement;
use twenty_first::shared_math::b_field_element::P;
use twenty_first::shared_math::other::random_elements;
use twenty_first::shared_math::other::roundup_npo2;
use twenty_first::shared_math::polynomial::Polynomial;
use twenty_first::shared_math::x_field_element::XFieldElement;

#[test]
fn field_addition_wraps_at_the_modulus_test() {
    let largest = BFieldElement::new(P - 1);
    let one = BFieldElement::ring_one();
    assert_eq!(BFieldElement::ring_zero(), largest.add(one));
    assert_eq!(BFieldElement::new(P - 2), largest.add(largest));
    assert_eq!(largest, BFieldElement::ring_zero().sub(one));
    assert_eq!(one, largest.neg());
    assert_eq!(BFieldElement::new(5), BFieldElement::new(P + 5));
    assert_eq!(5, BFieldElement::new(P + 5).value());
}

#[test]
fn field_multiplication_test() {
    let largest = BFieldElement::new(P - 1);
    assert_eq!(BFieldElement::ring_one(), largest.mul(largest));
    let two_to_32 = BFieldElement::new(1 << 32);
    // 2^64 = 2^32 - 1 modulo 2^64 - 2^32 + 1
    assert_eq!(BFieldElement::new((1 << 32) - 1), two_to_32.mul(two_to_32));
    assert_eq!(
        BFieldElement::new(12 * 34),
        BFieldElement::new(12).mul(BFieldElement::new(34))
    );
}

#[test]
fn field_power_test() {
    let two = BFieldElement::new(2);
    assert_eq!(BFieldElement::ring_one(), two.mod_pow_u64(0));
    assert_eq!(BFieldElement::new(1024), two.mod_pow_u64(10));
    assert_eq!(BFieldElement::new((1 << 32) - 1), two.mod_pow_u64(64));
    for element in random_elements(10) {
        if !element.is_zero() {
            assert_eq!(BFieldElement::ring_one(), element.mod_pow_u64(P - 1));
        }
    }
}

#[test]
fn field_inverse_test() {
    assert_eq!(None, BFieldElement::ring_zero().inverse());
    assert_eq!(
        Some(BFieldElement::new((P + 1) / 2)),
        BFieldElement::new(2).inverse()
    );
    for element in random_elements(20) {
        if !element.is_zero() {
            let inverse = element.inverse().unwrap();
            assert_eq!(BFieldElement::ring_one(), element.mul(inverse));
            assert_eq!(inverse, element.mod_pow_u64(P - 2));
        }
    }
}

#[test]
fn primitive_root_of_unity_test() {
    let zero = BFieldElement::ring_zero();
    let root = zero.get_primitive_root_of_unity(1 << 32).unwrap();
    assert_eq!(BFieldElement::new(1753635133440165772), root);
    assert_eq!(BFieldElement::ring_one(), root.mod_pow_u64(1 << 32));
    assert_eq!(BFieldElement::new(P - 1), root.mod_pow_u64(1 << 31));
    let small = zero.get_primitive_root_of_unity(8).unwrap();
    assert_eq!(BFieldElement::ring_one(), small.mod_pow_u64(8));
    assert_eq!(BFieldElement::new(P - 1), small.mod_pow_u64(4));
    assert_eq!(Some(BFieldElement::ring_one()), zero.get_primitive_root_of_unity(1));
    assert_eq!(None, zero.get_primitive_root_of_unity(0));
    assert_eq!(None, zero.get_primitive_root_of_unity(3));
    assert_eq!(None, zero.get_primitive_root_of_unity(1 << 33));
}

#[test]
fn field_element_from_bytes_test() {
    assert_eq!(BFieldElement::ring_zero(), BFieldElement::from_bytes(&vec![]));
    assert_eq!(BFieldElement::new(257), BFieldElement::from_bytes(&vec![1, 1]));
    assert_eq!(
        BFieldElement::new(0x0807060504030201),
        BFieldElement::from_bytes(&vec![1, 2, 3, 4, 5, 6, 7, 8])
    );
    // nine bytes: 2^64 is 2^32 - 1
    assert_eq!(
        BFieldElement::new((1 << 32) - 1),
        BFieldElement::from_bytes(&vec![0, 0, 0, 0, 0, 0, 0, 0, 1])
    );
}

#[test]
fn extension_field_multiplication_test() {
    let zero = BFieldElement::ring_zero();
    let one = BFieldElement::ring_one();
    let x = XFieldElement::new([zero, one, zero]);
    let x_squared = XFieldElement::new([zero, zero, one]);
    assert_eq!(x_squared, x.mul(x));
    // x^3 = x - 1
    assert_eq!(
        XFieldElement::new([BFieldElement::new(P - 1), one, zero]),
        x.mul(x_squared)
    );
    // x^4 = x^2 - x
    assert_eq!(
        XFieldElement::new([zero, BFieldElement::new(P - 1), one]),
        x_squared.mul(x_squared)
    );
    let a = XFieldElement::new([BFieldElement::new(2), BFieldElement::new(3), BFieldElement::new(5)]);
    assert_eq!(a, a.mul(XFieldElement::ring_one()));
    assert_eq!(XFieldElement::ring_zero(), a.sub(a));
    assert_eq!(
        XFieldElement::new([BFieldElement::new(14), BFieldElement::new(21), BFieldElement::new(35)]),
        a.scale(BFieldElement::new(7))
    );
    assert_eq!(Some(BFieldElement::new(9)), BFieldElement::new(9).lift().unlift());
    assert_eq!(None, a.unlift());
}

#[test]
fn roundup_to_power_of_two_test() {
    assert_eq!(0, roundup_npo2(0));
    assert_eq!(1, roundup_npo2(1));
    assert_eq!(2, roundup_npo2(2));
    assert_eq!(4, roundup_npo2(3));
    assert_eq!(4, roundup_npo2(4));
    assert_eq!(8, roundup_npo2(5));
    assert_eq!(1 << 20, roundup_npo2((1 << 20) - 1));
    assert_eq!(1 << 21, roundup_npo2((1 << 20) + 1));
}

#[test]
fn interpolation_meets_its_points_test() {
    let points: Vec<BFieldElement> = (1..=6).map(BFieldElement::new).collect();
    let targets = random_elements(6);
    let polynomial = Polynomial::interpolate(&points, &targets).unwrap();
    assert!(polynomial.degree() <= 5);
    for (point, target) in points.iter().zip(targets.iter()) {
        assert_eq!(*target, polynomial.evaluate(*point));
    }
}

#[test]
fn interpolation_of_a_known_polynomial_test() {
    // 3 + 2 z + z^2 at 0, 1, 2 is 3, 6, 11
    let points: Vec<BFieldElement> = (0..3).map(BFieldElement::new).collect();
    let targets: Vec<BFieldElement> = [3, 6, 11].iter().map(|v| BFieldElement::new(*v)).collect();
    let polynomial = Polynomial::interpolate(&points, &targets).unwrap();
    assert_eq!(2, polynomial.degree());
    assert_eq!(BFieldElement::new(3), polynomial.coefficients[0]);
    assert_eq!(BFieldElement::new(2), polynomial.coefficients[1]);
    assert_eq!(BFieldElement::new(1), polynomial.coefficients[2]);
    assert_eq!(BFieldElement::new(3 + 20 + 100), polynomial.evaluate(BFieldElement::new(10)));
}

#[test]
fn interpolation_rejects_a_repeated_point_test() {
    let points: Vec<BFieldElement> = [1, 2, 1].iter().map(|v| BFieldElement::new(*v)).collect();
    let targets: Vec<BFieldElement> = [5, 6, 7].iter().map(|v| BFieldElement::new(*v)).collect();
    assert!(Polynomial::interpolate(&points, &targets).is_none());
}

#[test]
fn degree_of_polynomials_test() {
    assert_eq!(-1, Polynomial::ring_zero().degree());
    let zero = BFieldElement::ring_zero();
    assert_eq!(-1, Polynomial { coefficients: vec![zero, zero] }.degree());
    assert_eq!(0, Polynomial::from_constant(BFieldElement::new(4)).degree());
    assert_eq!(
        1,
        Polynomial { coefficients: vec![zero, BFieldElement::new(4), zero] }.degree()
    );
    // (z - 3) times 4 is -12 + 4 z
    let product = Polynomial::from_constant(BFieldElement::new(4)).mul_linear(BFieldElement::new(3));
    assert_eq!(BFieldElement::new(P - 12), product.coefficients[0]);
    assert_eq!(BFieldElement::new(4), product.coefficients[1]);
}
