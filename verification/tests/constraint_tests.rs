use twenty_first::shared_math::b_field_element::BFieldElement;
use twenty_first::shared_math::b_field_element::P;
use twenty_first::shared_math::fri_domain::FriDomain;
use twenty_first::shared_math::mpolynomial::constant;
use twenty_first::shared_math::mpolynomial::difference;
use twenty_first::shared_math::mpolynomial::product;
use twenty_first::shared_math::mpolynomial::sum;
use twenty_first::shared_math::mpolynomial::variable;
use twenty_first::shared_math::mpolynomial::Degree;
use twenty_first::shared_math::mpolynomial::MPolynomial;
use twenty_first::shared_math::polynomial::Polynomial;
use twenty_first::shared_math::stark::quotient::check_codewords;
use twenty_first::shared_math::stark::quotient::degree_vector;
use twenty_first::shared_math::stark::quotient::inverse_zerofiers;
use twenty_first::shared_math::stark::quotient::max_degree_of;
use twenty_first::shared_math::stark::quotient::quotients_of;
use twenty_first::shared_math::stark::quotient::rows_meet_constraints;
use twenty_first::shared_math::stark::quotient::single_row_degree_bounds;
use twenty_first::shared_math::stark::quotient::transition_degree_bounds;
use twenty_first::shared_math::stark::quotient::vanish;
use twenty_first::shared_math::stark::table::derive_omicron;
use twenty_first::shared_math::stark::table::extend_column;
use twenty_first::shared_math::stark::table::lift_codeword;
use twenty_first::shared_math::stark::table::trace_domain;
use twenty_first::shared_math::stark::table::zip_components;
use twenty_first::shared_math::stark::table::Table;
use twenty_first::shared_math::stark::table::TableError;
use twenty_first::shared_math::x_field_element::XFieldElement;
use twenty_first::utils::blake3_digest;
use twenty_first::utils::digest_word;
use twenty_first::utils::sample_bytes;
use twenty_first::utils::sample_index;
use twenty_first::utils::sample_x;

fn b(value: u64) -> BFieldElement {
    BFieldElement::new(value)
}

fn x(value: u64) -> XFieldElement {
    b(value).lift()
}

fn generator() -> BFieldElement {
    BFieldElement::ring_zero().get_primitive_root_of_unity(1 << 32).unwrap()
}

fn domain_of(length: usize) -> FriDomain {
    FriDomain {
        length,
        offset: b(7),
        omega: BFieldElement::ring_zero().get_primitive_root_of_unity(length as u64).unwrap(),
    }
}

/// x0 * x1 - x2 + 3
fn sample_polynomial() -> MPolynomial {
    sum(difference(product(variable(0), variable(1)), variable(2)), constant(3))
}

/// The constraints of a column that starts at five, grows by one from row
/// to row, and ends at eight.
fn counting_constraints() -> (Vec<MPolynomial>, Vec<MPolynomial>, Vec<MPolynomial>) {
    (
        vec![difference(variable(0), constant(5))],
        vec![difference(difference(variable(1), variable(0)), constant(1))],
        vec![difference(variable(0), constant(8))],
    )
}

fn degree_of_codeword(domain: &FriDomain, codeword: &[XFieldElement]) -> Degree {
    (0..3)
        .map(|k| {
            let component: Vec<BFieldElement> =
                codeword.iter().map(|value| value.coefficients[k]).collect();
            domain.b_interpolate(&component).unwrap().degree()
        })
        .max()
        .unwrap()
}

#[test]
fn a_polynomial_in_several_variables_test() {
    let polynomial = sample_polynomial();
    assert_eq!(x(9), polynomial.evaluate(&vec![x(2), x(5), x(4)]));
    // further elements of the point are of no account
    assert_eq!(x(9), polynomial.evaluate(&vec![x(2), x(5), x(4), x(100)]));
    // below zero the value wraps around
    assert_eq!(x(P - 1), polynomial.evaluate(&vec![x(0), x(5), x(4)]));
    assert_eq!(x(9), polynomial.duplicate().evaluate(&vec![x(2), x(5), x(4)]));

    // a product has the sum of the degrees of its factors, a sum the larger
    assert_eq!(7, polynomial.symbolic_degree_bound(&vec![3, 4, 5]));
    assert_eq!(10, polynomial.symbolic_degree_bound(&vec![3, 4, 10]));
    assert_eq!(0, polynomial.symbolic_degree_bound(&vec![0, 0, 0]));
    assert_eq!(0, constant(0).symbolic_degree_bound(&vec![]));
    assert_eq!(12, product(variable(0), product(variable(0), variable(0)))
        .symbolic_degree_bound(&vec![4]));

    // an element of the extension field as a value
    let square = product(variable(0), variable(0));
    let element = XFieldElement::new([b(0), b(1), b(0)]);
    assert_eq!(XFieldElement::new([b(0), b(0), b(1)]), square.evaluate(&vec![element]));
}

#[test]
fn the_degrees_that_stand_for_variables_test() {
    assert_eq!(vec![7, 7, 0], degree_vector(2, 7, 1));
    assert_eq!(Vec::<Degree>::new(), degree_vector(0, 7, 0));
    assert_eq!(9, max_degree_of(&vec![3, 9, -1]));
    assert_eq!(-5, max_degree_of(&vec![-5]));
    assert_eq!(-1, max_degree_of(&vec![]));

    let (boundary, transition, terminal) = counting_constraints();
    assert_eq!(vec![2], single_row_degree_bounds(&boundary, 1, 3, 0));
    assert_eq!(vec![2], single_row_degree_bounds(&terminal, 1, 3, 0));
    assert_eq!(vec![0], transition_degree_bounds(&transition, 1, 3, 0, 4));
    // a constraint of degree two on a table of eight rows and one random value
    let squares = vec![difference(variable(1), product(variable(0), variable(0)))];
    assert_eq!(vec![16 - 8 + 1], transition_degree_bounds(&squares, 1, 8, 0, 8));
    // parameters have no degree
    let keyed = vec![product(variable(0), variable(1))];
    assert_eq!(vec![3 - 1], single_row_degree_bounds(&keyed, 1, 3, 1));
}

#[test]
fn constraints_vanish_on_the_rows_that_meet_them_test() {
    let (boundary, transition, terminal) = counting_constraints();
    assert!(vanish(&boundary, &vec![x(5)]));
    assert!(!vanish(&boundary, &vec![x(6)]));
    assert!(vanish(&transition, &vec![x(6), x(7)]));
    assert!(!vanish(&transition, &vec![x(6), x(6)]));
    assert!(vanish(&vec![], &vec![x(6)]));

    let rows: Vec<Vec<XFieldElement>> = (5..9).map(|value| vec![x(value)]).collect();
    assert!(rows_meet_constraints(&rows, &vec![], &boundary, &transition, &terminal, 1));
    assert!(rows_meet_constraints(&vec![], &vec![], &boundary, &transition, &terminal, 1));
    // one row is the first and the last
    assert!(!rows_meet_constraints(&rows[..1].to_vec(), &vec![], &boundary, &transition, &terminal, 1));
    assert!(rows_meet_constraints(&rows[..1].to_vec(), &vec![], &boundary, &transition, &vec![], 1));
    for broken in 0..4 {
        let mut wrong = rows.clone();
        wrong[broken][0] = x(20);
        assert!(!rows_meet_constraints(&wrong, &vec![], &boundary, &transition, &terminal, 1));
    }
    // a parameter in place of a constant
    let first_is_parameter = vec![difference(variable(0), variable(1))];
    assert!(rows_meet_constraints(&rows, &vec![x(5)], &first_is_parameter, &vec![], &vec![], 1));
    assert!(!rows_meet_constraints(&rows, &vec![x(6)], &first_is_parameter, &vec![], &vec![], 1));
}

#[test]
fn the_quotients_of_a_counting_table_test() {
    let (boundary, transition, terminal) = counting_constraints();
    let mut table: Table<()> = Table::new(1, 1, 4, 0, generator(), 1 << 32, ());
    assert_eq!(Ok(()), table.set_matrix((5..9).map(|value| vec![b(value)]).collect()));
    let domain = domain_of(16);
    let codewords: Vec<Vec<XFieldElement>> =
        table.lde(&domain).unwrap().iter().map(|codeword| lift_codeword(codeword)).collect();
    assert!(check_codewords(&codewords, 1, 16));
    assert!(!check_codewords(&codewords, 2, 16));
    assert!(!check_codewords(&codewords, 1, 8));

    let quotients = quotients_of(
        &domain, &codewords, &vec![], &boundary, &transition, &terminal, 1, table.omicron, 4,
    )
    .unwrap();
    assert_eq!(3, quotients.len());
    // the column is 5 + its row, so that each quotient is a constant
    assert_eq!(3, degree_of_codeword(&domain, &codewords[0]));
    assert_eq!(2, degree_of_codeword(&domain, &quotients[0]));
    assert_eq!(0, degree_of_codeword(&domain, &quotients[1]));
    assert_eq!(2, degree_of_codeword(&domain, &quotients[2]));
    // the first quotient times its zerofier is the constraint
    let z = domain.b_domain_value(3);
    assert_eq!(
        codewords[0][3].sub(x(5)),
        quotients[0][3].scale(z.sub(BFieldElement::ring_one()))
    );

    // a trace that does not count has quotients of high degree
    let mut wrong: Table<()> = Table::new(1, 1, 4, 0, generator(), 1 << 32, ());
    wrong.set_matrix(vec![vec![b(5)], vec![b(6)], vec![b(9)], vec![b(8)]]).unwrap();
    let codewords: Vec<Vec<XFieldElement>> =
        wrong.lde(&domain).unwrap().iter().map(|codeword| lift_codeword(codeword)).collect();
    let quotients = quotients_of(
        &domain, &codewords, &vec![], &boundary, &transition, &terminal, 1, wrong.omicron, 4,
    )
    .unwrap();
    assert!(degree_of_codeword(&domain, &quotients[1]) > 0);

    // codewords of another shape, and a domain that meets the trace
    assert_eq!(
        Err(TableError::ShapeMismatch),
        quotients_of(&domain, &codewords, &vec![], &boundary, &transition, &terminal, 2, wrong.omicron, 4)
    );
    let mut plain = domain_of(16);
    plain.offset = BFieldElement::ring_one();
    assert_eq!(
        Err(TableError::ZerofierVanishes),
        quotients_of(&plain, &codewords, &vec![], &boundary, &transition, &terminal, 1, wrong.omicron, 4)
    );
}

#[test]
fn the_inverses_of_the_zerofiers_test() {
    let omicron = derive_omicron(generator(), 1 << 32, 4);
    let one = BFieldElement::ring_one();
    let zs = vec![b(7), b(11)];
    let (first, all, last) = inverse_zerofiers(&zs, omicron, 4).unwrap();
    for (i, z) in zs.iter().enumerate() {
        assert_eq!(one, first[i].mul(z.sub(one)));
        assert_eq!(one, last[i].mul(z.sub(omicron.inverse().unwrap())));
        // all rows but the last: (z^4 - 1) / (z - 1/omicron)
        assert_eq!(
            z.sub(omicron.inverse().unwrap()),
            all[i].mul(z.mod_pow_u64(4).sub(one))
        );
    }
    // at a point of the trace there is none
    assert!(inverse_zerofiers(&vec![b(7), omicron], omicron, 4).is_none());
    assert!(inverse_zerofiers(&vec![one], omicron, 4).is_none());
    assert!(inverse_zerofiers(&zs, BFieldElement::ring_zero(), 4).is_none());
    // a table without rows has no rows to leave out
    let (_, all, _) = inverse_zerofiers(&zs, omicron, 0).unwrap();
    assert!(all.iter().all(|value| value.is_zero()));
}

#[test]
fn the_points_of_a_table_test() {
    let omicron = derive_omicron(generator(), 1 << 32, 4);
    assert!(omicron.mod_pow_u64(4).is_one());
    assert!(!omicron.mod_pow_u64(2).is_one());
    assert_eq!(generator(), derive_omicron(generator(), 1 << 32, 1 << 32));
    assert!(derive_omicron(generator(), 1 << 32, 1).is_one());
    assert!(derive_omicron(generator(), 1 << 32, 0).is_one());

    let omega = b(3);
    assert_eq!(
        vec![b(1), omicron, omicron.mul(omicron), omicron.mod_pow_u64(3), omega, omega.mul(omicron)],
        trace_domain(omicron, omega, 4, 2)
    );
    assert!(trace_domain(omicron, omega, 0, 0).is_empty());

    let domain = domain_of(8);
    assert_eq!(b(7).mul(domain.omega.mod_pow_u64(3)), domain.b_domain_value(3));
    assert_eq!(domain.b_domain_values()[5], domain.b_domain_value(5));
    assert_eq!(b(7), domain.b_domain_value(0));
}

#[test]
fn a_column_is_extended_test() {
    // the squares at 1, 2 and 3 extend to the squares at 0 and 4
    let points = vec![b(1), b(2), b(3)];
    let squares = vec![b(1), b(4), b(9)];
    assert_eq!(Some(vec![b(0), b(16)]), extend_column(&points, &squares, &vec![b(0), b(4)]));
    assert_eq!(Some(vec![]), extend_column(&points, &squares, &vec![]));
    assert_eq!(None, extend_column(&vec![b(1), b(1), b(3)], &squares, &vec![b(0)]));

    assert_eq!(vec![x(1), x(4), x(9)], lift_codeword(&squares));
    assert_eq!(
        vec![XFieldElement::new([b(1), b(1), b(0)]), XFieldElement::new([b(4), b(2), b(0)])],
        zip_components(&vec![b(1), b(4)], &vec![b(1), b(2)], &vec![b(0), b(0)])
    );
    assert_eq!(Some(b(4)), x(4).unlift());
    assert_eq!(None, XFieldElement::new([b(4), b(0), b(1)]).unlift());
    assert_eq!(x(4), XFieldElement::new_const(b(4)));
}

#[test]
fn random_values_are_mixed_into_a_column_test() {
    let mut table: Table<()> = Table::new(1, 2, 4, 2, generator(), 1 << 32, ());
    table.set_matrix((0..4).map(|i| vec![b(10 * i)]).collect()).unwrap();
    let domain = domain_of(16);
    let codewords = table.lde_with_randomizers(&domain, &vec![vec![b(77), b(88)]]).unwrap();
    assert_eq!(codewords, table.codewords);
    assert_eq!(
        codewords,
        table.base_codewords_with_randomizers(&domain, &vec![vec![b(77), b(88)]]).unwrap()
    );
    let interpolant: Polynomial = domain.b_interpolate(&codewords[0]).unwrap();
    assert_eq!(5, interpolant.degree());
    assert_eq!(5, table.interpolant_degree());
    for row in 0..4 {
        assert_eq!(b(10 * row), interpolant.evaluate(table.omicron.mod_pow_u64(row)));
    }
    assert_eq!(b(77), interpolant.evaluate(domain.omega));
    assert_eq!(b(88), interpolant.evaluate(domain.omega.mul(table.omicron)));

    // the columns of the extension, with their own random values
    table.extended_matrix = (0..4).map(|i| vec![x(10 * i), x(i * i)]).collect();
    let extension = table
        .ldex_with_randomizers(&domain, &vec![vec![x(1), XFieldElement::new([b(0), b(5), b(0)])]])
        .unwrap();
    assert_eq!(1, extension.len());
    assert_eq!(2, table.extended_codewords.len());
    assert_eq!(lift_codeword(&codewords[0]), table.extended_codewords[0]);
    assert_eq!(extension[0], table.extended_codewords[1]);
    let second: Vec<BFieldElement> = extension[0].iter().map(|v| v.coefficients[1]).collect();
    let interpolant = domain.b_interpolate(&second).unwrap();
    assert_eq!(b(5), interpolant.evaluate(domain.omega.mul(table.omicron)));
    assert_eq!(b(0), interpolant.evaluate(domain.omega));
    assert_eq!(b(0), interpolant.evaluate(table.omicron));
}

#[test]
fn values_are_drawn_from_a_seed_test() {
    let seed = blake3_digest(b"seed");
    let mut input = seed.to_vec();
    input.extend_from_slice(&5u64.to_le_bytes());
    let drawn = sample_bytes(&seed, 5);
    assert_eq!(blake3_digest(&input), drawn);
    assert_ne!(drawn, sample_bytes(&seed, 6));

    let first = u64::from_le_bytes(drawn[0..8].try_into().unwrap());
    let second = u64::from_le_bytes(drawn[8..16].try_into().unwrap());
    let third = u64::from_le_bytes(drawn[16..24].try_into().unwrap());
    assert_eq!(first, digest_word(&drawn, 0));
    assert_eq!(second, digest_word(&drawn, 8));
    assert_eq!(
        u64::from_le_bytes(drawn[24..32].try_into().unwrap()),
        digest_word(&drawn, 24)
    );
    assert_eq!((first % 100) as usize, sample_index(&seed, 5, 100));
    assert_eq!(0, sample_index(&seed, 5, 1));
    assert_eq!(
        XFieldElement::new([b(first), b(second), b(third)]),
        sample_x(&seed, 5)
    );
    assert!(sample_x(&seed, 5).coefficients.iter().all(|c| c.value() < P));
}
