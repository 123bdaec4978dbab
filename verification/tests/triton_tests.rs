use twenty_first::shared_math::b_field_element::BFieldElement;
use twenty_first::shared_math::fri_domain::FriDomain;
use twenty_first::shared_math::stark::table::TableError;
use twenty_first::shared_math::stark::triton::table::base_matrix::BaseMatrices;
use twenty_first::shared_math::stark::triton::table::table_collection::to_vec_vecs;
use twenty_first::shared_math::stark::triton::table::table_collection::BaseTableCollection;

fn element(value: u64) -> BFieldElement {
    BFieldElement::new(value)
}

fn sample_matrices() -> BaseMatrices {
    let mut matrices = BaseMatrices::new();
    matrices.program_matrix = (0..4).map(|i| [element(i), element(10 + i)]).collect();
    matrices.instruction_matrix = (0..8).map(|i| [element(i), element(1), element(2)]).collect();
    matrices.processor_matrix = (0..4).map(|i| [element(i); 38]).collect();
    matrices.input_matrix = vec![[element(5)], [element(6)]];
    matrices.output_matrix = vec![[element(7)]];
    matrices.ram_matrix = vec![[element(1), element(2), element(3), element(4)]];
    matrices
}

#[test]
fn rows_of_fixed_width_become_rows_test() {
    let arrays = vec![[1u64, 2, 3], [4, 5, 6]];
    assert_eq!(vec![vec![1, 2, 3], vec![4, 5, 6]], to_vec_vecs(&arrays));
    let none: Vec<[u64; 2]> = vec![];
    assert!(to_vec_vecs(&none).is_empty());
}

#[test]
fn every_table_gets_its_trace_test() {
    let generator = BFieldElement::ring_zero().get_primitive_root_of_unity(1 << 32).unwrap();
    let matrices = sample_matrices();
    let tables = BaseTableCollection::from_base_matrices(generator, 1 << 32, 2, &matrices);
    assert_eq!(to_vec_vecs(&matrices.program_matrix), tables.program_table.base.matrix);
    assert_eq!(to_vec_vecs(&matrices.instruction_matrix), tables.instruction_table.base.matrix);
    assert_eq!(to_vec_vecs(&matrices.processor_matrix), tables.processor_table.base.matrix);
    assert_eq!(to_vec_vecs(&matrices.input_matrix), tables.input_table.base.matrix);
    assert_eq!(to_vec_vecs(&matrices.output_matrix), tables.output_table.base.matrix);
    assert_eq!(to_vec_vecs(&matrices.ram_matrix), tables.ram_table.base.matrix);
    assert!(tables.aux_table.base.matrix.is_empty());

    let heights: Vec<usize> = tables.into_iter().iter().map(|table| table.height).collect();
    assert_eq!(vec![4, 8, 4, 2, 1, 0, 1, 0, 0, 0], heights);
    let widths: Vec<usize> = tables.into_iter().iter().map(|table| table.base_width).collect();
    assert_eq!(vec![2, 3, 38, 1, 1, 4, 4, 5, 17, 7], widths);
    assert!(tables.into_iter().iter().all(|table| table.num_randomizers == 2));
    assert!(tables.into_iter().iter().all(|table| table.generator == generator));
    // the generator of a table of height four has order four
    let omicron = tables.program_table.base.omicron;
    assert_eq!(BFieldElement::ring_one(), omicron.mod_pow_u64(4));
    assert_ne!(BFieldElement::ring_one(), omicron.mod_pow_u64(2));
}

#[test]
fn tables_without_constraints_have_no_degree_test() {
    let generator = BFieldElement::ring_zero().get_primitive_root_of_unity(1 << 32).unwrap();
    let tables = BaseTableCollection::from_base_matrices(generator, 1 << 32, 2, &sample_matrices());
    assert_eq!(-1, tables.program_table.max_degree());
    assert_eq!(-1, tables.processor_table.max_degree());
    // -1 as an unsigned number
    assert_eq!(u64::MAX, tables.max_degree());
    assert_eq!(u64::MAX, BaseTableCollection::empty().max_degree());
}

#[test]
fn codewords_of_all_tables_test() {
    let generator = BFieldElement::ring_zero().get_primitive_root_of_unity(1 << 32).unwrap();
    let tables = BaseTableCollection::from_base_matrices(generator, 1 << 32, 1, &sample_matrices());
    let domain = FriDomain {
        offset: BFieldElement::ring_one(),
        omega: BFieldElement::ring_zero().get_primitive_root_of_unity(16).unwrap(),
        length: 16,
    };
    let codewords = tables.codewords(&domain).unwrap();
    assert_eq!(2 + 3 + 38 + 1 + 1 + 4 + 4 + 5 + 17 + 7, codewords.len());
    assert!(codewords.iter().all(|codeword| codeword.len() == 16));
    // over a domain with the trace's own points, a codeword holds its column
    for row in 0..4 {
        assert_eq!(element(10 + row as u64), codewords[1][4 * row]);
    }
    for row in 0..8 {
        assert_eq!(element(row as u64), codewords[2][2 * row]);
    }
    // the column of the input, and that of the output after it
    assert_eq!(element(5), codewords[43][0]);
    assert_eq!(element(6), codewords[43][8]);
    assert_eq!(element(7), codewords[44][0]);
    // a table without rows has zero codewords
    assert!(codewords[45].iter().all(|value| value.is_zero()));
    // twice the same columns, but not the same codewords: the random values differ
    let again = tables.codewords(&domain).unwrap();
    assert_ne!(codewords[0], again[0]);

    let short = FriDomain { length: 4, ..domain };
    assert_eq!(Err(TableError::DomainTooShort), tables.codewords(&short));
}

#[test]
fn the_empty_collection_test() {
    let tables = BaseTableCollection::empty();
    assert!(tables.into_iter().iter().all(|table| table.matrix.is_empty() && table.height == 0));
    let domain = FriDomain {
        offset: BFieldElement::new(7),
        omega: BFieldElement::ring_zero().get_primitive_root_of_unity(4).unwrap(),
        length: 4,
    };
    let codewords = tables.codewords(&domain).unwrap();
    assert_eq!(82, codewords.len());
    assert!(codewords.iter().all(|codeword| codeword.iter().all(|value| value.is_zero())));
}

#[test]
fn input_and_output_have_their_own_tables_test() {
    let generator = BFieldElement::ring_zero().get_primitive_root_of_unity(1 << 32).unwrap();
    let mut matrices = BaseMatrices::new();
    matrices.input_matrix = vec![[element(1)]];
    matrices.output_matrix = vec![[element(2)], [element(3)]];
    let tables = BaseTableCollection::from_base_matrices(generator, 1 << 32, 1, &matrices);
    assert_eq!(vec![vec![element(1)]], tables.input_table.base.matrix);
    assert_eq!(vec![vec![element(2)], vec![element(3)]], tables.output_table.base.matrix);
    assert_eq!(1, tables.input_table.base.height);
    assert_eq!(2, tables.output_table.base.height);
    // the matrices are as they were
    assert_eq!(vec![[element(1)]], matrices.input_matrix);
    assert_eq!(vec![[element(2)], [element(3)]], matrices.output_matrix);
    let others: Vec<usize> = tables.into_iter().iter().map(|table| table.matrix.len()).collect();
    assert_eq!(vec![0, 0, 0, 1, 2, 0, 0, 0, 0, 0], others);
}
