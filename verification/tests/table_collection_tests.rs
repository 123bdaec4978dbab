use std::cell::RefCell;
use std::collections::HashMap;
use std::convert::TryInto;
use std::rc::Rc;
use twenty_first::shared_math::b_field_element::BFieldElement;
use twenty_first::shared_math::fri_domain::FriDomain;
use twenty_first::shared_math::mpolynomial::Degree;
use twenty_first::shared_math::other::random_x_elements;
use twenty_first::shared_math::stark::brainfuck::instruction_table::InstructionTable;
use twenty_first::shared_math::stark::brainfuck::io_table::IOTable;
use twenty_first::shared_math::stark::brainfuck::memory_table::MemoryTable;
use twenty_first::shared_math::stark::brainfuck::processor_table::ProcessorTable;
use twenty_first::shared_math::stark::brainfuck::stark::EXTENSION_CHALLENGE_COUNT;
use twenty_first::shared_math::stark::brainfuck::stark::PERMUTATION_ARGUMENTS_COUNT;
use twenty_first::shared_math::stark::brainfuck::table_collection::TableCollection;
use twenty_first::shared_math::stark::table::PaddingRule;
use twenty_first::shared_math::stark::table::Table;
use twenty_first::shared_math::stark::table::TableError;
use twenty_first::shared_math::stark::brainfuck::vm::BaseMatrices;
use twenty_first::shared_math::stark::brainfuck::vm::InstructionMatrixBaseRow;
use twenty_first::shared_math::stark::brainfuck::vm::Register;
use twenty_first::shared_math::x_field_element::XFieldElement;

const VERY_SIMPLE_PROGRAM: &str = "++++";
const PRINT_17_CHARS: &str = ",.................";
const PRINT_EXCLAMATION_MARKS: &str = ">++++++++++[>+++><<-]>+++><<>.................";
const HELLO_WORLD: &str = "++++++++[>++++[>++>+++>+++>+<<<<-]>+>+>->>+[<]<-]>>.>---.+++++++..+++.>>.<-.<.+++.------.--------.>>+.>++.";
const ROT13: &str = ",+++++++++++++.,+++++++++++++.,+++++++++++++.";
const EVERY_INSTRUCTION: &str = ",>+<[-.]";

/// Turns the text of a program into its words: each instruction, and after
/// each loop instruction the address it may jump to.
fn compile(source: &str) -> Option<Vec<BFieldElement>> {
    let mut program: Vec<BFieldElement> = vec![];
    let mut stack: Vec<usize> = vec![];
    for symbol in source.chars() {
        if !"[]<>+-,.".contains(symbol) {
            return None;
        }
        program.push(BFieldElement::new(symbol as u64));
        if symbol == '[' {
            program.push(BFieldElement::ring_zero());
            stack.push(program.len() - 1);
        }
        if symbol == ']' {
            let start = stack.pop()?;
            program.push(BFieldElement::new((start + 1) as u64));
            program[start] = BFieldElement::new(program.len() as u64);
        }
    }
    if stack.is_empty() {
        Some(program)
    } else {
        None
    }
}

/// Runs a program and records the rows of all tables.
fn simulate(program: &[BFieldElement], input_data: &[BFieldElement]) -> Option<BaseMatrices> {
    let zero = BFieldElement::ring_zero();
    let one = BFieldElement::ring_one();
    let word = |address: usize| {
        if address < program.len() {
            program[address]
        } else {
            zero
        }
    };
    let mut register = Register {
        cycle: zero,
        instruction_pointer: zero,
        current_instruction: word(0),
        next_instruction: word(1),
        memory_pointer: zero,
        memory_value: zero,
        memory_value_inverse: zero,
    };
    let mut memory: HashMap<u64, BFieldElement> = HashMap::new();
    let mut input_counter = 0;
    let mut processor_matrix = vec![];
    let mut instruction_matrix: Vec<InstructionMatrixBaseRow> = (0..program.len())
        .map(|i| InstructionMatrixBaseRow {
            instruction_pointer: BFieldElement::new(i as u64),
            current_instruction: word(i),
            next_instruction: word(i + 1),
        })
        .collect();
    let mut input_matrix = vec![];
    let mut output_matrix = vec![];
    while (register.instruction_pointer.value() as usize) < program.len() {
        processor_matrix.push(register);
        instruction_matrix.push(InstructionMatrixBaseRow {
            instruction_pointer: register.instruction_pointer,
            current_instruction: register.current_instruction,
            next_instruction: register.next_instruction,
        });
        let ip = register.instruction_pointer.value() as usize;
        let pointer = register.memory_pointer.value();
        let value = *memory.get(&pointer).unwrap_or(&zero);
        let mut next_ip = ip + 1;
        match register.current_instruction.value() as u8 as char {
            '[' => {
                next_ip = if value.is_zero() {
                    program[ip + 1].value() as usize
                } else {
                    ip + 2
                }
            }
            ']' => {
                next_ip = if !value.is_zero() {
                    program[ip + 1].value() as usize
                } else {
                    ip + 2
                }
            }
            '<' => register.memory_pointer = register.memory_pointer.sub(one),
            '>' => register.memory_pointer = register.memory_pointer.add(one),
            '+' => {
                memory.insert(pointer, value.add(one));
            }
            '-' => {
                memory.insert(pointer, value.sub(one));
            }
            '.' => output_matrix.push(value),
            ',' => {
                let symbol = *input_data.get(input_counter)?;
                input_counter += 1;
                memory.insert(pointer, symbol);
                input_matrix.push(symbol);
            }
            _ => return None,
        }
        register.cycle = register.cycle.add(one);
        register.instruction_pointer = BFieldElement::new(next_ip as u64);
        register.current_instruction = word(next_ip);
        register.next_instruction = word(next_ip + 1);
        register.memory_value = *memory.get(&register.memory_pointer.value()).unwrap_or(&zero);
        register.memory_value_inverse = register.memory_value.inverse().unwrap_or(zero);
    }
    processor_matrix.push(register);
    instruction_matrix.push(InstructionMatrixBaseRow {
        instruction_pointer: register.instruction_pointer,
        current_instruction: register.current_instruction,
        next_instruction: register.next_instruction,
    });
    instruction_matrix.sort_by_key(|row| row.instruction_pointer.value());
    Some(BaseMatrices {
        processor_matrix,
        instruction_matrix,
        input_matrix,
        output_matrix,
    })
}

fn create_table_collection(
    program: &[BFieldElement],
    input_data: &[BFieldElement],
) -> TableCollection {
    let base_matrices: BaseMatrices = simulate(program, input_data).unwrap();
    let number_of_randomizers = 1;
    let order: u64 = 1 << 32;
    let smooth_generator = BFieldElement::ring_zero()
        .get_primitive_root_of_unity(order)
        .unwrap();

    let processor_table = ProcessorTable::new(
        base_matrices.processor_matrix.len(),
        number_of_randomizers,
        smooth_generator,
        order as usize,
    );
    let instruction_table = InstructionTable::new(
        base_matrices.instruction_matrix.len(),
        number_of_randomizers,
        smooth_generator,
        order as usize,
    );
    let memory_table = MemoryTable::new(
        base_matrices.processor_matrix.len(),
        number_of_randomizers,
        smooth_generator,
        order as usize,
    );
    let input_table = IOTable::new_input_table(
        base_matrices.input_matrix.len(),
        smooth_generator,
        order as usize,
    );
    let output_table = IOTable::new_output_table(
        base_matrices.output_matrix.len(),
        smooth_generator,
        order as usize,
    );

    TableCollection::new(
        processor_table,
        instruction_table,
        memory_table,
        input_table,
        output_table,
    )
}

#[test]
fn max_degree_test() {
    let actual_program = compile(PRINT_EXCLAMATION_MARKS).unwrap();
    let input_data = vec![];
    let table_collection = create_table_collection(&actual_program, &input_data);

    assert_eq!(1281, table_collection.get_max_degree());
}

#[test]
fn degree_bounds_test() {
    let mut expected_bounds: HashMap<&str, (Vec<Degree>, Vec<Degree>, Vec<Degree>)> =
        HashMap::new();

    expected_bounds.insert(
        VERY_SIMPLE_PROGRAM,
        (
            vec![8, 8, 8, 8, 8, 8, 8, 16, 16, 16, 8, 8, 8, -1, -1],
            vec![8, 8, 8, 8, 16, 16, 8, -1, -1],
            vec![
                7, 7, 7, 7, 7, 7, 7, 81, 65, 65, 1, 17, 17, 17, 9, 65, 65, 7, 15, 7, 7, 15, 15,
                17, 17, 17, 33, 17, 47, 15, 7, 7, 7, 9, 17, 9, 9, 15, -2, 0, -1, -2, 0, -1,
            ],
        ),
    );
    expected_bounds.insert(
        PRINT_17_CHARS,
        (
            vec![32, 32, 32, 32, 32, 32, 32, 64, 64, 64, 32, 32, 32, 0, 31],
            vec![32, 32, 32, 32, 64, 64, 32, 0, 31],
            vec![
                31, 31, 31, 31, 31, 31, 31, 321, 257, 257, 1, 65, 65, 65, 33, 257, 257, 31, 63,
                31, 31, 63, 63, 65, 65, 65, 129, 65, 191, 63, 31, 31, 31, 33, 65, 33, 33, 63,
                -1, 0, -1, 30, 0, 30,
            ],
        ),
    );
    expected_bounds.insert(
        HELLO_WORLD,
        (
            vec![
                1024, 1024, 1024, 1024, 1024, 1024, 1024, 1024, 1024, 1024, 1024, 1024, 1024,
                -1, 15,
            ],
            vec![1024, 1024, 1024, 1024, 1024, 1024, 1024, -1, 15],
            vec![
                1023, 1023, 1023, 1023, 1023, 1023, 1023, 10241, 8193, 8193, 1, 2049, 2049,
                2049, 1025, 8193, 8193, 1023, 2047, 1023, 1023, 1023, 1023, 1025, 1025, 1025,
                2049, 1025, 3071, 1023, 1023, 1023, 1023, 1025, 2049, 1025, 1025, 2047, -2, 0,
                -1, 14, 0, 14,
            ],
        ),
    );
    expected_bounds.insert(
        ROT13,
        (
            vec![64, 64, 64, 64, 64, 64, 64, 128, 128, 128, 64, 64, 64, 3, 3],
            vec![64, 64, 64, 64, 128, 128, 64, 3, 3],
            vec![
                63, 63, 63, 63, 63, 63, 63, 641, 513, 513, 1, 129, 129, 129, 65, 513, 513, 63,
                127, 63, 63, 127, 127, 129, 129, 129, 257, 129, 383, 127, 63, 63, 63, 65, 129,
                65, 65, 127, 2, 0, 2, 2, 0, 2,
            ],
        ),
    );

    // Verify that `get_all_base_degree_bounds` and `get_all_extension_degree_bounds` return
    // the expected values
    for (code, (expected_base_bounds, expected_extension_bounds, expected_quotient_bounds)) in
        expected_bounds.into_iter()
    {
        let program = compile(code).unwrap();
        let table_collection = create_table_collection(
            &program,
            &[
                BFieldElement::new(33),
                BFieldElement::new(34),
                BFieldElement::new(35),
            ],
        );
        assert_eq!(
            expected_base_bounds,
            table_collection.get_all_base_degree_bounds(),
            "base degree bounds must match expected value for code {}",
            code
        );
        assert_eq!(
            expected_extension_bounds,
            table_collection.get_all_extension_degree_bounds(),
            "extension degree bounds must match expected value for code {}",
            code
        );
        let challenges: [XFieldElement; 11] = random_x_elements(11).try_into().unwrap();
        let terminals: [XFieldElement; 5] = random_x_elements(5).try_into().unwrap();
        assert_eq!(
            expected_quotient_bounds,
            table_collection.all_quotient_degree_bounds(challenges, terminals),
            "quotient degree bounds must match expected value for code {}",
            code
        );
    }
}

#[test]
fn get_and_set_all_codewords_test() {
    let program_small = compile(VERY_SIMPLE_PROGRAM).unwrap();
    let matrices: BaseMatrices = simulate(&program_small, &[]).unwrap();
    let table_collection: TableCollection = create_table_collection(&program_small, &[]);
    let tc_ref = Rc::new(RefCell::new(table_collection));
    tc_ref.borrow_mut().set_matrices(
        matrices.processor_matrix.clone(),
        matrices.instruction_matrix.clone(),
        matrices.input_matrix.clone(),
        matrices.output_matrix.clone(),
    );
    tc_ref.borrow_mut().pad();

    // Instantiate the memory table object
    let processor_matrix_clone = tc_ref.borrow().processor_table.0.matrix.clone();
    tc_ref.borrow_mut().memory_table.0.matrix =
        MemoryTable::derive_matrix(processor_matrix_clone);

    let mock_fri_domain_length = 512;
    let fri_domain = FriDomain {
        length: mock_fri_domain_length,
        offset: BFieldElement::new(7),
        omega: BFieldElement::ring_zero()
            .get_primitive_root_of_unity(mock_fri_domain_length as u64)
            .unwrap(),
    };

    let base_codewords = tc_ref
        .borrow_mut()
        .get_and_set_all_base_codewords(&fri_domain)
        .unwrap();
    assert_eq!(
        15,
        base_codewords.len(),
        "Number of base codewords must be that of all base columns"
    );
    let interpolants: Vec<_> = base_codewords
        .iter()
        .map(|bc| fri_domain.b_interpolate(bc).unwrap())
        .collect();

    // Verify that the FRI-domain evaluations derived from the matrix values correspond with
    // the matrix values
    let mut i = 0;
    for column_index in 0..tc_ref.borrow().processor_table.0.base_width {
        for (j, registers) in matrices.processor_matrix.clone().into_iter().enumerate() {
            let register_values: Vec<BFieldElement> = registers.into_row();
            assert_eq!(
                register_values[column_index],
                interpolants[i].evaluate(tc_ref.borrow().processor_table.omicron().mod_pow_u64(j as u64)),
                "The interpolation of the FRI-domain evaluations must agree with the execution trace from processor table"
            )
        }
        i += 1;
    }
    for column_index in 0..tc_ref.borrow().instruction_table.0.base_width {
        for (j, row) in matrices.instruction_matrix.clone().into_iter().enumerate() {
            let row_values: Vec<BFieldElement> = row.into_row();
            assert_eq!(
                row_values[column_index],
                interpolants[i].evaluate(tc_ref.borrow().instruction_table.omicron().mod_pow_u64(j as u64)),
                "The interpolation of the FRI-domain evaluations must agree with the execution trace from instruction table"
            )
        }
        i += 1;
    }
    // the three columns of the memory table
    i += tc_ref.borrow().memory_table.0.base_width;
    for column_index in 0..tc_ref.borrow().input_table.0.base_width {
        for (j, element) in matrices.input_matrix.clone().into_iter().enumerate() {
            let row = vec![element];
            assert_eq!(
                row[column_index],
                interpolants[i].evaluate(tc_ref.borrow().input_table.omicron().mod_pow_u64(j as u64)),
                "The interpolation of the FRI-domain evaluations must agree with the execution trace from input table"
            )
        }
        i += 1;
    }
    for column_index in 0..tc_ref.borrow().output_table.0.base_width {
        for (j, element) in matrices.output_matrix.clone().into_iter().enumerate() {
            let row = vec![element];
            assert_eq!(
                row[column_index],
                interpolants[i].evaluate(tc_ref.borrow().output_table.omicron().mod_pow_u64(j as u64)),
                "The interpolation of the FRI-domain evaluations must agree with the execution trace from output table"
            )
        }
        i += 1;
    }

    assert!(
        base_codewords.iter().all(|ec| ec.len() == fri_domain.length),
        "All base codewords must be evaluated over the Ω domain",
    );

    // Extend and verify that extension codewords are also calculated correctly
    let all_challenges: [XFieldElement; EXTENSION_CHALLENGE_COUNT] =
        random_x_elements(EXTENSION_CHALLENGE_COUNT)
            .try_into()
            .unwrap();
    let all_initials: [XFieldElement; PERMUTATION_ARGUMENTS_COUNT as usize] =
        random_x_elements(PERMUTATION_ARGUMENTS_COUNT as usize)
            .try_into()
            .unwrap();

    tc_ref.borrow_mut().extend(all_challenges, all_initials);
    let extended_codewords: Vec<Vec<XFieldElement>> = tc_ref
        .borrow_mut()
        .get_and_set_all_extension_codewords(&fri_domain)
        .unwrap();
    assert_eq!(
        9,
        extended_codewords.len(),
        "Number of extension codewords must be that of all extension columns"
    );

    assert!(
        extended_codewords.iter().all(|ec| ec.len() == fri_domain.length),
        "All extension codewords must be evaluated over the Ω domain",
    );
}

fn domain_of(length: usize) -> FriDomain {
    FriDomain {
        length,
        offset: BFieldElement::new(7),
        omega: BFieldElement::ring_zero()
            .get_primitive_root_of_unity(length as u64)
            .unwrap(),
    }
}

/// The tables of a run, padded, with the memory table derived.
fn padded_tables(source: &str, input: &[BFieldElement]) -> (TableCollection, BaseMatrices) {
    let program = compile(source).unwrap();
    let matrices = simulate(&program, input).unwrap();
    let mut tables = create_table_collection(&program, input);
    tables.set_matrices(
        matrices.processor_matrix.clone(),
        matrices.instruction_matrix.clone(),
        matrices.input_matrix.clone(),
        matrices.output_matrix.clone(),
    );
    tables.pad();
    tables.memory_table.0.matrix =
        MemoryTable::derive_matrix(tables.processor_table.0.matrix.clone());
    (tables, matrices)
}

/// The largest degree among the three coefficients of a codeword's interpolant.
fn degree_of_codeword(domain: &FriDomain, codeword: &[XFieldElement]) -> Degree {
    (0..3)
        .map(|k| {
            let component: Vec<BFieldElement> =
                codeword.iter().map(|x| x.coefficients[k]).collect();
            domain.b_interpolate(&component).unwrap().degree()
        })
        .max()
        .unwrap()
}

#[test]
fn quotients_of_an_honest_trace_are_of_low_degree_test() {
    let (mut tables, _) = padded_tables(EVERY_INSTRUCTION, &[BFieldElement::new(1)]);
    assert_eq!(16, tables.processor_table.height());
    assert_eq!(32, tables.instruction_table.height());
    assert_eq!(16, tables.memory_table.height());
    assert_eq!(1, tables.input_table.height());
    assert_eq!(1, tables.output_table.height());
    assert_eq!(161, tables.get_max_degree());

    let domain = domain_of(256);
    tables.get_and_set_all_base_codewords(&domain).unwrap();
    let challenges: [XFieldElement; 11] = random_x_elements(11).try_into().unwrap();
    let initials: [XFieldElement; 2] = random_x_elements(2).try_into().unwrap();
    tables.extend(challenges, initials);
    tables.get_and_set_all_extension_codewords(&domain).unwrap();
    let terminals = tables.get_terminals();

    // the arguments between the tables agree
    assert_eq!(
        tables.processor_table.0.more.instruction_permutation_terminal,
        tables.instruction_table.0.more.permutation_terminal
    );
    assert_eq!(
        tables.processor_table.0.more.memory_permutation_terminal,
        tables.memory_table.0.more.permutation_terminal
    );
    assert_eq!(
        tables.processor_table.0.more.input_evaluation_terminal,
        tables.input_table.0.more.evaluation_terminal
    );
    assert_eq!(
        tables.processor_table.0.more.output_evaluation_terminal,
        tables.output_table.0.more.evaluation_terminal
    );
    assert_eq!(
        [
            tables.processor_table.0.more.instruction_permutation_terminal,
            tables.processor_table.0.more.memory_permutation_terminal,
            tables.processor_table.0.more.input_evaluation_terminal,
            tables.processor_table.0.more.output_evaluation_terminal,
            tables.instruction_table.0.more.evaluation_terminal,
        ],
        terminals
    );

    assert!(tables.check_constraints(challenges, terminals));
    // with other terminals the last rows no longer meet the terminal constraints
    let mut others = terminals;
    others[0] = others[0].add(XFieldElement::ring_one());
    assert!(!tables.check_constraints(challenges, others));
    assert_eq!(
        Err(TableError::ConstraintViolated),
        tables.all_quotients(&domain, challenges, others)
    );
    let quotients = tables.all_quotients(&domain, challenges, terminals).unwrap();
    assert_eq!(
        quotients,
        tables.quotients_from_codewords(&domain, challenges, terminals).unwrap()
    );
    let bounds = tables.all_quotient_degree_bounds(challenges, terminals);
    assert_eq!(44, quotients.len());
    assert_eq!(44, bounds.len());
    for (k, (quotient, bound)) in quotients.iter().zip(bounds.iter()).enumerate() {
        assert_eq!(domain.length, quotient.len());
        let degree = degree_of_codeword(&domain, quotient);
        assert!(degree <= *bound, "quotient {}: degree {} over bound {}", k, degree, bound);
    }
    // the quotient of the first boundary constraint is as large as its bound allows
    assert_eq!(bounds[0], degree_of_codeword(&domain, &quotients[0]));
}

#[test]
fn quotients_of_a_wrong_trace_are_not_of_low_degree_test() {
    let program = compile(EVERY_INSTRUCTION).unwrap();
    let input = [BFieldElement::new(1)];
    let mut matrices = simulate(&program, &input).unwrap();
    // the machine claims to have added two where it added one
    matrices.processor_matrix[3].memory_value = BFieldElement::new(2);
    matrices.processor_matrix[3].memory_value_inverse = BFieldElement::new(2).inverse().unwrap();
    let mut tables = create_table_collection(&program, &input);
    tables.set_matrices(
        matrices.processor_matrix.clone(),
        matrices.instruction_matrix.clone(),
        matrices.input_matrix.clone(),
        matrices.output_matrix.clone(),
    );
    tables.pad();
    tables.memory_table.0.matrix =
        MemoryTable::derive_matrix(tables.processor_table.0.matrix.clone());
    let domain = domain_of(256);
    tables.get_and_set_all_base_codewords(&domain).unwrap();
    let challenges: [XFieldElement; 11] = random_x_elements(11).try_into().unwrap();
    let initials: [XFieldElement; 2] = random_x_elements(2).try_into().unwrap();
    tables.extend(challenges, initials);
    tables.get_and_set_all_extension_codewords(&domain).unwrap();
    let terminals = tables.get_terminals();
    // the rows are found to violate a constraint
    assert!(tables.check_extended());
    assert!(!tables.check_constraints(challenges, terminals));
    assert!(!tables.processor_table.check_constraints(challenges, terminals));
    assert!(tables.instruction_table.check_constraints(challenges, terminals));
    assert!(tables.input_table.check_constraints(challenges, terminals));
    assert!(tables.output_table.check_constraints(challenges, terminals));
    assert_eq!(
        Err(TableError::ConstraintViolated),
        tables.all_quotients(&domain, challenges, terminals)
    );
    // and the quotients that the codewords give are not of low degree
    let quotients = tables.quotients_from_codewords(&domain, challenges, terminals).unwrap();
    let bounds = tables.all_quotient_degree_bounds(challenges, terminals);
    let broken = quotients
        .iter()
        .zip(bounds.iter())
        .filter(|(quotient, bound)| degree_of_codeword(&domain, quotient) > **bound)
        .count();
    assert!(broken > 0);
}

#[test]
fn degree_bounds_go_by_shape_test() {
    let (tables, _) = padded_tables(EVERY_INSTRUCTION, &[BFieldElement::new(1)]);
    // the same run with other values in its rows
    let (mut others, matrices) = padded_tables(EVERY_INSTRUCTION, &[BFieldElement::new(1)]);
    let mut registers = matrices.processor_matrix.clone();
    for register in registers.iter_mut() {
        register.memory_value = BFieldElement::new(77);
    }
    others.set_matrices(
        registers,
        matrices.instruction_matrix.clone(),
        vec![BFieldElement::new(9)],
        vec![BFieldElement::new(8)],
    );
    others.pad();
    let empty = create_table_collection(&compile(EVERY_INSTRUCTION).unwrap(), &[BFieldElement::new(1)]);
    let zero = [XFieldElement::ring_zero(); 11];
    let challenges: [XFieldElement; 11] = random_x_elements(11).try_into().unwrap();
    let terminals: [XFieldElement; 5] = random_x_elements(5).try_into().unwrap();
    let expected = tables.all_quotient_degree_bounds(challenges, terminals);
    assert_eq!(expected, tables.all_quotient_degree_bounds(zero, [XFieldElement::ring_zero(); 5]));
    assert_eq!(expected, others.all_quotient_degree_bounds(challenges, terminals));
    assert_eq!(expected, empty.all_quotient_degree_bounds(challenges, terminals));
    assert_eq!(tables.get_all_base_degree_bounds(), empty.get_all_base_degree_bounds());
    assert_eq!(tables.get_all_extension_degree_bounds(), others.get_all_extension_degree_bounds());
    assert_eq!(
        vec![16, 16, 16, 16, 16, 16, 16, 32, 32, 32, 16, 16, 16, 0, 0],
        tables.get_all_base_degree_bounds()
    );
    assert_eq!(vec![16, 16, 16, 16, 32, 32, 16, 0, 0], tables.get_all_extension_degree_bounds());
}

#[test]
fn tables_by_index_test() {
    let (mut tables, _) = padded_tables(PRINT_17_CHARS, &[BFieldElement::new(33)]);
    assert_eq!(32, tables.get_table_interpolant_degree_by_index(0));
    assert_eq!(64, tables.get_table_interpolant_degree_by_index(1));
    assert_eq!(32, tables.get_table_interpolant_degree_by_index(2));
    assert_eq!(0, tables.get_table_interpolant_degree_by_index(3));
    assert_eq!(31, tables.get_table_interpolant_degree_by_index(4));
    let domain = domain_of(128);
    tables.get_and_set_all_base_codewords(&domain).unwrap();
    tables.extend([XFieldElement::ring_one(); 11], [XFieldElement::ring_one(); 2]);
    tables.get_and_set_all_extension_codewords(&domain).unwrap();
    let widths = [11, 5, 4, 2, 2];
    for (index, width) in widths.iter().enumerate() {
        let codewords = tables.get_table_codeword_by_index(index);
        assert_eq!(*width, codewords.len());
        assert!(codewords.iter().all(|codeword| codeword.len() == 128));
    }
    // the codewords of the base columns are kept lifted
    let kept = tables.get_table_codeword_by_index(3);
    assert_eq!(
        kept[0],
        tables.input_table.0.codewords[0].iter().map(|b| b.lift()).collect::<Vec<_>>()
    );
}

#[test]
fn padding_follows_the_rule_of_each_table_test() {
    let generator = BFieldElement::ring_zero().get_primitive_root_of_unity(1 << 32).unwrap();
    let row = |values: &[u64]| values.iter().map(|v| BFieldElement::new(*v)).collect::<Vec<_>>();

    // a table that has its height already stays as it is
    let mut full = ProcessorTable::new(4, 1, generator, 1 << 32);
    full.0.matrix = (0..4).map(|i| row(&[i, 1, 2, 3, 4, 5, 6])).collect();
    let before = full.0.matrix.clone();
    full.pad();
    assert_eq!(4, full.height());
    assert_eq!(before, full.0.matrix);

    // five rows are padded to eight; each new row is the last one cycle later
    let mut processor = ProcessorTable::new(5, 1, generator, 1 << 32);
    processor.0.matrix = (0..5).map(|i| row(&[i, 10 + i, 20, 30, 40, 50, 60])).collect();
    let before = processor.0.matrix.clone();
    processor.pad();
    assert_eq!(8, processor.height());
    assert_eq!(8, processor.0.matrix.len());
    assert_eq!(before[..], processor.0.matrix[..5]);
    assert_eq!(row(&[5, 14, 20, 30, 40, 50, 60]), processor.0.matrix[5]);
    assert_eq!(row(&[6, 14, 20, 30, 40, 50, 60]), processor.0.matrix[6]);
    assert_eq!(row(&[7, 14, 20, 30, 40, 50, 60]), processor.0.matrix[7]);

    // each new row of the instruction table holds the next address and no instruction
    let mut instruction = InstructionTable::new(5, 1, generator, 1 << 32);
    instruction.0.matrix = (0..5).map(|i| row(&[i, 43, 45])).collect();
    instruction.pad();
    assert_eq!(8, instruction.0.matrix.len());
    assert_eq!(row(&[4, 43, 45]), instruction.0.matrix[4]);
    assert_eq!(row(&[5, 0, 0]), instruction.0.matrix[5]);
    assert_eq!(row(&[7, 0, 0]), instruction.0.matrix[7]);

    // input and output are padded with zeros
    let mut output = IOTable::new_output_table(3, generator, 1 << 32);
    output.0.matrix = (1..4).map(|i| row(&[i])).collect();
    output.pad();
    assert_eq!(vec![row(&[1]), row(&[2]), row(&[3]), row(&[0])], output.0.matrix);

    // the memory table repeats its last row
    let mut memory = MemoryTable::new(3, 1, generator, 1 << 32);
    memory.0.matrix = (1..4).map(|i| row(&[i, 0, 9])).collect();
    memory.pad();
    assert_eq!(row(&[3, 0, 9]), memory.0.matrix[3]);

    // a table without rows stays without rows
    let mut empty = ProcessorTable::new(5, 1, generator, 1 << 32);
    empty.pad();
    assert!(empty.0.matrix.is_empty());

    // the rule by itself
    let mut table: Table<()> = Table::new(2, 2, 3, 0, generator, 1 << 32, ());
    table.matrix = vec![row(&[7, 8])];
    table.pad_matrix(PaddingRule::AdvanceAddress);
    assert_eq!(vec![row(&[7, 8]), row(&[8, 0]), row(&[9, 0]), row(&[10, 0])], table.matrix);
}

#[test]
fn the_memory_table_is_ordered_by_pointer_and_cycle_test() {
    let (tables, _) = padded_tables(EVERY_INSTRUCTION, &[BFieldElement::new(1)]);
    let memory = &tables.memory_table.0.matrix;
    let processor = &tables.processor_table.0.matrix;
    assert_eq!(processor.len(), memory.len());
    for pair in memory.windows(2) {
        let before = (pair[0][1].value(), pair[0][0].value());
        let after = (pair[1][1].value(), pair[1][0].value());
        assert!(before < after);
    }
    let mut expected: Vec<Vec<BFieldElement>> =
        processor.iter().map(|row| vec![row[0], row[4], row[5]]).collect();
    expected.sort_by_key(|row| (row[1].value(), row[0].value()));
    assert_eq!(&expected, memory);
    // the accesses to the second cell come last: cycles 2 and 3
    assert_eq!(BFieldElement::new(2), memory[14][0]);
    assert_eq!(BFieldElement::new(3), memory[15][0]);
    assert_eq!(BFieldElement::new(1), memory[15][1]);
    assert_eq!(BFieldElement::new(1), memory[15][2]);
}

#[test]
fn extension_fails_over_a_domain_that_does_not_fit_test() {
    let (mut tables, _) = padded_tables(VERY_SIMPLE_PROGRAM, &[]);
    // shorter than the processor table is high
    assert_eq!(
        Err(TableError::DomainTooShort),
        tables.get_and_set_all_base_codewords(&domain_of(4))
    );
    assert!(tables.processor_table.0.codewords.is_empty());
    // as long as the processor table is high: the point of its random value is a point of
    // its trace
    assert_eq!(
        Err(TableError::PointsCollide),
        tables.get_and_set_all_base_codewords(&domain_of(8))
    );
    // as long as the instruction table is high: the processor table, which comes first and
    // fits, has its codewords all the same
    assert_eq!(
        Err(TableError::PointsCollide),
        tables.get_and_set_all_base_codewords(&domain_of(16))
    );
    assert_eq!(7, tables.processor_table.0.codewords.len());
    assert!(tables.instruction_table.0.codewords.is_empty());

    // extension columns before base columns
    let (mut tables, _) = padded_tables(VERY_SIMPLE_PROGRAM, &[]);
    tables.extend([XFieldElement::ring_one(); 11], [XFieldElement::ring_one(); 2]);
    assert_eq!(
        Err(TableError::ShapeMismatch),
        tables.get_and_set_all_extension_codewords(&domain_of(64))
    );
    // quotients before codewords
    assert_eq!(
        Err(TableError::ShapeMismatch),
        tables.all_quotients(&domain_of(64), [XFieldElement::ring_one(); 11], [XFieldElement::ring_one(); 5])
    );

    // a generator of order one gives every row the same point
    let mut table: Table<()> = Table::new(1, 1, 2, 0, BFieldElement::ring_one(), 1, ());
    table.matrix = vec![vec![BFieldElement::new(1)], vec![BFieldElement::new(2)]];
    assert_eq!(Err(TableError::PointsCollide), table.lde(&domain_of(8)));
    assert!(table.codewords.is_empty());

    // a domain without offset meets the points of the trace
    let (mut tables, _) = padded_tables(VERY_SIMPLE_PROGRAM, &[]);
    let mut domain = domain_of(64);
    domain.offset = BFieldElement::ring_one();
    assert!(tables.get_and_set_all_base_codewords(&domain).is_ok());
    tables.extend([XFieldElement::ring_one(); 11], [XFieldElement::ring_one(); 2]);
    assert!(tables.get_and_set_all_extension_codewords(&domain).is_ok());
    assert_eq!(
        Err(TableError::ZerofierVanishes),
        tables.all_quotients(&domain, [XFieldElement::ring_one(); 11], [XFieldElement::ring_one(); 5])
    );
}

#[test]
fn a_codeword_holds_its_trace_test() {
    // over a domain that has the trace's own points, the codeword holds the trace
    let generator = BFieldElement::ring_zero().get_primitive_root_of_unity(1 << 32).unwrap();
    let mut table: Table<()> = Table::new(2, 2, 4, 0, generator, 1 << 32, ());
    table.matrix = (0..4)
        .map(|i| vec![BFieldElement::new(i * i), BFieldElement::new(100 + i)])
        .collect();
    let mut domain = domain_of(8);
    domain.offset = BFieldElement::ring_one();
    let codewords = table.lde(&domain).unwrap();
    assert_eq!(2, codewords.len());
    for (c, codeword) in codewords.iter().enumerate() {
        assert_eq!(8, codeword.len());
        for row in 0..4 {
            assert_eq!(table.matrix[row][c], codeword[2 * row]);
        }
    }
    assert_eq!(codewords, table.codewords);
    assert_eq!(3, table.interpolant_degree());
}

#[test]
fn rows_of_another_width_are_refused_test() {
    let generator = BFieldElement::ring_zero().get_primitive_root_of_unity(1 << 32).unwrap();
    let mut table: Table<()> = Table::new(2, 3, 3, 0, generator, 1 << 32, ());
    let rows = vec![
        vec![BFieldElement::new(1), BFieldElement::new(2)],
        vec![BFieldElement::new(3), BFieldElement::new(4)],
        vec![BFieldElement::new(5), BFieldElement::new(6)],
    ];
    assert_eq!(Ok(()), table.set_matrix(rows.clone()));
    assert_eq!(rows, table.matrix);
    assert_eq!(4, table.height);

    let mut wide = rows.clone();
    wide[1].push(BFieldElement::new(9));
    assert_eq!(Err(TableError::ShapeMismatch), table.set_matrix(wide));
    assert_eq!(rows, table.matrix);
    assert_eq!(Ok(()), table.set_matrix(vec![]));
    assert!(table.matrix.is_empty());
}

#[test]
fn the_collection_pads_every_table_test() {
    let program = compile(EVERY_INSTRUCTION).unwrap();
    let input = [BFieldElement::new(1)];
    let matrices = simulate(&program, &input).unwrap();
    let row = |values: &[u64]| values.iter().map(|v| BFieldElement::new(*v)).collect::<Vec<_>>();
    let mut tables = create_table_collection(&program, &input);
    tables.set_matrices(
        matrices.processor_matrix.clone(),
        matrices.instruction_matrix.clone(),
        matrices.input_matrix.clone(),
        matrices.output_matrix.clone(),
    );
    // a memory table that holds five rows of its sixteen
    let memory: Vec<Vec<BFieldElement>> = (0..5).map(|i| row(&[i, 0, 10 + i])).collect();
    tables.memory_table.0.matrix = memory.clone();
    assert_eq!(16, tables.memory_table.height());
    let processor = tables.processor_table.0.matrix.clone();
    tables.pad();

    assert_eq!(16, tables.memory_table.0.matrix.len());
    assert_eq!(memory[..], tables.memory_table.0.matrix[..5]);
    for filled in 5..16 {
        assert_eq!(row(&[4, 0, 14]), tables.memory_table.0.matrix[filled]);
    }
    // the rows that were there come first in every table
    assert_eq!(processor[..], tables.processor_table.0.matrix[..processor.len()]);
    for (rows, height) in [
        (tables.processor_table.0.matrix.len(), tables.processor_table.height()),
        (tables.instruction_table.0.matrix.len(), tables.instruction_table.height()),
        (tables.memory_table.0.matrix.len(), tables.memory_table.height()),
        (tables.input_table.0.matrix.len(), tables.input_table.height()),
        (tables.output_table.0.matrix.len(), tables.output_table.height()),
    ] {
        assert_eq!(rows, height);
        assert!(height.is_power_of_two());
    }

    // a memory table without rows stays without rows
    let mut tables = create_table_collection(&program, &input);
    tables.set_matrices(
        matrices.processor_matrix.clone(),
        matrices.instruction_matrix.clone(),
        matrices.input_matrix.clone(),
        matrices.output_matrix.clone(),
    );
    tables.pad();
    assert!(tables.memory_table.0.matrix.is_empty());
    assert_eq!(16, tables.processor_table.0.matrix.len());
}

#[test]
fn every_base_codeword_holds_its_column_test() {
    let (mut tables, _) = padded_tables(VERY_SIMPLE_PROGRAM, &[]);
    let domain = domain_of(64);
    let codewords = tables.get_and_set_all_base_codewords(&domain).unwrap();
    assert_eq!(15, codewords.len());
    // the rows, the generator and the degree of each table, with the place
    // of its first codeword
    let parts = [
        (
            tables.processor_table.0.matrix.clone(),
            tables.processor_table.omicron(),
            tables.processor_table.interpolant_degree(),
            0,
        ),
        (
            tables.instruction_table.0.matrix.clone(),
            tables.instruction_table.omicron(),
            tables.instruction_table.interpolant_degree(),
            7,
        ),
        (
            tables.memory_table.0.matrix.clone(),
            tables.memory_table.omicron(),
            tables.memory_table.interpolant_degree(),
            10,
        ),
    ];
    for (matrix, omicron, degree, offset) in parts {
        assert!(!matrix.is_empty());
        assert!((degree as usize) < domain.length);
        for column in 0..matrix[0].len() {
            let interpolant = domain.b_interpolate(&codewords[offset + column]).unwrap();
            assert!(interpolant.degree() <= degree);
            for row in 0..matrix.len() {
                assert_eq!(
                    matrix[row][column],
                    interpolant.evaluate(omicron.mod_pow_u64(row as u64)),
                    "column {} of the table at {}, row {}",
                    column,
                    offset,
                    row
                );
            }
        }
    }
    // input and output, which have no rows here, have zero codewords
    assert!(codewords[13].iter().all(|value| value.is_zero()));
    assert!(codewords[14].iter().all(|value| value.is_zero()));
}
