use twenty_first::shared_math::b_field_element::BFieldElement;
use twenty_first::shared_math::rescue_prime_stark::RescuePrime;
use twenty_first::shared_math::stark::Stark;
use twenty_first::shared_math::stark::StarkError;
use twenty_first::shared_math::stark::ENGINE_ORDER;
use twenty_first::util_types::proof_stream::ProofStream;

#[test]
fn an_engine_needs_a_domain_that_fits_test() {
    let stark = Stark::new(512, 4, 2, 1).unwrap();
    assert_eq!(512, stark.fri.domain.length);
    assert_eq!(BFieldElement::new(7), stark.fri.domain.offset);
    assert_eq!(
        BFieldElement::ring_zero().get_primitive_root_of_unity(512).unwrap(),
        stark.fri.domain.omega
    );
    assert_eq!(4, stark.fri.expansion_factor);
    assert_eq!(2, stark.fri.colinearity_checks_count);
    assert_eq!(1, stark.num_randomizers);
    assert_eq!(1 << 30, ENGINE_ORDER);
    assert_eq!(ENGINE_ORDER, stark.order);
    assert_eq!(
        BFieldElement::ring_zero().get_primitive_root_of_unity(1 << 30).unwrap(),
        stark.generator
    );
    // the generator of the sixteen points of a trace
    assert_eq!(
        BFieldElement::ring_zero().get_primitive_root_of_unity(16).unwrap(),
        stark.omicron
    );
    assert_eq!(BFieldElement::ring_one(), stark.omicron.mod_pow_u64(16));
    assert_ne!(BFieldElement::ring_one(), stark.omicron.mod_pow_u64(8));

    assert!(Stark::new(16, 4, 2, 1).is_some());
    assert!(Stark::new(8, 4, 2, 1).is_none());
    assert!(Stark::new(0, 4, 2, 1).is_none());
    assert!(Stark::new(500, 4, 2, 1).is_none());
    assert!(Stark::new(1 << 31, 4, 2, 1).is_none());
}

#[test]
fn the_place_of_the_next_row_test() {
    let stark = Stark::new(64, 4, 2, 1).unwrap();
    assert_eq!(4, stark.next_place(0));
    assert_eq!(63, stark.next_place(59));
    assert_eq!(0, stark.next_place(60));
    assert_eq!(3, stark.next_place(63));
}

#[test]
fn a_proof_is_refused_for_the_reason_it_fails_test() {
    let stark = Stark::new(512, 4, 2, 1).unwrap();
    let rp = RescuePrime::new();
    let (output, trace) = rp.eval_and_trace(&BFieldElement::new(99));
    let air = rp.get_air_constraints(&stark.omicron);
    let boundary = rp.get_boundary_constraints(&output);
    let mut stream = ProofStream::new();
    assert_eq!(Ok(()), stark.prove(trace.clone(), &air, &boundary, &mut stream));
    let bytes = stream.serialize();
    let mut read = ProofStream::from_bytes(bytes.clone());
    assert_eq!(Ok(()), stark.verify(&mut read, &air, &boundary));
    assert_eq!(bytes.len(), read.read_index);

    // the last bytes are those of the path of a row
    let mut tampered = bytes.clone();
    let last = tampered.len() - 1;
    tampered[last] ^= 0x80;
    let mut read = ProofStream::from_bytes(tampered);
    assert_eq!(Err(StarkError::BadCommitment), stark.verify(&mut read, &air, &boundary));

    // a verifier that asks for a lower degree than the prover worked for
    let mut strict = stark;
    strict.fri.expansion_factor = 16;
    let mut read = ProofStream::from_bytes(bytes.clone());
    assert_eq!(Err(StarkError::LowDegreeTestFailed), strict.verify(&mut read, &air, &boundary));

    // a proof cut short
    let mut read = ProofStream::from_bytes(bytes[..bytes.len() - 1].to_vec());
    assert_eq!(Err(StarkError::MalformedTranscript), stark.verify(&mut read, &air, &boundary));
    let mut read = ProofStream::from_bytes(bytes[..20].to_vec());
    assert_eq!(Err(StarkError::MalformedTranscript), stark.verify(&mut read, &air, &boundary));

    // constraints of another shape
    let mut read = ProofStream::from_bytes(bytes.clone());
    let mut short = rp.get_air_constraints(&stark.omicron);
    short.round_constants.pop();
    assert_eq!(Err(StarkError::ShapeMismatch), stark.verify(&mut read, &short, &boundary));
    assert_eq!(0, read.read_index);
}

#[test]
fn a_domain_that_meets_the_trace_gives_no_proof_test() {
    let rp = RescuePrime::new();
    let (output, trace) = rp.eval_and_trace(&BFieldElement::new(5));
    let boundary = rp.get_boundary_constraints(&output);

    // without its offset the domain holds the points of the trace
    let mut stark = Stark::new(64, 4, 2, 1).unwrap();
    stark.fri.domain.offset = BFieldElement::ring_one();
    let air = rp.get_air_constraints(&stark.omicron);
    let mut stream = ProofStream::new();
    assert_eq!(
        Err(StarkError::ZerofierVanishes),
        stark.prove(trace.clone(), &air, &boundary, &mut stream)
    );

    // over as many points as the trace has rows, the point of the random
    // value is a point of the trace
    let stark = Stark::new(16, 4, 2, 1).unwrap();
    let mut stream = ProofStream::new();
    assert_eq!(
        Err(StarkError::ExtensionFailed),
        stark.prove(trace.clone(), &air, &boundary, &mut stream)
    );
    assert!(stream.is_empty());

    // more random values than the engine takes
    let mut stark = Stark::new(64, 4, 2, 1).unwrap();
    stark.num_randomizers = 3;
    let randomizers = vec![vec![BFieldElement::new(1)]; 16];
    let mut stream = ProofStream::new();
    assert_eq!(
        Err(StarkError::ShapeMismatch),
        stark.prove_with_randomizers(trace.clone(), &air, &boundary, &randomizers, &mut stream)
    );

    // a domain too short for the degree of the constraints
    let stark = Stark::new(64, 4, 2, 1).unwrap();
    let mut stream = ProofStream::new();
    assert_eq!(
        Err(StarkError::ConstraintViolated),
        stark.prove_with_randomizers(trace.clone(), &air, &boundary, &randomizers, &mut stream)
    );

    // the same random values give the same proof
    let stark = Stark::new(512, 4, 2, 1).unwrap();
    let mut first = ProofStream::new();
    let mut second = ProofStream::new();
    stark.prove_with_randomizers(trace.clone(), &air, &boundary, &randomizers, &mut first).unwrap();
    stark.prove_with_randomizers(trace.clone(), &air, &boundary, &randomizers, &mut second).unwrap();
    assert_eq!(first.serialize(), second.serialize());
    let mut read = ProofStream::from_bytes(first.serialize());
    assert_eq!(Ok(()), stark.verify(&mut read, &air, &boundary));
}
