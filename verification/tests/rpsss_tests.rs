use twenty_first::shared_math::b_field_element::BFieldElement;
use twenty_first::shared_math::rescue_prime_regular::RescuePrimeRegular;
use twenty_first::shared_math::rescue_prime_stark::RescuePrime;
use twenty_first::shared_math::rescue_prime_stark::TRACE_HEIGHT;
use twenty_first::shared_math::rpsss::PublicKey;
use twenty_first::shared_math::rpsss::SecretKey;
use twenty_first::shared_math::stark::StarkError;
use twenty_first::util_types::proof_stream::ProofStream;
use twenty_first::shared_math::rpsss::Signature;
use twenty_first::shared_math::rpsss::RPSSS;
use twenty_first::shared_math::stark::Stark;

fn get_test_stark() -> (Stark, RescuePrime) {
    let expansion_factor = 4;
    let colinearity_checks_count = 2;
    let num_randomizers = 1;
    let stark = Stark::new(512, expansion_factor, colinearity_checks_count, num_randomizers)
        .unwrap();
    (stark, RescuePrime::new())
}

#[test]
fn sign_verify_test() {
    let (stark, rp) = get_test_stark();
    let rpsss = RPSSS { stark, rp };
    let document_string: String = "Hello Neptune!".to_string();
    let document: Vec<u8> = document_string.clone().into_bytes();

    let (sk, pk) = rpsss.keygen();
    println!(
        "secret key = {}, public key = {}",
        sk.value.value(),
        pk.value.value()
    );
    let mut signature: Signature = rpsss.sign(&sk, &document).unwrap();
    assert!(rpsss.verify(&pk, &signature, &document));

    if let Some(last) = signature.proof.last_mut() {
        *last = *last ^ 0x01;
    }

    assert!(!rpsss.verify(&pk, &signature, &document));

    // Set the last byte of the proof stream back and change the
    // first byte and verify that it still fails
    if let Some(last) = signature.proof.last_mut() {
        *last = *last ^ 0x01;
    }
    if let Some(first) = signature.proof.first_mut() {
        *first = *first ^ 0x01;
    }

    assert!(!rpsss.verify(&pk, &signature, &document));

    // A valid proof is rejected if the `document` argument is wrong
    if let Some(first) = signature.proof.first_mut() {
        *first = *first ^ 0x01;
    }
    let bad_document_string: String = "Hello Saturn!".to_string();
    let bad_document: Vec<u8> = bad_document_string.clone().into_bytes();
    assert!(!rpsss.verify(&pk, &signature, &bad_document));
    assert!(rpsss.verify(&pk, &signature, &document));
}

#[test]
fn the_public_key_is_the_image_of_the_secret_key_test() {
    let (stark, rp) = get_test_stark();
    let rpsss = RPSSS { stark, rp };
    let (sk, pk) = rpsss.keygen();
    let mut sponge = RescuePrimeRegular::new();
    sponge.state[0] = sk.value;
    sponge.xlix();
    assert_eq!(sponge.state[0], pk.value);
    assert_eq!(pk.value, rp.hash(&sk.value));

    let (sk, pk) = rpsss.keygen_from_bytes(&vec![5, 1]);
    assert_eq!(BFieldElement::new(261), sk.value);
    assert_eq!(rp.hash(&BFieldElement::new(261)), pk.value);
    let (other_sk, other_pk) = rpsss.keygen();
    assert_ne!(sk.value, other_sk.value);
    assert_ne!(pk.value, other_pk.value);
}

#[test]
fn the_trace_ends_in_the_public_key_test() {
    let rp = RescuePrime::new();
    let input = BFieldElement::new(42);
    let (output, trace) = rp.eval_and_trace(&input);
    assert_eq!(rp.hash(&input), output);
    assert_eq!(TRACE_HEIGHT, trace.len());
    assert_eq!(input, trace[0][0]);
    assert!(trace[0][1..].iter().all(|element| element.is_zero()));
    assert_eq!(output, trace[8][0]);
    // consecutive rows meet the constraints, with the constants of their round
    let air = rp.get_air_constraints(&BFieldElement::ring_one());
    for i in 0..TRACE_HEIGHT - 1 {
        let values = RescuePrime::transition_values(&trace[i], &trace[i + 1], &air.round_constants[i]);
        assert!(values.iter().all(|value| value.is_zero()), "row {}", i);
    }
    // and do not with the constants of another
    let values = RescuePrime::transition_values(&trace[0], &trace[1], &air.round_constants[1]);
    assert!(values.iter().any(|value| !value.is_zero()));
    let boundary = rp.get_boundary_constraints(&output);
    assert_eq!(16, boundary.len());
    for constraint in boundary {
        assert_eq!(trace[constraint.cycle][constraint.register], constraint.value);
    }
}

#[test]
fn a_signature_starts_with_the_hash_of_the_document_test() {
    let (stark, rp) = get_test_stark();
    let rpsss = RPSSS { stark, rp };
    let (sk, _) = rpsss.keygen_from_bytes(&vec![1, 2, 3]);
    let document = b"a document".to_vec();
    let signature = rpsss.sign(&sk, &document).unwrap();
    assert_eq!(
        twenty_first::utils::blake3_digest(&document).to_vec(),
        signature.proof[..32].to_vec()
    );
    assert!(signature.proof.len() > 32);
}

#[test]
fn tampered_signatures_are_rejected_test() {
    let (stark, rp) = get_test_stark();
    let rpsss = RPSSS { stark, rp };
    let (sk, pk) = rpsss.keygen();
    let document = b"a document".to_vec();
    let signature = rpsss.sign(&sk, &document).unwrap();
    assert!(rpsss.verify(&pk, &signature, &document));

    let length = signature.proof.len();
    let places = [0, 1, 31, 32, 33, 40, 41, 49, 100, length / 3, length / 2, length - 40, length - 2];
    for place in places {
        for bit in [0, 3, 7] {
            let mut tampered = signature.clone();
            tampered.proof[place] ^= 1 << bit;
            assert!(
                !rpsss.verify(&pk, &tampered, &document),
                "bit {} of byte {} of {}",
                bit,
                place,
                length
            );
            // the same bit flipped again gives the signature back
            tampered.proof[place] ^= 1 << bit;
            assert!(rpsss.verify(&pk, &tampered, &document));
            // two different bits do not cancel
            tampered.proof[place] ^= 1 << bit;
            tampered.proof[(place + 7) % length] ^= 1;
            assert!(!rpsss.verify(&pk, &tampered, &document));
        }
    }

    // cut short, or with a byte too many
    let mut short = signature.clone();
    short.proof.pop();
    assert!(!rpsss.verify(&pk, &short, &document));
    let mut long = signature.clone();
    long.proof.push(0);
    assert!(!rpsss.verify(&pk, &long, &document));
    assert!(!rpsss.verify(&pk, &Signature { proof: vec![] }, &document));
    assert!(!rpsss.verify(&pk, &Signature { proof: signature.proof[..31].to_vec() }, &document));
    assert!(!rpsss.verify(&pk, &Signature { proof: signature.proof[..32].to_vec() }, &document));
}

#[test]
fn a_signature_holds_under_one_key_only_test() {
    let (stark, rp) = get_test_stark();
    let rpsss = RPSSS { stark, rp };
    let (sk, pk) = rpsss.keygen();
    let (_, other_pk) = rpsss.keygen();
    let document = vec![];
    let signature = rpsss.sign(&sk, &document).unwrap();
    assert!(rpsss.verify(&pk, &signature, &document));
    assert!(!rpsss.verify(&other_pk, &signature, &document));
    assert!(!rpsss.verify(
        &PublicKey { value: pk.value.add(BFieldElement::ring_one()) },
        &signature,
        &document
    ));
    // a second signature differs, as its random values do, and holds too
    let second = rpsss.sign(&SecretKey { value: sk.value }, &document).unwrap();
    assert_ne!(signature.proof, second.proof);
    assert!(rpsss.verify(&pk, &second, &document));
}

#[test]
fn a_trace_that_breaks_a_constraint_is_not_proved_test() {
    let (stark, rp) = get_test_stark();
    let input = BFieldElement::new(1234);
    let (output, trace) = rp.eval_and_trace(&input);
    let air = rp.get_air_constraints(&stark.omicron);
    let boundary = rp.get_boundary_constraints(&output);

    let mut stream = ProofStream::new();
    assert_eq!(Ok(()), stark.prove(trace.clone(), &air, &boundary, &mut stream));
    let mut read = ProofStream::from_bytes(stream.serialize());
    assert_eq!(Ok(()), stark.verify(&mut read, &air, &boundary));

    // a row that is not what the round makes of the row before
    let mut broken = trace.clone();
    broken[3][5] = broken[3][5].add(BFieldElement::ring_one());
    let mut stream = ProofStream::new();
    assert_eq!(
        Err(StarkError::ConstraintViolated),
        stark.prove(broken, &air, &boundary, &mut stream)
    );

    // an output that the trace does not end in
    let wrong = rp.get_boundary_constraints(&output.add(BFieldElement::ring_one()));
    let mut stream = ProofStream::new();
    assert_eq!(
        Err(StarkError::ConstraintViolated),
        stark.prove(trace.clone(), &air, &wrong, &mut stream)
    );

    // a capacity that does not start at zero
    let mut seeded = RescuePrimeRegular::new();
    seeded.state[0] = input;
    seeded.state[15] = BFieldElement::ring_one();
    let mut rows = vec![seeded.state.to_vec()];
    for i in 0..TRACE_HEIGHT - 1 {
        RescuePrime::apply_round(&mut seeded, &air.round_constants[i]);
        rows.push(seeded.state.to_vec());
    }
    let boundary = rp.get_boundary_constraints(&rows[8][0]);
    let mut stream = ProofStream::new();
    assert_eq!(
        Err(StarkError::ConstraintViolated),
        stark.prove(rows, &air, &boundary, &mut stream)
    );

    // a trace of another shape
    let mut stream = ProofStream::new();
    assert_eq!(
        Err(StarkError::ShapeMismatch),
        stark.prove(trace[..8].to_vec(), &air, &boundary, &mut stream)
    );
    assert!(stream.is_empty());

    // a proof for one output does not hold for another
    let boundary = rp.get_boundary_constraints(&output);
    let mut stream = ProofStream::new();
    stark.prove(trace, &air, &boundary, &mut stream).unwrap();
    let mut read = ProofStream::from_bytes(stream.serialize());
    assert_eq!(Err(StarkError::ConstraintViolated), stark.verify(&mut read, &air, &wrong));
    let mut empty = ProofStream::new();
    assert_eq!(Err(StarkError::MalformedTranscript), stark.verify(&mut empty, &air, &boundary));
}

#[test]
fn every_signature_that_is_made_is_accepted_test() {
    let (stark, rp) = get_test_stark();
    let rpsss = RPSSS { stark, rp };
    let documents: [&[u8]; 3] = [b"", b"x", b"a document that is longer than a digest is long"];
    for (k, secret) in [vec![0u8], vec![1, 2, 3], vec![255; 17]].iter().enumerate() {
        let (sk, pk) = rpsss.keygen_from_bytes(secret);
        // the public key is kept in its canonical form
        assert_eq!(pk.value.0, pk.value.value());
        assert_eq!(pk.value.0, rp.hash(&sk.value).0);
        let randomizers = vec![vec![BFieldElement::new(k as u64 + 1)]; 16];
        let signature = rpsss
            .sign_with_randomizers(&sk, documents[k], &randomizers)
            .unwrap();
        assert!(rpsss.verify(&pk, &signature, documents[k]));
        // the same random values give the same signature
        let again = rpsss
            .sign_with_randomizers(&sk, documents[k], &randomizers)
            .unwrap();
        assert_eq!(signature.proof, again.proof);
        // checked again, it is accepted again, and for no other document
        assert!(!rpsss.verify(&pk, &signature, documents[(k + 1) % 3]));
        assert!(rpsss.verify(&pk, &signature, documents[k]));
    }
}
