use twenty_first::shared_math::b_field_element::BFieldElement;
use twenty_first::shared_math::fri_domain::FriDomain;
use twenty_first::shared_math::polynomial::Polynomial;
use twenty_first::shared_math::x_field_element::XFieldElement;
use twenty_first::shared_math::xfri::fold_codeword;
use twenty_first::shared_math::xfri::fold_pair;
use twenty_first::shared_math::xfri::is_low_degree;
use twenty_first::shared_math::xfri::CommitState;
use twenty_first::shared_math::xfri::Fri;
use twenty_first::shared_math::xfri::FriError;
use twenty_first::shared_math::xfri::HALF;
use twenty_first::shared_math::xfri::LAST_CODEWORD_LENGTH;
use twenty_first::util_types::merkle_tree::MerkleTree;
use twenty_first::util_types::proof_stream::ProofStream;
use twenty_first::utils::sample_index;

fn fri_over(length: usize) -> Fri {
    Fri {
        domain: FriDomain {
            length,
            offset: BFieldElement::new(7),
            omega: BFieldElement::ring_zero()
                .get_primitive_root_of_unity(length as u64)
                .unwrap(),
        },
        expansion_factor: 4,
        colinearity_checks_count: 3,
    }
}

/// The codeword over the domain of the polynomial with the coefficients
/// 1, 2, 3, ... up to the given degree.
fn codeword_of_degree(fri: &Fri, degree: u64) -> Vec<XFieldElement> {
    let polynomial = Polynomial {
        coefficients: (0..=degree).map(|i| BFieldElement::new(i + 1)).collect(),
    };
    fri.domain.b_evaluate(&polynomial).iter().map(|v| v.lift()).collect()
}

#[test]
fn the_number_of_rounds_test() {
    for (length, rounds) in [(0, 0), (1, 0), (32, 0), (33, 0), (64, 1), (96, 2), (128, 2), (512, 4)] {
        let fri = Fri {
            domain: FriDomain {
                length,
                offset: BFieldElement::new(7),
                omega: BFieldElement::ring_one(),
            },
            expansion_factor: 4,
            colinearity_checks_count: 1,
        };
        assert_eq!(rounds, fri.num_rounds(), "length {}", length);
    }
    assert_eq!(32, LAST_CODEWORD_LENGTH);
}

#[test]
fn half_is_the_inverse_of_two_test() {
    assert_eq!(BFieldElement::ring_one(), BFieldElement::new(2).mul(BFieldElement::new(HALF)));
}

#[test]
fn the_fold_of_a_line_is_a_constant_test() {
    // 3 + 5x folds with the challenge 7 into 3 + 7 * 5
    let fri = fri_over(8);
    let line = Polynomial { coefficients: vec![BFieldElement::new(3), BFieldElement::new(5)] };
    let codeword: Vec<XFieldElement> =
        fri.domain.b_evaluate(&line).iter().map(|v| v.lift()).collect();
    let alpha = BFieldElement::new(7).lift();
    let folded = fold_codeword(&codeword, alpha, fri.domain.offset, fri.domain.omega).unwrap();
    assert_eq!(vec![BFieldElement::new(38).lift(); 4], folded);

    // an element of the extension field as challenge stays in the result
    let alpha = XFieldElement::new([
        BFieldElement::new(1),
        BFieldElement::new(2),
        BFieldElement::new(3),
    ]);
    let folded = fold_codeword(&codeword, alpha, fri.domain.offset, fri.domain.omega).unwrap();
    let expected = XFieldElement::new([
        BFieldElement::new(8),
        BFieldElement::new(10),
        BFieldElement::new(15),
    ]);
    assert_eq!(vec![expected; 4], folded);

    // one pair by itself: the values 10 at 1 and 4 at -1 are those of 7 + 3x
    let one_pair = fold_pair(
        BFieldElement::new(10).lift(),
        BFieldElement::new(4).lift(),
        BFieldElement::new(2).lift(),
        BFieldElement::new(HALF),
        BFieldElement::ring_one(),
    );
    assert_eq!(BFieldElement::new(13).lift(), one_pair);

    // a codeword of odd length, or over a point that is zero, is not folded
    assert_eq!(None, fold_codeword(&codeword[..7].to_vec(), alpha, fri.domain.offset, fri.domain.omega));
    assert_eq!(None, fold_codeword(&codeword, alpha, BFieldElement::ring_zero(), fri.domain.omega));
    // the empty codeword folds into itself
    assert_eq!(Some(vec![]), fold_codeword(&vec![], alpha, fri.domain.offset, fri.domain.omega));
}

#[test]
fn the_degree_of_a_codeword_is_measured_test() {
    let fri = fri_over(32);
    let points = fri.domain.b_domain_values();
    let codeword = codeword_of_degree(&fri, 7);
    assert!(is_low_degree(&codeword, &points, 8));
    assert!(!is_low_degree(&codeword, &points, 7));
    // a point that comes twice allows for no interpolation
    let mut twice = points.clone();
    twice[5] = twice[4];
    assert!(!is_low_degree(&codeword, &twice, 32));
    // the zero codeword has a degree below zero
    let zero = vec![XFieldElement::ring_zero(); 32];
    assert!(is_low_degree(&zero, &points, 0));
}

#[test]
fn a_codeword_of_low_degree_passes_test() {
    for (length, degree) in [(32, 7), (64, 15), (128, 31), (256, 63)] {
        let fri = fri_over(length);
        let codeword = codeword_of_degree(&fri, degree);
        let mut stream = ProofStream::new_with_prefix(&vec![1, 2, 3]);
        stream.set_index(3);
        let places = fri.prove(&codeword, &mut stream).unwrap();
        let expected = if length == 32 { 3 } else { 6 };
        assert_eq!(expected, places.len());

        let mut read = ProofStream::from_bytes(stream.serialize());
        read.set_index(3);
        let points = fri.verify(&mut read).unwrap();
        assert_eq!(places.len(), points.len());
        for (place, (at, value)) in places.iter().zip(points.iter()) {
            assert_eq!(place, at);
            assert_eq!(codeword[*place], *value);
        }
        // all of the proof was read
        assert_eq!(stream.len(), read.read_index);
    }
}

/// A proof written as the prover writes it, whatever the codewords are:
/// where `change` is given, the prover goes on after the first round with
/// the codeword that `change` makes of the folded one.
fn written_proof(
    fri: &Fri,
    codeword: &[XFieldElement],
    change: Option<XFieldElement>,
) -> ProofStream {
    let mut stream = ProofStream::new();
    let mut trees: Vec<MerkleTree> = Vec::new();
    let mut codewords: Vec<Vec<XFieldElement>> = Vec::new();
    let mut state = CommitState {
        current: codeword.to_vec(),
        offset: fri.domain.offset,
        omega: fri.domain.omega,
    };
    let rounds = fri.num_rounds();
    for round in 0..rounds {
        state = Fri::commit_once(&mut stream, state, &mut trees, &mut codewords).unwrap();
        if round == 0 {
            if let Some(shift) = change {
                for value in state.current.iter_mut() {
                    *value = value.add(shift);
                }
            }
        }
    }
    stream.push_x_elements(&state.current);
    let seed = stream.prover_fiat_shamir();
    let mut top: Vec<usize> = Vec::new();
    for check in 0..fri.colinearity_checks_count {
        let mut place = sample_index(&seed, check as u64, fri.domain.length);
        for round in 0..rounds {
            place = fri.answer_once(&mut stream, &trees, &codewords, round, place, &mut top);
        }
    }
    stream
}

#[test]
fn a_codeword_of_high_degree_fails_test() {
    for (length, degree) in [(32, 8), (64, 16), (128, 32), (128, 127)] {
        let fri = fri_over(length);
        let codeword = codeword_of_degree(&fri, degree);
        // the prover itself gives up
        let mut stream = ProofStream::new();
        assert_eq!(Err(FriError::BadLastCodeword), fri.prove(&codeword, &mut stream));
        // and a proof written all the same is refused
        let written = written_proof(&fri, &codeword, None);
        let mut read = ProofStream::from_bytes(written.serialize());
        assert_eq!(Err(FriError::BadLastCodeword), fri.verify(&mut read));
    }

    // what the prover writes is what is written above
    let fri = fri_over(128);
    let codeword = codeword_of_degree(&fri, 31);
    let mut stream = ProofStream::new();
    fri.prove(&codeword, &mut stream).unwrap();
    assert_eq!(stream.serialize(), written_proof(&fri, &codeword, None).serialize());

    // no expansion factor, no degree that is low enough
    let mut fri = fri_over(64);
    let codeword = codeword_of_degree(&fri, 3);
    let written = written_proof(&fri, &codeword, None);
    fri.expansion_factor = 0;
    let mut stream = ProofStream::new();
    assert_eq!(Err(FriError::BadLastCodeword), fri.prove(&codeword, &mut stream));
    let mut read = ProofStream::from_bytes(written.serialize());
    assert_eq!(Err(FriError::BadLastCodeword), fri.verify(&mut read));
}

#[test]
fn parameters_that_do_not_fit_are_refused_test() {
    let fri = fri_over(64);
    let codeword = codeword_of_degree(&fri, 3);
    let mut stream = ProofStream::new();
    assert_eq!(Err(FriError::BadParameters), fri.prove(&codeword[..32].to_vec(), &mut stream));
    assert!(stream.is_empty());

    let mut none = fri_over(64);
    none.domain.length = 0;
    assert_eq!(Err(FriError::BadParameters), none.prove(&vec![], &mut stream));
    assert_eq!(Err(FriError::BadParameters), none.verify(&mut stream));

    // a domain that cannot be folded: its offset has no inverse
    let mut flat = fri_over(64);
    flat.domain.offset = BFieldElement::ring_zero();
    assert_eq!(Err(FriError::BadParameters), flat.prove(&codeword, &mut stream));

    // a codeword whose length is no power of two has no tree
    let mut odd = fri_over(64);
    odd.domain.length = 96;
    let long: Vec<XFieldElement> = codeword.iter().chain(codeword[..32].iter()).cloned().collect();
    assert_eq!(Err(FriError::BadParameters), odd.prove(&long, &mut stream));
}

#[test]
fn a_proof_cut_short_is_malformed_test() {
    let fri = fri_over(128);
    let codeword = codeword_of_degree(&fri, 31);
    let mut stream = ProofStream::new();
    fri.prove(&codeword, &mut stream).unwrap();
    let bytes = stream.serialize();
    for keep in [0, 1, 40, 41, 82, 83, bytes.len() / 2, bytes.len() - 1] {
        let mut read = ProofStream::from_bytes(bytes[..keep].to_vec());
        assert_eq!(Err(FriError::MalformedTranscript), fri.verify(&mut read), "{} bytes", keep);
    }
    // an item of another kind where a root is due
    let mut other = ProofStream::new();
    other.push_elements(&vec![BFieldElement::new(5)]);
    assert_eq!(Err(FriError::MalformedTranscript), fri.verify(&mut other));
}

#[test]
fn a_value_that_is_not_under_its_root_is_refused_test() {
    let fri = fri_over(128);
    let codeword = codeword_of_degree(&fri, 31);
    let mut stream = ProofStream::new();
    fri.prove(&codeword, &mut stream).unwrap();
    let bytes = stream.serialize();

    // the last bytes of the proof are those of a path
    let mut tampered = bytes.clone();
    let last = tampered.len() - 1;
    tampered[last] ^= 1;
    let mut read = ProofStream::from_bytes(tampered);
    assert_eq!(Err(FriError::BadCommitment), fri.verify(&mut read));

    // honest again
    let mut read = ProofStream::from_bytes(bytes);
    assert!(fri.verify(&mut read).is_ok());
}

#[test]
fn a_codeword_that_is_not_the_fold_of_the_one_before_is_refused_test() {
    let fri = fri_over(128);
    let codeword = codeword_of_degree(&fri, 31);
    // the prover goes on with another codeword of the same degree
    let written = written_proof(&fri, &codeword, Some(XFieldElement::ring_one()));
    let mut read = ProofStream::from_bytes(written.serialize());
    assert_eq!(Err(FriError::BadColinearity), fri.verify(&mut read));

    // the steps of the prover by themselves
    let mut stream = ProofStream::new();
    let mut trees: Vec<MerkleTree> = Vec::new();
    let mut codewords: Vec<Vec<XFieldElement>> = Vec::new();
    let state = CommitState {
        current: codeword.clone(),
        offset: fri.domain.offset,
        omega: fri.domain.omega,
    };
    let state = Fri::commit_once(&mut stream, state, &mut trees, &mut codewords).unwrap();
    assert_eq!(64, state.current.len());
    assert_eq!(fri.domain.offset.mul(fri.domain.offset), state.offset);
    assert_eq!(fri.domain.omega.mul(fri.domain.omega), state.omega);
    assert_eq!(vec![codeword.clone()], codewords);
    assert_eq!(41, stream.len());
    let mut top: Vec<usize> = Vec::new();
    let place = fri.answer_once(&mut stream, &trees, &codewords, 0, 100, &mut top);
    assert_eq!(36, place);
    assert_eq!(vec![36, 100], top);
}
