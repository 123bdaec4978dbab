use twenty_first::shared_math::b_field_element::BFieldElement;
use twenty_first::shared_math::b_field_element::P;
use twenty_first::shared_math::other::random_elements;
use twenty_first::shared_math::other::random_x_elements;
use twenty_first::util_types::merkle_tree::Digest;
use twenty_first::util_types::merkle_tree::MerkleTree;
use twenty_first::util_types::proof_stream::ProofStream;
use twenty_first::util_types::proof_stream::ProofStreamError;
use twenty_first::util_types::proof_stream::TAG_ELEMENTS;
use twenty_first::utils::blake3_digest;
use twenty_first::utils::sample_index;

fn digest_of(value: u8) -> Digest {
    blake3_digest(&[value])
}

#[test]
fn blake3_of_the_empty_input_test() {
    let expected: [u8; 32] = [
        0xaf, 0x13, 0x49, 0xb9, 0xf5, 0xf9, 0xa1, 0xa6, 0xa0, 0x40, 0x4d, 0xea, 0x36, 0xdc, 0xc9,
        0x49, 0x9b, 0xcb, 0x25, 0xc9, 0xad, 0xc1, 0x12, 0xb7, 0xcc, 0x9a, 0x93, 0xca, 0xe4, 0x1f,
        0x32, 0x62,
    ];
    assert_eq!(expected, blake3_digest(&[]));
    assert_ne!(blake3_digest(&[0]), blake3_digest(&[]));
}

#[test]
fn items_come_back_as_they_were_written_test() {
    let elements = random_elements(5);
    let x_elements = random_x_elements(3);
    let digest = digest_of(1);
    let path = vec![digest_of(2), digest_of(3), digest_of(4)];
    let mut stream = ProofStream::new();
    stream.push_elements(&elements);
    stream.push_digest(&digest);
    stream.push_x_elements(&x_elements);
    stream.push_path(&path);
    stream.push_elements(&vec![]);
    let bytes = stream.serialize();
    // a tag and a count of eight bytes per item, and eight bytes per word
    assert_eq!(5 * 9 + 8 * (5 + 4 + 9 + 12), bytes.len());

    let mut read = ProofStream::from_bytes(bytes.clone());
    assert_eq!(elements, read.pull_elements().unwrap());
    assert_eq!(digest, read.pull_digest().unwrap());
    assert_eq!(x_elements, read.pull_x_elements().unwrap());
    assert_eq!(path, read.pull_path().unwrap());
    assert_eq!(Vec::<BFieldElement>::new(), read.pull_elements().unwrap());
    assert_eq!(bytes.len(), read.read_index);
    assert_eq!(Err(ProofStreamError::Exhausted), read.pull_elements());
    assert_eq!(bytes, read.serialize());
}

#[test]
fn the_layout_of_an_item_test() {
    let mut stream = ProofStream::new();
    stream.push_elements(&vec![BFieldElement::new(0x0102), BFieldElement::new(3)]);
    assert_eq!(
        vec![
            TAG_ELEMENTS, 2, 0, 0, 0, 0, 0, 0, 0, 2, 1, 0, 0, 0, 0, 0, 0, 3, 0, 0, 0, 0, 0, 0, 0
        ],
        stream.serialize()
    );
}

#[test]
fn reading_fails_on_mismatch_and_leaves_the_cursor_test() {
    let mut stream = ProofStream::new();
    stream.push_elements(&random_elements(2));
    let bytes = stream.serialize();

    let mut read = ProofStream::from_bytes(bytes.clone());
    assert_eq!(Err(ProofStreamError::FramingMismatch), read.pull_digest());
    assert_eq!(Err(ProofStreamError::FramingMismatch), read.pull_x_elements());
    assert_eq!(Err(ProofStreamError::FramingMismatch), read.pull_path());
    assert_eq!(0, read.read_index);
    assert!(read.pull_elements().is_ok());

    // a transcript that ends in the middle of an item
    let mut short = ProofStream::from_bytes(bytes[..bytes.len() - 1].to_vec());
    assert_eq!(Err(ProofStreamError::Exhausted), short.pull_elements());
    assert_eq!(0, short.read_index);
    let mut shorter = ProofStream::from_bytes(bytes[..5].to_vec());
    assert_eq!(Err(ProofStreamError::Exhausted), shorter.pull_elements());

    // a count that promises more than there is
    let mut lying = bytes.clone();
    lying[8] = 0xff;
    assert_eq!(
        Err(ProofStreamError::Exhausted),
        ProofStream::from_bytes(lying).pull_elements()
    );

    // the cursor beyond the end
    let mut beyond = ProofStream::from_bytes(bytes);
    beyond.set_index(1000);
    assert_eq!(Err(ProofStreamError::Exhausted), beyond.pull_elements());
}

#[test]
fn a_word_that_is_no_element_is_rejected_test() {
    let mut stream = ProofStream::new();
    stream.push_words(TAG_ELEMENTS, &vec![P]);
    let mut read = ProofStream::from_bytes(stream.serialize());
    assert_eq!(Err(ProofStreamError::FramingMismatch), read.pull_elements());
    assert_eq!(0, read.read_index);

    let mut stream = ProofStream::new();
    stream.push_words(TAG_ELEMENTS, &vec![P - 1]);
    let mut read = ProofStream::from_bytes(stream.serialize());
    assert_eq!(Ok(vec![BFieldElement::new(P - 1)]), read.pull_elements());
}

#[test]
fn a_digest_has_four_words_test() {
    let mut stream = ProofStream::new();
    stream.push_path(&vec![digest_of(1), digest_of(2)]);
    let mut bytes = stream.serialize();
    // make the path look like a digest: the tag of one, but eight words
    bytes[0] = 3;
    assert_eq!(
        Err(ProofStreamError::FramingMismatch),
        ProofStream::from_bytes(bytes).pull_digest()
    );
}

#[test]
fn challenges_depend_on_the_prefix_test() {
    let mut plain = ProofStream::new();
    let mut prefixed = ProofStream::new_with_prefix(&vec![1, 2, 3]);
    let mut other_prefix = ProofStream::new_with_prefix(&vec![1, 2, 4]);
    let elements = random_elements(3);
    plain.push_elements(&elements);
    prefixed.push_elements(&elements);
    other_prefix.push_elements(&elements);
    assert_ne!(plain.prover_fiat_shamir(), prefixed.prover_fiat_shamir());
    assert_ne!(prefixed.prover_fiat_shamir(), other_prefix.prover_fiat_shamir());

    // the verifier, having read what the prover wrote, draws the same challenge
    let mut read = ProofStream::from_bytes(prefixed.serialize());
    read.set_index(3);
    assert_ne!(prefixed.prover_fiat_shamir(), read.verifier_fiat_shamir());
    read.pull_elements().unwrap();
    assert_eq!(prefixed.prover_fiat_shamir(), read.verifier_fiat_shamir());
    assert_eq!(
        sample_index(&prefixed.prover_fiat_shamir(), 5, 100),
        sample_index(&read.verifier_fiat_shamir(), 5, 100)
    );
    assert!(sample_index(&read.verifier_fiat_shamir(), 5, 100) < 100);
}

#[test]
fn every_leaf_leads_to_the_root_test() {
    let leaves: Vec<Digest> = (0..8).map(digest_of).collect();
    let tree = MerkleTree::from_digests(leaves.clone()).unwrap();
    let root = tree.get_root();
    assert_eq!(8, tree.get_leaf_count());
    for (index, leaf) in leaves.iter().enumerate() {
        let path = tree.get_authentication_path(index);
        assert_eq!(3, path.len());
        assert!(MerkleTree::verify_authentication_path(&root, index, leaf, &path));
        // not at another place, not with another leaf, not under another root
        assert!(!MerkleTree::verify_authentication_path(&root, (index + 1) % 8, leaf, &path));
        assert!(!MerkleTree::verify_authentication_path(&root, index, &digest_of(9), &path));
        assert!(!MerkleTree::verify_authentication_path(&digest_of(9), index, leaf, &path));
        let mut shorter = path.clone();
        shorter.pop();
        assert!(!MerkleTree::verify_authentication_path(&root, index, leaf, &shorter));
    }
}

#[test]
fn a_tree_of_one_leaf_test() {
    let tree = MerkleTree::from_digests(vec![digest_of(7)]).unwrap();
    assert_eq!(digest_of(7), tree.get_root());
    assert!(tree.get_authentication_path(0).is_empty());
    assert!(MerkleTree::verify_authentication_path(&digest_of(7), 0, &digest_of(7), &vec![]));
}

#[test]
fn a_tree_needs_a_power_of_two_test() {
    assert!(MerkleTree::from_digests(vec![]).is_none());
    assert!(MerkleTree::from_digests((0..3).map(digest_of).collect()).is_none());
    assert!(MerkleTree::from_digests((0..6).map(digest_of).collect()).is_none());
    assert!(MerkleTree::from_digests((0..4).map(digest_of).collect()).is_some());
}

#[test]
fn the_root_of_two_leaves_test() {
    let left = digest_of(1);
    let right = digest_of(2);
    let mut both = left.to_vec();
    both.extend_from_slice(&right);
    let tree = MerkleTree::from_digests(vec![left, right]).unwrap();
    assert_eq!(blake3_digest(&both), tree.get_root());
}

#[test]
fn a_list_of_places_comes_back_test() {
    let mut stream = ProofStream::new();
    stream.push_indices(&vec![0, 7, 1 << 40]);
    stream.push_indices(&vec![]);
    stream.push_elements(&vec![BFieldElement::new(3)]);
    // tag, count, and three words
    assert_eq!(9 + 24 + 9 + 17, stream.len());
    assert_eq!(5, stream.serialize()[0]);
    assert_eq!(vec![3, 0, 0, 0, 0, 0, 0, 0], stream.serialize()[1..9].to_vec());
    assert_eq!(vec![7, 0, 0, 0, 0, 0, 0, 0], stream.serialize()[17..25].to_vec());

    let mut read = ProofStream::from_bytes(stream.serialize());
    assert_eq!(Err(ProofStreamError::FramingMismatch), read.pull_elements());
    assert_eq!(0, read.read_index);
    assert_eq!(Ok(vec![0, 7, 1 << 40]), read.pull_indices());
    assert_eq!(Ok(vec![]), read.pull_indices());
    assert_eq!(Err(ProofStreamError::FramingMismatch), read.pull_indices());
    assert_eq!(42, read.read_index);
    assert_eq!(Ok(vec![BFieldElement::new(3)]), read.pull_elements());
    assert_eq!(Err(ProofStreamError::Exhausted), read.pull_indices());
}
