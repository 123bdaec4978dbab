//! The transcript of a proof: the bytes of all items that the prover has
//! sent, in the order in which they were sent, and a cursor for the
//! verifier, who reads them in that order.
//!
//! An item is a tag, the number of its words, and its words, each word
//! eight bytes, lowest first. A field element is one word, a place in a
//! codeword one, an element of the extension field three, a digest four. A
//! challenge is the hash of the transcript as far as it has been written or
//! read.

use crate::shared_math::b_field_element::BFieldElement;
use crate::shared_math::b_field_element::P;
use crate::shared_math::b_field_element::values;
use crate::shared_math::mpolynomial::x_values;
use crate::shared_math::x_field_element::XFieldElement;
use crate::shared_math::x_field_element::XValue;
use crate::util_types::merkle_tree::Digest;
use crate::util_types::merkle_tree::digest_views;
use crate::util_types::merkle_tree::digests_sized;
use crate::utils::blake3_digest;
use crate::utils::blake3_hash;
use vstd::arithmetic::div_mod::lemma_mod_multiples_basic;
use vstd::bytes::*;
use vstd::prelude::*;
use vstd::slice::*;

verus! {

/// The tag of an item that holds field elements.
pub const TAG_ELEMENTS: u8 = 1;

/// The tag of an item that holds elements of the extension field.
pub const TAG_X_ELEMENTS: u8 = 2;

/// The tag of an item that holds one digest.
pub const TAG_DIGEST: u8 = 3;

/// The tag of an item that holds an authentication path.
pub const TAG_PATH: u8 = 4;

/// The tag of an item that holds a list of places.
pub const TAG_INDICES: u8 = 5;

/// Why an item could not be read from a transcript.
#[derive(Debug, Clone, Copy, PartialEq, Eq, Structural)]
pub enum ProofStreamError {
    /// The transcript ends before the item does.
    Exhausted,
    /// The bytes at the cursor are not an item of the kind asked for.
    FramingMismatch,
}

/// The bytes of a list of words: each word's eight bytes, lowest first.
pub open spec fn words_bytes(words: Seq<u64>) -> Seq<u8> {
    Seq::new(8 * words.len(), |i: int| spec_u64_to_le_bytes(words[i / 8])[i % 8])
}

/// The bytes of an item: its tag, the number of its words, and its words.
pub open spec fn item_bytes(tag: u8, words: Seq<u64>) -> Seq<u8> {
    seq![tag] + spec_u64_to_le_bytes(words.len() as u64) + words_bytes(words)
}

/// The word that stands at byte `at` of `bytes`.
pub open spec fn word_at(bytes: Seq<u8>, at: int) -> u64 {
    spec_u64_from_le_bytes(bytes.subrange(at, at + 8))
}

/// The item with the given tag that stands at byte `at` of `bytes`: its
/// words and the place after it.
pub open spec fn parse_item(bytes: Seq<u8>, at: int, tag: u8) -> Result<
    (Seq<u64>, int),
    ProofStreamError,
> {
    if at + 9 > bytes.len() {
        Err(ProofStreamError::Exhausted)
    } else if bytes[at] != tag {
        Err(ProofStreamError::FramingMismatch)
    } else {
        let count = word_at(bytes, at + 1);
        if count > (bytes.len() - at - 9) / 8 {
            Err(ProofStreamError::Exhausted)
        } else {
            Ok(
                (
                    Seq::new(count as nat, |k: int| word_at(bytes, at + 9 + 8 * k)),
                    at + 9 + 8 * count,
                ),
            )
        }
    }
}

/// Reading gives back what was written: the item that stands where an item
/// was written, whatever stands before and after it, is that item.
pub proof fn lemma_parse_written_item(before: Seq<u8>, tag: u8, words: Seq<u64>, after: Seq<u8>)
    requires
        words.len() <= u64::MAX,
    ensures
        parse_item(before + item_bytes(tag, words) + after, before.len() as int, tag) == Ok::<
            (Seq<u64>, int),
            ProofStreamError,
        >((words, (before.len() + 9 + 8 * words.len()) as int)),
{
    lemma_auto_spec_u64_to_from_le_bytes();
    let item = item_bytes(tag, words);
    let bytes = before + item + after;
    let at = before.len() as int;
    assert(item.len() == 9 + 8 * words.len());
    assert(bytes[at] == tag);
    assert(bytes.subrange(at + 1, at + 9) =~= spec_u64_to_le_bytes(words.len() as u64));
    let count = word_at(bytes, at + 1);
    assert(count == words.len());
    assert((bytes.len() - at - 9) / 8 >= words.len()) by {
        assert(bytes.len() - at - 9 >= 8 * words.len());
    }
    let parsed = Seq::new(count as nat, |k: int| word_at(bytes, at + 9 + 8 * k));
    assert forall|k: int| 0 <= k < words.len() implies parsed[k] == words[k] by {
        let chunk = bytes.subrange(at + 9 + 8 * k, at + 9 + 8 * k + 8);
        assert forall|j: int| 0 <= j < 8 implies chunk[j] == spec_u64_to_le_bytes(words[k])[j] by {
            assert(chunk[j] == item[9 + 8 * k + j]);
            assert(item[9 + 8 * k + j] == words_bytes(words)[8 * k + j]);
            assert((8 * k + j) / 8 == k && (8 * k + j) % 8 == j);
        }
        assert(chunk =~= spec_u64_to_le_bytes(words[k]));
    }
    assert(parsed =~= words);
}

/// Whether `after` starts with `before`: a transcript only ever grows at
/// its end.
pub open spec fn extends(before: Seq<u8>, after: Seq<u8>) -> bool {
    before.len() <= after.len() && after.subrange(0, before.len() as int) == before
}

/// A transcript that grew twice has grown.
pub proof fn lemma_extends_twice(a: Seq<u8>, b: Seq<u8>, c: Seq<u8>)
    requires
        extends(a, b),
        extends(b, c),
    ensures
        extends(a, c),
{
    assert(c.subrange(0, a.len() as int) =~= b.subrange(0, a.len() as int));
}

/// A transcript with bytes appended has grown.
pub proof fn lemma_extends_by(a: Seq<u8>, item: Seq<u8>)
    ensures
        extends(a, a + item),
{
    assert((a + item).subrange(0, a.len() as int) =~= a);
}

/// The transcript of a proof.
#[derive(Debug, Clone)]
pub struct ProofStream {
    /// All bytes written so far.
    pub transcript: Vec<u8>,
    /// The place of the next byte to read.
    pub read_index: usize,
}

impl ProofStream {
    /// An empty transcript.
    pub fn new() -> (r: Self)
        ensures
            r.transcript@ == Seq::<u8>::empty(),
            r.read_index == 0,
    {
        ProofStream { transcript: Vec::new(), read_index: 0 }
    }

    /// A transcript that starts with the given bytes, which no item of the
    /// proof system are: they bind the proof to what they stand for, as
    /// every challenge depends on them.
    pub fn new_with_prefix(prefix: &Vec<u8>) -> (r: Self)
        ensures
            r.transcript@ == prefix@,
            r.read_index == 0,
    {
        let mut transcript: Vec<u8> = Vec::new();
        let mut i: usize = 0;
        while i < prefix.len()
            invariant
                i <= prefix.len(),
                transcript@ == prefix@.subrange(0, i as int),
            decreases prefix.len() - i,
        {
            transcript.push(prefix[i]);
            assert(transcript@ =~= prefix@.subrange(0, i + 1));
            i = i + 1;
        }
        assert(transcript@ =~= prefix@);
        ProofStream { transcript, read_index: 0 }
    }

    /// The transcript that consists of the given bytes, to be read from
    /// their start.
    pub fn from_bytes(bytes: Vec<u8>) -> (r: Self)
        ensures
            r.transcript@ == bytes@,
            r.read_index == 0,
    {
        ProofStream { transcript: bytes, read_index: 0 }
    }

    /// The bytes of the transcript.
    pub fn serialize(&self) -> (r: Vec<u8>)
        ensures
            r@ == self.transcript@,
    {
        let mut out: Vec<u8> = Vec::new();
        let mut i: usize = 0;
        while i < self.transcript.len()
            invariant
                i <= self.transcript.len(),
                out@ == self.transcript@.subrange(0, i as int),
            decreases self.transcript.len() - i,
        {
            out.push(self.transcript[i]);
            assert(out@ =~= self.transcript@.subrange(0, i + 1));
            i = i + 1;
        }
        assert(out@ =~= self.transcript@);
        out
    }

    /// The number of bytes of the transcript.
    pub fn len(&self) -> (r: usize)
        ensures
            r == self.transcript.len(),
    {
        self.transcript.len()
    }

    /// Whether the transcript has no bytes.
    pub fn is_empty(&self) -> (r: bool)
        ensures
            r == (self.transcript.len() == 0),
    {
        self.transcript.len() == 0
    }

    /// Moves the cursor to byte `new_index`: a verifier skips a prefix of
    /// known length so.
    pub fn set_index(&mut self, new_index: usize)
        ensures
            final(self).transcript == old(self).transcript,
            final(self).read_index == new_index,
    {
        self.read_index = new_index;
    }

    /// The challenge of the prover: the hash of all bytes written so far.
    pub fn prover_fiat_shamir(&self) -> (r: [u8; 32])
        ensures
            r@ == blake3_hash(self.transcript@),
    {
        blake3_digest(self.transcript.as_slice())
    }

    /// The challenge of the verifier: the hash of all bytes read so far.
    /// Where the cursor stands beyond the end, that is all bytes.
    pub fn verifier_fiat_shamir(&self) -> (r: [u8; 32])
        ensures
            self.read_index <= self.transcript.len() ==> r@ == blake3_hash(
                self.transcript@.subrange(0, self.read_index as int),
            ),
            self.read_index > self.transcript.len() ==> r@ == blake3_hash(self.transcript@),
    {
        let end = if self.read_index <= self.transcript.len() {
            self.read_index
        } else {
            self.transcript.len()
        };
        let mut read: Vec<u8> = Vec::new();
        let mut i: usize = 0;
        while i < end
            invariant
                i <= end <= self.transcript.len(),
                read@ == self.transcript@.subrange(0, i as int),
            decreases end - i,
        {
            read.push(self.transcript[i]);
            assert(read@ =~= self.transcript@.subrange(0, i + 1));
            i = i + 1;
        }
        assert(self.transcript@.subrange(0, self.transcript.len() as int) =~= self.transcript@);
        blake3_digest(read.as_slice())
    }

    /// Appends the eight bytes of a word.
    fn write_word(&mut self, word: u64)
        ensures
            final(self).transcript@ == old(self).transcript@ + spec_u64_to_le_bytes(word),
            final(self).read_index == old(self).read_index,
    {
        let bytes = u64_to_le_bytes(word);
        let ghost start = self.transcript@;
        let mut i: usize = 0;
        while i < 8
            invariant
                i <= 8,
                bytes@ == spec_u64_to_le_bytes(word),
                bytes.len() == 8,
                self.read_index == old(self).read_index,
                self.transcript@ == start + bytes@.subrange(0, i as int),
            decreases 8 - i,
        {
            self.transcript.push(bytes[i]);
            assert(self.transcript@ =~= start + bytes@.subrange(0, i + 1));
            i = i + 1;
        }
        assert(bytes@.subrange(0, 8) =~= bytes@);
    }

    /// The word at byte `at`.
    fn read_word(&self, at: usize) -> (r: u64)
        requires
            at + 8 <= self.transcript.len(),
        ensures
            r == word_at(self.transcript@, at as int),
    {
        u64_from_le_bytes(slice_subrange(self.transcript.as_slice(), at, at + 8))
    }

    /// Appends an item: its tag, the number of its words, and its words.
    pub fn push_words(&mut self, tag: u8, words: &Vec<u64>)
        ensures
            extends(old(self).transcript@, final(self).transcript@),
            final(self).transcript@ == old(self).transcript@ + item_bytes(tag, words@),
            final(self).read_index == old(self).read_index,
    {
        let ghost start = self.transcript@;
        self.transcript.push(tag);
        self.write_word(words.len() as u64);
        let ghost head = self.transcript@;
        assert(head =~= start + seq![tag] + spec_u64_to_le_bytes(words.len() as u64));
        let mut k: usize = 0;
        proof {
            lemma_auto_spec_u64_to_from_le_bytes();
            assert(words_bytes(words@.subrange(0, 0)) =~= Seq::<u8>::empty());
        }
        while k < words.len()
            invariant
                k <= words.len(),
                self.read_index == old(self).read_index,
                self.transcript@ == head + words_bytes(words@.subrange(0, k as int)),
            decreases words.len() - k,
        {
            self.write_word(words[k]);
            proof {
                lemma_auto_spec_u64_to_from_le_bytes();
                let shorter = words@.subrange(0, k as int);
                let longer = words@.subrange(0, k + 1);
                assert(words_bytes(longer) =~= words_bytes(shorter) + spec_u64_to_le_bytes(
                    words[k as int],
                )) by {
                    assert forall|i: int| 0 <= i < 8 * (k + 1) implies words_bytes(longer)[i] == (
                    words_bytes(shorter) + spec_u64_to_le_bytes(words[k as int]))[i] by {
                        if i < 8 * k {
                            assert(i / 8 < k);
                            assert(longer[i / 8] == shorter[i / 8]);
                        } else {
                            assert(i / 8 == k && i % 8 == i - 8 * k);
                        }
                    }
                }
            }
            k = k + 1;
        }
        assert(words@.subrange(0, words.len() as int) =~= words@);
        assert(self.transcript@ =~= start + item_bytes(tag, words@));
        proof {
            lemma_extends_by(start, item_bytes(tag, words@));
        }
    }

    /// Reads the item with the given tag that stands at the cursor and moves
    /// the cursor past it. Where no such item stands there, the cursor
    /// stays.
    pub fn pull_words(&mut self, tag: u8) -> (r: Result<Vec<u64>, ProofStreamError>)
        ensures
            final(self).transcript == old(self).transcript,
            match parse_item(old(self).transcript@, old(self).read_index as int, tag) {
                Ok((words, next)) => r is Ok && r->Ok_0@ == words && final(self).read_index
                    == next,
                Err(e) => r == Err::<Vec<u64>, ProofStreamError>(e) && final(self).read_index
                    == old(self).read_index,
            },
    {
        let n = self.transcript.len();
        let at = self.read_index;
        if at > n || n - at < 9 {
            return Err(ProofStreamError::Exhausted);
        }
        if self.transcript[at] != tag {
            return Err(ProofStreamError::FramingMismatch);
        }
        let count = self.read_word(at + 1);
        if count > ((n - at - 9) / 8) as u64 {
            return Err(ProofStreamError::Exhausted);
        }
        let count = count as usize;
        let mut words: Vec<u64> = Vec::new();
        let mut k: usize = 0;
        while k < count
            invariant
                k <= count,
                at + 9 + 8 * count <= n,
                n == self.transcript.len(),
                *self == *old(self),
                words.len() == k,
                forall|j: int|
                    0 <= j < k ==> words[j] == word_at(self.transcript@, at + 9 + 8 * j),
            decreases count - k,
        {
            words.push(self.read_word(at + 9 + 8 * k));
            k = k + 1;
        }
        assert(words@ =~= Seq::new(
            count as nat,
            |j: int| word_at(self.transcript@, at + 9 + 8 * j),
        ));
        self.read_index = at + 9 + 8 * count;
        Ok(words)
    }

    /// Appends a list of field elements.
    pub fn push_elements(&mut self, elements: &Vec<BFieldElement>)
        ensures
            final(self).transcript@ == old(self).transcript@ + elements_item(values(elements@)),
            extends(old(self).transcript@, final(self).transcript@),
            final(self).transcript@ == old(self).transcript@ + item_bytes(
                TAG_ELEMENTS,
                element_words(elements@),
            ),
            final(self).read_index == old(self).read_index,
    {
        assert(element_words(elements@) =~= value_words(values(elements@)));
        let mut words: Vec<u64> = Vec::new();
        let mut i: usize = 0;
        while i < elements.len()
            invariant
                i <= elements.len(),
                words.len() == i,
                forall|j: int| 0 <= j < i ==> words[j] == elements[j]@,
            decreases elements.len() - i,
        {
            words.push(elements[i].value());
            i = i + 1;
        }
        assert(words@ =~= element_words(elements@));
        self.push_words(TAG_ELEMENTS, &words);
    }

    /// Reads a list of field elements. Every word has to be the canonical
    /// value of an element.
    pub fn pull_elements(&mut self) -> (r: Result<Vec<BFieldElement>, ProofStreamError>)
        ensures
            match parse_elements(old(self).transcript@, old(self).read_index as int) {
                Ok((elements, next)) => r is Ok && values(r->Ok_0@) == elements && final(self).read_index == next && next <= final(self).transcript.len(),
                Err(e) => r == Err::<Vec<BFieldElement>, ProofStreamError>(e),
            },
            final(self).transcript == old(self).transcript,
            match parse_item(old(self).transcript@, old(self).read_index as int, TAG_ELEMENTS) {
                Ok((words, next)) => if all_canonical(words) {
                    &&& r is Ok
                    &&& element_words(r->Ok_0@) == words
                    &&& forall|i: int|
                        0 <= i < r->Ok_0.len() ==> (#[trigger] r->Ok_0[i]).is_canonical()
                    &&& final(self).read_index == next
                } else {
                    &&& r == Err::<Vec<BFieldElement>, ProofStreamError>(
                        ProofStreamError::FramingMismatch,
                    )
                    &&& final(self).read_index == old(self).read_index
                },
                Err(e) => r == Err::<Vec<BFieldElement>, ProofStreamError>(e) && final(self).read_index == old(self).read_index,
            },
    {
        let start = self.read_index;
        let words = match self.pull_words(TAG_ELEMENTS) {
            Ok(words) => words,
            Err(e) => {
                return Err(e);
            },
        };
        let ghost parsed = parse_item(old(self).transcript@, old(self).read_index as int, TAG_ELEMENTS);
        let mut elements: Vec<BFieldElement> = Vec::new();
        let mut i: usize = 0;
        while i < words.len()
            invariant
                i <= words.len(),
                start == old(self).read_index,
                self.transcript == old(self).transcript,
                parsed == parse_item(
                    old(self).transcript@,
                    old(self).read_index as int,
                    TAG_ELEMENTS,
                ),
                parsed is Ok,
                parsed->Ok_0.0 == words@,
                self.read_index == parsed->Ok_0.1,
                elements.len() == i,
                forall|j: int| 0 <= j < i ==> (#[trigger] words[j]) < P,
                forall|j: int|
                    0 <= j < i ==> (#[trigger] elements[j]).0 == words[j]
                        && elements[j].is_canonical(),
            decreases words.len() - i,
        {
            if words[i] >= P {
                self.read_index = start;
                assert(!all_canonical(words@));
                return Err(ProofStreamError::FramingMismatch);
            }
            elements.push(BFieldElement(words[i]));
            i = i + 1;
        }
        proof {
            assert forall|j: int| 0 <= j < elements.len() implies elements[j]@ == words[j] by {
                vstd::arithmetic::div_mod::lemma_small_mod(words[j] as nat, P as nat);
            }
            assert(element_words(elements@) =~= words@);
            assert(values(elements@) =~= words_as_elements(words@));
            lemma_parsed_item_ends_within(
                old(self).transcript@,
                old(self).read_index as int,
                TAG_ELEMENTS,
            );
        }
        Ok(elements)
    }
}

/// The words of a list of places.
pub open spec fn index_words(indices: Seq<usize>) -> Seq<u64> {
    Seq::new(indices.len(), |i: int| indices[i] as u64)
}

/// The bytes of the item that holds the given places.
pub open spec fn indices_item(indices: Seq<usize>) -> Seq<u8> {
    item_bytes(TAG_INDICES, index_words(indices))
}

/// Whether every word is a place that a machine word holds.
pub open spec fn all_places(words: Seq<u64>) -> bool {
    forall|i: int| 0 <= i < words.len() ==> (#[trigger] words[i]) <= usize::MAX
}

/// The list of places that stands at byte `at`: its words and the place
/// after it.
pub open spec fn parse_indices(bytes: Seq<u8>, at: int) -> Result<
    (Seq<u64>, int),
    ProofStreamError,
> {
    match parse_item(bytes, at, TAG_INDICES) {
        Err(e) => Err(e),
        Ok((words, next)) => if all_places(words) {
            Ok((words, next))
        } else {
            Err(ProofStreamError::FramingMismatch)
        },
    }
}

impl ProofStream {
    /// Appends a list of places.
    pub fn push_indices(&mut self, indices: &Vec<usize>)
        ensures
            final(self).transcript@ == old(self).transcript@ + indices_item(indices@),
            extends(old(self).transcript@, final(self).transcript@),
            final(self).read_index == old(self).read_index,
    {
        let mut words: Vec<u64> = Vec::new();
        let mut i: usize = 0;
        while i < indices.len()
            invariant
                i <= indices.len(),
                words.len() == i,
                forall|j: int| 0 <= j < i ==> words[j] == indices[j] as u64,
            decreases indices.len() - i,
        {
            words.push(indices[i] as u64);
            i = i + 1;
        }
        assert(words@ =~= index_words(indices@));
        self.push_words(TAG_INDICES, &words);
    }

    /// Reads a list of places. Every word has to be a place that a machine
    /// word holds. Where no such list stands at the cursor, the cursor
    /// stays.
    pub fn pull_indices(&mut self) -> (r: Result<Vec<usize>, ProofStreamError>)
        ensures
            final(self).transcript == old(self).transcript,
            match parse_indices(old(self).transcript@, old(self).read_index as int) {
                Ok((words, next)) => r is Ok && index_words(r->Ok_0@) == words
                    && final(self).read_index == next,
                Err(e) => r == Err::<Vec<usize>, ProofStreamError>(e) && final(self).read_index
                    == old(self).read_index,
            },
    {
        let start = self.read_index;
        let words = match self.pull_words(TAG_INDICES) {
            Ok(words) => words,
            Err(e) => {
                return Err(e);
            },
        };
        let ghost parsed = parse_item(
            old(self).transcript@,
            old(self).read_index as int,
            TAG_INDICES,
        );
        let mut indices: Vec<usize> = Vec::new();
        let mut i: usize = 0;
        while i < words.len()
            invariant
                i <= words.len(),
                start == old(self).read_index,
                self.transcript == old(self).transcript,
                parsed == parse_item(
                    old(self).transcript@,
                    old(self).read_index as int,
                    TAG_INDICES,
                ),
                parsed is Ok,
                parsed->Ok_0.0 == words@,
                self.read_index == parsed->Ok_0.1,
                indices.len() == i,
                forall|j: int| 0 <= j < i ==> (#[trigger] words[j]) <= usize::MAX,
                forall|j: int| 0 <= j < i ==> (#[trigger] indices[j]) as u64 == words[j],
            decreases words.len() - i,
        {
            if words[i] > usize::MAX as u64 {
                self.read_index = start;
                assert(!all_places(words@));
                return Err(ProofStreamError::FramingMismatch);
            }
            indices.push(words[i] as usize);
            i = i + 1;
        }
        assert(all_places(words@));
        assert(index_words(indices@) =~= words@);
        Ok(indices)
    }
}

/// The list of places that stands at a place is read there.
pub proof fn lemma_parse_indices_at(bytes: Seq<u8>, at: int, indices: Seq<usize>)
    requires
        indices.len() <= u64::MAX,
        stands_at(bytes, at, indices_item(indices)),
    ensures
        parse_indices(bytes, at) == Ok::<(Seq<u64>, int), ProofStreamError>(
            (index_words(indices), at + 9 + 8 * indices.len()),
        ),
{
    let words = index_words(indices);
    lemma_parse_item_at(bytes, at, TAG_INDICES, words);
    assert(all_places(words));
}

/// The words of a list of field elements: their canonical values.
pub open spec fn element_words(elements: Seq<BFieldElement>) -> Seq<u64> {
    Seq::new(elements.len(), |i: int| elements[i]@ as u64)
}

/// Whether every word is the canonical value of a field element.
pub open spec fn all_canonical(words: Seq<u64>) -> bool {
    forall|i: int| 0 <= i < words.len() ==> (#[trigger] words[i]) < P
}

/// The words of a list of elements of the extension field: the canonical
/// values of their coefficients, three per element.
pub open spec fn x_words(elements: Seq<XFieldElement>) -> Seq<u64> {
    Seq::new(3 * elements.len(), |i: int| elements[i / 3].coefficients[i % 3]@ as u64)
}

/// The words of a digest: four, each of eight of its bytes.
pub open spec fn digest_words(digest: Seq<u8>) -> Seq<u64> {
    Seq::new(4, |k: int| word_at(digest, 8 * k))
}

/// The words of a list of digests, four per digest.
pub open spec fn path_words(path: Seq<Digest>) -> Seq<u64> {
    Seq::new(4 * path.len(), |i: int| word_at(path[i / 4]@, 8 * (i % 4)))
}

/// The words of a list of field values.
pub open spec fn value_words(row: Seq<int>) -> Seq<u64> {
    Seq::new(row.len(), |i: int| row[i] as u64)
}

/// The words of a list of values of the extension field, three per value.
pub open spec fn x_value_words(xs: Seq<XValue>) -> Seq<u64> {
    Seq::new(
        3 * xs.len(),
        |i: int|
            if i % 3 == 0 {
                xs[i / 3].c0 as u64
            } else if i % 3 == 1 {
                xs[i / 3].c1 as u64
            } else {
                xs[i / 3].c2 as u64
            },
    )
}

/// The words of a list of digests, four per digest.
pub open spec fn path_value_words(path: Seq<Seq<u8>>) -> Seq<u64> {
    Seq::new(4 * path.len(), |i: int| word_at(path[i / 4], 8 * (i % 4)))
}

/// The bytes of the item that holds the given field values.
pub open spec fn elements_item(row: Seq<int>) -> Seq<u8> {
    item_bytes(TAG_ELEMENTS, value_words(row))
}

/// The bytes of the item that holds the given values of the extension
/// field.
pub open spec fn x_elements_item(xs: Seq<XValue>) -> Seq<u8> {
    item_bytes(TAG_X_ELEMENTS, x_value_words(xs))
}

/// The bytes of the item that holds the given digest.
pub open spec fn digest_item(digest: Seq<u8>) -> Seq<u8> {
    item_bytes(TAG_DIGEST, digest_words(digest))
}

/// The bytes of the item that holds the given authentication path.
pub open spec fn path_item(path: Seq<Seq<u8>>) -> Seq<u8> {
    item_bytes(TAG_PATH, path_value_words(path))
}

/// The field values that a list of words stands for.
pub open spec fn words_as_elements(words: Seq<u64>) -> Seq<int> {
    Seq::new(words.len(), |i: int| words[i] as int)
}

/// The values of the extension field that a list of words stands for,
/// three words each.
pub open spec fn words_as_x(words: Seq<u64>) -> Seq<XValue> {
    Seq::new(
        words.len() / 3,
        |i: int|
            XValue {
                c0: words[3 * i] as int,
                c1: words[3 * i + 1] as int,
                c2: words[3 * i + 2] as int,
            },
    )
}

/// The digests that a list of words stands for, four words each.
pub open spec fn words_as_digests(words: Seq<u64>) -> Seq<Seq<u8>> {
    Seq::new(words.len() / 4, |k: int| words_bytes(words.subrange(4 * k, 4 * k + 4)))
}

/// The list of field elements that stands at byte `at`: its values and the
/// place after it.
pub open spec fn parse_elements(bytes: Seq<u8>, at: int) -> Result<
    (Seq<int>, int),
    ProofStreamError,
> {
    match parse_item(bytes, at, TAG_ELEMENTS) {
        Err(e) => Err(e),
        Ok((words, next)) => if all_canonical(words) {
            Ok((words_as_elements(words), next))
        } else {
            Err(ProofStreamError::FramingMismatch)
        },
    }
}

/// The list of elements of the extension field that stands at byte `at`.
pub open spec fn parse_x_elements(bytes: Seq<u8>, at: int) -> Result<
    (Seq<XValue>, int),
    ProofStreamError,
> {
    match parse_item(bytes, at, TAG_X_ELEMENTS) {
        Err(e) => Err(e),
        Ok((words, next)) => if words.len() % 3 == 0 && all_canonical(words) {
            Ok((words_as_x(words), next))
        } else {
            Err(ProofStreamError::FramingMismatch)
        },
    }
}

/// The digest that stands at byte `at`.
pub open spec fn parse_digest(bytes: Seq<u8>, at: int) -> Result<(Seq<u8>, int), ProofStreamError> {
    match parse_item(bytes, at, TAG_DIGEST) {
        Err(e) => Err(e),
        Ok((words, next)) => if words.len() == 4 {
            Ok((words_bytes(words), next))
        } else {
            Err(ProofStreamError::FramingMismatch)
        },
    }
}

/// The authentication path that stands at byte `at`.
pub open spec fn parse_path(bytes: Seq<u8>, at: int) -> Result<
    (Seq<Seq<u8>>, int),
    ProofStreamError,
> {
    match parse_item(bytes, at, TAG_PATH) {
        Err(e) => Err(e),
        Ok((words, next)) => if words.len() % 4 == 0 {
            Ok((words_as_digests(words), next))
        } else {
            Err(ProofStreamError::FramingMismatch)
        },
    }
}

/// Whether the bytes from the place `at` on are those of `part`.
pub open spec fn stands_at(bytes: Seq<u8>, at: int, part: Seq<u8>) -> bool {
    &&& 0 <= at
    &&& at + part.len() <= bytes.len()
    &&& bytes.subrange(at, at + part.len()) == part
}

/// What stands at the end of a start of the transcript stands there in the
/// transcript.
pub proof fn lemma_stands_at_end(before: Seq<u8>, part: Seq<u8>, bytes: Seq<u8>)
    requires
        extends(before + part, bytes),
    ensures
        stands_at(bytes, before.len() as int, part),
        extends(before, bytes),
{
    let whole = before + part;
    let start = bytes.subrange(0, whole.len() as int);
    assert(start == whole);
    let m = before.len() as int;
    assert forall|j: int| 0 <= j < whole.len() implies #[trigger] bytes[j] == whole[j] by {
        assert(start[j] == bytes[j]);
    }
    assert(bytes.subrange(m, m + part.len()) =~= part) by {
        assert forall|i: int| 0 <= i < part.len() implies #[trigger] bytes.subrange(
            m,
            m + part.len(),
        )[i] == part[i] by {
            assert(bytes[m + i] == whole[m + i]);
        }
    }
    assert(bytes.subrange(0, m) =~= before) by {
        assert forall|i: int| 0 <= i < m implies #[trigger] bytes.subrange(0, m)[i]
            == before[i] by {
            assert(bytes[i] == whole[i]);
        }
    }
}

/// Where two parts stand one after the other, each stands at its place.
pub proof fn lemma_stands_in_parts(bytes: Seq<u8>, at: int, first: Seq<u8>, second: Seq<u8>)
    requires
        stands_at(bytes, at, first + second),
    ensures
        stands_at(bytes, at, first),
        stands_at(bytes, at + first.len(), second),
{
    let whole = first + second;
    let there = bytes.subrange(at, at + whole.len());
    assert(there == whole);
    let m = at + first.len();
    assert forall|j: int| 0 <= j < whole.len() implies #[trigger] whole[j] == bytes[at + j] by {
        assert(there[j] == bytes[at + j]);
    }
    assert(bytes.subrange(at, m) =~= first) by {
        assert forall|i: int| 0 <= i < first.len() implies #[trigger] bytes.subrange(at, m)[i]
            == first[i] by {
            assert(whole[i] == bytes[at + i]);
        }
    }
    assert(bytes.subrange(m, m + second.len()) =~= second) by {
        assert forall|i: int| 0 <= i < second.len() implies #[trigger] bytes.subrange(
            m,
            m + second.len(),
        )[i] == second[i] by {
            assert(whole[first.len() + i] == bytes[at + (first.len() + i)]);
        }
    }
}

/// The item that stands at a place is read there.
pub proof fn lemma_parse_item_at(bytes: Seq<u8>, at: int, tag: u8, words: Seq<u64>)
    requires
        words.len() <= u64::MAX,
        stands_at(bytes, at, item_bytes(tag, words)),
    ensures
        parse_item(bytes, at, tag) == Ok::<(Seq<u64>, int), ProofStreamError>(
            (words, at + 9 + 8 * words.len()),
        ),
        item_bytes(tag, words).len() == 9 + 8 * words.len(),
{
    lemma_auto_spec_u64_to_from_le_bytes();
    let item = item_bytes(tag, words);
    assert(item.len() == 9 + 8 * words.len());
    let before = bytes.subrange(0, at);
    let after = bytes.subrange(at + item.len(), bytes.len() as int);
    let there = bytes.subrange(at, at + item.len());
    assert forall|j: int| 0 <= j < item.len() implies #[trigger] item[j] == bytes[at + j] by {
        assert(there[j] == bytes[at + j]);
    }
    assert(bytes =~= before + item + after) by {
        assert forall|i: int| 0 <= i < bytes.len() implies #[trigger] bytes[i] == (before + item
            + after)[i] by {
            if at <= i < at + item.len() {
                assert(item[i - at] == bytes[at + (i - at)]);
            }
        }
    }
    lemma_parse_written_item(before, tag, words, after);
}

/// Whether each value is in the canonical range of the field.
pub open spec fn canonical(row: Seq<int>) -> bool {
    forall|i: int| 0 <= i < row.len() ==> 0 <= #[trigger] row[i] < P
}

/// Whether each coefficient of each value is in the canonical range of the
/// field.
pub open spec fn x_canonical(xs: Seq<XValue>) -> bool {
    forall|i: int|
        0 <= i < xs.len() ==> {
            &&& 0 <= (#[trigger] xs[i]).c0 < P
            &&& 0 <= xs[i].c1 < P
            &&& 0 <= xs[i].c2 < P
        }
}

/// The list of field values that stands at a place is read there.
pub proof fn lemma_parse_elements_at(bytes: Seq<u8>, at: int, row: Seq<int>)
    requires
        row.len() <= u64::MAX,
        canonical(row),
        stands_at(bytes, at, elements_item(row)),
    ensures
        parse_elements(bytes, at) == Ok::<(Seq<int>, int), ProofStreamError>(
            (row, at + 9 + 8 * row.len()),
        ),
        elements_item(row).len() == 9 + 8 * row.len(),
{
    let words = value_words(row);
    lemma_parse_item_at(bytes, at, TAG_ELEMENTS, words);
    assert(all_canonical(words)) by {
        assert forall|i: int| 0 <= i < words.len() implies (#[trigger] words[i]) < P by {
            assert(0 <= row[i] < P);
        }
    }
    assert(words_as_elements(words) =~= row) by {
        assert forall|i: int| 0 <= i < row.len() implies words_as_elements(words)[i]
            == row[i] by {
            assert(0 <= row[i] < P);
        }
    }
}

/// The list of values of the extension field that stands at a place is
/// read there.
pub proof fn lemma_parse_x_elements_at(bytes: Seq<u8>, at: int, xs: Seq<XValue>)
    requires
        3 * xs.len() <= u64::MAX,
        x_canonical(xs),
        stands_at(bytes, at, x_elements_item(xs)),
    ensures
        parse_x_elements(bytes, at) == Ok::<(Seq<XValue>, int), ProofStreamError>(
            (xs, at + 9 + 24 * xs.len()),
        ),
        x_elements_item(xs).len() == 9 + 24 * xs.len(),
{
    let words = x_value_words(xs);
    lemma_parse_item_at(bytes, at, TAG_X_ELEMENTS, words);
    assert(words.len() % 3 == 0) by {
        lemma_mod_multiples_basic(xs.len() as int, 3);
    }
    assert(all_canonical(words)) by {
        assert forall|i: int| 0 <= i < words.len() implies (#[trigger] words[i]) < P by {
            let x = xs[i / 3];
            assert(0 <= x.c0 < P && 0 <= x.c1 < P && 0 <= x.c2 < P);
        }
    }
    assert(words.len() / 3 == xs.len());
    assert(words_as_x(words) =~= xs) by {
        assert forall|i: int| 0 <= i < xs.len() implies words_as_x(words)[i] == xs[i] by {
            let x = xs[i];
            assert(0 <= x.c0 < P && 0 <= x.c1 < P && 0 <= x.c2 < P);
            assert((3 * i) / 3 == i && (3 * i) % 3 == 0);
            assert((3 * i + 1) / 3 == i && (3 * i + 1) % 3 == 1);
            assert((3 * i + 2) / 3 == i && (3 * i + 2) % 3 == 2);
        }
    }
}

/// The bytes of the four words of a digest are the digest.
pub proof fn lemma_digest_words(digest: Seq<u8>)
    requires
        digest.len() == 32,
    ensures
        words_bytes(digest_words(digest)) == digest,
{
    lemma_auto_spec_u64_to_from_le_bytes();
    let words = digest_words(digest);
    assert forall|i: int| 0 <= i < 32 implies words_bytes(words)[i] == digest[i] by {
        let k = i / 8;
        let chunk = digest.subrange(8 * k, 8 * k + 8);
        assert(chunk.len() == 8);
        assert(words[k] == spec_u64_from_le_bytes(chunk));
        assert(spec_u64_to_le_bytes(words[k]) == chunk);
        assert(chunk[i % 8] == digest[8 * k + i % 8]);
    }
    assert(words_bytes(words) =~= digest);
}

/// The digest that stands at a place is read there.
pub proof fn lemma_parse_digest_at(bytes: Seq<u8>, at: int, digest: Seq<u8>)
    requires
        digest.len() == 32,
        stands_at(bytes, at, digest_item(digest)),
    ensures
        parse_digest(bytes, at) == Ok::<(Seq<u8>, int), ProofStreamError>((digest, at + 41)),
        digest_item(digest).len() == 41,
{
    lemma_parse_item_at(bytes, at, TAG_DIGEST, digest_words(digest));
    lemma_digest_words(digest);
}

/// The authentication path that stands at a place is read there.
pub proof fn lemma_parse_path_at(bytes: Seq<u8>, at: int, path: Seq<Seq<u8>>)
    requires
        4 * path.len() <= u64::MAX,
        digests_sized(path),
        stands_at(bytes, at, path_item(path)),
    ensures
        parse_path(bytes, at) == Ok::<(Seq<Seq<u8>>, int), ProofStreamError>(
            (path, at + 9 + 32 * path.len()),
        ),
        path_item(path).len() == 9 + 32 * path.len(),
{
    let words = path_value_words(path);
    lemma_parse_item_at(bytes, at, TAG_PATH, words);
    assert(words.len() % 4 == 0) by {
        lemma_mod_multiples_basic(path.len() as int, 4);
    }
    assert(words.len() / 4 == path.len());
    assert forall|k: int| 0 <= k < path.len() implies words_as_digests(words)[k] == path[k] by {
        let four = words.subrange(4 * k, 4 * k + 4);
        assert(path[k].len() == 32);
        assert(four =~= digest_words(path[k])) by {
            assert forall|j: int| 0 <= j < 4 implies four[j] == digest_words(path[k])[j] by {
                assert((4 * k + j) / 4 == k && (4 * k + j) % 4 == j);
            }
        }
        lemma_digest_words(path[k]);
    }
    assert(words_as_digests(words) =~= path);
}

/// An item that was read ends within the transcript.
pub proof fn lemma_parsed_item_ends_within(bytes: Seq<u8>, at: int, tag: u8)
    requires
        0 <= at,
        parse_item(bytes, at, tag) is Ok,
    ensures
        at < parse_item(bytes, at, tag)->Ok_0.1 <= bytes.len(),
{
    let count = word_at(bytes, at + 1);
    assert(8 * ((bytes.len() - at - 9) / 8) <= bytes.len() - at - 9) by {
        vstd::arithmetic::div_mod::lemma_fundamental_div_mod(bytes.len() - at - 9, 8);
    }
}

/// Appends the four words of a digest to a list of words.
fn digest_to_words(digest: &Digest, words: &mut Vec<u64>)
    ensures
        final(words)@ == old(words)@ + digest_words(digest@),
{
    let ghost start = words@;
    let mut k: usize = 0;
    while k < 4
        invariant
            k <= 4,
            words.len() == start.len() + k,
            forall|j: int| 0 <= j < start.len() ==> words[j] == start[j],
            forall|j: int|
                start.len() <= j < start.len() + k ==> words[j] == word_at(
                    digest@,
                    8 * (j - start.len()),
                ),
        decreases 4 - k,
    {
        words.push(u64_from_le_bytes(slice_subrange(digest.as_slice(), 8 * k, 8 * k + 8)));
        k = k + 1;
    }
    assert(words@ =~= start + digest_words(digest@));
}

/// The digest whose bytes are those of the four words from place `at` on.
fn words_to_digest(words: &Vec<u64>, at: usize) -> (r: Digest)
    requires
        at + 4 <= words.len(),
    ensures
        r@ == words_bytes(words@.subrange(at as int, at + 4)),
{
    let mut digest: Digest = [0u8;32];
    let ghost four = words@.subrange(at as int, at + 4);
    let mut k: usize = 0;
    while k < 4
        invariant
            k <= 4,
            at + 4 <= words.len(),
            four == words@.subrange(at as int, at + 4),
            forall|i: int| 0 <= i < 8 * k ==> digest[i] == words_bytes(four)[i],
        decreases 4 - k,
    {
        let bytes = u64_to_le_bytes(words[at + k]);
        let mut j: usize = 0;
        while j < 8
            invariant
                j <= 8,
                k < 4,
                at + 4 <= words.len(),
                bytes@ == spec_u64_to_le_bytes(words[at + k]),
                bytes.len() == 8,
                four == words@.subrange(at as int, at + 4),
                forall|i: int| 0 <= i < 8 * k + j ==> digest[i] == words_bytes(four)[i],
            decreases 8 - j,
        {
            digest[8 * k + j] = bytes[j];
            proof {
                assert((8 * k + j) / 8 == k && (8 * k + j) % 8 == j);
                assert(four[k as int] == words[at + k]);
            }
            j = j + 1;
        }
        k = k + 1;
    }
    assert(digest@ =~= words_bytes(four));
    digest
}

impl ProofStream {
    /// Appends a list of elements of the extension field.
    pub fn push_x_elements(&mut self, elements: &Vec<XFieldElement>)
        ensures
            final(self).transcript@ == old(self).transcript@ + x_elements_item(
                x_values(elements@),
            ),
            extends(old(self).transcript@, final(self).transcript@),
            final(self).transcript@ == old(self).transcript@ + item_bytes(
                TAG_X_ELEMENTS,
                x_words(elements@),
            ),
            final(self).read_index == old(self).read_index,
    {
        assert(x_words(elements@) =~= x_value_words(x_values(elements@))) by {
            assert forall|i: int| 0 <= i < 3 * elements.len() implies x_words(elements@)[i]
                == x_value_words(x_values(elements@))[i] by {
                assert(0 <= i % 3 < 3);
            }
        }
        let mut words: Vec<u64> = Vec::new();
        let mut i: usize = 0;
        while i < elements.len()
            invariant
                i <= elements.len(),
                words.len() == 3 * i,
                forall|j: int|
                    0 <= j < 3 * i ==> words[j] == elements[j / 3].coefficients[j % 3]@,
            decreases elements.len() - i,
        {
            words.push(elements[i].coefficients[0].value());
            words.push(elements[i].coefficients[1].value());
            words.push(elements[i].coefficients[2].value());
            i = i + 1;
        }
        assert(words@ =~= x_words(elements@));
        self.push_words(TAG_X_ELEMENTS, &words);
    }

    /// Reads a list of elements of the extension field. There have to be
    /// three words per element, each the canonical value of a coefficient.
    pub fn pull_x_elements(&mut self) -> (r: Result<Vec<XFieldElement>, ProofStreamError>)
        ensures
            match parse_x_elements(old(self).transcript@, old(self).read_index as int) {
                Ok((elements, next)) => r is Ok && x_values(r->Ok_0@) == elements && final(self).read_index == next && next <= final(self).transcript.len(),
                Err(e) => r == Err::<Vec<XFieldElement>, ProofStreamError>(e),
            },
            final(self).transcript == old(self).transcript,
            match parse_item(old(self).transcript@, old(self).read_index as int, TAG_X_ELEMENTS) {
                Ok((words, next)) => if words.len() % 3 == 0 && all_canonical(words) {
                    &&& r is Ok
                    &&& x_words(r->Ok_0@) == words
                    &&& final(self).read_index == next
                } else {
                    &&& r == Err::<Vec<XFieldElement>, ProofStreamError>(
                        ProofStreamError::FramingMismatch,
                    )
                    &&& final(self).read_index == old(self).read_index
                },
                Err(e) => r == Err::<Vec<XFieldElement>, ProofStreamError>(e) && final(self).read_index == old(self).read_index,
            },
    {
        let start = self.read_index;
        let words = match self.pull_words(TAG_X_ELEMENTS) {
            Ok(words) => words,
            Err(e) => {
                return Err(e);
            },
        };
        if words.len() % 3 != 0 {
            self.read_index = start;
            return Err(ProofStreamError::FramingMismatch);
        }
        let ghost parsed = parse_item(
            old(self).transcript@,
            old(self).read_index as int,
            TAG_X_ELEMENTS,
        );
        let count = words.len() / 3;
        let mut elements: Vec<XFieldElement> = Vec::new();
        let mut i: usize = 0;
        while i < count
            invariant
                i <= count,
                words.len() == 3 * count,
                start == old(self).read_index,
                self.transcript == old(self).transcript,
                parsed == parse_item(
                    old(self).transcript@,
                    old(self).read_index as int,
                    TAG_X_ELEMENTS,
                ),
                parsed is Ok,
                parsed->Ok_0.0 == words@,
                self.read_index == parsed->Ok_0.1,
                elements.len() == i,
                forall|j: int| 0 <= j < 3 * i ==> (#[trigger] words[j]) < P,
                forall|j: int|
                    0 <= j < 3 * i ==> elements[j / 3].coefficients[j % 3]@ == #[trigger] words[j],
            decreases count - i,
        {
            let w0 = words[3 * i];
            let w1 = words[3 * i + 1];
            let w2 = words[3 * i + 2];
            if w0 >= P || w1 >= P || w2 >= P {
                self.read_index = start;
                assert(!all_canonical(words@));
                return Err(ProofStreamError::FramingMismatch);
            }
            let element = XFieldElement::new([BFieldElement(w0), BFieldElement(w1), BFieldElement(w2)]);
            proof {
                vstd::arithmetic::div_mod::lemma_small_mod(w0 as nat, P as nat);
                vstd::arithmetic::div_mod::lemma_small_mod(w1 as nat, P as nat);
                vstd::arithmetic::div_mod::lemma_small_mod(w2 as nat, P as nat);
            }
            let ghost before = elements@;
            elements.push(element);
            proof {
                assert forall|j: int| 0 <= j < 3 * (i + 1) implies elements[j / 3].coefficients[j
                    % 3]@ == #[trigger] words[j] by {
                    if j < 3 * i {
                        assert(elements[j / 3] == before[j / 3]);
                    } else {
                        assert(j / 3 == i);
                    }
                }
            }
            i = i + 1;
        }
        assert(x_words(elements@) =~= words@);
        proof {
            assert forall|i: int| 0 <= i < elements.len() implies elements[i]@ == words_as_x(
                words@,
            )[i] by {
                assert(elements[(3 * i) / 3].coefficients[(3 * i) % 3]@ == words[3 * i]);
                assert(elements[(3 * i + 1) / 3].coefficients[(3 * i + 1) % 3]@ == words[3 * i
                    + 1]);
                assert(elements[(3 * i + 2) / 3].coefficients[(3 * i + 2) % 3]@ == words[3 * i
                    + 2]);
            }
            assert(x_values(elements@) =~= words_as_x(words@));
            lemma_parsed_item_ends_within(
                old(self).transcript@,
                old(self).read_index as int,
                TAG_X_ELEMENTS,
            );
        }
        Ok(elements)
    }

    /// Appends a digest.
    pub fn push_digest(&mut self, digest: &Digest)
        ensures
            final(self).transcript@ == old(self).transcript@ + digest_item(digest@),
            extends(old(self).transcript@, final(self).transcript@),
            final(self).transcript@ == old(self).transcript@ + item_bytes(
                TAG_DIGEST,
                digest_words(digest@),
            ),
            final(self).read_index == old(self).read_index,
    {
        let mut words: Vec<u64> = Vec::new();
        digest_to_words(digest, &mut words);
        assert(words@ =~= digest_words(digest@));
        self.push_words(TAG_DIGEST, &words);
    }

    /// Reads a digest: an item of four words.
    pub fn pull_digest(&mut self) -> (r: Result<Digest, ProofStreamError>)
        ensures
            match parse_digest(old(self).transcript@, old(self).read_index as int) {
                Ok((digest, next)) => r is Ok && r->Ok_0@ == digest && final(self).read_index
                    == next && next <= final(self).transcript.len(),
                Err(e) => r == Err::<Digest, ProofStreamError>(e),
            },
            final(self).transcript == old(self).transcript,
            match parse_item(old(self).transcript@, old(self).read_index as int, TAG_DIGEST) {
                Ok((words, next)) => if words.len() == 4 {
                    &&& r is Ok
                    &&& r->Ok_0@ == words_bytes(words)
                    &&& final(self).read_index == next
                } else {
                    &&& r == Err::<Digest, ProofStreamError>(ProofStreamError::FramingMismatch)
                    &&& final(self).read_index == old(self).read_index
                },
                Err(e) => r == Err::<Digest, ProofStreamError>(e) && final(self).read_index
                    == old(self).read_index,
            },
    {
        let start = self.read_index;
        let words = match self.pull_words(TAG_DIGEST) {
            Ok(words) => words,
            Err(e) => {
                return Err(e);
            },
        };
        if words.len() != 4 {
            self.read_index = start;
            return Err(ProofStreamError::FramingMismatch);
        }
        assert(words@.subrange(0, 4) =~= words@);
        proof {
            lemma_parsed_item_ends_within(
                old(self).transcript@,
                old(self).read_index as int,
                TAG_DIGEST,
            );
        }
        Ok(words_to_digest(&words, 0))
    }

    /// Appends an authentication path.
    pub fn push_path(&mut self, path: &Vec<Digest>)
        ensures
            final(self).transcript@ == old(self).transcript@ + path_item(digest_views(path@)),
            extends(old(self).transcript@, final(self).transcript@),
            final(self).transcript@ == old(self).transcript@ + item_bytes(
                TAG_PATH,
                path_words(path@),
            ),
            final(self).read_index == old(self).read_index,
    {
        assert(path_words(path@) =~= path_value_words(digest_views(path@)));
        let mut words: Vec<u64> = Vec::new();
        let mut i: usize = 0;
        while i < path.len()
            invariant
                i <= path.len(),
                words.len() == 4 * i,
                forall|j: int|
                    0 <= j < 4 * i ==> words[j] == word_at(path[j / 4]@, 8 * (j % 4)),
            decreases path.len() - i,
        {
            let ghost before = words@;
            digest_to_words(&path[i], &mut words);
            proof {
                assert forall|j: int| 0 <= j < 4 * (i + 1) implies words[j] == word_at(
                    path[j / 4]@,
                    8 * (j % 4),
                ) by {
                    if j < 4 * i {
                        assert(words[j] == before[j]);
                    } else {
                        assert(j / 4 == i);
                        assert(words[j] == digest_words(path[i as int]@)[j - 4 * i]);
                    }
                }
            }
            i = i + 1;
        }
        assert(words@ =~= path_words(path@));
        self.push_words(TAG_PATH, &words);
    }

    /// Reads an authentication path: an item of four words per digest.
    pub fn pull_path(&mut self) -> (r: Result<Vec<Digest>, ProofStreamError>)
        ensures
            match parse_path(old(self).transcript@, old(self).read_index as int) {
                Ok((path, next)) => r is Ok && digest_views(r->Ok_0@) == path && final(self).read_index == next && next <= final(self).transcript.len(),
                Err(e) => r == Err::<Vec<Digest>, ProofStreamError>(e),
            },
            final(self).transcript == old(self).transcript,
            match parse_item(old(self).transcript@, old(self).read_index as int, TAG_PATH) {
                Ok((words, next)) => if words.len() % 4 == 0 {
                    &&& r is Ok
                    &&& r->Ok_0.len() == words.len() / 4
                    &&& forall|k: int|
                        0 <= k < r->Ok_0.len() ==> (#[trigger] r->Ok_0[k])@ == words_bytes(
                            words.subrange(4 * k, 4 * k + 4),
                        )
                    &&& final(self).read_index == next
                } else {
                    &&& r == Err::<Vec<Digest>, ProofStreamError>(
                        ProofStreamError::FramingMismatch,
                    )
                    &&& final(self).read_index == old(self).read_index
                },
                Err(e) => r == Err::<Vec<Digest>, ProofStreamError>(e) && final(self).read_index
                    == old(self).read_index,
            },
    {
        let start = self.read_index;
        let words = match self.pull_words(TAG_PATH) {
            Ok(words) => words,
            Err(e) => {
                return Err(e);
            },
        };
        if words.len() % 4 != 0 {
            self.read_index = start;
            return Err(ProofStreamError::FramingMismatch);
        }
        let count = words.len() / 4;
        let mut path: Vec<Digest> = Vec::new();
        let mut k: usize = 0;
        while k < count
            invariant
                k <= count,
                words.len() == 4 * count,
                path.len() == k,
                forall|j: int|
                    0 <= j < k ==> (#[trigger] path[j])@ == words_bytes(
                        words@.subrange(4 * j, 4 * j + 4),
                    ),
            decreases count - k,
        {
            path.push(words_to_digest(&words, 4 * k));
            k = k + 1;
        }
        proof {
            assert(digest_views(path@) =~= words_as_digests(words@));
            lemma_parsed_item_ends_within(
                old(self).transcript@,
                old(self).read_index as int,
                TAG_PATH,
            );
        }
        Ok(path)
    }
}

} // verus!
