//! What the prover of the low-degree test writes, the verifier accepts.
//!
//! The prover checks the degree of its last codeword before it writes it;
//! every other check of the verifier holds of what the prover wrote: each
//! item is read as it was written, each challenge is drawn from the same
//! bytes, each value is under its root, and each fold is the value that the
//! next codeword holds.

use crate::shared_math::b_field_element::has_inverse;
use crate::shared_math::b_field_element::inverse_of;
use crate::shared_math::b_field_element::is_power_of_two;
use crate::shared_math::b_field_element::lemma_pow2_64;
use crate::shared_math::b_field_element::mul_mod;
use crate::shared_math::b_field_element::P;
use crate::shared_math::b_field_element::pow2;
use crate::shared_math::fri_domain::domain_point;
use crate::shared_math::x_field_element::XValue;
use crate::shared_math::xfri::answer_step;
use crate::shared_math::xfri::answers_spec;
use crate::shared_math::xfri::checks_spec;
use crate::shared_math::xfri::commit_step;
use crate::shared_math::xfri::commitments_spec;
use crate::shared_math::xfri::CommitmentsView;
use crate::shared_math::xfri::commits_spec;
use crate::shared_math::xfri::CommitView;
use crate::shared_math::xfri::first_commit;
use crate::shared_math::xfri::first_commitments;
use crate::shared_math::xfri::first_fold;
use crate::shared_math::xfri::fold_points_invertible;
use crate::shared_math::xfri::fold_step;
use crate::shared_math::xfri::fold_value;
use crate::shared_math::xfri::folded_codeword;
use crate::shared_math::xfri::FoldView;
use crate::shared_math::xfri::Fri;
use crate::shared_math::xfri::FriError;
use crate::shared_math::xfri::HALF;
use crate::shared_math::xfri::LAST_CODEWORD_LENGTH;
use crate::shared_math::xfri::last_is_low_degree;
use crate::shared_math::xfri::prove_spec;
use crate::shared_math::xfri::queries_spec;
use crate::shared_math::xfri::query_view;
use crate::shared_math::xfri::QueryView;
use crate::shared_math::xfri::round_spec;
use crate::shared_math::xfri::rounds_of;
use crate::shared_math::xfri::rounds_spec;
use crate::shared_math::xfri::RoundView;
use crate::shared_math::xfri::verify_spec;
use crate::shared_math::xfri::x_bytes;
use crate::shared_math::xfri::x_leaves;
use crate::util_types::merkle_tree::lemma_path_of_leads_to_root;
use crate::util_types::merkle_tree::lemma_root_and_path_are_sized;
use crate::util_types::merkle_tree::levels_of;
use crate::util_types::merkle_tree::levels_sized;
use crate::util_types::merkle_tree::path_of;
use crate::util_types::merkle_tree::root_of;
use crate::util_types::proof_stream::digest_item;
use crate::util_types::proof_stream::extends;
use crate::util_types::proof_stream::lemma_extends_by;
use crate::util_types::proof_stream::lemma_extends_twice;
use crate::util_types::proof_stream::lemma_parse_digest_at;
use crate::util_types::proof_stream::lemma_parse_path_at;
use crate::util_types::proof_stream::lemma_parse_x_elements_at;
use crate::util_types::proof_stream::lemma_stands_at_end;
use crate::util_types::proof_stream::lemma_stands_in_parts;
use crate::util_types::proof_stream::parse_path;
use crate::util_types::proof_stream::parse_x_elements;
use crate::util_types::proof_stream::path_item;
use crate::util_types::proof_stream::ProofStreamError;
use crate::util_types::proof_stream::stands_at;
use crate::util_types::proof_stream::x_canonical;
use crate::util_types::proof_stream::x_elements_item;
use crate::utils::blake3_hash;
use crate::utils::sampled_index;
use crate::utils::sampled_x;
use crate::utils::seeded;
use crate::utils::word_of;
use vstd::arithmetic::div_mod::lemma_mod_add_multiples_vanish;
use vstd::arithmetic::div_mod::lemma_mod_pos_bound;
use vstd::arithmetic::div_mod::lemma_small_mod;
use vstd::prelude::*;

verus! {

/// The codeword of a round: one of those committed to, or, after the last
/// round, the codeword at hand.
pub open spec fn codeword_at(state: CommitView, round: int) -> Seq<XValue> {
    if round < state.codewords.len() {
        state.codewords[round]
    } else {
        state.current
    }
}

/// Whether what the verifier has read of round `k` is what the prover
/// committed to: the root is that of the codeword of the round, and the
/// codeword of the next round is its fold with the challenge and over the
/// domain that the verifier has.
pub open spec fn round_agrees(read: CommitmentsView, state: CommitView, k: int) -> bool {
    let codeword = state.codewords[k];
    &&& is_power_of_two(codeword.len())
    &&& codeword.len() >= 2
    &&& read.roots[k] == root_of(x_leaves(codeword))
    &&& folded_codeword(codeword, read.alphas[k], read.offsets[k], read.omegas[k]) == Some(
        codeword_at(state, k + 1),
    )
}

/// Whether what the verifier has read of the commitments is what the
/// prover committed to, up to the place where both stand.
pub open spec fn agree(read: CommitmentsView, state: CommitView) -> bool {
    &&& read.roots.len() == state.codewords.len()
    &&& read.alphas.len() == state.codewords.len()
    &&& read.offsets.len() == state.codewords.len()
    &&& read.omegas.len() == state.codewords.len()
    &&& read.offset == state.offset
    &&& read.omega == state.omega
    &&& read.length == state.current.len()
    &&& read.next == state.transcript.len()
    &&& forall|k: int| 0 <= k < state.codewords.len() ==> #[trigger] round_agrees(read, state, k)
}

/// Whether a codeword has values in the canonical range, and a length
/// that a machine word holds.
pub open spec fn codeword_fits(codeword: Seq<XValue>) -> bool {
    &&& x_canonical(codeword)
    &&& codeword.len() < pow2(64)
}

/// Whether all codewords of the prover have values in the canonical range
/// and lengths that a machine word holds.
pub open spec fn codewords_fit(state: CommitView) -> bool {
    &&& codeword_fits(state.current)
    &&& forall|k: int| 0 <= k < state.codewords.len() ==> codeword_fits(#[trigger] state.codewords[k])
}

/// Whether the nodes of the trees over all codewords that the prover
/// committed to have the length of a digest.
pub open spec fn trees_sized(codewords: Seq<Seq<XValue>>) -> bool {
    forall|k: int|
        0 <= k < codewords.len() ==> levels_sized(levels_of(x_leaves(#[trigger] codewords[k])))
}

/// The values of a folded codeword are in the canonical range, and there
/// are half as many of them as the codeword has.
pub proof fn lemma_fold_is_canonical(codeword: Seq<XValue>, alpha: XValue, offset: int, omega: int)
    requires
        folded_codeword(codeword, alpha, offset, omega) is Some,
    ensures
        x_canonical(folded_codeword(codeword, alpha, offset, omega)->Some_0),
        2 * folded_codeword(codeword, alpha, offset, omega)->Some_0.len() == codeword.len(),
{
}

/// The commitments of further rounds leave what was committed to as it
/// is, add one codeword per round, and only add to the transcript.
pub proof fn lemma_commits_grow(remaining: nat, state: CommitView)
    requires
        commits_spec(remaining, state) is Ok,
    ensures
        ({
            let done = commits_spec(remaining, state)->Ok_0;
            &&& extends(state.transcript, done.transcript)
            &&& done.codewords.len() == state.codewords.len() + remaining
            &&& forall|k: int|
                0 <= k < state.codewords.len() ==> #[trigger] done.codewords[k]
                    == state.codewords[k]
            &&& remaining > 0 ==> done.codewords[state.codewords.len() as int] == state.current
            &&& remaining == 0 ==> done == state
            &&& codewords_fit(state) ==> codewords_fit(done)
        }),
    decreases remaining,
{
    if remaining == 0 {
        lemma_extends_by(state.transcript, Seq::<u8>::empty());
        assert(state.transcript + Seq::<u8>::empty() =~= state.transcript);
    } else {
        let after = commit_step(state)->Ok_0;
        let done = commits_spec(remaining, state)->Ok_0;
        assert(done == commits_spec((remaining - 1) as nat, after)->Ok_0);
        lemma_commits_grow((remaining - 1) as nat, after);
        lemma_extends_by(state.transcript, digest_item(root_of(x_leaves(state.current))));
        lemma_extends_twice(state.transcript, after.transcript, done.transcript);
        assert(after.codewords[state.codewords.len() as int] == state.current);
        assert forall|k: int| 0 <= k < state.codewords.len() implies #[trigger] done.codewords[k]
            == state.codewords[k] by {
            assert(after.codewords[k] == state.codewords[k]);
        }
        if codewords_fit(state) {
            lemma_fold_is_canonical(
                state.current,
                sampled_x(blake3_hash(after.transcript), 0),
                state.offset,
                state.omega,
            );
            assert(codewords_fit(after)) by {
                assert forall|k: int| 0 <= k < after.codewords.len() implies codeword_fits(
                    #[trigger] after.codewords[k],
                ) by {
                    if k < state.codewords.len() {
                        assert(after.codewords[k] == state.codewords[k]);
                    }
                }
            }
        }
    }
}

/// The verifier reads the commitments that the prover wrote.
pub proof fn lemma_commitments_read(
    bytes: Seq<u8>,
    remaining: nat,
    state: CommitView,
    so_far: CommitmentsView,
)
    requires
        commits_spec(remaining, state) is Ok,
        agree(so_far, state),
        extends(commits_spec(remaining, state)->Ok_0.transcript, bytes),
        trees_sized(commits_spec(remaining, state)->Ok_0.codewords),
        codewords_fit(state),
    ensures
        commitments_spec(bytes, remaining, so_far) is Ok,
        agree(commitments_spec(bytes, remaining, so_far)->Ok_0, commits_spec(remaining, state)->Ok_0),
    decreases remaining,
{
    let done = commits_spec(remaining, state)->Ok_0;
    lemma_commits_grow(remaining, state);
    if remaining > 0 {
        let after = commit_step(state)->Ok_0;
        let count = state.codewords.len() as int;
        let leaves = x_leaves(state.current);
        let root = root_of(leaves);
        lemma_commits_grow((remaining - 1) as nat, after);
        lemma_extends_twice(after.transcript, done.transcript, bytes);
        lemma_stands_at_end(state.transcript, digest_item(root), bytes);
        assert(done.codewords[count] == state.current);
        assert(levels_sized(levels_of(x_leaves(done.codewords[count]))));
        assert(codeword_fits(state.current));
        lemma_root_and_path_are_sized(leaves, 0);
        lemma_parse_digest_at(bytes, so_far.next, root);
        let next = so_far.next + 41;
        assert(next == after.transcript.len());
        assert(bytes.subrange(0, next) == after.transcript);
        let alpha = sampled_x(blake3_hash(after.transcript), 0);
        let grown = CommitmentsView {
            roots: so_far.roots.push(root),
            alphas: so_far.alphas.push(alpha),
            offsets: so_far.offsets.push(so_far.offset),
            omegas: so_far.omegas.push(so_far.omega),
            offset: mul_mod(so_far.offset, so_far.offset),
            omega: mul_mod(so_far.omega, so_far.omega),
            length: so_far.length / 2,
            next,
        };
        assert(commitments_spec(bytes, remaining, so_far) == commitments_spec(
            bytes,
            (remaining - 1) as nat,
            grown,
        ));
        lemma_fold_is_canonical(state.current, alpha, state.offset, state.omega);
        assert(codewords_fit(after)) by {
            assert forall|k: int| 0 <= k < after.codewords.len() implies codeword_fits(
                #[trigger] after.codewords[k],
            ) by {
                if k < count {
                    assert(after.codewords[k] == state.codewords[k]);
                }
            }
        }
        assert(agree(grown, after)) by {
            assert forall|k: int| 0 <= k < after.codewords.len() implies #[trigger] round_agrees(
                grown,
                after,
                k,
            ) by {
                if k < count {
                    assert(round_agrees(so_far, state, k));
                    assert(after.codewords[k] == state.codewords[k]);
                    assert(codeword_at(after, k + 1) == codeword_at(state, k + 1));
                } else {
                    assert(after.codewords[k] == state.current);
                    assert(codeword_at(after, k + 1) == after.current);
                }
            }
        }
        lemma_commitments_read(bytes, (remaining - 1) as nat, after, grown);
    }
}

/// The bytes that the prover writes in answer for one place in the round
/// of a codeword: the two values that the place belongs to, and the path
/// of each.
pub open spec fn answer_of(codeword: Seq<XValue>, place: int) -> Seq<u8> {
    let half = codeword.len() / 2;
    let a = place % (half as int);
    let b = a + half;
    let leaves = x_leaves(codeword);
    x_elements_item(seq![codeword[a], codeword[b]]) + path_item(path_of(leaves, a)) + path_item(
        path_of(leaves, b),
    )
}

/// What the verifier makes of the answer for one place in the round of a
/// codeword, where the answer ends at the place `next` of the transcript.
pub open spec fn round_view_of(
    codeword: Seq<XValue>,
    alpha: XValue,
    offset: int,
    omega: int,
    place: int,
    next: int,
) -> RoundView {
    let half = codeword.len() / 2;
    let a = place % (half as int);
    let b = a + half;
    RoundView {
        first: codeword[a],
        second: codeword[b],
        a,
        b,
        folded: fold_value(
            codeword[a],
            codeword[b],
            alpha,
            HALF as int,
            inverse_of(domain_point(offset, omega, a as nat)),
        ),
        next,
    }
}

/// The verifier accepts the answer for one place in one round: it reads
/// the two values and their paths, finds both under the root, and folds
/// them.
pub proof fn lemma_round_accepted(
    bytes: Seq<u8>,
    at: int,
    codeword: Seq<XValue>,
    alpha: XValue,
    offset: int,
    omega: int,
    place: int,
)
    requires
        is_power_of_two(codeword.len()),
        2 <= codeword.len() < pow2(64),
        x_canonical(codeword),
        levels_sized(levels_of(x_leaves(codeword))),
        fold_points_invertible(offset, omega, codeword.len() / 2),
        0 <= place < codeword.len(),
        stands_at(bytes, at, answer_of(codeword, place)),
    ensures
        round_spec(
            bytes,
            at,
            root_of(x_leaves(codeword)),
            alpha,
            offset,
            omega,
            place,
            codeword.len() as int,
        ) == Ok::<RoundView, FriError>(
            round_view_of(
                codeword,
                alpha,
                offset,
                omega,
                place,
                at + answer_of(codeword, place).len(),
            ),
        ),
{
    let size = codeword.len() as int;
    let half = size / 2;
    let a = place % half;
    let b = a + half;
    let leaves = x_leaves(codeword);
    let pair = seq![codeword[a], codeword[b]];
    let path_a = path_of(leaves, a);
    let path_b = path_of(leaves, b);
    let first = x_elements_item(pair);
    let second = path_item(path_a);
    let third = path_item(path_b);
    assert(0 <= a < half && b < size);
    assert(x_canonical(pair)) by {
        assert forall|i: int| 0 <= i < pair.len() implies 0 <= (#[trigger] pair[i]).c0 < P && 0
            <= pair[i].c1 < P && 0 <= pair[i].c2 < P by {
            if i == 0 {
                assert(pair[i] == codeword[a]);
            } else {
                assert(pair[i] == codeword[b]);
            }
        }
    }
    lemma_stands_in_parts(bytes, at, first + second, third);
    lemma_stands_in_parts(bytes, at, first, second);
    lemma_parse_x_elements_at(bytes, at, pair);
    lemma_root_and_path_are_sized(leaves, a);
    lemma_root_and_path_are_sized(leaves, b);
    lemma_path_of_leads_to_root(leaves, a);
    lemma_path_of_leads_to_root(leaves, b);
    let at1 = at + first.len();
    let at2 = at1 + second.len();
    lemma_parse_path_at(bytes, at1, path_a);
    lemma_parse_path_at(bytes, at2, path_b);
    assert(leaves[a] == blake3_hash(x_bytes(pair[0])));
    assert(leaves[b] == blake3_hash(x_bytes(pair[1])));
    assert(has_inverse(domain_point(offset, omega, a as nat)));
    assert(parse_x_elements(bytes, at) == Ok::<(Seq<XValue>, int), ProofStreamError>(
        (pair, at1),
    ));
    assert(parse_path(bytes, at1) == Ok::<(Seq<Seq<u8>>, int), ProofStreamError>(
        (path_a, at2),
    ));
    assert(parse_path(bytes, at2) == Ok::<(Seq<Seq<u8>>, int), ProofStreamError>(
        (path_b, at2 + third.len()),
    ));
}

/// The places that were asked for, each with the value that the codeword
/// has there.
pub open spec fn asked(codeword: Seq<XValue>, top: Seq<int>) -> Seq<(int, XValue)> {
    Seq::new(top.len(), |i: int| (top[i], codeword[top[i]]))
}

/// Whether each of the places is a place of a codeword of `n` values.
pub open spec fn places_within(top: Seq<int>, n: int) -> bool {
    forall|i: int| 0 <= i < top.len() ==> 0 <= #[trigger] top[i] < n
}

/// Whether what the verifier has read of the rounds is what the prover
/// committed to, wherever the verifier stands in the transcript.
pub open spec fn rounds_agree(read: CommitmentsView, done: CommitView) -> bool {
    &&& read.roots.len() == done.codewords.len()
    &&& read.alphas.len() == done.codewords.len()
    &&& read.offsets.len() == done.codewords.len()
    &&& read.omegas.len() == done.codewords.len()
    &&& forall|k: int| 0 <= k < done.codewords.len() ==> #[trigger] round_agrees(read, done, k)
}

/// Where the verifier stands at a place before a round, where the prover
/// stands in answering for it: the codeword of the round has to hold, at
/// the place, the value that it does hold there.
pub open spec fn fold_view_of(done: CommitView, round: nat, state: QueryView) -> FoldView {
    FoldView {
        place: state.place,
        size: codeword_at(done, round as int).len() as int,
        expected: if round == 0 {
            None
        } else {
            Some(codeword_at(done, round as int)[state.place])
        },
        top: asked(done.codewords[0], state.top),
        next: state.transcript.len() as int,
    }
}

/// The answers for one place only add to the transcript.
pub proof fn lemma_answers_grow(codewords: Seq<Seq<XValue>>, round: nat, state: QueryView)
    ensures
        extends(state.transcript, answers_spec(codewords, round, state).transcript),
    decreases codewords.len() - round,
{
    if round >= codewords.len() {
        lemma_extends_by(state.transcript, Seq::<u8>::empty());
        assert(state.transcript + Seq::<u8>::empty() =~= state.transcript);
    } else {
        let after = answer_step(codewords, round as int, state);
        lemma_answers_grow(codewords, round + 1, after);
        let answer = answer_of(codewords[round as int], state.place);
        assert(after.transcript =~= state.transcript + answer);
        lemma_extends_by(state.transcript, answer);
        lemma_extends_twice(
            state.transcript,
            after.transcript,
            answers_spec(codewords, round, state).transcript,
        );
    }
}

/// The answers to the checks only add to the transcript.
pub proof fn lemma_queries_grow(
    codewords: Seq<Seq<XValue>>,
    n0: int,
    seed: Seq<u8>,
    check: nat,
    checks: nat,
    top: Seq<int>,
    transcript: Seq<u8>,
)
    ensures
        extends(transcript, queries_spec(codewords, n0, seed, check, checks, top, transcript).1),
    decreases checks - check,
{
    if check >= checks {
        lemma_extends_by(transcript, Seq::<u8>::empty());
        assert(transcript + Seq::<u8>::empty() =~= transcript);
    } else {
        let place = sampled_index(seed, check as u64, n0 as nat);
        if codewords.len() == 0 {
            lemma_queries_grow(codewords, n0, seed, check + 1, checks, top.push(place), transcript);
        } else {
            let done = answers_spec(codewords, 0, query_view(place, top, transcript));
            lemma_answers_grow(codewords, 0, query_view(place, top, transcript));
            lemma_queries_grow(codewords, n0, seed, check + 1, checks, done.top, done.transcript);
            lemma_extends_twice(
                transcript,
                done.transcript,
                queries_spec(codewords, n0, seed, check, checks, top, transcript).1,
            );
        }
    }
}

/// A place of a codeword is the first or the second place of the pair
/// that it belongs to.
pub proof fn lemma_place_in_pair(place: int, half: int)
    requires
        half > 0,
        0 <= place < 2 * half,
    ensures
        0 <= place % half < half,
        place == place % half || place == place % half + half,
{
    if place < half {
        lemma_small_mod(place as nat, half as nat);
    } else {
        lemma_small_mod((place - half) as nat, half as nat);
        lemma_mod_add_multiples_vanish(place - half, half);
    }
}

/// The verifier accepts the answers for one place from a round on: in
/// each round the codeword holds the fold of the round before, down to
/// the last codeword.
pub proof fn lemma_place_accepted(
    bytes: Seq<u8>,
    read: CommitmentsView,
    done: CommitView,
    round: nat,
    state: QueryView,
)
    requires
        0 < done.codewords.len(),
        round <= done.codewords.len(),
        rounds_agree(read, done),
        codewords_fit(done),
        trees_sized(done.codewords),
        0 <= state.place < codeword_at(done, round as int).len(),
        places_within(state.top, done.codewords[0].len() as int),
        extends(answers_spec(done.codewords, round, state).transcript, bytes),
    ensures
        rounds_spec(
            bytes,
            read,
            done.current,
            done.codewords[0].len() as int,
            round,
            fold_view_of(done, round, state),
        ) == Ok::<(Seq<(int, XValue)>, int), FriError>(
            (
                asked(done.codewords[0], answers_spec(done.codewords, round, state).top),
                answers_spec(done.codewords, round, state).transcript.len() as int,
            ),
        ),
        places_within(
            answers_spec(done.codewords, round, state).top,
            done.codewords[0].len() as int,
        ),
    decreases done.codewords.len() - round,
{
    let n0 = done.codewords[0].len() as int;
    let before = fold_view_of(done, round, state);
    if round < done.codewords.len() {
        let codeword = done.codewords[round as int];
        let size = codeword.len() as int;
        let half = size / 2;
        let place = state.place;
        let a = place % half;
        let b = a + half;
        let alpha = read.alphas[round as int];
        let offset = read.offsets[round as int];
        let omega = read.omegas[round as int];
        let answer = answer_of(codeword, place);
        let after = answer_step(done.codewords, round as int, state);
        let all = answers_spec(done.codewords, round, state);
        assert(round_agrees(read, done, round as int));
        assert(codeword_fits(codeword));
        assert(levels_sized(levels_of(x_leaves(codeword))));
        let next_codeword = codeword_at(done, round as int + 1);
        assert(folded_codeword(codeword, alpha, offset, omega) == Some(next_codeword));
        assert(size == 2 * half);
        lemma_place_in_pair(place, half);
        assert(after.transcript =~= state.transcript + answer);
        assert(all == answers_spec(done.codewords, round + 1, after));
        lemma_answers_grow(done.codewords, round + 1, after);
        lemma_extends_twice(after.transcript, all.transcript, bytes);
        lemma_stands_at_end(state.transcript, answer, bytes);
        lemma_round_accepted(
            bytes,
            state.transcript.len() as int,
            codeword,
            alpha,
            offset,
            omega,
            place,
        );
        let outcome = round_view_of(
            codeword,
            alpha,
            offset,
            omega,
            place,
            (state.transcript.len() + answer.len()) as int,
        );
        let held = if place == outcome.a {
            outcome.first
        } else {
            outcome.second
        };
        assert(held == codeword[place]);
        assert(next_codeword[a] == outcome.folded);
        assert(next_codeword.len() == half);
        let grown = fold_view_of(done, round + 1, after);
        assert(asked(done.codewords[0], after.top) =~= if round == 0 {
            before.top.push((a, codeword[a])).push((b, codeword[b]))
        } else {
            before.top
        });
        assert(fold_step(bytes, read, n0, round as int, before) == Ok::<FoldView, FriError>(
            grown,
        ));
        assert(places_within(after.top, n0)) by {
            assert forall|i: int| 0 <= i < after.top.len() implies 0 <= #[trigger] after.top[i]
                < n0 by {
                if i < state.top.len() {
                    assert(after.top[i] == state.top[i]);
                }
            }
        }
        lemma_place_accepted(bytes, read, done, round + 1, after);
    }
}

/// The verifier accepts the answers to the checks from a check on, and the
/// points that it gathers are the values of the codeword at the places
/// that the prover was asked for.
pub proof fn lemma_checks_accepted(
    bytes: Seq<u8>,
    read: CommitmentsView,
    done: CommitView,
    codeword: Seq<XValue>,
    seed: Seq<u8>,
    check: nat,
    checks: nat,
    top: Seq<int>,
    transcript: Seq<u8>,
)
    requires
        codeword.len() > 0,
        codeword_at(done, 0) == codeword,
        rounds_agree(read, done),
        codewords_fit(done),
        trees_sized(done.codewords),
        places_within(top, codeword.len() as int),
        extends(
            queries_spec(
                done.codewords,
                codeword.len() as int,
                seed,
                check,
                checks,
                top,
                transcript,
            ).1,
            bytes,
        ),
    ensures
        ({
            let written = queries_spec(
                done.codewords,
                codeword.len() as int,
                seed,
                check,
                checks,
                top,
                transcript,
            );
            &&& checks_spec(
                bytes,
                transcript.len() as int,
                read,
                done.current,
                codeword.len() as int,
                seed,
                check,
                checks,
                asked(codeword, top),
            ) == Ok::<(Seq<(int, XValue)>, int), FriError>(
                (asked(codeword, written.0), written.1.len() as int),
            )
            &&& places_within(written.0, codeword.len() as int)
        }),
    decreases checks - check,
{
    let n0 = codeword.len() as int;
    if check < checks {
        let place = sampled_index(seed, check as u64, n0 as nat);
        assert(0 <= place < n0) by {
            lemma_mod_pos_bound(word_of(seeded(seed, check as u64), 0) as int, n0);
        }
        let written = queries_spec(done.codewords, n0, seed, check, checks, top, transcript);
        if done.codewords.len() == 0 {
            let grown = top.push(place);
            assert(asked(codeword, grown) =~= asked(codeword, top).push((place, codeword[place])));
            assert(places_within(grown, n0)) by {
                assert forall|i: int| 0 <= i < grown.len() implies 0 <= #[trigger] grown[i]
                    < n0 by {
                    if i < top.len() {
                        assert(grown[i] == top[i]);
                    }
                }
            }
            lemma_checks_accepted(
                bytes,
                read,
                done,
                codeword,
                seed,
                check + 1,
                checks,
                grown,
                transcript,
            );
        } else {
            let state = query_view(place, top, transcript);
            let answers = answers_spec(done.codewords, 0, state);
            lemma_queries_grow(
                done.codewords,
                n0,
                seed,
                check + 1,
                checks,
                answers.top,
                answers.transcript,
            );
            lemma_extends_twice(answers.transcript, written.1, bytes);
            lemma_place_accepted(bytes, read, done, 0, state);
            assert(fold_view_of(done, 0, state) == first_fold(
                place,
                n0,
                asked(codeword, top),
                transcript.len() as int,
            ));
            lemma_checks_accepted(
                bytes,
                read,
                done,
                codeword,
                seed,
                check + 1,
                checks,
                answers.top,
                answers.transcript,
            );
        }
    }
}

/// The codewords that the prover commits to on its way to a proof.
pub open spec fn committed_codewords(fri: Fri, codeword: Seq<XValue>, start: Seq<u8>) -> Seq<
    Seq<XValue>,
> {
    commits_spec(rounds_of(fri.domain.length as nat), first_commit(fri, codeword, start))->Ok_0.codewords
}

/// The verifier accepts what the prover wrote, whatever follows it in the
/// transcript: it reads the proof to its end, and the points that it
/// vouches for are the values of the codeword at the places that the
/// prover was asked for.
pub proof fn lemma_proof_is_accepted(
    fri: Fri,
    codeword: Seq<XValue>,
    start: Seq<u8>,
    bytes: Seq<u8>,
)
    requires
        prove_spec(fri, codeword, start) is Ok,
        x_canonical(codeword),
        trees_sized(committed_codewords(fri, codeword, start)),
        extends(prove_spec(fri, codeword, start)->Ok_0.1, bytes),
    ensures
        ({
            let (top, transcript) = prove_spec(fri, codeword, start)->Ok_0;
            &&& verify_spec(fri, bytes, start.len() as int) == Ok::<
                (Seq<(int, XValue)>, int),
                FriError,
            >((asked(codeword, top), transcript.len() as int))
            &&& places_within(top, fri.domain.length as int)
            &&& extends(start, transcript)
        }),
{
    let n0 = fri.domain.length as int;
    let rounds = rounds_of(n0 as nat);
    let first = first_commit(fri, codeword, start);
    let done = commits_spec(rounds, first)->Ok_0;
    let begun = first_commitments(fri, start.len() as int);
    let (top, transcript) = prove_spec(fri, codeword, start)->Ok_0;
    let last = done.current;
    let with_last = done.transcript + x_elements_item(last);
    let seed = blake3_hash(with_last);
    let checks = fri.colinearity_checks_count as nat;
    lemma_pow2_64();
    assert(codewords_fit(first));
    assert(agree(begun, first));
    lemma_commits_grow(rounds, first);
    lemma_queries_grow(done.codewords, n0, seed, 0, checks, Seq::<int>::empty(), with_last);
    lemma_extends_by(done.transcript, x_elements_item(last));
    lemma_extends_twice(with_last, transcript, bytes);
    lemma_extends_twice(done.transcript, with_last, bytes);
    lemma_extends_twice(start, done.transcript, with_last);
    lemma_extends_twice(start, with_last, transcript);
    lemma_commitments_read(bytes, rounds, first, begun);
    let read = commitments_spec(bytes, rounds, begun)->Ok_0;
    assert(agree(read, done));
    lemma_stands_at_end(done.transcript, x_elements_item(last), bytes);
    assert(last_is_low_degree(fri, last, done.offset, done.omega));
    assert(last.len() <= LAST_CODEWORD_LENGTH);
    lemma_parse_x_elements_at(bytes, read.next, last);
    let next = read.next + 9 + 24 * last.len();
    assert(next == with_last.len());
    assert(bytes.subrange(0, next) == with_last);
    assert(last.len() > 0) by {
        if done.codewords.len() > 0 {
            let k = done.codewords.len() - 1;
            assert(round_agrees(read, done, k));
            assert(codeword_at(done, k + 1) == last);
        }
    }
    let unplaced = CommitmentsView { next: 0, ..read };
    assert(rounds_agree(unplaced, done)) by {
        assert forall|k: int| 0 <= k < done.codewords.len() implies #[trigger] round_agrees(
            unplaced,
            done,
            k,
        ) by {
            assert(round_agrees(read, done, k));
        }
    }
    assert(codeword_at(done, 0) == codeword);
    assert(asked(codeword, Seq::<int>::empty()) =~= Seq::<(int, XValue)>::empty());
    lemma_checks_accepted(
        bytes,
        unplaced,
        done,
        codeword,
        seed,
        0,
        checks,
        Seq::<int>::empty(),
        with_last,
    );
}

/// Whether the verifier, started at the place `at`, accepts the proof
/// that ends a transcript, whatever follows the proof: it reads the proof
/// to its end and vouches for the given points.
pub open spec fn accepted_after(
    fri: Fri,
    at: int,
    transcript: Seq<u8>,
    points: Seq<(int, XValue)>,
) -> bool {
    forall|bytes: Seq<u8>|
        extends(transcript, bytes) ==> #[trigger] verify_spec(fri, bytes, at) == Ok::<
            (Seq<(int, XValue)>, int),
            FriError,
        >((points, transcript.len() as int))
}

/// The verifier accepts what the prover wrote, whatever follows it.
pub proof fn lemma_proof_is_accepted_after(fri: Fri, codeword: Seq<XValue>, start: Seq<u8>)
    requires
        prove_spec(fri, codeword, start) is Ok,
        x_canonical(codeword),
        trees_sized(committed_codewords(fri, codeword, start)),
    ensures
        accepted_after(
            fri,
            start.len() as int,
            prove_spec(fri, codeword, start)->Ok_0.1,
            asked(codeword, prove_spec(fri, codeword, start)->Ok_0.0),
        ),
        places_within(prove_spec(fri, codeword, start)->Ok_0.0, fri.domain.length as int),
{
    let (top, transcript) = prove_spec(fri, codeword, start)->Ok_0;
    lemma_extends_by(transcript, Seq::<u8>::empty());
    lemma_proof_is_accepted(fri, codeword, start, transcript + Seq::<u8>::empty());
    assert forall|bytes: Seq<u8>| extends(transcript, bytes) implies #[trigger] verify_spec(
        fri,
        bytes,
        start.len() as int,
    ) == Ok::<(Seq<(int, XValue)>, int), FriError>(
        (asked(codeword, top), transcript.len() as int),
    ) by {
        lemma_proof_is_accepted(fri, codeword, start, bytes);
    }
}

} // verus!
