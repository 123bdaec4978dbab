//! What the prover of the engine writes, the verifier accepts.
//!
//! The verifier reads the root, draws the same weights, has the low-degree
//! test accept its part of the proof, and finds at each place that the test
//! asked for the rows that the prover opened: they are under the root, and
//! the weighted sum of their quotients is the value that the test vouches
//! for.

use crate::shared_math::b_field_element::is_power_of_two;
use crate::shared_math::b_field_element::lemma_pow2_64;
use crate::shared_math::b_field_element::P;
use crate::shared_math::rescue_prime_stark::BoundaryConstraint;
use crate::shared_math::rescue_prime_stark::CONSTANTS_WIDTH;
use crate::shared_math::rescue_prime_stark::TRACE_HEIGHT;
use crate::shared_math::rescue_prime_stark::TRACE_WIDTH;
use crate::shared_math::stark::boundary_fits;
use crate::shared_math::stark::combination_spec;
use crate::shared_math::stark::combination_value;
use crate::shared_math::stark::constant_codewords_spec;
use crate::shared_math::stark::has_quotients_at;
use crate::shared_math::stark::next_place_spec;
use crate::shared_math::stark::openings_spec;
use crate::shared_math::stark::point_step;
use crate::shared_math::stark::points_spec;
use crate::shared_math::stark::row_leaves;
use crate::shared_math::stark::row_of;
use crate::shared_math::stark::sampled_weights;
use crate::shared_math::stark::shaped_values;
use crate::shared_math::stark::Stark;
use crate::shared_math::stark::StarkError;
use crate::shared_math::stark::table::omicron_of;
use crate::shared_math::stark::value_bytes;
use crate::shared_math::stark::verify_spec;
use crate::shared_math::x_field_element::XValue;
use crate::shared_math::xfri::completeness::accepted_after;
use crate::shared_math::xfri::completeness::asked;
use crate::shared_math::xfri::completeness::places_within;
use crate::shared_math::xfri::FriError;
use crate::shared_math::xfri::verify_spec as fri_verify_spec;
use crate::util_types::merkle_tree::lemma_path_of_leads_to_root;
use crate::util_types::merkle_tree::lemma_root_and_path_are_sized;
use crate::util_types::merkle_tree::levels_of;
use crate::util_types::merkle_tree::levels_sized;
use crate::util_types::merkle_tree::path_of;
use crate::util_types::merkle_tree::root_of;
use crate::util_types::proof_stream::canonical;
use crate::util_types::proof_stream::digest_item;
use crate::util_types::proof_stream::elements_item;
use crate::util_types::proof_stream::extends;
use crate::util_types::proof_stream::lemma_extends_by;
use crate::util_types::proof_stream::lemma_extends_twice;
use crate::util_types::proof_stream::lemma_parse_digest_at;
use crate::util_types::proof_stream::lemma_parse_elements_at;
use crate::util_types::proof_stream::lemma_parse_path_at;
use crate::util_types::proof_stream::lemma_stands_at_end;
use crate::util_types::proof_stream::lemma_stands_in_parts;
use crate::util_types::proof_stream::path_item;
use crate::util_types::proof_stream::stands_at;
use crate::utils::blake3_hash;
use vstd::arithmetic::div_mod::lemma_fundamental_div_mod;
use vstd::prelude::*;

verus! {

/// Whether the codewords are those of the columns of a trace over a domain
/// of `n` points, with values in the canonical range.
pub open spec fn codewords_fit(codewords: Seq<Seq<int>>, n: nat) -> bool {
    &&& codewords.len() == TRACE_WIDTH
    &&& forall|c: int|
        0 <= c < codewords.len() ==> (#[trigger] codewords[c]).len() == n && canonical(
            codewords[c],
        )
}

/// The bytes that open one place: the row of the codewords at the place
/// and the row after it, each followed by its path.
pub open spec fn opening_of(
    stark: Stark,
    codewords: Seq<Seq<int>>,
    leaves: Seq<Seq<u8>>,
    place: int,
) -> Seq<u8> {
    let after = next_place_spec(stark.fri.domain.length as int, place);
    elements_item(row_of(codewords, place)) + path_item(path_of(leaves, place)) + elements_item(
        row_of(codewords, after),
    ) + path_item(path_of(leaves, after))
}

/// The openings only add to the transcript.
pub proof fn lemma_openings_grow(
    stark: Stark,
    codewords: Seq<Seq<int>>,
    leaves: Seq<Seq<u8>>,
    top: Seq<int>,
    k: nat,
    transcript: Seq<u8>,
)
    ensures
        extends(transcript, openings_spec(stark, codewords, leaves, top, k, transcript)),
    decreases top.len() - k,
{
    if k >= top.len() {
        lemma_extends_by(transcript, Seq::<u8>::empty());
        assert(transcript + Seq::<u8>::empty() =~= transcript);
    } else {
        let opening = opening_of(stark, codewords, leaves, top[k as int]);
        let grown = transcript + opening;
        let place = top[k as int];
        let after = next_place_spec(stark.fri.domain.length as int, place);
        assert(grown =~= transcript + elements_item(row_of(codewords, place)) + path_item(
            path_of(leaves, place),
        ) + elements_item(row_of(codewords, after)) + path_item(path_of(leaves, after)));
        lemma_openings_grow(stark, codewords, leaves, top, k + 1, grown);
        lemma_extends_by(transcript, opening);
        lemma_extends_twice(
            transcript,
            grown,
            openings_spec(stark, codewords, leaves, top, k, transcript),
        );
    }
}

/// The row after a row of the domain is a row of the domain.
pub proof fn lemma_next_place_within(n: int, place: int)
    requires
        n >= TRACE_HEIGHT,
        0 <= place < n,
    ensures
        0 <= next_place_spec(n, place) < n,
{
    let distance = n / (TRACE_HEIGHT as int);
    assert(1 <= distance <= n) by {
        lemma_fundamental_div_mod(n, TRACE_HEIGHT as int);
    }
}

/// A row of canonical codewords is canonical.
pub proof fn lemma_row_is_canonical(codewords: Seq<Seq<int>>, n: nat, place: int)
    requires
        codewords_fit(codewords, n),
        0 <= place < n,
    ensures
        canonical(row_of(codewords, place)),
        row_of(codewords, place).len() == TRACE_WIDTH,
{
    let row = row_of(codewords, place);
    assert forall|c: int| 0 <= c < row.len() implies 0 <= #[trigger] row[c] < P by {
        assert(canonical(codewords[c]));
        assert(row[c] == codewords[c][place]);
    }
}

/// The verifier accepts the opening of one place: it reads the two rows
/// and their paths, finds both under the root, and finds the weighted sum
/// of their quotients to be the value of the weighted sum at the place.
pub proof fn lemma_point_accepted(
    stark: Stark,
    bytes: Seq<u8>,
    at: int,
    codewords: Seq<Seq<int>>,
    weights: Seq<XValue>,
    constants: Seq<Seq<int>>,
    boundary: Seq<BoundaryConstraint>,
    omicron: int,
    place: int,
)
    requires
        is_power_of_two(stark.fri.domain.length as nat),
        stark.fri.domain.length >= TRACE_HEIGHT,
        codewords_fit(codewords, stark.fri.domain.length as nat),
        levels_sized(levels_of(row_leaves(codewords, stark.fri.domain.length as nat))),
        combination_spec(stark, codewords, constants, boundary, weights, omicron) is Some,
        0 <= place < stark.fri.domain.length,
        stands_at(
            bytes,
            at,
            opening_of(
                stark,
                codewords,
                row_leaves(codewords, stark.fri.domain.length as nat),
                place,
            ),
        ),
    ensures
        point_step(
            stark,
            bytes,
            at,
            root_of(row_leaves(codewords, stark.fri.domain.length as nat)),
            weights,
            constants,
            boundary,
            omicron,
            (
                place,
                combination_spec(stark, codewords, constants, boundary, weights, omicron)->Some_0[place],
            ),
        ) == Ok::<int, StarkError>(
            at + opening_of(
                stark,
                codewords,
                row_leaves(codewords, stark.fri.domain.length as nat),
                place,
            ).len(),
        ),
{
    let n = stark.fri.domain.length as nat;
    let leaves = row_leaves(codewords, n);
    let after = next_place_spec(n as int, place);
    let current = row_of(codewords, place);
    let next = row_of(codewords, after);
    let current_path = path_of(leaves, place);
    let next_path = path_of(leaves, after);
    let one = elements_item(current);
    let two = path_item(current_path);
    let three = elements_item(next);
    let four = path_item(next_path);
    lemma_pow2_64();
    lemma_next_place_within(n as int, place);
    lemma_row_is_canonical(codewords, n, place);
    lemma_row_is_canonical(codewords, n, after);
    lemma_stands_in_parts(bytes, at, one + two + three, four);
    lemma_stands_in_parts(bytes, at, one + two, three);
    lemma_stands_in_parts(bytes, at, one, two);
    lemma_root_and_path_are_sized(leaves, place);
    lemma_root_and_path_are_sized(leaves, after);
    lemma_path_of_leads_to_root(leaves, place);
    lemma_path_of_leads_to_root(leaves, after);
    let at1 = at + one.len();
    let at2 = at1 + two.len();
    let at3 = at2 + three.len();
    lemma_parse_elements_at(bytes, at, current);
    lemma_parse_path_at(bytes, at1, current_path);
    lemma_parse_elements_at(bytes, at2, next);
    lemma_parse_path_at(bytes, at3, next_path);
    assert(leaves[place] == blake3_hash(value_bytes(current)));
    assert(leaves[after] == blake3_hash(value_bytes(next)));
    assert(has_quotients_at(stark, boundary, omicron, place));
    let combination = combination_spec(stark, codewords, constants, boundary, weights, omicron)->Some_0;
    assert(combination[place] == combination_value(
        stark,
        codewords,
        constants,
        boundary,
        weights,
        omicron,
        place,
    ));
}

/// The verifier accepts the openings from place `k` on, and they end
/// where the transcript ends.
pub proof fn lemma_openings_accepted(
    stark: Stark,
    bytes: Seq<u8>,
    codewords: Seq<Seq<int>>,
    weights: Seq<XValue>,
    constants: Seq<Seq<int>>,
    boundary: Seq<BoundaryConstraint>,
    omicron: int,
    top: Seq<int>,
    k: nat,
    transcript: Seq<u8>,
)
    requires
        is_power_of_two(stark.fri.domain.length as nat),
        stark.fri.domain.length >= TRACE_HEIGHT,
        codewords_fit(codewords, stark.fri.domain.length as nat),
        levels_sized(levels_of(row_leaves(codewords, stark.fri.domain.length as nat))),
        combination_spec(stark, codewords, constants, boundary, weights, omicron) is Some,
        places_within(top, stark.fri.domain.length as int),
        bytes == openings_spec(
            stark,
            codewords,
            row_leaves(codewords, stark.fri.domain.length as nat),
            top,
            k,
            transcript,
        ),
    ensures
        points_spec(
            stark,
            bytes,
            root_of(row_leaves(codewords, stark.fri.domain.length as nat)),
            weights,
            constants,
            boundary,
            omicron,
            asked(
                combination_spec(stark, codewords, constants, boundary, weights, omicron)->Some_0,
                top,
            ),
            k,
            transcript.len() as int,
        ) == Ok::<int, StarkError>(bytes.len() as int),
    decreases top.len() - k,
{
    let n = stark.fri.domain.length as nat;
    let leaves = row_leaves(codewords, n);
    let combination = combination_spec(stark, codewords, constants, boundary, weights, omicron)->Some_0;
    let points = asked(combination, top);
    if k < top.len() {
        let place = top[k as int];
        let after = next_place_spec(n as int, place);
        let opening = opening_of(stark, codewords, leaves, place);
        let grown = transcript + opening;
        assert(grown =~= transcript + elements_item(row_of(codewords, place)) + path_item(
            path_of(leaves, place),
        ) + elements_item(row_of(codewords, after)) + path_item(path_of(leaves, after)));
        assert(bytes == openings_spec(stark, codewords, leaves, top, k + 1, grown));
        lemma_openings_grow(stark, codewords, leaves, top, k + 1, grown);
        lemma_stands_at_end(transcript, opening, bytes);
        lemma_point_accepted(
            stark,
            bytes,
            transcript.len() as int,
            codewords,
            weights,
            constants,
            boundary,
            omicron,
            place,
        );
        assert(points[k as int] == (place, combination[place]));
        lemma_openings_accepted(
            stark,
            bytes,
            codewords,
            weights,
            constants,
            boundary,
            omicron,
            top,
            k + 1,
            grown,
        );
    }
}

/// The verifier accepts a proof of these parts: the root of the rows of
/// the codewords, then a proof of the low-degree test that the test
/// accepts for the weighted sum of the quotients, then the openings of
/// the places that the test asked for.
pub proof fn lemma_proof_is_accepted(
    stark: Stark,
    start: Seq<u8>,
    round_constants: Seq<Seq<int>>,
    boundary: Seq<BoundaryConstraint>,
    codewords: Seq<Seq<int>>,
    constants: Seq<Seq<int>>,
    top: Seq<int>,
    tested: Seq<u8>,
)
    requires
        shaped_values(round_constants, TRACE_HEIGHT as nat, CONSTANTS_WIDTH as nat),
        boundary_fits(boundary),
        boundary.len() <= 0x4000_0000,
        is_power_of_two(stark.fri.domain.length as nat),
        stark.fri.domain.length >= TRACE_HEIGHT,
        constant_codewords_spec(stark, round_constants) == Some(constants),
        codewords_fit(codewords, stark.fri.domain.length as nat),
        levels_sized(levels_of(row_leaves(codewords, stark.fri.domain.length as nat))),
        places_within(top, stark.fri.domain.length as int),
        ({
            let leaves = row_leaves(codewords, stark.fri.domain.length as nat);
            let committed = start + digest_item(root_of(leaves));
            let weights = sampled_weights(
                blake3_hash(committed),
                TRACE_WIDTH as nat + boundary.len(),
            );
            let omicron = omicron_of(stark.generator@, stark.order as nat, TRACE_HEIGHT as nat);
            let combination = combination_spec(
                stark,
                codewords,
                constants,
                boundary,
                weights,
                omicron,
            );
            &&& combination is Some
            &&& extends(committed, tested)
            &&& accepted_after(
                stark.fri,
                committed.len() as int,
                tested,
                asked(combination->Some_0, top),
            )
        }),
    ensures
        verify_spec(
            stark,
            openings_spec(
                stark,
                codewords,
                row_leaves(codewords, stark.fri.domain.length as nat),
                top,
                0,
                tested,
            ),
            start.len() as int,
            round_constants,
            boundary,
        ) == Ok::<(), StarkError>(()),
{
    let n = stark.fri.domain.length as nat;
    let leaves = row_leaves(codewords, n);
    let root = root_of(leaves);
    let committed = start + digest_item(root);
    let weights = sampled_weights(blake3_hash(committed), TRACE_WIDTH as nat + boundary.len());
    let omicron = omicron_of(stark.generator@, stark.order as nat, TRACE_HEIGHT as nat);
    let combination = combination_spec(stark, codewords, constants, boundary, weights, omicron)->Some_0;
    let bytes = openings_spec(stark, codewords, leaves, top, 0, tested);
    lemma_pow2_64();
    lemma_openings_grow(stark, codewords, leaves, top, 0, tested);
    lemma_extends_twice(committed, tested, bytes);
    lemma_stands_at_end(start, digest_item(root), bytes);
    lemma_root_and_path_are_sized(leaves, 0);
    lemma_parse_digest_at(bytes, start.len() as int, root);
    let at1 = start.len() as int + 41;
    assert(at1 == committed.len());
    assert(bytes.subrange(0, at1) == committed);
    assert(fri_verify_spec(stark.fri, bytes, at1) == Ok::<(Seq<(int, XValue)>, int), FriError>(
        (asked(combination, top), tested.len() as int),
    ));
    lemma_openings_accepted(
        stark,
        bytes,
        codewords,
        weights,
        constants,
        boundary,
        omicron,
        top,
        0,
        tested,
    );
}

} // verus!
