//! The quotients of a table's constraints, and the bounds on their degrees.
//!
//! A constraint is a polynomial in the elements of one row, or of a row and
//! the row after it, followed by the parameters of the proof: the challenges,
//! the terminals and what is derived from them. Over the evaluation domain
//! it is evaluated on the codewords and divided by the polynomial that
//! vanishes on the rows where the constraint has to hold.

use crate::shared_math::b_field_element::BFieldElement;
use crate::shared_math::b_field_element::has_inverse;
use crate::shared_math::b_field_element::inverse_of;
use crate::shared_math::b_field_element::lemma_inverse_of;
use crate::shared_math::b_field_element::mul_mod;
use crate::shared_math::b_field_element::P;
use crate::shared_math::b_field_element::pow_mod;
use crate::shared_math::b_field_element::sub_mod;
use crate::shared_math::b_field_element::values;
use crate::shared_math::fri_domain::FriDomain;
use crate::shared_math::mpolynomial::Degree;
use crate::shared_math::mpolynomial::DEGREE_LIMIT;
use crate::shared_math::mpolynomial::degree_values;
use crate::shared_math::mpolynomial::MPolynomial;
use crate::shared_math::mpolynomial::TOTAL_DEGREE_LIMIT;
use crate::shared_math::mpolynomial::x_values;
use crate::shared_math::stark::table::MAX_HEIGHT;
use crate::shared_math::stark::table::Table;
use crate::shared_math::stark::table::TableError;
use crate::shared_math::stark::table::x_matrix_values;
use crate::shared_math::x_field_element::x_scale;
use crate::shared_math::x_field_element::x_zero;
use crate::shared_math::x_field_element::XFieldElement;
use crate::shared_math::x_field_element::XValue;
use vstd::arithmetic::div_mod::*;
use vstd::prelude::*;

verus! {

/// The degrees that stand for the variables of a constraint: `d` for each of
/// the `row_variables` elements of rows, 0 for each parameter.
pub open spec fn variable_degrees(row_variables: nat, d: int, parameters: nat) -> Seq<int> {
    Seq::new(
        row_variables + parameters,
        |i: int|
            if i < row_variables {
                d
            } else {
                0
            },
    )
}

/// The bounds on the degrees of the quotients of constraints on one row:
/// the constraint's bound, less one for the row it is divided out at.
pub open spec fn single_row_bounds(
    constraints: Seq<MPolynomial>,
    width: nat,
    d: int,
    parameters: nat,
) -> Seq<int> {
    Seq::new(
        constraints.len(),
        |k: int| constraints[k].degree_bound(variable_degrees(width, d, parameters)) - 1,
    )
}

/// The bounds on the degrees of the quotients of constraints on two
/// consecutive rows: the constraint's bound, less the `height - 1` rows it
/// is divided out at.
pub open spec fn transition_bounds(
    constraints: Seq<MPolynomial>,
    width: nat,
    d: int,
    parameters: nat,
    height: int,
) -> Seq<int> {
    Seq::new(
        constraints.len(),
        |k: int|
            constraints[k].degree_bound(variable_degrees(2 * width, d, parameters)) - height + 1,
    )
}

/// The largest element of a sequence, and -1 for the empty one.
pub open spec fn max_of(s: Seq<int>) -> int
    decreases s.len(),
{
    if s.len() == 0 {
        -1
    } else if s.len() == 1 {
        s.last()
    } else {
        let m = max_of(s.drop_last());
        if s.last() >= m {
            s.last()
        } else {
            m
        }
    }
}

/// The largest element of a sequence is at least each of its elements.
pub proof fn lemma_max_of_at_least(s: Seq<int>, i: int)
    requires
        0 <= i < s.len(),
    ensures
        max_of(s) >= s[i],
    decreases s.len(),
{
    if s.len() > 1 && i < s.len() - 1 {
        lemma_max_of_at_least(s.drop_last(), i);
    }
}

/// Whether every constraint has its variables among the first
/// `variable_count` and a total degree within the limit.
pub open spec fn constraints_fit(constraints: Seq<MPolynomial>, variable_count: nat) -> bool {
    forall|k: int|
        0 <= k < constraints.len() ==> (#[trigger] constraints[k]).fits(variable_count)
            && constraints[k].total_degree() <= TOTAL_DEGREE_LIMIT
}

/// Row `i` of a list of codewords: the `i`-th element of each.
pub open spec fn row_point(codewords: Seq<Seq<XValue>>, i: int) -> Seq<XValue> {
    Seq::new(codewords.len(), |j: int| codewords[j][i])
}

/// The index of the point that lies `unit_distance` after point `i` on a
/// domain of `n` points.
pub open spec fn next_index(i: int, unit_distance: int, n: int) -> int {
    if i + unit_distance >= n {
        i + unit_distance - n
    } else {
        i + unit_distance
    }
}

/// The quotient of a constraint on one row: at each point of the domain the
/// constraint's value on that row of the codewords, times the inverse of
/// the zerofier there.
pub open spec fn single_row_quotient(
    constraint: MPolynomial,
    codewords: Seq<Seq<XValue>>,
    parameters: Seq<XValue>,
    zerofier_inverse: Seq<int>,
) -> Seq<XValue> {
    Seq::new(
        zerofier_inverse.len(),
        |i: int|
            x_scale(
                constraint.value(row_point(codewords, i) + parameters),
                zerofier_inverse[i],
            ),
    )
}

/// The quotient of a constraint on two consecutive rows.
pub open spec fn transition_quotient(
    constraint: MPolynomial,
    codewords: Seq<Seq<XValue>>,
    parameters: Seq<XValue>,
    zerofier_inverse: Seq<int>,
    unit_distance: int,
) -> Seq<XValue> {
    Seq::new(
        zerofier_inverse.len(),
        |i: int|
            x_scale(
                constraint.value(
                    row_point(codewords, i) + row_point(
                        codewords,
                        next_index(i, unit_distance, zerofier_inverse.len() as int),
                    ) + parameters,
                ),
                zerofier_inverse[i],
            ),
    )
}

/// The inverse of the zerofier of the first row, `z - 1`, at the point `z`.
pub open spec fn boundary_zerofier_inverse(z: int) -> int {
    inverse_of(sub_mod(z, 1))
}

/// The inverse of the zerofier of the last row, `z - 1/omicron`, at `z`.
pub open spec fn terminal_zerofier_inverse(z: int, omicron: int) -> int {
    inverse_of(sub_mod(z, inverse_of(omicron)))
}

/// The inverse of the zerofier of all rows but the last,
/// `(z^height - 1) / (z - 1/omicron)`, at `z`; zero for a table without
/// rows.
pub open spec fn transition_zerofier_inverse(z: int, omicron: int, height: nat) -> int {
    if height == 0 {
        0
    } else {
        mul_mod(inverse_of(sub_mod(pow_mod(z, height), 1)), sub_mod(z, inverse_of(omicron)))
    }
}

/// Whether all three zerofiers have an inverse at the point `z`.
pub open spec fn zerofiers_invertible_at(z: int, omicron: int, height: nat) -> bool {
    &&& has_inverse(sub_mod(z, 1))
    &&& has_inverse(sub_mod(z, inverse_of(omicron)))
    &&& height > 0 ==> has_inverse(sub_mod(pow_mod(z, height), 1))
}

/// Whether the zerofiers have inverses at all the given points: no point is
/// a point of the trace.
pub open spec fn zerofiers_invertible(zs: Seq<int>, omicron: int, height: nat) -> bool {
    &&& has_inverse(omicron)
    &&& forall|i: int|
        0 <= i < zs.len() ==> zerofiers_invertible_at(#[trigger] zs[i], omicron, height)
}

/// The distance on a domain of `n` points between the points of two
/// consecutive rows of a table of the given height.
pub open spec fn unit_distance(n: int, height: int) -> int {
    if height == 0 {
        0
    } else {
        n / height
    }
}

/// All quotients of a table: those of the boundary constraints, then those
/// of the transition constraints, then those of the terminal constraints.
pub open spec fn quotients_spec(
    boundary: Seq<MPolynomial>,
    transition: Seq<MPolynomial>,
    terminal: Seq<MPolynomial>,
    codewords: Seq<Seq<XValue>>,
    parameters: Seq<XValue>,
    zs: Seq<int>,
    omicron: int,
    height: nat,
) -> Seq<Seq<XValue>> {
    let first = Seq::new(zs.len(), |i: int| boundary_zerofier_inverse(zs[i]));
    let all = Seq::new(zs.len(), |i: int| transition_zerofier_inverse(zs[i], omicron, height));
    let last = Seq::new(zs.len(), |i: int| terminal_zerofier_inverse(zs[i], omicron));
    Seq::new(
        boundary.len() + transition.len() + terminal.len(),
        |k: int|
            if k < boundary.len() {
                single_row_quotient(boundary[k], codewords, parameters, first)
            } else if k < boundary.len() + transition.len() {
                transition_quotient(
                    transition[k - boundary.len()],
                    codewords,
                    parameters,
                    all,
                    unit_distance(zs.len() as int, height as int),
                )
            } else {
                single_row_quotient(
                    terminal[k - boundary.len() - transition.len()],
                    codewords,
                    parameters,
                    last,
                )
            },
    )
}

/// Whether `codewords` are `width` codewords of `length` elements each.
pub open spec fn codewords_shaped(
    codewords: Seq<Vec<XFieldElement>>,
    width: nat,
    length: nat,
) -> bool {
    &&& codewords.len() == width
    &&& forall|c: int| 0 <= c < codewords.len() ==> (#[trigger] codewords[c]).len() == length
}

/// The degrees that stand for the variables of a constraint.
pub fn degree_vector(row_variables: usize, d: Degree, parameters: usize) -> (r: Vec<Degree>)
    requires
        row_variables + parameters <= usize::MAX,
    ensures
        degree_values(r@) == variable_degrees(row_variables as nat, d as int, parameters as nat),
        r.len() == row_variables + parameters,
{
    let mut out: Vec<Degree> = Vec::new();
    let mut i: usize = 0;
    while i < row_variables
        invariant
            i <= row_variables,
            out.len() == i,
            forall|j: int| 0 <= j < i ==> out[j] == d,
        decreases row_variables - i,
    {
        out.push(d);
        i = i + 1;
    }
    let mut k: usize = 0;
    while k < parameters
        invariant
            k <= parameters,
            row_variables + parameters <= usize::MAX,
            out.len() == row_variables + k,
            forall|j: int| 0 <= j < row_variables ==> out[j] == d,
            forall|j: int| row_variables <= j < row_variables + k ==> out[j] == 0,
        decreases parameters - k,
    {
        out.push(0);
        k = k + 1;
    }
    assert(degree_values(out@) =~= variable_degrees(
        row_variables as nat,
        d as int,
        parameters as nat,
    ));
    out
}

/// The bounds of the constraints themselves, each lowered by `lowering`.
fn lowered_bounds(constraints: &Vec<MPolynomial>, max_degrees: &Vec<Degree>, lowering: i64) -> (r:
    Vec<Degree>)
    requires
        constraints_fit(constraints@, max_degrees.len() as nat),
        forall|i: int|
            0 <= i < max_degrees.len() ==> -DEGREE_LIMIT <= #[trigger] max_degrees[i]
                <= DEGREE_LIMIT,
        0 <= lowering <= MAX_HEIGHT,
    ensures
        r.len() == constraints.len(),
        forall|k: int|
            0 <= k < r.len() ==> #[trigger] r[k] == constraints[k].degree_bound(
                degree_values(max_degrees@),
            ) - lowering,
{
    let mut out: Vec<Degree> = Vec::new();
    let mut k: usize = 0;
    while k < constraints.len()
        invariant
            k <= constraints.len(),
            constraints_fit(constraints@, max_degrees.len() as nat),
            forall|i: int|
                0 <= i < max_degrees.len() ==> -DEGREE_LIMIT <= #[trigger] max_degrees[i]
                    <= DEGREE_LIMIT,
            0 <= lowering <= MAX_HEIGHT,
            out.len() == k,
            forall|j: int|
                0 <= j < k ==> #[trigger] out[j] == constraints[j].degree_bound(
                    degree_values(max_degrees@),
                ) - lowering,
        decreases constraints.len() - k,
    {
        proof {
            assert(constraints@[k as int].fits(max_degrees.len() as nat));
            constraints[k as int].lemma_degree_bound_range(degree_values(max_degrees@));
            assert(constraints[k as int].total_degree() * DEGREE_LIMIT <= TOTAL_DEGREE_LIMIT
                * DEGREE_LIMIT) by (nonlinear_arith)
                requires
                    constraints[k as int].total_degree() <= TOTAL_DEGREE_LIMIT,
            ;
        }
        let bound = constraints[k].symbolic_degree_bound(max_degrees);
        out.push(bound - lowering);
        k = k + 1;
    }
    out
}

/// The bounds on the degrees of the quotients of constraints on one row.
pub fn single_row_degree_bounds(
    constraints: &Vec<MPolynomial>,
    width: usize,
    d: Degree,
    parameters: usize,
) -> (r: Vec<Degree>)
    requires
        width + parameters <= usize::MAX,
        constraints_fit(constraints@, (width + parameters) as nat),
        -DEGREE_LIMIT <= d <= DEGREE_LIMIT,
    ensures
        degree_values(r@) == single_row_bounds(
            constraints@,
            width as nat,
            d as int,
            parameters as nat,
        ),
{
    let max_degrees = degree_vector(width, d, parameters);
    assert forall|i: int| 0 <= i < max_degrees.len() implies -DEGREE_LIMIT
        <= #[trigger] max_degrees[i] <= DEGREE_LIMIT by {
        assert(degree_values(max_degrees@)[i] == max_degrees[i]);
    }
    let r = lowered_bounds(constraints, &max_degrees, 1);
    assert(degree_values(r@) =~= single_row_bounds(
        constraints@,
        width as nat,
        d as int,
        parameters as nat,
    ));
    r
}

/// The bounds on the degrees of the quotients of constraints on two
/// consecutive rows of a table of the given height.
pub fn transition_degree_bounds(
    constraints: &Vec<MPolynomial>,
    width: usize,
    d: Degree,
    parameters: usize,
    height: usize,
) -> (r: Vec<Degree>)
    requires
        2 * width + parameters <= usize::MAX,
        constraints_fit(constraints@, (2 * width + parameters) as nat),
        -DEGREE_LIMIT <= d <= DEGREE_LIMIT,
        height <= MAX_HEIGHT,
    ensures
        degree_values(r@) == transition_bounds(
            constraints@,
            width as nat,
            d as int,
            parameters as nat,
            height as int,
        ),
{
    let max_degrees = degree_vector(2 * width, d, parameters);
    assert forall|i: int| 0 <= i < max_degrees.len() implies -DEGREE_LIMIT
        <= #[trigger] max_degrees[i] <= DEGREE_LIMIT by {
        assert(degree_values(max_degrees@)[i] == max_degrees[i]);
    }
    let r = if height == 0 {
        let lowered = lowered_bounds(constraints, &max_degrees, 0);
        let mut out: Vec<Degree> = Vec::new();
        let mut k: usize = 0;
        while k < lowered.len()
            invariant
                k <= lowered.len(),
                lowered.len() == constraints.len(),
                constraints_fit(constraints@, max_degrees.len() as nat),
                forall|i: int|
                    0 <= i < max_degrees.len() ==> -DEGREE_LIMIT <= #[trigger] max_degrees[i]
                        <= DEGREE_LIMIT,
                out.len() == k,
                forall|j: int|
                    0 <= j < lowered.len() ==> #[trigger] lowered[j]
                        == constraints[j].degree_bound(degree_values(max_degrees@)),
                forall|j: int| 0 <= j < k ==> #[trigger] out[j] == lowered[j] + 1,
            decreases lowered.len() - k,
        {
            proof {
                assert(constraints@[k as int].fits(max_degrees.len() as nat));
                constraints[k as int].lemma_degree_bound_range(degree_values(max_degrees@));
                assert(constraints[k as int].total_degree() * DEGREE_LIMIT <= TOTAL_DEGREE_LIMIT
                    * DEGREE_LIMIT) by (nonlinear_arith)
                    requires
                        constraints[k as int].total_degree() <= TOTAL_DEGREE_LIMIT,
                ;
            }
            out.push(lowered[k] + 1);
            k = k + 1;
        }
        out
    } else {
        lowered_bounds(constraints, &max_degrees, (height - 1) as i64)
    };
    assert(degree_values(r@) =~= transition_bounds(
        constraints@,
        width as nat,
        d as int,
        parameters as nat,
        height as int,
    ));
    r
}

/// The largest of the given degrees, and -1 where there is none.
pub fn max_degree_of(degrees: &Vec<Degree>) -> (r: Degree)
    ensures
        r == max_of(degree_values(degrees@)),
{
    let ghost s = degree_values(degrees@);
    if degrees.len() == 0 {
        return -1;
    }
    let mut best: Degree = degrees[0];
    let mut k: usize = 1;
    proof {
        assert(s.subrange(0, 1).drop_last() =~= Seq::<int>::empty());
        assert(s.subrange(0, 1).last() == degrees[0]);
    }
    while k < degrees.len()
        invariant
            1 <= k <= degrees.len(),
            s == degree_values(degrees@),
            best == max_of(s.subrange(0, k as int)),
        decreases degrees.len() - k,
    {
        proof {
            let head = s.subrange(0, k + 1);
            assert(head.drop_last() =~= s.subrange(0, k as int));
            assert(head.last() == degrees[k as int]);
        }
        if degrees[k] >= best {
            best = degrees[k];
        }
        k = k + 1;
    }
    proof {
        assert(s.subrange(0, degrees.len() as int) =~= s);
    }
    best
}

/// The point that a constraint is evaluated at: row `i` of the codewords,
/// then row `next` where there is one, then the parameters.
fn point_at(
    codewords: &Vec<Vec<XFieldElement>>,
    i: usize,
    next: Option<usize>,
    parameters: &Vec<XFieldElement>,
) -> (r: Vec<XFieldElement>)
    requires
        forall|c: int| 0 <= c < codewords.len() ==> i < (#[trigger] codewords[c]).len(),
        next is Some ==> forall|c: int|
            0 <= c < codewords.len() ==> next->Some_0 < (#[trigger] codewords[c]).len(),
    ensures
        next is None ==> x_values(r@) == row_point(x_matrix_values(codewords@), i as int)
            + x_values(parameters@),
        next is Some ==> x_values(r@) == row_point(x_matrix_values(codewords@), i as int)
            + row_point(x_matrix_values(codewords@), next->Some_0 as int) + x_values(
            parameters@,
        ),
        next is None ==> r.len() == codewords.len() + parameters.len(),
        next is Some ==> r.len() == 2 * codewords.len() + parameters.len(),
{
    let mut out: Vec<XFieldElement> = Vec::new();
    let w = codewords.len();
    let mut c: usize = 0;
    while c < w
        invariant
            c <= w,
            w == codewords.len(),
            forall|j: int| 0 <= j < codewords.len() ==> i < (#[trigger] codewords[j]).len(),
            out.len() == c,
            forall|j: int| 0 <= j < c ==> out[j] == codewords[j][i as int],
        decreases w - c,
    {
        assert(i < codewords[c as int].len());
        out.push(codewords[c][i]);
        c = c + 1;
    }
    let ghost first = out@;
    assert(x_values(first) =~= row_point(x_matrix_values(codewords@), i as int));
    match next {
        Some(n) => {
            let mut c: usize = 0;
            while c < w
                invariant
                    c <= w,
                    w == codewords.len(),
                    forall|j: int|
                        0 <= j < codewords.len() ==> n < (#[trigger] codewords[j]).len(),
                    out.len() == w + c,
                    first.len() == w,
                    forall|j: int| 0 <= j < w ==> out[j] == first[j],
                    forall|j: int| 0 <= j < c ==> out[w + j] == codewords[j][n as int],
                decreases w - c,
            {
                assert(n < codewords[c as int].len());
                out.push(codewords[c][n]);
                c = c + 1;
            }
        },
        None => {},
    }
    let ghost rows = out@;
    let mut k: usize = 0;
    while k < parameters.len()
        invariant
            k <= parameters.len(),
            out.len() == rows.len() + k,
            forall|j: int| 0 <= j < rows.len() ==> out[j] == rows[j],
            forall|j: int| 0 <= j < k ==> out[rows.len() + j] == parameters[j],
        decreases parameters.len() - k,
    {
        out.push(parameters[k]);
        k = k + 1;
    }
    proof {
        if next is Some {
            assert(x_values(out@) =~= row_point(x_matrix_values(codewords@), i as int)
                + row_point(x_matrix_values(codewords@), next->Some_0 as int) + x_values(
                parameters@,
            ));
        } else {
            assert(x_values(out@) =~= row_point(x_matrix_values(codewords@), i as int)
                + x_values(parameters@));
        }
    }
    out
}

/// The quotient codeword of one constraint: on one row where
/// `distance` is `None`, else on two rows that far apart.
fn quotient_codeword(
    constraint: &MPolynomial,
    codewords: &Vec<Vec<XFieldElement>>,
    parameters: &Vec<XFieldElement>,
    zerofier_inverse: &Vec<BFieldElement>,
    distance: Option<usize>,
) -> (r: Vec<XFieldElement>)
    requires
        forall|c: int|
            0 <= c < codewords.len() ==> (#[trigger] codewords[c]).len()
                == zerofier_inverse.len(),
        distance is None ==> constraint.fits((codewords.len() + parameters.len()) as nat),
        distance is Some ==> constraint.fits((2 * codewords.len() + parameters.len()) as nat),
        distance is Some ==> distance->Some_0 <= zerofier_inverse.len(),
    ensures
        r.len() == zerofier_inverse.len(),
        distance is None ==> x_values(r@) == single_row_quotient(
            *constraint,
            x_matrix_values(codewords@),
            x_values(parameters@),
            values(zerofier_inverse@),
        ),
        distance is Some ==> x_values(r@) == transition_quotient(
            *constraint,
            x_matrix_values(codewords@),
            x_values(parameters@),
            values(zerofier_inverse@),
            distance->Some_0 as int,
        ),
{
    let n = zerofier_inverse.len();
    let mut out: Vec<XFieldElement> = Vec::new();
    let mut i: usize = 0;
    while i < n
        invariant
            i <= n,
            n == zerofier_inverse.len(),
            forall|c: int| 0 <= c < codewords.len() ==> (#[trigger] codewords[c]).len() == n,
            distance is None ==> constraint.fits((codewords.len() + parameters.len()) as nat),
            distance is Some ==> constraint.fits(
                (2 * codewords.len() + parameters.len()) as nat,
            ),
            distance is Some ==> distance->Some_0 <= n,
            out.len() == i,
            distance is None ==> forall|j: int|
                0 <= j < i ==> out[j]@ == x_scale(
                    constraint.value(
                        row_point(x_matrix_values(codewords@), j) + x_values(parameters@),
                    ),
                    zerofier_inverse[j]@,
                ),
            distance is Some ==> forall|j: int|
                0 <= j < i ==> out[j]@ == x_scale(
                    constraint.value(
                        row_point(x_matrix_values(codewords@), j) + row_point(
                            x_matrix_values(codewords@),
                            next_index(j, distance->Some_0 as int, n as int),
                        ) + x_values(parameters@),
                    ),
                    zerofier_inverse[j]@,
                ),
        decreases n - i,
    {
        let next = match distance {
            Some(d) => Some(
                if i >= n - d {
                    i - (n - d)
                } else {
                    i + d
                },
            ),
            None => None,
        };
        let point = point_at(codewords, i, next, parameters);
        let value = constraint.evaluate(&point);
        out.push(value.scale(zerofier_inverse[i]));
        i = i + 1;
    }
    proof {
        if distance is Some {
            assert(x_values(out@) =~= transition_quotient(
                *constraint,
                x_matrix_values(codewords@),
                x_values(parameters@),
                values(zerofier_inverse@),
                distance->Some_0 as int,
            ));
        } else {
            assert(x_values(out@) =~= single_row_quotient(
                *constraint,
                x_matrix_values(codewords@),
                x_values(parameters@),
                values(zerofier_inverse@),
            ));
        }
    }
    out
}

/// The inverses of the three zerofiers at each of the points `zs`: of the
/// first row, of all rows but the last, and of the last row. `None` where
/// one of them has no inverse.
pub fn inverse_zerofiers(zs: &Vec<BFieldElement>, omicron: BFieldElement, height: usize) -> (r:
    Option<(Vec<BFieldElement>, Vec<BFieldElement>, Vec<BFieldElement>)>)
    ensures
        r is Some <==> zerofiers_invertible(values(zs@), omicron@, height as nat),
        r is Some ==> {
            let (first, all, last) = r->Some_0;
            &&& first.len() == zs.len()
            &&& all.len() == zs.len()
            &&& last.len() == zs.len()
            &&& forall|i: int|
                0 <= i < zs.len() ==> {
                    &&& #[trigger] first[i]@ == boundary_zerofier_inverse(zs[i]@)
                    &&& all[i]@ == transition_zerofier_inverse(zs[i]@, omicron@, height as nat)
                    &&& last[i]@ == terminal_zerofier_inverse(zs[i]@, omicron@)
                }
        },
{
    let omicron_inverse = match omicron.inverse() {
        None => {
            return None;
        },
        Some(x) => x,
    };
    proof {
        lemma_small_mod(omicron_inverse.0 as nat, P as nat);
        lemma_inverse_of(omicron@, omicron_inverse@);
    }
    let one = BFieldElement::ring_one();
    let mut first: Vec<BFieldElement> = Vec::new();
    let mut all: Vec<BFieldElement> = Vec::new();
    let mut last: Vec<BFieldElement> = Vec::new();
    let mut i: usize = 0;
    while i < zs.len()
        invariant
            i <= zs.len(),
            one@ == 1,
            has_inverse(omicron@),
            omicron_inverse@ == inverse_of(omicron@),
            first.len() == i,
            all.len() == i,
            last.len() == i,
            forall|j: int|
                0 <= j < i ==> zerofiers_invertible_at(
                    #[trigger] values(zs@)[j],
                    omicron@,
                    height as nat,
                ),
            forall|j: int|
                0 <= j < i ==> {
                    &&& #[trigger] first[j]@ == boundary_zerofier_inverse(zs[j]@)
                    &&& all[j]@ == transition_zerofier_inverse(zs[j]@, omicron@, height as nat)
                    &&& last[j]@ == terminal_zerofier_inverse(zs[j]@, omicron@)
                },
        decreases zs.len() - i,
    {
        let z = zs[i];
        assert(values(zs@)[i as int] == z@);
        let shifted = z.sub(omicron_inverse);
        let b = match z.sub(one).inverse() {
            None => {
                return None;
            },
            Some(x) => x,
        };
        let t = match shifted.inverse() {
            None => {
                return None;
            },
            Some(x) => x,
        };
        proof {
            lemma_small_mod(b.0 as nat, P as nat);
            lemma_small_mod(t.0 as nat, P as nat);
            lemma_inverse_of(sub_mod(z@, 1), b@);
            lemma_inverse_of(sub_mod(z@, inverse_of(omicron@)), t@);
        }
        let a = if height == 0 {
            BFieldElement::ring_zero()
        } else {
            match z.mod_pow_u64(height as u64).sub(one).inverse() {
                None => {
                    return None;
                },
                Some(x) => {
                    proof {
                        lemma_small_mod(x.0 as nat, P as nat);
                        lemma_inverse_of(sub_mod(pow_mod(z@, height as nat), 1), x@);
                    }
                    x.mul(shifted)
                },
            }
        };
        first.push(b);
        all.push(a);
        last.push(t);
        i = i + 1;
    }
    Some((first, all, last))
}

/// Why the quotients of a table cannot be computed over a domain, if they
/// cannot.
pub open spec fn quotient_error(
    codewords: Seq<Vec<XFieldElement>>,
    width: nat,
    zs: Seq<int>,
    omicron: int,
    height: nat,
) -> Option<TableError> {
    if !codewords_shaped(codewords, width, zs.len()) {
        Some(TableError::ShapeMismatch)
    } else if !zerofiers_invertible(zs, omicron, height) {
        Some(TableError::ZerofierVanishes)
    } else {
        None
    }
}

/// Whether `codewords` are `width` codewords of `length` elements each.
pub fn check_codewords(codewords: &Vec<Vec<XFieldElement>>, width: usize, length: usize) -> (r:
    bool)
    ensures
        r == codewords_shaped(codewords@, width as nat, length as nat),
{
    if codewords.len() != width {
        return false;
    }
    let mut c: usize = 0;
    while c < codewords.len()
        invariant
            c <= codewords.len(),
            codewords.len() == width,
            forall|k: int| 0 <= k < c ==> (#[trigger] codewords[k]).len() == length,
        decreases codewords.len() - c,
    {
        if codewords[c].len() != length {
            return false;
        }
        c = c + 1;
    }
    true
}

/// Whether each of the constraints has the value zero at `point`.
pub open spec fn vanish_at(constraints: Seq<MPolynomial>, point: Seq<XValue>) -> bool {
    forall|k: int|
        0 <= k < constraints.len() ==> (#[trigger] constraints[k]).value(point) == x_zero()
}

/// The point that a constraint on two consecutive rows is evaluated at on
/// a trace: row `i`, then the row after it, then the parameters.
pub open spec fn row_pair(rows: Seq<Seq<XValue>>, i: int, parameters: Seq<XValue>) -> Seq<XValue> {
    rows[i] + rows[i + 1] + parameters
}

/// Whether a trace meets its constraints: the boundary constraints vanish
/// on the first row, the transition constraints on every row and the row
/// after it, and the terminal constraints on the last row.
pub open spec fn trace_meets(
    boundary: Seq<MPolynomial>,
    transition: Seq<MPolynomial>,
    terminal: Seq<MPolynomial>,
    rows: Seq<Seq<XValue>>,
    parameters: Seq<XValue>,
) -> bool {
    &&& rows.len() > 0 ==> vanish_at(boundary, rows[0] + parameters)
    &&& forall|i: int|
        0 <= i < rows.len() - 1 ==> vanish_at(transition, #[trigger] row_pair(rows, i, parameters))
    &&& rows.len() > 0 ==> vanish_at(terminal, rows.last() + parameters)
}

/// Whether each of the constraints has the value zero at `point`.
pub fn vanish(constraints: &Vec<MPolynomial>, point: &Vec<XFieldElement>) -> (r: bool)
    requires
        constraints_fit(constraints@, point.len() as nat),
    ensures
        r == vanish_at(constraints@, x_values(point@)),
{
    let mut k: usize = 0;
    while k < constraints.len()
        invariant
            k <= constraints.len(),
            constraints_fit(constraints@, point.len() as nat),
            forall|j: int|
                0 <= j < k ==> (#[trigger] constraints[j]).value(x_values(point@)) == x_zero(),
        decreases constraints.len() - k,
    {
        if !constraints[k].evaluate(point).is_zero() {
            return false;
        }
        k = k + 1;
    }
    true
}

/// The elements of `row`, then those of `next` where there is one, then
/// the parameters.
fn point_of_rows(
    row: &Vec<XFieldElement>,
    next: Option<&Vec<XFieldElement>>,
    parameters: &Vec<XFieldElement>,
) -> (r: Vec<XFieldElement>)
    ensures
        next is None ==> r@ == row@ + parameters@,
        next is Some ==> r@ == row@ + next->Some_0@ + parameters@,
{
    let mut out: Vec<XFieldElement> = Vec::new();
    let mut c: usize = 0;
    while c < row.len()
        invariant
            c <= row.len(),
            out@ == row@.subrange(0, c as int),
        decreases row.len() - c,
    {
        out.push(row[c]);
        assert(out@ =~= row@.subrange(0, c + 1));
        c = c + 1;
    }
    assert(out@ =~= row@);
    match next {
        Some(other) => {
            let mut d: usize = 0;
            while d < other.len()
                invariant
                    d <= other.len(),
                    out@ == row@ + other@.subrange(0, d as int),
                decreases other.len() - d,
            {
                out.push(other[d]);
                assert(out@ =~= row@ + other@.subrange(0, d + 1));
                d = d + 1;
            }
            assert(out@ =~= row@ + other@);
        },
        None => {},
    }
    let ghost rows = out@;
    let mut k: usize = 0;
    while k < parameters.len()
        invariant
            k <= parameters.len(),
            out@ == rows + parameters@.subrange(0, k as int),
        decreases parameters.len() - k,
    {
        out.push(parameters[k]);
        assert(out@ =~= rows + parameters@.subrange(0, k + 1));
        k = k + 1;
    }
    assert(out@ =~= rows + parameters@);
    out
}

/// Whether the rows of a trace, each of `width` elements, meet the
/// constraints.
pub fn rows_meet_constraints(
    rows: &Vec<Vec<XFieldElement>>,
    parameters: &Vec<XFieldElement>,
    boundary: &Vec<MPolynomial>,
    transition: &Vec<MPolynomial>,
    terminal: &Vec<MPolynomial>,
    width: usize,
) -> (r: bool)
    requires
        2 * width + parameters.len() <= usize::MAX,
        forall|i: int| 0 <= i < rows.len() ==> (#[trigger] rows[i]).len() == width,
        constraints_fit(boundary@, (width + parameters.len()) as nat),
        constraints_fit(transition@, (2 * width + parameters.len()) as nat),
        constraints_fit(terminal@, (width + parameters.len()) as nat),
    ensures
        r == trace_meets(
            boundary@,
            transition@,
            terminal@,
            x_matrix_values(rows@),
            x_values(parameters@),
        ),
{
    let ghost m = x_matrix_values(rows@);
    let ghost ps = x_values(parameters@);
    if rows.len() == 0 {
        return true;
    }
    let first = point_of_rows(&rows[0], None, parameters);
    assert(x_values(first@) =~= m[0] + ps);
    if !vanish(boundary, &first) {
        return false;
    }
    let last = point_of_rows(&rows[rows.len() - 1], None, parameters);
    assert(x_values(last@) =~= m.last() + ps);
    if !vanish(terminal, &last) {
        return false;
    }
    let mut i: usize = 0;
    while i + 1 < rows.len()
        invariant
            i + 1 <= rows.len(),
            m == x_matrix_values(rows@),
            ps == x_values(parameters@),
            2 * width + parameters.len() <= usize::MAX,
            forall|j: int| 0 <= j < rows.len() ==> (#[trigger] rows[j]).len() == width,
            constraints_fit(transition@, (2 * width + parameters.len()) as nat),
            forall|j: int| 0 <= j < i ==> vanish_at(transition@, #[trigger] row_pair(m, j, ps)),
        decreases rows.len() - i,
    {
        let point = point_of_rows(&rows[i], Some(&rows[i + 1]), parameters);
        assert(x_values(point@) =~= row_pair(m, i as int, ps));
        if !vanish(transition, &point) {
            return false;
        }
        i = i + 1;
    }
    true
}

/// All quotients of a table of the given height and generator over
/// `domain`: the constraints evaluated on `codewords` and `parameters` and
/// divided by their zerofiers.
pub fn quotients_of(
    domain: &FriDomain,
    codewords: &Vec<Vec<XFieldElement>>,
    parameters: &Vec<XFieldElement>,
    boundary: &Vec<MPolynomial>,
    transition: &Vec<MPolynomial>,
    terminal: &Vec<MPolynomial>,
    width: usize,
    omicron: BFieldElement,
    height: usize,
) -> (r: Result<Vec<Vec<XFieldElement>>, TableError>)
    requires
        2 * width + parameters.len() <= usize::MAX,
        boundary.len() + transition.len() + terminal.len() <= usize::MAX,
        constraints_fit(boundary@, (width + parameters.len()) as nat),
        constraints_fit(transition@, (2 * width + parameters.len()) as nat),
        constraints_fit(terminal@, (width + parameters.len()) as nat),
    ensures
        r == Err::<Vec<Vec<XFieldElement>>, TableError>(TableError::ShapeMismatch)
            <==> !codewords_shaped(codewords@, width as nat, domain.length as nat),
        r == Err::<Vec<Vec<XFieldElement>>, TableError>(TableError::ZerofierVanishes) <==> (
        codewords_shaped(codewords@, width as nat, domain.length as nat)
            && !zerofiers_invertible(domain.points(), omicron@, height as nat)),
        r is Err ==> (r->Err_0 == TableError::ShapeMismatch || r->Err_0
            == TableError::ZerofierVanishes),
        r is Ok ==> {
            &&& forall|k: int|
                0 <= k < r->Ok_0.len() ==> (#[trigger] r->Ok_0[k]).len() == domain.length
            &&& x_matrix_values(r->Ok_0@) == quotients_spec(
                boundary@,
                transition@,
                terminal@,
                x_matrix_values(codewords@),
                x_values(parameters@),
                domain.points(),
                omicron@,
                height as nat,
            )
        },
{
    if !check_codewords(codewords, width, domain.length) {
        return Err(TableError::ShapeMismatch);
    }
    let zs = domain.b_domain_values();
    let (first, all, last) = match inverse_zerofiers(&zs, omicron, height) {
        None => {
            return Err(TableError::ZerofierVanishes);
        },
        Some(triple) => triple,
    };
    let n = domain.length;
    let distance: usize = if height == 0 {
        0
    } else {
        n / height
    };
    let ghost cw = x_matrix_values(codewords@);
    let ghost ps = x_values(parameters@);
    let ghost first_spec = Seq::new(
        domain.points().len(),
        |i: int| boundary_zerofier_inverse(domain.points()[i]),
    );
    let ghost all_spec = Seq::new(
        domain.points().len(),
        |i: int| transition_zerofier_inverse(domain.points()[i], omicron@, height as nat),
    );
    let ghost last_spec = Seq::new(
        domain.points().len(),
        |i: int| terminal_zerofier_inverse(domain.points()[i], omicron@),
    );
    proof {
        assert forall|i: int| 0 <= i < n implies values(zs@)[i] == zs[i]@ by {}
        assert forall|i: int| 0 <= i < n implies values(first@)[i] == first_spec[i] && values(
            all@,
        )[i] == all_spec[i] && values(last@)[i] == last_spec[i] by {
            assert(first[i]@ == boundary_zerofier_inverse(zs[i]@));
            assert(values(zs@)[i] == domain.points()[i]);
        }
        assert(values(first@) =~= first_spec);
        assert(values(all@) =~= all_spec);
        assert(values(last@) =~= last_spec);
        if height > 0 {
            lemma_div_is_ordered_by_denominator(n as int, 1, height as int);
            lemma_div_basics_5(n as int, 1);
        }
    }
    let mut out: Vec<Vec<XFieldElement>> = Vec::new();
    let mut k: usize = 0;
    while k < boundary.len()
        invariant
            k <= boundary.len(),
            n == domain.length,
            first.len() == n,
            values(first@) == first_spec,
            codewords_shaped(codewords@, width as nat, n as nat),
            constraints_fit(boundary@, (width + parameters.len()) as nat),
            cw == x_matrix_values(codewords@),
            ps == x_values(parameters@),
            out.len() == k,
            forall|j: int|
                0 <= j < k ==> {
                    &&& (#[trigger] out[j]).len() == n
                    &&& x_values(out[j]@) == single_row_quotient(boundary[j], cw, ps, first_spec)
                },
        decreases boundary.len() - k,
    {
        assert(boundary@[k as int].fits((width + parameters.len()) as nat));
        out.push(quotient_codeword(&boundary[k], codewords, parameters, &first, None));
        k = k + 1;
    }
    let nb = boundary.len();
    let mut k: usize = 0;
    while k < transition.len()
        invariant
            k <= transition.len(),
            nb == boundary.len(),
            nb + transition.len() + terminal.len() <= usize::MAX,
            n == domain.length,
            all.len() == n,
            distance <= n,
            distance == unit_distance(n as int, height as int),
            values(all@) == all_spec,
            codewords_shaped(codewords@, width as nat, n as nat),
            constraints_fit(transition@, (2 * width + parameters.len()) as nat),
            cw == x_matrix_values(codewords@),
            ps == x_values(parameters@),
            out.len() == nb + k,
            forall|j: int|
                0 <= j < nb ==> {
                    &&& (#[trigger] out[j]).len() == n
                    &&& x_values(out[j]@) == single_row_quotient(boundary[j], cw, ps, first_spec)
                },
            forall|j: int|
                0 <= j < k ==> {
                    &&& (#[trigger] out[nb + j]).len() == n
                    &&& x_values(out[nb + j]@) == transition_quotient(
                        transition[j],
                        cw,
                        ps,
                        all_spec,
                        distance as int,
                    )
                },
        decreases transition.len() - k,
    {
        assert(transition@[k as int].fits((2 * width + parameters.len()) as nat));
        out.push(
            quotient_codeword(&transition[k], codewords, parameters, &all, Some(distance)),
        );
        k = k + 1;
    }
    let nt = transition.len();
    let mut k: usize = 0;
    while k < terminal.len()
        invariant
            k <= terminal.len(),
            nb == boundary.len(),
            nt == transition.len(),
            nb + nt + terminal.len() <= usize::MAX,
            n == domain.length,
            last.len() == n,
            values(last@) == last_spec,
            codewords_shaped(codewords@, width as nat, n as nat),
            constraints_fit(terminal@, (width + parameters.len()) as nat),
            cw == x_matrix_values(codewords@),
            ps == x_values(parameters@),
            out.len() == nb + nt + k,
            forall|j: int|
                0 <= j < nb ==> {
                    &&& (#[trigger] out[j]).len() == n
                    &&& x_values(out[j]@) == single_row_quotient(boundary[j], cw, ps, first_spec)
                },
            forall|j: int|
                0 <= j < nt ==> {
                    &&& (#[trigger] out[nb + j]).len() == n
                    &&& x_values(out[nb + j]@) == transition_quotient(
                        transition[j],
                        cw,
                        ps,
                        all_spec,
                        distance as int,
                    )
                },
            forall|j: int|
                0 <= j < k ==> {
                    &&& (#[trigger] out[nb + nt + j]).len() == n
                    &&& x_values(out[nb + nt + j]@) == single_row_quotient(
                        terminal[j],
                        cw,
                        ps,
                        last_spec,
                    )
                },
        decreases terminal.len() - k,
    {
        assert(terminal@[k as int].fits((width + parameters.len()) as nat));
        out.push(quotient_codeword(&terminal[k], codewords, parameters, &last, None));
        k = k + 1;
    }
    proof {
        let expected = quotients_spec(
            boundary@,
            transition@,
            terminal@,
            cw,
            ps,
            domain.points(),
            omicron@,
            height as nat,
        );
        assert forall|j: int| 0 <= j < out.len() implies (#[trigger] out[j]).len() == n
            && x_matrix_values(out@)[j] == expected[j] by {
            if j < nb {
            } else if j < nb + nt {
                let i = j - nb;
                assert(out[nb + i].len() == n);
            } else {
                let i = j - nb - nt;
                assert(out[nb + nt + i].len() == n);
            }
        }
        assert(x_matrix_values(out@) =~= expected);
    }
    Ok(out)
}

/// The bounds on the degrees of all quotients of a table: those of the
/// boundary constraints, then those of the transition constraints, then
/// those of the terminal constraints. They depend on the constraints and on
/// the dimensions of the table alone.
pub open spec fn quotient_bounds_spec(
    boundary: Seq<MPolynomial>,
    transition: Seq<MPolynomial>,
    terminal: Seq<MPolynomial>,
    width: nat,
    d: int,
    parameters: nat,
    height: int,
) -> Seq<int> {
    single_row_bounds(boundary, width, d, parameters) + transition_bounds(
        transition,
        width,
        d,
        parameters,
        height,
    ) + single_row_bounds(terminal, width, d, parameters)
}

/// The degrees of `first`, then those of `second`.
pub fn append_degrees(first: Vec<Degree>, second: &Vec<Degree>) -> (r: Vec<Degree>)
    ensures
        degree_values(r@) == degree_values(first@) + degree_values(second@),
{
    let mut out = first;
    let ghost start = out@;
    let mut i: usize = 0;
    while i < second.len()
        invariant
            i <= second.len(),
            out.len() == start.len() + i,
            forall|j: int| 0 <= j < start.len() ==> out[j] == start[j],
            forall|j: int| 0 <= j < i ==> out[start.len() + j] == second[j],
        decreases second.len() - i,
    {
        out.push(second[i]);
        i = i + 1;
    }
    assert(degree_values(out@) =~= degree_values(start) + degree_values(second@));
    out
}

/// The largest degree that the quotient of a base transition constraint of a
/// table can have, and -1 where the table has no such constraint.
pub fn max_degree_for<T>(table: &Table<T>, base_transition: &Vec<MPolynomial>) -> (r: Degree)
    requires
        table.well_formed(),
        constraints_fit(base_transition@, (2 * table.base_width) as nat),
    ensures
        r == max_of(
            transition_bounds(
                base_transition@,
                table.base_width as nat,
                table.height + table.num_randomizers - 1,
                0,
                table.height as int,
            ),
        ),
{
    let d = table.interpolant_degree();
    let bounds = transition_degree_bounds(base_transition, table.base_width, d, 0, table.height);
    max_degree_of(&bounds)
}

/// The bounds on the degrees of all quotients of a table.
pub fn quotient_degree_bounds_for<T>(
    table: &Table<T>,
    boundary: &Vec<MPolynomial>,
    transition: &Vec<MPolynomial>,
    terminal: &Vec<MPolynomial>,
    parameters: usize,
) -> (r: Vec<Degree>)
    requires
        table.well_formed(),
        parameters <= 64,
        constraints_fit(boundary@, (table.full_width + parameters) as nat),
        constraints_fit(transition@, (2 * table.full_width + parameters) as nat),
        constraints_fit(terminal@, (table.full_width + parameters) as nat),
    ensures
        degree_values(r@) == quotient_bounds_spec(
            boundary@,
            transition@,
            terminal@,
            table.full_width as nat,
            table.height + table.num_randomizers - 1,
            parameters as nat,
            table.height as int,
        ),
{
    let d = table.interpolant_degree();
    let first = single_row_degree_bounds(boundary, table.full_width, d, parameters);
    let middle = transition_degree_bounds(
        transition,
        table.full_width,
        d,
        parameters,
        table.height,
    );
    let last = single_row_degree_bounds(terminal, table.full_width, d, parameters);
    append_degrees(append_degrees(first, &middle), &last)
}

} // verus!
