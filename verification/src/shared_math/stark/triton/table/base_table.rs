//! What the tables of this machine share.

use crate::shared_math::b_field_element::BFieldElement;
use crate::shared_math::b_field_element::is_power_of_two;
use crate::shared_math::mpolynomial::MPolynomial;
use crate::shared_math::stark::quotient::constraints_fit;
use crate::shared_math::stark::quotient::max_of;
use crate::shared_math::stark::quotient::transition_bounds;
use crate::shared_math::stark::table::MAX_HEIGHT;
use crate::shared_math::stark::table::MAX_WIDTH;
use crate::shared_math::stark::table::omicron_of;
use crate::shared_math::stark::table::Table;
use vstd::prelude::*;

verus! {

/// A word of the machine: an element of the base field.
pub type BWord = BFieldElement;

/// A table of this machine: the shared table with nothing of its own.
pub type BaseTable = Table<()>;

/// The constraints between two consecutive rows of a trace. The tables of
/// this machine have none.
pub open spec fn spec_base_transition_constraints() -> Seq<MPolynomial> {
    Seq::<MPolynomial>::empty()
}

/// The constraints between two consecutive rows of a trace.
pub fn base_transition_constraints() -> (r: Vec<MPolynomial>)
    ensures
        r@ == spec_base_transition_constraints(),
        forall|n: nat| constraints_fit(r@, n),
{
    let r: Vec<MPolynomial> = Vec::new();
    assert(r@ =~= spec_base_transition_constraints());
    r
}

/// The largest degree that the quotient of a constraint on the trace of
/// `table` can have, and -1 where there is no constraint.
pub open spec fn max_degree_of_table(table: BaseTable) -> int {
    max_of(
        transition_bounds(
            spec_base_transition_constraints(),
            table.base_width as nat,
            table.height + table.num_randomizers - 1,
            0,
            table.height as int,
        ),
    )
}

/// Whether a matrix has `width` elements in every row.
pub open spec fn rows_have_width(matrix: Seq<Vec<BWord>>, width: nat) -> bool {
    forall|r: int| 0 <= r < matrix.len() ==> (#[trigger] matrix[r]).len() == width
}

/// The table of the given widths that holds `matrix`. Its height is the
/// least power of two that is at least the number of rows.
pub fn new_base_table(
    base_width: usize,
    full_width: usize,
    num_randomizers: usize,
    generator: BWord,
    order: usize,
    matrix: Vec<Vec<BWord>>,
) -> (r: BaseTable)
    requires
        base_width <= full_width <= MAX_WIDTH,
        num_randomizers <= MAX_HEIGHT,
        matrix.len() <= MAX_HEIGHT,
        rows_have_width(matrix@, base_width as nat),
    ensures
        r.well_formed(),
        r.base_width == base_width,
        r.full_width == full_width,
        r.num_randomizers == num_randomizers,
        r.length == matrix.len(),
        matrix.len() == 0 ==> r.height == 0,
        matrix.len() > 0 ==> is_power_of_two(r.height as nat) && matrix.len() <= r.height < 2
            * matrix.len(),
        r.omicron@ == omicron_of(generator@, order as nat, r.height as nat),
        r.generator == generator,
        r.order == order,
        r.matrix == matrix,
        r.extended_matrix.len() == 0,
        r.codewords.len() == 0,
        r.extended_codewords.len() == 0,
{
    let mut table = Table::new(
        base_width,
        full_width,
        matrix.len(),
        num_randomizers,
        generator,
        order,
        (),
    );
    table.matrix = matrix;
    table
}

} // verus!
