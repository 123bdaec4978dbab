//! The table of the hash coprocessor: one row per round of the permutation, with its number and the sixteen elements of the state.

use crate::shared_math::fri_domain::FriDomain;
use crate::shared_math::mpolynomial::Degree;
use crate::shared_math::stark::quotient::max_degree_for;
use crate::shared_math::stark::table::MAX_HEIGHT;
use crate::shared_math::stark::table::TableError;
use crate::shared_math::stark::triton::table::base_table::base_transition_constraints;
use crate::shared_math::stark::triton::table::base_table::BaseTable;
use crate::shared_math::stark::triton::table::base_table::BWord;
use crate::shared_math::stark::triton::table::base_table::max_degree_of_table;
use crate::shared_math::stark::triton::table::base_table::new_base_table;
use crate::shared_math::stark::triton::table::base_table::rows_have_width;
use vstd::prelude::*;

verus! {

/// The number of columns that the trace fills.
pub const BASE_WIDTH: usize = 17;

/// The number of columns after extension.
pub const FULL_WIDTH: usize = 19;

/// The table of the hash coprocessor: one row per round of the permutation, with its number and the sixteen elements of the state.
#[derive(Debug, Clone)]
pub struct AuxTable {
    pub base: BaseTable,
}

/// The table of the hash coprocessor: one row per round of the permutation, with its number and the sixteen elements of the state, after extension.
#[derive(Debug, Clone)]
pub struct ExtAuxTable {
    pub base: BaseTable,
}

impl AuxTable {
    /// The invariant of the table, with the widths of its kind.
    pub open spec fn well_formed(&self) -> bool {
        &&& self.base.well_formed()
        &&& self.base.base_width == BASE_WIDTH
        &&& self.base.full_width == FULL_WIDTH
    }

    /// The table that holds the rows of a trace, for the prover.
    pub fn new_prover(
        generator: BWord,
        order: usize,
        num_randomizers: usize,
        matrix: Vec<Vec<BWord>>,
    ) -> (r: Self)
        requires
            num_randomizers <= MAX_HEIGHT,
            matrix.len() <= MAX_HEIGHT,
            rows_have_width(matrix@, BASE_WIDTH as nat),
        ensures
            r.well_formed(),
            r.base.matrix == matrix,
            r.base.length == matrix.len(),
            r.base.num_randomizers == num_randomizers,
            r.base.generator == generator,
            r.base.order == order,
            matrix.len() == 0 ==> r.base.height == 0,
            matrix.len() > 0 ==> matrix.len() <= r.base.height < 2 * matrix.len(),
    {
        Self {
            base: new_base_table(
                BASE_WIDTH,
                FULL_WIDTH,
                num_randomizers,
                generator,
                order,
                matrix,
            ),
        }
    }

    /// The largest degree that the quotient of a constraint on the trace can
    /// have, and -1 where there is no constraint.
    pub fn max_degree(&self) -> (r: Degree)
        requires
            self.well_formed(),
        ensures
            r == max_degree_of_table(self.base),
    {
        let constraints = base_transition_constraints();
        max_degree_for(&self.base, &constraints)
    }

    /// The codewords of the columns of the trace over `fri_domain`, with
    /// fresh random values mixed in.
    pub fn low_degree_extension(&self, fri_domain: &FriDomain) -> (r: Result<
        Vec<Vec<BWord>>,
        TableError,
    >)
        requires
            self.well_formed(),
            self.base.is_padded(),
        ensures
            r is Err ==> self.base.lde_error(*fri_domain) == Some(r->Err_0),
            r is Ok ==> self.base.lde_error(*fri_domain) is None && self.base.are_base_codewords(
                *fri_domain,
                r->Ok_0@,
            ),
    {
        self.base.base_codewords(fri_domain)
    }
}

} // verus!
