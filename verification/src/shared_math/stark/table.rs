//! What all tables share: their shape, the low-degree extension of their
//! columns, and the quotients of their constraints.

use crate::shared_math::b_field_element::add_mod;
use crate::shared_math::b_field_element::BFieldElement;
use crate::shared_math::b_field_element::is_power_of_two;
use crate::shared_math::b_field_element::lemma_mul_mod_comm;
use crate::shared_math::b_field_element::mul_mod;
use crate::shared_math::b_field_element::P;
use crate::shared_math::b_field_element::pow_mod;
use crate::shared_math::b_field_element::values;
use crate::shared_math::fri_domain::codeword_of;
use crate::shared_math::fri_domain::evaluate_at_points;
use crate::shared_math::fri_domain::FriDomain;
use crate::shared_math::mpolynomial::Degree;
use crate::shared_math::mpolynomial::x_values;
use crate::shared_math::other::random_elements;
use crate::shared_math::other::random_x_elements;
use crate::shared_math::other::roundup_npo2;
use crate::shared_math::polynomial::eval;
use crate::shared_math::polynomial::lemma_eval_range;
use crate::shared_math::polynomial::lemma_interpolant_is_unique;
use crate::shared_math::polynomial::lemma_interpolant_length;
use crate::shared_math::polynomial::interpolable;
use crate::shared_math::polynomial::interpolant;
use crate::shared_math::polynomial::lemma_interpolant_meets_points;
use crate::shared_math::polynomial::Polynomial;
use crate::shared_math::x_field_element::x_lift;
use crate::shared_math::x_field_element::x_zero;
use crate::shared_math::x_field_element::XFieldElement;
use crate::shared_math::x_field_element::XValue;
use vstd::arithmetic::div_mod::*;
use vstd::prelude::*;

verus! {

/// The largest height of a table.
pub const MAX_HEIGHT: u64 = 0x4000_0000;

/// The largest width of a table.
pub const MAX_WIDTH: u64 = 0x1_0000;

/// Why a table could not be extended or its quotients not be computed.
#[derive(Debug, Clone, Copy, PartialEq, Eq, Structural)]
pub enum TableError {
    /// The evaluation domain has fewer points than the table has rows.
    DomainTooShort,
    /// Two of the points over which a column is interpolated cannot be told
    /// apart.
    PointsCollide,
    /// The codewords at hand are not those of this table over this domain.
    ShapeMismatch,
    /// A point of the evaluation domain is a point of the trace, so that a
    /// quotient has no value there.
    ZerofierVanishes,
    /// A constraint does not vanish on a row of the trace where it has to.
    ConstraintViolated,
}

/// The values of a matrix, row by row.
pub open spec fn matrix_values(m: Seq<Vec<BFieldElement>>) -> Seq<Seq<int>> {
    Seq::new(m.len(), |r: int| values(m[r]@))
}

/// Column `c` of a matrix.
pub open spec fn column(m: Seq<Seq<int>>, c: int) -> Seq<int> {
    Seq::new(m.len(), |r: int| m[r][c])
}

/// The codeword that is zero everywhere.
pub open spec fn zero_codeword(n: nat) -> Seq<int> {
    Seq::new(n, |i: int| 0int)
}

/// The generator of the subgroup of order `target_order`, derived from one
/// of order `generator_order` by squaring it as often as the order halves.
pub open spec fn omicron_of(generator: int, generator_order: nat, target_order: nat) -> int
    decreases generator_order,
{
    if target_order == 0 {
        1
    } else if generator_order <= target_order {
        generator % (P as int)
    } else {
        omicron_of(mul_mod(generator, generator), generator_order / 2, target_order)
    }
}

/// The points over which the columns of a table are interpolated: the
/// `height` powers of `omicron`, at which a column takes the values of the
/// trace, and then `num_randomizers` further points `omega * omicron^i`, at
/// which it takes random values.
pub open spec fn interpolation_points(
    omicron: int,
    omega: int,
    height: nat,
    num_randomizers: nat,
) -> Seq<int> {
    Seq::new(
        height + num_randomizers,
        |i: int|
            if i < height {
                pow_mod(omicron, i as nat)
            } else {
                mul_mod(omega, pow_mod(omicron, (i - height) as nat))
            },
    )
}

/// The codeword of a column: the values over `domain_points` of the
/// interpolant that takes the values `trace`, then `randomizers`, at
/// `points`.
pub open spec fn extended_column(
    trace: Seq<int>,
    randomizers: Seq<int>,
    points: Seq<int>,
    domain_points: Seq<int>,
) -> Seq<int> {
    codeword_of(interpolant(points, trace + randomizers, points.len()), domain_points)
}

/// The largest height is a power of two.
pub proof fn lemma_max_height_is_power_of_two()
    ensures
        is_power_of_two(MAX_HEIGHT as nat),
{
    reveal_with_fuel(is_power_of_two, 32);
}

/// Derives the generator of the subgroup of order `target_order` from one of
/// order `generator_order`.
pub fn derive_omicron(generator: BFieldElement, generator_order: usize, target_order: usize) -> (r:
    BFieldElement)
    ensures
        r@ == omicron_of(generator@, generator_order as nat, target_order as nat),
{
    if target_order == 0 {
        return BFieldElement::ring_one();
    }
    let mut t_generator = generator;
    let mut t_order = generator_order;
    while t_order > target_order
        invariant
            target_order > 0,
            omicron_of(t_generator@, t_order as nat, target_order as nat) == omicron_of(
                generator@,
                generator_order as nat,
                target_order as nat,
            ),
        decreases t_order,
    {
        t_generator = t_generator.mul(t_generator);
        t_order = t_order / 2;
    }
    proof {
        lemma_mod_twice(t_generator.0 as int, P as int);
    }
    t_generator
}

/// The points over which the columns of a table are interpolated.
pub fn trace_domain(
    omicron: BFieldElement,
    omega: BFieldElement,
    height: usize,
    num_randomizers: usize,
) -> (r: Vec<BFieldElement>)
    requires
        height + num_randomizers <= usize::MAX,
    ensures
        values(r@) == interpolation_points(
            omicron@,
            omega@,
            height as nat,
            num_randomizers as nat,
        ),
        r.len() == height + num_randomizers,
{
    let mut out: Vec<BFieldElement> = Vec::new();
    let mut acc = BFieldElement::ring_one();
    let mut i: usize = 0;
    while i < height
        invariant
            i <= height,
            out.len() == i,
            acc@ == pow_mod(omicron@, i as nat),
            forall|j: int| 0 <= j < i ==> out[j]@ == pow_mod(omicron@, j as nat),
        decreases height - i,
    {
        out.push(acc);
        proof {
            lemma_mul_mod_comm(acc@, omicron@);
        }
        acc = acc.mul(omicron);
        i = i + 1;
    }
    let mut acc = BFieldElement::ring_one();
    let mut k: usize = 0;
    while k < num_randomizers
        invariant
            k <= num_randomizers,
            height + num_randomizers <= usize::MAX,
            out.len() == height + k,
            acc@ == pow_mod(omicron@, k as nat),
            forall|j: int| 0 <= j < height ==> out[j]@ == pow_mod(omicron@, j as nat),
            forall|j: int|
                height <= j < height + k ==> out[j]@ == mul_mod(
                    omega@,
                    pow_mod(omicron@, (j - height) as nat),
                ),
        decreases num_randomizers - k,
    {
        out.push(omega.mul(acc));
        proof {
            lemma_mul_mod_comm(acc@, omicron@);
        }
        acc = acc.mul(omicron);
        k = k + 1;
    }
    assert(values(out@) =~= interpolation_points(
        omicron@,
        omega@,
        height as nat,
        num_randomizers as nat,
    ));
    out
}

/// A copy of a list of codewords.
pub fn copy_codewords(codewords: &Vec<Vec<BFieldElement>>) -> (r: Vec<Vec<BFieldElement>>)
    ensures
        r.len() == codewords.len(),
        forall|c: int| 0 <= c < r.len() ==> #[trigger] r[c]@ == codewords[c]@,
{
    let mut out: Vec<Vec<BFieldElement>> = Vec::new();
    let mut c: usize = 0;
    while c < codewords.len()
        invariant
            c <= codewords.len(),
            out.len() == c,
            forall|k: int| 0 <= k < c ==> #[trigger] out[k]@ == codewords[k]@,
        decreases codewords.len() - c,
    {
        let mut codeword: Vec<BFieldElement> = Vec::new();
        let mut i: usize = 0;
        while i < codewords[c].len()
            invariant
                c < codewords.len(),
                i <= codewords[c as int].len(),
                codeword.len() == i,
                forall|j: int| 0 <= j < i ==> codeword[j] == codewords[c as int][j],
            decreases codewords[c as int].len() - i,
        {
            codeword.push(codewords[c][i]);
            i = i + 1;
        }
        assert(codeword@ =~= codewords[c as int]@);
        out.push(codeword);
        c = c + 1;
    }
    out
}

/// A table: one component of an execution trace, with the dimensions it was
/// declared with, its rows, and what was derived from them.
#[derive(Debug, Clone)]
pub struct Table<T> {
    /// The number of columns that the trace fills.
    pub base_width: usize,
    /// The number of columns after extension.
    pub full_width: usize,
    /// The number of rows that the trace fills.
    pub length: usize,
    /// The number of random values mixed into each column's interpolant.
    pub num_randomizers: usize,
    /// The number of rows after padding: zero, or a power of two.
    pub height: usize,
    /// The generator of the subgroup whose order is the height.
    pub omicron: BFieldElement,
    /// A generator of a subgroup whose order is a power of two.
    pub generator: BFieldElement,
    /// The order of `generator`.
    pub order: usize,
    /// The rows of the trace.
    pub matrix: Vec<Vec<BFieldElement>>,
    /// The rows after extension.
    pub extended_matrix: Vec<Vec<XFieldElement>>,
    /// The codewords of the base columns.
    pub codewords: Vec<Vec<BFieldElement>>,
    /// The codewords of all columns, base columns first.
    pub extended_codewords: Vec<Vec<XFieldElement>>,
    /// What only one kind of table has.
    pub more: T,
}

impl<T> Table<T> {
    /// The invariant of a table: the base columns are among all columns, the
    /// height is zero or a power of two, and every row of the matrix has one
    /// element per base column.
    pub open spec fn well_formed(&self) -> bool {
        &&& self.base_width <= self.full_width <= MAX_WIDTH
        &&& self.height <= MAX_HEIGHT
        &&& self.num_randomizers <= MAX_HEIGHT
        &&& (self.height == 0 || is_power_of_two(self.height as nat))
        &&& forall|r: int|
            0 <= r < self.matrix.len() ==> (#[trigger] self.matrix[r]).len() == self.base_width
    }

    /// Whether the matrix has been padded: it has as many rows as the table
    /// is high.
    pub open spec fn is_padded(&self) -> bool {
        self.matrix.len() == self.height
    }

    /// Whether `other` differs from this table in its base codewords at
    /// most.
    pub open spec fn same_but_codewords(&self, other: &Self) -> bool {
        &&& self.base_width == other.base_width
        &&& self.full_width == other.full_width
        &&& self.length == other.length
        &&& self.num_randomizers == other.num_randomizers
        &&& self.height == other.height
        &&& self.omicron == other.omicron
        &&& self.generator == other.generator
        &&& self.order == other.order
        &&& self.matrix == other.matrix
        &&& self.extended_matrix == other.extended_matrix
        &&& self.extended_codewords == other.extended_codewords
        &&& self.more == other.more
    }

    /// The points over which the columns of this table are interpolated.
    pub open spec fn trace_points(&self, domain: FriDomain) -> Seq<int> {
        interpolation_points(
            self.omicron@,
            domain.omega@,
            self.height as nat,
            self.num_randomizers as nat,
        )
    }

    /// The codeword of base column `c` over `domain`, with the given random
    /// values mixed in: zero for a table without rows.
    pub open spec fn base_codeword(&self, domain: FriDomain, randomizers: Seq<int>, c: int) -> Seq<
        int,
    > {
        if self.height == 0 {
            zero_codeword(domain.length as nat)
        } else {
            extended_column(
                column(matrix_values(self.matrix@), c),
                randomizers,
                self.trace_points(domain),
                domain.points(),
            )
        }
    }

    /// An empty table of the given dimensions. Its height is the least power
    /// of two that is at least `length`.
    pub fn new(
        base_width: usize,
        full_width: usize,
        length: usize,
        num_randomizers: usize,
        generator: BFieldElement,
        order: usize,
        more: T,
    ) -> (r: Self)
        requires
            base_width <= full_width <= MAX_WIDTH,
            length <= MAX_HEIGHT,
            num_randomizers <= MAX_HEIGHT,
        ensures
            r.well_formed(),
            r.base_width == base_width,
            r.full_width == full_width,
            r.length == length,
            r.num_randomizers == num_randomizers,
            length == 0 ==> r.height == 0,
            length > 0 ==> is_power_of_two(r.height as nat) && length <= r.height < 2 * length,
            forall|q: nat| is_power_of_two(q) && length <= q ==> r.height <= q,
            r.omicron@ == omicron_of(generator@, order as nat, r.height as nat),
            r.generator == generator,
            r.order == order,
            r.matrix.len() == 0,
            r.extended_matrix.len() == 0,
            r.codewords.len() == 0,
            r.extended_codewords.len() == 0,
            r.more == more,
    {
        proof {
            lemma_max_height_is_power_of_two();
        }
        let height = roundup_npo2(length as u64) as usize;
        let omicron = derive_omicron(generator, order, height);
        Table {
            base_width,
            full_width,
            length,
            num_randomizers,
            height,
            omicron,
            generator,
            order,
            matrix: Vec::new(),
            extended_matrix: Vec::new(),
            codewords: Vec::new(),
            extended_codewords: Vec::new(),
            more,
        }
    }

    /// The degree of the interpolants of the columns: one less than the
    /// number of points they are interpolated over.
    pub fn interpolant_degree(&self) -> (r: Degree)
        requires
            self.height <= MAX_HEIGHT,
            self.num_randomizers <= MAX_HEIGHT,
        ensures
            r == self.height + self.num_randomizers - 1,
    {
        (self.height as u64 + self.num_randomizers as u64) as i64 - 1
    }

    /// Column `c` of the matrix, followed by `randomizers`.
    fn column_with_randomizers(&self, c: usize, randomizers: &Vec<BFieldElement>) -> (r: Vec<
        BFieldElement,
    >)
        requires
            self.well_formed(),
            c < self.base_width,
            self.matrix.len() + randomizers.len() <= usize::MAX,
        ensures
            values(r@) == column(matrix_values(self.matrix@), c as int) + values(randomizers@),
            r.len() == self.matrix.len() + randomizers.len(),
    {
        let mut out: Vec<BFieldElement> = Vec::new();
        let rows = self.matrix.len();
        let mut i: usize = 0;
        while i < rows
            invariant
                i <= rows,
                rows == self.matrix.len(),
                self.well_formed(),
                c < self.base_width,
                out.len() == i,
                forall|j: int| 0 <= j < i ==> out[j]@ == self.matrix[j][c as int]@,
            decreases rows - i,
        {
            out.push(self.matrix[i][c]);
            i = i + 1;
        }
        let mut k: usize = 0;
        while k < randomizers.len()
            invariant
                k <= randomizers.len(),
                rows == self.matrix.len(),
                rows + randomizers.len() <= usize::MAX,
                out.len() == rows + k,
                forall|j: int| 0 <= j < rows ==> out[j]@ == self.matrix[j][c as int]@,
                forall|j: int| rows <= j < rows + k ==> out[j]@ == randomizers[j - rows]@,
            decreases randomizers.len() - k,
        {
            out.push(randomizers[k]);
            k = k + 1;
        }
        assert(values(out@) =~= column(matrix_values(self.matrix@), c as int) + values(
            randomizers@,
        ));
        out
    }

    /// The codewords of the base columns over `domain`, with
    /// `randomizers[c]` mixed into column `c`.
    pub fn base_codewords_with_randomizers(
        &self,
        domain: &FriDomain,
        randomizers: &Vec<Vec<BFieldElement>>,
    ) -> (r: Result<Vec<Vec<BFieldElement>>, TableError>)
        requires
            self.well_formed(),
            self.is_padded(),
            randomizers.len() == self.base_width,
            forall|c: int|
                0 <= c < randomizers.len() ==> (#[trigger] randomizers[c]).len() == self.num_randomizers,
        ensures
            r == Err::<Vec<Vec<BFieldElement>>, TableError>(TableError::DomainTooShort)
                <==> domain.length < self.height,
            r == Err::<Vec<Vec<BFieldElement>>, TableError>(TableError::PointsCollide) <==> (
            self.height <= domain.length && self.height > 0 && self.base_width > 0
                && !interpolable(
                self.trace_points(*domain),
                (self.height + self.num_randomizers) as nat,
            )),
            r is Err ==> (r == Err::<Vec<Vec<BFieldElement>>, TableError>(
                TableError::DomainTooShort,
            ) || r == Err::<Vec<Vec<BFieldElement>>, TableError>(TableError::PointsCollide)),
            r is Ok ==> {
                let codewords = r->Ok_0;
                &&& codewords.len() == self.base_width
                &&& forall|c: int|
                    0 <= c < codewords.len() ==> {
                        &&& (#[trigger] codewords[c]).len() == domain.length
                        &&& values(codewords[c]@) == self.base_codeword(
                            *domain,
                            values(randomizers[c]@),
                            c,
                        )
                    }
            },
    {
        if domain.length < self.height {
            return Err(TableError::DomainTooShort);
        }
        let domain_values = domain.b_domain_values();
        let mut codewords: Vec<Vec<BFieldElement>> = Vec::new();
        let points = trace_domain(self.omicron, domain.omega, self.height, self.num_randomizers);
        let mut c: usize = 0;
        while c < self.base_width
            invariant
                c <= self.base_width,
                self.well_formed(),
                self.is_padded(),
                self.height <= domain.length,
                randomizers.len() == self.base_width,
                forall|k: int|
                    0 <= k < randomizers.len() ==> (#[trigger] randomizers[k]).len()
                        == self.num_randomizers,
                domain_values.len() == domain.length,
                values(domain_values@) == domain.points(),
                values(points@) == self.trace_points(*domain),
                points.len() == self.height + self.num_randomizers,
                codewords.len() == c,
                c > 0 && self.height > 0 ==> interpolable(
                    self.trace_points(*domain),
                    (self.height + self.num_randomizers) as nat,
                ),
                forall|k: int|
                    0 <= k < c ==> {
                        &&& (#[trigger] codewords[k]).len() == domain.length
                        &&& values(codewords[k]@) == self.base_codeword(
                            *domain,
                            values(randomizers[k]@),
                            k,
                        )
                    },
            decreases self.base_width - c,
        {
            if self.height == 0 {
                let zero = Polynomial::ring_zero();
                let codeword = evaluate_at_points(&zero, &domain_values);
                assert(values(codeword@) =~= zero_codeword(domain.length as nat));
                codewords.push(codeword);
            } else {
                assert(randomizers[c as int].len() == self.num_randomizers);
                let targets = self.column_with_randomizers(c, &randomizers[c]);
                match Polynomial::interpolate(&points, &targets) {
                    None => {
                        return Err(TableError::PointsCollide);
                    },
                    Some(polynomial) => {
                        let codeword = evaluate_at_points(&polynomial, &domain_values);
                        codewords.push(codeword);
                    },
                }
            }
            c = c + 1;
        }
        Ok(codewords)
    }

    /// Extends the base columns over `domain`, with `randomizers[c]` mixed
    /// into column `c`, keeps the codewords on the table and returns them.
    pub fn lde_with_randomizers(
        &mut self,
        domain: &FriDomain,
        randomizers: &Vec<Vec<BFieldElement>>,
    ) -> (r: Result<Vec<Vec<BFieldElement>>, TableError>)
        requires
            old(self).well_formed(),
            old(self).is_padded(),
            randomizers.len() == old(self).base_width,
            forall|c: int|
                0 <= c < randomizers.len() ==> (#[trigger] randomizers[c]).len() == old(self).num_randomizers,
        ensures
            r == Err::<Vec<Vec<BFieldElement>>, TableError>(TableError::DomainTooShort)
                <==> domain.length < old(self).height,
            r == Err::<Vec<Vec<BFieldElement>>, TableError>(TableError::PointsCollide) <==> (
            old(self).height <= domain.length && old(self).height > 0 && old(self).base_width > 0
                && !interpolable(
                old(self).trace_points(*domain),
                (old(self).height + old(self).num_randomizers) as nat,
            )),
            r is Err ==> *final(self) == *old(self),
            r is Err ==> (r == Err::<Vec<Vec<BFieldElement>>, TableError>(
                TableError::DomainTooShort,
            ) || r == Err::<Vec<Vec<BFieldElement>>, TableError>(TableError::PointsCollide)),
            r is Ok ==> {
                let codewords = r->Ok_0;
                &&& old(self).same_but_codewords(final(self))
                &&& codewords.len() == old(self).base_width
                &&& final(self).codewords.len() == old(self).base_width
                &&& forall|c: int|
                    0 <= c < codewords.len() ==> {
                        &&& (#[trigger] codewords[c]).len() == domain.length
                        &&& values(codewords[c]@) == old(self).base_codeword(
                            *domain,
                            values(randomizers[c]@),
                            c,
                        )
                        &&& final(self).codewords[c]@ == codewords[c]@
                    }
            },
    {
        match self.base_codewords_with_randomizers(domain, randomizers) {
            Err(e) => Err(e),
            Ok(codewords) => {
                self.codewords = copy_codewords(&codewords);
                Ok(codewords)
            },
        }
    }

    /// The codewords of the base columns over `domain`, with fresh random
    /// values mixed in.
    pub fn base_codewords(&self, domain: &FriDomain) -> (r: Result<
        Vec<Vec<BFieldElement>>,
        TableError,
    >)
        requires
            self.well_formed(),
            self.is_padded(),
        ensures
            r is Err ==> self.lde_error(*domain) == Some(r->Err_0),
            r is Ok ==> self.lde_error(*domain) is None && self.are_base_codewords(
                *domain,
                r->Ok_0@,
            ),
    {
        let mut randomizers: Vec<Vec<BFieldElement>> = Vec::new();
        let mut c: usize = 0;
        while c < self.base_width
            invariant
                c <= self.base_width,
                randomizers.len() == c,
                forall|k: int|
                    0 <= k < c ==> (#[trigger] randomizers[k]).len() == self.num_randomizers,
            decreases self.base_width - c,
        {
            randomizers.push(random_elements(self.num_randomizers));
            c = c + 1;
        }
        let r = self.base_codewords_with_randomizers(domain, &randomizers);
        proof {
            if r is Ok {
                let codewords = r->Ok_0;
                assert forall|c: int| 0 <= c < codewords.len() implies self.is_base_codeword(
                    *domain,
                    values((#[trigger] codewords[c])@),
                    c,
                ) by {
                    let witness = values(randomizers[c]@);
                    assert(witness.len() == self.num_randomizers);
                    assert(values(codewords[c]@) == self.base_codeword(*domain, witness, c));
                }
            }
        }
        r
    }

    /// Extends the base columns over `domain`, with fresh random values
    /// mixed in, keeps the codewords on the table and returns them.
    pub fn lde(&mut self, domain: &FriDomain) -> (r: Result<Vec<Vec<BFieldElement>>, TableError>)
        requires
            old(self).well_formed(),
            old(self).is_padded(),
        ensures
            r is Err ==> old(self).lde_error(*domain) == Some(r->Err_0) && *final(self) == *old(self),
            r is Ok ==> old(self).lde_error(*domain) is None && final(self).holds_base_codewords(
                old(self),
                *domain,
                r->Ok_0@,
            ),
    {
        match self.base_codewords(domain) {
            Err(e) => Err(e),
            Ok(codewords) => {
                self.codewords = copy_codewords(&codewords);
                proof {
                    assert forall|c: int| 0 <= c < codewords.len() implies self.codewords[c]@
                        == (#[trigger] codewords[c])@ by {}
                }
                Ok(codewords)
            },
        }
    }
}

/// A table that holds the codewords of its base columns holds them as its
/// own codewords.
pub proof fn lemma_holds_own_base_codewords<T>(
    after: Table<T>,
    before: Table<T>,
    domain: FriDomain,
    codewords: Seq<Vec<BFieldElement>>,
)
    requires
        after.holds_base_codewords(&before, domain, codewords),
    ensures
        after.holds_base_codewords(&before, domain, after.codewords@),
        matrix_values(after.codewords@) == matrix_values(codewords),
        before.well_formed() ==> after.well_formed(),
        before.is_padded() ==> after.is_padded(),
        before.is_extended() ==> after.is_extended(),
{
    assert forall|c: int| 0 <= c < after.codewords.len() implies {
        &&& (#[trigger] after.codewords[c]).len() == domain.length
        &&& before.is_base_codeword(domain, values(after.codewords[c]@), c)
    } by {
        assert(codewords[c].len() == domain.length);
    }
    assert(matrix_values(after.codewords@) =~= matrix_values(codewords)) by {
        assert forall|c: int| 0 <= c < codewords.len() implies values(after.codewords[c]@)
            == values(codewords[c]@) by {
            assert(codewords[c].len() == domain.length);
        }
    }
}

/// A table that holds the codewords of its extension columns holds, as the
/// last of its codewords of all columns, those codewords.
pub proof fn lemma_holds_own_extension_codewords<T>(
    after: Table<T>,
    before: Table<T>,
    domain: FriDomain,
    codewords: Seq<Vec<XFieldElement>>,
)
    requires
        after.holds_extension_codewords(&before, domain, codewords),
    ensures
        x_matrix_values(codewords) == x_matrix_values(
            after.extended_codewords@.subrange(
                before.base_width as int,
                before.full_width as int,
            ),
        ),
        before.well_formed() ==> after.well_formed(),
        before.is_padded() ==> after.is_padded(),
        before.is_extended() ==> after.is_extended(),
{
    let own = after.extended_codewords@.subrange(
        before.base_width as int,
        before.full_width as int,
    );
    assert(x_matrix_values(codewords) =~= x_matrix_values(own)) by {
        assert forall|k: int| 0 <= k < codewords.len() implies x_values(codewords[k]@)
            == x_values(own[k]@) by {
            assert(codewords[k].len() == domain.length);
            assert(own[k] == after.extended_codewords[before.base_width + k]);
        }
    }
}

/// Where the points of a table can be interpolated, the interpolant behind
/// the codeword of base column `c` takes, at the `j`-th power of `omicron`,
/// the value that the trace has in row `j` of that column.
pub proof fn lemma_codeword_interpolant_meets_trace<T>(
    table: Table<T>,
    domain: FriDomain,
    randomizers: Seq<int>,
    c: int,
    j: int,
)
    requires
        table.well_formed(),
        table.is_padded(),
        interpolable(
            table.trace_points(domain),
            (table.height + table.num_randomizers) as nat,
        ),
        0 <= c < table.base_width,
        0 <= j < table.height,
    ensures
        eval(
            interpolant(
                table.trace_points(domain),
                column(matrix_values(table.matrix@), c) + randomizers,
                (table.height + table.num_randomizers) as nat,
            ),
            pow_mod(table.omicron@, j as nat),
        ) == table.matrix[j][c]@,
{
    let points = table.trace_points(domain);
    let targets = column(matrix_values(table.matrix@), c) + randomizers;
    lemma_interpolant_meets_points(
        points,
        targets,
        (table.height + table.num_randomizers) as nat,
        j,
    );
    assert(points[j] == pow_mod(table.omicron@, j as nat));
    assert(targets[j] == table.matrix[j][c]@);
    lemma_mod_twice(table.matrix[j][c].0 as int, P as int);
}

/// Where the points of a table and the points of the domain can be
/// interpolated, and the domain has as many points as a column is
/// interpolated over or more, the interpolant of a codeword of base column
/// `c` over the domain takes, at the `j`-th power of `omicron`, the value
/// that the trace has in row `j` of that column: the codeword holds its
/// column.
pub proof fn lemma_interpolated_codeword_meets_trace<T>(
    table: Table<T>,
    domain: FriDomain,
    codeword: Seq<int>,
    c: int,
    j: int,
)
    requires
        table.well_formed(),
        table.is_padded(),
        interpolable(
            table.trace_points(domain),
            (table.height + table.num_randomizers) as nat,
        ),
        interpolable(domain.points(), domain.length as nat),
        table.height + table.num_randomizers <= domain.length,
        0 <= c < table.base_width,
        0 <= j < table.height,
        table.is_base_codeword(domain, codeword, c),
    ensures
        eval(
            interpolant(domain.points(), codeword, domain.length as nat),
            pow_mod(table.omicron@, j as nat),
        ) == table.matrix[j][c]@,
{
    let randomizers = choose|randomizers: Seq<int>|
        randomizers.len() == table.num_randomizers && codeword == #[trigger] table.base_codeword(
            domain,
            randomizers,
            c,
        );
    let points = table.trace_points(domain);
    let targets = column(matrix_values(table.matrix@), c) + randomizers;
    let m = (table.height + table.num_randomizers) as nat;
    let n = domain.length as nat;
    let behind = interpolant(points, targets, m);
    let recovered = interpolant(domain.points(), codeword, n);
    let z = pow_mod(table.omicron@, j as nat);
    assert(points.len() == m);
    assert(codeword == codeword_of(behind, domain.points()));
    lemma_interpolant_length(points, targets, m);
    lemma_interpolant_length(domain.points(), codeword, n);
    assert forall|i: int| 0 <= i < n implies eval(recovered, #[trigger] domain.points()[i])
        == eval(behind, domain.points()[i]) by {
        lemma_interpolant_meets_points(domain.points(), codeword, n, i);
        lemma_eval_range(behind, domain.points()[i]);
        lemma_small_mod(eval(behind, domain.points()[i]) as nat, P as nat);
    }
    lemma_interpolant_is_unique(domain.points(), recovered, behind, n, z);
    lemma_codeword_interpolant_meets_trace(table, domain, randomizers, c, j);
}

/// The values of a matrix over the extension field, row by row.
pub open spec fn x_matrix_values(m: Seq<Vec<XFieldElement>>) -> Seq<Seq<XValue>> {
    Seq::new(m.len(), |r: int| x_values(m[r]@))
}

/// Column `c` of a matrix over the extension field.
pub open spec fn x_column(m: Seq<Seq<XValue>>, c: int) -> Seq<XValue> {
    Seq::new(m.len(), |r: int| m[r][c])
}

/// The coefficient of `x^k` of an extension-field value.
pub open spec fn x_component(x: XValue, k: int) -> int {
    if k == 0 {
        x.c0
    } else if k == 1 {
        x.c1
    } else {
        x.c2
    }
}

/// The coefficients of `x^k` of a sequence of extension-field values.
pub open spec fn x_components(s: Seq<XValue>, k: int) -> Seq<int> {
    Seq::new(s.len(), |i: int| x_component(s[i], k))
}

/// The extension-field values with the given coefficients.
pub open spec fn x_zip(c0: Seq<int>, c1: Seq<int>, c2: Seq<int>) -> Seq<XValue> {
    Seq::new(c0.len(), |i: int| XValue { c0: c0[i], c1: c1[i], c2: c2[i] })
}

/// Base-field values seen as extension-field values.
pub open spec fn lifted(s: Seq<int>) -> Seq<XValue> {
    Seq::new(s.len(), |i: int| x_lift(s[i]))
}

/// The codeword over the extension field that is zero everywhere.
pub open spec fn zero_x_codeword(n: nat) -> Seq<XValue> {
    Seq::new(n, |i: int| x_zero())
}

/// The codeword of the interpolant through `(points[k], targets[k])` over
/// the points `domain_values`; `None` where the points cannot be
/// interpolated.
pub fn extend_column(
    points: &Vec<BFieldElement>,
    targets: &Vec<BFieldElement>,
    domain_values: &Vec<BFieldElement>,
) -> (r: Option<Vec<BFieldElement>>)
    requires
        points.len() == targets.len(),
    ensures
        r is Some <==> interpolable(values(points@), points.len() as nat),
        r is Some ==> r->Some_0.len() == domain_values.len() && values(r->Some_0@)
            == codeword_of(
            interpolant(values(points@), values(targets@), points.len() as nat),
            values(domain_values@),
        ),
{
    match Polynomial::interpolate(points, targets) {
        None => None,
        Some(polynomial) => Some(evaluate_at_points(&polynomial, domain_values)),
    }
}

/// The extension-field codeword with the given coefficient codewords.
pub fn zip_components(
    c0: &Vec<BFieldElement>,
    c1: &Vec<BFieldElement>,
    c2: &Vec<BFieldElement>,
) -> (r: Vec<XFieldElement>)
    requires
        c0.len() == c1.len(),
        c0.len() == c2.len(),
    ensures
        r.len() == c0.len(),
        x_values(r@) == x_zip(values(c0@), values(c1@), values(c2@)),
{
    let mut out: Vec<XFieldElement> = Vec::new();
    let mut i: usize = 0;
    while i < c0.len()
        invariant
            i <= c0.len(),
            c0.len() == c1.len(),
            c0.len() == c2.len(),
            out.len() == i,
            forall|j: int|
                0 <= j < i ==> out[j]@ == (XValue { c0: c0[j]@, c1: c1[j]@, c2: c2[j]@ }),
        decreases c0.len() - i,
    {
        out.push(XFieldElement::new([c0[i], c1[i], c2[i]]));
        i = i + 1;
    }
    assert(x_values(out@) =~= x_zip(values(c0@), values(c1@), values(c2@)));
    out
}

/// A base-field codeword seen as one over the extension field.
pub fn lift_codeword(codeword: &Vec<BFieldElement>) -> (r: Vec<XFieldElement>)
    ensures
        r.len() == codeword.len(),
        x_values(r@) == lifted(values(codeword@)),
{
    let mut out: Vec<XFieldElement> = Vec::new();
    let mut i: usize = 0;
    while i < codeword.len()
        invariant
            i <= codeword.len(),
            out.len() == i,
            forall|j: int| 0 <= j < i ==> out[j]@ == x_lift(codeword[j]@),
        decreases codeword.len() - i,
    {
        out.push(codeword[i].lift());
        i = i + 1;
    }
    assert(x_values(out@) =~= lifted(values(codeword@)));
    out
}

/// A copy of a codeword over the extension field.
pub fn copy_x_codeword(codeword: &Vec<XFieldElement>) -> (r: Vec<XFieldElement>)
    ensures
        r@ == codeword@,
{
    let mut out: Vec<XFieldElement> = Vec::new();
    let mut i: usize = 0;
    while i < codeword.len()
        invariant
            i <= codeword.len(),
            out.len() == i,
            forall|j: int| 0 <= j < i ==> out[j] == codeword[j],
        decreases codeword.len() - i,
    {
        out.push(codeword[i]);
        i = i + 1;
    }
    assert(out@ =~= codeword@);
    out
}

/// The codeword of length `n` over the extension field that is zero
/// everywhere.
pub fn zero_x_codeword_of(n: usize) -> (r: Vec<XFieldElement>)
    ensures
        r.len() == n,
        x_values(r@) == zero_x_codeword(n as nat),
{
    let mut out: Vec<XFieldElement> = Vec::new();
    let mut i: usize = 0;
    while i < n
        invariant
            i <= n,
            out.len() == i,
            forall|j: int| 0 <= j < i ==> out[j]@ == x_zero(),
        decreases n - i,
    {
        out.push(XFieldElement::ring_zero());
        i = i + 1;
    }
    assert(x_values(out@) =~= zero_x_codeword(n as nat));
    out
}

impl<T> Table<T> {
    /// Whether the table has been extended: the extended matrix has as many
    /// rows as the table is high, each with one element per column.
    pub open spec fn is_extended(&self) -> bool {
        &&& self.extended_matrix.len() == self.height
        &&& forall|r: int|
            0 <= r < self.extended_matrix.len() ==> (#[trigger] self.extended_matrix[r]).len()
                == self.full_width
    }

    /// Whether the base codewords on the table are codewords over a domain of
    /// `length` points, one per base column.
    pub open spec fn has_base_codewords(&self, length: usize) -> bool {
        &&& self.codewords.len() == self.base_width
        &&& forall|c: int|
            0 <= c < self.codewords.len() ==> (#[trigger] self.codewords[c]).len() == length
    }

    /// Whether `other` differs from this table in the codewords of all its
    /// columns at most.
    pub open spec fn same_but_extended_codewords(&self, other: &Self) -> bool {
        &&& self.base_width == other.base_width
        &&& self.full_width == other.full_width
        &&& self.length == other.length
        &&& self.num_randomizers == other.num_randomizers
        &&& self.height == other.height
        &&& self.omicron == other.omicron
        &&& self.generator == other.generator
        &&& self.order == other.order
        &&& self.matrix == other.matrix
        &&& self.extended_matrix == other.extended_matrix
        &&& self.codewords == other.codewords
        &&& self.more == other.more
    }

    /// The codeword of column `c` of the extended matrix over `domain`, with
    /// the given random values mixed in: each coefficient is extended by
    /// itself.
    pub open spec fn extension_codeword(
        &self,
        domain: FriDomain,
        randomizers: Seq<XValue>,
        c: int,
    ) -> Seq<XValue> {
        if self.height == 0 {
            zero_x_codeword(domain.length as nat)
        } else {
            let col = x_column(x_matrix_values(self.extended_matrix@), c);
            x_zip(
                extended_column(
                    x_components(col, 0),
                    x_components(randomizers, 0),
                    self.trace_points(domain),
                    domain.points(),
                ),
                extended_column(
                    x_components(col, 1),
                    x_components(randomizers, 1),
                    self.trace_points(domain),
                    domain.points(),
                ),
                extended_column(
                    x_components(col, 2),
                    x_components(randomizers, 2),
                    self.trace_points(domain),
                    domain.points(),
                ),
            )
        }
    }

    /// The coefficients of `x^k` in column `c` of the extended matrix,
    /// followed by those of `randomizers`.
    fn x_column_with_randomizers(
        &self,
        c: usize,
        k: usize,
        randomizers: &Vec<XFieldElement>,
    ) -> (r: Vec<BFieldElement>)
        requires
            self.is_extended(),
            c < self.full_width,
            k < 3,
            self.extended_matrix.len() + randomizers.len() <= usize::MAX,
        ensures
            values(r@) == x_components(
                x_column(x_matrix_values(self.extended_matrix@), c as int),
                k as int,
            ) + x_components(x_values(randomizers@), k as int),
            r.len() == self.extended_matrix.len() + randomizers.len(),
    {
        let mut out: Vec<BFieldElement> = Vec::new();
        let rows = self.extended_matrix.len();
        let mut i: usize = 0;
        while i < rows
            invariant
                i <= rows,
                rows == self.extended_matrix.len(),
                self.is_extended(),
                c < self.full_width,
                k < 3,
                out.len() == i,
                forall|j: int|
                    0 <= j < i ==> out[j]@ == x_component(
                        self.extended_matrix[j][c as int]@,
                        k as int,
                    ),
            decreases rows - i,
        {
            out.push(self.extended_matrix[i][c].coefficients[k]);
            i = i + 1;
        }
        let mut n: usize = 0;
        while n < randomizers.len()
            invariant
                n <= randomizers.len(),
                rows == self.extended_matrix.len(),
                rows + randomizers.len() <= usize::MAX,
                k < 3,
                out.len() == rows + n,
                forall|j: int|
                    0 <= j < rows ==> out[j]@ == x_component(
                        self.extended_matrix[j][c as int]@,
                        k as int,
                    ),
                forall|j: int|
                    rows <= j < rows + n ==> out[j]@ == x_component(
                        randomizers[j - rows]@,
                        k as int,
                    ),
            decreases randomizers.len() - n,
        {
            out.push(randomizers[n].coefficients[k]);
            n = n + 1;
        }
        assert(values(out@) =~= x_components(
            x_column(x_matrix_values(self.extended_matrix@), c as int),
            k as int,
        ) + x_components(x_values(randomizers@), k as int));
        out
    }

    /// Whether the base codewords on the table are codewords over a domain
    /// of `length` points.
    fn check_base_codewords(&self, length: usize) -> (r: bool)
        ensures
            r == self.has_base_codewords(length),
    {
        if self.codewords.len() != self.base_width {
            return false;
        }
        let mut c: usize = 0;
        while c < self.codewords.len()
            invariant
                c <= self.codewords.len(),
                self.codewords.len() == self.base_width,
                forall|k: int| 0 <= k < c ==> (#[trigger] self.codewords[k]).len() == length,
            decreases self.codewords.len() - c,
        {
            if self.codewords[c].len() != length {
                return false;
            }
            c = c + 1;
        }
        true
    }

    /// Extends the extension columns over `domain`, with
    /// `randomizers[c - base_width]` mixed into column `c`; keeps on the
    /// table the codewords of all columns, those of the base columns lifted,
    /// and returns those of the extension columns.
    pub fn ldex_with_randomizers(
        &mut self,
        domain: &FriDomain,
        randomizers: &Vec<Vec<XFieldElement>>,
    ) -> (r: Result<Vec<Vec<XFieldElement>>, TableError>)
        requires
            old(self).well_formed(),
            old(self).is_extended(),
            randomizers.len() == old(self).full_width - old(self).base_width,
            forall|c: int|
                0 <= c < randomizers.len() ==> (#[trigger] randomizers[c]).len() == old(self).num_randomizers,
        ensures
            r == Err::<Vec<Vec<XFieldElement>>, TableError>(TableError::DomainTooShort)
                <==> domain.length < old(self).height,
            r == Err::<Vec<Vec<XFieldElement>>, TableError>(TableError::ShapeMismatch) <==> (
            old(self).height <= domain.length && !old(self).has_base_codewords(domain.length)),
            r == Err::<Vec<Vec<XFieldElement>>, TableError>(TableError::PointsCollide) <==> (
            old(self).height <= domain.length && old(self).has_base_codewords(domain.length)
                && old(self).height > 0 && old(self).full_width > old(self).base_width
                && !interpolable(
                old(self).trace_points(*domain),
                (old(self).height + old(self).num_randomizers) as nat,
            )),
            r is Err ==> *final(self) == *old(self),
            r is Err ==> (r->Err_0 == TableError::DomainTooShort || r->Err_0
                == TableError::ShapeMismatch || r->Err_0 == TableError::PointsCollide),
            r is Ok ==> {
                let codewords = r->Ok_0;
                &&& old(self).same_but_extended_codewords(final(self))
                &&& codewords.len() == old(self).full_width - old(self).base_width
                &&& final(self).extended_codewords.len() == old(self).full_width
                &&& forall|c: int|
                    0 <= c < old(self).base_width ==> x_values(
                        (#[trigger] final(self).extended_codewords[c])@,
                    ) == lifted(values(old(self).codewords[c]@))
                &&& forall|c: int|
                    0 <= c < old(self).full_width ==> (#[trigger] final(self).extended_codewords[c]).len() == domain.length
                &&& forall|k: int|
                    0 <= k < codewords.len() ==> {
                        &&& (#[trigger] codewords[k]).len() == domain.length
                        &&& x_values(codewords[k]@) == old(self).extension_codeword(
                            *domain,
                            x_values(randomizers[k]@),
                            old(self).base_width + k,
                        )
                        &&& final(self).extended_codewords[old(self).base_width + k]@
                            == codewords[k]@
                    }
            },
    {
        if domain.length < self.height {
            return Err(TableError::DomainTooShort);
        }
        if !self.check_base_codewords(domain.length) {
            return Err(TableError::ShapeMismatch);
        }
        let domain_values = domain.b_domain_values();
        let points = trace_domain(self.omicron, domain.omega, self.height, self.num_randomizers);
        let extension_width = self.full_width - self.base_width;
        let mut codewords: Vec<Vec<XFieldElement>> = Vec::new();
        let mut k: usize = 0;
        while k < extension_width
            invariant
                k <= extension_width,
                extension_width == self.full_width - self.base_width,
                *self == *old(self),
                self.well_formed(),
                self.is_extended(),
                self.height <= domain.length,
                randomizers.len() == extension_width,
                forall|c: int|
                    0 <= c < randomizers.len() ==> (#[trigger] randomizers[c]).len()
                        == self.num_randomizers,
                domain_values.len() == domain.length,
                values(domain_values@) == domain.points(),
                values(points@) == self.trace_points(*domain),
                points.len() == self.height + self.num_randomizers,
                codewords.len() == k,
                self.has_base_codewords(domain.length),
                k > 0 && self.height > 0 ==> interpolable(
                    self.trace_points(*domain),
                    (self.height + self.num_randomizers) as nat,
                ),
                forall|c: int|
                    0 <= c < k ==> {
                        &&& (#[trigger] codewords[c]).len() == domain.length
                        &&& x_values(codewords[c]@) == self.extension_codeword(
                            *domain,
                            x_values(randomizers[c]@),
                            self.base_width + c,
                        )
                    },
            decreases extension_width - k,
        {
            if self.height == 0 {
                codewords.push(zero_x_codeword_of(domain.length));
            } else {
                let c = self.base_width + k;
                assert(randomizers[k as int].len() == self.num_randomizers);
                let t0 = self.x_column_with_randomizers(c, 0, &randomizers[k]);
                let t1 = self.x_column_with_randomizers(c, 1, &randomizers[k]);
                let t2 = self.x_column_with_randomizers(c, 2, &randomizers[k]);
                let e0 = extend_column(&points, &t0, &domain_values);
                let e1 = extend_column(&points, &t1, &domain_values);
                let e2 = extend_column(&points, &t2, &domain_values);
                match (e0, e1, e2) {
                    (Some(c0), Some(c1), Some(c2)) => {
                        codewords.push(zip_components(&c0, &c1, &c2));
                    },
                    _ => {
                        return Err(TableError::PointsCollide);
                    },
                }
            }
            k = k + 1;
        }
        let ghost separable = extension_width > 0 && self.height > 0 ==> interpolable(
                    self.trace_points(*domain),
                    (self.height + self.num_randomizers) as nat,
                );
        assert(separable);
        let mut all: Vec<Vec<XFieldElement>> = Vec::new();
        let mut c: usize = 0;
        while c < self.base_width
            invariant
                c <= self.base_width,
                *self == *old(self),
                self.has_base_codewords(domain.length),
                separable,
                all.len() == c,
                forall|j: int|
                    0 <= j < c ==> {
                        &&& (#[trigger] all[j]).len() == domain.length
                        &&& x_values(all[j]@) == lifted(values(self.codewords[j]@))
                    },
            decreases self.base_width - c,
        {
            assert(self.codewords[c as int].len() == domain.length);
            all.push(lift_codeword(&self.codewords[c]));
            c = c + 1;
        }
        let mut k: usize = 0;
        while k < extension_width
            invariant
                k <= extension_width,
                extension_width == self.full_width - self.base_width,
                *self == *old(self),
                codewords.len() == extension_width,
                self.has_base_codewords(domain.length),
                all.len() == self.base_width + k,
                separable,
                forall|j: int|
                    0 <= j < codewords.len() ==> (#[trigger] codewords[j]).len() == domain.length,
                forall|j: int|
                    0 <= j < self.base_width ==> {
                        &&& (#[trigger] all[j]).len() == domain.length
                        &&& x_values(all[j]@) == lifted(values(self.codewords[j]@))
                    },
                forall|j: int|
                    0 <= j < k ==> (#[trigger] all[self.base_width + j])@ == codewords[j]@,
            decreases extension_width - k,
        {
            all.push(copy_x_codeword(&codewords[k]));
            k = k + 1;
        }
        self.extended_codewords = all;
        proof {
            assert(separable);
            assert forall|c: int| 0 <= c < old(self).full_width implies (#[trigger] self.extended_codewords[c]).len()
                == domain.length by {
                if c >= self.base_width {
                    let j = c - self.base_width;
                    assert(self.extended_codewords[self.base_width + j]@ == codewords[j]@);
                    assert(codewords[j].len() == domain.length);
                }
            }
        }
        Ok(codewords)
    }

    /// Extends the extension columns over `domain`, with fresh random values
    /// mixed in; keeps on the table the codewords of all columns and returns
    /// those of the extension columns.
    pub fn ldex(&mut self, domain: &FriDomain) -> (r: Result<
        Vec<Vec<XFieldElement>>,
        TableError,
    >)
        requires
            old(self).well_formed(),
            old(self).is_extended(),
        ensures
            r is Err ==> old(self).ldex_error(*domain) == Some(r->Err_0) && *final(self) == *old(self),
            r is Ok ==> old(self).ldex_error(*domain) is None && final(self).holds_extension_codewords(old(self), *domain, r->Ok_0@),
    {
        let extension_width = self.full_width - self.base_width;
        let mut randomizers: Vec<Vec<XFieldElement>> = Vec::new();
        let mut c: usize = 0;
        while c < extension_width
            invariant
                c <= extension_width,
                *self == *old(self),
                randomizers.len() == c,
                forall|k: int|
                    0 <= k < c ==> (#[trigger] randomizers[k]).len() == self.num_randomizers,
            decreases extension_width - c,
        {
            randomizers.push(random_x_elements(self.num_randomizers));
            c = c + 1;
        }
        let r = self.ldex_with_randomizers(domain, &randomizers);
        proof {
            if r is Ok {
                let codewords = r->Ok_0;
                assert forall|k: int| 0 <= k < codewords.len() implies old(self).is_extension_codeword(
                    *domain,
                    x_values((#[trigger] codewords[k])@),
                    old(self).base_width + k,
                ) by {
                    let witness = x_values(randomizers[k]@);
                    assert(witness.len() == old(self).num_randomizers);
                    assert(x_values(codewords[k]@) == old(self).extension_codeword(
                        *domain,
                        witness,
                        old(self).base_width + k,
                    ));
                }
            }
        }
        r
    }
}

/// How a table is filled up to its height.
#[derive(Debug, Clone, Copy, PartialEq, Eq, Structural)]
pub enum PaddingRule {
    /// Each new row is a copy of the last row.
    ReplicateLastRow,
    /// Each new row is a copy of the last row with its first element, the
    /// cycle count, advanced by one.
    AdvanceCycle,
    /// Each new row holds the address after that of the last row, and zero
    /// elsewhere.
    AdvanceAddress,
    /// Each new row is zero everywhere.
    ZeroMarker,
}

/// The row that follows `last` under the given rule.
pub open spec fn filler_row(rule: PaddingRule, last: Seq<int>) -> Seq<int> {
    match rule {
        PaddingRule::ReplicateLastRow => last,
        PaddingRule::AdvanceCycle => Seq::new(
            last.len(),
            |c: int|
                if c == 0 {
                    add_mod(last[0], 1)
                } else {
                    last[c]
                },
        ),
        PaddingRule::AdvanceAddress => Seq::new(
            last.len(),
            |c: int|
                if c == 0 {
                    add_mod(last[0], 1)
                } else {
                    0
                },
        ),
        PaddingRule::ZeroMarker => Seq::new(last.len(), |c: int| 0int),
    }
}

/// The matrix `m` filled up to `height` rows under the given rule. A matrix
/// without rows, or with `height` rows or more, stays as it is.
pub open spec fn padded_matrix(rule: PaddingRule, m: Seq<Seq<int>>, height: nat) -> Seq<Seq<int>>
    decreases height - m.len(),
{
    if m.len() == 0 || m.len() >= height {
        m
    } else {
        padded_matrix(rule, m.push(filler_row(rule, m.last())), height)
    }
}

/// A matrix with at least one row and at most `height` rows has `height`
/// rows after padding, and keeps the rows it had.
pub proof fn lemma_padded_matrix_shape(rule: PaddingRule, m: Seq<Seq<int>>, height: nat)
    requires
        0 < m.len() <= height,
    ensures
        padded_matrix(rule, m, height).len() == height,
        forall|r: int| 0 <= r < m.len() ==> padded_matrix(rule, m, height)[r] == m[r],
        forall|r: int|
            m.len() <= r < height ==> #[trigger] padded_matrix(rule, m, height)[r] == filler_row(
                rule,
                padded_matrix(rule, m, height)[r - 1],
            ),
    decreases height - m.len(),
{
    if m.len() < height {
        let next = m.push(filler_row(rule, m.last()));
        lemma_padded_matrix_shape(rule, next, height);
        assert forall|r: int| 0 <= r < m.len() implies padded_matrix(rule, m, height)[r]
            == m[r] by {
            assert(next[r] == m[r]);
        }
        assert forall|r: int| m.len() <= r < height implies #[trigger] padded_matrix(
            rule,
            m,
            height,
        )[r] == filler_row(rule, padded_matrix(rule, m, height)[r - 1]) by {
            if r == m.len() {
                assert(padded_matrix(rule, m, height)[r] == next[r]);
                assert(padded_matrix(rule, m, height)[r - 1] == next[r - 1]);
            }
        }
    }
}

impl<T> Table<T> {
    /// Whether `other` differs from this table in its matrix at most.
    pub open spec fn same_but_matrix(&self, other: &Self) -> bool {
        &&& self.base_width == other.base_width
        &&& self.full_width == other.full_width
        &&& self.length == other.length
        &&& self.num_randomizers == other.num_randomizers
        &&& self.height == other.height
        &&& self.omicron == other.omicron
        &&& self.generator == other.generator
        &&& self.order == other.order
        &&& self.extended_matrix == other.extended_matrix
        &&& self.codewords == other.codewords
        &&& self.extended_codewords == other.extended_codewords
        &&& self.more == other.more
    }

    /// Whether `other` differs from this table at most in its extended
    /// matrix and in what only its kind of table has.
    pub open spec fn same_but_extension(&self, other: &Self) -> bool {
        &&& self.base_width == other.base_width
        &&& self.full_width == other.full_width
        &&& self.length == other.length
        &&& self.num_randomizers == other.num_randomizers
        &&& self.height == other.height
        &&& self.omicron == other.omicron
        &&& self.generator == other.generator
        &&& self.order == other.order
        &&& self.matrix == other.matrix
        &&& self.codewords == other.codewords
        &&& self.extended_codewords == other.extended_codewords
    }

    /// Why the base columns cannot be extended over `domain`, if they
    /// cannot.
    pub open spec fn lde_error(&self, domain: FriDomain) -> Option<TableError> {
        if domain.length < self.height {
            Some(TableError::DomainTooShort)
        } else if self.height > 0 && self.base_width > 0 && !interpolable(
            self.trace_points(domain),
            (self.height + self.num_randomizers) as nat,
        ) {
            Some(TableError::PointsCollide)
        } else {
            None
        }
    }

    /// Whether `codeword` is the codeword of base column `c` over `domain`
    /// for some random values.
    pub open spec fn is_base_codeword(&self, domain: FriDomain, codeword: Seq<int>, c: int) -> bool {
        exists|randomizers: Seq<int>|
            randomizers.len() == self.num_randomizers && codeword == #[trigger] self.base_codeword(
                domain,
                randomizers,
                c,
            )
    }

    /// Whether `codeword` is the codeword of column `c` of the extended
    /// matrix over `domain` for some random values.
    pub open spec fn is_extension_codeword(
        &self,
        domain: FriDomain,
        codeword: Seq<XValue>,
        c: int,
    ) -> bool {
        exists|randomizers: Seq<XValue>|
            randomizers.len() == self.num_randomizers && codeword
                == #[trigger] self.extension_codeword(domain, randomizers, c)
    }

    /// Whether `codewords` are the codewords of the base columns over
    /// `domain`: one per base column, each as long as the domain, and each
    /// the codeword of its column for some random values.
    pub open spec fn are_base_codewords(
        &self,
        domain: FriDomain,
        codewords: Seq<Vec<BFieldElement>>,
    ) -> bool {
        &&& codewords.len() == self.base_width
        &&& forall|c: int|
            0 <= c < codewords.len() ==> {
                &&& (#[trigger] codewords[c]).len() == domain.length
                &&& self.is_base_codeword(domain, values(codewords[c]@), c)
            }
    }

    /// Whether this table is `before` with its base columns extended over
    /// `domain` and the codewords, which are `codewords`, kept on it: there
    /// is one codeword per base column, each as long as the domain, and
    /// each the codeword of its column for some random values.
    pub open spec fn holds_base_codewords(
        &self,
        before: &Self,
        domain: FriDomain,
        codewords: Seq<Vec<BFieldElement>>,
    ) -> bool {
        &&& before.same_but_codewords(self)
        &&& codewords.len() == before.base_width
        &&& self.codewords.len() == before.base_width
        &&& forall|c: int|
            0 <= c < codewords.len() ==> {
                &&& (#[trigger] codewords[c]).len() == domain.length
                &&& self.codewords[c]@ == codewords[c]@
                &&& before.is_base_codeword(domain, values(codewords[c]@), c)
            }
    }

    /// Why the extension columns cannot be extended over `domain`, if they
    /// cannot.
    pub open spec fn ldex_error(&self, domain: FriDomain) -> Option<TableError> {
        if domain.length < self.height {
            Some(TableError::DomainTooShort)
        } else if !self.has_base_codewords(domain.length) {
            Some(TableError::ShapeMismatch)
        } else if self.height > 0 && self.full_width > self.base_width && !interpolable(
            self.trace_points(domain),
            (self.height + self.num_randomizers) as nat,
        ) {
            Some(TableError::PointsCollide)
        } else {
            None
        }
    }

    /// Whether this table is `before` with its extension columns extended
    /// over `domain`: `codewords` are their codewords, each as long as the
    /// domain and each the codeword of its column for some random values,
    /// and the table holds the codewords of all columns, those of the base
    /// columns lifted.
    pub open spec fn holds_extension_codewords(
        &self,
        before: &Self,
        domain: FriDomain,
        codewords: Seq<Vec<XFieldElement>>,
    ) -> bool {
        &&& before.same_but_extended_codewords(self)
        &&& codewords.len() == before.full_width - before.base_width
        &&& self.extended_codewords.len() == before.full_width
        &&& forall|c: int|
            0 <= c < before.base_width ==> x_values((#[trigger] self.extended_codewords[c])@)
                == lifted(values(before.codewords[c]@))
        &&& forall|c: int|
            0 <= c < before.full_width ==> (#[trigger] self.extended_codewords[c]).len()
                == domain.length
        &&& forall|k: int|
            0 <= k < codewords.len() ==> {
                &&& (#[trigger] codewords[k]).len() == domain.length
                &&& self.extended_codewords[before.base_width + k]@ == codewords[k]@
                &&& before.is_extension_codeword(
                    domain,
                    x_values(codewords[k]@),
                    before.base_width + k,
                )
            }
    }

    /// Whether each of the rows has one element per base column.
    pub open spec fn rows_fit(&self, rows: Seq<Vec<BFieldElement>>) -> bool {
        forall|r: int| 0 <= r < rows.len() ==> (#[trigger] rows[r]).len() == self.base_width
    }

    /// Hands the table the rows of its trace. Rows of another width than
    /// the table's are refused, and the table stays as it is.
    pub fn set_matrix(&mut self, rows: Vec<Vec<BFieldElement>>) -> (r: Result<(), TableError>)
        requires
            old(self).well_formed(),
        ensures
            r is Ok <==> old(self).rows_fit(rows@),
            r is Ok ==> final(self).matrix == rows && old(self).same_but_matrix(final(self))
                && final(self).well_formed(),
            r is Err ==> r->Err_0 == TableError::ShapeMismatch && *final(self) == *old(self),
    {
        let mut i: usize = 0;
        while i < rows.len()
            invariant
                i <= rows.len(),
                *self == *old(self),
                forall|k: int| 0 <= k < i ==> (#[trigger] rows[k]).len() == self.base_width,
            decreases rows.len() - i,
        {
            if rows[i].len() != self.base_width {
                return Err(TableError::ShapeMismatch);
            }
            i = i + 1;
        }
        self.matrix = rows;
        Ok(())
    }

    /// Whether this table is `before` with its matrix filled up under the
    /// given rule.
    pub open spec fn padded_from(&self, before: &Self, rule: PaddingRule) -> bool {
        &&& self.well_formed()
        &&& before.same_but_matrix(self)
        &&& matrix_values(self.matrix@) == padded_matrix(
            rule,
            matrix_values(before.matrix@),
            before.height as nat,
        )
        &&& 0 < before.matrix.len() <= before.height ==> self.is_padded()
        &&& before.matrix.len() == 0 || before.matrix.len() >= before.height ==> self.matrix@
            == before.matrix@
    }

    /// The row that follows the last row of the matrix under the given rule.
    fn next_row(&self, rule: PaddingRule) -> (r: Vec<BFieldElement>)
        requires
            self.well_formed(),
            self.matrix.len() > 0,
        ensures
            r.len() == self.base_width,
            values(r@) == filler_row(rule, matrix_values(self.matrix@).last()),
    {
        let last = &self.matrix[self.matrix.len() - 1];
        let ghost last_values = matrix_values(self.matrix@).last();
        assert(last_values == values(last@));
        let mut row: Vec<BFieldElement> = Vec::new();
        let mut c: usize = 0;
        while c < last.len()
            invariant
                c <= last.len(),
                row.len() == c,
                last_values == values(last@),
                forall|j: int| 0 <= j < c ==> row[j]@ == filler_row(rule, last_values)[j],
            decreases last.len() - c,
        {
            let element = match rule {
                PaddingRule::ReplicateLastRow => last[c],
                PaddingRule::AdvanceCycle => if c == 0 {
                    last[c].add(BFieldElement::ring_one())
                } else {
                    last[c]
                },
                PaddingRule::AdvanceAddress => if c == 0 {
                    last[c].add(BFieldElement::ring_one())
                } else {
                    BFieldElement::ring_zero()
                },
                PaddingRule::ZeroMarker => BFieldElement::ring_zero(),
            };
            row.push(element);
            c = c + 1;
        }
        assert(values(row@) =~= filler_row(rule, last_values));
        row
    }

    /// Fills the matrix up to the height of the table under the given rule.
    /// A matrix without rows, or with as many rows as the table is high or
    /// more, stays as it is.
    pub fn pad_matrix(&mut self, rule: PaddingRule)
        requires
            old(self).well_formed(),
        ensures
            final(self).padded_from(old(self), rule),
            final(self).well_formed(),
            old(self).same_but_matrix(final(self)),
            matrix_values(final(self).matrix@) == padded_matrix(
                rule,
                matrix_values(old(self).matrix@),
                old(self).height as nat,
            ),
            0 < old(self).matrix.len() <= old(self).height ==> final(self).is_padded(),
            old(self).matrix.len() == 0 || old(self).matrix.len() >= old(self).height
                ==> final(self).matrix@ == old(self).matrix@,
    {
        let ghost start = matrix_values(self.matrix@);
        let ghost initial = self.matrix@;
        proof {
            if 0 < start.len() <= self.height {
                lemma_padded_matrix_shape(rule, start, self.height as nat);
            }
        }
        while 0 < self.matrix.len() && self.matrix.len() < self.height
            invariant
                self.well_formed(),
                old(self).same_but_matrix(self),
                padded_matrix(rule, matrix_values(self.matrix@), self.height as nat)
                    == padded_matrix(rule, start, self.height as nat),
                start.len() == 0 || start.len() >= self.height ==> self.matrix@ == initial,
                start.len() > 0 ==> self.matrix.len() > 0,
                start.len() == 0 ==> self.matrix.len() == 0,
                self.matrix.len() >= start.len(),
                start.len() <= self.height ==> self.matrix.len() <= self.height,
            decreases self.height - self.matrix.len(),
        {
            let row = self.next_row(rule);
            let ghost before = matrix_values(self.matrix@);
            self.matrix.push(row);
            proof {
                assert(matrix_values(self.matrix@) =~= before.push(
                    filler_row(rule, before.last()),
                ));
            }
        }
    }
}

} // verus!
