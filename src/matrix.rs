use vstd::prelude::*;
use ndarray::ShapeBuilder;
use crate::engine::{decode_blocks, ReadPlan};
use crate::error::{BedError, BedErrorPlus};

verus! {

/// A matrix of 8-bit genotype values in an ndarray array, rows by columns.
#[verifier::external_body]
pub struct GenotypeMatrix {
    val: ndarray::Array2<i8>,
}

/// The cells of a matrix, one sequence per column.
pub uninterp spec fn matrix_columns(m: GenotypeMatrix) -> Seq<Seq<i8>>;

/// The number of rows of a matrix.
pub uninterp spec fn matrix_rows(m: GenotypeMatrix) -> nat;

/// Whether an array of these dimensions can be allocated: the product of the
/// non-zero lengths fits in an `isize`.
pub open spec fn allocatable(nrows: int, ncols: int) -> bool {
    (if nrows == 0 { 1 } else { nrows }) * (if ncols == 0 { 1 } else { ncols }) <= isize::MAX
}

/// Relies on `Array2::from_elem` with `ShapeBuilder::set_f`: every cell holds
/// `v`; `is_f` decides only the memory layout.
#[verifier::external_body]
pub(crate) fn matrix_filled(nrows: usize, ncols: usize, v: i8, is_f: bool) -> (r: GenotypeMatrix)
    requires
        allocatable(nrows as int, ncols as int),
    ensures
        matrix_rows(r) == nrows,
        matrix_columns(r) == Seq::new(ncols as nat, |c: int| Seq::new(nrows as nat, |i: int| v)),
{
    GenotypeMatrix { val: ndarray::Array2::from_elem((nrows, ncols).set_f(is_f), v) }
}

/// Relies on `ArrayBase::dim`: the number of rows and of columns, every
/// column holding one cell per row.
#[verifier::external_body]
pub(crate) fn matrix_dim(m: &GenotypeMatrix) -> (r: (usize, usize))
    ensures
        r.0 == matrix_rows(*m),
        r.1 == matrix_columns(*m).len(),
        forall|c: int| 0 <= c < r.1 ==> (#[trigger] matrix_columns(*m)[c]).len() == r.0,
{
    m.val.dim()
}

/// Relies on `Index<[usize; 2]>` of ndarray arrays: the cell at a row and column.
#[verifier::external_body]
pub(crate) fn matrix_get(m: &GenotypeMatrix, row: usize, col: usize) -> (r: i8)
    requires
        row < matrix_rows(*m),
        col < matrix_columns(*m).len(),
    ensures
        r == matrix_columns(*m)[col as int][row as int],
{
    m.val[[row, col]]
}

/// Relies on `IndexMut<[usize; 2]>` of ndarray arrays: writes one cell and no other.
#[verifier::external_body]
pub(crate) fn matrix_set(m: &mut GenotypeMatrix, row: usize, col: usize, v: i8)
    requires
        row < matrix_rows(*old(m)),
        col < matrix_columns(*old(m)).len(),
    ensures
        matrix_rows(*final(m)) == matrix_rows(*old(m)),
        matrix_columns(*final(m)) == matrix_columns(*old(m)).update(
            col as int,
            matrix_columns(*old(m))[col as int].update(row as int, v),
        ),
{
    m.val[[row, col]] = v;
}

/// The column sequences of a list of columns.
pub open spec fn column_views(cols: Seq<Vec<i8>>) -> Seq<Seq<i8>> {
    cols.map_values(|c: Vec<i8>| c@)
}

impl GenotypeMatrix {

    /// A matrix of `nrows` by `ncols` cells that all hold `v`, column-major in
    /// memory when `is_f`.
    pub fn filled(nrows: usize, ncols: usize, v: i8, is_f: bool) -> (r: GenotypeMatrix)
        requires
            allocatable(nrows as int, ncols as int),
        ensures
            matrix_rows(r) == nrows,
            matrix_columns(r) == Seq::new(ncols as nat, |c: int| Seq::new(nrows as nat, |i: int| v)),
    {
        matrix_filled(nrows, ncols, v, is_f)
    }

    /// The number of rows and of columns.
    pub fn dim(&self) -> (r: (usize, usize))
        ensures
            r.0 == matrix_rows(*self),
            r.1 == matrix_columns(*self).len(),
            forall|c: int| 0 <= c < r.1 ==> (#[trigger] matrix_columns(*self)[c]).len() == r.0,
    {
        matrix_dim(self)
    }

    /// The cells, one vector per column.
    pub fn columns(&self) -> (r: Vec<Vec<i8>>)
        ensures
            column_views(r@) == matrix_columns(*self),
    {
        let (nrows, ncols) = matrix_dim(self);
        let mut cols: Vec<Vec<i8>> = Vec::new();
        let mut c: usize = 0;
        while c < ncols
            invariant
                c <= ncols == matrix_columns(*self).len(),
                nrows == matrix_rows(*self),
                forall|j: int| 0 <= j < ncols ==> (#[trigger] matrix_columns(*self)[j]).len() == nrows,
                column_views(cols@) =~= matrix_columns(*self).subrange(0, c as int),
            decreases ncols - c,
        {
            let mut col: Vec<i8> = Vec::new();
            let mut r: usize = 0;
            while r < nrows
                invariant
                    c < ncols == matrix_columns(*self).len(),
                    nrows == matrix_rows(*self),
                    matrix_columns(*self)[c as int].len() == nrows,
                    r <= nrows,
                    col@ =~= matrix_columns(*self)[c as int].subrange(0, r as int),
                decreases nrows - r,
            {
                col.push(matrix_get(self, r, c));
                r = r + 1;
            }
            proof {
                assert(col@ =~= matrix_columns(*self)[c as int]);
            }
            let ghost old = cols@;
            cols.push(col);
            proof {
                assert(column_views(cols@) =~= column_views(old).push(col@));
                assert(matrix_columns(*self).subrange(0, c + 1) =~= matrix_columns(*self).subrange(
                    0,
                    c as int,
                ).push(matrix_columns(*self)[c as int]));
            }
            c = c + 1;
        }
        cols
    }

    /// Overwrites every cell with the one that `cols` holds at its column and row.
    pub fn fill_from(&mut self, cols: &Vec<Vec<i8>>)
        requires
            column_views(cols@).len() == matrix_columns(*old(self)).len(),
            forall|c: int| 0 <= c < cols@.len() ==> (#[trigger] cols@[c])@.len() == matrix_rows(*old(self)),
        ensures
            matrix_columns(*final(self)) == column_views(cols@),
            matrix_rows(*final(self)) == matrix_rows(*old(self)),
    {
        let (nrows, ncols) = matrix_dim(self);
        let ghost target = column_views(cols@);
        let mut c: usize = 0;
        while c < ncols
            invariant
                ncols == cols@.len() == matrix_columns(*self).len(),
                nrows == matrix_rows(*self),
                target == column_views(cols@),
                forall|j: int| 0 <= j < cols@.len() ==> (#[trigger] cols@[j])@.len() == nrows,
                forall|j: int| 0 <= j < ncols ==> (#[trigger] matrix_columns(*self)[j]).len() == nrows,
                forall|j: int| 0 <= j < c ==> #[trigger] matrix_columns(*self)[j] == target[j],
                c <= ncols,
            decreases ncols - c,
        {
            let mut r: usize = 0;
            while r < nrows
                invariant
                    ncols == cols@.len() == matrix_columns(*self).len(),
                    nrows == matrix_rows(*self),
                    target == column_views(cols@),
                    c < ncols,
                    cols@[c as int]@.len() == nrows,
                    forall|j: int| 0 <= j < ncols ==> (#[trigger] matrix_columns(*self)[j]).len() == nrows,
                    forall|j: int| 0 <= j < c ==> #[trigger] matrix_columns(*self)[j] == target[j],
                    r <= nrows,
                    matrix_columns(*self)[c as int].subrange(0, r as int) =~= cols@[c as int]@.subrange(0, r as int),
                decreases nrows - r,
            {
                matrix_set(self, r, c, cols[c][r]);
                proof {
                    assert(matrix_columns(*self)[c as int].subrange(0, r + 1) =~= cols@[c as int]@.subrange(0, r + 1));
                }
                r = r + 1;
            }
            proof {
                assert(matrix_columns(*self)[c as int] =~= matrix_columns(*self)[c as int].subrange(0, nrows as int));
                assert(cols@[c as int]@ =~= cols@[c as int]@.subrange(0, nrows as int));
            }
            c = c + 1;
        }
        proof {
            assert(matrix_columns(*self) =~= target);
        }
    }
}

/// Decodes fetched blocks into a caller's matrix, whose shape must be the
/// selection's: rows by columns.
pub fn read_and_fill(
    val: &mut GenotypeMatrix,
    plan: &ReadPlan,
    blocks: &Vec<Vec<u8>>,
    table: &[i8; 4],
) -> (r: Result<(), BedErrorPlus>)
    requires
        plan.wf(),
        blocks@.len() == plan.offsets@.len(),
        forall|k: int| 0 <= k < blocks@.len() ==> #[trigger] blocks@[k]@.len() == plan.block_len,
    ensures
        ({
            let (nrows, ncols) = if plan.transposed {
                (blocks@.len(), plan.div4@.len())
            } else {
                (plan.div4@.len(), blocks@.len())
            };
            if matrix_rows(*old(val)) == nrows && matrix_columns(*old(val)).len() == ncols {
                r is Ok && matrix_rows(*final(val)) == nrows && matrix_columns(*final(val)).len() == ncols
                    && forall|c: int, row: int|
                    0 <= c < ncols && 0 <= row < nrows ==> #[trigger] matrix_columns(*final(val))[c][row] == {
                        let (k, j) = if plan.transposed { (row, c) } else { (c, row) };
                        table@[((blocks@[k]@[plan.div4@[j] as int] >> plan.shift@[j]) & 3u8) as int]
                    }
            } else {
                r matches Err(BedErrorPlus::BedError(BedError::InvalidShape(a, b, x, y)))
                    && a == nrows && b == ncols && x == matrix_rows(*old(val)) && y == matrix_columns(*old(val)).len()
                    && *final(val) == *old(val)
            }
        }),
{
    let (nrows, ncols) = if plan.transposed {
        (blocks.len(), plan.div4.len())
    } else {
        (plan.div4.len(), blocks.len())
    };
    let (vrows, vcols) = matrix_dim(val);
    if vrows != nrows || vcols != ncols {
        return Err(BedErrorPlus::BedError(BedError::InvalidShape(nrows, ncols, vrows, vcols)));
    }
    let cols = decode_blocks(plan, blocks, table);
    val.fill_from(&cols);
    Ok(())
}

} // verus!
