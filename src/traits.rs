use vstd::prelude::*;
use crate::grid::{column_of, shaped, with_cell, with_column_prefix};
use crate::params::{DataError, Params};

verus! {

/// An `n` by `m` matrix of scalars whose only bulk mutation is the rewrite of
/// the systematic part of one column.
pub trait DataMatrix<T: Copy>: Sized {
    /// The shape the matrix was built with.
    spec fn shape(&self) -> Params;

    /// The cells, row by row.
    spec fn cells(&self) -> Seq<Seq<T>>;

    /// What the parity rows of a fresh matrix hold.
    spec fn blank() -> T;

    /// Whether a value is one of the scalars the matrix is over.
    spec fn valid_elem(t: T) -> bool;

    /// Every cell holds a scalar.
    open spec fn cells_valid(&self) -> bool {
        forall|i: int, j: int|
            0 <= i < self.cells().len() && 0 <= j < self.cells()[i].len() ==> Self::valid_elem(
                #[trigger] self.cells()[i][j],
            )
    }

    /// A matrix with arbitrary systematic rows and blank parity rows.
    fn new_random(params: Params) -> (res: Self)
        requires
            params.valid(),
        ensures
            res.shape() == params,
            shaped(params, res.cells()),
            res.cells_valid(),
            forall|i: int, j: int|
                params.k <= i < params.n && 0 <= j < params.m ==> res.cells()[i][j]
                    == Self::blank(),
    ;

    fn get(&self, r: usize, c: usize) -> (res: Result<T, DataError>)
        requires
            shaped(self.shape(), self.cells()),
        ensures
            res is Ok <==> self.shape().in_bounds(r as int, c as int),
            res is Ok ==> res.unwrap() == self.cells()[r as int][c as int],
            r >= self.shape().n ==> res == Err::<T, DataError>(
                DataError::RowOutOfBounds { row: r, n: self.shape().n },
            ),
            r < self.shape().n && c >= self.shape().m ==> res == Err::<T, DataError>(
                DataError::ColOutOfBounds { col: c, m: self.shape().m },
            ),
    ;

    fn get_row(&self, r: usize) -> (res: Result<Vec<T>, DataError>)
        requires
            shaped(self.shape(), self.cells()),
        ensures
            res is Ok <==> r < self.shape().n,
            res is Ok ==> res.unwrap()@ == self.cells()[r as int],
            r >= self.shape().n ==> res == Err::<Vec<T>, DataError>(
                DataError::RowOutOfBounds { row: r, n: self.shape().n },
            ),
    ;

    fn get_col(&self, c: usize) -> (res: Result<Vec<T>, DataError>)
        requires
            shaped(self.shape(), self.cells()),
        ensures
            res is Ok <==> c < self.shape().m,
            res is Ok ==> res.unwrap()@ == column_of(self.cells(), c as int),
            c >= self.shape().m ==> res == Err::<Vec<T>, DataError>(
                DataError::ColOutOfBounds { col: c, m: self.shape().m },
            ),
    ;

    fn set(&mut self, r: usize, c: usize, elem: T) -> (res: Result<(), DataError>)
        requires
            shaped(old(self).shape(), old(self).cells()),
        ensures
            old(self).cells_valid() && Self::valid_elem(elem) ==> final(self).cells_valid(),
            final(self).shape() == old(self).shape(),
            shaped(final(self).shape(), final(self).cells()),
            res is Ok <==> old(self).shape().in_bounds(r as int, c as int),
            res is Ok ==> final(self).cells() == with_cell(old(self).cells(), r as int, c as int, elem),
            res is Err ==> final(self).cells() == old(self).cells(),
            r >= old(self).shape().n ==> res == Err::<(), DataError>(
                DataError::RowOutOfBounds { row: r, n: old(self).shape().n },
            ),
            r < old(self).shape().n && c >= old(self).shape().m ==> res == Err::<(), DataError>(
                DataError::ColOutOfBounds { col: c, m: old(self).shape().m },
            ),
    ;

    /// Writes `new_col` over rows `[0, k)` of column `c`; the parity rows of
    /// that column are left as they were until the column is encoded again.
    fn update_col(&mut self, c: usize, new_col: &[T]) -> (res: Result<(), DataError>)
        requires
            old(self).shape().valid(),
            shaped(old(self).shape(), old(self).cells()),
        ensures
            old(self).cells_valid() && (forall|i: int|
                0 <= i < new_col@.len() ==> Self::valid_elem(#[trigger] new_col@[i]))
                ==> final(self).cells_valid(),
            final(self).shape() == old(self).shape(),
            shaped(final(self).shape(), final(self).cells()),
            res is Ok <==> c < old(self).shape().m && new_col@.len() == old(self).shape().k,
            c >= old(self).shape().m ==> res == Err::<(), DataError>(
                DataError::ColOutOfBounds { col: c, m: old(self).shape().m },
            ),
            c < old(self).shape().m && new_col@.len() != old(self).shape().k ==> res == Err::<
                (),
                DataError,
            >(DataError::LengthMismatch { expected: old(self).shape().k, found: new_col@.len() as usize }),
            res is Ok ==> final(self).cells() == with_column_prefix(
                old(self).cells(),
                c as int,
                new_col@,
            ),
            res is Err ==> final(self).cells() == old(self).cells(),
    ;
}

/// The first `k` cells of column `c`: the data that the column's parity
/// protects.
pub open spec fn data_column<T>(g: Seq<Seq<T>>, k: nat, c: int) -> Seq<T> {
    column_of(g, c).take(k as int)
}

/// `g` with the parity cells of column `c` set to `par`.
pub open spec fn with_parity_column<T>(g: Seq<Seq<T>>, k: nat, c: int, par: Seq<T>) -> Seq<
    Seq<T>,
> {
    Seq::new(g.len(), |i: int| if i >= k { g[i].update(c, par[i - k]) } else { g[i] })
}

/// The rows of a column given with holes (`None`).
pub open spec fn opt_rows<T>(v: Seq<Option<Vec<T>>>) -> Seq<Option<Seq<T>>> {
    v.map_values(|o: Option<Vec<T>>| match o {
        Some(r) => Some(r@),
        None => None,
    })
}

/// How many rows are present.
pub open spec fn present_count<T>(v: Seq<Option<Seq<T>>>) -> nat {
    v.filter(|o: Option<Seq<T>>| o is Some).len()
}

/// Every present row of `v` has length `len`.
pub open spec fn present_len<T>(v: Seq<Option<Seq<T>>>, len: nat) -> bool {
    forall|i: int| 0 <= i < v.len() && (#[trigger] v[i]) is Some ==> v[i].unwrap().len() == len
}

/// Every row is present and has length `len`.
pub open spec fn all_present<T>(v: Seq<Option<Seq<T>>>, len: nat) -> bool {
    forall|i: int| 0 <= i < v.len() ==> (#[trigger] v[i]) is Some && v[i].unwrap().len() == len
}

/// `after` keeps every row that `before` had.
pub open spec fn keeps_present<T>(before: Seq<Option<Seq<T>>>, after: Seq<Option<Seq<T>>>) -> bool {
    &&& after.len() == before.len()
    &&& forall|i: int| 0 <= i < before.len() && (#[trigger] before[i]) is Some ==> after[i] == before[i]
}

/// A column erasure code: parity rows computed column by column from the
/// systematic rows, and the restoration of missing rows.
pub trait Encoder<T: Copy, M: DataMatrix<T>> {
    /// The parameters under which the code can be built; parameters that
    /// describe no code (`k >= n`, no column) are never among them.
    spec fn supports(p: Params) -> bool;

    /// The `n - k` parity cells that the code gives a column whose data
    /// cells are `data`.
    spec fn parity_of(k: nat, p: nat, data: Seq<T>) -> Seq<T>;

    /// What restoration guarantees of `after`, the rows with holes filled,
    /// given `before`, the rows as handed in.
    spec fn restores(k: nat, p: nat, before: Seq<Option<Seq<T>>>, after: Seq<Option<Seq<T>>>) -> bool;

    /// Whether restoration accepts rows with these holes under these
    /// parameters.
    spec fn accepts(params: Params, rows: Seq<Option<Seq<T>>>) -> bool;

    /// Fills every parity cell from the data cells of its column; the data
    /// cells are left as they are.
    fn encode(data: &mut M) -> (res: Result<(), DataError>)
        requires
            shaped(old(data).shape(), old(data).cells()),
            old(data).cells_valid(),
        ensures
            final(data).cells_valid(),
            final(data).shape() == old(data).shape(),
            shaped(final(data).shape(), final(data).cells()),
            res is Ok <==> Self::supports(old(data).shape()),
            res is Err ==> final(data).cells() == old(data).cells(),
            res is Ok ==> forall|i: int, j: int|
                0 <= i < old(data).shape().k && 0 <= j < old(data).shape().m ==> (
                #[trigger] final(data).cells()[i][j]) == old(data).cells()[i][j],
            res is Ok ==> forall|i: int, j: int|
                old(data).shape().k <= i < old(data).shape().n && 0 <= j < old(data).shape().m
                    ==> (#[trigger] final(data).cells()[i][j]) == Self::parity_of(
                    old(data).shape().k as nat,
                    old(data).shape().parity(),
                    data_column(old(data).cells(), old(data).shape().k as nat, j),
                )[i - old(data).shape().k],
    ;

    /// Fills the parity cells of column `c` alone.
    fn encode_col(data: &mut M, c: usize) -> (res: Result<(), DataError>)
        requires
            shaped(old(data).shape(), old(data).cells()),
            old(data).cells_valid(),
        ensures
            final(data).cells_valid(),
            final(data).shape() == old(data).shape(),
            shaped(final(data).shape(), final(data).cells()),
            res is Ok <==> Self::supports(old(data).shape()) && c < old(data).shape().m,
            c >= old(data).shape().m ==> res == Err::<(), DataError>(
                DataError::ColOutOfBounds { col: c, m: old(data).shape().m },
            ),
            res is Err ==> final(data).cells() == old(data).cells(),
            res is Ok ==> final(data).cells() == with_parity_column(
                old(data).cells(),
                old(data).shape().k as nat,
                c as int,
                Self::parity_of(
                    old(data).shape().k as nat,
                    old(data).shape().parity(),
                    data_column(old(data).cells(), old(data).shape().k as nat, c as int),
                ),
            ),
    ;

    /// Fills the missing rows (`None`) of `matrix_opts`, keeping the rows
    /// that are there.
    fn reconstruct(params: Params, matrix_opts: &mut Vec<Option<Vec<T>>>) -> (res: Result<(), DataError>)
        requires
            forall|i: int, j: int|
                0 <= i < old(matrix_opts)@.len() && old(matrix_opts)@[i] is Some && 0 <= j
                    < old(matrix_opts)@[i].unwrap()@.len() ==> M::valid_elem(
                    #[trigger] old(matrix_opts)@[i].unwrap()@[j],
                ),
        ensures
            res is Ok <==> Self::accepts(params, opt_rows(old(matrix_opts)@)),
            res is Err ==> final(matrix_opts)@ == old(matrix_opts)@,
            res is Ok ==> keeps_present(opt_rows(old(matrix_opts)@), opt_rows(final(matrix_opts)@)),
            res is Ok ==> Self::restores(
                params.k as nat,
                params.parity(),
                opt_rows(old(matrix_opts)@),
                opt_rows(final(matrix_opts)@),
            ),
    ;
}

/// What a commitment carries: the committed polynomial and the group element.
pub trait CommitOutputTrait {
    type Poly;
    type Comm;

    fn get_poly(&self) -> &Self::Poly;

    fn get_comm(&self) -> &Self::Comm;
}

} // verus!
