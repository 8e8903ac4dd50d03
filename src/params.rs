use vstd::prelude::*;

verus! {

/// Why an operation on the store was refused.
#[derive(Clone, Copy, Debug, PartialEq, Eq, Structural)]
pub enum DataError {
    /// A row index at or past `n`.
    RowOutOfBounds { row: usize, n: usize },
    /// A column index at or past `m`.
    ColOutOfBounds { col: usize, m: usize },
    /// A vector whose length differs from the one the parameters ask for.
    LengthMismatch { expected: usize, found: usize },
    /// Parameters that do not describe a code (`k >= n`, `m == 0`, too many rows).
    InvalidParams,
    /// More rows are missing than the code can restore.
    Unrecoverable,
    /// The polynomial commitment scheme could not be set up or used at this size.
    Setup,
}

/// Shape of a matrix: `k` systematic rows, `n` rows in all (so `n - k`
/// parity rows), and `m` columns.
#[derive(Clone, Copy, Debug, PartialEq, Eq, Structural)]
pub struct Params {
    pub k: usize,
    pub n: usize,
    pub m: usize,
}

impl Params {
    /// The parameters describe a code: at least one parity row and one column.
    pub open spec fn valid(&self) -> bool {
        self.k < self.n && self.m > 0
    }

    /// Number of parity rows.
    pub open spec fn parity(&self) -> nat {
        (self.n - self.k) as nat
    }

    pub open spec fn in_bounds(&self, r: int, c: int) -> bool {
        0 <= r < self.n && 0 <= c < self.m
    }

    /// Checks that `(r, c)` addresses a cell.
    pub fn check_bounds(&self, r: usize, c: usize) -> (res: Result<(), DataError>)
        ensures
            res is Ok <==> self.in_bounds(r as int, c as int),
            r >= self.n ==> res == Err::<(), DataError>(DataError::RowOutOfBounds { row: r, n: self.n }),
            r < self.n && c >= self.m ==> res == Err::<(), DataError>(
                DataError::ColOutOfBounds { col: c, m: self.m },
            ),
    {
        self.check_rows(r)?;
        self.check_cols(c)
    }

    /// Checks that `r` addresses a row.
    pub fn check_rows(&self, r: usize) -> (res: Result<(), DataError>)
        ensures
            res is Ok <==> r < self.n,
            r >= self.n ==> res == Err::<(), DataError>(DataError::RowOutOfBounds { row: r, n: self.n }),
    {
        if r < self.n {
            Ok(())
        } else {
            Err(DataError::RowOutOfBounds { row: r, n: self.n })
        }
    }

    /// Checks that `c` addresses a column.
    pub fn check_cols(&self, c: usize) -> (res: Result<(), DataError>)
        ensures
            res is Ok <==> c < self.m,
            c >= self.m ==> res == Err::<(), DataError>(DataError::ColOutOfBounds { col: c, m: self.m }),
    {
        if c < self.m {
            Ok(())
        } else {
            Err(DataError::ColOutOfBounds { col: c, m: self.m })
        }
    }
}

} // verus!
