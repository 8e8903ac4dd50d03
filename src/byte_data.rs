use vstd::prelude::*;
use crate::grid::{grid_col, grid_get, grid_row, grid_set, grid_update_col, rows_of, shaped};
use crate::params::{DataError, Params};
use crate::traits::DataMatrix;

verus! {

/// Relies on `rand::random`: a value drawn from the thread-local generator,
/// of which nothing is promised.
pub assume_specification<T>[ rand::random::<T> ]() -> T
    where
        rand::distr::StandardUniform: rand::distr::Distribution<T>,
;

/// An `n` by `m` matrix: rows `[0, k)` hold data, rows `[k, n)` parity.
#[derive(Clone, Debug)]
pub struct Data<T> {
    pub params: Params,
    pub matrix: Vec<Vec<T>>,
}

impl<T> Data<T> {
    /// The rows have the shape that the parameters give.
    pub open spec fn wf(&self) -> bool {
        shaped(self.params, rows_of(self.matrix@))
    }

    /// Mutable access to row `idx`.
    pub fn get_row_mut(&mut self, idx: usize) -> (res: &mut Vec<T>)
        requires
            idx < old(self).matrix@.len(),
        ensures
            *res == old(self).matrix@[idx as int],
            final(self).params == old(self).params,
            final(self).matrix@ == old(self).matrix@.update(idx as int, *final(res)),
    {
        &mut self.matrix[idx]
    }
}

impl DataMatrix<u8> for Data<u8> {
    open spec fn shape(&self) -> Params {
        self.params
    }

    open spec fn cells(&self) -> Seq<Seq<u8>> {
        rows_of(self.matrix@)
    }

    open spec fn blank() -> u8 {
        0
    }

    open spec fn valid_elem(t: u8) -> bool {
        true
    }

    fn new_random(params: Params) -> (res: Self) {
        let mut matrix: Vec<Vec<u8>> = Vec::new();
        let mut i: usize = 0;
        while i < params.n
            invariant
                params.valid(),
                i <= params.n,
                matrix@.len() == i,
                forall|a: int| 0 <= a < i ==> (#[trigger] matrix@[a])@.len() == params.m,
                forall|a: int, j: int|
                    params.k <= a < i && 0 <= j < params.m ==> matrix@[a]@[j] == 0u8,
            decreases params.n - i,
        {
            let mut row: Vec<u8> = Vec::new();
            let mut j: usize = 0;
            while j < params.m
                invariant
                    j <= params.m,
                    row@.len() == j,
                    i >= params.k ==> forall|b: int| 0 <= b < j ==> row@[b] == 0u8,
                decreases params.m - j,
            {
                if i < params.k {
                    row.push(rand::random::<u8>());
                } else {
                    row.push(0u8);
                }
                j += 1;
            }
            matrix.push(row);
            i += 1;
        }
        let res = Data { params, matrix };
        assert(shaped(params, rows_of(res.matrix@)));
        res
    }

    fn get(&self, r: usize, c: usize) -> (res: Result<u8, DataError>) {
        grid_get(&self.params, &self.matrix, r, c)
    }

    fn get_row(&self, r: usize) -> (res: Result<Vec<u8>, DataError>) {
        grid_row(&self.params, &self.matrix, r)
    }

    fn get_col(&self, c: usize) -> (res: Result<Vec<u8>, DataError>) {
        grid_col(&self.params, &self.matrix, c)
    }

    fn set(&mut self, r: usize, c: usize, elem: u8) -> (res: Result<(), DataError>) {
        grid_set(&self.params, &mut self.matrix, r, c, elem)
    }

    fn update_col(&mut self, c: usize, new_col: &[u8]) -> (res: Result<(), DataError>) {
        grid_update_col(&self.params, &mut self.matrix, c, new_col)
    }
}

} // verus!
