use vstd::prelude::*;
use crate::byte_data::Data;
use crate::grid::{grid_col, grid_get, grid_row, grid_set, grid_update_col, rows_of, shaped};
use crate::params::{DataError, Params};
use crate::scalar::{lemma_modulus_bounds, limb_value, modulus, Scalar};
use crate::traits::DataMatrix;

verus! {

/// Every cell names a field element.
pub open spec fn all_wf(g: Seq<Seq<Scalar>>) -> bool {
    forall|i: int, j: int| 0 <= i < g.len() && 0 <= j < g[i].len() ==> (#[trigger] g[i][j]).wf()
}

/// A uniformly drawn field element (up to the top limb's small bias).
fn random_scalar() -> (r: Scalar)
    ensures
        r.wf(),
{
    let l3 = rand::random::<u64>() % 0x73eda753299d7d48;
    let r = Scalar { l0: rand::random::<u64>(), l1: rand::random::<u64>(), l2: rand::random::<u64>(), l3 };
    proof {
        let b: int = 0x1_0000_0000_0000_0000;
        let low = r.l0 as int + b * (r.l1 as int + b * r.l2 as int);
        assert(low < b * b * b) by (nonlinear_arith)
            requires
                low == r.l0 as int + b * (r.l1 as int + b * r.l2 as int),
                r.l0 < b,
                r.l1 < b,
                r.l2 < b,
                b == 0x1_0000_0000_0000_0000int,
        ;
        assert(r.val() == low + b * b * b * l3) by (nonlinear_arith)
            requires
                low == r.l0 as int + b * (r.l1 as int + b * r.l2 as int),
                r.val() == limb_value(r.l0, r.l1, r.l2, l3),
                b == 0x1_0000_0000_0000_0000int,
        ;
        assert(modulus() >= b * b * b * 0x73eda753299d7d48) by (nonlinear_arith)
            requires
                modulus() == limb_value(0xffffffff00000001, 0x53bda402fffe5bfe, 0x3339d80809a1d805, 0x73eda753299d7d48),
                b == 0x1_0000_0000_0000_0000int,
        ;
        assert(b * b * b * l3 + b * b * b <= b * b * b * 0x73eda753299d7d48) by (nonlinear_arith)
            requires
                l3 < 0x73eda753299d7d48,
                b > 0,
        ;
    }
    r
}

/// An `n` by `m` matrix of field elements.
#[derive(Clone, Debug)]
pub struct Matrix {
    pub params: Params,
    pub elms: Vec<Vec<Scalar>>,
}

impl Matrix {
    /// The rows have the shape that the parameters give and every cell is
    /// a field element.
    pub open spec fn wf(&self) -> bool {
        shaped(self.params, rows_of(self.elms@)) && all_wf(rows_of(self.elms@))
    }

    /// Embeds a byte matrix cell by cell.
    pub fn from_data(data: &Data<u8>) -> (res: Matrix)
        requires
            data.wf(),
        ensures
            res.wf(),
            res.params == data.params,
            forall|i: int, j: int|
                0 <= i < data.params.n && 0 <= j < data.params.m ==> (#[trigger] res.elms@[i]@[j]).val()
                    == data.matrix@[i]@[j] as int,
    {
        proof {
            lemma_modulus_bounds();
        }
        let rows = data.params.n;
        let cols = data.params.m;
        let mut elms: Vec<Vec<Scalar>> = Vec::new();
        let mut i: usize = 0;
        while i < rows
            invariant
                0x1_0000_0000_0000_0000 < modulus(),
                data.wf(),
                rows == data.params.n,
                cols == data.params.m,
                i <= rows,
                elms@.len() == i,
                forall|a: int| 0 <= a < i ==> (#[trigger] elms@[a])@.len() == cols,
                forall|a: int, j: int|
                    0 <= a < i && 0 <= j < cols ==> (#[trigger] elms@[a]@[j]).wf() && elms@[a]@[j].val()
                        == data.matrix@[a]@[j] as int,
            decreases rows - i,
        {
            assert(rows_of(data.matrix@)[i as int].len() == cols);
            let mut row: Vec<Scalar> = Vec::new();
            let mut j: usize = 0;
            while j < cols
                invariant
                    0x1_0000_0000_0000_0000 < modulus(),
                    data.wf(),
                    i < rows,
                    rows == data.params.n,
                    cols == data.params.m,
                    data.matrix@[i as int]@.len() == cols,
                    j <= cols,
                    row@.len() == j,
                    forall|b: int|
                        0 <= b < j ==> (#[trigger] row@[b]).wf() && row@[b].val() == data.matrix@[i as int]@[b] as int,
                decreases cols - j,
            {
                let x = Scalar::from_u8(data.matrix[i][j]);
                assert(x.val() == data.matrix@[i as int]@[j as int] as int);
                row.push(x);
                j += 1;
            }
            elms.push(row);
            i += 1;
        }
        let res = Matrix { params: data.params, elms };
        assert(shaped(res.params, rows_of(res.elms@)));
        res
    }

    /// Mutable access to row `idx`.
    pub fn get_row_mut(&mut self, idx: usize) -> (res: Result<&mut Vec<Scalar>, DataError>)
        requires
            old(self).wf(),
        ensures
            res is Ok <==> idx < old(self).params.n,
            idx >= old(self).params.n ==> res is Err && *final(self) == *old(self),
            res is Ok ==> *res.unwrap() == old(self).elms@[idx as int] && final(self).params
                == old(self).params && final(self).elms@ == old(self).elms@.update(
                idx as int,
                *final(res.unwrap()),
            ),
    {
        if idx >= self.params.n {
            return Err(DataError::RowOutOfBounds { row: idx, n: self.params.n });
        }
        Ok(&mut self.elms[idx])
    }
}

impl DataMatrix<Scalar> for Matrix {
    open spec fn shape(&self) -> Params {
        self.params
    }

    open spec fn cells(&self) -> Seq<Seq<Scalar>> {
        rows_of(self.elms@)
    }

    open spec fn blank() -> Scalar {
        Scalar { l0: 0, l1: 0, l2: 0, l3: 0 }
    }

    open spec fn valid_elem(t: Scalar) -> bool {
        t.wf()
    }

    fn new_random(params: Params) -> (res: Self) {
        let mut elms: Vec<Vec<Scalar>> = Vec::new();
        let mut i: usize = 0;
        while i < params.n
            invariant
                params.valid(),
                i <= params.n,
                elms@.len() == i,
                forall|a: int| 0 <= a < i ==> (#[trigger] elms@[a])@.len() == params.m,
                forall|a: int, j: int|
                    params.k <= a < i && 0 <= j < params.m ==> elms@[a]@[j] == Self::blank(),
                forall|a: int, j: int|
                    0 <= a < i && 0 <= j < params.m ==> (#[trigger] elms@[a]@[j]).wf(),
            decreases params.n - i,
        {
            let mut row: Vec<Scalar> = Vec::new();
            let mut j: usize = 0;
            while j < params.m
                invariant
                    j <= params.m,
                    row@.len() == j,
                    i >= params.k ==> forall|b: int| 0 <= b < j ==> row@[b] == Self::blank(),
                    forall|b: int| 0 <= b < j ==> (#[trigger] row@[b]).wf(),
                decreases params.m - j,
            {
                if i < params.k {
                    row.push(random_scalar());
                } else {
                    row.push(Scalar::zero());
                }
                j += 1;
            }
            elms.push(row);
            i += 1;
        }
        let res = Matrix { params, elms };
        assert(shaped(params, rows_of(res.elms@)));
        res
    }

    fn get(&self, r: usize, c: usize) -> (res: Result<Scalar, DataError>) {
        grid_get(&self.params, &self.elms, r, c)
    }

    fn get_row(&self, r: usize) -> (res: Result<Vec<Scalar>, DataError>) {
        grid_row(&self.params, &self.elms, r)
    }

    fn get_col(&self, c: usize) -> (res: Result<Vec<Scalar>, DataError>) {
        grid_col(&self.params, &self.elms, c)
    }

    fn set(&mut self, r: usize, c: usize, elem: Scalar) -> (res: Result<(), DataError>) {
        grid_set(&self.params, &mut self.elms, r, c, elem)
    }

    fn update_col(&mut self, c: usize, new_col: &[Scalar]) -> (res: Result<(), DataError>) {
        grid_update_col(&self.params, &mut self.elms, c, new_col)
    }
}

} // verus!
