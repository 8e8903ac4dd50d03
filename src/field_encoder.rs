use vstd::prelude::*;
use crate::byte_data::Data;
use crate::field_matrix::Matrix;
use crate::grid::{rows_of, shaped};
use crate::params::{DataError, Params};
use crate::poly::{
    all_wf, domain_point, domain_points, domain_size, fr_domain_point, lagrange_at, lagrange_eval, nodes_ok,
    vals,
};
use crate::scalar::{lemma_scalar_of_val, scalar_of, Scalar};
use crate::traits::{data_column, opt_rows, DataMatrix, Encoder};
use crate::encoder::write_parity_column;

verus! {

/// The parity values of a column in evaluation form: the data are the values
/// at the first `k` points of the domain for `k + p` points, and each parity
/// cell is the value at a later point of the polynomial of degree below `k`
/// through them.
pub open spec fn field_parity_vals(k: nat, p: nat, data: Seq<int>) -> Seq<int> {
    Seq::new(
        p,
        |t: int| lagrange_at(domain_points(k + p, k), data, domain_point(k + p, (k + t) as nat)),
    )
}

/// The evaluation-form code exists for these parameters: the radix-2
/// domain for `n` points can be built.
pub open spec fn field_supports(params: Params) -> bool {
    params.n <= 0x1_0000_0000
}

/// The points of the domain for `n` points below `count` are distinct.
pub open spec fn points_apart(n: nat, count: nat) -> bool {
    forall|a: nat, b: nat| a < count && b < domain_size(n) && a != b ==> #[trigger] domain_point(n, a) != #[trigger] domain_point(n, b)
}

/// The first `count` points of the domain for `n` points.
fn domain_nodes(n: usize, count: usize) -> (r: Option<Vec<Scalar>>)
    ensures
        r is Some <==> n <= 0x1_0000_0000,
        r is Some ==> all_wf(r.unwrap()@) && vals(r.unwrap()@) == domain_points(n as nat, count as nat),
        r is Some && count <= n ==> points_apart(n as nat, count as nat),
{
    if n as u64 > 0x1_0000_0000 {
        return None;
    }
    let mut out: Vec<Scalar> = Vec::new();
    let mut i: usize = 0;
    while i < count
        invariant
            i <= count,
            n <= 0x1_0000_0000,
            out@.len() == i,
            all_wf(out@),
            forall|a: int| 0 <= a < i ==> (#[trigger] out@[a]).val() == domain_point(n as nat, a as nat),
            count <= n ==> points_apart(n as nat, i as nat),
        decreases count - i,
    {
        proof {
            crate::poly::lemma_pow2_from_pos(1, n as nat);
        }
        match fr_domain_point(n, i) {
            Some(x) => out.push(x),
            None => return None,
        }
        i += 1;
    }
    assert(vals(out@) =~= domain_points(n as nat, count as nat));
    Some(out)
}

/// The parity values of a column whose data values are `ys`.
fn field_parity(n: usize, k: usize, ys: &Vec<Scalar>) -> (r: Option<Vec<Scalar>>)
    requires
        k < n,
        ys@.len() == k,
        all_wf(ys@),
    ensures
        r is Some <==> field_supports(Params { k, n, m: 1 }),
        r is Some ==> all_wf(r.unwrap()@) && vals(r.unwrap()@) == field_parity_vals(
            k as nat,
            (n - k) as nat,
            vals(ys@),
        ),
{
    let nodes = match domain_nodes(n, k) {
        Some(v) => v,
        None => return None,
    };
    assert(nodes@.len() == vals(nodes@).len());
    assert(nodes@.len() == k);
    assert forall|a: int, b: int| 0 <= a < b < nodes@.len() implies (#[trigger] nodes@[a]).val()
        != (#[trigger] nodes@[b]).val() by {
        assert(nodes@[a].val() == vals(nodes@)[a]);
        assert(nodes@[b].val() == vals(nodes@)[b]);
        crate::poly::lemma_pow2_from_pos(1, n as nat);
        assert(points_apart(n as nat, k as nat));
        assert((b as nat) < domain_size(n as nat));
        assert(domain_point(n as nat, a as nat) != domain_point(n as nat, b as nat));
    }
    let ghost want = field_parity_vals(k as nat, (n - k) as nat, vals(ys@));
    assert(nodes@.len() == vals(nodes@).len());
    let mut out: Vec<Scalar> = Vec::new();
    let mut i: usize = k;
    while i < n
        invariant
            k <= i <= n,
            n <= 0x1_0000_0000,
            ys@.len() == k,
            all_wf(ys@),
            all_wf(nodes@),
            vals(nodes@) == domain_points(n as nat, k as nat),
            nodes@.len() == k,
            want == field_parity_vals(k as nat, (n - k) as nat, vals(ys@)),
            forall|a: int, b: int| 0 <= a < b < nodes@.len() ==> (#[trigger] nodes@[a]).val()
                != (#[trigger] nodes@[b]).val(),
            out@.len() == i - k,
            all_wf(out@),
            forall|t: int| 0 <= t < i - k ==> (#[trigger] out@[t]).val() == want[t],
        decreases n - i,
    {
        let x = match fr_domain_point(n, i) {
            Some(x) => x,
            None => return None,
        };
        match lagrange_eval(&nodes, ys, x) {
            Some(v) => {
                assert((k as nat) + ((n - k) as nat) == n as nat);
                assert(((k as nat) + ((i - k) as nat)) as nat == i as nat);
                assert(want[i - k] == lagrange_at(domain_points(n as nat, k as nat), vals(ys@), domain_point(n as nat, i as nat)));
                assert(v.val() == want[i - k]);
                out.push(v);
            },
            None => return None,
        }
        i += 1;
    }
    assert(vals(out@) =~= want);
    Some(out)
}

/// The indices of the present rows, in order.
pub open spec fn present_indices(v: Seq<Option<Seq<Scalar>>>) -> Seq<int>
    decreases v.len(),
{
    if v.len() == 0 {
        Seq::empty()
    } else {
        let s = present_indices(v.drop_last());
        if v.last() is Some {
            s.push(v.len() - 1)
        } else {
            s
        }
    }
}

/// The domain points of the present rows.
pub open spec fn present_nodes(n: nat, v: Seq<Option<Seq<Scalar>>>) -> Seq<int> {
    present_indices(v).map_values(|i: int| domain_point(n, i as nat))
}

/// The values of the present rows in column `j`.
pub open spec fn present_column(v: Seq<Option<Seq<Scalar>>>, j: int) -> Seq<int> {
    present_indices(v).map_values(|i: int| v[i].unwrap()[j].val())
}

/// Restoration in evaluation form accepts `n` rows, the present ones of `m`
/// cells, at least `k` present, on a domain that can be built.
pub open spec fn field_accepts(params: Params, rows: Seq<Option<Seq<Scalar>>>) -> bool {
    &&& rows.len() == params.n
    &&& params.n <= 0x1_0000_0000
    &&& crate::traits::present_len(rows, params.m as nat)
    &&& present_indices(rows).len() >= params.k
}

/// Every row of `after` is there, all of one length, and each missing row
/// of `before` holds, cell by cell, the value at its domain point of the
/// polynomial through the present rows of that column.
pub open spec fn field_restored(n: nat, before: Seq<Option<Seq<Scalar>>>, after: Seq<Option<Seq<Scalar>>>) -> bool {
    &&& after.len() == before.len()
    &&& exists|len: nat| crate::traits::all_present(after, len)
    &&& forall|i: int, j: int|
        0 <= i < before.len() && before[i] is None && 0 <= j < after[i].unwrap().len() ==> (
        #[trigger] after[i].unwrap()[j]).val() == lagrange_at(
            present_nodes(n, before),
            present_column(before, j),
            domain_point(n, i as nat),
        )
}

/// The indices of the present rows are increasing row indices, each of a
/// present row.
pub proof fn lemma_present_indices(v: Seq<Option<Seq<Scalar>>>, t: int)
    requires
        0 <= t < present_indices(v).len(),
    ensures
        0 <= present_indices(v)[t] < v.len(),
        v[present_indices(v)[t]] is Some,
        forall|u: int| 0 <= u < t ==> #[trigger] present_indices(v)[u] < present_indices(v)[t],
    decreases v.len(),
{
    let s = present_indices(v.drop_last());
    if t < s.len() {
        lemma_present_indices(v.drop_last(), t);
    } else {
        assert forall|u: int| 0 <= u < t implies #[trigger] present_indices(v)[u] < present_indices(v)[t] by {
            lemma_present_indices(v.drop_last(), u);
        }
    }
}

/// `len` zeros.
fn vec_of_zeros(len: usize) -> (r: Vec<Scalar>)
    ensures
        r@.len() == len,
        all_wf(r@),
{
    let mut r: Vec<Scalar> = Vec::new();
    while r.len() < len
        invariant
            r@.len() <= len,
            all_wf(r@),
        decreases len - r.len(),
    {
        r.push(Scalar::zero());
    }
    r
}

/// The evaluation-form parity of a column, as scalars.
pub open spec fn field_parity_of(k: nat, p: nat, data: Seq<Scalar>) -> Seq<Scalar> {
    field_parity_vals(k, p, vals(data)).map_values(|v: int| scalar_of(v))
}

/// The parity bytes of the byte strategy: the low byte of each field parity
/// value, the data bytes taken as field elements.
pub open spec fn byte_parity_of(k: nat, p: nat, data: Seq<u8>) -> Seq<u8> {
    field_parity_vals(k, p, data.map_values(|b: u8| b as int)).map_values(|v: int| (v % 256) as u8)
}

/// The data cells of column `c`, copied out.
fn data_cells<T: Copy>(p: &Params, g: &Vec<Vec<T>>, c: usize) -> (r: Vec<T>)
    requires
        p.valid(),
        c < p.m,
        shaped(*p, rows_of(g@)),
    ensures
        r@ == data_column(rows_of(g@), p.k as nat, c as int),
{
    let mut out: Vec<T> = Vec::new();
    let mut i: usize = 0;
    while i < p.k
        invariant
            p.valid(),
            c < p.m,
            shaped(*p, rows_of(g@)),
            i <= p.k,
            out@ == data_column(rows_of(g@), p.k as nat, c as int).take(i as int),
        decreases p.k - i,
    {
        assert(rows_of(g@)[i as int].len() == p.m);
        out.push(g[i][c]);
        i += 1;
        assert(out@ =~= data_column(rows_of(g@), p.k as nat, c as int).take(i as int));
    }
    assert(out@ =~= data_column(rows_of(g@), p.k as nat, c as int));
    out
}

/// Reed-Solomon in evaluation form over the scalar field of BLS12-381, on a
/// matrix of field elements.
pub struct BLSFieldEncoder;

impl BLSFieldEncoder {
    pub fn new() -> Self {
        BLSFieldEncoder
    }
}

impl Encoder<Scalar, Matrix> for BLSFieldEncoder {
    open spec fn supports(p: Params) -> bool {
        p.valid() && field_supports(p)
    }

    open spec fn parity_of(k: nat, p: nat, data: Seq<Scalar>) -> Seq<Scalar> {
        field_parity_of(k, p, data)
    }

    open spec fn restores(k: nat, p: nat, before: Seq<Option<Seq<Scalar>>>, after: Seq<Option<Seq<Scalar>>>) -> bool {
        field_restored(k + p, before, after)
    }

    open spec fn accepts(params: Params, rows: Seq<Option<Seq<Scalar>>>) -> bool {
        params.valid() && field_accepts(params, rows)
    }

    fn encode(data: &mut Matrix) -> (res: Result<(), DataError>) {
        let m = data.params.m;
        if data.params.k >= data.params.n || m == 0 {
            return Err(DataError::InvalidParams);
        }
        let ghost before = data.cells();
        let mut c: usize = 0;
        while c < m
            invariant
                m == data.params.m,
                data.params == old(data).params,
                data.params.valid(),
                before == old(data).cells(),
                shaped(data.params, before),
                c <= m,
                shaped(data.params, data.cells()),
                data.cells_valid(),
                c > 0 ==> field_supports(data.params),
                c == 0 ==> data.cells() == before,
                forall|i: int, j: int|
                    0 <= i < data.params.k && 0 <= j < m ==> (#[trigger] data.cells()[i][j])
                        == before[i][j],
                forall|i: int, j: int|
                    data.params.k <= i < data.params.n && 0 <= j < c ==> (
                    #[trigger] data.cells()[i][j]) == field_parity_of(
                        data.params.k as nat,
                        data.params.parity(),
                        data_column(before, data.params.k as nat, j),
                    )[i - data.params.k],
                forall|i: int, j: int|
                    data.params.k <= i < data.params.n && c <= j < m ==> (
                    #[trigger] data.cells()[i][j]) == before[i][j],
            decreases m - c,
        {
            let ghost k = data.params.k as nat;
            assert forall|i: int| 0 <= i < k implies #[trigger] data.cells()[i][c as int]
                == before[i][c as int] by {
            }
            assert(data_column(data.cells(), k, c as int) =~= data_column(before, k, c as int));
            Self::encode_col(data, c)?;
            c += 1;
        }
        Ok(())
    }

    fn encode_col(data: &mut Matrix, c: usize) -> (res: Result<(), DataError>) {
        data.params.check_cols(c)?;
        let n = data.params.n;
        let k = data.params.k;
        if k >= n {
            return Err(DataError::InvalidParams);
        }
        let ghost before = data.cells();
        let ys = data_cells(&data.params, &data.elms, c);
        assert(all_wf(ys@)) by {
            assert forall|i: int| 0 <= i < ys@.len() implies (#[trigger] ys@[i]).wf() by {
                assert(before[i][c as int] == ys@[i]);
            }
        }
        let par = match field_parity(n, k, &ys) {
            Some(par) => par,
            None => return Err(DataError::InvalidParams),
        };
        assert(field_supports(data.params) == field_supports(Params { k, n, m: 1 }));
        let ghost want = field_parity_of(k as nat, (n - k) as nat, ys@);
        assert forall|t: int| 0 <= t < par@.len() implies par@[t] == want[t] by {
            lemma_scalar_of_val(par@[t]);
        }
        assert(par@ =~= want);
        write_parity_column(&data.params, &mut data.elms, c, &par);
        Ok(())
    }

    fn reconstruct(params: Params, matrix_opts: &mut Vec<Option<Vec<Scalar>>>) -> (res: Result<(), DataError>) {
        let n = params.n;
        let m = params.m;
        if params.k >= n || m == 0 {
            return Err(DataError::InvalidParams);
        }
        let ghost before = opt_rows(matrix_opts@);
        assert forall|a: int, c: int|
            0 <= a < before.len() && before[a] is Some && 0 <= c < before[a].unwrap().len()
                implies (#[trigger] before[a].unwrap()[c]).wf() by {
            assert(before[a].unwrap()[c] == old(matrix_opts)@[a].unwrap()@[c]);
        }
        if matrix_opts.len() != n {
            return Err(DataError::LengthMismatch { expected: n, found: matrix_opts.len() });
        }
        // the present rows, checked for length
        let mut idx: Vec<usize> = Vec::new();
        let mut i: usize = 0;
        while i < n
            invariant
                n == matrix_opts@.len(),
                n == params.n,
                m == params.m,
                before == opt_rows(matrix_opts@),
                i <= n,
                forall|a: int| 0 <= a < i && (#[trigger] before[a]) is Some ==> before[a].unwrap().len() == m,
                idx@.map_values(|u: usize| u as int) == present_indices(before.take(i as int)),
                forall|t: int| 0 <= t < idx@.len() ==> (#[trigger] idx@[t]) < i,
            decreases n - i,
        {
            assert(before.take(i as int + 1).drop_last() =~= before.take(i as int));
            match &matrix_opts[i] {
                Some(row) => {
                    if row.len() != m {
                        proof {
                            assert(before[i as int] == Some(row@));
                            assert(!crate::traits::present_len(before, m as nat));
                        }
                        return Err(DataError::LengthMismatch { expected: m, found: row.len() });
                    }
                    idx.push(i);
                },
                None => {},
            }
            i += 1;
            assert(idx@.map_values(|u: usize| u as int) =~= present_indices(before.take(i as int)));
        }
        assert(before.take(n as int) =~= before);
        let ghost pres = present_indices(before);
        assert(idx@.len() == pres.len());
        if idx.len() < params.k {
            return Err(DataError::Unrecoverable);
        }
        if n as u64 > 0x1_0000_0000 {
            return Err(DataError::InvalidParams);
        }
        // their domain points
        let mut nodes: Vec<Scalar> = Vec::new();
        let mut t: usize = 0;
        while t < idx.len()
            invariant
                n <= 0x1_0000_0000,
                idx@.map_values(|u: usize| u as int) == pres,
                t <= idx@.len(),
                nodes@.len() == t,
                all_wf(nodes@),
                forall|a: int| 0 <= a < t ==> (#[trigger] nodes@[a]).val() == domain_point(n as nat, pres[a] as nat),
                pres == present_indices(before),
                n == before.len(),
                forall|a: int, b: int| 0 <= a < b < t ==> (#[trigger] nodes@[a]).val() != (#[trigger] nodes@[b]).val(),
            decreases idx.len() - t,
        {
            proof {
                lemma_present_indices(before, t as int);
                crate::poly::lemma_pow2_from_pos(1, n as nat);
            }
            let x = match fr_domain_point(n, idx[t]) {
                Some(x) => x,
                None => return Err(DataError::InvalidParams),
            };
            assert(pres[t as int] == idx@[t as int] as int);
            let ghost prev = nodes@;
            nodes.push(x);
            proof {
                assert forall|a: int, b: int| 0 <= a < b < t + 1 implies (#[trigger] nodes@[a]).val() != (#[trigger] nodes@[b]).val() by {
                    if b == t {
                        assert(pres[a] < pres[t as int]);
                        assert(nodes@[a] == prev[a]);
                        assert(x.val() != domain_point(n as nat, pres[a] as nat));
                    } else {
                        assert(nodes@[a] == prev[a]);
                        assert(nodes@[b] == prev[b]);
                    }
                }
            }
            t += 1;
        }
        assert(vals(nodes@) =~= present_nodes(n as nat, before));
        // the present values, column by column
        let mut cols: Vec<Vec<Scalar>> = Vec::new();
        let mut j: usize = 0;
        while j < m
            invariant
                n == matrix_opts@.len(),
                before == opt_rows(matrix_opts@),
                forall|a: int| 0 <= a < n && (#[trigger] before[a]) is Some ==> before[a].unwrap().len() == m,
                idx@.map_values(|u: usize| u as int) == pres,
                pres == present_indices(before),
                forall|t: int| 0 <= t < idx@.len() ==> (#[trigger] idx@[t]) < n,
                forall|a: int, c: int|
                    0 <= a < before.len() && before[a] is Some && 0 <= c < before[a].unwrap().len()
                        ==> (#[trigger] before[a].unwrap()[c]).wf(),
                j <= m,
                cols@.len() == j,
                forall|c: int| 0 <= c < j ==> (#[trigger] cols@[c])@.len() == idx@.len() && all_wf(cols@[c]@) && vals(cols@[c]@) == present_column(before, c),
            decreases m - j,
        {
            let mut col: Vec<Scalar> = Vec::new();
            let mut t: usize = 0;
            while t < idx.len()
                invariant
                    n == matrix_opts@.len(),
                    before == opt_rows(matrix_opts@),
                    forall|a: int| 0 <= a < n && (#[trigger] before[a]) is Some ==> before[a].unwrap().len() == m,
                    idx@.map_values(|u: usize| u as int) == pres,
                    pres == present_indices(before),
                    forall|t: int| 0 <= t < idx@.len() ==> (#[trigger] idx@[t]) < n,
                    forall|a: int, c: int|
                        0 <= a < before.len() && before[a] is Some && 0 <= c < before[a].unwrap().len()
                            ==> (#[trigger] before[a].unwrap()[c]).wf(),
                    j < m,
                    t <= idx@.len(),
                    col@.len() == t,
                    all_wf(col@),
                    forall|a: int| 0 <= a < t ==> (#[trigger] col@[a]).val() == before[pres[a]].unwrap()[j as int].val(),
                decreases idx.len() - t,
            {
                let r = idx[t];
                assert(pres[t as int] == r as int);
                proof {
                    lemma_present_indices(before, t as int);
                }
                let v = match &matrix_opts[r] {
                    Some(row) => {
                        assert(before[r as int] == Some(row@));
                        row[j]
                    },
                    None => {
                        assert(false);
                        Scalar::zero()
                    },
                };
                col.push(v);
                t += 1;
            }
            assert(vals(col@) =~= present_column(before, j as int));
            cols.push(col);
            j += 1;
        }
        // refuse nodes that admit no interpolation before writing anything
        let probe = Scalar::zero();
        let zeros_col: Vec<Scalar> = vec_of_zeros(idx.len());
        if lagrange_eval(&nodes, &zeros_col, probe).is_none() {
            assert(false);
            return Err(DataError::InvalidParams);
        }
        let ghost xs = present_nodes(n as nat, before);
        // fill every missing row
        let mut i: usize = 0;
        while i < n
            invariant
                n == matrix_opts@.len(),
                n == before.len(),
                n <= 0x1_0000_0000,
                forall|a: int| 0 <= a < n && (#[trigger] before[a]) is Some ==> before[a].unwrap().len() == m,
                all_wf(nodes@),
                vals(nodes@) == xs,
                nodes_ok(xs),
                cols@.len() == m,
                forall|c: int| 0 <= c < m ==> (#[trigger] cols@[c])@.len() == nodes@.len() && all_wf(cols@[c]@) && vals(cols@[c]@) == present_column(before, c),
                i <= n,
                forall|a: int| i <= a < n ==> (#[trigger] opt_rows(matrix_opts@)[a]) == before[a],
                forall|a: int| 0 <= a < i && (#[trigger] before[a]) is Some ==> opt_rows(matrix_opts@)[a] == before[a],
                forall|a: int| 0 <= a < i && (#[trigger] before[a]) is None ==> opt_rows(matrix_opts@)[a] is Some
                    && opt_rows(matrix_opts@)[a].unwrap().len() == m,
                forall|a: int, c: int| 0 <= a < i && before[a] is None && 0 <= c < m ==> (
                    #[trigger] opt_rows(matrix_opts@)[a].unwrap()[c]).val() == lagrange_at(xs, present_column(before, c), domain_point(n as nat, a as nat)),
            decreases n - i,
        {
            let ghost cur = opt_rows(matrix_opts@);
            assert(cur[i as int] == before[i as int]);
            if matrix_opts[i].is_none() {
                let x = match fr_domain_point(n, i) {
                    Some(x) => x,
                    None => return Err(DataError::InvalidParams),
                };
                let mut row: Vec<Scalar> = Vec::new();
                let mut c: usize = 0;
                while c < m
                    invariant
                        c <= m,
                        x.wf(),
                        x.val() == domain_point(n as nat, i as nat),
                        all_wf(nodes@),
                        vals(nodes@) == xs,
                        nodes_ok(xs),
                        cols@.len() == m,
                        forall|cc: int| 0 <= cc < m ==> (#[trigger] cols@[cc])@.len() == nodes@.len() && all_wf(cols@[cc]@) && vals(cols@[cc]@) == present_column(before, cc),
                        row@.len() == c,
                        all_wf(row@),
                        forall|cc: int| 0 <= cc < c ==> (#[trigger] row@[cc]).val() == lagrange_at(xs, present_column(before, cc), domain_point(n as nat, i as nat)),
                    decreases m - c,
                {
                    let v = match lagrange_eval(&nodes, &cols[c], x) {
                        Some(v) => v,
                        None => return Err(DataError::InvalidParams),
                    };
                    row.push(v);
                    c += 1;
                }
                matrix_opts.set(i, Some(row));
                proof {
                    let now = opt_rows(matrix_opts@);
                    assert forall|a: int| 0 <= a < n && a != i implies #[trigger] now[a] == cur[a] by {}
                    assert(now[i as int] == Some(row@));
                }
            }
            i += 1;
        }
        proof {
            let after = opt_rows(matrix_opts@);
            assert forall|a: int| 0 <= a < after.len() implies (#[trigger] after[a]) is Some
                && after[a].unwrap().len() == m by {
                if before[a] is Some {
                    assert(after[a] == before[a]);
                } else {
                    assert(after[a] is Some);
                }
            }
            assert(crate::traits::all_present(after, m as nat));
            assert(crate::traits::present_len(before, m as nat));
        }
        Ok(())
    }

}

/// The evaluation-form code computed over the field and truncated to bytes:
/// each parity byte is the low byte of the field parity value.
pub struct BLSEncoder;

impl BLSEncoder {
    pub fn new() -> Self {
        BLSEncoder
    }
}

impl Encoder<u8, Data<u8>> for BLSEncoder {
    open spec fn supports(p: Params) -> bool {
        p.valid() && field_supports(p)
    }

    open spec fn parity_of(k: nat, p: nat, data: Seq<u8>) -> Seq<u8> {
        byte_parity_of(k, p, data)
    }

    /// Truncated parity does not determine missing rows: only a column with
    /// no holes is accepted, and it is left as it is.
    open spec fn restores(k: nat, p: nat, before: Seq<Option<Seq<u8>>>, after: Seq<Option<Seq<u8>>>) -> bool {
        after == before
    }

    open spec fn accepts(params: Params, rows: Seq<Option<Seq<u8>>>) -> bool {
        params.valid() && forall|i: int| 0 <= i < rows.len() ==> (#[trigger] rows[i]) is Some
    }

    fn encode(data: &mut Data<u8>) -> (res: Result<(), DataError>) {
        let m = data.params.m;
        if data.params.k >= data.params.n || m == 0 {
            return Err(DataError::InvalidParams);
        }
        let ghost before = data.cells();
        let mut c: usize = 0;
        while c < m
            invariant
                m == data.params.m,
                data.params == old(data).params,
                data.params.valid(),
                before == old(data).cells(),
                shaped(data.params, before),
                c <= m,
                shaped(data.params, data.cells()),
                data.cells_valid(),
                c > 0 ==> field_supports(data.params),
                c == 0 ==> data.cells() == before,
                forall|i: int, j: int|
                    0 <= i < data.params.k && 0 <= j < m ==> (#[trigger] data.cells()[i][j])
                        == before[i][j],
                forall|i: int, j: int|
                    data.params.k <= i < data.params.n && 0 <= j < c ==> (
                    #[trigger] data.cells()[i][j]) == byte_parity_of(
                        data.params.k as nat,
                        data.params.parity(),
                        data_column(before, data.params.k as nat, j),
                    )[i - data.params.k],
                forall|i: int, j: int|
                    data.params.k <= i < data.params.n && c <= j < m ==> (
                    #[trigger] data.cells()[i][j]) == before[i][j],
            decreases m - c,
        {
            let ghost k = data.params.k as nat;
            assert forall|i: int| 0 <= i < k implies #[trigger] data.cells()[i][c as int]
                == before[i][c as int] by {
            }
            assert(data_column(data.cells(), k, c as int) =~= data_column(before, k, c as int));
            Self::encode_col(data, c)?;
            c += 1;
        }
        Ok(())
    }

    fn encode_col(data: &mut Data<u8>, c: usize) -> (res: Result<(), DataError>) {
        data.params.check_cols(c)?;
        let n = data.params.n;
        let k = data.params.k;
        if k >= n {
            return Err(DataError::InvalidParams);
        }
        let ghost before = data.cells();
        let bytes = data_cells(&data.params, &data.matrix, c);
        let mut ys: Vec<Scalar> = Vec::new();
        let mut i: usize = 0;
        while i < k
            invariant
                i <= k,
                bytes@.len() == k,
                ys@.len() == i,
                all_wf(ys@),
                forall|t: int| 0 <= t < i ==> (#[trigger] ys@[t]).val() == bytes@[t] as int,
            decreases k - i,
        {
            ys.push(Scalar::from_u8(bytes[i]));
            i += 1;
        }
        assert(vals(ys@) =~= bytes@.map_values(|b: u8| b as int));
        let par = match field_parity(n, k, &ys) {
            Some(par) => par,
            None => return Err(DataError::InvalidParams),
        };
        assert(field_supports(data.params) == field_supports(Params { k, n, m: 1 }));
        let mut out: Vec<u8> = Vec::new();
        let mut t: usize = 0;
        while t < par.len()
            invariant
                t <= par@.len(),
                out@.len() == t,
                forall|a: int| 0 <= a < t ==> (#[trigger] out@[a]) as int == par@[a].val() % 256,
            decreases par.len() - t,
        {
            out.push(par[t].low_byte());
            t += 1;
        }
        let ghost want = byte_parity_of(k as nat, (n - k) as nat, bytes@);
        assert(out@ =~= want);
        write_parity_column(&data.params, &mut data.matrix, c, &out);
        Ok(())
    }

    fn reconstruct(params: Params, matrix_opts: &mut Vec<Option<Vec<u8>>>) -> (res: Result<(), DataError>) {
        if params.k >= params.n || params.m == 0 {
            return Err(DataError::InvalidParams);
        }
        let mut i: usize = 0;
        while i < matrix_opts.len()
            invariant
                i <= matrix_opts@.len(),
                forall|a: int| 0 <= a < i ==> (#[trigger] matrix_opts@[a]) is Some,
            decreases matrix_opts.len() - i,
        {
            if matrix_opts[i].is_none() {
                assert(opt_rows(matrix_opts@)[i as int] is None);
                return Err(DataError::Unrecoverable);
            }
            i += 1;
        }
        assert forall|a: int| 0 <= a < matrix_opts@.len() implies (#[trigger] opt_rows(matrix_opts@)[a]) is Some by {
            assert(matrix_opts@[a] is Some);
        }
        Ok(())
    }
}

} // verus!
