use vstd::prelude::*;
use crate::params::{DataError, Params};

verus! {

/// The rows of a grid, as sequences.
pub open spec fn rows_of<T>(g: Seq<Vec<T>>) -> Seq<Seq<T>> {
    g.map_values(|row: Vec<T>| row@)
}

/// `g` has `n` rows of `m` cells each.
pub open spec fn shaped<T>(p: Params, g: Seq<Seq<T>>) -> bool {
    &&& g.len() == p.n
    &&& forall|i: int| 0 <= i < g.len() ==> (#[trigger] g[i]).len() == p.m
}

/// Column `c` of `g`, top to bottom.
pub open spec fn column_of<T>(g: Seq<Seq<T>>, c: int) -> Seq<T> {
    Seq::new(g.len(), |i: int| g[i][c])
}

/// `g` with its cell `(r, c)` set to `v`.
pub open spec fn with_cell<T>(g: Seq<Seq<T>>, r: int, c: int, v: T) -> Seq<Seq<T>> {
    g.update(r, g[r].update(c, v))
}

/// `g` with the first `vals.len()` cells of column `c` replaced by `vals`.
pub open spec fn with_column_prefix<T>(g: Seq<Seq<T>>, c: int, vals: Seq<T>) -> Seq<Seq<T>> {
    Seq::new(g.len(), |i: int| if i < vals.len() { g[i].update(c, vals[i]) } else { g[i] })
}

pub fn grid_get<T: Copy>(p: &Params, g: &Vec<Vec<T>>, r: usize, c: usize) -> (res: Result<T, DataError>)
    requires
        shaped(*p, rows_of(g@)),
    ensures
        res is Ok <==> p.in_bounds(r as int, c as int),
        res is Ok ==> res.unwrap() == g@[r as int]@[c as int],
        r >= p.n ==> res == Err::<T, DataError>(DataError::RowOutOfBounds { row: r, n: p.n }),
        r < p.n && c >= p.m ==> res == Err::<T, DataError>(DataError::ColOutOfBounds { col: c, m: p.m }),
{
    p.check_bounds(r, c)?;
    assert(rows_of(g@)[r as int].len() == p.m);
    Ok(g[r][c])
}

pub fn grid_set<T>(p: &Params, g: &mut Vec<Vec<T>>, r: usize, c: usize, v: T) -> (res: Result<(), DataError>)
    requires
        shaped(*p, rows_of(old(g)@)),
    ensures
        res is Ok <==> p.in_bounds(r as int, c as int),
        res is Ok ==> rows_of(final(g)@) == with_cell(rows_of(old(g)@), r as int, c as int, v),
        res is Err ==> final(g)@ == old(g)@,
        r >= p.n ==> res == Err::<(), DataError>(DataError::RowOutOfBounds { row: r, n: p.n }),
        r < p.n && c >= p.m ==> res == Err::<(), DataError>(DataError::ColOutOfBounds { col: c, m: p.m }),
        shaped(*p, rows_of(final(g)@)),
{
    p.check_bounds(r, c)?;
    assert(rows_of(g@)[r as int].len() == p.m);
    let ghost before = rows_of(g@);
    g[r].set(c, v);
    assert(rows_of(g@) =~= with_cell(before, r as int, c as int, v));
    Ok(())
}

pub fn grid_row<T: Copy>(p: &Params, g: &Vec<Vec<T>>, r: usize) -> (res: Result<Vec<T>, DataError>)
    requires
        shaped(*p, rows_of(g@)),
    ensures
        res is Ok <==> r < p.n,
        res is Ok ==> res.unwrap()@ == g@[r as int]@,
        r >= p.n ==> res == Err::<Vec<T>, DataError>(DataError::RowOutOfBounds { row: r, n: p.n }),
{
    p.check_rows(r)?;
    let row = &g[r];
    let mut out: Vec<T> = Vec::new();
    let mut j: usize = 0;
    while j < row.len()
        invariant
            j <= row.len(),
            out@ == row@.subrange(0, j as int),
        decreases row.len() - j,
    {
        out.push(row[j]);
        j += 1;
        assert(out@ =~= row@.subrange(0, j as int));
    }
    assert(out@ =~= row@);
    Ok(out)
}

pub fn grid_col<T: Copy>(p: &Params, g: &Vec<Vec<T>>, c: usize) -> (res: Result<Vec<T>, DataError>)
    requires
        shaped(*p, rows_of(g@)),
    ensures
        res is Ok <==> c < p.m,
        res is Ok ==> res.unwrap()@ == column_of(rows_of(g@), c as int),
        c >= p.m ==> res == Err::<Vec<T>, DataError>(DataError::ColOutOfBounds { col: c, m: p.m }),
{
    p.check_cols(c)?;
    let mut out: Vec<T> = Vec::new();
    let mut i: usize = 0;
    while i < g.len()
        invariant
            i <= g.len(),
            shaped(*p, rows_of(g@)),
            c < p.m,
            out@ == column_of(rows_of(g@), c as int).subrange(0, i as int),
        decreases g.len() - i,
    {
        assert(rows_of(g@)[i as int].len() == p.m);
        out.push(g[i][c]);
        i += 1;
        assert(out@ =~= column_of(rows_of(g@), c as int).subrange(0, i as int));
    }
    assert(out@ =~= column_of(rows_of(g@), c as int));
    Ok(out)
}

/// Writes `vals` over the first `k` cells of column `c`.
pub fn grid_update_col<T: Copy>(p: &Params, g: &mut Vec<Vec<T>>, c: usize, vals: &[T]) -> (res:
    Result<(), DataError>)
    requires
        p.valid(),
        shaped(*p, rows_of(old(g)@)),
    ensures
        res is Ok <==> c < p.m && vals@.len() == p.k,
        c >= p.m ==> res == Err::<(), DataError>(DataError::ColOutOfBounds { col: c, m: p.m }),
        c < p.m && vals@.len() != p.k ==> res == Err::<(), DataError>(
            DataError::LengthMismatch { expected: p.k, found: vals@.len() as usize },
        ),
        res is Ok ==> rows_of(final(g)@) == with_column_prefix(rows_of(old(g)@), c as int, vals@),
        res is Err ==> final(g)@ == old(g)@,
        shaped(*p, rows_of(final(g)@)),
{
    p.check_cols(c)?;
    if vals.len() != p.k {
        return Err(DataError::LengthMismatch { expected: p.k, found: vals.len() });
    }
    let ghost before = rows_of(g@);
    let mut i: usize = 0;
    while i < p.k
        invariant
            i <= p.k,
            p.valid(),
            c < p.m,
            vals@.len() == p.k,
            shaped(*p, before),
            shaped(*p, rows_of(g@)),
            rows_of(g@) == with_column_prefix(before, c as int, vals@.subrange(0, i as int)),
        decreases p.k - i,
    {
        let ghost mid = rows_of(g@);
        let ghost prev = with_column_prefix(before, c as int, vals@.subrange(0, i as int));
        assert(mid[i as int].len() == p.m);
        g[i].set(c, vals[i]);
        i += 1;
        let ghost want = with_column_prefix(before, c as int, vals@.subrange(0, i as int));
        assert forall|j: int| 0 <= j < g@.len() implies rows_of(g@)[j] == want[j] by {
            assert(mid[j] == prev[j]);
            if j == i - 1 {
                assert(rows_of(g@)[j] =~= mid[j].update(c as int, vals@[j]));
            } else {
                assert(rows_of(g@)[j] == mid[j]);
            }
            assert(rows_of(g@)[j] =~= want[j]);
        }
        assert(rows_of(g@) =~= want);
    }
    assert(vals@.subrange(0, p.k as int) =~= vals@);
    Ok(())
}

} // verus!
