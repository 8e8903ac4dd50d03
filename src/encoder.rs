use vstd::prelude::*;
use reed_solomon_erasure::galois_8;
use crate::byte_data::Data;
use crate::grid::{rows_of, shaped};
use crate::params::{DataError, Params};
use crate::traits::{
    all_present, data_column, keeps_present, opt_rows, present_count, present_len,
    with_parity_column, DataMatrix, Encoder,
};

verus! {

#[verifier::external_type_specification]
#[verifier::external_body]
pub struct ExRsError(reed_solomon_erasure::Error);

/// The parity bytes that systematic Reed-Solomon over GF(2^8) with `k` data
/// and `p` parity shards gives one byte position whose data bytes are `data`.
pub uninterp spec fn rs_parity(k: nat, p: nat, data: Seq<u8>) -> Seq<u8>;

/// `rows` is a codeword: `k + p` rows of one length whose parity bytes are
/// those of the data bytes, position by position.
pub open spec fn is_rs_codeword(k: nat, p: nat, rows: Seq<Seq<u8>>) -> bool {
    &&& rows.len() == k + p
    &&& k > 0
    &&& forall|i: int| 0 <= i < rows.len() ==> (#[trigger] rows[i]).len() == rows[0].len()
    &&& forall|i: int, j: int|
        k <= i < k + p && 0 <= j < rows[0].len() ==> (#[trigger] rows[i][j]) == rs_parity(
            k,
            p,
            data_column(rows, k, j),
        )[i - k]
}

/// The present rows of `before` are those of `c`.
pub open spec fn agrees_with(before: Seq<Option<Seq<u8>>>, c: Seq<Seq<u8>>) -> bool {
    &&& before.len() == c.len()
    &&& forall|i: int| 0 <= i < before.len() && (#[trigger] before[i]) is Some ==> before[i].unwrap() == c[i]
}

/// The rows that Reed-Solomon restoration accepts: `k + p` of them, the
/// present ones non-empty and of one length, at least `k` present.
pub open spec fn rs_accepts(k: nat, p: nat, rows: Seq<Option<Seq<u8>>>) -> bool {
    &&& rows.len() == k + p
    &&& exists|len: nat| len > 0 && present_len(rows, len)
    &&& present_count(rows) >= k
}

/// `after` has every row, of one length, and is the codeword that `before`
/// was cut from, whenever it was cut from one.
pub open spec fn rs_restored(k: nat, p: nat, before: Seq<Option<Seq<u8>>>, after: Seq<Option<Seq<u8>>>) -> bool {
    &&& after.len() == before.len()
    &&& exists|len: nat| all_present(after, len)
    &&& forall|c: Seq<Seq<u8>>|
        is_rs_codeword(k, p, c) && agrees_with(before, c) ==> after == c.map_values(
            |r: Seq<u8>| Some(r),
        )
}

/// What a call of the Reed-Solomon codec returns.
type RsOutcome<T> = Result<T, reed_solomon_erasure::Error>;

/// Relies on `ReedSolomon::new` and `ReedSolomon::encode`: the codec is
/// refused for zero data or parity shards and more than 256 shards in all;
/// encoding needs `k + p` shards of one non-zero length, leaves the data
/// shards and overwrites the parity shards, byte position by byte position.
/// On an error nothing is written.
#[verifier::external_body]
fn rs_encode(k: usize, p: usize, shards: &mut Vec<Vec<u8>>) -> (r: RsOutcome<()>)
    requires
        k + p <= usize::MAX,
    ensures
        r is Ok <==> (k > 0 && p > 0 && k + p <= 256 && old(shards)@.len() == k + p
            && old(shards)@[0]@.len() > 0 && forall|i: int|
            0 <= i < old(shards)@.len() ==> (#[trigger] old(shards)@[i])@.len()
                == old(shards)@[0]@.len()),
        r is Err ==> final(shards)@ == old(shards)@,
        r is Ok ==> final(shards)@.len() == old(shards)@.len(),
        r is Ok ==> forall|i: int|
            0 <= i < k ==> (#[trigger] final(shards)@[i])@ == old(shards)@[i]@,
        r is Ok ==> forall|i: int|
            0 <= i < old(shards)@.len() ==> (#[trigger] final(shards)@[i])@.len()
                == old(shards)@[0]@.len(),
        r is Ok ==> forall|i: int, j: int|
            k <= i < old(shards)@.len() && 0 <= j < old(shards)@[0]@.len() ==> (
            #[trigger] final(shards)@[i]@[j]) == rs_parity(
                k as nat,
                p as nat,
                data_column(rows_of(old(shards)@), k as nat, j),
            )[i - k],
{
    galois_8::ReedSolomon::new(k, p)?.encode(shards.as_mut_slice())
}

/// Relies on `ReedSolomon::new` and `ReedSolomon::reconstruct`: the codec
/// is refused for zero data or parity shards and more than 256 shards in
/// all; restoration needs `k + p` rows, the present ones non-empty and of
/// one length, at least `k` present, and then fills every missing row so
/// that the rows form the codeword the present ones belong to. On an error
/// nothing is written.
#[verifier::external_body]
fn rs_reconstruct(k: usize, p: usize, shards: &mut Vec<Option<Vec<u8>>>) -> (r: RsOutcome<()>)
    requires
        k + p <= usize::MAX,
    ensures
        r is Ok <==> (k > 0 && p > 0 && k + p <= 256 && rs_accepts(k as nat, p as nat, opt_rows(old(shards)@))),
        r is Err ==> final(shards)@ == old(shards)@,
        r is Ok ==> keeps_present(opt_rows(old(shards)@), opt_rows(final(shards)@)),
        r is Ok ==> rs_restored(
            k as nat,
            p as nat,
            opt_rows(old(shards)@),
            opt_rows(final(shards)@),
        ),
{
    galois_8::ReedSolomon::new(k, p)?.reconstruct(shards.as_mut_slice())
}

/// Writes `par` over the parity cells of column `c`.
pub(crate) fn write_parity_column<T: Copy>(p: &Params, g: &mut Vec<Vec<T>>, c: usize, par: &Vec<T>)
    requires
        p.valid(),
        c < p.m,
        shaped(*p, rows_of(old(g)@)),
        par@.len() == p.n - p.k,
    ensures
        shaped(*p, rows_of(final(g)@)),
        rows_of(final(g)@) == with_parity_column(rows_of(old(g)@), p.k as nat, c as int, par@),
{
    let n = p.n;
    let k = p.k;
    let ghost before = rows_of(g@);
    let mut i: usize = k;
    while i < n
        invariant
            n == p.n,
            k == p.k,
            k <= i <= n,
            c < p.m,
            par@.len() == n - k,
            before == rows_of(old(g)@),
            shaped(*p, before),
            shaped(*p, rows_of(g@)),
            rows_of(g@) == Seq::new(
                n as nat,
                |r: int| if k <= r < i { before[r].update(c as int, par@[r - k]) } else { before[r] },
            ),
        decreases n - i,
    {
        let b = par[i - k];
        let ghost mid = rows_of(g@);
        let ghost prev = g@;
        let ghost was = Seq::new(
            n as nat,
            |r: int| if k <= r < i { before[r].update(c as int, par@[r - k]) } else { before[r] },
        );
        assert(mid == was);
        assert(mid[i as int].len() == p.m);
        g[i].set(c, b);
        i += 1;
        let ghost want = Seq::new(
            n as nat,
            |r: int| if k <= r < i { before[r].update(c as int, par@[r - k]) } else { before[r] },
        );
        assert forall|r: int| 0 <= r < n implies rows_of(g@)[r] == want[r] by {
            if r == i - 1 {
                assert(mid[r] == before[r]);
                assert(rows_of(g@)[r] =~= want[r]);
            } else {
                assert(g@[r] == prev[r]);
                assert(mid[r] == was[r]);
                assert(was[r] == want[r]);
            }
        }
        assert(rows_of(g@) =~= want);
    }
    assert(rows_of(g@) =~= with_parity_column(before, k as nat, c as int, par@));
}

/// Systematic Reed-Solomon over GF(2^8), one codeword per column.
pub struct G8Encoder;

impl G8Encoder {
    pub fn new() -> Self {
        G8Encoder
    }
}

impl Encoder<u8, Data<u8>> for G8Encoder {
    open spec fn supports(p: Params) -> bool {
        p.valid() && 0 < p.k && p.n <= 256
    }

    open spec fn parity_of(k: nat, p: nat, data: Seq<u8>) -> Seq<u8> {
        rs_parity(k, p, data)
    }

    open spec fn restores(k: nat, p: nat, before: Seq<Option<Seq<u8>>>, after: Seq<Option<Seq<u8>>>) -> bool {
        rs_restored(k, p, before, after)
    }

    open spec fn accepts(params: Params, rows: Seq<Option<Seq<u8>>>) -> bool {
        Self::supports(params) && rs_accepts(params.k as nat, params.parity(), rows)
    }

    fn encode(data: &mut Data<u8>) -> (res: Result<(), DataError>) {
        let n = data.params.n;
        let k = data.params.k;
        if k == 0 || k >= n || n > 256 || data.params.m == 0 {
            return Err(DataError::InvalidParams);
        }
        let ghost before = rows_of(data.matrix@);
        assert(before[0].len() == data.params.m);
        assert forall|i: int| 0 <= i < data.matrix@.len() implies (#[trigger] data.matrix@[i])@.len()
            == data.matrix@[0]@.len() by {
            assert(before[i].len() == data.params.m);
        }
        let r = rs_encode(k, n - k, &mut data.matrix);
        if r.is_err() {
            return Err(DataError::InvalidParams);
        }
        let ghost after = rows_of(data.matrix@);
        assert(before == rows_of(old(data).matrix@));
        assert forall|i: int| 0 <= i < after.len() implies (#[trigger] after[i]).len() == data.params.m by {
            assert(before[i].len() == data.params.m);
        }
        assert forall|i: int, j: int|
            0 <= i < k && 0 <= j < data.params.m implies (#[trigger] after[i][j]) == before[i][j] by {
        }
        Ok(())
    }

    fn encode_col(data: &mut Data<u8>, c: usize) -> (res: Result<(), DataError>) {
        data.params.check_cols(c)?;
        let n = data.params.n;
        let k = data.params.k;
        if k == 0 || k >= n || n > 256 {
            return Err(DataError::InvalidParams);
        }
        let ghost before = rows_of(data.matrix@);
        // one shard per row, each holding the row's byte of column `c`
        let mut temp: Vec<Vec<u8>> = Vec::new();
        let mut i: usize = 0;
        while i < n
            invariant
                n == data.params.n,
                k == data.params.k,
                k < n,
                c < data.params.m,
                before == rows_of(data.matrix@),
                shaped(data.params, before),
                i <= n,
                temp@.len() == i,
                forall|a: int| 0 <= a < i ==> (#[trigger] temp@[a])@.len() == 1,
                forall|a: int| 0 <= a < i && a < k ==> (#[trigger] temp@[a])@[0] == before[a][c as int],
            decreases n - i,
        {
            assert(before[i as int].len() == data.params.m);
            if i < k {
                temp.push(vec![data.matrix[i][c]]);
            } else {
                temp.push(vec![0u8]);
            }
            i += 1;
        }
        let ghost temp0 = rows_of(temp@);
        assert(data_column(temp0, k as nat, 0) =~= data_column(before, k as nat, c as int));
        let r = rs_encode(k, n - k, &mut temp);
        if r.is_err() {
            return Err(DataError::InvalidParams);
        }
        let ghost par = rs_parity(k as nat, (n - k) as nat, data_column(before, k as nat, c as int));
        let mut bytes: Vec<u8> = Vec::new();
        let mut i: usize = k;
        while i < n
            invariant
                k <= i <= n,
                temp@.len() == n,
                bytes@.len() == i - k,
                forall|a: int| k <= a < n ==> (#[trigger] temp@[a])@.len() == 1 && temp@[a]@[0] == par[a - k],
                forall|t: int| 0 <= t < i - k ==> bytes@[t] == par[t],
            decreases n - i,
        {
            bytes.push(temp[i][0]);
            i += 1;
        }
        write_parity_column(&data.params, &mut data.matrix, c, &bytes);
        let ghost x = with_parity_column(before, k as nat, c as int, bytes@);
        let ghost y = with_parity_column(before, k as nat, c as int, par);
        assert forall|r: int| 0 <= r < n implies x[r] == y[r] by {
            if r >= k {
                assert(bytes@[r - k] == par[r - k]);
            }
        }
        assert(x =~= y);
        Ok(())
    }

    fn reconstruct(params: Params, matrix_opts: &mut Vec<Option<Vec<u8>>>) -> (res: Result<(), DataError>) {
        if params.k == 0 || params.k >= params.n || params.n > 256 || params.m == 0 {
            return Err(DataError::InvalidParams);
        }
        match rs_reconstruct(params.k, params.n - params.k, matrix_opts) {
            Ok(()) => Ok(()),
            Err(_) => Err(DataError::Unrecoverable),
        }
    }
}

/// A matrix whose parity rows were filled by the byte code is a codeword,
/// when it has at least one column.
pub proof fn lemma_encoded_is_codeword(params: Params, before: Seq<Seq<u8>>, after: Seq<Seq<u8>>)
    requires
        params.valid(),
        G8Encoder::supports(params),
        shaped(params, before),
        shaped(params, after),
        forall|i: int, j: int|
            0 <= i < params.k && 0 <= j < params.m ==> (#[trigger] after[i][j]) == before[i][j],
        forall|i: int, j: int|
            params.k <= i < params.n && 0 <= j < params.m ==> (#[trigger] after[i][j]) == rs_parity(
                params.k as nat,
                params.parity(),
                data_column(before, params.k as nat, j),
            )[i - params.k],
    ensures
        is_rs_codeword(params.k as nat, params.parity(), after),
{
    let k = params.k as nat;
    assert forall|i: int, j: int|
        k <= i < k + params.parity() && 0 <= j < after[0].len() implies (#[trigger] after[i][j])
            == rs_parity(k, params.parity(), data_column(after, k, j))[i - k] by {
        assert(data_column(after, k, j) =~= data_column(before, k, j));
    }
}

/// Restoration is exact: when at most `n - k` rows of a codeword are
/// missing, the rows are accepted, and what restoration returns is the
/// codeword, every missing row at its value before erasure.
pub proof fn lemma_erasure_recovery(
    params: Params,
    codeword: Seq<Seq<u8>>,
    erased: Seq<Option<Seq<u8>>>,
    restored: Seq<Option<Seq<u8>>>,
)
    requires
        params.valid(),
        G8Encoder::supports(params),
        is_rs_codeword(params.k as nat, params.parity(), codeword),
        codeword[0].len() > 0,
        agrees_with(erased, codeword),
        erased.len() - present_count(erased) <= params.parity(),
        G8Encoder::restores(params.k as nat, params.parity(), erased, restored),
    ensures
        G8Encoder::accepts(params, erased),
        restored == codeword.map_values(|r: Seq<u8>| Some(r)),
{
    let len = codeword[0].len();
    assert(present_len(erased, len)) by {
        assert forall|i: int| 0 <= i < erased.len() && (#[trigger] erased[i]) is Some implies erased[i].unwrap().len() == len by {
            assert(erased[i].unwrap() == codeword[i]);
        }
    }
}

} // verus!
