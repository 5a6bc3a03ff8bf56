use vstd::arithmetic::div_mod::{lemma_fundamental_div_mod, lemma_fundamental_div_mod_converse};
use vstd::prelude::*;

verus! {

/// A run of whole rows of the image: `rows` rows starting at row `top`.
#[derive(Clone, Copy, Debug, PartialEq, Eq, Structural)]
pub struct Band {
    pub top: usize,
    pub rows: usize,
}

/// Rows given to each band but possibly the last: one more than an even
/// share, so that the bands never leave rows uncovered.
pub open spec fn rows_per_band(height: nat, workers: nat) -> nat {
    height / workers + 1
}

/// Number of bands needed to cover `height` rows.
pub open spec fn band_count(height: nat, workers: nat) -> nat {
    let per = rows_per_band(height, workers);
    ((height + per - 1) as nat) / per
}

/// First row of band `i`.
pub open spec fn band_top(height: nat, workers: nat, i: nat) -> nat {
    i * rows_per_band(height, workers)
}

/// Row count of band `i`: a full share, or what is left for the last band.
pub open spec fn band_rows(height: nat, workers: nat, i: nat) -> nat {
    let per = rows_per_band(height, workers);
    let left = height - band_top(height, workers, i);
    if left < per {
        left as nat
    } else {
        per
    }
}

/// Row `row` lies in band `i`.
pub open spec fn band_holds(height: nat, workers: nat, i: nat, row: nat) -> bool {
    band_top(height, workers, i) <= row < band_top(height, workers, i) + band_rows(
        height,
        workers,
        i,
    )
}

/// Some band of the plan holds row `row`.
pub open spec fn row_covered(height: nat, workers: nat, row: nat) -> bool {
    exists|i: nat| i < band_count(height, workers) && #[trigger] band_holds(height, workers, i, row)
}

/// `bands` is the plan for an image `height` rows tall split among `workers`.
pub open spec fn is_band_plan(height: nat, workers: nat, bands: Seq<Band>) -> bool {
    &&& bands.len() == band_count(height, workers)
    &&& forall|i: int|
        0 <= i < bands.len() ==> bands[i].top == band_top(height, workers, i as nat)
            && bands[i].rows == band_rows(height, workers, i as nat)
}

proof fn lemma_count_from_last(height: nat, per: nat, n: nat)
    requires
        per > 0,
        n > 0,
        (n - 1) * per < height <= n * per,
    ensures
        ((height + per - 1) as nat) / per == n,
{
    assert(((height + per - 1) as nat) / per == n) by (nonlinear_arith)
        requires
            per > 0,
            n > 0,
            (n - 1) * per < height <= n * per,
    ;
}

/// A band index lies within the plan exactly when the band starts above the
/// bottom row.
proof fn lemma_index_in_plan(height: nat, workers: nat, i: nat)
    requires
        workers > 0,
    ensures
        i < band_count(height, workers) <==> band_top(height, workers, i) < height,
{
    let p = rows_per_band(height, workers);
    let x = (height + p - 1) as int;
    lemma_fundamental_div_mod(x, p as int);
    let q = x / (p as int);
    let r = x % (p as int);
    assert(band_count(height, workers) == q);
    assert(i < q <==> i * p < height) by (nonlinear_arith)
        requires
            p > 0,
            x == height + p - 1,
            x == p * q + r,
            0 <= r < p,
    ;
}

/// The band that holds a row is the row divided by the share.
proof fn lemma_band_of_row(row: nat, per: nat, i: nat)
    requires
        per > 0,
        i * per <= row < i * per + per,
    ensures
        i == row / per,
{
    lemma_fundamental_div_mod_converse(row as int, per as int, i as int, row - i * per);
}

/// The bands of a plan cover every row of the image exactly once: each band
/// holds at least one row and ends at or above the bottom, every row lies in
/// some band, no row lies in two, and each band starts where the one before
/// it ends.
pub proof fn lemma_bands_tile(height: nat, workers: nat)
    requires
        workers > 0,
    ensures
        forall|i: nat|
            i < band_count(height, workers) ==> band_rows(height, workers, i) > 0
                && band_top(height, workers, i) + band_rows(height, workers, i) <= height,
        band_count(height, workers) > 0 ==> band_top(height, workers, 0) == 0,
        forall|i: nat|
            i + 1 < band_count(height, workers) ==> band_top(height, workers, i + 1)
                == band_top(height, workers, i) + band_rows(height, workers, i),
        forall|row: nat| row < height ==> #[trigger] row_covered(height, workers, row),
        forall|row: nat, i: nat, j: nat|
            i < band_count(height, workers) && j < band_count(height, workers)
                && #[trigger] band_holds(height, workers, i, row) && #[trigger] band_holds(
                height,
                workers,
                j,
                row,
            ) ==> i == j,
{
    let p = rows_per_band(height, workers);
    assert forall|i: nat| i < band_count(height, workers) implies band_rows(height, workers, i)
        > 0 && band_top(height, workers, i) + band_rows(height, workers, i) <= height by {
        lemma_index_in_plan(height, workers, i);
    }
    assert(0 * p == 0) by (nonlinear_arith);
    assert forall|i: nat| i + 1 < band_count(height, workers) implies band_top(
        height,
        workers,
        i + 1,
    ) == band_top(height, workers, i) + band_rows(height, workers, i) by {
        lemma_index_in_plan(height, workers, i + 1);
        assert((i + 1) * p == i * p + p) by (nonlinear_arith);
    }
    assert forall|row: nat| row < height implies #[trigger] row_covered(height, workers, row) by {
        let i = row / p;
        lemma_fundamental_div_mod(row as int, p as int);
        assert(i * p <= row < i * p + p) by (nonlinear_arith)
            requires
                p > 0,
                row == p * (row / p) + row % p,
                0 <= row % p < p,
                i == row / p,
        ;
        lemma_index_in_plan(height, workers, i);
        assert(band_holds(height, workers, i, row));
    }
    assert forall|row: nat, i: nat, j: nat|
        i < band_count(height, workers) && j < band_count(height, workers) && #[trigger] band_holds(
            height,
            workers,
            i,
            row,
        ) && #[trigger] band_holds(height, workers, j, row) implies i == j by {
        lemma_band_of_row(row, p, i);
        lemma_band_of_row(row, p, j);
    }
}

/// A plan never has more bands than workers.
proof fn lemma_count_within_workers(height: nat, workers: nat)
    requires
        workers > 0,
    ensures
        band_count(height, workers) <= workers,
{
    let p = rows_per_band(height, workers) as int;
    let x = (height + p - 1) as int;
    lemma_fundamental_div_mod(height as int, workers as int);
    lemma_fundamental_div_mod(x, p as int);
    assert(band_count(height, workers) <= workers) by (nonlinear_arith)
        requires
            workers > 0,
            p == height / workers + 1,
            height == workers * (height / workers) + height % workers,
            0 <= height % workers < workers,
            x == height + p - 1,
            x == p * (x / p) + x % p,
            0 <= x % p < p,
            band_count(height, workers) == x / p,
    ;
}

/// Splits the rows of an image `height` rows tall into consecutive bands,
/// one per worker at most, each but the last holding `height / workers + 1`
/// rows.
pub fn plan_bands(height: usize, workers: usize) -> (r: Vec<Band>)
    requires
        workers > 0,
    ensures
        is_band_plan(height as nat, workers as nat, r@),
        r@.len() <= workers,
{
    let per: usize = height / workers;
    let ghost p = rows_per_band(height as nat, workers as nat);
    let mut bands: Vec<Band> = Vec::new();
    let mut top: usize = 0;
    proof {
        assert(0 * p == 0) by (nonlinear_arith);
    }
    while top < height
        invariant
            workers > 0,
            per == height / workers,
            p == per + 1,
            top <= height,
            top < height ==> top == bands.len() * p,
            bands.len() == 0 ==> top == 0,
            bands.len() > 0 ==> (bands.len() - 1) * p < top,
            top == height && bands.len() > 0 ==> top <= bands.len() * p,
            forall|i: int|
                0 <= i < bands.len() ==> bands[i].top == band_top(height as nat, workers as nat, i as nat)
                    && bands[i].rows == band_rows(height as nat, workers as nat, i as nat),
        decreases height - top,
    {
        let left: usize = height - top;
        let rows: usize = if left > per {
            per + 1
        } else {
            left
        };
        let ghost n = bands.len();
        proof {
            assert(band_top(height as nat, workers as nat, n as nat) == top);
        }
        bands.push(Band { top, rows });
        proof {
            assert((n + 1) * p == n * p + p) by (nonlinear_arith);
        }
        top = top + rows;
    }
    proof {
        let n = bands.len() as nat;
        if height == 0 {
            assert(band_count(height as nat, workers as nat) == 0) by (nonlinear_arith)
                requires
                    p > 0,
                    band_count(height as nat, workers as nat) == ((height + p - 1) as nat) / p,
                    height == 0,
            ;
        } else {
            assert(n > 0);
            lemma_count_from_last(height as nat, p, n);
        }
        lemma_count_within_workers(height as nat, workers as nat);
    }
    bands
}

} // verus!
