//! The histogram engine: a fixed-bin-count numeric histogram over one
//! column of a materialized dataset, with the guarantee that the bin
//! counts sum exactly to the column's non-null value count.

use vstd::prelude::*;

verus! {

use crate::value::{FX_LIMIT, is_castable_type, spec_is_castable_type};
use crate::dataset::{Dataset, ColumnV, ds_wf};
use crate::stats::{col_micros, is_min_of, is_max_of};
use crate::plan::{find_col, find_col_from};

/// A computed histogram: `bin_count + 1` ordered edges, one count per
/// bin, and the observed extremes, all in fixed-point millionths.
pub struct HistogramRecord {
    pub edges: Vec<i128>,
    pub counts: Vec<usize>,
    pub observed_min: i128,
    pub observed_max: i128,
}

/// Why a histogram could not be computed.
#[derive(Debug, Clone, Copy, PartialEq, Eq, Structural)]
pub enum HistogramError {
    ColumnNotFound,
    NonNumericColumn,
    NoData,
}

impl HistogramError {
    /// The user-facing message of the failure.
    pub fn message(&self) -> (r: String)
        ensures
            match *self {
                HistogramError::ColumnNotFound => r@ == "Column not found"@,
                HistogramError::NonNumericColumn => r@ == "Column is not numeric"@,
                HistogramError::NoData => r@ == "Column has no data"@,
            },
    {
        match self {
            HistogramError::ColumnNotFound => String::from_str("Column not found"),
            HistogramError::NonNumericColumn => String::from_str("Column is not numeric"),
            HistogramError::NoData => String::from_str("Column has no data"),
        }
    }
}

/// The bin a value falls into: equal-width bins over `[mn, mx]`, with a
/// value equal to `mx` clamped into the last bin.
pub open spec fn bin_index(v: int, mn: int, mx: int, bins: int) -> int {
    if v >= mx {
        bins - 1
    } else {
        (v - mn) * bins / (mx - mn)
    }
}

/// The number of values among the first `h` that fall into bin `b`.
pub open spec fn count_in_bin(vals: Seq<i128>, mn: int, mx: int, bins: int, b: int, h: int) -> int
    decreases h,
{
    if h <= 0 {
        0
    } else {
        count_in_bin(vals, mn, mx, bins, b, h - 1) + if bin_index(vals[h - 1] as int, mn, mx, bins)
            == b {
            1int
        } else {
            0int
        }
    }
}

/// The sum of the counts of the first `nb` bins over the first `h`
/// values.
pub open spec fn bins_total(vals: Seq<i128>, mn: int, mx: int, bins: int, nb: int, h: int) -> int
    decreases nb,
{
    if nb <= 0 {
        0
    } else {
        bins_total(vals, mn, mx, bins, nb - 1, h) + count_in_bin(vals, mn, mx, bins, nb - 1, h)
    }
}

/// Adding one value raises the total across bins by one exactly when its
/// bin lies among the first `nb`.
proof fn lemma_bins_total_step(vals: Seq<i128>, mn: int, mx: int, bins: int, nb: int, h: int)
    requires
        h >= 1,
    ensures
        bins_total(vals, mn, mx, bins, nb, h) == bins_total(vals, mn, mx, bins, nb, h - 1) + if 0
            <= bin_index(vals[h - 1] as int, mn, mx, bins) < nb {
            1int
        } else {
            0int
        },
    decreases nb,
{
    if nb > 0 {
        lemma_bins_total_step(vals, mn, mx, bins, nb - 1, h);
    }
}

/// With no values counted, every bin is empty.
proof fn lemma_bins_total_zero(vals: Seq<i128>, mn: int, mx: int, bins: int, nb: int)
    ensures
        bins_total(vals, mn, mx, bins, nb, 0) == 0,
    decreases nb,
{
    if nb > 0 {
        lemma_bins_total_zero(vals, mn, mx, bins, nb - 1);
    }
}

/// Every value of `[mn, mx]` falls into one of the `bins` bins, so the
/// bin counts sum exactly to the number of values.
pub proof fn lemma_bins_total_full(vals: Seq<i128>, mn: int, mx: int, bins: int, h: int)
    requires
        bins >= 1,
        mn < mx,
        0 <= h <= vals.len(),
        forall|i: int| 0 <= i < vals.len() ==> mn <= (#[trigger] vals[i]) as int <= mx,
    ensures
        bins_total(vals, mn, mx, bins, bins, h) == h,
    decreases h,
{
    if h <= 0 {
        lemma_bins_total_zero(vals, mn, mx, bins, bins);
    } else {
        lemma_bins_total_full(vals, mn, mx, bins, h - 1);
        let v = vals[h - 1] as int;
        assert(0 <= bin_index(v, mn, mx, bins) < bins) by {
            if v < mx {
                assert((v - mn) * bins >= 0) by (nonlinear_arith)
                    requires
                        v >= mn,
                        bins >= 1;
                assert((v - mn) * bins < (mx - mn) * bins) by (nonlinear_arith)
                    requires
                        v < mx,
                        bins >= 1;
                vstd::arithmetic::div_mod::lemma_multiply_divide_lt(
                    (v - mn) * bins,
                    mx - mn,
                    bins,
                );
                vstd::arithmetic::div_mod::lemma_div_pos_is_pos((v - mn) * bins, mx - mn);
            }
        }
        lemma_bins_total_step(vals, mn, mx, bins, bins, h);
    }
}

/// The sum of a count vector's first `nb` entries.
pub open spec fn sum_counts(s: Seq<usize>, nb: int) -> int
    decreases nb,
{
    if nb <= 0 {
        0
    } else {
        sum_counts(s, nb - 1) + s[nb - 1]
    }
}

/// Computes the histogram of the named column: `bin_count` equal-width
/// bins spanning the observed `[min, max]`, each bin counting the values
/// it covers, a value equal to the maximum counted in the last bin. When
/// every non-null value is the same, a single degenerate bin `[min, min]`
/// holds all of them. The bin counts always sum to the number of non-null
/// values. Fails with `ColumnNotFound` for an unknown column,
/// `NonNumericColumn` for a column that does not cast to numbers (a
/// string, binary, dictionary, or composite column), and `NoData` for a
/// column with no non-null values.
pub fn get_column_histogram(df: &Dataset, column: &str, bin_count: usize) -> (r: Result<
    HistogramRecord,
    HistogramError,
>)
    requires
        ds_wf(df@),
        1 <= bin_count <= 10000000,
    ensures
        match r {
            Ok(hist) => {
                let j = find_col(df@, column@)->Some_0;
                let vals = col_micros(df@[j].cells, df@[j].cells.len() as int);
                let mn = hist.observed_min;
                let mx = hist.observed_max;
                &&& find_col(df@, column@) is Some
                &&& spec_is_castable_type(df@[j].ctype)
                &&& vals.len() > 0
                &&& is_min_of(mn, vals)
                &&& is_max_of(mx, vals)
                &&& if mn == mx {
                    &&& hist.counts@ =~= seq![vals.len() as usize]
                    &&& hist.edges@ =~= seq![mn, mn]
                } else {
                    &&& hist.counts@.len() == bin_count
                    &&& hist.edges@.len() == bin_count + 1
                    &&& forall|k: int|
                        0 <= k <= bin_count ==> #[trigger] hist.edges@[k] as int == mn + k * (
                        mx - mn) / (bin_count as int)
                    &&& forall|b: int|
                        0 <= b < bin_count ==> #[trigger] hist.counts@[b] as int == count_in_bin(
                            vals,
                            mn as int,
                            mx as int,
                            bin_count as int,
                            b,
                            vals.len() as int,
                        )
                }
                &&& sum_counts(hist.counts@, hist.counts@.len() as int) == vals.len()
            },
            Err(HistogramError::ColumnNotFound) => find_col(df@, column@) is None,
            Err(HistogramError::NonNumericColumn) => find_col(df@, column@) matches Some(j)
                && !spec_is_castable_type(df@[j].ctype),
            Err(HistogramError::NoData) => find_col(df@, column@) matches Some(j)
                && spec_is_castable_type(df@[j].ctype) && col_micros(
                df@[j].cells,
                df@[j].cells.len() as int,
            ).len() == 0,
        },
{
    proof {
        crate::plan::lemma_find_col_props(df@, column@);
    }
    let j = match df.find_column(column) {
        Some(j) => j,
        None => {
            return Err(HistogramError::ColumnNotFound);
        },
    };
    let col = &df.columns[j];
    proof {
        assert(find_col(df@, column@) == Some(j as int));
        assert(df@[j as int] == df.columns@[j as int]@);
    }
    if !is_castable_type(col.ctype) {
        return Err(HistogramError::NonNumericColumn);
    }
    let (vals, _nulls, _t, _f) = crate::stats::scan_column(&col.cells);
    if vals.len() == 0 {
        return Err(HistogramError::NoData);
    }
    proof {
        crate::stats::lemma_col_micros_in_range(df@[j as int], df@[j as int].cells.len() as int);
    }
    let (mn, mx) = crate::stats::min_max(&vals);
    let ghost valsv = vals@;
    proof {
        let wmn = choose|w: int| 0 <= w < valsv.len() && valsv[w] == mn;
        let wmx = choose|w: int| 0 <= w < valsv.len() && valsv[w] == mx;
        assert(-FX_LIMIT <= mn <= FX_LIMIT);
        assert(-FX_LIMIT <= mx <= FX_LIMIT);
    }
    if mn == mx {
        let mut counts: Vec<usize> = Vec::new();
        counts.push(vals.len());
        let mut edges: Vec<i128> = Vec::new();
        edges.push(mn);
        edges.push(mn);
        proof {
            let ghost j0 = find_col(df@, column@)->Some_0;
            assert(j0 == j as int);
            assert(df@[j0].cells == df.columns@[j as int]@.cells);
            assert(valsv == col_micros(df@[j0].cells, df@[j0].cells.len() as int));
            assert(counts@ =~= seq![vals.len() as usize]);
            assert(edges@ =~= seq![mn, mn]);
            assert(sum_counts(counts@, 0) == 0);
            assert(sum_counts(counts@, 1) == valsv.len());
        }
        return Ok(
            HistogramRecord { edges, counts, observed_min: mn, observed_max: mx },
        );
    }
    let bins128 = bin_count as u128;
    let diff: u128 = (mx - mn) as u128;
    let mut edges: Vec<i128> = Vec::new();
    let mut k: usize = 0;
    while k <= bin_count
        invariant
            k <= bin_count + 1,
            1 <= bin_count <= 10000000,
            mn < mx,
            -FX_LIMIT <= mn <= FX_LIMIT,
            -FX_LIMIT <= mx <= FX_LIMIT,
            bins128 == bin_count as u128,
            diff == (mx - mn) as u128,
            edges@.len() == k,
            forall|x: int|
                0 <= x < k ==> #[trigger] edges@[x] as int == mn + x * (mx as int - mn) / (
                bin_count as int),
        decreases bin_count + 1 - k,
    {
        proof {
            assert((k as int) * (diff as int) <= 10000000 * (2 * FX_LIMIT)) by (nonlinear_arith)
                requires
                    0 <= k <= 10000000,
                    0 <= diff <= 2 * FX_LIMIT;
            assert((k as int) * (diff as int) / (bin_count as int) <= (k as int) * (diff as int));
        }
        let e: i128 = mn + (((k as u128) * diff / bins128) as i128);
        edges.push(e);
        k = k + 1;
    }
    let mut counts: Vec<usize> = Vec::new();
    let mut b: usize = 0;
    while b < bin_count
        invariant
            b <= bin_count,
            counts@.len() == b,
            forall|x: int| 0 <= x < b ==> #[trigger] counts@[x] == 0,
        decreases bin_count - b,
    {
        counts.push(0);
        b = b + 1;
    }
    proof {
        assert(forall|x: int|
            0 <= x < bin_count ==> #[trigger] counts@[x] as int == count_in_bin(
                valsv,
                mn as int,
                mx as int,
                bin_count as int,
                x,
                0,
            ));
    }
    let mut i: usize = 0;
    while i < vals.len()
        invariant
            i <= valsv.len(),
            valsv == vals@,
            1 <= bin_count <= 10000000,
            mn < mx,
            is_min_of(mn, valsv),
            is_max_of(mx, valsv),
            -FX_LIMIT <= mn <= FX_LIMIT,
            -FX_LIMIT <= mx <= FX_LIMIT,
            bins128 == bin_count as u128,
            diff == (mx - mn) as u128,
            counts@.len() == bin_count,
            forall|x: int| 0 <= x < bin_count ==> #[trigger] counts@[x] <= i,
            forall|x: int|
                0 <= x < bin_count ==> #[trigger] counts@[x] as int == count_in_bin(
                    valsv,
                    mn as int,
                    mx as int,
                    bin_count as int,
                    x,
                    i as int,
                ),
        decreases valsv.len() - i,
    {
        let v = vals[i];
        proof {
            assert(valsv.contains(valsv[i as int]));
        }
        let idx: usize = if v >= mx {
            bin_count - 1
        } else {
            proof {
                assert(((v - mn) as int) * (bin_count as int) < ((mx - mn) as int) * (
                bin_count as int)) by (nonlinear_arith)
                    requires
                        v < mx,
                        mn <= v,
                        bin_count >= 1;
                assert(((mx - mn) as int) * (bin_count as int) <= 2 * FX_LIMIT * 10000000)
                    by (nonlinear_arith)
                    requires
                        0 < (mx - mn) as int <= 2 * FX_LIMIT,
                        1 <= bin_count <= 10000000;
                vstd::arithmetic::div_mod::lemma_multiply_divide_lt(
                    ((v - mn) as int) * (bin_count as int),
                    (mx - mn) as int,
                    bin_count as int,
                );
            }
            let num: u128 = ((v - mn) as u128) * bins128;
            (num / diff) as usize
        };
        proof {
            assert(idx as int == bin_index(v as int, mn as int, mx as int, bin_count as int));
            assert(0 <= idx < bin_count) by {
                if v < mx {
                } else {
                }
            }
        }
        let c = counts[idx];
        counts.set(idx, c + 1);
        i = i + 1;
    }
    proof {
        lemma_counts_sum_eq(counts@, valsv, mn as int, mx as int, bin_count as int);
        lemma_bins_total_full(valsv, mn as int, mx as int, bin_count as int, valsv.len() as int);
    }
    Ok(HistogramRecord { edges, counts, observed_min: mn, observed_max: mx })
}

/// When each entry equals its bin's count, the entry sum equals the
/// across-bin total.
proof fn lemma_counts_sum_eq(counts: Seq<usize>, vals: Seq<i128>, mn: int, mx: int, bins: int)
    requires
        counts.len() == bins,
        forall|b: int|
            0 <= b < bins ==> #[trigger] counts[b] as int == count_in_bin(
                vals,
                mn,
                mx,
                bins,
                b,
                vals.len() as int,
            ),
    ensures
        forall|nb: int|
            0 <= nb <= bins ==> #[trigger] sum_counts(counts, nb) == bins_total(
                vals,
                mn,
                mx,
                bins,
                nb,
                vals.len() as int,
            ),
{
    assert forall|nb: int|
        0 <= nb <= bins implies #[trigger] sum_counts(counts, nb) == bins_total(
        vals,
        mn,
        mx,
        bins,
        nb,
        vals.len() as int,
    ) by {
        lemma_counts_sum_eq_upto(counts, vals, mn, mx, bins, nb);
    }
}

proof fn lemma_counts_sum_eq_upto(
    counts: Seq<usize>,
    vals: Seq<i128>,
    mn: int,
    mx: int,
    bins: int,
    nb: int,
)
    requires
        counts.len() == bins,
        0 <= nb <= bins,
        forall|b: int|
            0 <= b < bins ==> #[trigger] counts[b] as int == count_in_bin(
                vals,
                mn,
                mx,
                bins,
                b,
                vals.len() as int,
            ),
    ensures
        sum_counts(counts, nb) == bins_total(vals, mn, mx, bins, nb, vals.len() as int),
    decreases nb,
{
    if nb > 0 {
        lemma_counts_sum_eq_upto(counts, vals, mn, mx, bins, nb - 1);
    }
}

} // verus!
