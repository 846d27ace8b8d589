//! The statistics engine: per-column descriptive statistics computed from
//! a materialized dataset, dispatched on the column's type.

use vstd::prelude::*;

verus! {

use crate::value::{Cell, CellV, ScalarV, ColType, is_null_cell, Scalar};
use crate::value::{spec_is_numeric_type, spec_is_temporal_type, spec_is_dict_type};
use crate::value::{is_numeric_type, is_temporal_type, is_dict_type};
use crate::dataset::{Dataset, ColumnV, ds_wf, ds_rows};
use crate::fmt::{dec_digits, digit_char, u128_to_string, digit_str};
use crate::strutil::str_eq;

/// The number of missing entries among the first `h` cells.
pub open spec fn null_count(cells: Seq<CellV>, h: int) -> int
    decreases h,
{
    if h <= 0 {
        0
    } else {
        null_count(cells, h - 1) + if is_null_cell(cells[h - 1]) {
            1int
        } else {
            0int
        }
    }
}

/// The fixed-point value of a castable scalar, in millionths: numbers by
/// value, booleans as zero and one, temporal scalars by their underlying
/// day, microsecond, or nanosecond count.
pub open spec fn fx_val(s: ScalarV) -> i128 {
    match s {
        ScalarV::Int(i) => (1000000 * i) as i128,
        ScalarV::UInt(u) => (1000000 * u) as i128,
        ScalarV::Num(m) => m as i128,
        ScalarV::Bool(b) => if b {
            1000000
        } else {
            0
        },
        ScalarV::Date(d) => (1000000 * d) as i128,
        ScalarV::Datetime(v) => (1000000 * v) as i128,
        ScalarV::Time(v) => (1000000 * v) as i128,
        ScalarV::Duration(v) => (1000000 * v) as i128,
        _ => 0,
    }
}

/// The cast values of the non-null castable cells among the first `h`,
/// in row order.
pub open spec fn col_micros(cells: Seq<CellV>, h: int) -> Seq<i128>
    decreases h,
{
    if h <= 0 {
        Seq::empty()
    } else {
        let rest = col_micros(cells, h - 1);
        match cells[h - 1] {
            CellV::S(s) => match s {
                ScalarV::Int(_) => rest.push(fx_val(s)),
                ScalarV::UInt(_) => rest.push(fx_val(s)),
                ScalarV::Num(_) => rest.push(fx_val(s)),
                ScalarV::Bool(_) => rest.push(fx_val(s)),
                ScalarV::Date(_) => rest.push(fx_val(s)),
                ScalarV::Datetime(_) => rest.push(fx_val(s)),
                ScalarV::Time(_) => rest.push(fx_val(s)),
                ScalarV::Duration(_) => rest.push(fx_val(s)),
                _ => rest,
            },
            _ => rest,
        }
    }
}

/// Whether the sequence is in non-decreasing order.
pub open spec fn sorted_i128(s: Seq<i128>) -> bool {
    forall|i: int, j: int| 0 <= i < j < s.len() ==> s[i] <= s[j]
}

/// Inserts `x` after every element at most `x`, before the rest.
pub open spec fn insert_sorted(x: i128, s: Seq<i128>) -> Seq<i128>
    decreases s.len(),
{
    if s.len() == 0 {
        seq![x]
    } else if s.last() <= x {
        s.push(x)
    } else {
        insert_sorted(x, s.drop_last()).push(s.last())
    }
}

/// The stable insertion sort of the sequence.
pub open spec fn sort_micros(s: Seq<i128>) -> Seq<i128>
    decreases s.len(),
{
    if s.len() == 0 {
        Seq::empty()
    } else {
        insert_sorted(s.last(), sort_micros(s.drop_last()))
    }
}

/// Inserting keeps the order, grows the length by one, and adds exactly
/// the new element.
pub proof fn lemma_insert_sorted(x: i128, s: Seq<i128>)
    requires
        sorted_i128(s),
    ensures
        sorted_i128(insert_sorted(x, s)),
        insert_sorted(x, s).len() == s.len() + 1,
        insert_sorted(x, s).to_multiset() == s.to_multiset().insert(x),
    decreases s.len(),
{
    broadcast use vstd::seq_lib::group_to_multiset_ensures;

    if s.len() == 0 {
        assert(seq![x] =~= Seq::<i128>::empty().push(x));
        assert(Seq::<i128>::empty().push(x).to_multiset() =~= Seq::<
            i128,
        >::empty().to_multiset().insert(x));
    } else if s.last() <= x {
    } else {
        assert(sorted_i128(s.drop_last())) by {
            assert(forall|i: int, j: int|
                0 <= i < j < s.drop_last().len() ==> s.drop_last()[i] == s[i] && s.drop_last()[j]
                    == s[j]);
        }
        lemma_insert_sorted(x, s.drop_last());
        let t = insert_sorted(x, s.drop_last());
        assert(sorted_i128(t.push(s.last()))) by {
            assert(forall|i: int| 0 <= i < t.len() ==> t.to_multiset().contains(t[i]));
            assert forall|i: int| 0 <= i < t.len() implies t[i] <= s.last() by {
                assert(t.to_multiset().count(t[i]) > 0);
                if t[i] != x {
                    assert(s.drop_last().to_multiset().count(t[i]) > 0);
                    assert(s.drop_last().contains(t[i]));
                    let w = choose|w: int|
                        0 <= w < s.drop_last().len() && s.drop_last()[w] == t[i];
                    assert(s[w] <= s.last());
                }
            }
        }
        assert(s =~= s.drop_last().push(s.last()));
        assert(t.push(s.last()).to_multiset() =~= s.to_multiset().insert(x));
    }
}

/// The sort is ordered and is a permutation of its input.
pub proof fn lemma_sort_micros(s: Seq<i128>)
    ensures
        sorted_i128(sort_micros(s)),
        sort_micros(s).len() == s.len(),
        sort_micros(s).to_multiset() == s.to_multiset(),
    decreases s.len(),
{
    broadcast use vstd::seq_lib::group_to_multiset_ensures;

    if s.len() > 0 {
        lemma_sort_micros(s.drop_last());
        lemma_insert_sorted(s.last(), sort_micros(s.drop_last()));
        assert(s =~= s.drop_last().push(s.last()));
        assert(insert_sorted(s.last(), sort_micros(s.drop_last())).to_multiset()
            =~= s.to_multiset());
    }
}

/// The sum of the sequence.
pub open spec fn sum_seq(s: Seq<i128>) -> int
    decreases s.len(),
{
    if s.len() == 0 {
        0
    } else {
        sum_seq(s.drop_last()) + s.last()
    }
}

/// Whether every prefix sum stays within 128-bit range, so that the
/// running total can be computed exactly.
pub open spec fn sum_ok(s: Seq<i128>) -> bool
    decreases s.len(),
{
    if s.len() == 0 {
        true
    } else {
        sum_ok(s.drop_last()) && i128::MIN <= sum_seq(s) <= i128::MAX
    }
}

/// The mean in millionths: the sum divided by the count, rounded toward
/// negative infinity.
pub open spec fn mean_spec(sum: int, n: int) -> int {
    if sum >= 0 {
        sum / n
    } else {
        -((-sum + n - 1) / n)
    }
}

/// The linear-interpolation quantile of a sorted sequence at `pnum`
/// hundredths: the value at the fractional position `pnum * (n - 1) / 100`,
/// interpolated between its two neighbours.
pub open spec fn quantile(s: Seq<i128>, pnum: int) -> int {
    let pos = pnum * (s.len() - 1);
    let lo = pos / 100;
    let rem = pos % 100;
    if rem == 0 {
        s[lo] as int
    } else {
        s[lo] + (s[lo + 1] - s[lo]) * rem / 100
    }
}

/// `v` is the smallest element of `s`.
pub open spec fn is_min_of(v: i128, s: Seq<i128>) -> bool {
    s.contains(v) && forall|i: int| 0 <= i < s.len() ==> v <= #[trigger] s[i]
}

/// `v` is the largest element of `s`.
pub open spec fn is_max_of(v: i128, s: Seq<i128>) -> bool {
    s.contains(v) && forall|i: int| 0 <= i < s.len() ==> v >= #[trigger] s[i]
}

/// The set of distinct non-null cell values among the first `h`.
pub open spec fn distinct_nn(cells: Seq<CellV>, h: int) -> Set<CellV>
    decreases h,
{
    if h <= 0 {
        Set::empty()
    } else {
        let r = distinct_nn(cells, h - 1);
        if is_null_cell(cells[h - 1]) {
            r
        } else {
            r.insert(cells[h - 1])
        }
    }
}

/// The number of `true` cells among the first `h`.
pub open spec fn true_count(cells: Seq<CellV>, h: int) -> int
    decreases h,
{
    if h <= 0 {
        0
    } else {
        true_count(cells, h - 1) + if cells[h - 1] == CellV::S(ScalarV::Bool(true)) {
            1int
        } else {
            0int
        }
    }
}

/// The number of `false` cells among the first `h`.
pub open spec fn false_count(cells: Seq<CellV>, h: int) -> int
    decreases h,
{
    if h <= 0 {
        0
    } else {
        false_count(cells, h - 1) + if cells[h - 1] == CellV::S(ScalarV::Bool(false)) {
            1int
        } else {
            0int
        }
    }
}

/// The rendering of a boolean count: the count, then the percentage of
/// the non-null total to one decimal place, rounded half up; zero
/// percent when the total is zero.
pub open spec fn bool_stat_str(count: int, nonnull: int) -> Seq<char> {
    let tenths = if nonnull == 0 {
        0
    } else {
        (count * 2000 + nonnull) / (2 * nonnull)
    };
    dec_digits(count as nat) + seq![' ', '('] + dec_digits((tenths / 10) as nat) + seq!['.']
        + seq![digit_char(tenths % 10)] + seq!['%', ')']
}

} // verus!

verus! {

/// Compares two scalars for content equality.
pub fn scalar_eq(a: &Scalar, b: &Scalar) -> (r: bool)
    ensures
        r == (a@ == b@),
{
    match (a, b) {
        (Scalar::Null, Scalar::Null) => true,
        (Scalar::Bool(x), Scalar::Bool(y)) => x == y,
        (Scalar::Int(x), Scalar::Int(y)) => x == y,
        (Scalar::UInt(x), Scalar::UInt(y)) => x == y,
        (Scalar::Num(x), Scalar::Num(y)) => x == y,
        (Scalar::Str(x), Scalar::Str(y)) => str_eq(x.as_str(), y.as_str()),
        (Scalar::Bin(x), Scalar::Bin(y)) => bytes_eq(x, y),
        (Scalar::Date(x), Scalar::Date(y)) => x == y,
        (Scalar::Datetime(x), Scalar::Datetime(y)) => x == y,
        (Scalar::Time(x), Scalar::Time(y)) => x == y,
        (Scalar::Duration(x), Scalar::Duration(y)) => x == y,
        (Scalar::Cat(x), Scalar::Cat(y)) => x == y,
        (Scalar::Nested, Scalar::Nested) => true,
        _ => false,
    }
}

/// Compares two byte vectors for equality.
fn bytes_eq(a: &Vec<u8>, b: &Vec<u8>) -> (r: bool)
    ensures
        r == (a@ == b@),
{
    if a.len() != b.len() {
        return false;
    }
    let mut i: usize = 0;
    while i < a.len()
        invariant
            i <= a@.len(),
            a@.len() == b@.len(),
            forall|j: int| 0 <= j < i ==> a@[j] == b@[j],
        decreases a@.len() - i,
    {
        if a[i] != b[i] {
            return false;
        }
        i = i + 1;
    }
    proof {
        assert(a@ =~= b@);
    }
    true
}

/// Compares two cells for content equality.
pub fn cell_eq(a: &Cell, b: &Cell) -> (r: bool)
    ensures
        r == (a@ == b@),
{
    match a {
        Cell::S(x) => match b {
            Cell::S(y) => scalar_eq(x, y),
            _ => false,
        },
        Cell::List(x) => match b {
            Cell::List(y) => {
                if x.len() != y.len() {
                    proof {
                        assert(a@->List_0.len() == x@.len());
                        assert(b@->List_0.len() == y@.len());
                    }
                    return false;
                }
                let mut i: usize = 0;
                while i < x.len()
                    invariant
                        i <= x@.len(),
                        x@.len() == y@.len(),
                        a@ is List && b@ is List,
                        a@->List_0.len() == x@.len(),
                        b@->List_0.len() == y@.len(),
                        forall|j: int| 0 <= j < x@.len() ==> #[trigger] a@->List_0[j] == x@[j]@,
                        forall|j: int| 0 <= j < y@.len() ==> #[trigger] b@->List_0[j] == y@[j]@,
                        forall|j: int| 0 <= j < i ==> x@[j]@ == y@[j]@,
                    decreases x@.len() - i,
                {
                    if !scalar_eq(&x[i], &y[i]) {
                        proof {
                            assert(a@->List_0[i as int] != b@->List_0[i as int]);
                        }
                        return false;
                    }
                    i = i + 1;
                }
                proof {
                    assert(x@.map_values(|s: Scalar| s@) =~= y@.map_values(|s: Scalar| s@));
                }
                true
            },
            _ => false,
        },
        Cell::Record(x) => match b {
            Cell::Record(y) => {
                if x.len() != y.len() {
                    proof {
                        assert(a@->Record_0.len() == x@.len());
                        assert(b@->Record_0.len() == y@.len());
                    }
                    return false;
                }
                let mut i: usize = 0;
                while i < x.len()
                    invariant
                        i <= x@.len(),
                        x@.len() == y@.len(),
                        a@ is Record && b@ is Record,
                        a@->Record_0.len() == x@.len(),
                        b@->Record_0.len() == y@.len(),
                        forall|j: int| 0 <= j < x@.len() ==> #[trigger] a@->Record_0[j] == x@[j]@,
                        forall|j: int| 0 <= j < y@.len() ==> #[trigger] b@->Record_0[j] == y@[j]@,
                        forall|j: int| 0 <= j < i ==> x@[j]@ == y@[j]@,
                    decreases x@.len() - i,
                {
                    if !str_eq(x[i].name.as_str(), y[i].name.as_str()) || !scalar_eq(
                        &x[i].value,
                        &y[i].value,
                    ) {
                        proof {
                            assert(a@->Record_0[i as int] != b@->Record_0[i as int]);
                        }
                        return false;
                    }
                    i = i + 1;
                }
                proof {
                    assert(x@.map_values(|f: crate::value::Field| f@) =~= y@.map_values(
                        |f: crate::value::Field| f@,
                    ));
                }
                true
            },
            _ => false,
        },
    }
}

/// The descriptive statistics of one column. Fields that do not apply to
/// the column's type are `None`; fixed-point values are in millionths.
pub struct ColumnStats {
    pub name: String,
    pub null_values: usize,
    pub min: Option<i128>,
    pub max: Option<i128>,
    pub mean: Option<i128>,
    pub median: Option<i128>,
    pub percentile_25: Option<i128>,
    pub percentile_75: Option<i128>,
    pub true_count: Option<String>,
    pub false_count: Option<String>,
    pub unique_values: Option<usize>,
    pub available_values: Option<Vec<String>>,
}

/// What the statistics of one column must say, by the column's type:
/// every column records its null count; numeric columns record min, max,
/// mean, median, and the quartiles of their non-null values when any
/// exist; boolean columns record the rendered true and false counts;
/// categorical and enum columns record their distinct non-null count and
/// the full dictionary; temporal columns record nothing further; all
/// other types record their distinct non-null count.
pub open spec fn stats_ok(st: &ColumnStats, col: ColumnV) -> bool {
    let h = col.cells.len() as int;
    let vals = col_micros(col.cells, h);
    let nn = h - null_count(col.cells, h);
    &&& st.name@ == col.name
    &&& st.null_values == null_count(col.cells, h)
    &&& if spec_is_numeric_type(col.ctype) {
        &&& st.true_count is None
        &&& st.false_count is None
        &&& st.unique_values is None
        &&& st.available_values is None
        &&& if vals.len() == 0 {
            st.min is None && st.max is None && st.mean is None && st.median is None
                && st.percentile_25 is None && st.percentile_75 is None
        } else {
            &&& st.min matches Some(v) && is_min_of(v, vals)
            &&& st.max matches Some(v) && is_max_of(v, vals)
            &&& st.mean == if sum_ok(vals) {
                Some(mean_spec(sum_seq(vals), vals.len() as int) as i128)
            } else {
                None::<i128>
            }
            &&& st.median == Some(quantile(sort_micros(vals), 50) as i128)
            &&& st.percentile_25 == Some(quantile(sort_micros(vals), 25) as i128)
            &&& st.percentile_75 == Some(quantile(sort_micros(vals), 75) as i128)
        }
    } else if col.ctype == ColType::Bool {
        &&& st.min is None
        &&& st.max is None
        &&& st.mean is None
        &&& st.median is None
        &&& st.percentile_25 is None
        &&& st.percentile_75 is None
        &&& st.unique_values is None
        &&& st.available_values is None
        &&& st.true_count matches Some(t) && t@ == bool_stat_str(
            true_count(col.cells, h),
            nn,
        )
        &&& st.false_count matches Some(f) && f@ == bool_stat_str(
            false_count(col.cells, h),
            nn,
        )
    } else if spec_is_dict_type(col.ctype) {
        &&& st.min is None
        &&& st.max is None
        &&& st.mean is None
        &&& st.median is None
        &&& st.percentile_25 is None
        &&& st.percentile_75 is None
        &&& st.true_count is None
        &&& st.false_count is None
        &&& st.unique_values == Some(distinct_nn(col.cells, h).len() as usize)
        &&& st.available_values matches Some(av) && av@.len() == col.dict.len() && (forall|
            i: int,
        |
            0 <= i < av@.len() ==> (#[trigger] av@[i])@ == col.dict[i])
    } else if spec_is_temporal_type(col.ctype) {
        &&& st.min is None
        &&& st.max is None
        &&& st.mean is None
        &&& st.median is None
        &&& st.percentile_25 is None
        &&& st.percentile_75 is None
        &&& st.true_count is None
        &&& st.false_count is None
        &&& st.unique_values is None
        &&& st.available_values is None
    } else {
        &&& st.min is None
        &&& st.max is None
        &&& st.mean is None
        &&& st.median is None
        &&& st.percentile_25 is None
        &&& st.percentile_75 is None
        &&& st.true_count is None
        &&& st.false_count is None
        &&& st.available_values is None
        &&& st.unique_values == Some(distinct_nn(col.cells, h).len() as usize)
    }
}

} // verus!

verus! {

use crate::value::FX_LIMIT;

/// Adds two values, reporting when the sum leaves 128-bit range.
fn add_checked(a: i128, b: i128) -> (r: Option<i128>)
    ensures
        match r {
            Some(v) => v as int == a + b,
            None => a + b > i128::MAX || a + b < i128::MIN,
        },
{
    if b >= 0 {
        if a <= i128::MAX - b {
            Some(a + b)
        } else {
            None
        }
    } else {
        if a >= i128::MIN - b {
            Some(a + b)
        } else {
            None
        }
    }
}

/// The magnitude of an `i128` as a `u128`.
fn mag_u128(i: i128) -> (r: u128)
    ensures
        r as int == if i < 0 {
            -(i as int)
        } else {
            i as int
        },
{
    if i < 0 {
        if i == i128::MIN {
            170141183460469231731687303715884105728u128
        } else {
            (-i) as u128
        }
    } else {
        i as u128
    }
}

/// Divides the sum by the count, rounding toward negative infinity.
fn mean_div(sum: i128, n: usize) -> (r: i128)
    requires
        n > 0,
    ensures
        r as int == mean_spec(sum as int, n as int),
{
    if n == 1 {
        return sum;
    }
    let nn = n as u128;
    if sum >= 0 {
        ((sum as u128) / nn) as i128
    } else {
        let mag = mag_u128(sum);
        let t = (mag + nn - 1) / nn;
        proof {
            vstd::arithmetic::div_mod::lemma_div_is_ordered_by_denominator(
                mag as int + nn as int - 1,
                2,
                nn as int,
            );
        }
        -(t as i128)
    }
}

/// The values, null count, and true/false counts of one column's cells.
pub fn scan_column(cells: &Vec<Cell>) -> (r: (Vec<i128>, usize, usize, usize))
    ensures
        r.0@ == col_micros(cells@.map_values(|c: Cell| c@), cells@.len() as int),
        r.1 as int == null_count(cells@.map_values(|c: Cell| c@), cells@.len() as int),
        r.2 as int == true_count(cells@.map_values(|c: Cell| c@), cells@.len() as int),
        r.3 as int == false_count(cells@.map_values(|c: Cell| c@), cells@.len() as int),
{
    let ghost cv = cells@.map_values(|c: Cell| c@);
    let mut vals: Vec<i128> = Vec::new();
    let mut nulls: usize = 0;
    let mut trues: usize = 0;
    let mut falses: usize = 0;
    let mut i: usize = 0;
    while i < cells.len()
        invariant
            i <= cells@.len(),
            cv == cells@.map_values(|c: Cell| c@),
            cv.len() == cells@.len(),
            vals@ == col_micros(cv, i as int),
            nulls as int == null_count(cv, i as int),
            trues as int == true_count(cv, i as int),
            falses as int == false_count(cv, i as int),
            nulls <= i,
            trues <= i,
            falses <= i,
        decreases cells@.len() - i,
    {
        proof {
            assert(cv[i as int] == cells@[i as int]@);
        }
        match &cells[i] {
            Cell::S(s) => {
                match s {
                    Scalar::Null => {
                        nulls = nulls + 1;
                    },
                    Scalar::Bool(b) => {
                        if *b {
                            trues = trues + 1;
                            vals.push(1000000);
                        } else {
                            falses = falses + 1;
                            vals.push(0);
                        }
                    },
                    Scalar::Int(x) => {
                        vals.push((*x as i128) * 1000000);
                    },
                    Scalar::UInt(x) => {
                        vals.push((*x as i128) * 1000000);
                    },
                    Scalar::Num(m) => {
                        vals.push(*m);
                    },
                    Scalar::Date(d) => {
                        vals.push((*d as i128) * 1000000);
                    },
                    Scalar::Datetime(v) => {
                        vals.push((*v as i128) * 1000000);
                    },
                    Scalar::Time(v) => {
                        vals.push((*v as i128) * 1000000);
                    },
                    Scalar::Duration(v) => {
                        vals.push((*v as i128) * 1000000);
                    },
                    _ => (),
                }
            },
            _ => (),
        }
        proof {
            assert(vals@ =~= col_micros(cv, i + 1));
        }
        i = i + 1;
    }
    (vals, nulls, trues, falses)
}

/// The least and greatest elements of a non-empty sequence of values.
pub fn min_max(vals: &Vec<i128>) -> (r: (i128, i128))
    requires
        vals@.len() > 0,
    ensures
        is_min_of(r.0, vals@),
        is_max_of(r.1, vals@),
{
    let mut mn = vals[0];
    let mut mx = vals[0];
    let mut i: usize = 1;
    proof {
        assert(vals@.contains(vals@[0]));
    }
    while i < vals.len()
        invariant
            1 <= i <= vals@.len(),
            vals@.contains(mn),
            vals@.contains(mx),
            forall|j: int| 0 <= j < i ==> mn <= #[trigger] vals@[j],
            forall|j: int| 0 <= j < i ==> mx >= #[trigger] vals@[j],
        decreases vals@.len() - i,
    {
        if vals[i] < mn {
            mn = vals[i];
            proof {
                assert(vals@.contains(vals@[i as int]));
            }
        }
        if vals[i] > mx {
            mx = vals[i];
            proof {
                assert(vals@.contains(vals@[i as int]));
            }
        }
        i = i + 1;
    }
    (mn, mx)
}

/// The sum of the values, when every prefix stays in range.
fn sum_vals(vals: &Vec<i128>) -> (r: Option<i128>)
    ensures
        match r {
            Some(v) => sum_ok(vals@) && v as int == sum_seq(vals@),
            None => !sum_ok(vals@),
        },
{
    let mut sum: i128 = 0;
    let mut i: usize = 0;
    proof {
        assert(vals@.subrange(0, 0) =~= Seq::<i128>::empty());
    }
    while i < vals.len()
        invariant
            i <= vals@.len(),
            sum_ok(vals@.subrange(0, i as int)),
            sum as int == sum_seq(vals@.subrange(0, i as int)),
        decreases vals@.len() - i,
    {
        proof {
            assert(vals@.subrange(0, i + 1).drop_last() =~= vals@.subrange(0, i as int));
        }
        match add_checked(sum, vals[i]) {
            Some(v) => {
                sum = v;
            },
            None => {
                proof {
                    lemma_sum_prefix_bad(vals@, i as int);
                }
                return None;
            },
        }
        i = i + 1;
    }
    proof {
        assert(vals@.subrange(0, vals@.len() as int) =~= vals@);
    }
    Some(sum)
}

/// A prefix whose extension overflows poisons the whole sum.
proof fn lemma_sum_prefix_bad(s: Seq<i128>, i: int)
    requires
        0 <= i < s.len(),
        !sum_ok(s.subrange(0, i + 1)),
    ensures
        !sum_ok(s),
    decreases s.len() - i,
{
    if i + 1 < s.len() {
        assert(s.subrange(0, i + 2).drop_last() =~= s.subrange(0, i + 1));
        lemma_sum_prefix_bad(s, i + 1);
    } else {
        assert(s.subrange(0, s.len() as int) =~= s);
    }
}

/// Splitting a sorted sequence at the insertion point of `x`.
proof fn lemma_insert_sorted_at(x: i128, s: Seq<i128>, p: int)
    requires
        sorted_i128(s),
        0 <= p <= s.len(),
        forall|q: int| 0 <= q < p ==> #[trigger] s[q] <= x,
        forall|q: int| p <= q < s.len() ==> #[trigger] s[q] > x,
    ensures
        insert_sorted(x, s) == s.subrange(0, p).push(x) + s.subrange(p, s.len() as int),
    decreases s.len(),
{
    if s.len() == 0 {
        assert(insert_sorted(x, s) =~= s.subrange(0, 0).push(x) + s.subrange(0, 0));
    } else if s.last() <= x {
        assert(p == s.len());
        assert(insert_sorted(x, s) =~= s.subrange(0, p).push(x) + s.subrange(p, s.len() as int));
    } else {
        assert(p < s.len());
        assert(sorted_i128(s.drop_last())) by {
            assert(forall|i: int, j: int|
                0 <= i < j < s.drop_last().len() ==> s.drop_last()[i] == s[i] && s.drop_last()[j]
                    == s[j]);
        }
        lemma_insert_sorted_at(x, s.drop_last(), p);
        assert(insert_sorted(x, s) =~= s.subrange(0, p).push(x) + s.subrange(p, s.len() as int))
            by {
            assert(s.drop_last().subrange(0, p) =~= s.subrange(0, p));
        }
    }
}

/// Sorts the values into a fresh vector.
fn sort_vals(vals: &Vec<i128>) -> (r: Vec<i128>)
    ensures
        r@ == sort_micros(vals@),
        sorted_i128(r@),
        r@.len() == vals@.len(),
        r@.to_multiset() == vals@.to_multiset(),
{
    let mut out: Vec<i128> = Vec::new();
    let mut i: usize = 0;
    proof {
        assert(vals@.subrange(0, 0) =~= Seq::<i128>::empty());
    }
    while i < vals.len()
        invariant
            i <= vals@.len(),
            out@ == sort_micros(vals@.subrange(0, i as int)),
            sorted_i128(out@),
            out@.len() == i,
        decreases vals@.len() - i,
    {
        let x = vals[i];
        let mut p: usize = 0;
        while p < out.len() && out[p] <= x
            invariant
                p <= out@.len(),
                sorted_i128(out@),
                forall|q: int| 0 <= q < p ==> #[trigger] out@[q] <= x,
            decreases out@.len() - p,
        {
            p = p + 1;
        }
        proof {
            assert forall|q: int| p <= q < out@.len() implies #[trigger] out@[q] > x by {
                if q > p {
                    assert(out@[p as int] <= out@[q]);
                }
            }
            lemma_insert_sorted_at(x, out@, p as int);
            lemma_insert_sorted(x, out@);
        }
        let ghost pre = out@;
        out.insert(p, x);
        proof {
            assert(out@ =~= pre.subrange(0, p as int).push(x) + pre.subrange(
                p as int,
                pre.len() as int,
            ));
            assert(out@ == insert_sorted(x, pre));
            assert(vals@.subrange(0, i + 1).drop_last() =~= vals@.subrange(0, i as int));
            assert(vals@.subrange(0, i + 1).last() == vals@[i as int]);
        }
        i = i + 1;
    }
    proof {
        assert(vals@.subrange(0, vals@.len() as int) =~= vals@);
        lemma_sort_micros(vals@);
    }
    out
}

/// The linear-interpolation quantile of a sorted value sequence, at
/// `pnum` hundredths.
fn quantile_exec(s: &Vec<i128>, pnum: u8) -> (r: i128)
    requires
        s@.len() > 0,
        sorted_i128(s@),
        pnum < 100,
        forall|i: int| 0 <= i < s@.len() ==> -FX_LIMIT <= #[trigger] s@[i] <= FX_LIMIT,
    ensures
        r as int == quantile(s@, pnum as int),
{
    let n = s.len();
    proof {
        assert((pnum as int) * ((n - 1) as int) < 100 * 0x10000000000000000) by (nonlinear_arith)
            requires
                0 <= pnum < 100,
                ((n - 1) as int) < 0x10000000000000000;
    }
    let pos: u128 = (pnum as u128) * ((n - 1) as u128);
    proof {
        assert(pos as int == pnum * (s@.len() - 1));
        assert((pos as int) / 100 <= s@.len() - 1) by (nonlinear_arith)
            requires
                pos as int == pnum * (s@.len() - 1),
                0 <= pnum < 100,
                s@.len() >= 1;
    }
    let lo: usize = (pos / 100) as usize;
    let rem: u128 = pos % 100;
    if rem == 0 {
        s[lo]
    } else {
        proof {
            assert((pos as int) < 100 * (s@.len() - 1)) by (nonlinear_arith)
                requires
                    pos as int == pnum * (s@.len() - 1),
                    0 <= pnum < 100,
                    s@.len() >= 1,
                    (pos as int) % 100 != 0;
            assert((pos as int) / 100 < s@.len() - 1);
            assert(s@[lo as int] <= s@[lo + 1]);
        }
        let a = s[lo];
        let b = s[lo + 1];
        let diff: u128 = (b - a) as u128;
        proof {
            assert((diff as int) * (rem as int) <= (diff as int) * 100) by (nonlinear_arith)
                requires
                    0 <= rem < 100,
                    0 <= diff;
        }
        let prod: u128 = diff * (rem as u128);
        let q: u128 = prod / 100;
        proof {
            assert((prod as int) / 100 <= ((diff as int) * 100) / 100);
        }
        let add: i128 = q as i128;
        a + add
    }
}

} // verus!

verus! {

use crate::fmt::padded_to_string;

/// The number of distinct non-null cell values.
fn distinct_count(cells: &Vec<Cell>) -> (r: usize)
    ensures
        r as int == distinct_nn(
            cells@.map_values(|c: Cell| c@),
            cells@.len() as int,
        ).len(),
{
    let ghost cv = cells@.map_values(|c: Cell| c@);
    let mut count: usize = 0;
    let mut i: usize = 0;
    proof {
        assert(distinct_nn(cv, 0) =~= Set::<CellV>::empty());
    }
    while i < cells.len()
        invariant
            i <= cells@.len(),
            cv == cells@.map_values(|c: Cell| c@),
            cv.len() == cells@.len(),
            count as int == distinct_nn(cv, i as int).len(),
            count <= i,
            distinct_nn(cv, i as int).finite(),
            forall|c: CellV| #[trigger]
                distinct_nn(cv, i as int).contains(c) <==> exists|j: int|
                    0 <= j < i && !is_null_cell(#[trigger] cv[j]) && cv[j] == c,
        decreases cells@.len() - i,
    {
        proof {
            assert(cv[i as int] == cells@[i as int]@);
        }
        if !cells[i].is_null() {
            let mut seen = false;
            let mut j: usize = 0;
            while j < i
                invariant
                    j <= i,
                    i < cells@.len(),
                    cv == cells@.map_values(|c: Cell| c@),
                    cv.len() == cells@.len(),
                    seen == exists|x: int|
                        0 <= x < j && !is_null_cell(#[trigger] cv[x]) && cv[x] == cv[i as int],
                decreases i - j,
            {
                if !cells[j].is_null() && cell_eq(&cells[j], &cells[i]) {
                    proof {
                        assert(cv[j as int] == cells@[j as int]@);
                        assert(!is_null_cell(cv[j as int]) && cv[j as int] == cv[i as int]);
                    }
                    seen = true;
                }
                proof {
                    assert(cv[j as int] == cells@[j as int]@);
                }
                j = j + 1;
            }
            if !seen {
                count = count + 1;
                proof {
                    assert(!distinct_nn(cv, i as int).contains(cv[i as int]));
                    vstd::set::axiom_set_insert_len(distinct_nn(cv, i as int), cv[i as int]);
                }
            } else {
                proof {
                    assert(distinct_nn(cv, i as int).contains(cv[i as int]));
                    assert(distinct_nn(cv, i + 1) =~= distinct_nn(cv, i as int));
                }
            }
        }
        proof {
            assert forall|c: CellV| #[trigger]
                distinct_nn(cv, i + 1).contains(c) implies exists|j: int|
                0 <= j < i + 1 && !is_null_cell(#[trigger] cv[j]) && cv[j] == c by {
                if distinct_nn(cv, i as int).contains(c) {
                    let w = choose|j: int|
                        0 <= j < i && !is_null_cell(#[trigger] cv[j]) && cv[j] == c;
                    assert(0 <= w < i + 1 && !is_null_cell(cv[w]) && cv[w] == c);
                } else {
                    assert(!is_null_cell(cv[i as int]) && cv[i as int] == c);
                }
            }
        }
        i = i + 1;
    }
    count
}

/// Renders a boolean count with its share of the non-null total.
fn bool_stat_string(count: usize, nonnull: usize) -> (r: String)
    requires
        count <= nonnull,
    ensures
        r@ == bool_stat_str(count as int, nonnull as int),
{
    let tenths: u128 = if nonnull == 0 {
        0
    } else {
        ((count as u128) * 2000 + (nonnull as u128)) / (2 * (nonnull as u128))
    };
    proof {
        if nonnull > 0 {
            assert((count as int) * 2000 + nonnull <= 2000 * (nonnull as int) + nonnull)
                by (nonlinear_arith)
                requires
                    0 <= count <= nonnull;
            vstd::arithmetic::div_mod::lemma_div_is_ordered(
                (count as int) * 2000 + nonnull,
                2000 * (nonnull as int) + nonnull,
                2 * (nonnull as int),
            );
            assert((2000 * (nonnull as int) + nonnull) / (2 * (nonnull as int)) <= 1000)
                by (nonlinear_arith)
                requires
                    nonnull >= 1;
        }
    }
    let mut r = u128_to_string(count as u128);
    r.append(" (");
    let whole = u128_to_string(tenths / 10);
    r.append(whole.as_str());
    r.append(".");
    r.append(digit_str((tenths % 10) as u8));
    r.append("%)");
    proof {
        reveal_strlit(" (");
        reveal_strlit(".");
        reveal_strlit("%)");
        assert(" ("@ =~= seq![' ', '(']);
        assert("%)"@ =~= seq!['%', ')']);
        assert(r@ =~= bool_stat_str(count as int, nonnull as int));
    }
    r
}

/// Copies the labels of a dictionary.
fn labels_of(d: &Vec<String>) -> (r: Vec<String>)
    ensures
        r@.len() == d@.len(),
        forall|i: int| 0 <= i < d@.len() ==> #[trigger] r@[i]@ == d@[i]@,
{
    let mut r: Vec<String> = Vec::new();
    let mut i: usize = 0;
    while i < d.len()
        invariant
            i <= d@.len(),
            r@.len() == i,
            forall|x: int| 0 <= x < i ==> #[trigger] r@[x]@ == d@[x]@,
        decreases d@.len() - i,
    {
        r.push(d[i].clone());
        i = i + 1;
    }
    r
}

/// Computes the per-column statistics of a materialized dataset: always
/// the null count, then type-dispatched values as `stats_ok` states, one
/// record per column in column order. Repeated requests recompute from
/// the same data; nothing is cached here.
pub fn get_statistics(df: &Dataset) -> (r: Vec<ColumnStats>)
    requires
        ds_wf(df@),
    ensures
        r@.len() == df@.len(),
        forall|j: int| 0 <= j < df@.len() ==> stats_ok(&r@[j], df@[j]),
{
    let w = df.width();
    let mut out: Vec<ColumnStats> = Vec::new();
    let mut j: usize = 0;
    while j < w
        invariant
            j <= w,
            w == df@.len(),
            ds_wf(df@),
            out@.len() == j,
            forall|x: int| 0 <= x < j ==> stats_ok(&out@[x], df@[x]),
        decreases w - j,
    {
        let col = &df.columns[j];
        proof {
            assert(df@[j as int] == df.columns@[j as int]@);
        }
        let ghost colv = df@[j as int];
        let (vals, nulls, trues, falses) = scan_column(&col.cells);
        let h = col.cells.len();
        proof {
            lemma_counts_le(colv.cells, colv.cells.len() as int);
        }
        let nonnull = h - nulls;
        let mut st = ColumnStats {
            name: col.name.clone(),
            null_values: nulls,
            min: None,
            max: None,
            mean: None,
            median: None,
            percentile_25: None,
            percentile_75: None,
            true_count: None,
            false_count: None,
            unique_values: None,
            available_values: None,
        };
        if is_numeric_type(col.ctype) {
            if vals.len() > 0 {
                proof {
                    lemma_col_micros_in_range(colv, colv.cells.len() as int);
                }
                let (mn, mx) = min_max(&vals);
                st.min = Some(mn);
                st.max = Some(mx);
                match sum_vals(&vals) {
                    Some(sum) => {
                        st.mean = Some(mean_div(sum, vals.len()));
                    },
                    None => (),
                };
                let sorted = sort_vals(&vals);
                proof {
                    broadcast use vstd::seq_lib::group_to_multiset_ensures;

                    assert forall|i: int|
                        0 <= i < sorted@.len() implies -FX_LIMIT <= #[trigger] sorted@[i]
                        <= FX_LIMIT by {
                        assert(sorted@.to_multiset().contains(sorted@[i]));
                        assert(vals@.to_multiset().contains(sorted@[i]));
                        assert(vals@.contains(sorted@[i]));
                    }
                }
                st.median = Some(quantile_exec(&sorted, 50));
                st.percentile_25 = Some(quantile_exec(&sorted, 25));
                st.percentile_75 = Some(quantile_exec(&sorted, 75));
            }
        } else if matches!(col.ctype, ColType::Bool) {
            st.true_count = Some(bool_stat_string(trues, nonnull));
            st.false_count = Some(bool_stat_string(falses, nonnull));
        } else if is_dict_type(col.ctype) {
            st.unique_values = Some(distinct_count(&col.cells));
            st.available_values = Some(labels_of(&col.dict));
        } else if is_temporal_type(col.ctype) {
        } else {
            st.unique_values = Some(distinct_count(&col.cells));
        }
        out.push(st);
        j = j + 1;
    }
    out
}

/// Null, true, and false counts never exceed the cell count.
proof fn lemma_counts_le(cells: Seq<CellV>, h: int)
    ensures
        0 <= null_count(cells, h) <= if h < 0 {
            0
        } else {
            h
        },
        0 <= true_count(cells, h),
        0 <= false_count(cells, h),
        null_count(cells, h) + true_count(cells, h) + false_count(cells, h) <= if h < 0 {
            0
        } else {
            h
        },
    decreases h,
{
    if h > 0 {
        lemma_counts_le(cells, h - 1);
    }
}

/// In a well-formed castable column, every collected value stays within
/// the fixed-point bound.
pub proof fn lemma_col_micros_in_range(col: ColumnV, h: int)
    requires
        crate::dataset::col_wf(col),
        h <= col.cells.len(),
        crate::value::spec_is_castable_type(col.ctype),
    ensures
        forall|i: int|
            0 <= i < col_micros(col.cells, h).len() ==> -FX_LIMIT <= #[trigger] col_micros(
                col.cells,
                h,
            )[i] <= FX_LIMIT,
    decreases h,
{
    if h > 0 {
        lemma_col_micros_in_range(col, h - 1);
        assert(crate::value::cell_ok(col.ctype, col.cells[h - 1], col.dict.len() as int));
        let rest = col_micros(col.cells, h - 1);
        let cur = col_micros(col.cells, h);
        match col.cells[h - 1] {
            CellV::S(s) => match s {
                ScalarV::Int(_) | ScalarV::UInt(_) | ScalarV::Num(_) | ScalarV::Bool(_)
                | ScalarV::Date(_) | ScalarV::Datetime(_) | ScalarV::Time(_)
                | ScalarV::Duration(_) => {
                    assert(cur == rest.push(fx_val(s)));
                    assert(-FX_LIMIT <= fx_val(s) <= FX_LIMIT);
                    assert(forall|i: int|
                        0 <= i < cur.len() ==> #[trigger] cur[i] == if i < rest.len() {
                            rest[i]
                        } else {
                            fx_val(s)
                        });
                },
                _ => {
                    assert(cur == rest);
                },
            },
            _ => {
                assert(cur == rest);
            },
        }
    }
}

} // verus!
