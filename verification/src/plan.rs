//! The lazy plan: an immutable description of filters and sort keys over
//! a tabular source, built functionally by the translators and executed
//! on materialization.

use vstd::prelude::*;

verus! {

use crate::value::{ColType, CellV, spec_is_numeric_type, spec_is_dict_type};
use crate::dataset::{Dataset, Column, ColumnV, ds_rows, ds_wf};
use crate::filter::{
    Filtering, FilteringV, Pred, PredV, TestV, FilterError, translate_all, translate_one,
    translate_clause, eval_test, eval_test_cell,
};
use crate::sort::{Sorting, SortingV, SortKey, SortKeyV, keys_view, keys_in_range, row_lt};
use crate::value::cell_ok;

/// An unevaluated transformation pipeline: filters to intersect and sort
/// keys to apply, both in order. Translators return new plans and leave
/// their input untouched.
#[derive(Debug)]
pub struct LazyPlan {
    pub preds: Vec<Pred>,
    pub sorts: Vec<Sorting>,
}

/// The mathematical value of a lazy plan.
pub struct LazyPlanV {
    pub preds: Seq<PredV>,
    pub sorts: Seq<SortingV>,
}

impl View for LazyPlan {
    type V = LazyPlanV;

    open spec fn view(&self) -> LazyPlanV {
        LazyPlanV {
            preds: self.preds@.map_values(|p: Pred| p@),
            sorts: self.sorts@.map_values(|s: Sorting| s@),
        }
    }
}

impl LazyPlan {
    /// The empty plan: no filters, no sort keys.
    pub fn new() -> (r: LazyPlan)
        ensures
            r@.preds == Seq::<PredV>::empty(),
            r@.sorts == Seq::<SortingV>::empty(),
    {
        let r = LazyPlan { preds: Vec::new(), sorts: Vec::new() };
        proof {
            assert(r@.preds =~= Seq::<PredV>::empty());
            assert(r@.sorts =~= Seq::<SortingV>::empty());
        }
        r
    }
}

/// The views of a clause list.
pub open spec fn filterings_view(fs: Seq<Filtering>) -> Seq<FilteringV> {
    fs.map_values(|f: Filtering| f@)
}

/// The views of a sort clause list.
pub open spec fn sortings_view(ss: Seq<Sorting>) -> Seq<SortingV> {
    ss.map_values(|s: Sorting| s@)
}

/// Applies a list of filter clauses to a plan: each clause is translated
/// and its predicate intersected (logical AND) with the plan's selection,
/// in listed order. The first malformed clause aborts with its error and
/// the input plan is unaffected (a fresh plan is returned on success).
pub fn filter_columns(lf: LazyPlan, filtering_info: Vec<Filtering>) -> (r: Result<
    LazyPlan,
    FilterError,
>)
    ensures
        match r {
            Ok(p2) => translate_all(filterings_view(filtering_info@)) is Ok && p2@.preds
                == lf@.preds + translate_all(filterings_view(filtering_info@))->Ok_0
                && p2@.sorts == lf@.sorts,
            Err(e) => translate_all(filterings_view(filtering_info@)) == Err::<
                Seq<PredV>,
                crate::filter::FilterErrorV,
            >(e@),
        },
{
    let ghost fsv = filterings_view(filtering_info@);
    let ghost preds0 = lf@.preds;
    let mut preds = lf.preds;
    let sorts = lf.sorts;
    let mut i: usize = 0;
    proof {
        assert(fsv.subrange(0, 0) =~= Seq::<FilteringV>::empty());
    }
    while i < filtering_info.len()
        invariant
            i <= filtering_info@.len(),
            fsv == filterings_view(filtering_info@),
            translate_all(fsv.subrange(0, i as int)) is Ok,
            preds@.len() == preds0.len() + translate_all(fsv.subrange(0, i as int))->Ok_0.len(),
            forall|k: int|
                0 <= k < preds@.len() ==> #[trigger] preds@[k]@ == (preds0 + translate_all(
                    fsv.subrange(0, i as int),
                )->Ok_0)[k],
        decreases filtering_info@.len() - i,
    {
        match translate_one(&filtering_info[i]) {
            Ok(p) => {
                preds.push(p);
                proof {
                    assert(fsv.subrange(0, i + 1).drop_last() =~= fsv.subrange(0, i as int));
                    assert(fsv.subrange(0, i + 1).last() == fsv[i as int]);
                    assert(fsv[i as int] == filtering_info@[i as int]@);
                    assert(translate_all(fsv.subrange(0, i + 1))->Ok_0 == translate_all(
                        fsv.subrange(0, i as int),
                    )->Ok_0.push(p@));
                }
                i = i + 1;
            },
            Err(e) => {
                proof {
                    lemma_translate_all_prefix_err(fsv, i as int);
                }
                return Err(e);
            },
        }
    }
    proof {
        assert(fsv.subrange(0, fsv.len() as int) =~= fsv);
        assert(preds@.map_values(|p: Pred| p@) =~= preds0 + translate_all(fsv)->Ok_0);
    }
    Ok(LazyPlan { preds, sorts })
}

/// A prefix that translates cleanly followed by a failing clause makes
/// the whole list fail with that clause's error.
proof fn lemma_translate_all_prefix_err(fs: Seq<FilteringV>, i: int)
    requires
        0 <= i < fs.len(),
        translate_all(fs.subrange(0, i)) is Ok,
        translate_clause(fs[i]) is Err,
    ensures
        translate_all(fs) == Err::<Seq<PredV>, crate::filter::FilterErrorV>(
            translate_clause(fs[i])->Err_0,
        ),
    decreases fs.len(),
{
    if fs.len() > i + 1 {
        assert(fs.drop_last().subrange(0, i) =~= fs.subrange(0, i));
        assert(fs.drop_last()[i] == fs[i]);
        lemma_translate_all_prefix_err(fs.drop_last(), i);
    } else {
        assert(fs.drop_last() =~= fs.subrange(0, i));
    }
}

/// Applies a list of sort clauses to a plan. The empty list is a no-op.
/// The clauses become the plan's primary keys, ahead of any keys already
/// present: applying a stable sort to an already sorted plan orders
/// first by the new keys and breaks ties by the old order.
pub fn sort_columns(lf: LazyPlan, sorting_info: Vec<Sorting>) -> (r: LazyPlan)
    ensures
        r@.preds == lf@.preds,
        r@.sorts == sortings_view(sorting_info@) + lf@.sorts,
        sorting_info@.len() == 0 ==> r@.sorts == lf@.sorts,
{
    let ghost sv = sortings_view(sorting_info@);
    let ghost old_sorts = lf@.sorts;
    let mut sorts: Vec<Sorting> = Vec::new();
    let mut i: usize = 0;
    while i < sorting_info.len()
        invariant
            i <= sorting_info@.len(),
            sv == sortings_view(sorting_info@),
            sorts@.len() == i,
            forall|k: int| 0 <= k < i ==> #[trigger] sorts@[k]@ == sv[k],
        decreases sorting_info@.len() - i,
    {
        sorts.push(sorting_info[i].dup());
        i = i + 1;
    }
    let mut rest = lf.sorts;
    let mut j: usize = 0;
    while j < rest.len()
        invariant
            j <= rest@.len(),
            sv == sortings_view(sorting_info@),
            old_sorts == rest@.map_values(|s: Sorting| s@),
            sorts@.len() == sv.len() + j,
            forall|k: int| 0 <= k < sv.len() ==> #[trigger] sorts@[k]@ == sv[k],
            forall|k: int|
                sv.len() <= k < sorts@.len() ==> #[trigger] sorts@[k]@ == old_sorts[k - sv.len()],
        decreases rest@.len() - j,
    {
        sorts.push(rest[j].dup());
        j = j + 1;
    }
    proof {
        assert(sorts@.map_values(|s: Sorting| s@) =~= sv + old_sorts);
        if sv.len() == 0 {
            assert(sv + old_sorts =~= old_sorts);
        }
    }
    LazyPlan { preds: lf.preds, sorts }
}

} // verus!

verus! {

use crate::sort::{
    sort_indices, row_cmp, Ord3, lemma_row_lt_total, lemma_row_lt_irrefl,
    lemma_sorted_perm_identity,
};

/// The index of the first column named `name`, from position `j` on.
pub open spec fn find_col_from(d: Seq<ColumnV>, name: Seq<char>, j: int) -> Option<int>
    decreases d.len() - j,
{
    if j < 0 || j >= d.len() {
        None
    } else if d[j].name == name {
        Some(j)
    } else {
        find_col_from(d, name, j + 1)
    }
}

/// The index of the first column named `name`.
pub open spec fn find_col(d: Seq<ColumnV>, name: Seq<char>) -> Option<int> {
    find_col_from(d, name, 0)
}

/// First-match characterization of `find_col`.
pub proof fn lemma_find_col_props(d: Seq<ColumnV>, name: Seq<char>)
    ensures
        match find_col(d, name) {
            Some(x) => 0 <= x < d.len() && d[x].name == name && forall|k: int|
                0 <= k < x ==> d[k].name != name,
            None => forall|k: int| 0 <= k < d.len() ==> d[k].name != name,
        },
{
    lemma_find_col_from(d, name, 0);
}

/// First-match characterization of `find_col_from`.
proof fn lemma_find_col_from(d: Seq<ColumnV>, name: Seq<char>, j: int)
    requires
        0 <= j <= d.len(),
    ensures
        match find_col_from(d, name, j) {
            Some(x) => j <= x < d.len() && d[x].name == name && forall|k: int|
                j <= k < x ==> d[k].name != name,
            None => forall|k: int| j <= k < d.len() ==> d[k].name != name,
        },
    decreases d.len() - j,
{
    if j < d.len() && d[j].name != name {
        lemma_find_col_from(d, name, j + 1);
    }
}

/// Why a plan could not be executed against a dataset.
#[derive(Debug)]
pub enum MaterializeError {
    ColumnNotFound(String),
    IncompatibleColumn(String),
}

/// The mathematical value of a materialization error.
pub enum MaterializeErrorV {
    ColumnNotFound(Seq<char>),
    IncompatibleColumn(Seq<char>),
}

impl View for MaterializeError {
    type V = MaterializeErrorV;

    open spec fn view(&self) -> MaterializeErrorV {
        match *self {
            MaterializeError::ColumnNotFound(ref s) => MaterializeErrorV::ColumnNotFound(s@),
            MaterializeError::IncompatibleColumn(ref s) => MaterializeErrorV::IncompatibleColumn(
                s@,
            ),
        }
    }
}

/// The user-facing message of a failed materialization.
pub open spec fn materialize_error_str(e: MaterializeErrorV) -> Seq<char> {
    match e {
        MaterializeErrorV::ColumnNotFound(c) => "Column not found: "@ + c,
        MaterializeErrorV::IncompatibleColumn(c) => "Filter or sort is incompatible with column: "@
            + c,
    }
}

impl MaterializeError {
    /// The user-facing message of the failure.
    pub fn message(&self) -> (r: String)
        ensures
            r@ == materialize_error_str(self@),
    {
        match self {
            MaterializeError::ColumnNotFound(c) => {
                let mut r = String::from_str("Column not found: ");
                r.append(c.as_str());
                r
            },
            MaterializeError::IncompatibleColumn(c) => {
                let mut r = String::from_str("Filter or sort is incompatible with column: ");
                r.append(c.as_str());
                r
            },
        }
    }
}

/// Whether a test applies to a column of the given type: numeric tests to
/// numeric columns, timestamp tests to date and datetime columns, boolean
/// equality to boolean columns, text equality to string and dictionary
/// columns, the contains tests to any non-composite column, and the null
/// checks to every column.
pub open spec fn test_ok_for(t: TestV, ct: ColType) -> bool {
    match t {
        TestV::NumCmp(_, _) => spec_is_numeric_type(ct),
        TestV::NumBetween(_, _) => spec_is_numeric_type(ct),
        TestV::TsCmp(_, _) => ct == ColType::Date || ct == ColType::Datetime,
        TestV::TsBetween(_, _) => ct == ColType::Date || ct == ColType::Datetime,
        TestV::BoolEq(_, _) => ct == ColType::Bool,
        TestV::StrEq(_, _) => ct == ColType::Str || spec_is_dict_type(ct),
        TestV::Contains(_) => !(ct == ColType::List || ct == ColType::Array || ct
            == ColType::Struct),
        TestV::ContainsCI(_) => !(ct == ColType::List || ct == ColType::Array || ct
            == ColType::Struct),
        TestV::IsNull => true,
        TestV::IsNotNull => true,
    }
}

/// Decides whether a test applies to a column type.
pub fn test_ok_for_exec(t: &crate::filter::Test, ct: ColType) -> (r: bool)
    ensures
        r == test_ok_for(t@, ct),
{
    match t {
        crate::filter::Test::NumCmp(_, _) => crate::value::is_numeric_type(ct),
        crate::filter::Test::NumBetween(_, _) => crate::value::is_numeric_type(ct),
        crate::filter::Test::TsCmp(_, _) => matches!(ct, ColType::Date | ColType::Datetime),
        crate::filter::Test::TsBetween(_, _) => matches!(ct, ColType::Date | ColType::Datetime),
        crate::filter::Test::BoolEq(_, _) => matches!(ct, ColType::Bool),
        crate::filter::Test::StrEq(_, _) => matches!(
            ct,
            ColType::Str | ColType::Categorical | ColType::Enum
        ),
        crate::filter::Test::Contains(_) => !matches!(
            ct,
            ColType::List | ColType::Array | ColType::Struct
        ),
        crate::filter::Test::ContainsCI(_) => !matches!(
            ct,
            ColType::List | ColType::Array | ColType::Struct
        ),
        crate::filter::Test::IsNull => true,
        crate::filter::Test::IsNotNull => true,
    }
}

/// On a well-formed cell of a compatible column type, every test decides.
pub proof fn lemma_eval_total(t: TestV, c: CellV, ct: ColType, dict: Seq<Seq<char>>)
    requires
        cell_ok(ct, c, dict.len() as int),
        test_ok_for(t, ct),
    ensures
        eval_test(t, c, dict) is Some,
{
}

/// The resolution of one predicate against a dataset: the index of its
/// column, or the error.
pub open spec fn resolve_pred(d: Seq<ColumnV>, p: PredV) -> Result<int, MaterializeErrorV> {
    match find_col(d, p.column) {
        None => Err(MaterializeErrorV::ColumnNotFound(p.column)),
        Some(j) => if test_ok_for(p.test, d[j].ctype) {
            Ok(j)
        } else {
            Err(MaterializeErrorV::IncompatibleColumn(p.column))
        },
    }
}

/// The resolution of a predicate list; the first failure wins.
pub open spec fn resolve_preds(d: Seq<ColumnV>, preds: Seq<PredV>) -> Result<
    Seq<int>,
    MaterializeErrorV,
>
    decreases preds.len(),
{
    if preds.len() == 0 {
        Ok(Seq::empty())
    } else {
        match resolve_preds(d, preds.drop_last()) {
            Ok(ix) => match resolve_pred(d, preds.last()) {
                Ok(j) => Ok(ix.push(j)),
                Err(e) => Err(e),
            },
            Err(e) => Err(e),
        }
    }
}

/// The resolution of one sort clause: its key, or the error.
pub open spec fn resolve_sort(d: Seq<ColumnV>, s: SortingV) -> Result<
    SortKeyV,
    MaterializeErrorV,
> {
    match find_col(d, s.column) {
        None => Err(MaterializeErrorV::ColumnNotFound(s.column)),
        Some(j) => Ok(SortKeyV { col: j, asc: s.ascending }),
    }
}

/// The resolution of a sort clause list; the first failure wins.
pub open spec fn resolve_sorts(d: Seq<ColumnV>, ss: Seq<SortingV>) -> Result<
    Seq<SortKeyV>,
    MaterializeErrorV,
>
    decreases ss.len(),
{
    if ss.len() == 0 {
        Ok(Seq::empty())
    } else {
        match resolve_sorts(d, ss.drop_last()) {
            Ok(ks) => match resolve_sort(d, ss.last()) {
                Ok(k) => Ok(ks.push(k)),
                Err(e) => Err(e),
            },
            Err(e) => Err(e),
        }
    }
}

/// Whether one predicate holds of row `i`.
pub open spec fn pred_true(d: Seq<ColumnV>, p: PredV, i: int) -> bool {
    match find_col(d, p.column) {
        Some(j) => eval_test(p.test, d[j].cells[i], d[j].dict) == Some(true),
        None => false,
    }
}

/// Whether row `i` passes every predicate (their conjunction).
pub open spec fn row_keep(d: Seq<ColumnV>, preds: Seq<PredV>, i: int) -> bool {
    forall|k: int| 0 <= k < preds.len() ==> pred_true(d, #[trigger] preds[k], i)
}

/// The positions of the first `h` rows that pass every predicate, in row
/// order.
pub open spec fn kept_indices(d: Seq<ColumnV>, preds: Seq<PredV>, h: int) -> Seq<usize>
    decreases h,
{
    if h <= 0 {
        Seq::empty()
    } else {
        let rest = kept_indices(d, preds, h - 1);
        if row_keep(d, preds, h - 1) {
            rest.push((h - 1) as usize)
        } else {
            rest
        }
    }
}

/// The column with its cells replaced by the rows listed in `p`, in order.
pub open spec fn reorder_col(c: ColumnV, p: Seq<usize>) -> ColumnV {
    ColumnV {
        name: c.name,
        ctype: c.ctype,
        dict: c.dict,
        cells: Seq::new(p.len(), |k: int| c.cells[p[k] as int]),
    }
}

/// The dataset with every column reordered by `p`.
pub open spec fn reorder(d: Seq<ColumnV>, p: Seq<usize>) -> Seq<ColumnV> {
    Seq::new(d.len(), |j: int| reorder_col(d[j], p))
}

} // verus!

verus! {

use crate::sort::SortKey as SortKeyExec;

/// Resolves every predicate to its column index, checking compatibility.
fn resolve_preds_exec(df: &Dataset, preds: &Vec<Pred>) -> (r: Result<Vec<usize>, MaterializeError>)
    ensures
        match r {
            Ok(ix) => resolve_preds(df@, preds@.map_values(|p: Pred| p@)) is Ok && ix@.len()
                == preds@.len() && forall|k: int|
                0 <= k < ix@.len() ==> resolve_preds(df@, preds@.map_values(|p: Pred| p@))->Ok_0[k]
                    == (#[trigger] ix@[k]) as int,
            Err(e) => resolve_preds(df@, preds@.map_values(|p: Pred| p@)) == Err::<
                Seq<int>,
                MaterializeErrorV,
            >(e@),
        },
{
    let ghost pv = preds@.map_values(|p: Pred| p@);
    let mut ix: Vec<usize> = Vec::new();
    let mut k: usize = 0;
    proof {
        assert(pv.subrange(0, 0) =~= Seq::<PredV>::empty());
    }
    while k < preds.len()
        invariant
            k <= preds@.len(),
            pv == preds@.map_values(|p: Pred| p@),
            resolve_preds(df@, pv.subrange(0, k as int)) is Ok,
            resolve_preds(df@, pv.subrange(0, k as int))->Ok_0.len() == k,
            ix@.len() == k,
            forall|x: int|
                0 <= x < k ==> resolve_preds(df@, pv.subrange(0, k as int))->Ok_0[x] == (
                #[trigger] ix@[x]) as int,
        decreases preds@.len() - k,
    {
        let p = &preds[k];
        proof {
            assert(pv[k as int] == preds@[k as int]@);
            lemma_find_col_from(df@, p.column@, 0);
        }
        let found = df.find_column(p.column.as_str());
        match found {
            None => {
                proof {
                    lemma_resolve_preds_prefix_err(df@, pv, k as int);
                }
                return Err(MaterializeError::ColumnNotFound(p.column.clone()));
            },
            Some(j) => {
                proof {
                    assert(df@[j as int] == df.columns@[j as int]@);
                }
                if !test_ok_for_exec(&p.test, df.columns[j].ctype) {
                    proof {
                        lemma_resolve_preds_prefix_err(df@, pv, k as int);
                    }
                    return Err(MaterializeError::IncompatibleColumn(p.column.clone()));
                }
                ix.push(j);
                proof {
                    assert(pv.subrange(0, k + 1).drop_last() =~= pv.subrange(0, k as int));
                    assert(pv.subrange(0, k + 1).last() == pv[k as int]);
                    assert(find_col(df@, pv[k as int].column) == Some(j as int));
                    assert(test_ok_for(pv[k as int].test, df@[j as int].ctype));
                    assert(resolve_pred(df@, pv[k as int]) == Ok::<int, MaterializeErrorV>(
                        j as int,
                    ));
                    assert(resolve_preds(df@, pv.subrange(0, k + 1))->Ok_0 == resolve_preds(
                        df@,
                        pv.subrange(0, k as int),
                    )->Ok_0.push(j as int));
                }
                k = k + 1;
            },
        }
    }
    proof {
        assert(pv.subrange(0, pv.len() as int) =~= pv);
    }
    Ok(ix)
}

/// A prefix that resolves cleanly followed by a failing predicate makes
/// the whole list fail with that predicate's error.
proof fn lemma_resolve_preds_prefix_err(d: Seq<ColumnV>, ps: Seq<PredV>, i: int)
    requires
        0 <= i < ps.len(),
        resolve_preds(d, ps.subrange(0, i)) is Ok,
        resolve_pred(d, ps[i]) is Err,
    ensures
        resolve_preds(d, ps) == Err::<Seq<int>, MaterializeErrorV>(resolve_pred(d, ps[i])->Err_0),
    decreases ps.len(),
{
    if ps.len() > i + 1 {
        assert(ps.drop_last().subrange(0, i) =~= ps.subrange(0, i));
        assert(ps.drop_last()[i] == ps[i]);
        lemma_resolve_preds_prefix_err(d, ps.drop_last(), i);
    } else {
        assert(ps.drop_last() =~= ps.subrange(0, i));
    }
}

/// Resolves every sort clause to a key on its column index.
fn resolve_sorts_exec(df: &Dataset, sorts: &Vec<Sorting>) -> (r: Result<
    Vec<SortKeyExec>,
    MaterializeError,
>)
    ensures
        match r {
            Ok(ks) => resolve_sorts(df@, sortings_view(sorts@)) is Ok && keys_view(ks@)
                == resolve_sorts(df@, sortings_view(sorts@))->Ok_0,
            Err(e) => resolve_sorts(df@, sortings_view(sorts@)) == Err::<
                Seq<SortKeyV>,
                MaterializeErrorV,
            >(e@),
        },
{
    let ghost sv = sortings_view(sorts@);
    let mut ks: Vec<SortKeyExec> = Vec::new();
    let mut k: usize = 0;
    proof {
        assert(sv.subrange(0, 0) =~= Seq::<SortingV>::empty());
    }
    while k < sorts.len()
        invariant
            k <= sorts@.len(),
            sv == sortings_view(sorts@),
            resolve_sorts(df@, sv.subrange(0, k as int)) is Ok,
            resolve_sorts(df@, sv.subrange(0, k as int))->Ok_0.len() == k,
            ks@.len() == k,
            forall|x: int|
                0 <= x < k ==> resolve_sorts(df@, sv.subrange(0, k as int))->Ok_0[x] == (
                #[trigger] ks@[x])@,
        decreases sorts@.len() - k,
    {
        let s = &sorts[k];
        proof {
            assert(sv[k as int] == sorts@[k as int]@);
            lemma_find_col_from(df@, s.column@, 0);
        }
        match df.find_column(s.column.as_str()) {
            None => {
                proof {
                    lemma_resolve_sorts_prefix_err(df@, sv, k as int);
                }
                return Err(MaterializeError::ColumnNotFound(s.column.clone()));
            },
            Some(j) => {
                ks.push(SortKeyExec { col: j, asc: s.ascending });
                proof {
                    assert(sv.subrange(0, k + 1).drop_last() =~= sv.subrange(0, k as int));
                    assert(sv.subrange(0, k + 1).last() == sv[k as int]);
                    assert(find_col(df@, sv[k as int].column) == Some(j as int));
                    assert(resolve_sort(df@, sv[k as int]) == Ok::<SortKeyV, MaterializeErrorV>(
                        SortKeyV { col: j as int, asc: sv[k as int].ascending },
                    ));
                    assert(resolve_sorts(df@, sv.subrange(0, k + 1))->Ok_0 == resolve_sorts(
                        df@,
                        sv.subrange(0, k as int),
                    )->Ok_0.push(SortKeyV { col: j as int, asc: sv[k as int].ascending }));
                }
                k = k + 1;
            },
        }
    }
    proof {
        assert(sv.subrange(0, sv.len() as int) =~= sv);
        lemma_resolve_sorts_len(df@, sv);
        assert(keys_view(ks@) =~= resolve_sorts(df@, sv)->Ok_0);
    }
    Ok(ks)
}

/// A prefix that resolves cleanly followed by a failing clause makes the
/// whole list fail with that clause's error.
proof fn lemma_resolve_sorts_prefix_err(d: Seq<ColumnV>, ss: Seq<SortingV>, i: int)
    requires
        0 <= i < ss.len(),
        resolve_sorts(d, ss.subrange(0, i)) is Ok,
        resolve_sort(d, ss[i]) is Err,
    ensures
        resolve_sorts(d, ss) == Err::<Seq<SortKeyV>, MaterializeErrorV>(
            resolve_sort(d, ss[i])->Err_0,
        ),
    decreases ss.len(),
{
    if ss.len() > i + 1 {
        assert(ss.drop_last().subrange(0, i) =~= ss.subrange(0, i));
        assert(ss.drop_last()[i] == ss[i]);
        lemma_resolve_sorts_prefix_err(d, ss.drop_last(), i);
    } else {
        assert(ss.drop_last() =~= ss.subrange(0, i));
    }
}

/// Copies the labels of a dictionary.
fn dup_strings(d: &Vec<String>) -> (r: Vec<String>)
    ensures
        r@.len() == d@.len(),
        forall|i: int| 0 <= i < d@.len() ==> #[trigger] r@[i]@ == d@[i]@,
{
    let mut r: Vec<String> = Vec::new();
    let mut i: usize = 0;
    while i < d.len()
        invariant
            i <= d@.len(),
            r@.len() == i,
            forall|x: int| 0 <= x < i ==> #[trigger] r@[x]@ == d@[x]@,
        decreases d@.len() - i,
    {
        r.push(d[i].clone());
        i = i + 1;
    }
    r
}

/// Builds the dataset whose rows are those of `df` at the listed
/// positions, in listed order. Schema and dictionaries are kept.
pub fn take_rows(df: &Dataset, idx: &Vec<usize>) -> (r: Dataset)
    requires
        ds_wf(df@),
        forall|i: int| 0 <= i < idx@.len() ==> (#[trigger] idx@[i]) < ds_rows(df@),
    ensures
        r@ =~~= reorder(df@, idx@),
{
    let w = df.width();
    let mut columns: Vec<Column> = Vec::new();
    let mut j: usize = 0;
    while j < w
        invariant
            j <= w,
            w == df@.len(),
            ds_wf(df@),
            forall|i: int| 0 <= i < idx@.len() ==> (#[trigger] idx@[i]) < ds_rows(df@),
            columns@.len() == j,
            forall|x: int| 0 <= x < j ==> #[trigger] columns@[x]@ =~~= reorder_col(df@[x], idx@),
        decreases w - j,
    {
        let col = &df.columns[j];
        proof {
            assert(df@[j as int] == df.columns@[j as int]@);
            assert(df@[j as int].cells.len() == ds_rows(df@));
        }
        let mut cells: Vec<crate::value::Cell> = Vec::new();
        let mut k: usize = 0;
        while k < idx.len()
            invariant
                k <= idx@.len(),
                ds_wf(df@),
                j < df@.len(),
                col == df.columns@[j as int],
                df@[j as int] == df.columns@[j as int]@,
                df@[j as int].cells.len() == ds_rows(df@),
                forall|i: int| 0 <= i < idx@.len() ==> (#[trigger] idx@[i]) < ds_rows(df@),
                cells@.len() == k,
                forall|x: int|
                    0 <= x < k ==> #[trigger] cells@[x]@ == df@[j as int].cells[idx@[x] as int],
            decreases idx@.len() - k,
        {
            cells.push(col.cells[idx[k]].dup());
            k = k + 1;
        }
        columns.push(
            Column { name: col.name.clone(), ctype: col.ctype, dict: dup_strings(&col.dict), cells },
        );
        proof {
            assert(columns@[j as int]@ =~~= reorder_col(df@[j as int], idx@));
        }
        j = j + 1;
    }
    let r = Dataset { columns };
    proof {
        assert(r@ =~~= reorder(df@, idx@));
    }
    r
}

/// A permutation of the row positions of `d`, strictly sorted by the row
/// order of `keys`.
pub open spec fn sorted_perm(d: Seq<ColumnV>, keys: Seq<SortKeyV>, p: Seq<usize>) -> bool {
    &&& p.len() == ds_rows(d)
    &&& forall|i: int| 0 <= i < p.len() ==> (#[trigger] p[i]) < ds_rows(d)
    &&& forall|x: usize| x < ds_rows(d) ==> p.contains(x)
    &&& forall|i: int, j: int| 0 <= i < j < p.len() ==> row_lt(d, keys, p[i] as int, p[j] as int)
}

/// Sorts a dataset by the given keys: the result is the reordering of the
/// rows by the unique sorted permutation of the row order.
pub fn sort_dataset(df: &Dataset, keys: &Vec<SortKeyExec>) -> (r: Dataset)
    requires
        ds_wf(df@),
        keys_in_range(df@, keys_view(keys@)),
    ensures
        exists|p: Seq<usize>|
            #[trigger] sorted_perm(df@, keys_view(keys@), p) && r@ =~~= reorder(df@, p),
{
    let perm = sort_indices(df, keys);
    let r = take_rows(df, &perm);
    proof {
        assert(sorted_perm(df@, keys_view(keys@), perm@) && r@ =~~= reorder(df@, perm@));
    }
    r
}

/// Executes a plan against a materialized source: keeps the rows that
/// pass every filter, in row order, then sorts them by the plan's keys.
/// A filter or key naming a missing column fails with `ColumnNotFound`;
/// a filter whose test does not apply to its column's type fails with
/// `IncompatibleColumn`; either failure leaves nothing changed.
pub fn materialize(base: &Dataset, plan: &LazyPlan) -> (r: Result<Dataset, MaterializeError>)
    requires
        ds_wf(base@),
    ensures
        match r {
            Ok(out) => {
                &&& resolve_preds(base@, plan@.preds) is Ok
                &&& resolve_sorts(base@, plan@.sorts) is Ok
                &&& exists|p: Seq<usize>|
                    #[trigger] sorted_perm(
                        reorder(base@, kept_indices(base@, plan@.preds, ds_rows(base@) as int)),
                        resolve_sorts(base@, plan@.sorts)->Ok_0,
                        p,
                    ) && out@ =~~= reorder(
                        reorder(base@, kept_indices(base@, plan@.preds, ds_rows(base@) as int)),
                        p,
                    )
            },
            Err(e) => resolve_preds(base@, plan@.preds) == Err::<Seq<int>, MaterializeErrorV>(e@)
                || (resolve_preds(base@, plan@.preds) is Ok && resolve_sorts(base@, plan@.sorts)
                == Err::<Seq<SortKeyV>, MaterializeErrorV>(e@)),
        },
{
    let ix = match resolve_preds_exec(base, &plan.preds) {
        Ok(ix) => ix,
        Err(e) => {
            return Err(e);
        },
    };
    let keys = match resolve_sorts_exec(base, &plan.sorts) {
        Ok(ks) => ks,
        Err(e) => {
            return Err(e);
        },
    };
    let h = base.height();
    let ghost pv = plan@.preds;
    let mut kept: Vec<usize> = Vec::new();
    let mut i: usize = 0;
    while i < h
        invariant
            i <= h,
            ds_wf(base@),
            h == ds_rows(base@),
            pv == plan@.preds,
            resolve_preds(base@, pv) is Ok,
            ix@.len() == pv.len(),
            forall|k: int|
                0 <= k < ix@.len() ==> resolve_preds(base@, pv)->Ok_0[k] == (#[trigger] ix@[k]) as int,
            kept@ == kept_indices(base@, pv, i as int),
            forall|x: int| 0 <= x < kept@.len() ==> (#[trigger] kept@[x]) < h,
        decreases h - i,
    {
        let mut pass = true;
        let mut k: usize = 0;
        while k < plan.preds.len()
            invariant
                k <= pv.len(),
                ds_wf(base@),
                h == ds_rows(base@),
                i < h,
                pv == plan@.preds,
                resolve_preds(base@, pv) is Ok,
                ix@.len() == pv.len(),
                forall|x: int|
                    0 <= x < ix@.len() ==> resolve_preds(base@, pv)->Ok_0[x] == (
                    #[trigger] ix@[x]) as int,
                pass == forall|x: int| 0 <= x < k ==> pred_true(base@, #[trigger] pv[x], i as int),
            decreases pv.len() - k,
        {
            if pass {
                let j = ix[k];
                proof {
                    lemma_resolve_preds_ok_at(base@, pv, k as int);
                    assert(base@[j as int] == base.columns@[j as int]@);
                    assert(base@[j as int].cells.len() == ds_rows(base@));
                    lemma_eval_total(
                        pv[k as int].test,
                        base@[j as int].cells[i as int],
                        base@[j as int].ctype,
                        base@[j as int].dict,
                    );
                    assert(pv[k as int] == plan.preds@[k as int]@);
                }
                let col = &base.columns[j];
                match eval_test_cell(&plan.preds[k].test, &col.cells[i], &col.dict) {
                    Ok(b) => {
                        pass = b && pass;
                    },
                    Err(_) => {
                        proof {
                            assert(false);
                        }
                    },
                }
            }
            k = k + 1;
        }
        if pass {
            kept.push(i);
        }
        proof {
            assert(kept@ =~= kept_indices(base@, pv, i + 1));
        }
        i = i + 1;
    }
    let mid = take_rows(base, &kept);
    proof {
        lemma_reorder_wf(base@, kept@);
        assert(ds_wf(mid@));
        lemma_resolve_sorts_len(base@, plan@.sorts);
        assert forall|k: int| 0 <= k < keys_view(keys@).len() implies 0 <= (#[trigger] keys_view(
            keys@,
        )[k]).col < mid@.len() by {
            lemma_resolve_sorts_ok_at(base@, plan@.sorts, k);
        }
        assert(keys_in_range(mid@, keys_view(keys@)));
    }
    let out = sort_dataset(&mid, &keys);
    Ok(out)
}

/// Each position of a cleanly resolved predicate list names its
/// predicate's column and passes the compatibility check.
proof fn lemma_resolve_preds_ok_at(d: Seq<ColumnV>, ps: Seq<PredV>, k: int)
    requires
        resolve_preds(d, ps) is Ok,
        0 <= k < ps.len(),
    ensures
        resolve_preds(d, ps)->Ok_0.len() == ps.len(),
        resolve_pred(d, ps[k]) is Ok,
        resolve_preds(d, ps)->Ok_0[k] == resolve_pred(d, ps[k])->Ok_0,
        find_col(d, ps[k].column) == Some(resolve_pred(d, ps[k])->Ok_0),
        0 <= resolve_pred(d, ps[k])->Ok_0 < d.len(),
        test_ok_for(ps[k].test, d[resolve_pred(d, ps[k])->Ok_0].ctype),
    decreases ps.len(),
{
    lemma_find_col_from(d, ps[k].column, 0);
    if k < ps.len() - 1 {
        assert(ps.drop_last()[k] == ps[k]);
        lemma_resolve_preds_ok_at(d, ps.drop_last(), k);
    } else {
        if ps.len() > 1 {
            lemma_resolve_preds_ok_at(d, ps.drop_last(), 0);
        }
    }
}

/// A cleanly resolved sort list has one key per clause.
proof fn lemma_resolve_sorts_len(d: Seq<ColumnV>, ss: Seq<SortingV>)
    requires
        resolve_sorts(d, ss) is Ok,
    ensures
        resolve_sorts(d, ss)->Ok_0.len() == ss.len(),
    decreases ss.len(),
{
    if ss.len() > 0 {
        lemma_resolve_sorts_len(d, ss.drop_last());
    }
}

/// Each key of a cleanly resolved sort list names a column.
proof fn lemma_resolve_sorts_ok_at(d: Seq<ColumnV>, ss: Seq<SortingV>, k: int)
    requires
        resolve_sorts(d, ss) is Ok,
        0 <= k < ss.len(),
    ensures
        resolve_sorts(d, ss)->Ok_0.len() == ss.len(),
        0 <= resolve_sorts(d, ss)->Ok_0[k].col < d.len(),
    decreases ss.len(),
{
    lemma_resolve_sorts_len(d, ss);
    lemma_find_col_from(d, ss.last().column, 0);
    if k < ss.len() - 1 {
        lemma_resolve_sorts_ok_at(d, ss.drop_last(), k);
    } else {
        lemma_resolve_sorts_len(d, ss.drop_last());
    }
}

/// Reordering keeps a dataset well-formed when every listed position is a
/// row.
pub proof fn lemma_reorder_wf(d: Seq<ColumnV>, p: Seq<usize>)
    requires
        ds_wf(d),
        forall|i: int| 0 <= i < p.len() ==> (#[trigger] p[i]) < ds_rows(d),
    ensures
        ds_wf(reorder(d, p)),
        d.len() > 0 ==> ds_rows(reorder(d, p)) == p.len(),
{
    let r = reorder(d, p);
    assert forall|j: int| 0 <= j < r.len() implies crate::dataset::col_wf(#[trigger] r[j])
        && r[j].cells.len() == ds_rows(r) by {
        assert(r[j] == reorder_col(d[j], p));
        assert forall|i: int|
            0 <= i < r[j].cells.len() implies cell_ok(
            r[j].ctype,
            #[trigger] r[j].cells[i],
            r[j].dict.len() as int,
        ) by {
            assert(r[j].cells[i] == d[j].cells[p[i] as int]);
            assert(cell_ok(d[j].ctype, d[j].cells[p[i] as int], d[j].dict.len() as int));
        }
        if r.len() > 0 {
            assert(r[0] == reorder_col(d[0], p));
        }
    }
}

} // verus!

verus! {

/// Filtering never keeps more rows than the source has: the selection of
/// the first `h` rows has at most `h` positions.
pub proof fn lemma_filtered_count_le(d: Seq<ColumnV>, preds: Seq<PredV>, h: int)
    ensures
        kept_indices(d, preds, h).len() <= if h < 0 {
            0
        } else {
            h
        },
    decreases h,
{
    if h > 0 {
        lemma_filtered_count_le(d, preds, h - 1);
    }
}

/// Filtering is monotonic: intersecting one more clause never enlarges
/// the selection — every row kept under the longer clause list is kept
/// under the shorter one, so the count never increases.
pub proof fn lemma_filter_monotonic(d: Seq<ColumnV>, preds: Seq<PredV>, q: PredV, h: int)
    ensures
        kept_indices(d, preds.push(q), h).len() <= kept_indices(d, preds, h).len(),
    decreases h,
{
    if h > 0 {
        lemma_filter_monotonic(d, preds, q, h - 1);
        if row_keep(d, preds.push(q), h - 1) {
            assert forall|k: int| 0 <= k < preds.len() implies pred_true(
                d,
                #[trigger] preds[k],
                h - 1,
            ) by {
                assert(preds.push(q)[k] == preds[k]);
                assert(pred_true(d, preds.push(q)[k], h - 1));
            }
            assert(row_keep(d, preds, h - 1));
        }
    }
}

/// The row comparison reads only key cells, so on a reordered dataset it
/// compares the relocated rows.
proof fn lemma_row_cmp_reorder(
    d: Seq<ColumnV>,
    keys: Seq<SortKeyV>,
    p: Seq<usize>,
    a: int,
    b: int,
)
    requires
        keys_in_range(d, keys),
        0 <= a < p.len(),
        0 <= b < p.len(),
    ensures
        row_cmp(reorder(d, p), keys, a, b) == row_cmp(d, keys, p[a] as int, p[b] as int),
    decreases keys.len(),
{
    if keys.len() > 0 {
        let k = keys.first();
        assert(reorder(d, p)[k.col] == reorder_col(d[k.col], p));
        assert(reorder(d, p)[k.col].cells[a] == d[k.col].cells[p[a] as int]);
        assert(reorder(d, p)[k.col].cells[b] == d[k.col].cells[p[b] as int]);
        assert(keys_in_range(d, keys.drop_first())) by {
            assert(forall|x: int|
                0 <= x < keys.drop_first().len() ==> keys.drop_first()[x] == keys[x + 1]);
        }
        lemma_row_cmp_reorder(d, keys.drop_first(), p, a, b);
    }
}

/// Sorting is idempotent: a dataset already in sorted order sorts to
/// itself. If `p1` is the sorted permutation of `d` and `p2` the sorted
/// permutation of the sorted dataset, then applying `p2` changes nothing.
pub proof fn lemma_sort_idempotent(
    d: Seq<ColumnV>,
    keys: Seq<SortKeyV>,
    p1: Seq<usize>,
    p2: Seq<usize>,
)
    requires
        ds_wf(d),
        ds_rows(d) <= usize::MAX,
        keys_in_range(d, keys),
        sorted_perm(d, keys, p1),
        sorted_perm(reorder(d, p1), keys, p2),
    ensures
        reorder(reorder(d, p1), p2) =~~= reorder(d, p1),
{
    let d2 = reorder(d, p1);
    lemma_reorder_wf(d, p1);
    assert forall|a: int, b: int| 0 <= a < b < ds_rows(d2) implies row_lt(d2, keys, a, b) by {
        lemma_row_cmp_reorder(d, keys, p1, a, b);
        assert(row_lt(d, keys, p1[a] as int, p1[b] as int));
    }
    lemma_sorted_perm_identity(d2, keys, p2, ds_rows(d2), 0);
    assert forall|j: int| 0 <= j < d2.len() implies reorder(d2, p2)[j] =~~= d2[j] by {
        assert(reorder(d2, p2)[j] == reorder_col(d2[j], p2));
        assert(d2[j].cells.len() == ds_rows(d2));
        assert(forall|k: int| 0 <= k < p2.len() ==> p2[k] == k);
        assert(reorder_col(d2[j], p2).cells =~= d2[j].cells);
    }
}

} // verus!
