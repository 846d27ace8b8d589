//! The materialization cache and the request engine around it: a single
//! mutable slot keyed by (source identity, sort spec, query presence) that
//! memoizes the most recent materialized dataset. A request whose key
//! matches the slot reads the stored dataset without re-materializing; a
//! request with any other key materializes, stores the result, and evicts
//! the previous entry. A failed materialization leaves the slot intact.

use vstd::prelude::*;

verus! {

use crate::dataset::{
    Dataset, ColumnV, ds_rows, ds_wf, DataFrameInfo, MetadataInfo, process_dataframe, rows_window,
    window_len, dataset_to_tsv, tsv_of,
};
use crate::filter::{Filtering, FilterError, translate_all, PredV};
use crate::sort::{Sorting, SortingV};
use crate::plan::{
    LazyPlan, LazyPlanV, MaterializeError, materialize, filter_columns, sort_columns,
    filterings_view, sortings_view, resolve_preds, resolve_sorts, kept_indices, reorder,
    sorted_perm, lemma_filtered_count_le, lemma_reorder_wf,
};
use crate::strutil::str_eq;

/// The identity of a cached materialization: the source (a file path or
/// query text), the sort clauses applied, and whether the entry came from
/// a query. A query-backed entry never matches a file request and the
/// other way round.
pub struct CacheKey {
    pub source_id: String,
    pub sort: Option<Vec<Sorting>>,
    pub query: Option<String>,
}

/// The mathematical value of a cache key.
#[verifier::ext_equal]
pub struct CacheKeyV {
    pub source_id: Seq<char>,
    pub sort: Option<Seq<SortingV>>,
    pub query: Option<Seq<char>>,
}

impl View for CacheKey {
    type V = CacheKeyV;

    open spec fn view(&self) -> CacheKeyV {
        CacheKeyV {
            source_id: self.source_id@,
            sort: match self.sort {
                Some(ref ss) => Some(sortings_view(ss@)),
                None => None,
            },
            query: match self.query {
                Some(ref q) => Some(q@),
                None => None,
            },
        }
    }
}

/// Compares two sort clauses.
fn sorting_eq(a: &Sorting, b: &Sorting) -> (r: bool)
    ensures
        r == (a@ == b@),
{
    let c = str_eq(a.column.as_str(), b.column.as_str());
    c && a.ascending == b.ascending
}

/// Compares two sort clause lists.
fn sortings_eq(a: &Vec<Sorting>, b: &Vec<Sorting>) -> (r: bool)
    ensures
        r == (sortings_view(a@) == sortings_view(b@)),
{
    if a.len() != b.len() {
        proof {
            assert(sortings_view(a@).len() == a@.len());
            assert(sortings_view(b@).len() == b@.len());
        }
        return false;
    }
    let mut i: usize = 0;
    while i < a.len()
        invariant
            i <= a@.len(),
            a@.len() == b@.len(),
            forall|j: int| 0 <= j < i ==> a@[j]@ == b@[j]@,
        decreases a@.len() - i,
    {
        if !sorting_eq(&a[i], &b[i]) {
            proof {
                assert(sortings_view(a@)[i as int] == a@[i as int]@);
                assert(sortings_view(b@)[i as int] == b@[i as int]@);
            }
            return false;
        }
        i = i + 1;
    }
    proof {
        assert(sortings_view(a@) =~= sortings_view(b@));
    }
    true
}

/// Compares two cache keys: source identity, sort spec, and query
/// presence and text must all match exactly.
pub fn key_matches(a: &CacheKey, b: &CacheKey) -> (r: bool)
    ensures
        r == (a@ == b@),
{
    if !str_eq(a.source_id.as_str(), b.source_id.as_str()) {
        return false;
    }
    let sort_same = match (&a.sort, &b.sort) {
        (None, None) => true,
        (Some(x), Some(y)) => sortings_eq(x, y),
        _ => false,
    };
    if !sort_same {
        return false;
    }
    let query_same = match (&a.query, &b.query) {
        (None, None) => true,
        (Some(x), Some(y)) => str_eq(x.as_str(), y.as_str()),
        _ => false,
    };
    if !query_same {
        return false;
    }
    proof {
        assert(a@ =~= b@);
    }
    true
}

/// One cache entry: the key it was materialized under and the dataset.
pub struct CacheEntry {
    pub key: CacheKey,
    pub data: Dataset,
}

/// The engine: the single cache slot and a counter of materializations,
/// observable by callers and tests.
pub struct Engine {
    pub slot: Option<CacheEntry>,
    pub materializations: u64,
}

/// Whether a request with key `k` hits the engine's current slot.
pub open spec fn hit(e: Engine, k: CacheKeyV) -> bool {
    match e.slot {
        Some(en) => en.key@ == k,
        None => false,
    }
}

/// What a successful materialization leaves in the slot: the plan's
/// filters keep a subset of the source rows in order, and the plan's
/// keys sort them.
pub open spec fn materialization_ok(base: Seq<ColumnV>, plan: LazyPlanV, out: Seq<ColumnV>) -> bool {
    &&& resolve_preds(base, plan.preds) is Ok
    &&& resolve_sorts(base, plan.sorts) is Ok
    &&& exists|p: Seq<usize>|
        #[trigger] sorted_perm(
            reorder(base, kept_indices(base, plan.preds, ds_rows(base) as int)),
            resolve_sorts(base, plan.sorts)->Ok_0,
            p,
        ) && out =~~= reorder(
            reorder(base, kept_indices(base, plan.preds, ds_rows(base) as int)),
            p,
        )
}

/// A materialized result never has more rows than its source: filtering
/// keeps a subset and sorting only reorders.
pub proof fn lemma_materialized_rows_le(base: Seq<ColumnV>, plan: LazyPlanV, out: Seq<ColumnV>)
    requires
        ds_wf(base),
        ds_rows(base) <= usize::MAX,
        materialization_ok(base, plan, out),
    ensures
        ds_rows(out) <= ds_rows(base),
{
    let kept = kept_indices(base, plan.preds, ds_rows(base) as int);
    lemma_filtered_count_le(base, plan.preds, ds_rows(base) as int);
    lemma_kept_in_range(base, plan.preds, ds_rows(base) as int);
    let mid = reorder(base, kept);
    lemma_reorder_wf(base, kept);
    let p = choose|p: Seq<usize>|
        #[trigger] sorted_perm(mid, resolve_sorts(base, plan.sorts)->Ok_0, p) && out =~~= reorder(
            mid,
            p,
        );
    if base.len() > 0 {
        assert(ds_rows(mid) == kept.len());
        assert(p.len() == ds_rows(mid));
        assert(ds_rows(out) == reorder(mid, p)[0].cells.len());
    }
}

/// Every kept row position is a row of the source.
pub proof fn lemma_kept_in_range(d: Seq<ColumnV>, preds: Seq<PredV>, h: int)
    requires
        h <= usize::MAX + 1,
    ensures
        forall|i: int|
            0 <= i < kept_indices(d, preds, h).len() ==> (#[trigger] kept_indices(d, preds, h)[i])
                < h,
    decreases h,
{
    if h > 0 {
        lemma_kept_in_range(d, preds, h - 1);
        let rest = kept_indices(d, preds, h - 1);
        let cur = kept_indices(d, preds, h);
        if crate::plan::row_keep(d, preds, h - 1) {
            assert(cur == rest.push((h - 1) as usize));
            assert(forall|i: int|
                0 <= i < cur.len() ==> #[trigger] cur[i] == if i < rest.len() {
                    rest[i]
                } else {
                    (h - 1) as usize
                });
        } else {
            assert(cur == rest);
        }
    }
}

impl Engine {
    /// A fresh engine: empty slot, zero materializations.
    pub fn new() -> (r: Engine)
        ensures
            r.slot is None,
            r.materializations == 0,
    {
        Engine { slot: None, materializations: 0 }
    }

    /// Serves a request under `key`: on a hit the stored dataset answers
    /// and nothing changes — in particular the materialization counter,
    /// so two consecutive requests with one key materialize exactly once
    /// and read the same data. On a miss the plan is executed against the
    /// source, the result replaces the slot (evicting the old entry), and
    /// the counter advances. A failed materialization changes nothing:
    /// the previous entry stays intact.
    pub fn get_or_materialize(&mut self, key: CacheKey, base: &Dataset, plan: &LazyPlan) -> (r:
        Result<(), MaterializeError>)
        requires
            ds_wf(base@),
        ensures
            hit(*old(self), key@) ==> r is Ok && *final(self) == *old(self),
            !hit(*old(self), key@) ==> match r {
                Ok(_) => {
                    &&& final(self).slot matches Some(en) && en.key@ == key@
                        && materialization_ok(base@, plan@, en.data@) && ds_wf(en.data@)
                    &&& final(self).materializations == if old(self).materializations
                        < u64::MAX {
                        old(self).materializations + 1
                    } else {
                        old(self).materializations as int
                    }
                },
                Err(e) => *final(self) == *old(self) && (resolve_preds(base@, plan@.preds)
                    == Err::<Seq<int>, MaterializeErrorV>(e@) || (resolve_preds(
                    base@,
                    plan@.preds,
                ) is Ok && resolve_sorts(base@, plan@.sorts) == Err::<
                    Seq<crate::sort::SortKeyV>,
                    MaterializeErrorV,
                >(e@))),
            },
            r is Ok ==> hit(*final(self), key@),
    {
        let is_hit = match &self.slot {
            Some(en) => key_matches(&en.key, &key),
            None => false,
        };
        if is_hit {
            return Ok(());
        }
        let bh = base.height();
        match materialize(base, plan) {
            Ok(data) => {
                proof {
                    assert(materialization_ok(base@, plan@, data@));
                    lemma_mat_wf(base@, plan@, data@);
                }
                self.slot = Some(CacheEntry { key, data });
                if self.materializations < u64::MAX {
                    self.materializations = self.materializations + 1;
                }
                Ok(())
            },
            Err(e) => Err(e),
        }
    }

    /// The tab-separated text of the cached dataset, when one is present.
    pub fn copy_full_table(&self) -> (r: Option<String>)
        ensures
            match r {
                Some(s) => self.slot matches Some(en) && ds_wf(en.data@) && s@ == tsv_of(en.data@),
                None => self.slot is None || (self.slot matches Some(en) && !ds_wf(en.data@)),
            },
    {
        match &self.slot {
            Some(en) => {
                if crate::dataset::check_well_formed(&en.data) {
                    Some(dataset_to_tsv(&en.data))
                } else {
                    None
                }
            },
            None => None,
        }
    }
}

/// A materialized result is well-formed.
proof fn lemma_mat_wf(base: Seq<ColumnV>, plan: LazyPlanV, out: Seq<ColumnV>)
    requires
        ds_wf(base),
        ds_rows(base) <= usize::MAX,
        materialization_ok(base, plan, out),
    ensures
        ds_wf(out),
{
    let kept = kept_indices(base, plan.preds, ds_rows(base) as int);
    lemma_filtered_count_le(base, plan.preds, ds_rows(base) as int);
    lemma_kept_in_range(base, plan.preds, ds_rows(base) as int);
    let mid = reorder(base, kept);
    lemma_reorder_wf(base, kept);
    let p = choose|p: Seq<usize>|
        #[trigger] sorted_perm(mid, resolve_sorts(base, plan.sorts)->Ok_0, p) && out =~~= reorder(
            mid,
            p,
        );
    lemma_reorder_wf(mid, p);
}

} // verus!

verus! {

use crate::filter::FilterErrorV;
use crate::plan::MaterializeErrorV;
use crate::fmt::cell_display;
use crate::dataset::dtype_str;

/// A request failure: a malformed filter clause, or a plan that could not
/// be executed.
#[derive(Debug)]
pub enum EngineError {
    Filter(FilterError),
    Materialize(MaterializeError),
}

/// The mathematical value of a request failure.
pub enum EngineErrorV {
    Filter(FilterErrorV),
    Materialize(MaterializeErrorV),
}

impl View for EngineError {
    type V = EngineErrorV;

    open spec fn view(&self) -> EngineErrorV {
        match *self {
            EngineError::Filter(ref e) => EngineErrorV::Filter(e@),
            EngineError::Materialize(ref e) => EngineErrorV::Materialize(e@),
        }
    }
}

/// The user-facing message of a failed request: the failing stage, then
/// the stage's own message.
pub open spec fn engine_error_str(e: EngineErrorV) -> Seq<char> {
    match e {
        EngineErrorV::Filter(f) => "Failed to filter DataFrame: "@
            + crate::filter::filter_error_str(f),
        EngineErrorV::Materialize(m) => "Failed to process DataFrame: "@
            + crate::plan::materialize_error_str(m),
    }
}

impl EngineError {
    /// The user-facing message of the failure, naming the failing stage.
    pub fn message(&self) -> (r: String)
        ensures
            r@ == engine_error_str(self@),
    {
        match self {
            EngineError::Filter(e) => {
                let m = e.message();
                let mut r = String::from_str("Failed to filter DataFrame: ");
                r.append(m.as_str());
                proof {
                    reveal_strlit("Failed to filter DataFrame: ");
                }
                r
            },
            EngineError::Materialize(e) => {
                let m = e.message();
                let mut r = String::from_str("Failed to process DataFrame: ");
                r.append(m.as_str());
                proof {
                    reveal_strlit("Failed to process DataFrame: ");
                }
                r
            },
        }
    }
}

/// Every cached dataset is well-formed.
pub open spec fn engine_wf(e: Engine) -> bool {
    match e.slot {
        Some(en) => ds_wf(en.data@),
        None => true,
    }
}

/// The cache key of a file-backed request.
pub open spec fn file_key(sid: Seq<char>, sort: Option<Seq<SortingV>>) -> CacheKeyV {
    CacheKeyV { source_id: sid, sort, query: None }
}

/// The views of an optional sort spec.
pub open spec fn opt_sortings_view(s: Option<Vec<Sorting>>) -> Option<Seq<SortingV>> {
    match s {
        Some(ss) => Some(sortings_view(ss@)),
        None => None,
    }
}

/// The views of an optional filter spec.
pub open spec fn opt_filterings_view(f: Option<Vec<Filtering>>) -> Seq<crate::filter::FilteringV> {
    match f {
        Some(fs) => filterings_view(fs@),
        None => Seq::empty(),
    }
}

/// The plan a request denotes: the translated filters, then the sort
/// clauses as keys.
pub open spec fn request_plan(
    f: Option<Vec<Filtering>>,
    s: Option<Vec<Sorting>>,
) -> LazyPlanV {
    LazyPlanV {
        preds: translate_all(opt_filterings_view(f))->Ok_0,
        sorts: match s {
            Some(ss) => sortings_view(ss@),
            None => Seq::empty(),
        },
    }
}

/// Copies a sort clause list.
fn dup_sortings(ss: &Vec<Sorting>) -> (r: Vec<Sorting>)
    ensures
        sortings_view(r@) == sortings_view(ss@),
{
    let mut r: Vec<Sorting> = Vec::new();
    let mut i: usize = 0;
    while i < ss.len()
        invariant
            i <= ss@.len(),
            r@.len() == i,
            forall|j: int| 0 <= j < i ==> #[trigger] r@[j]@ == ss@[j]@,
        decreases ss@.len() - i,
    {
        r.push(ss[i].dup());
        i = i + 1;
    }
    proof {
        assert(sortings_view(r@) =~= sortings_view(ss@));
    }
    r
}

impl Engine {
    /// Serves a data request: translates the filters (rejecting a
    /// malformed clause before anything else happens), keys the cache by
    /// (source, sort), materializes on a miss, and builds the displayed
    /// summary from the cached dataset — its schema and its first `head`
    /// rows as strings. The reported shape is the unfiltered source's.
    pub fn get_data(
        &mut self,
        source_id: &str,
        base: &Dataset,
        sorting: Option<Vec<Sorting>>,
        filtering: Option<Vec<Filtering>>,
        head: usize,
        metadata: Option<MetadataInfo>,
    ) -> (r: Result<DataFrameInfo, EngineError>)
        requires
            ds_wf(base@),
            engine_wf(*old(self)),
        ensures
            engine_wf(*final(self)),
            match r {
                Ok(info) => {
                    &&& translate_all(opt_filterings_view(filtering)) is Ok
                    &&& hit(*final(self), file_key(source_id@, opt_sortings_view(sorting)))
                    &&& (hit(*old(self), file_key(source_id@, opt_sortings_view(sorting)))
                        ==> *final(self) == *old(self))
                    &&& (!hit(*old(self), file_key(source_id@, opt_sortings_view(sorting)))
                        ==> (final(self).slot matches Some(en) && materialization_ok(
                        base@,
                        request_plan(filtering, sorting),
                        en.data@,
                    ) && ds_rows(en.data@) <= ds_rows(base@)) && final(self).materializations
                        == if old(self).materializations < u64::MAX {
                        old(self).materializations + 1
                    } else {
                        old(self).materializations as int
                    })
                    &&& info.shape.0 == ds_rows(base@)
                    &&& info.shape.1 == base@.len()
                    &&& (final(self).slot matches Some(en) && {
                        let d = en.data@;
                        &&& info.columns@.len() == d.len()
                        &&& (forall|j: int|
                            0 <= j < d.len() ==> (#[trigger] info.columns@[j]).name@ == d[j].name
                                && info.columns@[j].dtype@ == dtype_str(d[j].ctype))
                        &&& info.rows@.len() == window_len(ds_rows(d), 0, head as nat)
                        &&& (forall|k: int|
                            0 <= k < info.rows@.len() ==> #[trigger] info.rows@[k]@.len()
                                == d.len())
                        &&& (forall|k: int, j: int|
                            0 <= k < info.rows@.len() && 0 <= j < d.len()
                                ==> info.rows@[k]@[j]@ == cell_display(d[j].cells[k], d[j].dict))
                        &&& info.metadata == metadata
                    })
                },
                Err(EngineError::Filter(e)) => translate_all(opt_filterings_view(filtering))
                    == Err::<Seq<PredV>, FilterErrorV>(e@) && *final(self) == *old(self),
                Err(EngineError::Materialize(e)) => !hit(
                    *old(self),
                    file_key(source_id@, opt_sortings_view(sorting)),
                ) && *final(self) == *old(self) && (resolve_preds(
                    base@,
                    request_plan(filtering, sorting).preds,
                ) == Err::<Seq<int>, MaterializeErrorV>(e@) || (resolve_preds(
                    base@,
                    request_plan(filtering, sorting).preds,
                ) is Ok && resolve_sorts(base@, request_plan(filtering, sorting).sorts) == Err::<
                    Seq<crate::sort::SortKeyV>,
                    MaterializeErrorV,
                >(e@))),
            },
    {
        let plan0 = LazyPlan::new();
        let plan1 = match &filtering {
            Some(fs) => {
                let fs2 = dup_filterings(fs);
                match filter_columns(plan0, fs2) {
                    Ok(p) => p,
                    Err(e) => {
                        return Err(EngineError::Filter(e));
                    },
                }
            },
            None => plan0,
        };
        let (key_sort, plan_sort): (Option<Vec<Sorting>>, Vec<Sorting>) = match &sorting {
            Some(ss) => (Some(dup_sortings(ss)), dup_sortings(ss)),
            None => (None, Vec::new()),
        };
        let plan = sort_columns(plan1, plan_sort);
        proof {
            assert(plan@.preds =~= request_plan(filtering, sorting).preds);
            assert(plan@.sorts =~= request_plan(filtering, sorting).sorts);
        }
        let key = CacheKey {
            source_id: String::from_str(source_id),
            sort: key_sort,
            query: None,
        };
        proof {
            assert(key@ =~= file_key(source_id@, opt_sortings_view(sorting)));
        }
        let bh = base.height();
        let bw = base.width();
        match self.get_or_materialize(key, base, &plan) {
            Ok(_) => (),
            Err(e) => {
                return Err(EngineError::Materialize(e));
            },
        }
        match &self.slot {
            Some(en) => {
                proof {
                    assert(plan@ == request_plan(filtering, sorting));
                    if !hit(*old(self), file_key(source_id@, opt_sortings_view(sorting))) {
                        lemma_materialized_rows_le(
                            base@,
                            request_plan(filtering, sorting),
                            en.data@,
                        );
                    }
                }
                let mut info = process_dataframe(&en.data, head, metadata);
                info.shape = (bh, bw);
                Ok(info)
            },
            None => {
                proof {
                    assert(false);
                }
                Err(EngineError::Materialize(MaterializeError::ColumnNotFound(String::new())))
            },
        }
    }

    /// Serves a pagination request beyond the initial page: the same key
    /// as the initiating data request (source and sort), so a matching
    /// request reads the cached dataset without re-materializing, and any
    /// other recomputes. Returns the display rows of the window of
    /// `limit` rows from `offset`.
    pub fn get_more_rows(
        &mut self,
        source_id: &str,
        base: &Dataset,
        offset: usize,
        limit: usize,
        sorting: Option<Vec<Sorting>>,
        filtering: Option<Vec<Filtering>>,
    ) -> (r: Result<Vec<Vec<String>>, EngineError>)
        requires
            ds_wf(base@),
            engine_wf(*old(self)),
        ensures
            engine_wf(*final(self)),
            match r {
                Ok(rows) => {
                    &&& translate_all(opt_filterings_view(filtering)) is Ok
                    &&& hit(*final(self), file_key(source_id@, opt_sortings_view(sorting)))
                    &&& (hit(*old(self), file_key(source_id@, opt_sortings_view(sorting)))
                        ==> *final(self) == *old(self))
                    &&& (!hit(*old(self), file_key(source_id@, opt_sortings_view(sorting)))
                        ==> (final(self).slot matches Some(en) && materialization_ok(
                        base@,
                        request_plan(filtering, sorting),
                        en.data@,
                    ) && ds_rows(en.data@) <= ds_rows(base@)))
                    &&& (final(self).slot matches Some(en) && {
                        let d = en.data@;
                        &&& rows@.len() == window_len(ds_rows(d), offset as nat, limit as nat)
                        &&& (forall|k: int|
                            0 <= k < rows@.len() ==> #[trigger] rows@[k]@.len() == d.len())
                        &&& (forall|k: int, j: int|
                            0 <= k < rows@.len() && 0 <= j < d.len() ==> rows@[k]@[j]@
                                == cell_display(d[j].cells[offset + k], d[j].dict))
                    })
                },
                Err(EngineError::Filter(e)) => translate_all(opt_filterings_view(filtering))
                    == Err::<Seq<PredV>, FilterErrorV>(e@) && *final(self) == *old(self),
                Err(EngineError::Materialize(e)) => !hit(
                    *old(self),
                    file_key(source_id@, opt_sortings_view(sorting)),
                ) && *final(self) == *old(self) && (resolve_preds(
                    base@,
                    request_plan(filtering, sorting).preds,
                ) == Err::<Seq<int>, MaterializeErrorV>(e@) || (resolve_preds(
                    base@,
                    request_plan(filtering, sorting).preds,
                ) is Ok && resolve_sorts(base@, request_plan(filtering, sorting).sorts) == Err::<
                    Seq<crate::sort::SortKeyV>,
                    MaterializeErrorV,
                >(e@))),
            },
    {
        let plan0 = LazyPlan::new();
        let plan1 = match &filtering {
            Some(fs) => {
                let fs2 = dup_filterings(fs);
                match filter_columns(plan0, fs2) {
                    Ok(p) => p,
                    Err(e) => {
                        return Err(EngineError::Filter(e));
                    },
                }
            },
            None => plan0,
        };
        let (key_sort, plan_sort): (Option<Vec<Sorting>>, Vec<Sorting>) = match &sorting {
            Some(ss) => (Some(dup_sortings(ss)), dup_sortings(ss)),
            None => (None, Vec::new()),
        };
        let plan = sort_columns(plan1, plan_sort);
        proof {
            assert(plan@.preds =~= request_plan(filtering, sorting).preds);
            assert(plan@.sorts =~= request_plan(filtering, sorting).sorts);
        }
        let key = CacheKey {
            source_id: String::from_str(source_id),
            sort: key_sort,
            query: None,
        };
        proof {
            assert(key@ =~= file_key(source_id@, opt_sortings_view(sorting)));
        }
        let _rows = base.height();
        match self.get_or_materialize(key, base, &plan) {
            Ok(_) => (),
            Err(e) => {
                return Err(EngineError::Materialize(e));
            },
        }
        match &self.slot {
            Some(en) => {
                proof {
                    assert(plan@ == request_plan(filtering, sorting));
                    if !hit(*old(self), file_key(source_id@, opt_sortings_view(sorting))) {
                        lemma_materialized_rows_le(
                            base@,
                            request_plan(filtering, sorting),
                            en.data@,
                        );
                    }
                }
                Ok(rows_window(&en.data, offset, limit))
            },
            None => {
                proof {
                    assert(false);
                }
                Err(EngineError::Materialize(MaterializeError::ColumnNotFound(String::new())))
            },
        }
    }
}

/// Copies a filter clause list.
fn dup_filterings(fs: &Vec<Filtering>) -> (r: Vec<Filtering>)
    ensures
        filterings_view(r@) == filterings_view(fs@),
{
    let mut r: Vec<Filtering> = Vec::new();
    let mut i: usize = 0;
    while i < fs.len()
        invariant
            i <= fs@.len(),
            r@.len() == i,
            forall|j: int| 0 <= j < i ==> #[trigger] r@[j]@ == fs@[j]@,
        decreases fs@.len() - i,
    {
        let f = &fs[i];
        r.push(
            Filtering {
                column: f.column.clone(),
                condition: f.condition.clone(),
                value: dup_filter_value(&f.value),
            },
        );
        i = i + 1;
    }
    proof {
        assert(filterings_view(r@) =~= filterings_view(fs@));
    }
    r
}

/// Copies a filter value.
fn dup_filter_value(v: &crate::filter::FilterValue) -> (r: crate::filter::FilterValue)
    ensures
        r@ == v@,
{
    match v {
        crate::filter::FilterValue::Empty => crate::filter::FilterValue::Empty,
        crate::filter::FilterValue::Number(m) => crate::filter::FilterValue::Number(*m),
        crate::filter::FilterValue::Text(s) => crate::filter::FilterValue::Text(s.clone()),
        crate::filter::FilterValue::Boolean(b) => crate::filter::FilterValue::Boolean(*b),
        crate::filter::FilterValue::Pair(a, b) => crate::filter::FilterValue::Pair(
            dup_filter_atom(a),
            dup_filter_atom(b),
        ),
        crate::filter::FilterValue::Other => crate::filter::FilterValue::Other,
    }
}

/// Copies a filter atom.
fn dup_filter_atom(a: &crate::filter::FilterAtom) -> (r: crate::filter::FilterAtom)
    ensures
        r@ == a@,
{
    match a {
        crate::filter::FilterAtom::Number(m) => crate::filter::FilterAtom::Number(*m),
        crate::filter::FilterAtom::Text(s) => crate::filter::FilterAtom::Text(s.clone()),
        crate::filter::FilterAtom::Boolean(b) => crate::filter::FilterAtom::Boolean(*b),
    }
}

} // verus!

verus! {

/// The cache key of a query-backed request.
pub open spec fn query_key(text: Seq<char>) -> CacheKeyV {
    CacheKeyV { source_id: text, sort: None, query: Some(text) }
}

impl Engine {
    /// Whether the cached entry answers the given query text. A
    /// query-backed entry matches only on the exact text, and a
    /// file-backed entry never matches a query.
    pub fn query_hit(&self, text: &str) -> (r: bool)
        ensures
            r == hit(*self, query_key(text@)),
    {
        match &self.slot {
            Some(en) => {
                let probe = CacheKey {
                    source_id: String::from_str(text),
                    sort: None,
                    query: Some(String::from_str(text)),
                };
                proof {
                    assert(probe@ =~= query_key(text@));
                }
                key_matches(&en.key, &probe)
            },
            None => false,
        }
    }

    /// Stores the materialized result of a query, keyed by its text,
    /// evicting whatever the slot held; the materialization counter
    /// advances. The relational engine that executed the query is the
    /// caller's concern.
    pub fn store_query_result(&mut self, text: &str, data: Dataset) -> (r: ())
        requires
            ds_wf(data@),
            engine_wf(*old(self)),
        ensures
            engine_wf(*final(self)),
            hit(*final(self), query_key(text@)),
            final(self).slot matches Some(en) && en.data == data,
            final(self).materializations == if old(self).materializations < u64::MAX {
                old(self).materializations + 1
            } else {
                old(self).materializations as int
            },
    {
        let key = CacheKey {
            source_id: String::from_str(text),
            sort: None,
            query: Some(String::from_str(text)),
        };
        proof {
            assert(key@ =~= query_key(text@));
        }
        self.slot = Some(CacheEntry { key, data });
        if self.materializations < u64::MAX {
            self.materializations = self.materializations + 1;
        }
    }
}

} // verus!
