//! The materialized dataset: a column-major table of typed cells, with its
//! well-formedness invariant, schema descriptions, display-row projection,
//! and tab-separated export.

use vstd::prelude::*;

verus! {

use crate::value::{Cell, CellV, ColType, cell_ok};
use crate::fmt::{cell_display, dict_views, format_cell};

/// One column of a materialized dataset. The dictionary holds the labels
/// of a categorical or enum column and is empty for every other type.
#[derive(Debug)]
pub struct Column {
    pub name: String,
    pub ctype: ColType,
    pub dict: Vec<String>,
    pub cells: Vec<Cell>,
}

/// The mathematical value of a column.
#[verifier::ext_equal]
pub struct ColumnV {
    pub name: Seq<char>,
    pub ctype: ColType,
    pub dict: Seq<Seq<char>>,
    pub cells: Seq<CellV>,
}

impl View for Column {
    type V = ColumnV;

    open spec fn view(&self) -> ColumnV {
        ColumnV {
            name: self.name@,
            ctype: self.ctype,
            dict: dict_views(self.dict@),
            cells: self.cells@.map_values(|c: Cell| c@),
        }
    }
}

/// A materialized, column-major dataset. Immutable once produced.
#[derive(Debug)]
pub struct Dataset {
    pub columns: Vec<Column>,
}

impl View for Dataset {
    type V = Seq<ColumnV>;

    open spec fn view(&self) -> Seq<ColumnV> {
        self.columns@.map_values(|c: Column| c@)
    }
}

/// The row count of a dataset: the length of its first column.
pub open spec fn ds_rows(d: Seq<ColumnV>) -> nat {
    if d.len() == 0 {
        0
    } else {
        d[0].cells.len()
    }
}

/// Every cell of the column is admissible for the column's type.
pub open spec fn col_wf(c: ColumnV) -> bool {
    forall|i: int| 0 <= i < c.cells.len() ==> cell_ok(c.ctype, #[trigger] c.cells[i], c.dict.len() as int)
}

/// All columns are well-formed and share one row count.
pub open spec fn ds_wf(d: Seq<ColumnV>) -> bool {
    forall|j: int| 0 <= j < d.len() ==> col_wf(#[trigger] d[j]) && d[j].cells.len() == ds_rows(d)
}

/// The display strings of row `i`, one per column.
pub open spec fn row_display(d: Seq<ColumnV>, i: int) -> Seq<Seq<char>> {
    Seq::new(d.len(), |j: int| cell_display(d[j].cells[i], d[j].dict))
}

/// The number of rows of a window of `limit` rows starting at `offset`.
pub open spec fn window_len(rows: nat, offset: nat, limit: nat) -> nat {
    if offset >= rows {
        0
    } else if offset + limit <= rows {
        limit
    } else {
        (rows - offset) as nat
    }
}

impl Dataset {
    /// The row count.
    pub fn height(&self) -> (h: usize)
        ensures
            h == ds_rows(self@),
    {
        if self.columns.len() == 0 {
            0
        } else {
            self.columns[0].cells.len()
        }
    }

    /// The column count.
    pub fn width(&self) -> (w: usize)
        ensures
            w == self@.len(),
    {
        self.columns.len()
    }

    /// The index of the first column with the given name.
    pub fn find_column(&self, name: &str) -> (r: Option<usize>)
        ensures
            match r {
                Some(j) => j < self@.len() && self@[j as int].name == name@ && forall|k: int|
                    0 <= k < j ==> self@[k].name != name@,
                None => forall|k: int| 0 <= k < self@.len() ==> self@[k].name != name@,
            },
    {
        let mut j: usize = 0;
        while j < self.columns.len()
            invariant
                j <= self@.len(),
                self@.len() == self.columns@.len(),
                forall|k: int| 0 <= k < j ==> self@[k].name != name@,
            decreases self@.len() - j,
        {
            if crate::strutil::str_eq(self.columns[j].name.as_str(), name) {
                return Some(j);
            }
            j = j + 1;
        }
        None
    }
}

/// The displayed name of a column type.
pub open spec fn dtype_str(t: ColType) -> Seq<char> {
    match t {
        ColType::Bool => "Boolean"@,
        ColType::Int8 => "Int8"@,
        ColType::Int16 => "Int16"@,
        ColType::Int32 => "Int32"@,
        ColType::Int64 => "Int64"@,
        ColType::UInt8 => "UInt8"@,
        ColType::UInt16 => "UInt16"@,
        ColType::UInt32 => "UInt32"@,
        ColType::UInt64 => "UInt64"@,
        ColType::Float32 => "Float32"@,
        ColType::Float64 => "Float64"@,
        ColType::Str => "String"@,
        ColType::Binary => "Binary"@,
        ColType::Date => "Date"@,
        ColType::Datetime => "Datetime"@,
        ColType::Time => "Time"@,
        ColType::Duration => "Duration"@,
        ColType::Categorical => "Categorical"@,
        ColType::Enum => "Enum"@,
        ColType::List => "List"@,
        ColType::Array => "Array"@,
        ColType::Struct => "Struct"@,
    }
}

/// Renders the displayed name of a column type.
pub fn dtype_name(t: ColType) -> (r: String)
    ensures
        r@ == dtype_str(t),
{
    match t {
        ColType::Bool => String::from_str("Boolean"),
        ColType::Int8 => String::from_str("Int8"),
        ColType::Int16 => String::from_str("Int16"),
        ColType::Int32 => String::from_str("Int32"),
        ColType::Int64 => String::from_str("Int64"),
        ColType::UInt8 => String::from_str("UInt8"),
        ColType::UInt16 => String::from_str("UInt16"),
        ColType::UInt32 => String::from_str("UInt32"),
        ColType::UInt64 => String::from_str("UInt64"),
        ColType::Float32 => String::from_str("Float32"),
        ColType::Float64 => String::from_str("Float64"),
        ColType::Str => String::from_str("String"),
        ColType::Binary => String::from_str("Binary"),
        ColType::Date => String::from_str("Date"),
        ColType::Datetime => String::from_str("Datetime"),
        ColType::Time => String::from_str("Time"),
        ColType::Duration => String::from_str("Duration"),
        ColType::Categorical => String::from_str("Categorical"),
        ColType::Enum => String::from_str("Enum"),
        ColType::List => String::from_str("List"),
        ColType::Array => String::from_str("Array"),
        ColType::Struct => String::from_str("Struct"),
    }
}

/// The name and displayed type of one column.
#[derive(Debug)]
pub struct ColumnInfo {
    pub name: String,
    pub dtype: String,
}

/// File-level metadata handed in by the caller alongside a dataset.
/// Timestamps count microseconds since the epoch.
#[derive(Debug)]
pub struct MetadataInfo {
    pub file_name: String,
    pub created_at: Option<i64>,
    pub modified_at: Option<i64>,
    pub file_size: u64,
    pub row_groups: usize,
    pub num_rows: usize,
    pub columns: Vec<ColumnMetaData>,
}

/// Name and compression of one stored column chunk.
#[derive(Debug)]
pub struct ColumnMetaData {
    pub name: String,
    pub compression: String,
}

/// The displayed summary of a dataset: its shape, schema, leading rows,
/// and optional file metadata.
#[derive(Debug)]
pub struct DataFrameInfo {
    pub shape: (usize, usize),
    pub columns: Vec<ColumnInfo>,
    pub rows: Vec<Vec<String>>,
    pub metadata: Option<MetadataInfo>,
}

/// Builds the display rows of the window of `limit` rows from `offset`.
pub fn rows_window(df: &Dataset, offset: usize, limit: usize) -> (r: Vec<Vec<String>>)
    requires
        ds_wf(df@),
    ensures
        r@.len() == window_len(ds_rows(df@), offset as nat, limit as nat),
        forall|k: int| 0 <= k < r@.len() ==> #[trigger] r@[k]@.len() == df@.len(),
        forall|k: int, j: int|
            0 <= k < r@.len() && 0 <= j < df@.len() ==> r@[k]@[j]@ == cell_display(
                df@[j].cells[offset + k],
                df@[j].dict,
            ),
    {
    let h = df.height();
    let w = df.width();
    let mut r: Vec<Vec<String>> = Vec::new();
    if offset >= h {
        return r;
    }
    let count = if limit <= h - offset {
        limit
    } else {
        h - offset
    };
    let mut k: usize = 0;
    while k < count
        invariant
            k <= count,
            ds_wf(df@),
            h == ds_rows(df@),
            w == df@.len(),
            offset < h,
            count == window_len(ds_rows(df@), offset as nat, limit as nat),
            offset + count <= h,
            r@.len() == k,
            forall|x: int| 0 <= x < k ==> #[trigger] r@[x]@.len() == df@.len(),
            forall|x: int, j: int|
                0 <= x < k && 0 <= j < df@.len() ==> r@[x]@[j]@ == cell_display(
                    df@[j].cells[offset + x],
                    df@[j].dict,
                ),
        decreases count - k,
    {
        let mut row: Vec<String> = Vec::new();
        let mut j: usize = 0;
        while j < w
            invariant
                j <= w,
                ds_wf(df@),
                h == ds_rows(df@),
                w == df@.len(),
                offset + k < h,
                row@.len() == j,
                forall|y: int|
                    0 <= y < j ==> row@[y]@ == cell_display(
                        df@[y].cells[offset + k],
                        df@[y].dict,
                    ),
            decreases w - j,
        {
            let col = &df.columns[j];
            proof {
                assert(df@[j as int] == df.columns@[j as int]@);
                assert(df@[j as int].cells.len() == ds_rows(df@));
            }
            let s = format_cell(&col.cells[offset + k], &col.dict);
            row.push(s);
            j = j + 1;
        }
        r.push(row);
        k = k + 1;
    }
    r
}

/// Builds the display rows of the whole dataset, in row order.
pub fn dataframe_to_rows(df: &Dataset) -> (r: Vec<Vec<String>>)
    requires
        ds_wf(df@),
    ensures
        r@.len() == ds_rows(df@),
        forall|k: int| 0 <= k < r@.len() ==> #[trigger] r@[k]@.len() == df@.len(),
        forall|k: int, j: int|
            0 <= k < r@.len() && 0 <= j < df@.len() ==> r@[k]@[j]@ == cell_display(
                df@[j].cells[k],
                df@[j].dict,
            ),
{
    let h = df.height();
    rows_window(df, 0, h)
}

/// Builds the displayed summary of a materialized dataset: its shape, the
/// name and type of each column, and the first `head` rows as strings.
pub fn process_dataframe(df: &Dataset, head: usize, metadata: Option<MetadataInfo>) -> (r:
    DataFrameInfo)
    requires
        ds_wf(df@),
    ensures
        r.shape.0 == ds_rows(df@),
        r.shape.1 == df@.len(),
        r.columns@.len() == df@.len(),
        forall|j: int|
            0 <= j < df@.len() ==> (#[trigger] r.columns@[j]).name@ == df@[j].name
                && r.columns@[j].dtype@ == dtype_str(df@[j].ctype),
        r.rows@.len() == window_len(ds_rows(df@), 0, head as nat),
        forall|k: int| 0 <= k < r.rows@.len() ==> #[trigger] r.rows@[k]@.len() == df@.len(),
        forall|k: int, j: int|
            0 <= k < r.rows@.len() && 0 <= j < df@.len() ==> r.rows@[k]@[j]@ == cell_display(
                df@[j].cells[k],
                df@[j].dict,
            ),
        r.metadata == metadata,
{
    let h = df.height();
    let w = df.width();
    let mut columns: Vec<ColumnInfo> = Vec::new();
    let mut j: usize = 0;
    while j < w
        invariant
            j <= w,
            w == df@.len(),
            columns@.len() == j,
            forall|x: int|
                0 <= x < j ==> (#[trigger] columns@[x]).name@ == df@[x].name
                    && columns@[x].dtype@ == dtype_str(df@[x].ctype),
        decreases w - j,
    {
        let col = &df.columns[j];
        columns.push(ColumnInfo { name: col.name.clone(), dtype: dtype_name(col.ctype) });
        j = j + 1;
    }
    let rows = rows_window(df, 0, head);
    DataFrameInfo { shape: (h, w), columns, rows, metadata }
}

/// The cells of a row joined by tabs.
pub open spec fn tsv_line(cells: Seq<Seq<char>>) -> Seq<char>
    decreases cells.len(),
{
    if cells.len() == 0 {
        Seq::empty()
    } else if cells.len() == 1 {
        cells[0]
    } else {
        tsv_line(cells.drop_last()) + seq!['\t'] + cells.last()
    }
}

/// The column names of a dataset.
pub open spec fn ds_names(d: Seq<ColumnV>) -> Seq<Seq<char>> {
    Seq::new(d.len(), |j: int| d[j].name)
}

/// The tab-separated rendering of a dataset: the header line of column
/// names, then one line per row, all joined by newlines.
pub open spec fn tsv_of(d: Seq<ColumnV>) -> Seq<char>
    decreases ds_rows(d),
{
    tsv_line(ds_names(d)) + tsv_rows(d, ds_rows(d) as int)
}

/// The newline-prefixed lines of the first `n` rows.
pub open spec fn tsv_rows(d: Seq<ColumnV>, n: int) -> Seq<char>
    decreases n,
{
    if n <= 0 {
        Seq::empty()
    } else {
        tsv_rows(d, n - 1) + seq!['\n'] + tsv_line(row_display(d, n - 1))
    }
}

/// Renders the whole dataset as tab-separated text: a header of column
/// names and one line per row.
pub fn dataset_to_tsv(df: &Dataset) -> (r: String)
    requires
        ds_wf(df@),
    ensures
        r@ == tsv_of(df@),
{
    let h = df.height();
    let w = df.width();
    let mut r = String::new();
    let mut j: usize = 0;
    while j < w
        invariant
            j <= w,
            w == df@.len(),
            r@ == tsv_line(ds_names(df@).subrange(0, j as int)),
        decreases w - j,
    {
        if j > 0 {
            r.append("\t");
        }
        r.append(df.columns[j].name.as_str());
        proof {
            reveal_strlit("\t");
            assert("\t"@ =~= seq!['\t']);
            assert(ds_names(df@).subrange(0, j + 1).drop_last() =~= ds_names(df@).subrange(
                0,
                j as int,
            ));
            assert(r@ =~= tsv_line(ds_names(df@).subrange(0, j + 1)));
        }
        j = j + 1;
    }
    proof {
        assert(ds_names(df@).subrange(0, ds_names(df@).len() as int) =~= ds_names(df@));
    }
    let mut k: usize = 0;
    while k < h
        invariant
            k <= h,
            ds_wf(df@),
            h == ds_rows(df@),
            w == df@.len(),
            r@ == tsv_line(ds_names(df@)) + tsv_rows(df@, k as int),
        decreases h - k,
    {
        r.append("\n");
        let mut j2: usize = 0;
        let ghost base = r@;
        while j2 < w
            invariant
                j2 <= w,
                ds_wf(df@),
                h == ds_rows(df@),
                w == df@.len(),
                k < h,
                r@ == base + tsv_line(row_display(df@, k as int).subrange(0, j2 as int)),
            decreases w - j2,
        {
            if j2 > 0 {
                r.append("\t");
            }
            let col = &df.columns[j2];
            proof {
                assert(df@[j2 as int] == df.columns@[j2 as int]@);
                assert(df@[j2 as int].cells.len() == ds_rows(df@));
            }
            let s = format_cell(&col.cells[k], &col.dict);
            r.append(s.as_str());
            proof {
                reveal_strlit("\t");
                assert("\t"@ =~= seq!['\t']);
                assert(row_display(df@, k as int).subrange(0, j2 + 1).drop_last()
                    =~= row_display(df@, k as int).subrange(0, j2 as int));
                assert(r@ =~= base + tsv_line(row_display(df@, k as int).subrange(0, j2 + 1)));
            }
            j2 = j2 + 1;
        }
        proof {
            reveal_strlit("\n");
            assert("\n"@ =~= seq!['\n']);
            assert(row_display(df@, k as int).subrange(0, row_display(df@, k as int).len() as int)
                =~= row_display(df@, k as int));
            assert(r@ =~= tsv_line(ds_names(df@)) + tsv_rows(df@, k + 1));
        }
        k = k + 1;
    }
    r
}

} // verus!

verus! {

use crate::value::{Scalar, scalar_ok, FX_LIMIT};

/// Decides whether a scalar is admissible in a column of type `t` with
/// `dict_len` dictionary entries.
fn scalar_ok_exec(t: ColType, s: &Scalar, dict_len: usize) -> (r: bool)
    ensures
        r == scalar_ok(t, s@, dict_len as int),
{
    match s {
        Scalar::Null => true,
        Scalar::Bool(_) => matches!(t, ColType::Bool),
        Scalar::Int(_) => matches!(t, ColType::Int8 | ColType::Int16 | ColType::Int32 | ColType::Int64),
        Scalar::UInt(_) => matches!(t, ColType::UInt8 | ColType::UInt16 | ColType::UInt32 | ColType::UInt64),
        Scalar::Num(m) => matches!(t, ColType::Float32 | ColType::Float64) && -FX_LIMIT <= *m && *m <= FX_LIMIT,
        Scalar::Str(_) => matches!(t, ColType::Str),
        Scalar::Bin(_) => matches!(t, ColType::Binary),
        Scalar::Date(_) => matches!(t, ColType::Date),
        Scalar::Datetime(_) => matches!(t, ColType::Datetime),
        Scalar::Time(_) => matches!(t, ColType::Time),
        Scalar::Duration(_) => matches!(t, ColType::Duration),
        Scalar::Cat(c) => matches!(t, ColType::Categorical | ColType::Enum) && (*c as usize) < dict_len,
        Scalar::Nested => false,
    }
}

/// Decides whether a cell is admissible in a column of type `t`.
fn cell_ok_exec(t: ColType, c: &Cell, dict_len: usize) -> (r: bool)
    ensures
        r == cell_ok(t, c@, dict_len as int),
{
    match c {
        Cell::S(s) => {
            match s {
                Scalar::Null => true,
                _ => scalar_ok_exec(t, s, dict_len),
            }
        },
        Cell::List(_) => matches!(t, ColType::List | ColType::Array),
        Cell::Record(_) => matches!(t, ColType::Struct),
    }
}

/// Decides whether a dataset is well-formed: every column's cells match
/// its type and all columns share one row count. Callers outside the
/// verified library can use this to validate data they assembled.
pub fn check_well_formed(df: &Dataset) -> (r: bool)
    ensures
        r == ds_wf(df@),
{
    let h = df.height();
    let mut j: usize = 0;
    while j < df.columns.len()
        invariant
            j <= df@.len(),
            df@.len() == df.columns@.len(),
            h == ds_rows(df@),
            forall|x: int|
                0 <= x < j ==> col_wf(#[trigger] df@[x]) && df@[x].cells.len() == ds_rows(df@),
        decreases df@.len() - j,
    {
        let col = &df.columns[j];
        proof {
            assert(df@[j as int] == df.columns@[j as int]@);
        }
        if col.cells.len() != h {
            proof {
                assert(!ds_wf(df@)) by {
                    assert(df@[j as int].cells.len() != ds_rows(df@));
                }
            }
            return false;
        }
        let mut i: usize = 0;
        while i < col.cells.len()
            invariant
                i <= col.cells@.len(),
                j < df@.len(),
                col == df.columns@[j as int],
                df@[j as int] == df.columns@[j as int]@,
                forall|y: int|
                    0 <= y < i ==> cell_ok(
                        df@[j as int].ctype,
                        #[trigger] df@[j as int].cells[y],
                        df@[j as int].dict.len() as int,
                    ),
            decreases col.cells@.len() - i,
        {
            if !cell_ok_exec(col.ctype, &col.cells[i], col.dict.len()) {
                proof {
                    assert(df@[j as int].cells[i as int] == col.cells@[i as int]@);
                    assert(df@[j as int].dict.len() == col.dict@.len());
                    assert(!ds_wf(df@)) by {
                        assert(!col_wf(df@[j as int]));
                    }
                }
                return false;
            }
            i = i + 1;
        }
        proof {
            assert(col_wf(df@[j as int]));
        }
        j = j + 1;
    }
    true
}

} // verus!
