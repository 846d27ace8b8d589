//! The cell model: typed values of a column, with a mathematical view.
//!
//! Floating-point data is carried as fixed-point decimals in millionths
//! (micro-units), so that every value the engine reasons about is a plain
//! integer, boolean, or character sequence. Composite cells (lists and
//! structs) hold scalar elements; anything nested more deeply is carried as
//! an opaque `Nested` marker, which is also how the display layer renders
//! such elements.

use vstd::prelude::*;

verus! {

/// A scalar cell value. `Num` is a fixed-point decimal counted in
/// millionths; `Date` counts days since the epoch; `Datetime` and
/// `Duration` count microseconds; `Time` counts nanoseconds since
/// midnight. `Cat` is an index into the owning column's dictionary.
#[derive(Debug)]
pub enum Scalar {
    Null,
    Bool(bool),
    Int(i64),
    UInt(u64),
    Num(i128),
    Str(String),
    Bin(Vec<u8>),
    Date(i32),
    Datetime(i64),
    Time(i64),
    Duration(i64),
    Cat(u32),
    Nested,
}

/// One named field of a struct cell.
#[derive(Debug)]
pub struct Field {
    pub name: String,
    pub value: Scalar,
}

/// A cell of a column: a scalar, a list of scalars, or a struct.
#[derive(Debug)]
pub enum Cell {
    S(Scalar),
    List(Vec<Scalar>),
    Record(Vec<Field>),
}

/// The mathematical value of a scalar cell.
pub enum ScalarV {
    Null,
    Bool(bool),
    Int(int),
    UInt(int),
    Num(int),
    Str(Seq<char>),
    Bin(Seq<u8>),
    Date(int),
    Datetime(int),
    Time(int),
    Duration(int),
    Cat(int),
    Nested,
}

/// The mathematical value of a cell.
pub enum CellV {
    S(ScalarV),
    List(Seq<ScalarV>),
    Record(Seq<(Seq<char>, ScalarV)>),
}

impl View for Scalar {
    type V = ScalarV;

    open spec fn view(&self) -> ScalarV {
        match *self {
            Scalar::Null => ScalarV::Null,
            Scalar::Bool(b) => ScalarV::Bool(b),
            Scalar::Int(i) => ScalarV::Int(i as int),
            Scalar::UInt(u) => ScalarV::UInt(u as int),
            Scalar::Num(m) => ScalarV::Num(m as int),
            Scalar::Str(ref s) => ScalarV::Str(s@),
            Scalar::Bin(ref b) => ScalarV::Bin(b@),
            Scalar::Date(d) => ScalarV::Date(d as int),
            Scalar::Datetime(t) => ScalarV::Datetime(t as int),
            Scalar::Time(t) => ScalarV::Time(t as int),
            Scalar::Duration(t) => ScalarV::Duration(t as int),
            Scalar::Cat(c) => ScalarV::Cat(c as int),
            Scalar::Nested => ScalarV::Nested,
        }
    }
}

impl View for Field {
    type V = (Seq<char>, ScalarV);

    open spec fn view(&self) -> (Seq<char>, ScalarV) {
        (self.name@, self.value@)
    }
}

impl View for Cell {
    type V = CellV;

    open spec fn view(&self) -> CellV {
        match *self {
            Cell::S(ref s) => CellV::S(s@),
            Cell::List(ref v) => CellV::List(v@.map_values(|s: Scalar| s@)),
            Cell::Record(ref v) => CellV::Record(v@.map_values(|f: Field| f@)),
        }
    }
}

/// The closed set of column types.
#[derive(Debug, Clone, Copy, PartialEq, Eq, Structural)]
pub enum ColType {
    Bool,
    Int8,
    Int16,
    Int32,
    Int64,
    UInt8,
    UInt16,
    UInt32,
    UInt64,
    Float32,
    Float64,
    Str,
    Binary,
    Date,
    Datetime,
    Time,
    Duration,
    Categorical,
    Enum,
    List,
    Array,
    Struct,
}

/// True for the integer and floating-point column types.
pub open spec fn spec_is_numeric_type(t: ColType) -> bool {
    match t {
        ColType::Int8 | ColType::Int16 | ColType::Int32 | ColType::Int64 => true,
        ColType::UInt8 | ColType::UInt16 | ColType::UInt32 | ColType::UInt64 => true,
        ColType::Float32 | ColType::Float64 => true,
        _ => false,
    }
}

/// True for the date, datetime, time, and duration column types.
pub open spec fn spec_is_temporal_type(t: ColType) -> bool {
    match t {
        ColType::Date | ColType::Datetime | ColType::Time | ColType::Duration => true,
        _ => false,
    }
}

/// True for the categorical and enum column types.
pub open spec fn spec_is_dict_type(t: ColType) -> bool {
    t == ColType::Categorical || t == ColType::Enum
}

#[verifier::when_used_as_spec(spec_is_numeric_type)]
pub fn is_numeric_type(t: ColType) -> (r: bool)
    ensures
        r == spec_is_numeric_type(t),
{
    match t {
        ColType::Int8 | ColType::Int16 | ColType::Int32 | ColType::Int64 => true,
        ColType::UInt8 | ColType::UInt16 | ColType::UInt32 | ColType::UInt64 => true,
        ColType::Float32 | ColType::Float64 => true,
        _ => false,
    }
}

#[verifier::when_used_as_spec(spec_is_temporal_type)]
pub fn is_temporal_type(t: ColType) -> (r: bool)
    ensures
        r == spec_is_temporal_type(t),
{
    match t {
        ColType::Date | ColType::Datetime | ColType::Time | ColType::Duration => true,
        _ => false,
    }
}

#[verifier::when_used_as_spec(spec_is_dict_type)]
pub fn is_dict_type(t: ColType) -> (r: bool)
    ensures
        r == spec_is_dict_type(t),
{
    match t {
        ColType::Categorical | ColType::Enum => true,
        _ => false,
    }
}

/// True for the column types whose values cast meaningfully to numbers:
/// the numeric types, booleans (as zero and one), and the temporal types
/// (by their underlying day, microsecond, or nanosecond count).
pub open spec fn spec_is_castable_type(t: ColType) -> bool {
    spec_is_numeric_type(t) || t == ColType::Bool || spec_is_temporal_type(t)
}

#[verifier::when_used_as_spec(spec_is_castable_type)]
pub fn is_castable_type(t: ColType) -> (r: bool)
    ensures
        r == spec_is_castable_type(t),
{
    is_numeric_type(t) || matches!(t, ColType::Bool) || is_temporal_type(t)
}

/// The largest magnitude a fixed-point cell may carry: 10^24 whole
/// units, expressed in millionths. Keeping number cells inside this
/// range lets statistics interpolate without overflowing 128-bit
/// arithmetic.
pub const FX_LIMIT: i128 = 1000000000000000000000000000000;

/// Whether a scalar is admissible in a column of type `t` with a dictionary
/// of `dict_len` entries. `Null` is admissible everywhere.
pub open spec fn scalar_ok(t: ColType, s: ScalarV, dict_len: int) -> bool {
    match s {
        ScalarV::Null => true,
        ScalarV::Bool(_) => t == ColType::Bool,
        ScalarV::Int(i) => (t == ColType::Int8 || t == ColType::Int16 || t == ColType::Int32 || t
            == ColType::Int64) && i64::MIN <= i <= i64::MAX,
        ScalarV::UInt(u) => (t == ColType::UInt8 || t == ColType::UInt16 || t == ColType::UInt32
            || t == ColType::UInt64) && 0 <= u <= u64::MAX,
        ScalarV::Num(m) => (t == ColType::Float32 || t == ColType::Float64) && -FX_LIMIT <= m
            <= FX_LIMIT,
        ScalarV::Str(_) => t == ColType::Str,
        ScalarV::Bin(_) => t == ColType::Binary,
        ScalarV::Date(d) => t == ColType::Date && i32::MIN <= d <= i32::MAX,
        ScalarV::Datetime(v) => t == ColType::Datetime && i64::MIN <= v <= i64::MAX,
        ScalarV::Time(v) => t == ColType::Time && i64::MIN <= v <= i64::MAX,
        ScalarV::Duration(v) => t == ColType::Duration && i64::MIN <= v <= i64::MAX,
        ScalarV::Cat(c) => spec_is_dict_type(t) && 0 <= c < dict_len,
        ScalarV::Nested => false,
    }
}

/// Whether a cell is admissible in a column of type `t`.
pub open spec fn cell_ok(t: ColType, c: CellV, dict_len: int) -> bool {
    match c {
        CellV::S(s) => s is Null || scalar_ok(t, s, dict_len),
        CellV::List(_) => t == ColType::List || t == ColType::Array,
        CellV::Record(_) => t == ColType::Struct,
    }
}

/// True when the cell is the missing value.
pub open spec fn is_null_cell(c: CellV) -> bool {
    c == CellV::S(ScalarV::Null)
}

impl Scalar {
    /// An exact copy of the scalar.
    pub fn dup(&self) -> (r: Scalar)
        ensures
            r@ == self@,
    {
        match self {
            Scalar::Null => Scalar::Null,
            Scalar::Bool(b) => Scalar::Bool(*b),
            Scalar::Int(i) => Scalar::Int(*i),
            Scalar::UInt(u) => Scalar::UInt(*u),
            Scalar::Num(m) => Scalar::Num(*m),
            Scalar::Str(s) => Scalar::Str(s.clone()),
            Scalar::Bin(b) => Scalar::Bin(dup_bytes(b)),
            Scalar::Date(d) => Scalar::Date(*d),
            Scalar::Datetime(t) => Scalar::Datetime(*t),
            Scalar::Time(t) => Scalar::Time(*t),
            Scalar::Duration(t) => Scalar::Duration(*t),
            Scalar::Cat(c) => Scalar::Cat(*c),
            Scalar::Nested => Scalar::Nested,
        }
    }

    /// Whether the scalar is the missing value.
    pub fn is_null(&self) -> (r: bool)
        ensures
            r == (self@ is Null),
    {
        match self {
            Scalar::Null => true,
            _ => false,
        }
    }
}

/// An exact copy of a byte vector.
fn dup_bytes(b: &Vec<u8>) -> (r: Vec<u8>)
    ensures
        r@ == b@,
{
    let mut r: Vec<u8> = Vec::new();
    let mut i: usize = 0;
    while i < b.len()
        invariant
            i <= b@.len(),
            r@ == b@.subrange(0, i as int),
        decreases b@.len() - i,
    {
        r.push(b[i]);
        i = i + 1;
    }
    assert(r@ == b@);
    r
}

impl Cell {
    /// An exact copy of the cell.
    pub fn dup(&self) -> (r: Cell)
        ensures
            r@ == self@,
    {
        match self {
            Cell::S(s) => Cell::S(s.dup()),
            Cell::List(v) => {
                let mut out: Vec<Scalar> = Vec::new();
                let mut i: usize = 0;
                while i < v.len()
                    invariant
                        i <= v@.len(),
                        out@.len() == i,
                        forall|j: int| 0 <= j < i ==> out@[j]@ == v@[j]@,
                    decreases v@.len() - i,
                {
                    out.push(v[i].dup());
                    i = i + 1;
                }
                proof {
                    assert(out@.map_values(|s: Scalar| s@) =~= v@.map_values(|s: Scalar| s@));
                }
                Cell::List(out)
            },
            Cell::Record(v) => {
                let mut out: Vec<Field> = Vec::new();
                let mut i: usize = 0;
                while i < v.len()
                    invariant
                        i <= v@.len(),
                        out@.len() == i,
                        forall|j: int| 0 <= j < i ==> out@[j]@ == v@[j]@,
                    decreases v@.len() - i,
                {
                    out.push(Field { name: v[i].name.clone(), value: v[i].value.dup() });
                    i = i + 1;
                }
                proof {
                    assert(out@.map_values(|f: Field| f@) =~= v@.map_values(|f: Field| f@));
                }
                Cell::Record(out)
            },
        }
    }

    /// Whether the cell is the missing value.
    pub fn is_null(&self) -> (r: bool)
        ensures
            r == is_null_cell(self@),
    {
        match self {
            Cell::S(s) => s.is_null(),
            _ => false,
        }
    }
}

} // verus!
