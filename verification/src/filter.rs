//! The filter translator: turns declarative filter clauses into predicates
//! over dataset cells, rejecting malformed clauses up front, and gives each
//! predicate its evaluation semantics.

use vstd::prelude::*;

verus! {

use crate::value::{CellV, ScalarV, Cell, Scalar};
use crate::fmt::{scalar_display, format_scalar, dict_views};
use crate::strutil::{str_eq, str_contains, is_substring};
use crate::timeparse::{timestamp_micros_of, parse_timestamp_micros};
use crate::casefold::{ci_contains_of, ci_contains};
use crate::value::is_null_cell;

/// One element of a two-element filter value.
#[derive(Debug)]
pub enum FilterAtom {
    Number(i128),
    Text(String),
    Boolean(bool),
}

/// The dynamically-typed value of a filter clause, resolved to a closed
/// set of shapes. Numbers are fixed-point decimals in millionths. `Empty`
/// stands for an absent value; `Other` for any shape outside this set.
#[derive(Debug)]
pub enum FilterValue {
    Empty,
    Number(i128),
    Text(String),
    Boolean(bool),
    Pair(FilterAtom, FilterAtom),
    Other,
}

/// One declarative filter clause.
#[derive(Debug)]
pub struct Filtering {
    pub column: String,
    pub condition: String,
    pub value: FilterValue,
}

/// The mathematical value of a filter atom.
pub enum FilterAtomV {
    Number(int),
    Text(Seq<char>),
    Boolean(bool),
}

/// The mathematical value of a filter value.
pub enum FilterValueV {
    Empty,
    Number(int),
    Text(Seq<char>),
    Boolean(bool),
    Pair(FilterAtomV, FilterAtomV),
    Other,
}

/// The mathematical value of a filter clause.
pub struct FilteringV {
    pub column: Seq<char>,
    pub condition: Seq<char>,
    pub value: FilterValueV,
}

impl View for FilterAtom {
    type V = FilterAtomV;

    open spec fn view(&self) -> FilterAtomV {
        match *self {
            FilterAtom::Number(m) => FilterAtomV::Number(m as int),
            FilterAtom::Text(ref s) => FilterAtomV::Text(s@),
            FilterAtom::Boolean(b) => FilterAtomV::Boolean(b),
        }
    }
}

impl View for FilterValue {
    type V = FilterValueV;

    open spec fn view(&self) -> FilterValueV {
        match *self {
            FilterValue::Empty => FilterValueV::Empty,
            FilterValue::Number(m) => FilterValueV::Number(m as int),
            FilterValue::Text(ref s) => FilterValueV::Text(s@),
            FilterValue::Boolean(b) => FilterValueV::Boolean(b),
            FilterValue::Pair(ref a, ref b) => FilterValueV::Pair(a@, b@),
            FilterValue::Other => FilterValueV::Other,
        }
    }
}

impl View for Filtering {
    type V = FilteringV;

    open spec fn view(&self) -> FilteringV {
        FilteringV { column: self.column@, condition: self.condition@, value: self.value@ }
    }
}

/// A comparison operator of a filter clause.
#[derive(Debug, Clone, Copy, PartialEq, Eq, Structural)]
pub enum CmpOp {
    Lt,
    Gt,
    Le,
    Ge,
    Equal,
    NotEqual,
}

/// A translated test on one cell. Numbers are fixed-point millionths;
/// timestamps are microseconds since the epoch.
#[derive(Debug)]
pub enum Test {
    NumCmp(CmpOp, i128),
    TsCmp(CmpOp, i64),
    BoolEq(bool, bool),
    NumBetween(i128, i128),
    TsBetween(i64, i64),
    StrEq(bool, String),
    Contains(String),
    ContainsCI(String),
    IsNull,
    IsNotNull,
}

/// A translated predicate: a test applied to one named column.
#[derive(Debug)]
pub struct Pred {
    pub column: String,
    pub test: Test,
}

/// The mathematical value of a test.
pub enum TestV {
    NumCmp(CmpOp, int),
    TsCmp(CmpOp, int),
    BoolEq(bool, bool),
    NumBetween(int, int),
    TsBetween(int, int),
    StrEq(bool, Seq<char>),
    Contains(Seq<char>),
    ContainsCI(Seq<char>),
    IsNull,
    IsNotNull,
}

/// The mathematical value of a predicate.
pub struct PredV {
    pub column: Seq<char>,
    pub test: TestV,
}

impl View for Test {
    type V = TestV;

    open spec fn view(&self) -> TestV {
        match *self {
            Test::NumCmp(op, m) => TestV::NumCmp(op, m as int),
            Test::TsCmp(op, t) => TestV::TsCmp(op, t as int),
            Test::BoolEq(n, b) => TestV::BoolEq(n, b),
            Test::NumBetween(a, b) => TestV::NumBetween(a as int, b as int),
            Test::TsBetween(a, b) => TestV::TsBetween(a as int, b as int),
            Test::StrEq(n, ref s) => TestV::StrEq(n, s@),
            Test::Contains(ref s) => TestV::Contains(s@),
            Test::ContainsCI(ref s) => TestV::ContainsCI(s@),
            Test::IsNull => TestV::IsNull,
            Test::IsNotNull => TestV::IsNotNull,
        }
    }
}

impl View for Pred {
    type V = PredV;

    open spec fn view(&self) -> PredV {
        PredV { column: self.column@, test: self.test@ }
    }
}

/// Why a filter value was rejected.
#[derive(Debug, Clone, Copy, PartialEq, Eq, Structural)]
pub enum InvalidKind {
    BadValueType,
    BadDate,
    BadBoolCondition,
    BadBetweenType,
    BadBetweenValues,
    BadEquals,
    BadDifferent,
    BadContains,
    BadContainsCI,
}

/// A rejected filter clause: an unrecognized condition, or a value whose
/// shape does not fit its condition.
#[derive(Debug)]
pub enum FilterError {
    UnknownCondition(String),
    InvalidFilterValue(InvalidKind),
}

/// The mathematical value of a filter error.
pub enum FilterErrorV {
    UnknownCondition(Seq<char>),
    InvalidFilterValue(InvalidKind),
}

impl View for FilterError {
    type V = FilterErrorV;

    open spec fn view(&self) -> FilterErrorV {
        match *self {
            FilterError::UnknownCondition(ref s) => FilterErrorV::UnknownCondition(s@),
            FilterError::InvalidFilterValue(k) => FilterErrorV::InvalidFilterValue(k),
        }
    }
}

/// The user-facing message of an invalid-value rejection.
pub open spec fn invalid_kind_str(k: InvalidKind) -> Seq<char> {
    match k {
        InvalidKind::BadValueType => "Invalid value type for filter"@,
        InvalidKind::BadDate => "Invalid date value for filter"@,
        InvalidKind::BadBoolCondition => "Invalid boolean filter condition"@,
        InvalidKind::BadBetweenType => "Invalid value type for between filter"@,
        InvalidKind::BadBetweenValues => "Invalid values for between filter"@,
        InvalidKind::BadEquals => "Invalid value type for equality filter"@,
        InvalidKind::BadDifferent => "Invalid value type for inequality filter"@,
        InvalidKind::BadContains => "Invalid value type for contains filter"@,
        InvalidKind::BadContainsCI => "Invalid value type for case-insensitive contains filter"@,
    }
}

/// The user-facing message of a rejected filter clause.
pub open spec fn filter_error_str(e: FilterErrorV) -> Seq<char> {
    match e {
        FilterErrorV::UnknownCondition(c) => "Unknown filter condition: "@ + c,
        FilterErrorV::InvalidFilterValue(k) => invalid_kind_str(k),
    }
}

impl FilterError {
    /// The user-facing message of the rejection.
    pub fn message(&self) -> (r: String)
        ensures
            r@ == filter_error_str(self@),
    {
        match self {
            FilterError::UnknownCondition(c) => {
                let mut r = String::from_str("Unknown filter condition: ");
                r.append(c.as_str());
                r
            },
            FilterError::InvalidFilterValue(k) => {
                match k {
                    InvalidKind::BadValueType => String::from_str("Invalid value type for filter"),
                    InvalidKind::BadDate => String::from_str("Invalid date value for filter"),
                    InvalidKind::BadBoolCondition => String::from_str(
                        "Invalid boolean filter condition",
                    ),
                    InvalidKind::BadBetweenType => String::from_str(
                        "Invalid value type for between filter",
                    ),
                    InvalidKind::BadBetweenValues => String::from_str(
                        "Invalid values for between filter",
                    ),
                    InvalidKind::BadEquals => String::from_str(
                        "Invalid value type for equality filter",
                    ),
                    InvalidKind::BadDifferent => String::from_str(
                        "Invalid value type for inequality filter",
                    ),
                    InvalidKind::BadContains => String::from_str(
                        "Invalid value type for contains filter",
                    ),
                    InvalidKind::BadContainsCI => String::from_str(
                        "Invalid value type for case-insensitive contains filter",
                    ),
                }
            },
        }
    }
}

/// Whether the condition is one of the six comparison operators.
pub open spec fn is_cmp_cond(c: Seq<char>) -> bool {
    c == "<"@ || c == ">"@ || c == "<="@ || c == ">="@ || c == "=="@ || c == "!="@
}

/// The comparison operator named by the condition.
pub open spec fn cmp_op_of(c: Seq<char>) -> CmpOp {
    if c == "<"@ {
        CmpOp::Lt
    } else if c == ">"@ {
        CmpOp::Gt
    } else if c == "<="@ {
        CmpOp::Le
    } else if c == ">="@ {
        CmpOp::Ge
    } else if c == "=="@ {
        CmpOp::Equal
    } else {
        CmpOp::NotEqual
    }
}

/// The translation of one filter clause: the predicate it denotes, or the
/// reason it is rejected. Comparison clauses take a number, a timestamp
/// text, or (for equality operators) a boolean; `between` takes a pair of
/// numbers or a pair of timestamp texts; `equals` and `different` take a
/// text or a boolean; the contains conditions take a text; the null checks
/// take no value. Anything else is rejected.
pub open spec fn translate_clause(f: FilteringV) -> Result<PredV, FilterErrorV> {
    if is_cmp_cond(f.condition) {
        match f.value {
            FilterValueV::Number(m) => Ok(
                PredV { column: f.column, test: TestV::NumCmp(cmp_op_of(f.condition), m) },
            ),
            FilterValueV::Text(s) => match timestamp_micros_of(s) {
                Some(t) => Ok(
                    PredV { column: f.column, test: TestV::TsCmp(cmp_op_of(f.condition), t as int) },
                ),
                None => Err(FilterErrorV::InvalidFilterValue(InvalidKind::BadDate)),
            },
            FilterValueV::Boolean(b) => if f.condition == "=="@ {
                Ok(PredV { column: f.column, test: TestV::BoolEq(false, b) })
            } else if f.condition == "!="@ {
                Ok(PredV { column: f.column, test: TestV::BoolEq(true, b) })
            } else {
                Err(FilterErrorV::InvalidFilterValue(InvalidKind::BadBoolCondition))
            },
            _ => Err(FilterErrorV::InvalidFilterValue(InvalidKind::BadValueType)),
        }
    } else if f.condition == "between"@ {
        match f.value {
            FilterValueV::Pair(a, b) => match (a, b) {
                (FilterAtomV::Number(x), FilterAtomV::Number(y)) => Ok(
                    PredV { column: f.column, test: TestV::NumBetween(x, y) },
                ),
                (FilterAtomV::Text(x), FilterAtomV::Text(y)) => match (
                    timestamp_micros_of(x),
                    timestamp_micros_of(y),
                ) {
                    (Some(tx), Some(ty)) => Ok(
                        PredV {
                            column: f.column,
                            test: TestV::TsBetween(tx as int, ty as int),
                        },
                    ),
                    _ => Err(FilterErrorV::InvalidFilterValue(InvalidKind::BadBetweenValues)),
                },
                _ => Err(FilterErrorV::InvalidFilterValue(InvalidKind::BadBetweenValues)),
            },
            _ => Err(FilterErrorV::InvalidFilterValue(InvalidKind::BadBetweenType)),
        }
    } else if f.condition == "equals"@ {
        match f.value {
            FilterValueV::Text(s) => Ok(
                PredV { column: f.column, test: TestV::StrEq(false, s) },
            ),
            FilterValueV::Boolean(b) => Ok(
                PredV { column: f.column, test: TestV::BoolEq(false, b) },
            ),
            _ => Err(FilterErrorV::InvalidFilterValue(InvalidKind::BadEquals)),
        }
    } else if f.condition == "different"@ {
        match f.value {
            FilterValueV::Text(s) => Ok(PredV { column: f.column, test: TestV::StrEq(true, s) }),
            FilterValueV::Boolean(b) => Ok(
                PredV { column: f.column, test: TestV::BoolEq(true, b) },
            ),
            _ => Err(FilterErrorV::InvalidFilterValue(InvalidKind::BadDifferent)),
        }
    } else if f.condition == "contains_case_insensitive"@ {
        match f.value {
            FilterValueV::Text(s) => Ok(
                PredV { column: f.column, test: TestV::ContainsCI(s) },
            ),
            _ => Err(FilterErrorV::InvalidFilterValue(InvalidKind::BadContainsCI)),
        }
    } else if f.condition == "contains"@ {
        match f.value {
            FilterValueV::Text(s) => Ok(PredV { column: f.column, test: TestV::Contains(s) }),
            _ => Err(FilterErrorV::InvalidFilterValue(InvalidKind::BadContains)),
        }
    } else if f.condition == "is_null"@ {
        Ok(PredV { column: f.column, test: TestV::IsNull })
    } else if f.condition == "is_not_null"@ {
        Ok(PredV { column: f.column, test: TestV::IsNotNull })
    } else {
        Err(FilterErrorV::UnknownCondition(f.condition))
    }
}

/// The translation of a clause list, in order; the first rejection wins.
pub open spec fn translate_all(fs: Seq<FilteringV>) -> Result<Seq<PredV>, FilterErrorV>
    decreases fs.len(),
{
    if fs.len() == 0 {
        Ok(Seq::empty())
    } else {
        match translate_all(fs.drop_last()) {
            Ok(ps) => match translate_clause(fs.last()) {
                Ok(p) => Ok(ps.push(p)),
                Err(e) => Err(e),
            },
            Err(e) => Err(e),
        }
    }
}

/// Translates one filter clause.
pub fn translate_one(f: &Filtering) -> (r: Result<Pred, FilterError>)
    ensures
        match r {
            Ok(p) => translate_clause(f@) == Ok::<PredV, FilterErrorV>(p@),
            Err(e) => translate_clause(f@) == Err::<PredV, FilterErrorV>(e@),
        },
{
    let cond = f.condition.as_str();
    let is_eq = str_eq(cond, "==");
    let is_ne = str_eq(cond, "!=");
    let cmp = str_eq(cond, "<") || str_eq(cond, ">") || str_eq(cond, "<=") || str_eq(cond, ">=")
        || is_eq || is_ne;
    if cmp {
        let op = if str_eq(cond, "<") {
            CmpOp::Lt
        } else if str_eq(cond, ">") {
            CmpOp::Gt
        } else if str_eq(cond, "<=") {
            CmpOp::Le
        } else if str_eq(cond, ">=") {
            CmpOp::Ge
        } else if is_eq {
            CmpOp::Equal
        } else {
            CmpOp::NotEqual
        };
        match &f.value {
            FilterValue::Number(m) => Ok(
                Pred { column: f.column.clone(), test: Test::NumCmp(op, *m) },
            ),
            FilterValue::Text(s) => {
                match parse_timestamp_micros(s.as_str()) {
                    Some(t) => Ok(Pred { column: f.column.clone(), test: Test::TsCmp(op, t) }),
                    None => Err(FilterError::InvalidFilterValue(InvalidKind::BadDate)),
                }
            },
            FilterValue::Boolean(b) => {
                if is_eq {
                    Ok(Pred { column: f.column.clone(), test: Test::BoolEq(false, *b) })
                } else if is_ne {
                    Ok(Pred { column: f.column.clone(), test: Test::BoolEq(true, *b) })
                } else {
                    Err(FilterError::InvalidFilterValue(InvalidKind::BadBoolCondition))
                }
            },
            _ => Err(FilterError::InvalidFilterValue(InvalidKind::BadValueType)),
        }
    } else if str_eq(cond, "between") {
        match &f.value {
            FilterValue::Pair(a, b) => {
                match (a, b) {
                    (FilterAtom::Number(x), FilterAtom::Number(y)) => Ok(
                        Pred { column: f.column.clone(), test: Test::NumBetween(*x, *y) },
                    ),
                    (FilterAtom::Text(x), FilterAtom::Text(y)) => {
                        let tx = parse_timestamp_micros(x.as_str());
                        let ty = parse_timestamp_micros(y.as_str());
                        match (tx, ty) {
                            (Some(lo), Some(hi)) => Ok(
                                Pred { column: f.column.clone(), test: Test::TsBetween(lo, hi) },
                            ),
                            _ => Err(
                                FilterError::InvalidFilterValue(InvalidKind::BadBetweenValues),
                            ),
                        }
                    },
                    _ => Err(FilterError::InvalidFilterValue(InvalidKind::BadBetweenValues)),
                }
            },
            _ => Err(FilterError::InvalidFilterValue(InvalidKind::BadBetweenType)),
        }
    } else if str_eq(cond, "equals") {
        match &f.value {
            FilterValue::Text(s) => Ok(
                Pred { column: f.column.clone(), test: Test::StrEq(false, s.clone()) },
            ),
            FilterValue::Boolean(b) => Ok(
                Pred { column: f.column.clone(), test: Test::BoolEq(false, *b) },
            ),
            _ => Err(FilterError::InvalidFilterValue(InvalidKind::BadEquals)),
        }
    } else if str_eq(cond, "different") {
        match &f.value {
            FilterValue::Text(s) => Ok(
                Pred { column: f.column.clone(), test: Test::StrEq(true, s.clone()) },
            ),
            FilterValue::Boolean(b) => Ok(
                Pred { column: f.column.clone(), test: Test::BoolEq(true, *b) },
            ),
            _ => Err(FilterError::InvalidFilterValue(InvalidKind::BadDifferent)),
        }
    } else if str_eq(cond, "contains_case_insensitive") {
        match &f.value {
            FilterValue::Text(s) => Ok(
                Pred { column: f.column.clone(), test: Test::ContainsCI(s.clone()) },
            ),
            _ => Err(FilterError::InvalidFilterValue(InvalidKind::BadContainsCI)),
        }
    } else if str_eq(cond, "contains") {
        match &f.value {
            FilterValue::Text(s) => Ok(
                Pred { column: f.column.clone(), test: Test::Contains(s.clone()) },
            ),
            _ => Err(FilterError::InvalidFilterValue(InvalidKind::BadContains)),
        }
    } else if str_eq(cond, "is_null") {
        Ok(Pred { column: f.column.clone(), test: Test::IsNull })
    } else if str_eq(cond, "is_not_null") {
        Ok(Pred { column: f.column.clone(), test: Test::IsNotNull })
    } else {
        Err(FilterError::UnknownCondition(f.condition.clone()))
    }
}

/// Whether the operator holds between two values.
pub open spec fn cmp_holds(op: CmpOp, a: int, b: int) -> bool {
    match op {
        CmpOp::Lt => a < b,
        CmpOp::Gt => a > b,
        CmpOp::Le => a <= b,
        CmpOp::Ge => a >= b,
        CmpOp::Equal => a == b,
        CmpOp::NotEqual => a != b,
    }
}

/// The fixed-point value of a scalar under the numeric cast, in
/// millionths; `None` when the cast is not meaningful.
pub open spec fn fx_of_scalar(s: ScalarV) -> Option<int> {
    match s {
        ScalarV::Int(i) => Some(1000000 * i),
        ScalarV::UInt(u) => Some(1000000 * u),
        ScalarV::Num(m) => Some(m),
        _ => None,
    }
}

/// The microsecond timestamp of a temporal scalar; `None` for any other.
pub open spec fn ts_of_scalar(s: ScalarV) -> Option<int> {
    match s {
        ScalarV::Date(d) => Some(86400000000 * d),
        ScalarV::Datetime(t) => Some(t),
        _ => None,
    }
}

/// The verdict of a test on one non-null scalar: `Some(b)` when the test
/// applies to the scalar's type, `None` when the column type is
/// incompatible with the test.
pub open spec fn eval_scalar_test(t: TestV, s: ScalarV, dict: Seq<Seq<char>>) -> Option<bool> {
    match t {
        TestV::NumCmp(op, m) => match fx_of_scalar(s) {
            Some(v) => Some(cmp_holds(op, v, m)),
            None => None,
        },
        TestV::TsCmp(op, ts) => match ts_of_scalar(s) {
            Some(v) => Some(cmp_holds(op, v, ts)),
            None => None,
        },
        TestV::BoolEq(neg, b) => match s {
            ScalarV::Bool(x) => Some(if neg {
                x != b
            } else {
                x == b
            }),
            _ => None,
        },
        TestV::NumBetween(lo, hi) => match fx_of_scalar(s) {
            Some(v) => Some(lo <= v && v <= hi),
            None => None,
        },
        TestV::TsBetween(lo, hi) => match ts_of_scalar(s) {
            Some(v) => Some(lo <= v && v <= hi),
            None => None,
        },
        TestV::StrEq(neg, text) => match s {
            ScalarV::Str(x) => Some(if neg {
                x != text
            } else {
                x == text
            }),
            ScalarV::Cat(c) => if 0 <= c < dict.len() {
                Some(
                    if neg {
                        dict[c] != text
                    } else {
                        dict[c] == text
                    },
                )
            } else {
                None
            },
            _ => None,
        },
        TestV::Contains(n) => Some(is_substring(scalar_display(s, dict), n)),
        TestV::ContainsCI(n) => Some(ci_contains_of(scalar_display(s, dict), n)),
        TestV::IsNull => Some(false),
        TestV::IsNotNull => Some(true),
    }
}

/// The verdict of a test on one cell. Null cells satisfy only the
/// null checks; list and struct cells are incompatible with value tests.
pub open spec fn eval_test(t: TestV, c: CellV, dict: Seq<Seq<char>>) -> Option<bool> {
    match t {
        TestV::IsNull => Some(is_null_cell(c)),
        TestV::IsNotNull => Some(!is_null_cell(c)),
        _ => match c {
            CellV::S(s) => if s is Null {
                Some(false)
            } else {
                eval_scalar_test(t, s, dict)
            },
            _ => None,
        },
    }
}

/// Evaluates a test on one cell.
pub fn eval_test_cell(t: &Test, c: &Cell, dict: &Vec<String>) -> (r: Result<bool, ()>)
    ensures
        match r {
            Ok(b) => eval_test(t@, c@, dict_views(dict@)) == Some(b),
            Err(_) => eval_test(t@, c@, dict_views(dict@)) is None,
        },
{
    match t {
        Test::IsNull => Ok(c.is_null()),
        Test::IsNotNull => Ok(!c.is_null()),
        _ => {
            let s = match c {
                Cell::S(s) => s,
                _ => {
                    return Err(());
                },
            };
            if s.is_null() {
                return Ok(false);
            }
            match t {
                Test::NumCmp(op, m) => {
                    match fx_of(s) {
                        Some(v) => Ok(cmp_exec(*op, v, *m)),
                        None => Err(()),
                    }
                },
                Test::TsCmp(op, ts) => {
                    match ts_of(s) {
                        Some(v) => Ok(cmp_exec(*op, v, *ts as i128)),
                        None => Err(()),
                    }
                },
                Test::BoolEq(neg, b) => {
                    match s {
                        Scalar::Bool(x) => Ok(if *neg {
                            *x != *b
                        } else {
                            *x == *b
                        }),
                        _ => Err(()),
                    }
                },
                Test::NumBetween(lo, hi) => {
                    match fx_of(s) {
                        Some(v) => Ok(*lo <= v && v <= *hi),
                        None => Err(()),
                    }
                },
                Test::TsBetween(lo, hi) => {
                    match ts_of(s) {
                        Some(v) => Ok((*lo as i128) <= v && v <= (*hi as i128)),
                        None => Err(()),
                    }
                },
                Test::StrEq(neg, text) => {
                    match s {
                        Scalar::Str(x) => {
                            let eq = str_eq(x.as_str(), text.as_str());
                            Ok(if *neg {
                                !eq
                            } else {
                                eq
                            })
                        },
                        Scalar::Cat(code) => {
                            if (*code as usize) < dict.len() {
                                let eq = str_eq(dict[*code as usize].as_str(), text.as_str());
                                Ok(if *neg {
                                    !eq
                                } else {
                                    eq
                                })
                            } else {
                                Err(())
                            }
                        },
                        _ => Err(()),
                    }
                },
                Test::Contains(n) => {
                    let shown = format_scalar(s, dict);
                    Ok(str_contains(shown.as_str(), n.as_str()))
                },
                Test::ContainsCI(n) => {
                    let shown = format_scalar(s, dict);
                    Ok(ci_contains(shown.as_str(), n.as_str()))
                },
                Test::IsNull => Ok(false),
                Test::IsNotNull => Ok(true),
            }
        },
    }
}

/// The fixed-point value of a scalar under the numeric cast.
fn fx_of(s: &Scalar) -> (r: Option<i128>)
    ensures
        match r {
            Some(v) => fx_of_scalar(s@) == Some(v as int),
            None => fx_of_scalar(s@) is None,
        },
{
    match s {
        Scalar::Int(i) => Some((*i as i128) * 1000000),
        Scalar::UInt(u) => Some((*u as i128) * 1000000),
        Scalar::Num(m) => Some(*m),
        _ => None,
    }
}

/// The microsecond timestamp of a temporal scalar.
fn ts_of(s: &Scalar) -> (r: Option<i128>)
    ensures
        match r {
            Some(v) => ts_of_scalar(s@) == Some(v as int),
            None => ts_of_scalar(s@) is None,
        },
{
    match s {
        Scalar::Date(d) => Some((*d as i128) * 86400000000),
        Scalar::Datetime(t) => Some(*t as i128),
        _ => None,
    }
}

/// Whether the operator holds between two values.
fn cmp_exec(op: CmpOp, a: i128, b: i128) -> (r: bool)
    ensures
        r == cmp_holds(op, a as int, b as int),
{
    match op {
        CmpOp::Lt => a < b,
        CmpOp::Gt => a > b,
        CmpOp::Le => a <= b,
        CmpOp::Ge => a >= b,
        CmpOp::Equal => a == b,
        CmpOp::NotEqual => a != b,
    }
}

} // verus!
