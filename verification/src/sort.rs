//! The sort translator and the ordering it induces on dataset rows:
//! a multi-key comparison with nulls always last, made strict and total
//! by breaking ties on the original row position, so that sorting is
//! stable and its result unique.

use vstd::prelude::*;

verus! {

use crate::value::{Cell, CellV, Scalar, ScalarV};
use crate::value::is_null_cell;

/// One declarative sort clause: a column name and a direction.
#[derive(Debug)]
pub struct Sorting {
    pub column: String,
    pub ascending: bool,
}

/// The mathematical value of a sort clause.
pub struct SortingV {
    pub column: Seq<char>,
    pub ascending: bool,
}

impl View for Sorting {
    type V = SortingV;

    open spec fn view(&self) -> SortingV {
        SortingV { column: self.column@, ascending: self.ascending }
    }
}

impl Sorting {
    /// An exact copy of the clause.
    pub fn dup(&self) -> (r: Sorting)
        ensures
            r@ == self@,
    {
        Sorting { column: self.column.clone(), ascending: self.ascending }
    }
}

/// The outcome of a three-way comparison.
#[derive(Debug, Clone, Copy, PartialEq, Eq, Structural)]
pub enum Ord3 {
    Less,
    Equiv,
    Greater,
}

/// The reversed outcome.
pub open spec fn flip(o: Ord3) -> Ord3 {
    match o {
        Ord3::Less => Ord3::Greater,
        Ord3::Equiv => Ord3::Equiv,
        Ord3::Greater => Ord3::Less,
    }
}

/// Lexicographic three-way comparison of character sequences.
pub open spec fn cmp_chars(a: Seq<char>, b: Seq<char>) -> Ord3
    decreases a.len(),
{
    if a.len() == 0 && b.len() == 0 {
        Ord3::Equiv
    } else if a.len() == 0 {
        Ord3::Less
    } else if b.len() == 0 {
        Ord3::Greater
    } else if a.first() < b.first() {
        Ord3::Less
    } else if b.first() < a.first() {
        Ord3::Greater
    } else {
        cmp_chars(a.drop_first(), b.drop_first())
    }
}

/// Lexicographic three-way comparison of byte sequences.
pub open spec fn cmp_bytes(a: Seq<u8>, b: Seq<u8>) -> Ord3
    decreases a.len(),
{
    if a.len() == 0 && b.len() == 0 {
        Ord3::Equiv
    } else if a.len() == 0 {
        Ord3::Less
    } else if b.len() == 0 {
        Ord3::Greater
    } else if a.first() < b.first() {
        Ord3::Less
    } else if b.first() < a.first() {
        Ord3::Greater
    } else {
        cmp_bytes(a.drop_first(), b.drop_first())
    }
}

/// Three-way comparison of integers.
pub open spec fn cmp_int(a: int, b: int) -> Ord3 {
    if a < b {
        Ord3::Less
    } else if b < a {
        Ord3::Greater
    } else {
        Ord3::Equiv
    }
}

/// The rank of a scalar's variant, ordering values of unlike type.
pub open spec fn srank(s: ScalarV) -> int {
    match s {
        ScalarV::Null => 0,
        ScalarV::Bool(_) => 1,
        ScalarV::Int(_) => 2,
        ScalarV::UInt(_) => 3,
        ScalarV::Num(_) => 4,
        ScalarV::Str(_) => 5,
        ScalarV::Bin(_) => 6,
        ScalarV::Date(_) => 7,
        ScalarV::Datetime(_) => 8,
        ScalarV::Time(_) => 9,
        ScalarV::Duration(_) => 10,
        ScalarV::Cat(_) => 11,
        ScalarV::Nested => 12,
    }
}

/// Three-way comparison of scalars: by variant rank, then by value.
/// Booleans order false before true; texts and byte strings order
/// lexicographically; categorical codes order by code.
pub open spec fn cmp_scalar(a: ScalarV, b: ScalarV) -> Ord3 {
    if srank(a) < srank(b) {
        Ord3::Less
    } else if srank(b) < srank(a) {
        Ord3::Greater
    } else {
        match (a, b) {
            (ScalarV::Bool(x), ScalarV::Bool(y)) => cmp_int(
                if x {
                    1int
                } else {
                    0int
                },
                if y {
                    1int
                } else {
                    0int
                },
            ),
            (ScalarV::Int(x), ScalarV::Int(y)) => cmp_int(x, y),
            (ScalarV::UInt(x), ScalarV::UInt(y)) => cmp_int(x, y),
            (ScalarV::Num(x), ScalarV::Num(y)) => cmp_int(x, y),
            (ScalarV::Str(x), ScalarV::Str(y)) => cmp_chars(x, y),
            (ScalarV::Bin(x), ScalarV::Bin(y)) => cmp_bytes(x, y),
            (ScalarV::Date(x), ScalarV::Date(y)) => cmp_int(x, y),
            (ScalarV::Datetime(x), ScalarV::Datetime(y)) => cmp_int(x, y),
            (ScalarV::Time(x), ScalarV::Time(y)) => cmp_int(x, y),
            (ScalarV::Duration(x), ScalarV::Duration(y)) => cmp_int(x, y),
            (ScalarV::Cat(x), ScalarV::Cat(y)) => cmp_int(x, y),
            _ => Ord3::Equiv,
        }
    }
}

/// The rank of a cell's shape: scalars, then lists, then structs.
pub open spec fn crank(c: CellV) -> int {
    match c {
        CellV::S(_) => 0,
        CellV::List(_) => 1,
        CellV::Record(_) => 2,
    }
}

/// Three-way comparison of cells. List cells compare as equivalent among
/// themselves, as do struct cells: the engine does not order composites.
pub open spec fn cmp_cell(a: CellV, b: CellV) -> Ord3 {
    if crank(a) < crank(b) {
        Ord3::Less
    } else if crank(b) < crank(a) {
        Ord3::Greater
    } else {
        match (a, b) {
            (CellV::S(x), CellV::S(y)) => cmp_scalar(x, y),
            _ => Ord3::Equiv,
        }
    }
}

/// Comparison of two cells under one sort key: null cells order last in
/// either direction; otherwise the cell comparison, reversed when the
/// key is descending.
pub open spec fn cell_sort_cmp(a: CellV, b: CellV, asc: bool) -> Ord3 {
    if is_null_cell(a) && is_null_cell(b) {
        Ord3::Equiv
    } else if is_null_cell(a) {
        Ord3::Greater
    } else if is_null_cell(b) {
        Ord3::Less
    } else if asc {
        cmp_cell(a, b)
    } else {
        flip(cmp_cell(a, b))
    }
}

// Reflexivity of the comparisons.
pub proof fn lemma_cmp_chars_refl(a: Seq<char>)
    ensures
        cmp_chars(a, a) == Ord3::Equiv,
    decreases a.len(),
{
    if a.len() > 0 {
        lemma_cmp_chars_refl(a.drop_first());
    }
}

pub proof fn lemma_cmp_bytes_refl(a: Seq<u8>)
    ensures
        cmp_bytes(a, a) == Ord3::Equiv,
    decreases a.len(),
{
    if a.len() > 0 {
        lemma_cmp_bytes_refl(a.drop_first());
    }
}

pub proof fn lemma_cmp_cell_refl(a: CellV)
    ensures
        cmp_cell(a, a) == Ord3::Equiv,
{
    match a {
        CellV::S(s) => match s {
            ScalarV::Str(x) => lemma_cmp_chars_refl(x),
            ScalarV::Bin(x) => lemma_cmp_bytes_refl(x),
            _ => (),
        },
        _ => (),
    }
}

// Antisymmetry: comparing the other way reverses the outcome.
pub proof fn lemma_cmp_chars_flip(a: Seq<char>, b: Seq<char>)
    ensures
        cmp_chars(b, a) == flip(cmp_chars(a, b)),
    decreases a.len(),
{
    if a.len() > 0 && b.len() > 0 && a.first() == b.first() {
        lemma_cmp_chars_flip(a.drop_first(), b.drop_first());
    }
}

pub proof fn lemma_cmp_bytes_flip(a: Seq<u8>, b: Seq<u8>)
    ensures
        cmp_bytes(b, a) == flip(cmp_bytes(a, b)),
    decreases a.len(),
{
    if a.len() > 0 && b.len() > 0 && a.first() == b.first() {
        lemma_cmp_bytes_flip(a.drop_first(), b.drop_first());
    }
}

pub proof fn lemma_cmp_cell_flip(a: CellV, b: CellV)
    ensures
        cmp_cell(b, a) == flip(cmp_cell(a, b)),
{
    match (a, b) {
        (CellV::S(x), CellV::S(y)) => match (x, y) {
            (ScalarV::Str(p), ScalarV::Str(q)) => lemma_cmp_chars_flip(p, q),
            (ScalarV::Bin(p), ScalarV::Bin(q)) => lemma_cmp_bytes_flip(p, q),
            _ => (),
        },
        _ => (),
    }
}

// Equivalent character and byte sequences are equal.
pub proof fn lemma_cmp_chars_equiv(a: Seq<char>, b: Seq<char>)
    requires
        cmp_chars(a, b) == Ord3::Equiv,
    ensures
        a == b,
    decreases a.len(),
{
    if a.len() > 0 && b.len() > 0 && a.first() == b.first() {
        lemma_cmp_chars_equiv(a.drop_first(), b.drop_first());
        assert(a =~= seq![a.first()] + a.drop_first());
        assert(b =~= seq![b.first()] + b.drop_first());
    } else {
        assert(a.len() == 0 && b.len() == 0);
        assert(a =~= b);
    }
}

pub proof fn lemma_cmp_bytes_equiv(a: Seq<u8>, b: Seq<u8>)
    requires
        cmp_bytes(a, b) == Ord3::Equiv,
    ensures
        a == b,
    decreases a.len(),
{
    if a.len() > 0 && b.len() > 0 && a.first() == b.first() {
        lemma_cmp_bytes_equiv(a.drop_first(), b.drop_first());
        assert(a =~= seq![a.first()] + a.drop_first());
        assert(b =~= seq![b.first()] + b.drop_first());
    } else {
        assert(a.len() == 0 && b.len() == 0);
        assert(a =~= b);
    }
}

/// Equivalent scalars are equal.
pub proof fn lemma_cmp_scalar_equiv(a: ScalarV, b: ScalarV)
    requires
        cmp_scalar(a, b) == Ord3::Equiv,
    ensures
        a == b,
{
    match (a, b) {
        (ScalarV::Str(p), ScalarV::Str(q)) => lemma_cmp_chars_equiv(p, q),
        (ScalarV::Bin(p), ScalarV::Bin(q)) => lemma_cmp_bytes_equiv(p, q),
        _ => (),
    }
}

// Transitivity of strict comparison.
pub proof fn lemma_cmp_chars_trans(a: Seq<char>, b: Seq<char>, c: Seq<char>)
    requires
        cmp_chars(a, b) == Ord3::Less,
        cmp_chars(b, c) == Ord3::Less,
    ensures
        cmp_chars(a, c) == Ord3::Less,
    decreases a.len() + b.len() + c.len(),
{
    if a.len() > 0 && b.len() > 0 && c.len() > 0 {
        if a.first() == b.first() && b.first() == c.first() {
            lemma_cmp_chars_trans(a.drop_first(), b.drop_first(), c.drop_first());
        }
    }
}

pub proof fn lemma_cmp_bytes_trans(a: Seq<u8>, b: Seq<u8>, c: Seq<u8>)
    requires
        cmp_bytes(a, b) == Ord3::Less,
        cmp_bytes(b, c) == Ord3::Less,
    ensures
        cmp_bytes(a, c) == Ord3::Less,
    decreases a.len() + b.len() + c.len(),
{
    if a.len() > 0 && b.len() > 0 && c.len() > 0 {
        if a.first() == b.first() && b.first() == c.first() {
            lemma_cmp_bytes_trans(a.drop_first(), b.drop_first(), c.drop_first());
        }
    }
}

/// Transitivity of the strict cell comparison.
pub proof fn lemma_cmp_cell_trans(a: CellV, b: CellV, c: CellV)
    requires
        cmp_cell(a, b) == Ord3::Less,
        cmp_cell(b, c) == Ord3::Less,
    ensures
        cmp_cell(a, c) == Ord3::Less,
{
    match (a, b, c) {
        (CellV::S(x), CellV::S(y), CellV::S(z)) => {
            if srank(x) == srank(y) && srank(y) == srank(z) {
                match (x, y, z) {
                    (ScalarV::Str(p), ScalarV::Str(q), ScalarV::Str(r)) => lemma_cmp_chars_trans(
                        p,
                        q,
                        r,
                    ),
                    (ScalarV::Bin(p), ScalarV::Bin(q), ScalarV::Bin(r)) => lemma_cmp_bytes_trans(
                        p,
                        q,
                        r,
                    ),
                    _ => (),
                }
            }
        },
        _ => (),
    }
}

/// Equivalence is a congruence for the cell comparison: cells comparing
/// as equivalent compare alike against every third cell.
pub proof fn lemma_cmp_cell_equiv_congr(a: CellV, b: CellV, c: CellV)
    requires
        cmp_cell(a, b) == Ord3::Equiv,
    ensures
        cmp_cell(a, c) == cmp_cell(b, c),
{
    match (a, b) {
        (CellV::S(x), CellV::S(y)) => {
            lemma_cmp_scalar_equiv(x, y);
        },
        _ => (),
    }
}

} // verus!

verus! {

use crate::dataset::{Dataset, ColumnV, ds_rows, ds_wf};

/// One resolved sort key: a column index and a direction.
pub struct SortKey {
    pub col: usize,
    pub asc: bool,
}

/// The mathematical value of a resolved sort key.
pub struct SortKeyV {
    pub col: int,
    pub asc: bool,
}

impl View for SortKey {
    type V = SortKeyV;

    open spec fn view(&self) -> SortKeyV {
        SortKeyV { col: self.col as int, asc: self.asc }
    }
}

/// The views of a key list.
pub open spec fn keys_view(ks: Seq<SortKey>) -> Seq<SortKeyV> {
    ks.map_values(|k: SortKey| k@)
}

/// Every key names a column of the dataset.
pub open spec fn keys_in_range(d: Seq<ColumnV>, keys: Seq<SortKeyV>) -> bool {
    forall|k: int| 0 <= k < keys.len() ==> 0 <= (#[trigger] keys[k]).col < d.len()
}

/// Multi-key comparison of rows `a` and `b`: the first key whose cells
/// differ decides.
pub open spec fn row_cmp(d: Seq<ColumnV>, keys: Seq<SortKeyV>, a: int, b: int) -> Ord3
    decreases keys.len(),
{
    if keys.len() == 0 {
        Ord3::Equiv
    } else {
        let k = keys.first();
        let o = cell_sort_cmp(d[k.col].cells[a], d[k.col].cells[b], k.asc);
        if o == Ord3::Equiv {
            row_cmp(d, keys.drop_first(), a, b)
        } else {
            o
        }
    }
}

/// The strict total order on row positions: key order first, ties broken
/// by the original position. Breaking ties on position is what makes the
/// sort stable and its sorted permutation unique.
pub open spec fn row_lt(d: Seq<ColumnV>, keys: Seq<SortKeyV>, a: int, b: int) -> bool {
    match row_cmp(d, keys, a, b) {
        Ord3::Less => true,
        Ord3::Equiv => a < b,
        Ord3::Greater => false,
    }
}

pub proof fn lemma_cell_sort_cmp_refl(a: CellV, asc: bool)
    ensures
        cell_sort_cmp(a, a, asc) == Ord3::Equiv,
{
    lemma_cmp_cell_refl(a);
}

pub proof fn lemma_cell_sort_cmp_flip(a: CellV, b: CellV, asc: bool)
    ensures
        cell_sort_cmp(b, a, asc) == flip(cell_sort_cmp(a, b, asc)),
{
    lemma_cmp_cell_flip(a, b);
}

pub proof fn lemma_cell_sort_cmp_trans(a: CellV, b: CellV, c: CellV, asc: bool)
    requires
        cell_sort_cmp(a, b, asc) == Ord3::Less,
        cell_sort_cmp(b, c, asc) == Ord3::Less,
    ensures
        cell_sort_cmp(a, c, asc) == Ord3::Less,
{
    if !is_null_cell(c) {
        if asc {
            lemma_cmp_cell_trans(a, b, c);
        } else {
            lemma_cmp_cell_flip(a, b);
            lemma_cmp_cell_flip(b, c);
            lemma_cmp_cell_flip(a, c);
            lemma_cmp_cell_trans(c, b, a);
        }
    }
}

pub proof fn lemma_cell_sort_cmp_equiv_congr(a: CellV, b: CellV, c: CellV, asc: bool)
    requires
        cell_sort_cmp(a, b, asc) == Ord3::Equiv,
    ensures
        cell_sort_cmp(a, c, asc) == cell_sort_cmp(b, c, asc),
{
    if is_null_cell(a) && is_null_cell(b) {
    } else {
        if asc {
            lemma_cmp_cell_equiv_congr(a, b, c);
        } else {
            lemma_cmp_cell_flip(a, b);
            lemma_cmp_cell_equiv_congr(b, a, c);
        }
    }
}

pub proof fn lemma_row_cmp_refl(d: Seq<ColumnV>, keys: Seq<SortKeyV>, a: int)
    ensures
        row_cmp(d, keys, a, a) == Ord3::Equiv,
    decreases keys.len(),
{
    if keys.len() > 0 {
        lemma_cell_sort_cmp_refl(d[keys.first().col].cells[a], keys.first().asc);
        lemma_row_cmp_refl(d, keys.drop_first(), a);
    }
}

pub proof fn lemma_row_cmp_flip(d: Seq<ColumnV>, keys: Seq<SortKeyV>, a: int, b: int)
    ensures
        row_cmp(d, keys, b, a) == flip(row_cmp(d, keys, a, b)),
    decreases keys.len(),
{
    if keys.len() > 0 {
        let k = keys.first();
        lemma_cell_sort_cmp_flip(d[k.col].cells[a], d[k.col].cells[b], k.asc);
        lemma_row_cmp_flip(d, keys.drop_first(), a, b);
    }
}

pub proof fn lemma_row_cmp_trans(d: Seq<ColumnV>, keys: Seq<SortKeyV>, a: int, b: int, c: int)
    requires
        row_cmp(d, keys, a, b) == Ord3::Less,
        row_cmp(d, keys, b, c) == Ord3::Less,
    ensures
        row_cmp(d, keys, a, c) == Ord3::Less,
    decreases keys.len(),
{
    if keys.len() > 0 {
        let k = keys.first();
        let ca = d[k.col].cells[a];
        let cb = d[k.col].cells[b];
        let cc = d[k.col].cells[c];
        let oab = cell_sort_cmp(ca, cb, k.asc);
        let obc = cell_sort_cmp(cb, cc, k.asc);
        if oab == Ord3::Less && obc == Ord3::Less {
            lemma_cell_sort_cmp_trans(ca, cb, cc, k.asc);
        } else if oab == Ord3::Less && obc == Ord3::Equiv {
            lemma_cell_sort_cmp_equiv_congr(cb, cc, ca, k.asc);
            lemma_cell_sort_cmp_flip(ca, cb, k.asc);
            lemma_cell_sort_cmp_flip(ca, cc, k.asc);
        } else if oab == Ord3::Equiv && obc == Ord3::Less {
            lemma_cell_sort_cmp_equiv_congr(ca, cb, cc, k.asc);
        } else {
            lemma_cell_sort_cmp_equiv_congr(ca, cb, cc, k.asc);
            lemma_row_cmp_trans(d, keys.drop_first(), a, b, c);
        }
    }
}

pub proof fn lemma_row_cmp_equiv_congr(d: Seq<ColumnV>, keys: Seq<SortKeyV>, a: int, b: int, c: int)
    requires
        row_cmp(d, keys, a, b) == Ord3::Equiv,
    ensures
        row_cmp(d, keys, a, c) == row_cmp(d, keys, b, c),
    decreases keys.len(),
{
    if keys.len() > 0 {
        let k = keys.first();
        let ca = d[k.col].cells[a];
        let cb = d[k.col].cells[b];
        let cc = d[k.col].cells[c];
        lemma_cell_sort_cmp_equiv_congr(ca, cb, cc, k.asc);
        lemma_row_cmp_equiv_congr(d, keys.drop_first(), a, b, c);
    }
}

/// The row order is irreflexive.
pub proof fn lemma_row_lt_irrefl(d: Seq<ColumnV>, keys: Seq<SortKeyV>, a: int)
    ensures
        !row_lt(d, keys, a, a),
{
    lemma_row_cmp_refl(d, keys, a);
}

/// The row order is total on distinct positions: exactly one direction
/// holds.
pub proof fn lemma_row_lt_total(d: Seq<ColumnV>, keys: Seq<SortKeyV>, a: int, b: int)
    requires
        a != b,
    ensures
        row_lt(d, keys, a, b) <==> !row_lt(d, keys, b, a),
{
    lemma_row_cmp_flip(d, keys, a, b);
}

/// The row order is transitive.
pub proof fn lemma_row_lt_trans(d: Seq<ColumnV>, keys: Seq<SortKeyV>, a: int, b: int, c: int)
    requires
        row_lt(d, keys, a, b),
        row_lt(d, keys, b, c),
    ensures
        row_lt(d, keys, a, c),
{
    let oab = row_cmp(d, keys, a, b);
    let obc = row_cmp(d, keys, b, c);
    if oab == Ord3::Less && obc == Ord3::Less {
        lemma_row_cmp_trans(d, keys, a, b, c);
    } else if oab == Ord3::Less && obc == Ord3::Equiv {
        lemma_row_cmp_equiv_congr(d, keys, b, c, a);
        lemma_row_cmp_flip(d, keys, a, b);
        lemma_row_cmp_flip(d, keys, a, c);
    } else if oab == Ord3::Equiv && obc == Ord3::Less {
        lemma_row_cmp_equiv_congr(d, keys, a, b, c);
    } else {
        lemma_row_cmp_equiv_congr(d, keys, a, b, c);
    }
}

/// Compares two string slices lexicographically.
fn cmp_str_exec(a: &str, b: &str) -> (r: Ord3)
    ensures
        r == cmp_chars(a@, b@),
{
    let la = a.unicode_len();
    let lb = b.unicode_len();
    let mut i: usize = 0;
    proof {
        assert(a@.skip(0) =~= a@);
        assert(b@.skip(0) =~= b@);
    }
    while i < la && i < lb
        invariant
            i <= la,
            i <= lb,
            la == a@.len(),
            lb == b@.len(),
            cmp_chars(a@, b@) == cmp_chars(a@.skip(i as int), b@.skip(i as int)),
        decreases la - i,
    {
        let ca = a.get_char(i);
        let cb = b.get_char(i);
        if ca < cb {
            return Ord3::Less;
        }
        if cb < ca {
            return Ord3::Greater;
        }
        proof {
            assert(a@.skip(i as int).drop_first() =~= a@.skip(i + 1));
            assert(b@.skip(i as int).drop_first() =~= b@.skip(i + 1));
        }
        i = i + 1;
    }
    if la == lb {
        Ord3::Equiv
    } else if la < lb {
        Ord3::Less
    } else {
        Ord3::Greater
    }
}

/// Compares two byte vectors lexicographically.
fn cmp_bytes_exec(a: &Vec<u8>, b: &Vec<u8>) -> (r: Ord3)
    ensures
        r == cmp_bytes(a@, b@),
{
    let la = a.len();
    let lb = b.len();
    let mut i: usize = 0;
    proof {
        assert(a@.skip(0) =~= a@);
        assert(b@.skip(0) =~= b@);
    }
    while i < la && i < lb
        invariant
            i <= la,
            i <= lb,
            la == a@.len(),
            lb == b@.len(),
            cmp_bytes(a@, b@) == cmp_bytes(a@.skip(i as int), b@.skip(i as int)),
        decreases la - i,
    {
        if a[i] < b[i] {
            return Ord3::Less;
        }
        if b[i] < a[i] {
            return Ord3::Greater;
        }
        proof {
            assert(a@.skip(i as int).drop_first() =~= a@.skip(i + 1));
            assert(b@.skip(i as int).drop_first() =~= b@.skip(i + 1));
        }
        i = i + 1;
    }
    if la == lb {
        Ord3::Equiv
    } else if la < lb {
        Ord3::Less
    } else {
        Ord3::Greater
    }
}

/// Three-way comparison of integers.
fn cmp_i128_exec(a: i128, b: i128) -> (r: Ord3)
    ensures
        r == cmp_int(a as int, b as int),
{
    if a < b {
        Ord3::Less
    } else if b < a {
        Ord3::Greater
    } else {
        Ord3::Equiv
    }
}

/// The rank of a scalar's variant.
fn srank_exec(s: &Scalar) -> (r: u8)
    ensures
        r as int == srank(s@),
{
    match s {
        Scalar::Null => 0,
        Scalar::Bool(_) => 1,
        Scalar::Int(_) => 2,
        Scalar::UInt(_) => 3,
        Scalar::Num(_) => 4,
        Scalar::Str(_) => 5,
        Scalar::Bin(_) => 6,
        Scalar::Date(_) => 7,
        Scalar::Datetime(_) => 8,
        Scalar::Time(_) => 9,
        Scalar::Duration(_) => 10,
        Scalar::Cat(_) => 11,
        Scalar::Nested => 12,
    }
}

/// Three-way comparison of scalars.
fn cmp_scalar_exec(a: &Scalar, b: &Scalar) -> (r: Ord3)
    ensures
        r == cmp_scalar(a@, b@),
{
    let ra = srank_exec(a);
    let rb = srank_exec(b);
    if ra < rb {
        return Ord3::Less;
    }
    if rb < ra {
        return Ord3::Greater;
    }
    match (a, b) {
        (Scalar::Bool(x), Scalar::Bool(y)) => cmp_i128_exec(
            if *x {
                1
            } else {
                0
            },
            if *y {
                1
            } else {
                0
            },
        ),
        (Scalar::Int(x), Scalar::Int(y)) => cmp_i128_exec(*x as i128, *y as i128),
        (Scalar::UInt(x), Scalar::UInt(y)) => cmp_i128_exec(*x as i128, *y as i128),
        (Scalar::Num(x), Scalar::Num(y)) => cmp_i128_exec(*x, *y),
        (Scalar::Str(x), Scalar::Str(y)) => cmp_str_exec(x.as_str(), y.as_str()),
        (Scalar::Bin(x), Scalar::Bin(y)) => cmp_bytes_exec(x, y),
        (Scalar::Date(x), Scalar::Date(y)) => cmp_i128_exec(*x as i128, *y as i128),
        (Scalar::Datetime(x), Scalar::Datetime(y)) => cmp_i128_exec(*x as i128, *y as i128),
        (Scalar::Time(x), Scalar::Time(y)) => cmp_i128_exec(*x as i128, *y as i128),
        (Scalar::Duration(x), Scalar::Duration(y)) => cmp_i128_exec(*x as i128, *y as i128),
        (Scalar::Cat(x), Scalar::Cat(y)) => cmp_i128_exec(*x as i128, *y as i128),
        _ => Ord3::Equiv,
    }
}

/// Three-way comparison of cells.
fn cmp_cell_exec(a: &Cell, b: &Cell) -> (r: Ord3)
    ensures
        r == cmp_cell(a@, b@),
{
    match (a, b) {
        (Cell::S(x), Cell::S(y)) => cmp_scalar_exec(x, y),
        (Cell::S(_), _) => Ord3::Less,
        (_, Cell::S(_)) => Ord3::Greater,
        (Cell::List(_), Cell::List(_)) => Ord3::Equiv,
        (Cell::List(_), Cell::Record(_)) => Ord3::Less,
        (Cell::Record(_), Cell::List(_)) => Ord3::Greater,
        (Cell::Record(_), Cell::Record(_)) => Ord3::Equiv,
    }
}

/// Comparison of two cells under one sort key.
fn cell_sort_cmp_exec(a: &Cell, b: &Cell, asc: bool) -> (r: Ord3)
    ensures
        r == cell_sort_cmp(a@, b@, asc),
{
    let na = a.is_null();
    let nb = b.is_null();
    if na && nb {
        Ord3::Equiv
    } else if na {
        Ord3::Greater
    } else if nb {
        Ord3::Less
    } else {
        let o = cmp_cell_exec(a, b);
        if asc {
            o
        } else {
            match o {
                Ord3::Less => Ord3::Greater,
                Ord3::Equiv => Ord3::Equiv,
                Ord3::Greater => Ord3::Less,
            }
        }
    }
}

/// Decides the strict row order between positions `a` and `b`.
pub fn row_lt_exec(df: &Dataset, keys: &Vec<SortKey>, a: usize, b: usize) -> (r: bool)
    requires
        ds_wf(df@),
        keys_in_range(df@, keys_view(keys@)),
        a < ds_rows(df@),
        b < ds_rows(df@),
    ensures
        r == row_lt(df@, keys_view(keys@), a as int, b as int),
{
    let ghost kv = keys_view(keys@);
    let mut i: usize = 0;
    proof {
        assert(kv.skip(0) =~= kv);
    }
    while i < keys.len()
        invariant
            i <= keys@.len(),
            kv == keys_view(keys@),
            ds_wf(df@),
            keys_in_range(df@, kv),
            a < ds_rows(df@),
            b < ds_rows(df@),
            row_cmp(df@, kv, a as int, b as int) == row_cmp(
                df@,
                kv.skip(i as int),
                a as int,
                b as int,
            ),
        decreases keys@.len() - i,
    {
        let k = &keys[i];
        proof {
            assert(kv[i as int] == keys@[i as int]@);
            assert(df@[k.col as int] == df.columns@[k.col as int]@);
            assert(df@[k.col as int].cells.len() == ds_rows(df@));
        }
        let col = &df.columns[k.col];
        let o = cell_sort_cmp_exec(&col.cells[a], &col.cells[b], k.asc);
        proof {
            assert(kv.skip(i as int).first() == kv[i as int]);
            assert(kv.skip(i as int).drop_first() =~= kv.skip(i + 1));
        }
        match o {
            Ord3::Less => {
                return true;
            },
            Ord3::Greater => {
                return false;
            },
            Ord3::Equiv => {
                i = i + 1;
            },
        }
    }
    proof {
        assert(kv.skip(kv.len() as int).len() == 0);
    }
    a < b
}

/// Sorts the row positions of a dataset: returns a permutation of
/// `0 .. height` that lists every position exactly once, in strictly
/// increasing row order (keys first, original position breaking ties).
pub fn sort_indices(df: &Dataset, keys: &Vec<SortKey>) -> (r: Vec<usize>)
    requires
        ds_wf(df@),
        keys_in_range(df@, keys_view(keys@)),
    ensures
        r@.len() == ds_rows(df@),
        forall|i: int| 0 <= i < r@.len() ==> (#[trigger] r@[i]) < ds_rows(df@),
        forall|x: usize| x < ds_rows(df@) ==> r@.contains(x),
        forall|i: int, j: int|
            0 <= i < j < r@.len() ==> row_lt(df@, keys_view(keys@), r@[i] as int, r@[j] as int),
{
    let ghost kv = keys_view(keys@);
    let n = df.height();
    let mut out: Vec<usize> = Vec::new();
    let mut v: usize = 0;
    while v < n
        invariant
            v <= n,
            kv == keys_view(keys@),
            ds_wf(df@),
            keys_in_range(df@, kv),
            n == ds_rows(df@),
            out@.len() == v,
            forall|i: int| 0 <= i < out@.len() ==> (#[trigger] out@[i]) < v,
            forall|x: usize| x < v ==> out@.contains(x),
            forall|i: int, j: int|
                0 <= i < j < out@.len() ==> row_lt(df@, kv, out@[i] as int, out@[j] as int),
        decreases n - v,
    {
        let mut p: usize = 0;
        while p < out.len() && !row_lt_exec(df, keys, v, out[p])
            invariant
                p <= out@.len(),
                kv == keys_view(keys@),
                ds_wf(df@),
                keys_in_range(df@, kv),
                n == ds_rows(df@),
                v < n,
                out@.len() == v,
                forall|i: int| 0 <= i < out@.len() ==> (#[trigger] out@[i]) < v,
                forall|q: int| 0 <= q < p ==> !row_lt(df@, kv, v as int, out@[q] as int),
            decreases out@.len() - p,
        {
            p = p + 1;
        }
        let ghost pre = out@;
        out.insert(p, v);
        proof {
            pre.insert_ensures(p as int, v);
            assert forall|i: int, j: int|
                0 <= i < j < out@.len() implies row_lt(df@, kv, out@[i] as int, out@[j] as int) by {
                if j < p {
                    assert(out@[i] == pre[i] && out@[j] == pre[j]);
                } else if i > p {
                    assert(out@[i] == pre[i - 1] && out@[j] == pre[j - 1]);
                } else if i < p && j == p {
                    assert(out@[i] == pre[i]);
                    assert(out@[j] == v);
                    assert(!row_lt(df@, kv, v as int, pre[i] as int));
                    assert(pre[i] != v);
                    lemma_row_lt_total(df@, kv, v as int, pre[i] as int);
                } else if i < p && j > p {
                    assert(out@[i] == pre[i] && out@[j] == pre[j - 1]);
                } else if i == p && j > p {
                    assert(out@[i] == v && out@[j] == pre[j - 1]);
                    if p < pre.len() {
                        assert(row_lt(df@, kv, v as int, pre[p as int] as int));
                        if j - 1 > p {
                            assert(row_lt(df@, kv, pre[p as int] as int, pre[j - 1] as int));
                            lemma_row_lt_trans(
                                df@,
                                kv,
                                v as int,
                                pre[p as int] as int,
                                pre[j - 1] as int,
                            );
                        }
                    }
                }
            }
            assert forall|x: usize| x < v + 1 implies out@.contains(x) by {
                if x == v {
                    assert(out@[p as int] == v);
                } else {
                    assert(pre.contains(x));
                    let w = choose|w: int| 0 <= w < pre.len() && pre[w] == x;
                    if w < p {
                        assert(out@[w] == x);
                    } else {
                        assert(out@[w + 1] == x);
                    }
                }
            }
        }
        v = v + 1;
    }
    out
}

/// A permutation of `0 .. n` strictly sorted by a total row order on a
/// dataset whose identity order is itself sorted must be the identity.
pub proof fn lemma_sorted_perm_identity(
    d: Seq<ColumnV>,
    keys: Seq<SortKeyV>,
    p: Seq<usize>,
    n: nat,
    k: nat,
)
    requires
        n <= usize::MAX,
        p.len() == n,
        forall|i: int| 0 <= i < p.len() ==> (#[trigger] p[i]) < n,
        forall|x: usize| x < n ==> p.contains(x),
        forall|i: int, j: int| 0 <= i < j < p.len() ==> row_lt(d, keys, p[i] as int, p[j] as int),
        forall|a: int, b: int| 0 <= a < b < n ==> row_lt(d, keys, a, b),
        forall|j: int| 0 <= j < k ==> p[j] == j,
        k <= n,
    ensures
        forall|j: int| 0 <= j < n ==> p[j] == j,
    decreases n - k,
{
    if k < n {
        if p[k as int] != k {
            // The value k must occur somewhere; it cannot occur before
            // position k, so it occurs strictly after.
            assert(p.contains(k as usize));
            let l = choose|l: int| 0 <= l < p.len() && p[l] == k;
            assert(l > k) by {
                if l < k {
                    assert(p[l] == l);
                }
            }
            // p[k] cannot be smaller than k: that value already sits at
            // its own position, and a strictly sorted sequence cannot
            // repeat a value.
            assert(p[k as int] > k) by {
                if p[k as int] < k {
                    let m = p[k as int] as int;
                    assert(p[m] == m);
                    assert(row_lt(d, keys, p[m] as int, p[k as int] as int));
                    lemma_row_lt_irrefl(d, keys, m);
                }
            }
            assert(row_lt(d, keys, p[k as int] as int, p[l] as int));
            assert(row_lt(d, keys, k as int, p[k as int] as int));
            lemma_row_lt_trans(d, keys, k as int, p[k as int] as int, k as int);
            lemma_row_lt_irrefl(d, keys, k as int);
        }
        lemma_sorted_perm_identity(d, keys, p, n, k + 1);
    }
}

} // verus!
