//! The mathematical semantics of the language: a total, deterministic
//! interpreter over the view types. Every contract of the executable
//! evaluator states that it returns exactly what these functions denote.
//!
//! Evaluation threads three pieces of state: the result (a value or an error
//! kind), the environment mapping, and the print log. A call-depth budget
//! (`fuel`) bounds user-function nesting; all other recursion is structural.
use vstd::prelude::*;
use crate::ast::{ExprV, StmtV, Infix, Prefix};
use crate::object::ObjV;

verus! {

/// The error kinds with which evaluation can stop.
#[derive(Debug, Clone, Copy, PartialEq, Eq, Structural)]
pub enum EvalError {
    /// An identifier was read, assigned, called or printed while unbound.
    UnboundIdentifier,
    /// A value of the wrong shape reached an operator or a built-in cell.
    TypeMismatch,
    /// A user function was called with the wrong number of arguments.
    ArityMismatch,
    /// An index expression or extraction reached outside the matrix.
    IndexOutOfRange,
    /// A built-in needed rectangular or equally sized matrices and got none.
    ShapeMismatch,
    /// A call matched no user function and no built-in shape.
    UnknownBuiltin,
    /// An integer division by zero.
    DivideByZero,
    /// An arithmetic result left the range of the integer type.
    Overflow,
    /// User-function calls nested deeper than the call-depth budget.
    RecursionLimit,
    /// A statement form the evaluator does not execute.
    InvalidStatement,
}

/// Outcome of evaluating one expression or statement.
#[verifier::ext_equal]
pub struct EvalOut {
    pub result: Result<ObjV, EvalError>,
    pub env: Map<Seq<char>, ObjV>,
    pub out: Seq<ObjV>,
}

/// Outcome of evaluating a list of expressions.
#[verifier::ext_equal]
pub struct ListOut {
    pub result: Result<Seq<ObjV>, EvalError>,
    pub env: Map<Seq<char>, ObjV>,
    pub out: Seq<ObjV>,
}

/// Outcome of evaluating the rows of a matrix literal.
#[verifier::ext_equal]
pub struct RowsOut {
    pub result: Result<Seq<Seq<ObjV>>, EvalError>,
    pub env: Map<Seq<char>, ObjV>,
    pub out: Seq<ObjV>,
}

pub open spec fn fits_i64(x: int) -> bool {
    i64::MIN <= x <= i64::MAX
}

/// Truncating integer division, as the machine division behaves.
pub open spec fn tdiv(x: int, d: int) -> int
    recommends
        d != 0,
{
    if x == 0 {
        0
    } else if x > 0 && d > 0 {
        x / d
    } else if x < 0 && d < 0 {
        (x * -1) / (d * -1)
    } else if x < 0 {
        ((x * -1) / d) * -1
    } else {
        (x / (d * -1)) * -1
    }
}

/// What an arithmetic or comparison operator yields on two integers.
pub open spec fn int_infix(op: Infix, a: int, b: int) -> Result<ObjV, EvalError> {
    match op {
        Infix::Plus => if fits_i64(a + b) {
            Ok(ObjV::Integer(a + b))
        } else {
            Err(EvalError::Overflow)
        },
        Infix::Minus => if fits_i64(a - b) {
            Ok(ObjV::Integer(a - b))
        } else {
            Err(EvalError::Overflow)
        },
        Infix::Multiply => if fits_i64(a * b) {
            Ok(ObjV::Integer(a * b))
        } else {
            Err(EvalError::Overflow)
        },
        Infix::Divide => if b == 0 {
            Err(EvalError::DivideByZero)
        } else if !fits_i64(tdiv(a, b)) {
            Err(EvalError::Overflow)
        } else {
            Ok(ObjV::Integer(tdiv(a, b)))
        },
        Infix::Equal => Ok(ObjV::Boolean(a == b)),
        Infix::NotEqual => Ok(ObjV::Boolean(a != b)),
        Infix::MoreThanAndEqual => Ok(ObjV::Boolean(a >= b)),
        Infix::MoreThan => Ok(ObjV::Boolean(a > b)),
        Infix::LessThanAndEqual => Ok(ObjV::Boolean(a <= b)),
        Infix::LessThan => Ok(ObjV::Boolean(a < b)),
        Infix::Assign => Err(EvalError::TypeMismatch),
    }
}

// ---------------------------------------------------------------------------
// Matrices
// ---------------------------------------------------------------------------

/// All rows have the first row's length.
pub open spec fn rectangular(rows: Seq<Seq<ObjV>>) -> bool {
    forall|i: int| 0 <= i < rows.len() ==> #[trigger] rows[i].len() == rows[0].len()
}

/// The column count: the first row's length, zero for no rows.
pub open spec fn mat_cols(rows: Seq<Seq<ObjV>>) -> int {
    if rows.len() == 0 {
        0
    } else {
        rows[0].len() as int
    }
}

pub open spec fn is_int_obj(o: ObjV) -> bool {
    o matches ObjV::Integer(_)
}

/// The integer a cell holds, zero for a cell of another shape.
pub open spec fn cell_int(o: ObjV) -> int {
    match o {
        ObjV::Integer(n) => n,
        _ => 0,
    }
}

/// Counts the cells of all rows; errors where the count leaves the integer
/// range.
pub open spec fn size_fold(rows: Seq<Seq<ObjV>>, i: nat, acc: int) -> Result<int, EvalError>
    decreases rows.len() - i,
{
    if i >= rows.len() {
        Ok(acc)
    } else if acc + rows[i as int].len() > i64::MAX {
        Err(EvalError::Overflow)
    } else {
        size_fold(rows, i + 1, acc + rows[i as int].len())
    }
}

/// Folds the greatest integer cell of one row into the running maximum,
/// passing cells of other shapes over.
pub open spec fn max_row_fold(row: Seq<ObjV>, j: nat, acc: int) -> int
    decreases row.len() - j,
{
    if j >= row.len() {
        acc
    } else {
        let acc2 = match row[j as int] {
            ObjV::Integer(n) => if n > acc {
                n
            } else {
                acc
            },
            _ => acc,
        };
        max_row_fold(row, j + 1, acc2)
    }
}

pub open spec fn max_fold(rows: Seq<Seq<ObjV>>, i: nat, acc: int) -> int
    decreases rows.len() - i,
{
    if i >= rows.len() {
        acc
    } else {
        max_fold(rows, i + 1, max_row_fold(rows[i as int], 0, acc))
    }
}

/// As `max_row_fold`, for the least cell.
pub open spec fn min_row_fold(row: Seq<ObjV>, j: nat, acc: int) -> int
    decreases row.len() - j,
{
    if j >= row.len() {
        acc
    } else {
        let acc2 = match row[j as int] {
            ObjV::Integer(n) => if n < acc {
                n
            } else {
                acc
            },
            _ => acc,
        };
        min_row_fold(row, j + 1, acc2)
    }
}

pub open spec fn min_fold(rows: Seq<Seq<ObjV>>, i: nat, acc: int) -> int
    decreases rows.len() - i,
{
    if i >= rows.len() {
        acc
    } else {
        min_fold(rows, i + 1, min_row_fold(rows[i as int], 0, acc))
    }
}

/// Sums the integer cells of one row; errors at the first partial sum out of
/// range.
pub open spec fn sum_row_fold(row: Seq<ObjV>, j: nat, acc: int) -> Result<int, EvalError>
    decreases row.len() - j,
{
    if j >= row.len() {
        Ok(acc)
    } else {
        match row[j as int] {
            ObjV::Integer(n) => if !fits_i64(acc + n) {
                Err(EvalError::Overflow)
            } else {
                sum_row_fold(row, j + 1, acc + n)
            },
            _ => sum_row_fold(row, j + 1, acc),
        }
    }
}

pub open spec fn sum_fold(rows: Seq<Seq<ObjV>>, i: nat, acc: int) -> Result<int, EvalError>
    decreases rows.len() - i,
{
    if i >= rows.len() {
        Ok(acc)
    } else {
        match sum_row_fold(rows[i as int], 0, acc) {
            Ok(acc2) => sum_fold(rows, i + 1, acc2),
            Err(e) => Err(e),
        }
    }
}

/// Scales the integer cells of one row by a constant, dropping cells of other
/// shapes; errors at the first product out of range.
pub open spec fn scale_row(row: Seq<ObjV>, c: int, j: nat, acc: Seq<ObjV>) -> Result<
    Seq<ObjV>,
    EvalError,
>
    decreases row.len() - j,
{
    if j >= row.len() {
        Ok(acc)
    } else {
        match row[j as int] {
            ObjV::Integer(n) => if !fits_i64(n * c) {
                Err(EvalError::Overflow)
            } else {
                scale_row(row, c, j + 1, acc.push(ObjV::Integer(n * c)))
            },
            _ => scale_row(row, c, j + 1, acc),
        }
    }
}

pub open spec fn scale_rows(rows: Seq<Seq<ObjV>>, c: int, i: nat, acc: Seq<Seq<ObjV>>) -> Result<
    Seq<Seq<ObjV>>,
    EvalError,
>
    decreases rows.len() - i,
{
    if i >= rows.len() {
        Ok(acc)
    } else {
        match scale_row(rows[i as int], c, 0, Seq::empty()) {
            Ok(r) => scale_rows(rows, c, i + 1, acc.push(r)),
            Err(e) => Err(e),
        }
    }
}

/// Divides the integer cells of one row by a constant, dropping cells of
/// other shapes; errors on division by zero or a quotient out of range.
pub open spec fn div_row(row: Seq<ObjV>, c: int, j: nat, acc: Seq<ObjV>) -> Result<
    Seq<ObjV>,
    EvalError,
>
    decreases row.len() - j,
{
    if j >= row.len() {
        Ok(acc)
    } else {
        match row[j as int] {
            ObjV::Integer(n) => if c == 0 {
                Err(EvalError::DivideByZero)
            } else if !fits_i64(tdiv(n, c)) {
                Err(EvalError::Overflow)
            } else {
                div_row(row, c, j + 1, acc.push(ObjV::Integer(tdiv(n, c))))
            },
            _ => div_row(row, c, j + 1, acc),
        }
    }
}

pub open spec fn div_rows(rows: Seq<Seq<ObjV>>, c: int, i: nat, acc: Seq<Seq<ObjV>>) -> Result<
    Seq<Seq<ObjV>>,
    EvalError,
>
    decreases rows.len() - i,
{
    if i >= rows.len() {
        Ok(acc)
    } else {
        match div_row(rows[i as int], c, 0, Seq::empty()) {
            Ok(r) => div_rows(rows, c, i + 1, acc.push(r)),
            Err(e) => Err(e),
        }
    }
}

/// Sums or subtracts two rows cell by cell, dropping positions where either
/// cell is not an integer; errors at the first result out of range.
pub open spec fn addsub_row(
    ra: Seq<ObjV>,
    rb: Seq<ObjV>,
    sub: bool,
    j: nat,
    acc: Seq<ObjV>,
) -> Result<Seq<ObjV>, EvalError>
    decreases ra.len() - j,
{
    if j >= ra.len() || j >= rb.len() {
        Ok(acc)
    } else {
        match (ra[j as int], rb[j as int]) {
            (ObjV::Integer(a), ObjV::Integer(b)) => {
                let v = if sub {
                    a - b
                } else {
                    a + b
                };
                if !fits_i64(v) {
                    Err(EvalError::Overflow)
                } else {
                    addsub_row(ra, rb, sub, j + 1, acc.push(ObjV::Integer(v)))
                }
            },
            _ => addsub_row(ra, rb, sub, j + 1, acc),
        }
    }
}

pub open spec fn addsub_rows(
    a: Seq<Seq<ObjV>>,
    b: Seq<Seq<ObjV>>,
    sub: bool,
    i: nat,
    acc: Seq<Seq<ObjV>>,
) -> Result<Seq<Seq<ObjV>>, EvalError>
    decreases a.len() - i,
{
    if i >= a.len() || i >= b.len() {
        Ok(acc)
    } else {
        match addsub_row(a[i as int], b[i as int], sub, 0, Seq::empty()) {
            Ok(r) => addsub_rows(a, b, sub, i + 1, acc.push(r)),
            Err(e) => Err(e),
        }
    }
}

/// The sum or difference of two cells, as the elementwise operations take
/// them.
pub open spec fn addsub_cell(x: ObjV, y: ObjV, sub: bool) -> int {
    if sub {
        cell_int(x) - cell_int(y)
    } else {
        cell_int(x) + cell_int(y)
    }
}

/// Elementwise correctness of one row of a matrix sum or difference: with
/// integer cells and no value out of range, each position of the result
/// holds exactly the sum or difference of the two cells at that position.
pub proof fn lemma_addsub_row_cells(ra: Seq<ObjV>, rb: Seq<ObjV>, sub: bool, j: nat, acc: Seq<ObjV>)
    requires
        ra.len() == rb.len(),
        j <= ra.len(),
        forall|m: int| j <= m < ra.len() ==> is_int_obj(#[trigger] ra[m]) && is_int_obj(rb[m]),
        forall|m: int| j <= m < ra.len() ==> fits_i64(addsub_cell(#[trigger] ra[m], rb[m], sub)),
    ensures
        addsub_row(ra, rb, sub, j, acc) matches Ok(res) && res.len() == acc.len() + ra.len() - j
            && (forall|m: int| 0 <= m < acc.len() ==> #[trigger] res[m] == acc[m]) && (forall|
            m: int,
        |
            j <= m < ra.len() ==> #[trigger] res[acc.len() + m - j] == ObjV::Integer(
                addsub_cell(ra[m], rb[m], sub),
            )),
    decreases ra.len() - j,
{
    if j < ra.len() {
        assert(is_int_obj(ra[j as int]) && is_int_obj(rb[j as int]));
        assert(fits_i64(addsub_cell(ra[j as int], rb[j as int], sub)));
        let v = addsub_cell(ra[j as int], rb[j as int], sub);
        let acc2 = acc.push(ObjV::Integer(v));
        lemma_addsub_row_cells(ra, rb, sub, j + 1, acc2);
        let res = addsub_row(ra, rb, sub, j + 1, acc2)->Ok_0;
        assert(addsub_row(ra, rb, sub, j, acc) == addsub_row(ra, rb, sub, j + 1, acc2));
        assert forall|m: int| 0 <= m < acc.len() implies #[trigger] res[m] == acc[m] by {
            assert(res[m] == acc2[m]);
        }
        assert forall|m: int| j <= m < ra.len() implies #[trigger] res[acc.len() + m - j]
            == ObjV::Integer(addsub_cell(ra[m], rb[m], sub)) by {
            if m == j {
                assert(res[acc2.len() - 1] == acc2[acc2.len() - 1]);
            } else {
                assert(res[acc2.len() + m - (j + 1)] == ObjV::Integer(
                    addsub_cell(ra[m], rb[m], sub),
                ));
            }
        }
    }
}

/// Elementwise correctness of a matrix sum or difference (`add_matrix` and
/// `diff_matrix`): on two matrices of one shape whose cells are integers,
/// with no sum or difference out of range, the operation succeeds and cell
/// `(i, j)` of the result is exactly the sum or difference of the two cells
/// at `(i, j)`.
pub proof fn lemma_addsub_elementwise(a: Seq<Seq<ObjV>>, b: Seq<Seq<ObjV>>, sub: bool)
    requires
        a.len() == b.len(),
        forall|i: int| 0 <= i < a.len() ==> #[trigger] a[i].len() == b[i].len(),
        forall|i: int, m: int| 0 <= i < a.len() && 0 <= m < a[i].len() ==> is_int_obj(
            #[trigger] a[i][m],
        ) && is_int_obj(b[i][m]),
        forall|i: int, m: int| 0 <= i < a.len() && 0 <= m < a[i].len() ==> fits_i64(
            addsub_cell(#[trigger] a[i][m], b[i][m], sub),
        ),
    ensures
        addsub_rows(a, b, sub, 0, Seq::empty()) matches Ok(c) && c.len() == a.len() && (forall|
            i: int,
        | 0 <= i < a.len() ==> #[trigger] c[i].len() == a[i].len()) && (forall|i: int, m: int|
            0 <= i < a.len() && 0 <= m < a[i].len() ==> #[trigger] c[i][m] == ObjV::Integer(
                addsub_cell(a[i][m], b[i][m], sub),
            )),
{
    lemma_addsub_rows_cells(a, b, sub, 0, Seq::empty());
    let c = addsub_rows(a, b, sub, 0, Seq::empty())->Ok_0;
    assert forall|i: int| 0 <= i < a.len() implies #[trigger] c[i].len() == a[i].len() by {
        assert(c[0 + i - 0].len() == a[i].len());
    }
    assert forall|i: int, m: int| 0 <= i < a.len() && 0 <= m < a[i].len() implies #[trigger] c[i][m]
        == ObjV::Integer(addsub_cell(a[i][m], b[i][m], sub)) by {
        assert(c[0 + i - 0][m] == ObjV::Integer(addsub_cell(a[i][m], b[i][m], sub)));
    }
}

/// The row-by-row induction behind `lemma_addsub_elementwise`.
proof fn lemma_addsub_rows_cells(
    a: Seq<Seq<ObjV>>,
    b: Seq<Seq<ObjV>>,
    sub: bool,
    i: nat,
    acc: Seq<Seq<ObjV>>,
)
    requires
        a.len() == b.len(),
        i <= a.len(),
        forall|k: int| i <= k < a.len() ==> #[trigger] a[k].len() == b[k].len(),
        forall|k: int, m: int| i <= k < a.len() && 0 <= m < a[k].len() ==> is_int_obj(
            #[trigger] a[k][m],
        ) && is_int_obj(b[k][m]),
        forall|k: int, m: int| i <= k < a.len() && 0 <= m < a[k].len() ==> fits_i64(
            addsub_cell(#[trigger] a[k][m], b[k][m], sub),
        ),
    ensures
        addsub_rows(a, b, sub, i, acc) matches Ok(c) && c.len() == acc.len() + a.len() - i && (
        forall|k: int| 0 <= k < acc.len() ==> #[trigger] c[k] == acc[k]) && (forall|k: int|
            i <= k < a.len() ==> #[trigger] c[acc.len() + k - i].len() == a[k].len()) && (forall|
            k: int,
            m: int,
        |
            i <= k < a.len() && 0 <= m < a[k].len() ==> #[trigger] c[acc.len() + k - i][m]
                == ObjV::Integer(addsub_cell(a[k][m], b[k][m], sub))),
    decreases a.len() - i,
{
    if i < a.len() {
        lemma_addsub_row_cells(a[i as int], b[i as int], sub, 0, Seq::empty());
        let row = addsub_row(a[i as int], b[i as int], sub, 0, Seq::empty())->Ok_0;
        let acc2 = acc.push(row);
        lemma_addsub_rows_cells(a, b, sub, i + 1, acc2);
        let c = addsub_rows(a, b, sub, i + 1, acc2)->Ok_0;
        assert(addsub_rows(a, b, sub, i, acc) == addsub_rows(a, b, sub, i + 1, acc2));
        assert forall|k: int| 0 <= k < acc.len() implies #[trigger] c[k] == acc[k] by {
            assert(c[k] == acc2[k]);
        }
        assert forall|k: int| i <= k < a.len() implies #[trigger] c[acc.len() + k - i].len()
            == a[k].len() by {
            if k == i {
                assert(c[acc2.len() - 1] == acc2[acc2.len() - 1]);
            } else {
                assert(c[acc2.len() + k - (i + 1)].len() == a[k].len());
            }
        }
        let base = acc.len() as int;
        assert forall|k: int, m: int| i <= k < a.len() && 0 <= m < a[k].len() implies #[trigger] (c[
            base + k - i][m]) == ObjV::Integer(addsub_cell(a[k][m], b[k][m], sub)) by {
            if k == i {
                assert(c[acc2.len() - 1] == acc2[acc2.len() - 1]);
                assert(row[0 + m - 0] == ObjV::Integer(addsub_cell(a[k][m], b[k][m], sub)));
            } else {
                assert(c[acc2.len() + k - (i + 1)][m] == ObjV::Integer(
                    addsub_cell(a[k][m], b[k][m], sub),
                ));
            }
        }
    }
}

/// One column of a matrix, top to bottom, integer cells only.
pub open spec fn col_cells(rows: Seq<Seq<ObjV>>, j: int, i: nat, acc: Seq<ObjV>) -> Seq<ObjV>
    decreases rows.len() - i,
{
    if i >= rows.len() {
        acc
    } else {
        let acc2 = if 0 <= j < rows[i as int].len() && is_int_obj(rows[i as int][j]) {
            acc.push(rows[i as int][j])
        } else {
            acc
        };
        col_cells(rows, j, i + 1, acc2)
    }
}

/// The transposed matrix: one row per column of the input.
pub open spec fn transpose_fold(rows: Seq<Seq<ObjV>>, j: nat, acc: Seq<Seq<ObjV>>) -> Seq<
    Seq<ObjV>,
>
    decreases mat_cols(rows) - j,
{
    if j >= mat_cols(rows) {
        acc
    } else {
        transpose_fold(rows, j + 1, acc.push(col_cells(rows, j as int, 0, Seq::empty())))
    }
}

/// The integer cells of one row, in order.
pub open spec fn int_cells(row: Seq<ObjV>, j: nat, acc: Seq<ObjV>) -> Seq<ObjV>
    decreases row.len() - j,
{
    if j >= row.len() {
        acc
    } else {
        let acc2 = if is_int_obj(row[j as int]) {
            acc.push(row[j as int])
        } else {
            acc
        };
        int_cells(row, j + 1, acc2)
    }
}

/// Every row reduced to its integer cells.
pub open spec fn int_rows(rows: Seq<Seq<ObjV>>, i: nat, acc: Seq<Seq<ObjV>>) -> Seq<Seq<ObjV>>
    decreases rows.len() - i,
{
    if i >= rows.len() {
        acc
    } else {
        int_rows(rows, i + 1, acc.push(int_cells(rows[i as int], 0, Seq::empty())))
    }
}

/// One cell of the matrix product: the inner product of a row of the first
/// matrix with a column of the second, cells of other shapes counting as
/// zero; errors at the first product or partial sum out of range.
pub open spec fn dot_cell(
    arow: Seq<ObjV>,
    b: Seq<Seq<ObjV>>,
    c: int,
    k: nat,
    acc: int,
) -> Result<int, EvalError>
    decreases arow.len() - k,
{
    if k >= arow.len() || k >= b.len() {
        Ok(acc)
    } else {
        let bc = if 0 <= c < b[k as int].len() {
            cell_int(b[k as int][c])
        } else {
            0
        };
        let t = cell_int(arow[k as int]) * bc;
        if !fits_i64(t) {
            Err(EvalError::Overflow)
        } else if !fits_i64(acc + t) {
            Err(EvalError::Overflow)
        } else {
            dot_cell(arow, b, c, k + 1, acc + t)
        }
    }
}

/// One row of the matrix product.
pub open spec fn dot_row(
    arow: Seq<ObjV>,
    b: Seq<Seq<ObjV>>,
    c: nat,
    acc: Seq<ObjV>,
) -> Result<Seq<ObjV>, EvalError>
    decreases mat_cols(b) - c,
{
    if c >= mat_cols(b) {
        Ok(acc)
    } else {
        match dot_cell(arow, b, c as int, 0, 0) {
            Ok(v) => dot_row(arow, b, c + 1, acc.push(ObjV::Integer(v))),
            Err(e) => Err(e),
        }
    }
}

/// The matrix product, row by row.
pub open spec fn dot_rows(
    a: Seq<Seq<ObjV>>,
    b: Seq<Seq<ObjV>>,
    i: nat,
    acc: Seq<Seq<ObjV>>,
) -> Result<Seq<Seq<ObjV>>, EvalError>
    decreases a.len() - i,
{
    if i >= a.len() {
        Ok(acc)
    } else {
        match dot_row(a[i as int], b, 0, Seq::empty()) {
            Ok(r) => dot_rows(a, b, i + 1, acc.push(r)),
            Err(e) => Err(e),
        }
    }
}

// ---------------------------------------------------------------------------
// Built-in dispatch
// ---------------------------------------------------------------------------

/// The one matrix argument of a one-argument built-in, if the shape fits.
pub open spec fn shape_arr(args: Seq<ObjV>) -> Option<Seq<Seq<ObjV>>> {
    if args.len() == 1 {
        match args[0] {
            ObjV::Array(rows) => Some(rows),
            _ => None,
        }
    } else {
        None
    }
}

/// The two matrix arguments of a two-matrix built-in, if the shapes fit.
pub open spec fn shape_arr_arr(args: Seq<ObjV>) -> Option<(Seq<Seq<ObjV>>, Seq<Seq<ObjV>>)> {
    if args.len() == 2 {
        match (args[0], args[1]) {
            (ObjV::Array(a), ObjV::Array(b)) => Some((a, b)),
            _ => None,
        }
    } else {
        None
    }
}

/// A matrix and a scalar, if the shapes fit.
pub open spec fn shape_arr_int(args: Seq<ObjV>) -> Option<(Seq<Seq<ObjV>>, int)> {
    if args.len() == 2 {
        match (args[0], args[1]) {
            (ObjV::Array(rows), ObjV::Integer(c)) => Some((rows, c)),
            _ => None,
        }
    } else {
        None
    }
}

/// A scalar and a matrix, if the shapes fit.
pub open spec fn shape_int_arr(args: Seq<ObjV>) -> Option<(int, Seq<Seq<ObjV>>)> {
    if args.len() == 2 {
        match (args[0], args[1]) {
            (ObjV::Integer(c), ObjV::Array(rows)) => Some((c, rows)),
            _ => None,
        }
    } else {
        None
    }
}

pub open spec fn builtin_ok(v: ObjV, env: Map<Seq<char>, ObjV>, out: Seq<ObjV>) -> EvalOut {
    EvalOut { result: Ok(v), env, out }
}

pub open spec fn builtin_err(e: EvalError, env: Map<Seq<char>, ObjV>, out: Seq<ObjV>) -> EvalOut {
    EvalOut { result: Err(e), env, out }
}

/// What a built-in call yields: dispatch over the name and the shapes of the
/// already evaluated arguments. A name-and-shape pair outside the table is an
/// unknown built-in.
pub open spec fn seval_builtin(
    name: Seq<char>,
    args: Seq<ObjV>,
    env: Map<Seq<char>, ObjV>,
    out: Seq<ObjV>,
) -> EvalOut {
    if name == "size"@ && shape_arr(args) is Some {
        let rows = shape_arr(args)->Some_0;
        match size_fold(rows, 0, 0) {
            Ok(n) => builtin_ok(ObjV::Integer(n), env, out),
            Err(e) => builtin_err(e, env, out),
        }
    } else if name == "max"@ && shape_arr(args) is Some {
        let rows = shape_arr(args)->Some_0;
        builtin_ok(ObjV::Integer(max_fold(rows, 0, i64::MIN as int)), env, out)
    } else if name == "min"@ && shape_arr(args) is Some {
        let rows = shape_arr(args)->Some_0;
        builtin_ok(ObjV::Integer(min_fold(rows, 0, i64::MAX as int)), env, out)
    } else if name == "sum"@ && shape_arr(args) is Some {
        let rows = shape_arr(args)->Some_0;
        match sum_fold(rows, 0, 0) {
            Ok(n) => builtin_ok(ObjV::Integer(n), env, out),
            Err(e) => builtin_err(e, env, out),
        }
    } else if name == "constant_product"@ && shape_arr_int(args) is Some {
        let (rows, c) = shape_arr_int(args)->Some_0;
        match scale_rows(rows, c, 0, Seq::empty()) {
            Ok(r) => builtin_ok(ObjV::Array(r), env, out),
            Err(e) => builtin_err(e, env, out),
        }
    } else if name == "constant_division"@ && shape_arr_int(args) is Some {
        let (rows, c) = shape_arr_int(args)->Some_0;
        match div_rows(rows, c, 0, Seq::empty()) {
            Ok(r) => builtin_ok(ObjV::Array(r), env, out),
            Err(e) => builtin_err(e, env, out),
        }
    } else if name == "dot_product"@ && shape_arr_arr(args) is Some {
        let (a, b) = shape_arr_arr(args)->Some_0;
        if !rectangular(a) || !rectangular(b) {
            builtin_err(EvalError::ShapeMismatch, env, out)
        } else if mat_cols(a) != b.len() {
            builtin_err(EvalError::ShapeMismatch, env, out)
        } else {
            match dot_rows(a, b, 0, Seq::empty()) {
                Ok(r) => builtin_ok(ObjV::Array(r), env, out),
                Err(e) => builtin_err(e, env, out),
            }
        }
    } else if name == "transpose_matrix"@ && shape_arr(args) is Some {
        let rows = shape_arr(args)->Some_0;
        if !rectangular(rows) {
            builtin_err(EvalError::ShapeMismatch, env, out)
        } else {
            builtin_ok(ObjV::Array(transpose_fold(rows, 0, Seq::empty())), env, out)
        }
    } else if name == "add_matrix"@ && shape_arr_arr(args) is Some {
        let (a, b) = shape_arr_arr(args)->Some_0;
        if !rectangular(a) || !rectangular(b) {
            builtin_err(EvalError::ShapeMismatch, env, out)
        } else if a.len() != b.len() || mat_cols(a) != mat_cols(b) {
            builtin_err(EvalError::ShapeMismatch, env, out)
        } else {
            match addsub_rows(a, b, false, 0, Seq::empty()) {
                Ok(r) => builtin_ok(ObjV::Array(r), env, out),
                Err(e) => builtin_err(e, env, out),
            }
        }
    } else if name == "diff_matrix"@ && shape_arr_arr(args) is Some {
        let (a, b) = shape_arr_arr(args)->Some_0;
        if !rectangular(a) || !rectangular(b) {
            builtin_err(EvalError::ShapeMismatch, env, out)
        } else if a.len() != b.len() || mat_cols(a) != mat_cols(b) {
            builtin_err(EvalError::ShapeMismatch, env, out)
        } else {
            match addsub_rows(a, b, true, 0, Seq::empty()) {
                Ok(r) => builtin_ok(ObjV::Array(r), env, out),
                Err(e) => builtin_err(e, env, out),
            }
        }
    } else if name == "get_row"@ && shape_int_arr(args) is Some {
        let (idx, rows) = shape_int_arr(args)->Some_0;
        if idx <= 0 || idx > rows.len() {
            builtin_err(EvalError::IndexOutOfRange, env, out)
        } else {
            builtin_ok(
                ObjV::Array(seq![int_cells(rows[idx - 1], 0, Seq::empty())]),
                env,
                out,
            )
        }
    } else if name == "get_col"@ && shape_int_arr(args) is Some {
        let (idx, rows) = shape_int_arr(args)->Some_0;
        if !rectangular(rows) {
            builtin_err(EvalError::ShapeMismatch, env, out)
        } else if idx <= 0 || idx > mat_cols(rows) {
            builtin_err(EvalError::IndexOutOfRange, env, out)
        } else {
            builtin_ok(ObjV::Array(seq![col_cells(rows, idx - 1, 0, Seq::empty())]), env, out)
        }
    } else if name == "print"@ && shape_arr(args) is Some {
        let rows = shape_arr(args)->Some_0;
        let filtered = int_rows(rows, 0, Seq::empty());
        EvalOut {
            result: Ok(ObjV::Array(filtered)),
            env,
            out: out.push(ObjV::Array(filtered)),
        }
    } else if name == "print"@ && args.len() == 1 && args[0] matches ObjV::Integer(_) {
        EvalOut { result: Ok(args[0]), env, out: out.push(args[0]) }
    } else if name == "print"@ && args.len() == 1 && args[0] matches ObjV::String(_) {
        let key = args[0]->String_0;
        if env.contains_key(key) {
            EvalOut { result: Ok(env[key]), env, out: out.push(env[key]) }
        } else {
            builtin_err(EvalError::UnboundIdentifier, env, out)
        }
    } else {
        builtin_err(EvalError::UnknownBuiltin, env, out)
    }
}

// ---------------------------------------------------------------------------
// The interpreter
// ---------------------------------------------------------------------------

/// The environment of a function call: each parameter bound to its argument,
/// left to right.
pub open spec fn bind_params(params: Seq<Seq<char>>, vals: Seq<ObjV>) -> Map<Seq<char>, ObjV>
    decreases params,
{
    if params.len() == 0 || vals.len() == 0 {
        Map::empty()
    } else {
        bind_params(params.drop_last(), vals.drop_last()).insert(params.last(), vals.last())
    }
}

/// What one expression evaluates to.
pub open spec fn seval_expr(
    e: ExprV,
    env: Map<Seq<char>, ObjV>,
    out: Seq<ObjV>,
    fuel: nat,
) -> EvalOut
    decreases fuel, e, 1int,
{
    match e {
        ExprV::Integer(n) => EvalOut { result: Ok(ObjV::Integer(n)), env, out },
        ExprV::Bool(b) => EvalOut { result: Ok(ObjV::Boolean(b)), env, out },
        ExprV::Identifier(name) => if env.contains_key(name) {
            EvalOut { result: Ok(ObjV::String(name)), env, out: out.push(env[name]) }
        } else {
            EvalOut { result: Err(EvalError::UnboundIdentifier), env, out }
        },
        ExprV::Function(name, params, body) => EvalOut {
            result: Ok(ObjV::Function(name, params, body)),
            env,
            out,
        },
        ExprV::Array(rows) => {
            let r = seval_rows(rows, env, out, fuel, Seq::empty());
            match r.result {
                Ok(vals) => EvalOut { result: Ok(ObjV::Array(vals)), env: r.env, out: r.out },
                Err(er) => EvalOut { result: Err(er), env: r.env, out: r.out },
            }
        },
        ExprV::Prefix(op, inner) => match op {
            Prefix::Not => {
                let r = seval_expr(*inner, env, out, fuel);
                match r.result {
                    Ok(ObjV::Boolean(b)) => EvalOut {
                        result: Ok(ObjV::Boolean(!b)),
                        env: r.env,
                        out: r.out,
                    },
                    Ok(_) => EvalOut { result: Err(EvalError::TypeMismatch), env: r.env, out: r.out },
                    Err(er) => r,
                }
            },
            Prefix::Minus => {
                let r = seval_expr(*inner, env, out, fuel);
                match r.result {
                    Ok(ObjV::Integer(n)) => if !fits_i64(-n) {
                        EvalOut { result: Err(EvalError::Overflow), env: r.env, out: r.out }
                    } else {
                        EvalOut { result: Ok(ObjV::Integer(-n)), env: r.env, out: r.out }
                    },
                    Ok(_) => EvalOut { result: Err(EvalError::TypeMismatch), env: r.env, out: r.out },
                    Err(er) => r,
                }
            },
            Prefix::Plus => EvalOut { result: Ok(ObjV::Null), env, out },
        },
        ExprV::Infix(op, lhs, rhs) => if op is Assign {
            seval_assign(e, env, out, fuel)
        } else {
            let r1 = seval_expr(*lhs, env, out, fuel);
            match r1.result {
                Err(_) => r1,
                Ok(v1) => {
                    let r2 = seval_expr(*rhs, r1.env, r1.out, fuel);
                    match r2.result {
                        Err(_) => r2,
                        Ok(v2) => match (v1, v2) {
                            (ObjV::Integer(a), ObjV::Integer(b)) => EvalOut {
                                result: int_infix(op, a, b),
                                env: r2.env,
                                out: r2.out,
                            },
                            _ => EvalOut {
                                result: Err(EvalError::TypeMismatch),
                                env: r2.env,
                                out: r2.out,
                            },
                        },
                    }
                },
            }
        },
        ExprV::Index(target, first, second) => {
            let rt = seval_expr(*target, env, out, fuel);
            match rt.result {
                Err(_) => rt,
                Ok(tv) => match tv {
                    ObjV::String(name) => if rt.env.contains_key(name) && rt.env[name] matches
                        ObjV::Array(_) {
                        let rows = rt.env[name]->Array_0;
                        let r1 = seval_expr(*first, rt.env, rt.out, fuel);
                        match r1.result {
                            Err(_) => r1,
                            Ok(ObjV::Integer(i)) => match second {
                                Some(se) => {
                                    let r2 = seval_expr(*se, r1.env, r1.out, fuel);
                                    match r2.result {
                                        Err(_) => r2,
                                        Ok(ObjV::Integer(j)) => if 0 <= i < rows.len() && 0 <= j
                                            < rows[i].len() {
                                            if rows[i][j] matches ObjV::Integer(_) {
                                                EvalOut {
                                                    result: Ok(rows[i][j]),
                                                    env: r2.env,
                                                    out: r2.out,
                                                }
                                            } else {
                                                EvalOut {
                                                    result: Err(EvalError::TypeMismatch),
                                                    env: r2.env,
                                                    out: r2.out,
                                                }
                                            }
                                        } else {
                                            EvalOut {
                                                result: Err(EvalError::IndexOutOfRange),
                                                env: r2.env,
                                                out: r2.out,
                                            }
                                        },
                                        Ok(_) => EvalOut {
                                            result: Err(EvalError::TypeMismatch),
                                            env: r2.env,
                                            out: r2.out,
                                        },
                                    }
                                },
                                None => if rows.len() > 0 && 0 <= i < rows[0].len() {
                                    if rows[0][i] matches ObjV::Integer(_) {
                                        EvalOut { result: Ok(rows[0][i]), env: r1.env, out: r1.out }
                                    } else {
                                        EvalOut {
                                            result: Err(EvalError::TypeMismatch),
                                            env: r1.env,
                                            out: r1.out,
                                        }
                                    }
                                } else {
                                    EvalOut {
                                        result: Err(EvalError::IndexOutOfRange),
                                        env: r1.env,
                                        out: r1.out,
                                    }
                                },
                            },
                            Ok(_) => EvalOut {
                                result: Err(EvalError::TypeMismatch),
                                env: r1.env,
                                out: r1.out,
                            },
                        }
                    } else {
                        EvalOut { result: Err(EvalError::TypeMismatch), env: rt.env, out: rt.out }
                    },
                    _ => EvalOut { result: Err(EvalError::TypeMismatch), env: rt.env, out: rt.out },
                },
            }
        },
        ExprV::If(_, _, _) => EvalOut { result: Ok(ObjV::Null), env, out },
        ExprV::Call(func, args) => match *func {
            ExprV::Identifier(name) => if env.contains_key(name) && env[name] matches
                ObjV::Function(_, _, _) {
                let params = env[name]->Function_1;
                let body = env[name]->Function_2;
                if params.len() != args.len() {
                    EvalOut { result: Err(EvalError::ArityMismatch), env, out }
                } else {
                    let ra = seval_exprs(args, env, out, fuel, Seq::empty());
                    match ra.result {
                        Err(er) => EvalOut { result: Err(er), env: ra.env, out: ra.out },
                        Ok(vals) => if fuel == 0 {
                            EvalOut { result: Err(EvalError::RecursionLimit), env: ra.env, out: ra.out }
                        } else {
                            let rb = seval_stmts(
                                body,
                                bind_params(params, vals),
                                ra.out,
                                (fuel - 1) as nat,
                                ObjV::Null,
                            );
                            match rb.result {
                                Ok(ObjV::Return(v)) => EvalOut {
                                    result: Ok(*v),
                                    env: ra.env,
                                    out: rb.out,
                                },
                                Ok(v) => EvalOut { result: Ok(v), env: ra.env, out: rb.out },
                                Err(er) => EvalOut { result: Err(er), env: ra.env, out: rb.out },
                            }
                        },
                    }
                }
            } else {
                let ra = seval_exprs(args, env, out, fuel, Seq::empty());
                match ra.result {
                    Err(er) => EvalOut { result: Err(er), env: ra.env, out: ra.out },
                    Ok(vals) => seval_builtin(name, vals, ra.env, ra.out),
                }
            },
            _ => EvalOut { result: Err(EvalError::TypeMismatch), env, out },
        },
    }
}

/// What an assignment expression evaluates to: a plain identifier is rebound;
/// an indexed target has the addressed cell replaced and the matrix rebound.
pub open spec fn seval_assign(
    e: ExprV,
    env: Map<Seq<char>, ObjV>,
    out: Seq<ObjV>,
    fuel: nat,
) -> EvalOut
    decreases fuel, e, 0int,
{
    if !(e matches ExprV::Infix(Infix::Assign, _, _)) {
        EvalOut { result: Err(EvalError::TypeMismatch), env, out }
    } else {
    let lhs = *(e->Infix_1);
    let rhs = *(e->Infix_2);
    match lhs {
        ExprV::Index(target, first, second) => {
            let rr = seval_expr(rhs, env, out, fuel);
            match rr.result {
                Err(_) => rr,
                Ok(rv) => match rv {
                    ObjV::Integer(newval) => match *target {
                        ExprV::Identifier(name) => if !rr.env.contains_key(name) {
                            EvalOut {
                                result: Err(EvalError::UnboundIdentifier),
                                env: rr.env,
                                out: rr.out,
                            }
                        } else {
                            let out1 = rr.out.push(rr.env[name]);
                            match rr.env[name] {
                                ObjV::Array(rows) => {
                                    let r1 = seval_expr(*first, rr.env, out1, fuel);
                                    match r1.result {
                                        Err(_) => r1,
                                        Ok(ObjV::Integer(i)) => match second {
                                            Some(se) => {
                                                let r2 = seval_expr(*se, r1.env, r1.out, fuel);
                                                match r2.result {
                                                    Err(_) => r2,
                                                    Ok(ObjV::Integer(j)) => if 0 <= i < rows.len()
                                                        && 0 <= j < rows[i].len() && rows[i][j]
                                                        matches ObjV::Integer(_) {
                                                        EvalOut {
                                                            result: Ok(ObjV::Integer(0)),
                                                            env: r2.env.insert(
                                                                name,
                                                                ObjV::Array(
                                                                    rows.update(
                                                                        i,
                                                                        rows[i].update(
                                                                            j,
                                                                            ObjV::Integer(newval),
                                                                        ),
                                                                    ),
                                                                ),
                                                            ),
                                                            out: r2.out,
                                                        }
                                                    } else if 0 <= i < rows.len() && 0 <= j
                                                        < rows[i].len() {
                                                        EvalOut {
                                                            result: Err(EvalError::TypeMismatch),
                                                            env: r2.env,
                                                            out: r2.out,
                                                        }
                                                    } else {
                                                        EvalOut {
                                                            result: Err(EvalError::IndexOutOfRange),
                                                            env: r2.env,
                                                            out: r2.out,
                                                        }
                                                    },
                                                    Ok(_) => EvalOut {
                                                        result: Err(EvalError::TypeMismatch),
                                                        env: r2.env,
                                                        out: r2.out,
                                                    },
                                                }
                                            },
                                            None => if rows.len() > 0 && 0 <= i < rows[0].len()
                                                && rows[0][i] matches ObjV::Integer(_) {
                                                EvalOut {
                                                    result: Ok(ObjV::Integer(0)),
                                                    env: r1.env.insert(
                                                        name,
                                                        ObjV::Array(
                                                            rows.update(
                                                                0,
                                                                rows[0].update(
                                                                    i,
                                                                    ObjV::Integer(newval),
                                                                ),
                                                            ),
                                                        ),
                                                    ),
                                                    out: r1.out,
                                                }
                                            } else if rows.len() > 0 && 0 <= i < rows[0].len() {
                                                EvalOut {
                                                    result: Err(EvalError::TypeMismatch),
                                                    env: r1.env,
                                                    out: r1.out,
                                                }
                                            } else {
                                                EvalOut {
                                                    result: Err(EvalError::IndexOutOfRange),
                                                    env: r1.env,
                                                    out: r1.out,
                                                }
                                            },
                                        },
                                        Ok(_) => EvalOut {
                                            result: Err(EvalError::TypeMismatch),
                                            env: r1.env,
                                            out: r1.out,
                                        },
                                    }
                                },
                                _ => EvalOut {
                                    result: Err(EvalError::TypeMismatch),
                                    env: rr.env,
                                    out: out1,
                                },
                            }
                        },
                        _ => EvalOut { result: Err(EvalError::TypeMismatch), env: rr.env, out: rr.out },
                    },
                    _ => EvalOut { result: Err(EvalError::TypeMismatch), env: rr.env, out: rr.out },
                },
            }
        },
        ExprV::Identifier(name) => if !env.contains_key(name) {
            EvalOut { result: Err(EvalError::UnboundIdentifier), env, out }
        } else {
            let out1 = out.push(env[name]);
            let rr = seval_expr(rhs, env, out1, fuel);
            match rr.result {
                Err(_) => rr,
                Ok(v) => match v {
                    ObjV::Integer(_) => EvalOut {
                        result: Ok(v),
                        env: rr.env.insert(name, v),
                        out: rr.out,
                    },
                    ObjV::Boolean(_) => EvalOut {
                        result: Ok(v),
                        env: rr.env.insert(name, v),
                        out: rr.out,
                    },
                    ObjV::Array(_) => EvalOut {
                        result: Ok(ObjV::Integer(0)),
                        env: rr.env.insert(name, v),
                        out: rr.out,
                    },
                    _ => EvalOut { result: Err(EvalError::TypeMismatch), env: rr.env, out: rr.out },
                },
            }
        },
        _ => {
            let rl = seval_expr(lhs, env, out, fuel);
            match rl.result {
                Err(_) => rl,
                Ok(_) => EvalOut { result: Err(EvalError::TypeMismatch), env: rl.env, out: rl.out },
            }
        },
    }
    }
}

/// What a list of expressions evaluates to, left to right.
pub open spec fn seval_exprs(
    l: Seq<ExprV>,
    env: Map<Seq<char>, ObjV>,
    out: Seq<ObjV>,
    fuel: nat,
    acc: Seq<ObjV>,
) -> ListOut
    decreases fuel, l, 2int,
{
    if l.len() == 0 {
        ListOut { result: Ok(acc), env, out }
    } else {
        let r = seval_expr(l[0], env, out, fuel);
        match r.result {
            Err(er) => ListOut { result: Err(er), env: r.env, out: r.out },
            Ok(v) => seval_exprs(l.drop_first(), r.env, r.out, fuel, acc.push(v)),
        }
    }
}

/// What the rows of a matrix literal evaluate to, row by row.
pub open spec fn seval_rows(
    rows: Seq<Seq<ExprV>>,
    env: Map<Seq<char>, ObjV>,
    out: Seq<ObjV>,
    fuel: nat,
    acc: Seq<Seq<ObjV>>,
) -> RowsOut
    decreases fuel, rows, 3int,
{
    if rows.len() == 0 {
        RowsOut { result: Ok(acc), env, out }
    } else {
        let r = seval_exprs(rows[0], env, out, fuel, Seq::empty());
        match r.result {
            Err(er) => RowsOut { result: Err(er), env: r.env, out: r.out },
            Ok(vals) => seval_rows(rows.drop_first(), r.env, r.out, fuel, acc.push(vals)),
        }
    }
}

/// What one statement evaluates to.
pub open spec fn seval_stmt(
    s: StmtV,
    env: Map<Seq<char>, ObjV>,
    out: Seq<ObjV>,
    fuel: nat,
) -> EvalOut
    decreases fuel, s, 2int,
{
    match s {
        StmtV::Expression(e) => seval_expr(e, env, out, fuel),
        StmtV::Let(name, e) => {
            let r = seval_expr(e, env, out, fuel);
            match r.result {
                Ok(v) => EvalOut { result: Ok(v), env: r.env.insert(name, v), out: r.out },
                Err(_) => r,
            }
        },
        StmtV::Return(e) => {
            let r = seval_expr(e, env, out, fuel);
            match r.result {
                Ok(v) => EvalOut { result: Ok(ObjV::Return(Box::new(v))), env: r.env, out: r.out },
                Err(_) => r,
            }
        },
        StmtV::Block(_) => EvalOut { result: Err(EvalError::InvalidStatement), env, out },
        StmtV::Empty => EvalOut { result: Err(EvalError::InvalidStatement), env, out },
    }
}

/// What a statement sequence evaluates to: statements in order, the last
/// value as the result, stopping at a `Return` wrapper or an error. `last`
/// is the value accumulated so far, `Null` at the start.
pub open spec fn seval_stmts(
    l: Seq<StmtV>,
    env: Map<Seq<char>, ObjV>,
    out: Seq<ObjV>,
    fuel: nat,
    last: ObjV,
) -> EvalOut
    decreases fuel, l, 3int,
{
    if l.len() == 0 {
        EvalOut { result: Ok(last), env, out }
    } else {
        let r = seval_stmt(l[0], env, out, fuel);
        match r.result {
            Err(_) => r,
            Ok(v) => if v matches ObjV::Return(_) {
                r
            } else {
                seval_stmts(l.drop_first(), r.env, r.out, fuel, v)
            },
        }
    }
}

/// What a program evaluates to, with the result unwrapped from a `Return`.
pub open spec fn sunwrap(r: Result<ObjV, EvalError>) -> Result<ObjV, EvalError> {
    match r {
        Ok(ObjV::Return(v)) => Ok(*v),
        _ => r,
    }
}

} // verus!
