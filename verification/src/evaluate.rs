//! The tree-walking evaluator. Every function returns exactly what the
//! corresponding function of `semantics` denotes; errors are explicit
//! values, never panics.
use vstd::prelude::*;
use vstd::string::StrSliceExecFns;
use crate::ast::{Expression, Statement, Infix, Prefix, ExprV, StmtV, exprs_view, expr_rows_view, stmts_view,
    lemma_exprs_view_index, lemma_expr_rows_view_index, lemma_stmts_view_index, clone_statements,
    clone_strings};
use crate::env::Env;
use crate::object::{Object, ObjV, obj_view, objs_view, obj_rows_view, clone_object, clone_object_rows,
    lemma_objs_view_index, lemma_obj_rows_view_index, lemma_objs_view_push,
    lemma_obj_rows_view_push};
use crate::semantics::{EvalError, EvalOut, ListOut, RowsOut, seval_expr, seval_exprs, seval_rows,
    seval_stmt, seval_stmts, seval_assign, seval_builtin, sunwrap, bind_params, int_infix, tdiv,
    fits_i64, rectangular, mat_cols, is_int_obj, cell_int, size_fold, max_fold, max_row_fold,
    min_fold, min_row_fold, sum_fold, sum_row_fold, scale_rows, scale_row, div_rows, div_row,
    addsub_rows, addsub_row, col_cells, transpose_fold, int_cells, int_rows, dot_cell, dot_row,
    dot_rows, shape_arr, shape_arr_arr, shape_arr_int, shape_int_arr};
use crate::token::str_eq;

verus! {

/// How deeply user-function calls may nest before evaluation stops with
/// a `RecursionLimit` error.
pub const CALL_DEPTH_LIMIT: u64 = 256;

/// The view of an evaluation result.
pub open spec fn res_view(r: Result<Object, EvalError>) -> Result<ObjV, EvalError> {
    match r {
        Ok(o) => Ok(o@),
        Err(e) => Err(e),
    }
}

/// Connects the rows of a matrix value with their view, cell by cell.
proof fn lemma_rows_cells(v: Seq<Vec<Object>>)
    ensures
        obj_rows_view(v).len() == v.len(),
        forall|k: int| 0 <= k < v.len() ==> #[trigger] obj_rows_view(v)[k] == objs_view(v[k]@),
        forall|k: int| 0 <= k < v.len() ==> #[trigger] obj_rows_view(v)[k].len() == v[k]@.len(),
        forall|k: int, j: int| 0 <= k < v.len() && 0 <= j < v[k]@.len() ==> obj_rows_view(v)[k][j]
            == obj_view(#[trigger] v[k]@[j]),
{
    lemma_obj_rows_view_index(v);
    assert forall|k: int| 0 <= k < v.len() implies #[trigger] obj_rows_view(v)[k].len()
        == v[k]@.len() by {
        lemma_objs_view_index(v[k]@);
    }
    assert forall|k: int, j: int| 0 <= k < v.len() && 0 <= j < v[k]@.len() implies obj_rows_view(
        v,
    )[k][j] == obj_view(#[trigger] v[k]@[j]) by {
        lemma_objs_view_index(v[k]@);
    }
}

/// Tests that every row has the first row's length.
pub fn check_array_size(rows: &Vec<Vec<Object>>) -> (r: bool)
    ensures
        r == rectangular(obj_rows_view(rows@)),
{
    let ghost rv = obj_rows_view(rows@);
    proof {
        lemma_rows_cells(rows@);
    }
    if rows.len() == 0 {
        return true;
    }
    let cols = rows[0].len();
    let mut i: usize = 1;
    while i < rows.len()
        invariant
            1 <= i <= rows@.len(),
            rv == obj_rows_view(rows@),
            rows@.len() > 0,
            cols == rows@[0]@.len(),
            forall|k: int| 0 <= k < i ==> #[trigger] rv[k].len() == rv[0].len(),
        decreases rows@.len() - i,
    {
        proof {
            lemma_rows_cells(rows@);
        }
        if rows[i].len() != cols {
            proof {
                assert(rv[i as int].len() == rows@[i as int]@.len());
                assert(rv[0].len() == rows@[0]@.len());
            }
            return false;
        }
        i = i + 1;
    }
    proof {
        lemma_rows_cells(rows@);
    }
    true
}

/// The total cell count, as `size` reports it.
fn builtin_size(rows: &Vec<Vec<Object>>) -> (r: Result<i64, EvalError>)
    ensures
        match r {
            Ok(n) => size_fold(obj_rows_view(rows@), 0, 0) == Ok::<int, EvalError>(n as int),
            Err(e) => size_fold(obj_rows_view(rows@), 0, 0) == Err::<int, EvalError>(e),
        },
{
    let ghost rv = obj_rows_view(rows@);
    let mut acc: i64 = 0;
    let mut i: usize = 0;
    while i < rows.len()
        invariant
            0 <= i <= rows@.len(),
            0 <= acc,
            rv == obj_rows_view(rows@),
            size_fold(rv, 0, 0) == size_fold(rv, i as nat, acc as int),
        decreases rows@.len() - i,
    {
        proof {
            lemma_rows_cells(rows@);
        }
        let l = rows[i].len();
        if (l as u64) > ((i64::MAX - acc) as u64) {
            proof {
                assert(size_fold(rv, i as nat, acc as int) == Err::<int, EvalError>(
                    EvalError::Overflow,
                ));
            }
            return Err(EvalError::Overflow);
        }
        acc = acc + (l as i64);
        i = i + 1;
    }
    proof {
        lemma_rows_cells(rows@);
    }
    Ok(acc)
}

/// The greatest integer cell, as `max` reports it.
fn builtin_max(rows: &Vec<Vec<Object>>) -> (r: i64)
    ensures
        r as int == max_fold(obj_rows_view(rows@), 0, i64::MIN as int),
{
    let ghost rv = obj_rows_view(rows@);
    let mut acc: i64 = i64::MIN;
    let mut i: usize = 0;
    while i < rows.len()
        invariant
            0 <= i <= rows@.len(),
            rv == obj_rows_view(rows@),
            max_fold(rv, 0, i64::MIN as int) == max_fold(rv, i as nat, acc as int),
        decreases rows@.len() - i,
    {
        proof {
            lemma_rows_cells(rows@);
        }
        let row = &rows[i];
        let ghost rowv = rv[i as int];
        let ghost acc0 = acc;
        let mut j: usize = 0;
        while j < row.len()
            invariant
                0 <= j <= row@.len(),
                rowv == objs_view(row@),
                max_row_fold(rowv, 0, acc0 as int) == max_row_fold(rowv, j as nat, acc as int),
            decreases row@.len() - j,
        {
            proof {
                lemma_objs_view_index(row@);
            }
            match &row[j] {
                Object::Integer(n) => {
                    if *n > acc {
                        acc = *n;
                    }
                },
                _ => {},
            }
            j = j + 1;
        }
        proof {
            lemma_objs_view_index(row@);
        }
        i = i + 1;
    }
    proof {
        lemma_rows_cells(rows@);
    }
    acc
}

/// The least integer cell, as `min` reports it.
fn builtin_min(rows: &Vec<Vec<Object>>) -> (r: i64)
    ensures
        r as int == min_fold(obj_rows_view(rows@), 0, i64::MAX as int),
{
    let ghost rv = obj_rows_view(rows@);
    let mut acc: i64 = i64::MAX;
    let mut i: usize = 0;
    while i < rows.len()
        invariant
            0 <= i <= rows@.len(),
            rv == obj_rows_view(rows@),
            min_fold(rv, 0, i64::MAX as int) == min_fold(rv, i as nat, acc as int),
        decreases rows@.len() - i,
    {
        proof {
            lemma_rows_cells(rows@);
        }
        let row = &rows[i];
        let ghost rowv = rv[i as int];
        let ghost acc0 = acc;
        let mut j: usize = 0;
        while j < row.len()
            invariant
                0 <= j <= row@.len(),
                rowv == objs_view(row@),
                min_row_fold(rowv, 0, acc0 as int) == min_row_fold(rowv, j as nat, acc as int),
            decreases row@.len() - j,
        {
            proof {
                lemma_objs_view_index(row@);
            }
            match &row[j] {
                Object::Integer(n) => {
                    if *n < acc {
                        acc = *n;
                    }
                },
                _ => {},
            }
            j = j + 1;
        }
        proof {
            lemma_objs_view_index(row@);
        }
        i = i + 1;
    }
    proof {
        lemma_rows_cells(rows@);
    }
    acc
}

/// The sum of all integer cells, as `sum` reports it.
fn builtin_sum(rows: &Vec<Vec<Object>>) -> (r: Result<i64, EvalError>)
    ensures
        match r {
            Ok(n) => sum_fold(obj_rows_view(rows@), 0, 0) == Ok::<int, EvalError>(n as int),
            Err(e) => sum_fold(obj_rows_view(rows@), 0, 0) == Err::<int, EvalError>(e),
        },
{
    let ghost rv = obj_rows_view(rows@);
    let mut acc: i64 = 0;
    let mut i: usize = 0;
    while i < rows.len()
        invariant
            0 <= i <= rows@.len(),
            rv == obj_rows_view(rows@),
            sum_fold(rv, 0, 0) == sum_fold(rv, i as nat, acc as int),
        decreases rows@.len() - i,
    {
        proof {
            lemma_rows_cells(rows@);
        }
        let row = &rows[i];
        let ghost rowv = rv[i as int];
        let ghost acc0 = acc;
        let mut j: usize = 0;
        while j < row.len()
            invariant
                0 <= i < rows@.len(),
                0 <= j <= row@.len(),
                rv == obj_rows_view(rows@),
                rowv == objs_view(row@),
                sum_row_fold(rowv, 0, acc0 as int) == sum_row_fold(rowv, j as nat, acc as int),
                sum_fold(rv, 0, 0) == match sum_row_fold(rowv, j as nat, acc as int) {
                    Ok(a2) => sum_fold(rv, (i + 1) as nat, a2),
                    Err(e) => Err(e),
                },
            decreases row@.len() - j,
        {
            proof {
                lemma_objs_view_index(row@);
            }
            match &row[j] {
                Object::Integer(n) => {
                    match acc.checked_add(*n) {
                        Some(a2) => {
                            acc = a2;
                        },
                        None => {
                            return Err(EvalError::Overflow);
                        },
                    }
                },
                _ => {},
            }
            j = j + 1;
        }
        proof {
            lemma_objs_view_index(row@);
        }
        i = i + 1;
    }
    proof {
        lemma_rows_cells(rows@);
    }
    Ok(acc)
}

/// Scales every integer cell by a constant, as `constant_product` does.
fn builtin_scale(rows: &Vec<Vec<Object>>, c: i64) -> (r: Result<Vec<Vec<Object>>, EvalError>)
    ensures
        match r {
            Ok(v) => scale_rows(obj_rows_view(rows@), c as int, 0, Seq::empty())
                == Ok::<Seq<Seq<ObjV>>, EvalError>(obj_rows_view(v@)),
            Err(e) => scale_rows(obj_rows_view(rows@), c as int, 0, Seq::empty())
                == Err::<Seq<Seq<ObjV>>, EvalError>(e),
        },
{
    let ghost rv = obj_rows_view(rows@);
    let mut acc: Vec<Vec<Object>> = Vec::new();
    let mut i: usize = 0;
    while i < rows.len()
        invariant
            0 <= i <= rows@.len(),
            rv == obj_rows_view(rows@),
            scale_rows(rv, c as int, 0, Seq::empty()) == scale_rows(
                rv,
                c as int,
                i as nat,
                obj_rows_view(acc@),
            ),
        decreases rows@.len() - i,
    {
        proof {
            lemma_rows_cells(rows@);
        }
        let row = &rows[i];
        let ghost rowv = rv[i as int];
        let mut racc: Vec<Object> = Vec::new();
        let mut j: usize = 0;
        while j < row.len()
            invariant
                0 <= i < rows@.len(),
                0 <= j <= row@.len(),
                rv == obj_rows_view(rows@),
                rowv == objs_view(row@),
                scale_rows(rv, c as int, 0, Seq::empty()) == match scale_row(
                    rowv,
                    c as int,
                    j as nat,
                    objs_view(racc@),
                ) {
                    Ok(rr) => scale_rows(rv, c as int, (i + 1) as nat, obj_rows_view(acc@).push(rr)),
                    Err(e) => Err(e),
                },
            decreases row@.len() - j,
        {
            proof {
                lemma_objs_view_index(row@);
            }
            match &row[j] {
                Object::Integer(n) => {
                    match n.checked_mul(c) {
                        Some(p) => {
                            proof {
                                lemma_objs_view_push(racc@, Object::Integer(p));
                            }
                            racc.push(Object::Integer(p));
                        },
                        None => {
                            return Err(EvalError::Overflow);
                        },
                    }
                },
                _ => {},
            }
            j = j + 1;
        }
        proof {
            lemma_objs_view_index(row@);
            lemma_obj_rows_view_push(acc@, racc);
        }
        acc.push(racc);
        i = i + 1;
    }
    proof {
        lemma_rows_cells(rows@);
    }
    Ok(acc)
}

/// Divides every integer cell by a constant, as `constant_division` does.
fn builtin_divide(rows: &Vec<Vec<Object>>, c: i64) -> (r: Result<Vec<Vec<Object>>, EvalError>)
    ensures
        match r {
            Ok(v) => div_rows(obj_rows_view(rows@), c as int, 0, Seq::empty())
                == Ok::<Seq<Seq<ObjV>>, EvalError>(obj_rows_view(v@)),
            Err(e) => div_rows(obj_rows_view(rows@), c as int, 0, Seq::empty())
                == Err::<Seq<Seq<ObjV>>, EvalError>(e),
        },
{
    let ghost rv = obj_rows_view(rows@);
    let mut acc: Vec<Vec<Object>> = Vec::new();
    let mut i: usize = 0;
    while i < rows.len()
        invariant
            0 <= i <= rows@.len(),
            rv == obj_rows_view(rows@),
            div_rows(rv, c as int, 0, Seq::empty()) == div_rows(
                rv,
                c as int,
                i as nat,
                obj_rows_view(acc@),
            ),
        decreases rows@.len() - i,
    {
        proof {
            lemma_rows_cells(rows@);
        }
        let row = &rows[i];
        let ghost rowv = rv[i as int];
        let mut racc: Vec<Object> = Vec::new();
        let mut j: usize = 0;
        while j < row.len()
            invariant
                0 <= i < rows@.len(),
                0 <= j <= row@.len(),
                rv == obj_rows_view(rows@),
                rowv == objs_view(row@),
                div_rows(rv, c as int, 0, Seq::empty()) == match div_row(
                    rowv,
                    c as int,
                    j as nat,
                    objs_view(racc@),
                ) {
                    Ok(rr) => div_rows(rv, c as int, (i + 1) as nat, obj_rows_view(acc@).push(rr)),
                    Err(e) => Err(e),
                },
            decreases row@.len() - j,
        {
            proof {
                lemma_objs_view_index(row@);
            }
            match &row[j] {
                Object::Integer(n) => {
                    if c == 0 {
                        return Err(EvalError::DivideByZero);
                    }
                    match n.checked_div(c) {
                        Some(q) => {
                            proof {
                                lemma_objs_view_push(racc@, Object::Integer(q));
                            }
                            racc.push(Object::Integer(q));
                        },
                        None => {
                            return Err(EvalError::Overflow);
                        },
                    }
                },
                _ => {},
            }
            j = j + 1;
        }
        proof {
            lemma_objs_view_index(row@);
            lemma_obj_rows_view_push(acc@, racc);
        }
        acc.push(racc);
        i = i + 1;
    }
    proof {
        lemma_rows_cells(rows@);
    }
    Ok(acc)
}

/// Sums or subtracts two matrices cell by cell, as `add_matrix` and
/// `diff_matrix` do.
fn builtin_addsub(a: &Vec<Vec<Object>>, b: &Vec<Vec<Object>>, sub: bool) -> (r: Result<
    Vec<Vec<Object>>,
    EvalError,
>)
    ensures
        match r {
            Ok(v) => addsub_rows(obj_rows_view(a@), obj_rows_view(b@), sub, 0, Seq::empty())
                == Ok::<Seq<Seq<ObjV>>, EvalError>(obj_rows_view(v@)),
            Err(e) => addsub_rows(obj_rows_view(a@), obj_rows_view(b@), sub, 0, Seq::empty())
                == Err::<Seq<Seq<ObjV>>, EvalError>(e),
        },
{
    let ghost av = obj_rows_view(a@);
    let ghost bv = obj_rows_view(b@);
    let mut acc: Vec<Vec<Object>> = Vec::new();
    let mut i: usize = 0;
    while i < a.len() && i < b.len()
        invariant
            0 <= i <= a@.len(),
            0 <= i <= b@.len(),
            av == obj_rows_view(a@),
            bv == obj_rows_view(b@),
            addsub_rows(av, bv, sub, 0, Seq::empty()) == addsub_rows(
                av,
                bv,
                sub,
                i as nat,
                obj_rows_view(acc@),
            ),
        decreases a@.len() - i,
    {
        proof {
            lemma_rows_cells(a@);
            lemma_rows_cells(b@);
        }
        let ra = &a[i];
        let rb = &b[i];
        let ghost rav = av[i as int];
        let ghost rbv = bv[i as int];
        let mut racc: Vec<Object> = Vec::new();
        let mut j: usize = 0;
        while j < ra.len() && j < rb.len()
            invariant
                0 <= i < a@.len(),
                0 <= i < b@.len(),
                0 <= j <= ra@.len(),
                0 <= j <= rb@.len(),
                av == obj_rows_view(a@),
                bv == obj_rows_view(b@),
                rav == objs_view(ra@),
                rbv == objs_view(rb@),
                addsub_rows(av, bv, sub, 0, Seq::empty()) == match addsub_row(
                    rav,
                    rbv,
                    sub,
                    j as nat,
                    objs_view(racc@),
                ) {
                    Ok(rr) => addsub_rows(av, bv, sub, (i + 1) as nat, obj_rows_view(acc@).push(rr)),
                    Err(e) => Err(e),
                },
            decreases ra@.len() - j,
        {
            proof {
                lemma_objs_view_index(ra@);
                lemma_objs_view_index(rb@);
            }
            match (&ra[j], &rb[j]) {
                (Object::Integer(x), Object::Integer(y)) => {
                    let sum = if sub {
                        x.checked_sub(*y)
                    } else {
                        x.checked_add(*y)
                    };
                    match sum {
                        Some(v) => {
                            proof {
                                lemma_objs_view_push(racc@, Object::Integer(v));
                            }
                            racc.push(Object::Integer(v));
                        },
                        None => {
                            return Err(EvalError::Overflow);
                        },
                    }
                },
                _ => {},
            }
            j = j + 1;
        }
        proof {
            lemma_objs_view_index(ra@);
            lemma_objs_view_index(rb@);
            lemma_obj_rows_view_push(acc@, racc);
        }
        acc.push(racc);
        i = i + 1;
    }
    proof {
        lemma_rows_cells(a@);
        lemma_rows_cells(b@);
    }
    Ok(acc)
}

/// The integer cells of one row, as `get_row` extracts them.
fn builtin_int_cells(row: &Vec<Object>) -> (r: Vec<Object>)
    ensures
        objs_view(r@) == int_cells(objs_view(row@), 0, Seq::empty()),
{
    let ghost rowv = objs_view(row@);
    let mut acc: Vec<Object> = Vec::new();
    let mut j: usize = 0;
    while j < row.len()
        invariant
            0 <= j <= row@.len(),
            rowv == objs_view(row@),
            int_cells(rowv, 0, Seq::empty()) == int_cells(rowv, j as nat, objs_view(acc@)),
        decreases row@.len() - j,
    {
        proof {
            lemma_objs_view_index(row@);
        }
        match &row[j] {
            Object::Integer(n) => {
                proof {
                    lemma_objs_view_push(acc@, Object::Integer(*n));
                }
                acc.push(Object::Integer(*n));
            },
            _ => {},
        }
        j = j + 1;
    }
    proof {
        lemma_objs_view_index(row@);
    }
    acc
}

/// One column's integer cells, top to bottom, as `get_col` extracts them.
fn builtin_col(rows: &Vec<Vec<Object>>, col: usize) -> (r: Vec<Object>)
    ensures
        objs_view(r@) == col_cells(obj_rows_view(rows@), col as int, 0, Seq::empty()),
{
    let ghost rv = obj_rows_view(rows@);
    let mut acc: Vec<Object> = Vec::new();
    let mut i: usize = 0;
    while i < rows.len()
        invariant
            0 <= i <= rows@.len(),
            rv == obj_rows_view(rows@),
            col_cells(rv, col as int, 0, Seq::empty()) == col_cells(
                rv,
                col as int,
                i as nat,
                objs_view(acc@),
            ),
        decreases rows@.len() - i,
    {
        proof {
            lemma_rows_cells(rows@);
        }
        if col < rows[i].len() {
            match &rows[i][col] {
                Object::Integer(n) => {
                    proof {
                        lemma_objs_view_push(acc@, Object::Integer(*n));
                    }
                    acc.push(Object::Integer(*n));
                },
                _ => {},
            }
        }
        i = i + 1;
    }
    proof {
        lemma_rows_cells(rows@);
    }
    acc
}

/// The transposed matrix, as `transpose_matrix` builds it.
fn builtin_transpose(rows: &Vec<Vec<Object>>) -> (r: Vec<Vec<Object>>)
    ensures
        obj_rows_view(r@) == transpose_fold(obj_rows_view(rows@), 0, Seq::empty()),
{
    let ghost rv = obj_rows_view(rows@);
    let cols = if rows.len() == 0 {
        0
    } else {
        rows[0].len()
    };
    proof {
        lemma_rows_cells(rows@);
        assert(cols == mat_cols(rv));
    }
    let mut acc: Vec<Vec<Object>> = Vec::new();
    let mut j: usize = 0;
    while j < cols
        invariant
            0 <= j <= cols,
            rv == obj_rows_view(rows@),
            cols == mat_cols(rv),
            transpose_fold(rv, 0, Seq::empty()) == transpose_fold(rv, j as nat, obj_rows_view(acc@)),
        decreases cols - j,
    {
        let c = builtin_col(rows, j);
        proof {
            lemma_obj_rows_view_push(acc@, c);
        }
        acc.push(c);
        j = j + 1;
    }
    acc
}

/// Every row reduced to its integer cells, as `print` shows a matrix.
fn builtin_int_rows(rows: &Vec<Vec<Object>>) -> (r: Vec<Vec<Object>>)
    ensures
        obj_rows_view(r@) == int_rows(obj_rows_view(rows@), 0, Seq::empty()),
{
    let ghost rv = obj_rows_view(rows@);
    let mut acc: Vec<Vec<Object>> = Vec::new();
    let mut i: usize = 0;
    while i < rows.len()
        invariant
            0 <= i <= rows@.len(),
            rv == obj_rows_view(rows@),
            int_rows(rv, 0, Seq::empty()) == int_rows(rv, i as nat, obj_rows_view(acc@)),
        decreases rows@.len() - i,
    {
        proof {
            lemma_rows_cells(rows@);
        }
        let c = builtin_int_cells(&rows[i]);
        proof {
            lemma_obj_rows_view_push(acc@, c);
        }
        acc.push(c);
        i = i + 1;
    }
    proof {
        lemma_rows_cells(rows@);
    }
    acc
}

/// The integer a cell holds, zero for any other shape.
fn cell_value(o: &Object) -> (r: i64)
    ensures
        r as int == cell_int(o@),
{
    match o {
        Object::Integer(n) => *n,
        _ => 0,
    }
}

/// The matrix product, as `dot_product` computes it.
fn builtin_dot(a: &Vec<Vec<Object>>, b: &Vec<Vec<Object>>) -> (r: Result<
    Vec<Vec<Object>>,
    EvalError,
>)
    ensures
        match r {
            Ok(v) => dot_rows(obj_rows_view(a@), obj_rows_view(b@), 0, Seq::empty())
                == Ok::<Seq<Seq<ObjV>>, EvalError>(obj_rows_view(v@)),
            Err(e) => dot_rows(obj_rows_view(a@), obj_rows_view(b@), 0, Seq::empty())
                == Err::<Seq<Seq<ObjV>>, EvalError>(e),
        },
{
    let ghost av = obj_rows_view(a@);
    let ghost bv = obj_rows_view(b@);
    let bcols = if b.len() == 0 {
        0
    } else {
        b[0].len()
    };
    proof {
        lemma_rows_cells(b@);
        assert(bcols == mat_cols(bv));
    }
    let mut acc: Vec<Vec<Object>> = Vec::new();
    let mut i: usize = 0;
    while i < a.len()
        invariant
            0 <= i <= a@.len(),
            av == obj_rows_view(a@),
            bv == obj_rows_view(b@),
            bcols == mat_cols(bv),
            dot_rows(av, bv, 0, Seq::empty()) == dot_rows(av, bv, i as nat, obj_rows_view(acc@)),
        decreases a@.len() - i,
    {
        proof {
            lemma_rows_cells(a@);
        }
        let arow = &a[i];
        let ghost arowv = av[i as int];
        let mut racc: Vec<Object> = Vec::new();
        let mut c: usize = 0;
        while c < bcols
            invariant
                0 <= i < a@.len(),
                0 <= c <= bcols,
                av == obj_rows_view(a@),
                bv == obj_rows_view(b@),
                bcols == mat_cols(bv),
                arowv == objs_view(arow@),
                dot_rows(av, bv, 0, Seq::empty()) == match dot_row(
                    arowv,
                    bv,
                    c as nat,
                    objs_view(racc@),
                ) {
                    Ok(rr) => dot_rows(av, bv, (i + 1) as nat, obj_rows_view(acc@).push(rr)),
                    Err(e) => Err(e),
                },
            decreases bcols - c,
        {
            let mut cellacc: i64 = 0;
            let mut k: usize = 0;
            while k < arow.len() && k < b.len()
                invariant
                    0 <= i < a@.len(),
                    0 <= c < bcols,
                    bcols == mat_cols(bv),
                    0 <= k <= arow@.len(),
                    0 <= k <= b@.len(),
                    av == obj_rows_view(a@),
                    bv == obj_rows_view(b@),
                    arowv == objs_view(arow@),
                    dot_cell(arowv, bv, c as int, 0, 0) == dot_cell(
                        arowv,
                        bv,
                        c as int,
                        k as nat,
                        cellacc as int,
                    ),
                    dot_rows(av, bv, 0, Seq::empty()) == match dot_row(
                        arowv,
                        bv,
                        c as nat,
                        objs_view(racc@),
                    ) {
                        Ok(rr) => dot_rows(av, bv, (i + 1) as nat, obj_rows_view(acc@).push(rr)),
                        Err(e) => Err(e),
                    },
                decreases arow@.len() - k,
            {
                proof {
                    lemma_objs_view_index(arow@);
                    lemma_rows_cells(b@);
                }
                let x = cell_value(&arow[k]);
                let y = if c < b[k].len() {
                    cell_value(&b[k][c])
                } else {
                    0
                };
                let t = match x.checked_mul(y) {
                    Some(t) => t,
                    None => {
                        return Err(EvalError::Overflow);
                    },
                };
                cellacc = match cellacc.checked_add(t) {
                    Some(s2) => s2,
                    None => {
                        return Err(EvalError::Overflow);
                    },
                };
                k = k + 1;
            }
            proof {
                lemma_objs_view_index(arow@);
                lemma_rows_cells(b@);
                lemma_objs_view_push(racc@, Object::Integer(cellacc));
            }
            racc.push(Object::Integer(cellacc));
            c = c + 1;
        }
        proof {
            lemma_obj_rows_view_push(acc@, racc);
        }
        acc.push(racc);
        i = i + 1;
    }
    proof {
        lemma_rows_cells(a@);
    }
    Ok(acc)
}

/// Whether the argument at `i` is a matrix value.
fn arg_is_array(args: &Vec<Object>, i: usize) -> (r: bool)
    requires
        i < args@.len(),
    ensures
        r == (objs_view(args@)[i as int] matches ObjV::Array(_)),
{
    proof {
        lemma_objs_view_index(args@);
    }
    if let Object::Array(_) = &args[i] {
        true
    } else {
        false
    }
}

/// Whether the argument at `i` is an integer value.
fn arg_is_int(args: &Vec<Object>, i: usize) -> (r: bool)
    requires
        i < args@.len(),
    ensures
        r == (objs_view(args@)[i as int] matches ObjV::Integer(_)),
{
    proof {
        lemma_objs_view_index(args@);
    }
    if let Object::Integer(_) = &args[i] {
        true
    } else {
        false
    }
}

/// Whether the argument at `i` is a name reference.
fn arg_is_string(args: &Vec<Object>, i: usize) -> (r: bool)
    requires
        i < args@.len(),
    ensures
        r == (objs_view(args@)[i as int] matches ObjV::String(_)),
{
    proof {
        lemma_objs_view_index(args@);
    }
    if let Object::String(_) = &args[i] {
        true
    } else {
        false
    }
}

/// Evaluates a built-in call: dispatch over the name and the shapes of the
/// already evaluated arguments, exactly as the semantics' built-in table.
pub fn eval_builtin(name: &str, args: Vec<Object>, env: &mut Env, out: &mut Vec<Object>) -> (r:
    Result<Object, EvalError>)
    ensures
        res_view(r) == seval_builtin(name@, objs_view(args@), old(env)@, objs_view(old(out)@)).result,
        final(env)@ == seval_builtin(name@, objs_view(args@), old(env)@, objs_view(old(out)@)).env,
        objs_view(final(out)@) == seval_builtin(
            name@,
            objs_view(args@),
            old(env)@,
            objs_view(old(out)@),
        ).out,
{
    let ghost argv = objs_view(args@);
    proof {
        lemma_objs_view_index(args@);
    }
    let sh_arr = args.len() == 1 && arg_is_array(&args, 0);
    let sh_arr_arr = args.len() == 2 && arg_is_array(&args, 0) && arg_is_array(&args, 1);
    let sh_arr_int = args.len() == 2 && arg_is_array(&args, 0) && arg_is_int(&args, 1);
    let sh_int_arr = args.len() == 2 && arg_is_int(&args, 0) && arg_is_array(&args, 1);
    let sh_int = args.len() == 1 && arg_is_int(&args, 0);
    let sh_str = args.len() == 1 && arg_is_string(&args, 0);
    proof {
        assert(sh_arr == (shape_arr(argv) is Some));
        assert(sh_arr_arr == (shape_arr_arr(argv) is Some));
        assert(sh_arr_int == (shape_arr_int(argv) is Some));
        assert(sh_int_arr == (shape_int_arr(argv) is Some));
    }
    if str_eq(name, "size") && sh_arr {
        if let Object::Array(rows) = &args[0] {
            return match builtin_size(rows) {
                Ok(n) => Ok(Object::Integer(n)),
                Err(e) => Err(e),
            };
        }
        proof {
            assert(false);
        }
        return Err(EvalError::UnknownBuiltin);
    }
    if str_eq(name, "max") && sh_arr {
        if let Object::Array(rows) = &args[0] {
            return Ok(Object::Integer(builtin_max(rows)));
        }
        proof {
            assert(false);
        }
        return Err(EvalError::UnknownBuiltin);
    }
    if str_eq(name, "min") && sh_arr {
        if let Object::Array(rows) = &args[0] {
            return Ok(Object::Integer(builtin_min(rows)));
        }
        proof {
            assert(false);
        }
        return Err(EvalError::UnknownBuiltin);
    }
    if str_eq(name, "sum") && sh_arr {
        if let Object::Array(rows) = &args[0] {
            return match builtin_sum(rows) {
                Ok(n) => Ok(Object::Integer(n)),
                Err(e) => Err(e),
            };
        }
        proof {
            assert(false);
        }
        return Err(EvalError::UnknownBuiltin);
    }
    if str_eq(name, "constant_product") && sh_arr_int {
        if let (Object::Array(rows), Object::Integer(c)) = (&args[0], &args[1]) {
            return match builtin_scale(rows, *c) {
                Ok(v) => Ok(Object::Array(v)),
                Err(e) => Err(e),
            };
        }
        proof {
            assert(false);
        }
        return Err(EvalError::UnknownBuiltin);
    }
    if str_eq(name, "constant_division") && sh_arr_int {
        if let (Object::Array(rows), Object::Integer(c)) = (&args[0], &args[1]) {
            return match builtin_divide(rows, *c) {
                Ok(v) => Ok(Object::Array(v)),
                Err(e) => Err(e),
            };
        }
        proof {
            assert(false);
        }
        return Err(EvalError::UnknownBuiltin);
    }
    if str_eq(name, "dot_product") && sh_arr_arr {
        if let (Object::Array(a), Object::Array(b)) = (&args[0], &args[1]) {
            if !check_array_size(a) || !check_array_size(b) {
                return Err(EvalError::ShapeMismatch);
            }
            let acols = if a.len() == 0 {
                0
            } else {
                a[0].len()
            };
            proof {
                lemma_rows_cells(a@);
                lemma_rows_cells(b@);
            }
            if acols != b.len() {
                return Err(EvalError::ShapeMismatch);
            }
            return match builtin_dot(a, b) {
                Ok(v) => Ok(Object::Array(v)),
                Err(e) => Err(e),
            };
        }
        proof {
            assert(false);
        }
        return Err(EvalError::UnknownBuiltin);
    }
    if str_eq(name, "transpose_matrix") && sh_arr {
        if let Object::Array(rows) = &args[0] {
            if !check_array_size(rows) {
                return Err(EvalError::ShapeMismatch);
            }
            return Ok(Object::Array(builtin_transpose(rows)));
        }
        proof {
            assert(false);
        }
        return Err(EvalError::UnknownBuiltin);
    }
    if str_eq(name, "add_matrix") && sh_arr_arr {
        if let (Object::Array(a), Object::Array(b)) = (&args[0], &args[1]) {
            if !check_array_size(a) || !check_array_size(b) {
                return Err(EvalError::ShapeMismatch);
            }
            let acols = if a.len() == 0 {
                0
            } else {
                a[0].len()
            };
            let bcols = if b.len() == 0 {
                0
            } else {
                b[0].len()
            };
            proof {
                lemma_rows_cells(a@);
                lemma_rows_cells(b@);
            }
            if a.len() != b.len() || acols != bcols {
                return Err(EvalError::ShapeMismatch);
            }
            return match builtin_addsub(a, b, false) {
                Ok(v) => Ok(Object::Array(v)),
                Err(e) => Err(e),
            };
        }
        proof {
            assert(false);
        }
        return Err(EvalError::UnknownBuiltin);
    }
    if str_eq(name, "diff_matrix") && sh_arr_arr {
        if let (Object::Array(a), Object::Array(b)) = (&args[0], &args[1]) {
            if !check_array_size(a) || !check_array_size(b) {
                return Err(EvalError::ShapeMismatch);
            }
            let acols = if a.len() == 0 {
                0
            } else {
                a[0].len()
            };
            let bcols = if b.len() == 0 {
                0
            } else {
                b[0].len()
            };
            proof {
                lemma_rows_cells(a@);
                lemma_rows_cells(b@);
            }
            if a.len() != b.len() || acols != bcols {
                return Err(EvalError::ShapeMismatch);
            }
            return match builtin_addsub(a, b, true) {
                Ok(v) => Ok(Object::Array(v)),
                Err(e) => Err(e),
            };
        }
        proof {
            assert(false);
        }
        return Err(EvalError::UnknownBuiltin);
    }
    if str_eq(name, "get_row") && sh_int_arr {
        if let (Object::Integer(idx), Object::Array(rows)) = (&args[0], &args[1]) {
            proof {
                lemma_rows_cells(rows@);
            }
            if *idx <= 0 || (*idx as u64) > (rows.len() as u64) {
                return Err(EvalError::IndexOutOfRange);
            }
            let row = &rows[(*idx - 1) as usize];
            let cells = builtin_int_cells(row);
            let mut result: Vec<Vec<Object>> = Vec::new();
            proof {
                lemma_obj_rows_view_push(result@, cells);
            }
            result.push(cells);
            return Ok(Object::Array(result));
        }
        proof {
            assert(false);
        }
        return Err(EvalError::UnknownBuiltin);
    }
    if str_eq(name, "get_col") && sh_int_arr {
        if let (Object::Integer(idx), Object::Array(rows)) = (&args[0], &args[1]) {
            if !check_array_size(rows) {
                return Err(EvalError::ShapeMismatch);
            }
            let cols = if rows.len() == 0 {
                0
            } else {
                rows[0].len()
            };
            proof {
                lemma_rows_cells(rows@);
            }
            if *idx <= 0 || (*idx as u64) > (cols as u64) {
                return Err(EvalError::IndexOutOfRange);
            }
            let col = builtin_col(rows, (*idx - 1) as usize);
            let mut result: Vec<Vec<Object>> = Vec::new();
            proof {
                lemma_obj_rows_view_push(result@, col);
            }
            result.push(col);
            return Ok(Object::Array(result));
        }
        proof {
            assert(false);
        }
        return Err(EvalError::UnknownBuiltin);
    }
    let is_print = str_eq(name, "print");
    if is_print && sh_arr {
        if let Object::Array(rows) = &args[0] {
            let filtered = builtin_int_rows(rows);
            let copy = clone_object_rows(&filtered);
            proof {
                lemma_objs_view_push(out@, Object::Array(copy));
            }
            out.push(Object::Array(copy));
            return Ok(Object::Array(filtered));
        }
        proof {
            assert(false);
        }
        return Err(EvalError::UnknownBuiltin);
    }
    if is_print && sh_int {
        if let Object::Integer(n) = &args[0] {
            proof {
                lemma_objs_view_push(out@, Object::Integer(*n));
            }
            out.push(Object::Integer(*n));
            return Ok(Object::Integer(*n));
        }
        proof {
            assert(false);
        }
        return Err(EvalError::UnknownBuiltin);
    }
    if is_print && sh_str {
        if let Object::String(key) = &args[0] {
            match env.get(key.as_str()) {
                Some(o) => {
                    let copy = clone_object(&o);
                    proof {
                        lemma_objs_view_push(out@, copy);
                    }
                    out.push(copy);
                    return Ok(o);
                },
                None => {
                    return Err(EvalError::UnboundIdentifier);
                },
            }
        }
        proof {
            assert(false);
        }
        return Err(EvalError::UnknownBuiltin);
    }
    Err(EvalError::UnknownBuiltin)
}

/// Replaces one cell of a matrix value.
fn set_cell(rows: &mut Vec<Vec<Object>>, i: usize, j: usize, val: i64)
    requires
        i < old(rows)@.len(),
        j < old(rows)@[i as int]@.len(),
    ensures
        obj_rows_view(final(rows)@) == obj_rows_view(old(rows)@).update(
            i as int,
            obj_rows_view(old(rows)@)[i as int].update(j as int, ObjV::Integer(val as int)),
        ),
{
    let ghost rows0 = rows@;
    proof {
        lemma_rows_cells(rows0);
    }
    let mut row = rows.remove(i);
    let ghost row0 = row@;
    row.remove(j);
    row.insert(j, Object::Integer(val));
    proof {
        assert(row@ =~= row0.update(j as int, Object::Integer(val)));
    }
    let ghost row1 = row@;
    rows.insert(i, row);
    proof {
        let target = obj_rows_view(rows0).update(
            i as int,
            obj_rows_view(rows0)[i as int].update(j as int, ObjV::Integer(val as int)),
        );
        lemma_rows_cells(rows0);
        lemma_rows_cells(rows@);
        lemma_objs_view_index(row0);
        lemma_objs_view_index(row1);
        assert(rows@.len() == rows0.len());
        assert(row1 =~= row0.update(j as int, Object::Integer(val)));
        assert forall|k: int| 0 <= k < rows@.len() implies obj_rows_view(rows@)[k] == target[k] by {
            if k == i {
                assert(rows@[k]@ == row1);
                assert forall|m: int| 0 <= m < row1.len() implies objs_view(row1)[m]
                    == obj_rows_view(rows0)[i as int].update(j as int, ObjV::Integer(val as int))[m] by {
                    if m == j {
                        assert(row1[m] == Object::Integer(val));
                    } else {
                        assert(row1[m] == row0[m]);
                    }
                }
                assert(objs_view(row1) =~= obj_rows_view(rows0)[i as int].update(
                    j as int,
                    ObjV::Integer(val as int),
                ));
            } else if k < i {
                assert(rows@[k] == rows0[k]);
            } else {
                assert(rows@[k] == rows0[k]);
            }
        }
        assert(obj_rows_view(rows@) =~= target);
    }
}

/// Evaluates a list of expressions, left to right.
fn eval_exprs(l: &Vec<Expression>, env: &mut Env, out: &mut Vec<Object>, fuel: u64) -> (r: Result<
    Vec<Object>,
    EvalError,
>)
    ensures
        match r {
            Ok(vs) => seval_exprs(
                exprs_view(l@),
                old(env)@,
                objs_view(old(out)@),
                fuel as nat,
                Seq::empty(),
            ).result == Ok::<Seq<ObjV>, EvalError>(objs_view(vs@)) && vs@.len() == l@.len(),
            Err(e) => seval_exprs(
                exprs_view(l@),
                old(env)@,
                objs_view(old(out)@),
                fuel as nat,
                Seq::empty(),
            ).result == Err::<Seq<ObjV>, EvalError>(e),
        },
        final(env)@ == seval_exprs(
            exprs_view(l@),
            old(env)@,
            objs_view(old(out)@),
            fuel as nat,
            Seq::empty(),
        ).env,
        objs_view(final(out)@) == seval_exprs(
            exprs_view(l@),
            old(env)@,
            objs_view(old(out)@),
            fuel as nat,
            Seq::empty(),
        ).out,
    decreases fuel, l@, 2int,
{
    let ghost lv = exprs_view(l@);
    let ghost env0 = env@;
    let ghost out0 = objs_view(out@);
    proof {
        lemma_exprs_view_index(l@);
        assert(lv.skip(0) =~= lv);
    }
    let mut acc: Vec<Object> = Vec::new();
    let mut i: usize = 0;
    while i < l.len()
        invariant
            0 <= i <= l@.len(),
            lv == exprs_view(l@),
            lv.len() == l@.len(),
            acc@.len() == i,
            env0 == old(env)@,
            out0 == objs_view(old(out)@),
            seval_exprs(lv, env0, out0, fuel as nat, Seq::empty()) == seval_exprs(
                lv.skip(i as int),
                env@,
                objs_view(out@),
                fuel as nat,
                objs_view(acc@),
            ),
        decreases l@.len() - i,
    {
        proof {
            lemma_exprs_view_index(l@);
            assert(lv.skip(i as int)[0] == lv[i as int]);
        }
        let rr = eval_expr(&l[i], env, out, fuel);
        match rr {
            Ok(v) => {
                proof {
                    lemma_objs_view_push(acc@, v);
                    assert(lv.skip(i as int).drop_first() =~= lv.skip(i as int + 1));
                }
                acc.push(v);
            },
            Err(e) => {
                return Err(e);
            },
        }
        i = i + 1;
    }
    proof {
        assert(lv.skip(i as int) =~= Seq::<ExprV>::empty());
    }
    Ok(acc)
}

/// Evaluates the rows of a matrix literal, row by row.
fn eval_expr_rows(
    rows: &Vec<Vec<Expression>>,
    env: &mut Env,
    out: &mut Vec<Object>,
    fuel: u64,
) -> (r: Result<Vec<Vec<Object>>, EvalError>)
    ensures
        match r {
            Ok(vs) => seval_rows(
                expr_rows_view(rows@),
                old(env)@,
                objs_view(old(out)@),
                fuel as nat,
                Seq::empty(),
            ).result == Ok::<Seq<Seq<ObjV>>, EvalError>(obj_rows_view(vs@)),
            Err(e) => seval_rows(
                expr_rows_view(rows@),
                old(env)@,
                objs_view(old(out)@),
                fuel as nat,
                Seq::empty(),
            ).result == Err::<Seq<Seq<ObjV>>, EvalError>(e),
        },
        final(env)@ == seval_rows(
            expr_rows_view(rows@),
            old(env)@,
            objs_view(old(out)@),
            fuel as nat,
            Seq::empty(),
        ).env,
        objs_view(final(out)@) == seval_rows(
            expr_rows_view(rows@),
            old(env)@,
            objs_view(old(out)@),
            fuel as nat,
            Seq::empty(),
        ).out,
    decreases fuel, rows@, 3int,
{
    let ghost rv = expr_rows_view(rows@);
    let ghost env0 = env@;
    let ghost out0 = objs_view(out@);
    proof {
        lemma_expr_rows_view_index(rows@);
        assert(rv.skip(0) =~= rv);
    }
    let mut acc: Vec<Vec<Object>> = Vec::new();
    let mut i: usize = 0;
    while i < rows.len()
        invariant
            0 <= i <= rows@.len(),
            rv == expr_rows_view(rows@),
            rv.len() == rows@.len(),
            env0 == old(env)@,
            out0 == objs_view(old(out)@),
            seval_rows(rv, env0, out0, fuel as nat, Seq::empty()) == seval_rows(
                rv.skip(i as int),
                env@,
                objs_view(out@),
                fuel as nat,
                obj_rows_view(acc@),
            ),
        decreases rows@.len() - i,
    {
        proof {
            lemma_expr_rows_view_index(rows@);
            assert(rv.skip(i as int)[0] == rv[i as int]);
        }
        let rr = eval_exprs(&rows[i], env, out, fuel);
        match rr {
            Ok(vs) => {
                proof {
                    lemma_obj_rows_view_push(acc@, vs);
                    assert(rv.skip(i as int).drop_first() =~= rv.skip(i as int + 1));
                }
                acc.push(vs);
            },
            Err(e) => {
                return Err(e);
            },
        }
        i = i + 1;
    }
    proof {
        assert(rv.skip(i as int) =~= Seq::<Seq<ExprV>>::empty());
    }
    Ok(acc)
}

/// Evaluates one expression against the environment, appending printed
/// values to `out`.
#[verifier::rlimit(100)]
#[verifier::spinoff_prover]
fn eval_expr(e: &Expression, env: &mut Env, out: &mut Vec<Object>, fuel: u64) -> (r: Result<
    Object,
    EvalError,
>)
    ensures
        res_view(r) == seval_expr(e@, old(env)@, objs_view(old(out)@), fuel as nat).result,
        final(env)@ == seval_expr(e@, old(env)@, objs_view(old(out)@), fuel as nat).env,
        objs_view(final(out)@) == seval_expr(e@, old(env)@, objs_view(old(out)@), fuel as nat).out,
    decreases fuel, *e, 1int,
{
    match e {
        Expression::Integer(n) => Ok(Object::Integer(*n)),
        Expression::Bool(b) => Ok(Object::Boolean(*b)),
        Expression::Identifier(name) => {
            match env.get(name.as_str()) {
                Some(o) => {
                    proof {
                        lemma_objs_view_push(out@, o);
                    }
                    out.push(o);
                    Ok(Object::String(name.clone()))
                },
                None => Err(EvalError::UnboundIdentifier),
            }
        },
        Expression::Function(name, params, body) => Ok(
            Object::Function(name.clone(), clone_strings(params), clone_statements(body)),
        ),
        Expression::Array(rows) => {
            match eval_expr_rows(rows, env, out, fuel) {
                Ok(vals) => Ok(Object::Array(vals)),
                Err(e2) => Err(e2),
            }
        },
        Expression::Prefix(op, inner) => match op {
            Prefix::Not => {
                match eval_expr(&**inner, env, out, fuel) {
                    Ok(Object::Boolean(b)) => Ok(Object::Boolean(!b)),
                    Ok(_) => Err(EvalError::TypeMismatch),
                    Err(e2) => Err(e2),
                }
            },
            Prefix::Minus => {
                match eval_expr(&**inner, env, out, fuel) {
                    Ok(Object::Integer(n)) => {
                        if n == i64::MIN {
                            Err(EvalError::Overflow)
                        } else {
                            Ok(Object::Integer(-n))
                        }
                    },
                    Ok(_) => Err(EvalError::TypeMismatch),
                    Err(e2) => Err(e2),
                }
            },
            Prefix::Plus => Ok(Object::Null),
        },
        Expression::Infix(op, lhs, rhs) => {
            if let Infix::Assign = op {
                eval_assign(e, env, out, fuel)
            } else {
                let r1 = match eval_expr(&**lhs, env, out, fuel) {
                    Ok(v1) => v1,
                    Err(e2) => {
                        return Err(e2);
                    },
                };
                let r2 = match eval_expr(&**rhs, env, out, fuel) {
                    Ok(v2) => v2,
                    Err(e2) => {
                        return Err(e2);
                    },
                };
                match (r1, r2) {
                    (Object::Integer(a), Object::Integer(b)) => eval_int_infix(*op, a, b),
                    _ => Err(EvalError::TypeMismatch),
                }
            }
        },
        Expression::Index(_, _, _) => eval_index(e, env, out, fuel),
        Expression::If(_, _, _) => Ok(Object::Null),
        Expression::Call { .. } => eval_call(e, env, out, fuel),
    }
}

/// Evaluates an index expression: the target must name a bound matrix.
#[verifier::rlimit(100)]
#[verifier::spinoff_prover]
fn eval_index(e: &Expression, env: &mut Env, out: &mut Vec<Object>, fuel: u64) -> (r: Result<
    Object,
    EvalError,
>)
    requires
        ((*e) matches Expression::Index(_, _, _)),
    ensures
        res_view(r) == seval_expr(e@, old(env)@, objs_view(old(out)@), fuel as nat).result,
        final(env)@ == seval_expr(e@, old(env)@, objs_view(old(out)@), fuel as nat).env,
        objs_view(final(out)@) == seval_expr(e@, old(env)@, objs_view(old(out)@), fuel as nat).out,
    decreases fuel, *e, 0int,
{
    let (target, first, second) = match e {
        Expression::Index(target, first, second) => (target, first, second),
        _ => {
            proof {
                assert(false);
            }
            return Err(EvalError::TypeMismatch);
        },
    };
    proof {
        assert(e@ == ExprV::Index(
            Box::new((**target)@),
            Box::new((**first)@),
            match second {
                Some(sb) => Some(Box::new((**sb)@)),
                None => None,
            },
        ));
    }

            let tv = match eval_expr(&**target, env, out, fuel) {
                Ok(v) => v,
                Err(e2) => {
                    return Err(e2);
                },
            };
            let name = match tv {
                Object::String(name) => name,
                _ => {
                    return Err(EvalError::TypeMismatch);
                },
            };
            let rows = match env.get(name.as_str()) {
                Some(Object::Array(rows)) => rows,
                _ => {
                    return Err(EvalError::TypeMismatch);
                },
            };
            proof {
                lemma_rows_cells(rows@);
            }
            let iv = match eval_expr(&**first, env, out, fuel) {
                Ok(Object::Integer(i)) => i,
                Ok(_) => {
                    return Err(EvalError::TypeMismatch);
                },
                Err(e2) => {
                    return Err(e2);
                },
            };
            match second {
                Some(se) => {
                    let jv = match eval_expr(&**se, env, out, fuel) {
                        Ok(Object::Integer(j)) => j,
                        Ok(_) => {
                            return Err(EvalError::TypeMismatch);
                        },
                        Err(e2) => {
                            return Err(e2);
                        },
                    };
                    if iv >= 0 && (iv as u64) < (rows.len() as u64) && jv >= 0 && (jv as u64) < (
                    rows[iv as usize].len() as u64) {
                        match &rows[iv as usize][jv as usize] {
                            Object::Integer(n) => Ok(Object::Integer(*n)),
                            _ => Err(EvalError::TypeMismatch),
                        }
                    } else {
                        Err(EvalError::IndexOutOfRange)
                    }
                },
                None => {
                    if rows.len() > 0 && iv >= 0 && (iv as u64) < (rows[0].len() as u64) {
                        match &rows[0][iv as usize] {
                            Object::Integer(n) => Ok(Object::Integer(*n)),
                            _ => Err(EvalError::TypeMismatch),
                        }
                    } else {
                        Err(EvalError::IndexOutOfRange)
                    }
                },
            }
}

/// Evaluates a call: a user function by name where one is bound, the
/// built-in table otherwise.
#[verifier::rlimit(100)]
#[verifier::spinoff_prover]
fn eval_call(e: &Expression, env: &mut Env, out: &mut Vec<Object>, fuel: u64) -> (r: Result<
    Object,
    EvalError,
>)
    requires
        ((*e) matches Expression::Call { .. }),
    ensures
        res_view(r) == seval_expr(e@, old(env)@, objs_view(old(out)@), fuel as nat).result,
        final(env)@ == seval_expr(e@, old(env)@, objs_view(old(out)@), fuel as nat).env,
        objs_view(final(out)@) == seval_expr(e@, old(env)@, objs_view(old(out)@), fuel as nat).out,
    decreases fuel, *e, 0int,
{
    let (func, args) = match e {
        Expression::Call { func, args } => (func, args),
        _ => {
            proof {
                assert(false);
            }
            return Err(EvalError::TypeMismatch);
        },
    };
    proof {
        lemma_exprs_view_index(args@);
        assert(e@ == ExprV::Call(Box::new((**func)@), exprs_view(args@)));
    }
    match &**func {
                Expression::Identifier(name) => {
                    match env.get(name.as_str()) {
                        Some(Object::Function(_fname, params, body)) => {
                            proof {
                                lemma_exprs_view_index(args@);
                                assert(env@[name@] == ObjV::Function(
                                    _fname@,
                                    params@.map_values(|p: String| p@),
                                    stmts_view(body@),
                                ));
                                assert(params@.map_values(|p: String| p@).len() == params@.len());
                            }
                            if params.len() != args.len() {
                                return Err(EvalError::ArityMismatch);
                            }
                            let vals = match eval_exprs(args, env, out, fuel) {
                                Ok(vals) => vals,
                                Err(e2) => {
                                    return Err(e2);
                                },
                            };
                            if fuel == 0 {
                                return Err(EvalError::RecursionLimit);
                            }
                            let mut env2 = Env::new();
                            let ghost paramsv = params@.map_values(|p: String| p@);
                            let ghost valsv = objs_view(vals@);
                            proof {
                                lemma_objs_view_index(vals@);
                                assert(paramsv.take(0) =~= Seq::<Seq<char>>::empty());
                                assert(valsv.take(0) =~= Seq::<ObjV>::empty());
                            }
                            let mut k: usize = 0;
                            while k < params.len()
                                invariant
                                    0 <= k <= params@.len(),
                                    params@.len() == vals@.len(),
                                    paramsv == params@.map_values(|p: String| p@),
                                    valsv == objs_view(vals@),
                                    valsv.len() == vals@.len(),
                                    forall|m: int| 0 <= m < vals@.len() ==> valsv[m] == obj_view(
                                        #[trigger] vals@[m],
                                    ),
                                    env2@ == bind_params(
                                        paramsv.take(k as int),
                                        valsv.take(k as int),
                                    ),
                                decreases params@.len() - k,
                            {
                                let pv = clone_object(&vals[k]);
                                env2.set(params[k].clone(), pv);
                                proof {
                                    assert(paramsv.take(k as int + 1).drop_last() =~= paramsv.take(
                                        k as int,
                                    ));
                                    assert(valsv.take(k as int + 1).drop_last() =~= valsv.take(
                                        k as int,
                                    ));
                                }
                                k = k + 1;
                            }
                            proof {
                                assert(paramsv.take(params@.len() as int) =~= paramsv);
                                assert(valsv.take(vals@.len() as int) =~= valsv);
                            }
                            let rb = eval_statements_depth(&body, &mut env2, out, fuel - 1);
                            match rb {
                                Ok(Object::Return(v)) => Ok(*v),
                                Ok(v) => Ok(v),
                                Err(e2) => Err(e2),
                            }
                        },
                        _ => {
                            let vals = match eval_exprs(args, env, out, fuel) {
                                Ok(vals) => vals,
                                Err(e2) => {
                                    return Err(e2);
                                },
                            };
                            eval_builtin(name.as_str(), vals, env, out)
                        },
                    }
                },
        _ => Err(EvalError::TypeMismatch),
    }
}

/// Evaluates an arithmetic or comparison operator on two integers.
fn eval_int_infix(op: Infix, a: i64, b: i64) -> (r: Result<Object, EvalError>)
    requires
        !(op is Assign),
    ensures
        res_view(r) == int_infix(op, a as int, b as int),
{
    match op {
        Infix::Plus => match a.checked_add(b) {
            Some(v) => Ok(Object::Integer(v)),
            None => Err(EvalError::Overflow),
        },
        Infix::Minus => match a.checked_sub(b) {
            Some(v) => Ok(Object::Integer(v)),
            None => Err(EvalError::Overflow),
        },
        Infix::Multiply => match a.checked_mul(b) {
            Some(v) => Ok(Object::Integer(v)),
            None => Err(EvalError::Overflow),
        },
        Infix::Divide => {
            if b == 0 {
                Err(EvalError::DivideByZero)
            } else {
                match a.checked_div(b) {
                    Some(v) => Ok(Object::Integer(v)),
                    None => Err(EvalError::Overflow),
                }
            }
        },
        Infix::Equal => Ok(Object::Boolean(a == b)),
        Infix::NotEqual => Ok(Object::Boolean(a != b)),
        Infix::MoreThanAndEqual => Ok(Object::Boolean(a >= b)),
        Infix::MoreThan => Ok(Object::Boolean(a > b)),
        Infix::LessThanAndEqual => Ok(Object::Boolean(a <= b)),
        Infix::LessThan => Ok(Object::Boolean(a < b)),
        Infix::Assign => Err(EvalError::TypeMismatch),
    }
}

/// Evaluates an assignment: a plain identifier is rebound; an indexed target
/// has the addressed cell replaced and the matrix rebound.
#[verifier::rlimit(100)]
#[verifier::spinoff_prover]
fn eval_assign(e: &Expression, env: &mut Env, out: &mut Vec<Object>, fuel: u64) -> (r: Result<
    Object,
    EvalError,
>)
    requires
        ((*e) matches Expression::Infix(Infix::Assign, _, _)),
    ensures
        res_view(r) == seval_assign(e@, old(env)@, objs_view(old(out)@), fuel as nat).result,
        final(env)@ == seval_assign(e@, old(env)@, objs_view(old(out)@), fuel as nat).env,
        objs_view(final(out)@) == seval_assign(e@, old(env)@, objs_view(old(out)@), fuel as nat).out,
    decreases fuel, *e, 0int,
{
    let (lhs, rhs) = match e {
        Expression::Infix(Infix::Assign, lhs, rhs) => (&**lhs, &**rhs),
        _ => {
            proof {
                assert(false);
            }
            return Err(EvalError::TypeMismatch);
        },
    };
    proof {
        assert(e@ matches ExprV::Infix(Infix::Assign, _, _));
        assert(*(e@->Infix_1) == lhs@);
        assert(*(e@->Infix_2) == rhs@);
    }
    match lhs {
        Expression::Index(target, first, second) => {
            proof {
                assert(lhs@ matches ExprV::Index(_, _, _));
            }
            let rv = match eval_expr(rhs, env, out, fuel) {
                Ok(v) => v,
                Err(e2) => {
                    proof {
                        let so = seval_assign(e@, old(env)@, objs_view(old(out)@), fuel as nat);
                        let rr = seval_expr(rhs@, old(env)@, objs_view(old(out)@), fuel as nat);
                        assert(rr.result == Err::<ObjV, EvalError>(e2));
                        assert(so == rr);
                    }
                    return Err(e2);
                },
            };
            let ghost so = seval_assign(e@, old(env)@, objs_view(old(out)@), fuel as nat);
            let ghost rr = seval_expr(rhs@, old(env)@, objs_view(old(out)@), fuel as nat);
            proof {
                assert(rr.result == Ok::<ObjV, EvalError>(rv@));
                assert(env@ == rr.env && objs_view(out@) == rr.out);
                assert(lhs@ == ExprV::Index(
                    Box::new((**target)@),
                    Box::new((**first)@),
                    match second {
                        Some(sb) => Some(Box::new((**sb)@)),
                        None => None,
                    },
                ));
            }
            let newval = match rv {
                Object::Integer(n) => n,
                _ => {
                    proof {
                        assert(so == EvalOut {
                            result: Err::<ObjV, EvalError>(EvalError::TypeMismatch),
                            env: rr.env,
                            out: rr.out,
                        });
                    }
                    return Err(EvalError::TypeMismatch);
                },
            };
            let name = match &**target {
                Expression::Identifier(name) => name,
                _ => {
                    proof {
                        assert(so == EvalOut {
                            result: Err::<ObjV, EvalError>(EvalError::TypeMismatch),
                            env: rr.env,
                            out: rr.out,
                        });
                    }
                    return Err(EvalError::TypeMismatch);
                },
            };
            let bound = match env.get(name.as_str()) {
                Some(o) => o,
                None => {
                    proof {
                        assert(so == EvalOut {
                            result: Err::<ObjV, EvalError>(EvalError::UnboundIdentifier),
                            env: rr.env,
                            out: rr.out,
                        });
                    }
                    return Err(EvalError::UnboundIdentifier);
                },
            };
            let copy = clone_object(&bound);
            proof {
                lemma_objs_view_push(out@, copy);
            }
            out.push(copy);
            let ghost out1 = rr.out.push(rr.env[name@]);
            proof {
                assert(objs_view(out@) == out1);
            }
            let mut rows = match bound {
                Object::Array(rows) => rows,
                _ => {
                    proof {
                        assert(so == EvalOut {
                            result: Err::<ObjV, EvalError>(EvalError::TypeMismatch),
                            env: rr.env,
                            out: out1,
                        });
                    }
                    return Err(EvalError::TypeMismatch);
                },
            };
            let ghost rowsv = obj_rows_view(rows@);
            proof {
                lemma_rows_cells(rows@);
                assert(rr.env[name@] == ObjV::Array(rowsv));
            }
            let iv = match eval_expr(&**first, env, out, fuel) {
                Ok(Object::Integer(i)) => i,
                Ok(_) => {
                    return Err(EvalError::TypeMismatch);
                },
                Err(e2) => {
                    return Err(e2);
                },
            };
            match second {
                Some(se) => {
                    let jv = match eval_expr(&**se, env, out, fuel) {
                        Ok(Object::Integer(j)) => j,
                        Ok(_) => {
                            return Err(EvalError::TypeMismatch);
                        },
                        Err(e2) => {
                            return Err(e2);
                        },
                    };
                    if iv >= 0 && (iv as u64) < (rows.len() as u64) && jv >= 0 && (jv as u64) < (
                    rows[iv as usize].len() as u64) {
                        let is_int = match &rows[iv as usize][jv as usize] {
                            Object::Integer(_) => true,
                            _ => false,
                        };
                        if is_int {
                            set_cell(&mut rows, iv as usize, jv as usize, newval);
                            env.set(name.clone(), Object::Array(rows));
                            Ok(Object::Integer(0))
                        } else {
                            Err(EvalError::TypeMismatch)
                        }
                    } else {
                        Err(EvalError::IndexOutOfRange)
                    }
                },
                None => {
                    if rows.len() > 0 && iv >= 0 && (iv as u64) < (rows[0].len() as u64) {
                        let is_int = match &rows[0][iv as usize] {
                            Object::Integer(_) => true,
                            _ => false,
                        };
                        if is_int {
                            set_cell(&mut rows, 0, iv as usize, newval);
                            env.set(name.clone(), Object::Array(rows));
                            Ok(Object::Integer(0))
                        } else {
                            Err(EvalError::TypeMismatch)
                        }
                    } else {
                        Err(EvalError::IndexOutOfRange)
                    }
                },
            }
        },
        Expression::Identifier(name) => {
            let bound = match env.get(name.as_str()) {
                Some(o) => o,
                None => {
                    return Err(EvalError::UnboundIdentifier);
                },
            };
            proof {
                lemma_objs_view_push(out@, bound);
            }
            out.push(bound);
            let v = match eval_expr(rhs, env, out, fuel) {
                Ok(v) => v,
                Err(e2) => {
                    return Err(e2);
                },
            };
            match v {
                Object::Integer(_) => {
                    let copy = clone_object(&v);
                    env.set(name.clone(), copy);
                    Ok(v)
                },
                Object::Boolean(_) => {
                    let copy = clone_object(&v);
                    env.set(name.clone(), copy);
                    Ok(v)
                },
                Object::Array(_) => {
                    env.set(name.clone(), v);
                    Ok(Object::Integer(0))
                },
                _ => Err(EvalError::TypeMismatch),
            }
        },
        _ => {
            match eval_expr(lhs, env, out, fuel) {
                Ok(_) => Err(EvalError::TypeMismatch),
                Err(e2) => Err(e2),
            }
        },
    }
}

/// Evaluates one statement.
fn eval_statement(s: &Statement, env: &mut Env, out: &mut Vec<Object>, fuel: u64) -> (r: Result<
    Object,
    EvalError,
>)
    ensures
        res_view(r) == seval_stmt(s@, old(env)@, objs_view(old(out)@), fuel as nat).result,
        final(env)@ == seval_stmt(s@, old(env)@, objs_view(old(out)@), fuel as nat).env,
        objs_view(final(out)@) == seval_stmt(s@, old(env)@, objs_view(old(out)@), fuel as nat).out,
    decreases fuel, *s, 2int,
{
    match s {
        Statement::Expression(e) => eval_expr(e, env, out, fuel),
        Statement::Let(name, e) => {
            match eval_expr(e, env, out, fuel) {
                Ok(v) => {
                    let copy = clone_object(&v);
                    env.set(name.clone(), copy);
                    Ok(v)
                },
                Err(e2) => Err(e2),
            }
        },
        Statement::Return(e) => {
            match eval_expr(e, env, out, fuel) {
                Ok(v) => Ok(Object::Return(Box::new(v))),
                Err(e2) => Err(e2),
            }
        },
        Statement::Block(_) => Err(EvalError::InvalidStatement),
        Statement::Empty => Err(EvalError::InvalidStatement),
    }
}

/// Evaluates a statement sequence with a given call-depth budget.
fn eval_statements_depth(
    stmts: &Vec<Statement>,
    env: &mut Env,
    out: &mut Vec<Object>,
    fuel: u64,
) -> (r: Result<Object, EvalError>)
    ensures
        res_view(r) == seval_stmts(
            stmts_view(stmts@),
            old(env)@,
            objs_view(old(out)@),
            fuel as nat,
            ObjV::Null,
        ).result,
        final(env)@ == seval_stmts(
            stmts_view(stmts@),
            old(env)@,
            objs_view(old(out)@),
            fuel as nat,
            ObjV::Null,
        ).env,
        objs_view(final(out)@) == seval_stmts(
            stmts_view(stmts@),
            old(env)@,
            objs_view(old(out)@),
            fuel as nat,
            ObjV::Null,
        ).out,
    decreases fuel, stmts@, 3int,
{
    let ghost sv = stmts_view(stmts@);
    let ghost env0 = env@;
    let ghost out0 = objs_view(out@);
    proof {
        lemma_stmts_view_index(stmts@);
        assert(sv.skip(0) =~= sv);
    }
    let mut last = Object::Null;
    let mut i: usize = 0;
    while i < stmts.len()
        invariant
            0 <= i <= stmts@.len(),
            sv == stmts_view(stmts@),
            sv.len() == stmts@.len(),
            env0 == old(env)@,
            out0 == objs_view(old(out)@),
            !(last@ matches ObjV::Return(_)),
            seval_stmts(sv, env0, out0, fuel as nat, ObjV::Null) == seval_stmts(
                sv.skip(i as int),
                env@,
                objs_view(out@),
                fuel as nat,
                last@,
            ),
        decreases stmts@.len() - i,
    {
        proof {
            lemma_stmts_view_index(stmts@);
            assert(sv.skip(i as int)[0] == sv[i as int]);
        }
        match eval_statement(&stmts[i], env, out, fuel) {
            Ok(v) => {
                let is_return = match &v {
                    Object::Return(_) => true,
                    _ => false,
                };
                if is_return {
                    return Ok(v);
                }
                proof {
                    assert(sv.skip(i as int).drop_first() =~= sv.skip(i as int + 1));
                }
                last = v;
            },
            Err(e2) => {
                return Err(e2);
            },
        }
        i = i + 1;
    }
    proof {
        assert(sv.skip(i as int) =~= Seq::<StmtV>::empty());
    }
    Ok(last)
}

/// Evaluates a statement sequence: statements in order, the last value as
/// the result, stopping at a `Return` wrapper or an error.
pub fn eval_statements(stmts: &Vec<Statement>, env: &mut Env, out: &mut Vec<Object>) -> (r: Result<
    Object,
    EvalError,
>)
    ensures
        res_view(r) == seval_stmts(
            stmts_view(stmts@),
            old(env)@,
            objs_view(old(out)@),
            CALL_DEPTH_LIMIT as nat,
            ObjV::Null,
        ).result,
        final(env)@ == seval_stmts(
            stmts_view(stmts@),
            old(env)@,
            objs_view(old(out)@),
            CALL_DEPTH_LIMIT as nat,
            ObjV::Null,
        ).env,
        objs_view(final(out)@) == seval_stmts(
            stmts_view(stmts@),
            old(env)@,
            objs_view(old(out)@),
            CALL_DEPTH_LIMIT as nat,
            ObjV::Null,
        ).out,
{
    eval_statements_depth(stmts, env, out, CALL_DEPTH_LIMIT)
}

/// Evaluates a statement sequence and unwraps a `Return` wrapper from the
/// result, as a function call does for its body.
pub fn eval_return(stmts: &Vec<Statement>, env: &mut Env, out: &mut Vec<Object>) -> (r: Result<
    Object,
    EvalError,
>)
    ensures
        res_view(r) == sunwrap(
            seval_stmts(
                stmts_view(stmts@),
                old(env)@,
                objs_view(old(out)@),
                CALL_DEPTH_LIMIT as nat,
                ObjV::Null,
            ).result,
        ),
        final(env)@ == seval_stmts(
            stmts_view(stmts@),
            old(env)@,
            objs_view(old(out)@),
            CALL_DEPTH_LIMIT as nat,
            ObjV::Null,
        ).env,
        objs_view(final(out)@) == seval_stmts(
            stmts_view(stmts@),
            old(env)@,
            objs_view(old(out)@),
            CALL_DEPTH_LIMIT as nat,
            ObjV::Null,
        ).out,
{
    match eval_statements(stmts, env, out) {
        Ok(Object::Return(v)) => Ok(*v),
        r => r,
    }
}

} // verus!
