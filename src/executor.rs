//! Evaluation of expressions and execution of physical plans.
use vstd::prelude::*;
use vstd::string::*;
use crate::ast::{BinaryOperator, ExprModel, Expression};
use crate::disk::DiskManager;
use crate::heap_page::{HeapPage, tuples_of};
use crate::page::{Page, PAGE_SIZE, checksum_ok};
use crate::page_id::{PageId, PAGES_PER_FILE};
use crate::planner::PhysicalPlan;
use crate::error::{DbError, DiskError};
use crate::text::{str_eq, str_less, str_lt};
use crate::bytes::{u32_at, read_u32_le};
use crate::types::{
    Column, Datum, DataType, Schema, Value, column_names, index_of, lemma_index_of, result_view,
    row_view, i32_from_bits, read_i32_le, append_bytes,
};
use crate::text::string_from_utf8;
use vstd::utf8::*;

verus! {

broadcast use vstd::utf8::encode_utf8_decode_utf8;

/// A row: one value per schema column.
pub type Row = Vec<Value>;

/// The result of an arithmetic operation on 32-bit integers.
pub open spec fn int_result(v: Option<i32>) -> Result<Datum, DbError> {
    match v {
        Some(x) => Ok(Datum::Integer(x)),
        None => Err(DbError::Overflow),
    }
}

/// The value of `l op r`. Integers support arithmetic (overflow is an
/// error) and comparisons; strings support concatenation with `+` and
/// comparisons by UTF-8 bytes; booleans support `And`, `Or`, `Eq`, `Ne`.
/// Anything else, including operands of different types, is a type error.
pub open spec fn eval_binop(l: Datum, op: BinaryOperator, r: Datum) -> Result<Datum, DbError> {
    match (l, r) {
        (Datum::Integer(a), Datum::Integer(b)) => match op {
            BinaryOperator::Add => int_result(a.checked_add(b)),
            BinaryOperator::Sub => int_result(a.checked_sub(b)),
            BinaryOperator::Mul => int_result(a.checked_mul(b)),
            BinaryOperator::Div => if b == 0 {
                Err(DbError::DivisionByZero)
            } else {
                int_result(a.checked_div(b))
            },
            BinaryOperator::Eq => Ok(Datum::Boolean(a == b)),
            BinaryOperator::Ne => Ok(Datum::Boolean(a != b)),
            BinaryOperator::Lt => Ok(Datum::Boolean(a < b)),
            BinaryOperator::Le => Ok(Datum::Boolean(a <= b)),
            BinaryOperator::Gt => Ok(Datum::Boolean(a > b)),
            BinaryOperator::Ge => Ok(Datum::Boolean(a >= b)),
            _ => Err(DbError::TypeError),
        },
        (Datum::Varchar(a), Datum::Varchar(b)) => match op {
            BinaryOperator::Add => Ok(Datum::Varchar(a + b)),
            BinaryOperator::Eq => Ok(Datum::Boolean(a == b)),
            BinaryOperator::Ne => Ok(Datum::Boolean(a != b)),
            BinaryOperator::Lt => Ok(Datum::Boolean(str_lt(a, b))),
            BinaryOperator::Le => Ok(Datum::Boolean(!str_lt(b, a))),
            BinaryOperator::Gt => Ok(Datum::Boolean(str_lt(b, a))),
            BinaryOperator::Ge => Ok(Datum::Boolean(!str_lt(a, b))),
            _ => Err(DbError::TypeError),
        },
        (Datum::Boolean(a), Datum::Boolean(b)) => match op {
            BinaryOperator::And => Ok(Datum::Boolean(a && b)),
            BinaryOperator::Or => Ok(Datum::Boolean(a || b)),
            BinaryOperator::Eq => Ok(Datum::Boolean(a == b)),
            BinaryOperator::Ne => Ok(Datum::Boolean(a != b)),
            _ => Err(DbError::TypeError),
        },
        _ => Err(DbError::TypeError),
    }
}

/// A condition's truth: only a boolean value is a condition.
pub open spec fn as_condition(v: Result<Datum, DbError>) -> Result<bool, DbError> {
    match v {
        Ok(Datum::Boolean(b)) => Ok(b),
        Ok(_) => Err(DbError::TypeError),
        Err(e) => Err(e),
    }
}

/// The value of the column `name` in `row`, whose columns are named `names`.
pub open spec fn lookup(name: Seq<char>, row: Seq<Datum>, names: Seq<Seq<char>>) -> Result<
    Datum,
    DbError,
> {
    let i = index_of(names, name);
    if i < 0 || i >= row.len() {
        Err(DbError::CatalogMiss)
    } else {
        Ok(row[i])
    }
}

/// The value of an expression on a row; the left operand is evaluated
/// before the right one, and the first error is the result.
pub open spec fn eval_expr(e: ExprModel, row: Seq<Datum>, names: Seq<Seq<char>>) -> Result<
    Datum,
    DbError,
>
    decreases e,
{
    match e {
        ExprModel::Literal(v) => Ok(v),
        ExprModel::Column(name) => lookup(name, row, names),
        ExprModel::BinaryOp(l, op, r) => match eval_expr(*l, row, names) {
            Err(x) => Err(x),
            Ok(lv) => match eval_expr(*r, row, names) {
                Err(x) => Err(x),
                Ok(rv) => eval_binop(lv, op, rv),
            },
        },
    }
}

/// Evaluates `l op r`.
pub fn evaluate_binary_op_value(left: &Value, op: &BinaryOperator, right: &Value) -> (r: Result<
    Value,
    DbError,
>)
    ensures
        result_view(r) == eval_binop(left@, *op, right@),
{
    match (left, right) {
        (Value::Integer(l), Value::Integer(r)) => {
            let (l, r) = (*l, *r);
            match op {
                BinaryOperator::Add => match l.checked_add(r) {
                    Some(v) => Ok(Value::Integer(v)),
                    None => Err(DbError::Overflow),
                },
                BinaryOperator::Sub => match l.checked_sub(r) {
                    Some(v) => Ok(Value::Integer(v)),
                    None => Err(DbError::Overflow),
                },
                BinaryOperator::Mul => match l.checked_mul(r) {
                    Some(v) => Ok(Value::Integer(v)),
                    None => Err(DbError::Overflow),
                },
                BinaryOperator::Div => {
                    if r == 0 {
                        return Err(DbError::DivisionByZero);
                    }
                    match l.checked_div(r) {
                        Some(v) => Ok(Value::Integer(v)),
                        None => Err(DbError::Overflow),
                    }
                },
                BinaryOperator::Eq => Ok(Value::Boolean(l == r)),
                BinaryOperator::Ne => Ok(Value::Boolean(l != r)),
                BinaryOperator::Lt => Ok(Value::Boolean(l < r)),
                BinaryOperator::Le => Ok(Value::Boolean(l <= r)),
                BinaryOperator::Gt => Ok(Value::Boolean(l > r)),
                BinaryOperator::Ge => Ok(Value::Boolean(l >= r)),
                _ => Err(DbError::TypeError),
            }
        },
        (Value::Varchar(l), Value::Varchar(r)) => {
            let (a, b) = (l.as_str(), r.as_str());
            match op {
                BinaryOperator::Add => Ok(Value::Varchar(l.clone().concat(b))),
                BinaryOperator::Eq => Ok(Value::Boolean(str_eq(a, b))),
                BinaryOperator::Ne => Ok(Value::Boolean(!str_eq(a, b))),
                BinaryOperator::Lt => Ok(Value::Boolean(str_less(a, b))),
                BinaryOperator::Le => Ok(Value::Boolean(!str_less(b, a))),
                BinaryOperator::Gt => Ok(Value::Boolean(str_less(b, a))),
                BinaryOperator::Ge => Ok(Value::Boolean(!str_less(a, b))),
                _ => Err(DbError::TypeError),
            }
        },
        (Value::Boolean(l), Value::Boolean(r)) => {
            let (l, r) = (*l, *r);
            match op {
                BinaryOperator::And => Ok(Value::Boolean(l && r)),
                BinaryOperator::Or => Ok(Value::Boolean(l || r)),
                BinaryOperator::Eq => Ok(Value::Boolean(l == r)),
                BinaryOperator::Ne => Ok(Value::Boolean(l != r)),
                _ => Err(DbError::TypeError),
            }
        },
        _ => Err(DbError::TypeError),
    }
}

/// Evaluates `l op r` as a condition: the result must be a boolean.
pub fn evaluate_binary_op(left: &Value, op: &BinaryOperator, right: &Value) -> (r: Result<
    bool,
    DbError,
>)
    ensures
        r == as_condition(eval_binop(left@, *op, right@)),
{
    match evaluate_binary_op_value(left, op, right) {
        Ok(Value::Boolean(b)) => Ok(b),
        Ok(_) => Err(DbError::TypeError),
        Err(e) => Err(e),
    }
}

/// The value of the column `column_name` in `row`. Fails with
/// `CatalogMiss` when the schema has no such column or the row is too
/// short.
pub fn lookup_column_value(column_name: &str, row: &Row, schema: &Schema) -> (r: Result<
    Value,
    DbError,
>)
    ensures
        result_view(r) == lookup(column_name@, row_view(row@), column_names(schema.columns@)),
{
    proof {
        lemma_index_of(column_names(schema.columns@), column_name@);
    }
    match schema.column_index(column_name) {
        None => Err(DbError::CatalogMiss),
        Some(i) => {
            if i < row.len() {
                Ok(row[i].duplicate())
            } else {
                Err(DbError::CatalogMiss)
            }
        },
    }
}

/// Evaluates an expression on a row of the given schema.
pub fn evaluate_expression_with_schema(expr: &Expression, row: &Row, schema: &Schema) -> (r: Result<
    Value,
    DbError,
>)
    ensures
        result_view(r) == eval_expr(expr@, row_view(row@), column_names(schema.columns@)),
    decreases expr,
{
    match expr {
        Expression::Literal { value } => Ok(value.duplicate()),
        Expression::Column { name } => lookup_column_value(name.as_str(), row, schema),
        Expression::BinaryOp { left, op, right } => {
            let l = evaluate_expression_with_schema(left, row, schema)?;
            let r = evaluate_expression_with_schema(right, row, schema)?;
            evaluate_binary_op_value(&l, op, &r)
        },
    }
}

/// Evaluates a condition on a row: the expression's value must be a
/// boolean.
pub fn evaluate_predicate_with_schema(expr: &Expression, row: &Row, schema: &Schema) -> (r: Result<
    bool,
    DbError,
>)
    ensures
        r == as_condition(eval_expr(expr@, row_view(row@), column_names(schema.columns@))),
{
    match evaluate_expression_with_schema(expr, row, schema) {
        Ok(Value::Boolean(b)) => Ok(b),
        Ok(_) => Err(DbError::TypeError),
        Err(e) => Err(e),
    }
}

/// The column types of a schema, in order.
pub open spec fn column_types(cols: Seq<Column>) -> Seq<DataType> {
    cols.map_values(|c: Column| c.data_type)
}

/// Decodes one field of type `t` starting at `off`: the value and the
/// offset after it.
pub open spec fn decode_field(data: Seq<u8>, t: DataType, off: int) -> Result<(Datum, int), DbError> {
    match t {
        DataType::Integer => if off + 4 > data.len() {
            Err(DbError::TruncatedTuple)
        } else {
            Ok((Datum::Integer(i32_from_bits(u32_at(data, off))), off + 4))
        },
        DataType::Varchar(_) => if off + 4 > data.len() || off + 4 + u32_at(data, off) > data.len() {
            Err(DbError::TruncatedTuple)
        } else if !valid_utf8(data.subrange(off + 4, off + 4 + u32_at(data, off))) {
            Err(DbError::Utf8Error)
        } else {
            Ok(
                (
                    Datum::Varchar(decode_utf8(data.subrange(off + 4, off + 4 + u32_at(data, off)))),
                    off + 4 + u32_at(data, off),
                ),
            )
        },
        DataType::Boolean => if off + 1 > data.len() {
            Err(DbError::TruncatedTuple)
        } else {
            Ok((Datum::Boolean(data[off] != 0), off + 1))
        },
    }
}

/// Decodes the fields of types `types[i..]`, the first one starting at
/// `off`. Bytes after the last field are ignored.
pub open spec fn decode_fields(data: Seq<u8>, types: Seq<DataType>, i: int, off: int) -> Result<
    Seq<Datum>,
    DbError,
>
    decreases types.len() - i,
{
    if i >= types.len() || i < 0 {
        Ok(Seq::empty())
    } else {
        match decode_field(data, types[i], off) {
            Err(e) => Err(e),
            Ok((v, next)) => match decode_fields(data, types, i + 1, next) {
                Err(e) => Err(e),
                Ok(rest) => Ok(seq![v] + rest),
            },
        }
    }
}

/// The view of a decoded row.
pub open spec fn rows_result_view(r: Result<Row, DbError>) -> Result<Seq<Datum>, DbError> {
    match r {
        Ok(v) => Ok(row_view(v@)),
        Err(e) => Err(e),
    }
}

fn decode_field_at(data: &[u8], t: &DataType, off: usize) -> (r: Result<(Value, usize), DbError>)
    requires
        off <= data@.len(),
    ensures
        match (r, decode_field(data@, *t, off as int)) {
            (Ok((v, n)), Ok((dv, dn))) => v@ == dv && n == dn && n <= data@.len(),
            (Err(e), Err(de)) => e == de,
            _ => false,
        },
{
    match t {
        DataType::Integer => {
            if data.len() - off < 4 {
                return Err(DbError::TruncatedTuple);
            }
            Ok((Value::Integer(read_i32_le(data, off)), off + 4))
        },
        DataType::Varchar(_) => {
            if data.len() - off < 4 {
                return Err(DbError::TruncatedTuple);
            }
            let n = read_u32_le(data, off) as usize;
            if data.len() - off - 4 < n {
                return Err(DbError::TruncatedTuple);
            }
            let mut content: Vec<u8> = Vec::new();
            append_bytes(&mut content, &data[off + 4..off + 4 + n]);
            match string_from_utf8(content) {
                Some(s) => Ok((Value::Varchar(s), off + 4 + n)),
                None => Err(DbError::Utf8Error),
            }
        },
        DataType::Boolean => {
            if data.len() - off < 1 {
                return Err(DbError::TruncatedTuple);
            }
            Ok((Value::Boolean(data[off] != 0), off + 1))
        },
    }
}

fn decode_fields_from(data: &[u8], schema: &Schema, i: usize, off: usize) -> (r: Result<
    Row,
    DbError,
>)
    requires
        off <= data@.len(),
        i <= schema.columns@.len(),
    ensures
        rows_result_view(r) == decode_fields(
            data@,
            column_types(schema.columns@),
            i as int,
            off as int,
        ),
    decreases schema.columns@.len() - i,
{
    if i >= schema.columns.len() {
        let r: Row = Vec::new();
        assert(row_view(r@) =~= Seq::<Datum>::empty());
        return Ok(r);
    }
    let (v, next) = decode_field_at(data, &schema.columns[i].data_type, off)?;
    let mut rest = decode_fields_from(data, schema, i + 1, next)?;
    let ghost rv = row_view(rest@);
    rest.insert(0, v);
    proof {
        assert(row_view(rest@) =~= seq![v@] + rv);
    }
    Ok(rest)
}

/// Decodes a tuple into a row of the schema: the columns' values one after
/// another, in column order. Fails with `TruncatedTuple` when the bytes run
/// out and with `Utf8Error` on a Varchar that is not UTF-8.
pub fn deserialize_row(data: &[u8], schema: &Schema) -> (r: Result<Row, DbError>)
    ensures
        rows_result_view(r) == decode_fields(data@, column_types(schema.columns@), 0, 0),
{
    decode_fields_from(data, schema, 0, 0)
}

/// The views of a list of rows.
pub open spec fn rows_view(rows: Seq<Row>) -> Seq<Seq<Datum>> {
    rows.map_values(|r: Row| row_view(r@))
}

/// The rows that satisfy a condition, in order; the first row on which the
/// condition fails to evaluate makes the result that error.
pub open spec fn filter_rows(pred: ExprModel, rows: Seq<Seq<Datum>>, names: Seq<Seq<char>>) -> Result<
    Seq<Seq<Datum>>,
    DbError,
>
    decreases rows.len(),
{
    if rows.len() == 0 {
        Ok(Seq::empty())
    } else {
        match filter_rows(pred, rows.drop_last(), names) {
            Err(e) => Err(e),
            Ok(kept) => match as_condition(eval_expr(pred, rows.last(), names)) {
                Err(e) => Err(e),
                Ok(true) => Ok(kept.push(rows.last())),
                Ok(false) => Ok(kept),
            },
        }
    }
}

/// The values of the expressions on one row, in order.
pub open spec fn project_row(exprs: Seq<ExprModel>, row: Seq<Datum>, names: Seq<Seq<char>>) -> Result<
    Seq<Datum>,
    DbError,
>
    decreases exprs.len(),
{
    if exprs.len() == 0 {
        Ok(Seq::empty())
    } else {
        match project_row(exprs.drop_last(), row, names) {
            Err(e) => Err(e),
            Ok(vs) => match eval_expr(exprs.last(), row, names) {
                Err(e) => Err(e),
                Ok(v) => Ok(vs.push(v)),
            },
        }
    }
}

/// Each row projected on the expressions, in order.
pub open spec fn project_rows(exprs: Seq<ExprModel>, rows: Seq<Seq<Datum>>, names: Seq<Seq<char>>) -> Result<
    Seq<Seq<Datum>>,
    DbError,
>
    decreases rows.len(),
{
    if rows.len() == 0 {
        Ok(Seq::empty())
    } else {
        match project_rows(exprs, rows.drop_last(), names) {
            Err(e) => Err(e),
            Ok(done) => match project_row(exprs, rows.last(), names) {
                Err(e) => Err(e),
                Ok(r) => Ok(done.push(r)),
            },
        }
    }
}

/// The models of a list of expressions.
pub open spec fn exprs_view(exprs: Seq<Expression>) -> Seq<ExprModel> {
    exprs.map_values(|e: Expression| e@)
}

/// Once a prefix of the rows fails, filtering all of them fails the same way.
pub proof fn lemma_filter_prefix_err(pred: ExprModel, rows: Seq<Seq<Datum>>, names: Seq<Seq<char>>, k: int)
    requires
        0 <= k <= rows.len(),
        filter_rows(pred, rows.subrange(0, k), names) is Err,
    ensures
        filter_rows(pred, rows, names) == filter_rows(pred, rows.subrange(0, k), names),
    decreases rows.len() - k,
{
    if k < rows.len() {
        assert(rows.subrange(0, k + 1).drop_last() =~= rows.subrange(0, k));
        lemma_filter_prefix_err(pred, rows, names, k + 1);
    } else {
        assert(rows.subrange(0, k) =~= rows);
    }
}

/// Once a prefix of the expressions fails, projecting on all of them fails
/// the same way.
pub proof fn lemma_project_row_prefix_err(exprs: Seq<ExprModel>, row: Seq<Datum>, names: Seq<Seq<char>>, k: int)
    requires
        0 <= k <= exprs.len(),
        project_row(exprs.subrange(0, k), row, names) is Err,
    ensures
        project_row(exprs, row, names) == project_row(exprs.subrange(0, k), row, names),
    decreases exprs.len() - k,
{
    if k < exprs.len() {
        assert(exprs.subrange(0, k + 1).drop_last() =~= exprs.subrange(0, k));
        lemma_project_row_prefix_err(exprs, row, names, k + 1);
    } else {
        assert(exprs.subrange(0, k) =~= exprs);
    }
}

/// Once a prefix of the rows fails, projecting all of them fails the same
/// way.
pub proof fn lemma_project_rows_prefix_err(exprs: Seq<ExprModel>, rows: Seq<Seq<Datum>>, names: Seq<Seq<char>>, k: int)
    requires
        0 <= k <= rows.len(),
        project_rows(exprs, rows.subrange(0, k), names) is Err,
    ensures
        project_rows(exprs, rows, names) == project_rows(exprs, rows.subrange(0, k), names),
    decreases rows.len() - k,
{
    if k < rows.len() {
        assert(rows.subrange(0, k + 1).drop_last() =~= rows.subrange(0, k));
        lemma_project_rows_prefix_err(exprs, rows, names, k + 1);
    } else {
        assert(rows.subrange(0, k) =~= rows);
    }
}

fn duplicate_row(row: &Row) -> (r: Row)
    ensures
        row_view(r@) == row_view(row@),
{
    let mut out: Row = Vec::new();
    let mut i: usize = 0;
    while i < row.len()
        invariant
            i <= row@.len(),
            row_view(out@) == row_view(row@.subrange(0, i as int)),
        decreases row@.len() - i,
    {
        let ghost before = out@;
        let v = row[i].duplicate();
        out.push(v);
        proof {
            assert(out@ == before.push(v));
            assert(row@.subrange(0, i + 1) =~= row@.subrange(0, i as int).push(row@[i as int]));
            assert(row_view(out@) =~= row_view(before).push(v@));
            assert(row_view(row@.subrange(0, i + 1)) =~= row_view(row@.subrange(0, i as int)).push(row@[i as int]@));
        }
        i += 1;
    }
    assert(row@.subrange(0, i as int) =~= row@);
    out
}

/// Keeps the rows on which the condition holds, in order.
pub fn execute_filter_with_schema(predicate: &Expression, input_rows: Vec<Row>, schema: &Schema) -> (r:
    Result<Vec<Row>, DbError>)
    ensures
        match (r, filter_rows(predicate@, rows_view(input_rows@), column_names(schema.columns@))) {
            (Ok(rows), Ok(expected)) => rows_view(rows@) == expected,
            (Err(e), Err(de)) => e == de,
            _ => false,
        },
{
    let ghost names = column_names(schema.columns@);
    let ghost rv = rows_view(input_rows@);
    let mut out: Vec<Row> = Vec::new();
    assert(rv.subrange(0, 0) =~= Seq::<Seq<Datum>>::empty());
    assert(rows_view(out@) =~= Seq::<Seq<Datum>>::empty());
    let mut i: usize = 0;
    while i < input_rows.len()
        invariant
            names == column_names(schema.columns@),
            rv == rows_view(input_rows@),
            i <= input_rows@.len(),
            filter_rows(predicate@, rv.subrange(0, i as int), names) == Ok::<
                Seq<Seq<Datum>>,
                DbError,
            >(rows_view(out@)),
        decreases input_rows@.len() - i,
    {
        let ghost prefix = rv.subrange(0, i + 1);
        assert(prefix.drop_last() =~= rv.subrange(0, i as int));
        assert(prefix.last() == row_view(input_rows@[i as int]@));
        let keep = match evaluate_predicate_with_schema(predicate, &input_rows[i], schema) {
            Ok(b) => b,
            Err(e) => {
                proof {
                    lemma_filter_prefix_err(predicate@, rv, names, i + 1);
                }
                return Err(e);
            },
        };
        if keep {
            let ghost before = out@;
            out.push(duplicate_row(&input_rows[i]));
            assert(rows_view(out@) =~= rows_view(before).push(row_view(input_rows@[i as int]@)));
        }
        i += 1;
    }
    assert(rv.subrange(0, i as int) =~= rv);
    Ok(out)
}

fn project_one(exprs: &Vec<Expression>, row: &Row, schema: &Schema) -> (r: Result<Row, DbError>)
    ensures
        match (r, project_row(exprs_view(exprs@), row_view(row@), column_names(schema.columns@))) {
            (Ok(vs), Ok(expected)) => row_view(vs@) == expected,
            (Err(e), Err(de)) => e == de,
            _ => false,
        },
{
    let ghost names = column_names(schema.columns@);
    let ghost ev = exprs_view(exprs@);
    let mut out: Row = Vec::new();
    assert(ev.subrange(0, 0) =~= Seq::<ExprModel>::empty());
    assert(row_view(out@) =~= Seq::<Datum>::empty());
    let mut k: usize = 0;
    while k < exprs.len()
        invariant
            names == column_names(schema.columns@),
            ev == exprs_view(exprs@),
            k <= exprs@.len(),
            project_row(ev.subrange(0, k as int), row_view(row@), names) == Ok::<
                Seq<Datum>,
                DbError,
            >(row_view(out@)),
        decreases exprs@.len() - k,
    {
        let ghost prefix = ev.subrange(0, k + 1);
        assert(prefix.drop_last() =~= ev.subrange(0, k as int));
        assert(prefix.last() == exprs@[k as int]@);
        let v = match evaluate_expression_with_schema(&exprs[k], row, schema) {
            Ok(v) => v,
            Err(e) => {
                proof {
                    lemma_project_row_prefix_err(ev, row_view(row@), names, k + 1);
                }
                return Err(e);
            },
        };
        let ghost before = out@;
        out.push(v);
        assert(row_view(out@) =~= row_view(before).push(v@));
        k += 1;
    }
    assert(ev.subrange(0, k as int) =~= ev);
    Ok(out)
}

/// Whether a column reference among the expressions names no input column.
pub open spec fn unknown_column(exprs: Seq<ExprModel>, names: Seq<Seq<char>>) -> bool {
    exists|i: int|
        0 <= i < exprs.len() && (#[trigger] exprs[i] matches ExprModel::Column(n) && index_of(names, n)
            < 0)
}

/// The type of a literal's output column; Null counts as Varchar(255).
pub open spec fn literal_type(v: Datum) -> DataType {
    match v {
        Datum::Integer(_) => DataType::Integer,
        Datum::Varchar(_) => DataType::Varchar(255),
        Datum::Boolean(_) => DataType::Boolean,
        Datum::Null => DataType::Varchar(255),
    }
}

/// The name of the output column of an expression: a column keeps its
/// name, a literal is named `literal`, any other expression `expr`.
pub open spec fn output_name(e: ExprModel) -> Seq<char> {
    match e {
        ExprModel::Column(n) => n,
        ExprModel::Literal(_) => "literal"@,
        ExprModel::BinaryOp(..) => "expr"@,
    }
}

/// `c` is the nullable output column of `e` over the input columns: a
/// column reference keeps its input type, a literal has its own type, and
/// any other expression is typed Integer.
pub open spec fn output_column(e: ExprModel, input: Seq<Column>, c: Column) -> bool {
    &&& c.nullable
    &&& c.name@ == output_name(e)
    &&& c.data_type == match e {
        ExprModel::Column(n) => input[index_of(column_names(input), n)].data_type,
        ExprModel::Literal(v) => literal_type(v),
        ExprModel::BinaryOp(..) => DataType::Integer,
    }
}

/// The schema of a projection's output. Fails with `CatalogMiss` when an
/// expression names a column the input does not have.
pub fn create_projection_schema(exprs: &Vec<Expression>, input_schema: &Schema) -> (r: Result<
    Schema,
    DbError,
>)
    ensures
        r is Err <==> unknown_column(exprs_view(exprs@), column_names(input_schema.columns@)),
        r matches Err(e) ==> e == DbError::CatalogMiss,
        r matches Ok(s) ==> s.columns@.len() == exprs@.len() && forall|i: int|
            0 <= i < exprs@.len() ==> output_column(
                #[trigger] exprs@[i]@,
                input_schema.columns@,
                s.columns@[i],
            ),
{
    let ghost names = column_names(input_schema.columns@);
    let mut columns: Vec<Column> = Vec::new();
    let mut k: usize = 0;
    while k < exprs.len()
        invariant
            names == column_names(input_schema.columns@),
            k <= exprs@.len(),
            columns@.len() == k,
            forall|i: int|
                0 <= i < k ==> output_column(#[trigger] exprs@[i]@, input_schema.columns@, columns@[i]),
            forall|i: int|
                0 <= i < k ==> !(#[trigger] exprs@[i]@ matches ExprModel::Column(n) && index_of(names, n)
                    < 0),
        decreases exprs@.len() - k,
    {
        let ghost e = exprs@[k as int]@;
        let col = match &exprs[k] {
            Expression::Column { name } => {
                proof {
                    lemma_index_of(names, name@);
                }
                match input_schema.column_index(name.as_str()) {
                    Some(idx) => Column {
                        name: name.clone(),
                        data_type: input_schema.columns[idx].data_type,
                        nullable: true,
                    },
                    None => {
                        assert(exprs_view(exprs@)[k as int] == e);
                        return Err(DbError::CatalogMiss);
                    },
                }
            },
            Expression::Literal { value } => {
                let data_type = match value {
                    Value::Integer(_) => DataType::Integer,
                    Value::Varchar(_) => DataType::Varchar(255),
                    Value::Boolean(_) => DataType::Boolean,
                    Value::Null => DataType::Varchar(255),
                };
                Column { name: String::from_str("literal"), data_type, nullable: true }
            },
            Expression::BinaryOp { .. } => Column {
                name: String::from_str("expr"),
                data_type: DataType::Integer,
                nullable: true,
            },
        };
        columns.push(col);
        k += 1;
    }
    proof {
        assert forall|i: int| 0 <= i < exprs@.len() implies !(#[trigger] exprs_view(exprs@)[i] matches ExprModel::Column(n)
            && index_of(names, n) < 0) by {
            assert(exprs_view(exprs@)[i] == exprs@[i]@);
        }
    }
    Ok(Schema::new(columns))
}

/// Evaluates the expressions on every row, and gives the output schema.
pub fn execute_projection_with_schema(exprs: &Vec<Expression>, input_rows: Vec<Row>, input_schema: &Schema) -> (r:
    Result<(Vec<Row>, Schema), DbError>)
    ensures
        match project_rows(exprs_view(exprs@), rows_view(input_rows@), column_names(input_schema.columns@)) {
            Err(e) => r == Err::<(Vec<Row>, Schema), DbError>(e),
            Ok(expected) => if unknown_column(exprs_view(exprs@), column_names(input_schema.columns@)) {
                r == Err::<(Vec<Row>, Schema), DbError>(DbError::CatalogMiss)
            } else {
                r matches Ok((rows, s)) && rows_view(rows@) == expected && s.columns@.len() == exprs@.len()
                    && forall|i: int|
                    0 <= i < exprs@.len() ==> output_column(
                        #[trigger] exprs@[i]@,
                        input_schema.columns@,
                        s.columns@[i],
                    )
            },
        },
{
    let ghost names = column_names(input_schema.columns@);
    let ghost ev = exprs_view(exprs@);
    let ghost rv = rows_view(input_rows@);
    let mut out: Vec<Row> = Vec::new();
    assert(rv.subrange(0, 0) =~= Seq::<Seq<Datum>>::empty());
    assert(rows_view(out@) =~= Seq::<Seq<Datum>>::empty());
    let mut i: usize = 0;
    while i < input_rows.len()
        invariant
            names == column_names(input_schema.columns@),
            ev == exprs_view(exprs@),
            rv == rows_view(input_rows@),
            i <= input_rows@.len(),
            project_rows(ev, rv.subrange(0, i as int), names) == Ok::<
                Seq<Seq<Datum>>,
                DbError,
            >(rows_view(out@)),
        decreases input_rows@.len() - i,
    {
        let ghost prefix = rv.subrange(0, i + 1);
        assert(prefix.drop_last() =~= rv.subrange(0, i as int));
        assert(prefix.last() == row_view(input_rows@[i as int]@));
        let row = match project_one(exprs, &input_rows[i], input_schema) {
            Ok(r) => r,
            Err(e) => {
                proof {
                    lemma_project_rows_prefix_err(ev, rv, names, i + 1);
                }
                return Err(e);
            },
        };
        let ghost before = out@;
        out.push(row);
        assert(rows_view(out@) =~= rows_view(before).push(row_view(row@)));
        i += 1;
    }
    assert(rv.subrange(0, i as int) =~= rv);
    let schema = create_projection_schema(exprs, input_schema)?;
    Ok((out, schema))
}

/// The first `limit` rows.
pub fn execute_limit(limit: u32, input_rows: Vec<Row>) -> (r: Vec<Row>)
    ensures
        r@ == input_rows@.take(if limit as int <= input_rows@.len() { limit as int } else { input_rows@.len() as int }),
{
    let mut rows = input_rows;
    if (limit as usize) < rows.len() {
        rows.truncate(limit as usize);
    }
    rows
}

/// The rows of the live tuples of a page, in slot order; the first tuple
/// that does not decode makes the result that error.
pub open spec fn tuple_rows(ts: Seq<Option<Seq<u8>>>, types: Seq<DataType>) -> Result<
    Seq<Seq<Datum>>,
    DbError,
>
    decreases ts.len(),
{
    if ts.len() == 0 {
        Ok(Seq::empty())
    } else {
        match tuple_rows(ts.drop_last(), types) {
            Err(e) => Err(e),
            Ok(acc) => match ts.last() {
                None => Ok(acc),
                Some(t) => match decode_fields(t, types, 0, 0) {
                    Err(e) => Err(e),
                    Ok(r) => Ok(acc.push(r)),
                },
            },
        }
    }
}

/// The rows of a sequence of pages, page after page.
pub open spec fn scan_rows(pages: Seq<Seq<u8>>, types: Seq<DataType>) -> Result<
    Seq<Seq<Datum>>,
    DbError,
>
    decreases pages.len(),
{
    if pages.len() == 0 {
        Ok(Seq::empty())
    } else {
        match scan_rows(pages.drop_last(), types) {
            Err(e) => Err(e),
            Ok(acc) => match tuple_rows(tuples_of(pages.last()), types) {
                Err(e) => Err(e),
                Ok(rs) => Ok(acc + rs),
            },
        }
    }
}

/// Once a prefix of the tuples fails to decode, the whole page fails the
/// same way.
pub proof fn lemma_tuple_rows_prefix_err(ts: Seq<Option<Seq<u8>>>, types: Seq<DataType>, k: int)
    requires
        0 <= k <= ts.len(),
        tuple_rows(ts.subrange(0, k), types) is Err,
    ensures
        tuple_rows(ts, types) == tuple_rows(ts.subrange(0, k), types),
    decreases ts.len() - k,
{
    if k < ts.len() {
        assert(ts.subrange(0, k + 1).drop_last() =~= ts.subrange(0, k));
        lemma_tuple_rows_prefix_err(ts, types, k + 1);
    } else {
        assert(ts.subrange(0, k) =~= ts);
    }
}

/// Decodes the live tuples of a heap page into rows of the schema, in slot
/// order.
pub fn heap_page_rows(hp: &HeapPage, schema: &Schema) -> (r: Result<Vec<Row>, DbError>)
    requires
        hp.page.wf(),
    ensures
        match (r, tuple_rows(hp@, column_types(schema.columns@))) {
            (Ok(rows), Ok(expected)) => rows_view(rows@) == expected,
            (Err(e), Err(de)) => e == de,
            _ => false,
        },
{
    let ghost types = column_types(schema.columns@);
    let ghost ts = hp@;
    let n = hp.slot_count();
    let mut out: Vec<Row> = Vec::new();
    assert(ts.subrange(0, 0) =~= Seq::<Option<Seq<u8>>>::empty());
    assert(rows_view(out@) =~= Seq::<Seq<Datum>>::empty());
    let mut i: usize = 0;
    while i < n
        invariant
            hp.page.wf(),
            n == ts.len(),
            ts == hp@,
            types == column_types(schema.columns@),
            i <= n,
            tuple_rows(ts.subrange(0, i as int), types) == Ok::<Seq<Seq<Datum>>, DbError>(
                rows_view(out@),
            ),
        decreases n - i,
    {
        let ghost prefix = ts.subrange(0, i + 1);
        assert(prefix.drop_last() =~= ts.subrange(0, i as int));
        assert(prefix.last() == ts[i as int]);
        match hp.read_tuple(i) {
            Some(t) => {
                let row = match deserialize_row(t, schema) {
                    Ok(row) => row,
                    Err(e) => {
                        proof {
                            lemma_tuple_rows_prefix_err(ts, types, i + 1);
                        }
                        return Err(e);
                    },
                };
                let ghost before = out@;
                out.push(row);
                assert(rows_view(out@) =~= rows_view(before).push(row_view(row@)));
            },
            None => {},
        }
        i += 1;
    }
    assert(ts.subrange(0, i as int) =~= ts);
    Ok(out)
}

/// The output column names of a plan.
pub open spec fn plan_names(plan: PhysicalPlan) -> Seq<Seq<char>>
    decreases plan,
{
    match plan {
        PhysicalPlan::SeqScan { schema, .. } => column_names(schema.columns@),
        PhysicalPlan::Filter { input, .. } => plan_names(*input),
        PhysicalPlan::Projection { exprs, .. } => exprs_view(exprs@).map_values(
            |e: ExprModel| output_name(e),
        ),
        PhysicalPlan::Limit { input, .. } => plan_names(*input),
    }
}

/// Pages as a store hands them out: of the page size, with a valid
/// checksum.
pub open spec fn valid_pages(pages: Seq<Seq<u8>>) -> bool {
    forall|k: int| 0 <= k < pages.len() ==> (#[trigger] pages[k]).len() == PAGE_SIZE && checksum_ok(pages[k])
}

/// What the scan does next.
#[derive(Debug, Clone, Copy, PartialEq, Eq, Structural)]
pub enum ScanAction {
    /// Read this page.
    Read(PageId),
    /// The scan is complete.
    Finish,
}

/// One step of the scan of file 1, after the read of page `page_no`. A
/// failed read ends the scan (the end of the table, or a page that does
/// not verify). A page read appends the rows of its live tuples, in slot
/// order, to `rows`, and the scan goes on with the next page of the file,
/// if there is one; a tuple that does not decode fails the scan.
pub fn scan_step(page_no: u32, read: Result<Page, DiskError>, schema: &Schema, rows: &mut Vec<Row>) -> (r: Result<
    ScanAction,
    DbError,
>)
    requires
        read matches Ok(p) ==> p.wf(),
    ensures
        read is Err ==> r == Ok::<ScanAction, DbError>(ScanAction::Finish) && *final(rows) == *old(rows),
        read matches Ok(p) ==> match tuple_rows(tuples_of(p.buf@), column_types(schema.columns@)) {
            Err(e) => r == Err::<ScanAction, DbError>(e),
            Ok(added) => rows_view(final(rows)@) == rows_view(old(rows)@) + added && r == Ok::<
                ScanAction,
                DbError,
            >(
                if page_no < u32::MAX {
                    ScanAction::Read(PageId((PAGES_PER_FILE + page_no + 1) as u64))
                } else {
                    ScanAction::Finish
                },
            ),
        },
{
    let page = match read {
        Ok(page) => page,
        Err(_) => return Ok(ScanAction::Finish),
    };
    let heap_page = HeapPage { page };
    let page_rows = heap_page_rows(&heap_page, schema)?;
    let ghost before = rows@;
    let ghost added = rows_view(page_rows@);
    let mut k: usize = 0;
    while k < page_rows.len()
        invariant
            k <= page_rows@.len(),
            added == rows_view(page_rows@),
            rows_view(rows@) == rows_view(before) + added.subrange(0, k as int),
        decreases page_rows@.len() - k,
    {
        let ghost prev = rows@;
        let d = duplicate_row(&page_rows[k]);
        rows.push(d);
        assert(rows_view(rows@) =~= rows_view(prev).push(row_view(d@)));
        assert(added.subrange(0, k + 1) =~= added.subrange(0, k as int).push(added[k as int]));
        k += 1;
    }
    assert(added.subrange(0, k as int) =~= added);
    if page_no < u32::MAX {
        Ok(ScanAction::Read(PageId::new(1, page_no + 1)))
    } else {
        Ok(ScanAction::Finish)
    }
}

/// The errors of decoding tuples.
pub open spec fn decode_error(e: DbError) -> bool {
    e == DbError::TruncatedTuple || e == DbError::Utf8Error
}

/// The rows a plan yields when its scan reads `pages`: the rows of their
/// live tuples, then the filter, projection and limit above the scan, the
/// first error being the result.
pub open spec fn run_result(plan: PhysicalPlan, pages: Seq<Seq<u8>>) -> Result<
    Seq<Seq<Datum>>,
    DbError,
>
    decreases plan,
{
    match plan {
        PhysicalPlan::SeqScan { schema, .. } => scan_rows(pages, column_types(schema.columns@)),
        PhysicalPlan::Filter { predicate, input } => match run_result(*input, pages) {
            Err(e) => Err(e),
            Ok(rows) => filter_rows(predicate@, rows, plan_names(*input)),
        },
        PhysicalPlan::Projection { exprs, input } => match run_result(*input, pages) {
            Err(e) => Err(e),
            Ok(rows) => match project_rows(exprs_view(exprs@), rows, plan_names(*input)) {
                Err(e) => Err(e),
                Ok(out) => if unknown_column(exprs_view(exprs@), plan_names(*input)) {
                    Err(DbError::CatalogMiss)
                } else {
                    Ok(out)
                },
            },
        },
        PhysicalPlan::Limit { limit, input } => match run_result(*input, pages) {
            Err(e) => Err(e),
            Ok(rows) => Ok(
                rows.take(
                    if limit as int <= rows.len() {
                        limit as int
                    } else {
                        rows.len() as int
                    },
                ),
            ),
        },
    }
}

/// `r` is what running `plan` gives when its scan reads `pages`: the plan's
/// rows under columns named as the plan says, or its first error.
pub open spec fn query_outcome(plan: PhysicalPlan, pages: Seq<Seq<u8>>, r: Result<QueryResult, DbError>) -> bool {
    match (r, run_result(plan, pages)) {
        (Ok(res), Ok(rows)) => rows_view(res.rows@) == rows && column_names(res.schema.columns@)
            == plan_names(plan),
        (Err(e), Err(d)) => e == d,
        _ => false,
    }
}

/// Once a prefix of the pages fails to decode, the whole scan fails the
/// same way.
pub proof fn lemma_scan_rows_prefix_err(pages: Seq<Seq<u8>>, types: Seq<DataType>, k: int)
    requires
        0 <= k <= pages.len(),
        scan_rows(pages.subrange(0, k), types) is Err,
    ensures
        scan_rows(pages, types) == scan_rows(pages.subrange(0, k), types),
    decreases pages.len() - k,
{
    if k < pages.len() {
        assert(pages.subrange(0, k + 1).drop_last() =~= pages.subrange(0, k));
        lemma_scan_rows_prefix_err(pages, types, k + 1);
    } else {
        assert(pages.subrange(0, k) =~= pages);
    }
}

/// Decoding fields fails only with a decoding error.
pub proof fn lemma_decode_fields_errors(data: Seq<u8>, types: Seq<DataType>, i: int, off: int)
    ensures
        decode_fields(data, types, i, off) matches Err(e) ==> decode_error(e),
    decreases types.len() - i,
{
    if 0 <= i < types.len() {
        match decode_field(data, types[i], off) {
            Err(_) => {},
            Ok((v, next)) => {
                lemma_decode_fields_errors(data, types, i + 1, next);
            },
        }
    }
}

/// Decoding a page's tuples fails only with a decoding error.
pub proof fn lemma_tuple_rows_errors(ts: Seq<Option<Seq<u8>>>, types: Seq<DataType>)
    ensures
        tuple_rows(ts, types) matches Err(e) ==> decode_error(e),
    decreases ts.len(),
{
    if ts.len() > 0 {
        lemma_tuple_rows_errors(ts.drop_last(), types);
        if let Some(t) = ts.last() {
            lemma_decode_fields_errors(t, types, 0, 0);
        }
    }
}

/// A scan fails only with a decoding error.
pub proof fn lemma_scan_rows_errors(pages: Seq<Seq<u8>>, types: Seq<DataType>)
    ensures
        scan_rows(pages, types) matches Err(e) ==> decode_error(e),
    decreases pages.len(),
{
    if pages.len() > 0 {
        lemma_scan_rows_errors(pages.drop_last(), types);
        lemma_tuple_rows_errors(tuples_of(pages.last()), types);
    }
}

/// The rows and the schema of a query's answer.
#[derive(Debug)]
pub struct QueryResult {
    pub rows: Vec<Row>,
    pub schema: Schema,
}

/// Runs plans against a page store.
pub struct QueryExecutor {}

impl Default for QueryExecutor {
    fn default() -> (r: QueryExecutor)
        ensures
            r == (QueryExecutor {  }),
    {
        QueryExecutor::new()
    }
}

impl QueryExecutor {
    pub fn new() -> (r: QueryExecutor)
        ensures
            r == (QueryExecutor {  }),
    {
        QueryExecutor {  }
    }

    /// Runs a plan. The scan reads pages 0, 1, 2, ... of file 1 until a read
    /// fails, and decodes their live tuples; the operators above it then
    /// filter, project and limit those rows. Whatever the store returns,
    /// the result is exactly what the plan gives over the pages the scan
    /// was handed (`run_result`), and the store is left as it was.
    pub fn execute<D: DiskManager>(&self, plan: PhysicalPlan, disk_manager: &mut D) -> (r: Result<
        QueryResult,
        DbError,
    >)
        ensures
            exists|pages: Seq<Seq<u8>>| valid_pages(pages) && query_outcome(plan, pages, r),
            *final(disk_manager) == *old(disk_manager),
        decreases plan,
    {
        match plan {
            PhysicalPlan::SeqScan { table_name, schema } => {
                let rows = self.execute_seq_scan(table_name.as_str(), &schema, &*disk_manager)?;
                Ok(QueryResult { rows, schema })
            },
            PhysicalPlan::Filter { predicate, input } => {
                let input_result = self.execute(*input, disk_manager)?;
                let rows = execute_filter_with_schema(
                    &predicate,
                    input_result.rows,
                    &input_result.schema,
                )?;
                Ok(QueryResult { rows, schema: input_result.schema })
            },
            PhysicalPlan::Projection { exprs, input } => {
                let ghost inp = *input;
                let input_result = self.execute(*input, disk_manager)?;
                let (rows, schema) = execute_projection_with_schema(
                    &exprs,
                    input_result.rows,
                    &input_result.schema,
                )?;
                proof {
                    assert forall|i: int| 0 <= i < exprs@.len() implies column_names(schema.columns@)[i]
                        == exprs_view(exprs@).map_values(|e: ExprModel| output_name(e))[i] by {
                        assert(output_column(exprs@[i]@, input_result.schema.columns@, schema.columns@[i]));
                    }
                    assert(column_names(schema.columns@) =~= exprs_view(exprs@).map_values(
                        |e: ExprModel| output_name(e),
                    ));
                }
                Ok(QueryResult { rows, schema })
            },
            PhysicalPlan::Limit { limit, input } => {
                let input_result = self.execute(*input, disk_manager)?;
                let ghost in_rows = input_result.rows@;
                let rows = execute_limit(limit, input_result.rows);
                proof {
                    let n = if limit as int <= in_rows.len() {
                        limit as int
                    } else {
                        in_rows.len() as int
                    };
                    assert(rows_view(rows@) =~= rows_view(in_rows).take(n));
                }
                Ok(QueryResult { rows, schema: input_result.schema })
            },
        }
    }

    /// Reads pages 0, 1, 2, ... of file 1 until a read fails (the end of the
    /// table, or a page that does not verify) and decodes their rows, page
    /// after page and slot after slot, each step decided by `scan_step`.
    /// The table name is not consulted: every table lives in file 1. Whatever
    /// the store returns, the result is exactly what the pages it handed out
    /// decode to, and the scan fails only on a tuple that does not decode.
    fn execute_seq_scan<D: DiskManager>(&self, _table_name: &str, schema: &Schema, disk_manager: &D) -> (r:
        Result<Vec<Row>, DbError>)
        ensures
            exists|pages: Seq<Seq<u8>>|
                valid_pages(pages) && match (r, scan_rows(pages, column_types(schema.columns@))) {
                    (Ok(rows), Ok(expected)) => rows_view(rows@) == expected,
                    (Err(e), Err(d)) => e == d,
                    _ => false,
                },
            r matches Err(e) ==> decode_error(e),
    {
        let ghost types = column_types(schema.columns@);
        let mut rows: Vec<Row> = Vec::new();
        let ghost mut pages: Seq<Seq<u8>> = Seq::empty();
        assert(rows_view(rows@) =~= Seq::<Seq<Datum>>::empty());
        let mut page_no: u32 = 0;
        let mut pid = PageId::new(1, 0);
        loop
            invariant
                types == column_types(schema.columns@),
                valid_pages(pages),
                scan_rows(pages, types) == Ok::<Seq<Seq<Datum>>, DbError>(rows_view(rows@)),
            ensures
                valid_pages(pages),
                scan_rows(pages, types) == Ok::<Seq<Seq<Datum>>, DbError>(rows_view(rows@)),
            decreases u32::MAX - page_no,
        {
            let read = disk_manager.read_page(pid);
            let ghost got = read;
            match scan_step(page_no, read, schema, &mut rows) {
                Err(e) => {
                    proof {
                        let b = got->Ok_0.buf@;
                        let next = pages.push(b);
                        assert(next.drop_last() =~= pages);
                        assert(valid_pages(next));
                        lemma_scan_rows_errors(next, types);
                        assert(scan_rows(next, types) == Err::<Seq<Seq<Datum>>, DbError>(e));
                    }
                    return Err(e);
                },
                Ok(ScanAction::Finish) => {
                    proof {
                        if got is Ok {
                            let b = got->Ok_0.buf@;
                            let next = pages.push(b);
                            assert(next.drop_last() =~= pages);
                            assert(valid_pages(next));
                            pages = next;
                        }
                    }
                    break;
                },
                Ok(ScanAction::Read(next_pid)) => {
                    proof {
                        let b = got->Ok_0.buf@;
                        let next = pages.push(b);
                        assert(next.drop_last() =~= pages);
                        assert(valid_pages(next));
                        pages = next;
                    }
                    pid = next_pid;
                    page_no = page_no + 1;
                },
            }
        }
        Ok(rows)
    }
}

} // verus!
