//! A recursive-descent parser for the SQL subset, over the UTF-8 bytes of
//! the query text.
//!
//! ```text
//! statement   := SELECT select_list [FROM identifier] [WHERE expr] [LIMIT integer]
//! select_list := select_item (',' select_item)*
//! select_item := '*' | expr
//! expr        := and_expr (OR and_expr)*
//! and_expr    := cmp_expr (AND cmp_expr)*
//! cmp_expr    := add_expr [ ('>=' | '<=' | '<>' | '!=' | '=' | '<' | '>') add_expr ]
//! add_expr    := mul_expr (('+' | '-') mul_expr)*
//! mul_expr    := primary (('*' | '/') primary)*
//! primary     := integer | string | TRUE | FALSE | identifier | '(' expr ')'
//! ```
//!
//! Keywords are case-insensitive; whitespace may separate tokens and is
//! required after SELECT and around FROM, WHERE and LIMIT. Nothing but
//! whitespace may follow the statement.
use vstd::prelude::*;
use vstd::utf8::*;
use crate::ast::{
    BinaryOperator, ExprModel, Expression, ItemModel, SelectItem, SelectStatement, Statement,
    StatementModel, items_view,
};
use crate::error::DbError;
use crate::text::string_from_utf8;
use crate::types::{Datum, Value};

verus! {

broadcast use vstd::utf8::encode_utf8_decode_utf8;

pub open spec fn is_ws(c: u8) -> bool {
    c == 32 || c == 9 || c == 10 || c == 13
}

pub open spec fn is_digit(c: u8) -> bool {
    48 <= c <= 57
}

pub open spec fn is_alpha(c: u8) -> bool {
    (65 <= c <= 90) || (97 <= c <= 122)
}

pub open spec fn is_ident_start(c: u8) -> bool {
    is_alpha(c) || c == 95
}

pub open spec fn is_ident_char(c: u8) -> bool {
    is_alpha(c) || is_digit(c) || c == 95
}

/// ASCII lower case.
pub open spec fn lower(c: u8) -> u8 {
    if 65 <= c <= 90 {
        (c + 32) as u8
    } else {
        c
    }
}

/// The first position at or after `p` that is not whitespace.
pub open spec fn skip_ws(b: Seq<u8>, p: int) -> int
    decreases b.len() - p,
{
    if 0 <= p < b.len() && is_ws(b[p]) {
        skip_ws(b, p + 1)
    } else {
        p
    }
}

/// The first position at or after `p` that cannot continue an identifier.
pub open spec fn ident_end(b: Seq<u8>, p: int) -> int
    decreases b.len() - p,
{
    if 0 <= p < b.len() && is_ident_char(b[p]) {
        ident_end(b, p + 1)
    } else {
        p
    }
}

/// The first position at or after `p` that is not a digit.
pub open spec fn digits_end(b: Seq<u8>, p: int) -> int
    decreases b.len() - p,
{
    if 0 <= p < b.len() && is_digit(b[p]) {
        digits_end(b, p + 1)
    } else {
        p
    }
}

/// The first single quote at or after `p`, or the end.
pub open spec fn quote_end(b: Seq<u8>, p: int) -> int
    decreases b.len() - p,
{
    if 0 <= p < b.len() && b[p] != 39 {
        quote_end(b, p + 1)
    } else {
        p
    }
}

pub const NUMBER_CAP: u64 = 4294967296;

/// The decimal value of the digits `b[s..e]`, capped at 2^32.
pub open spec fn digits_value(b: Seq<u8>, s: int, e: int) -> int
    decreases e - s,
{
    if e <= s {
        0
    } else {
        let v = digits_value(b, s, e - 1) * 10 + (b[e - 1] - 48);
        if v > NUMBER_CAP {
            NUMBER_CAP as int
        } else {
            v
        }
    }
}

/// `kw` (lower case) stands at `p`, in any case.
pub open spec fn keyword_at(b: Seq<u8>, p: int, kw: Seq<u8>) -> bool {
    &&& 0 <= p
    &&& p + kw.len() <= b.len()
    &&& forall|i: int| 0 <= i < kw.len() ==> lower(#[trigger] b[p + i]) == kw[i]
}

/// `kw` stands at `p` and no identifier character follows it.
pub open spec fn word_at(b: Seq<u8>, p: int, kw: Seq<u8>) -> bool {
    keyword_at(b, p, kw) && !(p + kw.len() < b.len() && is_ident_char(b[p + kw.len()]))
}

pub open spec fn kw_select() -> Seq<u8> {
    seq![115u8, 101, 108, 101, 99, 116]
}

pub open spec fn kw_from() -> Seq<u8> {
    seq![102u8, 114, 111, 109]
}

pub open spec fn kw_where() -> Seq<u8> {
    seq![119u8, 104, 101, 114, 101]
}

pub open spec fn kw_limit() -> Seq<u8> {
    seq![108u8, 105, 109, 105, 116]
}

pub open spec fn kw_true() -> Seq<u8> {
    seq![116u8, 114, 117, 101]
}

pub open spec fn kw_false() -> Seq<u8> {
    seq![102u8, 97, 108, 115, 101]
}

pub open spec fn kw_and() -> Seq<u8> {
    seq![97u8, 110, 100]
}

pub open spec fn kw_or() -> Seq<u8> {
    seq![111u8, 114]
}

/// An integer literal at `p`: an optional minus sign and digits, within
/// the `i32` range.
pub open spec fn parse_integer(b: Seq<u8>, p: int) -> Option<(ExprModel, int)> {
    let neg = 0 <= p < b.len() && b[p] == 45;
    let s = if neg { p + 1 } else { p };
    let e = digits_end(b, s);
    let v = digits_value(b, s, e);
    if p < 0 || e == s {
        None
    } else if neg {
        if v > 2147483648 {
            None
        } else {
            Some((ExprModel::Literal(Datum::Integer((-v) as i32)), e))
        }
    } else {
        if v > 2147483647 {
            None
        } else {
            Some((ExprModel::Literal(Datum::Integer(v as i32)), e))
        }
    }
}

/// A string literal at `p`: a quote, at least one other byte, a quote.
pub open spec fn parse_string(b: Seq<u8>, p: int) -> Option<(ExprModel, int)> {
    let q = quote_end(b, p + 1);
    if p < 0 || q >= b.len() || q == p + 1 || !valid_utf8(b.subrange(p + 1, q)) {
        None
    } else {
        Some((ExprModel::Literal(Datum::Varchar(decode_utf8(b.subrange(p + 1, q)))), q + 1))
    }
}

/// An identifier at `p`, which must start with a letter or underscore.
pub open spec fn parse_identifier(b: Seq<u8>, p: int) -> Option<(Seq<char>, int)> {
    let e = ident_end(b, p + 1);
    if p < 0 || p >= b.len() || !is_ident_start(b[p]) || !valid_utf8(b.subrange(p, e)) {
        None
    } else {
        Some((decode_utf8(b.subrange(p, e)), e))
    }
}

/// A primary expression at `p`.
pub open spec fn parse_primary(b: Seq<u8>, p: int) -> Option<(ExprModel, int)>
    decreases b.len() - p, 3int,
{
    if p < 0 || p >= b.len() {
        None
    } else if is_digit(b[p]) || (b[p] == 45 && p + 1 < b.len() && is_digit(b[p + 1])) {
        parse_integer(b, p)
    } else if b[p] == 39 {
        parse_string(b, p)
    } else if word_at(b, p, kw_true()) {
        Some((ExprModel::Literal(Datum::Boolean(true)), p + 4))
    } else if word_at(b, p, kw_false()) {
        Some((ExprModel::Literal(Datum::Boolean(false)), p + 5))
    } else if is_ident_start(b[p]) {
        match parse_identifier(b, p) {
            Some((name, e)) => Some((ExprModel::Column(name), e)),
            None => None,
        }
    } else if b[p] == 40 {
        let r0 = skip_ws(b, p + 1);
        if r0 <= p || r0 > b.len() {
            None
        } else {
            match parse_or(b, r0) {
                None => None,
                Some((inner, e)) => {
                    let c = skip_ws(b, e);
                    if 0 <= c < b.len() && b[c] == 41 {
                        Some((inner, c + 1))
                    } else {
                        None
                    }
                },
            }
        }
    } else {
        None
    }
}

/// The operator of a `*` / `/` byte.
pub open spec fn mul_op(c: u8) -> Option<BinaryOperator> {
    if c == 42 {
        Some(BinaryOperator::Mul)
    } else if c == 47 {
        Some(BinaryOperator::Div)
    } else {
        None
    }
}

/// The operator of a `+` / `-` byte.
pub open spec fn add_op(c: u8) -> Option<BinaryOperator> {
    if c == 43 {
        Some(BinaryOperator::Add)
    } else if c == 45 {
        Some(BinaryOperator::Sub)
    } else {
        None
    }
}

/// The comparison operator at `q`, and its length; two-byte operators are
/// tried first.
pub open spec fn cmp_op(b: Seq<u8>, q: int) -> Option<(BinaryOperator, int)> {
    if q < 0 || q >= b.len() {
        None
    } else if q + 1 < b.len() && b[q] == 62 && b[q + 1] == 61 {
        Some((BinaryOperator::Ge, 2))
    } else if q + 1 < b.len() && b[q] == 60 && b[q + 1] == 61 {
        Some((BinaryOperator::Le, 2))
    } else if q + 1 < b.len() && b[q] == 60 && b[q + 1] == 62 {
        Some((BinaryOperator::Ne, 2))
    } else if q + 1 < b.len() && b[q] == 33 && b[q + 1] == 61 {
        Some((BinaryOperator::Ne, 2))
    } else if b[q] == 61 {
        Some((BinaryOperator::Eq, 1))
    } else if b[q] == 60 {
        Some((BinaryOperator::Lt, 1))
    } else if b[q] == 62 {
        Some((BinaryOperator::Gt, 1))
    } else {
        None
    }
}

pub open spec fn bin(l: ExprModel, op: BinaryOperator, r: ExprModel) -> ExprModel {
    ExprModel::BinaryOp(Box::new(l), op, Box::new(r))
}

/// `primary (('*' | '/') primary)*`, left-associative.
pub open spec fn parse_mul(b: Seq<u8>, p: int) -> Option<(ExprModel, int)>
    decreases b.len() - p, 5int,
{
    match parse_primary(b, p) {
        None => None,
        Some((e, q)) => if q < p {
            None
        } else if q > b.len() {
            None
        } else {
            Some(mul_tail(b, e, q))
        },
    }
}

pub open spec fn mul_tail(b: Seq<u8>, acc: ExprModel, p: int) -> (ExprModel, int)
    decreases b.len() - p, 4int,
{
    let q = skip_ws(b, p);
    if p < 0 || q < p || q >= b.len() || mul_op(b[q]) is None {
        (acc, p)
    } else {
        let r0 = skip_ws(b, q + 1);
        if r0 <= p || r0 > b.len() {
            (acc, p)
        } else {
            match parse_primary(b, r0) {
                None => (acc, p),
                Some((rhs, p2)) => if p2 <= p || p2 > b.len() {
                    (acc, p)
                } else {
                    mul_tail(b, bin(acc, mul_op(b[q])->Some_0, rhs), p2)
                },
            }
        }
    }
}

/// `mul_expr (('+' | '-') mul_expr)*`, left-associative.
pub open spec fn parse_add(b: Seq<u8>, p: int) -> Option<(ExprModel, int)>
    decreases b.len() - p, 7int,
{
    match parse_mul(b, p) {
        None => None,
        Some((e, q)) => if q < p {
            None
        } else if q > b.len() {
            None
        } else {
            Some(add_tail(b, e, q))
        },
    }
}

pub open spec fn add_tail(b: Seq<u8>, acc: ExprModel, p: int) -> (ExprModel, int)
    decreases b.len() - p, 6int,
{
    let q = skip_ws(b, p);
    if p < 0 || q < p || q >= b.len() || add_op(b[q]) is None {
        (acc, p)
    } else {
        let r0 = skip_ws(b, q + 1);
        if r0 <= p || r0 > b.len() {
            (acc, p)
        } else {
            match parse_mul(b, r0) {
                None => (acc, p),
                Some((rhs, p2)) => if p2 <= p || p2 > b.len() {
                    (acc, p)
                } else {
                    add_tail(b, bin(acc, add_op(b[q])->Some_0, rhs), p2)
                },
            }
        }
    }
}

/// `add_expr [cmp_op add_expr]`: comparisons do not chain.
pub open spec fn parse_cmp(b: Seq<u8>, p: int) -> Option<(ExprModel, int)>
    decreases b.len() - p, 8int,
{
    match parse_add(b, p) {
        None => None,
        Some((l, p1)) => {
            let q = skip_ws(b, p1);
            if p1 < p || q < p1 {
                None
            } else {
                match cmp_op(b, q) {
                    None => Some((l, p1)),
                    Some((op, n)) => {
                        let r0 = skip_ws(b, q + n);
                        if r0 <= p || r0 > b.len() {
                            None
                        } else {
                            match parse_add(b, r0) {
                                None => Some((l, p1)),
                                Some((r, p2)) => Some((bin(l, op, r), p2)),
                            }
                        }
                    },
                }
            }
        },
    }
}

/// `cmp_expr (AND cmp_expr)*`, left-associative.
pub open spec fn parse_and(b: Seq<u8>, p: int) -> Option<(ExprModel, int)>
    decreases b.len() - p, 10int,
{
    match parse_cmp(b, p) {
        None => None,
        Some((e, q)) => if q < p {
            None
        } else if q > b.len() {
            None
        } else {
            Some(and_tail(b, e, q))
        },
    }
}

pub open spec fn and_tail(b: Seq<u8>, acc: ExprModel, p: int) -> (ExprModel, int)
    decreases b.len() - p, 9int,
{
    let q = skip_ws(b, p);
    if p < 0 || q < p || !word_at(b, q, kw_and()) {
        (acc, p)
    } else {
        let r0 = skip_ws(b, q + 3);
        if r0 <= p || r0 > b.len() {
            (acc, p)
        } else {
            match parse_cmp(b, r0) {
                None => (acc, p),
                Some((rhs, p2)) => if p2 <= p || p2 > b.len() {
                    (acc, p)
                } else {
                    and_tail(b, bin(acc, BinaryOperator::And, rhs), p2)
                },
            }
        }
    }
}

/// `and_expr (OR and_expr)*`, left-associative: a whole expression.
pub open spec fn parse_or(b: Seq<u8>, p: int) -> Option<(ExprModel, int)>
    decreases b.len() - p, 12int,
{
    match parse_and(b, p) {
        None => None,
        Some((e, q)) => if q < p {
            None
        } else if q > b.len() {
            None
        } else {
            Some(or_tail(b, e, q))
        },
    }
}

pub open spec fn or_tail(b: Seq<u8>, acc: ExprModel, p: int) -> (ExprModel, int)
    decreases b.len() - p, 11int,
{
    let q = skip_ws(b, p);
    if p < 0 || q < p || !word_at(b, q, kw_or()) {
        (acc, p)
    } else {
        let r0 = skip_ws(b, q + 2);
        if r0 <= p || r0 > b.len() {
            (acc, p)
        } else {
            match parse_and(b, r0) {
                None => (acc, p),
                Some((rhs, p2)) => if p2 <= p || p2 > b.len() {
                    (acc, p)
                } else {
                    or_tail(b, bin(acc, BinaryOperator::Or, rhs), p2)
                },
            }
        }
    }
}

/// A select item at `p`: `*`, or an expression.
pub open spec fn parse_item(b: Seq<u8>, p: int) -> Option<(ItemModel, int)> {
    if 0 <= p < b.len() && b[p] == 42 {
        Some((ItemModel::Wildcard, p + 1))
    } else {
        match parse_or(b, p) {
            Some((e, q)) => Some((ItemModel::Expression(e, None), q)),
            None => None,
        }
    }
}

pub open spec fn items_tail(b: Seq<u8>, acc: Seq<ItemModel>, p: int) -> (Seq<ItemModel>, int)
    decreases b.len() - p,
{
    let q = skip_ws(b, p);
    if p < 0 || q < p || q >= b.len() || b[q] != 44 {
        (acc, p)
    } else {
        let r0 = skip_ws(b, q + 1);
        match parse_item(b, r0) {
            None => (acc, p),
            Some((it, p2)) => if p2 <= p || p2 > b.len() {
                (acc, p)
            } else {
                items_tail(b, acc.push(it), p2)
            },
        }
    }
}

/// `select_item (',' select_item)*`.
pub open spec fn parse_items(b: Seq<u8>, p: int) -> Option<(Seq<ItemModel>, int)> {
    match parse_item(b, p) {
        None => None,
        Some((it, q)) => Some(items_tail(b, seq![it], q)),
    }
}

/// At least one whitespace byte, `kw`, at least one whitespace byte: the
/// position after them, or -1.
pub open spec fn clause_start(b: Seq<u8>, p: int, kw: Seq<u8>) -> int {
    let q = skip_ws(b, p);
    let r = skip_ws(b, q + kw.len());
    if q <= p || !keyword_at(b, q, kw) || r <= q + kw.len() {
        -1
    } else {
        r
    }
}

/// An optional `FROM identifier`: the table and the position after the
/// clause; nothing is consumed when the clause is absent or malformed.
pub open spec fn from_clause(b: Seq<u8>, p: int) -> (Option<Seq<char>>, int) {
    let r = clause_start(b, p, kw_from());
    if r < 0 {
        (None, p)
    } else {
        match parse_identifier(b, r) {
            Some((name, e)) => (Some(name), e),
            None => (None, p),
        }
    }
}

/// An optional `WHERE expr`.
pub open spec fn where_clause(b: Seq<u8>, p: int) -> (Option<ExprModel>, int) {
    let r = clause_start(b, p, kw_where());
    if r < 0 {
        (None, p)
    } else {
        match parse_or(b, r) {
            Some((e, q)) => (Some(e), q),
            None => (None, p),
        }
    }
}

/// An optional `LIMIT digits`, the number within the `u32` range.
pub open spec fn limit_clause(b: Seq<u8>, p: int) -> (Option<u32>, int) {
    let r = clause_start(b, p, kw_limit());
    let e = digits_end(b, r);
    if r < 0 || e == r || digits_value(b, r, e) > u32::MAX {
        (None, p)
    } else {
        (Some(digits_value(b, r, e) as u32), e)
    }
}

/// The statement that the bytes `b` spell, if any: optional whitespace,
/// SELECT, whitespace, the select list, the optional clauses in order, and
/// nothing after them but whitespace.
pub open spec fn parse_statement(b: Seq<u8>) -> Option<StatementModel> {
    let p0 = skip_ws(b, 0);
    let p1 = skip_ws(b, p0 + 6);
    if !keyword_at(b, p0, kw_select()) || p1 == p0 + 6 {
        None
    } else {
        match parse_items(b, p1) {
            None => None,
            Some((items, p2)) => {
                let (from, p3) = from_clause(b, p2);
                let (wh, p4) = where_clause(b, p3);
                let (lim, p5) = limit_clause(b, p4);
                if skip_ws(b, p5) != b.len() {
                    None
                } else {
                    Some(StatementModel { items, from, where_clause: wh, limit: lim })
                }
            },
        }
    }
}

/// The parse of an expression agrees with the grammar's.
pub open spec fn expr_result(r: Option<(Expression, usize)>, s: Option<(ExprModel, int)>) -> bool {
    match (r, s) {
        (Some((e, q)), Some((m, sq))) => e@ == m && q == sq,
        (None, None) => true,
        _ => false,
    }
}

/// A slice's length fits in `usize`.
proof fn lemma_len_fits(b: &[u8])
    ensures
        b@.len() <= usize::MAX,
{
    assert(b@.len() == b.len());
}

fn is_ws_byte(c: u8) -> (r: bool)
    ensures
        r == is_ws(c),
{
    c == 32 || c == 9 || c == 10 || c == 13
}

fn is_digit_byte(c: u8) -> (r: bool)
    ensures
        r == is_digit(c),
{
    48 <= c && c <= 57
}

fn is_ident_start_byte(c: u8) -> (r: bool)
    ensures
        r == is_ident_start(c),
{
    (65 <= c && c <= 90) || (97 <= c && c <= 122) || c == 95
}

fn is_ident_char_byte(c: u8) -> (r: bool)
    ensures
        r == is_ident_char(c),
{
    (65 <= c && c <= 90) || (97 <= c && c <= 122) || (48 <= c && c <= 57) || c == 95
}

fn lower_byte(c: u8) -> (r: u8)
    ensures
        r == lower(c),
{
    if 65 <= c && c <= 90 {
        c + 32
    } else {
        c
    }
}

fn skip_ws_at(b: &[u8], p: usize) -> (r: usize)
    requires
        p <= b@.len(),
    ensures
        r == skip_ws(b@, p as int),
        p <= r <= b@.len(),
{
    let mut i = p;
    while i < b.len() && is_ws_byte(b[i])
        invariant
            p <= i <= b@.len(),
            skip_ws(b@, p as int) == skip_ws(b@, i as int),
        decreases b@.len() - i,
    {
        i += 1;
    }
    i
}

fn ident_end_at(b: &[u8], p: usize) -> (r: usize)
    requires
        p <= b@.len(),
    ensures
        r == ident_end(b@, p as int),
        p <= r <= b@.len(),
{
    let mut i = p;
    while i < b.len() && is_ident_char_byte(b[i])
        invariant
            p <= i <= b@.len(),
            ident_end(b@, p as int) == ident_end(b@, i as int),
        decreases b@.len() - i,
    {
        i += 1;
    }
    i
}

fn digits_end_at(b: &[u8], p: usize) -> (r: usize)
    requires
        p <= b@.len(),
    ensures
        r == digits_end(b@, p as int),
        p <= r <= b@.len(),
        forall|j: int| p <= j < r ==> is_digit(#[trigger] b@[j]),
{
    let mut i = p;
    while i < b.len() && is_digit_byte(b[i])
        invariant
            p <= i <= b@.len(),
            digits_end(b@, p as int) == digits_end(b@, i as int),
            forall|j: int| p <= j < i ==> is_digit(#[trigger] b@[j]),
        decreases b@.len() - i,
    {
        i += 1;
    }
    i
}

fn quote_end_at(b: &[u8], p: usize) -> (r: usize)
    requires
        p <= b@.len(),
    ensures
        r == quote_end(b@, p as int),
        p <= r <= b@.len(),
{
    let mut i = p;
    while i < b.len() && b[i] != 39
        invariant
            p <= i <= b@.len(),
            quote_end(b@, p as int) == quote_end(b@, i as int),
        decreases b@.len() - i,
    {
        i += 1;
    }
    i
}

fn digits_value_of(b: &[u8], s: usize, e: usize) -> (r: u64)
    requires
        s <= e <= b@.len(),
        forall|j: int| s <= j < e ==> is_digit(#[trigger] b@[j]),
    ensures
        r == digits_value(b@, s as int, e as int),
        r <= NUMBER_CAP,
{
    let mut acc: u64 = 0;
    let mut i = s;
    while i < e
        invariant
            s <= i <= e <= b@.len(),
            forall|j: int| s <= j < e ==> is_digit(#[trigger] b@[j]),
            acc == digits_value(b@, s as int, i as int),
            acc <= NUMBER_CAP,
        decreases e - i,
    {
        assert(is_digit(b@[i as int]));
        let v = acc * 10 + (b[i] - 48) as u64;
        acc = if v > NUMBER_CAP {
            NUMBER_CAP
        } else {
            v
        };
        i += 1;
    }
    acc
}

fn keyword_at_pos(b: &[u8], p: usize, kw: &[u8]) -> (r: bool)
    requires
        p <= b@.len(),
    ensures
        r == keyword_at(b@, p as int, kw@),
{
    if b.len() - p < kw.len() {
        return false;
    }
    let mut i: usize = 0;
    while i < kw.len()
        invariant
            b@.len() <= usize::MAX,
            p + kw@.len() <= b@.len(),
            i <= kw@.len(),
            forall|j: int| 0 <= j < i ==> lower(#[trigger] b@[p + j]) == kw@[j],
        decreases kw@.len() - i,
    {
        if lower_byte(b[p + i]) != kw[i] {
            assert(lower(b@[p + i]) != kw@[i as int]);
            return false;
        }
        i += 1;
    }
    true
}

fn word_at_pos(b: &[u8], p: usize, kw: &[u8]) -> (r: bool)
    requires
        p <= b@.len(),
    ensures
        r == word_at(b@, p as int, kw@),
{
    proof {
        lemma_len_fits(b);
    }
    if !keyword_at_pos(b, p, kw) {
        return false;
    }
    let e = p + kw.len();
    !(e < b.len() && is_ident_char_byte(b[e]))
}

fn bytes_string(b: &[u8], s: usize, e: usize) -> (r: Option<String>)
    requires
        s <= e <= b@.len(),
    ensures
        r is Some <==> valid_utf8(b@.subrange(s as int, e as int)),
        r matches Some(t) ==> t@ == decode_utf8(b@.subrange(s as int, e as int)),
{
    let mut v: Vec<u8> = Vec::new();
    crate::types::append_bytes(&mut v, &b[s..e]);
    assert(v@ =~= b@.subrange(s as int, e as int));
    string_from_utf8(v)
}

fn parse_integer_at(b: &[u8], p: usize) -> (r: Option<(Expression, usize)>)
    requires
        p < b@.len(),
    ensures
        expr_result(r, parse_integer(b@, p as int)),
        r matches Some((_, q)) ==> p < q <= b@.len(),
{
    let neg = b[p] == 45;
    let s = if neg {
        p + 1
    } else {
        p
    };
    let e = digits_end_at(b, s);
    if e == s {
        return None;
    }
    let v = digits_value_of(b, s, e);
    if neg {
        if v > 2147483648 {
            return None;
        }
        Some((Expression::Literal { value: Value::Integer((-(v as i64)) as i32) }, e))
    } else {
        if v > 2147483647 {
            return None;
        }
        Some((Expression::Literal { value: Value::Integer(v as i32) }, e))
    }
}

fn parse_string_at(b: &[u8], p: usize) -> (r: Option<(Expression, usize)>)
    requires
        p < b@.len(),
    ensures
        expr_result(r, parse_string(b@, p as int)),
        r matches Some((_, q)) ==> p < q <= b@.len(),
{
    proof {
        lemma_len_fits(b);
    }
    let q = quote_end_at(b, p + 1);
    if q >= b.len() || q == p + 1 {
        return None;
    }
    match bytes_string(b, p + 1, q) {
        Some(t) => Some((Expression::Literal { value: Value::Varchar(t) }, q + 1)),
        None => None,
    }
}

fn parse_identifier_at(b: &[u8], p: usize) -> (r: Option<(String, usize)>)
    requires
        p <= b@.len(),
    ensures
        match (r, parse_identifier(b@, p as int)) {
            (Some((t, q)), Some((m, sq))) => t@ == m && q == sq,
            (None, None) => true,
            _ => false,
        },
        r matches Some((_, q)) ==> p < q <= b@.len(),
{
    if p >= b.len() || !is_ident_start_byte(b[p]) {
        return None;
    }
    let e = ident_end_at(b, p + 1);
    match bytes_string(b, p, e) {
        Some(t) => Some((t, e)),
        None => None,
    }
}

fn parse_primary_at(b: &[u8], p: usize) -> (r: Option<(Expression, usize)>)
    requires
        p <= b@.len(),
    ensures
        expr_result(r, parse_primary(b@, p as int)),
        r matches Some((_, q)) ==> p < q <= b@.len(),
    decreases b@.len() - p, 3int,
{
    if p >= b.len() {
        return None;
    }
    let c = b[p];
    if is_digit_byte(c) || (c == 45 && p + 1 < b.len() && is_digit_byte(b[p + 1])) {
        return parse_integer_at(b, p);
    }
    if c == 39 {
        return parse_string_at(b, p);
    }
    let word_true: [u8; 4] = [116, 114, 117, 101];
    assert(word_true@ =~= kw_true());
    if word_at_pos(b, p, &word_true) {
        return Some((Expression::Literal { value: Value::Boolean(true) }, p + 4));
    }
    let word_false: [u8; 5] = [102, 97, 108, 115, 101];
    assert(word_false@ =~= kw_false());
    if word_at_pos(b, p, &word_false) {
        return Some((Expression::Literal { value: Value::Boolean(false) }, p + 5));
    }
    if is_ident_start_byte(c) {
        return match parse_identifier_at(b, p) {
            Some((name, e)) => Some((Expression::Column { name }, e)),
            None => None,
        };
    }
    if c == 40 {
        let r0 = skip_ws_at(b, p + 1);
        return match parse_or_at(b, r0) {
            None => None,
            Some((inner, e)) => {
                let cc = skip_ws_at(b, e);
                if cc < b.len() && b[cc] == 41 {
                    Some((inner, cc + 1))
                } else {
                    None
                }
            },
        };
    }
    None
}

fn mul_tail_at(b: &[u8], acc: Expression, p: usize) -> (r: (Expression, usize))
    requires
        p <= b@.len(),
    ensures
        r.0@ == mul_tail(b@, acc@, p as int).0,
        r.1 == mul_tail(b@, acc@, p as int).1,
        p <= r.1 <= b@.len(),
    decreases b@.len() - p, 4int,
{
    let q = skip_ws_at(b, p);
    if q >= b.len() {
        return (acc, p);
    }
    let op = if b[q] == 42 {
        BinaryOperator::Mul
    } else if b[q] == 47 {
        BinaryOperator::Div
    } else {
        return (acc, p);
    };
    let r0 = skip_ws_at(b, q + 1);
    match parse_primary_at(b, r0) {
        None => (acc, p),
        Some((rhs, p2)) => mul_tail_at(
            b,
            Expression::BinaryOp { left: Box::new(acc), op, right: Box::new(rhs) },
            p2,
        ),
    }
}

fn parse_mul_at(b: &[u8], p: usize) -> (r: Option<(Expression, usize)>)
    requires
        p <= b@.len(),
    ensures
        expr_result(r, parse_mul(b@, p as int)),
        r matches Some((_, q)) ==> p < q <= b@.len(),
    decreases b@.len() - p, 5int,
{
    match parse_primary_at(b, p) {
        None => None,
        Some((e, q)) => Some(mul_tail_at(b, e, q)),
    }
}

fn add_tail_at(b: &[u8], acc: Expression, p: usize) -> (r: (Expression, usize))
    requires
        p <= b@.len(),
    ensures
        r.0@ == add_tail(b@, acc@, p as int).0,
        r.1 == add_tail(b@, acc@, p as int).1,
        p <= r.1 <= b@.len(),
    decreases b@.len() - p, 6int,
{
    let q = skip_ws_at(b, p);
    if q >= b.len() {
        return (acc, p);
    }
    let op = if b[q] == 43 {
        BinaryOperator::Add
    } else if b[q] == 45 {
        BinaryOperator::Sub
    } else {
        return (acc, p);
    };
    let r0 = skip_ws_at(b, q + 1);
    match parse_mul_at(b, r0) {
        None => (acc, p),
        Some((rhs, p2)) => add_tail_at(
            b,
            Expression::BinaryOp { left: Box::new(acc), op, right: Box::new(rhs) },
            p2,
        ),
    }
}

fn parse_add_at(b: &[u8], p: usize) -> (r: Option<(Expression, usize)>)
    requires
        p <= b@.len(),
    ensures
        expr_result(r, parse_add(b@, p as int)),
        r matches Some((_, q)) ==> p < q <= b@.len(),
    decreases b@.len() - p, 7int,
{
    match parse_mul_at(b, p) {
        None => None,
        Some((e, q)) => Some(add_tail_at(b, e, q)),
    }
}

fn cmp_op_at(b: &[u8], q: usize) -> (r: Option<(BinaryOperator, usize)>)
    requires
        q <= b@.len(),
    ensures
        match (r, cmp_op(b@, q as int)) {
            (Some((op, n)), Some((sop, sn))) => op == sop && n == sn,
            (None, None) => true,
            _ => false,
        },
        r matches Some((_, n)) ==> 1 <= n <= 2 && q + n <= b@.len(),
{
    if q >= b.len() {
        return None;
    }
    let two = q + 1 < b.len();
    if two && b[q] == 62 && b[q + 1] == 61 {
        Some((BinaryOperator::Ge, 2))
    } else if two && b[q] == 60 && b[q + 1] == 61 {
        Some((BinaryOperator::Le, 2))
    } else if two && b[q] == 60 && b[q + 1] == 62 {
        Some((BinaryOperator::Ne, 2))
    } else if two && b[q] == 33 && b[q + 1] == 61 {
        Some((BinaryOperator::Ne, 2))
    } else if b[q] == 61 {
        Some((BinaryOperator::Eq, 1))
    } else if b[q] == 60 {
        Some((BinaryOperator::Lt, 1))
    } else if b[q] == 62 {
        Some((BinaryOperator::Gt, 1))
    } else {
        None
    }
}

fn parse_cmp_at(b: &[u8], p: usize) -> (r: Option<(Expression, usize)>)
    requires
        p <= b@.len(),
    ensures
        expr_result(r, parse_cmp(b@, p as int)),
        r matches Some((_, q)) ==> p < q <= b@.len(),
    decreases b@.len() - p, 8int,
{
    let (l, p1) = match parse_add_at(b, p) {
        None => return None,
        Some(x) => x,
    };
    proof {
        lemma_len_fits(b);
    }
    let q = skip_ws_at(b, p1);
    match cmp_op_at(b, q) {
        None => Some((l, p1)),
        Some((op, n)) => {
            let r0 = skip_ws_at(b, q + n);
            match parse_add_at(b, r0) {
                None => Some((l, p1)),
                Some((r, p2)) => Some(
                    (Expression::BinaryOp { left: Box::new(l), op, right: Box::new(r) }, p2),
                ),
            }
        },
    }
}

fn and_tail_at(b: &[u8], acc: Expression, p: usize) -> (r: (Expression, usize))
    requires
        p <= b@.len(),
    ensures
        r.0@ == and_tail(b@, acc@, p as int).0,
        r.1 == and_tail(b@, acc@, p as int).1,
        p <= r.1 <= b@.len(),
    decreases b@.len() - p, 9int,
{
    proof {
        lemma_len_fits(b);
    }
    let q = skip_ws_at(b, p);
    let word_and: [u8; 3] = [97, 110, 100];
    assert(word_and@ =~= kw_and());
    if !word_at_pos(b, q, &word_and) {
        return (acc, p);
    }
    let r0 = skip_ws_at(b, q + 3);
    match parse_cmp_at(b, r0) {
        None => (acc, p),
        Some((rhs, p2)) => and_tail_at(
            b,
            Expression::BinaryOp { left: Box::new(acc), op: BinaryOperator::And, right: Box::new(rhs) },
            p2,
        ),
    }
}

fn parse_and_at(b: &[u8], p: usize) -> (r: Option<(Expression, usize)>)
    requires
        p <= b@.len(),
    ensures
        expr_result(r, parse_and(b@, p as int)),
        r matches Some((_, q)) ==> p < q <= b@.len(),
    decreases b@.len() - p, 10int,
{
    match parse_cmp_at(b, p) {
        None => None,
        Some((e, q)) => Some(and_tail_at(b, e, q)),
    }
}

fn or_tail_at(b: &[u8], acc: Expression, p: usize) -> (r: (Expression, usize))
    requires
        p <= b@.len(),
    ensures
        r.0@ == or_tail(b@, acc@, p as int).0,
        r.1 == or_tail(b@, acc@, p as int).1,
        p <= r.1 <= b@.len(),
    decreases b@.len() - p, 11int,
{
    proof {
        lemma_len_fits(b);
    }
    let q = skip_ws_at(b, p);
    let word_or: [u8; 2] = [111, 114];
    assert(word_or@ =~= kw_or());
    if !word_at_pos(b, q, &word_or) {
        return (acc, p);
    }
    let r0 = skip_ws_at(b, q + 2);
    match parse_and_at(b, r0) {
        None => (acc, p),
        Some((rhs, p2)) => or_tail_at(
            b,
            Expression::BinaryOp { left: Box::new(acc), op: BinaryOperator::Or, right: Box::new(rhs) },
            p2,
        ),
    }
}

fn parse_or_at(b: &[u8], p: usize) -> (r: Option<(Expression, usize)>)
    requires
        p <= b@.len(),
    ensures
        expr_result(r, parse_or(b@, p as int)),
        r matches Some((_, q)) ==> p < q <= b@.len(),
    decreases b@.len() - p, 12int,
{
    match parse_and_at(b, p) {
        None => None,
        Some((e, q)) => Some(or_tail_at(b, e, q)),
    }
}

fn parse_item_at(b: &[u8], p: usize) -> (r: Option<(SelectItem, usize)>)
    requires
        p <= b@.len(),
    ensures
        match (r, parse_item(b@, p as int)) {
            (Some((it, q)), Some((m, sq))) => it@ == m && q == sq,
            (None, None) => true,
            _ => false,
        },
        r matches Some((_, q)) ==> p < q <= b@.len(),
{
    if p < b.len() && b[p] == 42 {
        return Some((SelectItem::Wildcard, p + 1));
    }
    match parse_or_at(b, p) {
        Some((expr, q)) => Some((SelectItem::Expression { expr, alias: None }, q)),
        None => None,
    }
}

fn items_tail_at(b: &[u8], acc: Vec<SelectItem>, p: usize) -> (r: (Vec<SelectItem>, usize))
    requires
        p <= b@.len(),
    ensures
        items_view(r.0@) == items_tail(b@, items_view(acc@), p as int).0,
        r.1 == items_tail(b@, items_view(acc@), p as int).1,
        p <= r.1 <= b@.len(),
    decreases b@.len() - p,
{
    proof {
        lemma_len_fits(b);
    }
    let q = skip_ws_at(b, p);
    if q >= b.len() || b[q] != 44 {
        return (acc, p);
    }
    let r0 = skip_ws_at(b, q + 1);
    match parse_item_at(b, r0) {
        None => (acc, p),
        Some((it, p2)) => {
            let mut acc = acc;
            let ghost before = items_view(acc@);
            acc.push(it);
            assert(items_view(acc@) =~= before.push(it@));
            items_tail_at(b, acc, p2)
        },
    }
}

fn clause_start_at(b: &[u8], p: usize, kw: &[u8]) -> (r: Option<usize>)
    requires
        p <= b@.len(),
    ensures
        r is None <==> clause_start(b@, p as int, kw@) < 0,
        r matches Some(x) ==> x == clause_start(b@, p as int, kw@) && p < x <= b@.len(),
{
    proof {
        lemma_len_fits(b);
    }
    let q = skip_ws_at(b, p);
    if q <= p || !keyword_at_pos(b, q, kw) {
        return None;
    }
    let r = skip_ws_at(b, q + kw.len());
    if r <= q + kw.len() {
        return None;
    }
    Some(r)
}

/// Parses one SELECT statement. Fails with `Parse` exactly when the text
/// is not a statement of the grammar, trailing non-whitespace included.
pub fn parse_sql(input: &str) -> (r: Result<Statement, DbError>)
    ensures
        match (r, parse_statement(encode_utf8(input@))) {
            (Ok(st), Some(m)) => st@ == m,
            (Err(e), None) => e == DbError::Parse,
            _ => false,
        },
{
    let b = input.as_bytes();
    proof {
        lemma_len_fits(b);
    }
    let p0 = skip_ws_at(b, 0);
    let word_select: [u8; 6] = [115, 101, 108, 101, 99, 116];
    assert(word_select@ =~= kw_select());
    if !keyword_at_pos(b, p0, &word_select) {
        return Err(DbError::Parse);
    }
    let p1 = skip_ws_at(b, p0 + 6);
    if p1 == p0 + 6 {
        return Err(DbError::Parse);
    }
    let (first, q) = match parse_item_at(b, p1) {
        None => return Err(DbError::Parse),
        Some(x) => x,
    };
    let mut items: Vec<SelectItem> = Vec::new();
    items.push(first);
    assert(items_view(items@) =~= seq![first@]);
    let (select_list, p2) = items_tail_at(b, items, q);
    let word_from: [u8; 4] = [102, 114, 111, 109];
    assert(word_from@ =~= kw_from());
    let (from, p3) = match clause_start_at(b, p2, &word_from) {
        None => (None, p2),
        Some(r) => match parse_identifier_at(b, r) {
            Some((name, e)) => (Some(name), e),
            None => (None, p2),
        },
    };
    let word_where: [u8; 5] = [119, 104, 101, 114, 101];
    assert(word_where@ =~= kw_where());
    let (where_expr, p4) = match clause_start_at(b, p3, &word_where) {
        None => (None, p3),
        Some(r) => match parse_or_at(b, r) {
            Some((e, q)) => (Some(e), q),
            None => (None, p3),
        },
    };
    let word_limit: [u8; 5] = [108, 105, 109, 105, 116];
    assert(word_limit@ =~= kw_limit());
    let (limit, p5) = match clause_start_at(b, p4, &word_limit) {
        None => (None, p4),
        Some(r) => {
            let e = digits_end_at(b, r);
            if e == r {
                (None, p4)
            } else {
                let v = digits_value_of(b, r, e);
                if v > 4294967295 {
                    (None, p4)
                } else {
                    (Some(v as u32), e)
                }
            }
        },
    };
    if skip_ws_at(b, p5) != b.len() {
        return Err(DbError::Parse);
    }
    let stmt = Statement::Select(SelectStatement { select_list, from, where_clause: where_expr, limit });
    Ok(stmt)
}

} // verus!
