//! Syntax trees of the SQL subset.
use vstd::prelude::*;
use crate::types::{Datum, Value};

verus! {

/// A statement: only SELECT is supported.
#[derive(Debug, Clone, PartialEq)]
pub enum Statement {
    Select(SelectStatement),
}

/// `SELECT select_list [FROM table] [WHERE expr] [LIMIT n]`.
#[derive(Debug, Clone, PartialEq)]
pub struct SelectStatement {
    pub select_list: Vec<SelectItem>,
    pub from: Option<String>,
    pub where_clause: Option<Expression>,
    pub limit: Option<u32>,
}

/// An item of the select list.
#[derive(Debug, Clone, PartialEq)]
pub enum SelectItem {
    Wildcard,
    Expression { expr: Expression, alias: Option<String> },
}

/// An expression.
#[derive(Debug, PartialEq)]
pub enum Expression {
    Column { name: String },
    Literal { value: Value },
    BinaryOp { left: Box<Expression>, op: BinaryOperator, right: Box<Expression> },
}

/// The binary operators, by precedence from low to high: Or; And;
/// comparisons; Add, Sub; Mul, Div.
#[derive(Debug, Clone, Copy, PartialEq, Eq, Structural)]
pub enum BinaryOperator {
    Eq,
    Ne,
    Lt,
    Le,
    Gt,
    Ge,
    Add,
    Sub,
    Mul,
    Div,
    And,
    Or,
}

/// The mathematical content of an `Expression`.
pub enum ExprModel {
    Column(Seq<char>),
    Literal(Datum),
    BinaryOp(Box<ExprModel>, BinaryOperator, Box<ExprModel>),
}

impl View for Expression {
    type V = ExprModel;

    open spec fn view(&self) -> ExprModel
        decreases self,
    {
        match self {
            Expression::Column { name } => ExprModel::Column(name@),
            Expression::Literal { value } => ExprModel::Literal(value@),
            Expression::BinaryOp { left, op, right } => ExprModel::BinaryOp(
                Box::new((**left).view()),
                *op,
                Box::new((**right).view()),
            ),
        }
    }
}

/// The mathematical content of a `SelectItem`.
pub enum ItemModel {
    Wildcard,
    Expression(ExprModel, Option<Seq<char>>),
}

impl View for SelectItem {
    type V = ItemModel;

    open spec fn view(&self) -> ItemModel {
        match self {
            SelectItem::Wildcard => ItemModel::Wildcard,
            SelectItem::Expression { expr, alias } => ItemModel::Expression(
                expr@,
                match alias {
                    Some(a) => Some(a@),
                    None => None,
                },
            ),
        }
    }
}

/// The models of a select list.
pub open spec fn items_view(items: Seq<SelectItem>) -> Seq<ItemModel> {
    items.map_values(|i: SelectItem| i@)
}

/// The mathematical content of a `Statement`.
pub struct StatementModel {
    pub items: Seq<ItemModel>,
    pub from: Option<Seq<char>>,
    pub where_clause: Option<ExprModel>,
    pub limit: Option<u32>,
}

impl View for Statement {
    type V = StatementModel;

    open spec fn view(&self) -> StatementModel {
        match self {
            Statement::Select(s) => StatementModel {
                items: items_view(s.select_list@),
                from: match s.from {
                    Some(t) => Some(t@),
                    None => None,
                },
                where_clause: match s.where_clause {
                    Some(e) => Some(e@),
                    None => None,
                },
                limit: s.limit,
            },
        }
    }
}

impl Clone for Expression {
    fn clone(&self) -> (r: Expression)
        ensures
            r@ == self@,
    {
        self.duplicate()
    }
}

impl Expression {
    /// A copy of the expression.
    pub fn duplicate(&self) -> (r: Expression)
        ensures
            r@ == self@,
        decreases self,
    {
        match self {
            Expression::Column { name } => Expression::Column { name: name.clone() },
            Expression::Literal { value } => Expression::Literal { value: value.duplicate() },
            Expression::BinaryOp { left, op, right } => Expression::BinaryOp {
                left: Box::new((**left).duplicate()),
                op: *op,
                right: Box::new((**right).duplicate()),
            },
        }
    }

    /// A reference to the column `name`.
    pub fn column(name: &str) -> (r: Expression)
        ensures
            r@ == ExprModel::Column(name@),
    {
        Expression::Column { name: name.to_owned() }
    }

    /// An integer literal.
    pub fn integer(value: i32) -> (r: Expression)
        ensures
            r@ == ExprModel::Literal(Datum::Integer(value)),
    {
        Expression::Literal { value: Value::Integer(value) }
    }

    /// A string literal.
    pub fn string(value: &str) -> (r: Expression)
        ensures
            r@ == ExprModel::Literal(Datum::Varchar(value@)),
    {
        Expression::Literal { value: Value::Varchar(value.to_owned()) }
    }

    /// A boolean literal.
    pub fn boolean(value: bool) -> (r: Expression)
        ensures
            r@ == ExprModel::Literal(Datum::Boolean(value)),
    {
        Expression::Literal { value: Value::Boolean(value) }
    }

    /// `left = right`.
    pub fn eq(left: Expression, right: Expression) -> (r: Expression)
        ensures
            r@ == ExprModel::BinaryOp(Box::new(left@), BinaryOperator::Eq, Box::new(right@)),
    {
        Expression::BinaryOp { left: Box::new(left), op: BinaryOperator::Eq, right: Box::new(right) }
    }

    /// `left + right`.
    pub fn add(left: Expression, right: Expression) -> (r: Expression)
        ensures
            r@ == ExprModel::BinaryOp(Box::new(left@), BinaryOperator::Add, Box::new(right@)),
    {
        Expression::BinaryOp {
            left: Box::new(left),
            op: BinaryOperator::Add,
            right: Box::new(right),
        }
    }
}

impl SelectStatement {
    /// `SELECT * FROM table`.
    pub fn select_all_from(table: &str) -> (r: SelectStatement)
        ensures
            r.select_list@.len() == 1,
            r.select_list@[0] is Wildcard,
            r.from matches Some(t) && t@ == table@,
            r.where_clause is None,
            r.limit is None,
    {
        SelectStatement {
            select_list: vec![SelectItem::Wildcard],
            from: Some(table.to_owned()),
            where_clause: None,
            limit: None,
        }
    }

    /// `SELECT expr`, without a table.
    pub fn select_expression(expr: Expression) -> (r: SelectStatement)
        ensures
            r.select_list@.len() == 1,
            r.select_list@[0] matches SelectItem::Expression { expr: e, alias } && e@ == expr@
                && alias is None,
            r.from is None,
            r.where_clause is None,
            r.limit is None,
    {
        SelectStatement {
            select_list: vec![SelectItem::Expression { expr, alias: None }],
            from: None,
            where_clause: None,
            limit: None,
        }
    }
}

} // verus!
