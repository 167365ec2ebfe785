//! Lowering of SELECT statements to physical plans.
use vstd::prelude::*;
use vstd::string::*;
use crate::ast::{Expression, SelectItem, SelectStatement, Statement};
use crate::error::DbError;
use crate::types::{Column, DataType, Schema};

verus! {

/// A relational-algebra view of a query.
#[derive(Debug, PartialEq)]
pub enum LogicalPlan {
    TableScan { table_name: String, schema: Schema },
    Projection { exprs: Vec<Expression>, input: Box<LogicalPlan> },
    Filter { predicate: Expression, input: Box<LogicalPlan> },
    Limit { limit: u32, input: Box<LogicalPlan> },
}

/// An executable plan tree; each node owns its input.
#[derive(Debug)]
pub enum PhysicalPlan {
    SeqScan { table_name: String, schema: Schema },
    Projection { exprs: Vec<Expression>, input: Box<PhysicalPlan> },
    Filter { predicate: Expression, input: Box<PhysicalPlan> },
    Limit { limit: u32, input: Box<PhysicalPlan> },
}

/// The schema every table has: `id` Integer NOT NULL, `name` Varchar(255)
/// nullable.
pub open spec fn catalog_schema(s: Schema) -> bool {
    &&& s.columns@.len() == 2
    &&& s.columns@[0].name@ == "id"@
    &&& s.columns@[0].data_type == DataType::Integer
    &&& !s.columns@[0].nullable
    &&& s.columns@[1].name@ == "name"@
    &&& s.columns@[1].data_type == DataType::Varchar(255)
    &&& s.columns@[1].nullable
}

pub open spec fn has_wildcard(items: Seq<SelectItem>) -> bool {
    exists|i: int| 0 <= i < items.len() && items[i] is Wildcard
}

pub open spec fn has_expression(items: Seq<SelectItem>) -> bool {
    exists|i: int| 0 <= i < items.len() && items[i] is Expression
}

/// `exprs` are the expressions of the select items, in order.
pub open spec fn item_exprs(items: Seq<SelectItem>, exprs: Seq<Expression>) -> bool {
    &&& exprs.len() == items.len()
    &&& forall|i: int|
        0 <= i < items.len() ==> (#[trigger] items[i] matches SelectItem::Expression { expr, .. }
            && exprs[i]@ == expr@)
}

/// `p` scans the statement's table with the catalog schema.
pub open spec fn scans(s: SelectStatement, p: PhysicalPlan) -> bool {
    p matches PhysicalPlan::SeqScan { table_name, schema } && s.from matches Some(t)
        && table_name@ == t@ && catalog_schema(schema)
}

/// `p` is the scan, under a filter by the WHERE clause if there is one.
pub open spec fn filters(s: SelectStatement, p: PhysicalPlan) -> bool {
    match s.where_clause {
        Some(w) => p matches PhysicalPlan::Filter { predicate, input } && predicate@ == w@
            && scans(s, *input),
        None => scans(s, p),
    }
}

/// `p` is the filtered scan, under a projection on the select items unless
/// the list is a wildcard.
pub open spec fn projects(s: SelectStatement, p: PhysicalPlan) -> bool {
    if has_wildcard(s.select_list@) {
        filters(s, p)
    } else {
        p matches PhysicalPlan::Projection { exprs, input } && item_exprs(s.select_list@, exprs@)
            && filters(s, *input)
    }
}

/// `p` is the plan of `s`: the projected, filtered scan, under a limit if
/// the statement has one.
pub open spec fn plans(s: SelectStatement, p: PhysicalPlan) -> bool {
    match s.limit {
        Some(n) => p matches PhysicalPlan::Limit { limit, input } && limit == n && projects(s, *input),
        None => projects(s, p),
    }
}

/// Turns statements into plans.
pub struct QueryPlanner {}

impl Default for QueryPlanner {
    fn default() -> (r: QueryPlanner)
        ensures
            r == (QueryPlanner {  }),
    {
        QueryPlanner::new()
    }
}

impl QueryPlanner {
    pub fn new() -> (r: QueryPlanner)
        ensures
            r == (QueryPlanner {  }),
    {
        QueryPlanner {  }
    }

    /// Lowers a statement. A SELECT without FROM fails with
    /// `SelectWithoutFromUnsupported`; a select list that mixes `*` with
    /// expressions fails with `WildcardInProjection`.
    pub fn plan(&self, stmt: &Statement) -> (r: Result<PhysicalPlan, DbError>)
        ensures
            match stmt {
                Statement::Select(s) => {
                    &&& s.from is None ==> r == Err::<PhysicalPlan, DbError>(
                        DbError::SelectWithoutFromUnsupported,
                    )
                    &&& s.from is Some && has_wildcard(s.select_list@) && has_expression(
                        s.select_list@,
                    ) ==> r == Err::<PhysicalPlan, DbError>(DbError::WildcardInProjection)
                    &&& s.from is Some && !(has_wildcard(s.select_list@) && has_expression(
                        s.select_list@,
                    )) ==> (r matches Ok(p) && plans(*s, p))
                },
            },
    {
        match stmt {
            Statement::Select(select) => self.plan_select(select),
        }
    }

    fn plan_select(&self, select: &SelectStatement) -> (r: Result<PhysicalPlan, DbError>)
        ensures
            select.from is None ==> r == Err::<PhysicalPlan, DbError>(
                DbError::SelectWithoutFromUnsupported,
            ),
            select.from is Some && has_wildcard(select.select_list@) && has_expression(
                select.select_list@,
            ) ==> r == Err::<PhysicalPlan, DbError>(DbError::WildcardInProjection),
            select.from is Some && !(has_wildcard(select.select_list@) && has_expression(
                select.select_list@,
            )) ==> (r matches Ok(p) && plans(*select, p)),
    {
        let table = match &select.from {
            Some(t) => t,
            None => return Err(DbError::SelectWithoutFromUnsupported),
        };
        let items = &select.select_list;
        let mut any_wildcard = false;
        let mut any_expression = false;
        let mut i: usize = 0;
        while i < items.len()
            invariant
                i <= items@.len(),
                any_wildcard == exists|j: int| 0 <= j < i && items@[j] is Wildcard,
                any_expression == exists|j: int| 0 <= j < i && items@[j] is Expression,
            decreases items@.len() - i,
        {
            match &items[i] {
                SelectItem::Wildcard => {
                    any_wildcard = true;
                },
                SelectItem::Expression { .. } => {
                    any_expression = true;
                },
            }
            i += 1;
        }
        if any_wildcard && any_expression {
            return Err(DbError::WildcardInProjection);
        }
        let schema = self.get_table_schema(table.as_str());
        let mut plan = PhysicalPlan::SeqScan { table_name: table.clone(), schema };
        assert(scans(*select, plan));
        match &select.where_clause {
            Some(w) => {
                plan = PhysicalPlan::Filter { predicate: w.duplicate(), input: Box::new(plan) };
            },
            None => {},
        }
        assert(filters(*select, plan));
        if !any_wildcard {
            let mut exprs: Vec<Expression> = Vec::new();
            let mut k: usize = 0;
            while k < items.len()
                invariant
                    k <= items@.len(),
                    !has_wildcard(items@),
                    exprs@.len() == k,
                    forall|j: int|
                        0 <= j < k ==> (#[trigger] items@[j] matches SelectItem::Expression {
                            expr,
                            ..
                        } && exprs@[j]@ == expr@),
                decreases items@.len() - k,
            {
                match &items[k] {
                    SelectItem::Expression { expr, .. } => {
                        exprs.push(expr.duplicate());
                    },
                    SelectItem::Wildcard => {
                        assert(items@[k as int] is Wildcard);
                    },
                }
                k += 1;
            }
            plan = PhysicalPlan::Projection { exprs, input: Box::new(plan) };
        }
        assert(projects(*select, plan));
        match select.limit {
            Some(n) => {
                plan = PhysicalPlan::Limit { limit: n, input: Box::new(plan) };
            },
            None => {},
        }
        Ok(plan)
    }

    /// The catalog: every table has the same two-column schema.
    fn get_table_schema(&self, _table_name: &str) -> (r: Schema)
        ensures
            catalog_schema(r),
    {
        let columns = vec![
            Column { name: String::from_str("id"), data_type: DataType::Integer, nullable: false },
            Column {
                name: String::from_str("name"),
                data_type: DataType::Varchar(255),
                nullable: true,
            },
        ];
        Schema::new(columns)
    }
}

} // verus!
