//! The query entry point and the commands of the interactive shell.
use vstd::prelude::*;
use vstd::utf8::*;
use crate::ast::{ItemModel, SelectStatement, Statement};
use crate::disk::DiskManager;
use crate::error::DbError;
use crate::executor::{QueryExecutor, QueryResult, query_outcome, valid_pages};
use crate::parser::{is_ws, lower, parse_sql, parse_statement};
use crate::planner::{PhysicalPlan, QueryPlanner, has_expression, has_wildcard, plans};
use crate::types::{Datum, column_names};

verus! {

pub open spec fn model_has_wildcard(items: Seq<ItemModel>) -> bool {
    exists|i: int| 0 <= i < items.len() && items[i] is Wildcard
}

pub open spec fn model_has_expression(items: Seq<ItemModel>) -> bool {
    exists|i: int| 0 <= i < items.len() && items[i] is Expression
}

/// Parses, plans and runs one query against a page store. Text outside the
/// grammar fails with `Parse`, a statement without FROM with
/// `SelectWithoutFromUnsupported`, a select list mixing `*` and expressions
/// with `WildcardInProjection`; otherwise the result is what running the
/// statement's plan over the store gives.
pub fn execute_sql<D: DiskManager>(sql: &str, disk_manager: &mut D) -> (r: Result<QueryResult, DbError>)
    ensures
        *final(disk_manager) == *old(disk_manager),
        match parse_statement(encode_utf8(sql@)) {
            None => r == Err::<QueryResult, DbError>(DbError::Parse),
            Some(m) => {
                &&& m.from is None ==> r == Err::<QueryResult, DbError>(
                    DbError::SelectWithoutFromUnsupported,
                )
                &&& m.from is Some && model_has_wildcard(m.items) && model_has_expression(m.items)
                    ==> r == Err::<QueryResult, DbError>(DbError::WildcardInProjection)
                &&& m.from is Some && !(model_has_wildcard(m.items) && model_has_expression(m.items))
                    ==> exists|s: SelectStatement, plan: PhysicalPlan, pages: Seq<Seq<u8>>|
                    (Statement::Select(s))@ == m && plans(s, plan) && valid_pages(pages)
                        && query_outcome(plan, pages, r)
            },
        },
{
    let stmt = parse_sql(sql)?;
    let Statement::Select(select) = &stmt;
    proof {
        let items = select.select_list@;
        let m = stmt@;
        assert(m.items == crate::ast::items_view(items));
        assert(has_wildcard(items) == model_has_wildcard(m.items)) by {
            if has_wildcard(items) {
                let i = choose|i: int| 0 <= i < items.len() && items[i] is Wildcard;
                assert(m.items[i] is Wildcard);
            }
            if model_has_wildcard(m.items) {
                let i = choose|i: int| 0 <= i < m.items.len() && m.items[i] is Wildcard;
                assert(items[i] is Wildcard);
            }
        }
        assert(has_expression(items) == model_has_expression(m.items)) by {
            if has_expression(items) {
                let i = choose|i: int| 0 <= i < items.len() && items[i] is Expression;
                assert(m.items[i] is Expression);
            }
            if model_has_expression(m.items) {
                let i = choose|i: int| 0 <= i < m.items.len() && m.items[i] is Expression;
                assert(items[i] is Expression);
            }
        }
    }
    let planner = QueryPlanner::new();
    let plan = planner.plan(&stmt)?;
    let ghost p = plan;
    let executor = QueryExecutor::new();
    let r = executor.execute(plan, disk_manager);
    proof {
        let pages = choose|pages: Seq<Seq<u8>>| valid_pages(pages) && query_outcome(p, pages, r);
        assert((Statement::Select(*select))@ == stmt@);
        assert(plans(*select, p) && valid_pages(pages) && query_outcome(p, pages, r));
    }
    r
}

/// What a line typed into the shell asks for.
#[derive(Debug, Clone, Copy, PartialEq, Eq, Structural)]
pub enum ShellCommand {
    /// Nothing but whitespace.
    Empty,
    /// `exit` or `quit`.
    Exit,
    /// `help`.
    Help,
    /// `clear` or `cls`.
    Clear,
    /// Anything else: a query.
    Query,
}

/// The bytes of `b` without leading and trailing whitespace.
pub open spec fn trimmed(b: Seq<u8>) -> Seq<u8>
    decreases b.len(),
{
    if b.len() > 0 && is_ws(b[0]) {
        trimmed(b.drop_first())
    } else if b.len() > 0 && is_ws(b.last()) {
        trimmed(b.drop_last())
    } else {
        b
    }
}

/// `b` spells the lower-case word `w` in any case.
pub open spec fn spells(b: Seq<u8>, w: Seq<u8>) -> bool {
    b.len() == w.len() && forall|i: int| 0 <= i < b.len() ==> lower(#[trigger] b[i]) == w[i]
}

pub open spec fn command_of(b: Seq<u8>) -> ShellCommand {
    let t = trimmed(b);
    if t.len() == 0 {
        ShellCommand::Empty
    } else if spells(t, seq![101u8, 120, 105, 116]) || spells(t, seq![113u8, 117, 105, 116]) {
        ShellCommand::Exit
    } else if spells(t, seq![104u8, 101, 108, 112]) {
        ShellCommand::Help
    } else if spells(t, seq![99u8, 108, 101, 97, 114]) || spells(t, seq![99u8, 108, 115]) {
        ShellCommand::Clear
    } else {
        ShellCommand::Query
    }
}

fn spells_word(b: &[u8], s: usize, e: usize, w: &[u8]) -> (r: bool)
    requires
        s <= e <= b@.len(),
    ensures
        r == spells(b@.subrange(s as int, e as int), w@),
{
    if e - s != w.len() {
        return false;
    }
    let mut i: usize = 0;
    while i < w.len()
        invariant
            s <= e <= b@.len(),
            e - s == w@.len(),
            i <= w@.len(),
            forall|j: int| 0 <= j < i ==> lower(#[trigger] b@.subrange(s as int, e as int)[j]) == w@[j],
        decreases w@.len() - i,
    {
        let c = b[s + i];
        let l = if 65 <= c && c <= 90 {
            c + 32
        } else {
            c
        };
        if l != w[i] {
            assert(lower(b@.subrange(s as int, e as int)[i as int]) != w@[i as int]);
            return false;
        }
        i += 1;
    }
    true
}

/// Classifies a line of the shell: case and surrounding whitespace do not
/// matter.
pub fn shell_command(line: &str) -> (r: ShellCommand)
    ensures
        r == command_of(encode_utf8(line@)),
{
    let b = line.as_bytes();
    let mut s: usize = 0;
    let mut e: usize = b.len();
    assert(b@.subrange(0, e as int) =~= b@);
    while s < e && (b[s] == 32 || b[s] == 9 || b[s] == 10 || b[s] == 13)
        invariant
            s <= e == b@.len(),
            trimmed(b@) == trimmed(b@.subrange(s as int, e as int)),
        decreases e - s,
    {
        let ghost t = b@.subrange(s as int, e as int);
        assert(t.drop_first() =~= b@.subrange(s + 1, e as int));
        s += 1;
    }
    while s < e && (b[e - 1] == 32 || b[e - 1] == 9 || b[e - 1] == 10 || b[e - 1] == 13)
        invariant
            s <= e <= b@.len(),
            trimmed(b@) == trimmed(b@.subrange(s as int, e as int)),
            s == e || !is_ws(b@[s as int]),
        decreases e - s,
    {
        let ghost t = b@.subrange(s as int, e as int);
        assert(t.drop_last() =~= b@.subrange(s as int, e - 1));
        e -= 1;
    }
    proof {
        let t = b@.subrange(s as int, e as int);
        if t.len() > 0 {
            assert(t[0] == b@[s as int]);
            assert(t.last() == b@[e - 1]);
        }
        assert(trimmed(t) == t);
    }
    if s == e {
        return ShellCommand::Empty;
    }
    let exit: [u8; 4] = [101, 120, 105, 116];
    let quit: [u8; 4] = [113, 117, 105, 116];
    let help: [u8; 4] = [104, 101, 108, 112];
    let clear: [u8; 5] = [99, 108, 101, 97, 114];
    let cls: [u8; 3] = [99, 108, 115];
    assert(exit@ =~= seq![101u8, 120, 105, 116]);
    assert(quit@ =~= seq![113u8, 117, 105, 116]);
    assert(help@ =~= seq![104u8, 101, 108, 112]);
    assert(clear@ =~= seq![99u8, 108, 101, 97, 114]);
    assert(cls@ =~= seq![99u8, 108, 115]);
    if spells_word(b, s, e, &exit) || spells_word(b, s, e, &quit) {
        ShellCommand::Exit
    } else if spells_word(b, s, e, &help) {
        ShellCommand::Help
    } else if spells_word(b, s, e, &clear) || spells_word(b, s, e, &cls) {
        ShellCommand::Clear
    } else {
        ShellCommand::Query
    }
}

} // verus!
