use storage::ast::{BinaryOperator, Expression, SelectItem, SelectStatement, Statement};
use storage::disk::{DiskManager, MemDiskManager};
use storage::error::DbError;
use storage::executor::{
    deserialize_row, evaluate_binary_op, evaluate_binary_op_value, evaluate_expression_with_schema,
    scan_step, QueryExecutor, ScanAction,
};
use storage::heap_page::HeapPage;
use storage::parser::parse_sql;
use storage::planner::{PhysicalPlan, QueryPlanner};
use storage::types::{Column, DataType, Schema, Value};

fn user_tuple(id: i32, name: &str) -> Vec<u8> {
    let mut tuple_data = Vec::new();
    tuple_data.extend_from_slice(&id.to_le_bytes());
    let name_bytes = name.as_bytes();
    tuple_data.extend_from_slice(&(name_bytes.len() as u32).to_le_bytes());
    tuple_data.extend_from_slice(name_bytes);
    tuple_data
}

fn create_test_data(dm: &mut MemDiskManager) {
    let pid = dm.allocate_page(1).unwrap();
    let mut hp = HeapPage::new_empty(pid);
    for i in 0i32..5 {
        let name = format!("user_{}", i);
        hp.insert_tuple(&user_tuple(i, &name)).unwrap();
    }
    dm.write_page(&hp.page).unwrap();
}

const SAMPLE_USERS: [(i32, &str); 10] = [
    (1, "Alice"),
    (2, "Bob"),
    (3, "Charlie"),
    (4, "Diana"),
    (5, "Eve"),
    (6, "Frank"),
    (7, "Grace"),
    (8, "Henry"),
    (9, "Iris"),
    (10, "Jack"),
];

fn sample_store() -> MemDiskManager {
    let mut dm = MemDiskManager::new();
    let pid = dm.allocate_page(1).unwrap();
    let mut hp = HeapPage::new_empty(pid);
    for (id, name) in SAMPLE_USERS {
        hp.insert_tuple(&user_tuple(id, name)).unwrap();
    }
    dm.write_page(&hp.page).unwrap();
    dm
}

fn run(sql: &str, dm: &mut MemDiskManager) -> Result<Vec<Vec<Value>>, DbError> {
    let stmt = parse_sql(sql)?;
    let plan = QueryPlanner::new().plan(&stmt)?;
    let result = QueryExecutor::new().execute(plan, dm)?;
    Ok(result.rows)
}

fn users_schema() -> Schema {
    Schema::new(vec![
        Column { name: "id".to_string(), data_type: DataType::Integer, nullable: false },
        Column { name: "name".to_string(), data_type: DataType::Varchar(255), nullable: true },
    ])
}

#[test]
fn test_select_all_from() {
    let stmt = SelectStatement::select_all_from("users");

    assert_eq!(stmt.select_list, vec![SelectItem::Wildcard]);
    assert_eq!(stmt.from, Some("users".to_string()));
    assert!(stmt.where_clause.is_none());
    assert!(stmt.limit.is_none());
}

#[test]
fn test_expression_builders() {
    let col_expr = Expression::column("name");
    let int_expr = Expression::integer(42);
    let str_expr = Expression::string("hello");
    let bool_expr = Expression::boolean(true);

    assert_eq!(col_expr, Expression::Column { name: "name".to_string() });
    assert_eq!(int_expr, Expression::Literal { value: Value::Integer(42) });
    assert_eq!(str_expr, Expression::Literal { value: Value::Varchar("hello".to_string()) });
    assert_eq!(bool_expr, Expression::Literal { value: Value::Boolean(true) });
}

#[test]
fn test_binary_operations() {
    let left = Expression::column("id");
    let right = Expression::integer(100);
    let eq_expr = Expression::eq(left.clone(), right.clone());

    if let Expression::BinaryOp { left: l, op, right: r } = eq_expr {
        assert_eq!(*l, left);
        assert_eq!(op, BinaryOperator::Eq);
        assert_eq!(*r, right);
    } else {
        panic!("Expected BinaryOp");
    }
}

#[test]
fn select_expression_has_no_table() {
    let stmt = SelectStatement::select_expression(Expression::add(
        Expression::integer(1),
        Expression::integer(2),
    ));
    assert!(stmt.from.is_none());
    assert_eq!(stmt.select_list.len(), 1);
    let plan = QueryPlanner::new().plan(&Statement::Select(stmt));
    assert!(matches!(plan, Err(DbError::SelectWithoutFromUnsupported)));
}

#[test]
fn test_query_executor_creation() {
    let executor = QueryExecutor::new();
    let reference = &executor;
    assert!(std::ptr::eq(reference, &executor));
}

#[test]
fn test_seq_scan_plan() {
    let mut dm = MemDiskManager::new();

    let schema = Schema::new(vec![Column {
        name: "id".to_string(),
        data_type: DataType::Integer,
        nullable: false,
    }]);

    let plan = PhysicalPlan::SeqScan { table_name: "test".to_string(), schema: schema.clone() };

    let executor = QueryExecutor::new();
    let result = executor.execute(plan, &mut dm);

    assert!(result.is_ok());
    let query_result = result.unwrap();
    assert_eq!(query_result.rows.len(), 0);
    assert_eq!(query_result.schema, schema);
}

#[test]
fn test_end_to_end_query_processing() {
    let mut dm = MemDiskManager::new();
    create_test_data(&mut dm);

    let sql = "SELECT * FROM users";
    let stmt = parse_sql(sql).unwrap();
    let planner = QueryPlanner::new();
    let plan = planner.plan(&stmt).unwrap();
    let executor = QueryExecutor::new();
    let result = executor.execute(plan, &mut dm).unwrap();

    assert_eq!(result.rows.len(), 5);

    for (i, row) in result.rows.iter().enumerate() {
        assert_eq!(row.len(), 2);
        if let Value::Integer(val) = &row[0] {
            assert_eq!(*val, i as i32);
        } else {
            panic!("Expected integer value");
        }
    }
}

#[test]
fn test_query_with_limit() {
    let mut dm = MemDiskManager::new();
    create_test_data(&mut dm);

    let sql = "SELECT * FROM users LIMIT 3";
    let stmt = parse_sql(sql).unwrap();
    let planner = QueryPlanner::new();
    let plan = planner.plan(&stmt).unwrap();
    let executor = QueryExecutor::new();
    let result = executor.execute(plan, &mut dm).unwrap();

    assert_eq!(result.rows.len(), 3);
}

#[test]
fn test_parser_error_handling() {
    let invalid_sql = "INVALID GARBAGE";
    let result = parse_sql(invalid_sql);
    assert!(result.is_err());

    let missing_select = "FROM users";
    let result = parse_sql(missing_select);
    assert!(result.is_err());

    let unclosed_string = "SELECT 'hello FROM users";
    let result = parse_sql(unclosed_string);
    assert!(result.is_err());

    let empty_sql = "";
    let result = parse_sql(empty_sql);
    assert!(result.is_err());
}

#[test]
fn test_expression_only_query() {
    let sql = "SELECT 42";
    let stmt = parse_sql(sql);
    assert!(stmt.is_ok());

    let planner = QueryPlanner::new();
    let result = planner.plan(&stmt.unwrap());
    assert!(result.is_err());
}

#[test]
fn test_complex_expression_parsing() {
    let sql = "SELECT 1 + 2 * 3";
    let stmt = parse_sql(sql).unwrap();

    match stmt {
        Statement::Select(select) => {
            assert_eq!(select.select_list.len(), 1);
            assert!(select.from.is_none());
        }
    }
}

#[test]
fn test_boolean_and_string_literals() {
    let sql = "SELECT true, false, 'hello', 123";
    let stmt = parse_sql(sql).unwrap();

    match stmt {
        Statement::Select(select) => {
            assert_eq!(select.select_list.len(), 4);
        }
    }
}

#[test]
fn test_where_clause_parsing() {
    let sql = "SELECT * FROM users WHERE id = 42";
    let stmt = parse_sql(sql).unwrap();

    match stmt {
        Statement::Select(select) => {
            assert!(select.where_clause.is_some());
            assert_eq!(select.from, Some("users".to_string()));
        }
    }
}

#[test]
fn test_select_star() {
    let sql = "SELECT * FROM users";
    let stmt = parse_sql(sql).unwrap();

    let Statement::Select(select) = stmt;
    assert_eq!(select.select_list, vec![SelectItem::Wildcard]);
    assert_eq!(select.from, Some("users".to_string()));
    assert!(select.where_clause.is_none());
    assert!(select.limit.is_none());
}

#[test]
fn test_select_columns() {
    let sql = "SELECT id, name FROM users";
    let stmt = parse_sql(sql).unwrap();

    let Statement::Select(select) = stmt;
    assert_eq!(select.select_list.len(), 2);
    assert_eq!(select.from, Some("users".to_string()));
}

#[test]
fn test_select_with_where() {
    let sql = "SELECT * FROM users WHERE id = 42";
    let stmt = parse_sql(sql).unwrap();

    let Statement::Select(select) = stmt;
    assert!(select.where_clause.is_some());
}

#[test]
fn test_select_with_limit() {
    let sql = "SELECT * FROM users LIMIT 10";
    let stmt = parse_sql(sql).unwrap();

    let Statement::Select(select) = stmt;
    assert_eq!(select.limit, Some(10));
}

#[test]
fn test_expression_parsing() {
    let sql = "SELECT 42 + 3 * 5";
    let stmt = parse_sql(sql).unwrap();

    let Statement::Select(select) = stmt;
    assert_eq!(select.select_list.len(), 1);
    assert!(select.from.is_none());
}

#[test]
fn test_string_literal() {
    let sql = "SELECT 'hello world'";
    let stmt = parse_sql(sql).unwrap();

    let Statement::Select(select) = stmt;
    if let SelectItem::Expression { expr, .. } = &select.select_list[0] {
        if let Expression::Literal { value } = expr {
            assert_eq!(*value, Value::Varchar("hello world".to_string()));
        } else {
            panic!("Expected literal expression");
        }
    } else {
        panic!("Expected expression item");
    }
}

#[test]
fn test_boolean_literals() {
    let sql = "SELECT true, false";
    let stmt = parse_sql(sql).unwrap();

    let Statement::Select(select) = stmt;
    assert_eq!(select.select_list.len(), 2);
}

#[test]
fn test_simple_select_planning() {
    let planner = QueryPlanner::new();
    let select = SelectStatement::select_all_from("users");
    let stmt = Statement::Select(select);

    let plan = planner.plan(&stmt).unwrap();

    match plan {
        PhysicalPlan::SeqScan { table_name, .. } => {
            assert_eq!(table_name, "users");
        }
        _ => panic!("Expected SeqScan plan"),
    }
}

#[test]
fn parser_builds_left_associative_trees_with_precedence() {
    let Statement::Select(select) = parse_sql("select 1 + 2 * 3 - 4").unwrap();
    let expected = Expression::BinaryOp {
        left: Box::new(Expression::add(
            Expression::integer(1),
            Expression::BinaryOp {
                left: Box::new(Expression::integer(2)),
                op: BinaryOperator::Mul,
                right: Box::new(Expression::integer(3)),
            },
        )),
        op: BinaryOperator::Sub,
        right: Box::new(Expression::integer(4)),
    };
    assert_eq!(select.select_list, vec![SelectItem::Expression { expr: expected, alias: None }]);

    let Statement::Select(select) =
        parse_sql("  SeLeCt *  fRoM t   WHERE a >= -5 AND (b <> 'x' OR c)  limit 7 ").unwrap();
    assert_eq!(select.from, Some("t".to_string()));
    assert_eq!(select.limit, Some(7));
    let cond = Expression::BinaryOp {
        left: Box::new(Expression::BinaryOp {
            left: Box::new(Expression::column("a")),
            op: BinaryOperator::Ge,
            right: Box::new(Expression::integer(-5)),
        }),
        op: BinaryOperator::And,
        right: Box::new(Expression::BinaryOp {
            left: Box::new(Expression::BinaryOp {
                left: Box::new(Expression::column("b")),
                op: BinaryOperator::Ne,
                right: Box::new(Expression::string("x")),
            }),
            op: BinaryOperator::Or,
            right: Box::new(Expression::column("c")),
        }),
    };
    assert_eq!(select.where_clause, Some(cond));
}

#[test]
fn parser_rejects_malformed_statements() {
    for sql in [
        "INVALID GARBAGE",
        "",
        "   ",
        "SELECT 'unterminated",
        "FROM users",
        "SELECT",
        "SELECT *FROM users",
        "SELECT * FROM users extra",
        "SELECT 2147483648",
        "SELECT ''",
        "SELECT * FROM users LIMIT 4294967296",
        "SELECT (1 + 2",
    ] {
        assert_eq!(parse_sql(sql).unwrap_err(), DbError::Parse, "{:?}", sql);
    }
    assert!(parse_sql("SELECT -2147483648").is_ok());
    assert!(parse_sql("SELECT * FROM users LIMIT 4294967295").is_ok());
}

#[test]
fn planner_lowering_shapes() {
    let planner = QueryPlanner::new();
    let stmt = parse_sql("SELECT id FROM users WHERE id = 1 LIMIT 2").unwrap();
    match planner.plan(&stmt).unwrap() {
        PhysicalPlan::Limit { limit, input } => {
            assert_eq!(limit, 2);
            match *input {
                PhysicalPlan::Projection { exprs, input } => {
                    assert_eq!(exprs, vec![Expression::column("id")]);
                    match *input {
                        PhysicalPlan::Filter { predicate, input } => {
                            assert_eq!(
                                predicate,
                                Expression::eq(Expression::column("id"), Expression::integer(1))
                            );
                            match *input {
                                PhysicalPlan::SeqScan { table_name, schema } => {
                                    assert_eq!(table_name, "users");
                                    assert_eq!(schema, users_schema());
                                }
                                _ => panic!("expected a scan"),
                            }
                        }
                        _ => panic!("expected a filter"),
                    }
                }
                _ => panic!("expected a projection"),
            }
        }
        _ => panic!("expected a limit"),
    }
    let mixed = parse_sql("SELECT *, id FROM users").unwrap();
    assert!(matches!(planner.plan(&mixed), Err(DbError::WildcardInProjection)));
    let no_from = parse_sql("SELECT 42").unwrap();
    assert!(matches!(planner.plan(&no_from), Err(DbError::SelectWithoutFromUnsupported)));
}

#[test]
fn sample_data_select_all() {
    let mut dm = sample_store();
    let rows = run("SELECT * FROM users", &mut dm).unwrap();
    assert_eq!(rows.len(), 10);
    for (row, (id, name)) in rows.iter().zip(SAMPLE_USERS) {
        assert_eq!(row, &vec![Value::Integer(id), Value::Varchar(name.to_string())]);
    }
}

#[test]
fn sample_data_limit() {
    let mut dm = sample_store();
    let rows = run("SELECT * FROM users LIMIT 3", &mut dm).unwrap();
    assert_eq!(rows.len(), 3);
    for (row, (id, name)) in rows.iter().zip(SAMPLE_USERS) {
        assert_eq!(row, &vec![Value::Integer(id), Value::Varchar(name.to_string())]);
    }
    assert_eq!(run("SELECT * FROM users LIMIT 0", &mut dm).unwrap().len(), 0);
    assert_eq!(run("SELECT * FROM users LIMIT 100", &mut dm).unwrap().len(), 10);
}

#[test]
fn sample_data_where_equality() {
    let mut dm = sample_store();
    let rows = run("SELECT * FROM users WHERE id = 5", &mut dm).unwrap();
    assert_eq!(rows, vec![vec![Value::Integer(5), Value::Varchar("Eve".to_string())]]);
    let rows = run("SELECT name FROM users WHERE name >= 'H' AND id < 10", &mut dm).unwrap();
    assert_eq!(
        rows,
        vec![vec![Value::Varchar("Henry".to_string())], vec![Value::Varchar("Iris".to_string())]]
    );
}

#[test]
fn projection_computes_values_and_schema() {
    let mut dm = sample_store();
    let stmt = parse_sql("SELECT id * 10, name, 'x', true FROM users WHERE id <= 2").unwrap();
    let plan = QueryPlanner::new().plan(&stmt).unwrap();
    let result = QueryExecutor::new().execute(plan, &mut dm).unwrap();
    assert_eq!(
        result.rows,
        vec![
            vec![
                Value::Integer(10),
                Value::Varchar("Alice".to_string()),
                Value::Varchar("x".to_string()),
                Value::Boolean(true)
            ],
            vec![
                Value::Integer(20),
                Value::Varchar("Bob".to_string()),
                Value::Varchar("x".to_string()),
                Value::Boolean(true)
            ],
        ]
    );
    let names: Vec<&str> = result.schema.columns.iter().map(|c| c.name.as_str()).collect();
    assert_eq!(names, vec!["expr", "name", "literal", "literal"]);
    let types: Vec<DataType> = result.schema.columns.iter().map(|c| c.data_type).collect();
    assert_eq!(
        types,
        vec![DataType::Integer, DataType::Varchar(255), DataType::Varchar(255), DataType::Boolean]
    );
    assert!(result.schema.columns.iter().all(|c| c.nullable));
}

#[test]
fn query_errors_surface() {
    let mut dm = sample_store();
    assert_eq!(run("SELECT * FROM users WHERE id", &mut dm), Err(DbError::TypeError));
    assert_eq!(run("SELECT * FROM users WHERE id / 0 = 1", &mut dm), Err(DbError::DivisionByZero));
    assert_eq!(run("SELECT missing FROM users", &mut dm), Err(DbError::CatalogMiss));
    assert_eq!(run("SELECT * FROM users WHERE id = 'a'", &mut dm), Err(DbError::TypeError));
    assert_eq!(run("SELECT id * 2147483647 FROM users", &mut dm), Err(DbError::Overflow));
}

#[test]
fn scan_stops_at_first_unreadable_page() {
    let mut dm = sample_store();
    let second = dm.allocate_page(1).unwrap();
    let mut hp = HeapPage::new_empty(second);
    hp.insert_tuple(&user_tuple(11, "Kim")).unwrap();
    dm.write_page(&hp.page).unwrap();
    assert_eq!(run("SELECT * FROM users", &mut dm).unwrap().len(), 11);

    let mut corrupted = hp.page.clone();
    corrupted.buf[200] ^= 1;
    dm.write_page(&corrupted).unwrap();
    assert_eq!(run("SELECT * FROM users", &mut dm).unwrap().len(), 10);
}

#[test]
fn binary_operators_on_values() {
    let i = |x: i32| Value::Integer(x);
    let s = |x: &str| Value::Varchar(x.to_string());
    let b = |x: bool| Value::Boolean(x);
    assert_eq!(evaluate_binary_op_value(&i(7), &BinaryOperator::Add, &i(5)), Ok(i(12)));
    assert_eq!(evaluate_binary_op_value(&i(7), &BinaryOperator::Sub, &i(5)), Ok(i(2)));
    assert_eq!(evaluate_binary_op_value(&i(7), &BinaryOperator::Mul, &i(5)), Ok(i(35)));
    assert_eq!(evaluate_binary_op_value(&i(-7), &BinaryOperator::Div, &i(2)), Ok(i(-3)));
    assert_eq!(evaluate_binary_op_value(&i(7), &BinaryOperator::Div, &i(0)), Err(DbError::DivisionByZero));
    assert_eq!(evaluate_binary_op_value(&i(i32::MIN), &BinaryOperator::Div, &i(-1)), Err(DbError::Overflow));
    assert_eq!(evaluate_binary_op_value(&i(i32::MAX), &BinaryOperator::Add, &i(1)), Err(DbError::Overflow));
    assert_eq!(evaluate_binary_op_value(&i(3), &BinaryOperator::Le, &i(3)), Ok(b(true)));
    assert_eq!(evaluate_binary_op_value(&i(3), &BinaryOperator::And, &i(3)), Err(DbError::TypeError));
    assert_eq!(evaluate_binary_op_value(&s("ab"), &BinaryOperator::Add, &s("cd")), Ok(s("abcd")));
    assert_eq!(evaluate_binary_op_value(&s("ab"), &BinaryOperator::Lt, &s("abc")), Ok(b(true)));
    assert_eq!(evaluate_binary_op_value(&s("b"), &BinaryOperator::Gt, &s("abc")), Ok(b(true)));
    assert_eq!(evaluate_binary_op_value(&s("é"), &BinaryOperator::Ge, &s("z")), Ok(b(true)));
    assert_eq!(evaluate_binary_op_value(&s("x"), &BinaryOperator::Eq, &s("x")), Ok(b(true)));
    assert_eq!(evaluate_binary_op_value(&s("x"), &BinaryOperator::Mul, &s("x")), Err(DbError::TypeError));
    assert_eq!(evaluate_binary_op_value(&b(true), &BinaryOperator::Or, &b(false)), Ok(b(true)));
    assert_eq!(evaluate_binary_op_value(&b(true), &BinaryOperator::And, &b(false)), Ok(b(false)));
    assert_eq!(evaluate_binary_op_value(&b(true), &BinaryOperator::Lt, &b(false)), Err(DbError::TypeError));
    assert_eq!(evaluate_binary_op_value(&i(1), &BinaryOperator::Eq, &s("1")), Err(DbError::TypeError));
    assert_eq!(evaluate_binary_op_value(&Value::Null, &BinaryOperator::Eq, &Value::Null), Err(DbError::TypeError));
    assert_eq!(evaluate_binary_op(&i(1), &BinaryOperator::Ne, &i(2)), Ok(true));
    assert_eq!(evaluate_binary_op(&i(1), &BinaryOperator::Add, &i(2)), Err(DbError::TypeError));
}

#[test]
fn expressions_over_rows() {
    let schema = users_schema();
    let row = vec![Value::Integer(4), Value::Varchar("Diana".to_string())];
    let expr = Expression::add(Expression::column("id"), Expression::integer(6));
    assert_eq!(evaluate_expression_with_schema(&expr, &row, &schema), Ok(Value::Integer(10)));
    let expr = Expression::column("nope");
    assert_eq!(evaluate_expression_with_schema(&expr, &row, &schema), Err(DbError::CatalogMiss));
    assert_eq!(schema.column_index("name"), Some(1));
    assert_eq!(schema.find_column("id").map(|c| c.data_type), Some(DataType::Integer));
    assert!(schema.find_column("age").is_none());
}

#[test]
fn row_decoding() {
    let schema = users_schema();
    let mut data = user_tuple(-3, "Zoë");
    data.push(0xEE);
    assert_eq!(
        deserialize_row(&data, &schema),
        Ok(vec![Value::Integer(-3), Value::Varchar("Zoë".to_string())])
    );
    assert_eq!(deserialize_row(&data[..6], &schema), Err(DbError::TruncatedTuple));
    let bad = {
        let mut t = 1i32.to_le_bytes().to_vec();
        t.extend_from_slice(&2u32.to_le_bytes());
        t.extend_from_slice(&[0xC3, 0x28]);
        t
    };
    assert_eq!(deserialize_row(&bad, &schema), Err(DbError::Utf8Error));
    let flags = Schema::new(vec![Column {
        name: "flag".to_string(),
        data_type: DataType::Boolean,
        nullable: false,
    }]);
    assert_eq!(deserialize_row(&[2], &flags), Ok(vec![Value::Boolean(true)]));
    assert_eq!(deserialize_row(&[], &flags), Err(DbError::TruncatedTuple));
}

#[test]
fn scan_step_decisions() {
    let schema = users_schema();
    let mut rows = Vec::new();
    let read_failed: Result<storage::page::Page, storage::error::DiskError> =
        Err(storage::error::DiskError::Io);
    assert_eq!(scan_step(0, read_failed, &schema, &mut rows), Ok(ScanAction::Finish));
    assert!(rows.is_empty());

    let mut hp = HeapPage::new_empty(storage::page_id::PageId::new(1, 0));
    hp.insert_tuple(&user_tuple(1, "Ann")).unwrap();
    hp.insert_tuple(&user_tuple(2, "Ben")).unwrap();
    hp.delete_tuple(0).unwrap();
    let next = scan_step(0, Ok(hp.page.clone()), &schema, &mut rows);
    assert_eq!(next, Ok(ScanAction::Read(storage::page_id::PageId::new(1, 1))));
    assert_eq!(rows, vec![vec![Value::Integer(2), Value::Varchar("Ben".to_string())]]);

    let last = scan_step(u32::MAX, Ok(hp.page.clone()), &schema, &mut rows);
    assert_eq!(last, Ok(ScanAction::Finish));
    assert_eq!(rows.len(), 2);

    let mut bad = HeapPage::new_empty(storage::page_id::PageId::new(1, 2));
    bad.insert_tuple(&[1, 2]).unwrap();
    assert_eq!(scan_step(2, Ok(bad.page), &schema, &mut rows), Err(DbError::TruncatedTuple));
    assert_eq!(rows.len(), 2);
}
