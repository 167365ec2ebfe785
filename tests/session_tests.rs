use storage::disk::{DiskManager, MemDiskManager};
use storage::error::DbError;
use storage::heap_page::HeapPage;
use storage::session::{execute_sql, shell_command, ShellCommand};
use storage::table::{cell_string, render_result};
use storage::types::Value;

fn store_with(users: &[(i32, &str)]) -> MemDiskManager {
    let mut dm = MemDiskManager::new();
    let pid = dm.allocate_page(1).unwrap();
    let mut hp = HeapPage::new_empty(pid);
    for (id, name) in users {
        let mut t = Value::Integer(*id).to_bytes();
        t.extend_from_slice(&Value::Varchar(name.to_string()).to_bytes());
        hp.insert_tuple(&t).unwrap();
    }
    dm.write_page(&hp.page).unwrap();
    dm
}

#[test]
fn execute_sql_runs_the_whole_pipeline() {
    let mut dm = store_with(&[(1, "Alice"), (2, "Bob"), (3, "Charlie")]);
    let result = execute_sql("SELECT name FROM users WHERE id <> 2", &mut dm).unwrap();
    assert_eq!(
        result.rows,
        vec![vec![Value::Varchar("Alice".to_string())], vec![Value::Varchar("Charlie".to_string())]]
    );
    assert_eq!(result.schema.columns.len(), 1);
    assert_eq!(result.schema.columns[0].name, "name");
}

#[test]
fn execute_sql_reports_each_stage_error() {
    let mut dm = store_with(&[(1, "Alice")]);
    assert_eq!(execute_sql("SELEC * FROM users", &mut dm).unwrap_err(), DbError::Parse);
    assert_eq!(execute_sql("SELECT 42", &mut dm).unwrap_err(), DbError::SelectWithoutFromUnsupported);
    assert_eq!(execute_sql("SELECT *, id FROM users", &mut dm).unwrap_err(), DbError::WildcardInProjection);
    assert_eq!(execute_sql("SELECT * FROM users WHERE name + 1", &mut dm).unwrap_err(), DbError::TypeError);
}

#[test]
fn execute_sql_on_an_empty_store() {
    let mut dm = MemDiskManager::new();
    let result = execute_sql("SELECT * FROM users", &mut dm).unwrap();
    assert!(result.rows.is_empty());
    assert_eq!(result.schema.columns.len(), 2);
}

#[test]
fn shell_commands() {
    assert_eq!(shell_command(""), ShellCommand::Empty);
    assert_eq!(shell_command("  \t "), ShellCommand::Empty);
    assert_eq!(shell_command("exit"), ShellCommand::Exit);
    assert_eq!(shell_command("  QUIT "), ShellCommand::Exit);
    assert_eq!(shell_command("Help"), ShellCommand::Help);
    assert_eq!(shell_command("clear"), ShellCommand::Clear);
    assert_eq!(shell_command("CLS\n"), ShellCommand::Clear);
    assert_eq!(shell_command("exits"), ShellCommand::Query);
    assert_eq!(shell_command("SELECT * FROM users"), ShellCommand::Query);
}

#[test]
fn rendering_a_result_table() {
    let mut dm = store_with(&[(1, "Alice"), (-20, "Bo"), (300, "Charlie")]);
    let result = execute_sql("SELECT id, name, id > 0 FROM users", &mut dm).unwrap();
    let lines = render_result(&result);
    assert_eq!(
        lines,
        vec![
            "id  | name    | expr ",
            "----|---------|------",
            "1   | Alice   | true ",
            "-20 | Bo      | false",
            "300 | Charlie | true ",
            "",
            "(3 rows)",
        ]
    );
}

#[test]
fn rendering_an_empty_result() {
    let mut dm = MemDiskManager::new();
    let result = execute_sql("SELECT * FROM users", &mut dm).unwrap();
    assert_eq!(render_result(&result), vec!["(no rows)"]);
    assert_eq!(cell_string(&Value::Null), "NULL");
    assert_eq!(cell_string(&Value::Integer(i32::MIN)), "-2147483648");
}
