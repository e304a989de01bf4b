use port_manager::db_report::{
    QueryOutcome, format_query_table, health_report, is_select_query, query_report,
};

#[test]
fn health_when_not_initialized() {
    let h = health_report(false, false, "", 0, "2024-01-01T00:00:00Z".to_string());
    assert_eq!(h.status, "disconnected");
    assert_eq!(h.message, "Database not initialized");
    assert_eq!(h.last_checked, "2024-01-01T00:00:00Z");
    assert_eq!(h.response_time, None);
}

#[test]
fn health_when_probe_succeeds() {
    let h = health_report(true, true, "", 12, "t1".to_string());
    assert_eq!(h.status, "healthy");
    assert_eq!(h.message, "Database is healthy (12ms)");
    assert_eq!(h.response_time, Some(12));
    assert_eq!(h.last_checked, "t1");
}

#[test]
fn health_when_probe_fails() {
    let h = health_report(true, false, "disk I/O error", 5, "t2".to_string());
    assert_eq!(h.status, "error");
    assert_eq!(h.message, "Database error: disk I/O error");
    assert_eq!(h.response_time, Some(5));
}

#[test]
fn select_detection() {
    assert!(is_select_query("SELECT * FROM users"));
    assert!(is_select_query("  select 1"));
    assert!(is_select_query("\tSeLeCt name FROM t"));
    assert!(!is_select_query("INSERT INTO t VALUES (1)"));
    assert!(!is_select_query("sel"));
    assert!(!is_select_query(""));
    assert!(!is_select_query("   "));
}

#[test]
fn table_rendering() {
    let columns = vec!["id".to_string(), "name".to_string()];
    let rows = vec![
        vec!["1".to_string(), "alice".to_string()],
        vec!["2".to_string(), "NULL".to_string()],
    ];
    let out = format_query_table(&columns, &rows);
    assert_eq!(out, "id | name\n---------\n1 | alice\n2 | NULL\n");
}

#[test]
fn table_rendering_without_columns() {
    let out = format_query_table(&Vec::new(), &Vec::new());
    assert_eq!(out, "");
}

#[test]
fn query_report_select_success() {
    let outcome = QueryOutcome::SelectRows {
        columns: vec!["id".to_string()],
        rows: vec![vec!["1".to_string()], vec!["2".to_string()]],
    };
    let r = query_report(outcome, 7, "t3".to_string());
    assert_eq!(r.status, "success");
    assert_eq!(r.message, "Query returned 2 rows (7ms)");
    assert_eq!(r.result.as_deref(), Some("id\n--\n1\n2\n"));
    assert_eq!(r.response_time, 7);
    assert_eq!(r.last_executed, "t3");
}

#[test]
fn query_report_not_initialized() {
    let r = query_report(QueryOutcome::NotInitialized, 1, "t4".to_string());
    assert_eq!(r.status, "error");
    assert_eq!(r.message, "Database not initialized");
    assert_eq!(r.result, None);
}

#[test]
fn query_report_rows_affected() {
    let r = query_report(QueryOutcome::RowsAffected { count: 3 }, 9, "t5".to_string());
    assert_eq!(r.status, "success");
    assert_eq!(r.message, "Query executed successfully (9ms)");
    assert_eq!(r.result.as_deref(), Some("Rows affected: 3"));
}

#[test]
fn query_report_errors() {
    let r = query_report(
        QueryOutcome::PrepareFailed { detail: "no such table".to_string() },
        2,
        "t6".to_string(),
    );
    assert_eq!(r.status, "error");
    assert_eq!(r.message, "Error preparing query: no such table");
    assert_eq!(r.result.as_deref(), Some("Error details: no such table"));

    let r = query_report(
        QueryOutcome::QueryFailed { detail: "bad row".to_string() },
        2,
        "t7".to_string(),
    );
    assert_eq!(r.message, "Error executing query: bad row");

    let r = query_report(
        QueryOutcome::ExecFailed { detail: "locked".to_string() },
        2,
        "t8".to_string(),
    );
    assert_eq!(r.message, "Query execution error: locked");
    assert_eq!(r.result.as_deref(), Some("Error details: locked"));
}
