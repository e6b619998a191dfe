use pollux::db::split_sql_statements;

#[test]
fn schema_script_splits_into_trimmed_statements() {
    let script = "CREATE TABLE credentials (id INTEGER);\n  CREATE UNIQUE INDEX idx ON credentials (project_id)  ;\n;\n  ";
    let statements = split_sql_statements(script);
    assert_eq!(
        statements,
        vec![
            "CREATE TABLE credentials (id INTEGER)".to_string(),
            "CREATE UNIQUE INDEX idx ON credentials (project_id)".to_string(),
        ]
    );
}

#[test]
fn empty_script_yields_no_statements() {
    assert!(split_sql_statements("").is_empty());
    assert!(split_sql_statements(" ;; ; ").is_empty());
}
