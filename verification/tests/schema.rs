use meev::db::schema_statements;

#[test]
fn schema_is_split_into_statements() {
    let sql = "CREATE TABLE a (x int);\n\n-- a comment;\nCREATE INDEX i ON a (x) ;  ; ";
    assert_eq!(
        schema_statements(sql),
        vec!["CREATE TABLE a (x int)".to_string(), "CREATE INDEX i ON a (x)".to_string()]
    );
}

#[test]
fn schema_without_trailing_semicolon() {
    assert_eq!(schema_statements("SELECT 1"), vec!["SELECT 1".to_string()]);
    assert!(schema_statements("  ;; -- only\n").is_empty());
}
