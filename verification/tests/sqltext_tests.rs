use wagmi_alerts::sqltext::split_sql_statements;

#[test]
fn splits_on_semicolon_lines() {
    let sql = "CREATE TABLE chat (id BIGINT PRIMARY KEY);\nCREATE TABLE demands (id INT);\n";
    let statements = split_sql_statements(sql);
    assert_eq!(statements.len(), 2);
    assert_eq!(statements[0], "CREATE TABLE chat (id BIGINT PRIMARY KEY);\n");
    assert_eq!(statements[1], "CREATE TABLE demands (id INT);\n");
}

#[test]
fn skips_comments_and_blank_lines() {
    let sql = "-- schema\n\nCREATE TABLE a (x INT);\n   -- trailing note\n";
    let statements = split_sql_statements(sql);
    assert_eq!(statements.len(), 1);
    assert_eq!(statements[0], "CREATE TABLE a (x INT);\n");
}

#[test]
fn keeps_multi_line_statements_together() {
    let sql = "CREATE TABLE a (\n  x INT,\n  y INT\n);\n";
    let statements = split_sql_statements(sql);
    assert_eq!(statements.len(), 1);
    assert_eq!(statements[0], "CREATE TABLE a (\n  x INT,\n  y INT\n);\n");
}

#[test]
fn preserves_dollar_quoted_blocks() {
    let sql = "CREATE FUNCTION f() RETURNS trigger AS $$\nBEGIN;\nRETURN NEW;\nEND $$\nLANGUAGE plpgsql;\nSELECT 1;\n";
    let statements = split_sql_statements(sql);
    // The semicolons inside the dollar-quoted body do not split.
    assert_eq!(statements.len(), 2);
    assert!(statements[0].starts_with("CREATE FUNCTION"));
    assert!(statements[0].contains("BEGIN;\n"));
    assert!(statements[0].ends_with("LANGUAGE plpgsql;\n"));
    assert_eq!(statements[1], "SELECT 1;\n");
}

#[test]
fn trailing_statement_without_semicolon_still_counts() {
    let statements = split_sql_statements("SELECT 1;\nSELECT 2");
    assert_eq!(statements.len(), 2);
    assert_eq!(statements[1], "SELECT 2\n");
}

#[test]
fn empty_input_yields_nothing() {
    assert!(split_sql_statements("").is_empty());
    assert!(split_sql_statements("\n\n-- nothing\n").is_empty());
}

#[test]
fn windows_line_endings_are_tolerated() {
    let statements = split_sql_statements("SELECT 1;\r\nSELECT 2;\r\n");
    assert_eq!(statements.len(), 2);
    assert_eq!(statements[0], "SELECT 1;\n");
}
