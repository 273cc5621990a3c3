use dsql_lint::corpus::{parse_header, snake_to_pascal, Expectation};
use dsql_lint::diagnostic::snake_case;
use dsql_lint::gap::{
    bridge_tokens, is_supported_alter_constraint, is_supported_set_constraints, place_lists,
    read_significant, restore_fk_action_column_lists, without_fk_action_column_lists,
    FkActionColumnList, FkSetAction,
};
use dsql_lint::lint::{settle, settle_lists, Outcome};
use dsql_lint::mysql::literal::{
    bits_to_bytea_hex, has_zero_date_segment, hex_to_bytea_literal, parse_signed, parse_unsigned,
};
use dsql_lint::mysql::quoting::{
    double_quotable, is_bare_safe_ident, is_pg_reserved_word, needs_double_quote, requoted_style,
};
use dsql_lint::mysql::types::normalize_data_type;
use dsql_lint::mysql::{opens_create_table, sort_by_line};
use dsql_lint::rules::{check_statement, find_line, find_line_any, try_find_line};
use dsql_lint::split::{split_statements, split_statements_dialect};
use dsql_lint::syntax::Dialect;
use dsql_lint::transactions::{
    check_ddl_transactions, fix_ddl_transactions, kinds_of, read_role, PartRole,
};
use dsql_lint::{fix_sql, fix_sql_mysql, lint_sql, Diagnostic, FixResult, LintRule};
use serde_json::Value;
use sqlparser::ast::{DataType, Statement};
use sqlparser::dialect::{Dialect as SqlDialect, MySqlDialect, PostgreSqlDialect};
use sqlparser::parser::Parser;

fn trees(dialect: &dyn SqlDialect, sql: &str) -> Vec<Value> {
    Parser::parse_sql(dialect, sql)
        .unwrap()
        .iter()
        .map(|s| serde_json::to_value(s).unwrap())
        .collect()
}

fn report(line: usize, fix_result: FixResult) -> Diagnostic {
    Diagnostic {
        rule: LintRule::Truncate,
        line,
        statement: String::new(),
        message: format!("message {line}"),
        suggestion: String::new(),
        fix_result,
    }
}

#[test]
fn lint_and_fix_report_the_same() {
    let sql = "CREATE TABLE t (id SERIAL PRIMARY KEY);\nTRUNCATE foo;\nCREATE INDEX i ON t(c);";
    let linted: Vec<(LintRule, usize)> = lint_sql(sql).iter().map(|d| (d.rule, d.line)).collect();
    let fixed: Vec<(LintRule, usize)> = fix_sql(sql)
        .diagnostics
        .iter()
        .map(|d| (d.rule, d.line))
        .collect();
    assert_eq!(linted, fixed);
    assert_eq!(
        linted,
        vec![
            (LintRule::SerialType, 1),
            (LintRule::Truncate, 2),
            (LintRule::IndexAsync, 3)
        ]
    );
}

#[test]
fn clean_statements_are_kept_as_they_are() {
    let sql = "select  1;\n\n-- note\nselect 2";
    let out = fix_sql(sql);
    assert!(out.diagnostics.is_empty());
    assert_eq!(out.sql, "select  1;\n\nselect 2;\n");
}

#[test]
fn reports_quote_their_statement() {
    for d in lint_sql("SELECT 1;\nTRUNCATE foo;") {
        assert_eq!(d.statement, "TRUNCATE foo;");
        assert_eq!(d.line, 2);
    }
}

#[test]
fn scripts_that_are_no_tokens_are_refused() {
    let ds = lint_sql("SELECT 'open");
    assert_eq!(ds.len(), 1);
    assert_eq!(ds[0].rule, LintRule::ParseError);
    assert_eq!(ds[0].line, 1);
    assert!(ds[0].message.starts_with("Failed to tokenize SQL: "));
    assert_eq!(ds[0].fix_result, FixResult::Unfixable);
    assert_eq!(fix_sql("SELECT 'open").sql, "SELECT 'open");
}

#[test]
fn statements_that_do_not_parse_are_reported_alone() {
    let ds = lint_sql("SELECT 1;\nCREATE NONSENSE x;\nTRUNCATE foo;");
    assert_eq!(ds.len(), 2);
    assert_eq!(ds[0].rule, LintRule::ParseError);
    assert_eq!(ds[0].line, 2);
    assert!(ds[0].message.starts_with("Failed to parse SQL: "));
    assert_eq!(ds[0].statement, "CREATE NONSENSE x;");
    assert_eq!(ds[1].rule, LintRule::Truncate);
}

#[test]
fn outcomes_are_settled_from_reports() {
    let table = trees(&PostgreSqlDialect {}, "CREATE TABLE t (id INT)");
    assert_eq!(settle(&table, &vec![]), Outcome::Kept);
    assert_eq!(
        settle(&table, &vec![report(1, FixResult::Unfixable)]),
        Outcome::Kept
    );
    assert_eq!(
        settle(&table, &vec![report(1, FixResult::Fixed(String::new()))]),
        Outcome::Rewritten
    );
    assert_eq!(settle(&vec![], &vec![]), Outcome::Removed);
}

#[test]
fn lists_without_a_place_leave_the_statement() {
    let found = vec![report(1, FixResult::Fixed("x".to_string()))];
    let (text, ds) = settle_lists("raw;", Err("none".to_string()), found);
    assert_eq!(text, "raw");
    assert_eq!(ds.len(), 2);
    assert_eq!(ds[0].fix_result, FixResult::Unfixable);
    assert_eq!(
        ds[1].message,
        "Failed to restore foreign-key action column lists: none"
    );
    let kept = vec![report(1, FixResult::Fixed("x".to_string()))];
    let (text, ds) = settle_lists("raw;", Ok("new".to_string()), kept);
    assert_eq!(text, "new");
    assert_eq!(ds[0].fix_result, FixResult::Fixed("x".to_string()));
}

const KEYS: &str = "CREATE TABLE t (a INT, b INT, \
    FOREIGN KEY (a, b) REFERENCES p (a, b) ON DELETE SET NULL (a), \
    FOREIGN KEY (a, b) REFERENCES q (a, b) ON DELETE SET DEFAULT (a, b), \
    FOREIGN KEY (b) REFERENCES r (b) ON DELETE SET NULL)";

#[test]
fn column_lists_are_taken_out_and_put_back() {
    let gap = without_fk_action_column_lists(KEYS).unwrap();
    assert!(!gap.parseable.contains("SET NULL ( a )"));
    assert_eq!(
        gap.action_column_lists,
        vec![
            FkActionColumnList {
                action: FkSetAction::Null,
                occurrence: 0,
                columns: "(a)".to_string()
            },
            FkActionColumnList {
                action: FkSetAction::Default,
                occurrence: 0,
                columns: "(a, b)".to_string()
            },
        ]
    );
    let restored = restore_fk_action_column_lists(&gap.parseable, &gap).unwrap();
    assert!(restored.contains("ON DELETE SET NULL (a) ,"));
    assert!(restored.contains("ON DELETE SET DEFAULT (a, b) ,"));
    assert_eq!(
        restored.len(),
        gap.parseable.len() + " (a)".len() + " (a, b)".len()
    );
    assert_eq!(without_fk_action_column_lists("SELECT 1"), None);
}

#[test]
fn a_missing_action_keeps_lists_from_their_place() {
    let gap = without_fk_action_column_lists(KEYS).unwrap();
    assert_eq!(
        restore_fk_action_column_lists("SELECT 1", &gap),
        Err("restored 0 of 2 foreign-key action column lists".to_string())
    );
}

#[test]
fn tokens_are_bridged_without_a_parser() {
    let sql = "x ON DELETE SET NULL (a)";
    let tokens = read_significant(sql).unwrap();
    let (kept, lists) = bridge_tokens(&tokens);
    assert_eq!(kept, vec!["x", "ON", "DELETE", "SET", "NULL"]);
    assert_eq!(lists.len(), 1);
    let bare = read_significant("x ON DELETE SET NULL").unwrap();
    assert_eq!(
        place_lists("x ON DELETE SET NULL", &bare, &lists).as_deref(),
        Ok(sql)
    );
}

#[test]
fn supported_statements_beyond_the_parser_are_recognized() {
    assert!(is_supported_alter_constraint(
        "ALTER TABLE t ALTER CONSTRAINT c DEFERRABLE INITIALLY DEFERRED;"
    ));
    assert!(!is_supported_alter_constraint("ALTER TABLE t ADD COLUMN c INT"));
    assert!(is_supported_set_constraints("SET CONSTRAINTS ALL DEFERRED;"));
    assert!(!is_supported_set_constraints("SET CONSTRAINTS ALL"));
}

#[test]
fn lines_of_words_are_found() {
    let raw = "CREATE TABLE serials (\n  id SERIAL\n)";
    assert_eq!(try_find_line(raw, "serial"), Some(2));
    assert_eq!(try_find_line(raw, "missing"), None);
    assert_eq!(find_line(raw, "missing"), 1);
    assert_eq!(
        find_line_any(raw, &vec!["missing".to_string(), "ID".to_string()]),
        2
    );
    assert_eq!(find_line("É\né", "É"), 1);
}

#[test]
fn statements_are_split_by_dialect() {
    assert_eq!(
        split_statements("SELECT 1;\n\nSELECT 'é;';").unwrap(),
        vec![
            (1, "SELECT 1;".to_string()),
            (3, "SELECT 'é;';".to_string())
        ]
    );
    assert_eq!(
        split_statements_dialect("SELECT `a;b`; SELECT 2", Dialect::MySql).unwrap(),
        vec![
            (1, "SELECT `a;b`;".to_string()),
            (1, "SELECT 2".to_string())
        ]
    );
    assert!(split_statements("SELECT 'open").is_err());
}

#[test]
fn roles_in_a_transaction_are_read() {
    assert!(matches!(read_role("COMMIT"), PartRole::End(true)));
    assert!(matches!(read_role("ROLLBACK"), PartRole::End(false)));
    assert!(matches!(read_role("BEGIN"), PartRole::Nested));
    assert!(matches!(read_role("CREATE TABLE t (id INT)"), PartRole::Ddl));
    assert!(matches!(read_role("DELETE FROM t"), PartRole::Dml));
    assert!(matches!(read_role("SHOW x"), PartRole::Other));
    assert!(matches!(read_role("CREATE NONSENSE"), PartRole::Broken(_)));
    let kinds = kinds_of(&trees(&PostgreSqlDialect {}, "BEGIN; DELETE FROM t"));
    assert!(kinds.begin && kinds.dml && !kinds.ddl && !kinds.end);
}

#[test]
fn transactions_are_split_into_runs() {
    let mut parts: Vec<(usize, String)> = [
        "BEGIN",
        "CREATE TABLE a (id INT)",
        "INSERT INTO a VALUES (1)",
        "CREATE TABLE b (id INT)",
        "COMMIT",
    ]
    .iter()
    .enumerate()
    .map(|(i, s)| (i + 1, s.to_string()))
    .collect();
    let mut found: Vec<Diagnostic> = Vec::new();
    check_ddl_transactions(&parts, &mut found);
    assert_eq!(found.len(), 2);
    assert_eq!(found[0].rule, LintRule::MultiDdlTransaction);
    let mut said: Vec<Diagnostic> = Vec::new();
    fix_ddl_transactions(&mut parts, &mut said);
    assert_eq!(said.len(), 2);
    assert!(said.iter().all(|d| d.line == 1));
    let ddl = parts.iter().filter(|p| p.1.starts_with("CREATE")).count();
    assert_eq!(ddl, 2);
    let mut again: Vec<Diagnostic> = Vec::new();
    let whole = parts.clone();
    fix_ddl_transactions(&mut parts, &mut again);
    assert!(again.is_empty());
    assert_eq!(parts, whole);
}

#[test]
fn rules_rewrite_the_tree_of_a_statement() {
    let mut stmt = trees(&PostgreSqlDialect {}, "CREATE INDEX i ON t(c)").remove(0);
    let mut found: Vec<Diagnostic> = Vec::new();
    check_statement(&mut stmt, "CREATE INDEX i ON t(c)", &mut found);
    assert_eq!(found.len(), 1);
    let rewritten: Statement = serde_json::from_value(stmt).unwrap();
    assert_eq!(rewritten.to_string(), "CREATE INDEX ASYNC i ON t(c)");
}

#[test]
fn types_are_rewritten_in_the_tree() {
    let mut ty = serde_json::to_value(
        Parser::new(&MySqlDialect {})
            .try_with_sql("TINYINT(1)")
            .unwrap()
            .parse_data_type()
            .unwrap(),
    )
    .unwrap();
    let mut found: Vec<Diagnostic> = Vec::new();
    normalize_data_type(&mut ty, "c", &mut found);
    assert_eq!(ty, Value::String("Boolean".to_string()));
    assert!(found.is_empty());
}

#[test]
fn reports_are_sorted_by_line_and_keep_their_order() {
    let sorted = sort_by_line(vec![
        report(3, FixResult::Unfixable),
        report(1, FixResult::Fixed("first".to_string())),
        report(2, FixResult::Unfixable),
        report(1, FixResult::Fixed("second".to_string())),
    ]);
    let lines: Vec<usize> = sorted.iter().map(|d| d.line).collect();
    assert_eq!(lines, vec![1, 1, 2, 3]);
    assert_eq!(sorted[0].fix_result, FixResult::Fixed("first".to_string()));
    assert_eq!(sorted[1].fix_result, FixResult::Fixed("second".to_string()));
}

#[test]
fn row_data_is_dropped_and_reported() {
    let out = fix_sql_mysql("CREATE TABLE t (id INT);\nINSERT INTO t VALUES (1);");
    assert!(!out.sql.contains("INSERT"));
    assert!(out
        .diagnostics
        .iter()
        .any(|d| d.line == 2 && d.statement.starts_with("INSERT INTO t")));
}

#[test]
fn quotes_are_chosen_by_the_name() {
    assert!(is_pg_reserved_word("SELECT"));
    assert!(!is_pg_reserved_word("selected"));
    assert!(is_bare_safe_ident("a_1"));
    assert!(!is_bare_safe_ident("A"));
    assert!(!is_bare_safe_ident("1a"));
    assert!(needs_double_quote("order"));
    assert!(!needs_double_quote("orders"));
    assert!(double_quotable("a b"));
    assert_eq!(requoted_style("plain", Some('`')), None);
    assert_eq!(requoted_style("order", Some('`')), Some('"'));
    assert_eq!(requoted_style("order", None), None);
    assert_eq!(requoted_style("x", Some('"')), Some('"'));
}

#[test]
fn literals_are_read_and_written() {
    assert_eq!(parse_unsigned("ff", 16), Some(255));
    assert_eq!(parse_unsigned("18446744073709551615", 10), Some(u64::MAX));
    assert_eq!(parse_unsigned("18446744073709551616", 10), None);
    assert_eq!(parse_unsigned("", 10), None);
    assert_eq!(parse_signed("-9223372036854775808"), Some(i64::MIN));
    assert_eq!(parse_signed("9223372036854775808"), None);
    assert_eq!(parse_signed("+7"), Some(7));
    assert_eq!(hex_to_bytea_literal("abc", 0), "\\x0abc");
    assert_eq!(hex_to_bytea_literal("1", 2), "\\x0001");
    assert_eq!(bits_to_bytea_hex("101", 1).as_deref(), Some("\\x05"));
    assert_eq!(bits_to_bytea_hex("100000001", 0).as_deref(), Some("\\x0101"));
    assert_eq!(bits_to_bytea_hex("102", 1), None);
    assert!(has_zero_date_segment("2024-00-10"));
    assert!(!has_zero_date_segment("2024-01-10"));
}

#[test]
fn tables_are_recognized_by_their_opening() {
    assert!(opens_create_table("CREATE TEMPORARY TABLE t (id INT)"));
    assert!(opens_create_table("-- note\ncreate table t"));
    assert!(!opens_create_table("CREATE INDEX i ON t(c)"));
    assert!(!opens_create_table("DROP TABLE t"));
}

#[test]
fn rules_have_wire_names() {
    assert_eq!(LintRule::SerialType.wire_name(), "serial_type");
    assert_eq!(LintRule::MultiDdlTransaction.name(), "MultiDdlTransaction");
    assert_eq!(snake_case("AddColumn"), "add_column");
    assert_eq!(snake_to_pascal("serial_type"), "SerialType");
    assert_eq!(
        snake_to_pascal(&LintRule::MultiDdlTransaction.wire_name()),
        "MultiDdlTransaction"
    );
}

#[test]
fn headers_tell_what_is_wrong_with_them() {
    let (header, body) =
        parse_header("-- production: X\n-- expectation: accept\nSELECT 1;\n").unwrap();
    assert_eq!(header.production, "X");
    assert_eq!(header.expectation, Expectation::Accept);
    assert_eq!(body, "SELECT 1;\n");
    let err = parse_header("-- expectation: accept\nSELECT 1;\n").unwrap_err();
    assert_eq!(err.describe(), "line 1: missing required key 'production'");
    let err = parse_header("-- production: X\nSELECT 1;\n").unwrap_err();
    assert_eq!(err.describe(), "line 1: missing required key 'expectation'");
    let err = parse_header("-- production: X\n-- expectation: maybe\n").unwrap_err();
    assert_eq!(err.line, 2);
}

#[test]
fn fixing_twice_changes_nothing_more() {
    for sql in [
        "CREATE TABLE t (id SERIAL PRIMARY KEY, n INT)",
        "CREATE INDEX i ON t(c);\nTRUNCATE foo;",
        "ALTER TABLE a ADD CONSTRAINT f FOREIGN KEY (x) REFERENCES b (y);",
        "BEGIN; CREATE TABLE a (id INT); CREATE TABLE b (id INT); COMMIT;",
    ] {
        let once = fix_sql(sql);
        let twice = fix_sql(&once.sql);
        assert_eq!(twice.sql, once.sql, "{sql}");
        assert!(
            twice
                .diagnostics
                .iter()
                .all(|d| d.fix_result == FixResult::Unfixable),
            "{sql}"
        );
    }
}

#[test]
fn types_are_translated_once() {
    for (from, to) in [
        ("BIGINT UNSIGNED", "NUMERIC"),
        ("INT(11)", "INT"),
        ("MEDIUMINT", "INTEGER"),
        ("DOUBLE", "DOUBLE PRECISION"),
        ("LONGBLOB", "BYTEA"),
        ("DATETIME(3)", "TIMESTAMP(3)"),
        ("ENUM('a', 'b')", "VARCHAR(255)"),
    ] {
        let mut ty = serde_json::to_value(
            Parser::new(&MySqlDialect {})
                .try_with_sql(from)
                .unwrap()
                .parse_data_type()
                .unwrap(),
        )
        .unwrap();
        let mut found: Vec<Diagnostic> = Vec::new();
        normalize_data_type(&mut ty, "c", &mut found);
        let written: DataType = serde_json::from_value(ty.clone()).unwrap();
        assert_eq!(written.to_string(), to, "{from}");
        let once = ty.clone();
        let mut again: Vec<Diagnostic> = Vec::new();
        normalize_data_type(&mut ty, "c", &mut again);
        assert_eq!(ty, once, "{from}");
        assert!(again.is_empty(), "{from}");
    }
}
