use dsql_lint::gap::{restore_fk_action_column_lists, without_fk_action_column_lists};
use dsql_lint::mysql::quoting::unquote_node;
use dsql_lint::mysql::types::normalize_data_type;
use dsql_lint::report::make_preview;
use dsql_lint::rules::constraint_collapse::{detect, fold_into, pretty_join, Kind};
use dsql_lint::rules::serial_idiom::{detect_serial_idioms, fold_identity};
use dsql_lint::rules::{check_statement, find_line, try_find_line};
use dsql_lint::syntax::{is_printable, show, show_pretty};
use dsql_lint::transactions::{check_ddl_transactions, fix_ddl_transactions};
use dsql_lint::{Diagnostic, FixResult, LintRule};
use serde_json::Value;
use sqlparser::ast::{DataType, Statement};
use sqlparser::dialect::{MySqlDialect, PostgreSqlDialect};
use sqlparser::parser::Parser;

fn tree(sql: &str) -> Value {
    let stmts: Vec<Statement> = Parser::parse_sql(&PostgreSqlDialect {}, sql).unwrap();
    serde_json::to_value(&stmts[0]).unwrap()
}

fn record(fields: Vec<(&str, Value)>) -> Value {
    let mut map = serde_json::Map::new();
    for (key, value) in fields {
        map.insert(key.to_string(), value);
    }
    Value::Object(map)
}

fn parts(texts: &[&str]) -> Vec<(usize, String)> {
    texts
        .iter()
        .enumerate()
        .map(|(i, s)| (i + 1, s.to_string()))
        .collect()
}

#[test]
fn small_unsigned_types_warn() {
    for (from, to) in [
        ("TINYINT UNSIGNED", "SMALLINT"),
        ("MEDIUMINT UNSIGNED", "INTEGER"),
        ("SMALLINT UNSIGNED", "INTEGER"),
        ("INT UNSIGNED", "BIGINT"),
    ] {
        let mut ty = serde_json::to_value(
            Parser::new(&MySqlDialect {})
                .try_with_sql(from)
                .unwrap()
                .parse_data_type()
                .unwrap(),
        )
        .unwrap();
        let mut found: Vec<Diagnostic> = Vec::new();
        normalize_data_type(&mut ty, "c", &mut found);
        let written: DataType = serde_json::from_value(ty).unwrap();
        assert_eq!(written.to_string(), to, "{from}");
        assert_eq!(found.len(), 1, "{from}");
        assert_eq!(found[0].rule, LintRule::MysqlUnsignedWidened);
        match &found[0].fix_result {
            FixResult::FixedWithWarning(w) => assert!(w.contains(to), "{w}"),
            other => panic!("{other:?}"),
        }
    }
}

#[test]
fn names_with_foreign_quotes_are_not_printed() {
    let good = tree("SAVEPOINT \"a b\"");
    assert!(is_printable(&good));
    assert_eq!(show(&good), "SAVEPOINT \"a b\"");
    let mut bad = good.clone();
    bad["Savepoint"]["name"]["quote_style"] = Value::from("x");
    assert!(!is_printable(&bad));
    assert_eq!(show(&bad), "");
    assert_eq!(pretty_join(&vec![bad]), "");
}

#[test]
fn identifiers_lose_the_quotes_of_mysql() {
    let span = tree("SAVEPOINT a")["Savepoint"]["name"]["span"].clone();
    let ident = |value: &str, quote: Value| {
        record(vec![
            ("value", Value::from(value)),
            ("quote_style", quote),
            ("span", span.clone()),
        ])
    };
    let plain = unquote_node(&record(vec![("Identifier", ident("a", Value::from("`")))]));
    assert_eq!(plain["Identifier"]["quote_style"], Value::Null);
    let word = unquote_node(&record(vec![("Identifier", ident("order", Value::from("`")))]));
    assert_eq!(word["Identifier"]["quote_style"], Value::from("\""));
    let other = record(vec![("Wildcard", Value::Null)]);
    assert_eq!(unquote_node(&other), other);
    assert_eq!(unquote_node(&word), word);
}

#[test]
fn lines_are_counted_behind_letters_that_grow() {
    assert_eq!(try_find_line("İİİİ oné\n", "on"), Some(1));
    assert_eq!(find_line("İİİİ\nI ON\n", "on"), 2);
    assert_eq!(find_line("İİİİ on\n", "on"), 1);
}

#[test]
fn a_rolled_back_transaction_is_untouched() {
    let mut script = parts(&[
        "BEGIN",
        "CREATE TABLE a (id INT)",
        "CREATE TABLE b (id INT)",
        "ROLLBACK",
    ]);
    let before = script.clone();
    let mut found: Vec<Diagnostic> = Vec::new();
    check_ddl_transactions(&script, &mut found);
    fix_ddl_transactions(&mut script, &mut found);
    assert_eq!(script, before);
    assert!(found.is_empty());
}

#[test]
fn split_transactions_are_accepted() {
    let mut script = parts(&[
        "CREATE TABLE z (id INT)",
        "BEGIN",
        "CREATE TABLE a (id INT)",
        "INSERT INTO a VALUES (1)",
        "CREATE TABLE b (id INT)",
        "COMMIT",
        "BEGIN",
        "DELETE FROM a",
        "CREATE TABLE c (id INT)",
        "COMMIT",
    ]);
    let mut said: Vec<Diagnostic> = Vec::new();
    fix_ddl_transactions(&mut script, &mut said);
    assert!(said
        .iter()
        .all(|d| !matches!(d.fix_result, FixResult::Unfixable)));
    let mut found: Vec<Diagnostic> = Vec::new();
    check_ddl_transactions(&script, &mut found);
    assert!(found.is_empty(), "{found:?}");
}

#[test]
fn column_lists_come_back_where_they_stood() {
    let sql = "CREATE TABLE t ( a INT , FOREIGN KEY ( a ) REFERENCES p ( a ) ON DELETE SET NULL (a) )";
    let gap = without_fk_action_column_lists(sql).unwrap();
    assert_eq!(
        restore_fk_action_column_lists(&gap.parseable, &gap),
        Ok(sql.to_string())
    );
}

#[test]
fn previews_are_on_one_line() {
    let preview = make_preview("CREATE TABLE t (\n  id INT,\r\n\tn TEXT\n)");
    assert!(!preview.contains('\n') && !preview.contains('\r'));
    assert!(preview.starts_with("CREATE TABLE t ("));
}

/// The tree without the fields that tell places.
fn placeless(v: &Value) -> Value {
    match v {
        Value::Array(items) => Value::Array(items.iter().map(placeless).collect()),
        Value::Object(fields) => {
            let mut map = serde_json::Map::new();
            for (key, value) in fields {
                if key != "span" && !key.ends_with("_token") {
                    map.insert(key.clone(), placeless(value));
                }
            }
            Value::Object(map)
        }
        other => other.clone(),
    }
}

#[test]
fn what_the_rules_print_is_read_back() {
    for sql in [
        "CREATE TEMP TABLE t (id SERIAL PRIMARY KEY, d DATE DEFAULT now()) PARTITION BY RANGE (d)",
        "CREATE TABLE t (id INT, n TEXT NOT NULL, UNIQUE (n)) TABLESPACE s",
        "CREATE INDEX CONCURRENTLY i ON t USING gin(d)",
        "ALTER TABLE t ADD CONSTRAINT f FOREIGN KEY (a) REFERENCES u(b)",
        "ALTER TABLE t ADD COLUMN id BIGSERIAL",
        "CREATE TEMPORARY VIEW v AS select a, case when b then 1 else 2 end from t",
        "CREATE SEQUENCE s AS INTEGER START WITH 5",
        "CREATE SEQUENCE s CACHE -1",
        "CREATE TABLE t (id BIGINT GENERATED ALWAYS AS IDENTITY (CACHE 7 START WITH 3))",
        "BEGIN ISOLATION LEVEL SERIALIZABLE",
        "COMMIT",
    ] {
        let mut stmt = tree(sql);
        let mut found: Vec<Diagnostic> = Vec::new();
        check_statement(&mut stmt, sql, &mut found);
        let read = tree(&show_pretty(&stmt));
        assert_eq!(placeless(&read), placeless(&stmt), "{sql}");
    }
    assert!(tree("COMMIT").get("Commit").is_some());
}

#[test]
fn folds_without_a_table_leave_the_statements() {
    let script = vec![
        tree("CREATE TABLE t (id INT)"),
        tree("ALTER TABLE t ADD CONSTRAINT k PRIMARY KEY (id)"),
    ];
    let idioms = detect(&script, Kind::PrimaryKey);
    assert_eq!(idioms.len(), 1);
    let mut others = vec![tree("CREATE TABLE u (id INT)"), tree("SELECT 1")];
    let before = others.clone();
    assert!(!fold_into(&mut others, &idioms[0]));
    assert_eq!(others, before);
    let dump = vec![
        tree("CREATE TABLE t (id INT)"),
        tree("CREATE SEQUENCE q CACHE 1"),
        tree("ALTER TABLE t ALTER COLUMN id SET DEFAULT nextval('q')"),
    ];
    let serials = detect_serial_idioms(&dump);
    assert_eq!(serials.len(), 1);
    assert!(!fold_identity(&mut others, &serials[0]));
    assert_eq!(others, before);
    let mut tables = vec![tree("CREATE TABLE t (id INT)")];
    assert!(fold_identity(&mut tables, &serials[0]));
    assert!(show(&tables[0]).contains("IDENTITY"));
}
