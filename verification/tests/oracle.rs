use dsql_lint::diff::{
    bump, classify, compare_file, label_map, preview, write_file, write_totals, Category,
    FileSummary, Totals,
};
use dsql_lint::grammar::model::{GrammarFile, GrammarToken, Production, TokenType};
use dsql_lint::grammar::names::is_before;
use dsql_lint::grammar::recognizer::{
    charclass_terminal_name, terminal_input_string, token_terminal_name,
};
use dsql_lint::grammar::tokenize::{produces_charclass, Terminal};
use dsql_lint::grammar::{split_statements, top_level_rules, Grammar};
use indexmap::IndexMap;

fn token(text: &str, token_type: TokenType) -> GrammarToken {
    GrammarToken {
        text: text.to_string(),
        token_type,
    }
}

fn term(text: &str) -> GrammarToken {
    token(text, TokenType::Terminal)
}

fn class(text: &str) -> GrammarToken {
    token(text, TokenType::CharClass)
}

fn quoted(text: &str) -> GrammarToken {
    token(text, TokenType::Quoted)
}

fn nonterm(text: &str) -> GrammarToken {
    token(text, TokenType::NonTerminal)
}

fn plain(choices: Vec<Vec<GrammarToken>>) -> Production {
    Production {
        choices,
        optional: false,
        repetition: None,
    }
}

fn file_of(rules: Vec<(&str, Production)>) -> GrammarFile {
    let mut map: IndexMap<String, Production> = IndexMap::new();
    for (name, production) in rules {
        map.insert(name.to_string(), production);
    }
    GrammarFile {
        rules: map,
        root: "Statement".to_string(),
    }
}

/// Tables with one column, selections of a number, and the end of a transaction.
fn small_file() -> GrammarFile {
    file_of(vec![
        (
            "CreateStmt",
            plain(vec![vec![
                term("CREATE"),
                term("TABLE"),
                class("IDENT"),
                quoted("("),
                nonterm("Columns"),
                quoted(")"),
            ]]),
        ),
        (
            "Columns",
            Production {
                choices: vec![vec![class("IDENT"), term("INT")]],
                optional: false,
                repetition: Some(",".to_string()),
            },
        ),
        ("SelectStmt", plain(vec![vec![term("SELECT"), class("ICONST")]])),
        ("TransactionStmt", plain(vec![vec![term("COMMIT")]])),
    ])
}

fn small() -> Grammar {
    Grammar::load_with_warnings(small_file(), "small.json", &mut Vec::new()).unwrap()
}

fn refusal(file: GrammarFile) -> String {
    match Grammar::load_with_warnings(file, "small.json", &mut Vec::new()) {
        Ok(_) => panic!("the grammar should be refused"),
        Err(e) => e,
    }
}

#[test]
fn keyword_demotion_path_demotes_id() {
    let (accepts, demotions) = small()
        .accepts_with_demotions("CREATE TABLE t (id INT)")
        .unwrap();
    assert!(accepts);
    assert_eq!(demotions, vec!["ID"]);
}

#[test]
fn the_small_grammar_accepts() {
    let g = small();
    for sql in [
        "CREATE TABLE t (a INT)",
        "create table t (a INT, b INT);",
        "SELECT 1",
        "COMMIT",
    ] {
        assert_eq!(g.accepts(sql), Ok(true), "{sql}");
    }
}

#[test]
fn the_small_grammar_rejects() {
    let g = small();
    for sql in [
        "CRATE TABLE t (id INT)",
        "CREATE TABLE t (id INT",
        "INSERT INTO",
        "UPDATE",
        "CREATE TABLE",
        "SELECT 'x'",
    ] {
        assert_eq!(g.accepts(sql), Ok(false), "{sql}");
    }
}

#[test]
fn empty_input_returns_err() {
    let g = small();
    for sql in ["", "   ", "\n\n", ";", "-- only a comment\n"] {
        let err = g.accepts(sql).err().unwrap();
        assert!(
            err.contains("no terminals"),
            "unexpected error on {sql:?}: {err}"
        );
    }
}

#[test]
fn accepts_propagates_tokenize_error() {
    let err = small().accepts("SELECT 'unterminated").err().unwrap();
    assert!(
        err.starts_with("tokenize:"),
        "expected tokenize: prefix, got {err:?}"
    );
}

#[test]
fn load_fails_when_no_top_level_rules() {
    let err = refusal(file_of(vec![("Foo", plain(vec![vec![term("x")]]))]));
    assert_eq!(
        err,
        "no top-level rules from TOP_LEVEL_RULES found in small.json"
    );
}

#[test]
fn a_separator_that_is_a_rule_refuses_the_grammar() {
    let err = refusal(file_of(vec![
        (
            "SelectStmt",
            Production {
                choices: vec![vec![term("SELECT")]],
                optional: false,
                repetition: Some("AND".to_string()),
            },
        ),
        ("AND", plain(vec![vec![term("x")]])),
    ]));
    assert_eq!(
        err,
        "repetition separator 'AND' collides with a defined rule name"
    );
}

#[test]
fn loading_warns_of_asymmetries() {
    let mut warnings = vec!["before".to_string()];
    let file = file_of(vec![
        ("ZebraStmt", plain(vec![vec![term("Z")]])),
        ("AppleStmt", plain(vec![vec![term("A")]])),
        ("SelectStmt", plain(vec![vec![nonterm("gone"), nonterm("far")]])),
    ]);
    assert!(Grammar::load_with_warnings(file, "small.json", &mut warnings).is_ok());
    assert_eq!(warnings.len(), 4);
    assert_eq!(warnings[0], "before");
    assert!(warnings[1].starts_with(
        "warning: TOP_LEVEL_RULES entries not defined in grammar: [\"CreateSchemaStmt\", \"CreateStmt\""
    ));
    assert!(!warnings[1].contains("\"SelectStmt\""));
    assert_eq!(
        warnings[2],
        "warning: grammar `*Stmt` rules not in TOP_LEVEL_RULES: [\"AppleStmt\", \"ZebraStmt\"]"
    );
    assert_eq!(
        warnings[3],
        "warning: non-terminals referenced but not defined: [\"far\", \"gone\"]"
    );
}

#[test]
fn a_grammar_with_every_rule_gives_no_warning() {
    let names = top_level_rules();
    assert_eq!(names.len(), 32);
    let rules: Vec<(&str, Production)> = names
        .iter()
        .map(|n| (n.as_str(), plain(vec![vec![term("X")]])))
        .collect();
    let mut warnings: Vec<String> = Vec::new();
    assert!(Grammar::load_with_warnings(file_of(rules), "small.json", &mut warnings).is_ok());
    assert!(warnings.is_empty(), "{warnings:?}");
}

#[test]
fn classes_are_listed_in_order() {
    let classes = small().referenced_charclasses();
    assert_eq!(classes, vec!["ICONST", "IDENT"]);
    for c in &classes {
        assert!(produces_charclass(c));
    }
    assert!(!produces_charclass("UNHEARD_OF"));
}

#[test]
fn optional_rules_derive_nothing_too() {
    let file = file_of(vec![
        (
            "SelectStmt",
            plain(vec![vec![term("SELECT"), nonterm("tail")]]),
        ),
        (
            "tail",
            Production {
                choices: vec![vec![class("ICONST")]],
                optional: true,
                repetition: Some(String::new()),
            },
        ),
    ]);
    let g = Grammar::load_with_warnings(file, "small.json", &mut Vec::new()).unwrap();
    assert_eq!(g.accepts("SELECT"), Ok(true));
    assert_eq!(g.accepts("SELECT 1 2 3"), Ok(true));
    assert_eq!(g.accepts("SELECT , 1"), Ok(false));
}

#[test]
fn terminals_have_names() {
    assert_eq!(charclass_terminal_name("IDENT"), "__CC_IDENT");
    assert_eq!(token_terminal_name(&class("SCONST")), "__CC_SCONST");
    assert_eq!(token_terminal_name(&quoted("(")), "(");
    assert_eq!(terminal_input_string(&Terminal::Punct("::")), "::");
    assert_eq!(
        terminal_input_string(&Terminal::CharClass("ICONST")),
        "__CC_ICONST"
    );
    assert_eq!(
        terminal_input_string(&Terminal::Keyword("SELECT".to_string())),
        "SELECT"
    );
}

#[test]
fn names_are_ordered_by_their_characters() {
    assert!(is_before("a", "b"));
    assert!(is_before("a", "ab"));
    assert!(!is_before("b", "ab"));
    assert!(!is_before("a", "a"));
    assert!(is_before("Z", "a"));
}

#[test]
fn splits_simple_statements() {
    let stmts = split_statements("CREATE TABLE t (id INT); CREATE INDEX i ON t(id);").unwrap();
    assert_eq!(stmts.len(), 2);
    assert!(stmts[0].raw.starts_with("CREATE TABLE"));
    assert!(stmts[1].raw.starts_with("CREATE INDEX"));
}

#[test]
fn handles_quoted_semicolons() {
    let stmts = split_statements("INSERT INTO t VALUES ('a;b'); SELECT 1;").unwrap();
    assert_eq!(stmts.len(), 2);
    assert!(stmts[0].raw.contains("'a;b'"));
}

#[test]
fn verdicts_are_classified() {
    assert_eq!(classify(Some(true), true), Category::Agreement);
    assert_eq!(classify(Some(false), false), Category::Agreement);
    assert_eq!(classify(Some(true), false), Category::LintTooStrict);
    assert_eq!(classify(Some(false), true), Category::LintTooLenient);
    assert_eq!(classify(None, true), Category::ParseError);
    assert_eq!(classify(None, false), Category::ParseError);
}

#[test]
fn bumping_counts_in_both_places() {
    let mut summary = FileSummary {
        statements: 5,
        agreement: 0,
        lint_too_lenient: 0,
        lint_too_strict: 0,
        parse_error: 0,
    };
    let mut totals = Totals::new();
    bump(Category::LintTooStrict, &mut summary, &mut totals);
    bump(Category::ParseError, &mut summary, &mut totals);
    bump(Category::ParseError, &mut summary, &mut totals);
    assert_eq!(summary.statements, 5);
    assert_eq!((summary.lint_too_strict, summary.parse_error), (1, 2));
    assert_eq!((totals.lint_too_strict, totals.parse_error), (1, 2));
    assert_eq!((totals.agreement, totals.lint_too_lenient), (0, 0));
}

#[test]
fn long_statements_are_previewed() {
    assert_eq!(preview("  SELECT 1 \nFROM t"), "SELECT 1");
    assert_eq!(preview(""), "");
    let exact = "x".repeat(120);
    assert_eq!(preview(&exact), exact);
    assert_eq!(
        preview(&"x".repeat(121)),
        format!("{}...", "x".repeat(117))
    );
}

#[test]
fn labels_are_read_with_their_lines() {
    let raw = "-- label: first\nSELECT 1;\n  --label:  second one \n-- label:\n-- other: x\n";
    assert_eq!(
        label_map(raw),
        vec![(1, "first".to_string()), (3, "second one".to_string())]
    );
}

#[test]
fn files_are_compared_statement_by_statement() {
    let raw = "\
-- label: tables
CREATE TABLE t (a INT);
CREATE TABLE u (a SERIAL);
SELECT 'text';
COMMIT;
";
    let mut totals = Totals::new();
    let (summary, entries) = compare_file(&small(), raw, &mut totals).unwrap();
    assert_eq!(summary.statements, 4);
    assert_eq!(summary.agreement, 3);
    assert_eq!(summary.lint_too_lenient, 1);
    assert_eq!(totals.files_processed, 1);
    assert_eq!(totals.agreement, 3);
    assert_eq!(entries.len(), 1);
    assert_eq!(entries[0].line, 4);
    assert_eq!(entries[0].label.as_deref(), Some("tables"));
    assert_eq!(
        write_file("a.sql", &summary, &entries),
        vec![
            "== a.sql ==",
            "  4 statements: 0 lint-too-strict, 1 lint-too-lenient, 0 parse-error, 3 agreement",
            "",
            "  L4 lint-too-lenient  [label: tables]",
            "       lint: passes",
            "       grammar: rejects",
            "       sql: SELECT 'text';",
            "",
        ]
    );
    assert_eq!(
        write_totals(&totals),
        "Summary: 0 lint-too-strict, 1 lint-too-lenient, 0 parse-error  (files: 1 processed, 0 read-errors, 0 tokenize-errors, 3 agreement statements)"
    );
    assert!(!totals.failed());
}

#[test]
fn a_stricter_linter_is_told_with_its_rules() {
    let file = file_of(vec![(
        "CreateStmt",
        plain(vec![vec![
            term("CREATE"),
            term("TABLE"),
            class("IDENT"),
            quoted("("),
            class("IDENT"),
            class("IDENT"),
            quoted(")"),
        ]]),
    )]);
    let g = Grammar::load_with_warnings(file, "small.json", &mut Vec::new()).unwrap();
    let mut totals = Totals::new();
    let (summary, entries) =
        compare_file(&g, "CREATE TABLE u (a SERIAL);", &mut totals).unwrap();
    assert_eq!(summary.lint_too_strict, 1);
    let lines = write_file("b.sql", &summary, &entries);
    assert_eq!(lines[3], "  L1 lint-too-strict");
    assert_eq!(lines[4], "       grammar: accepts");
    assert_eq!(lines[5], "       lint flagged:");
    assert!(lines[6].starts_with("         - SerialType: "));
    assert_eq!(lines[7], "       sql: CREATE TABLE u (a SERIAL);");
}

#[test]
fn broken_files_fail_the_comparison() {
    let mut totals = Totals::new();
    assert!(compare_file(&small(), "SELECT 'open", &mut totals).is_err());
    assert_eq!(totals.file_tokenize_errors, 1);
    assert_eq!(totals.files_processed, 1);
    assert!(totals.failed());
    let mut unread = Totals::new();
    unread.note_read_error();
    assert_eq!(unread.file_read_errors, 1);
    assert!(unread.failed());
}
