use dsql_lint::grammar::model::{GrammarFile, GrammarToken, Production, TokenType};
use dsql_lint::grammar::recognizer::GrammarRecognizer;
use dsql_lint::grammar::split_statements;
use dsql_lint::grammar::tokenize::{map_token, Terminal};
use dsql_lint::{lint_sql, LintRule};
use indexmap::IndexMap;
use sqlparser::dialect::PostgreSqlDialect;
use sqlparser::tokenizer::Tokenizer;

fn first_real_terminal(sql: &str) -> Terminal {
    let dialect = PostgreSqlDialect {};
    let tokens = Tokenizer::new(&dialect, sql).tokenize().unwrap();
    for tok in tokens {
        let term = map_token(&serde_json::to_value(&tok).unwrap());
        if !matches!(term, Terminal::Skip) {
            return term;
        }
    }
    panic!("no non-skip terminal in {:?}", sql);
}

#[test]
fn keyword_uppercased() {
    assert_eq!(
        first_real_terminal("create"),
        Terminal::Keyword("CREATE".into())
    );
    assert_eq!(
        first_real_terminal("Create"),
        Terminal::Keyword("CREATE".into())
    );
}

#[test]
fn quoted_identifier_is_ident_not_keyword() {
    assert_eq!(
        first_real_terminal("\"create\""),
        Terminal::CharClass("IDENT")
    );
}

#[test]
fn unquoted_identifier_is_ident() {
    assert_eq!(first_real_terminal("foo"), Terminal::CharClass("IDENT"));
}

#[test]
fn integer_is_iconst() {
    assert_eq!(first_real_terminal("42"), Terminal::CharClass("ICONST"));
}

#[test]
fn float_is_fconst() {
    assert_eq!(first_real_terminal("3.14"), Terminal::CharClass("FCONST"));
    assert_eq!(first_real_terminal("1e10"), Terminal::CharClass("FCONST"));
}

#[test]
fn string_is_sconst() {
    assert_eq!(first_real_terminal("'hi'"), Terminal::CharClass("SCONST"));
}

#[test]
fn punctuation_passes_through() {
    assert_eq!(first_real_terminal(","), Terminal::Punct(","));
    assert_eq!(first_real_terminal("::"), Terminal::Punct("::"));
    assert_eq!(first_real_terminal(">="), Terminal::Punct(">="));
}

fn term(text: &str) -> GrammarToken {
    GrammarToken {
        text: text.to_string(),
        token_type: TokenType::Terminal,
    }
}
fn nt(text: &str) -> GrammarToken {
    GrammarToken {
        text: text.to_string(),
        token_type: TokenType::NonTerminal,
    }
}
fn quoted(text: &str) -> GrammarToken {
    GrammarToken {
        text: text.to_string(),
        token_type: TokenType::Quoted,
    }
}

fn build(rules: Vec<(&str, Production)>, root: &str) -> GrammarRecognizer {
    let mut map: IndexMap<String, Production> = IndexMap::new();
    for (n, p) in rules {
        map.insert(n.to_string(), p);
    }
    GrammarRecognizer::build(
        &GrammarFile {
            rules: map,
            root: root.to_string(),
        },
        root,
    )
    .unwrap()
}

#[test]
fn build_fails_when_root_is_undefined() {
    let mut map: IndexMap<String, Production> = IndexMap::new();
    map.insert(
        "Defined".to_string(),
        Production {
            choices: vec![vec![term("x")]],
            optional: false,
            repetition: None,
        },
    );
    let file = GrammarFile {
        rules: map,
        root: "Missing".to_string(),
    };
    let err = GrammarRecognizer::build(&file, "Missing")
        .err()
        .expect("build should fail for undefined root");
    assert!(err.contains("'Missing'"), "unexpected error: {err}");
}

#[test]
fn build_fails_when_separator_collides_with_rule_name() {
    let mut map: IndexMap<String, Production> = IndexMap::new();
    map.insert(
        "AND".to_string(),
        Production {
            choices: vec![vec![term("y")]],
            optional: false,
            repetition: None,
        },
    );
    map.insert(
        "List".to_string(),
        Production {
            choices: vec![vec![term("x")]],
            optional: false,
            repetition: Some("AND".to_string()),
        },
    );
    let file = GrammarFile {
        rules: map,
        root: "List".to_string(),
    };
    let err = GrammarRecognizer::build(&file, "List")
        .err()
        .expect("build should fail when separator collides with rule name");
    assert!(err.contains("'AND'"), "unexpected error: {err}");
}

fn toks(ts: &[&str]) -> Vec<String> {
    ts.iter().map(|s| s.to_string()).collect()
}

/// Edge case 1: indirect left recursion.
/// A -> B x ; B -> A y | z.   Strings of form: z x (y x)*.
#[test]
fn edge_indirect_left_recursion() {
    let r = build(
        vec![
            (
                "A",
                Production {
                    choices: vec![vec![nt("B"), term("x")]],
                    optional: false,
                    repetition: None,
                },
            ),
            (
                "B",
                Production {
                    choices: vec![vec![nt("A"), term("y")], vec![term("z")]],
                    optional: false,
                    repetition: None,
                },
            ),
        ],
        "A",
    );

    assert!(r.accepts(&toks(&["z", "x"])));
    assert!(r.accepts(&toks(&["z", "x", "y", "x"])));
    assert!(r.accepts(&toks(&["z", "x", "y", "x", "y", "x"])));
    assert!(!r.accepts(&toks(&["z"])));
    assert!(!r.accepts(&toks(&["x"])));
    assert!(!r.accepts(&toks(&["z", "x", "y"])));
}

/// Edge case 2: empty production. A -> ε.
#[test]
fn edge_empty_production() {
    let r = build(
        vec![(
            "A",
            Production {
                choices: vec![vec![]],
                optional: false,
                repetition: None,
            },
        )],
        "A",
    );
    assert!(r.accepts(&toks(&[])));
    // (A non-empty input fails because there's no rule that consumes a
    // token. We don't bother to register a stray terminal here; the
    // empty-input case is the load-bearing one.)
}

/// Edge case 3: comma-separated repetition.
/// List -> x { , x }. Implemented via the repetition desugaring.
#[test]
fn edge_comma_repetition() {
    let r = build(
        vec![(
            "List",
            Production {
                choices: vec![vec![term("x")]],
                optional: false,
                repetition: Some(",".to_string()),
            },
        )],
        "List",
    );
    assert!(r.accepts(&toks(&["x"])));
    assert!(r.accepts(&toks(&["x", ",", "x"])));
    assert!(r.accepts(&toks(&["x", ",", "x", ",", "x"])));
    assert!(!r.accepts(&toks(&[","])));
    assert!(!r.accepts(&toks(&["x", ","])));
    assert!(!r.accepts(&toks(&[",", "x"])));
}

/// Sanity: small SQL-shaped grammar mixing Quoted punctuation, terminals,
/// and a comma-separated list.
#[test]
fn small_sql_shape() {
    let r = build(
        vec![
            (
                "Stmt",
                Production {
                    choices: vec![vec![
                        term("CREATE"),
                        term("TABLE"),
                        nt("Name"),
                        quoted("("),
                        nt("Cols"),
                        quoted(")"),
                    ]],
                    optional: false,
                    repetition: None,
                },
            ),
            (
                "Name",
                Production {
                    choices: vec![vec![term("IDENT")]],
                    optional: false,
                    repetition: None,
                },
            ),
            (
                "Cols",
                Production {
                    choices: vec![vec![nt("Col")]],
                    optional: false,
                    repetition: Some(",".to_string()),
                },
            ),
            (
                "Col",
                Production {
                    choices: vec![
                        vec![nt("Name"), term("INT")],
                        vec![nt("Name"), term("TEXT")],
                    ],
                    optional: false,
                    repetition: None,
                },
            ),
        ],
        "Stmt",
    );

    assert!(r.accepts(&toks(&[
        "CREATE", "TABLE", "IDENT", "(", "IDENT", "INT", ")"
    ])));
    assert!(r.accepts(&toks(&[
        "CREATE", "TABLE", "IDENT", "(", "IDENT", "INT", ",", "IDENT", "TEXT", ")"
    ])));
    assert!(!r.accepts(&toks(&[
        "CRATE", "TABLE", "IDENT", "(", "IDENT", "INT", ")"
    ])));
    assert!(!r.accepts(&toks(&["CREATE", "TABLE", "IDENT", "(", "IDENT", ",", ")"])));
}

#[test]
fn splitter_handles_simple_statements() {
    let sql = "\
CREATE TABLE t (id INT);

ALTER TABLE t ADD COLUMN x TEXT;
SELECT * FROM t WHERE id = 1;
";
    let split = split_statements(sql).expect("split ok");
    assert_eq!(
        split.len(),
        3,
        "expected 3 statements, got {}: {split:?}",
        split.len()
    );
    assert!(split[0].raw.trim().starts_with("CREATE TABLE"));
    assert!(split[1].raw.trim().starts_with("ALTER TABLE"));
    assert!(split[2].raw.trim().starts_with("SELECT"));

    assert_eq!(split[0].line, 1);
    assert_eq!(split[1].line, 3);
    assert_eq!(split[2].line, 4);
}

/// Naive split-on-`;` would mis-split function bodies. The tokenizer puts
/// the body in a single `DollarQuotedString` token, hiding its semicolons.
#[test]
fn splitter_does_not_split_inside_dollar_quoted_string() {
    let sql = "\
CREATE FUNCTION f() RETURNS INT AS $$
DECLARE x INT;
BEGIN
  x := 1;
  RETURN x;
END;
$$ LANGUAGE plpgsql;

SELECT 2;
";
    let split = split_statements(sql).expect("split ok");
    assert_eq!(
        split.len(),
        2,
        "dollar-quoted body must not split; got {} statements: {split:?}",
        split.len()
    );
    assert!(split[0].raw.contains("CREATE FUNCTION"));
    assert!(split[0].raw.contains("$$ LANGUAGE plpgsql"));
    assert!(split[1].raw.trim().starts_with("SELECT 2"));
}

#[test]
fn splitter_skips_empty_segments() {
    let sql = ";; CREATE TABLE t (id INT); ;\n   ;\nSELECT 1;\n";
    let split = split_statements(sql).expect("split ok");
    let raws: Vec<String> = split.iter().map(|s| s.raw.trim().to_string()).collect();
    assert_eq!(
        raws,
        vec!["CREATE TABLE t (id INT);", "SELECT 1;"],
        "got: {raws:?}"
    );
}

/// If splitter `line`s and `lint_sql` diagnostic `line`s drift, the
/// per-statement diff is comparing different inputs. Whole-file diagnostics
/// must each map to exactly one split statement and reproduce in isolation.
#[test]
fn splitter_agrees_with_lint_sql_per_statement() {
    let sql = "\
CREATE TABLE ok (id INT);
CREATE TABLE bad (id SERIAL);
ALTER TABLE ok ADD COLUMN x TEXT NOT NULL;
SELECT 1;
";
    let split = split_statements(sql).expect("split ok");
    let diags_full = lint_sql(sql);

    for d in &diags_full {
        let matching: Vec<_> = split.iter().filter(|s| s.line == d.line).collect();
        assert_eq!(
            matching.len(),
            1,
            "diagnostic at line {} did not match exactly one split statement (got {}): {d:?}",
            d.line,
            matching.len(),
        );
        // MultiDdlTransaction is intentionally cross-statement; everything
        // else must reproduce on the isolated statement.
        let single = lint_sql(&matching[0].raw);
        let cross_stmt_rule = matches!(d.rule, LintRule::MultiDdlTransaction);
        if !cross_stmt_rule {
            assert!(
                single.iter().any(|s| s.rule == d.rule),
                "rule {:?} fired on whole file at line {} but not on the isolated statement\n  full diag: {:?}\n  isolated diags: {:?}\n  raw: {:?}",
                d.rule,
                d.line,
                d,
                single,
                matching[0].raw,
            );
        }
    }
}
