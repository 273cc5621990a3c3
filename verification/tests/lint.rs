use dsql_lint::split::split_statements;
use dsql_lint::{fix_sql, lint_sql, FixResult, LintRule};

#[test]
fn test_valid_create_table_no_errors() {
    let sql = "CREATE TABLE orders (id UUID PRIMARY KEY, amount DECIMAL(10,2));";
    let diags = lint_sql(sql);
    assert!(diags.is_empty(), "Expected no errors, got: {:?}", diags);
}

#[test]
fn test_parse_error_returns_diagnostic() {
    let sql = "NOT VALID SQL AT ALL ???";
    let diags = lint_sql(sql);
    assert!(!diags.is_empty());
    assert!(diags[0].message.contains("Failed to parse SQL"));
}

#[test]
fn test_supported_alter_constraint_bypasses_parser_gap() {
    let supported = [
        "ALTER TABLE child ALTER CONSTRAINT child_parent_fkey DEFERRABLE;",
        "ALTER TABLE child ALTER CONSTRAINT child_parent_fkey NOT DEFERRABLE;",
        "ALTER TABLE child ALTER CONSTRAINT child_parent_fkey DEFERRABLE INITIALLY DEFERRED;",
        "ALTER TABLE ONLY public.child ALTER CONSTRAINT child_parent_fkey DEFERRABLE INITIALLY IMMEDIATE;",
        "ALTER TABLE IF EXISTS ONLY public.child * ALTER CONSTRAINT child_parent_fkey INITIALLY DEFERRED;",
        "ALTER TABLE child ALTER CONSTRAINT child_parent_fkey NOT DEFERRABLE INITIALLY IMMEDIATE;",
    ];

    for sql in supported {
        assert!(lint_sql(sql).is_empty(), "expected supported SQL: {sql}");
        let fixed = fix_sql(sql);
        assert!(
            fixed.diagnostics.is_empty(),
            "expected no fix diagnostics for: {sql}"
        );
        assert_eq!(fixed.sql, format!("{sql}\n"));
    }
}

#[test]
fn test_invalid_alter_constraint_still_reports_parse_error() {
    let sql = "ALTER TABLE child ALTER CONSTRAINT child_parent_fkey SOMETIMES DEFERRED;";
    let diags = lint_sql(sql);
    assert!(
        diags
            .iter()
            .any(|diag| matches!(diag.rule, LintRule::ParseError)),
        "invalid deferrability combination must not bypass parsing: {diags:?}"
    );
}

#[test]
fn test_fk_set_action_column_lists_bypass_parser_gap() {
    let supported = [
        "CREATE TABLE parent (a INT, b INT, PRIMARY KEY (a, b)); CREATE TABLE child (a INT, b INT, FOREIGN KEY (a, b) REFERENCES parent (a, b) ON DELETE SET NULL (b));",
        "CREATE TABLE parent (a INT, b INT, PRIMARY KEY (a, b)); CREATE TABLE child (a INT DEFAULT 1, b INT DEFAULT 2, FOREIGN KEY (a, b) REFERENCES parent (a, b) ON DELETE SET DEFAULT (b));",
    ];

    for sql in supported {
        assert!(
            !lint_sql(sql)
                .iter()
                .any(|diag| matches!(diag.rule, LintRule::ParseError)),
            "expected supported SQL: {sql}"
        );
    }
}

#[test]
fn test_fk_set_action_column_list_preserved_when_adding_not_valid() {
    let sql = "ALTER TABLE child ADD CONSTRAINT child_parent_fk FOREIGN KEY (a, b) REFERENCES parent (a, b) ON DELETE SET NULL (b);";
    let fixed = fix_sql(sql);
    assert!(fixed.sql.contains("ON DELETE SET NULL (b)"));
    assert!(fixed.sql.contains("NOT VALID"));
    assert!(!fixed
        .diagnostics
        .iter()
        .any(|diag| matches!(diag.rule, LintRule::ParseError)));
}

#[test]
fn test_fk_set_action_column_list_preserved_with_other_alter_operations() {
    let sql = "ALTER TABLE child ADD CONSTRAINT child_parent_fk FOREIGN KEY (a, b) REFERENCES parent (a, b) ON DELETE SET DEFAULT (b), ADD COLUMN note TEXT;";
    let fixed = fix_sql(sql);
    assert!(
        fixed
            .sql
            .contains("ON DELETE SET DEFAULT (b) NOT VALID, ADD COLUMN note TEXT"),
        "unexpected fixed SQL: {}",
        fixed.sql
    );
    assert!(
        lint_sql(&fixed.sql).is_empty(),
        "{:?}",
        lint_sql(&fixed.sql)
    );
}

#[test]
fn test_fk_set_action_column_list_does_not_block_other_fixes() {
    let sql = "CREATE TABLE child (id SERIAL PRIMARY KEY, a INT, b INT, FOREIGN KEY (a, b) REFERENCES parent (a, b) ON DELETE SET NULL (b));";
    let fixed = fix_sql(sql);
    assert!(fixed.sql.contains("GENERATED BY DEFAULT AS IDENTITY"));
    assert!(!fixed.sql.to_uppercase().contains("SERIAL"));
    assert!(fixed.sql.contains("ON DELETE SET NULL (b)"));
}

#[test]
fn test_fk_set_action_column_list_restores_matching_occurrence() {
    let sql = "CREATE TABLE child (id SERIAL PRIMARY KEY, a INT, b INT, c INT, FOREIGN KEY (a, b) REFERENCES first_parent (a, b) ON DELETE SET NULL, FOREIGN KEY (a, c) REFERENCES second_parent (a, c) ON DELETE SET NULL (c));";
    let fixed = fix_sql(sql);
    let first_reference = fixed.sql.find("REFERENCES first_parent").unwrap();
    let second_reference = fixed.sql.find("REFERENCES second_parent").unwrap();
    let restored_list = fixed.sql.find("ON DELETE SET NULL (c)").unwrap();

    assert!(first_reference < second_reference);
    assert!(
        restored_list > second_reference,
        "column list restored to the wrong foreign key: {}",
        fixed.sql
    );
    assert_eq!(fixed.sql.matches("ON DELETE SET NULL (c)").count(), 1);
    assert!(
        lint_sql(&fixed.sql).is_empty(),
        "{:?}",
        lint_sql(&fixed.sql)
    );
}

#[test]
fn test_fk_set_action_column_list_ignores_matching_string_literal() {
    let sql = "CREATE TABLE child (id SERIAL PRIMARY KEY, note TEXT DEFAULT 'ON DELETE SET NULL', a INT, b INT, FOREIGN KEY (a, b) REFERENCES parent (a, b) ON DELETE SET NULL (b));";
    let fixed = fix_sql(sql);
    let reference = fixed.sql.find("REFERENCES parent").unwrap();
    let restored_list = fixed.sql.rfind("ON DELETE SET NULL (b)").unwrap();

    assert!(fixed.sql.contains("DEFAULT 'ON DELETE SET NULL'"));
    assert!(
        restored_list > reference,
        "column list restored inside the string literal: {}",
        fixed.sql
    );
    assert!(
        lint_sql(&fixed.sql).is_empty(),
        "{:?}",
        lint_sql(&fixed.sql)
    );
}

#[test]
fn test_supported_set_constraints_bypasses_parser_gap() {
    let supported = [
        "SET CONSTRAINTS ALL DEFERRED;",
        "SET CONSTRAINTS fk_ref IMMEDIATE;",
        "SET CONSTRAINTS public.fk_ref, \"MixedCase\" DEFERRED;",
    ];

    for sql in supported {
        assert!(lint_sql(sql).is_empty(), "expected supported SQL: {sql}");
        let fixed = fix_sql(sql);
        assert!(
            fixed.diagnostics.is_empty(),
            "expected no fix diagnostics for: {sql}"
        );
        assert_eq!(fixed.sql, format!("{sql}\n"));
    }
}

#[test]
fn test_invalid_set_constraints_still_reports_parse_error() {
    let sql = "SET CONSTRAINTS ALL EVENTUALLY;";
    let diags = lint_sql(sql);
    assert!(
        diags
            .iter()
            .any(|diag| matches!(diag.rule, LintRule::ParseError)),
        "invalid constraint mode must not bypass parsing: {diags:?}"
    );
}

#[test]
fn test_pgdump_create_sequence_parses() {
    // pg_dump emits CREATE SEQUENCE option clauses in an order the parser
    // must accept regardless of permutation; this pins that contract.
    let sql = "CREATE SEQUENCE public.t_id_seq AS integer \
               START WITH 1 INCREMENT BY 1 NO MINVALUE NO MAXVALUE CACHE 1;";
    let diags = lint_sql(sql);
    assert!(
        !diags.iter().any(|d| matches!(d.rule, LintRule::ParseError)),
        "pg_dump CREATE SEQUENCE must parse without errors, got: {diags:?}"
    );
}

#[test]
fn test_split_preserves_newlines() {
    let sql = "CREATE TABLE t (\n    id INT\n);\nSELECT 1;";
    let stmts = split_statements(sql).unwrap();
    assert_eq!(stmts.len(), 2);
    assert!(
        stmts[0].1.contains('\n'),
        "Statement text should preserve newlines"
    );
}

#[test]
fn test_lint_without_trailing_semicolon() {
    let sql = "CREATE TABLE t (id SERIAL PRIMARY KEY)";
    let diags = lint_sql(sql);
    assert!(
        diags.iter().any(|d| d.message.contains("SERIAL")),
        "Should catch errors in SQL without trailing semicolon: {diags:?}"
    );
}

#[test]
fn test_fix_sql_clean_statement_verbatim() {
    let sql = "CREATE TABLE orders (id UUID PRIMARY KEY, amount DECIMAL(10,2));";
    let result = fix_sql(sql);
    assert!(result.diagnostics.is_empty());
    assert_eq!(
        result.sql.trim(),
        sql.trim_end_matches(';').trim().to_owned() + ";"
    );
}

/// pg_dump's full 4-statement SERIAL expansion must collapse into a single
/// CREATE TABLE with an inline identity column. The CREATE SEQUENCE,
/// ALTER SEQUENCE OWNED BY, and ALTER COLUMN SET DEFAULT statements must
/// all disappear; non-SERIAL columns and their NOT NULL stay; no
/// ParseError is emitted (the OWNED BY line is removed before parsing it
/// would matter); exactly one SerialSequenceIdiom diagnostic surfaces.
#[test]
fn test_fix_sql_collapses_pgdump_serial_idiom() {
    let sql = "\
CREATE TABLE public.t (id integer NOT NULL, x text NOT NULL);
CREATE SEQUENCE public.t_id_seq AS integer START WITH 1 INCREMENT BY 1 NO MINVALUE NO MAXVALUE CACHE 1;
ALTER SEQUENCE public.t_id_seq OWNED BY public.t.id;
ALTER TABLE ONLY public.t ALTER COLUMN id SET DEFAULT nextval('public.t_id_seq'::regclass);
";
    let result = fix_sql(sql);
    let out = &result.sql;

    let upper = out.to_uppercase();
    assert!(
        upper.contains("BIGINT") && upper.contains("GENERATED BY DEFAULT AS IDENTITY"),
        "expected inline identity column, got:\n{out}"
    );
    assert!(
        upper.contains("CACHE 1"),
        "expected CACHE 1 in identity options, got:\n{out}"
    );
    assert!(
        !out.to_lowercase().contains("nextval"),
        "nextval should be gone, got:\n{out}"
    );
    assert!(
        !out.to_uppercase().contains("CREATE SEQUENCE"),
        "CREATE SEQUENCE should be gone, got:\n{out}"
    );
    assert!(
        !out.to_uppercase().contains("ALTER SEQUENCE"),
        "ALTER SEQUENCE OWNED BY should be gone, got:\n{out}"
    );
    assert!(
        !out.to_uppercase().contains("SET DEFAULT"),
        "SET DEFAULT should be gone, got:\n{out}"
    );
    // Non-SERIAL column and its NOT NULL must survive.
    assert!(
        out.contains("x text") || out.to_uppercase().contains("X TEXT"),
        "non-SERIAL column `x text` should be preserved, got:\n{out}"
    );
    assert_eq!(
        out.matches("NOT NULL").count(),
        2,
        "exactly 2 NOT NULLs should be preserved (id + x), got:\n{out}"
    );

    assert!(
        !result
            .diagnostics
            .iter()
            .any(|d| matches!(d.rule, LintRule::ParseError)),
        "no ParseError should remain after collapse, got: {:?}",
        result.diagnostics
    );

    let idiom_diags: Vec<_> = result
        .diagnostics
        .iter()
        .filter(|d| matches!(d.rule, LintRule::SerialSequenceIdiom))
        .collect();
    assert_eq!(
        idiom_diags.len(),
        1,
        "expected exactly 1 SerialSequenceIdiom diagnostic, got: {:?}",
        result.diagnostics
    );
}

/// A free-standing CREATE SEQUENCE (no matching SET DEFAULT) is NOT a
/// SERIAL idiom — leaving it alone is correct, even if other rules flag
/// it for missing CACHE etc. Verifies we don't over-collapse.
#[test]
fn test_fix_sql_does_not_collapse_freestanding_sequence() {
    let sql = "\
CREATE TABLE public.t (id integer NOT NULL, x text);
CREATE SEQUENCE public.t_id_seq AS integer START WITH 1 INCREMENT BY 1 CACHE 1;
";
    let result = fix_sql(sql);
    let out = &result.sql;

    assert!(
        out.to_uppercase().contains("CREATE SEQUENCE"),
        "free-standing CREATE SEQUENCE should be kept, got:\n{out}"
    );
    assert!(
        !out.contains("GENERATED BY DEFAULT AS IDENTITY"),
        "id column must NOT become identity without a SET DEFAULT, got:\n{out}"
    );
    assert!(
        !result
            .diagnostics
            .iter()
            .any(|d| matches!(d.rule, LintRule::SerialSequenceIdiom)),
        "no SerialSequenceIdiom diagnostic should fire, got: {:?}",
        result.diagnostics
    );
}

/// Two independent SERIAL idioms in the same dump must each collapse
/// independently. After fixing, each table has its own inline identity
/// and there are exactly two SerialSequenceIdiom diagnostics.
#[test]
fn test_fix_sql_collapses_two_serial_idioms() {
    let sql = "\
CREATE TABLE public.a (id integer NOT NULL);
CREATE SEQUENCE public.a_id_seq AS integer START WITH 1 INCREMENT BY 1 CACHE 1;
ALTER SEQUENCE public.a_id_seq OWNED BY public.a.id;
ALTER TABLE ONLY public.a ALTER COLUMN id SET DEFAULT nextval('public.a_id_seq'::regclass);
CREATE TABLE public.b (id integer NOT NULL);
CREATE SEQUENCE public.b_id_seq AS integer START WITH 1 INCREMENT BY 1 CACHE 1;
ALTER SEQUENCE public.b_id_seq OWNED BY public.b.id;
ALTER TABLE ONLY public.b ALTER COLUMN id SET DEFAULT nextval('public.b_id_seq'::regclass);
";
    let result = fix_sql(sql);
    let out = &result.sql;

    let upper = out.to_uppercase();
    assert_eq!(
        upper.matches("GENERATED BY DEFAULT AS IDENTITY").count(),
        2,
        "expected 2 inline identity columns, got:\n{out}"
    );
    assert_eq!(
        upper.matches("BIGINT").count(),
        2,
        "expected 2 BIGINT columns, got:\n{out}"
    );
    assert!(
        !out.to_lowercase().contains("nextval"),
        "no nextval should remain, got:\n{out}"
    );
    assert!(
        !out.to_uppercase().contains("CREATE SEQUENCE"),
        "no CREATE SEQUENCE should remain, got:\n{out}"
    );
    assert!(
        !out.to_uppercase().contains("ALTER SEQUENCE"),
        "no ALTER SEQUENCE should remain, got:\n{out}"
    );

    let idiom_diags = result
        .diagnostics
        .iter()
        .filter(|d| matches!(d.rule, LintRule::SerialSequenceIdiom))
        .count();
    assert_eq!(idiom_diags, 2, "expected 2 SerialSequenceIdiom diagnostics");
}

/// `bigserial` expands to the same 4-statement idiom as `SERIAL`, but the
/// CREATE TABLE column is `bigint NOT NULL` instead of `integer NOT NULL`.
/// The collapse must still apply: the column becomes
/// `BIGINT GENERATED BY DEFAULT AS IDENTITY (CACHE 1)`, and the
/// CREATE SEQUENCE / OWNED BY / SET DEFAULT all disappear.
#[test]
fn test_fix_sql_collapses_bigserial_idiom() {
    let sql = "\
CREATE TABLE public.t (id bigint NOT NULL, x text);
CREATE SEQUENCE public.t_id_seq START WITH 1 INCREMENT BY 1 CACHE 1;
ALTER SEQUENCE public.t_id_seq OWNED BY public.t.id;
ALTER TABLE ONLY public.t ALTER COLUMN id SET DEFAULT nextval('public.t_id_seq'::regclass);
";
    let result = fix_sql(sql);
    let upper = result.sql.to_uppercase();
    assert!(
        upper.contains("BIGINT") && upper.contains("GENERATED BY DEFAULT AS IDENTITY"),
        "bigserial expansion should collapse to inline identity, got:\n{}",
        result.sql
    );
    assert!(!upper.contains("CREATE SEQUENCE"));
    assert!(!upper.contains("ALTER SEQUENCE"));
    assert!(!upper.contains("NEXTVAL"));
    assert_eq!(
        result
            .diagnostics
            .iter()
            .filter(|d| matches!(d.rule, LintRule::SerialSequenceIdiom))
            .count(),
        1
    );
}

/// A `SET DEFAULT nextval('external_seq')` whose CREATE SEQUENCE isn't in
/// the input must NOT be collapsed into the CREATE TABLE (no matching
/// sequence to fold), and the `nextval` default must be preserved verbatim.
#[test]
fn test_fix_sql_preserves_cross_file_sequence_default() {
    let sql = "\
CREATE TABLE public.t (id integer NOT NULL, x text);
ALTER TABLE ONLY public.t ALTER COLUMN id SET DEFAULT nextval('public.external_seq'::regclass);
";
    let result = fix_sql(sql);

    assert!(
        !result
            .diagnostics
            .iter()
            .any(|d| matches!(d.rule, LintRule::SerialSequenceIdiom)),
        "no SerialSequenceIdiom should fire without a matching CREATE SEQUENCE, got: {:?}",
        result.diagnostics
    );
    assert!(
        result.sql.to_lowercase().contains("nextval"),
        "cross-file SET DEFAULT must NOT be silently dropped, got:\n{}",
        result.sql
    );
}

/// A column already declared as `GENERATED BY DEFAULT AS IDENTITY` is not
/// part of any SERIAL idiom and must pass through unchanged. Guards against
/// the collapse pre-pass touching columns that already comply.
#[test]
fn test_fix_sql_leaves_inline_identity_alone() {
    let sql =
        "CREATE TABLE public.t (id BIGINT GENERATED BY DEFAULT AS IDENTITY (CACHE 1) NOT NULL, x text);";
    let result = fix_sql(sql);

    assert!(
        !result
            .diagnostics
            .iter()
            .any(|d| matches!(d.rule, LintRule::SerialSequenceIdiom)),
        "no SerialSequenceIdiom diagnostic for already-inline identity, got: {:?}",
        result.diagnostics
    );
    assert!(
        result.sql.contains("GENERATED BY DEFAULT AS IDENTITY"),
        "identity declaration should round-trip, got:\n{}",
        result.sql
    );
}

/// Quoted, mixed-case identifiers: pg_dump emits the SERIAL idiom verbatim
/// for tables/columns whose names aren't lowercase-folded. The collapse must
/// still match (sequence-name normalization strips quotes from the
/// `nextval` literal so it agrees with the AST-derived identifier).
#[test]
fn test_fix_sql_collapses_idiom_with_quoted_mixed_case_identifiers() {
    let sql = "\
CREATE TABLE public.\"T\" (\"Id\" integer NOT NULL, x text);
CREATE SEQUENCE public.\"T_Id_seq\" AS integer START WITH 1 INCREMENT BY 1 CACHE 1;
ALTER SEQUENCE public.\"T_Id_seq\" OWNED BY public.\"T\".\"Id\";
ALTER TABLE ONLY public.\"T\" ALTER COLUMN \"Id\" SET DEFAULT nextval('public.\"T_Id_seq\"'::regclass);
";
    let result = fix_sql(sql);
    let upper = result.sql.to_uppercase();
    assert!(
        upper.contains("BIGINT") && upper.contains("GENERATED BY DEFAULT AS IDENTITY"),
        "quoted mixed-case idiom must collapse to inline identity, got:\n{}",
        result.sql
    );
    assert!(
        !upper.contains("CREATE SEQUENCE"),
        "CREATE SEQUENCE for quoted name should be gone, got:\n{}",
        result.sql
    );
    assert!(
        !upper.contains("ALTER SEQUENCE"),
        "ALTER SEQUENCE OWNED BY for quoted name should be gone, got:\n{}",
        result.sql
    );
    assert!(
        !result.sql.to_lowercase().contains("nextval"),
        "nextval should be gone, got:\n{}",
        result.sql
    );
    assert_eq!(
        result
            .diagnostics
            .iter()
            .filter(|d| matches!(d.rule, LintRule::SerialSequenceIdiom))
            .count(),
        1
    );
}

/// Multi-op ALTER TABLE bundling SET DEFAULT with sibling operations (here:
/// ADD CONSTRAINT … PRIMARY KEY) must NOT be collapsed into the SERIAL
/// idiom, and the unrelated PRIMARY KEY must survive untouched.
#[test]
fn test_fix_sql_serial_idiom_preserves_unrelated_alter_ops() {
    let sql = "\
CREATE TABLE public.t (id integer NOT NULL, x text);
CREATE SEQUENCE public.t_id_seq CACHE 1;
ALTER TABLE ONLY public.t \
ALTER COLUMN id SET DEFAULT nextval('public.t_id_seq'::regclass), \
ADD CONSTRAINT t_pkey PRIMARY KEY (id);
";
    let result = fix_sql(sql);

    assert!(
        !result
            .diagnostics
            .iter()
            .any(|d| matches!(d.rule, LintRule::SerialSequenceIdiom)),
        "no SerialSequenceIdiom should fire when SET DEFAULT shares an ALTER \
         TABLE with other operations, got: {:?}",
        result.diagnostics
    );
    assert!(
        result.sql.to_uppercase().contains("PRIMARY KEY"),
        "the unrelated ADD CONSTRAINT t_pkey PRIMARY KEY must survive, got:\n{}",
        result.sql
    );
}

/// A column already declared `GENERATED ALWAYS AS IDENTITY` plus an erroneous
/// pg_dump-shaped SET DEFAULT trio: collapse must NOT produce a CREATE TABLE
/// with two `GENERATED ... AS IDENTITY` clauses (which is invalid SQL). The
/// existing identity option is replaced by the canonical
/// `GENERATED BY DEFAULT AS IDENTITY (CACHE 1)` shape.
#[test]
fn test_fix_sql_serial_idiom_does_not_double_identity() {
    let sql = "\
CREATE TABLE public.t (id BIGINT GENERATED ALWAYS AS IDENTITY (CACHE 1) NOT NULL, x text);
CREATE SEQUENCE public.t_id_seq CACHE 1;
ALTER SEQUENCE public.t_id_seq OWNED BY public.t.id;
ALTER TABLE ONLY public.t ALTER COLUMN id SET DEFAULT nextval('public.t_id_seq'::regclass);
";
    let result = fix_sql(sql);
    let upper = result.sql.to_uppercase();
    assert_eq!(
        upper.matches("GENERATED").count(),
        1,
        "exactly one identity clause must remain, got:\n{}",
        result.sql
    );
    assert!(
        upper.contains("GENERATED BY DEFAULT AS IDENTITY"),
        "the surviving identity must be the canonical BY DEFAULT shape, got:\n{}",
        result.sql
    );
}

/// Inline-`PRIMARY KEY` column option must survive the SERIAL→identity
/// rewrite (only DEFAULT and existing identity options are dropped).
#[test]
fn test_fix_sql_serial_idiom_preserves_primary_key_option() {
    let sql = "\
CREATE TABLE public.t (id integer NOT NULL PRIMARY KEY, x text);
CREATE SEQUENCE public.t_id_seq CACHE 1;
ALTER SEQUENCE public.t_id_seq OWNED BY public.t.id;
ALTER TABLE ONLY public.t ALTER COLUMN id SET DEFAULT nextval('public.t_id_seq'::regclass);
";
    let result = fix_sql(sql);
    let upper = result.sql.to_uppercase();
    assert!(
        upper.contains("PRIMARY KEY"),
        "PRIMARY KEY column option must survive, got:\n{}",
        result.sql
    );
    assert!(
        upper.contains("GENERATED BY DEFAULT AS IDENTITY"),
        "the column must still become an identity, got:\n{}",
        result.sql
    );
}

/// The `FixedWithWarning` warning text is the entire reason this rule
/// emits a warning instead of a plain `Fixed` — it tells the user the
/// identity counter was NOT advanced past existing data, so backfill needs
/// a manual reset.
#[test]
fn test_fix_sql_serial_idiom_warning_mentions_counter_reset() {
    let sql = "\
CREATE TABLE public.t (id integer NOT NULL);
CREATE SEQUENCE public.t_id_seq CACHE 1;
ALTER SEQUENCE public.t_id_seq OWNED BY public.t.id;
ALTER TABLE ONLY public.t ALTER COLUMN id SET DEFAULT nextval('public.t_id_seq'::regclass);
";
    let result = fix_sql(sql);
    let warning = result
        .diagnostics
        .iter()
        .find_map(|d| match (&d.rule, &d.fix_result) {
            (LintRule::SerialSequenceIdiom, FixResult::FixedWithWarning(s)) => Some(s.clone()),
            _ => None,
        })
        .expect("expected a SerialSequenceIdiom FixedWithWarning diagnostic");
    let lower = warning.to_lowercase();
    assert!(
        lower.contains("counter") && lower.contains("reset"),
        "warning must tell the user to reset the identity counter, got: {warning}"
    );
}
