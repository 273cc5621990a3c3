use dsql_lint::rules::constraint_collapse::{detect, Kind};
use serde_json::Value;
use sqlparser::dialect::PostgreSqlDialect;
use sqlparser::parser::Parser;

fn parse_ok(stmts: &[&str]) -> Vec<Value> {
    let dialect = PostgreSqlDialect {};
    stmts
        .iter()
        .filter_map(|s| Parser::parse_sql(&dialect, s).ok())
        .flatten()
        .map(|s| serde_json::to_value(&s).unwrap())
        .collect()
}

/// The covering columns of a constraint.
fn covered(constraint: &Value) -> Vec<String> {
    let fields = constraint.as_object().unwrap().values().next().unwrap();
    fields["include"]
        .as_array()
        .unwrap()
        .iter()
        .map(|i| i["value"].as_str().unwrap().to_string())
        .collect()
}

#[test]
fn detects_simple_add_after_create_table() {
    let stmts = parse_ok(&[
        "CREATE TABLE public.users (id integer NOT NULL, email text NOT NULL)",
        "ALTER TABLE ONLY public.users ADD CONSTRAINT users_pkey PRIMARY KEY (id)",
    ]);
    let idioms = detect(&stmts, Kind::PrimaryKey);
    assert_eq!(idioms.len(), 1);
    assert_eq!(idioms[0].table, (Some("public".into()), "users".into()));
    assert_eq!(idioms[0].create_table_index, 0);
    assert_eq!(idioms[0].alter_index, 1);
}

#[test]
fn alter_before_create_table_does_not_match() {
    let stmts = parse_ok(&[
        "ALTER TABLE ONLY public.users ADD CONSTRAINT pk PRIMARY KEY (id)",
        "CREATE TABLE public.users (id integer NOT NULL)",
    ]);
    assert!(detect(&stmts, Kind::PrimaryKey).is_empty());
}

#[test]
fn unrelated_table_is_not_folded() {
    let stmts = parse_ok(&[
        "CREATE TABLE public.users (id integer NOT NULL)",
        "ALTER TABLE ONLY public.orders ADD CONSTRAINT pk PRIMARY KEY (oid)",
    ]);
    assert!(detect(&stmts, Kind::PrimaryKey).is_empty());
}

#[test]
fn constraint_collapse_cross_file_alter_without_create_is_skipped() {
    let stmts = parse_ok(&["ALTER TABLE ONLY public.users ADD CONSTRAINT pk PRIMARY KEY (id)"]);
    assert!(detect(&stmts, Kind::PrimaryKey).is_empty());
}

#[test]
fn constraint_collapse_unqualified_alter_matches_qualified_create() {
    let stmts = parse_ok(&[
        "CREATE TABLE public.users (id integer NOT NULL)",
        "ALTER TABLE ONLY users ADD CONSTRAINT pk PRIMARY KEY (id)",
    ]);
    assert_eq!(detect(&stmts, Kind::PrimaryKey).len(), 1);
}

#[test]
fn constraint_collapse_case_folded_unquoted_names_match() {
    // `My_Table` (unquoted) folds to `my_table` per PG; the bare
    // `MY_TABLE` ALTER must still match.
    let stmts = parse_ok(&[
        "CREATE TABLE My_Table (id integer NOT NULL)",
        "ALTER TABLE ONLY MY_TABLE ADD CONSTRAINT pk PRIMARY KEY (id)",
    ]);
    assert_eq!(detect(&stmts, Kind::PrimaryKey).len(), 1);
}

#[test]
fn constraint_collapse_quoted_mixed_case_names_must_match_exactly() {
    // Quoted identifiers preserve case; "My_Table" (quoted) does
    // NOT equal `my_table` (unquoted, folds to `my_table`).
    let stmts = parse_ok(&[
        "CREATE TABLE \"My_Table\" (id integer NOT NULL)",
        "ALTER TABLE ONLY \"my_table\" ADD CONSTRAINT pk PRIMARY KEY (id)",
    ]);
    assert!(detect(&stmts, Kind::PrimaryKey).is_empty());
}

#[test]
fn constraint_collapse_multi_op_alter_is_left_alone() {
    let stmts = parse_ok(&[
        "CREATE TABLE public.t (a integer, b integer)",
        "ALTER TABLE ONLY public.t \
            ADD CONSTRAINT pk PRIMARY KEY (a), \
            ADD CONSTRAINT u UNIQUE (b)",
    ]);
    assert!(detect(&stmts, Kind::PrimaryKey).is_empty());
}

#[test]
fn constraint_collapse_exact_schema_match_preferred_over_wildcard() {
    // Qualified ALTER must correlate with qualified CREATE — not a
    // wildcard hit on the unqualified one that appeared first.
    let stmts = parse_ok(&[
        "CREATE TABLE t (id integer)",
        "CREATE TABLE public.t (id integer)",
        "ALTER TABLE ONLY public.t ADD CONSTRAINT pk PRIMARY KEY (id)",
    ]);
    let idioms = detect(&stmts, Kind::PrimaryKey);
    assert_eq!(idioms.len(), 1);
    assert_eq!(idioms[0].create_table_index, 1);
    assert_eq!(idioms[0].table, (Some("public".into()), "t".into()));
}

/// PK INCLUDE round-trips. Pinned because dropping INCLUDE silently
/// changes the declared schema (covering columns lost) yet produces
/// still-valid SQL the cluster would accept.
#[test]
fn pk_include_columns_round_trip() {
    let stmts = parse_ok(&[
        "CREATE TABLE t (id integer NOT NULL, payload text)",
        "ALTER TABLE ONLY t ADD CONSTRAINT t_pk PRIMARY KEY (id) INCLUDE (payload)",
    ]);
    let idioms = detect(&stmts, Kind::PrimaryKey);
    assert_eq!(idioms.len(), 1);
    let columns: Vec<String> = covered(&idioms[0].constraint);
    assert_eq!(columns, vec!["payload".to_string()]);
}

/// UNIQUE INCLUDE round-trips. Cheap insurance against the upstream
/// `PrimaryKeyConstraint` and `UniqueConstraint` AST types diverging
/// — they share an `include` field today but separate test pins it.
#[test]
fn unique_include_columns_round_trip() {
    let stmts = parse_ok(&[
        "CREATE TABLE t (id integer, email text NOT NULL, payload text)",
        "ALTER TABLE ONLY t ADD CONSTRAINT t_uk UNIQUE (email) INCLUDE (payload)",
    ]);
    let idioms = detect(&stmts, Kind::Unique);
    assert_eq!(idioms.len(), 1);
    let columns: Vec<String> = covered(&idioms[0].constraint);
    assert_eq!(columns, vec!["payload".to_string()]);
}

#[test]
fn detects_simple_add_primary_key_after_create_table() {
    let stmts = parse_ok(&[
        "CREATE TABLE public.users (id integer NOT NULL, email text NOT NULL)",
        "ALTER TABLE ONLY public.users ADD CONSTRAINT users_pkey PRIMARY KEY (id)",
    ]);
    let idioms = detect(&stmts, Kind::PrimaryKey);
    assert_eq!(idioms.len(), 1, "got: {idioms:?}");
    assert_eq!(idioms[0].table, (Some("public".into()), "users".into()));
    assert_eq!(idioms[0].create_table_index, 0);
    assert_eq!(idioms[0].alter_index, 1);
}

#[test]
fn alter_before_create_table_is_not_a_match() {
    // ALTER comes BEFORE the CREATE TABLE — leave for the per-
    // statement rule to flag rather than fold (the resulting CREATE
    // TABLE would carry the constraint but the input was malformed).
    let stmts = parse_ok(&[
        "ALTER TABLE ONLY public.users ADD CONSTRAINT pk PRIMARY KEY (id)",
        "CREATE TABLE public.users (id integer NOT NULL, email text NOT NULL)",
    ]);
    let idioms = detect(&stmts, Kind::PrimaryKey);
    assert!(
        idioms.is_empty(),
        "expected no folds when ALTER precedes CREATE: {idioms:?}"
    );
}

#[test]
fn unrelated_table_is_not_folded_into_wrong_create() {
    // ALTER on `orders` must NOT fold into `CREATE TABLE users`.
    let stmts = parse_ok(&[
        "CREATE TABLE public.users (id integer NOT NULL)",
        "ALTER TABLE ONLY public.orders ADD CONSTRAINT pk PRIMARY KEY (oid)",
    ]);
    let idioms = detect(&stmts, Kind::PrimaryKey);
    assert!(idioms.is_empty(), "got: {idioms:?}");
}

#[test]
fn pk_collapse_cross_file_alter_without_create_is_skipped() {
    // No CREATE TABLE in the input → leave for the per-statement
    // Unfixable rule.
    let stmts = parse_ok(&["ALTER TABLE ONLY public.users ADD CONSTRAINT pk PRIMARY KEY (id)"]);
    let idioms = detect(&stmts, Kind::PrimaryKey);
    assert!(idioms.is_empty());
}

#[test]
fn pk_collapse_unqualified_alter_matches_qualified_create() {
    // pg_dump reliably emits `public.t` everywhere, but we tolerate
    // mixed schema-qualification per the wildcard rule documented
    // on `refs_match`.
    let stmts = parse_ok(&[
        "CREATE TABLE public.users (id integer NOT NULL)",
        "ALTER TABLE ONLY users ADD CONSTRAINT pk PRIMARY KEY (id)",
    ]);
    let idioms = detect(&stmts, Kind::PrimaryKey);
    assert_eq!(idioms.len(), 1);
}

#[test]
fn pk_collapse_case_folded_unquoted_names_match() {
    // `My_Table` (unquoted) folds to `my_table` per PG; the ALTER's
    // bare `MY_TABLE` should still match.
    let stmts = parse_ok(&[
        "CREATE TABLE My_Table (id integer NOT NULL)",
        "ALTER TABLE ONLY MY_TABLE ADD CONSTRAINT pk PRIMARY KEY (id)",
    ]);
    let idioms = detect(&stmts, Kind::PrimaryKey);
    assert_eq!(idioms.len(), 1);
}

#[test]
fn pk_collapse_quoted_mixed_case_names_must_match_exactly() {
    // Quoted identifiers preserve case; "My_Table" (quoted) does
    // NOT equal `My_Table` (unquoted, folds to `my_table`).
    let stmts = parse_ok(&[
        "CREATE TABLE \"My_Table\" (id integer NOT NULL)",
        "ALTER TABLE ONLY \"my_table\" ADD CONSTRAINT pk PRIMARY KEY (id)",
    ]);
    let idioms = detect(&stmts, Kind::PrimaryKey);
    assert!(
        idioms.is_empty(),
        "case-sensitive mismatch on quoted name should NOT fold: {idioms:?}"
    );
}

#[test]
fn pk_collapse_multi_op_alter_is_left_alone() {
    // Multi-op ALTER (uncommon but legal): leave to per-statement
    // rule so the user gets a clear Unfixable rather than a partial
    // fold.
    let stmts = parse_ok(&[
        "CREATE TABLE public.t (a integer, b integer)",
        "ALTER TABLE ONLY public.t \
            ADD CONSTRAINT pk PRIMARY KEY (a), \
            ADD CONSTRAINT u UNIQUE (b)",
    ]);
    let idioms = detect(&stmts, Kind::PrimaryKey);
    assert!(
        idioms.is_empty(),
        "multi-op ALTER must not fold: {idioms:?}"
    );
}

#[test]
fn pk_collapse_exact_schema_match_preferred_over_wildcard() {
    // When both an unqualified `t` and a schema-qualified `public.t`
    // exist, a qualified ALTER must correlate with the qualified CREATE
    // — not the wildcard match that happens to appear earlier in
    // source order.
    let stmts = parse_ok(&[
        "CREATE TABLE t (id integer)",
        "CREATE TABLE public.t (id integer)",
        "ALTER TABLE ONLY public.t ADD CONSTRAINT pk PRIMARY KEY (id)",
    ]);
    let idioms = detect(&stmts, Kind::PrimaryKey);
    assert_eq!(idioms.len(), 1, "expected 1 idiom: {idioms:?}");
    // create_table_index 1 is `public.t`, NOT 0 (the unqualified `t`).
    assert_eq!(idioms[0].create_table_index, 1);
    assert_eq!(idioms[0].table, (Some("public".into()), "t".into()));
}

#[test]
fn include_columns_round_trip() {
    // pg_dump can emit `INCLUDE (col)` covering columns on a PK constraint.
    // The fold must carry the INCLUDE through verbatim — DSQL accepts the
    // inline form, and dropping the clause would silently change the
    // declared schema.
    let stmts = parse_ok(&[
        "CREATE TABLE t (id integer NOT NULL, payload text)",
        "ALTER TABLE ONLY t ADD CONSTRAINT t_pk PRIMARY KEY (id) INCLUDE (payload)",
    ]);
    let idioms = detect(&stmts, Kind::PrimaryKey);
    assert_eq!(idioms.len(), 1, "got: {idioms:?}");
    let columns: Vec<String> = covered(&idioms[0].constraint);
    assert_eq!(columns, vec!["payload".to_string()]);
}
