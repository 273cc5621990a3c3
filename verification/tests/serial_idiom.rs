use dsql_lint::rules::serial_idiom::detect_serial_idioms;
use serde_json::Value;
use sqlparser::dialect::PostgreSqlDialect;
use sqlparser::parser::Parser;

/// Each statement by itself; one that does not parse is passed over.
fn parse_ok(stmts: &[&str]) -> Vec<Value> {
    let dialect = PostgreSqlDialect {};
    stmts
        .iter()
        .filter_map(|s| Parser::parse_sql(&dialect, s).ok())
        .flatten()
        .map(|s| serde_json::to_value(&s).unwrap())
        .collect()
}

#[test]
fn happy_path_detects_single_idiom() {
    let stmts = parse_ok(&[
        "CREATE TABLE public.t (id integer NOT NULL, x text)",
        "CREATE SEQUENCE public.t_id_seq START WITH 1 INCREMENT BY 1 CACHE 1",
        "ALTER TABLE ONLY public.t ALTER COLUMN id SET DEFAULT nextval('public.t_id_seq'::regclass)",
    ]);
    let idioms = detect_serial_idioms(&stmts);
    assert_eq!(idioms.len(), 1, "expected exactly 1 idiom: {idioms:?}");
    let i = &idioms[0];
    assert_eq!(i.table, (Some("public".to_string()), "t".to_string()));
    assert_eq!(i.column, "id");
    assert_eq!(
        i.sequence,
        (Some("public".to_string()), "t_id_seq".to_string())
    );
    assert_eq!(i.create_table_index, 0);
    // CREATE SEQUENCE at index 1, SET DEFAULT at index 2.
    assert_eq!(i.redundant_indices, vec![1, 2]);
}

#[test]
fn schema_qualified_vs_unqualified_correlates() {
    // CREATE TABLE unqualified, nextval schema-qualified, sequence qualified.
    let stmts = parse_ok(&[
        "CREATE TABLE t (id integer NOT NULL, x text)",
        "CREATE SEQUENCE public.t_id_seq CACHE 1",
        "ALTER TABLE ONLY public.t ALTER COLUMN id SET DEFAULT nextval('public.t_id_seq'::regclass)",
    ]);
    let idioms = detect_serial_idioms(&stmts);
    assert_eq!(idioms.len(), 1, "expected exactly 1 idiom: {idioms:?}");
    assert_eq!(idioms[0].column, "id");
    assert_eq!(idioms[0].create_table_index, 0);
    assert_eq!(idioms[0].redundant_indices, vec![1, 2]);
}

#[test]
fn free_standing_sequence_no_idiom() {
    // CREATE SEQUENCE with no matching SET DEFAULT -> nothing to collapse.
    let stmts = parse_ok(&[
        "CREATE TABLE public.t (id integer NOT NULL, x text)",
        "CREATE SEQUENCE public.t_id_seq CACHE 1",
    ]);
    let idioms = detect_serial_idioms(&stmts);
    assert_eq!(idioms.len(), 0, "expected 0 idioms: {idioms:?}");
}

#[test]
fn set_default_referencing_absent_sequence_no_idiom() {
    // SET DEFAULT nextval('other_seq') but no CREATE SEQUENCE other_seq.
    let stmts = parse_ok(&[
        "CREATE TABLE public.t (id integer NOT NULL, x text)",
        "ALTER TABLE ONLY public.t ALTER COLUMN id SET DEFAULT nextval('public.other_seq'::regclass)",
    ]);
    let idioms = detect_serial_idioms(&stmts);
    assert_eq!(idioms.len(), 0, "expected 0 idioms: {idioms:?}");
}

#[test]
fn set_default_not_nextval_no_idiom() {
    // SET DEFAULT 0 is not a nextval idiom, even with a sequence present.
    let stmts = parse_ok(&[
        "CREATE TABLE public.t (id integer NOT NULL, x text)",
        "CREATE SEQUENCE public.t_id_seq CACHE 1",
        "ALTER TABLE ONLY public.t ALTER COLUMN id SET DEFAULT 0",
    ]);
    let idioms = detect_serial_idioms(&stmts);
    assert_eq!(idioms.len(), 0, "expected 0 idioms: {idioms:?}");
}

#[test]
fn two_tables_each_serial_detects_two() {
    let stmts = parse_ok(&[
        "CREATE TABLE public.a (id integer NOT NULL)",
        "CREATE SEQUENCE public.a_id_seq CACHE 1",
        "ALTER TABLE ONLY public.a ALTER COLUMN id SET DEFAULT nextval('public.a_id_seq'::regclass)",
        "CREATE TABLE public.b (id integer NOT NULL)",
        "CREATE SEQUENCE public.b_id_seq CACHE 1",
        "ALTER TABLE ONLY public.b ALTER COLUMN id SET DEFAULT nextval('public.b_id_seq'::regclass)",
    ]);
    let mut idioms = detect_serial_idioms(&stmts);
    assert_eq!(idioms.len(), 2, "expected 2 idioms: {idioms:?}");
    // Order by create_table_index for stable assertions.
    idioms.sort_by_key(|i| i.create_table_index);

    assert_eq!(idioms[0].table.1, "a");
    assert_eq!(idioms[0].create_table_index, 0);
    assert_eq!(idioms[0].redundant_indices, vec![1, 2]);

    assert_eq!(idioms[1].table.1, "b");
    assert_eq!(idioms[1].create_table_index, 3);
    assert_eq!(idioms[1].redundant_indices, vec![4, 5]);
}
