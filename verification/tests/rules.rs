use dsql_lint::{fix_sql, lint_sql, FixResult, LintRule};

fn rules_of(sql: &str) -> Vec<LintRule> {
    lint_sql(sql).iter().map(|d| d.rule).collect()
}

/// The rule that is reported alone, and whether it fixed what it found (`Some(true)`), did so with
/// a warning (`Some(false)`) or left it.
fn only(sql: &str) -> (LintRule, Option<bool>) {
    let found = fix_sql(sql).diagnostics;
    assert_eq!(found.len(), 1, "{sql}: {found:?}");
    let how = match &found[0].fix_result {
        FixResult::Fixed(_) => Some(true),
        FixResult::FixedWithWarning(_) => Some(false),
        FixResult::Unfixable => None,
    };
    (found[0].rule, how)
}

#[test]
fn refused_statements_are_reported_and_left() {
    let cases = [
        ("CREATE TRIGGER trg AFTER INSERT ON t FOR EACH ROW EXECUTE FUNCTION f();", LintRule::UnsupportedCreateTrigger),
        ("CREATE EXTENSION IF NOT EXISTS pgcrypto;", LintRule::UnsupportedCreateExtension),
        ("CREATE DATABASE mydb;", LintRule::UnsupportedCreateDatabase),
        ("CREATE POLICY p ON t USING (true);", LintRule::UnsupportedCreatePolicy),
        ("SAVEPOINT sp1;", LintRule::UnsupportedSavepoint),
        ("RELEASE SAVEPOINT sp1;", LintRule::UnsupportedReleaseSavepoint),
        ("ROLLBACK TO SAVEPOINT sp1;", LintRule::UnsupportedRollbackToSavepoint),
        ("DECLARE c CURSOR FOR SELECT 1;", LintRule::UnsupportedDeclareCursor),
        ("CREATE TYPE mood AS ENUM ('happy', 'sad');", LintRule::UnsupportedCreateType),
        ("CREATE SERVER s FOREIGN DATA WRAPPER w;", LintRule::UnsupportedCreateServer),
        ("LOCK TABLE t IN ACCESS EXCLUSIVE MODE;", LintRule::UnsupportedLockTable),
        ("VACUUM;", LintRule::UnsupportedVacuum),
        ("VACUUM FULL t;", LintRule::UnsupportedVacuum),
        ("ALTER INDEX idx_name RENAME TO idx_new;", LintRule::UnsupportedAlterIndex),
        ("CREATE MATERIALIZED VIEW mv AS SELECT 1;", LintRule::UnsupportedMaterializedView),
        ("CREATE TABLE t AS SELECT 1 AS id;", LintRule::CreateTableAs),
        ("CREATE INDEX ASYNC idx ON t(col) WHERE col > 0;", LintRule::IndexPartial),
        ("COPY t FROM '/tmp/data.csv';", LintRule::UnsupportedCopyFromFile),
        ("COPY t TO '/tmp/data.csv';", LintRule::UnsupportedCopyFromFile),
        ("COPY t FROM PROGRAM 'cat /tmp/data.csv';", LintRule::UnsupportedCopyFromFile),
        ("CREATE TABLE t (id INT, tags TEXT[]);", LintRule::ArrayType),
        ("CREATE TABLE t (id INT, scores INT[]);", LintRule::ArrayType),
        ("LISTEN c;", LintRule::UnsupportedListen),
        ("DISCARD ALL;", LintRule::UnsupportedDiscard),
        ("SET TRANSACTION ISOLATION LEVEL SERIALIZABLE;", LintRule::SetTransaction),
        ("DROP MATERIALIZED VIEW mv;", LintRule::UnsupportedDropMaterializedView),
        ("DROP TYPE mood;", LintRule::UnsupportedDropType),
    ];
    for (sql, rule) in cases {
        assert_eq!(only(sql), (rule, None), "{sql}");
    }
}

#[test]
fn refused_operations_are_reported_and_left() {
    let cases = [
        ("ALTER TABLE t ENABLE ROW LEVEL SECURITY;", LintRule::AtUnsupportedRowLevelSecurity),
        ("ALTER TABLE t DISABLE ROW LEVEL SECURITY;", LintRule::AtUnsupportedRowLevelSecurity),
        ("ALTER TABLE t FORCE ROW LEVEL SECURITY;", LintRule::AtUnsupportedRowLevelSecurity),
        ("ALTER TABLE t NO FORCE ROW LEVEL SECURITY;", LintRule::AtUnsupportedRowLevelSecurity),
        ("ALTER TABLE t REPLICA IDENTITY FULL;", LintRule::AtUnsupportedReplicaIdentity),
        ("ALTER TABLE t ENABLE RULE r1;", LintRule::AtUnsupportedRewriteRule),
        ("ALTER TABLE t DISABLE RULE r1;", LintRule::AtUnsupportedRewriteRule),
        ("ALTER TABLE t ENABLE ALWAYS RULE r1;", LintRule::AtUnsupportedRewriteRule),
        ("ALTER TABLE t ENABLE REPLICA RULE r1;", LintRule::AtUnsupportedRewriteRule),
        ("ALTER TABLE t ADD PRIMARY KEY USING INDEX my_idx;", LintRule::AtUnsupportedPrimaryKeyUsingIndex),
        ("ALTER TABLE t ADD UNIQUE USING INDEX my_idx;", LintRule::AtUnsupportedUniqueUsingIndex),
        ("ALTER TABLE t ALTER COLUMN name TYPE TEXT;", LintRule::AtUnsupportedAlterColumnSetType),
        ("ALTER TABLE t ALTER COLUMN name SET NOT NULL;", LintRule::AtUnsupportedAlterColumnSetNotNull),
        ("ALTER TABLE t ADD CONSTRAINT c CHECK (id > 0);", LintRule::AtUnsupportedAddCheck),
        ("ALTER TABLE t ADD CONSTRAINT c UNIQUE (name);", LintRule::AtUnsupportedAddUnique),
        ("ALTER TABLE t ADD CONSTRAINT c PRIMARY KEY (name);", LintRule::AtUnsupportedAddPrimaryKey),
        (
            "ALTER TABLE t ALTER COLUMN id ADD GENERATED ALWAYS AS IDENTITY;",
            LintRule::AtUnsupportedAlterColumnAddGenerated,
        ),
        ("ALTER TABLE t VALIDATE CONSTRAINT c1;", LintRule::ValidateConstraintAsync),
        ("ALTER TABLE t ADD COLUMN tags TEXT[];", LintRule::ArrayType),
    ];
    for (sql, rule) in cases {
        assert_eq!(only(sql), (rule, None), "{sql}");
    }
}

#[test]
fn parts_of_statements_are_taken_off() {
    let cases = [
        ("CREATE TEMP TABLE t (id INT);", LintRule::TempTable, false, "TEMP"),
        ("CREATE TEMPORARY TABLE t (id INT);", LintRule::TempTable, false, "TEMP"),
        ("CREATE TABLE t (id INT, d DATE) PARTITION BY RANGE (d);", LintRule::PartitionBy, false, "PARTITION"),
        ("CREATE TABLE child (extra INT) INHERITS (parent);", LintRule::Inherits, false, "INHERITS"),
        ("CREATE TABLE t (id INT) TABLESPACE my_space;", LintRule::Tablespace, false, "TABLESPACE"),
        ("CREATE TEMPORARY VIEW v AS SELECT 1;", LintRule::UnsupportedTempView, false, "TEMP"),
        ("CREATE INDEX CONCURRENTLY idx ON t(col);", LintRule::IndexConcurrently, true, "CONCURRENTLY"),
        ("CREATE INDEX ASYNC idx ON t USING btree(col);", LintRule::IndexUsing, true, "USING"),
        ("CREATE INDEX ASYNC idx ON t USING gin(col);", LintRule::IndexUsing, false, "USING"),
        ("CREATE INDEX ASYNC idx ON t USING hash(col);", LintRule::IndexUsing, false, "USING"),
        ("CREATE INDEX ASYNC idx ON t(col) USING btree;", LintRule::IndexUsing, true, "USING"),
        ("CREATE INDEX ASYNC idx ON t(col) USING hash;", LintRule::IndexUsing, false, "USING"),
        ("ALTER TABLE t ADD COLUMN id SERIAL;", LintRule::SerialType, false, "SERIAL"),
    ];
    for (sql, rule, plain, word) in cases {
        assert_eq!(only(sql), (rule, Some(plain)), "{sql}");
        let fixed = fix_sql(sql).sql;
        assert!(!fixed.to_uppercase().contains(word), "{fixed}");
        assert_eq!(rules_of(&fixed), vec![], "{fixed}");
    }
    let index = fix_sql("CREATE INDEX CONCURRENTLY idx ON t(col);").sql;
    assert!(index.contains("CREATE INDEX ASYNC idx"), "{index}");
    let column = fix_sql("ALTER TABLE t ADD COLUMN id SERIAL;").sql;
    assert!(column.contains("BIGINT GENERATED BY DEFAULT AS IDENTITY"), "{column}");
    assert!(column.contains("CACHE 1"), "{column}");
}

#[test]
fn an_index_can_break_two_rules() {
    assert_eq!(
        rules_of("CREATE INDEX idx ON t(col) USING btree;"),
        vec![LintRule::IndexUsing, LintRule::IndexAsync]
    );
}

#[test]
fn lines_of_refusals_count_from_the_script() {
    let found = lint_sql("SELECT 1;\nALTER TABLE t\n  REPLICA IDENTITY FULL;");
    assert_eq!(found.len(), 1);
    assert_eq!(found[0].line, 3);
    assert_eq!(
        found[0].message,
        "ALTER TABLE ... REPLICA IDENTITY is not supported in DSQL."
    );
}

#[test]
fn accepted_statements_are_clean() {
    let cases = [
        "CREATE TABLE t (id UUID PRIMARY KEY, serial_number VARCHAR(100));",
        "CREATE TABLE t (id UUID PRIMARY KEY, data JSON);",
        "CREATE TABLE temporary_cache (id UUID PRIMARY KEY);",
        "CREATE TABLE t (id UUID PRIMARY KEY, tags TEXT);",
        "CREATE TABLE t (id UUID PRIMARY KEY, partition_key VARCHAR(50));",
        "DELETE FROM events WHERE id = 1;",
        "CREATE TABLE t (id BIGINT GENERATED ALWAYS AS IDENTITY PRIMARY KEY);",
        "CREATE TABLE t (id BIGINT GENERATED BY DEFAULT AS IDENTITY PRIMARY KEY);",
        "CREATE TABLE t (id UUID PRIMARY KEY, inherits_from TEXT);",
        "CREATE INDEX ASYNC idx ON t(col);",
        "CREATE VIEW v AS SELECT 1;",
        "CREATE TABLE t (id BIGINT GENERATED ALWAYS AS IDENTITY (CACHE 1));",
        "CREATE SEQUENCE s AS BIGINT CACHE 65536;",
        "CREATE SEQUENCE s CACHE 1;",
        "CREATE SEQUENCE s CACHE 65537;",
        "ROLLBACK;",
        "ALTER TABLE t ADD COLUMN x TEXT;",
        "ALTER TABLE t OWNER TO new_owner;",
        "COPY t FROM STDIN;",
        "COPY t TO STDOUT;",
        "ALTER TABLE t ADD COLUMN status VARCHAR(50);",
        "ALTER TABLE t RENAME COLUMN a TO b;",
        "ALTER TABLE t ADD COLUMN id BIGINT GENERATED ALWAYS AS IDENTITY (CACHE 1);",
        "INSERT INTO _clean_base (id, name) VALUES (2, 'TRUNCATE TABLE foo; CREATE TRIGGER bar');",
        "UPDATE _clean_base SET name = 'updated' WHERE id = 1;",
        "BEGIN ISOLATION LEVEL REPEATABLE READ;",
        "BEGIN;",
        "CREATE TABLE _type_test (col TIME WITH TIME ZONE);",
        "CREATE TABLE _type_test (col BPCHAR(50));",
        "CREATE TABLE _type_test (col BYTEA);",
    ];
    for sql in cases {
        assert_eq!(rules_of(sql), vec![], "{sql}");
    }
}

#[test]
fn what_is_fixed_in_full_is_clean() {
    let sql = "CREATE TEMP TABLE t (id SERIAL PRIMARY KEY, d DATE) PARTITION BY RANGE (d);\n\
               CREATE INDEX CONCURRENTLY i ON t USING gin(d);\n\
               ALTER TABLE t ADD CONSTRAINT f FOREIGN KEY (id) REFERENCES u(id);";
    let fixed = fix_sql(sql);
    assert_eq!(fixed.diagnostics.len(), 6, "{:?}", fixed.diagnostics);
    assert!(fixed
        .diagnostics
        .iter()
        .all(|d| !matches!(d.fix_result, FixResult::Unfixable)));
    assert_eq!(rules_of(&fixed.sql), vec![], "{}", fixed.sql);
    let left = fix_sql("CREATE TEMP TABLE t (id INT, tags TEXT[]);");
    assert_eq!(rules_of(&left.sql), vec![LintRule::ArrayType]);
}

#[test]
fn sequences_have_a_type_and_a_cache_that_dsql_takes() {
    let cases = [
        ("CREATE SEQUENCE s AS INTEGER CACHE 1;", LintRule::SequenceType, "CREATE SEQUENCE s AS BIGINT CACHE 1"),
        ("CREATE SEQUENCE s CACHE 100;", LintRule::SequenceCache, "CREATE SEQUENCE s CACHE 1"),
        ("CREATE SEQUENCE s CACHE 2;", LintRule::SequenceCache, "CREATE SEQUENCE s CACHE 1"),
        ("CREATE SEQUENCE s CACHE 65535;", LintRule::SequenceCache, "CREATE SEQUENCE s CACHE 1"),
        ("CREATE SEQUENCE s CACHE -1;", LintRule::SequenceCache, "CREATE SEQUENCE s CACHE 1"),
        ("CREATE SEQUENCE s CACHE 0;", LintRule::SequenceCache, "CREATE SEQUENCE s CACHE 1"),
        ("CREATE SEQUENCE s;", LintRule::SequenceCacheMissing, "CREATE SEQUENCE s CACHE 1"),
        (
            "CREATE SEQUENCE s INCREMENT 1;",
            LintRule::SequenceCacheMissing,
            "CREATE SEQUENCE s INCREMENT 1 CACHE 1",
        ),
    ];
    for (sql, rule, fixed) in cases {
        assert_eq!(only(sql), (rule, Some(true)), "{sql}");
        let out = fix_sql(sql).sql;
        assert_eq!(out.trim_end().trim_end_matches(';'), fixed, "{sql}");
        assert_eq!(rules_of(&out), vec![], "{out}");
    }
    assert_eq!(
        rules_of("CREATE SEQUENCE s AS INTEGER;"),
        vec![LintRule::SequenceType, LintRule::SequenceCacheMissing]
    );
    for sql in [
        "CREATE SEQUENCE s AS BIGINT CACHE 65536;",
        "CREATE SEQUENCE s AS INT8 CACHE 1;",
        "CREATE SEQUENCE s CACHE 65537;",
    ] {
        assert_eq!(rules_of(sql), vec![], "{sql}");
    }
}

#[test]
fn transactions_are_at_the_one_isolation_level() {
    for sql in [
        "BEGIN ISOLATION LEVEL SERIALIZABLE;",
        "BEGIN ISOLATION LEVEL READ COMMITTED;",
    ] {
        assert_eq!(only(sql), (LintRule::TransactionIsolation, Some(true)), "{sql}");
        let out = fix_sql(sql).sql;
        assert!(out.contains("ISOLATION LEVEL REPEATABLE READ"), "{out}");
        assert_eq!(rules_of(&out), vec![], "{out}");
    }
    assert_eq!(rules_of("BEGIN READ ONLY;"), vec![]);
    let found = lint_sql("BEGIN\n  ISOLATION LEVEL SERIALIZABLE;");
    assert_eq!(found[0].line, 2);
}

#[test]
fn whole_scripts_that_are_fixed_in_full_are_clean() {
    let sql = "CREATE TABLE public.t (id integer NOT NULL, n text);\n\
               CREATE SEQUENCE public.t_id_seq AS integer START WITH 1 INCREMENT BY 1 CACHE 1;\n\
               ALTER SEQUENCE public.t_id_seq OWNED BY public.t.id;\n\
               ALTER TABLE ONLY public.t ALTER COLUMN id SET DEFAULT nextval('public.t_id_seq'::regclass);\n\
               ALTER TABLE ONLY public.t ADD CONSTRAINT t_pkey PRIMARY KEY (id);\n\
               ALTER TABLE ONLY public.t ADD CONSTRAINT t_n_key UNIQUE (n);\n\
               BEGIN ISOLATION LEVEL SERIALIZABLE;\n\
               CREATE TABLE a (id SERIAL);\n\
               CREATE INDEX i ON a USING hash(id);\n\
               INSERT INTO a (id) VALUES (1);\n\
               COMMIT;\n\
               CREATE SEQUENCE other;";
    let before = rules_of(sql);
    for rule in [
        LintRule::SerialSequenceIdiom,
        LintRule::AlterAddPrimaryKeyCollapse,
        LintRule::AlterAddUniqueCollapse,
        LintRule::TransactionIsolation,
        LintRule::MultiDdlTransaction,
        LintRule::SequenceCacheMissing,
    ] {
        assert!(before.contains(&rule), "{rule:?}");
    }
    let fixed = fix_sql(sql);
    assert!(
        fixed
            .diagnostics
            .iter()
            .all(|d| !matches!(d.fix_result, FixResult::Unfixable)),
        "{:?}",
        fixed.diagnostics
    );
    assert_eq!(rules_of(&fixed.sql), vec![], "{}", fixed.sql);
}

#[test]
fn identity_columns_have_a_cache_that_dsql_takes() {
    for sql in [
        "CREATE TABLE t (id BIGINT GENERATED ALWAYS AS IDENTITY (CACHE 100));",
        "ALTER TABLE t ADD COLUMN id BIGINT GENERATED BY DEFAULT AS IDENTITY (CACHE 0);",
    ] {
        assert_eq!(only(sql), (LintRule::IdentityCache, Some(true)), "{sql}");
        let out = fix_sql(sql).sql;
        assert!(out.contains("CACHE 1"), "{out}");
        assert!(!out.contains("CACHE 100") && !out.contains("CACHE 0"), "{out}");
        assert_eq!(rules_of(&out), vec![], "{out}");
    }
    assert_eq!(
        rules_of("CREATE TABLE t (id BIGINT GENERATED ALWAYS AS IDENTITY (CACHE 65536));"),
        vec![]
    );
}
