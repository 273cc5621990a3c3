use dsql_lint::mysql::literal::bits_to_bytea_hex;
use dsql_lint::{fix_sql_mysql, FixOutput, FixResult, LintRule};
use sqlparser::dialect::PostgreSqlDialect;
use sqlparser::parser::Parser;

/// Assert the output is clean DSQL. Checks for `ParseError` AND for
/// MySQL-isms that sqlparser's lenient `PostgreSqlDialect` parses without
/// complaint but real DSQL rejects (backticks, inline COMMENT, CHARACTER
/// SET/COLLATE, integer display widths, ON UPDATE, MySQL-only type names).
/// A no-ParseError check alone is NOT sufficient — the fixer is lenient.
fn assert_clean_dsql(out: &FixOutput) {
    assert!(!out.sql.contains('`'), "backticks survived:\n{}", out.sql);
    assert!(
        !out.diagnostics
            .iter()
            .any(|d| matches!(d.rule, LintRule::ParseError)),
        "Postgres parse failed on translated output:\n{}\ndiagnostics: {:?}",
        out.sql,
        out.diagnostics
    );
    let u = out.sql.to_uppercase();
    for banned in [
        "COMMENT '",
        "CHARACTER SET",
        "COLLATE",
        "ON UPDATE",
        "AUTO_INCREMENT",
        "UNSIGNED",
        "ENUM(",
        "DATETIME",
        "TINYINT",
        "MEDIUMINT",
        " YEAR",
        "BLOB",
        "VARBINARY",
        "BINARY",
        "TINYTEXT",
        "MEDIUMTEXT",
        "LONGTEXT",
    ] {
        assert!(
            !u.contains(banned),
            "MySQL-ism {banned:?} survived into output (lenient PG parser won't flag it):\n{}",
            out.sql
        );
    }
}

/// True if any diagnostic is a `FixedWithWarning` whose detail contains
/// `needle` (case-insensitive) — the honest signal that a lossy transform
/// changed the data's meaning.
fn has_warning(out: &FixOutput, needle: &str) -> bool {
    out.diagnostics.iter().any(|d| {
        matches!(&d.fix_result, FixResult::FixedWithWarning(s)
            if s.to_lowercase().contains(&needle.to_lowercase()))
    })
}

/// A lossy transform must NOT be silent — each surfaces a FixedWithWarning
/// so `FIXED` keeps meaning "semantically faithful". `enum`/`set` drop value
/// validation, unsigned widening drops the non-negative invariant, a dropped
/// `ON UPDATE` loses auto-update.
#[test]
fn lossy_transforms_emit_warnings() {
    assert!(
        has_warning(
            &fix_sql_mysql("CREATE TABLE `t` (`k` enum('a','b'));"),
            "enum"
        ),
        "enum->VARCHAR must warn (value validation dropped)"
    );
    assert!(
        has_warning(
            &fix_sql_mysql("CREATE TABLE `t` (`s` set('r','w'));"),
            "set"
        ),
        "set->TEXT must warn (value validation dropped)"
    );
    assert!(
        has_warning(
            &fix_sql_mysql("CREATE TABLE `t` (`x` bigint unsigned);"),
            "unsigned"
        ),
        "bigint unsigned->NUMERIC must warn (range guard dropped)"
    );
    assert!(
        has_warning(
            &fix_sql_mysql("CREATE TABLE `t` (`x` int unsigned);"),
            "unsigned"
        ),
        "int unsigned->BIGINT must warn (non-negative invariant dropped)"
    );
    assert!(
        has_warning(
            &fix_sql_mysql(
                "CREATE TABLE `t` (`u` timestamp DEFAULT CURRENT_TIMESTAMP ON UPDATE CURRENT_TIMESTAMP);"
            ),
            "on update"
        ),
        "dropped ON UPDATE must warn (auto-update lost)"
    );
    assert!(
        has_warning(
            &fix_sql_mysql(
                "CREATE TABLE `t` (`id` int NOT NULL AUTO_INCREMENT, PRIMARY KEY (`id`));"
            ),
            "identity"
        ),
        "AUTO_INCREMENT->IDENTITY must warn (sequence not seeded)"
    );
}

/// A faithful transform preserves the value and must stay silent — no
/// spurious warning that would train readers to ignore them.
#[test]
fn faithful_transforms_do_not_warn() {
    let out = fix_sql_mysql(
        "CREATE TABLE `t` (`d` datetime, `b` tinyint(1), `n` int(11), `x` blob);",
    );
    assert!(
        !out.diagnostics
            .iter()
            .any(|d| matches!(d.fix_result, FixResult::FixedWithWarning(_))),
        "value-preserving transforms must not warn, got: {:?}",
        out.diagnostics
    );
}

#[test]
fn strips_backticks_and_engine_into_clean_postgres() {
    let sql = "CREATE TABLE `users` (`id` int NOT NULL, `name` varchar(255)) ENGINE=InnoDB DEFAULT CHARSET=utf8mb4;";
    let out = fix_sql_mysql(sql);
    assert_clean_dsql(&out);
    assert!(
        !out.sql.to_uppercase().contains("ENGINE"),
        "ENGINE= must be stripped, got:\n{}",
        out.sql
    );
    assert!(
        out.sql.to_uppercase().contains("USERS"),
        "should still be a CREATE TABLE for users, got:\n{}",
        out.sql
    );
}

/// Backticks inside inline constraint column lists (PRIMARY KEY, KEY) must
/// also be stripped — this was the first ParseError observed end-to-end.
#[test]
fn strips_backticks_inside_constraints() {
    let sql = "CREATE TABLE `t` (`id` int NOT NULL, `name` varchar(50), \
               PRIMARY KEY (`id`), UNIQUE KEY `uk` (`name`)) ENGINE=InnoDB;";
    let out = fix_sql_mysql(sql);
    assert_clean_dsql(&out);
    assert!(
        out.sql.to_uppercase().contains("PRIMARY KEY"),
        "PRIMARY KEY must survive, got:\n{}",
        out.sql
    );
}

/// `tinyint(1)` is MySQL's boolean convention → BOOLEAN; wider tinyints and
/// other small ints widen to a Postgres integer type (no TINYINT/MEDIUMINT).
#[test]
fn maps_integer_family_types() {
    let sql = "CREATE TABLE `t` (\
               `flag` tinyint(1), `small` tinyint, `mid` mediumint, `n` int, `big` bigint) ENGINE=InnoDB;";
    let out = fix_sql_mysql(sql);
    assert_clean_dsql(&out);
    let u = out.sql.to_uppercase();
    assert!(
        u.contains("FLAG BOOLEAN"),
        "tinyint(1)->BOOLEAN, got:\n{}",
        out.sql
    );
    assert!(
        u.contains("SMALL SMALLINT"),
        "tinyint->SMALLINT, got:\n{}",
        out.sql
    );
    assert!(
        u.contains("MID INTEGER"),
        "mediumint->INTEGER, got:\n{}",
        out.sql
    );
    assert!(
        !u.contains("TINYINT") && !u.contains("MEDIUMINT"),
        "no MySQL int types, got:\n{}",
        out.sql
    );
}

/// Unsigned integers widen to the next signed Postgres type (DSQL has no
/// UNSIGNED); bigint unsigned overflows i64 so it becomes NUMERIC.
#[test]
fn widens_unsigned_integers() {
    let sql = "CREATE TABLE `t` (`a` int unsigned, `b` bigint unsigned) ENGINE=InnoDB;";
    let out = fix_sql_mysql(sql);
    assert_clean_dsql(&out);
    let u = out.sql.to_uppercase();
    assert!(
        !u.contains("UNSIGNED"),
        "UNSIGNED must be gone, got:\n{}",
        out.sql
    );
    assert!(
        u.contains("A BIGINT"),
        "int unsigned->BIGINT, got:\n{}",
        out.sql
    );
    assert!(
        u.contains("B NUMERIC"),
        "bigint unsigned->NUMERIC, got:\n{}",
        out.sql
    );
}

/// MySQL DATETIME has no Postgres equivalent name → TIMESTAMP; the
/// fractional-second precision carries over.
#[test]
fn maps_datetime_to_timestamp() {
    let sql = "CREATE TABLE `t` (`created` datetime, `precise` datetime(6)) ENGINE=InnoDB;";
    let out = fix_sql_mysql(sql);
    assert_clean_dsql(&out);
    let u = out.sql.to_uppercase();
    assert!(
        u.contains("CREATED TIMESTAMP"),
        "datetime->TIMESTAMP, got:\n{}",
        out.sql
    );
    assert!(
        u.contains("PRECISE TIMESTAMP(6)"),
        "datetime(6)->TIMESTAMP(6), got:\n{}",
        out.sql
    );
    assert!(
        !u.contains("DATETIME"),
        "DATETIME must be gone, got:\n{}",
        out.sql
    );
}

/// ENUM has no DSQL type → VARCHAR(255) (validation via CHECK is a later
/// enhancement; the column must at least become a loadable Postgres type).
#[test]
fn maps_enum_to_varchar() {
    let sql = "CREATE TABLE `t` (`kind` enum('a','b','c')) ENGINE=InnoDB;";
    let out = fix_sql_mysql(sql);
    assert_clean_dsql(&out);
    let u = out.sql.to_uppercase();
    assert!(
        u.contains("KIND VARCHAR"),
        "enum->VARCHAR, got:\n{}",
        out.sql
    );
    assert!(!u.contains("ENUM"), "ENUM must be gone, got:\n{}", out.sql);
}

/// AUTO_INCREMENT must become a DSQL IDENTITY column, not be silently
/// dropped (which would lose the column's auto-increment behavior).
#[test]
fn maps_auto_increment_to_identity() {
    let sql = "CREATE TABLE `t` (`id` int NOT NULL AUTO_INCREMENT, PRIMARY KEY (`id`)) ENGINE=InnoDB;";
    let out = fix_sql_mysql(sql);
    assert_clean_dsql(&out);
    let u = out.sql.to_uppercase();
    assert!(
        u.contains("GENERATED BY DEFAULT AS IDENTITY"),
        "AUTO_INCREMENT must become an IDENTITY column, got:\n{}",
        out.sql
    );
    assert!(
        !u.contains("AUTO_INCREMENT"),
        "AUTO_INCREMENT must be gone, got:\n{}",
        out.sql
    );
}

/// A secondary `KEY`/`INDEX` inside CREATE TABLE is not valid DSQL — it
/// must be lifted out into a separate `CREATE INDEX` statement (which the
/// existing fix_sql then turns into `CREATE INDEX ASYNC`).
#[test]
fn lifts_secondary_key_to_create_index() {
    let sql = "CREATE TABLE `t` (`id` int NOT NULL, `name` varchar(50), \
               PRIMARY KEY (`id`), KEY `idx_name` (`name`)) ENGINE=InnoDB;";
    let out = fix_sql_mysql(sql);
    assert_clean_dsql(&out);
    let u = out.sql.to_uppercase();
    assert!(
        u.contains("CREATE INDEX"),
        "secondary KEY must become a CREATE INDEX, got:\n{}",
        out.sql
    );
    assert!(
        !u.contains("KEY IDX_NAME") && !u.contains("KEY `IDX_NAME`"),
        "inline KEY must be lifted out of CREATE TABLE, got:\n{}",
        out.sql
    );
    assert!(
        u.contains("PRIMARY KEY"),
        "PRIMARY KEY must survive inline, got:\n{}",
        out.sql
    );
}

/// `ON UPDATE CURRENT_TIMESTAMP` has no Postgres equivalent and breaks the
/// parse; it must be stripped (keeping `DEFAULT CURRENT_TIMESTAMP`).
/// Common on every mysqldump `updated_at` column.
#[test]
fn strips_on_update_current_timestamp() {
    let sql = "CREATE TABLE `t` (`ts` timestamp DEFAULT CURRENT_TIMESTAMP ON UPDATE CURRENT_TIMESTAMP);";
    let out = fix_sql_mysql(sql);
    assert_clean_dsql(&out);
    assert!(
        out.sql.to_uppercase().contains("DEFAULT CURRENT_TIMESTAMP"),
        "DEFAULT CURRENT_TIMESTAMP must survive, got:\n{}",
        out.sql
    );
}

/// Inline column `COMMENT '...'` is MySQL-only; the lenient PG parser
/// accepts it but DSQL rejects it at apply — must be stripped.
#[test]
fn strips_column_comment() {
    let sql = "CREATE TABLE `t` (`n` int COMMENT 'a note');";
    let out = fix_sql_mysql(sql);
    assert_clean_dsql(&out);
}

/// Per-column `CHARACTER SET` / `COLLATE` are MySQL-only; strip them.
#[test]
fn strips_column_charset_and_collate() {
    let sql =
        "CREATE TABLE `t` (`s` varchar(10) CHARACTER SET utf8mb4 COLLATE utf8mb4_general_ci);";
    let out = fix_sql_mysql(sql);
    assert_clean_dsql(&out);
    assert!(
        out.sql.to_uppercase().contains("VARCHAR(10)"),
        "type must survive, got:\n{}",
        out.sql
    );
}

/// Signed integer display widths (`int(11)`, `bigint(20)`) are MySQL-only
/// and must be dropped — Postgres has no integer type modifier.
#[test]
fn drops_signed_integer_display_width() {
    let sql = "CREATE TABLE `t` (`a` int(11), `b` bigint(20), `c` smallint(6));";
    let out = fix_sql_mysql(sql);
    assert_clean_dsql(&out);
    let u = out.sql.to_uppercase();
    assert!(
        u.contains("A INT") || u.contains("A INTEGER"),
        "int width dropped, got:\n{}",
        out.sql
    );
    assert!(
        !u.contains("(11)") && !u.contains("(20)") && !u.contains("(6)"),
        "no display widths, got:\n{}",
        out.sql
    );
}

/// `YEAR` has no DSQL type → INTEGER.
#[test]
fn maps_year_to_integer() {
    let sql = "CREATE TABLE `t` (`y` year);";
    let out = fix_sql_mysql(sql);
    assert_clean_dsql(&out);
    assert!(
        out.sql.to_uppercase().contains("INTEGER"),
        "year->INTEGER, got:\n{}",
        out.sql
    );
}

/// `SET(...)` → TEXT (per the design policy; VARCHAR(255) can truncate a
/// many-member set's comma-joined value).
#[test]
fn maps_set_to_text() {
    let sql = "CREATE TABLE `t` (`perms` set('read','write','admin'));";
    let out = fix_sql_mysql(sql);
    assert_clean_dsql(&out);
    assert!(
        out.sql.to_uppercase().contains("PERMS TEXT"),
        "set->TEXT, got:\n{}",
        out.sql
    );
}

/// A full mysqldump DDL section carries noise around the CREATE TABLE:
/// `DROP TABLE IF EXISTS` (with backticks), session `SET @var`, executable
/// `/*! ... */` comments, and `LOCK`/`UNLOCK TABLES`. These are MySQL-only
/// and must not surface as ParseErrors — the CREATE TABLE translates, the
/// noise is dropped (DROP TABLE is kept for idempotency, backticks gone).
#[test]
fn strips_mysqldump_noise_around_create_table() {
    let sql = "DROP TABLE IF EXISTS `users`;\n\
               /*!40101 SET @saved_cs_client = @@character_set_client */;\n\
               CREATE TABLE `users` (`id` int NOT NULL AUTO_INCREMENT, PRIMARY KEY (`id`)) ENGINE=InnoDB;\n\
               /*!40101 SET character_set_client = @saved_cs_client */;\n\
               LOCK TABLES `users` WRITE;\n\
               UNLOCK TABLES;\n\
               /*!40000 ALTER TABLE `users` DISABLE KEYS */;";
    let out = fix_sql_mysql(sql);
    assert!(
        !out.diagnostics
            .iter()
            .any(|d| matches!(d.rule, LintRule::ParseError)),
        "mysqldump noise must not produce ParseErrors:\n{}\ndiagnostics: {:?}",
        out.sql,
        out.diagnostics
    );
    assert!(!out.sql.contains('`'), "backticks gone: {}", out.sql);
    let u = out.sql.to_uppercase();
    assert!(u.contains("CREATE TABLE"), "CREATE TABLE kept: {}", out.sql);
    assert!(
        !u.contains("LOCK TABLES") && !u.contains("UNLOCK"),
        "LOCK/UNLOCK dropped: {}",
        out.sql
    );
    assert!(!u.contains("SET @"), "session SET dropped: {}", out.sql);
}

/// FOREIGN KEY backticks (constraint name, FK columns, referenced table and
/// columns) must all be stripped so they never reach the Postgres parser.
/// The FK itself is removed by the existing fix_sql ForeignKey rule.
#[test]
fn unquotes_foreign_key_backticks() {
    let sql = "CREATE TABLE `t` (`id` int, `cid` int, \
               CONSTRAINT `fk_c` FOREIGN KEY (`cid`) REFERENCES `other` (`id`));";
    let out = fix_sql_mysql(sql);
    assert_clean_dsql(&out);
}

/// A backtick-quoted CHECK constraint name must be unquoted.
#[test]
fn unquotes_check_constraint_name() {
    let sql = "CREATE TABLE `t` (`id` int, CONSTRAINT `ck` CHECK (`id` > 0));";
    let out = fix_sql_mysql(sql);
    assert_clean_dsql(&out);
    assert!(
        out.sql.to_uppercase().contains("CHECK"),
        "CHECK must survive, got:\n{}",
        out.sql
    );
}

/// The small unsigned variants each widen to the next signed type.
#[test]
fn widens_unsigned_small_integer_variants() {
    let sql =
        "CREATE TABLE `t` (`a` tinyint unsigned, `b` smallint unsigned, `c` mediumint unsigned);";
    let out = fix_sql_mysql(sql);
    assert_clean_dsql(&out);
    let u = out.sql.to_uppercase();
    assert!(
        u.contains("A SMALLINT"),
        "tinyint unsigned->SMALLINT:\n{}",
        out.sql
    );
    assert!(
        u.contains("B INTEGER"),
        "smallint unsigned->INTEGER:\n{}",
        out.sql
    );
    assert!(
        u.contains("C INTEGER"),
        "mediumint unsigned->INTEGER:\n{}",
        out.sql
    );
}

/// Unsigned widening and display-width dropping compose on one column.
#[test]
fn widens_unsigned_with_display_width() {
    let out = fix_sql_mysql("CREATE TABLE `t` (`x` int(11) unsigned);");
    assert_clean_dsql(&out);
    assert!(
        out.sql.to_uppercase().contains("X BIGINT"),
        "int(11) unsigned->BIGINT:\n{}",
        out.sql
    );
}

/// A session `SET` is dropped but a following CREATE TABLE is kept.
#[test]
fn drops_session_set_keeps_create_table() {
    let out = fix_sql_mysql("SET NAMES utf8mb4; CREATE TABLE t (id INT);");
    let u = out.sql.to_uppercase();
    assert!(
        u.contains("CREATE TABLE"),
        "CREATE TABLE kept:\n{}",
        out.sql
    );
    assert!(!u.contains("SET NAMES"), "SET dropped:\n{}", out.sql);
}

/// `mysqldump --databases` emits `USE dbname;` (bare or backticked) — it
/// must be dropped as noise, not re-emitted for the fixer to
/// reject as a ParseError.
#[test]
fn drops_use_statement() {
    for sql in [
        "USE `mydb`;\nCREATE TABLE `t` (`id` int);",
        "USE mydb;\nCREATE TABLE `t` (`id` int);",
    ] {
        let out = fix_sql_mysql(sql);
        assert_clean_dsql(&out);
        let u = out.sql.to_uppercase();
        assert!(u.contains("CREATE TABLE"), "table kept:\n{}", out.sql);
        assert!(!u.contains("USE "), "USE dropped:\n{}", out.sql);
    }
}

/// Input that is only MySQL-only noise yields empty output, no diagnostics.
#[test]
fn noise_only_input_yields_empty_output() {
    let out = fix_sql_mysql("LOCK TABLES t WRITE; UNLOCK TABLES;");
    assert!(out.sql.trim().is_empty(), "expected empty:\n{}", out.sql);
    assert!(
        !out.diagnostics
            .iter()
            .any(|d| matches!(d.rule, LintRule::ParseError)),
        "no ParseError on noise-only input: {:?}",
        out.diagnostics
    );
}

/// Empty input round-trips to empty output with no diagnostics.
#[test]
fn empty_input_yields_empty_output() {
    let out = fix_sql_mysql("");
    assert!(out.sql.is_empty());
    assert!(out.diagnostics.is_empty());
}

/// A MySQL index prefix length (`KEY k (name(20))`) has no Postgres form —
/// the prefix is dropped and the whole column indexed. On a plain KEY
/// that's a storage detail (silent); inside UNIQUE/PRIMARY KEY it changes
/// which rows collide, so it must warn.
#[test]
fn drops_index_prefix_length() {
    let out = fix_sql_mysql(
        "CREATE TABLE `t` (`id` int NOT NULL, `name` varchar(200), \
         PRIMARY KEY (`id`), KEY `idx_name` (`name`(20)));",
    );
    assert_clean_dsql(&out);
    let u = out.sql.to_uppercase();
    assert!(
        u.contains("ON T(NAME)"),
        "prefix length dropped, whole column indexed:\n{}",
        out.sql
    );
    assert!(!u.contains("(20)"), "no prefix survives:\n{}", out.sql);
    assert!(
        !has_warning(&out, "prefix"),
        "plain KEY prefix drop is silent:\n{:?}",
        out.diagnostics
    );

    let out = fix_sql_mysql(
        "CREATE TABLE `t` (`id` int NOT NULL, `name` varchar(200), \
         PRIMARY KEY (`id`), UNIQUE KEY `uk` (`name`(20)));",
    );
    assert_clean_dsql(&out);
    assert!(
        !out.sql.contains("(20)"),
        "no prefix survives:\n{}",
        out.sql
    );
    assert!(
        has_warning(&out, "prefix"),
        "UNIQUE prefix drop must warn (constraint semantics change):\n{:?}",
        out.diagnostics
    );
}

/// After a type rewrite the MySQL DEFAULT literal may be invalid for the
/// new Postgres type — Postgres validates at CREATE time, MySQL doesn't.
/// 0/1 (bare, quoted, or bit) recast to FALSE/TRUE for BOOLEAN; a bit
/// literal becomes bytea hex for BYTEA; zero-dates are dropped + warned.
#[test]
fn recasts_defaults_for_rewritten_types() {
    let out = fix_sql_mysql(
        "CREATE TABLE `t` (\
         `a` tinyint(1) DEFAULT 0, `b` tinyint(1) NOT NULL DEFAULT '1', \
         `f` bit(1) DEFAULT b'1', `m` bit(8) DEFAULT b'00000010', \
         `d` datetime NOT NULL DEFAULT '0000-00-00 00:00:00', \
         `s` varchar(20) DEFAULT '0000-00-00');",
    );
    assert_clean_dsql(&out);
    let u = out.sql.to_uppercase();
    assert!(
        u.contains("A BOOLEAN DEFAULT FALSE"),
        "0->FALSE:\n{}",
        out.sql
    );
    assert!(
        u.contains("B BOOLEAN NOT NULL DEFAULT TRUE"),
        "'1'->TRUE:\n{}",
        out.sql
    );
    assert!(
        u.contains("F BOOLEAN DEFAULT TRUE"),
        "b'1'->TRUE:\n{}",
        out.sql
    );
    assert!(
        out.sql.contains("m BYTEA DEFAULT '\\x02'"),
        "b'00000010'->bytea hex:\n{}",
        out.sql
    );
    assert!(
        u.contains("D TIMESTAMP NOT NULL") && !u.contains("0000-00-00 00:00:00"),
        "zero-date default dropped:\n{}",
        out.sql
    );
    assert!(
        has_warning(&out, "default was removed"),
        "zero-date drop warns:\n{:?}",
        out.diagnostics
    );
    assert!(
        out.sql.contains("s VARCHAR(20) DEFAULT '0000-00-00'"),
        "a string column's zero-date-looking default is untouched:\n{}",
        out.sql
    );
}

/// Default shapes we can't prove valid for the rewritten type — `DEFAULT
/// -1` (UnaryOp) or `DEFAULT (0)` (Nested) on BOOLEAN, a bare number on
/// BYTEA — are dropped + warned, not emitted as invalid DSQL the lenient
/// PostgreSQL parser can't catch. Hex literals (0x01) recast like bit literals.
/// MySQL's `bool` alias and partial zero-dates (`2004-01-00`) work too.
#[test]
fn unprovable_defaults_dropped_not_emitted() {
    let out = fix_sql_mysql(
        "CREATE TABLE `t` (\
         `a` tinyint(1) DEFAULT -1, `b` tinyint(1) DEFAULT (0), \
         `c` bit(8) DEFAULT 2, `d` tinyint(1) DEFAULT 0x01, \
         `e` bit(8) DEFAULT 0x02, `f` bool DEFAULT 0, \
         `g` date DEFAULT '2004-01-00', `w` bit(16) DEFAULT b'101');",
    );
    assert_clean_dsql(&out);
    let u = out.sql.to_uppercase();
    for gone in [
        "DEFAULT -1",
        "DEFAULT (0)",
        "C BYTEA DEFAULT 2",
        "'2004-01-00'",
    ] {
        assert!(
            !u.contains(gone),
            "unprovable default {gone:?} must be dropped:\n{}",
            out.sql
        );
    }
    assert!(
        u.contains("D BOOLEAN DEFAULT TRUE"),
        "0x01->TRUE:\n{}",
        out.sql
    );
    assert!(
        out.sql.contains("e BYTEA DEFAULT '\\x02'"),
        "0x02->bytea hex:\n{}",
        out.sql
    );
    assert!(
        u.contains("F BOOLEAN DEFAULT FALSE"),
        "bool alias recasts like tinyint(1):\n{}",
        out.sql
    );
    assert!(
        out.sql.contains("w BYTEA DEFAULT '\\x0005'"),
        "b'101' on bit(16) pads to the declared width:\n{}",
        out.sql
    );
    assert_eq!(
        out.diagnostics
            .iter()
            .filter(|d| matches!(d.rule, LintRule::MysqlInvalidDefaultDropped))
            .count(),
        4,
        "each dropped default warns once: {:?}",
        out.diagnostics
    );
}

#[test]
fn bits_to_bytea_hex_edges() {
    assert_eq!(bits_to_bytea_hex("00000010", 1).as_deref(), Some("\\x02"));
    assert_eq!(bits_to_bytea_hex("1", 1).as_deref(), Some("\\x01"));
    assert_eq!(bits_to_bytea_hex("101", 2).as_deref(), Some("\\x0005"));
    assert_eq!(
        bits_to_bytea_hex("1000000000000001", 1).as_deref(),
        Some("\\x8001")
    );
    assert_eq!(bits_to_bytea_hex("", 1), None);
    assert_eq!(bits_to_bytea_hex("102", 1), None);
}

/// Diagnostics point at the statement's line in the original MySQL file,
/// not line 0 or a line in the internal re-emitted buffer. Covers all
/// three producers: translation warnings, fixer warnings on translated
/// statements (ASYNC index), and fixer ParseErrors on forwarded
/// untranslatable tables.
#[test]
fn warnings_carry_source_line_numbers() {
    let out = fix_sql_mysql(
        "DROP TABLE IF EXISTS `t`;\n\n\
         CREATE TABLE `t` (`k` enum('a','b'), KEY `i` (`k`));\n\n\
         CREATE TABLE `u` (`x` int unsigned);\n\n\
         CREATE TABLE zf (c int zerofill);\n",
    );
    let line_of = |rule: fn(&LintRule) -> bool| {
        out.diagnostics
            .iter()
            .find(|d| rule(&d.rule))
            .map(|d| d.line)
    };
    assert_eq!(
        line_of(|r| matches!(r, LintRule::MysqlEnumToVarchar)),
        Some(3),
        "translation warning: {:?}",
        out.diagnostics
    );
    assert_eq!(
        line_of(|r| matches!(r, LintRule::IndexAsync)),
        Some(3),
        "fixer warning carries the CREATE TABLE's source line (fix_statements gets it directly): {:?}",
        out.diagnostics
    );
    assert_eq!(
        line_of(|r| matches!(r, LintRule::MysqlUnsignedWidened)),
        Some(5),
        "translation warning: {:?}",
        out.diagnostics
    );
    assert_eq!(
        line_of(|r| matches!(r, LintRule::ParseError)),
        Some(7),
        "forwarded table's ParseError carries its source line: {:?}",
        out.diagnostics
    );
}

/// An anonymous secondary `KEY (col)` lifts to an unnamed CREATE INDEX
/// (DSQL auto-names it).
#[test]
fn lifts_anonymous_secondary_key() {
    let out =
        fix_sql_mysql("CREATE TABLE t (id INT PRIMARY KEY, name VARCHAR(50), KEY (name));");
    assert_clean_dsql(&out);
    let u = out.sql.to_uppercase();
    assert!(
        u.contains("CREATE INDEX"),
        "anonymous KEY lifted:\n{}",
        out.sql
    );
    assert!(
        u.contains("ON T(NAME)"),
        "index references t(name):\n{}",
        out.sql
    );
}

/// Backticks in a composite PRIMARY KEY column list are all stripped.
#[test]
fn composite_primary_key_unquoted() {
    let out = fix_sql_mysql(
        "CREATE TABLE `t` (`a` int NOT NULL, `b` int NOT NULL, PRIMARY KEY (`a`, `b`));",
    );
    assert_clean_dsql(&out);
    assert!(
        out.sql.to_uppercase().contains("PRIMARY KEY (A, B)"),
        "composite PK columns unquoted:\n{}",
        out.sql
    );
}

/// A db-qualified backtick table name (`db`.`t`) is unquoted in both
/// CREATE TABLE and DROP TABLE.
#[test]
fn unquotes_db_qualified_table_name() {
    let out = fix_sql_mysql("CREATE TABLE `db`.`t` (id int); DROP TABLE `db`.`t`;");
    assert!(!out.sql.contains('`'), "backticks gone:\n{}", out.sql);
    assert!(
        !out.diagnostics
            .iter()
            .any(|d| matches!(d.rule, LintRule::ParseError)),
        "no ParseError: {:?}",
        out.diagnostics
    );
}

/// Multiple CREATE TABLEs in one input are each translated.
#[test]
fn multiple_create_tables_each_translated() {
    let out =
        fix_sql_mysql("CREATE TABLE `t1` (`id` int); CREATE TABLE `t2` (`id` int, `ref` int);");
    assert_clean_dsql(&out);
    assert_eq!(
        out.sql.to_uppercase().matches("CREATE TABLE").count(),
        2,
        "both tables translated:\n{}",
        out.sql
    );
}

/// Binary/BLOB family → BYTEA, bit(1) → BOOLEAN. DSQL has no BLOB/BINARY/
/// VARBINARY/BIT — a real cluster rejects `BLOB` (caught by the cluster
/// test's binary-types probe).
#[test]
fn maps_binary_and_bit_types() {
    let sql = "CREATE TABLE `t` (`d` blob, `b` binary(16), `vb` varbinary(255), \
               `flag` bit(1), `mask` bit(8));";
    let out = fix_sql_mysql(sql);
    assert_clean_dsql(&out);
    let u = out.sql.to_uppercase();
    assert_eq!(
        u.matches("BYTEA").count(),
        4,
        "blob/binary/varbinary/bit(8)->BYTEA:\n{}",
        out.sql
    );
    assert!(u.contains("FLAG BOOLEAN"), "bit(1)->BOOLEAN:\n{}", out.sql);
}

/// Float family: `double`/`double(m,d)` → DOUBLE PRECISION, `float(m,d)` →
/// bare FLOAT, `*text` → TEXT. The lenient PG parser accepts MySQL
/// `DOUBLE`/`FLOAT(m,d)`/`LONGTEXT` verbatim, so a missing arm passes the
/// parse but fails on a real cluster.
#[test]
fn maps_float_and_text_families() {
    let sql = "CREATE TABLE `t` (`a` double, `b` double(10,2), `c` float(10,2), \
               `d` longtext, `e` mediumtext, `f` tinytext);";
    let out = fix_sql_mysql(sql);
    assert_clean_dsql(&out);
    let u = out.sql.to_uppercase();
    assert_eq!(
        u.matches("DOUBLE PRECISION").count(),
        2,
        "double/double(m,d)->DOUBLE PRECISION:\n{}",
        out.sql
    );
    assert!(
        !u.contains("(10,2)"),
        "float display (m,d) dropped:\n{}",
        out.sql
    );
    assert_eq!(u.matches(" TEXT").count(), 3, "*text->TEXT:\n{}", out.sql);
}

/// Unsigned exact-numeric (`decimal(m,d) unsigned`) and `double unsigned`
/// drop the `UNSIGNED` DSQL rejects and warn the non-negative invariant is
/// lost.
#[test]
fn drops_unsigned_on_decimal_and_double() {
    let out =
        fix_sql_mysql("CREATE TABLE `t` (`a` decimal(10,2) unsigned, `b` double unsigned);");
    assert_clean_dsql(&out);
    assert!(
        has_warning(&out, "no UNSIGNED"),
        "unsigned decimal/double warns:\n{:?}",
        out.diagnostics
    );
}

/// A `CREATE TABLE` the MySQL dialect can't parse (e.g. `int zerofill`) must
/// NOT vanish silently — it is forwarded so fix_sql reports a ParseError.
#[test]
fn unparseable_create_table_surfaces_parse_error() {
    let out = fix_sql_mysql("CREATE TABLE zf (c int zerofill);");
    assert!(
        out.diagnostics
            .iter()
            .any(|d| matches!(d.rule, LintRule::ParseError)),
        "unparseable CREATE TABLE must surface a ParseError, not vanish:\n{}\n{:?}",
        out.sql,
        out.diagnostics
    );
}

/// A good table beside an unparseable one still translates; the bad one is
/// reported, not dropped along with the good output.
#[test]
fn unparseable_table_does_not_drop_sibling() {
    let out = fix_sql_mysql("CREATE TABLE good (id int); CREATE TABLE zf (c int zerofill);");
    assert!(
        out.sql.to_uppercase().contains("GOOD"),
        "good table survives:\n{}",
        out.sql
    );
    assert!(
        out.diagnostics
            .iter()
            .any(|d| matches!(d.rule, LintRule::ParseError)),
        "bad table still reported:\n{:?}",
        out.diagnostics
    );
}

/// mysqldump `ALTER ... DISABLE KEYS` noise fails to parse but is not a
/// CREATE TABLE, so the parse-failure forwarding must leave it dropped, not
/// resurrect it as a spurious ParseError.
#[test]
fn disable_keys_noise_stays_dropped() {
    let sql = "CREATE TABLE `t` (`id` int, PRIMARY KEY (`id`)) ENGINE=InnoDB;\n\
               /*!40000 ALTER TABLE `t` DISABLE KEYS */;";
    let out = fix_sql_mysql(sql);
    assert!(
        !out.diagnostics
            .iter()
            .any(|d| matches!(d.rule, LintRule::ParseError)),
        "DISABLE KEYS noise must not produce a ParseError:\n{}\n{:?}",
        out.sql,
        out.diagnostics
    );
}

/// A backtick identifier inside a generated-column expression is unquoted,
/// not re-emitted with backticks (which the PG parser rejects).
#[test]
fn unquotes_generated_column_expr() {
    let out = fix_sql_mysql(
        "CREATE TABLE `t` (`a` int, `b` int GENERATED ALWAYS AS (`a` + 1) STORED);",
    );
    assert_clean_dsql(&out);
}

/// AUTO_INCREMENT with an explicit DEFAULT drops the DEFAULT: a column can't
/// carry both DEFAULT and GENERATED AS IDENTITY.
#[test]
fn auto_increment_drops_conflicting_default() {
    let out = fix_sql_mysql(
        "CREATE TABLE `t` (`id` int NOT NULL DEFAULT 7 AUTO_INCREMENT, PRIMARY KEY (`id`));",
    );
    assert_clean_dsql(&out);
    let u = out.sql.to_uppercase();
    assert!(
        u.contains("GENERATED BY DEFAULT AS IDENTITY"),
        "identity present:\n{}",
        out.sql
    );
    assert!(
        !u.contains("DEFAULT 7"),
        "conflicting DEFAULT dropped:\n{}",
        out.sql
    );
}

/// A `bigint unsigned AUTO_INCREMENT` PK becomes a BIGINT identity, so it
/// must NOT also carry the unsigned-widened "became NUMERIC" warning that
/// would contradict the actual BIGINT output.
#[test]
fn auto_increment_suppresses_unsigned_widen_warning() {
    let out = fix_sql_mysql(
        "CREATE TABLE `t` (`id` bigint unsigned NOT NULL AUTO_INCREMENT, PRIMARY KEY (`id`));",
    );
    assert_clean_dsql(&out);
    assert!(
        out.sql
            .to_uppercase()
            .contains("GENERATED BY DEFAULT AS IDENTITY"),
        "identity present:\n{}",
        out.sql
    );
    assert!(
        !has_warning(&out, "no UNSIGNED"),
        "AUTO_INCREMENT column must not emit a contradictory unsigned-widen warning:\n{:?}",
        out.diagnostics
    );
    assert!(
        has_warning(&out, "identity"),
        "identity warning still present:\n{:?}",
        out.diagnostics
    );
}

/// a `''`-escaped apostrophe in a DEFAULT must survive verbatim.
/// The old token-rebuild splitter re-emitted `'it's'` (unterminated), which
/// degraded the whole table to a ParseError. Slicing from source keeps the
/// original bytes so the AST re-escapes correctly.
#[test]
fn default_with_escaped_quote_survives() {
    let out = fix_sql_mysql("CREATE TABLE `t` (`c` varchar(20) DEFAULT 'it''s');");
    assert_clean_dsql(&out);
    assert!(
        out.sql.contains("'it''s'"),
        "escaped apostrophe must round-trip:\n{}",
        out.sql
    );
}

/// escaped backslashes (`'C:\\data\\new'`) were double-unescaped to
/// `C:data<newline>ew`. Slicing from source keeps the literal byte-exact.
#[test]
fn default_with_backslash_survives() {
    let out = fix_sql_mysql(r"CREATE TABLE `t` (`c` varchar(50) DEFAULT 'C:\\data\\new');");
    assert_clean_dsql(&out);
    assert!(
        out.sql.contains(r"'C:\data\new'"),
        "escaped backslashes must decode to single literal backslashes:\n{}",
        out.sql
    );
}

/// an unparseable statement must not disable the fixer for its
/// siblings — the bad table reports a ParseError, the good one still fully
/// translates.
#[test]
fn one_bad_statement_does_not_disable_gate() {
    let out = fix_sql_mysql(
        "CREATE TABLE zf (c int zerofill);\n\
         CREATE TABLE `b` (`id` int, `v` int, PRIMARY KEY (`id`), KEY `k` (`v`));",
    );
    assert!(
        out.diagnostics
            .iter()
            .any(|d| matches!(d.rule, LintRule::ParseError)),
        "the unparseable table must still report a ParseError:\n{:?}",
        out.diagnostics
    );
    let u = out.sql.to_uppercase();
    assert!(
        u.contains("CREATE INDEX ASYNC"),
        "the good sibling's index must still be lifted + ASYNC'd:\n{}",
        out.sql
    );
    assert!(!out.sql.contains('`'), "no backticks survive:\n{}", out.sql);
}

/// reserved-word and mixed-case identifiers must be re-quoted, not
/// emitted bare (bare `order` fails to parse; bare `Users` folds to `users`).
#[test]
fn reserved_and_mixed_case_identifiers_requoted() {
    let out = fix_sql_mysql(
        "CREATE TABLE `order` (`user` varchar(50), `group` int);\n\
         CREATE TABLE `Users` (`id` int);",
    );
    assert_clean_dsql(&out);
    for quoted in [r#""order""#, r#""user""#, r#""group""#, r#""Users""#] {
        assert!(
            out.sql.contains(quoted),
            "{quoted} must be double-quoted, got:\n{}",
            out.sql
        );
    }
}

/// don't over-quote — ordinary lowercase names stay bare.
#[test]
fn ordinary_identifiers_stay_bare() {
    let out = fix_sql_mysql("CREATE TABLE `t` (`name` varchar(50), `value` int);");
    assert_clean_dsql(&out);
    assert!(
        !out.sql.contains('"'),
        "ordinary lowercase names must not be quoted:\n{}",
        out.sql
    );
}

/// the "reserved (can be function or type name)" category must be
/// quoted too — the lenient PostgreSQL parser accepts these bare, but DSQL rejects
/// them, so a no-ParseError check can't catch the miss.
#[test]
fn function_or_type_name_reserved_words_requoted() {
    // `binary` tested separately below: assert_clean_dsql's banned-substring
    // probe would false-match the quoted column name `"binary"`.
    let out = fix_sql_mysql(
        "CREATE TABLE `t` (`left` int, `right` int, `join` int, `is` int, \
         `natural` int, `full` int);",
    );
    assert_clean_dsql(&out);
    for quoted in [
        r#""left""#,
        r#""right""#,
        r#""join""#,
        r#""is""#,
        r#""natural""#,
        r#""full""#,
    ] {
        assert!(
            out.sql.contains(quoted),
            "{quoted} (reserved, function/type-name category) must be quoted, got:\n{}",
            out.sql
        );
    }
    let out2 = fix_sql_mysql("CREATE TABLE `t` (`binary` int);");
    assert!(
        out2.sql.contains(r#""binary""#),
        "`binary` column must be double-quoted, got:\n{}",
        out2.sql
    );
    assert!(
        !out2
            .diagnostics
            .iter()
            .any(|d| matches!(d.rule, LintRule::ParseError)),
        "quoted `binary` column must parse cleanly:\n{:?}",
        out2.diagnostics
    );
}

/// lifted index names are table-qualified so the same MySQL name on
/// two tables doesn't collide in DSQL's schema-wide namespace; each warns.
#[test]
fn lifted_index_names_qualified_and_warned() {
    let out = fix_sql_mysql(
        "CREATE TABLE `t1` (`user_id` int, KEY `user_id` (`user_id`));\n\
         CREATE TABLE `t2` (`user_id` int, KEY `user_id` (`user_id`));",
    );
    assert_clean_dsql(&out);
    let u = out.sql.to_uppercase();
    assert!(
        u.contains("T1_USER_ID") && u.contains("T2_USER_ID"),
        "index names must be table-qualified:\n{}",
        out.sql
    );
    assert_eq!(
        out.diagnostics
            .iter()
            .filter(|d| matches!(d.rule, LintRule::MysqlIndexRenamed))
            .count(),
        2,
        "each rename must warn:\n{:?}",
        out.diagnostics
    );
}

/// an unparseable CREATE TABLE behind mysqldump's `-- Table
/// structure` comment must still be detected and surface a ParseError, not
/// silently vanish.
#[test]
fn commented_unparseable_create_table_surfaces_error() {
    let out = fix_sql_mysql(
        "--\n-- Table structure for table `zf`\n--\nCREATE TABLE zf (c int zerofill);",
    );
    assert!(
        out.diagnostics
            .iter()
            .any(|d| matches!(d.rule, LintRule::ParseError)),
        "comment-prefixed unparseable table must not vanish:\n{}\n{:?}",
        out.sql,
        out.diagnostics
    );
}

/// an INSERT is dropped with an explicit diagnostic (never silently
/// or corrupted), and the surrounding DDL still translates.
#[test]
fn insert_dropped_with_diagnostic() {
    let out = fix_sql_mysql(
        "CREATE TABLE `t` (`id` int, `name` varchar(50));\n\
         INSERT INTO `t` VALUES (1,'alice'),(2,'bob''s');",
    );
    assert!(
        out.diagnostics
            .iter()
            .any(|d| matches!(d.rule, LintRule::MysqlDataStatementDropped)),
        "INSERT must produce a data-dropped diagnostic:\n{:?}",
        out.diagnostics
    );
    assert!(
        !out.sql.to_uppercase().contains("INSERT"),
        "no INSERT text in the DDL output:\n{}",
        out.sql
    );
    assert!(
        out.sql.to_uppercase().contains("CREATE TABLE"),
        "the CREATE TABLE still translates:\n{}",
        out.sql
    );
}

/// a hex default on a numeric column becomes decimal — verbatim it
/// would print as the bit-string `X'02'`, incompatible with an int column.
#[test]
fn hex_default_on_numeric_becomes_decimal() {
    let out = fix_sql_mysql("CREATE TABLE `t` (`f` bigint DEFAULT 0x02);");
    assert_clean_dsql(&out);
    assert!(
        out.sql.to_uppercase().contains("DEFAULT 2"),
        "0x02 on a numeric column must become decimal 2:\n{}",
        out.sql
    );
    assert!(
        !out.sql.to_uppercase().contains("X'02'"),
        "no bit-string literal survives:\n{}",
        out.sql
    );
}

/// a double-quoted default is a string in MySQL but a quoted
/// identifier in Postgres; recast to a single-quoted string literal.
#[test]
fn double_quoted_default_becomes_string_literal() {
    let out = fix_sql_mysql("CREATE TABLE `t` (`s` varchar(10) DEFAULT \"hi\");");
    assert_clean_dsql(&out);
    assert!(
        out.sql.contains("DEFAULT 'hi'"),
        "double-quoted default must become a single-quoted literal:\n{}",
        out.sql
    );
}

/// an absurd `bit(N)` width must not overflow/panic — clamped to 64.
#[test]
fn oversized_bit_width_does_not_panic() {
    let out = fix_sql_mysql("CREATE TABLE `t` (`b` bit(18446744073709551615) DEFAULT b'1');");
    assert_clean_dsql(&out);
    assert!(
        out.sql.contains(r"'\x0000000000000001'"),
        "bit width clamped to 8 bytes:\n{}",
        out.sql
    );
}

/// a backtick inside a function call in a CHECK expression is
/// stripped by the visitor walk (the old match missed `Expr::Function`).
#[test]
fn backtick_in_check_function_stripped() {
    let out =
        fix_sql_mysql("CREATE TABLE `t` (`j` text, CONSTRAINT `c` CHECK (json_valid(`j`)));");
    assert_clean_dsql(&out);
    assert!(
        out.sql.to_lowercase().contains("json_valid(j)"),
        "backtick inside the function arg must be stripped:\n{}",
        out.sql
    );
}

/// `AUTO_INCREMENT=N` seeds the identity with `START WITH N` so new
/// inserts continue past reloaded rows, and the warning reflects the seed.
#[test]
fn auto_increment_table_seed_becomes_start_with() {
    let out = fix_sql_mysql(
        "CREATE TABLE `t` (`id` int NOT NULL AUTO_INCREMENT, PRIMARY KEY(`id`)) \
         ENGINE=InnoDB AUTO_INCREMENT=1001;",
    );
    assert_clean_dsql(&out);
    assert!(
        out.sql.to_uppercase().contains("START WITH 1001"),
        "the AUTO_INCREMENT seed must become START WITH:\n{}",
        out.sql
    );
    assert!(
        has_warning(&out, "seeded from the dump"),
        "the seed warning must mention it was seeded:\n{:?}",
        out.diagnostics
    );
}

/// Without an `AUTO_INCREMENT=N` option the identity has no
/// START WITH and the warning tells the user to reset it before new inserts.
#[test]
fn auto_increment_without_seed_warns_to_reset() {
    let out = fix_sql_mysql(
        "CREATE TABLE `t` (`id` int NOT NULL AUTO_INCREMENT, PRIMARY KEY(`id`));",
    );
    assert_clean_dsql(&out);
    assert!(
        !out.sql.to_uppercase().contains("START WITH"),
        "no seed means no START WITH:\n{}",
        out.sql
    );
    assert!(
        has_warning(&out, "no AUTO_INCREMENT seed"),
        "the unseeded warning must tell the user to reset:\n{:?}",
        out.diagnostics
    );
}

/// diagnostics are sorted by source line regardless of which
/// producer (translation warning vs fixer warning) emitted them.
#[test]
fn diagnostics_sorted_by_source_line() {
    let out = fix_sql_mysql(
        "CREATE TABLE `a` (`x` int unsigned);\n\
         CREATE TABLE `b` (`k` enum('a','b'), KEY `i` (`k`));",
    );
    let lines: Vec<usize> = out.diagnostics.iter().map(|d| d.line).collect();
    let mut sorted = lines.clone();
    sorted.sort();
    assert_eq!(lines, sorted, "diagnostics must be line-sorted: {lines:?}");
}

/// MySQL-translation warnings carry a non-empty statement preview so
/// JSON consumers don't get `""`.
#[test]
fn translation_warnings_carry_statement_preview() {
    let out = fix_sql_mysql("CREATE TABLE `t` (`k` enum('a','b'));");
    let enum_diag = out
        .diagnostics
        .iter()
        .find(|d| matches!(d.rule, LintRule::MysqlEnumToVarchar))
        .expect("enum warning present");
    assert!(
        !enum_diag.statement.is_empty(),
        "translation warning must carry a statement preview"
    );
}

/// A lowercase, non-reserved backtick identifier carrying statement-ending
/// punctuation must be double-quoted, not emitted bare — bare emission lets
/// a crafted name close the CREATE TABLE and inject `DROP TABLE`.
#[test]
fn hostile_identifier_cannot_inject_statements() {
    // All-lowercase, non-reserved payload so it exercises `is_bare_safe_ident`,
    // NOT the pre-existing uppercase check — an uppercase payload would pass
    // even with the injection fix reverted.
    let out =
        fix_sql_mysql("CREATE TABLE `users` (`id` int, `x int); drop table audit; --` int);");
    // The drop-table text is inert *inside* the quoted column name — proven
    // by the output parsing as exactly one statement, not two.
    let parsed =
        Parser::parse_sql(&PostgreSqlDialect {}, &out.sql).expect("hardened output must parse");
    assert_eq!(
        parsed.len(),
        1,
        "hostile identifier must not split into multiple statements:\n{}",
        out.sql
    );
    assert!(
        out.sql.contains(r#""x int); drop table audit; --""#),
        "hostile name must be a single double-quoted identifier:\n{}",
        out.sql
    );
}

/// A backslash-before-quote (`\"`) identifier cannot round-trip through
/// sqlparser's `"`-escaper (it leaves the quote un-doubled → early close).
/// Rather than emit mangled SQL that injects, leave the backtick so the fixer
/// surfaces a loud ParseError.
#[test]
fn backslash_quote_identifier_is_not_silently_mangled() {
    let out = fix_sql_mysql("CREATE TABLE `t` (`X\\\"\" int); DROP TABLE y; --` int);");
    // No faithful re-encoding exists, so the fixer must reject loudly rather
    // than emit mangled SQL that would inject a DROP TABLE.
    assert!(
        out.diagnostics
            .iter()
            .any(|d| matches!(d.rule, LintRule::ParseError)),
        "un-round-trippable identifier must surface a ParseError:\n{:?}",
        out.diagnostics
    );
}

/// Ordinary lowercase names still emit bare after the injection hardening.
#[test]
fn ordinary_names_still_bare_after_injection_fix() {
    let out = fix_sql_mysql("CREATE TABLE `t` (`name` varchar(50), `value` int);");
    assert_clean_dsql(&out);
    assert!(
        !out.sql.contains('"'),
        "ordinary names stay bare:\n{}",
        out.sql
    );
}

/// A huge `b'...'` DEFAULT literal must not panic the format-width machinery
/// (u16::MAX cap) — the bit-string byte math is bounded-prepend now.
#[test]
fn oversized_bit_string_default_does_not_panic() {
    let bits = "1".repeat(70_000);
    let out = fix_sql_mysql(&format!("CREATE TABLE `t` (`b` bit(8) DEFAULT b'{bits}');"));
    // The point is no panic; output shape is secondary.
    assert!(!out.sql.is_empty());
}

/// An `AUTO_INCREMENT=<seed>` past i64::MAX (the BIGINT identity is signed
/// int8) must NOT be reported as "no seed" (false) nor emitted as an
/// out-of-range START WITH; it warns the seed was dropped as too large.
#[test]
fn auto_increment_overflow_seed_warns_distinctly() {
    // 9300000000000000000 is > i64::MAX (9223372036854775807) but < u64::MAX.
    let out = fix_sql_mysql(
        "CREATE TABLE `t` (`id` int NOT NULL AUTO_INCREMENT, PRIMARY KEY(`id`)) \
         AUTO_INCREMENT=9300000000000000000;",
    );
    assert_clean_dsql(&out);
    assert!(
        has_warning(&out, "exceeds a 64-bit integer"),
        "overflow seed must warn it was dropped as too large:\n{:?}",
        out.diagnostics
    );
    assert!(
        !has_warning(&out, "carried no AUTO_INCREMENT seed"),
        "overflow seed must NOT be reported as 'no seed':\n{:?}",
        out.diagnostics
    );
    assert!(
        !out.sql.to_uppercase().contains("START WITH"),
        "unusable seed produces no START WITH:\n{}",
        out.sql
    );
}

/// A `UNIQUE KEY <name>` promoted to a constraint is table-qualified so the
/// same MySQL name on two tables doesn't collide in DSQL's schema-wide
/// namespace; each rename warns.
#[test]
fn promoted_unique_constraint_names_qualified_and_warned() {
    let out = fix_sql_mysql(
        "CREATE TABLE `a` (`id` int, UNIQUE KEY `uq` (`id`));\n\
         CREATE TABLE `b` (`id` int, UNIQUE KEY `uq` (`id`));",
    );
    assert_clean_dsql(&out);
    let u = out.sql.to_uppercase();
    assert!(
        u.contains("CONSTRAINT A_UQ") && u.contains("CONSTRAINT B_UQ"),
        "promoted UNIQUE names must be table-qualified:\n{}",
        out.sql
    );
    assert_eq!(
        out.diagnostics
            .iter()
            .filter(|d| matches!(d.rule, LintRule::MysqlIndexRenamed))
            .count(),
        2,
        "each UNIQUE rename must warn:\n{:?}",
        out.diagnostics
    );
}

/// A `\"`-bearing index name must NOT be double-quoted by qualify_index_ident:
/// sqlparser's `"`-escaper emits the quote un-doubled, which would silently
/// rewrite `CREATE INDEX "tbl_x\" ON victim(secret) --" ON tbl(c)` into a
/// clean-parsing index on a DIFFERENT table with no diagnostic. Leaving the
/// backtick makes the fixer surface a loud ParseError instead.
#[test]
fn index_name_backslash_quote_cannot_silently_redirect() {
    let out =
        fix_sql_mysql("CREATE TABLE `tbl` (`c` int, KEY `x\\\" ON victim(secret) --` (`c`));");
    assert!(
        out.diagnostics
            .iter()
            .any(|d| matches!(d.rule, LintRule::ParseError)),
        "un-round-trippable index name must surface a ParseError, not silently \
         redirect the CREATE INDEX:\n{}\n{:?}",
        out.sql,
        out.diagnostics
    );
    // The injected `victim` bytes are inert inside the backtick-quoted name
    // (the fixer ParseErrors on it); they never form a clean `ON victim(...)`.
    assert!(
        !out.sql.contains("--` ON victim"),
        "the injected ON-clause must stay inside the quoted name, not become \
         a real target:\n{}",
        out.sql
    );
}

/// The same escaper-mismatch guard applies to a promoted UNIQUE constraint
/// name (also built via qualify_index_ident).
#[test]
fn unique_constraint_backslash_quote_surfaces_parse_error() {
    let out = fix_sql_mysql(
        "CREATE TABLE `tbl` (`c` int, `d` int, UNIQUE KEY `u\\\" (d) --` (`c`));",
    );
    assert!(
        out.diagnostics
            .iter()
            .any(|d| matches!(d.rule, LintRule::ParseError)),
        "un-round-trippable UNIQUE name must surface a ParseError:\n{}\n{:?}",
        out.sql,
        out.diagnostics
    );
}
