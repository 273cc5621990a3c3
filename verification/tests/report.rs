use dsql_lint::report::{
    add_previews, check_arguments, count, default_output_name, destination, display_name, is_stdin,
    make_preview, read_error, same_file_error, split_words, write_error, write_lint, Destination,
    FileReport, FixRun, LintRun, Summary,
};
use dsql_lint::{fix_sql, lint_sql, Diagnostic, FixOutput, FixResult, LintRule};

const CLEAN: &str = "CREATE TABLE t (id UUID PRIMARY KEY);";
const SERIAL: &str = "CREATE TABLE t (id SERIAL PRIMARY KEY);";

fn fix_exit_code(sql: &str) -> u8 {
    let mut run = FixRun::new();
    run.note_fixed("input.sql", sql, &fix_sql(sql), Some("input-fixed.sql"));
    run.exit_code()
}

fn lint_exit_code(sql: &str) -> u8 {
    let mut run = LintRun::new();
    run.note_linted("input.sql", &lint_sql(sql));
    run.exit_code()
}

fn report(line: usize, fix_result: FixResult) -> Diagnostic {
    Diagnostic {
        rule: LintRule::SerialType,
        line,
        statement: "CREATE TABLE t (\n  id SERIAL\n);".to_string(),
        message: "the message".to_string(),
        suggestion: "the suggestion".to_string(),
        fix_result,
    }
}

#[test]
fn fix_clean_exits_0() {
    assert_eq!(fix_exit_code(CLEAN), 0);
}

#[test]
fn fix_all_fixed_no_warnings_exits_0() {
    assert_eq!(fix_exit_code("CREATE INDEX idx ON t(col);"), 0);
}

#[test]
fn fix_serial_exits_3() {
    assert_eq!(fix_exit_code(SERIAL), 3);
}

#[test]
fn fix_unfixable_exits_1() {
    assert_eq!(fix_exit_code("TRUNCATE TABLE foo;"), 1);
}

#[test]
fn unfixable_and_warning_exit_1() {
    assert_eq!(
        fix_exit_code("CREATE TABLE t (id SERIAL PRIMARY KEY);\nTRUNCATE TABLE foo;"),
        1
    );
}

#[test]
fn lint_mode_still_uses_0_and_1() {
    assert_eq!(lint_exit_code(CLEAN), 0);
    assert_eq!(lint_exit_code(SERIAL), 1);
}

#[test]
fn json_lint_clean_file() {
    let mut run = LintRun::new();
    let ds = lint_sql(CLEAN);
    run.note_linted("clean.sql", &ds);
    assert_eq!(run.exit_code(), 0);
    let file = FileReport::of_lint("clean.sql", ds);
    assert!(file.diagnostics.is_empty());
    assert_eq!(run.summary.errors, 0);
    assert_eq!(run.summary.warnings, 0);
}

#[test]
fn json_lint_with_errors() {
    let mut run = LintRun::new();
    let ds = lint_sql(SERIAL);
    run.note_linted("bad.sql", &ds);
    assert_ne!(run.exit_code(), 0);
    let file = FileReport::of_lint("bad.sql", ds);
    assert!(file.file.contains("bad.sql"));
    let (d, preview) = &file.diagnostics[0];
    assert_eq!(d.rule.wire_name(), "serial_type");
    assert!(d.message.contains("SERIAL"));
    assert!(!preview.contains('\n'));
    assert_eq!(run.summary.warnings, 1);
    assert_eq!(run.summary.errors, 0);
}

#[test]
fn json_lint_multiline_preview_collapsed() {
    let ds = lint_sql("CREATE TABLE t (\n    id SERIAL\n    PRIMARY KEY\n);");
    let file = FileReport::of_lint("multiline.sql", ds);
    assert_eq!(
        file.diagnostics[0].1,
        "CREATE TABLE t ( id SERIAL PRIMARY KEY );"
    );
}

#[test]
fn json_fix_mode_file_has_output_file() {
    let sql = "CREATE INDEX idx ON t(col);";
    let fixed = fix_sql(sql);
    assert!(matches!(
        fixed.diagnostics[0].fix_result,
        FixResult::Fixed(_)
    ));
    let mut run = FixRun::new();
    run.note_fixed("fix.sql", sql, &fixed, Some("fix-fixed.sql"));
    assert_eq!(run.exit_code(), 0);
    assert_eq!(run.summary.fixed, 1);
    let file = FileReport::of_fix("fix.sql", false, fixed, Some("fix-fixed.sql"));
    assert_eq!(file.output_file.as_deref(), Some("fix-fixed.sql"));
    assert_eq!(file.fixed_sql, None);
    assert_eq!(file.error, None);
}

#[test]
fn json_file_read_error_appears_in_files_array() {
    let message = read_error("/nonexistent/file.sql", "No such file or directory");
    let mut run = LintRun::new();
    run.note_read_error();
    assert_ne!(run.exit_code(), 0);
    let file = FileReport::of_error("/nonexistent/file.sql", message);
    assert_eq!(file.file, "/nonexistent/file.sql");
    assert_eq!(
        file.error.as_deref(),
        Some("Error reading '/nonexistent/file.sql': No such file or directory")
    );
    assert!(file.diagnostics.is_empty());
}

#[test]
fn json_lint_nullable_fields_always_present() {
    let file = FileReport::of_lint("clean.sql", lint_sql(CLEAN));
    assert_eq!(file.error, None);
    assert_eq!(file.output_file, None);
    assert_eq!(file.fixed_sql, None);
}

#[test]
fn json_multiple_files_grouped() {
    let mut run = LintRun::new();
    let first = lint_sql(SERIAL);
    let second = lint_sql("CREATE TABLE u (id UUID PRIMARY KEY);");
    run.note_linted("a.sql", &first);
    run.note_linted("b.sql", &second);
    let a = FileReport::of_lint("a.sql", first);
    let b = FileReport::of_lint("b.sql", second);
    assert!(!a.diagnostics.is_empty());
    assert_eq!(a.file, "a.sql");
    assert!(b.diagnostics.is_empty());
    assert_eq!(b.file, "b.sql");
    assert!(run.summary.warnings > 0 || run.summary.errors > 0);
}

#[test]
fn json_preview_appends_ellipsis_when_truncated() {
    let long_cols: Vec<String> = (0..20)
        .map(|i| format!("col_with_a_long_name_{i} INT"))
        .collect();
    let sql = format!(
        "CREATE TABLE t (id SERIAL PRIMARY KEY, {});",
        long_cols.join(", ")
    );
    let file = FileReport::of_lint("long.sql", lint_sql(&sql));
    assert!(file.diagnostics[0].1.ends_with('…'));
}

#[test]
fn json_preview_no_ellipsis_when_short() {
    let file = FileReport::of_lint("short.sql", lint_sql(SERIAL));
    assert!(!file.diagnostics[0].1.contains('…'));
}

#[test]
fn json_lint_summary_splits_errors_and_warnings() {
    let mut run = LintRun::new();
    run.note_linted(
        "mixed.sql",
        &lint_sql("CREATE TABLE t (id SERIAL PRIMARY KEY);\nTRUNCATE TABLE foo;"),
    );
    assert_eq!(run.summary.errors, 1);
    assert_eq!(run.summary.warnings, 1);
}

#[test]
fn json_fix_summary_buckets_are_disjoint() {
    let sql = "CREATE INDEX idx ON t(col);\n\
         CREATE TABLE t (id SERIAL PRIMARY KEY);\n\
         TRUNCATE TABLE foo;";
    let mut run = FixRun::new();
    run.note_fixed("mixed.sql", sql, &fix_sql(sql), Some("mixed-fixed.sql"));
    assert_eq!(run.summary.fixed, 1);
    assert_eq!(run.summary.warnings, 1);
    assert_eq!(run.summary.errors, 1);
}

#[test]
fn json_io_failure_increments_summary_errors() {
    let mut run = LintRun::new();
    run.note_read_error();
    assert_ne!(run.exit_code(), 0);
    assert_eq!(run.summary.errors, 1);
}

#[test]
fn json_fix_same_file_error_does_not_drop_queued_files() {
    let mut run = FixRun::new();
    run.note_io_error();
    let file = FileReport::of_error(
        "collide.sql",
        same_file_error("collide.sql", "collide.sql"),
    );
    assert!(file.error.as_deref().unwrap().contains("same as input"));
    run.note_fixed("later.sql", CLEAN, &fix_sql(CLEAN), Some("later-fixed.sql"));
    assert_ne!(run.exit_code(), 0);
}

#[test]
fn previews_keep_eighty_characters() {
    let exact = "x".repeat(80);
    assert_eq!(make_preview(&exact), exact);
    assert_eq!(make_preview(&"x".repeat(81)), format!("{exact}…"));
    assert_eq!(make_preview("  a\n\t b \u{3000} c "), "a b c");
    assert_eq!(make_preview(""), "");
    assert_eq!(make_preview("é".repeat(90).as_str()).chars().count(), 81);
}

#[test]
fn words_are_split_at_white_space() {
    assert_eq!(split_words(" a  bc\nd "), vec!["a", "bc", "d"]);
    assert!(split_words(" \t\n").is_empty());
}

#[test]
fn previews_stand_beside_their_reports() {
    let both = add_previews(vec![report(1, FixResult::Unfixable)]);
    assert_eq!(both[0].1, "CREATE TABLE t ( id SERIAL );");
    assert_eq!(both[0].0.line, 1);
}

#[test]
fn the_output_is_named_after_the_input() {
    assert_eq!(default_output_name("schema.sql"), "schema-fixed.sql");
    assert_eq!(default_output_name("schema"), "schema-fixed");
    assert_eq!(default_output_name("a.b.sql"), "a.b-fixed.sql");
    assert_eq!(default_output_name(".sql"), ".sql-fixed");
    assert_eq!(default_output_name("schema."), "schema-fixed");
}

#[test]
fn a_dash_is_the_standard_input() {
    assert!(is_stdin("-"));
    assert!(!is_stdin("a.sql"));
    assert_eq!(display_name("-"), "<stdin>");
    assert_eq!(display_name("a.sql"), "a.sql");
}

#[test]
fn arguments_are_checked_in_order() {
    assert_eq!(
        check_arguments(0, false, true).as_deref(),
        Some("Usage: dsql-lint <file.sql> [file2.sql ...] or dsql-lint - (read from stdin)")
    );
    assert_eq!(
        check_arguments(2, false, true).as_deref(),
        Some("Error: -o/--output requires --fix")
    );
    assert_eq!(
        check_arguments(2, true, true).as_deref(),
        Some("Error: -o/--output can only be used with a single input file")
    );
    assert_eq!(check_arguments(1, true, true), None);
    assert_eq!(check_arguments(2, false, false), None);
}

#[test]
fn the_destination_depends_on_output_and_input() {
    assert_eq!(destination(true, true), Destination::Named);
    assert_eq!(destination(true, false), Destination::Named);
    assert_eq!(destination(false, true), Destination::Stdout);
    assert_eq!(destination(false, false), Destination::Beside);
}

#[test]
fn failures_are_worded() {
    assert_eq!(read_error("a", "gone"), "Error reading 'a': gone");
    assert_eq!(write_error("b", "full"), "Error writing 'b': full");
    assert_eq!(
        same_file_error("o", "i"),
        "Error: output path 'o' is the same as input 'i'. Use a different output path."
    );
}

#[test]
fn reports_are_written_in_three_lines() {
    assert_eq!(
        write_lint("f.sql", &vec![report(7, FixResult::Unfixable)]),
        vec![
            "f.sql:7: ERROR — the message",
            "  → the suggestion",
            "  | CREATE TABLE t ( id SERIAL );",
        ]
    );
}

#[test]
fn every_report_is_counted_once() {
    let counts = count(&vec![
        report(1, FixResult::Fixed("a".to_string())),
        report(2, FixResult::FixedWithWarning("b".to_string())),
        report(3, FixResult::Unfixable),
        report(4, FixResult::Unfixable),
    ]);
    assert_eq!(
        counts,
        Summary {
            errors: 2,
            warnings: 1,
            fixed: 1
        }
    );
}

#[test]
fn lint_runs_close_with_a_count() {
    let mut run = LintRun::new();
    assert_eq!(
        run.closing().as_deref(),
        Some("All statements compatible with DSQL.")
    );
    run.note_read_error();
    assert_eq!(run.closing(), None);
    assert_eq!(run.exit_code(), 1);
    run.note_linted(
        "f",
        &vec![report(1, FixResult::Unfixable), report(2, FixResult::Unfixable)],
    );
    assert_eq!(run.closing().as_deref(), Some("\n2 error(s) found."));
}

#[test]
fn fix_runs_tell_what_was_done() {
    let fixed = FixOutput {
        sql: "SELECT 1;\n".to_string(),
        diagnostics: vec![
            report(1, FixResult::Fixed("done".to_string())),
            report(2, FixResult::FixedWithWarning("careful".to_string())),
            report(3, FixResult::Unfixable),
        ],
    };
    let mut run = FixRun::new();
    assert_eq!(run.closing(), None);
    assert_eq!(
        run.note_fixed("f", "SELECT 1; -- note", &fixed, Some("out")),
        vec![
            "f:1: FIXED — done",
            "f:2: WARNING — careful",
            "f:3: ERROR (unfixable) — the message",
            "  → the suggestion",
            "  | CREATE TABLE t ( id SERIAL );",
            "Note: SQL comments in modified statements were not preserved.",
            "Partial fix written to: out (1 unfixable error(s) remain)",
        ]
    );
    assert_eq!(run.unfixable_files, vec!["f"]);
    assert_eq!(
        run.closing().as_deref(),
        Some("\nFix complete: 1 file(s) had unfixable errors and require manual review.")
    );
    let warned = FixOutput {
        sql: "SELECT 1;\n".to_string(),
        diagnostics: vec![report(2, FixResult::FixedWithWarning("careful".to_string()))],
    };
    assert_eq!(
        run.note_fixed("g", "SELECT 1; /* note */", &warned, Some("out")),
        vec![
            "g:2: WARNING — careful",
            "Fixed output written to: out (1 warning(s) — review recommended)",
        ]
    );
    let nothing = FixOutput {
        sql: String::new(),
        diagnostics: vec![],
    };
    assert_eq!(
        run.note_fixed("h", "", &nothing, Some("out")),
        vec!["Fixed output is empty — all statements were removed: out"]
    );
    let clean = FixOutput {
        sql: "SELECT 1;\n".to_string(),
        diagnostics: vec![],
    };
    assert_eq!(
        run.note_fixed("i", "SELECT 1", &clean, Some("out")),
        vec!["Fixed output written to: out"]
    );
    assert!(run.note_fixed("<stdin>", "SELECT 1", &clean, None).is_empty());
    assert_eq!(run.exit_code(), 1);
}

#[test]
fn failed_files_fail_a_fix_run() {
    let mut run = FixRun::new();
    run.note_io_error();
    assert_eq!(run.exit_code(), 1);
    assert_eq!(run.summary.errors, 1);
    assert_eq!(run.closing(), None);
}

#[test]
fn the_fixed_text_of_the_standard_input_is_embedded() {
    let file = FileReport::of_fix("<stdin>", true, fix_sql("CREATE INDEX i ON t(c);"), None);
    assert_eq!(
        file.fixed_sql.as_deref(),
        Some("CREATE INDEX ASYNC i ON t(c);\n")
    );
    assert_eq!(file.output_file, None);
}
