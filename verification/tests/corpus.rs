use dsql_lint::corpus::{parse_header, snake_to_pascal, strip_psql_metacommands, Expectation};

#[test]
fn snake_to_pascal_basic() {
    assert_eq!(snake_to_pascal("serial_type"), "SerialType");
    assert_eq!(snake_to_pascal("foreign_key"), "ForeignKey");
    assert_eq!(
        snake_to_pascal("identity_cache_missing"),
        "IdentityCacheMissing"
    );
    assert_eq!(snake_to_pascal(""), "");
    assert_eq!(snake_to_pascal("x"), "X");
}

#[test]
fn parse_header_accept_minimal() {
    let input = "\
-- production: CreateStmt
-- expectation: accept
CREATE TABLE t (id BIGINT PRIMARY KEY);
";
    let (header, body) = parse_header(input).expect("parse should succeed");
    assert_eq!(header.production, "CreateStmt");
    assert_eq!(header.expectation, Expectation::Accept);
    assert_eq!(header.rule, None);
    assert_eq!(header.fix, None);
    assert_eq!(header.fixes, None);
    assert_eq!(
        body,
        "CREATE TABLE t (id BIGINT PRIMARY KEY);\n"
    );
}

#[test]
fn parse_header_reject_with_fix() {
    let input = "\
-- production: CreateStmt
-- expectation: reject
-- rule: serial_type
-- fix: fixed/serial_type__basic.sql
CREATE TABLE t (id SERIAL);
";
    let (h, _) = parse_header(input).unwrap();
    assert_eq!(h.expectation, Expectation::Reject);
    assert_eq!(h.rule.as_deref(), Some("serial_type"));
    assert_eq!(h.fix.as_deref(), Some("fixed/serial_type__basic.sql"));
}

#[test]
fn parse_header_fixed_with_back_reference() {
    let input = "\
-- production: CreateStmt
-- expectation: accept
-- fixes: reject/serial_type__basic.sql
CREATE TABLE t (id BIGINT);
";
    let (h, _) = parse_header(input).unwrap();
    assert_eq!(h.fixes.as_deref(), Some("reject/serial_type__basic.sql"));
}

#[test]
fn parse_header_missing_production_errors() {
    let input = "-- expectation: accept\nSELECT 1;\n";
    let err = parse_header(input).unwrap_err();
    assert!(err.message.contains("production"), "got {}", err.describe());
}

#[test]
fn parse_header_unknown_key_errors() {
    let input = "\
-- production: X
-- expectation: accept
-- frobnicate: yes
SELECT 1;
";
    let err = parse_header(input).unwrap_err();
    assert!(err.message.contains("frobnicate"), "got {}", err.describe());
}

#[test]
fn parse_header_bad_expectation_errors() {
    let input = "\
-- production: X
-- expectation: maybe
SELECT 1;
";
    let err = parse_header(input).unwrap_err();
    assert!(err.message.contains("expectation"), "got {}", err.describe());
}

#[test]
fn parse_header_skips_leading_blank_lines() {
    let input = "\n-- production: X\n-- expectation: accept\nSELECT 1;\n";
    let (h, body) = parse_header(input).unwrap();
    assert_eq!(h.production, "X");
    assert_eq!(body, "SELECT 1;\n");
}

#[test]
fn strips_psql_metacommands() {
    let cleaned = strip_psql_metacommands("\\d foo\nSELECT 1;\n\\c other\nSELECT 2;");
    assert_eq!(cleaned, "SELECT 1;\nSELECT 2;");
}
