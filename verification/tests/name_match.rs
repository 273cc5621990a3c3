use dsql_lint::rules::name_match::{drop_parts, fold_text_ident, normalize_dotted_identifier};

#[test]
fn drop_parts_sorts_dedups_and_removes_in_reverse() {
    let mut parts = vec![(1, "a".into()), (2, "b".into()), (3, "c".into())];
    drop_parts(&mut parts, vec![2, 0, 0]);
    assert_eq!(parts, vec![(2, "b".into())]);
}

/// A quoted segment keeps its case verbatim and decodes the `""` escape
/// to a single `"`, matching how `fold_ident` (the AST side) renders a
/// quoted `Ident` — so a text-matched name compares byte-equal against an
/// AST-derived one even when the identifier embeds a quote.
#[test]
fn fold_text_ident_decodes_doubled_quotes_and_preserves_case() {
    assert_eq!(fold_text_ident("\"My_Col\""), "My_Col");
    assert_eq!(fold_text_ident("\"a\"\"b\""), "a\"b");
    assert_eq!(fold_text_ident("Plain"), "plain"); // unquoted folds down
}

/// `normalize_dotted_identifier` splits on the schema dot but not on a dot
/// inside a quoted segment, and folds each segment.
#[test]
fn normalize_dotted_identifier_respects_quotes() {
    assert_eq!(
        normalize_dotted_identifier("public.t"),
        (Some("public".to_string()), "t".to_string())
    );
    assert_eq!(
        normalize_dotted_identifier("\"my.seq\""),
        (None, "my.seq".to_string())
    );
    assert_eq!(
        normalize_dotted_identifier("public.\"My.Tbl\""),
        (Some("public".to_string()), "My.Tbl".to_string())
    );
}
