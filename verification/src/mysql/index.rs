//! The indexes and constraints of a MySQL table.

use serde_json::Value;
use vstd::prelude::*;
use vstd::string::StringExecFns;

use crate::diagnostic::{self, Diagnostic, LintRule};
use crate::mysql::column;
use crate::mysql::quoting::{
    self, qualify_index_ident, unquote_ident, unquote_idents, unquote_object_name,
};
use crate::mysql::types::{self, warn};
use crate::rules::errors::read_value;
use crate::rules::name_match;
use crate::shapes::{self, field, items, one};
use crate::syntax::{
    self, copy, flag, get, is_null, list, null, put, record, requote, string, Tree,
};
use crate::token;
use crate::transactions::{self, has_kind};

verus! {

/// The column whose first characters alone are indexed: MySQL writes `name(20)`, which reads as
/// a call with one number.
pub open spec fn prefixed(expr: Tree) -> Option<Tree> {
    let call = token::field(expr, "Function"@);
    let parts = name_match::items_of(token::field(call, "name"@));
    let args = name_match::items_of(
        token::field(token::field(token::field(call, "args"@), "List"@), "args"@),
    );
    if parts.len() != 1 || args.len() != 1 {
        None
    } else {
        match column::literal_in(token::field(token::field(args[0], "Unnamed"@), "Expr"@)) {
            Some(value) => if transactions::is_kind(value, "Number"@) {
                syntax::member(parts[0], "Identifier"@)
            } else {
                None
            },
            None => None,
        }
    }
}

/// What an index stands on, the whole column where its first characters were.
pub open spec fn whole(expr: Tree) -> Tree {
    match prefixed(expr) {
        Some(ident) => syntax::variant("Identifier"@, ident),
        None => expr,
    }
}

/// The expression of an index column.
pub open spec fn index_expr(col: Tree) -> Tree {
    token::field(token::field(col, "column"@), "expr"@)
}

/// A column of an index without its prefix length and without backticks.
pub open spec fn whole_column(col: Tree) -> Tree {
    syntax::with_member(
        col,
        "column"@,
        syntax::with_member(
            token::field(col, "column"@),
            "expr"@,
            syntax::requoted(whole(index_expr(col))),
        ),
    )
}

/// The columns of an index without their prefix lengths and without backticks.
pub open spec fn whole_columns(cols: Tree) -> Tree {
    Tree::List(name_match::items_of(cols).map_values(|c: Tree| whole_column(c)))
}

fn read_prefixed(expr: &Value) -> (r: Option<Value>)
    ensures
        column::made_as(r, prefixed(syntax::tree(*expr))),
{
    let call = field(expr, "Function");
    let parts = items(&field(&call, "name"));
    let args = items(&field(&field(&field(&call, "args"), "List"), "args"));
    if parts.len() != 1 || args.len() != 1 {
        return None;
    }
    proof {
        assert(syntax::trees(parts@)[0] == syntax::tree(parts@[0]));
        assert(syntax::trees(args@)[0] == syntax::tree(args@[0]));
    }
    let arg = field(&field(&args[0], "Unnamed"), "Expr");
    match get(&arg, "Value") {
        Some(v) => match get(v, "value") {
            Some(value) => if has_kind(value, "Number") {
                match get(&parts[0], "Identifier") {
                    Some(ident) => Some(copy(ident)),
                    None => None,
                }
            } else {
                None
            },
            None => None,
        },
        None => None,
    }
}

/// Takes the prefix length and the backticks off a column of an index; true where there was a
/// prefix length.
pub fn unquote_index_column(col: &mut Value) -> (r: bool)
    ensures
        syntax::tree(*final(col)) == whole_column(syntax::tree(*old(col))),
        r == (prefixed(index_expr(syntax::tree(*old(col)))) is Some),
{
    let mut inner = field(col, "column");
    let mut expr = field(&inner, "expr");
    let mut dropped = false;
    if let Some(ident) = read_prefixed(&expr) {
        expr = one("Identifier", ident);
        dropped = true;
    }
    put(&mut inner, "expr", requote(&expr));
    put(col, "column", inner);
    dropped
}

/// The report on a prefix length that went from a constraint.
pub open spec fn prefix_report() -> diagnostic::DiagnosticView {
    types::warning(
        LintRule::MysqlIndexPrefixDropped,
        "Index prefix length dropped inside a PRIMARY KEY/UNIQUE constraint."@,
        "A `col(N)` prefix in a unique constraint was replaced by the full column: MySQL enforced uniqueness on the first N characters, DSQL enforces it on the whole value. Existing data reloads fine, but inserts MySQL would have rejected as prefix duplicates now succeed — add application-side checks if callers depend on the stricter rule."@,
    )
}

/// The reports on the prefix lengths of a constraint's columns.
pub open spec fn prefix_reports(cols: Seq<Tree>) -> Seq<diagnostic::DiagnosticView>
    decreases cols.len(),
{
    if cols.len() == 0 {
        seq![]
    } else if prefixed(index_expr(cols.last())) is Some {
        prefix_reports(cols.drop_last()).push(prefix_report())
    } else {
        prefix_reports(cols.drop_last())
    }
}

fn prefix_warning() -> (r: Diagnostic)
    ensures
        r@ == prefix_report(),
{
    warn(
        LintRule::MysqlIndexPrefixDropped,
        "Index prefix length dropped inside a PRIMARY KEY/UNIQUE constraint.",
        "A `col(N)` prefix in a unique constraint was replaced by the full column: MySQL enforced uniqueness on the first N characters, DSQL enforces it on the whole value. Existing data reloads fine, but inserts MySQL would have rejected as prefix duplicates now succeed — add application-side checks if callers depend on the stricter rule.".to_owned(),
    )
}

/// The columns of an index, and the reports on their prefix lengths where they are asked for.
pub fn unquote_columns(cols: &Value, report: bool, diags: &mut Vec<Diagnostic>) -> (r: Value)
    ensures
        syntax::tree(r) == whole_columns(syntax::tree(*cols)),
        diagnostic::reports(final(diags)@) == diagnostic::reports(old(diags)@) + if report {
            prefix_reports(name_match::items_of(syntax::tree(*cols)))
        } else {
            seq![]
        },
{
    let found = items(cols);
    let ghost ts = syntax::trees(found@);
    let ghost said = diagnostic::reports(diags@);
    let mut out: Vec<Value> = Vec::new();
    proof {
        assert(ts.take(0) =~= seq![]);
        assert(said + seq![] =~= said);
    }
    for col in it: found
        invariant
            ts == syntax::trees(it.seq()),
            out@.len() == it.index(),
            forall|j: int|
                0 <= j < out@.len() ==> syntax::tree(#[trigger] out@[j]) == whole_column(ts[j]),
            diagnostic::reports(diags@) == said + if report {
                prefix_reports(ts.take(it.index() as int))
            } else {
                seq![]
            },
    {
        proof {
            let i = it.index() as int;
            assert(ts.take(i + 1).drop_last() =~= ts.take(i));
            assert(ts.take(i + 1).last() == syntax::tree(col));
        }
        let mut c = col;
        if unquote_index_column(&mut c) && report {
            let ghost held = diags@;
            let ghost told = prefix_reports(ts.take(it.index() as int));
            let d = prefix_warning();
            diags.push(d);
            proof {
                assert(diagnostic::reports(diags@) =~= diagnostic::reports(held).push(d@));
                assert(said + told.push(d@) =~= (said + told).push(d@));
            }
        }
        out.push(c);
    }
    proof {
        assert(ts.take(ts.len() as int) =~= ts);
        assert(syntax::trees(out@) =~= ts.map_values(|c: Tree| whole_column(c)));
    }
    list(out)
}

/// The report on an index that got another name.
pub open spec fn index_report(table: Seq<char>, name: Seq<char>) -> diagnostic::DiagnosticView {
    types::warning(
        LintRule::MysqlIndexRenamed,
        "Secondary index renamed to stay unique in DSQL's schema-wide index namespace."@,
        "Index `"@ + name + "` on table `"@ + table + "` was lifted to `CREATE INDEX "@
            + quoting::qualified(table, name)
            + "` (MySQL index names are per-table; DSQL's are schema-wide, so the original name could collide with an identically-named index on another table). Update any index hints or DROP INDEX statements that referenced the old name."@,
    )
}

/// `CREATE INDEX name ON table (columns)`.
pub open spec fn create_index(name: Tree, table: Tree, columns: Tree) -> Tree {
    let none = Tree::List(seq![]);
    let a = syntax::with_member(shapes::no_fields(), "name"@, name);
    let b = syntax::with_member(a, "table_name"@, table);
    let c = syntax::with_member(b, "using"@, Tree::Null);
    let d = syntax::with_member(c, "columns"@, columns);
    let e = syntax::with_member(d, "unique"@, Tree::Flag(false));
    let f = syntax::with_member(e, "concurrently"@, Tree::Flag(false));
    let g = syntax::with_member(f, "async"@, Tree::Flag(false));
    let h = syntax::with_member(g, "if_not_exists"@, Tree::Flag(false));
    let i = syntax::with_member(h, "include"@, none);
    let j = syntax::with_member(i, "nulls_distinct"@, Tree::Null);
    let k = syntax::with_member(j, "with"@, none);
    let l = syntax::with_member(k, "predicate"@, Tree::Null);
    let m = syntax::with_member(l, "index_options"@, none);
    syntax::variant("CreateIndex"@, syntax::with_member(m, "alter_options"@, none))
}

/// The statement that makes an index of a table, and the report on its new name.
pub open spec fn lifted(table: Tree, idx: Tree) -> (Tree, Seq<diagnostic::DiagnosticView>) {
    let table_leaf = quoting::leaf(name_match::items_of(table));
    let name = token::field(idx, "name"@);
    let columns = whole_columns(token::field(idx, "columns"@));
    if name is Null {
        (create_index(Tree::Null, table, columns), seq![])
    } else {
        let old_name = token::text_in(name, "value"@);
        let ident = quoting::qualified_ident(table_leaf, old_name);
        (
            create_index(
                Tree::List(seq![syntax::variant("Identifier"@, ident)]),
                table,
                columns,
            ),
            seq![index_report(table_leaf, old_name)],
        )
    }
}

fn no_items() -> (r: Value)
    ensures
        syntax::tree(r) == Tree::List(seq![]),
{
    let empty: Vec<Value> = Vec::new();
    proof {
        assert(syntax::trees(empty@) =~= seq![]);
    }
    list(empty)
}

pub fn make_create_index(name: Value, table: &Value, columns: Value) -> (r: Value)
    ensures
        syntax::tree(r) == create_index(
            syntax::tree(name),
            syntax::tree(*table),
            syntax::tree(columns),
        ),
{
    let mut v = record();
    put(&mut v, "name", name);
    put(&mut v, "table_name", copy(table));
    put(&mut v, "using", null());
    put(&mut v, "columns", columns);
    put(&mut v, "unique", flag(false));
    put(&mut v, "concurrently", flag(false));
    put(&mut v, "async", flag(false));
    put(&mut v, "if_not_exists", flag(false));
    put(&mut v, "include", no_items());
    put(&mut v, "nulls_distinct", null());
    put(&mut v, "with", no_items());
    put(&mut v, "predicate", null());
    put(&mut v, "index_options", no_items());
    put(&mut v, "alter_options", no_items());
    one("CreateIndex", v)
}

/// The statement that makes an index of a table. Its name is qualified by the table's: index
/// names are unique in a table of MySQL and in a schema of DSQL.
pub fn lift_index(
    table: &Value,
    table_leaf: &str,
    idx: &Value,
    diags: &mut Vec<Diagnostic>,
) -> (r: Value)
    requires
        table_leaf@ == quoting::leaf(name_match::items_of(syntax::tree(*table))),
    ensures
        ({
            let after = lifted(syntax::tree(*table), syntax::tree(*idx));
            &&& syntax::tree(r) == after.0
            &&& diagnostic::reports(final(diags)@) == diagnostic::reports(old(diags)@) + after.1
        }),
{
    let ghost said = diagnostic::reports(diags@);
    proof {
        assert(said + seq![] =~= said);
    }
    let name = field(idx, "name");
    let mut new_name = null();
    if !is_null(&name) {
        let old_name = read_value(&name);
        let mut parts: Vec<Value> = Vec::new();
        parts.push(one("Identifier", qualify_index_ident(table_leaf, old_name.as_str())));
        proof {
            assert(syntax::trees(parts@) =~= seq![
                syntax::variant(
                    "Identifier"@,
                    quoting::qualified_ident(table_leaf@, old_name@),
                ),
            ]);
        }
        new_name = list(parts);
        let mut detail = "Index `".to_owned();
        detail.append(old_name.as_str());
        detail.append("` on table `");
        detail.append(table_leaf);
        detail.append("` was lifted to `CREATE INDEX ");
        let mut full = table_leaf.to_owned();
        full.append("_");
        full.append(old_name.as_str());
        detail.append(full.as_str());
        detail.append(
            "` (MySQL index names are per-table; DSQL's are schema-wide, so the original name could collide with an identically-named index on another table). Update any index hints or DROP INDEX statements that referenced the old name.",
        );
        let report = warn(
            LintRule::MysqlIndexRenamed,
            "Secondary index renamed to stay unique in DSQL's schema-wide index namespace.",
            detail,
        );
        diags.push(report);
        proof {
            assert(diagnostic::reports(diags@) =~= said + seq![report@]);
        }
    }
    let ghost so_far = diagnostic::reports(diags@);
    let columns = unquote_columns(&field(idx, "columns"), false, diags);
    proof {
        assert(so_far + seq![] =~= so_far);
    }
    make_create_index(new_name, table, columns)
}

/// The report on a constraint that got another name.
pub open spec fn unique_report(table: Seq<char>, name: Seq<char>) -> diagnostic::DiagnosticView {
    types::warning(
        LintRule::MysqlIndexRenamed,
        "UNIQUE constraint renamed to stay unique in DSQL's schema-wide index namespace."@,
        "UNIQUE constraint `"@ + name + "` on table `"@ + table + "` was renamed to `"@
            + quoting::qualified(table, name)
            + "` (MySQL index names are per-table; DSQL's are schema-wide, so the original name could collide with an identically-named index/constraint on another table). Update any DROP CONSTRAINT statements that referenced the old name."@,
    )
}

/// A uniqueness constraint as PostgreSQL writes it: without the word `KEY`, and with its name
/// before it, qualified by the table's.
pub open spec fn renamed_unique(c: Tree, table: Seq<char>) -> (
    Tree,
    Seq<diagnostic::DiagnosticView>,
) {
    let plain = syntax::with_member(c, "index_type_display"@, Tree::Text("None"@));
    let name = if token::field(c, "name"@) is Null {
        token::field(c, "index_name"@)
    } else {
        token::field(c, "name"@)
    };
    let unindexed = syntax::with_member(plain, "index_name"@, Tree::Null);
    if name is Null {
        (syntax::with_member(unindexed, "name"@, Tree::Null), seq![])
    } else {
        let old_name = token::text_in(name, "value"@);
        (
            syntax::with_member(unindexed, "name"@, quoting::qualified_ident(table, old_name)),
            seq![unique_report(table, old_name)],
        )
    }
}

/// A key without backticks and without prefix lengths, and the reports on the latter.
pub open spec fn whole_key(c: Tree) -> (Tree, Seq<diagnostic::DiagnosticView>) {
    let a = syntax::with_member(c, "name"@, quoting::unquoted(token::field(c, "name"@)));
    let b = syntax::with_member(
        a,
        "index_name"@,
        quoting::unquoted(token::field(c, "index_name"@)),
    );
    (
        syntax::with_member(b, "columns"@, whole_columns(token::field(c, "columns"@))),
        prefix_reports(name_match::items_of(token::field(c, "columns"@))),
    )
}

/// A foreign key without backticks.
pub open spec fn plain_foreign_key(c: Tree) -> Tree {
    let a = syntax::with_member(c, "name"@, quoting::unquoted(token::field(c, "name"@)));
    let b = syntax::with_member(
        a,
        "foreign_table"@,
        quoting::unquoted_name(token::field(c, "foreign_table"@)),
    );
    let d = syntax::with_member(b, "columns"@, quoting::unquoted_list(token::field(c, "columns"@)));
    syntax::with_member(
        d,
        "referred_columns"@,
        quoting::unquoted_list(token::field(c, "referred_columns"@)),
    )
}

/// A check without backticks.
pub open spec fn plain_check(c: Tree) -> Tree {
    let a = syntax::with_member(c, "name"@, quoting::unquoted(token::field(c, "name"@)));
    syntax::with_member(a, "expr"@, syntax::requoted(token::field(c, "expr"@)))
}

/// A constraint of a table, and the reports on what it loses.
pub open spec fn translated_constraint(t: Tree, table: Seq<char>) -> (
    Tree,
    Seq<diagnostic::DiagnosticView>,
) {
    match syntax::member(t, "Unique"@) {
        Some(c) => {
            let named = renamed_unique(c, table);
            let key = whole_key(named.0);
            (syntax::with_member(t, "Unique"@, key.0), named.1 + key.1)
        },
        None => match syntax::member(t, "PrimaryKey"@) {
            Some(c) => (syntax::with_member(t, "PrimaryKey"@, whole_key(c).0), whole_key(c).1),
            None => match syntax::member(t, "ForeignKey"@) {
                Some(c) => (syntax::with_member(t, "ForeignKey"@, plain_foreign_key(c)), seq![]),
                None => match syntax::member(t, "Check"@) {
                    Some(c) => (syntax::with_member(t, "Check"@, plain_check(c)), seq![]),
                    None => (t, seq![]),
                },
            },
        },
    }
}

fn unquote_field(c: &mut Value, key: &str)
    ensures
        syntax::tree(*final(c)) == syntax::with_member(
            syntax::tree(*old(c)),
            key@,
            quoting::unquoted(token::field(syntax::tree(*old(c)), key@)),
        ),
{
    let mut ident = field(c, key);
    unquote_ident(&mut ident);
    put(c, key, ident);
}

fn rename_unique(c: &Value, table_leaf: &str, diags: &mut Vec<Diagnostic>) -> (r: Value)
    ensures
        ({
            let after = renamed_unique(syntax::tree(*c), table_leaf@);
            &&& syntax::tree(r) == after.0
            &&& diagnostic::reports(final(diags)@) == diagnostic::reports(old(diags)@) + after.1
        }),
{
    let ghost said = diagnostic::reports(diags@);
    proof {
        assert(said + seq![] =~= said);
    }
    let mut out = copy(c);
    let mut name = field(c, "name");
    if is_null(&name) {
        name = field(c, "index_name");
    }
    put(&mut out, "index_type_display", string("None"));
    put(&mut out, "index_name", null());
    if is_null(&name) {
        put(&mut out, "name", null());
        return out;
    }
    let old_name = read_value(&name);
    let mut detail = "UNIQUE constraint `".to_owned();
    detail.append(old_name.as_str());
    detail.append("` on table `");
    detail.append(table_leaf);
    detail.append("` was renamed to `");
    let mut full = table_leaf.to_owned();
    full.append("_");
    full.append(old_name.as_str());
    detail.append(full.as_str());
    detail.append(
        "` (MySQL index names are per-table; DSQL's are schema-wide, so the original name could collide with an identically-named index/constraint on another table). Update any DROP CONSTRAINT statements that referenced the old name.",
    );
    let report = warn(
        LintRule::MysqlIndexRenamed,
        "UNIQUE constraint renamed to stay unique in DSQL's schema-wide index namespace.",
        detail,
    );
    diags.push(report);
    proof {
        assert(diagnostic::reports(diags@) =~= said + seq![report@]);
    }
    put(&mut out, "name", qualify_index_ident(table_leaf, old_name.as_str()));
    out
}

fn unquote_key(c: &Value, diags: &mut Vec<Diagnostic>) -> (r: Value)
    ensures
        ({
            let after = whole_key(syntax::tree(*c));
            &&& syntax::tree(r) == after.0
            &&& diagnostic::reports(final(diags)@) == diagnostic::reports(old(diags)@) + after.1
        }),
{
    let mut name = field(c, "name");
    unquote_ident(&mut name);
    let mut index_name = field(c, "index_name");
    unquote_ident(&mut index_name);
    let columns = unquote_columns(&field(c, "columns"), true, diags);
    let mut out = copy(c);
    put(&mut out, "name", name);
    put(&mut out, "index_name", index_name);
    put(&mut out, "columns", columns);
    out
}

fn unquote_foreign_key(c: &Value) -> (r: Value)
    ensures
        syntax::tree(r) == plain_foreign_key(syntax::tree(*c)),
{
    let mut out = copy(c);
    unquote_field(&mut out, "name");
    put(&mut out, "foreign_table", unquote_object_name(&field(c, "foreign_table")));
    put(&mut out, "columns", unquote_idents(&field(c, "columns")));
    put(&mut out, "referred_columns", unquote_idents(&field(c, "referred_columns")));
    out
}

fn unquote_check(c: &Value) -> (r: Value)
    ensures
        syntax::tree(r) == plain_check(syntax::tree(*c)),
{
    let mut out = copy(c);
    unquote_field(&mut out, "name");
    put(&mut out, "expr", requote(&field(c, "expr")));
    out
}

/// Takes the backticks off a constraint, and what else PostgreSQL does not read.
pub fn unquote_constraint(
    constraint: &Value,
    table_leaf: &str,
    diags: &mut Vec<Diagnostic>,
) -> (r: Value)
    ensures
        ({
            let after = translated_constraint(syntax::tree(*constraint), table_leaf@);
            &&& syntax::tree(r) == after.0
            &&& diagnostic::reports(final(diags)@) == diagnostic::reports(old(diags)@) + after.1
        }),
{
    let ghost said = diagnostic::reports(diags@);
    proof {
        assert(said + seq![] =~= said);
    }
    let mut out = copy(constraint);
    if let Some(c) = get(constraint, "Unique") {
        let named = rename_unique(c, table_leaf, diags);
        let key = unquote_key(&named, diags);
        put(&mut out, "Unique", key);
        proof {
            assert(diagnostic::reports(diags@) =~= said + translated_constraint(
                syntax::tree(*constraint),
                table_leaf@,
            ).1);
        }
    } else if let Some(c) = get(constraint, "PrimaryKey") {
        put(&mut out, "PrimaryKey", unquote_key(c, diags));
    } else if let Some(c) = get(constraint, "ForeignKey") {
        put(&mut out, "ForeignKey", unquote_foreign_key(c));
    } else if let Some(c) = get(constraint, "Check") {
        put(&mut out, "Check", unquote_check(c));
    }
    out
}

} // verus!
