//! MySQL DDL as DSQL.
//!
//! Each statement of a MySQL script is parsed in MySQL's dialect, and its tree is made one that
//! PostgreSQL's dialect can print; the statements then go through the fixer like any others.

use serde_json::Value;
use vstd::prelude::*;
use vstd::string::StringExecFns;

use crate::diagnostic::{self, Diagnostic, FixOutput, FixResult, LintRule};
use crate::lint::{self, fix_statements};
use crate::mysql::column::{auto_increment_seed, normalize_column, AutoIncrement};
use crate::mysql::index::{lift_index, unquote_constraint};
use crate::mysql::quoting::{object_name_leaf, unquote_object_name};
use crate::rules::name_match;
use crate::shapes::{field, items};
use crate::split::{self, split_statements_dialect, Part};
use crate::syntax::{self, copy, get, list, parse, put, show, string, Dialect, Tree};
use crate::text::{self, same, strip_trailing, trim, trim_end};
use crate::token::{self, read_tokens, Token, TokenClass};
use crate::transactions::{self, has_kind};

pub mod column;
pub mod index;
pub mod literal;
pub mod quoting;
pub mod types;

verus! {

/// Whether a statement changes rows.
pub open spec fn changes_rows(t: Tree) -> bool {
    ||| transactions::is_kind(t, "Insert"@)
    ||| transactions::is_kind(t, "Update"@)
    ||| transactions::is_kind(t, "Delete"@)
}

/// Whether a statement is one that only MySQL needs.
pub open spec fn only_mysql(t: Tree) -> bool {
    ||| transactions::is_kind(t, "LockTables"@)
    ||| transactions::is_kind(t, "UnlockTables"@)
    ||| transactions::is_kind(t, "Set"@)
    ||| transactions::is_kind(t, "Use"@)
}

/// The word for a statement that changes rows.
pub open spec fn rows_word(t: Tree) -> Seq<char> {
    if transactions::is_kind(t, "Insert"@) {
        "INSERT"@
    } else if transactions::is_kind(t, "Update"@) {
        "UPDATE"@
    } else if transactions::is_kind(t, "Delete"@) {
        "DELETE"@
    } else {
        "DML"@
    }
}

/// The report on a statement that changes rows: it is left out.
pub open spec fn rows_report(part: (usize, Seq<char>), t: Tree) -> diagnostic::DiagnosticView {
    diagnostic::DiagnosticView {
        rule: LintRule::MysqlDataStatementDropped,
        line: part.0,
        statement: part.1,
        message: rows_word(t)
            + " statement dropped: fix_sql_mysql translates DDL only, not row data."@,
        suggestion: "Load table data through the loader's data path; MySQL string escaping is not faithfully translatable to DSQL here."@,
        fix_result: diagnostic::FixView::Unfixable,
    }
}

/// A text without the semicolons and the white space around it.
pub open spec fn bare_text(s: Seq<char>) -> Seq<char> {
    text::trimmed_end(text::without_trailing(text::trimmed(s), ';'))
}

/// Whether a keyword can stand between `CREATE` and what is created.
pub open spec fn is_modifier(k: Seq<char>) -> bool {
    ||| k == "TEMPORARY"@
    ||| k == "OR"@
    ||| k == "REPLACE"@
    ||| k == "IF"@
    ||| k == "NOT"@
    ||| k == "EXISTS"@
    ||| k == "DEFINER"@
    ||| k == "SQL"@
    ||| k == "SECURITY"@
    ||| k == "ALGORITHM"@
    ||| k == "UNDEFINED"@
    ||| k == "MERGE"@
    ||| k == "INVOKER"@
}

/// Whether the words from `at` on name a table, after modifiers.
pub open spec fn names_table(ts: Seq<token::TokenView>, at: int) -> bool
    decreases ts.len() - at,
{
    if !(0 <= at < ts.len()) {
        false
    } else if ts[at].class != TokenClass::Word || is_modifier(ts[at].keyword) {
        names_table(ts, at + 1)
    } else {
        ts[at].keyword == "TABLE"@
    }
}

/// Whether the tokens from `at` on open a `CREATE TABLE`.
pub open spec fn opens_table(ts: Seq<token::TokenView>, at: int) -> bool
    decreases ts.len() - at,
{
    if !(0 <= at < ts.len()) {
        false
    } else if ts[at].class != TokenClass::Word {
        opens_table(ts, at + 1)
    } else {
        ts[at].keyword == "CREATE"@ && names_table(ts, at + 1)
    }
}

/// Whether a text opens a `CREATE TABLE`.
pub open spec fn creates_table(sql: Seq<char>) -> bool {
    match token::tokens_of(Dialect::MySql, sql) {
        Ok(ts) => opens_table(ts, 0),
        Err(_) => false,
    }
}

pub fn dml_dropped_warning(line: usize, stmt: &Value, stmt_sql: &str) -> (r: Diagnostic)
    ensures
        r@ == rows_report((line, stmt_sql@), syntax::tree(*stmt)),
{
    let mut message = (if has_kind(stmt, "Insert") {
        "INSERT"
    } else if has_kind(stmt, "Update") {
        "UPDATE"
    } else if has_kind(stmt, "Delete") {
        "DELETE"
    } else {
        "DML"
    }).to_owned();
    message.append(" statement dropped: fix_sql_mysql translates DDL only, not row data.");
    Diagnostic {
        rule: LintRule::MysqlDataStatementDropped,
        line,
        statement: stmt_sql.to_owned(),
        message,
        suggestion: "Load table data through the loader's data path; MySQL string escaping is not faithfully translatable to DSQL here.".to_owned(),
        fix_result: FixResult::Unfixable,
    }
}

pub fn is_dml(stmt: &Value) -> (r: bool)
    ensures
        r == changes_rows(syntax::tree(*stmt)),
{
    has_kind(stmt, "Insert") || has_kind(stmt, "Update") || has_kind(stmt, "Delete")
}

pub fn is_mysql_only_noise(stmt: &Value) -> (r: bool)
    ensures
        r == only_mysql(syntax::tree(*stmt)),
{
    has_kind(stmt, "LockTables") || has_kind(stmt, "UnlockTables") || has_kind(stmt, "Set")
        || has_kind(stmt, "Use")
}

fn strip_trailing_semicolon(s: &str) -> (r: String)
    ensures
        r@ == bare_text(s@),
{
    trim_end(strip_trailing(trim(s).as_str(), ';').as_str())
}

fn is_create_modifier(k: &str) -> (r: bool)
    ensures
        r == is_modifier(k@),
{
    same(k, "TEMPORARY") || same(k, "OR") || same(k, "REPLACE") || same(k, "IF") || same(k, "NOT")
        || same(k, "EXISTS") || same(k, "DEFINER") || same(k, "SQL") || same(k, "SECURITY")
        || same(k, "ALGORITHM") || same(k, "UNDEFINED") || same(k, "MERGE") || same(k, "INVOKER")
}

/// Whether a statement that does not parse opens a `CREATE TABLE`, so that it must not be
/// passed over. Comments before it make no difference.
#[verifier::loop_isolation(false)]
pub fn opens_create_table(stmt_sql: &str) -> (r: bool)
    ensures
        r == creates_table(stmt_sql@),
{
    let tokens = match read_tokens(Dialect::MySql, stmt_sql) {
        Ok(tokens) => tokens,
        Err(_) => {
            return false;
        },
    };
    let ghost ts = token::token_views(tokens@);
    let size: usize = tokens.len();
    let mut at: usize = 0;
    while at < size
        invariant
            at <= size == tokens@.len(),
            ts == token::token_views(tokens@),
            creates_table(stmt_sql@) == opens_table(ts, 0),
            opens_table(ts, 0) == opens_table(ts, at as int),
        decreases size - at,
    {
        proof {
            assert(ts[at as int] == tokens@[at as int]@);
        }
        if tokens[at].class == TokenClass::Word {
            break;
        }
        at += 1;
    }
    if at == size {
        return false;
    }
    proof {
        assert(ts[at as int] == tokens@[at as int]@);
    }
    if !same(tokens[at].keyword.as_str(), "CREATE") {
        return false;
    }
    let mut next: usize = at + 1;
    while next < size
        invariant
            next <= size == tokens@.len(),
            ts == token::token_views(tokens@),
            creates_table(stmt_sql@) == names_table(ts, next as int),
        decreases size - next,
    {
        proof {
            assert(ts[next as int] == tokens@[next as int]@);
        }
        let token: &Token = &tokens[next];
        if token.class == TokenClass::Word && !is_create_modifier(token.keyword.as_str()) {
            return same(token.keyword.as_str(), "TABLE");
        }
        next += 1;
    }
    false
}

/// The columns of a table, and the reports on what they lose.
pub open spec fn translated_columns(cols: Seq<Tree>, seed: AutoIncrement) -> (
    Seq<Tree>,
    Seq<diagnostic::DiagnosticView>,
)
    decreases cols.len(),
{
    if cols.len() == 0 {
        (seq![], seq![])
    } else {
        let before = translated_columns(cols.drop_last(), seed);
        let last = column::translated_column(cols.last(), seed);
        (before.0.push(last.0), before.1 + last.1)
    }
}

/// What becomes of the constraints of a table.
pub ghost struct Constraints {
    /// Those that stay in the table.
    pub kept: Seq<Tree>,
    /// The statements that make its indexes.
    pub lifted: Seq<Tree>,
    pub reports: Seq<diagnostic::DiagnosticView>,
}

/// What becomes of the constraints of a table: an index becomes a statement of its own.
pub open spec fn translated_constraints(cs: Seq<Tree>, table: Tree) -> Constraints
    decreases cs.len(),
{
    if cs.len() == 0 {
        Constraints { kept: seq![], lifted: seq![], reports: seq![] }
    } else {
        let before = translated_constraints(cs.drop_last(), table);
        match syntax::member(cs.last(), "Index"@) {
            Some(idx) => {
                let one = index::lifted(table, idx);
                Constraints {
                    kept: before.kept,
                    lifted: before.lifted.push(one.0),
                    reports: before.reports + one.1,
                }
            },
            None => {
                let one = index::translated_constraint(
                    cs.last(),
                    quoting::leaf(name_match::items_of(table)),
                );
                Constraints {
                    kept: before.kept.push(one.0),
                    lifted: before.lifted,
                    reports: before.reports + one.1,
                }
            },
        }
    }
}

/// What becomes of one statement.
pub ghost struct Translation {
    pub stmt: Tree,
    /// The statements that follow it.
    pub extra: Seq<Tree>,
    pub reports: Seq<diagnostic::DiagnosticView>,
}

/// A table of MySQL as one of DSQL.
pub open spec fn translated_table(ct: Tree) -> Translation {
    let name = quoting::unquoted_name(token::field(ct, "name"@));
    let seed = column::seed_of(token::field(ct, "table_options"@));
    let cols = translated_columns(name_match::items_of(token::field(ct, "columns"@)), seed);
    let cs = translated_constraints(name_match::items_of(token::field(ct, "constraints"@)), name);
    let a = syntax::with_member(ct, "name"@, name);
    let b = syntax::with_member(a, "columns"@, Tree::List(cols.0));
    let c = syntax::with_member(b, "constraints"@, Tree::List(cs.kept));
    Translation {
        stmt: syntax::with_member(c, "table_options"@, Tree::Text("None"@)),
        extra: cs.lifted,
        reports: cols.1 + cs.reports,
    }
}

/// The names that a statement drops, without backticks.
pub open spec fn unquoted_names(names: Tree) -> Tree {
    Tree::List(name_match::items_of(names).map_values(|n: Tree| quoting::unquoted_name(n)))
}

/// A statement of MySQL as one of DSQL.
pub open spec fn translated(t: Tree) -> Translation {
    match syntax::member(t, "Drop"@) {
        Some(drop) => Translation {
            stmt: syntax::with_member(
                t,
                "Drop"@,
                syntax::with_member(
                    drop,
                    "names"@,
                    unquoted_names(token::field(drop, "names"@)),
                ),
            ),
            extra: seq![],
            reports: seq![],
        },
        None => match syntax::member(t, "CreateTable"@) {
            Some(ct) => {
                let table = translated_table(ct);
                Translation {
                    stmt: syntax::with_member(t, "CreateTable"@, table.stmt),
                    extra: table.extra,
                    reports: table.reports,
                }
            },
            None => Translation { stmt: t, extra: seq![], reports: seq![] },
        },
    }
}

pub fn normalize_columns(
    cols: Vec<Value>,
    seed: AutoIncrement,
    diags: &mut Vec<Diagnostic>,
) -> (r: Vec<Value>)
    ensures
        ({
            let after = translated_columns(syntax::trees(cols@), seed);
            &&& syntax::trees(r@) == after.0
            &&& diagnostic::reports(final(diags)@) == diagnostic::reports(old(diags)@) + after.1
        }),
{
    let ghost ts = syntax::trees(cols@);
    let ghost said = diagnostic::reports(diags@);
    let mut out: Vec<Value> = Vec::new();
    proof {
        assert(ts.take(0) =~= seq![]);
        assert(syntax::trees(out@) =~= seq![]);
        assert(said + seq![] =~= said);
    }
    for col in it: cols
        invariant
            ts == syntax::trees(it.seq()),
            syntax::trees(out@) == translated_columns(ts.take(it.index() as int), seed).0,
            diagnostic::reports(diags@) == said + translated_columns(
                ts.take(it.index() as int),
                seed,
            ).1,
    {
        let ghost held = out@;
        let ghost told = translated_columns(ts.take(it.index() as int), seed).1;
        proof {
            let i = it.index() as int;
            assert(ts.take(i + 1).drop_last() =~= ts.take(i));
            assert(ts.take(i + 1).last() == syntax::tree(col));
        }
        let c = normalize_column(&col, seed, diags);
        out.push(c);
        proof {
            let last = column::translated_column(syntax::tree(col), seed);
            assert(syntax::trees(out@) =~= syntax::trees(held).push(last.0));
            assert(said + (told + last.1) =~= (said + told) + last.1);
        }
    }
    proof {
        assert(ts.take(ts.len() as int) =~= ts);
    }
    out
}

pub fn normalize_constraints(
    cs: Vec<Value>,
    table: &Value,
    diags: &mut Vec<Diagnostic>,
) -> (r: (Vec<Value>, Vec<Value>))
    ensures
        ({
            let after = translated_constraints(syntax::trees(cs@), syntax::tree(*table));
            &&& syntax::trees(r.0@) == after.kept
            &&& syntax::trees(r.1@) == after.lifted
            &&& diagnostic::reports(final(diags)@) == diagnostic::reports(old(diags)@)
                + after.reports
        }),
{
    let ghost ts = syntax::trees(cs@);
    let ghost t = syntax::tree(*table);
    let ghost said = diagnostic::reports(diags@);
    let table_leaf = object_name_leaf(table);
    let mut kept: Vec<Value> = Vec::new();
    let mut lifted: Vec<Value> = Vec::new();
    proof {
        assert(ts.take(0) =~= seq![]);
        assert(syntax::trees(kept@) =~= seq![]);
        assert(syntax::trees(lifted@) =~= seq![]);
        assert(said + seq![] =~= said);
    }
    for constraint in it: cs
        invariant
            ts == syntax::trees(it.seq()),
            t == syntax::tree(*table),
            table_leaf@ == quoting::leaf(name_match::items_of(t)),
            syntax::trees(kept@) == translated_constraints(ts.take(it.index() as int), t).kept,
            syntax::trees(lifted@) == translated_constraints(
                ts.take(it.index() as int),
                t,
            ).lifted,
            diagnostic::reports(diags@) == said + translated_constraints(
                ts.take(it.index() as int),
                t,
            ).reports,
    {
        let ghost told = translated_constraints(ts.take(it.index() as int), t).reports;
        proof {
            let i = it.index() as int;
            assert(ts.take(i + 1).drop_last() =~= ts.take(i));
            assert(ts.take(i + 1).last() == syntax::tree(constraint));
        }
        match get(&constraint, "Index") {
            Some(idx) => {
                let ghost held = lifted@;
                let stmt = lift_index(table, table_leaf.as_str(), idx, diags);
                lifted.push(stmt);
                proof {
                    let one = index::lifted(t, syntax::tree(*idx));
                    assert(syntax::trees(lifted@) =~= syntax::trees(held).push(one.0));
                    assert(said + (told + one.1) =~= (said + told) + one.1);
                }
            },
            None => {
                let ghost held = kept@;
                let c = unquote_constraint(&constraint, table_leaf.as_str(), diags);
                kept.push(c);
                proof {
                    let one = index::translated_constraint(
                        syntax::tree(constraint),
                        table_leaf@,
                    );
                    assert(syntax::trees(kept@) =~= syntax::trees(held).push(one.0));
                    assert(said + (told + one.1) =~= (said + told) + one.1);
                }
            },
        }
    }
    proof {
        assert(ts.take(ts.len() as int) =~= ts);
    }
    (kept, lifted)
}

fn unquote_names(names: &Value) -> (r: Value)
    ensures
        syntax::tree(r) == unquoted_names(syntax::tree(*names)),
{
    let found = items(names);
    let ghost ts = syntax::trees(found@);
    let mut out: Vec<Value> = Vec::new();
    for name in it: found
        invariant
            ts == syntax::trees(it.seq()),
            out@.len() == it.index(),
            forall|j: int|
                0 <= j < out@.len() ==> syntax::tree(#[trigger] out@[j]) == quoting::unquoted_name(
                    ts[j],
                ),
    {
        proof {
            assert(ts[it.index() as int] == syntax::tree(name));
        }
        out.push(unquote_object_name(&name));
    }
    proof {
        assert(syntax::trees(out@) =~= ts.map_values(|n: Tree| quoting::unquoted_name(n)));
    }
    list(out)
}

/// Translates one statement; the statements that must follow it are returned.
pub fn normalize_statement(stmt: &mut Value, diags: &mut Vec<Diagnostic>) -> (r: Vec<Value>)
    ensures
        ({
            let after = translated(syntax::tree(*old(stmt)));
            &&& syntax::tree(*final(stmt)) == after.stmt
            &&& syntax::trees(r@) == after.extra
            &&& diagnostic::reports(final(diags)@) == diagnostic::reports(old(diags)@)
                + after.reports
        }),
{
    let ghost said = diagnostic::reports(diags@);
    let nothing: Vec<Value> = Vec::new();
    proof {
        assert(said + seq![] =~= said);
        assert(syntax::trees(nothing@) =~= seq![]);
    }
    let dropped = match get(stmt, "Drop") {
        Some(d) => Some(copy(d)),
        None => None,
    };
    if let Some(mut d) = dropped {
        let names = unquote_names(&field(&d, "names"));
        put(&mut d, "names", names);
        put(stmt, "Drop", d);
        return nothing;
    }
    let ct = match get(stmt, "CreateTable") {
        Some(ct) => copy(ct),
        None => {
            return nothing;
        },
    };
    let name = unquote_object_name(&field(&ct, "name"));
    let seed = auto_increment_seed(&field(&ct, "table_options"));
    let columns = normalize_columns(items(&field(&ct, "columns")), seed, diags);
    let (kept, lifted) = normalize_constraints(items(&field(&ct, "constraints")), &name, diags);
    let mut table = ct;
    put(&mut table, "name", name);
    put(&mut table, "columns", list(columns));
    put(&mut table, "constraints", list(kept));
    put(&mut table, "table_options", string("None"));
    put(stmt, "CreateTable", table);
    proof {
        assert(diagnostic::reports(diags@) =~= said + translated(
            syntax::tree(*old(stmt)),
        ).reports);
    }
    lifted
}

/// A report with the place of the statement that it is about.
pub open spec fn located(
    part: (usize, Seq<char>),
    d: diagnostic::DiagnosticView,
) -> diagnostic::DiagnosticView {
    diagnostic::DiagnosticView { line: part.0, statement: part.1, ..d }
}

/// Reports with the place of the statement that they are about.
pub open spec fn located_all(
    part: (usize, Seq<char>),
    ds: Seq<diagnostic::DiagnosticView>,
) -> Seq<diagnostic::DiagnosticView> {
    ds.map_values(|d: diagnostic::DiagnosticView| located(part, d))
}

/// Statements as parts of a script, at a line.
pub open spec fn printed_at(line: usize, ts: Seq<Tree>) -> Seq<(usize, Seq<char>)> {
    ts.map_values(|t: Tree| (line, syntax::shown(t)))
}

/// The parts that stand for one statement, and the reports on it.
pub open spec fn translated_stmt(part: (usize, Seq<char>), t: Tree) -> (
    Seq<(usize, Seq<char>)>,
    Seq<diagnostic::DiagnosticView>,
) {
    if only_mysql(t) {
        (seq![], seq![])
    } else if changes_rows(t) {
        (seq![], seq![rows_report(part, t)])
    } else {
        let tr = translated(t);
        (
            seq![(part.0, syntax::shown(tr.stmt))] + printed_at(part.0, tr.extra),
            located_all(part, tr.reports),
        )
    }
}

/// The parts that stand for the statements of one part, and the reports on them.
pub open spec fn translated_stmts(part: (usize, Seq<char>), ts: Seq<Tree>) -> (
    Seq<(usize, Seq<char>)>,
    Seq<diagnostic::DiagnosticView>,
)
    decreases ts.len(),
{
    if ts.len() == 0 {
        (seq![], seq![])
    } else {
        let before = translated_stmts(part, ts.drop_last());
        let last = translated_stmt(part, ts.last());
        (before.0 + last.0, before.1 + last.1)
    }
}

/// The parts that stand for one part of a MySQL script, and the reports on it. What does not
/// parse goes, but for a table, which stays for the fixer to report.
pub open spec fn translated_part(part: (usize, Seq<char>)) -> (
    Seq<(usize, Seq<char>)>,
    Seq<diagnostic::DiagnosticView>,
) {
    match syntax::statements(Dialect::MySql, part.1) {
        Ok(ts) => translated_stmts(part, ts),
        Err(_) => (
            if creates_table(part.1) {
                seq![(part.0, bare_text(part.1))]
            } else {
                seq![]
            },
            seq![],
        ),
    }
}

/// The parts that stand for a MySQL script, and the reports on it.
pub open spec fn translated_parts(parts: Seq<(usize, Seq<char>)>) -> (
    Seq<(usize, Seq<char>)>,
    Seq<diagnostic::DiagnosticView>,
)
    decreases parts.len(),
{
    if parts.len() == 0 {
        (seq![], seq![])
    } else {
        let before = translated_parts(parts.drop_last());
        let last = translated_part(parts.last());
        (before.0 + last.0, before.1 + last.1)
    }
}

/// The parts of a MySQL script; one that is no sequence of tokens is a part of its own.
pub open spec fn mysql_parts(sql: Seq<char>) -> Seq<(usize, Seq<char>)> {
    match split::split(Dialect::MySql, sql) {
        Ok(parts) => parts,
        Err(_) => seq![(1, sql)],
    }
}

/// A report put behind those of its own line and of the lines before it.
pub open spec fn inserted(
    ds: Seq<diagnostic::DiagnosticView>,
    d: diagnostic::DiagnosticView,
) -> Seq<diagnostic::DiagnosticView>
    decreases ds.len(),
{
    if ds.len() == 0 || ds.last().line <= d.line {
        ds.push(d)
    } else {
        inserted(ds.drop_last(), d).push(ds.last())
    }
}

/// The reports by their lines; those of one line stay in their order.
pub open spec fn by_line(ds: Seq<diagnostic::DiagnosticView>) -> Seq<diagnostic::DiagnosticView>
    decreases ds.len(),
{
    if ds.len() == 0 {
        seq![]
    } else {
        inserted(by_line(ds.drop_last()), ds.last())
    }
}

/// The script that stands for a MySQL script, and the reports on it.
pub open spec fn fixed_mysql(sql: Seq<char>) -> (Seq<char>, Seq<diagnostic::DiagnosticView>) {
    let tr = translated_parts(mysql_parts(sql));
    let after = lint::fixed_script(tr.0);
    (lint::script_text(after.0), by_line(tr.1 + after.1))
}

fn push_located(part: &Part, found: Vec<Diagnostic>, diags: &mut Vec<Diagnostic>)
    ensures
        diagnostic::reports(final(diags)@) == diagnostic::reports(old(diags)@) + located_all(
            (part.0, part.1@),
            diagnostic::reports(found@),
        ),
{
    let ghost view = (part.0, part.1@);
    let ghost said = diagnostic::reports(diags@);
    let ghost ds = located_all(view, diagnostic::reports(found@));
    proof {
        assert(said + ds.take(0) =~= said);
    }
    for d in it: found
        invariant
            view == (part.0, part.1@),
            ds == located_all(view, diagnostic::reports(it.seq())),
            diagnostic::reports(diags@) == said + ds.take(it.index() as int),
    {
        let ghost held = diags@;
        let moved = Diagnostic {
            rule: d.rule,
            line: part.0,
            statement: part.1.clone(),
            message: d.message,
            suggestion: d.suggestion,
            fix_result: d.fix_result,
        };
        proof {
            let i = it.index() as int;
            assert(diagnostic::reports(it.seq())[i] == d@);
            assert(moved@ == ds[i]);
            assert(ds.take(i + 1) =~= ds.take(i).push(ds[i]));
        }
        diags.push(moved);
        proof {
            assert(diagnostic::reports(diags@) =~= diagnostic::reports(held).push(moved@));
            assert(diagnostic::reports(diags@) =~= said + ds.take(it.index() + 1));
        }
    }
    proof {
        assert(ds.take(ds.len() as int) =~= ds);
    }
}

fn print_at(line: usize, stmts: &Vec<Value>, out: &mut Vec<Part>)
    ensures
        split::parts_view(final(out)@) == split::parts_view(old(out)@) + printed_at(
            line,
            syntax::trees(stmts@),
        ),
{
    let ghost held = split::parts_view(out@);
    let ghost ps = printed_at(line, syntax::trees(stmts@));
    let mut i: usize = 0;
    proof {
        assert(held + ps.take(0) =~= held);
    }
    while i < stmts.len()
        invariant
            i <= stmts@.len(),
            ps == printed_at(line, syntax::trees(stmts@)),
            split::parts_view(out@) == held + ps.take(i as int),
        decreases stmts@.len() - i,
    {
        let ghost before = out@;
        let sql = show(&stmts[i]);
        let ghost view = (line, sql@);
        out.push((line, sql));
        proof {
            assert(syntax::trees(stmts@)[i as int] == syntax::tree(stmts@[i as int]));
            assert(ps[i as int] == view);
            assert(split::parts_view(out@) =~= split::parts_view(before).push(view));
            assert(held + ps.take(i + 1) =~= (held + ps.take(i as int)).push(view));
        }
        i += 1;
    }
    proof {
        assert(ps.take(i as int) =~= ps);
    }
}

pub fn translate_stmt(part: &Part, stmt: Value, out: &mut Vec<Part>, diags: &mut Vec<Diagnostic>)
    ensures
        ({
            let after = translated_stmt((part.0, part.1@), syntax::tree(stmt));
            &&& split::parts_view(final(out)@) == split::parts_view(old(out)@) + after.0
            &&& diagnostic::reports(final(diags)@) == diagnostic::reports(old(diags)@) + after.1
        }),
{
    let ghost held = split::parts_view(out@);
    let ghost said = diagnostic::reports(diags@);
    proof {
        assert(held + seq![] =~= held);
        assert(said + seq![] =~= said);
    }
    if is_mysql_only_noise(&stmt) {
        return ;
    }
    if is_dml(&stmt) {
        let report = dml_dropped_warning(part.0, &stmt, part.1.as_str());
        diags.push(report);
        proof {
            assert(diagnostic::reports(diags@) =~= said + seq![report@]);
        }
        return ;
    }
    let mut found: Vec<Diagnostic> = Vec::new();
    proof {
        assert(diagnostic::reports(found@) =~= seq![]);
    }
    let mut s = stmt;
    let extra = normalize_statement(&mut s, &mut found);
    proof {
        assert(diagnostic::reports(found@) =~= translated(syntax::tree(stmt)).reports);
    }
    push_located(part, found, diags);
    let sql = show(&s);
    let ghost view = (part.0, sql@);
    out.push((part.0, sql));
    proof {
        assert(split::parts_view(out@) =~= held + seq![view]);
    }
    print_at(part.0, &extra, out);
    proof {
        let rest = printed_at(part.0, syntax::trees(extra@));
        assert(held + (seq![view] + rest) =~= (held + seq![view]) + rest);
    }
}

pub fn translate_part(part: Part, out: &mut Vec<Part>, diags: &mut Vec<Diagnostic>)
    ensures
        ({
            let after = translated_part((part.0, part.1@));
            &&& split::parts_view(final(out)@) == split::parts_view(old(out)@) + after.0
            &&& diagnostic::reports(final(diags)@) == diagnostic::reports(old(diags)@) + after.1
        }),
{
    let ghost view = (part.0, part.1@);
    let ghost held = split::parts_view(out@);
    let ghost said = diagnostic::reports(diags@);
    proof {
        assert(held + seq![] =~= held);
        assert(said + seq![] =~= said);
    }
    match parse(Dialect::MySql, part.1.as_str()) {
        Ok(stmts) => {
            let ghost ts = syntax::trees(stmts@);
            proof {
                assert(ts.take(0) =~= seq![]);
            }
            for stmt in it: stmts
                invariant
                    view == (part.0, part.1@),
                    ts == syntax::trees(it.seq()),
                    split::parts_view(out@) == held + translated_stmts(
                        view,
                        ts.take(it.index() as int),
                    ).0,
                    diagnostic::reports(diags@) == said + translated_stmts(
                        view,
                        ts.take(it.index() as int),
                    ).1,
            {
                proof {
                    let i = it.index() as int;
                    assert(ts.take(i + 1).drop_last() =~= ts.take(i));
                    assert(ts.take(i + 1).last() == syntax::tree(stmt));
                    let before = translated_stmts(view, ts.take(i));
                    let last = translated_stmt(view, syntax::tree(stmt));
                    assert(held + (before.0 + last.0) =~= (held + before.0) + last.0);
                    assert(said + (before.1 + last.1) =~= (said + before.1) + last.1);
                }
                translate_stmt(&part, stmt, out, diags);
            }
            proof {
                assert(ts.take(ts.len() as int) =~= ts);
            }
        },
        Err(_) => {
            if opens_create_table(part.1.as_str()) {
                let kept = strip_trailing_semicolon(part.1.as_str());
                let ghost kept_view = (part.0, kept@);
                out.push((part.0, kept));
                proof {
                    assert(split::parts_view(out@) =~= held + seq![kept_view]);
                }
            }
        },
    }
}

fn insert_by_line(ds: &mut Vec<Diagnostic>, d: Diagnostic)
    ensures
        diagnostic::reports(final(ds)@) == inserted(diagnostic::reports(old(ds)@), d@),
{
    let ghost vs = diagnostic::reports(ds@);
    let mut at: usize = ds.len();
    proof {
        assert(vs.take(at as int) =~= vs);
        assert(inserted(vs.take(at as int), d@) + vs.skip(at as int) =~= inserted(vs, d@));
    }
    while at > 0 && ds[at - 1].line > d.line
        invariant
            at <= ds@.len(),
            vs == diagnostic::reports(ds@),
            inserted(vs, d@) == inserted(vs.take(at as int), d@) + vs.skip(at as int),
        decreases at,
    {
        at -= 1;
        proof {
            let longer = vs.take(at + 1);
            assert(longer.drop_last() =~= vs.take(at as int));
            assert(longer.last() == ds@[at as int]@);
            assert(inserted(longer, d@) == inserted(vs.take(at as int), d@).push(vs[at as int]));
            assert(inserted(longer, d@) + vs.skip(at + 1) =~= inserted(vs.take(at as int), d@)
                + vs.skip(at as int));
        }
    }
    proof {
        let front = vs.take(at as int);
        if at > 0 {
            assert(front.last() == ds@[at - 1]@);
        }
        assert(inserted(front, d@) == front.push(d@));
        assert(front.push(d@) + vs.skip(at as int) =~= vs.insert(at as int, d@));
    }
    ds.insert(at, d);
    proof {
        assert(diagnostic::reports(ds@) =~= vs.insert(at as int, d@));
    }
}

/// The reports by their lines; those of one line stay in their order.
pub fn sort_by_line(ds: Vec<Diagnostic>) -> (r: Vec<Diagnostic>)
    ensures
        diagnostic::reports(r@) == by_line(diagnostic::reports(ds@)),
{
    let ghost vs = diagnostic::reports(ds@);
    let mut out: Vec<Diagnostic> = Vec::new();
    proof {
        assert(vs.take(0) =~= seq![]);
        assert(diagnostic::reports(out@) =~= seq![]);
    }
    for d in it: ds
        invariant
            vs == diagnostic::reports(it.seq()),
            diagnostic::reports(out@) == by_line(vs.take(it.index() as int)),
    {
        proof {
            let i = it.index() as int;
            assert(vs.take(i + 1).drop_last() =~= vs.take(i));
            assert(vs.take(i + 1).last() == d@);
        }
        insert_by_line(&mut out, d);
    }
    proof {
        assert(vs.take(vs.len() as int) =~= vs);
    }
    out
}

/// Translates MySQL DDL for DSQL. Each statement is cut from the script itself, so that its
/// literals stay as they are, and carries its line into the fixer's reports.
pub fn fix_sql_mysql(sql: &str) -> (r: FixOutput)
    ensures
        r.sql@ == fixed_mysql(sql@).0,
        diagnostic::reports(r.diagnostics@) == fixed_mysql(sql@).1,
{
    let stmts = match split_statements_dialect(sql, Dialect::MySql) {
        Ok(stmts) => stmts,
        Err(_) => {
            let mut one: Vec<Part> = Vec::new();
            one.push((1, sql.to_owned()));
            proof {
                assert(split::parts_view(one@) =~= seq![(1usize, sql@)]);
            }
            one
        },
    };
    let ghost ps = split::parts_view(stmts@);
    let mut normalized: Vec<Part> = Vec::new();
    let mut diags: Vec<Diagnostic> = Vec::new();
    proof {
        assert(ps =~= mysql_parts(sql@));
        assert(ps.take(0) =~= seq![]);
        assert(split::parts_view(normalized@) =~= seq![]);
        assert(diagnostic::reports(diags@) =~= seq![]);
    }
    for part in it: stmts
        invariant
            ps == split::parts_view(it.seq()),
            split::parts_view(normalized@) == translated_parts(ps.take(it.index() as int)).0,
            diagnostic::reports(diags@) == translated_parts(ps.take(it.index() as int)).1,
    {
        proof {
            let i = it.index() as int;
            assert(ps.take(i + 1).drop_last() =~= ps.take(i));
            assert(ps.take(i + 1).last() == (part.0, part.1@));
        }
        translate_part(part, &mut normalized, &mut diags);
    }
    proof {
        assert(ps.take(ps.len() as int) =~= ps);
    }
    let FixOutput { sql: fixed, diagnostics: mut found } = fix_statements(normalized);
    let ghost first = diagnostic::reports(diags@);
    let ghost second = diagnostic::reports(found@);
    let mut all = diags;
    all.append(&mut found);
    proof {
        assert(diagnostic::reports(all@) =~= first + second);
    }
    FixOutput { sql: fixed, diagnostics: sort_by_line(all) }
}

/// Whether no report stands behind one of a later line.
pub open spec fn in_line_order(ds: Seq<diagnostic::DiagnosticView>) -> bool {
    forall|i: int, j: int| 0 <= i <= j < ds.len() ==> ds[i].line <= ds[j].line
}

proof fn lemma_inserted(ds: Seq<diagnostic::DiagnosticView>, d: diagnostic::DiagnosticView)
    requires
        in_line_order(ds),
    ensures
        in_line_order(inserted(ds, d)),
        inserted(ds, d).len() == ds.len() + 1,
        inserted(ds, d).to_multiset() == ds.to_multiset().insert(d),
        forall|i: int|
            0 <= i < inserted(ds, d).len() ==> inserted(ds, d)[i].line <= if ds.len() > 0
                && ds.last().line > d.line {
                ds.last().line
            } else {
                d.line
            },
    decreases ds.len(),
{
    broadcast use vstd::seq_lib::group_to_multiset_ensures;

    if !(ds.len() == 0 || ds.last().line <= d.line) {
        let front = ds.drop_last();
        lemma_inserted(front, d);
        assert(front.push(ds.last()) =~= ds);
        assert(inserted(ds, d).to_multiset() =~= ds.to_multiset().insert(d));
    }
}

/// The reports on a MySQL script come in the order of their lines, each exactly as often as it
/// was made.
pub proof fn law_reports_come_in_line_order(ds: Seq<diagnostic::DiagnosticView>)
    ensures
        in_line_order(by_line(ds)),
        by_line(ds).to_multiset() == ds.to_multiset(),
    decreases ds.len(),
{
    broadcast use vstd::seq_lib::group_to_multiset_ensures;

    if ds.len() > 0 {
        law_reports_come_in_line_order(ds.drop_last());
        lemma_inserted(by_line(ds.drop_last()), ds.last());
        assert(ds.drop_last().push(ds.last()) =~= ds);
    } else {
        assert(by_line(ds) =~= ds);
    }
}

/// Reports that are in order already stay as they are.
pub proof fn law_ordered_reports_stay(ds: Seq<diagnostic::DiagnosticView>)
    requires
        in_line_order(ds),
    ensures
        by_line(ds) == ds,
    decreases ds.len(),
{
    if ds.len() > 0 {
        law_ordered_reports_stay(ds.drop_last());
        assert(ds.drop_last().push(ds.last()) =~= ds);
    } else {
        assert(by_line(ds) =~= ds);
    }
}

/// No row is written and none lost in silence: a statement that changes rows leaves no
/// statement behind, and one report.
pub proof fn law_row_data_is_reported(part: (usize, Seq<char>), t: Tree)
    requires
        changes_rows(t),
        !only_mysql(t),
    ensures
        translated_stmt(part, t).0.len() == 0,
        translated_stmt(part, t).1 == seq![rows_report(part, t)],
{
}

/// A table that does not parse is not lost: it reaches the fixer.
pub proof fn law_unparsed_tables_are_kept(part: (usize, Seq<char>))
    requires
        syntax::statements(Dialect::MySql, part.1) is Err,
        creates_table(part.1),
    ensures
        translated_part(part).0 == seq![(part.0, bare_text(part.1))],
{
}

/// Every constraint of a table either stays in it or becomes a statement of its own.
pub proof fn law_no_constraint_is_lost(cs: Seq<Tree>, table: Tree)
    ensures
        ({
            let after = translated_constraints(cs, table);
            after.kept.len() + after.lifted.len() == cs.len()
        }),
    decreases cs.len(),
{
    if cs.len() > 0 {
        law_no_constraint_is_lost(cs.drop_last(), table);
    }
}

/// A table keeps its columns, one for one.
pub proof fn law_no_column_is_lost(cols: Seq<Tree>, seed: AutoIncrement)
    ensures
        translated_columns(cols, seed).0.len() == cols.len(),
        forall|i: int|
            0 <= i < cols.len() ==> (#[trigger] translated_columns(cols, seed).0[i])
                == column::translated_column(cols[i], seed).0,
    decreases cols.len(),
{
    if cols.len() > 0 {
        law_no_column_is_lost(cols.drop_last(), seed);
    }
}

/// What stands for a statement, an index that was lifted out of it too, and what is reported of
/// it carry the line of the statement, and the reports its text.
pub proof fn law_translations_keep_their_line(part: (usize, Seq<char>), ts: Seq<Tree>)
    ensures
        forall|i: int|
            0 <= i < translated_stmts(part, ts).0.len() ==> (#[trigger] translated_stmts(
                part,
                ts,
            ).0[i]).0 == part.0,
        forall|i: int|
            0 <= i < translated_stmts(part, ts).1.len() ==> (#[trigger] translated_stmts(
                part,
                ts,
            ).1[i]).line == part.0 && translated_stmts(part, ts).1[i].statement == part.1,
    decreases ts.len(),
{
    if ts.len() > 0 {
        let before = translated_stmts(part, ts.drop_last());
        let last = translated_stmt(part, ts.last());
        let all = translated_stmts(part, ts);
        law_translations_keep_their_line(part, ts.drop_last());
        assert forall|i: int| 0 <= i < all.0.len() implies (#[trigger] all.0[i]).0 == part.0 by {
            if i < before.0.len() {
                assert(all.0[i] == before.0[i]);
            } else {
                assert(all.0[i] == last.0[i - before.0.len()]);
            }
        }
        assert forall|i: int| 0 <= i < all.1.len() implies (#[trigger] all.1[i]).line == part.0
            && all.1[i].statement == part.1 by {
            if i < before.1.len() {
                assert(all.1[i] == before.1[i]);
            } else {
                assert(all.1[i] == last.1[i - before.1.len()]);
            }
        }
    }
}

} // verus!
