//! The rules that look at one statement. A rule that can fix what it finds rewrites the
//! statement's tree, in lint and in fix alike.

use serde_json::Value;
use vstd::prelude::*;
use vstd::string::StringExecFns;

use crate::diagnostic::{self, Diagnostic, FixResult, LintRule};
use crate::rules::name_match;
use crate::rules::options::{self, check_cache, check_level, identity_diag, mend_cache};
use crate::rules::refusals::{self, check_fields, check_refused};
use crate::rules::serial_idiom::{self, make_identity_column};
use crate::rules::{self, find_line};
use crate::syntax::{self, as_flag, as_list, as_text, copy, flag, get, list, put, Tree};
use crate::text::{self, eq_ignore_case, same, to_upper};
use crate::token;
use crate::transactions::{self, has_kind};

verus! {

/// The line of a word in a statement; 1 where it does not stand there.
pub open spec fn word_line(raw: Seq<char>, word: Seq<char>) -> usize {
    match rules::line_of(raw, word) {
        Some(line) => line,
        None => 1,
    }
}

/// A type name that is one plain word.
pub open spec fn type_word(column: Tree) -> Option<Seq<char>> {
    let custom = name_match::items_of(
        token::field(token::field(column, "data_type"@), "Custom"@),
    );
    if custom.len() == 0 {
        None
    } else {
        let name = name_match::items_of(custom[0]);
        if name.len() != 1 {
            None
        } else {
            match syntax::member(name[0], "Identifier"@) {
                Some(ident) => Some(token::text_in(ident, "value"@)),
                None => None,
            }
        }
    }
}

/// Whether a type name is one of the serial types.
pub open spec fn is_serial(word: Seq<char>) -> bool {
    ||| text::same_word(word, "SERIAL"@)
    ||| text::same_word(word, "SERIAL4"@)
    ||| text::same_word(word, "SERIAL8"@)
    ||| text::same_word(word, "SERIAL2"@)
    ||| text::same_word(word, "BIGSERIAL"@)
    ||| text::same_word(word, "SMALLSERIAL"@)
}

/// The serial type of a column.
pub open spec fn serial_type(column: Tree) -> Option<Seq<char>> {
    match type_word(column) {
        Some(word) => if is_serial(word) {
            Some(word)
        } else {
            None
        },
        None => None,
    }
}

/// The report on a column of a serial type.
pub open spec fn serial_report(
    column: Tree,
    word: Seq<char>,
    raw: Seq<char>,
) -> diagnostic::DiagnosticView {
    let name = token::text_in(token::field(column, "name"@), "value"@);
    diagnostic::DiagnosticView {
        rule: LintRule::SerialType,
        line: word_line(raw, word),
        statement: seq![],
        message: "Column `"@ + name + "` has type "@ + text::uppered(word)
            + ": SERIAL types are not supported in DSQL."@,
        suggestion: "Use BIGINT GENERATED BY DEFAULT AS IDENTITY (CACHE 1)."@,
        fix_result: diagnostic::FixView::FixedWithWarning(
            "Replaced "@ + text::uppered(word) + " on `"@ + name
                + "` with a BIGINT identity column. The identity counter starts at 1: after loading data, reset it (ALTER TABLE ... ALTER COLUMN ... RESTART WITH N)."@,
        ),
    }
}

/// Whether a column is of a serial type, or an identity column with a cache that DSQL does not take.
pub open spec fn is_off(column: Tree) -> bool {
    serial_type(column) is Some || options::caches_badly(column)
}

/// What becomes of such a column: an identity column with a cache that DSQL takes.
pub open spec fn mended_column(column: Tree) -> Tree {
    if serial_type(column) is Some {
        serial_idiom::identity_column(column)
    } else {
        options::with_taken_cache(column)
    }
}

/// The report on such a column.
pub open spec fn off_report(column: Tree, raw: Seq<char>) -> diagnostic::DiagnosticView {
    match serial_type(column) {
        Some(word) => serial_report(column, word, raw),
        None => options::identity_report(column, raw),
    }
}

/// The columns with every serial one as an identity column, and with caches that DSQL takes.
pub open spec fn without_serials(columns: Seq<Tree>) -> Seq<Tree> {
    columns.map_values(
        |c: Tree|
            if is_off(c) {
                mended_column(c)
            } else {
                c
            },
    )
}

/// The reports on the columns of a serial type, and on those with a cache that DSQL does not take.
pub open spec fn serial_reports(columns: Seq<Tree>, raw: Seq<char>) -> Seq<
    diagnostic::DiagnosticView,
>
    decreases columns.len(),
{
    if columns.len() == 0 {
        seq![]
    } else if is_off(columns.last()) {
        serial_reports(columns.drop_last(), raw).push(off_report(columns.last(), raw))
    } else {
        serial_reports(columns.drop_last(), raw)
    }
}

/// A table whose columns are of no serial type and have caches that DSQL takes; any other statement
/// stays.
pub open spec fn serial_rule(t: Tree, raw: Seq<char>) -> (Tree, Seq<diagnostic::DiagnosticView>) {
    match syntax::member(t, "CreateTable"@) {
        Some(ct) => match syntax::member(ct, "columns"@) {
            Some(Tree::List(columns)) => (
                syntax::with_member(
                    t,
                    "CreateTable"@,
                    syntax::with_member(ct, "columns"@, Tree::List(without_serials(columns))),
                ),
                serial_reports(columns, raw),
            ),
            _ => (t, seq![]),
        },
        None => (t, seq![]),
    }
}

fn read_type_word(column: &Value) -> (r: Option<String>)
    ensures
        match (r, type_word(syntax::tree(*column))) {
            (Some(s), Some(w)) => s@ == w,
            (None, None) => true,
            _ => false,
        },
{
    let custom = match get(column, "data_type") {
        Some(d) => match get(d, "Custom") {
            Some(c) => match as_list(c) {
                Some(items) => items,
                None => {
                    return None;
                },
            },
            None => {
                return None;
            },
        },
        None => {
            return None;
        },
    };
    if custom.len() == 0 {
        return None;
    }
    proof {
        assert(syntax::trees(custom@)[0] == syntax::tree(custom@[0]));
    }
    let name = match as_list(&custom[0]) {
        Some(parts) => parts,
        None => {
            return None;
        },
    };
    if name.len() != 1 {
        return None;
    }
    proof {
        assert(syntax::trees(name@)[0] == syntax::tree(name@[0]));
    }
    match get(&name[0], "Identifier") {
        Some(ident) => Some(read_value(ident)),
        None => None,
    }
}

/// The `value` text of a record; empty where there is none.
pub(crate) fn read_value(v: &Value) -> (r: String)
    ensures
        r@ == token::text_in(syntax::tree(*v), "value"@),
{
    match get(v, "value") {
        Some(f) => match as_text(f) {
            Some(s) => s.to_owned(),
            None => String::new(),
        },
        None => String::new(),
    }
}

/// The text of a column's name; empty where there is none.
pub(crate) fn read_plain_name(column: &Value) -> (r: String)
    ensures
        r@ == token::text_in(token::field(syntax::tree(*column), "name"@), "value"@),
{
    match get(column, "name") {
        Some(ident) => read_value(ident),
        None => String::new(),
    }
}

fn reads_serial(word: &str) -> (r: bool)
    ensures
        r == is_serial(word@),
{
    eq_ignore_case(word, "SERIAL") || eq_ignore_case(word, "SERIAL4") || eq_ignore_case(
        word,
        "SERIAL8",
    ) || eq_ignore_case(word, "SERIAL2") || eq_ignore_case(word, "BIGSERIAL") || eq_ignore_case(
        word,
        "SMALLSERIAL",
    )
}

pub fn read_serial_type(column: &Value) -> (r: Option<String>)
    ensures
        match (r, serial_type(syntax::tree(*column))) {
            (Some(s), Some(w)) => s@ == w,
            (None, None) => true,
            _ => false,
        },
{
    match read_type_word(column) {
        Some(word) => if reads_serial(word.as_str()) {
            Some(word)
        } else {
            None
        },
        None => None,
    }
}

fn serial_diag(column: &Value, word: &str, raw: &str) -> (r: Diagnostic)
    ensures
        r@ == serial_report(syntax::tree(*column), word@, raw@),
{
    let name = read_plain_name(column);
    let shown = to_upper(word);
    let mut message = "Column `".to_owned();
    message.append(name.as_str());
    message.append("` has type ");
    message.append(shown.as_str());
    message.append(": SERIAL types are not supported in DSQL.");
    let mut detail = "Replaced ".to_owned();
    detail.append(shown.as_str());
    detail.append(" on `");
    detail.append(name.as_str());
    detail.append(
        "` with a BIGINT identity column. The identity counter starts at 1: after loading data, reset it (ALTER TABLE ... ALTER COLUMN ... RESTART WITH N).",
    );
    let r = Diagnostic {
        rule: LintRule::SerialType,
        line: find_line(raw, word),
        statement: String::new(),
        message,
        suggestion: "Use BIGINT GENERATED BY DEFAULT AS IDENTITY (CACHE 1).".to_owned(),
        fix_result: FixResult::FixedWithWarning(detail),
    };
    r
}

/// What a column becomes, and the report on it, where it is of a serial type or has a cache that
/// DSQL does not take.
pub fn mend_column(column: &Value, raw: &str) -> (r: Option<(Value, Diagnostic)>)
    ensures
        match r {
            Some(made) => {
                &&& is_off(syntax::tree(*column))
                &&& syntax::tree(made.0) == mended_column(syntax::tree(*column))
                &&& made.1@ == off_report(syntax::tree(*column), raw@)
            },
            None => !is_off(syntax::tree(*column)),
        },
{
    match read_serial_type(column) {
        Some(word) => Some(
            (make_identity_column(column), serial_diag(column, word.as_str(), raw)),
        ),
        None => match mend_cache(column) {
            Some(made) => Some((made, identity_diag(column, raw))),
            None => None,
        },
    }
}

/// Replaces the serial columns of a table.
pub fn check_serial(stmt: &mut Value, raw: &str, diagnostics: &mut Vec<Diagnostic>)
    ensures
        ({
            let ruled = serial_rule(syntax::tree(*old(stmt)), raw@);
            &&& syntax::tree(*final(stmt)) == ruled.0
            &&& diagnostic::reports(final(diagnostics)@) == diagnostic::reports(
                old(diagnostics)@,
            ) + ruled.1
        }),
{
    let ghost said = diagnostic::reports(diagnostics@);
    proof {
        assert(said + seq![] =~= said);
    }
    let mut table = match get(stmt, "CreateTable") {
        Some(ct) => copy(ct),
        None => {
            return ;
        },
    };
    let mut columns: Vec<Value> = Vec::new();
    match get(&table, "columns") {
        Some(v) => match as_list(v) {
            Some(vs) => {
                let ghost ts = syntax::trees(vs@);
                let mut i: usize = 0;
                proof {
                    assert(ts.take(0) =~= seq![]);
                }
                while i < vs.len()
                    invariant
                        i <= vs@.len(),
                        ts == syntax::trees(vs@),
                        columns@.len() == i,
                        forall|j: int|
                            0 <= j < i ==> syntax::tree(#[trigger] columns@[j]) == without_serials(
                                ts,
                            )[j],
                        diagnostic::reports(diagnostics@) == said + serial_reports(
                            ts.take(i as int),
                            raw@,
                        ),
                    decreases vs@.len() - i,
                {
                    proof {
                        assert(ts.take(i + 1).drop_last() =~= ts.take(i as int));
                        assert(ts.take(i + 1).last() == ts[i as int]);
                    }
                    match mend_column(&vs[i], raw) {
                        Some((made, report)) => {
                            let ghost held = diagnostics@;
                            let ghost told = serial_reports(ts.take(i as int), raw@);
                            diagnostics.push(report);
                            columns.push(made);
                            proof {
                                assert(diagnostic::reports(diagnostics@) =~= diagnostic::reports(
                                    held,
                                ).push(report@));
                                assert(said + told.push(report@) =~= (said + told).push(report@));
                            }
                        },
                        None => {
                            columns.push(copy(&vs[i]));
                        },
                    }
                    i += 1;
                }
                proof {
                    assert(ts.take(i as int) =~= ts);
                    assert(syntax::trees(columns@) =~= without_serials(ts));
                }
            },
            None => {
                return ;
            },
        },
        None => {
            return ;
        },
    }
    put(&mut table, "columns", list(columns));
    put(stmt, "CreateTable", table);
}

/// Whether an operation adds a foreign key without `NOT VALID`.
pub open spec fn adds_valid_key(op: Tree) -> bool {
    let add = token::field(op, "AddConstraint"@);
    syntax::member(token::field(add, "constraint"@), "ForeignKey"@) is Some && token::field(
        add,
        "not_valid"@,
    ) == Tree::Flag(false)
}

/// The operation with `NOT VALID`.
pub open spec fn as_not_valid(op: Tree) -> Tree {
    syntax::with_member(
        op,
        "AddConstraint"@,
        syntax::with_member(token::field(op, "AddConstraint"@), "not_valid"@, Tree::Flag(true)),
    )
}

/// The report on a foreign key without `NOT VALID`.
pub open spec fn key_report(raw: Seq<char>) -> diagnostic::DiagnosticView {
    diagnostic::DiagnosticView {
        rule: LintRule::ForeignKeyNotValid,
        line: word_line(raw, "foreign"@),
        statement: seq![],
        message: "ALTER TABLE ADD FOREIGN KEY checks existing rows, which DSQL does not do in DDL. The constraint must be added NOT VALID."@,
        suggestion: "Add NOT VALID, then validate the constraint separately."@,
        fix_result: diagnostic::FixView::FixedWithWarning(
            "Added NOT VALID to the foreign key: existing rows are not checked until the constraint is validated."@,
        ),
    }
}

/// The operations with every foreign key added `NOT VALID`.
pub open spec fn with_not_valid(ops: Seq<Tree>) -> Seq<Tree> {
    ops.map_values(
        |op: Tree|
            if adds_valid_key(op) {
                as_not_valid(op)
            } else {
                op
            },
    )
}

/// The reports on the foreign keys without `NOT VALID`.
pub open spec fn key_reports(ops: Seq<Tree>, raw: Seq<char>) -> Seq<diagnostic::DiagnosticView>
    decreases ops.len(),
{
    if ops.len() == 0 {
        seq![]
    } else if adds_valid_key(ops.last()) {
        key_reports(ops.drop_last(), raw).push(key_report(raw))
    } else {
        key_reports(ops.drop_last(), raw)
    }
}

/// An `ALTER TABLE` whose foreign keys are added `NOT VALID`; any other statement stays.
pub open spec fn key_rule(t: Tree, raw: Seq<char>) -> (Tree, Seq<diagnostic::DiagnosticView>) {
    match syntax::member(t, "AlterTable"@) {
        Some(alter) => match syntax::member(alter, "operations"@) {
            Some(Tree::List(ops)) => (
                syntax::with_member(
                    t,
                    "AlterTable"@,
                    syntax::with_member(alter, "operations"@, Tree::List(with_not_valid(ops))),
                ),
                key_reports(ops, raw),
            ),
            _ => (t, seq![]),
        },
        None => (t, seq![]),
    }
}

pub fn reads_valid_key(op: &Value) -> (r: bool)
    ensures
        r == adds_valid_key(syntax::tree(*op)),
{
    match get(op, "AddConstraint") {
        Some(add) => {
            let key = match get(add, "constraint") {
                Some(c) => get(c, "ForeignKey").is_some(),
                None => false,
            };
            let open = match get(add, "not_valid") {
                Some(f) => match as_flag(f) {
                    Some(b) => !b,
                    None => false,
                },
                None => false,
            };
            key && open
        },
        None => false,
    }
}

fn make_not_valid(op: &Value) -> (r: Value)
    requires
        adds_valid_key(syntax::tree(*op)),
    ensures
        syntax::tree(r) == as_not_valid(syntax::tree(*op)),
{
    let mut r = copy(op);
    match get(op, "AddConstraint") {
        Some(a) => {
            let mut add = copy(a);
            put(&mut add, "not_valid", flag(true));
            put(&mut r, "AddConstraint", add);
        },
        None => {},
    }
    r
}

fn key_diag(raw: &str) -> (r: Diagnostic)
    ensures
        r@ == key_report(raw@),
{
    let r = Diagnostic {
        rule: LintRule::ForeignKeyNotValid,
        line: find_line(raw, "foreign"),
        statement: String::new(),
        message: "ALTER TABLE ADD FOREIGN KEY checks existing rows, which DSQL does not do in DDL. The constraint must be added NOT VALID.".to_owned(),
        suggestion: "Add NOT VALID, then validate the constraint separately.".to_owned(),
        fix_result: FixResult::FixedWithWarning(
            "Added NOT VALID to the foreign key: existing rows are not checked until the constraint is validated.".to_owned(),
        ),
    };
    proof {
        assert(r.statement@ =~= seq![]);
    }
    r
}

/// Adds `NOT VALID` to the foreign keys that an `ALTER TABLE` adds.
pub fn check_foreign_key(stmt: &mut Value, raw: &str, diagnostics: &mut Vec<Diagnostic>)
    ensures
        ({
            let ruled = key_rule(syntax::tree(*old(stmt)), raw@);
            &&& syntax::tree(*final(stmt)) == ruled.0
            &&& diagnostic::reports(final(diagnostics)@) == diagnostic::reports(
                old(diagnostics)@,
            ) + ruled.1
        }),
{
    let ghost said = diagnostic::reports(diagnostics@);
    proof {
        assert(said + seq![] =~= said);
    }
    let mut alter = match get(stmt, "AlterTable") {
        Some(a) => copy(a),
        None => {
            return ;
        },
    };
    let mut ops: Vec<Value> = Vec::new();
    match get(&alter, "operations") {
        Some(v) => match as_list(v) {
            Some(vs) => {
                let ghost ts = syntax::trees(vs@);
                let mut i: usize = 0;
                proof {
                    assert(ts.take(0) =~= seq![]);
                }
                while i < vs.len()
                    invariant
                        i <= vs@.len(),
                        ts == syntax::trees(vs@),
                        ops@.len() == i,
                        forall|j: int|
                            0 <= j < i ==> syntax::tree(#[trigger] ops@[j]) == with_not_valid(
                                ts,
                            )[j],
                        diagnostic::reports(diagnostics@) == said + key_reports(
                            ts.take(i as int),
                            raw@,
                        ),
                    decreases vs@.len() - i,
                {
                    proof {
                        assert(ts.take(i + 1).drop_last() =~= ts.take(i as int));
                        assert(ts.take(i + 1).last() == ts[i as int]);
                    }
                    if reads_valid_key(&vs[i]) {
                        let ghost held = diagnostics@;
                        let ghost told = key_reports(ts.take(i as int), raw@);
                        let report = key_diag(raw);
                        diagnostics.push(report);
                        ops.push(make_not_valid(&vs[i]));
                        proof {
                            assert(diagnostic::reports(diagnostics@) =~= diagnostic::reports(
                                held,
                            ).push(report@));
                            assert(said + told.push(report@) =~= (said + told).push(report@));
                        }
                    } else {
                        ops.push(copy(&vs[i]));
                    }
                    i += 1;
                }
                proof {
                    assert(ts.take(i as int) =~= ts);
                    assert(syntax::trees(ops@) =~= with_not_valid(ts));
                }
            },
            None => {
                return ;
            },
        },
        None => {
            return ;
        },
    }
    put(&mut alter, "operations", list(ops));
    put(stmt, "AlterTable", alter);
}

/// The column that an operation adds.
pub open spec fn added_column(op: Tree) -> Tree {
    token::field(token::field(op, "AddColumn"@), "column_def"@)
}

/// The operation with the column that it adds as an identity column with a cache that DSQL takes.
pub open spec fn adding_identity(op: Tree) -> Tree {
    syntax::with_member(
        op,
        "AddColumn"@,
        syntax::with_member(
            token::field(op, "AddColumn"@),
            "column_def"@,
            mended_column(added_column(op)),
        ),
    )
}

/// The operations with every serial column that is added as an identity column.
pub open spec fn without_added_serials(ops: Seq<Tree>) -> Seq<Tree> {
    ops.map_values(
        |op: Tree|
            if is_off(added_column(op)) {
                adding_identity(op)
            } else {
                op
            },
    )
}

/// The reports on the columns of a serial type that are added.
pub open spec fn added_reports(ops: Seq<Tree>, raw: Seq<char>) -> Seq<diagnostic::DiagnosticView>
    decreases ops.len(),
{
    if ops.len() == 0 {
        seq![]
    } else if is_off(added_column(ops.last())) {
        added_reports(ops.drop_last(), raw).push(off_report(added_column(ops.last()), raw))
    } else {
        added_reports(ops.drop_last(), raw)
    }
}

/// An `ALTER TABLE` that adds no column of a serial type; any other statement stays.
pub open spec fn added_rule(t: Tree, raw: Seq<char>) -> (Tree, Seq<diagnostic::DiagnosticView>) {
    match syntax::member(t, "AlterTable"@) {
        Some(alter) => match syntax::member(alter, "operations"@) {
            Some(Tree::List(ops)) => (
                syntax::with_member(
                    t,
                    "AlterTable"@,
                    syntax::with_member(
                        alter,
                        "operations"@,
                        Tree::List(without_added_serials(ops)),
                    ),
                ),
                added_reports(ops, raw),
            ),
            _ => (t, seq![]),
        },
        None => (t, seq![]),
    }
}

/// What an operation becomes, and the report on it, where it adds a column of a serial type or with
/// a cache that DSQL does not take.
fn add_identity(op: &Value, raw: &str) -> (r: Option<(Value, Diagnostic)>)
    ensures
        match r {
            Some(made) => {
                &&& is_off(added_column(syntax::tree(*op)))
                &&& syntax::tree(made.0) == adding_identity(syntax::tree(*op))
                &&& made.1@ == off_report(added_column(syntax::tree(*op)), raw@)
            },
            None => !is_off(added_column(syntax::tree(*op))),
        },
{
    let mut add = match get(op, "AddColumn") {
        Some(a) => copy(a),
        None => {
            return None;
        },
    };
    let column = match get(&add, "column_def") {
        Some(c) => copy(c),
        None => {
            return None;
        },
    };
    match mend_column(&column, raw) {
        Some((identity, report)) => {
            put(&mut add, "column_def", identity);
            let mut made = copy(op);
            put(&mut made, "AddColumn", add);
            Some((made, report))
        },
        None => None,
    }
}

/// Replaces the serial columns that an `ALTER TABLE` adds.
pub fn check_added_serial(stmt: &mut Value, raw: &str, diagnostics: &mut Vec<Diagnostic>)
    ensures
        ({
            let ruled = added_rule(syntax::tree(*old(stmt)), raw@);
            &&& syntax::tree(*final(stmt)) == ruled.0
            &&& diagnostic::reports(final(diagnostics)@) == diagnostic::reports(
                old(diagnostics)@,
            ) + ruled.1
        }),
{
    let ghost said = diagnostic::reports(diagnostics@);
    proof {
        assert(said + seq![] =~= said);
    }
    let mut alter = match get(stmt, "AlterTable") {
        Some(a) => copy(a),
        None => {
            return ;
        },
    };
    let mut ops: Vec<Value> = Vec::new();
    match get(&alter, "operations") {
        Some(v) => match as_list(v) {
            Some(vs) => {
                let ghost ts = syntax::trees(vs@);
                let mut i: usize = 0;
                proof {
                    assert(ts.take(0) =~= seq![]);
                }
                while i < vs.len()
                    invariant
                        i <= vs@.len(),
                        ts == syntax::trees(vs@),
                        ops@.len() == i,
                        forall|j: int|
                            0 <= j < i ==> syntax::tree(#[trigger] ops@[j])
                                == without_added_serials(ts)[j],
                        diagnostic::reports(diagnostics@) == said + added_reports(
                            ts.take(i as int),
                            raw@,
                        ),
                    decreases vs@.len() - i,
                {
                    proof {
                        assert(ts.take(i + 1).drop_last() =~= ts.take(i as int));
                        assert(ts.take(i + 1).last() == ts[i as int]);
                    }
                    match add_identity(&vs[i], raw) {
                        Some((made, report)) => {
                            let ghost held = diagnostics@;
                            let ghost told = added_reports(ts.take(i as int), raw@);
                            diagnostics.push(report);
                            ops.push(made);
                            proof {
                                assert(diagnostic::reports(diagnostics@) =~= diagnostic::reports(
                                    held,
                                ).push(report@));
                                assert(said + told.push(report@) =~= (said + told).push(report@));
                            }
                        },
                        None => {
                            ops.push(copy(&vs[i]));
                        },
                    }
                    i += 1;
                }
                proof {
                    assert(ts.take(i as int) =~= ts);
                    assert(syntax::trees(ops@) =~= without_added_serials(ts));
                }
            },
            None => {
                return ;
            },
        },
        None => {
            return ;
        },
    }
    put(&mut alter, "operations", list(ops));
    put(stmt, "AlterTable", alter);
}

/// The report on an index that is not built asynchronously.
pub open spec fn index_report(raw: Seq<char>) -> diagnostic::DiagnosticView {
    diagnostic::DiagnosticView {
        rule: LintRule::IndexAsync,
        line: word_line(raw, "index"@),
        statement: seq![],
        message: "CREATE INDEX must use ASYNC in DSQL."@,
        suggestion: "Use CREATE INDEX ASYNC."@,
        fix_result: diagnostic::FixView::Fixed("Added ASYNC to CREATE INDEX."@),
    }
}

/// The report on an index that is built concurrently.
pub open spec fn concurrent_report(raw: Seq<char>) -> diagnostic::DiagnosticView {
    diagnostic::DiagnosticView {
        rule: LintRule::IndexConcurrently,
        line: word_line(raw, "concurrently"@),
        statement: seq![],
        message: "CREATE INDEX CONCURRENTLY is not supported in DSQL."@,
        suggestion: "Use CREATE INDEX ASYNC."@,
        fix_result: diagnostic::FixView::Fixed("Replaced CONCURRENTLY with ASYNC."@),
    }
}

/// An index that is built asynchronously, in place of one that is built at once or concurrently;
/// any other statement stays.
pub open spec fn index_rule(t: Tree, raw: Seq<char>) -> (Tree, Seq<diagnostic::DiagnosticView>) {
    let index = token::field(t, "CreateIndex"@);
    let built = syntax::with_member(index, "async"@, Tree::Flag(true));
    if token::field(index, "concurrently"@) == Tree::Flag(true) {
        (
            syntax::with_member(
                t,
                "CreateIndex"@,
                syntax::with_member(built, "concurrently"@, Tree::Flag(false)),
            ),
            seq![concurrent_report(raw)],
        )
    } else if token::field(index, "async"@) == Tree::Flag(false) && token::field(
        index,
        "concurrently"@,
    ) == Tree::Flag(false) {
        (syntax::with_member(t, "CreateIndex"@, built), seq![index_report(raw)])
    } else {
        (t, seq![])
    }
}

/// Whether a flag is there and raised.
fn is_up(v: &Value, key: &str) -> (r: bool)
    ensures
        r == (token::field(syntax::tree(*v), key@) == Tree::Flag(true)),
{
    match get(v, key) {
        Some(f) => match as_flag(f) {
            Some(b) => b,
            None => false,
        },
        None => false,
    }
}

/// Whether a flag is there and not raised.
fn is_down(v: &Value, key: &str) -> (r: bool)
    ensures
        r == (token::field(syntax::tree(*v), key@) == Tree::Flag(false)),
{
    match get(v, key) {
        Some(f) => match as_flag(f) {
            Some(b) => !b,
            None => false,
        },
        None => false,
    }
}

/// Adds `ASYNC` to an index.
pub fn check_index(stmt: &mut Value, raw: &str, diagnostics: &mut Vec<Diagnostic>)
    ensures
        ({
            let ruled = index_rule(syntax::tree(*old(stmt)), raw@);
            &&& syntax::tree(*final(stmt)) == ruled.0
            &&& diagnostic::reports(final(diagnostics)@) == diagnostic::reports(
                old(diagnostics)@,
            ) + ruled.1
        }),
{
    let ghost said = diagnostic::reports(diagnostics@);
    proof {
        assert(said + seq![] =~= said);
    }
    let mut index = match get(stmt, "CreateIndex") {
        Some(i) => copy(i),
        None => {
            return ;
        },
    };
    if is_up(&index, "concurrently") {
        put(&mut index, "async", flag(true));
        put(&mut index, "concurrently", flag(false));
        put(stmt, "CreateIndex", index);
        let report = Diagnostic {
            rule: LintRule::IndexConcurrently,
            line: find_line(raw, "concurrently"),
            statement: String::new(),
            message: "CREATE INDEX CONCURRENTLY is not supported in DSQL.".to_owned(),
            suggestion: "Use CREATE INDEX ASYNC.".to_owned(),
            fix_result: FixResult::Fixed("Replaced CONCURRENTLY with ASYNC.".to_owned()),
        };
        proof {
            assert(report.statement@ =~= seq![]);
            assert(report@ == concurrent_report(raw@));
        }
        diagnostics.push(report);
        proof {
            assert(diagnostic::reports(diagnostics@) =~= said + seq![concurrent_report(raw@)]);
        }
    } else if is_down(&index, "async") && is_down(&index, "concurrently") {
        put(&mut index, "async", flag(true));
        put(stmt, "CreateIndex", index);
        let report = Diagnostic {
            rule: LintRule::IndexAsync,
            line: find_line(raw, "index"),
            statement: String::new(),
            message: "CREATE INDEX must use ASYNC in DSQL.".to_owned(),
            suggestion: "Use CREATE INDEX ASYNC.".to_owned(),
            fix_result: FixResult::Fixed("Added ASYNC to CREATE INDEX.".to_owned()),
        };
        proof {
            assert(report.statement@ =~= seq![]);
            assert(report@ == index_report(raw@));
        }
        diagnostics.push(report);
        proof {
            assert(diagnostic::reports(diagnostics@) =~= said + seq![index_report(raw@)]);
        }
    }
}

/// The report on a `TRUNCATE`.
pub open spec fn truncate_report(raw: Seq<char>) -> diagnostic::DiagnosticView {
    diagnostic::DiagnosticView {
        rule: LintRule::Truncate,
        line: word_line(raw, "truncate"@),
        statement: seq![],
        message: "TRUNCATE is not supported in DSQL."@,
        suggestion: "Use DELETE FROM, or drop and create the table."@,
        fix_result: diagnostic::FixView::Unfixable,
    }
}

/// The reports on a statement that is a `TRUNCATE`.
pub open spec fn truncate_reports(t: Tree, raw: Seq<char>) -> Seq<diagnostic::DiagnosticView> {
    if transactions::is_kind(t, "Truncate"@) {
        seq![truncate_report(raw)]
    } else {
        seq![]
    }
}

pub fn check_truncate(stmt: &Value, raw: &str, diagnostics: &mut Vec<Diagnostic>)
    ensures
        diagnostic::reports(final(diagnostics)@) == diagnostic::reports(old(diagnostics)@)
            + truncate_reports(syntax::tree(*stmt), raw@),
{
    let ghost said = diagnostic::reports(diagnostics@);
    proof {
        assert(said + seq![] =~= said);
    }
    if has_kind(stmt, "Truncate") {
        let report = Diagnostic {
            rule: LintRule::Truncate,
            line: find_line(raw, "truncate"),
            statement: String::new(),
            message: "TRUNCATE is not supported in DSQL.".to_owned(),
            suggestion: "Use DELETE FROM, or drop and create the table.".to_owned(),
            fix_result: FixResult::Unfixable,
        };
        proof {
            assert(report.statement@ =~= seq![]);
        }
        diagnostics.push(report);
        proof {
            assert(diagnostic::reports(diagnostics@) =~= said + seq![truncate_report(raw@)]);
        }
    }
}

/// Whether a column option is a default or `NOT NULL`.
pub open spec fn is_inline_constraint(o: Tree) -> bool {
    let option = token::field(o, "option"@);
    syntax::member(option, "Default"@) is Some || option == Tree::Text("NotNull"@)
}

/// Whether an operation adds a column with an inline default or `NOT NULL`.
pub open spec fn adds_constrained_column(op: Tree) -> bool {
    let column = token::field(token::field(op, "AddColumn"@), "column_def"@);
    let options = name_match::items_of(token::field(column, "options"@));
    exists|i: int| 0 <= i < options.len() && is_inline_constraint(#[trigger] options[i])
}

/// The report on a column that is added with an inline default or `NOT NULL`.
pub open spec fn column_report(op: Tree, raw: Seq<char>) -> diagnostic::DiagnosticView {
    let column = token::field(token::field(op, "AddColumn"@), "column_def"@);
    let name = token::text_in(token::field(column, "name"@), "value"@);
    diagnostic::DiagnosticView {
        rule: LintRule::AddColumnConstraint,
        line: word_line(raw, name),
        statement: seq![],
        message: "ADD COLUMN '"@ + name + "' has inline DEFAULT or NOT NULL constraint."@,
        suggestion: "Split into steps: ADD COLUMN, UPDATE, ALTER COLUMN"@,
        fix_result: diagnostic::FixView::Unfixable,
    }
}

/// The reports on the columns that are added with an inline default or `NOT NULL`.
pub open spec fn column_reports(ops: Seq<Tree>, raw: Seq<char>) -> Seq<diagnostic::DiagnosticView>
    decreases ops.len(),
{
    if ops.len() == 0 {
        seq![]
    } else if adds_constrained_column(ops.last()) {
        column_reports(ops.drop_last(), raw).push(column_report(ops.last(), raw))
    } else {
        column_reports(ops.drop_last(), raw)
    }
}

/// The operations of an `ALTER TABLE`; none for any other statement.
pub open spec fn operations(t: Tree) -> Seq<Tree> {
    name_match::items_of(token::field(token::field(t, "AlterTable"@), "operations"@))
}

fn reads_inline_constraint(o: &Value) -> (r: bool)
    ensures
        r == is_inline_constraint(syntax::tree(*o)),
{
    match get(o, "option") {
        Some(option) => get(option, "Default").is_some() || match as_text(option) {
            Some(s) => same(s, "NotNull"),
            None => false,
        },
        None => false,
    }
}

#[verifier::loop_isolation(false)]
fn reads_constrained_column(op: &Value) -> (r: bool)
    ensures
        r == adds_constrained_column(syntax::tree(*op)),
{
    let options = match get(op, "AddColumn") {
        Some(add) => match get(add, "column_def") {
            Some(column) => match get(column, "options") {
                Some(v) => match as_list(v) {
                    Some(options) => options,
                    None => {
                        return false;
                    },
                },
                None => {
                    return false;
                },
            },
            None => {
                return false;
            },
        },
        None => {
            return false;
        },
    };
    let ghost ts = syntax::trees(options@);
    let ghost column = token::field(
        token::field(syntax::tree(*op), "AddColumn"@),
        "column_def"@,
    );
    proof {
        assert(name_match::items_of(token::field(column, "options"@)) == ts);
    }
    let mut i: usize = 0;
    while i < options.len()
        invariant
            i <= options@.len(),
            forall|j: int| 0 <= j < i ==> !is_inline_constraint(#[trigger] ts[j]),
        decreases options@.len() - i,
    {
        if reads_inline_constraint(&options[i]) {
            proof {
                assert(is_inline_constraint(ts[i as int]));
            }
            return true;
        }
        i += 1;
    }
    false
}

fn column_diag(op: &Value, raw: &str) -> (r: Diagnostic)
    ensures
        r@ == column_report(syntax::tree(*op), raw@),
{
    let name = match get(op, "AddColumn") {
        Some(add) => match get(add, "column_def") {
            Some(column) => read_plain_name(column),
            None => String::new(),
        },
        None => String::new(),
    };
    let mut message = "ADD COLUMN '".to_owned();
    message.append(name.as_str());
    message.append("' has inline DEFAULT or NOT NULL constraint.");
    let r = Diagnostic {
        rule: LintRule::AddColumnConstraint,
        line: find_line(raw, name.as_str()),
        statement: String::new(),
        message,
        suggestion: "Split into steps: ADD COLUMN, UPDATE, ALTER COLUMN".to_owned(),
        fix_result: FixResult::Unfixable,
    };
    proof {
        assert(r.statement@ =~= seq![]);
    }
    r
}

/// Reports each column that is added with an inline default or `NOT NULL`.
pub fn check_add_column_constraints(stmt: &Value, raw: &str, diagnostics: &mut Vec<Diagnostic>)
    ensures
        diagnostic::reports(final(diagnostics)@) == diagnostic::reports(old(diagnostics)@)
            + column_reports(operations(syntax::tree(*stmt)), raw@),
{
    let ghost said = diagnostic::reports(diagnostics@);
    proof {
        assert(said + seq![] =~= said);
    }
    let ops = match get(stmt, "AlterTable") {
        Some(alter) => match get(alter, "operations") {
            Some(v) => match as_list(v) {
                Some(ops) => ops,
                None => {
                    return ;
                },
            },
            None => {
                return ;
            },
        },
        None => {
            return ;
        },
    };
    let ghost ts = syntax::trees(ops@);
    let mut i: usize = 0;
    proof {
        assert(ts.take(0) =~= seq![]);
    }
    while i < ops.len()
        invariant
            i <= ops@.len(),
            ts == syntax::trees(ops@),
            diagnostic::reports(diagnostics@) == said + column_reports(ts.take(i as int), raw@),
        decreases ops@.len() - i,
    {
        proof {
            assert(ts.take(i + 1).drop_last() =~= ts.take(i as int));
            assert(ts.take(i + 1).last() == ts[i as int]);
        }
        if reads_constrained_column(&ops[i]) {
            let ghost held = diagnostics@;
            let ghost told = column_reports(ts.take(i as int), raw@);
            let report = column_diag(&ops[i], raw);
            diagnostics.push(report);
            proof {
                assert(diagnostic::reports(diagnostics@) =~= diagnostic::reports(held).push(
                    report@,
                ));
                assert(said + told.push(report@) =~= (said + told).push(report@));
            }
        }
        i += 1;
    }
    proof {
        assert(ts.take(i as int) =~= ts);
    }
}

/// What the rules make of a statement, and what they report. Lines count from the beginning of
/// the statement.
pub open spec fn ruled(t: Tree, raw: Seq<char>) -> (Tree, Seq<diagnostic::DiagnosticView>) {
    let a = refusals::field_rule(t, raw);
    let b = serial_rule(a.0, raw);
    let c = key_rule(b.0, raw);
    let d = added_rule(c.0, raw);
    let e = index_rule(d.0, raw);
    let f = options::cache_rule(e.0, raw);
    let g = options::level_rule(f.0, raw);
    (g.0, a.1 + b.1 + c.1 + d.1 + e.1 + f.1 + g.1 + left(g.0, raw))
}

/// What the rules that fix nothing report of a statement.
pub open spec fn left(t: Tree, raw: Seq<char>) -> Seq<diagnostic::DiagnosticView> {
    truncate_reports(t, raw) + column_reports(operations(t), raw) + refusals::refused(t, raw)
}

/// Applies the rules to one statement.
pub fn check(stmt: &mut Value, raw_sql: &str, diagnostics: &mut Vec<Diagnostic>)
    ensures
        ({
            let r = ruled(syntax::tree(*old(stmt)), raw_sql@);
            &&& syntax::tree(*final(stmt)) == r.0
            &&& diagnostic::reports(final(diagnostics)@) == diagnostic::reports(
                old(diagnostics)@,
            ) + r.1
        }),
{
    let ghost said = diagnostic::reports(diagnostics@);
    let ghost r = ruled(syntax::tree(*stmt), raw_sql@);
    check_fields(stmt, raw_sql, diagnostics);
    check_serial(stmt, raw_sql, diagnostics);
    check_foreign_key(stmt, raw_sql, diagnostics);
    check_added_serial(stmt, raw_sql, diagnostics);
    check_index(stmt, raw_sql, diagnostics);
    check_cache(stmt, raw_sql, diagnostics);
    check_level(stmt, raw_sql, diagnostics);
    check_truncate(stmt, raw_sql, diagnostics);
    check_add_column_constraints(stmt, raw_sql, diagnostics);
    check_refused(stmt, raw_sql, diagnostics);
    proof {
        assert(diagnostic::reports(diagnostics@) =~= said + r.1);
    }
}

/// Whether every report is of a rule that rewrote nothing.
pub open spec fn none_fixed(ds: Seq<diagnostic::DiagnosticView>) -> bool {
    forall|i: int| 0 <= i < ds.len() ==> (#[trigger] ds[i]).fix_result is Unfixable
}

/// A record keeps itself where a field is set to what it is.
pub proof fn lemma_member_kept(t: Tree, key: Seq<char>, value: Tree)
    requires
        syntax::member(t, key) == Some(value),
    ensures
        syntax::with_member(t, key, value) == t,
{
    if let Tree::Record(fields) = t {
        assert(fields.insert(key, value) =~= fields);
    }
}

proof fn lemma_mended_is_not_off(c: Tree)
    requires
        is_off(c),
    ensures
        !is_off(mended_column(c)),
{
    reveal_strlit("data_type");
    reveal_strlit("options");
    reveal_strlit("BigInt");
    reveal_strlit("Custom");
    assert("data_type"@.len() != "options"@.len());
    assert("BigInt"@[0] != "Custom"@[0]);
    if serial_type(c) is Some {
        let again = serial_idiom::identity_column(c);
        assert(token::field(again, "data_type"@) == syntax::variant("BigInt"@, Tree::Null));
        options::lemma_identity_column_caches_well(c);
    } else {
        options::lemma_mended_cache(c);
        assert(type_word(options::with_taken_cache(c)) == type_word(c));
    }
}

proof fn lemma_no_serial_reports(columns: Seq<Tree>, raw: Seq<char>)
    requires
        forall|i: int| 0 <= i < columns.len() ==> !is_off(#[trigger] columns[i]),
    ensures
        serial_reports(columns, raw) == Seq::<diagnostic::DiagnosticView>::empty(),
    decreases columns.len(),
{
    if columns.len() > 0 {
        let front = columns.drop_last();
        assert forall|i: int| 0 <= i < front.len() implies !is_off(#[trigger] front[i]) by {
            assert(front[i] == columns[i]);
        }
        lemma_no_serial_reports(front, raw);
        assert(!is_off(columns[columns.len() - 1]));
    }
}

/// Whether a table has no column of a serial type.
pub open spec fn has_no_serial(t: Tree) -> bool {
    let columns = name_match::items_of(token::field(token::field(t, "CreateTable"@), "columns"@));
    forall|i: int| 0 <= i < columns.len() ==> !is_off(#[trigger] columns[i])
}

proof fn lemma_serial_rule_rests(t: Tree, raw: Seq<char>)
    requires
        has_no_serial(t),
    ensures
        serial_rule(t, raw) == (t, Seq::<diagnostic::DiagnosticView>::empty()),
{
    if let Some(ct) = syntax::member(t, "CreateTable"@) {
        if let Some(Tree::List(columns)) = syntax::member(ct, "columns"@) {
            assert(columns == name_match::items_of(
                token::field(token::field(t, "CreateTable"@), "columns"@),
            ));
            lemma_no_serial_reports(columns, raw);
            assert(without_serials(columns) =~= columns);
            lemma_member_kept(ct, "columns"@, Tree::List(columns));
            lemma_member_kept(t, "CreateTable"@, ct);
        }
    }
}

proof fn lemma_serial_rule_settles(t: Tree, raw: Seq<char>)
    ensures
        has_no_serial(serial_rule(t, raw).0),
{
    if let Some(ct) = syntax::member(t, "CreateTable"@) {
        if let Some(Tree::List(columns)) = syntax::member(ct, "columns"@) {
            let once = without_serials(columns);
            assert forall|i: int| 0 <= i < once.len() implies !is_off(#[trigger] once[i]) by {
                if is_off(columns[i]) {
                    lemma_mended_is_not_off(columns[i]);
                }
            }
            let table = syntax::with_member(ct, "columns"@, Tree::List(once));
            assert(syntax::member(table, "columns"@) == Some(Tree::List(once)));
        }
    }
}

proof fn lemma_no_key_reports(ops: Seq<Tree>, raw: Seq<char>)
    requires
        forall|i: int| 0 <= i < ops.len() ==> !adds_valid_key(#[trigger] ops[i]),
    ensures
        key_reports(ops, raw) == Seq::<diagnostic::DiagnosticView>::empty(),
    decreases ops.len(),
{
    if ops.len() > 0 {
        let front = ops.drop_last();
        assert forall|i: int| 0 <= i < front.len() implies !adds_valid_key(
            #[trigger] front[i],
        ) by {
            assert(front[i] == ops[i]);
        }
        lemma_no_key_reports(front, raw);
        assert(!adds_valid_key(ops[ops.len() - 1]));
    }
}

proof fn lemma_no_added_reports(ops: Seq<Tree>, raw: Seq<char>)
    requires
        forall|i: int|
            0 <= i < ops.len() ==> !is_off(added_column(#[trigger] ops[i])),
    ensures
        added_reports(ops, raw) == Seq::<diagnostic::DiagnosticView>::empty(),
    decreases ops.len(),
{
    if ops.len() > 0 {
        let front = ops.drop_last();
        assert forall|i: int| 0 <= i < front.len() implies !is_off(added_column(#[trigger] front[i])) by {
            assert(front[i] == ops[i]);
        }
        lemma_no_added_reports(front, raw);
        assert(!is_off(added_column(ops[ops.len() - 1])));
    }
}

/// Whether no operation adds a foreign key without `NOT VALID`.
pub open spec fn has_no_key(t: Tree) -> bool {
    forall|i: int|
        0 <= i < operations(t).len() ==> !adds_valid_key(#[trigger] operations(t)[i])
}

/// Whether no operation adds a column of a serial type.
pub open spec fn adds_no_serial(t: Tree) -> bool {
    forall|i: int|
        0 <= i < operations(t).len() ==> !is_off(added_column(#[trigger] operations(t)[i]))
}

proof fn lemma_operation_rules_rest(t: Tree, raw: Seq<char>)
    ensures
        has_no_key(t) ==> key_rule(t, raw) == (t, Seq::<diagnostic::DiagnosticView>::empty()),
        adds_no_serial(t) ==> added_rule(t, raw) == (
            t,
            Seq::<diagnostic::DiagnosticView>::empty(),
        ),
{
    if let Some(alter) = syntax::member(t, "AlterTable"@) {
        if let Some(Tree::List(ops)) = syntax::member(alter, "operations"@) {
            lemma_member_kept(alter, "operations"@, Tree::List(ops));
            lemma_member_kept(t, "AlterTable"@, alter);
            assert(operations(t) == ops);
            if has_no_key(t) {
                lemma_no_key_reports(ops, raw);
                assert(with_not_valid(ops) =~= ops);
            }
            if adds_no_serial(t) {
                lemma_no_added_reports(ops, raw);
                assert(without_added_serials(ops) =~= ops);
            }
        }
    }
}

#[verifier::spinoff_prover]
proof fn lemma_operation_rules_settle(t: Tree, raw: Seq<char>)
    ensures
        has_no_key(key_rule(t, raw).0),
        has_no_key(t) ==> has_no_key(added_rule(t, raw).0),
        adds_no_serial(added_rule(t, raw).0),
{
    reveal_strlit("AddConstraint");
    reveal_strlit("AddColumn");
    assert("AddConstraint"@.len() != "AddColumn"@.len());
    if let Some(alter) = syntax::member(t, "AlterTable"@) {
        if let Some(Tree::List(ops)) = syntax::member(alter, "operations"@) {
            assert(operations(t) == ops);
            let valid = with_not_valid(ops);
            assert forall|i: int| 0 <= i < valid.len() implies !adds_valid_key(
                #[trigger] valid[i],
            ) by {
                if adds_valid_key(ops[i]) {
                    let add = token::field(ops[i], "AddConstraint"@);
                    assert(token::field(valid[i], "AddConstraint"@) == syntax::with_member(
                        add,
                        "not_valid"@,
                        Tree::Flag(true),
                    ));
                }
            }
            let made = without_added_serials(ops);
            assert forall|i: int| 0 <= i < made.len() implies !is_off(added_column(#[trigger] made[i])) by {
                if is_off(added_column(ops[i])) {
                    lemma_mended_is_not_off(added_column(ops[i]));
                    assert(added_column(made[i]) == mended_column(added_column(ops[i])));
                }
            }
            assert forall|i: int| 0 <= i < made.len() && has_no_key(t) implies !adds_valid_key(
                #[trigger] made[i],
            ) by {
                assert(!adds_valid_key(operations(t)[i]));
                assert(token::field(made[i], "AddConstraint"@) == token::field(
                    ops[i],
                    "AddConstraint"@,
                ));
            }
            let x = syntax::with_member(alter, "operations"@, Tree::List(valid));
            let y = syntax::with_member(alter, "operations"@, Tree::List(made));
            assert(syntax::member(x, "operations"@) == Some(Tree::List(valid)));
            assert(syntax::member(y, "operations"@) == Some(Tree::List(made)));
        }
    }
}

/// Whether two trees agree on a field.
spec fn agree(a: Tree, b: Tree, key: Seq<char>) -> bool {
    token::field(a, key) == token::field(b, key)
}

/// What each rule leaves of a statement as it was: the serial rule all but the columns of a table,
/// the two on operations all but an `ALTER TABLE`, the one on indexes all but how one is built, the
/// last two all but the options of a sequence and the modes of a transaction.
#[verifier::spinoff_prover]
proof fn lemma_rules_do_not_meet(t: Tree, raw: Seq<char>)
    ensures
        ({
            let b = serial_rule(t, raw).0;
            &&& agree(b, t, "AlterTable"@)
            &&& agree(b, t, "CreateSequence"@)
        }),
        ({
            let c = key_rule(t, raw).0;
            &&& agree(c, t, "CreateTable"@)
            &&& agree(c, t, "CreateSequence"@)
        }),
        ({
            let d = added_rule(t, raw).0;
            &&& agree(d, t, "CreateTable"@)
            &&& agree(d, t, "CreateSequence"@)
        }),
        ({
            let e = index_rule(t, raw).0;
            &&& agree(e, t, "CreateTable"@)
            &&& agree(e, t, "AlterTable"@)
            &&& agree(e, t, "CreateSequence"@)
        }),
        ({
            let f = options::cache_rule(t, raw).0;
            &&& agree(f, t, "CreateTable"@)
            &&& agree(f, t, "AlterTable"@)
            &&& agree(f, t, "CreateIndex"@)
        }),
        ({
            let g = options::level_rule(t, raw).0;
            &&& agree(g, t, "CreateTable"@)
            &&& agree(g, t, "AlterTable"@)
            &&& agree(g, t, "CreateIndex"@)
            &&& agree(g, t, "CreateSequence"@)
        }),
        forall|i: int|
            0 <= i < refusals::field_table().len() ==> {
                let row = #[trigger] refusals::field_table()[i];
                let v = refusals::value_of(t, row);
                &&& refusals::value_of(serial_rule(t, raw).0, row) == v
                &&& refusals::value_of(key_rule(t, raw).0, row) == v
                &&& refusals::value_of(added_rule(t, raw).0, row) == v
                &&& refusals::value_of(index_rule(t, raw).0, row) == v
                &&& refusals::value_of(options::cache_rule(t, raw).0, row) == v
                &&& refusals::value_of(options::level_rule(t, raw).0, row) == v
            },
{
    lemma_kinds_are_apart();
    refusals::lemma_table_is_apart();
}

/// The kinds of statement that rules rewrite have names of their own.
proof fn lemma_kinds_are_apart()
    ensures
        "CreateTable"@ != "AlterTable"@,
        "CreateTable"@ != "CreateIndex"@,
        "CreateTable"@ != "CreateSequence"@,
        "CreateTable"@ != "StartTransaction"@,
        "AlterTable"@ != "CreateIndex"@,
        "AlterTable"@ != "CreateSequence"@,
        "AlterTable"@ != "StartTransaction"@,
        "CreateIndex"@ != "CreateSequence"@,
        "CreateIndex"@ != "StartTransaction"@,
        "CreateSequence"@ != "StartTransaction"@,
{
    reveal_strlit("CreateTable");
    reveal_strlit("AlterTable");
    reveal_strlit("CreateIndex");
    reveal_strlit("CreateSequence");
    reveal_strlit("StartTransaction");
    assert("CreateTable"@[6] != "CreateIndex"@[6]);
    assert("CreateTable"@.len() == 11);
    assert("AlterTable"@.len() == 10);
    assert("CreateSequence"@.len() == 14);
    assert("StartTransaction"@.len() == 16);
}

proof fn lemma_column_reports_fix_nothing(ops: Seq<Tree>, raw: Seq<char>)
    ensures
        none_fixed(column_reports(ops, raw)),
    decreases ops.len(),
{
    if ops.len() > 0 {
        lemma_column_reports_fix_nothing(ops.drop_last(), raw);
    }
}

proof fn lemma_left_fixes_nothing(t: Tree, raw: Seq<char>)
    ensures
        none_fixed(left(t, raw)),
{
    lemma_column_reports_fix_nothing(operations(t), raw);
    refusals::lemma_refused_is_unfixed(t, raw);
    let a = truncate_reports(t, raw);
    let b = column_reports(operations(t), raw);
    let c = refusals::refused(t, raw);
    let all = left(t, raw);
    assert forall|k: int| 0 <= k < all.len() implies (#[trigger] all[k]).fix_result
        is Unfixable by {
        if k < a.len() {
            assert(all[k] == a[k]);
        } else if k < a.len() + b.len() {
            assert(all[k] == b[k - a.len()]);
        } else {
            assert(all[k] == c[k - a.len() - b.len()]);
        }
    }
}

/// Whether an index, if a statement creates one, is built asynchronously.
pub open spec fn builds_async(t: Tree) -> bool {
    let index = token::field(t, "CreateIndex"@);
    &&& token::field(index, "concurrently"@) != Tree::Flag(true)
    &&& token::field(index, "async"@) == Tree::Flag(false) ==> token::field(index, "concurrently"@)
        != Tree::Flag(false)
}

/// Whether there is nothing in a statement that a rule rewrites.
#[verifier::opaque]
pub open spec fn is_settled(t: Tree) -> bool {
    &&& forall|i: int|
        0 <= i < refusals::field_table().len() && (#[trigger] refusals::field_table()[i]).remedy
            != refusals::Remedy::Left ==> !refusals::applies(t, refusals::field_table()[i])
    &&& has_no_serial(t)
    &&& has_no_key(t)
    &&& adds_no_serial(t)
    &&& builds_async(t)
    &&& options::caches_well(t)
    &&& options::levels_well(t)
}

/// Behind the rules there is nothing that one of them rewrites.
#[verifier::spinoff_prover]
proof fn lemma_rules_settle(t: Tree, raw: Seq<char>)
    ensures
        is_settled(ruled(t, raw).0),
        forall|i: int|
            0 <= i < refusals::field_table().len() ==> refusals::value_of(
                ruled(t, raw).0,
                #[trigger] refusals::field_table()[i],
            ) == refusals::value_of(
                refusals::field_rule(t, raw).0,
                refusals::field_table()[i],
            ),
{
    reveal(is_settled);
    let table = refusals::field_table();
    let a = refusals::field_rule(t, raw).0;
    let b = serial_rule(a, raw).0;
    let c = key_rule(b, raw).0;
    let d = added_rule(c, raw).0;
    let e = index_rule(d, raw).0;
    let f = options::cache_rule(e, raw).0;
    let g = options::level_rule(f, raw).0;
    refusals::lemma_table_is_apart();
    refusals::lemma_rows_settle(t, raw, table);
    lemma_rules_do_not_meet(a, raw);
    lemma_rules_do_not_meet(b, raw);
    lemma_rules_do_not_meet(c, raw);
    lemma_rules_do_not_meet(d, raw);
    lemma_rules_do_not_meet(e, raw);
    lemma_rules_do_not_meet(f, raw);
    assert forall|i: int| 0 <= i < table.len() implies refusals::value_of(g, #[trigger] table[i])
        == refusals::value_of(a, table[i]) by {}
    lemma_serial_rule_settles(a, raw);
    assert(agree(g, b, "CreateTable"@));
    assert(has_no_serial(g));
    lemma_operation_rules_settle(b, raw);
    lemma_operation_rules_settle(c, raw);
    assert(agree(g, d, "AlterTable"@));
    assert(operations(g) == operations(d));
    assert(has_no_key(g));
    assert(adds_no_serial(g));
    lemma_index_rule_settles(d, raw);
    assert(agree(g, e, "CreateIndex"@));
    options::lemma_cache_rule_settles(e, raw);
    assert(agree(g, f, "CreateSequence"@));
    options::lemma_level_rule_settles(f, raw);
}

/// Where there is nothing to rewrite the rules change nothing, and report what no rule fixes.
#[verifier::spinoff_prover]
proof fn lemma_settled_rests(t: Tree, raw: Seq<char>)
    requires
        is_settled(t),
    ensures
        refusals::field_rule(t, raw).0 == t,
        none_fixed(refusals::field_rule(t, raw).1),
        ruled(t, raw) == (t, refusals::field_rule(t, raw).1 + left(t, raw)),
{
    reveal(is_settled);
    refusals::lemma_rows_rest(t, raw, refusals::field_table());
    lemma_serial_rule_rests(t, raw);
    lemma_operation_rules_rest(t, raw);
    options::lemma_cache_rule_rests(t, raw);
    options::lemma_level_rule_rests(t, raw);
    assert(index_rule(t, raw) == (t, Seq::<diagnostic::DiagnosticView>::empty()));
    assert(ruled(t, raw).1 =~= refusals::field_rule(t, raw).1 + left(t, raw));
}

proof fn lemma_index_rule_settles(t: Tree, raw: Seq<char>)
    ensures
        builds_async(index_rule(t, raw).0),
{
    reveal_strlit("async");
    reveal_strlit("concurrently");
    assert("async"@.len() != "concurrently"@.len());
    let index = token::field(t, "CreateIndex"@);
    let built = syntax::with_member(index, "async"@, Tree::Flag(true));
    let after = index_rule(t, raw).0;
    if token::field(index, "concurrently"@) == Tree::Flag(true) {
        assert(token::field(after, "CreateIndex"@) == syntax::with_member(
            built,
            "concurrently"@,
            Tree::Flag(false),
        ));
    } else if token::field(index, "async"@) == Tree::Flag(false) && token::field(
        index,
        "concurrently"@,
    ) == Tree::Flag(false) {
        assert(token::field(after, "CreateIndex"@) == built);
    }
}

/// What the rules rewrote they do not find again: applied to what they made of a statement they
/// change nothing, and report only what none of them fixes.
#[verifier::spinoff_prover]
pub proof fn law_fixed_statement_is_stable(t: Tree, raw: Seq<char>, later: Seq<char>)
    ensures
        ruled(ruled(t, raw).0, later).0 == ruled(t, raw).0,
        none_fixed(ruled(ruled(t, raw).0, later).1),
{
    let after = ruled(t, raw).0;
    lemma_rules_settle(t, raw);
    lemma_settled_rests(after, later);
    lemma_left_fixes_nothing(after, later);
    let x = refusals::field_rule(after, later).1;
    let y = left(after, later);
    let all = ruled(after, later).1;
    assert forall|k: int| 0 <= k < all.len() implies (#[trigger] all[k]).fix_result
        is Unfixable by {
        if k < x.len() {
            assert(all[k] == x[k]);
        } else {
            assert(all[k] == y[k - x.len()]);
        }
    }
}

/// Whether every report is of a rule that rewrote what it found.
pub open spec fn all_fixed(ds: Seq<diagnostic::DiagnosticView>) -> bool {
    forall|i: int| 0 <= i < ds.len() ==> !((#[trigger] ds[i]).fix_result is Unfixable)
}

/// Whether the rules find nothing in a statement.
#[verifier::opaque]
pub open spec fn is_clean(t: Tree) -> bool {
    &&& is_settled(t)
    &&& forall|i: int|
        0 <= i < refusals::field_table().len() ==> !refusals::applies(
            t,
            #[trigger] refusals::field_table()[i],
        )
    &&& !transactions::is_kind(t, "Truncate"@)
    &&& forall|i: int|
        0 <= i < operations(t).len() ==> !adds_constrained_column(#[trigger] operations(t)[i])
    &&& refusals::is_taken(t)
}

proof fn lemma_no_column_reports(ops: Seq<Tree>, raw: Seq<char>)
    ensures
        column_reports(ops, raw).len() == 0 <==> forall|i: int|
            0 <= i < ops.len() ==> !adds_constrained_column(#[trigger] ops[i]),
    decreases ops.len(),
{
    if ops.len() > 0 {
        let front = ops.drop_last();
        lemma_no_column_reports(front, raw);
        assert(ops.last() == ops[ops.len() - 1]);
        if column_reports(ops, raw).len() == 0 {
            assert forall|i: int| 0 <= i < ops.len() implies !adds_constrained_column(
                #[trigger] ops[i],
            ) by {
                if i < front.len() {
                    assert(front[i] == ops[i]);
                }
            }
        }
        if forall|i: int| 0 <= i < ops.len() ==> !adds_constrained_column(#[trigger] ops[i]) {
            assert forall|i: int| 0 <= i < front.len() implies !adds_constrained_column(
                #[trigger] front[i],
            ) by {
                assert(front[i] == ops[i]);
            }
        }
    }
}

/// The rules report nothing on a clean statement, and leave it as it is; any other they report on.
#[verifier::spinoff_prover]
pub proof fn law_clean_is_what_is_not_reported(t: Tree, raw: Seq<char>)
    ensures
        is_clean(t) <==> ruled(t, raw).1.len() == 0,
        is_clean(t) ==> ruled(t, raw).0 == t,
{
    reveal(is_clean);
    lemma_no_column_reports(operations(t), raw);
    refusals::lemma_taken_is_not_reported(t, raw);
    if is_clean(t) {
        lemma_settled_rests(t, raw);
        refusals::lemma_no_rows_apply(t, raw, refusals::field_table());
        assert(left(t, raw) =~= seq![]);
    }
    if ruled(t, raw).1.len() == 0 {
        law_unfixed_statement_is_untouched(t, raw);
        lemma_silent_is_settled(t, raw);
        refusals::lemma_silent_rows(t, raw, refusals::field_table());
    }
}

/// Where nothing is reported there is nothing to rewrite.
proof fn lemma_silent_is_settled(t: Tree, raw: Seq<char>)
    requires
        ruled(t, raw).1.len() == 0,
    ensures
        is_settled(t),
        refusals::field_rule(t, raw).1.len() == 0,
        left(t, raw).len() == 0,
{
    law_unfixed_statement_is_untouched(t, raw);
    lemma_rules_settle(t, raw);
}

/// A statement that is fixed in full is clean: where the rules fixed all that they found, they
/// find nothing in what they made.
#[verifier::spinoff_prover]
pub proof fn law_fully_fixed_statement_is_clean(t: Tree, raw: Seq<char>, later: Seq<char>)
    requires
        all_fixed(ruled(t, raw).1),
    ensures
        is_clean(ruled(t, raw).0),
        ruled(ruled(t, raw).0, later) == (
            ruled(t, raw).0,
            Seq::<diagnostic::DiagnosticView>::empty(),
        ),
{
    let table = refusals::field_table();
    let after = ruled(t, raw).0;
    let all = ruled(t, raw).1;
    let a = refusals::field_rule(t, raw);
    let rest = left(after, raw);
    let front = (all.len() - rest.len()) as int;
    assert(all.subrange(front, all.len() as int) =~= rest);
    lemma_left_fixes_nothing(after, raw);
    if rest.len() > 0 {
        assert(all[front] == rest[0]);
    }
    lemma_rules_settle(t, raw);
    lemma_settled_rests(after, raw);
    refusals::lemma_table_is_apart();
    assert forall|i: int| 0 <= i < table.len() implies !refusals::applies(
        after,
        #[trigger] table[i],
    ) by {
        if refusals::applies(after, table[i]) {
            reveal(is_settled);
            assert(refusals::value_of(after, table[i]) == refusals::value_of(a.0, table[i]));
            refusals::lemma_left_row_is_reported(t, raw, table, i);
            let k = choose|k: int| 0 <= k < a.1.len() && (#[trigger] a.1[k]).fix_result is Unfixable;
            assert(all[k] == a.1[k]);
        }
    }
    refusals::lemma_no_rows_apply(after, raw, table);
    assert(ruled(after, raw).1 =~= seq![]);
    law_clean_is_what_is_not_reported(after, raw);
    law_clean_is_what_is_not_reported(after, later);
    assert(ruled(after, later).1 =~= seq![]);
}

/// A rule that fixes nothing changes nothing: where every report is of such a rule the statement
/// is as it was.
#[verifier::spinoff_prover]
pub proof fn law_unfixed_statement_is_untouched(t: Tree, raw: Seq<char>)
    requires
        none_fixed(ruled(t, raw).1),
    ensures
        ruled(t, raw).0 == t,
{
    let a = refusals::field_rule(t, raw);
    let b = serial_rule(a.0, raw);
    let c = key_rule(b.0, raw);
    let d = added_rule(c.0, raw);
    let e = index_rule(d.0, raw);
    let f = options::cache_rule(e.0, raw);
    let g = options::level_rule(f.0, raw);
    let ds = ruled(t, raw).1;
    assert forall|k: int| 0 <= k < a.1.len() implies (#[trigger] a.1[k]).fix_result is Unfixable by {
        assert(ds[k] == a.1[k]);
    }
    refusals::lemma_rows_silent(t, raw, refusals::field_table());
    if let Some(ct) = syntax::member(t, "CreateTable"@) {
        if let Some(Tree::List(columns)) = syntax::member(ct, "columns"@) {
            assert forall|i: int| 0 <= i < columns.len() implies !is_off(#[trigger] columns[i]) by {
                if is_off(columns[i]) {
                    lemma_serial_is_reported(columns, i, raw);
                    let k = choose|k: int|
                        0 <= k < b.1.len() && !((#[trigger] b.1[k]).fix_result is Unfixable);
                    assert(ds[a.1.len() + k] == b.1[k]);
                }
            }
        }
    }
    assert(has_no_serial(t));
    lemma_serial_rule_rests(t, raw);
    if let Some(alter) = syntax::member(t, "AlterTable"@) {
        if let Some(Tree::List(ops)) = syntax::member(alter, "operations"@) {
            assert forall|i: int| 0 <= i < ops.len() implies !adds_valid_key(#[trigger] ops[i]) by {
                if adds_valid_key(ops[i]) {
                    lemma_key_is_reported(ops, i, raw);
                    let k = choose|k: int|
                        0 <= k < c.1.len() && !((#[trigger] c.1[k]).fix_result is Unfixable);
                    assert(ds[a.1.len() + b.1.len() + k] == c.1[k]);
                }
            }
        }
    }
    assert(has_no_key(t));
    lemma_operation_rules_rest(t, raw);
    assert(c.0 == t);
    if let Some(alter) = syntax::member(t, "AlterTable"@) {
        if let Some(Tree::List(ops)) = syntax::member(alter, "operations"@) {
            assert forall|i: int| 0 <= i < ops.len() implies !is_off(added_column(#[trigger] ops[i])) by {
                if is_off(added_column(ops[i])) {
                    lemma_added_is_reported(ops, i, raw);
                    let k = choose|k: int|
                        0 <= k < d.1.len() && !((#[trigger] d.1[k]).fix_result is Unfixable);
                    assert(ds[a.1.len() + b.1.len() + c.1.len() + k] == d.1[k]);
                }
            }
        }
    }
    assert(adds_no_serial(t));
    assert(d.0 == t);
    let n = a.1.len() + b.1.len() + c.1.len() + d.1.len();
    if e.1.len() > 0 {
        assert(ds[n as int] == e.1[0]);
    }
    assert(e.0 == t);
    options::lemma_options_are_fixed(e.0, raw);
    if f.1.len() > 0 {
        assert(ds[(n + e.1.len()) as int] == f.1[0]);
    }
    options::lemma_cache_rule_silent(t, raw);
    options::lemma_cache_rule_rests(t, raw);
    assert(f.0 == t);
    if g.1.len() > 0 {
        assert(ds[(n + e.1.len() + f.1.len()) as int] == g.1[0]);
    }
    options::lemma_level_rule_silent(t, raw);
    options::lemma_level_rule_rests(t, raw);
}

proof fn lemma_added_is_reported(ops: Seq<Tree>, i: int, raw: Seq<char>)
    requires
        0 <= i < ops.len(),
        is_off(added_column(ops[i])),
    ensures
        exists|k: int|
            0 <= k < added_reports(ops, raw).len() && !((#[trigger] added_reports(
                ops,
                raw,
            )[k]).fix_result is Unfixable),
    decreases ops.len(),
{
    let all = added_reports(ops, raw);
    let front = ops.drop_last();
    if i < front.len() {
        lemma_added_is_reported(front, i, raw);
        let before = added_reports(front, raw);
        let k = choose|k: int|
            0 <= k < before.len() && !((#[trigger] before[k]).fix_result is Unfixable);
        assert(all[k] == before[k]);
    } else {
        assert(!(all[all.len() - 1].fix_result is Unfixable));
    }
}

proof fn lemma_serial_is_reported(columns: Seq<Tree>, i: int, raw: Seq<char>)
    requires
        0 <= i < columns.len(),
        is_off(columns[i]),
    ensures
        exists|k: int|
            0 <= k < serial_reports(columns, raw).len() && !((#[trigger] serial_reports(
                columns,
                raw,
            )[k]).fix_result is Unfixable),
    decreases columns.len(),
{
    let all = serial_reports(columns, raw);
    let front = columns.drop_last();
    if i < front.len() {
        lemma_serial_is_reported(front, i, raw);
        let before = serial_reports(front, raw);
        let k = choose|k: int|
            0 <= k < before.len() && !((#[trigger] before[k]).fix_result is Unfixable);
        assert(all[k] == before[k]);
    } else {
        assert(!(all[all.len() - 1].fix_result is Unfixable));
    }
}

proof fn lemma_key_is_reported(ops: Seq<Tree>, i: int, raw: Seq<char>)
    requires
        0 <= i < ops.len(),
        adds_valid_key(ops[i]),
    ensures
        exists|k: int|
            0 <= k < key_reports(ops, raw).len() && !((#[trigger] key_reports(
                ops,
                raw,
            )[k]).fix_result is Unfixable),
    decreases ops.len(),
{
    let all = key_reports(ops, raw);
    let front = ops.drop_last();
    if i < front.len() {
        lemma_key_is_reported(front, i, raw);
        let before = key_reports(front, raw);
        let k = choose|k: int|
            0 <= k < before.len() && !((#[trigger] before[k]).fix_result is Unfixable);
        assert(all[k] == before[k]);
    } else {
        assert(!(all[all.len() - 1].fix_result is Unfixable));
    }
}

} // verus!
