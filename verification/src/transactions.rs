//! The limits of a DSQL transaction: one DDL statement at most, and no DDL beside DML.

use serde_json::Value;
use vstd::prelude::*;
use vstd::string::StringExecFns;

use crate::diagnostic::{self, Diagnostic, FixResult, LintRule};
use crate::gap::{self, is_supported_alter_constraint, is_supported_set_constraints};
use crate::split::{self, Part};
use crate::syntax::{self, as_text, get, parse, Dialect, Tree};
use crate::text::{self, decimal_text, same, trim};

verus! {

/// Whether a statement is of the kind that serde writes as `name`.
pub open spec fn is_kind(t: Tree, name: Seq<char>) -> bool {
    syntax::member(t, name) is Some || t == Tree::Text(name)
}

pub(crate) fn has_kind(v: &Value, name: &str) -> (r: bool)
    ensures
        r == is_kind(syntax::tree(*v), name@),
{
    get(v, name).is_some() || match as_text(v) {
        Some(s) => same(s, name),
        None => false,
    }
}

/// Whether a statement defines schema objects.
pub open spec fn is_ddl(t: Tree) -> bool {
    ||| is_kind(t, "CreateTable"@)
    ||| is_kind(t, "CreateIndex"@)
    ||| is_kind(t, "CreateView"@)
    ||| is_kind(t, "CreateSequence"@)
    ||| is_kind(t, "CreateType"@)
    ||| is_kind(t, "CreateFunction"@)
    ||| is_kind(t, "CreateProcedure"@)
    ||| is_kind(t, "CreateTrigger"@)
    ||| is_kind(t, "CreateExtension"@)
    ||| is_kind(t, "CreateSchema"@)
    ||| is_kind(t, "CreateDatabase"@)
    ||| is_kind(t, "CreatePolicy"@)
    ||| is_kind(t, "CreateServer"@)
    ||| is_kind(t, "AlterTable"@)
    ||| is_kind(t, "AlterIndex"@)
    ||| is_kind(t, "AlterFunction"@)
    ||| is_kind(t, "AlterPolicy"@)
    ||| is_kind(t, "AlterType"@)
    ||| is_kind(t, "AlterRole"@)
    ||| is_kind(t, "AlterUser"@)
    ||| is_kind(t, "Drop"@)
    ||| is_kind(t, "DropTrigger"@)
    ||| is_kind(t, "DropPolicy"@)
    ||| is_kind(t, "Truncate"@)
}

/// Whether a statement changes rows.
pub open spec fn is_dml(t: Tree) -> bool {
    ||| is_kind(t, "Insert"@)
    ||| is_kind(t, "Update"@)
    ||| is_kind(t, "Delete"@)
    ||| is_kind(t, "Merge"@)
}

/// Whether a statement opens a transaction.
pub open spec fn is_begin(t: Tree) -> bool {
    is_kind(t, "StartTransaction"@)
}

/// Whether a statement commits a transaction.
pub open spec fn is_commit(t: Tree) -> bool {
    is_kind(t, "Commit"@)
}

/// Whether a statement ends a transaction.
pub open spec fn is_txn_end(t: Tree) -> bool {
    is_commit(t) || is_kind(t, "Rollback"@)
}

pub fn reads_ddl(v: &Value) -> (r: bool)
    ensures
        r == is_ddl(syntax::tree(*v)),
{
    has_kind(v, "CreateTable")
        || has_kind(v, "CreateIndex")
        || has_kind(v, "CreateView")
        || has_kind(v, "CreateSequence")
        || has_kind(v, "CreateType")
        || has_kind(v, "CreateFunction")
        || has_kind(v, "CreateProcedure")
        || has_kind(v, "CreateTrigger")
        || has_kind(v, "CreateExtension")
        || has_kind(v, "CreateSchema")
        || has_kind(v, "CreateDatabase")
        || has_kind(v, "CreatePolicy")
        || has_kind(v, "CreateServer")
        || has_kind(v, "AlterTable")
        || has_kind(v, "AlterIndex")
        || has_kind(v, "AlterFunction")
        || has_kind(v, "AlterPolicy")
        || has_kind(v, "AlterType")
        || has_kind(v, "AlterRole")
        || has_kind(v, "AlterUser")
        || has_kind(v, "Drop")
        || has_kind(v, "DropTrigger")
        || has_kind(v, "DropPolicy")
        || has_kind(v, "Truncate")
}

pub fn reads_dml(v: &Value) -> (r: bool)
    ensures
        r == is_dml(syntax::tree(*v)),
{
    has_kind(v, "Insert") || has_kind(v, "Update") || has_kind(v, "Delete") || has_kind(v, "Merge")
}

pub fn reads_begin(v: &Value) -> (r: bool)
    ensures
        r == is_begin(syntax::tree(*v)),
{
    has_kind(v, "StartTransaction")
}

pub fn reads_commit(v: &Value) -> (r: bool)
    ensures
        r == is_commit(syntax::tree(*v)),
{
    has_kind(v, "Commit")
}

pub fn reads_txn_end(v: &Value) -> (r: bool)
    ensures
        r == is_txn_end(syntax::tree(*v)),
{
    reads_commit(v) || has_kind(v, "Rollback")
}

/// The report on a transaction with several DDL statements.
pub open spec fn multi_ddl(
    line: usize,
    ddl_count: usize,
    begin: Seq<char>,
    fix: diagnostic::FixView,
) -> diagnostic::DiagnosticView {
    diagnostic::DiagnosticView {
        rule: LintRule::MultiDdlTransaction,
        line,
        statement: begin,
        message: "Transaction contains "@ + text::decimal(ddl_count as nat)
            + " DDL statements. DSQL supports only one DDL statement per transaction."@,
        suggestion: "Split into separate transactions: wrap each DDL statement in its own BEGIN/COMMIT block. Note: this changes semantics — the original transaction's atomicity guarantee is lost. If a later statement fails, earlier statements remain committed."@,
        fix_result: fix,
    }
}

/// The report on a transaction with DDL and DML.
pub open spec fn mixed_ddl_dml(
    line: usize,
    ddl_count: usize,
    dml_count: usize,
    begin: Seq<char>,
    fix: diagnostic::FixView,
) -> diagnostic::DiagnosticView {
    diagnostic::DiagnosticView {
        rule: LintRule::MixedDdlDmlTransaction,
        line,
        statement: begin,
        message: "Transaction mixes DDL and DML ("@ + text::decimal(ddl_count as nat) + " DDL, "@
            + text::decimal(dml_count as nat)
            + " DML). DSQL does not allow DDL and DML in the same transaction."@,
        suggestion: "Split into separate transactions so each BEGIN/COMMIT block contains either DDL or DML, not both. Note: this changes semantics — the original transaction's atomicity guarantee is lost. If a later statement fails, earlier statements remain committed."@,
        fix_result: fix,
    }
}

/// The report on a transaction with several DDL statements.
pub fn multi_ddl_txn_diagnostic(
    line: usize,
    ddl_count: usize,
    begin_text: &str,
    fix_result: FixResult,
) -> (r: Diagnostic)
    ensures
        r@ == multi_ddl(line, ddl_count, begin_text@, fix_result@),
{
    let mut message = "Transaction contains ".to_owned();
    message.append(decimal_text(ddl_count as u64).as_str());
    message.append(" DDL statements. DSQL supports only one DDL statement per transaction.");
    Diagnostic {
        rule: LintRule::MultiDdlTransaction,
        line,
        statement: begin_text.to_owned(),
        message,
        suggestion: "Split into separate transactions: wrap each DDL statement in its own BEGIN/COMMIT block. Note: this changes semantics — the original transaction's atomicity guarantee is lost. If a later statement fails, earlier statements remain committed.".to_owned(),
        fix_result,
    }
}

/// The report on a transaction with DDL and DML.
pub fn mixed_ddl_dml_txn_diagnostic(
    line: usize,
    ddl_count: usize,
    dml_count: usize,
    begin_text: &str,
    fix_result: FixResult,
) -> (r: Diagnostic)
    ensures
        r@ == mixed_ddl_dml(line, ddl_count, dml_count, begin_text@, fix_result@),
{
    let mut message = "Transaction mixes DDL and DML (".to_owned();
    message.append(decimal_text(ddl_count as u64).as_str());
    message.append(" DDL, ");
    message.append(decimal_text(dml_count as u64).as_str());
    message.append(" DML). DSQL does not allow DDL and DML in the same transaction.");
    Diagnostic {
        rule: LintRule::MixedDdlDmlTransaction,
        line,
        statement: begin_text.to_owned(),
        message,
        suggestion: "Split into separate transactions so each BEGIN/COMMIT block contains either DDL or DML, not both. Note: this changes semantics — the original transaction's atomicity guarantee is lost. If a later statement fails, earlier statements remain committed.".to_owned(),
        fix_result,
    }
}

/// A transaction that the check is following: where it began, and what it has held so far.
pub ghost struct Txn {
    pub open: bool,
    pub line: usize,
    pub begin: Seq<char>,
    pub ddl: usize,
    pub dml: usize,
}

/// One more, or the greatest count.
pub open spec fn one_more(n: usize) -> usize {
    if n < usize::MAX {
        (n + 1) as usize
    } else {
        n
    }
}

/// Before the first statement.
pub open spec fn no_txn() -> Txn {
    Txn { open: false, line: 0, begin: seq![], ddl: 0, dml: 0 }
}

/// The reports that a commit brings.
pub open spec fn commit_reports(txn: Txn) -> Seq<diagnostic::DiagnosticView> {
    let multi = if txn.ddl > 1 {
        seq![multi_ddl(txn.line, txn.ddl, txn.begin, diagnostic::FixView::Unfixable)]
    } else {
        seq![]
    };
    let mixed = if txn.ddl >= 1 && txn.dml >= 1 {
        seq![
            mixed_ddl_dml(txn.line, txn.ddl, txn.dml, txn.begin, diagnostic::FixView::Unfixable),
        ]
    } else {
        seq![]
    };
    multi + mixed
}

/// One statement of the part `part`: the transaction behind it, and its reports.
pub open spec fn statement_step(txn: Txn, t: Tree, part: (usize, Seq<char>)) -> (
    Txn,
    Seq<diagnostic::DiagnosticView>,
) {
    if is_begin(t) && !txn.open {
        (Txn { open: true, line: part.0, begin: part.1, ddl: 0, dml: 0 }, seq![])
    } else if is_txn_end(t) {
        (
            Txn { open: false, ..txn },
            if txn.open && is_commit(t) {
                commit_reports(txn)
            } else {
                seq![]
            },
        )
    } else if txn.open && is_ddl(t) {
        (Txn { ddl: one_more(txn.ddl), ..txn }, seq![])
    } else if txn.open && is_dml(t) {
        (Txn { dml: one_more(txn.dml), ..txn }, seq![])
    } else {
        (txn, seq![])
    }
}

/// The statements of the part `part`, one after the other.
pub open spec fn statements_step(txn: Txn, ts: Seq<Tree>, part: (usize, Seq<char>)) -> (
    Txn,
    Seq<diagnostic::DiagnosticView>,
)
    decreases ts.len(),
{
    if ts.len() == 0 {
        (txn, seq![])
    } else {
        let before = statements_step(txn, ts.drop_last(), part);
        let step = statement_step(before.0, ts.last(), part);
        (step.0, before.1 + step.1)
    }
}

/// The report on a statement inside a transaction that does not parse.
pub open spec fn unparsed(part: (usize, Seq<char>), error: Seq<char>) -> diagnostic::DiagnosticView {
    diagnostic::DiagnosticView {
        rule: LintRule::ParseError,
        line: part.0,
        statement: part.1,
        message: "Cannot parse statement inside transaction block: "@ + error
            + ". DDL transaction analysis may be incomplete."@,
        suggestion: "Fix the SQL syntax or manually verify this transaction has at most one DDL statement."@,
        fix_result: diagnostic::FixView::Unfixable,
    }
}

/// One part of the script: the transaction behind it, and its reports.
pub open spec fn part_step(txn: Txn, part: (usize, Seq<char>)) -> (
    Txn,
    Seq<diagnostic::DiagnosticView>,
) {
    match syntax::statements(Dialect::Postgres, text::trimmed(part.1)) {
        Ok(ts) => statements_step(txn, ts, part),
        Err(e) => if gap::supported_alter_constraint(part.1) {
            (
                if txn.open {
                    Txn { ddl: one_more(txn.ddl), ..txn }
                } else {
                    txn
                },
                seq![],
            )
        } else if gap::supported_set_constraints(part.1) || !txn.open {
            (txn, seq![])
        } else {
            (txn, seq![unparsed(part, e)])
        },
    }
}

/// The whole script: the transaction that is left open, and every report.
pub open spec fn followed(parts: Seq<(usize, Seq<char>)>) -> (
    Txn,
    Seq<diagnostic::DiagnosticView>,
)
    decreases parts.len(),
{
    if parts.len() == 0 {
        (no_txn(), seq![])
    } else {
        let before = followed(parts.drop_last());
        let step = part_step(before.0, parts.last());
        (step.0, before.1 + step.1)
    }
}

/// What the check keeps of a transaction while it follows it.
pub struct Follower {
    pub open: bool,
    pub line: usize,
    pub begin: String,
    pub ddl: usize,
    pub dml: usize,
}

impl View for Follower {
    type V = Txn;

    open spec fn view(&self) -> Txn {
        Txn { open: self.open, line: self.line, begin: self.begin@, ddl: self.ddl, dml: self.dml }
    }
}

/// Follows one statement.
pub fn follow_statement(
    txn: &mut Follower,
    stmt: &Value,
    part: &Part,
    diagnostics: &mut Vec<Diagnostic>,
)
    ensures
        ({
            let step = statement_step(old(txn)@, syntax::tree(*stmt), (part.0, part.1@));
            final(txn)@ == step.0 && diagnostic::reports(final(diagnostics)@)
                == diagnostic::reports(old(diagnostics)@) + step.1
        }),
{
    let ghost before = diagnostic::reports(diagnostics@);
    proof {
        assert(before + seq![] =~= before);
    }
    if reads_begin(stmt) && !txn.open {
        txn.open = true;
        txn.line = part.0;
        txn.begin = part.1.clone();
        txn.ddl = 0;
        txn.dml = 0;
    } else if reads_txn_end(stmt) {
        if txn.open && reads_commit(stmt) {
            let ghost reports = commit_reports(txn@);
            if txn.ddl > 1 {
                diagnostics.push(
                    multi_ddl_txn_diagnostic(
                        txn.line,
                        txn.ddl,
                        txn.begin.as_str(),
                        FixResult::Unfixable,
                    ),
                );
            }
            if txn.ddl >= 1 && txn.dml >= 1 {
                diagnostics.push(
                    mixed_ddl_dml_txn_diagnostic(
                        txn.line,
                        txn.ddl,
                        txn.dml,
                        txn.begin.as_str(),
                        FixResult::Unfixable,
                    ),
                );
            }
            proof {
                assert(diagnostic::reports(diagnostics@) =~= before + reports);
            }
        }
        txn.open = false;
    } else if txn.open {
        if reads_ddl(stmt) {
            txn.ddl = txn.ddl.saturating_add(1);
        } else if reads_dml(stmt) {
            txn.dml = txn.dml.saturating_add(1);
        }
    }
}

/// Follows the statements of one part.
pub fn follow_statements(
    txn: &mut Follower,
    stmts: &Vec<Value>,
    part: &Part,
    diagnostics: &mut Vec<Diagnostic>,
)
    ensures
        ({
            let step = statements_step(old(txn)@, syntax::trees(stmts@), (part.0, part.1@));
            final(txn)@ == step.0 && diagnostic::reports(final(diagnostics)@)
                == diagnostic::reports(old(diagnostics)@) + step.1
        }),
{
    let ghost ts = syntax::trees(stmts@);
    let ghost start = txn@;
    let ghost before = diagnostic::reports(diagnostics@);
    let ghost view = (part.0, part.1@);
    let mut i: usize = 0;
    proof {
        assert(ts.take(0) =~= seq![]);
        assert(before + seq![] =~= before);
    }
    while i < stmts.len()
        invariant
            i <= stmts@.len(),
            ts == syntax::trees(stmts@),
            view == (part.0, part.1@),
            txn@ == statements_step(start, ts.take(i as int), view).0,
            diagnostic::reports(diagnostics@) == before + statements_step(
                start,
                ts.take(i as int),
                view,
            ).1,
        decreases stmts@.len() - i,
    {
        proof {
            assert(ts.take(i + 1).drop_last() =~= ts.take(i as int));
            let done = statements_step(start, ts.take(i as int), view);
            let step = statement_step(done.0, ts[i as int], view);
            assert(before + (done.1 + step.1) =~= (before + done.1) + step.1);
        }
        follow_statement(txn, &stmts[i], part, diagnostics);
        i += 1;
    }
    proof {
        assert(ts.take(i as int) =~= ts);
    }
}

/// Follows one part of the script.
pub fn follow_part(txn: &mut Follower, part: &Part, diagnostics: &mut Vec<Diagnostic>)
    ensures
        ({
            let step = part_step(old(txn)@, (part.0, part.1@));
            final(txn)@ == step.0 && diagnostic::reports(final(diagnostics)@)
                == diagnostic::reports(old(diagnostics)@) + step.1
        }),
{
    let ghost before = diagnostic::reports(diagnostics@);
    proof {
        assert(before + seq![] =~= before);
    }
    match parse(Dialect::Postgres, trim(part.1.as_str()).as_str()) {
        Ok(stmts) => {
            follow_statements(txn, &stmts, part, diagnostics);
        },
        Err(e) => {
            if is_supported_alter_constraint(part.1.as_str()) {
                if txn.open {
                    txn.ddl = txn.ddl.saturating_add(1);
                }
            } else if is_supported_set_constraints(part.1.as_str()) {
            } else if txn.open {
                let mut message = "Cannot parse statement inside transaction block: ".to_owned();
                message.append(e.as_str());
                message.append(". DDL transaction analysis may be incomplete.");
                diagnostics.push(
                    Diagnostic {
                        rule: LintRule::ParseError,
                        line: part.0,
                        statement: part.1.clone(),
                        message,
                        suggestion: "Fix the SQL syntax or manually verify this transaction has at most one DDL statement.".to_owned(),
                        fix_result: FixResult::Unfixable,
                    },
                );
                proof {
                    assert(diagnostic::reports(diagnostics@) =~= before + seq![
                        unparsed((part.0, part.1@), e@),
                    ]);
                }
            }
        },
    }
}

/// Reports the transactions that DSQL would refuse: those with several DDL statements, and
/// those with DDL beside DML.
pub fn check_ddl_transactions(stmts: &Vec<Part>, diagnostics: &mut Vec<Diagnostic>)
    ensures
        diagnostic::reports(final(diagnostics)@) == diagnostic::reports(old(diagnostics)@)
            + followed(split::parts_view(stmts@)).1,
{
    let ghost ps = split::parts_view(stmts@);
    let ghost before = diagnostic::reports(diagnostics@);
    let mut txn = Follower { open: false, line: 0, begin: String::new(), ddl: 0, dml: 0 };
    let mut i: usize = 0;
    proof {
        assert(ps.take(0) =~= seq![]);
        assert(before + seq![] =~= before);
    }
    while i < stmts.len()
        invariant
            i <= stmts@.len(),
            ps == split::parts_view(stmts@),
            txn@ == followed(ps.take(i as int)).0,
            diagnostic::reports(diagnostics@) == before + followed(ps.take(i as int)).1,
        decreases stmts@.len() - i,
    {
        proof {
            assert(ps.take(i + 1).drop_last() =~= ps.take(i as int));
            let done = followed(ps.take(i as int));
            let step = part_step(done.0, ps[i as int]);
            assert(before + (done.1 + step.1) =~= (before + done.1) + step.1);
        }
        follow_part(&mut txn, &stmts[i], diagnostics);
        i += 1;
    }
    proof {
        assert(ps.take(i as int) =~= ps);
    }
}

/// What a part of the script is to the transaction around it.
pub ghost enum Role {
    /// It does not parse; the parser's message.
    Broken(Seq<char>),
    /// It ends the transaction: by a commit, or otherwise.
    End(bool),
    /// It opens a transaction inside the transaction.
    Nested,
    Ddl,
    Dml,
    Other,
}

/// Whether some statement of the list is of a kind.
pub open spec fn some_kind(ts: Seq<Tree>, kind: spec_fn(Tree) -> bool) -> bool {
    exists|i: int| 0 <= i < ts.len() && kind(#[trigger] ts[i])
}

/// The role of a part that is the statements `ts`.
pub open spec fn statements_role(ts: Seq<Tree>) -> Role {
    if some_kind(ts, |t: Tree| is_txn_end(t)) {
        Role::End(some_kind(ts, |t: Tree| is_commit(t)))
    } else if some_kind(ts, |t: Tree| is_begin(t)) {
        Role::Nested
    } else if some_kind(ts, |t: Tree| is_ddl(t)) {
        Role::Ddl
    } else if some_kind(ts, |t: Tree| is_dml(t)) {
        Role::Dml
    } else {
        Role::Other
    }
}

/// The role of a part with the given text.
pub open spec fn role_of(sql: Seq<char>) -> Role {
    if gap::supported_alter_constraint(sql) {
        Role::Ddl
    } else if gap::supported_set_constraints(sql) {
        Role::Other
    } else {
        match syntax::statements(Dialect::Postgres, text::trimmed(sql)) {
            Err(e) => Role::Broken(e),
            Ok(ts) => statements_role(ts),
        }
    }
}

/// Whether a part opens a transaction.
pub open spec fn opens_txn(sql: Seq<char>) -> bool {
    match syntax::statements(Dialect::Postgres, text::trimmed(sql)) {
        Ok(ts) => some_kind(ts, |t: Tree| is_begin(t)),
        Err(_) => false,
    }
}

/// The first part at or behind `at` that ends the transaction or does not parse; the number of
/// parts where there is none.
pub open spec fn end_of_txn(parts: Seq<(usize, Seq<char>)>, at: int) -> int
    decreases parts.len() - at,
{
    if at >= parts.len() {
        parts.len() as int
    } else {
        match role_of(parts[at].1) {
            Role::Broken(_) => at,
            Role::End(_) => at,
            _ => end_of_txn(parts, at + 1),
        }
    }
}

/// How many parts are DDL.
pub open spec fn count_ddl(parts: Seq<(usize, Seq<char>)>) -> nat
    decreases parts.len(),
{
    if parts.len() == 0 {
        0
    } else {
        count_ddl(parts.drop_last()) + if role_of(parts.last().1) is Ddl {
            1nat
        } else {
            0
        }
    }
}

/// How many parts are DML.
pub open spec fn count_dml(parts: Seq<(usize, Seq<char>)>) -> nat
    decreases parts.len(),
{
    if parts.len() == 0 {
        0
    } else {
        count_dml(parts.drop_last()) + if role_of(parts.last().1) is Dml {
            1nat
        } else {
            0
        }
    }
}

/// A transaction of its own around some statements; nothing around none.
pub open spec fn wrapped(begin: (usize, Seq<char>), run: Seq<(usize, Seq<char>)>) -> Seq<
    (usize, Seq<char>),
> {
    if run.len() == 0 {
        seq![]
    } else {
        seq![begin] + run + seq![(begin.0, "COMMIT"@)]
    }
}

/// The body of a transaction cut into runs that can each be a transaction: every DDL statement
/// alone, and what stands between them together. The runs that are closed, and the open one.
pub open spec fn runs(body: Seq<(usize, Seq<char>)>) -> (
    Seq<Seq<(usize, Seq<char>)>>,
    Seq<(usize, Seq<char>)>,
)
    decreases body.len(),
{
    if body.len() == 0 {
        (seq![], seq![])
    } else {
        let before = runs(body.drop_last());
        match role_of(body.last().1) {
            Role::Nested => before,
            Role::Ddl => (before.0.push(before.1).push(seq![body.last()]), seq![]),
            _ => (before.0, before.1.push(body.last())),
        }
    }
}

/// Each run in a transaction of its own, in order.
pub open spec fn wrapped_all(
    begin: (usize, Seq<char>),
    rs: Seq<Seq<(usize, Seq<char>)>>,
) -> Seq<(usize, Seq<char>)>
    decreases rs.len(),
{
    if rs.len() == 0 {
        seq![]
    } else {
        wrapped_all(begin, rs.drop_last()) + wrapped(begin, rs.last())
    }
}

/// What takes the place of a transaction with the given body.
pub open spec fn regrouped(begin: (usize, Seq<char>), body: Seq<(usize, Seq<char>)>) -> Seq<
    (usize, Seq<char>),
> {
    wrapped_all(begin, runs(body).0) + wrapped(begin, runs(body).1)
}

/// Whether DSQL would refuse a transaction with the given body.
pub open spec fn needs_split(body: Seq<(usize, Seq<char>)>) -> bool {
    count_ddl(body) > 1 || (count_ddl(body) >= 1 && count_dml(body) >= 1)
}

/// The report on a statement that keeps a transaction from being split.
pub open spec fn unsplittable(
    part: (usize, Seq<char>),
    error: Seq<char>,
) -> diagnostic::DiagnosticView {
    diagnostic::DiagnosticView {
        rule: LintRule::ParseError,
        line: part.0,
        statement: part.1,
        message: "Cannot parse statement inside transaction: "@ + error
            + ". Skipping auto-fix for this transaction block."@,
        suggestion: "Fix the syntax error, then re-run with --fix."@,
        fix_result: diagnostic::FixView::Unfixable,
    }
}

/// The reports on a transaction that was split.
pub open spec fn split_reports(
    begin: (usize, Seq<char>),
    body: Seq<(usize, Seq<char>)>,
) -> Seq<diagnostic::DiagnosticView> {
    let ddl = count_ddl(body) as usize;
    let dml = count_dml(body) as usize;
    let multi = if ddl > 1 {
        seq![
            multi_ddl(
                begin.0,
                ddl,
                begin.1,
                diagnostic::FixView::FixedWithWarning(
                    "Split multi-DDL transaction into individual BEGIN/COMMIT blocks; atomicity guarantee LOST — if a later statement fails after fix, earlier statements remain committed. Review carefully before applying."@,
                ),
            ),
        ]
    } else {
        seq![]
    };
    let mixed = if ddl >= 1 && dml >= 1 {
        seq![
            mixed_ddl_dml(
                begin.0,
                ddl,
                dml,
                begin.1,
                diagnostic::FixView::FixedWithWarning(
                    "Split mixed DDL+DML transaction; atomicity guarantee LOST — if a later statement fails after fix, earlier statements remain committed. Review carefully before applying."@,
                ),
            ),
        ]
    } else {
        seq![]
    };
    multi + mixed
}

/// How far one step of the fix goes from `at`, what it leaves in place of those parts, and
/// what it reports.
pub open spec fn fix_step(parts: Seq<(usize, Seq<char>)>, at: int) -> (
    int,
    Seq<(usize, Seq<char>)>,
    Seq<diagnostic::DiagnosticView>,
) {
    let end = end_of_txn(parts, at + 1);
    if !opens_txn(parts[at].1) || end >= parts.len() {
        (at + 1, seq![parts[at]], seq![])
    } else {
        match role_of(parts[end].1) {
            Role::Broken(e) => (at + 1, seq![parts[at]], seq![unsplittable(parts[end], e)]),
            Role::End(true) => {
                let body = parts.subrange(at + 1, end);
                if needs_split(body) {
                    (end + 1, regrouped(parts[at], body), split_reports(parts[at], body))
                } else {
                    (end + 1, parts.subrange(at, end + 1), seq![])
                }
            },
            _ => (at + 1, seq![parts[at]], seq![]),
        }
    }
}

/// The script from `at` on with its transactions split, and every report.
pub open spec fn split_txns(parts: Seq<(usize, Seq<char>)>, at: int) -> (
    Seq<(usize, Seq<char>)>,
    Seq<diagnostic::DiagnosticView>,
)
    decreases parts.len() - at,
{
    if !(0 <= at < parts.len()) {
        (seq![], seq![])
    } else {
        let step = fix_step(parts, at);
        proof {
            lemma_end_of_txn(parts, at + 1);
        }
        let rest = split_txns(parts, step.0);
        (step.1 + rest.0, step.2 + rest.1)
    }
}

/// A transaction ends behind its beginning.
pub proof fn lemma_end_of_txn(parts: Seq<(usize, Seq<char>)>, at: int)
    ensures
        at < parts.len() ==> at <= end_of_txn(parts, at) <= parts.len(),
        at >= parts.len() ==> end_of_txn(parts, at) == parts.len(),
        forall|i: int|
            at <= i < end_of_txn(parts, at) ==> !(role_of((#[trigger] parts[i]).1) is Broken)
                && !(role_of(parts[i].1) is End),
        at <= end_of_txn(parts, at) < parts.len() ==> (role_of(parts[end_of_txn(parts, at)].1) is Broken
            || role_of(parts[end_of_txn(parts, at)].1) is End),
    decreases parts.len() - at,
{
    if at < parts.len() {
        match role_of(parts[at].1) {
            Role::Broken(_) => {},
            Role::End(_) => {},
            _ => {
                lemma_end_of_txn(parts, at + 1);
            },
        }
    }
}

/// The kinds of statement that a part holds.
pub struct Kinds {
    pub begin: bool,
    pub commit: bool,
    pub end: bool,
    pub ddl: bool,
    pub dml: bool,
}

/// Whether `k` tells which kinds occur in `ts`.
pub open spec fn tells(k: Kinds, ts: Seq<Tree>) -> bool {
    &&& k.begin == some_kind(ts, |t: Tree| is_begin(t))
    &&& k.commit == some_kind(ts, |t: Tree| is_commit(t))
    &&& k.end == some_kind(ts, |t: Tree| is_txn_end(t))
    &&& k.ddl == some_kind(ts, |t: Tree| is_ddl(t))
    &&& k.dml == some_kind(ts, |t: Tree| is_dml(t))
}

proof fn lemma_some_kind_step(ts: Seq<Tree>, i: int, kind: spec_fn(Tree) -> bool)
    requires
        0 <= i < ts.len(),
    ensures
        some_kind(ts.take(i + 1), kind) == (some_kind(ts.take(i), kind) || kind(ts[i])),
{
    let now = ts.take(i + 1);
    let before = ts.take(i);
    if some_kind(now, kind) {
        let j = choose|j: int| 0 <= j < now.len() && kind(#[trigger] now[j]);
        if j < i {
            assert(kind(before[j]));
        }
    }
    if some_kind(before, kind) {
        let j = choose|j: int| 0 <= j < before.len() && kind(#[trigger] before[j]);
        assert(kind(now[j]));
    }
    if kind(ts[i]) {
        assert(kind(now[i]));
    }
}

/// The kinds of statement that occur.
pub fn kinds_of(stmts: &Vec<Value>) -> (r: Kinds)
    ensures
        tells(r, syntax::trees(stmts@)),
{
    let ghost ts = syntax::trees(stmts@);
    let mut k = Kinds { begin: false, commit: false, end: false, ddl: false, dml: false };
    let mut i: usize = 0;
    while i < stmts.len()
        invariant
            i <= stmts@.len(),
            ts == syntax::trees(stmts@),
            tells(k, ts.take(i as int)),
        decreases stmts@.len() - i,
    {
        let v = &stmts[i];
        proof {
            lemma_some_kind_step(ts, i as int, |t: Tree| is_begin(t));
            lemma_some_kind_step(ts, i as int, |t: Tree| is_commit(t));
            lemma_some_kind_step(ts, i as int, |t: Tree| is_txn_end(t));
            lemma_some_kind_step(ts, i as int, |t: Tree| is_ddl(t));
            lemma_some_kind_step(ts, i as int, |t: Tree| is_dml(t));
        }
        k = Kinds {
            begin: k.begin || reads_begin(v),
            commit: k.commit || reads_commit(v),
            end: k.end || reads_txn_end(v),
            ddl: k.ddl || reads_ddl(v),
            dml: k.dml || reads_dml(v),
        };
        i += 1;
    }
    proof {
        assert(ts.take(i as int) =~= ts);
    }
    k
}

/// The role of a part, as the fix reads it.
#[derive(Debug)]
pub enum PartRole {
    Broken(String),
    End(bool),
    Nested,
    Ddl,
    Dml,
    Other,
}

impl View for PartRole {
    type V = Role;

    open spec fn view(&self) -> Role {
        match *self {
            PartRole::Broken(e) => Role::Broken(e@),
            PartRole::End(b) => Role::End(b),
            PartRole::Nested => Role::Nested,
            PartRole::Ddl => Role::Ddl,
            PartRole::Dml => Role::Dml,
            PartRole::Other => Role::Other,
        }
    }
}

/// The role of a part that is the given statements.
pub fn read_statements_role(stmts: &Vec<Value>) -> (r: PartRole)
    ensures
        r@ == statements_role(syntax::trees(stmts@)),
{
    let k = kinds_of(stmts);
    if k.end {
        PartRole::End(k.commit)
    } else if k.begin {
        PartRole::Nested
    } else if k.ddl {
        PartRole::Ddl
    } else if k.dml {
        PartRole::Dml
    } else {
        PartRole::Other
    }
}

/// The role of a part with the given text.
pub fn read_role(sql: &str) -> (r: PartRole)
    ensures
        r@ == role_of(sql@),
{
    if is_supported_alter_constraint(sql) {
        return PartRole::Ddl;
    }
    if is_supported_set_constraints(sql) {
        return PartRole::Other;
    }
    match parse(Dialect::Postgres, trim(sql).as_str()) {
        Err(e) => PartRole::Broken(e),
        Ok(stmts) => read_statements_role(&stmts),
    }
}

fn reads_opening(sql: &str) -> (r: bool)
    ensures
        r == opens_txn(sql@),
{
    match parse(Dialect::Postgres, trim(sql).as_str()) {
        Ok(stmts) => kinds_of(&stmts).begin,
        Err(_) => false,
    }
}

/// A copy of a part.
pub(crate) fn copy_part(part: &Part) -> (r: Part)
    ensures
        r.0 == part.0,
        r.1@ == part.1@,
{
    (part.0, part.1.clone())
}

/// Adds copies of `parts[from..to]`.
fn copy_parts(parts: &Vec<Part>, from: usize, to: usize, out: &mut Vec<Part>)
    requires
        from <= to <= parts@.len(),
    ensures
        split::parts_view(final(out)@) == split::parts_view(old(out)@) + split::parts_view(
            parts@,
        ).subrange(from as int, to as int),
{
    let ghost ps = split::parts_view(parts@);
    let ghost before = split::parts_view(out@);
    let mut i: usize = from;
    while i < to
        invariant
            from <= i <= to <= parts@.len(),
            ps == split::parts_view(parts@),
            split::parts_view(out@) =~= before + ps.subrange(from as int, i as int),
        decreases to - i,
    {
        let ghost held = out@;
        out.push(copy_part(&parts[i]));
        i += 1;
        proof {
            assert(split::parts_view(out@) =~= split::parts_view(held).push(ps[i - 1]));
        }
    }
}

/// Adds a transaction of its own around `run`, unless it is empty.
fn wrap(begin: &Part, run: &mut Vec<Part>, out: &mut Vec<Part>)
    ensures
        final(run)@.len() == 0,
        split::parts_view(final(out)@) == split::parts_view(old(out)@) + wrapped(
            (begin.0, begin.1@),
            split::parts_view(old(run)@),
        ),
{
    let ghost before = split::parts_view(out@);
    let ghost rv = split::parts_view(run@);
    if run.len() == 0 {
        proof {
            assert(before + seq![] =~= before);
        }
        return ;
    }
    out.push(copy_part(begin));
    out.append(run);
    out.push((begin.0, "COMMIT".to_owned()));
    proof {
        assert(split::parts_view(out@) =~= before + (seq![(begin.0, begin.1@)] + rv + seq![
            (begin.0, "COMMIT"@),
        ]));
    }
}

/// What takes the place of the transaction that begins at `begin` with the body
/// `parts[begin + 1..end]`.
pub fn regroup(parts: &Vec<Part>, begin: usize, end: usize, out: &mut Vec<Part>)
    requires
        begin < end <= parts@.len(),
    ensures
        ({
            let ps = split::parts_view(parts@);
            split::parts_view(final(out)@) == split::parts_view(old(out)@) + regrouped(
                ps[begin as int],
                ps.subrange(begin + 1, end as int),
            )
        }),
{
    let ghost ps = split::parts_view(parts@);
    let ghost body = ps.subrange(begin + 1, end as int);
    let ghost first = ps[begin as int];
    let ghost before = split::parts_view(out@);
    let mut pending: Vec<Part> = Vec::new();
    let mut i: usize = begin + 1;
    proof {
        assert(body.take(0) =~= seq![]);
        assert(split::parts_view(pending@) =~= seq![]);
        assert(before + seq![] =~= before);
    }
    while i < end
        invariant
            begin < i <= end <= parts@.len(),
            ps == split::parts_view(parts@),
            body == ps.subrange(begin + 1, end as int),
            first == ps[begin as int],
            split::parts_view(pending@) == runs(body.take(i - begin - 1)).1,
            split::parts_view(out@) == before + wrapped_all(
                first,
                runs(body.take(i - begin - 1)).0,
            ),
        decreases end - i,
    {
        let ghost done = runs(body.take(i - begin - 1));
        let ghost step = body[i - begin - 1];
        proof {
            assert(body.take(i - begin).drop_last() =~= body.take(i - begin - 1));
            assert(body.take(i - begin).last() == step);
            let one = done.0.push(done.1);
            assert(one.drop_last() =~= done.0);
            assert(one.push(seq![step]).drop_last() =~= one);
            assert(before + (wrapped_all(first, done.0) + wrapped(first, done.1)) =~= (before
                + wrapped_all(first, done.0)) + wrapped(first, done.1));
            assert(before + (wrapped_all(first, one) + wrapped(first, seq![step])) =~= (before
                + wrapped_all(first, one)) + wrapped(first, seq![step]));
        }
        match read_role(parts[i].1.as_str()) {
            PartRole::Nested => {},
            PartRole::Ddl => {
                wrap(&parts[begin], &mut pending, out);
                let mut single: Vec<Part> = Vec::new();
                single.push(copy_part(&parts[i]));
                proof {
                    assert(split::parts_view(single@) =~= seq![step]);
                }
                wrap(&parts[begin], &mut single, out);
                proof {
                    assert(split::parts_view(pending@) =~= seq![]);
                }
            },
            _ => {
                let ghost held = pending@;
                pending.push(copy_part(&parts[i]));
                proof {
                    assert(split::parts_view(pending@) =~= split::parts_view(held).push(step));
                }
            },
        }
        i += 1;
    }
    proof {
        assert(body.take(end - begin - 1) =~= body);
        assert(before + (wrapped_all(first, runs(body).0) + wrapped(first, runs(body).1)) =~= (before
            + wrapped_all(first, runs(body).0)) + wrapped(first, runs(body).1));
    }
    wrap(&parts[begin], &mut pending, out);
}

/// The parts that stand between a beginning and the end of its transaction.
pub struct Body {
    pub ddl: usize,
    pub dml: usize,
    pub end: usize,
}

/// Reads on from a beginning to the end of its transaction, counting.
pub fn read_body(parts: &Vec<Part>, begin: usize) -> (r: Body)
    requires
        begin < parts@.len(),
    ensures
        ({
            let ps = split::parts_view(parts@);
            &&& r.end == end_of_txn(ps, begin + 1)
            &&& begin < r.end <= parts@.len()
            &&& r.ddl == count_ddl(ps.subrange(begin + 1, r.end as int))
            &&& r.dml == count_dml(ps.subrange(begin + 1, r.end as int))
        }),
{
    let ghost ps = split::parts_view(parts@);
    let size: usize = parts.len();
    let mut i: usize = begin + 1;
    let mut ddl: usize = 0;
    let mut dml: usize = 0;
    while i < size
        invariant
            begin < i <= size == parts@.len(),
            ps == split::parts_view(parts@),
            end_of_txn(ps, begin + 1) == end_of_txn(ps, i as int),
            ddl <= i,
            dml <= i,
            ddl == count_ddl(ps.subrange(begin + 1, i as int)),
            dml == count_dml(ps.subrange(begin + 1, i as int)),
        decreases parts@.len() - i,
    {
        proof {
            assert(ps.subrange(begin + 1, i + 1).drop_last() =~= ps.subrange(begin + 1, i as int));
            assert(ps.subrange(begin + 1, i + 1).last() == ps[i as int]);
        }
        match read_role(parts[i].1.as_str()) {
            PartRole::Broken(_) => {
                return Body { ddl, dml, end: i };
            },
            PartRole::End(_) => {
                return Body { ddl, dml, end: i };
            },
            PartRole::Ddl => {
                ddl += 1;
            },
            PartRole::Dml => {
                dml += 1;
            },
            _ => {},
        }
        i += 1;
    }
    Body { ddl, dml, end: i }
}

/// Reports on a transaction that was split.
fn report_split(begin: &Part, ddl: usize, dml: usize, diagnostics: &mut Vec<Diagnostic>)
    ensures
        forall|body: Seq<(usize, Seq<char>)>|
            ddl == count_ddl(body) && dml == count_dml(body) ==> diagnostic::reports(
                final(diagnostics)@,
            ) == diagnostic::reports(old(diagnostics)@) + #[trigger] split_reports(
                (begin.0, begin.1@),
                body,
            ),
{
    let ghost before = diagnostic::reports(diagnostics@);
    if ddl > 1 {
        diagnostics.push(
            multi_ddl_txn_diagnostic(
                begin.0,
                ddl,
                begin.1.as_str(),
                FixResult::FixedWithWarning(
                    "Split multi-DDL transaction into individual BEGIN/COMMIT blocks; atomicity guarantee LOST — if a later statement fails after fix, earlier statements remain committed. Review carefully before applying.".to_owned(),
                ),
            ),
        );
    }
    if ddl >= 1 && dml >= 1 {
        diagnostics.push(
            mixed_ddl_dml_txn_diagnostic(
                begin.0,
                ddl,
                dml,
                begin.1.as_str(),
                FixResult::FixedWithWarning(
                    "Split mixed DDL+DML transaction; atomicity guarantee LOST — if a later statement fails after fix, earlier statements remain committed. Review carefully before applying.".to_owned(),
                ),
            ),
        );
    }
    proof {
        assert forall|body: Seq<(usize, Seq<char>)>|
            ddl == count_ddl(body) && dml == count_dml(body) implies diagnostic::reports(
            diagnostics@,
        ) == before + #[trigger] split_reports((begin.0, begin.1@), body) by {
            assert(diagnostic::reports(diagnostics@) =~= before + split_reports(
                (begin.0, begin.1@),
                body,
            ));
        }
    }
}

/// One step of the fix at `at`: adds what takes the place of the parts that it covers, and
/// returns where the next step begins.
pub fn fix_one(
    parts: &Vec<Part>,
    at: usize,
    out: &mut Vec<Part>,
    diagnostics: &mut Vec<Diagnostic>,
) -> (r: usize)
    requires
        at < parts@.len(),
    ensures
        ({
            let step = fix_step(split::parts_view(parts@), at as int);
            &&& r == step.0
            &&& at < r <= parts@.len()
            &&& split::parts_view(final(out)@) == split::parts_view(old(out)@) + step.1
            &&& diagnostic::reports(final(diagnostics)@) == diagnostic::reports(
                old(diagnostics)@,
            ) + step.2
        }),
{
    let ghost ps = split::parts_view(parts@);
    let ghost before = split::parts_view(out@);
    let ghost said = diagnostic::reports(diagnostics@);
    let size: usize = parts.len();
    proof {
        assert(said + seq![] =~= said);
        lemma_end_of_txn(ps, at + 1);
        assert(ps.subrange(at as int, at + 1) =~= seq![ps[at as int]]);
    }
    if reads_opening(parts[at].1.as_str()) {
        let body = read_body(parts, at);
        if body.end < size {
            match read_role(parts[body.end].1.as_str()) {
                PartRole::Broken(e) => {
                    let mut message = "Cannot parse statement inside transaction: ".to_owned();
                    message.append(e.as_str());
                    message.append(". Skipping auto-fix for this transaction block.");
                    diagnostics.push(
                        Diagnostic {
                            rule: LintRule::ParseError,
                            line: parts[body.end].0,
                            statement: parts[body.end].1.clone(),
                            message,
                            suggestion: "Fix the syntax error, then re-run with --fix.".to_owned(),
                            fix_result: FixResult::Unfixable,
                        },
                    );
                    proof {
                        assert(diagnostic::reports(diagnostics@) =~= said + seq![
                            unsplittable(ps[body.end as int], e@),
                        ]);
                    }
                },
                PartRole::End(true) => {
                    if body.ddl > 1 || (body.ddl >= 1 && body.dml >= 1) {
                        regroup(parts, at, body.end, out);
                        report_split(&parts[at], body.ddl, body.dml, diagnostics);
                    } else {
                        copy_parts(parts, at, body.end + 1, out);
                    }
                    return body.end + 1;
                },
                _ => {},
            }
        }
    }
    copy_parts(parts, at, at + 1, out);
    at + 1
}

/// Splits the transactions that DSQL would refuse: each DDL statement gets a transaction of its
/// own, and what stands between them is kept together.
pub fn fix_ddl_transactions(parts: &mut Vec<Part>, diagnostics: &mut Vec<Diagnostic>)
    ensures
        ({
            let fixed = split_txns(split::parts_view(old(parts)@), 0);
            &&& split::parts_view(final(parts)@) == fixed.0
            &&& diagnostic::reports(final(diagnostics)@) == diagnostic::reports(
                old(diagnostics)@,
            ) + fixed.1
        }),
{
    let ghost ps = split::parts_view(parts@);
    let ghost said = diagnostic::reports(diagnostics@);
    let ghost all = split_txns(ps, 0);
    let mut out: Vec<Part> = Vec::new();
    let mut at: usize = 0;
    proof {
        assert(split::parts_view(out@) + all.0 =~= all.0);
    }
    while at < parts.len()
        invariant
            at <= parts@.len(),
            ps == split::parts_view(parts@),
            all == split_txns(ps, 0),
            all.0 == split::parts_view(out@) + split_txns(ps, at as int).0,
            said + all.1 == diagnostic::reports(diagnostics@) + split_txns(ps, at as int).1,
        decreases parts@.len() - at,
    {
        let ghost step = fix_step(ps, at as int);
        let ghost rest = split_txns(ps, step.0);
        let ghost held = split::parts_view(out@);
        let ghost told = diagnostic::reports(diagnostics@);
        at = fix_one(parts, at, &mut out, diagnostics);
        proof {
            assert(held + (step.1 + rest.0) =~= (held + step.1) + rest.0);
            assert(told + (step.2 + rest.1) =~= (told + step.2) + rest.1);
        }
    }
    proof {
        assert(split::parts_view(out@) =~= all.0);
        assert(diagnostic::reports(diagnostics@) =~= said + all.1);
    }
    *parts = out;
}

/// Whether no part of a run is DDL.
spec fn without_ddl(run: Seq<(usize, Seq<char>)>) -> bool {
    forall|i: int| 0 <= i < run.len() ==> !(role_of((#[trigger] run[i]).1) is Ddl)
}

proof fn lemma_without_ddl(run: Seq<(usize, Seq<char>)>)
    requires
        without_ddl(run),
    ensures
        count_ddl(run) == 0,
    decreases run.len(),
{
    if run.len() > 0 {
        assert(without_ddl(run.drop_last()));
        lemma_without_ddl(run.drop_last());
    }
}

proof fn lemma_runs(body: Seq<(usize, Seq<char>)>)
    ensures
        forall|i: int| 0 <= i < runs(body).0.len() ==> !needs_split(#[trigger] runs(body).0[i]),
        without_ddl(runs(body).1),
    decreases body.len(),
{
    if body.len() > 0 {
        let before = runs(body.drop_last());
        lemma_runs(body.drop_last());
        lemma_without_ddl(before.1);
        let single = seq![body.last()];
        assert(single.drop_last() =~= seq![]);
        assert(count_ddl(seq![]) == 0 && count_dml(seq![]) == 0);
        if role_of(body.last().1) is Ddl {
            assert(count_ddl(single) == 1 && count_dml(single) == 0);
        }
    }
}

/// Every transaction that takes the place of a refused one is one that DSQL accepts.
pub proof fn law_split_transactions_are_accepted(body: Seq<(usize, Seq<char>)>)
    ensures
        forall|i: int| 0 <= i < runs(body).0.len() ==> !needs_split(#[trigger] runs(body).0[i]),
        !needs_split(runs(body).1),
{
    lemma_runs(body);
    lemma_without_ddl(runs(body).1);
}

/// The statements of a list of runs, in order.
pub open spec fn statements_of(rs: Seq<Seq<(usize, Seq<char>)>>) -> Seq<(usize, Seq<char>)>
    decreases rs.len(),
{
    if rs.len() == 0 {
        seq![]
    } else {
        statements_of(rs.drop_last()) + rs.last()
    }
}

/// The statements of a transaction without those that open another inside it.
pub open spec fn without_nested(body: Seq<(usize, Seq<char>)>) -> Seq<(usize, Seq<char>)>
    decreases body.len(),
{
    if body.len() == 0 {
        seq![]
    } else if role_of(body.last().1) is Nested {
        without_nested(body.drop_last())
    } else {
        without_nested(body.drop_last()).push(body.last())
    }
}

/// Splitting a transaction keeps its statements and their order; only a `BEGIN` inside it goes.
pub proof fn law_splitting_keeps_the_statements(body: Seq<(usize, Seq<char>)>)
    ensures
        statements_of(runs(body).0) + runs(body).1 == without_nested(body),
    decreases body.len(),
{
    if body.len() == 0 {
        assert(statements_of(runs(body).0) + runs(body).1 =~= without_nested(body));
    } else {
        let before = runs(body.drop_last());
        let last = body.last();
        law_splitting_keeps_the_statements(body.drop_last());
        match role_of(last.1) {
            Role::Nested => {},
            Role::Ddl => {
                let one = before.0.push(before.1);
                assert(one.drop_last() =~= before.0);
                let two = one.push(seq![last]);
                assert(two.drop_last() =~= one);
                assert(statements_of(one) == statements_of(before.0) + before.1);
                assert(statements_of(two) == statements_of(one) + seq![last]);
                assert(statements_of(two) + seq![] =~= without_nested(body.drop_last()).push(last));
            },
            _ => {
                assert(statements_of(before.0) + before.1.push(last) =~= (statements_of(before.0)
                    + before.1).push(last));
            },
        }
    }
}

/// Whether every transaction from `at` on is one that DSQL accepts, or never commits.
pub open spec fn all_accepted(parts: Seq<(usize, Seq<char>)>, at: int) -> bool {
    forall|i: int|
        at <= i < parts.len() && opens_txn((#[trigger] parts[i]).1) ==> {
            let end = end_of_txn(parts, i + 1);
            end < parts.len() ==> {
                &&& !(role_of(parts[end].1) is Broken)
                &&& role_of(parts[end].1) == Role::End(true) ==> !needs_split(
                    parts.subrange(i + 1, end),
                )
            }
        }
}

/// A script whose transactions DSQL accepts stays as it is, without a report.
#[verifier::rlimit(60)]
#[verifier::spinoff_prover]
pub proof fn law_accepted_script_is_untouched(parts: Seq<(usize, Seq<char>)>, at: int)
    requires
        0 <= at <= parts.len(),
        all_accepted(parts, at),
    ensures
        split_txns(parts, at) == (parts.skip(at), Seq::<diagnostic::DiagnosticView>::empty()),
    decreases parts.len() - at,
{
    if at < parts.len() {
        let step = fix_step(parts, at);
        let end = end_of_txn(parts, at + 1);
        lemma_end_of_txn(parts, at + 1);
        law_accepted_script_is_untouched(parts, step.0);
        assert(step.1 =~= parts.subrange(at, step.0));
        assert(step.1 + parts.skip(step.0) =~= parts.skip(at));
        assert(split_txns(parts, at).1 =~= Seq::<diagnostic::DiagnosticView>::empty());
    } else {
        assert(parts.skip(at) =~= seq![]);
    }
}

/// Whether a statement is of one kind only, as the serde form of every statement is.
pub open spec fn one_kind(t: Tree) -> bool {
    forall|a: Seq<char>, b: Seq<char>| #[trigger]
        is_kind(t, a) && #[trigger] is_kind(t, b) ==> a == b
}

proof fn lemma_begin_is_no_change(t: Tree)
    requires
        one_kind(t),
        is_begin(t),
    ensures
        !is_ddl(t),
        !is_dml(t),
{
    let name = "StartTransaction"@;
    reveal_strlit("StartTransaction");
    assert(name[0] == 'S');
    reveal_strlit("CreateTable");
    assert("CreateTable"@[0] == 'C');
    reveal_strlit("CreateIndex");
    assert("CreateIndex"@[0] == 'C');
    reveal_strlit("CreateView");
    assert("CreateView"@[0] == 'C');
    reveal_strlit("CreateSequence");
    assert("CreateSequence"@[0] == 'C');
    reveal_strlit("CreateType");
    assert("CreateType"@[0] == 'C');
    reveal_strlit("CreateFunction");
    assert("CreateFunction"@[0] == 'C');
    reveal_strlit("CreateProcedure");
    assert("CreateProcedure"@[0] == 'C');
    reveal_strlit("CreateTrigger");
    assert("CreateTrigger"@[0] == 'C');
    reveal_strlit("CreateExtension");
    assert("CreateExtension"@[0] == 'C');
    reveal_strlit("CreateSchema");
    assert("CreateSchema"@[0] == 'C');
    reveal_strlit("CreateDatabase");
    assert("CreateDatabase"@[0] == 'C');
    reveal_strlit("CreatePolicy");
    assert("CreatePolicy"@[0] == 'C');
    reveal_strlit("CreateServer");
    assert("CreateServer"@[0] == 'C');
    reveal_strlit("AlterTable");
    assert("AlterTable"@[0] == 'A');
    reveal_strlit("AlterIndex");
    assert("AlterIndex"@[0] == 'A');
    reveal_strlit("AlterFunction");
    assert("AlterFunction"@[0] == 'A');
    reveal_strlit("AlterPolicy");
    assert("AlterPolicy"@[0] == 'A');
    reveal_strlit("AlterType");
    assert("AlterType"@[0] == 'A');
    reveal_strlit("AlterRole");
    assert("AlterRole"@[0] == 'A');
    reveal_strlit("AlterUser");
    assert("AlterUser"@[0] == 'A');
    reveal_strlit("Drop");
    assert("Drop"@[0] == 'D');
    reveal_strlit("DropTrigger");
    assert("DropTrigger"@[0] == 'D');
    reveal_strlit("DropPolicy");
    assert("DropPolicy"@[0] == 'D');
    reveal_strlit("Truncate");
    assert("Truncate"@[0] == 'T');
    reveal_strlit("Insert");
    assert("Insert"@[0] == 'I');
    reveal_strlit("Update");
    assert("Update"@[0] == 'U');
    reveal_strlit("Delete");
    assert("Delete"@[0] == 'D');
    reveal_strlit("Merge");
    assert("Merge"@[0] == 'M');
}

/// Whether a part holds one statement that the parser reads, or one that DSQL supports although
/// the parser does not read it.
pub open spec fn holds_one(sql: Seq<char>) -> bool {
    match syntax::statements(Dialect::Postgres, text::trimmed(sql)) {
        Ok(ts) => ts.len() == 1 && one_kind(ts[0]) && !gap::supported_gap(sql),
        Err(_) => gap::supported_gap(sql),
    }
}

proof fn lemma_one_kind(ts: Seq<Tree>, kind: spec_fn(Tree) -> bool)
    requires
        ts.len() == 1,
    ensures
        some_kind(ts, kind) == kind(ts[0]),
{
    if kind(ts[0]) {
        assert(kind(ts[0]));
    }
}

proof fn lemma_one_role(txn: Txn, part: (usize, Seq<char>))
    requires
        holds_one(part.1),
        txn.open,
        !(role_of(part.1) is End),
        txn.ddl < usize::MAX,
        txn.dml < usize::MAX,
    ensures
        ({
            let step = part_step(txn, part);
            let role = role_of(part.1);
            &&& step.1 == Seq::<diagnostic::DiagnosticView>::empty()
            &&& step.0.open && step.0.line == txn.line && step.0.begin == txn.begin
            &&& step.0.ddl == txn.ddl + if role is Ddl {
                1int
            } else {
                0
            }
            &&& step.0.dml == txn.dml + if role is Dml {
                1int
            } else {
                0
            }
        }),
{
    match syntax::statements(Dialect::Postgres, text::trimmed(part.1)) {
        Ok(ts) => {
            lemma_one_kind(ts, |t: Tree| is_txn_end(t));
            lemma_one_kind(ts, |t: Tree| is_begin(t));
            lemma_one_kind(ts, |t: Tree| is_ddl(t));
            lemma_one_kind(ts, |t: Tree| is_dml(t));
            if is_begin(ts[0]) {
                lemma_begin_is_no_change(ts[0]);
            }
            assert(ts.drop_last() =~= seq![]);
            assert(statements_step(txn, ts.drop_last(), part) == (
                txn,
                Seq::<diagnostic::DiagnosticView>::empty(),
            ));
            assert(part_step(txn, part).1 =~= Seq::<diagnostic::DiagnosticView>::empty());
        },
        Err(_) => {},
    }
}

proof fn lemma_followed_body(begin: (usize, Seq<char>), body: Seq<(usize, Seq<char>)>)
    requires
        holds_one(begin.1),
        opens_txn(begin.1),
        body.len() < usize::MAX,
        forall|i: int| 0 <= i < body.len() ==> holds_one((#[trigger] body[i]).1),
        forall|i: int| 0 <= i < body.len() ==> !(role_of((#[trigger] body[i]).1) is End),
    ensures
        followed(seq![begin] + body) == (
            Txn {
                open: true,
                line: begin.0,
                begin: begin.1,
                ddl: count_ddl(body) as usize,
                dml: count_dml(body) as usize,
            },
            Seq::<diagnostic::DiagnosticView>::empty(),
        ),
        count_ddl(body) <= body.len(),
        count_dml(body) <= body.len(),
    decreases body.len(),
{
    let parts = seq![begin] + body;
    let none = Seq::<diagnostic::DiagnosticView>::empty();
    if body.len() == 0 {
        let ts = syntax::statements(Dialect::Postgres, text::trimmed(begin.1))->Ok_0;
        lemma_one_kind(ts, |t: Tree| is_begin(t));
        assert(ts.drop_last() =~= seq![]);
        assert(statements_step(no_txn(), ts.drop_last(), begin) == (no_txn(), none));
        assert(parts.drop_last() =~= seq![]);
        assert(parts.last() == begin);
        assert(followed(parts.drop_last()) == (no_txn(), none));
        assert(followed(parts).1 =~= none);
    } else {
        let last = body.last();
        lemma_followed_body(begin, body.drop_last());
        assert(parts.drop_last() =~= seq![begin] + body.drop_last());
        let before = followed(parts.drop_last());
        assert(last == body[body.len() - 1]);
        lemma_one_role(before.0, last);
        assert(followed(parts).1 =~= none);
    }
}

/// The check and the fix agree on a transaction: the check reports it exactly where the fix
/// splits it, with the same counts and under the same rules.
pub proof fn law_check_and_fix_agree(
    begin: (usize, Seq<char>),
    body: Seq<(usize, Seq<char>)>,
    commit: (usize, Seq<char>),
)
    requires
        holds_one(begin.1),
        opens_txn(begin.1),
        body.len() < usize::MAX,
        forall|i: int| 0 <= i < body.len() ==> holds_one((#[trigger] body[i]).1),
        forall|i: int| 0 <= i < body.len() ==> !(role_of((#[trigger] body[i]).1) is End),
        holds_one(commit.1),
        role_of(commit.1) == Role::End(true),
    ensures
        ({
            let parts = seq![begin] + body + seq![commit];
            let checked = followed(parts).1;
            let fixed = split_txns(parts, 0).1;
            &&& (checked.len() > 0) == needs_split(body)
            &&& checked.len() == fixed.len()
            &&& forall|i: int|
                0 <= i < checked.len() ==> {
                    &&& (#[trigger] checked[i]).rule == fixed[i].rule
                    &&& checked[i].line == fixed[i].line
                    &&& checked[i].message == fixed[i].message
                }
        }),
{
    let parts = seq![begin] + body + seq![commit];
    let none = Seq::<diagnostic::DiagnosticView>::empty();
    lemma_followed_body(begin, body);
    let txn = followed(seq![begin] + body).0;
    assert(parts.drop_last() =~= seq![begin] + body);
    let ts = syntax::statements(Dialect::Postgres, text::trimmed(commit.1))->Ok_0;
    lemma_one_kind(ts, |t: Tree| is_txn_end(t));
    lemma_one_kind(ts, |t: Tree| is_commit(t));
    assert(ts.drop_last() =~= seq![]);
    assert(statements_step(txn, ts.drop_last(), commit) == (txn, none));
    assert(followed(parts).1 =~= commit_reports(txn));
    let end = end_of_txn(parts, 1);
    lemma_end_of_txn(parts, 1);
    assert(parts.last() == commit);
    assert(end == body.len() + 1) by {
        if end < body.len() + 1 {
            assert(parts[end] == body[end - 1]);
            assert(holds_one(body[end - 1].1));
        }
    }
    assert(parts.subrange(1, end) =~= body);
    assert(parts[0] == begin);
    let step = fix_step(parts, 0);
    assert(split_txns(parts, step.0) == (Seq::<(usize, Seq<char>)>::empty(), none));
    assert(split_txns(parts, 0).1 =~= step.2);
}

/// The parts behind the transaction `txn`: the one that is left open, and every report.
pub open spec fn followed_from(txn: Txn, parts: Seq<(usize, Seq<char>)>) -> (
    Txn,
    Seq<diagnostic::DiagnosticView>,
)
    decreases parts.len(),
{
    if parts.len() == 0 {
        (txn, seq![])
    } else {
        let before = followed_from(txn, parts.drop_last());
        let step = part_step(before.0, parts.last());
        (step.0, before.1 + step.1)
    }
}

proof fn lemma_followed(parts: Seq<(usize, Seq<char>)>)
    ensures
        followed(parts) == followed_from(no_txn(), parts),
    decreases parts.len(),
{
    if parts.len() > 0 {
        lemma_followed(parts.drop_last());
    }
}

proof fn lemma_followed_on(
    txn: Txn,
    a: Seq<(usize, Seq<char>)>,
    b: Seq<(usize, Seq<char>)>,
)
    ensures
        ({
            let first = followed_from(txn, a);
            let second = followed_from(first.0, b);
            followed_from(txn, a + b) == (second.0, first.1 + second.1)
        }),
    decreases b.len(),
{
    let first = followed_from(txn, a);
    if b.len() == 0 {
        assert(a + b =~= a);
        assert(first.1 + followed_from(first.0, b).1 =~= first.1);
    } else {
        lemma_followed_on(txn, a, b.drop_last());
        assert((a + b).drop_last() =~= a + b.drop_last());
        assert((a + b).last() == b.last());
        let middle = followed_from(first.0, b.drop_last());
        let step = part_step(middle.0, b.last());
        assert((first.1 + middle.1) + step.1 =~= first.1 + (middle.1 + step.1));
    }
}

/// Whether every part holds one statement.
pub open spec fn all_hold_one(parts: Seq<(usize, Seq<char>)>) -> bool {
    forall|i: int| 0 <= i < parts.len() ==> holds_one((#[trigger] parts[i]).1)
}

/// Whether no part ends a transaction.
pub open spec fn none_ends(parts: Seq<(usize, Seq<char>)>) -> bool {
    forall|i: int| 0 <= i < parts.len() ==> !(role_of((#[trigger] parts[i]).1) is End)
}

proof fn lemma_end_is_no_begin(t: Tree)
    requires
        one_kind(t),
        is_txn_end(t),
    ensures
        !is_begin(t),
{
    reveal_strlit("StartTransaction");
    reveal_strlit("Commit");
    reveal_strlit("Rollback");
    assert("StartTransaction"@[0] == 'S');
    assert("Commit"@[0] == 'C');
    assert("Rollback"@[0] == 'R');
}

/// Outside a transaction a statement that opens none leaves it so, without a report.
proof fn lemma_closed_step(txn: Txn, part: (usize, Seq<char>))
    requires
        !txn.open,
        holds_one(part.1),
        !opens_txn(part.1),
    ensures
        !part_step(txn, part).0.open,
        part_step(txn, part).1.len() == 0,
{
    if let Ok(ts) = syntax::statements(Dialect::Postgres, text::trimmed(part.1)) {
        lemma_one_kind(ts, |t: Tree| is_begin(t));
        assert(ts.drop_last() =~= seq![]);
        assert(statements_step(txn, ts.drop_last(), part) == (
            txn,
            Seq::<diagnostic::DiagnosticView>::empty(),
        ));
    }
}

proof fn lemma_followed_block(
    txn: Txn,
    begin: (usize, Seq<char>),
    body: Seq<(usize, Seq<char>)>,
)
    requires
        !txn.open,
        holds_one(begin.1),
        opens_txn(begin.1),
        body.len() < usize::MAX,
        all_hold_one(body),
        none_ends(body),
    ensures
        followed_from(txn, seq![begin] + body).1.len() == 0,
        followed_from(txn, seq![begin] + body).0 == (Txn {
            open: true,
            line: begin.0,
            begin: begin.1,
            ddl: count_ddl(body) as usize,
            dml: count_dml(body) as usize,
        }),
        count_ddl(body) <= body.len(),
        count_dml(body) <= body.len(),
    decreases body.len(),
{
    let parts = seq![begin] + body;
    if body.len() == 0 {
        let ts = syntax::statements(Dialect::Postgres, text::trimmed(begin.1))->Ok_0;
        lemma_one_kind(ts, |t: Tree| is_begin(t));
        assert(ts.drop_last() =~= seq![]);
        assert(statements_step(txn, ts.drop_last(), begin) == (
            txn,
            Seq::<diagnostic::DiagnosticView>::empty(),
        ));
        assert(parts.drop_last() =~= seq![]);
        assert(parts.last() == begin);
        assert(followed_from(txn, parts.drop_last()).0 == txn);
    } else {
        let front = body.drop_last();
        let last = body.last();
        assert forall|i: int| 0 <= i < front.len() implies holds_one((#[trigger] front[i]).1) by {
            assert(front[i] == body[i]);
        }
        assert forall|i: int| 0 <= i < front.len() implies !(role_of(
            (#[trigger] front[i]).1,
        ) is End) by {
            assert(front[i] == body[i]);
        }
        lemma_followed_block(txn, begin, front);
        assert(parts.drop_last() =~= seq![begin] + front);
        assert(last == body[body.len() - 1]);
        lemma_one_role(followed_from(txn, parts.drop_last()).0, last);
    }
}

/// A transaction that ends: it is reported where it commits and needs to be split.
proof fn lemma_followed_end(
    txn: Txn,
    begin: (usize, Seq<char>),
    body: Seq<(usize, Seq<char>)>,
    end: (usize, Seq<char>),
)
    requires
        !txn.open,
        holds_one(begin.1),
        opens_txn(begin.1),
        body.len() < usize::MAX,
        all_hold_one(body),
        none_ends(body),
        holds_one(end.1),
        role_of(end.1) is End,
        role_of(end.1) == Role::End(true) ==> !needs_split(body),
    ensures
        !followed_from(txn, seq![begin] + body + seq![end]).0.open,
        followed_from(txn, seq![begin] + body + seq![end]).1.len() == 0,
{
    let parts = seq![begin] + body + seq![end];
    lemma_followed_block(txn, begin, body);
    let inside = followed_from(txn, seq![begin] + body).0;
    assert(parts.drop_last() =~= seq![begin] + body);
    assert(parts.last() == end);
    let ts = syntax::statements(Dialect::Postgres, text::trimmed(end.1))->Ok_0;
    lemma_one_kind(ts, |t: Tree| is_txn_end(t));
    lemma_one_kind(ts, |t: Tree| is_commit(t));
    lemma_end_is_no_begin(ts[0]);
    assert(ts.drop_last() =~= seq![]);
    assert(statements_step(inside, ts.drop_last(), end) == (
        inside,
        Seq::<diagnostic::DiagnosticView>::empty(),
    ));
}

proof fn lemma_run_parts(body: Seq<(usize, Seq<char>)>)
    requires
        all_hold_one(body),
        none_ends(body),
    ensures
        forall|i: int|
            0 <= i < runs(body).0.len() ==> all_hold_one(#[trigger] runs(body).0[i]) && none_ends(
                runs(body).0[i],
            ) && runs(body).0[i].len() <= body.len(),
        all_hold_one(runs(body).1),
        none_ends(runs(body).1),
        runs(body).1.len() <= body.len(),
    decreases body.len(),
{
    if body.len() > 0 {
        let front = body.drop_last();
        let before = runs(front);
        let last = body.last();
        assert(last == body[body.len() - 1]);
        assert forall|i: int| 0 <= i < front.len() implies holds_one((#[trigger] front[i]).1) by {
            assert(front[i] == body[i]);
        }
        assert forall|i: int| 0 <= i < front.len() implies !(role_of(
            (#[trigger] front[i]).1,
        ) is End) by {
            assert(front[i] == body[i]);
        }
        lemma_run_parts(front);
        let now = runs(body);
        assert forall|i: int| 0 <= i < now.0.len() implies all_hold_one(#[trigger] now.0[i])
            && none_ends(now.0[i]) && now.0[i].len() <= body.len() by {
            if i < before.0.len() {
                assert(now.0[i] == before.0[i]);
            }
        }
    }
}

/// The transactions that take the place of one are not reported.
proof fn lemma_followed_runs(
    txn: Txn,
    begin: (usize, Seq<char>),
    rs: Seq<Seq<(usize, Seq<char>)>>,
)
    requires
        !txn.open,
        holds_one(begin.1),
        opens_txn(begin.1),
        holds_one("COMMIT"@),
        role_of("COMMIT"@) == Role::End(true),
        forall|i: int|
            0 <= i < rs.len() ==> all_hold_one(#[trigger] rs[i]) && none_ends(rs[i]) && rs[i].len()
                < usize::MAX && !needs_split(rs[i]),
    ensures
        !followed_from(txn, wrapped_all(begin, rs)).0.open,
        followed_from(txn, wrapped_all(begin, rs)).1.len() == 0,
    decreases rs.len(),
{
    if rs.len() > 0 {
        let front = rs.drop_last();
        let last = rs.last();
        assert(last == rs[rs.len() - 1]);
        assert forall|i: int| 0 <= i < front.len() implies all_hold_one(#[trigger] front[i])
            && none_ends(front[i]) && front[i].len() < usize::MAX && !needs_split(front[i]) by {
            assert(front[i] == rs[i]);
        }
        lemma_followed_runs(txn, begin, front);
        let before = followed_from(txn, wrapped_all(begin, front));
        lemma_followed_on(txn, wrapped_all(begin, front), wrapped(begin, last));
        if last.len() > 0 {
            lemma_followed_end(before.0, begin, last, (begin.0, "COMMIT"@));
        }
    }
}

/// Where every step from `at` to `stop` keeps its part, all of them are kept.
proof fn lemma_kept_until(parts: Seq<(usize, Seq<char>)>, at: int, stop: int)
    requires
        0 <= at <= stop <= parts.len(),
        forall|i: int|
            at <= i < stop ==> #[trigger] fix_step(parts, i) == (
                i + 1,
                seq![parts[i]],
                Seq::<diagnostic::DiagnosticView>::empty(),
            ),
    ensures
        split_txns(parts, at).0 == parts.subrange(at, stop) + split_txns(parts, stop).0,
        split_txns(parts, at).1 == split_txns(parts, stop).1,
    decreases stop - at,
{
    if at < stop {
        lemma_kept_until(parts, at + 1, stop);
        let step = fix_step(parts, at);
        assert(step.2 + split_txns(parts, at + 1).1 =~= split_txns(parts, at + 1).1);
        assert(split_txns(parts, at).0 == step.1 + split_txns(parts, at + 1).0);
        assert(seq![parts[at]] + (parts.subrange(at + 1, stop) + split_txns(parts, stop).0)
            =~= parts.subrange(at, stop) + split_txns(parts, stop).0);
    } else {
        assert(parts.subrange(at, stop) + split_txns(parts, stop).0 =~= split_txns(
            parts,
            stop,
        ).0);
    }
}

/// Inside a transaction the first end behind every part is that of the transaction.
proof fn lemma_same_end(parts: Seq<(usize, Seq<char>)>, at: int, i: int)
    requires
        0 <= at <= i <= end_of_txn(parts, at) <= parts.len(),
    ensures
        end_of_txn(parts, i) == end_of_txn(parts, at),
    decreases i - at,
{
    if at < i {
        lemma_end_of_txn(parts, at);
        assert(!(role_of(parts[at].1) is Broken) && !(role_of(parts[at].1) is End));
        lemma_same_end(parts, at + 1, i);
    }
}

/// Whether a part holds no more than one statement: it holds one, or it does not parse.
pub open spec fn holds_at_most_one(sql: Seq<char>) -> bool {
    syntax::statements(Dialect::Postgres, text::trimmed(sql)) is Ok ==> holds_one(sql)
}

/// Whether every part holds no more than one statement.
pub open spec fn all_hold_at_most_one(parts: Seq<(usize, Seq<char>)>) -> bool {
    forall|i: int| 0 <= i < parts.len() ==> holds_at_most_one((#[trigger] parts[i]).1)
}

/// Whether no report is of something that was left.
pub open spec fn none_unfixable(ds: Seq<diagnostic::DiagnosticView>) -> bool {
    forall|i: int| 0 <= i < ds.len() ==> !((#[trigger] ds[i]).fix_result is Unfixable)
}

proof fn lemma_fixed_script(parts: Seq<(usize, Seq<char>)>, at: int, txn: Txn)
    requires
        0 <= at <= parts.len() < usize::MAX,
        !txn.open,
        all_hold_at_most_one(parts),
        none_unfixable(split_txns(parts, at).1),
        holds_one("COMMIT"@),
        role_of("COMMIT"@) == Role::End(true),
    ensures
        followed_from(txn, split_txns(parts, at).0).1.len() == 0,
    decreases parts.len() - at,
{
    if at < parts.len() {
        let none = Seq::<diagnostic::DiagnosticView>::empty();
        let begin = parts[at];
        let end = end_of_txn(parts, at + 1);
        let step = fix_step(parts, at);
        lemma_end_of_txn(parts, at + 1);
        let said = split_txns(parts, at).1;
        assert(holds_at_most_one(begin.1));
        assert(split_txns(parts, at).0 == step.1 + split_txns(parts, step.0).0);
        assert(said == step.2 + split_txns(parts, step.0).1);
        let later = split_txns(parts, step.0).1;
        assert forall|i: int| 0 <= i < later.len() implies !((
        #[trigger] later[i]).fix_result is Unfixable) by {
            assert(said[step.2.len() + i] == later[i]);
        }
        if !opens_txn(begin.1) {
            if syntax::statements(Dialect::Postgres, text::trimmed(begin.1)) is Ok {
                lemma_closed_step(txn, begin);
            }
            assert(seq![begin].drop_last() =~= seq![]);
            assert(followed_from(txn, seq![begin].drop_last()) == (txn, none));
            let after = followed_from(txn, seq![begin]);
            assert(after.0 == part_step(txn, begin).0);
            lemma_followed_on(txn, seq![begin], split_txns(parts, at + 1).0);
            lemma_fixed_script(parts, at + 1, after.0);
        } else {
            let body = parts.subrange(at + 1, end);
            assert forall|i: int| 0 <= i < body.len() implies holds_one((#[trigger] body[i]).1) by {
                assert(body[i] == parts[at + 1 + i]);
                assert(holds_at_most_one(parts[at + 1 + i].1));
            }
            assert forall|i: int| 0 <= i < body.len() implies !(role_of(
                (#[trigger] body[i]).1,
            ) is End) by {
                assert(body[i] == parts[at + 1 + i]);
            }
            if end >= parts.len() {
                assert forall|i: int| at <= i < parts.len() implies #[trigger] fix_step(parts, i)
                    == (i + 1, seq![parts[i]], none) by {
                    lemma_same_end(parts, at + 1, i + 1);
                }
                lemma_kept_until(parts, at, parts.len() as int);
                assert(split_txns(parts, at).0 =~= seq![begin] + body);
                lemma_followed_block(txn, begin, body);
            } else {
                let last = parts[end];
                assert(holds_at_most_one(last.1));
                if role_of(last.1) is Broken {
                    assert(said[0] == step.2[0]);
                }
                assert(!(role_of(last.1) is Broken));
                assert(holds_one(last.1));
                let ts = syntax::statements(Dialect::Postgres, text::trimmed(last.1))->Ok_0;
                assert(role_of(last.1) is End);
                lemma_one_kind(ts, |t: Tree| is_txn_end(t));
                lemma_one_kind(ts, |t: Tree| is_begin(t));
                lemma_end_is_no_begin(ts[0]);
                assert(!opens_txn(last.1));
                let whole = seq![begin] + body + seq![last];
                assert(whole =~= parts.subrange(at, end + 1));
                let rest = split_txns(parts, end + 1).0;
                if role_of(last.1) == Role::End(true) && needs_split(body) {
                    let rs = runs(body).0.push(runs(body).1);
                    lemma_run_parts(body);
                    law_split_transactions_are_accepted(body);
                    assert(rs.drop_last() =~= runs(body).0);
                    assert(wrapped_all(begin, rs) == regrouped(begin, body));
                    lemma_followed_runs(txn, begin, rs);
                    let after = followed_from(txn, step.1).0;
                    lemma_followed_on(txn, step.1, rest);
                    lemma_fixed_script(parts, end + 1, after);
                } else {
                    if role_of(last.1) != Role::End(true) {
                        assert forall|i: int| at <= i < end + 1 implies #[trigger] fix_step(parts, i)
                            == (i + 1, seq![parts[i]], none) by {
                            if i < end {
                                lemma_same_end(parts, at + 1, i + 1);
                            }
                        }
                        lemma_kept_until(parts, at, end + 1);
                    }
                    assert(split_txns(parts, at).0 == whole + rest);
                    lemma_followed_end(txn, begin, body, last);
                    let after = followed_from(txn, whole).0;
                    lemma_followed_on(txn, whole, rest);
                    lemma_fixed_script(parts, end + 1, after);
                }
            }
        }
    }
}

/// What the fix leaves the check accepts: on a script of single statements, whose transactions were
/// split and none of them left, the check reports nothing. The parser is to read `COMMIT` as the end
/// of a transaction.
pub proof fn law_fixed_script_is_accepted(parts: Seq<(usize, Seq<char>)>)
    requires
        parts.len() < usize::MAX,
        all_hold_at_most_one(parts),
        none_unfixable(split_txns(parts, 0).1),
        holds_one("COMMIT"@),
        role_of("COMMIT"@) == Role::End(true),
    ensures
        followed(split_txns(parts, 0).0).1.len() == 0,
{
    lemma_fixed_script(parts, 0, no_txn());
    lemma_followed(split_txns(parts, 0).0);
}

/// Whether a part is one of a script, or a `COMMIT` that was put in.
pub open spec fn stems_from(part: (usize, Seq<char>), parts: Seq<(usize, Seq<char>)>) -> bool {
    parts.contains(part) || part.1 == "COMMIT"@
}

proof fn lemma_runs_stem(body: Seq<(usize, Seq<char>)>)
    ensures
        forall|i: int, j: int|
            0 <= i < runs(body).0.len() && 0 <= j < runs(body).0[i].len() ==> body.contains(
                #[trigger] runs(body).0[i][j],
            ),
        forall|j: int|
            0 <= j < runs(body).1.len() ==> body.contains(#[trigger] runs(body).1[j]),
    decreases body.len(),
{
    if body.len() > 0 {
        let front = body.drop_last();
        let before = runs(front);
        let now = runs(body);
        lemma_runs_stem(front);
        assert(body[body.len() - 1] == body.last());
        assert forall|x: (usize, Seq<char>)| front.contains(x) implies #[trigger] body.contains(x) by {
            let i = choose|i: int| 0 <= i < front.len() && front[i] == x;
            assert(body[i] == x);
        }
        assert forall|i: int, j: int|
            0 <= i < now.0.len() && 0 <= j < now.0[i].len() implies body.contains(
            #[trigger] now.0[i][j],
        ) by {
            if i < before.0.len() {
                assert(now.0[i] == before.0[i]);
                assert(front.contains(before.0[i][j]));
            } else if now.0[i] == before.1 {
                assert(front.contains(before.1[j]));
            } else {
                assert(now.0[i] == seq![body.last()]);
            }
        }
        assert forall|j: int| 0 <= j < now.1.len() implies body.contains(#[trigger] now.1[j]) by {
            if j < before.1.len() {
                assert(now.1[j] == before.1[j]);
                assert(front.contains(before.1[j]));
            } else {
                assert(now.1[j] == body.last());
            }
        }
    }
}

proof fn lemma_wrapped_stems(
    begin: (usize, Seq<char>),
    rs: Seq<Seq<(usize, Seq<char>)>>,
    parts: Seq<(usize, Seq<char>)>,
)
    requires
        parts.contains(begin),
        forall|i: int, j: int|
            0 <= i < rs.len() && 0 <= j < rs[i].len() ==> parts.contains(#[trigger] rs[i][j]),
    ensures
        forall|j: int|
            0 <= j < wrapped_all(begin, rs).len() ==> stems_from(
                #[trigger] wrapped_all(begin, rs)[j],
                parts,
            ),
    decreases rs.len(),
{
    if rs.len() > 0 {
        let front = rs.drop_last();
        let last = rs.last();
        let before = wrapped_all(begin, front);
        let all = wrapped_all(begin, rs);
        assert forall|i: int, j: int|
            0 <= i < front.len() && 0 <= j < front[i].len() implies parts.contains(
            #[trigger] front[i][j],
        ) by {
            assert(front[i] == rs[i]);
            assert(parts.contains(rs[i][j]));
        }
        lemma_wrapped_stems(begin, front, parts);
        assert(last == rs[rs.len() - 1]);
        assert forall|j: int| 0 <= j < all.len() implies stems_from(#[trigger] all[j], parts) by {
            if j < before.len() {
                assert(all[j] == before[j]);
            } else {
                let k = j - before.len();
                assert(all[j] == wrapped(begin, last)[k]);
                if 0 < k <= last.len() {
                    assert(wrapped(begin, last)[k] == last[k - 1]);
                    assert(parts.contains(rs[rs.len() - 1][k - 1]));
                }
            }
        }
    }
}

/// What becomes of a script when its transactions are split is made of its own parts, and of the
/// `COMMIT` that ends each of the new transactions.
pub proof fn law_split_script_stems_from_its_parts(parts: Seq<(usize, Seq<char>)>, at: int)
    requires
        0 <= at,
    ensures
        forall|j: int|
            0 <= j < split_txns(parts, at).0.len() ==> stems_from(
                #[trigger] split_txns(parts, at).0[j],
                parts,
            ),
    decreases parts.len() - at,
{
    if at < parts.len() {
        let step = fix_step(parts, at);
        let end = end_of_txn(parts, at + 1);
        lemma_end_of_txn(parts, at + 1);
        law_split_script_stems_from_its_parts(parts, step.0);
        let rest = split_txns(parts, step.0).0;
        let all = split_txns(parts, at).0;
        assert(all == step.1 + rest);
        assert(parts.contains(parts[at]));
        assert forall|j: int| 0 <= j < step.1.len() implies stems_from(#[trigger] step.1[j], parts) by {
            if step.1 != seq![parts[at]] {
                let body = parts.subrange(at + 1, end);
                if needs_split(body) {
                    let rs = runs(body).0.push(runs(body).1);
                    lemma_runs_stem(body);
                    assert(rs.drop_last() =~= runs(body).0);
                    assert(wrapped_all(parts[at], rs) == regrouped(parts[at], body));
                    assert forall|i: int, k: int|
                        0 <= i < rs.len() && 0 <= k < rs[i].len() implies parts.contains(
                        #[trigger] rs[i][k],
                    ) by {
                        let x = rs[i][k];
                        if i < runs(body).0.len() {
                            assert(body.contains(runs(body).0[i][k]));
                        } else {
                            assert(body.contains(runs(body).1[k]));
                        }
                        let n = choose|n: int| 0 <= n < body.len() && body[n] == x;
                        assert(parts[at + 1 + n] == x);
                    }
                    lemma_wrapped_stems(parts[at], rs, parts);
                } else {
                    assert(step.1 == parts.subrange(at, end + 1));
                    assert(step.1[j] == parts[at + j]);
                }
            } else {
                assert(step.1[j] == parts[at]);
            }
        }
        assert forall|j: int| 0 <= j < all.len() implies stems_from(#[trigger] all[j], parts) by {
            if j < step.1.len() {
                assert(all[j] == step.1[j]);
            } else {
                assert(all[j] == rest[j - step.1.len()]);
            }
        }
    }
}

} // verus!
