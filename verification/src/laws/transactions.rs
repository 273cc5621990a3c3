//! What the check on transactions owes, and what the fix of them keeps, over the kinds of statement by
//! name.

use vstd::prelude::*;

use crate::diagnostic::{self, LintRule};
use crate::gap;
use crate::syntax::{self, Dialect, Tree};
use crate::text;
use crate::transactions;

verus! {

/// Whether a text is one statement, and that statement is of the kind that serde writes as `kind`.
pub open spec fn reads_as(sql: Seq<char>, kind: Seq<char>) -> bool {
    match syntax::statements(Dialect::Postgres, text::trimmed(sql)) {
        Ok(ts) => ts.len() == 1 && (syntax::member(ts[0], kind) is Some || ts[0] == Tree::Text(
            kind,
        )),
        Err(_) => false,
    }
}

/// Whether a text is a statement that defines something, or the one form of `ALTER TABLE` that
/// DSQL takes and the parser does not.
pub open spec fn defines(sql: Seq<char>) -> bool {
    ||| gap::supported_alter_constraint(sql)
    ||| reads_as(sql, "CreateTable"@)
    ||| reads_as(sql, "CreateIndex"@)
    ||| reads_as(sql, "CreateView"@)
    ||| reads_as(sql, "CreateSequence"@)
    ||| reads_as(sql, "CreateType"@)
    ||| reads_as(sql, "CreateFunction"@)
    ||| reads_as(sql, "CreateProcedure"@)
    ||| reads_as(sql, "CreateTrigger"@)
    ||| reads_as(sql, "CreateExtension"@)
    ||| reads_as(sql, "CreateSchema"@)
    ||| reads_as(sql, "CreateDatabase"@)
    ||| reads_as(sql, "CreatePolicy"@)
    ||| reads_as(sql, "CreateServer"@)
    ||| reads_as(sql, "AlterTable"@)
    ||| reads_as(sql, "AlterIndex"@)
    ||| reads_as(sql, "AlterFunction"@)
    ||| reads_as(sql, "AlterPolicy"@)
    ||| reads_as(sql, "AlterType"@)
    ||| reads_as(sql, "AlterRole"@)
    ||| reads_as(sql, "AlterUser"@)
    ||| reads_as(sql, "Drop"@)
    ||| reads_as(sql, "DropTrigger"@)
    ||| reads_as(sql, "DropPolicy"@)
    ||| reads_as(sql, "Truncate"@)
}

/// Whether a text is a statement that changes rows.
pub open spec fn changes_rows(sql: Seq<char>) -> bool {
    ||| reads_as(sql, "Insert"@)
    ||| reads_as(sql, "Update"@)
    ||| reads_as(sql, "Delete"@)
    ||| reads_as(sql, "Merge"@)
}

/// Whether a text opens a transaction.
pub open spec fn begins(sql: Seq<char>) -> bool {
    reads_as(sql, "StartTransaction"@)
}

/// Whether a text commits a transaction.
pub open spec fn commits(sql: Seq<char>) -> bool {
    reads_as(sql, "Commit"@)
}

/// Whether a text ends a transaction.
pub open spec fn ends(sql: Seq<char>) -> bool {
    commits(sql) || reads_as(sql, "Rollback"@)
}

/// Whether the part at `b` opens a transaction that is still open before the part at `n`.
pub open spec fn begun(parts: Seq<(usize, Seq<char>)>, b: int, n: int) -> bool {
    &&& 0 <= b < n <= parts.len()
    &&& begins(parts[b].1)
    &&& forall|m: int| b < m < n ==> !ends((#[trigger] parts[m]).1)
}

/// Whether no transaction is open before the part at `n`.
pub open spec fn none_begun(parts: Seq<(usize, Seq<char>)>, n: int) -> bool {
    forall|b: int| !begun(parts, b, n)
}

/// Whether a transaction stands from the part at `b` to the commit at `e`.
pub open spec fn stands(parts: Seq<(usize, Seq<char>)>, b: int, e: int) -> bool {
    &&& none_begun(parts, b)
    &&& begun(parts, b, e)
    &&& e < parts.len()
    &&& commits(parts[e].1)
}

/// Whether a part between two others defines something.
pub open spec fn defines_within(parts: Seq<(usize, Seq<char>)>, b: int, n: int) -> bool {
    exists|i: int| b < i < n && defines((#[trigger] parts[i]).1)
}

/// Whether two parts between two others define something.
pub open spec fn defines_twice_within(parts: Seq<(usize, Seq<char>)>, b: int, n: int) -> bool {
    exists|i: int, j: int|
        b < i < j < n && defines((#[trigger] parts[i]).1) && defines((#[trigger] parts[j]).1)
}

/// Whether a part between two others changes rows.
pub open spec fn changes_within(parts: Seq<(usize, Seq<char>)>, b: int, n: int) -> bool {
    exists|i: int| b < i < n && changes_rows((#[trigger] parts[i]).1)
}

/// Whether a transaction that began with `part` is reported under a rule.
pub open spec fn told(
    ds: Seq<diagnostic::DiagnosticView>,
    part: (usize, Seq<char>),
    rule: LintRule,
) -> bool {
    exists|i: int|
        0 <= i < ds.len() && (#[trigger] ds[i]).rule == rule && ds[i].line == part.0
            && ds[i].statement == part.1
}

/// The names of the kinds differ.
proof fn lemma_names()
    ensures
        "AlterFunction"@.len() == 13,
        "AlterIndex"@.len() == 10,
        "AlterPolicy"@.len() == 11,
        "AlterRole"@.len() == 9,
        "AlterTable"@.len() == 10,
        "AlterType"@.len() == 9,
        "AlterUser"@.len() == 9,
        "Commit"@.len() == 6,
        "CreateDatabase"@.len() == 14,
        "CreateExtension"@.len() == 15,
        "CreateFunction"@.len() == 14,
        "CreateIndex"@.len() == 11,
        "CreatePolicy"@.len() == 12,
        "CreateProcedure"@.len() == 15,
        "CreateSchema"@.len() == 12,
        "CreateSequence"@.len() == 14,
        "CreateServer"@.len() == 12,
        "CreateTable"@.len() == 11,
        "CreateTrigger"@.len() == 13,
        "CreateType"@.len() == 10,
        "CreateView"@.len() == 10,
        "Delete"@.len() == 6,
        "Drop"@.len() == 4,
        "DropPolicy"@.len() == 10,
        "DropTrigger"@.len() == 11,
        "Insert"@.len() == 6,
        "Merge"@.len() == 5,
        "Rollback"@.len() == 8,
        "StartTransaction"@.len() == 16,
        "Truncate"@.len() == 8,
        "Update"@.len() == 6,
        "AlterFunction"@ != "CreateTrigger"@,
        "AlterIndex"@ != "AlterTable"@,
        "AlterIndex"@ != "CreateType"@,
        "AlterIndex"@ != "CreateView"@,
        "AlterIndex"@ != "DropPolicy"@,
        "AlterPolicy"@ != "CreateIndex"@,
        "AlterPolicy"@ != "CreateTable"@,
        "AlterPolicy"@ != "DropTrigger"@,
        "AlterRole"@ != "AlterType"@,
        "AlterRole"@ != "AlterUser"@,
        "AlterTable"@ != "CreateType"@,
        "AlterTable"@ != "CreateView"@,
        "AlterTable"@ != "DropPolicy"@,
        "AlterType"@ != "AlterUser"@,
        "Commit"@ != "Delete"@,
        "Commit"@ != "Insert"@,
        "Commit"@ != "Update"@,
        "CreateDatabase"@ != "CreateFunction"@,
        "CreateDatabase"@ != "CreateSequence"@,
        "CreateExtension"@ != "CreateProcedure"@,
        "CreateFunction"@ != "CreateSequence"@,
        "CreateIndex"@ != "CreateTable"@,
        "CreateIndex"@ != "DropTrigger"@,
        "CreatePolicy"@ != "CreateSchema"@,
        "CreatePolicy"@ != "CreateServer"@,
        "CreateSchema"@ != "CreateServer"@,
        "CreateTable"@ != "DropTrigger"@,
        "CreateType"@ != "CreateView"@,
        "CreateType"@ != "DropPolicy"@,
        "CreateView"@ != "DropPolicy"@,
        "Delete"@ != "Insert"@,
        "Delete"@ != "Update"@,
        "Insert"@ != "Update"@,
        "Rollback"@ != "Truncate"@,
{
    reveal_strlit("AlterFunction");
    reveal_strlit("AlterIndex");
    reveal_strlit("AlterPolicy");
    reveal_strlit("AlterRole");
    reveal_strlit("AlterTable");
    reveal_strlit("AlterType");
    reveal_strlit("AlterUser");
    reveal_strlit("Commit");
    reveal_strlit("CreateDatabase");
    reveal_strlit("CreateExtension");
    reveal_strlit("CreateFunction");
    reveal_strlit("CreateIndex");
    reveal_strlit("CreatePolicy");
    reveal_strlit("CreateProcedure");
    reveal_strlit("CreateSchema");
    reveal_strlit("CreateSequence");
    reveal_strlit("CreateServer");
    reveal_strlit("CreateTable");
    reveal_strlit("CreateTrigger");
    reveal_strlit("CreateType");
    reveal_strlit("CreateView");
    reveal_strlit("Delete");
    reveal_strlit("Drop");
    reveal_strlit("DropPolicy");
    reveal_strlit("DropTrigger");
    reveal_strlit("Insert");
    reveal_strlit("Merge");
    reveal_strlit("Rollback");
    reveal_strlit("StartTransaction");
    reveal_strlit("Truncate");
    reveal_strlit("Update");
    assert("AlterFunction"@[0] != "CreateTrigger"@[0]);
    assert("AlterIndex"@[5] != "AlterTable"@[5]);
    assert("AlterIndex"@[0] != "CreateType"@[0]);
    assert("AlterIndex"@[0] != "CreateView"@[0]);
    assert("AlterIndex"@[0] != "DropPolicy"@[0]);
    assert("AlterPolicy"@[0] != "CreateIndex"@[0]);
    assert("AlterPolicy"@[0] != "CreateTable"@[0]);
    assert("AlterPolicy"@[0] != "DropTrigger"@[0]);
    assert("AlterRole"@[5] != "AlterType"@[5]);
    assert("AlterRole"@[5] != "AlterUser"@[5]);
    assert("AlterTable"@[0] != "CreateType"@[0]);
    assert("AlterTable"@[0] != "CreateView"@[0]);
    assert("AlterTable"@[0] != "DropPolicy"@[0]);
    assert("AlterType"@[5] != "AlterUser"@[5]);
    assert("Commit"@[0] != "Delete"@[0]);
    assert("Commit"@[0] != "Insert"@[0]);
    assert("Commit"@[0] != "Update"@[0]);
    assert("CreateDatabase"@[6] != "CreateFunction"@[6]);
    assert("CreateDatabase"@[6] != "CreateSequence"@[6]);
    assert("CreateExtension"@[6] != "CreateProcedure"@[6]);
    assert("CreateFunction"@[6] != "CreateSequence"@[6]);
    assert("CreateIndex"@[6] != "CreateTable"@[6]);
    assert("CreateIndex"@[0] != "DropTrigger"@[0]);
    assert("CreatePolicy"@[6] != "CreateSchema"@[6]);
    assert("CreatePolicy"@[6] != "CreateServer"@[6]);
    assert("CreateSchema"@[7] != "CreateServer"@[7]);
    assert("CreateTable"@[0] != "DropTrigger"@[0]);
    assert("CreateType"@[6] != "CreateView"@[6]);
    assert("CreateType"@[0] != "DropPolicy"@[0]);
    assert("CreateView"@[0] != "DropPolicy"@[0]);
    assert("Delete"@[0] != "Insert"@[0]);
    assert("Delete"@[0] != "Update"@[0]);
    assert("Insert"@[0] != "Update"@[0]);
    assert("Rollback"@[0] != "Truncate"@[0]);
}

/// What one statement that is read does to a transaction.
#[verifier::spinoff_prover]
#[verifier::rlimit(60)]
proof fn lemma_step(txn: transactions::Txn, part: (usize, Seq<char>))
    requires
        transactions::holds_at_most_one(part.1),
    ensures
        ({
            let step = transactions::part_step(txn, part);
            &&& !txn.open && begins(part.1) ==> step.0.open && step.0.line == part.0
                && step.0.begin == part.1 && step.0.ddl == 0 && step.0.dml == 0
            &&& !txn.open && !begins(part.1) ==> !step.0.open
            &&& !txn.open ==> step.1.len() == 0
            &&& txn.open && ends(part.1) ==> !step.0.open
            &&& txn.open && commits(part.1) ==> step.1 == transactions::commit_reports(txn)
            &&& txn.open && ends(part.1) && !commits(part.1) ==> step.1.len() == 0
            &&& txn.open && !ends(part.1) ==> step.0.open && step.0.line == txn.line
                && step.0.begin == txn.begin && (if defines(part.1) {
                step.0.ddl == transactions::one_more(txn.ddl)
            } else {
                step.0.ddl == txn.ddl
            }) && (if changes_rows(part.1) {
                step.0.dml == transactions::one_more(txn.dml)
            } else {
                step.0.dml == txn.dml
            })
            &&& txn.open && !ends(part.1) && transactions::holds_one(part.1) ==> step.1.len() == 0
        }),
{
    lemma_names();
    let none = Seq::<diagnostic::DiagnosticView>::empty();
    if let Ok(ts) = syntax::statements(Dialect::Postgres, text::trimmed(part.1)) {
        assert(ts.drop_last() =~= seq![]);
        assert(transactions::statements_step(txn, ts.drop_last(), part) == (txn, none));
        let t = ts[0];
        let step = transactions::statement_step(txn, t, part);
        assert(none + step.1 =~= step.1);
        assert(transactions::part_step(txn, part) == step);
        assert(transactions::one_kind(t));
        assert(forall|k: Seq<char>|
            reads_as(part.1, k) == #[trigger] transactions::is_kind(t, k));
        lemma_kinds(t);
    }
}

/// The kinds that a statement can be taken for, by name; it is of one of them at most.
#[verifier::spinoff_prover]
proof fn lemma_kinds(t: Tree)
    requires
        transactions::one_kind(t),
    ensures
        transactions::is_begin(t) == transactions::is_kind(t, "StartTransaction"@),
        transactions::is_commit(t) == transactions::is_kind(t, "Commit"@),
        transactions::is_txn_end(t) == (transactions::is_kind(t, "Commit"@)
            || transactions::is_kind(t, "Rollback"@)),
        transactions::is_ddl(t) == ({
            ||| transactions::is_kind(t, "CreateTable"@)
            ||| transactions::is_kind(t, "CreateIndex"@)
            ||| transactions::is_kind(t, "CreateView"@)
            ||| transactions::is_kind(t, "CreateSequence"@)
            ||| transactions::is_kind(t, "CreateType"@)
            ||| transactions::is_kind(t, "CreateFunction"@)
            ||| transactions::is_kind(t, "CreateProcedure"@)
            ||| transactions::is_kind(t, "CreateTrigger"@)
            ||| transactions::is_kind(t, "CreateExtension"@)
            ||| transactions::is_kind(t, "CreateSchema"@)
            ||| transactions::is_kind(t, "CreateDatabase"@)
            ||| transactions::is_kind(t, "CreatePolicy"@)
            ||| transactions::is_kind(t, "CreateServer"@)
            ||| transactions::is_kind(t, "AlterTable"@)
            ||| transactions::is_kind(t, "AlterIndex"@)
            ||| transactions::is_kind(t, "AlterFunction"@)
            ||| transactions::is_kind(t, "AlterPolicy"@)
            ||| transactions::is_kind(t, "AlterType"@)
            ||| transactions::is_kind(t, "AlterRole"@)
            ||| transactions::is_kind(t, "AlterUser"@)
            ||| transactions::is_kind(t, "Drop"@)
            ||| transactions::is_kind(t, "DropTrigger"@)
            ||| transactions::is_kind(t, "DropPolicy"@)
            ||| transactions::is_kind(t, "Truncate"@)
        }),
        transactions::is_dml(t) == ({
            ||| transactions::is_kind(t, "Insert"@)
            ||| transactions::is_kind(t, "Update"@)
            ||| transactions::is_kind(t, "Delete"@)
            ||| transactions::is_kind(t, "Merge"@)
        }),
        transactions::is_begin(t) ==> !transactions::is_ddl(t) && !transactions::is_dml(t)
            && !transactions::is_txn_end(t),
        transactions::is_txn_end(t) ==> !transactions::is_ddl(t) && !transactions::is_dml(t),
        transactions::is_ddl(t) ==> !transactions::is_dml(t),
{
    lemma_names();
}

/// The script up to one part more.
proof fn lemma_one_more_part(parts: Seq<(usize, Seq<char>)>, n: int)
    requires
        0 <= n < parts.len(),
    ensures
        ({
            let before = transactions::followed(parts.take(n));
            let step = transactions::part_step(before.0, parts[n]);
            transactions::followed(parts.take(n + 1)) == (step.0, before.1 + step.1)
        }),
{
    assert(parts.take(n + 1).drop_last() =~= parts.take(n));
    assert(parts.take(n + 1).last() == parts[n]);
}

/// A report on the first parts of a script is one on the script.
proof fn lemma_told_on(
    parts: Seq<(usize, Seq<char>)>,
    n: int,
    part: (usize, Seq<char>),
    rule: LintRule,
)
    requires
        0 <= n <= parts.len(),
        told(transactions::followed(parts.take(n)).1, part, rule),
    ensures
        told(transactions::followed(parts).1, part, rule),
    decreases parts.len() - n,
{
    let ds = transactions::followed(parts.take(n)).1;
    if n == parts.len() {
        assert(parts.take(n) =~= parts);
    } else {
        lemma_one_more_part(parts, n);
        let i = choose|i: int|
            0 <= i < ds.len() && (#[trigger] ds[i]).rule == rule && ds[i].line == part.0
                && ds[i].statement == part.1;
        assert(transactions::followed(parts.take(n + 1)).1[i] == ds[i]);
        lemma_told_on(parts, n + 1, part, rule);
    }
}

/// A transaction is open exactly where one began and has not ended.
proof fn lemma_open(parts: Seq<(usize, Seq<char>)>, n: int)
    requires
        0 <= n <= parts.len(),
        transactions::all_hold_at_most_one(parts),
    ensures
        transactions::followed(parts.take(n)).0.open == !none_begun(parts, n),
    decreases n,
{
    if n == 0 {
        assert(parts.take(0) =~= seq![]);
        assert(none_begun(parts, 0));
    } else {
        lemma_open(parts, n - 1);
        lemma_one_more_part(parts, n - 1);
        let txn = transactions::followed(parts.take(n - 1)).0;
        let p = parts[n - 1];
        lemma_step(txn, p);
        lemma_end_begins_not(p.1);
        if txn.open {
            let m: int = n - 1;
            let b = choose|b: int| begun(parts, b, m);
            if !ends(p.1) {
                assert(begun(parts, b, n));
            } else {
                assert forall|c: int| !begun(parts, c, n) by {
                    if c == n - 1 {
                    } else if c < n - 1 {
                        assert(ends(parts[n - 1].1));
                    }
                }
            }
        } else {
            if begins(p.1) {
                assert(begun(parts, n - 1, n));
            } else {
                assert forall|c: int| !begun(parts, c, n) by {
                    if begun(parts, c, n) {
                        assert(c < n - 1);
                        assert(begun(parts, c, n - 1));
                    }
                }
            }
        }
    }
}

proof fn lemma_end_begins_not(sql: Seq<char>)
    requires
        transactions::holds_at_most_one(sql),
    ensures
        ends(sql) ==> !begins(sql),
{
    lemma_names();
    if let Ok(ts) = syntax::statements(Dialect::Postgres, text::trimmed(sql)) {
        assert(transactions::one_kind(ts[0]));
        assert(forall|k: Seq<char>|
            reads_as(sql, k) == #[trigger] transactions::is_kind(ts[0], k));
        lemma_kinds(ts[0]);
    }
}

/// What is known of a transaction before the part at `n`.
#[verifier::spinoff_prover]
#[verifier::rlimit(60)]
proof fn lemma_inside(parts: Seq<(usize, Seq<char>)>, b: int, n: int)
    requires
        parts.len() < usize::MAX,
        transactions::all_hold_at_most_one(parts),
        none_begun(parts, b),
        begun(parts, b, n),
    ensures
        ({
            let txn = transactions::followed(parts.take(n)).0;
            &&& txn.open && txn.line == parts[b].0 && txn.begin == parts[b].1
            &&& txn.ddl < n && txn.dml < n
            &&& (txn.ddl >= 1) == defines_within(parts, b, n)
            &&& (txn.ddl >= 2) == defines_twice_within(parts, b, n)
            &&& (txn.dml >= 1) == changes_within(parts, b, n)
        }),
        (forall|m: int| b < m < n ==> transactions::holds_one((#[trigger] parts[m]).1))
            ==> transactions::followed(parts.take(n)).1 == transactions::followed(parts.take(b)).1,
    decreases n,
{
    lemma_one_more_part(parts, n - 1);
    let p = parts[n - 1];
    let before = transactions::followed(parts.take(n - 1));
    lemma_step(before.0, p);
    if n == b + 1 {
        lemma_open(parts, b);
        assert(before.1 + transactions::part_step(before.0, p).1 =~= before.1);
    } else {
        assert(begun(parts, b, n - 1));
        lemma_inside(parts, b, n - 1);
        assert(!ends(parts[n - 1].1));
        let txn = before.0;
        let here = defines(p.1);
        let once = defines_within(parts, b, n - 1);
        let twice = defines_twice_within(parts, b, n - 1);
        assert(defines_within(parts, b, n) == (once || here)) by {
            if once {
                let i = choose|i: int| b < i < n - 1 && defines((#[trigger] parts[i]).1);
                assert(b < i < n && defines(parts[i].1));
            }
            if here {
                assert(b < n - 1 < n && defines(parts[n - 1].1));
            }
        }
        assert(defines_twice_within(parts, b, n) == (twice || (once && here))) by {
            if twice {
                let (i, j) = choose|i: int, j: int|
                    b < i < j < n - 1 && defines((#[trigger] parts[i]).1) && defines(
                        (#[trigger] parts[j]).1,
                    );
                assert(b < i < j < n && defines(parts[i].1) && defines(parts[j].1));
            }
            if once && here {
                let i = choose|i: int| b < i < n - 1 && defines((#[trigger] parts[i]).1);
                assert(b < i < n - 1 < n && defines(parts[i].1) && defines(parts[n - 1].1));
            }
            if defines_twice_within(parts, b, n) {
                let (i, j) = choose|i: int, j: int|
                    b < i < j < n && defines((#[trigger] parts[i]).1) && defines(
                        (#[trigger] parts[j]).1,
                    );
                if j < n - 1 {
                    assert(twice);
                } else {
                    assert(i < n - 1);
                    assert(once);
                }
            }
        }
        let changed = changes_within(parts, b, n - 1);
        assert(changes_within(parts, b, n) == (changed || changes_rows(p.1))) by {
            if changed {
                let i = choose|i: int| b < i < n - 1 && changes_rows((#[trigger] parts[i]).1);
                assert(b < i < n && changes_rows(parts[i].1));
            }
            if changes_rows(p.1) {
                assert(b < n - 1 < n && changes_rows(parts[n - 1].1));
            }
        }
        if forall|m: int| b < m < n ==> transactions::holds_one((#[trigger] parts[m]).1) {
            assert forall|m: int| b < m < n - 1 implies transactions::holds_one(
                (#[trigger] parts[m]).1,
            ) by {
            }
            assert(transactions::holds_one(parts[n - 1].1));
            assert(before.1 + transactions::part_step(before.0, p).1 =~= before.1);
        }
    }
}

/// A committed transaction with a statement that defines something and a statement that inserts,
/// updates, deletes or merges rows is reported as mixed.
pub proof fn law_mixed_transactions_are_reported(parts: Seq<(usize, Seq<char>)>, b: int, e: int)
    requires
        parts.len() < usize::MAX,
        transactions::all_hold_at_most_one(parts),
        stands(parts, b, e),
        defines_within(parts, b, e),
        changes_within(parts, b, e),
    ensures
        told(
            transactions::followed(parts).1,
            parts[b],
            LintRule::MixedDdlDmlTransaction,
        ),
{
    lemma_inside(parts, b, e);
    lemma_one_more_part(parts, e);
    let before = transactions::followed(parts.take(e));
    lemma_step(before.0, parts[e]);
    let ds = transactions::followed(parts.take(e + 1)).1;
    let own = transactions::commit_reports(before.0);
    let d = own.last();
    assert(ds[ds.len() - 1] == d);
    lemma_told_on(parts, e + 1, parts[b], LintRule::MixedDdlDmlTransaction);
}

/// A committed transaction with two statements that define something is reported.
pub proof fn law_transactions_with_many_definitions_are_reported(
    parts: Seq<(usize, Seq<char>)>,
    b: int,
    e: int,
)
    requires
        parts.len() < usize::MAX,
        transactions::all_hold_at_most_one(parts),
        stands(parts, b, e),
        defines_twice_within(parts, b, e),
    ensures
        told(transactions::followed(parts).1, parts[b], LintRule::MultiDdlTransaction),
{
    lemma_inside(parts, b, e);
    lemma_one_more_part(parts, e);
    let before = transactions::followed(parts.take(e));
    lemma_step(before.0, parts[e]);
    let ds = transactions::followed(parts.take(e + 1)).1;
    let own = transactions::commit_reports(before.0);
    assert(ds[before.1.len() as int] == own[0]);
    lemma_told_on(parts, e + 1, parts[b], LintRule::MultiDdlTransaction);
}

/// Nothing else is reported of transactions: one that defines nothing, or one thing and changes no
/// rows, adds no report.
pub proof fn law_other_transactions_are_accepted(parts: Seq<(usize, Seq<char>)>, b: int, e: int)
    requires
        parts.len() < usize::MAX,
        transactions::all_hold_at_most_one(parts),
        stands(parts, b, e),
        forall|m: int| b < m < e ==> transactions::holds_one((#[trigger] parts[m]).1),
        !defines_twice_within(parts, b, e),
        !(defines_within(parts, b, e) && changes_within(parts, b, e)),
    ensures
        transactions::followed(parts.take(e + 1)).1 == transactions::followed(parts.take(b)).1,
        !transactions::followed(parts.take(e + 1)).0.open,
{
    lemma_inside(parts, b, e);
    lemma_one_more_part(parts, e);
    let before = transactions::followed(parts.take(e));
    lemma_step(before.0, parts[e]);
    assert(transactions::commit_reports(before.0) =~= seq![]);
    assert(transactions::followed(parts.take(e + 1)).1 =~= before.1);
}

/// Outside a transaction, in one that is rolled back, and before its commit nothing is reported.
pub proof fn law_what_is_not_committed_is_accepted(parts: Seq<(usize, Seq<char>)>, n: int)
    requires
        0 <= n < parts.len(),
        transactions::all_hold_at_most_one(parts),
        transactions::holds_one(parts[n].1),
        none_begun(parts, n) || !commits(parts[n].1),
    ensures
        transactions::followed(parts.take(n + 1)).1 == transactions::followed(parts.take(n)).1,
{
    lemma_open(parts, n);
    lemma_one_more_part(parts, n);
    let before = transactions::followed(parts.take(n));
    lemma_step(before.0, parts[n]);
    assert(transactions::followed(parts.take(n + 1)).1 =~= before.1);
}

/// A script that is fixed holds no transaction that both defines something and changes rows, and
/// none that defines two things.
pub proof fn law_fixed_scripts_mix_nothing(parts: Seq<(usize, Seq<char>)>, b: int, e: int)
    requires
        parts.len() < usize::MAX,
        transactions::split_txns(parts, 0).0.len() < usize::MAX,
        transactions::all_hold_at_most_one(parts),
        transactions::none_unfixable(transactions::split_txns(parts, 0).1),
        transactions::holds_one("COMMIT"@),
        commits("COMMIT"@),
        stands(transactions::split_txns(parts, 0).0, b, e),
    ensures
        ({
            let fixed = transactions::split_txns(parts, 0).0;
            &&& !(defines_within(fixed, b, e) && changes_within(fixed, b, e))
            &&& !defines_twice_within(fixed, b, e)
        }),
{
    let fixed = transactions::split_txns(parts, 0).0;
    lemma_commit_role();
    transactions::law_fixed_script_is_accepted(parts);
    transactions::law_split_script_stems_from_its_parts(parts, 0);
    assert forall|i: int| 0 <= i < fixed.len() implies transactions::holds_at_most_one(
        (#[trigger] fixed[i]).1,
    ) by {
        assert(transactions::stems_from(fixed[i], parts));
        if parts.contains(fixed[i]) {
            let j = choose|j: int| 0 <= j < parts.len() && parts[j] == fixed[i];
            assert(transactions::holds_at_most_one(parts[j].1));
        }
    }
    if defines_within(fixed, b, e) && changes_within(fixed, b, e) {
        law_mixed_transactions_are_reported(fixed, b, e);
    }
    if defines_twice_within(fixed, b, e) {
        law_transactions_with_many_definitions_are_reported(fixed, b, e);
    }
}

proof fn lemma_commit_role()
    requires
        transactions::holds_one("COMMIT"@),
        commits("COMMIT"@),
    ensures
        transactions::role_of("COMMIT"@) == transactions::Role::End(true),
{
    let ts = syntax::statements(Dialect::Postgres, text::trimmed("COMMIT"@))->Ok_0;
    assert(transactions::is_commit(ts[0]));
    assert(transactions::some_kind(ts, |t: Tree| transactions::is_commit(t)));
    assert(transactions::some_kind(ts, |t: Tree| transactions::is_txn_end(t)));
}

/// Whether a part neither opens a transaction nor commits one.
pub open spec fn is_plain(part: (usize, Seq<char>)) -> bool {
    !begins(part.1) && !commits(part.1)
}

/// The parts of a script that neither open a transaction nor commit one, in order.
pub open spec fn plain_parts(parts: Seq<(usize, Seq<char>)>) -> Seq<(usize, Seq<char>)> {
    parts.filter(|p: (usize, Seq<char>)| is_plain(p))
}

proof fn lemma_plain_sum(a: Seq<(usize, Seq<char>)>, b: Seq<(usize, Seq<char>)>)
    ensures
        plain_parts(a + b) == plain_parts(a) + plain_parts(b),
{
    Seq::filter_distributes_over_add(a, b, |p: (usize, Seq<char>)| is_plain(p));
}

proof fn lemma_plain_one(p: (usize, Seq<char>))
    ensures
        is_plain(p) ==> plain_parts(seq![p]) == seq![p],
        !is_plain(p) ==> plain_parts(seq![p]) == Seq::<(usize, Seq<char>)>::empty(),
{
    reveal(Seq::filter);
    reveal_with_fuel(Seq::filter, 2);
    assert(seq![p].drop_last() =~= seq![]);
    assert(plain_parts(seq![p]) =~= if is_plain(p) {
        seq![p]
    } else {
        seq![]
    });
}

proof fn lemma_plain_none()
    ensures
        plain_parts(seq![]) == Seq::<(usize, Seq<char>)>::empty(),
{
    reveal(Seq::filter);
}

proof fn lemma_roles(sql: Seq<char>)
    requires
        transactions::holds_one(sql),
    ensures
        (transactions::role_of(sql) is Nested) == begins(sql),
        transactions::opens_txn(sql) == begins(sql),
        (transactions::role_of(sql) == transactions::Role::End(true)) == commits(sql),
{
    lemma_names();
    if let Ok(ts) = syntax::statements(Dialect::Postgres, text::trimmed(sql)) {
        assert(transactions::one_kind(ts[0]));
        assert(forall|k: Seq<char>|
            reads_as(sql, k) == #[trigger] transactions::is_kind(ts[0], k));
        lemma_kinds(ts[0]);
        lemma_some(ts, |t: Tree| transactions::is_txn_end(t));
        lemma_some(ts, |t: Tree| transactions::is_commit(t));
        lemma_some(ts, |t: Tree| transactions::is_begin(t));
    }
}

proof fn lemma_some(ts: Seq<Tree>, kind: spec_fn(Tree) -> bool)
    requires
        ts.len() == 1,
    ensures
        transactions::some_kind(ts, kind) == kind(ts[0]),
{
    if kind(ts[0]) {
        assert(kind(ts[0]));
    }
}

proof fn lemma_plain_wrapped(begin: (usize, Seq<char>), run: Seq<(usize, Seq<char>)>)
    requires
        begins(begin.1),
        commits("COMMIT"@),
    ensures
        plain_parts(transactions::wrapped(begin, run)) == plain_parts(run),
{
    lemma_plain_none();
    if run.len() == 0 {
        assert(run =~= seq![]);
    } else {
        let commit = (begin.0, "COMMIT"@);
        lemma_plain_sum(seq![begin] + run, seq![commit]);
        lemma_plain_sum(seq![begin], run);
        lemma_plain_one(begin);
        lemma_plain_one(commit);
        assert(plain_parts(seq![begin] + run + seq![commit]) =~= plain_parts(run));
    }
}

proof fn lemma_plain_runs(
    begin: (usize, Seq<char>),
    body: Seq<(usize, Seq<char>)>,
)
    requires
        begins(begin.1),
        commits("COMMIT"@),
        transactions::all_hold_one(body),
    ensures
        plain_parts(transactions::regrouped(begin, body)) == plain_parts(body),
        plain_parts(transactions::wrapped_all(begin, transactions::runs(body).0)) + plain_parts(
            transactions::runs(body).1,
        ) == plain_parts(body),
    decreases body.len(),
{
    let now = transactions::runs(body);
    lemma_plain_none();
    if body.len() == 0 {
        assert(body =~= seq![]);
    } else {
        let front = body.drop_last();
        let last = body.last();
        assert forall|i: int| 0 <= i < front.len() implies transactions::holds_one(
            (#[trigger] front[i]).1,
        ) by {
            assert(front[i] == body[i]);
        }
        lemma_plain_runs(begin, front);
        let before = transactions::runs(front);
        assert(last == body[body.len() - 1]);
        lemma_roles(last.1);
        assert(body =~= front + seq![last]);
        lemma_plain_sum(front, seq![last]);
        lemma_plain_one(last);
        let role = transactions::role_of(last.1);
        if role is Nested {
            assert(plain_parts(body) =~= plain_parts(front));
        } else if role is Ddl {
            let one = before.0.push(before.1);
            let two = one.push(seq![last]);
            assert(one.drop_last() =~= before.0);
            assert(two.drop_last() =~= one);
            lemma_plain_wrapped(begin, before.1);
            lemma_plain_wrapped(begin, seq![last]);
            lemma_plain_sum(
                transactions::wrapped_all(begin, before.0),
                transactions::wrapped(begin, before.1),
            );
            lemma_plain_sum(
                transactions::wrapped_all(begin, one),
                transactions::wrapped(begin, seq![last]),
            );
            assert(now.0 == two);
            assert(plain_parts(transactions::wrapped_all(begin, now.0)) + plain_parts(now.1)
                =~= plain_parts(body));
        } else {
            assert(now.1 =~= before.1 + seq![last]);
            lemma_plain_sum(before.1, seq![last]);
            assert(plain_parts(transactions::wrapped_all(begin, now.0)) + plain_parts(now.1)
                =~= plain_parts(body));
        }
    }
    lemma_plain_wrapped(begin, now.1);
    lemma_plain_sum(
        transactions::wrapped_all(begin, now.0),
        transactions::wrapped(begin, now.1),
    );
}

/// To split transactions takes no statement off, adds none and moves none: but for what opens and
/// commits transactions the parts are the same, in the same order.
pub proof fn law_splitting_moves_no_statement(parts: Seq<(usize, Seq<char>)>, at: int)
    requires
        0 <= at <= parts.len(),
        transactions::all_hold_at_most_one(parts),
        commits("COMMIT"@),
    ensures
        plain_parts(transactions::split_txns(parts, at).0) == plain_parts(parts.skip(at)),
    decreases parts.len() - at,
{
    lemma_plain_none();
    if at == parts.len() {
        assert(parts.skip(at) =~= seq![]);
    } else {
        let step = transactions::fix_step(parts, at);
        let end = transactions::end_of_txn(parts, at + 1);
        transactions::lemma_end_of_txn(parts, at + 1);
        let rest = transactions::split_txns(parts, step.0).0;
        let gone = parts.subrange(at, step.0);
        law_splitting_moves_no_statement(parts, step.0);
        assert(parts.skip(at) =~= gone + parts.skip(step.0));
        lemma_plain_sum(gone, parts.skip(step.0));
        lemma_plain_sum(step.1, rest);
        if step.0 == at + 1 && step.1 == seq![parts[at]] {
            assert(gone =~= seq![parts[at]]);
        } else {
            let begin = parts[at];
            let last = parts[end];
            let body = parts.subrange(at + 1, end);
            assert(transactions::holds_at_most_one(begin.1));
            assert(transactions::holds_at_most_one(last.1));
            lemma_opens_holds(begin.1);
            lemma_roles(begin.1);
            assert(gone =~= seq![begin] + body + seq![last]);
            if transactions::needs_split(body) {
                assert forall|i: int| 0 <= i < body.len() implies transactions::holds_one(
                    (#[trigger] body[i]).1,
                ) by {
                    assert(body[i] == parts[at + 1 + i]);
                    assert(transactions::holds_at_most_one(parts[at + 1 + i].1));
                }
                lemma_roles(last.1);
                lemma_plain_runs(begin, body);
                lemma_plain_sum(seq![begin] + body, seq![last]);
                lemma_plain_sum(seq![begin], body);
                lemma_plain_one(begin);
                lemma_plain_one(last);
                assert(plain_parts(gone) =~= plain_parts(body));
            } else {
                assert(step.1 =~= gone);
            }
        }
    }
}

proof fn lemma_opens_holds(sql: Seq<char>)
    requires
        transactions::holds_at_most_one(sql),
        transactions::opens_txn(sql),
    ensures
        transactions::holds_one(sql),
{
}

} // verus!
