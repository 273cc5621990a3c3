//! Statements, parts of statements, operations on tables and columns that DSQL refuses, one row of
//! a table for each.

use serde_json::Value;
use vstd::prelude::*;

use crate::diagnostic::{self, Diagnostic, FixResult, LintRule};
use crate::rules::constraint_collapse::Kind;
use crate::rules::find_line;
use crate::rules::{constraint_collapse, errors, name_match};
use crate::shapes::one;
use crate::syntax::{
    self, as_flag, as_list, as_text, copy, flag, get, is_null, list, null, put, string, Tree,
};
use crate::text::same;
use crate::token;
use crate::transactions::{self, has_kind};

verus! {

/// What a field is to be: nothing, a flag that is down, an empty list, no options, or the type
/// `BIGINT`.
#[derive(Debug, Clone, Copy, PartialEq, Eq, Structural)]
pub enum Mend {
    Null,
    Down,
    Empty,
    Bare,
    Big,
}

/// What is done about a field that is not what it is to be. What is `Judged` loses nothing where
/// the field only names the one kind of index that there is.
#[derive(Debug, Clone, Copy, PartialEq, Eq, Structural)]
pub enum Remedy {
    Fixed,
    Warned,
    Judged,
    Left,
}

/// A field that a statement of some kind is not to have.
pub struct FieldRule {
    pub kind: &'static str,
    pub field: &'static str,
    pub word: &'static str,
    pub mend: Mend,
    pub rule: LintRule,
    pub remedy: Remedy,
    pub message: &'static str,
    pub suggestion: &'static str,
    /// What was done, where anything is.
    pub done: &'static str,
}

/// The model of a [`FieldRule`].
pub ghost struct FieldModel {
    pub kind: Seq<char>,
    pub field: Seq<char>,
    pub word: Seq<char>,
    pub mend: Mend,
    pub rule: LintRule,
    pub remedy: Remedy,
    pub message: Seq<char>,
    pub suggestion: Seq<char>,
    pub done: Seq<char>,
}

impl View for FieldRule {
    type V = FieldModel;

    open spec fn view(&self) -> FieldModel {
        FieldModel {
            kind: self.kind@,
            field: self.field@,
            word: self.word@,
            mend: self.mend,
            rule: self.rule,
            remedy: self.remedy,
            message: self.message@,
            suggestion: self.suggestion@,
            done: self.done@,
        }
    }
}

/// Something that is refused by its kind: what stands at a place in a tree, three keys down at
/// most. A key that is empty is no step.
pub struct Refusal {
    pub first: &'static str,
    pub second: &'static str,
    pub third: &'static str,
    pub kind: &'static str,
    pub word: &'static str,
    pub rule: LintRule,
    pub message: &'static str,
}

/// The model of a [`Refusal`].
pub ghost struct RefusalModel {
    pub first: Seq<char>,
    pub second: Seq<char>,
    pub third: Seq<char>,
    pub kind: Seq<char>,
    pub word: Seq<char>,
    pub rule: LintRule,
    pub message: Seq<char>,
}

impl View for Refusal {
    type V = RefusalModel;

    open spec fn view(&self) -> RefusalModel {
        RefusalModel {
            first: self.first@,
            second: self.second@,
            third: self.third@,
            kind: self.kind@,
            word: self.word@,
            rule: self.rule,
            message: self.message@,
        }
    }
}

/// The fields that statements are not to have.
#[verifier::opaque]
pub open spec fn field_table() -> Seq<FieldModel> {
    seq![
        FieldModel {
            kind: "CreateTable"@,
            field: "temporary"@,
            word: "temp"@,
            mend: Mend::Down,
            rule: LintRule::TempTable,
            remedy: Remedy::Warned,
            message: "TEMPORARY tables are not supported in DSQL."@,
            suggestion: "Use a regular table."@,
            done: "Made the temporary table a regular one: it outlives the session and is seen by others."@,
        },
        FieldModel {
            kind: "CreateTable"@,
            field: "partition_by"@,
            word: "partition"@,
            mend: Mend::Null,
            rule: LintRule::PartitionBy,
            remedy: Remedy::Warned,
            message: "PARTITION BY is not supported in DSQL."@,
            suggestion: "Remove PARTITION BY: DSQL distributes data itself."@,
            done: "Removed PARTITION BY: the table is not partitioned."@,
        },
        FieldModel {
            kind: "CreateTable"@,
            field: "inherits"@,
            word: "inherits"@,
            mend: Mend::Null,
            rule: LintRule::Inherits,
            remedy: Remedy::Warned,
            message: "INHERITS is not supported in DSQL."@,
            suggestion: "Declare the columns of the parent table in the table itself."@,
            done: "Removed INHERITS: the columns of the parent table are not in the table."@,
        },
        FieldModel {
            kind: "CreateTable"@,
            field: "query"@,
            word: "as"@,
            mend: Mend::Null,
            rule: LintRule::CreateTableAs,
            remedy: Remedy::Left,
            message: "CREATE TABLE AS is not supported in DSQL."@,
            suggestion: "Use CREATE TABLE, then INSERT INTO ... SELECT."@,
            done: ""@,
        },
        FieldModel {
            kind: "CreateTable"@,
            field: "table_options"@,
            word: "tablespace"@,
            mend: Mend::Bare,
            rule: LintRule::Tablespace,
            remedy: Remedy::Warned,
            message: "TABLESPACE is not supported in DSQL."@,
            suggestion: "Remove TABLESPACE: DSQL places data itself."@,
            done: "Removed TABLESPACE: the table is not in that tablespace."@,
        },
        FieldModel {
            kind: "CreateView"@,
            field: "temporary"@,
            word: "temp"@,
            mend: Mend::Down,
            rule: LintRule::UnsupportedTempView,
            remedy: Remedy::Warned,
            message: "TEMPORARY views are not supported in DSQL."@,
            suggestion: "Use a regular view."@,
            done: "Made the temporary view a regular one: it outlives the session and is seen by others."@,
        },
        FieldModel {
            kind: "CreateView"@,
            field: "materialized"@,
            word: "materialized"@,
            mend: Mend::Down,
            rule: LintRule::UnsupportedMaterializedView,
            remedy: Remedy::Left,
            message: "Materialized views are not supported in DSQL."@,
            suggestion: "Use a regular view or a table."@,
            done: ""@,
        },
        FieldModel {
            kind: "CreateIndex"@,
            field: "using"@,
            word: "using"@,
            mend: Mend::Null,
            rule: LintRule::IndexUsing,
            remedy: Remedy::Judged,
            message: "USING is not supported in CREATE INDEX in DSQL."@,
            suggestion: "Remove USING: every index is a B-tree."@,
            done: "Removed USING from CREATE INDEX: every index is a B-tree."@,
        },
        FieldModel {
            kind: "CreateIndex"@,
            field: "index_options"@,
            word: "using"@,
            mend: Mend::Empty,
            rule: LintRule::IndexUsing,
            remedy: Remedy::Judged,
            message: "USING is not supported in CREATE INDEX in DSQL."@,
            suggestion: "Remove USING: every index is a B-tree."@,
            done: "Removed USING from CREATE INDEX: every index is a B-tree."@,
        },
        FieldModel {
            kind: "CreateIndex"@,
            field: "predicate"@,
            word: "where"@,
            mend: Mend::Null,
            rule: LintRule::IndexPartial,
            remedy: Remedy::Left,
            message: "Partial indexes are not supported in DSQL."@,
            suggestion: "Index all rows, or keep the rows in a table of their own."@,
            done: ""@,
        },
        FieldModel {
            kind: "CreateSequence"@,
            field: "data_type"@,
            word: "as"@,
            mend: Mend::Big,
            rule: LintRule::SequenceType,
            remedy: Remedy::Fixed,
            message: "A sequence of a type other than BIGINT is not supported in DSQL."@,
            suggestion: "Use AS BIGINT."@,
            done: "Made the sequence one of BIGINT."@,
        },
        FieldModel {
            kind: "Rollback"@,
            field: "savepoint"@,
            word: "savepoint"@,
            mend: Mend::Null,
            rule: LintRule::UnsupportedRollbackToSavepoint,
            remedy: Remedy::Left,
            message: "ROLLBACK TO SAVEPOINT is not supported in DSQL."@,
            suggestion: "Roll back the whole transaction."@,
            done: ""@,
        },
    ]
}

/// The fields that statements are not to have.
pub fn field_rules() -> (r: Vec<FieldRule>)
    ensures
        r@.map_values(|e: FieldRule| e@) == field_table(),
{
    let r = vec![
        FieldRule {
            kind: "CreateTable",
            field: "temporary",
            word: "temp",
            mend: Mend::Down,
            rule: LintRule::TempTable,
            remedy: Remedy::Warned,
            message: "TEMPORARY tables are not supported in DSQL.",
            suggestion: "Use a regular table.",
            done: "Made the temporary table a regular one: it outlives the session and is seen by others.",
        },
        FieldRule {
            kind: "CreateTable",
            field: "partition_by",
            word: "partition",
            mend: Mend::Null,
            rule: LintRule::PartitionBy,
            remedy: Remedy::Warned,
            message: "PARTITION BY is not supported in DSQL.",
            suggestion: "Remove PARTITION BY: DSQL distributes data itself.",
            done: "Removed PARTITION BY: the table is not partitioned.",
        },
        FieldRule {
            kind: "CreateTable",
            field: "inherits",
            word: "inherits",
            mend: Mend::Null,
            rule: LintRule::Inherits,
            remedy: Remedy::Warned,
            message: "INHERITS is not supported in DSQL.",
            suggestion: "Declare the columns of the parent table in the table itself.",
            done: "Removed INHERITS: the columns of the parent table are not in the table.",
        },
        FieldRule {
            kind: "CreateTable",
            field: "query",
            word: "as",
            mend: Mend::Null,
            rule: LintRule::CreateTableAs,
            remedy: Remedy::Left,
            message: "CREATE TABLE AS is not supported in DSQL.",
            suggestion: "Use CREATE TABLE, then INSERT INTO ... SELECT.",
            done: "",
        },
        FieldRule {
            kind: "CreateTable",
            field: "table_options",
            word: "tablespace",
            mend: Mend::Bare,
            rule: LintRule::Tablespace,
            remedy: Remedy::Warned,
            message: "TABLESPACE is not supported in DSQL.",
            suggestion: "Remove TABLESPACE: DSQL places data itself.",
            done: "Removed TABLESPACE: the table is not in that tablespace.",
        },
        FieldRule {
            kind: "CreateView",
            field: "temporary",
            word: "temp",
            mend: Mend::Down,
            rule: LintRule::UnsupportedTempView,
            remedy: Remedy::Warned,
            message: "TEMPORARY views are not supported in DSQL.",
            suggestion: "Use a regular view.",
            done: "Made the temporary view a regular one: it outlives the session and is seen by others.",
        },
        FieldRule {
            kind: "CreateView",
            field: "materialized",
            word: "materialized",
            mend: Mend::Down,
            rule: LintRule::UnsupportedMaterializedView,
            remedy: Remedy::Left,
            message: "Materialized views are not supported in DSQL.",
            suggestion: "Use a regular view or a table.",
            done: "",
        },
        FieldRule {
            kind: "CreateIndex",
            field: "using",
            word: "using",
            mend: Mend::Null,
            rule: LintRule::IndexUsing,
            remedy: Remedy::Judged,
            message: "USING is not supported in CREATE INDEX in DSQL.",
            suggestion: "Remove USING: every index is a B-tree.",
            done: "Removed USING from CREATE INDEX: every index is a B-tree.",
        },
        FieldRule {
            kind: "CreateIndex",
            field: "index_options",
            word: "using",
            mend: Mend::Empty,
            rule: LintRule::IndexUsing,
            remedy: Remedy::Judged,
            message: "USING is not supported in CREATE INDEX in DSQL.",
            suggestion: "Remove USING: every index is a B-tree.",
            done: "Removed USING from CREATE INDEX: every index is a B-tree.",
        },
        FieldRule {
            kind: "CreateIndex",
            field: "predicate",
            word: "where",
            mend: Mend::Null,
            rule: LintRule::IndexPartial,
            remedy: Remedy::Left,
            message: "Partial indexes are not supported in DSQL.",
            suggestion: "Index all rows, or keep the rows in a table of their own.",
            done: "",
        },
        FieldRule {
            kind: "CreateSequence",
            field: "data_type",
            word: "as",
            mend: Mend::Big,
            rule: LintRule::SequenceType,
            remedy: Remedy::Fixed,
            message: "A sequence of a type other than BIGINT is not supported in DSQL.",
            suggestion: "Use AS BIGINT.",
            done: "Made the sequence one of BIGINT.",
        },
        FieldRule {
            kind: "Rollback",
            field: "savepoint",
            word: "savepoint",
            mend: Mend::Null,
            rule: LintRule::UnsupportedRollbackToSavepoint,
            remedy: Remedy::Left,
            message: "ROLLBACK TO SAVEPOINT is not supported in DSQL.",
            suggestion: "Roll back the whole transaction.",
            done: "",
        },
    ];
    proof {
        reveal(field_table);
        assert(r@.map_values(|e: FieldRule| e@) =~= field_table());
    }
    r
}

/// The statements that are refused.
#[verifier::opaque]
pub open spec fn statement_table() -> Seq<RefusalModel> {
    seq![
        RefusalModel {
            first: ""@,
            second: ""@,
            third: ""@,
            kind: "CreateTrigger"@,
            word: "trigger"@,
            rule: LintRule::UnsupportedCreateTrigger,
            message: "CREATE TRIGGER is not supported in DSQL."@,
        },
        RefusalModel {
            first: ""@,
            second: ""@,
            third: ""@,
            kind: "CreateExtension"@,
            word: "extension"@,
            rule: LintRule::UnsupportedCreateExtension,
            message: "CREATE EXTENSION is not supported in DSQL."@,
        },
        RefusalModel {
            first: ""@,
            second: ""@,
            third: ""@,
            kind: "CreateDatabase"@,
            word: "database"@,
            rule: LintRule::UnsupportedCreateDatabase,
            message: "CREATE DATABASE is not supported in DSQL."@,
        },
        RefusalModel {
            first: ""@,
            second: ""@,
            third: ""@,
            kind: "CreatePolicy"@,
            word: "policy"@,
            rule: LintRule::UnsupportedCreatePolicy,
            message: "CREATE POLICY is not supported in DSQL."@,
        },
        RefusalModel {
            first: ""@,
            second: ""@,
            third: ""@,
            kind: "Savepoint"@,
            word: "savepoint"@,
            rule: LintRule::UnsupportedSavepoint,
            message: "SAVEPOINT is not supported in DSQL."@,
        },
        RefusalModel {
            first: ""@,
            second: ""@,
            third: ""@,
            kind: "ReleaseSavepoint"@,
            word: "release"@,
            rule: LintRule::UnsupportedReleaseSavepoint,
            message: "RELEASE SAVEPOINT is not supported in DSQL."@,
        },
        RefusalModel {
            first: ""@,
            second: ""@,
            third: ""@,
            kind: "Declare"@,
            word: "declare"@,
            rule: LintRule::UnsupportedDeclareCursor,
            message: "DECLARE CURSOR is not supported in DSQL."@,
        },
        RefusalModel {
            first: ""@,
            second: ""@,
            third: ""@,
            kind: "CreateType"@,
            word: "type"@,
            rule: LintRule::UnsupportedCreateType,
            message: "CREATE TYPE is not supported in DSQL."@,
        },
        RefusalModel {
            first: ""@,
            second: ""@,
            third: ""@,
            kind: "CreateServer"@,
            word: "server"@,
            rule: LintRule::UnsupportedCreateServer,
            message: "CREATE SERVER is not supported in DSQL."@,
        },
        RefusalModel {
            first: ""@,
            second: ""@,
            third: ""@,
            kind: "Lock"@,
            word: "lock"@,
            rule: LintRule::UnsupportedLockTable,
            message: "LOCK TABLE is not supported in DSQL."@,
        },
        RefusalModel {
            first: ""@,
            second: ""@,
            third: ""@,
            kind: "Vacuum"@,
            word: "vacuum"@,
            rule: LintRule::UnsupportedVacuum,
            message: "VACUUM is not supported in DSQL."@,
        },
        RefusalModel {
            first: ""@,
            second: ""@,
            third: ""@,
            kind: "AlterIndex"@,
            word: "index"@,
            rule: LintRule::UnsupportedAlterIndex,
            message: "ALTER INDEX is not supported in DSQL."@,
        },
        RefusalModel {
            first: ""@,
            second: ""@,
            third: ""@,
            kind: "LISTEN"@,
            word: "listen"@,
            rule: LintRule::UnsupportedListen,
            message: "LISTEN is not supported in DSQL."@,
        },
        RefusalModel {
            first: ""@,
            second: ""@,
            third: ""@,
            kind: "LockTables"@,
            word: "lock"@,
            rule: LintRule::UnsupportedLockTable,
            message: "LOCK TABLE is not supported in DSQL."@,
        },
        RefusalModel {
            first: ""@,
            second: ""@,
            third: ""@,
            kind: "UNLISTEN"@,
            word: "unlisten"@,
            rule: LintRule::UnsupportedUnlisten,
            message: "UNLISTEN is not supported in DSQL."@,
        },
        RefusalModel {
            first: ""@,
            second: ""@,
            third: ""@,
            kind: "NOTIFY"@,
            word: "notify"@,
            rule: LintRule::UnsupportedNotify,
            message: "NOTIFY is not supported in DSQL."@,
        },
        RefusalModel {
            first: ""@,
            second: ""@,
            third: ""@,
            kind: "Load"@,
            word: "load"@,
            rule: LintRule::UnsupportedLoad,
            message: "LOAD is not supported in DSQL."@,
        },
        RefusalModel {
            first: ""@,
            second: ""@,
            third: ""@,
            kind: "Prepare"@,
            word: "prepare"@,
            rule: LintRule::UnsupportedPrepare,
            message: "PREPARE is not supported in DSQL."@,
        },
        RefusalModel {
            first: ""@,
            second: ""@,
            third: ""@,
            kind: "Deallocate"@,
            word: "deallocate"@,
            rule: LintRule::UnsupportedDeallocate,
            message: "DEALLOCATE is not supported in DSQL."@,
        },
        RefusalModel {
            first: ""@,
            second: ""@,
            third: ""@,
            kind: "Discard"@,
            word: "discard"@,
            rule: LintRule::UnsupportedDiscard,
            message: "DISCARD is not supported in DSQL."@,
        },
        RefusalModel {
            first: ""@,
            second: ""@,
            third: ""@,
            kind: "CreateProcedure"@,
            word: "procedure"@,
            rule: LintRule::UnsupportedCreateProcedure,
            message: "CREATE PROCEDURE is not supported in DSQL."@,
        },
        RefusalModel {
            first: ""@,
            second: ""@,
            third: ""@,
            kind: "AlterPolicy"@,
            word: "policy"@,
            rule: LintRule::UnsupportedAlterPolicy,
            message: "ALTER POLICY is not supported in DSQL."@,
        },
        RefusalModel {
            first: ""@,
            second: ""@,
            third: ""@,
            kind: "AlterType"@,
            word: "type"@,
            rule: LintRule::UnsupportedAlterType,
            message: "ALTER TYPE is not supported in DSQL."@,
        },
        RefusalModel {
            first: ""@,
            second: ""@,
            third: ""@,
            kind: "DropTrigger"@,
            word: "trigger"@,
            rule: LintRule::UnsupportedDropTrigger,
            message: "DROP TRIGGER is not supported in DSQL."@,
        },
        RefusalModel {
            first: ""@,
            second: ""@,
            third: ""@,
            kind: "DropPolicy"@,
            word: "policy"@,
            rule: LintRule::UnsupportedDropPolicy,
            message: "DROP POLICY is not supported in DSQL."@,
        },
        RefusalModel {
            first: "Copy"@,
            second: "target"@,
            third: ""@,
            kind: "File"@,
            word: "copy"@,
            rule: LintRule::UnsupportedCopyFromFile,
            message: "COPY with a file is not supported in DSQL."@,
        },
        RefusalModel {
            first: "Copy"@,
            second: "target"@,
            third: ""@,
            kind: "Program"@,
            word: "copy"@,
            rule: LintRule::UnsupportedCopyFromFile,
            message: "COPY with a program is not supported in DSQL."@,
        },
        RefusalModel {
            first: "Set"@,
            second: ""@,
            third: ""@,
            kind: "SetTransaction"@,
            word: "set"@,
            rule: LintRule::SetTransaction,
            message: "SET TRANSACTION is not supported in DSQL."@,
        },
        RefusalModel {
            first: "Drop"@,
            second: "object_type"@,
            third: ""@,
            kind: "MaterializedView"@,
            word: "drop"@,
            rule: LintRule::UnsupportedDropMaterializedView,
            message: "DROP MATERIALIZED VIEW is not supported in DSQL."@,
        },
        RefusalModel {
            first: "Drop"@,
            second: "object_type"@,
            third: ""@,
            kind: "Type"@,
            word: "drop"@,
            rule: LintRule::UnsupportedDropType,
            message: "DROP TYPE is not supported in DSQL."@,
        },
    ]
}

/// The statements that are refused.
pub fn statement_refusals() -> (r: Vec<Refusal>)
    ensures
        r@.map_values(|e: Refusal| e@) == statement_table(),
{
    let r = vec![
        Refusal {
            first: "",
            second: "",
            third: "",
            kind: "CreateTrigger",
            word: "trigger",
            rule: LintRule::UnsupportedCreateTrigger,
            message: "CREATE TRIGGER is not supported in DSQL.",
        },
        Refusal {
            first: "",
            second: "",
            third: "",
            kind: "CreateExtension",
            word: "extension",
            rule: LintRule::UnsupportedCreateExtension,
            message: "CREATE EXTENSION is not supported in DSQL.",
        },
        Refusal {
            first: "",
            second: "",
            third: "",
            kind: "CreateDatabase",
            word: "database",
            rule: LintRule::UnsupportedCreateDatabase,
            message: "CREATE DATABASE is not supported in DSQL.",
        },
        Refusal {
            first: "",
            second: "",
            third: "",
            kind: "CreatePolicy",
            word: "policy",
            rule: LintRule::UnsupportedCreatePolicy,
            message: "CREATE POLICY is not supported in DSQL.",
        },
        Refusal {
            first: "",
            second: "",
            third: "",
            kind: "Savepoint",
            word: "savepoint",
            rule: LintRule::UnsupportedSavepoint,
            message: "SAVEPOINT is not supported in DSQL.",
        },
        Refusal {
            first: "",
            second: "",
            third: "",
            kind: "ReleaseSavepoint",
            word: "release",
            rule: LintRule::UnsupportedReleaseSavepoint,
            message: "RELEASE SAVEPOINT is not supported in DSQL.",
        },
        Refusal {
            first: "",
            second: "",
            third: "",
            kind: "Declare",
            word: "declare",
            rule: LintRule::UnsupportedDeclareCursor,
            message: "DECLARE CURSOR is not supported in DSQL.",
        },
        Refusal {
            first: "",
            second: "",
            third: "",
            kind: "CreateType",
            word: "type",
            rule: LintRule::UnsupportedCreateType,
            message: "CREATE TYPE is not supported in DSQL.",
        },
        Refusal {
            first: "",
            second: "",
            third: "",
            kind: "CreateServer",
            word: "server",
            rule: LintRule::UnsupportedCreateServer,
            message: "CREATE SERVER is not supported in DSQL.",
        },
        Refusal {
            first: "",
            second: "",
            third: "",
            kind: "Lock",
            word: "lock",
            rule: LintRule::UnsupportedLockTable,
            message: "LOCK TABLE is not supported in DSQL.",
        },
        Refusal {
            first: "",
            second: "",
            third: "",
            kind: "Vacuum",
            word: "vacuum",
            rule: LintRule::UnsupportedVacuum,
            message: "VACUUM is not supported in DSQL.",
        },
        Refusal {
            first: "",
            second: "",
            third: "",
            kind: "AlterIndex",
            word: "index",
            rule: LintRule::UnsupportedAlterIndex,
            message: "ALTER INDEX is not supported in DSQL.",
        },
        Refusal {
            first: "",
            second: "",
            third: "",
            kind: "LISTEN",
            word: "listen",
            rule: LintRule::UnsupportedListen,
            message: "LISTEN is not supported in DSQL.",
        },
        Refusal {
            first: "",
            second: "",
            third: "",
            kind: "LockTables",
            word: "lock",
            rule: LintRule::UnsupportedLockTable,
            message: "LOCK TABLE is not supported in DSQL.",
        },
        Refusal {
            first: "",
            second: "",
            third: "",
            kind: "UNLISTEN",
            word: "unlisten",
            rule: LintRule::UnsupportedUnlisten,
            message: "UNLISTEN is not supported in DSQL.",
        },
        Refusal {
            first: "",
            second: "",
            third: "",
            kind: "NOTIFY",
            word: "notify",
            rule: LintRule::UnsupportedNotify,
            message: "NOTIFY is not supported in DSQL.",
        },
        Refusal {
            first: "",
            second: "",
            third: "",
            kind: "Load",
            word: "load",
            rule: LintRule::UnsupportedLoad,
            message: "LOAD is not supported in DSQL.",
        },
        Refusal {
            first: "",
            second: "",
            third: "",
            kind: "Prepare",
            word: "prepare",
            rule: LintRule::UnsupportedPrepare,
            message: "PREPARE is not supported in DSQL.",
        },
        Refusal {
            first: "",
            second: "",
            third: "",
            kind: "Deallocate",
            word: "deallocate",
            rule: LintRule::UnsupportedDeallocate,
            message: "DEALLOCATE is not supported in DSQL.",
        },
        Refusal {
            first: "",
            second: "",
            third: "",
            kind: "Discard",
            word: "discard",
            rule: LintRule::UnsupportedDiscard,
            message: "DISCARD is not supported in DSQL.",
        },
        Refusal {
            first: "",
            second: "",
            third: "",
            kind: "CreateProcedure",
            word: "procedure",
            rule: LintRule::UnsupportedCreateProcedure,
            message: "CREATE PROCEDURE is not supported in DSQL.",
        },
        Refusal {
            first: "",
            second: "",
            third: "",
            kind: "AlterPolicy",
            word: "policy",
            rule: LintRule::UnsupportedAlterPolicy,
            message: "ALTER POLICY is not supported in DSQL.",
        },
        Refusal {
            first: "",
            second: "",
            third: "",
            kind: "AlterType",
            word: "type",
            rule: LintRule::UnsupportedAlterType,
            message: "ALTER TYPE is not supported in DSQL.",
        },
        Refusal {
            first: "",
            second: "",
            third: "",
            kind: "DropTrigger",
            word: "trigger",
            rule: LintRule::UnsupportedDropTrigger,
            message: "DROP TRIGGER is not supported in DSQL.",
        },
        Refusal {
            first: "",
            second: "",
            third: "",
            kind: "DropPolicy",
            word: "policy",
            rule: LintRule::UnsupportedDropPolicy,
            message: "DROP POLICY is not supported in DSQL.",
        },
        Refusal {
            first: "Copy",
            second: "target",
            third: "",
            kind: "File",
            word: "copy",
            rule: LintRule::UnsupportedCopyFromFile,
            message: "COPY with a file is not supported in DSQL.",
        },
        Refusal {
            first: "Copy",
            second: "target",
            third: "",
            kind: "Program",
            word: "copy",
            rule: LintRule::UnsupportedCopyFromFile,
            message: "COPY with a program is not supported in DSQL.",
        },
        Refusal {
            first: "Set",
            second: "",
            third: "",
            kind: "SetTransaction",
            word: "set",
            rule: LintRule::SetTransaction,
            message: "SET TRANSACTION is not supported in DSQL.",
        },
        Refusal {
            first: "Drop",
            second: "object_type",
            third: "",
            kind: "MaterializedView",
            word: "drop",
            rule: LintRule::UnsupportedDropMaterializedView,
            message: "DROP MATERIALIZED VIEW is not supported in DSQL.",
        },
        Refusal {
            first: "Drop",
            second: "object_type",
            third: "",
            kind: "Type",
            word: "drop",
            rule: LintRule::UnsupportedDropType,
            message: "DROP TYPE is not supported in DSQL.",
        },
    ];
    proof {
        reveal(statement_table);
        assert(r@.map_values(|e: Refusal| e@) =~= statement_table());
    }
    r
}

/// The operations of an `ALTER TABLE` that are refused.
#[verifier::opaque]
pub open spec fn operation_table() -> Seq<RefusalModel> {
    seq![
        RefusalModel {
            first: ""@,
            second: ""@,
            third: ""@,
            kind: "EnableRowLevelSecurity"@,
            word: "security"@,
            rule: LintRule::AtUnsupportedRowLevelSecurity,
            message: "ALTER TABLE ... ROW LEVEL SECURITY is not supported in DSQL."@,
        },
        RefusalModel {
            first: ""@,
            second: ""@,
            third: ""@,
            kind: "DisableRowLevelSecurity"@,
            word: "security"@,
            rule: LintRule::AtUnsupportedRowLevelSecurity,
            message: "ALTER TABLE ... ROW LEVEL SECURITY is not supported in DSQL."@,
        },
        RefusalModel {
            first: ""@,
            second: ""@,
            third: ""@,
            kind: "ForceRowLevelSecurity"@,
            word: "security"@,
            rule: LintRule::AtUnsupportedRowLevelSecurity,
            message: "ALTER TABLE ... ROW LEVEL SECURITY is not supported in DSQL."@,
        },
        RefusalModel {
            first: ""@,
            second: ""@,
            third: ""@,
            kind: "NoForceRowLevelSecurity"@,
            word: "security"@,
            rule: LintRule::AtUnsupportedRowLevelSecurity,
            message: "ALTER TABLE ... ROW LEVEL SECURITY is not supported in DSQL."@,
        },
        RefusalModel {
            first: ""@,
            second: ""@,
            third: ""@,
            kind: "ReplicaIdentity"@,
            word: "replica"@,
            rule: LintRule::AtUnsupportedReplicaIdentity,
            message: "ALTER TABLE ... REPLICA IDENTITY is not supported in DSQL."@,
        },
        RefusalModel {
            first: ""@,
            second: ""@,
            third: ""@,
            kind: "EnableRule"@,
            word: "rule"@,
            rule: LintRule::AtUnsupportedRewriteRule,
            message: "ALTER TABLE ... RULE is not supported in DSQL."@,
        },
        RefusalModel {
            first: ""@,
            second: ""@,
            third: ""@,
            kind: "DisableRule"@,
            word: "rule"@,
            rule: LintRule::AtUnsupportedRewriteRule,
            message: "ALTER TABLE ... RULE is not supported in DSQL."@,
        },
        RefusalModel {
            first: ""@,
            second: ""@,
            third: ""@,
            kind: "EnableAlwaysRule"@,
            word: "rule"@,
            rule: LintRule::AtUnsupportedRewriteRule,
            message: "ALTER TABLE ... RULE is not supported in DSQL."@,
        },
        RefusalModel {
            first: ""@,
            second: ""@,
            third: ""@,
            kind: "EnableReplicaRule"@,
            word: "rule"@,
            rule: LintRule::AtUnsupportedRewriteRule,
            message: "ALTER TABLE ... RULE is not supported in DSQL."@,
        },
        RefusalModel {
            first: "AlterColumn"@,
            second: "op"@,
            third: ""@,
            kind: "SetDataType"@,
            word: "type"@,
            rule: LintRule::AtUnsupportedAlterColumnSetType,
            message: "ALTER COLUMN ... TYPE is not supported in DSQL."@,
        },
        RefusalModel {
            first: "AlterColumn"@,
            second: "op"@,
            third: ""@,
            kind: "SetNotNull"@,
            word: "null"@,
            rule: LintRule::AtUnsupportedAlterColumnSetNotNull,
            message: "ALTER COLUMN ... SET NOT NULL is not supported in DSQL."@,
        },
        RefusalModel {
            first: "AlterColumn"@,
            second: "op"@,
            third: ""@,
            kind: "AddGenerated"@,
            word: "generated"@,
            rule: LintRule::AtUnsupportedAlterColumnAddGenerated,
            message: "ALTER COLUMN ... ADD GENERATED is not supported in DSQL."@,
        },
        RefusalModel {
            first: "AddConstraint"@,
            second: "constraint"@,
            third: ""@,
            kind: "Check"@,
            word: "check"@,
            rule: LintRule::AtUnsupportedAddCheck,
            message: "ALTER TABLE ... ADD CHECK is not supported in DSQL."@,
        },
        RefusalModel {
            first: "AddConstraint"@,
            second: "constraint"@,
            third: ""@,
            kind: "PrimaryKey"@,
            word: "primary"@,
            rule: LintRule::AtUnsupportedAddPrimaryKey,
            message: "ALTER TABLE ... ADD PRIMARY KEY is not supported in DSQL."@,
        },
        RefusalModel {
            first: "AddConstraint"@,
            second: "constraint"@,
            third: ""@,
            kind: "Unique"@,
            word: "unique"@,
            rule: LintRule::AtUnsupportedAddUnique,
            message: "ALTER TABLE ... ADD UNIQUE is not supported in DSQL."@,
        },
        RefusalModel {
            first: "AddConstraint"@,
            second: "constraint"@,
            third: ""@,
            kind: "PrimaryKeyUsingIndex"@,
            word: "using"@,
            rule: LintRule::AtUnsupportedPrimaryKeyUsingIndex,
            message: "ALTER TABLE ... ADD PRIMARY KEY USING INDEX is not supported in DSQL."@,
        },
        RefusalModel {
            first: "AddConstraint"@,
            second: "constraint"@,
            third: ""@,
            kind: "UniqueUsingIndex"@,
            word: "using"@,
            rule: LintRule::AtUnsupportedUniqueUsingIndex,
            message: "ALTER TABLE ... ADD UNIQUE USING INDEX is not supported in DSQL."@,
        },
        RefusalModel {
            first: "AddColumn"@,
            second: "column_def"@,
            third: "data_type"@,
            kind: "Array"@,
            word: "column"@,
            rule: LintRule::ArrayType,
            message: "A column of an array type is not supported in DSQL."@,
        },
        RefusalModel {
            first: ""@,
            second: ""@,
            third: ""@,
            kind: "ValidateConstraint"@,
            word: "validate"@,
            rule: LintRule::ValidateConstraintAsync,
            message: "VALIDATE CONSTRAINT without ASYNC is not supported in DSQL."@,
        },
    ]
}

/// The operations of an `ALTER TABLE` that are refused.
pub fn operation_refusals() -> (r: Vec<Refusal>)
    ensures
        r@.map_values(|e: Refusal| e@) == operation_table(),
{
    let r = vec![
        Refusal {
            first: "",
            second: "",
            third: "",
            kind: "EnableRowLevelSecurity",
            word: "security",
            rule: LintRule::AtUnsupportedRowLevelSecurity,
            message: "ALTER TABLE ... ROW LEVEL SECURITY is not supported in DSQL.",
        },
        Refusal {
            first: "",
            second: "",
            third: "",
            kind: "DisableRowLevelSecurity",
            word: "security",
            rule: LintRule::AtUnsupportedRowLevelSecurity,
            message: "ALTER TABLE ... ROW LEVEL SECURITY is not supported in DSQL.",
        },
        Refusal {
            first: "",
            second: "",
            third: "",
            kind: "ForceRowLevelSecurity",
            word: "security",
            rule: LintRule::AtUnsupportedRowLevelSecurity,
            message: "ALTER TABLE ... ROW LEVEL SECURITY is not supported in DSQL.",
        },
        Refusal {
            first: "",
            second: "",
            third: "",
            kind: "NoForceRowLevelSecurity",
            word: "security",
            rule: LintRule::AtUnsupportedRowLevelSecurity,
            message: "ALTER TABLE ... ROW LEVEL SECURITY is not supported in DSQL.",
        },
        Refusal {
            first: "",
            second: "",
            third: "",
            kind: "ReplicaIdentity",
            word: "replica",
            rule: LintRule::AtUnsupportedReplicaIdentity,
            message: "ALTER TABLE ... REPLICA IDENTITY is not supported in DSQL.",
        },
        Refusal {
            first: "",
            second: "",
            third: "",
            kind: "EnableRule",
            word: "rule",
            rule: LintRule::AtUnsupportedRewriteRule,
            message: "ALTER TABLE ... RULE is not supported in DSQL.",
        },
        Refusal {
            first: "",
            second: "",
            third: "",
            kind: "DisableRule",
            word: "rule",
            rule: LintRule::AtUnsupportedRewriteRule,
            message: "ALTER TABLE ... RULE is not supported in DSQL.",
        },
        Refusal {
            first: "",
            second: "",
            third: "",
            kind: "EnableAlwaysRule",
            word: "rule",
            rule: LintRule::AtUnsupportedRewriteRule,
            message: "ALTER TABLE ... RULE is not supported in DSQL.",
        },
        Refusal {
            first: "",
            second: "",
            third: "",
            kind: "EnableReplicaRule",
            word: "rule",
            rule: LintRule::AtUnsupportedRewriteRule,
            message: "ALTER TABLE ... RULE is not supported in DSQL.",
        },
        Refusal {
            first: "AlterColumn",
            second: "op",
            third: "",
            kind: "SetDataType",
            word: "type",
            rule: LintRule::AtUnsupportedAlterColumnSetType,
            message: "ALTER COLUMN ... TYPE is not supported in DSQL.",
        },
        Refusal {
            first: "AlterColumn",
            second: "op",
            third: "",
            kind: "SetNotNull",
            word: "null",
            rule: LintRule::AtUnsupportedAlterColumnSetNotNull,
            message: "ALTER COLUMN ... SET NOT NULL is not supported in DSQL.",
        },
        Refusal {
            first: "AlterColumn",
            second: "op",
            third: "",
            kind: "AddGenerated",
            word: "generated",
            rule: LintRule::AtUnsupportedAlterColumnAddGenerated,
            message: "ALTER COLUMN ... ADD GENERATED is not supported in DSQL.",
        },
        Refusal {
            first: "AddConstraint",
            second: "constraint",
            third: "",
            kind: "Check",
            word: "check",
            rule: LintRule::AtUnsupportedAddCheck,
            message: "ALTER TABLE ... ADD CHECK is not supported in DSQL.",
        },
        Refusal {
            first: "AddConstraint",
            second: "constraint",
            third: "",
            kind: "PrimaryKey",
            word: "primary",
            rule: LintRule::AtUnsupportedAddPrimaryKey,
            message: "ALTER TABLE ... ADD PRIMARY KEY is not supported in DSQL.",
        },
        Refusal {
            first: "AddConstraint",
            second: "constraint",
            third: "",
            kind: "Unique",
            word: "unique",
            rule: LintRule::AtUnsupportedAddUnique,
            message: "ALTER TABLE ... ADD UNIQUE is not supported in DSQL.",
        },
        Refusal {
            first: "AddConstraint",
            second: "constraint",
            third: "",
            kind: "PrimaryKeyUsingIndex",
            word: "using",
            rule: LintRule::AtUnsupportedPrimaryKeyUsingIndex,
            message: "ALTER TABLE ... ADD PRIMARY KEY USING INDEX is not supported in DSQL.",
        },
        Refusal {
            first: "AddConstraint",
            second: "constraint",
            third: "",
            kind: "UniqueUsingIndex",
            word: "using",
            rule: LintRule::AtUnsupportedUniqueUsingIndex,
            message: "ALTER TABLE ... ADD UNIQUE USING INDEX is not supported in DSQL.",
        },
        Refusal {
            first: "AddColumn",
            second: "column_def",
            third: "data_type",
            kind: "Array",
            word: "column",
            rule: LintRule::ArrayType,
            message: "A column of an array type is not supported in DSQL.",
        },
        Refusal {
            first: "",
            second: "",
            third: "",
            kind: "ValidateConstraint",
            word: "validate",
            rule: LintRule::ValidateConstraintAsync,
            message: "VALIDATE CONSTRAINT without ASYNC is not supported in DSQL.",
        },
    ];
    proof {
        reveal(operation_table);
        assert(r@.map_values(|e: Refusal| e@) =~= operation_table());
    }
    r
}

/// The columns of a table that are refused.
#[verifier::opaque]
pub open spec fn column_table() -> Seq<RefusalModel> {
    seq![
        RefusalModel {
            first: "data_type"@,
            second: ""@,
            third: ""@,
            kind: "Array"@,
            word: "create"@,
            rule: LintRule::ArrayType,
            message: "A column of an array type is not supported in DSQL."@,
        },
    ]
}

/// The columns of a table that are refused.
pub fn column_refusals() -> (r: Vec<Refusal>)
    ensures
        r@.map_values(|e: Refusal| e@) == column_table(),
{
    let r = vec![
        Refusal {
            first: "data_type",
            second: "",
            third: "",
            kind: "Array",
            word: "create",
            rule: LintRule::ArrayType,
            message: "A column of an array type is not supported in DSQL.",
        },
    ];
    proof {
        reveal(column_table);
        assert(r@.map_values(|e: Refusal| e@) =~= column_table());
    }
    r
}

/// What a field is to be.
pub open spec fn neutral(mend: Mend) -> Tree {
    match mend {
        Mend::Null => Tree::Null,
        Mend::Down => Tree::Flag(false),
        Mend::Empty => Tree::List(seq![]),
        Mend::Bare => Tree::Text("None"@),
        Mend::Big => syntax::variant("BigInt"@, Tree::Null),
    }
}

/// Whether table options are a tablespace and nothing else.
pub open spec fn is_tablespace(v: Tree) -> bool {
    token::field(v, "Plain"@) matches Tree::List(options) && options.len() == 1
        && transactions::is_kind(options[0], "TableSpace"@)
}

/// Whether a field is not what it is to be.
pub open spec fn offends(mend: Mend, v: Tree) -> bool {
    match mend {
        Mend::Null => v != Tree::Null,
        Mend::Down => v == Tree::Flag(true),
        Mend::Empty => v matches Tree::List(items) && items.len() > 0,
        Mend::Bare => is_tablespace(v),
        Mend::Big => v != Tree::Null && !transactions::is_kind(v, "BigInt"@)
            && !transactions::is_kind(v, "Int8"@),
    }
}

/// Whether what is taken off an index says only that it is a B-tree.
pub open spec fn is_default_index(v: Tree) -> bool {
    v == Tree::Text("BTree"@) || (v matches Tree::List(items) && items.len() == 1 && token::field(
        items[0],
        "Using"@,
    ) == Tree::Text("BTree"@))
}

/// The field that a row speaks of.
pub open spec fn value_of(t: Tree, e: FieldModel) -> Option<Tree> {
    match syntax::member(t, e.kind) {
        Some(s) => syntax::member(s, e.field),
        None => None,
    }
}

/// Whether a row applies to a statement.
pub open spec fn applies(t: Tree, e: FieldModel) -> bool {
    value_of(t, e) matches Some(v) && offends(e.mend, v)
}

/// The report of a row on a field.
pub open spec fn field_report(
    e: FieldModel,
    v: Tree,
    raw: Seq<char>,
) -> diagnostic::DiagnosticView {
    diagnostic::DiagnosticView {
        rule: e.rule,
        line: errors::word_line(raw, e.word),
        statement: seq![],
        message: e.message,
        suggestion: e.suggestion,
        fix_result: match e.remedy {
            Remedy::Left => diagnostic::FixView::Unfixable,
            Remedy::Fixed => diagnostic::FixView::Fixed(e.done),
            Remedy::Judged if is_default_index(v) => diagnostic::FixView::Fixed(e.done),
            _ => diagnostic::FixView::FixedWithWarning(e.done),
        },
    }
}

/// The statement with the field of a row as it is to be.
pub open spec fn mended(t: Tree, e: FieldModel) -> Tree {
    syntax::with_member(
        t,
        e.kind,
        syntax::with_member(token::field(t, e.kind), e.field, neutral(e.mend)),
    )
}

/// What one row makes of a statement, and what it reports.
pub open spec fn row_rule(t: Tree, raw: Seq<char>, e: FieldModel) -> (
    Tree,
    Seq<diagnostic::DiagnosticView>,
) {
    if !applies(t, e) {
        (t, seq![])
    } else {
        (
            if e.remedy == Remedy::Left {
                t
            } else {
                mended(t, e)
            },
            seq![field_report(e, value_of(t, e)->Some_0, raw)],
        )
    }
}

/// What the rows make of a statement, one after the other, and what they report.
pub open spec fn rows_rule(t: Tree, raw: Seq<char>, es: Seq<FieldModel>) -> (
    Tree,
    Seq<diagnostic::DiagnosticView>,
)
    decreases es.len(),
{
    if es.len() == 0 {
        (t, seq![])
    } else {
        let before = rows_rule(t, raw, es.drop_last());
        let last = row_rule(before.0, raw, es.last());
        (last.0, before.1 + last.1)
    }
}

/// A statement without the fields that it is not to have, and the reports on them.
pub open spec fn field_rule(t: Tree, raw: Seq<char>) -> (Tree, Seq<diagnostic::DiagnosticView>) {
    rows_rule(t, raw, field_table())
}

/// What stands one step down; the same tree where the key is empty.
pub open spec fn step(t: Tree, key: Seq<char>) -> Tree {
    if key.len() == 0 {
        t
    } else {
        token::field(t, key)
    }
}

/// Whether a row speaks of a tree.
pub open spec fn is_refused(t: Tree, e: RefusalModel) -> bool {
    transactions::is_kind(step(step(step(t, e.first), e.second), e.third), e.kind)
}

/// The report of a row.
pub open spec fn refusal_report(e: RefusalModel, raw: Seq<char>) -> diagnostic::DiagnosticView {
    diagnostic::DiagnosticView {
        rule: e.rule,
        line: errors::word_line(raw, e.word),
        statement: seq![],
        message: e.message,
        suggestion: "Remove it, or do without it."@,
        fix_result: diagnostic::FixView::Unfixable,
    }
}

/// The reports on one tree.
pub open spec fn refusal_reports(t: Tree, raw: Seq<char>, es: Seq<RefusalModel>) -> Seq<
    diagnostic::DiagnosticView,
>
    decreases es.len(),
{
    if es.len() == 0 {
        seq![]
    } else {
        let before = refusal_reports(t, raw, es.drop_last());
        if is_refused(t, es.last()) {
            before.push(refusal_report(es.last(), raw))
        } else {
            before
        }
    }
}

/// The reports on some trees, one after the other.
pub open spec fn all_refusal_reports(ts: Seq<Tree>, raw: Seq<char>, es: Seq<RefusalModel>) -> Seq<
    diagnostic::DiagnosticView,
>
    decreases ts.len(),
{
    if ts.len() == 0 {
        seq![]
    } else {
        all_refusal_reports(ts.drop_last(), raw, es) + refusal_reports(ts.last(), raw, es)
    }
}

/// The reports on what is refused as it is: the statement itself, the operations of an
/// `ALTER TABLE` and the columns of a table.
pub open spec fn refused(t: Tree, raw: Seq<char>) -> Seq<diagnostic::DiagnosticView> {
    refusal_reports(t, raw, statement_table()) + all_refusal_reports(
        name_match::items_of(token::field(token::field(t, "AlterTable"@), "operations"@)),
        raw,
        operation_table(),
    ) + all_refusal_reports(
        name_match::items_of(token::field(token::field(t, "CreateTable"@), "columns"@)),
        raw,
        column_table(),
    )
}

fn reads_tablespace(v: &Value) -> (r: bool)
    ensures
        r == is_tablespace(syntax::tree(*v)),
{
    match get(v, "Plain") {
        Some(p) => match as_list(p) {
            Some(options) => {
                proof {
                    if options@.len() == 1 {
                        assert(syntax::trees(options@)[0] == syntax::tree(options@[0]));
                    }
                }
                options.len() == 1 && has_kind(&options[0], "TableSpace")
            },
            None => false,
        },
        None => false,
    }
}

fn reads_offence(mend: Mend, v: &Value) -> (r: bool)
    ensures
        r == offends(mend, syntax::tree(*v)),
{
    match mend {
        Mend::Null => !is_null(v),
        Mend::Down => match as_flag(v) {
            Some(b) => b,
            None => false,
        },
        Mend::Empty => match as_list(v) {
            Some(items) => items.len() > 0,
            None => false,
        },
        Mend::Bare => reads_tablespace(v),
        Mend::Big => !is_null(v) && !has_kind(v, "BigInt") && !has_kind(v, "Int8"),
    }
}

fn is_btree(v: &Value) -> (r: bool)
    ensures
        r == (syntax::tree(*v) == Tree::Text("BTree"@)),
{
    match as_text(v) {
        Some(s) => same(s, "BTree"),
        None => false,
    }
}

fn reads_default_index(v: &Value) -> (r: bool)
    ensures
        r == is_default_index(syntax::tree(*v)),
{
    if is_btree(v) {
        return true;
    }
    match as_list(v) {
        Some(items) => {
            if items.len() != 1 {
                return false;
            }
            proof {
                assert(syntax::trees(items@)[0] == syntax::tree(items@[0]));
            }
            match get(&items[0], "Using") {
                Some(kind) => is_btree(kind),
                None => false,
            }
        },
        None => false,
    }
}

fn make_neutral(mend: Mend) -> (r: Value)
    ensures
        syntax::tree(r) == neutral(mend),
{
    match mend {
        Mend::Null => null(),
        Mend::Down => flag(false),
        Mend::Empty => {
            let none: Vec<Value> = Vec::new();
            proof {
                assert(syntax::trees(none@) =~= seq![]);
            }
            list(none)
        },
        Mend::Bare => string("None"),
        Mend::Big => one("BigInt", null()),
    }
}

/// Applies one row to a statement.
pub fn check_row(stmt: &mut Value, raw: &str, e: &FieldRule, diagnostics: &mut Vec<Diagnostic>)
    ensures
        ({
            let r = row_rule(syntax::tree(*old(stmt)), raw@, e@);
            &&& syntax::tree(*final(stmt)) == r.0
            &&& diagnostic::reports(final(diagnostics)@) == diagnostic::reports(
                old(diagnostics)@,
            ) + r.1
        }),
{
    let ghost said = diagnostic::reports(diagnostics@);
    let ghost t = syntax::tree(*stmt);
    proof {
        assert(said + seq![] =~= said);
    }
    let mut inner = match get(stmt, e.kind) {
        Some(s) => copy(s),
        None => {
            return ;
        },
    };
    let (caught, plain) = match get(&inner, e.field) {
        Some(v) => (reads_offence(e.mend, v), reads_default_index(v)),
        None => (false, false),
    };
    if !caught {
        return ;
    }
    let fix_result = match e.remedy {
        Remedy::Left => FixResult::Unfixable,
        Remedy::Fixed => FixResult::Fixed(e.done.to_owned()),
        Remedy::Judged => if plain {
            FixResult::Fixed(e.done.to_owned())
        } else {
            FixResult::FixedWithWarning(e.done.to_owned())
        },
        Remedy::Warned => FixResult::FixedWithWarning(e.done.to_owned()),
    };
    let report = Diagnostic {
        rule: e.rule,
        line: find_line(raw, e.word),
        statement: String::new(),
        message: e.message.to_owned(),
        suggestion: e.suggestion.to_owned(),
        fix_result,
    };
    proof {
        assert(report.statement@ =~= seq![]);
        assert(report@ == field_report(e@, value_of(t, e@)->Some_0, raw@));
    }
    diagnostics.push(report);
    proof {
        assert(diagnostic::reports(diagnostics@) =~= said + seq![report@]);
    }
    match e.remedy {
        Remedy::Left => {},
        _ => {
            put(&mut inner, e.field, make_neutral(e.mend));
            put(stmt, e.kind, inner);
        },
    }
}

/// Takes the fields off a statement that it is not to have.
pub fn check_fields(stmt: &mut Value, raw: &str, diagnostics: &mut Vec<Diagnostic>)
    ensures
        ({
            let r = field_rule(syntax::tree(*old(stmt)), raw@);
            &&& syntax::tree(*final(stmt)) == r.0
            &&& diagnostic::reports(final(diagnostics)@) == diagnostic::reports(
                old(diagnostics)@,
            ) + r.1
        }),
{
    let ghost start = syntax::tree(*stmt);
    let ghost said = diagnostic::reports(diagnostics@);
    let rows = field_rules();
    let ghost es = field_table();
    let mut i: usize = 0;
    proof {
        assert(es.take(0) =~= seq![]);
        assert(said + seq![] =~= said);
    }
    while i < rows.len()
        invariant
            i <= rows@.len(),
            es == rows@.map_values(|e: FieldRule| e@),
            syntax::tree(*stmt) == rows_rule(start, raw@, es.take(i as int)).0,
            diagnostic::reports(diagnostics@) == said + rows_rule(
                start,
                raw@,
                es.take(i as int),
            ).1,
        decreases rows@.len() - i,
    {
        let ghost before = rows_rule(start, raw@, es.take(i as int));
        proof {
            assert(es.take(i + 1).drop_last() =~= es.take(i as int));
            assert(es.take(i + 1).last() == rows@[i as int]@);
        }
        check_row(stmt, raw, &rows[i], diagnostics);
        proof {
            let last = row_rule(before.0, raw@, es[i as int]);
            assert((said + before.1) + last.1 =~= said + (before.1 + last.1));
        }
        i += 1;
    }
    proof {
        assert(es.take(i as int) =~= es);
    }
}

fn take_step<'a>(v: &'a Value, key: &str) -> (r: Option<&'a Value>)
    ensures
        match r {
            Some(f) => syntax::tree(*f) == step(syntax::tree(*v), key@),
            None => step(syntax::tree(*v), key@) == Tree::Null,
        },
{
    if key.is_empty() {
        Some(v)
    } else {
        get(v, key)
    }
}

fn reads_refusal(v: &Value, e: &Refusal) -> (r: bool)
    ensures
        r == is_refused(syntax::tree(*v), e@),
{
    match take_step(v, e.first) {
        Some(a) => match take_step(a, e.second) {
            Some(b) => match take_step(b, e.third) {
                Some(c) => has_kind(c, e.kind),
                None => false,
            },
            None => false,
        },
        None => false,
    }
}

/// Reports on one tree by the rows of a table.
pub fn check_refusals(v: &Value, raw: &str, rows: &Vec<Refusal>, diagnostics: &mut Vec<Diagnostic>)
    ensures
        diagnostic::reports(final(diagnostics)@) == diagnostic::reports(old(diagnostics)@)
            + refusal_reports(syntax::tree(*v), raw@, rows@.map_values(|e: Refusal| e@)),
{
    let ghost said = diagnostic::reports(diagnostics@);
    let ghost es = rows@.map_values(|e: Refusal| e@);
    let ghost t = syntax::tree(*v);
    let mut i: usize = 0;
    proof {
        assert(es.take(0) =~= seq![]);
        assert(said + seq![] =~= said);
    }
    while i < rows.len()
        invariant
            i <= rows@.len(),
            es == rows@.map_values(|e: Refusal| e@),
            t == syntax::tree(*v),
            diagnostic::reports(diagnostics@) == said + refusal_reports(
                t,
                raw@,
                es.take(i as int),
            ),
        decreases rows@.len() - i,
    {
        proof {
            assert(es.take(i + 1).drop_last() =~= es.take(i as int));
            assert(es.take(i + 1).last() == rows@[i as int]@);
        }
        let e = &rows[i];
        if reads_refusal(v, e) {
            let ghost held = diagnostics@;
            let ghost told = refusal_reports(t, raw@, es.take(i as int));
            let report = Diagnostic {
                rule: e.rule,
                line: find_line(raw, e.word),
                statement: String::new(),
                message: e.message.to_owned(),
                suggestion: "Remove it, or do without it.".to_owned(),
                fix_result: FixResult::Unfixable,
            };
            proof {
                assert(report.statement@ =~= seq![]);
            }
            diagnostics.push(report);
            proof {
                assert(diagnostic::reports(diagnostics@) =~= diagnostic::reports(held).push(
                    report@,
                ));
                assert(said + told.push(report@) =~= (said + told).push(report@));
            }
        }
        i += 1;
    }
    proof {
        assert(es.take(i as int) =~= es);
    }
}

/// Reports on some trees by the rows of a table.
pub fn check_all_refusals(
    vs: &Vec<Value>,
    raw: &str,
    rows: &Vec<Refusal>,
    diagnostics: &mut Vec<Diagnostic>,
)
    ensures
        diagnostic::reports(final(diagnostics)@) == diagnostic::reports(old(diagnostics)@)
            + all_refusal_reports(
            syntax::trees(vs@),
            raw@,
            rows@.map_values(|e: Refusal| e@),
        ),
{
    let ghost said = diagnostic::reports(diagnostics@);
    let ghost es = rows@.map_values(|e: Refusal| e@);
    let ghost ts = syntax::trees(vs@);
    let mut i: usize = 0;
    proof {
        assert(ts.take(0) =~= seq![]);
        assert(said + seq![] =~= said);
    }
    while i < vs.len()
        invariant
            i <= vs@.len(),
            ts == syntax::trees(vs@),
            es == rows@.map_values(|e: Refusal| e@),
            diagnostic::reports(diagnostics@) == said + all_refusal_reports(
                ts.take(i as int),
                raw@,
                es,
            ),
        decreases vs@.len() - i,
    {
        let ghost before = all_refusal_reports(ts.take(i as int), raw@, es);
        proof {
            assert(ts.take(i + 1).drop_last() =~= ts.take(i as int));
            assert(ts.take(i + 1).last() == syntax::tree(vs@[i as int]));
        }
        check_refusals(&vs[i], raw, rows, diagnostics);
        proof {
            let last = refusal_reports(ts[i as int], raw@, es);
            assert((said + before) + last =~= said + (before + last));
        }
        i += 1;
    }
    proof {
        assert(ts.take(i as int) =~= ts);
    }
}

/// The items of a list two keys down; `None` where there is no such list.
fn items_at<'a>(v: &'a Value, kind: &str, key: &str) -> (r: Option<&'a Vec<Value>>)
    ensures
        name_match::items_of(token::field(token::field(syntax::tree(*v), kind@), key@))
            == match r {
            Some(items) => syntax::trees(items@),
            None => seq![],
        },
{
    match get(v, kind) {
        Some(s) => match get(s, key) {
            Some(f) => as_list(f),
            None => None,
        },
        None => None,
    }
}

/// Reports on what is refused as it is.
pub fn check_refused(stmt: &Value, raw: &str, diagnostics: &mut Vec<Diagnostic>)
    ensures
        diagnostic::reports(final(diagnostics)@) == diagnostic::reports(old(diagnostics)@)
            + refused(syntax::tree(*stmt), raw@),
{
    let ghost said = diagnostic::reports(diagnostics@);
    let statements = statement_refusals();
    check_refusals(stmt, raw, &statements, diagnostics);
    if let Some(operations) = items_at(stmt, "AlterTable", "operations") {
        check_all_refusals(operations, raw, &operation_refusals(), diagnostics);
    }
    if let Some(columns) = items_at(stmt, "CreateTable", "columns") {
        check_all_refusals(columns, raw, &column_refusals(), diagnostics);
    }
    proof {
        assert(diagnostic::reports(diagnostics@) =~= said + refused(syntax::tree(*stmt), raw@));
    }
}

/// Whether no two rows speak of one field.
pub open spec fn are_apart(es: Seq<FieldModel>) -> bool {
    forall|i: int, j: int|
        0 <= i < j < es.len() ==> (#[trigger] es[i]).kind != (#[trigger] es[j]).kind || es[i].field
            != es[j].field
}

/// A row touches no other field of a statement than its own.
pub proof fn lemma_row_keeps(
    t: Tree,
    raw: Seq<char>,
    e: FieldModel,
    kind: Seq<char>,
    key: Seq<char>,
)
    requires
        e.kind != kind || e.field != key,
    ensures
        (match syntax::member(row_rule(t, raw, e).0, kind) {
            Some(s) => syntax::member(s, key),
            None => None,
        }) == (match syntax::member(t, kind) {
            Some(s) => syntax::member(s, key),
            None => None,
        }),
        syntax::member(row_rule(t, raw, e).0, kind) is Some == syntax::member(t, kind) is Some,
        e.kind != kind ==> syntax::member(row_rule(t, raw, e).0, kind) == syntax::member(t, kind),
{
}

/// Behind the rows no field is left that one of them mends.
pub proof fn lemma_rows_settle(t: Tree, raw: Seq<char>, es: Seq<FieldModel>)
    requires
        are_apart(es),
    ensures
        forall|i: int|
            0 <= i < es.len() && (#[trigger] es[i]).remedy != Remedy::Left ==> !applies(
                rows_rule(t, raw, es).0,
                es[i],
            ),
    decreases es.len(),
{
    if es.len() > 0 {
        let front = es.drop_last();
        let last = es.last();
        let before = rows_rule(t, raw, front).0;
        assert(es[es.len() - 1] == last);
        assert forall|i: int, j: int| 0 <= i < j < front.len() implies (#[trigger] front[i]).kind
            != (#[trigger] front[j]).kind || front[i].field != front[j].field by {
            assert(front[i] == es[i] && front[j] == es[j]);
        }
        lemma_rows_settle(t, raw, front);
        assert forall|i: int|
            0 <= i < es.len() && (#[trigger] es[i]).remedy != Remedy::Left implies !applies(
            rows_rule(t, raw, es).0,
            es[i],
        ) by {
            if i < front.len() {
                assert(front[i] == es[i]);
                assert(es[i].kind != es[es.len() - 1].kind || es[i].field != es[es.len()
                    - 1].field);
                lemma_row_keeps(before, raw, last, es[i].kind, es[i].field);
            } else if applies(before, last) {
                assert(value_of(mended(before, last), last) == Some(neutral(last.mend)));
            }
        }
    }
}

/// Where no row that mends applies, the rows change nothing, and report nothing as fixed.
pub proof fn lemma_rows_rest(t: Tree, raw: Seq<char>, es: Seq<FieldModel>)
    requires
        forall|i: int|
            0 <= i < es.len() && (#[trigger] es[i]).remedy != Remedy::Left ==> !applies(t, es[i]),
    ensures
        rows_rule(t, raw, es).0 == t,
        forall|k: int|
            0 <= k < rows_rule(t, raw, es).1.len() ==> (#[trigger] rows_rule(
                t,
                raw,
                es,
            ).1[k]).fix_result is Unfixable,
    decreases es.len(),
{
    if es.len() > 0 {
        let front = es.drop_last();
        assert forall|i: int|
            0 <= i < front.len() && (#[trigger] front[i]).remedy != Remedy::Left implies !applies(
            t,
            front[i],
        ) by {
            assert(front[i] == es[i]);
        }
        lemma_rows_rest(t, raw, front);
        assert(es[es.len() - 1] == es.last());
    }
}

/// Where nothing is reported as fixed, no row that mends applies.
pub proof fn lemma_rows_silent(t: Tree, raw: Seq<char>, es: Seq<FieldModel>)
    requires
        forall|k: int|
            0 <= k < rows_rule(t, raw, es).1.len() ==> (#[trigger] rows_rule(
                t,
                raw,
                es,
            ).1[k]).fix_result is Unfixable,
    ensures
        rows_rule(t, raw, es).0 == t,
    decreases es.len(),
{
    if es.len() > 0 {
        let front = es.drop_last();
        let before = rows_rule(t, raw, front);
        let last = row_rule(before.0, raw, es.last());
        let all = rows_rule(t, raw, es).1;
        assert forall|k: int| 0 <= k < before.1.len() implies (
        #[trigger] before.1[k]).fix_result is Unfixable by {
            assert(all[k] == before.1[k]);
        }
        lemma_rows_silent(t, raw, front);
        if last.1.len() > 0 {
            assert(all[before.1.len() as int] == last.1[0]);
        }
    }
}

/// Where no row applies, nothing changes and nothing is reported.
pub proof fn lemma_no_rows_apply(t: Tree, raw: Seq<char>, es: Seq<FieldModel>)
    requires
        forall|i: int| 0 <= i < es.len() ==> !applies(t, #[trigger] es[i]),
    ensures
        rows_rule(t, raw, es) == (t, Seq::<diagnostic::DiagnosticView>::empty()),
    decreases es.len(),
{
    if es.len() > 0 {
        let front = es.drop_last();
        assert forall|i: int| 0 <= i < front.len() implies !applies(t, #[trigger] front[i]) by {
            assert(front[i] == es[i]);
        }
        lemma_no_rows_apply(t, raw, front);
        assert(!applies(t, es[es.len() - 1]));
        assert(rows_rule(t, raw, es).1 =~= seq![]);
    }
}

/// A row that leaves what it finds reports it, wherever it stands among the others.
pub proof fn lemma_left_row_is_reported(t: Tree, raw: Seq<char>, es: Seq<FieldModel>, at: int)
    requires
        are_apart(es),
        0 <= at < es.len(),
        es[at].remedy == Remedy::Left,
        applies(rows_rule(t, raw, es).0, es[at]),
    ensures
        exists|k: int|
            0 <= k < rows_rule(t, raw, es).1.len() && (#[trigger] rows_rule(
                t,
                raw,
                es,
            ).1[k]).fix_result is Unfixable,
    decreases es.len(),
{
    let front = es.drop_last();
    let last = es.last();
    let before = rows_rule(t, raw, front);
    let all = rows_rule(t, raw, es).1;
    assert(es[es.len() - 1] == last);
    if at < front.len() {
        assert(front[at] == es[at]);
        assert forall|i: int, j: int| 0 <= i < j < front.len() implies (#[trigger] front[i]).kind
            != (#[trigger] front[j]).kind || front[i].field != front[j].field by {
            assert(front[i] == es[i] && front[j] == es[j]);
        }
        assert(es[at].kind != es[es.len() - 1].kind || es[at].field != es[es.len() - 1].field);
        lemma_row_keeps(before.0, raw, last, es[at].kind, es[at].field);
        lemma_left_row_is_reported(t, raw, front, at);
        let k = choose|k: int|
            0 <= k < before.1.len() && (#[trigger] before.1[k]).fix_result is Unfixable;
        assert(all[k] == before.1[k]);
    } else {
        assert(rows_rule(t, raw, es).0 == before.0);
        assert(all[before.1.len() as int].fix_result is Unfixable);
    }
}

proof fn lemma_refusals_fix_nothing(t: Tree, raw: Seq<char>, es: Seq<RefusalModel>)
    ensures
        forall|k: int|
            0 <= k < refusal_reports(t, raw, es).len() ==> (#[trigger] refusal_reports(
                t,
                raw,
                es,
            )[k]).fix_result is Unfixable,
    decreases es.len(),
{
    if es.len() > 0 {
        lemma_refusals_fix_nothing(t, raw, es.drop_last());
    }
}

proof fn lemma_all_refusals_fix_nothing(ts: Seq<Tree>, raw: Seq<char>, es: Seq<RefusalModel>)
    ensures
        forall|k: int|
            0 <= k < all_refusal_reports(ts, raw, es).len() ==> (#[trigger] all_refusal_reports(
                ts,
                raw,
                es,
            )[k]).fix_result is Unfixable,
    decreases ts.len(),
{
    if ts.len() > 0 {
        let before = all_refusal_reports(ts.drop_last(), raw, es);
        let last = refusal_reports(ts.last(), raw, es);
        lemma_all_refusals_fix_nothing(ts.drop_last(), raw, es);
        lemma_refusals_fix_nothing(ts.last(), raw, es);
        let all = all_refusal_reports(ts, raw, es);
        assert forall|k: int| 0 <= k < all.len() implies (#[trigger] all[k]).fix_result
            is Unfixable by {
            if k < before.len() {
                assert(all[k] == before[k]);
            } else {
                assert(all[k] == last[k - before.len()]);
            }
        }
    }
}

/// What is refused as it is, is reported as something that nothing fixes.
pub proof fn lemma_refused_is_unfixed(t: Tree, raw: Seq<char>)
    ensures
        forall|k: int|
            0 <= k < refused(t, raw).len() ==> (#[trigger] refused(t, raw)[k]).fix_result
                is Unfixable,
{
    let a = refusal_reports(t, raw, statement_table());
    let ops = name_match::items_of(token::field(token::field(t, "AlterTable"@), "operations"@));
    let columns = name_match::items_of(token::field(token::field(t, "CreateTable"@), "columns"@));
    let b = all_refusal_reports(ops, raw, operation_table());
    let c = all_refusal_reports(columns, raw, column_table());
    lemma_refusals_fix_nothing(t, raw, statement_table());
    lemma_all_refusals_fix_nothing(ops, raw, operation_table());
    lemma_all_refusals_fix_nothing(columns, raw, column_table());
    let all = refused(t, raw);
    assert forall|k: int| 0 <= k < all.len() implies (#[trigger] all[k]).fix_result
        is Unfixable by {
        if k < a.len() {
            assert(all[k] == a[k]);
        } else if k < a.len() + b.len() {
            assert(all[k] == b[k - a.len()]);
        } else {
            assert(all[k] == c[k - a.len() - b.len()]);
        }
    }
}

/// Whether no row of a table speaks of one of the trees.
pub open spec fn none_refused(ts: Seq<Tree>, es: Seq<RefusalModel>) -> bool {
    forall|i: int, j: int|
        0 <= i < ts.len() && 0 <= j < es.len() ==> !is_refused(#[trigger] ts[i], #[trigger] es[j])
}

/// Whether nothing in a statement is refused as it is.
pub open spec fn is_taken(t: Tree) -> bool {
    &&& none_refused(seq![t], statement_table())
    &&& none_refused(
        name_match::items_of(token::field(token::field(t, "AlterTable"@), "operations"@)),
        operation_table(),
    )
    &&& none_refused(
        name_match::items_of(token::field(token::field(t, "CreateTable"@), "columns"@)),
        column_table(),
    )
}

proof fn lemma_not_reported(t: Tree, raw: Seq<char>, es: Seq<RefusalModel>)
    ensures
        refusal_reports(t, raw, es).len() == 0 <==> none_refused(seq![t], es),
    decreases es.len(),
{
    let ts = seq![t];
    assert(ts[0] == t);
    if es.len() > 0 {
        let front = es.drop_last();
        lemma_not_reported(t, raw, front);
        assert(es.last() == es[es.len() - 1]);
        if refusal_reports(t, raw, es).len() == 0 {
            assert forall|i: int, j: int| 0 <= i < ts.len() && 0 <= j < es.len() implies !is_refused(
                #[trigger] ts[i],
                #[trigger] es[j],
            ) by {
                if j < front.len() {
                    assert(front[j] == es[j]);
                }
            }
        }
        if none_refused(ts, es) {
            assert(!is_refused(ts[0], es[es.len() - 1]));
            assert forall|i: int, j: int|
                0 <= i < ts.len() && 0 <= j < front.len() implies !is_refused(
                #[trigger] ts[i],
                #[trigger] front[j],
            ) by {
                assert(front[j] == es[j]);
            }
        }
    }
}

proof fn lemma_none_reported(ts: Seq<Tree>, raw: Seq<char>, es: Seq<RefusalModel>)
    ensures
        all_refusal_reports(ts, raw, es).len() == 0 <==> none_refused(ts, es),
    decreases ts.len(),
{
    if ts.len() > 0 {
        let front = ts.drop_last();
        let last = seq![ts.last()];
        lemma_none_reported(front, raw, es);
        lemma_not_reported(ts.last(), raw, es);
        assert(ts.last() == ts[ts.len() - 1] && last[0] == ts.last());
        if all_refusal_reports(ts, raw, es).len() == 0 {
            assert forall|i: int, j: int| 0 <= i < ts.len() && 0 <= j < es.len() implies !is_refused(
                #[trigger] ts[i],
                #[trigger] es[j],
            ) by {
                if i < front.len() {
                    assert(front[i] == ts[i]);
                } else {
                    assert(!is_refused(last[0], es[j]));
                }
            }
        }
        if none_refused(ts, es) {
            assert forall|i: int, j: int|
                0 <= i < front.len() && 0 <= j < es.len() implies !is_refused(
                #[trigger] front[i],
                #[trigger] es[j],
            ) by {
                assert(front[i] == ts[i]);
            }
            assert forall|i: int, j: int|
                0 <= i < last.len() && 0 <= j < es.len() implies !is_refused(
                #[trigger] last[i],
                #[trigger] es[j],
            ) by {
                assert(!is_refused(ts[ts.len() - 1], es[j]));
            }
        }
    }
}

/// What is taken is not reported, and what is not taken is.
pub proof fn lemma_taken_is_not_reported(t: Tree, raw: Seq<char>)
    ensures
        is_taken(t) <==> refused(t, raw).len() == 0,
{
    lemma_not_reported(t, raw, statement_table());
    lemma_none_reported(
        name_match::items_of(token::field(token::field(t, "AlterTable"@), "operations"@)),
        raw,
        operation_table(),
    );
    lemma_none_reported(
        name_match::items_of(token::field(token::field(t, "CreateTable"@), "columns"@)),
        raw,
        column_table(),
    );
}

/// Where the rows report nothing, none of them applies.
pub proof fn lemma_silent_rows(t: Tree, raw: Seq<char>, es: Seq<FieldModel>)
    requires
        rows_rule(t, raw, es).1.len() == 0,
    ensures
        rows_rule(t, raw, es).0 == t,
        forall|i: int| 0 <= i < es.len() ==> !applies(t, #[trigger] es[i]),
    decreases es.len(),
{
    if es.len() > 0 {
        let front = es.drop_last();
        lemma_silent_rows(t, raw, front);
        assert forall|i: int| 0 <= i < es.len() implies !applies(t, #[trigger] es[i]) by {
            if i < front.len() {
                assert(front[i] == es[i]);
            } else {
                assert(es[i] == es.last());
            }
        }
    }
}

/// Nothing in a commit is refused or taken off, and the rules rewrite none.
pub proof fn lemma_commit_is_taken(value: Tree)
    ensures
        is_taken(syntax::variant("Commit"@, value)),
        forall|i: int|
            0 <= i < field_table().len() ==> !applies(
                syntax::variant("Commit"@, value),
                #[trigger] field_table()[i],
            ),
        "AlterTable"@ != "Commit"@,
        "CreateTable"@ != "Commit"@,
        "CreateIndex"@ != "Commit"@,
        "CreateSequence"@ != "Commit"@,
        "StartTransaction"@ != "Commit"@,
        "Truncate"@ != "Commit"@,
{
    reveal(field_table);
    reveal(statement_table);
    reveal_strlit("");
    assert(""@.len() == 0);
    reveal_strlit("AlterIndex");
    assert("AlterIndex"@.len() == 10);
    reveal_strlit("AlterPolicy");
    assert("AlterPolicy"@.len() == 11);
    reveal_strlit("AlterTable");
    assert("AlterTable"@.len() == 10);
    reveal_strlit("AlterType");
    assert("AlterType"@.len() == 9);
    reveal_strlit("Copy");
    assert("Copy"@.len() == 4);
    reveal_strlit("CreateDatabase");
    assert("CreateDatabase"@.len() == 14);
    reveal_strlit("CreateExtension");
    assert("CreateExtension"@.len() == 15);
    reveal_strlit("CreateIndex");
    assert("CreateIndex"@.len() == 11);
    reveal_strlit("CreatePolicy");
    assert("CreatePolicy"@.len() == 12);
    reveal_strlit("CreateProcedure");
    assert("CreateProcedure"@.len() == 15);
    reveal_strlit("CreateSequence");
    assert("CreateSequence"@.len() == 14);
    reveal_strlit("CreateServer");
    assert("CreateServer"@.len() == 12);
    reveal_strlit("CreateTable");
    assert("CreateTable"@.len() == 11);
    reveal_strlit("CreateTrigger");
    assert("CreateTrigger"@.len() == 13);
    reveal_strlit("CreateType");
    assert("CreateType"@.len() == 10);
    reveal_strlit("CreateView");
    assert("CreateView"@.len() == 10);
    reveal_strlit("Deallocate");
    assert("Deallocate"@.len() == 10);
    reveal_strlit("Declare");
    assert("Declare"@.len() == 7);
    reveal_strlit("Discard");
    assert("Discard"@.len() == 7);
    reveal_strlit("Drop");
    assert("Drop"@.len() == 4);
    reveal_strlit("DropPolicy");
    assert("DropPolicy"@.len() == 10);
    reveal_strlit("DropTrigger");
    assert("DropTrigger"@.len() == 11);
    reveal_strlit("File");
    assert("File"@.len() == 4);
    reveal_strlit("LISTEN");
    assert("LISTEN"@.len() == 6);
    reveal_strlit("Load");
    assert("Load"@.len() == 4);
    reveal_strlit("Lock");
    assert("Lock"@.len() == 4);
    reveal_strlit("LockTables");
    assert("LockTables"@.len() == 10);
    reveal_strlit("MaterializedView");
    assert("MaterializedView"@.len() == 16);
    reveal_strlit("NOTIFY");
    assert("NOTIFY"@.len() == 6);
    reveal_strlit("Prepare");
    assert("Prepare"@.len() == 7);
    reveal_strlit("Program");
    assert("Program"@.len() == 7);
    reveal_strlit("ReleaseSavepoint");
    assert("ReleaseSavepoint"@.len() == 16);
    reveal_strlit("Rollback");
    assert("Rollback"@.len() == 8);
    reveal_strlit("Savepoint");
    assert("Savepoint"@.len() == 9);
    reveal_strlit("Set");
    assert("Set"@.len() == 3);
    reveal_strlit("SetTransaction");
    assert("SetTransaction"@.len() == 14);
    reveal_strlit("StartTransaction");
    assert("StartTransaction"@.len() == 16);
    reveal_strlit("Truncate");
    assert("Truncate"@.len() == 8);
    reveal_strlit("Type");
    assert("Type"@.len() == 4);
    reveal_strlit("UNLISTEN");
    assert("UNLISTEN"@.len() == 8);
    reveal_strlit("Vacuum");
    assert("Vacuum"@.len() == 6);
    reveal_strlit("object_type");
    assert("object_type"@.len() == 11);
    reveal_strlit("target");
    assert("target"@.len() == 6);
    reveal_strlit("Commit");
    assert("Commit"@.len() == 6);
    assert("LISTEN"@[0] != "Commit"@[0]);
    assert("NOTIFY"@[0] != "Commit"@[0]);
    assert("Vacuum"@[0] != "Commit"@[0]);
    assert("target"@[0] != "Commit"@[0]);
    let t = syntax::variant("Commit"@, value);
    let ts = seq![t];
    assert forall|i: int, j: int|
        0 <= i < ts.len() && 0 <= j < statement_table().len() implies !is_refused(
        #[trigger] ts[i],
        #[trigger] statement_table()[j],
    ) by {
        let e = statement_table()[j];
        if e.first.len() > 0 {
            assert(e.first != "Commit"@);
            assert(step(t, e.first) == Tree::Null);
        } else {
            assert(e.kind != "Commit"@);
        }
    }
    assert(token::field(t, "AlterTable"@) == Tree::Null);
    assert(token::field(t, "CreateTable"@) == Tree::Null);
}

/// The row on constraints of a kind that are added.
pub proof fn lemma_added_constraint_row(kind: Kind) -> (i: int)
    ensures
        0 <= i < operation_table().len(),
        forall|op: Tree|
            syntax::member(
                token::field(token::field(op, "AddConstraint"@), "constraint"@),
                constraint_collapse::variant_name(kind),
            ) is Some ==> #[trigger] is_refused(op, operation_table()[i]),
{
    reveal(operation_table);
    reveal_strlit("");
    reveal_strlit("AddConstraint");
    reveal_strlit("constraint");
    assert(""@.len() == 0);
    assert("AddConstraint"@.len() == 13);
    assert("constraint"@.len() == 10);
    match kind {
        Kind::Unique => 14,
        Kind::PrimaryKey => 13,
    }
}

/// No two rows of the table speak of one field, none of the name or the columns of a table, of how
/// an index is built or of the options of a sequence, and none of an `ALTER TABLE` or of the
/// beginning of a transaction.
pub proof fn lemma_table_is_apart()
    ensures
        are_apart(field_table()),
        forall|i: int|
            0 <= i < field_table().len() ==> {
                let row = #[trigger] field_table()[i];
                &&& row.kind != "AlterTable"@
                &&& row.kind != "StartTransaction"@
                &&& row.field != "name"@
                &&& row.field != "columns"@
                &&& row.field != "async"@
                &&& row.field != "concurrently"@
                &&& row.field != "sequence_options"@
            },
{
    reveal(field_table);
    reveal_strlit("AlterTable");
    reveal_strlit("CreateIndex");
    reveal_strlit("CreateSequence");
    reveal_strlit("CreateTable");
    reveal_strlit("CreateView");
    reveal_strlit("Rollback");
    reveal_strlit("StartTransaction");
    reveal_strlit("async");
    reveal_strlit("columns");
    reveal_strlit("concurrently");
    reveal_strlit("data_type");
    reveal_strlit("index_options");
    reveal_strlit("inherits");
    reveal_strlit("materialized");
    reveal_strlit("name");
    reveal_strlit("partition_by");
    reveal_strlit("predicate");
    reveal_strlit("query");
    reveal_strlit("savepoint");
    reveal_strlit("sequence_options");
    reveal_strlit("table_options");
    reveal_strlit("temporary");
    reveal_strlit("using");
    assert("AlterTable"@.len() == 10);
    assert("CreateIndex"@.len() == 11);
    assert("CreateSequence"@.len() == 14);
    assert("CreateTable"@.len() == 11);
    assert("CreateView"@.len() == 10);
    assert("Rollback"@.len() == 8);
    assert("StartTransaction"@.len() == 16);
    assert("async"@.len() == 5);
    assert("columns"@.len() == 7);
    assert("concurrently"@.len() == 12);
    assert("data_type"@.len() == 9);
    assert("index_options"@.len() == 13);
    assert("inherits"@.len() == 8);
    assert("materialized"@.len() == 12);
    assert("name"@.len() == 4);
    assert("partition_by"@.len() == 12);
    assert("predicate"@.len() == 9);
    assert("query"@.len() == 5);
    assert("savepoint"@.len() == 9);
    assert("sequence_options"@.len() == 16);
    assert("table_options"@.len() == 13);
    assert("temporary"@.len() == 9);
    assert("using"@.len() == 5);
    assert("AlterTable"@[0] != "CreateView"@[0]);
    assert("CreateIndex"@[6] != "CreateTable"@[6]);
    assert("async"@[0] != "query"@[0]);
    assert("async"@[0] != "using"@[0]);
    assert("concurrently"@[0] != "materialized"@[0]);
    assert("concurrently"@[0] != "partition_by"@[0]);
    assert("data_type"@[0] != "predicate"@[0]);
    assert("data_type"@[0] != "savepoint"@[0]);
    assert("data_type"@[0] != "temporary"@[0]);
    assert("index_options"@[0] != "table_options"@[0]);
    assert("materialized"@[0] != "partition_by"@[0]);
    assert("predicate"@[0] != "savepoint"@[0]);
    assert("predicate"@[0] != "temporary"@[0]);
    assert("query"@[0] != "using"@[0]);
    assert("savepoint"@[0] != "temporary"@[0]);
}

} // verus!
