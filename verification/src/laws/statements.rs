//! What the rules on one statement owe: which statements they report, under which rule, and what
//! they change.

use vstd::prelude::*;

use crate::diagnostic::{self, LintRule};
use crate::mysql::literal;
use crate::rules::{errors, name_match, options, refusals, serial_idiom};
use crate::shapes;
use crate::syntax::{self, Tree};
use crate::text;
use crate::token;
use crate::transactions;

verus! {

/// Whether a statement is reported under a rule.
pub open spec fn reported(t: Tree, raw: Seq<char>, rule: LintRule) -> bool {
    exists|i: int|
        0 <= i < errors::ruled(t, raw).1.len() && (#[trigger] errors::ruled(t, raw).1[i]).rule
            == rule
}

/// Whether a statement is reported under a rule as something that is left.
pub open spec fn refused(t: Tree, raw: Seq<char>, rule: LintRule) -> bool {
    exists|i: int|
        0 <= i < errors::ruled(t, raw).1.len() && (#[trigger] errors::ruled(t, raw).1[i]).rule
            == rule && errors::ruled(t, raw).1[i].fix_result is Unfixable
}

/// Whether a statement is reported under a rule as something that was rewritten.
pub open spec fn rewritten(t: Tree, raw: Seq<char>, rule: LintRule) -> bool {
    exists|i: int|
        0 <= i < errors::ruled(t, raw).1.len() && (#[trigger] errors::ruled(t, raw).1[i]).rule
            == rule && !(errors::ruled(t, raw).1[i].fix_result is Unfixable)
}

/// What the rules make of a statement.
pub open spec fn made(t: Tree, raw: Seq<char>) -> Tree {
    errors::ruled(t, raw).0
}

/// A field of what a statement of a kind holds.
pub open spec fn part(t: Tree, kind: Seq<char>, key: Seq<char>) -> Option<Tree> {
    syntax::member(token::field(t, kind), key)
}

/// The operations of an `ALTER TABLE`.
pub open spec fn operations_of(t: Tree) -> Seq<Tree> {
    name_match::items_of(token::field(token::field(t, "AlterTable"@), "operations"@))
}

/// The columns of a `CREATE TABLE`.
pub open spec fn columns_of(t: Tree) -> Seq<Tree> {
    name_match::items_of(token::field(token::field(t, "CreateTable"@), "columns"@))
}

/// The names of kinds and fields differ.
proof fn lemma_names()
    ensures
        "AddColumn"@.len() == 9,
        "AddConstraint"@.len() == 13,
        "AddGenerated"@.len() == 12,
        "AlterColumn"@.len() == 11,
        "AlterIndex"@.len() == 10,
        "AlterPolicy"@.len() == 11,
        "AlterTable"@.len() == 10,
        "AlterType"@.len() == 9,
        "Array"@.len() == 5,
        "BTree"@.len() == 5,
        "BigInt"@.len() == 6,
        "Cache"@.len() == 5,
        "Check"@.len() == 5,
        "Copy"@.len() == 4,
        "CreateDatabase"@.len() == 14,
        "CreateExtension"@.len() == 15,
        "CreateIndex"@.len() == 11,
        "CreatePolicy"@.len() == 12,
        "CreateProcedure"@.len() == 15,
        "CreateSequence"@.len() == 14,
        "CreateServer"@.len() == 12,
        "CreateTable"@.len() == 11,
        "CreateTrigger"@.len() == 13,
        "CreateType"@.len() == 10,
        "CreateView"@.len() == 10,
        "Custom"@.len() == 6,
        "Deallocate"@.len() == 10,
        "Declare"@.len() == 7,
        "Default"@.len() == 7,
        "DisableRowLevelSecurity"@.len() == 23,
        "DisableRule"@.len() == 11,
        "Discard"@.len() == 7,
        "Drop"@.len() == 4,
        "DropPolicy"@.len() == 10,
        "DropTrigger"@.len() == 11,
        "EnableAlwaysRule"@.len() == 16,
        "EnableReplicaRule"@.len() == 17,
        "EnableRowLevelSecurity"@.len() == 22,
        "EnableRule"@.len() == 10,
        "File"@.len() == 4,
        "ForceRowLevelSecurity"@.len() == 21,
        "ForeignKey"@.len() == 10,
        "Generated"@.len() == 9,
        "Identifier"@.len() == 10,
        "IsolationLevel"@.len() == 14,
        "LISTEN"@.len() == 6,
        "Load"@.len() == 4,
        "Lock"@.len() == 4,
        "LockTables"@.len() == 10,
        "MaterializedView"@.len() == 16,
        "NOTIFY"@.len() == 6,
        "NoForceRowLevelSecurity"@.len() == 23,
        "NotNull"@.len() == 7,
        "Number"@.len() == 6,
        "Prepare"@.len() == 7,
        "PrimaryKey"@.len() == 10,
        "PrimaryKeyUsingIndex"@.len() == 20,
        "Program"@.len() == 7,
        "ReleaseSavepoint"@.len() == 16,
        "ReplicaIdentity"@.len() == 15,
        "Rollback"@.len() == 8,
        "Savepoint"@.len() == 9,
        "Set"@.len() == 3,
        "SetDataType"@.len() == 11,
        "SetNotNull"@.len() == 10,
        "SetTransaction"@.len() == 14,
        "StartTransaction"@.len() == 16,
        "StartWith"@.len() == 9,
        "Truncate"@.len() == 8,
        "Type"@.len() == 4,
        "UNLISTEN"@.len() == 8,
        "Unique"@.len() == 6,
        "UniqueUsingIndex"@.len() == 16,
        "Using"@.len() == 5,
        "Vacuum"@.len() == 6,
        "ValidateConstraint"@.len() == 18,
        "Value"@.len() == 5,
        "async"@.len() == 5,
        "column_def"@.len() == 10,
        "columns"@.len() == 7,
        "concurrently"@.len() == 12,
        "constraint"@.len() == 10,
        "data_type"@.len() == 9,
        "generated_as"@.len() == 12,
        "generated_keyword"@.len() == 17,
        "generation_expr"@.len() == 15,
        "generation_expr_mode"@.len() == 20,
        "index_options"@.len() == 13,
        "inherits"@.len() == 8,
        "materialized"@.len() == 12,
        "modes"@.len() == 5,
        "name"@.len() == 4,
        "not_valid"@.len() == 9,
        "object_type"@.len() == 11,
        "op"@.len() == 2,
        "operations"@.len() == 10,
        "option"@.len() == 6,
        "options"@.len() == 7,
        "partition_by"@.len() == 12,
        "predicate"@.len() == 9,
        "query"@.len() == 5,
        "savepoint"@.len() == 9,
        "sequence_options"@.len() == 16,
        "span"@.len() == 4,
        "table_options"@.len() == 13,
        "target"@.len() == 6,
        "temporary"@.len() == 9,
        "unique"@.len() == 6,
        "using"@.len() == 5,
        "value"@.len() == 5,
        "AddColumn"@ != "AlterType"@,
        "AddColumn"@ != "Generated"@,
        "AddColumn"@ != "Savepoint"@,
        "AddColumn"@ != "StartWith"@,
        "AddColumn"@ != "data_type"@,
        "AddColumn"@ != "not_valid"@,
        "AddColumn"@ != "predicate"@,
        "AddColumn"@ != "savepoint"@,
        "AddColumn"@ != "temporary"@,
        "AddConstraint"@ != "CreateTrigger"@,
        "AddConstraint"@ != "index_options"@,
        "AddConstraint"@ != "table_options"@,
        "AddGenerated"@ != "CreatePolicy"@,
        "AddGenerated"@ != "CreateServer"@,
        "AddGenerated"@ != "concurrently"@,
        "AddGenerated"@ != "generated_as"@,
        "AddGenerated"@ != "materialized"@,
        "AddGenerated"@ != "partition_by"@,
        "AlterColumn"@ != "AlterPolicy"@,
        "AlterColumn"@ != "CreateIndex"@,
        "AlterColumn"@ != "CreateTable"@,
        "AlterColumn"@ != "DisableRule"@,
        "AlterColumn"@ != "DropTrigger"@,
        "AlterColumn"@ != "SetDataType"@,
        "AlterColumn"@ != "object_type"@,
        "AlterIndex"@ != "AlterTable"@,
        "AlterIndex"@ != "CreateType"@,
        "AlterIndex"@ != "CreateView"@,
        "AlterIndex"@ != "Deallocate"@,
        "AlterIndex"@ != "DropPolicy"@,
        "AlterIndex"@ != "EnableRule"@,
        "AlterIndex"@ != "ForeignKey"@,
        "AlterIndex"@ != "Identifier"@,
        "AlterIndex"@ != "LockTables"@,
        "AlterIndex"@ != "PrimaryKey"@,
        "AlterIndex"@ != "SetNotNull"@,
        "AlterIndex"@ != "column_def"@,
        "AlterIndex"@ != "constraint"@,
        "AlterIndex"@ != "operations"@,
        "AlterPolicy"@ != "CreateIndex"@,
        "AlterPolicy"@ != "CreateTable"@,
        "AlterPolicy"@ != "DisableRule"@,
        "AlterPolicy"@ != "DropTrigger"@,
        "AlterPolicy"@ != "SetDataType"@,
        "AlterPolicy"@ != "object_type"@,
        "AlterTable"@ != "CreateType"@,
        "AlterTable"@ != "CreateView"@,
        "AlterTable"@ != "Deallocate"@,
        "AlterTable"@ != "DropPolicy"@,
        "AlterTable"@ != "EnableRule"@,
        "AlterTable"@ != "ForeignKey"@,
        "AlterTable"@ != "Identifier"@,
        "AlterTable"@ != "LockTables"@,
        "AlterTable"@ != "PrimaryKey"@,
        "AlterTable"@ != "SetNotNull"@,
        "AlterTable"@ != "column_def"@,
        "AlterTable"@ != "constraint"@,
        "AlterTable"@ != "operations"@,
        "AlterType"@ != "Generated"@,
        "AlterType"@ != "Savepoint"@,
        "AlterType"@ != "StartWith"@,
        "AlterType"@ != "data_type"@,
        "AlterType"@ != "not_valid"@,
        "AlterType"@ != "predicate"@,
        "AlterType"@ != "savepoint"@,
        "AlterType"@ != "temporary"@,
        "Array"@ != "BTree"@,
        "Array"@ != "Cache"@,
        "Array"@ != "Check"@,
        "Array"@ != "Using"@,
        "Array"@ != "Value"@,
        "Array"@ != "async"@,
        "Array"@ != "modes"@,
        "Array"@ != "query"@,
        "Array"@ != "using"@,
        "Array"@ != "value"@,
        "BTree"@ != "Cache"@,
        "BTree"@ != "Check"@,
        "BTree"@ != "Using"@,
        "BTree"@ != "Value"@,
        "BTree"@ != "async"@,
        "BTree"@ != "modes"@,
        "BTree"@ != "query"@,
        "BTree"@ != "using"@,
        "BTree"@ != "value"@,
        "BigInt"@ != "Custom"@,
        "BigInt"@ != "LISTEN"@,
        "BigInt"@ != "NOTIFY"@,
        "BigInt"@ != "Number"@,
        "BigInt"@ != "Unique"@,
        "BigInt"@ != "Vacuum"@,
        "BigInt"@ != "option"@,
        "BigInt"@ != "target"@,
        "BigInt"@ != "unique"@,
        "Cache"@ != "Check"@,
        "Cache"@ != "Using"@,
        "Cache"@ != "Value"@,
        "Cache"@ != "async"@,
        "Cache"@ != "modes"@,
        "Cache"@ != "query"@,
        "Cache"@ != "using"@,
        "Cache"@ != "value"@,
        "Check"@ != "Using"@,
        "Check"@ != "Value"@,
        "Check"@ != "async"@,
        "Check"@ != "modes"@,
        "Check"@ != "query"@,
        "Check"@ != "using"@,
        "Check"@ != "value"@,
        "Copy"@ != "Drop"@,
        "Copy"@ != "File"@,
        "Copy"@ != "Load"@,
        "Copy"@ != "Lock"@,
        "Copy"@ != "Type"@,
        "Copy"@ != "name"@,
        "Copy"@ != "span"@,
        "CreateDatabase"@ != "CreateSequence"@,
        "CreateDatabase"@ != "IsolationLevel"@,
        "CreateDatabase"@ != "SetTransaction"@,
        "CreateExtension"@ != "CreateProcedure"@,
        "CreateExtension"@ != "ReplicaIdentity"@,
        "CreateExtension"@ != "generation_expr"@,
        "CreateIndex"@ != "CreateTable"@,
        "CreateIndex"@ != "DisableRule"@,
        "CreateIndex"@ != "DropTrigger"@,
        "CreateIndex"@ != "SetDataType"@,
        "CreateIndex"@ != "object_type"@,
        "CreatePolicy"@ != "CreateServer"@,
        "CreatePolicy"@ != "concurrently"@,
        "CreatePolicy"@ != "generated_as"@,
        "CreatePolicy"@ != "materialized"@,
        "CreatePolicy"@ != "partition_by"@,
        "CreateProcedure"@ != "ReplicaIdentity"@,
        "CreateProcedure"@ != "generation_expr"@,
        "CreateSequence"@ != "IsolationLevel"@,
        "CreateSequence"@ != "SetTransaction"@,
        "CreateServer"@ != "concurrently"@,
        "CreateServer"@ != "generated_as"@,
        "CreateServer"@ != "materialized"@,
        "CreateServer"@ != "partition_by"@,
        "CreateTable"@ != "DisableRule"@,
        "CreateTable"@ != "DropTrigger"@,
        "CreateTable"@ != "SetDataType"@,
        "CreateTable"@ != "object_type"@,
        "CreateTrigger"@ != "index_options"@,
        "CreateTrigger"@ != "table_options"@,
        "CreateType"@ != "CreateView"@,
        "CreateType"@ != "Deallocate"@,
        "CreateType"@ != "DropPolicy"@,
        "CreateType"@ != "EnableRule"@,
        "CreateType"@ != "ForeignKey"@,
        "CreateType"@ != "Identifier"@,
        "CreateType"@ != "LockTables"@,
        "CreateType"@ != "PrimaryKey"@,
        "CreateType"@ != "SetNotNull"@,
        "CreateType"@ != "column_def"@,
        "CreateType"@ != "constraint"@,
        "CreateType"@ != "operations"@,
        "CreateView"@ != "Deallocate"@,
        "CreateView"@ != "DropPolicy"@,
        "CreateView"@ != "EnableRule"@,
        "CreateView"@ != "ForeignKey"@,
        "CreateView"@ != "Identifier"@,
        "CreateView"@ != "LockTables"@,
        "CreateView"@ != "PrimaryKey"@,
        "CreateView"@ != "SetNotNull"@,
        "CreateView"@ != "column_def"@,
        "CreateView"@ != "constraint"@,
        "CreateView"@ != "operations"@,
        "Custom"@ != "LISTEN"@,
        "Custom"@ != "NOTIFY"@,
        "Custom"@ != "Number"@,
        "Custom"@ != "Unique"@,
        "Custom"@ != "Vacuum"@,
        "Custom"@ != "option"@,
        "Custom"@ != "target"@,
        "Custom"@ != "unique"@,
        "Deallocate"@ != "DropPolicy"@,
        "Deallocate"@ != "EnableRule"@,
        "Deallocate"@ != "ForeignKey"@,
        "Deallocate"@ != "Identifier"@,
        "Deallocate"@ != "LockTables"@,
        "Deallocate"@ != "PrimaryKey"@,
        "Deallocate"@ != "SetNotNull"@,
        "Deallocate"@ != "column_def"@,
        "Deallocate"@ != "constraint"@,
        "Deallocate"@ != "operations"@,
        "Declare"@ != "Default"@,
        "Declare"@ != "Discard"@,
        "Declare"@ != "NotNull"@,
        "Declare"@ != "Prepare"@,
        "Declare"@ != "Program"@,
        "Declare"@ != "columns"@,
        "Declare"@ != "options"@,
        "Default"@ != "Discard"@,
        "Default"@ != "NotNull"@,
        "Default"@ != "Prepare"@,
        "Default"@ != "Program"@,
        "Default"@ != "columns"@,
        "Default"@ != "options"@,
        "DisableRowLevelSecurity"@ != "NoForceRowLevelSecurity"@,
        "DisableRule"@ != "DropTrigger"@,
        "DisableRule"@ != "SetDataType"@,
        "DisableRule"@ != "object_type"@,
        "Discard"@ != "NotNull"@,
        "Discard"@ != "Prepare"@,
        "Discard"@ != "Program"@,
        "Discard"@ != "columns"@,
        "Discard"@ != "options"@,
        "Drop"@ != "File"@,
        "Drop"@ != "Load"@,
        "Drop"@ != "Lock"@,
        "Drop"@ != "Type"@,
        "Drop"@ != "name"@,
        "Drop"@ != "span"@,
        "DropPolicy"@ != "EnableRule"@,
        "DropPolicy"@ != "ForeignKey"@,
        "DropPolicy"@ != "Identifier"@,
        "DropPolicy"@ != "LockTables"@,
        "DropPolicy"@ != "PrimaryKey"@,
        "DropPolicy"@ != "SetNotNull"@,
        "DropPolicy"@ != "column_def"@,
        "DropPolicy"@ != "constraint"@,
        "DropPolicy"@ != "operations"@,
        "DropTrigger"@ != "SetDataType"@,
        "DropTrigger"@ != "object_type"@,
        "EnableAlwaysRule"@ != "MaterializedView"@,
        "EnableAlwaysRule"@ != "ReleaseSavepoint"@,
        "EnableAlwaysRule"@ != "StartTransaction"@,
        "EnableAlwaysRule"@ != "UniqueUsingIndex"@,
        "EnableAlwaysRule"@ != "sequence_options"@,
        "EnableReplicaRule"@ != "generated_keyword"@,
        "EnableRule"@ != "ForeignKey"@,
        "EnableRule"@ != "Identifier"@,
        "EnableRule"@ != "LockTables"@,
        "EnableRule"@ != "PrimaryKey"@,
        "EnableRule"@ != "SetNotNull"@,
        "EnableRule"@ != "column_def"@,
        "EnableRule"@ != "constraint"@,
        "EnableRule"@ != "operations"@,
        "File"@ != "Load"@,
        "File"@ != "Lock"@,
        "File"@ != "Type"@,
        "File"@ != "name"@,
        "File"@ != "span"@,
        "ForeignKey"@ != "Identifier"@,
        "ForeignKey"@ != "LockTables"@,
        "ForeignKey"@ != "PrimaryKey"@,
        "ForeignKey"@ != "SetNotNull"@,
        "ForeignKey"@ != "column_def"@,
        "ForeignKey"@ != "constraint"@,
        "ForeignKey"@ != "operations"@,
        "Generated"@ != "Savepoint"@,
        "Generated"@ != "StartWith"@,
        "Generated"@ != "data_type"@,
        "Generated"@ != "not_valid"@,
        "Generated"@ != "predicate"@,
        "Generated"@ != "savepoint"@,
        "Generated"@ != "temporary"@,
        "Identifier"@ != "LockTables"@,
        "Identifier"@ != "PrimaryKey"@,
        "Identifier"@ != "SetNotNull"@,
        "Identifier"@ != "column_def"@,
        "Identifier"@ != "constraint"@,
        "Identifier"@ != "operations"@,
        "IsolationLevel"@ != "SetTransaction"@,
        "LISTEN"@ != "NOTIFY"@,
        "LISTEN"@ != "Number"@,
        "LISTEN"@ != "Unique"@,
        "LISTEN"@ != "Vacuum"@,
        "LISTEN"@ != "option"@,
        "LISTEN"@ != "target"@,
        "LISTEN"@ != "unique"@,
        "Load"@ != "Lock"@,
        "Load"@ != "Type"@,
        "Load"@ != "name"@,
        "Load"@ != "span"@,
        "Lock"@ != "Type"@,
        "Lock"@ != "name"@,
        "Lock"@ != "span"@,
        "LockTables"@ != "PrimaryKey"@,
        "LockTables"@ != "SetNotNull"@,
        "LockTables"@ != "column_def"@,
        "LockTables"@ != "constraint"@,
        "LockTables"@ != "operations"@,
        "MaterializedView"@ != "ReleaseSavepoint"@,
        "MaterializedView"@ != "StartTransaction"@,
        "MaterializedView"@ != "UniqueUsingIndex"@,
        "MaterializedView"@ != "sequence_options"@,
        "NOTIFY"@ != "Number"@,
        "NOTIFY"@ != "Unique"@,
        "NOTIFY"@ != "Vacuum"@,
        "NOTIFY"@ != "option"@,
        "NOTIFY"@ != "target"@,
        "NOTIFY"@ != "unique"@,
        "NotNull"@ != "Prepare"@,
        "NotNull"@ != "Program"@,
        "NotNull"@ != "columns"@,
        "NotNull"@ != "options"@,
        "Number"@ != "Unique"@,
        "Number"@ != "Vacuum"@,
        "Number"@ != "option"@,
        "Number"@ != "target"@,
        "Number"@ != "unique"@,
        "Prepare"@ != "Program"@,
        "Prepare"@ != "columns"@,
        "Prepare"@ != "options"@,
        "PrimaryKey"@ != "SetNotNull"@,
        "PrimaryKey"@ != "column_def"@,
        "PrimaryKey"@ != "constraint"@,
        "PrimaryKey"@ != "operations"@,
        "PrimaryKeyUsingIndex"@ != "generation_expr_mode"@,
        "Program"@ != "columns"@,
        "Program"@ != "options"@,
        "ReleaseSavepoint"@ != "StartTransaction"@,
        "ReleaseSavepoint"@ != "UniqueUsingIndex"@,
        "ReleaseSavepoint"@ != "sequence_options"@,
        "ReplicaIdentity"@ != "generation_expr"@,
        "Rollback"@ != "Truncate"@,
        "Rollback"@ != "UNLISTEN"@,
        "Rollback"@ != "inherits"@,
        "Savepoint"@ != "StartWith"@,
        "Savepoint"@ != "data_type"@,
        "Savepoint"@ != "not_valid"@,
        "Savepoint"@ != "predicate"@,
        "Savepoint"@ != "savepoint"@,
        "Savepoint"@ != "temporary"@,
        "SetDataType"@ != "object_type"@,
        "SetNotNull"@ != "column_def"@,
        "SetNotNull"@ != "constraint"@,
        "SetNotNull"@ != "operations"@,
        "StartTransaction"@ != "UniqueUsingIndex"@,
        "StartTransaction"@ != "sequence_options"@,
        "StartWith"@ != "data_type"@,
        "StartWith"@ != "not_valid"@,
        "StartWith"@ != "predicate"@,
        "StartWith"@ != "savepoint"@,
        "StartWith"@ != "temporary"@,
        "Truncate"@ != "UNLISTEN"@,
        "Truncate"@ != "inherits"@,
        "Type"@ != "name"@,
        "Type"@ != "span"@,
        "UNLISTEN"@ != "inherits"@,
        "Unique"@ != "Vacuum"@,
        "Unique"@ != "option"@,
        "Unique"@ != "target"@,
        "Unique"@ != "unique"@,
        "UniqueUsingIndex"@ != "sequence_options"@,
        "Using"@ != "Value"@,
        "Using"@ != "async"@,
        "Using"@ != "modes"@,
        "Using"@ != "query"@,
        "Using"@ != "using"@,
        "Using"@ != "value"@,
        "Vacuum"@ != "option"@,
        "Vacuum"@ != "target"@,
        "Vacuum"@ != "unique"@,
        "Value"@ != "async"@,
        "Value"@ != "modes"@,
        "Value"@ != "query"@,
        "Value"@ != "using"@,
        "Value"@ != "value"@,
        "async"@ != "modes"@,
        "async"@ != "query"@,
        "async"@ != "using"@,
        "async"@ != "value"@,
        "column_def"@ != "constraint"@,
        "column_def"@ != "operations"@,
        "columns"@ != "options"@,
        "concurrently"@ != "generated_as"@,
        "concurrently"@ != "materialized"@,
        "concurrently"@ != "partition_by"@,
        "constraint"@ != "operations"@,
        "data_type"@ != "not_valid"@,
        "data_type"@ != "predicate"@,
        "data_type"@ != "savepoint"@,
        "data_type"@ != "temporary"@,
        "generated_as"@ != "materialized"@,
        "generated_as"@ != "partition_by"@,
        "index_options"@ != "table_options"@,
        "materialized"@ != "partition_by"@,
        "modes"@ != "query"@,
        "modes"@ != "using"@,
        "modes"@ != "value"@,
        "name"@ != "span"@,
        "not_valid"@ != "predicate"@,
        "not_valid"@ != "savepoint"@,
        "not_valid"@ != "temporary"@,
        "option"@ != "target"@,
        "option"@ != "unique"@,
        "predicate"@ != "savepoint"@,
        "predicate"@ != "temporary"@,
        "query"@ != "using"@,
        "query"@ != "value"@,
        "savepoint"@ != "temporary"@,
        "target"@ != "unique"@,
        "using"@ != "value"@,
{
    reveal_strlit("AddColumn");
    reveal_strlit("AddConstraint");
    reveal_strlit("AddGenerated");
    reveal_strlit("AlterColumn");
    reveal_strlit("AlterIndex");
    reveal_strlit("AlterPolicy");
    reveal_strlit("AlterTable");
    reveal_strlit("AlterType");
    reveal_strlit("Array");
    reveal_strlit("BTree");
    reveal_strlit("BigInt");
    reveal_strlit("Cache");
    reveal_strlit("Check");
    reveal_strlit("Copy");
    reveal_strlit("CreateDatabase");
    reveal_strlit("CreateExtension");
    reveal_strlit("CreateIndex");
    reveal_strlit("CreatePolicy");
    reveal_strlit("CreateProcedure");
    reveal_strlit("CreateSequence");
    reveal_strlit("CreateServer");
    reveal_strlit("CreateTable");
    reveal_strlit("CreateTrigger");
    reveal_strlit("CreateType");
    reveal_strlit("CreateView");
    reveal_strlit("Custom");
    reveal_strlit("Deallocate");
    reveal_strlit("Declare");
    reveal_strlit("Default");
    reveal_strlit("DisableRowLevelSecurity");
    reveal_strlit("DisableRule");
    reveal_strlit("Discard");
    reveal_strlit("Drop");
    reveal_strlit("DropPolicy");
    reveal_strlit("DropTrigger");
    reveal_strlit("EnableAlwaysRule");
    reveal_strlit("EnableReplicaRule");
    reveal_strlit("EnableRowLevelSecurity");
    reveal_strlit("EnableRule");
    reveal_strlit("File");
    reveal_strlit("ForceRowLevelSecurity");
    reveal_strlit("ForeignKey");
    reveal_strlit("Generated");
    reveal_strlit("Identifier");
    reveal_strlit("IsolationLevel");
    reveal_strlit("LISTEN");
    reveal_strlit("Load");
    reveal_strlit("Lock");
    reveal_strlit("LockTables");
    reveal_strlit("MaterializedView");
    reveal_strlit("NOTIFY");
    reveal_strlit("NoForceRowLevelSecurity");
    reveal_strlit("NotNull");
    reveal_strlit("Number");
    reveal_strlit("Prepare");
    reveal_strlit("PrimaryKey");
    reveal_strlit("PrimaryKeyUsingIndex");
    reveal_strlit("Program");
    reveal_strlit("ReleaseSavepoint");
    reveal_strlit("ReplicaIdentity");
    reveal_strlit("Rollback");
    reveal_strlit("Savepoint");
    reveal_strlit("Set");
    reveal_strlit("SetDataType");
    reveal_strlit("SetNotNull");
    reveal_strlit("SetTransaction");
    reveal_strlit("StartTransaction");
    reveal_strlit("StartWith");
    reveal_strlit("Truncate");
    reveal_strlit("Type");
    reveal_strlit("UNLISTEN");
    reveal_strlit("Unique");
    reveal_strlit("UniqueUsingIndex");
    reveal_strlit("Using");
    reveal_strlit("Vacuum");
    reveal_strlit("ValidateConstraint");
    reveal_strlit("Value");
    reveal_strlit("async");
    reveal_strlit("column_def");
    reveal_strlit("columns");
    reveal_strlit("concurrently");
    reveal_strlit("constraint");
    reveal_strlit("data_type");
    reveal_strlit("generated_as");
    reveal_strlit("generated_keyword");
    reveal_strlit("generation_expr");
    reveal_strlit("generation_expr_mode");
    reveal_strlit("index_options");
    reveal_strlit("inherits");
    reveal_strlit("materialized");
    reveal_strlit("modes");
    reveal_strlit("name");
    reveal_strlit("not_valid");
    reveal_strlit("object_type");
    reveal_strlit("op");
    reveal_strlit("operations");
    reveal_strlit("option");
    reveal_strlit("options");
    reveal_strlit("partition_by");
    reveal_strlit("predicate");
    reveal_strlit("query");
    reveal_strlit("savepoint");
    reveal_strlit("sequence_options");
    reveal_strlit("span");
    reveal_strlit("table_options");
    reveal_strlit("target");
    reveal_strlit("temporary");
    reveal_strlit("unique");
    reveal_strlit("using");
    reveal_strlit("value");
    assert("AddColumn"@[1] != "AlterType"@[1]);
    assert("AddColumn"@[0] != "Generated"@[0]);
    assert("AddColumn"@[0] != "Savepoint"@[0]);
    assert("AddColumn"@[0] != "StartWith"@[0]);
    assert("AddColumn"@[0] != "data_type"@[0]);
    assert("AddColumn"@[0] != "not_valid"@[0]);
    assert("AddColumn"@[0] != "predicate"@[0]);
    assert("AddColumn"@[0] != "savepoint"@[0]);
    assert("AddColumn"@[0] != "temporary"@[0]);
    assert("AddConstraint"@[0] != "CreateTrigger"@[0]);
    assert("AddConstraint"@[0] != "index_options"@[0]);
    assert("AddConstraint"@[0] != "table_options"@[0]);
    assert("AddGenerated"@[0] != "CreatePolicy"@[0]);
    assert("AddGenerated"@[0] != "CreateServer"@[0]);
    assert("AddGenerated"@[0] != "concurrently"@[0]);
    assert("AddGenerated"@[0] != "generated_as"@[0]);
    assert("AddGenerated"@[0] != "materialized"@[0]);
    assert("AddGenerated"@[0] != "partition_by"@[0]);
    assert("AlterColumn"@[5] != "AlterPolicy"@[5]);
    assert("AlterColumn"@[0] != "CreateIndex"@[0]);
    assert("AlterColumn"@[0] != "CreateTable"@[0]);
    assert("AlterColumn"@[0] != "DisableRule"@[0]);
    assert("AlterColumn"@[0] != "DropTrigger"@[0]);
    assert("AlterColumn"@[0] != "SetDataType"@[0]);
    assert("AlterColumn"@[0] != "object_type"@[0]);
    assert("AlterIndex"@[5] != "AlterTable"@[5]);
    assert("AlterIndex"@[0] != "CreateType"@[0]);
    assert("AlterIndex"@[0] != "CreateView"@[0]);
    assert("AlterIndex"@[0] != "Deallocate"@[0]);
    assert("AlterIndex"@[0] != "DropPolicy"@[0]);
    assert("AlterIndex"@[0] != "EnableRule"@[0]);
    assert("AlterIndex"@[0] != "ForeignKey"@[0]);
    assert("AlterIndex"@[0] != "Identifier"@[0]);
    assert("AlterIndex"@[0] != "LockTables"@[0]);
    assert("AlterIndex"@[0] != "PrimaryKey"@[0]);
    assert("AlterIndex"@[0] != "SetNotNull"@[0]);
    assert("AlterIndex"@[0] != "column_def"@[0]);
    assert("AlterIndex"@[0] != "constraint"@[0]);
    assert("AlterIndex"@[0] != "operations"@[0]);
    assert("AlterPolicy"@[0] != "CreateIndex"@[0]);
    assert("AlterPolicy"@[0] != "CreateTable"@[0]);
    assert("AlterPolicy"@[0] != "DisableRule"@[0]);
    assert("AlterPolicy"@[0] != "DropTrigger"@[0]);
    assert("AlterPolicy"@[0] != "SetDataType"@[0]);
    assert("AlterPolicy"@[0] != "object_type"@[0]);
    assert("AlterTable"@[0] != "CreateType"@[0]);
    assert("AlterTable"@[0] != "CreateView"@[0]);
    assert("AlterTable"@[0] != "Deallocate"@[0]);
    assert("AlterTable"@[0] != "DropPolicy"@[0]);
    assert("AlterTable"@[0] != "EnableRule"@[0]);
    assert("AlterTable"@[0] != "ForeignKey"@[0]);
    assert("AlterTable"@[0] != "Identifier"@[0]);
    assert("AlterTable"@[0] != "LockTables"@[0]);
    assert("AlterTable"@[0] != "PrimaryKey"@[0]);
    assert("AlterTable"@[0] != "SetNotNull"@[0]);
    assert("AlterTable"@[0] != "column_def"@[0]);
    assert("AlterTable"@[0] != "constraint"@[0]);
    assert("AlterTable"@[0] != "operations"@[0]);
    assert("AlterType"@[0] != "Generated"@[0]);
    assert("AlterType"@[0] != "Savepoint"@[0]);
    assert("AlterType"@[0] != "StartWith"@[0]);
    assert("AlterType"@[0] != "data_type"@[0]);
    assert("AlterType"@[0] != "not_valid"@[0]);
    assert("AlterType"@[0] != "predicate"@[0]);
    assert("AlterType"@[0] != "savepoint"@[0]);
    assert("AlterType"@[0] != "temporary"@[0]);
    assert("Array"@[0] != "BTree"@[0]);
    assert("Array"@[0] != "Cache"@[0]);
    assert("Array"@[0] != "Check"@[0]);
    assert("Array"@[0] != "Using"@[0]);
    assert("Array"@[0] != "Value"@[0]);
    assert("Array"@[0] != "async"@[0]);
    assert("Array"@[0] != "modes"@[0]);
    assert("Array"@[0] != "query"@[0]);
    assert("Array"@[0] != "using"@[0]);
    assert("Array"@[0] != "value"@[0]);
    assert("BTree"@[0] != "Cache"@[0]);
    assert("BTree"@[0] != "Check"@[0]);
    assert("BTree"@[0] != "Using"@[0]);
    assert("BTree"@[0] != "Value"@[0]);
    assert("BTree"@[0] != "async"@[0]);
    assert("BTree"@[0] != "modes"@[0]);
    assert("BTree"@[0] != "query"@[0]);
    assert("BTree"@[0] != "using"@[0]);
    assert("BTree"@[0] != "value"@[0]);
    assert("BigInt"@[0] != "Custom"@[0]);
    assert("BigInt"@[0] != "LISTEN"@[0]);
    assert("BigInt"@[0] != "NOTIFY"@[0]);
    assert("BigInt"@[0] != "Number"@[0]);
    assert("BigInt"@[0] != "Unique"@[0]);
    assert("BigInt"@[0] != "Vacuum"@[0]);
    assert("BigInt"@[0] != "option"@[0]);
    assert("BigInt"@[0] != "target"@[0]);
    assert("BigInt"@[0] != "unique"@[0]);
    assert("Cache"@[1] != "Check"@[1]);
    assert("Cache"@[0] != "Using"@[0]);
    assert("Cache"@[0] != "Value"@[0]);
    assert("Cache"@[0] != "async"@[0]);
    assert("Cache"@[0] != "modes"@[0]);
    assert("Cache"@[0] != "query"@[0]);
    assert("Cache"@[0] != "using"@[0]);
    assert("Cache"@[0] != "value"@[0]);
    assert("Check"@[0] != "Using"@[0]);
    assert("Check"@[0] != "Value"@[0]);
    assert("Check"@[0] != "async"@[0]);
    assert("Check"@[0] != "modes"@[0]);
    assert("Check"@[0] != "query"@[0]);
    assert("Check"@[0] != "using"@[0]);
    assert("Check"@[0] != "value"@[0]);
    assert("Copy"@[0] != "Drop"@[0]);
    assert("Copy"@[0] != "File"@[0]);
    assert("Copy"@[0] != "Load"@[0]);
    assert("Copy"@[0] != "Lock"@[0]);
    assert("Copy"@[0] != "Type"@[0]);
    assert("Copy"@[0] != "name"@[0]);
    assert("Copy"@[0] != "span"@[0]);
    assert("CreateDatabase"@[6] != "CreateSequence"@[6]);
    assert("CreateDatabase"@[0] != "IsolationLevel"@[0]);
    assert("CreateDatabase"@[0] != "SetTransaction"@[0]);
    assert("CreateExtension"@[6] != "CreateProcedure"@[6]);
    assert("CreateExtension"@[0] != "ReplicaIdentity"@[0]);
    assert("CreateExtension"@[0] != "generation_expr"@[0]);
    assert("CreateIndex"@[6] != "CreateTable"@[6]);
    assert("CreateIndex"@[0] != "DisableRule"@[0]);
    assert("CreateIndex"@[0] != "DropTrigger"@[0]);
    assert("CreateIndex"@[0] != "SetDataType"@[0]);
    assert("CreateIndex"@[0] != "object_type"@[0]);
    assert("CreatePolicy"@[6] != "CreateServer"@[6]);
    assert("CreatePolicy"@[0] != "concurrently"@[0]);
    assert("CreatePolicy"@[0] != "generated_as"@[0]);
    assert("CreatePolicy"@[0] != "materialized"@[0]);
    assert("CreatePolicy"@[0] != "partition_by"@[0]);
    assert("CreateProcedure"@[0] != "ReplicaIdentity"@[0]);
    assert("CreateProcedure"@[0] != "generation_expr"@[0]);
    assert("CreateSequence"@[0] != "IsolationLevel"@[0]);
    assert("CreateSequence"@[0] != "SetTransaction"@[0]);
    assert("CreateServer"@[0] != "concurrently"@[0]);
    assert("CreateServer"@[0] != "generated_as"@[0]);
    assert("CreateServer"@[0] != "materialized"@[0]);
    assert("CreateServer"@[0] != "partition_by"@[0]);
    assert("CreateTable"@[0] != "DisableRule"@[0]);
    assert("CreateTable"@[0] != "DropTrigger"@[0]);
    assert("CreateTable"@[0] != "SetDataType"@[0]);
    assert("CreateTable"@[0] != "object_type"@[0]);
    assert("CreateTrigger"@[0] != "index_options"@[0]);
    assert("CreateTrigger"@[0] != "table_options"@[0]);
    assert("CreateType"@[6] != "CreateView"@[6]);
    assert("CreateType"@[0] != "Deallocate"@[0]);
    assert("CreateType"@[0] != "DropPolicy"@[0]);
    assert("CreateType"@[0] != "EnableRule"@[0]);
    assert("CreateType"@[0] != "ForeignKey"@[0]);
    assert("CreateType"@[0] != "Identifier"@[0]);
    assert("CreateType"@[0] != "LockTables"@[0]);
    assert("CreateType"@[0] != "PrimaryKey"@[0]);
    assert("CreateType"@[0] != "SetNotNull"@[0]);
    assert("CreateType"@[0] != "column_def"@[0]);
    assert("CreateType"@[0] != "constraint"@[0]);
    assert("CreateType"@[0] != "operations"@[0]);
    assert("CreateView"@[0] != "Deallocate"@[0]);
    assert("CreateView"@[0] != "DropPolicy"@[0]);
    assert("CreateView"@[0] != "EnableRule"@[0]);
    assert("CreateView"@[0] != "ForeignKey"@[0]);
    assert("CreateView"@[0] != "Identifier"@[0]);
    assert("CreateView"@[0] != "LockTables"@[0]);
    assert("CreateView"@[0] != "PrimaryKey"@[0]);
    assert("CreateView"@[0] != "SetNotNull"@[0]);
    assert("CreateView"@[0] != "column_def"@[0]);
    assert("CreateView"@[0] != "constraint"@[0]);
    assert("CreateView"@[0] != "operations"@[0]);
    assert("Custom"@[0] != "LISTEN"@[0]);
    assert("Custom"@[0] != "NOTIFY"@[0]);
    assert("Custom"@[0] != "Number"@[0]);
    assert("Custom"@[0] != "Unique"@[0]);
    assert("Custom"@[0] != "Vacuum"@[0]);
    assert("Custom"@[0] != "option"@[0]);
    assert("Custom"@[0] != "target"@[0]);
    assert("Custom"@[0] != "unique"@[0]);
    assert("Deallocate"@[1] != "DropPolicy"@[1]);
    assert("Deallocate"@[0] != "EnableRule"@[0]);
    assert("Deallocate"@[0] != "ForeignKey"@[0]);
    assert("Deallocate"@[0] != "Identifier"@[0]);
    assert("Deallocate"@[0] != "LockTables"@[0]);
    assert("Deallocate"@[0] != "PrimaryKey"@[0]);
    assert("Deallocate"@[0] != "SetNotNull"@[0]);
    assert("Deallocate"@[0] != "column_def"@[0]);
    assert("Deallocate"@[0] != "constraint"@[0]);
    assert("Deallocate"@[0] != "operations"@[0]);
    assert("Declare"@[2] != "Default"@[2]);
    assert("Declare"@[1] != "Discard"@[1]);
    assert("Declare"@[0] != "NotNull"@[0]);
    assert("Declare"@[0] != "Prepare"@[0]);
    assert("Declare"@[0] != "Program"@[0]);
    assert("Declare"@[0] != "columns"@[0]);
    assert("Declare"@[0] != "options"@[0]);
    assert("Default"@[1] != "Discard"@[1]);
    assert("Default"@[0] != "NotNull"@[0]);
    assert("Default"@[0] != "Prepare"@[0]);
    assert("Default"@[0] != "Program"@[0]);
    assert("Default"@[0] != "columns"@[0]);
    assert("Default"@[0] != "options"@[0]);
    assert("DisableRowLevelSecurity"@[0] != "NoForceRowLevelSecurity"@[0]);
    assert("DisableRule"@[1] != "DropTrigger"@[1]);
    assert("DisableRule"@[0] != "SetDataType"@[0]);
    assert("DisableRule"@[0] != "object_type"@[0]);
    assert("Discard"@[0] != "NotNull"@[0]);
    assert("Discard"@[0] != "Prepare"@[0]);
    assert("Discard"@[0] != "Program"@[0]);
    assert("Discard"@[0] != "columns"@[0]);
    assert("Discard"@[0] != "options"@[0]);
    assert("Drop"@[0] != "File"@[0]);
    assert("Drop"@[0] != "Load"@[0]);
    assert("Drop"@[0] != "Lock"@[0]);
    assert("Drop"@[0] != "Type"@[0]);
    assert("Drop"@[0] != "name"@[0]);
    assert("Drop"@[0] != "span"@[0]);
    assert("DropPolicy"@[0] != "EnableRule"@[0]);
    assert("DropPolicy"@[0] != "ForeignKey"@[0]);
    assert("DropPolicy"@[0] != "Identifier"@[0]);
    assert("DropPolicy"@[0] != "LockTables"@[0]);
    assert("DropPolicy"@[0] != "PrimaryKey"@[0]);
    assert("DropPolicy"@[0] != "SetNotNull"@[0]);
    assert("DropPolicy"@[0] != "column_def"@[0]);
    assert("DropPolicy"@[0] != "constraint"@[0]);
    assert("DropPolicy"@[0] != "operations"@[0]);
    assert("DropTrigger"@[0] != "SetDataType"@[0]);
    assert("DropTrigger"@[0] != "object_type"@[0]);
    assert("EnableAlwaysRule"@[0] != "MaterializedView"@[0]);
    assert("EnableAlwaysRule"@[0] != "ReleaseSavepoint"@[0]);
    assert("EnableAlwaysRule"@[0] != "StartTransaction"@[0]);
    assert("EnableAlwaysRule"@[0] != "UniqueUsingIndex"@[0]);
    assert("EnableAlwaysRule"@[0] != "sequence_options"@[0]);
    assert("EnableReplicaRule"@[0] != "generated_keyword"@[0]);
    assert("EnableRule"@[0] != "ForeignKey"@[0]);
    assert("EnableRule"@[0] != "Identifier"@[0]);
    assert("EnableRule"@[0] != "LockTables"@[0]);
    assert("EnableRule"@[0] != "PrimaryKey"@[0]);
    assert("EnableRule"@[0] != "SetNotNull"@[0]);
    assert("EnableRule"@[0] != "column_def"@[0]);
    assert("EnableRule"@[0] != "constraint"@[0]);
    assert("EnableRule"@[0] != "operations"@[0]);
    assert("File"@[0] != "Load"@[0]);
    assert("File"@[0] != "Lock"@[0]);
    assert("File"@[0] != "Type"@[0]);
    assert("File"@[0] != "name"@[0]);
    assert("File"@[0] != "span"@[0]);
    assert("ForeignKey"@[0] != "Identifier"@[0]);
    assert("ForeignKey"@[0] != "LockTables"@[0]);
    assert("ForeignKey"@[0] != "PrimaryKey"@[0]);
    assert("ForeignKey"@[0] != "SetNotNull"@[0]);
    assert("ForeignKey"@[0] != "column_def"@[0]);
    assert("ForeignKey"@[0] != "constraint"@[0]);
    assert("ForeignKey"@[0] != "operations"@[0]);
    assert("Generated"@[0] != "Savepoint"@[0]);
    assert("Generated"@[0] != "StartWith"@[0]);
    assert("Generated"@[0] != "data_type"@[0]);
    assert("Generated"@[0] != "not_valid"@[0]);
    assert("Generated"@[0] != "predicate"@[0]);
    assert("Generated"@[0] != "savepoint"@[0]);
    assert("Generated"@[0] != "temporary"@[0]);
    assert("Identifier"@[0] != "LockTables"@[0]);
    assert("Identifier"@[0] != "PrimaryKey"@[0]);
    assert("Identifier"@[0] != "SetNotNull"@[0]);
    assert("Identifier"@[0] != "column_def"@[0]);
    assert("Identifier"@[0] != "constraint"@[0]);
    assert("Identifier"@[0] != "operations"@[0]);
    assert("IsolationLevel"@[0] != "SetTransaction"@[0]);
    assert("LISTEN"@[0] != "NOTIFY"@[0]);
    assert("LISTEN"@[0] != "Number"@[0]);
    assert("LISTEN"@[0] != "Unique"@[0]);
    assert("LISTEN"@[0] != "Vacuum"@[0]);
    assert("LISTEN"@[0] != "option"@[0]);
    assert("LISTEN"@[0] != "target"@[0]);
    assert("LISTEN"@[0] != "unique"@[0]);
    assert("Load"@[2] != "Lock"@[2]);
    assert("Load"@[0] != "Type"@[0]);
    assert("Load"@[0] != "name"@[0]);
    assert("Load"@[0] != "span"@[0]);
    assert("Lock"@[0] != "Type"@[0]);
    assert("Lock"@[0] != "name"@[0]);
    assert("Lock"@[0] != "span"@[0]);
    assert("LockTables"@[0] != "PrimaryKey"@[0]);
    assert("LockTables"@[0] != "SetNotNull"@[0]);
    assert("LockTables"@[0] != "column_def"@[0]);
    assert("LockTables"@[0] != "constraint"@[0]);
    assert("LockTables"@[0] != "operations"@[0]);
    assert("MaterializedView"@[0] != "ReleaseSavepoint"@[0]);
    assert("MaterializedView"@[0] != "StartTransaction"@[0]);
    assert("MaterializedView"@[0] != "UniqueUsingIndex"@[0]);
    assert("MaterializedView"@[0] != "sequence_options"@[0]);
    assert("NOTIFY"@[1] != "Number"@[1]);
    assert("NOTIFY"@[0] != "Unique"@[0]);
    assert("NOTIFY"@[0] != "Vacuum"@[0]);
    assert("NOTIFY"@[0] != "option"@[0]);
    assert("NOTIFY"@[0] != "target"@[0]);
    assert("NOTIFY"@[0] != "unique"@[0]);
    assert("NotNull"@[0] != "Prepare"@[0]);
    assert("NotNull"@[0] != "Program"@[0]);
    assert("NotNull"@[0] != "columns"@[0]);
    assert("NotNull"@[0] != "options"@[0]);
    assert("Number"@[0] != "Unique"@[0]);
    assert("Number"@[0] != "Vacuum"@[0]);
    assert("Number"@[0] != "option"@[0]);
    assert("Number"@[0] != "target"@[0]);
    assert("Number"@[0] != "unique"@[0]);
    assert("Prepare"@[2] != "Program"@[2]);
    assert("Prepare"@[0] != "columns"@[0]);
    assert("Prepare"@[0] != "options"@[0]);
    assert("PrimaryKey"@[0] != "SetNotNull"@[0]);
    assert("PrimaryKey"@[0] != "column_def"@[0]);
    assert("PrimaryKey"@[0] != "constraint"@[0]);
    assert("PrimaryKey"@[0] != "operations"@[0]);
    assert("PrimaryKeyUsingIndex"@[0] != "generation_expr_mode"@[0]);
    assert("Program"@[0] != "columns"@[0]);
    assert("Program"@[0] != "options"@[0]);
    assert("ReleaseSavepoint"@[0] != "StartTransaction"@[0]);
    assert("ReleaseSavepoint"@[0] != "UniqueUsingIndex"@[0]);
    assert("ReleaseSavepoint"@[0] != "sequence_options"@[0]);
    assert("ReplicaIdentity"@[0] != "generation_expr"@[0]);
    assert("Rollback"@[0] != "Truncate"@[0]);
    assert("Rollback"@[0] != "UNLISTEN"@[0]);
    assert("Rollback"@[0] != "inherits"@[0]);
    assert("Savepoint"@[1] != "StartWith"@[1]);
    assert("Savepoint"@[0] != "data_type"@[0]);
    assert("Savepoint"@[0] != "not_valid"@[0]);
    assert("Savepoint"@[0] != "predicate"@[0]);
    assert("Savepoint"@[0] != "savepoint"@[0]);
    assert("Savepoint"@[0] != "temporary"@[0]);
    assert("SetDataType"@[0] != "object_type"@[0]);
    assert("SetNotNull"@[0] != "column_def"@[0]);
    assert("SetNotNull"@[0] != "constraint"@[0]);
    assert("SetNotNull"@[0] != "operations"@[0]);
    assert("StartTransaction"@[0] != "UniqueUsingIndex"@[0]);
    assert("StartTransaction"@[0] != "sequence_options"@[0]);
    assert("StartWith"@[0] != "data_type"@[0]);
    assert("StartWith"@[0] != "not_valid"@[0]);
    assert("StartWith"@[0] != "predicate"@[0]);
    assert("StartWith"@[0] != "savepoint"@[0]);
    assert("StartWith"@[0] != "temporary"@[0]);
    assert("Truncate"@[0] != "UNLISTEN"@[0]);
    assert("Truncate"@[0] != "inherits"@[0]);
    assert("Type"@[0] != "name"@[0]);
    assert("Type"@[0] != "span"@[0]);
    assert("UNLISTEN"@[0] != "inherits"@[0]);
    assert("Unique"@[0] != "Vacuum"@[0]);
    assert("Unique"@[0] != "option"@[0]);
    assert("Unique"@[0] != "target"@[0]);
    assert("Unique"@[0] != "unique"@[0]);
    assert("UniqueUsingIndex"@[0] != "sequence_options"@[0]);
    assert("Using"@[0] != "Value"@[0]);
    assert("Using"@[0] != "async"@[0]);
    assert("Using"@[0] != "modes"@[0]);
    assert("Using"@[0] != "query"@[0]);
    assert("Using"@[0] != "using"@[0]);
    assert("Using"@[0] != "value"@[0]);
    assert("Vacuum"@[0] != "option"@[0]);
    assert("Vacuum"@[0] != "target"@[0]);
    assert("Vacuum"@[0] != "unique"@[0]);
    assert("Value"@[0] != "async"@[0]);
    assert("Value"@[0] != "modes"@[0]);
    assert("Value"@[0] != "query"@[0]);
    assert("Value"@[0] != "using"@[0]);
    assert("Value"@[0] != "value"@[0]);
    assert("async"@[0] != "modes"@[0]);
    assert("async"@[0] != "query"@[0]);
    assert("async"@[0] != "using"@[0]);
    assert("async"@[0] != "value"@[0]);
    assert("column_def"@[2] != "constraint"@[2]);
    assert("column_def"@[0] != "operations"@[0]);
    assert("columns"@[0] != "options"@[0]);
    assert("concurrently"@[0] != "generated_as"@[0]);
    assert("concurrently"@[0] != "materialized"@[0]);
    assert("concurrently"@[0] != "partition_by"@[0]);
    assert("constraint"@[0] != "operations"@[0]);
    assert("data_type"@[0] != "not_valid"@[0]);
    assert("data_type"@[0] != "predicate"@[0]);
    assert("data_type"@[0] != "savepoint"@[0]);
    assert("data_type"@[0] != "temporary"@[0]);
    assert("generated_as"@[0] != "materialized"@[0]);
    assert("generated_as"@[0] != "partition_by"@[0]);
    assert("index_options"@[0] != "table_options"@[0]);
    assert("materialized"@[0] != "partition_by"@[0]);
    assert("modes"@[0] != "query"@[0]);
    assert("modes"@[0] != "using"@[0]);
    assert("modes"@[0] != "value"@[0]);
    assert("name"@[0] != "span"@[0]);
    assert("not_valid"@[0] != "predicate"@[0]);
    assert("not_valid"@[0] != "savepoint"@[0]);
    assert("not_valid"@[0] != "temporary"@[0]);
    assert("option"@[0] != "target"@[0]);
    assert("option"@[0] != "unique"@[0]);
    assert("predicate"@[0] != "savepoint"@[0]);
    assert("predicate"@[0] != "temporary"@[0]);
    assert("query"@[0] != "using"@[0]);
    assert("query"@[0] != "value"@[0]);
    assert("savepoint"@[0] != "temporary"@[0]);
    assert("target"@[0] != "unique"@[0]);
    assert("using"@[0] != "value"@[0]);
}

/// Where each stage of the rules puts its reports.
proof fn lemma_stages(t: Tree, raw: Seq<char>, d: diagnostic::DiagnosticView)
    ensures
        ({
            let a = refusals::field_rule(t, raw);
            let b = errors::serial_rule(a.0, raw);
            let c = errors::key_rule(b.0, raw);
            let e = errors::added_rule(c.0, raw);
            let f = errors::index_rule(e.0, raw);
            let g = options::cache_rule(f.0, raw);
            let h = options::level_rule(g.0, raw);
            a.1.contains(d) || b.1.contains(d) || c.1.contains(d) || e.1.contains(d)
                || f.1.contains(d) || g.1.contains(d) || h.1.contains(d) || errors::left(
                h.0,
                raw,
            ).contains(d)
        }) ==> errors::ruled(t, raw).1.contains(d),
{
    let a = refusals::field_rule(t, raw);
    let b = errors::serial_rule(a.0, raw);
    let c = errors::key_rule(b.0, raw);
    let e = errors::added_rule(c.0, raw);
    let f = errors::index_rule(e.0, raw);
    let g = options::cache_rule(f.0, raw);
    let h = options::level_rule(g.0, raw);
    let l = errors::left(h.0, raw);
    lemma_in_sum(a.1, b.1, d);
    lemma_in_sum(a.1 + b.1, c.1, d);
    lemma_in_sum(a.1 + b.1 + c.1, e.1, d);
    lemma_in_sum(a.1 + b.1 + c.1 + e.1, f.1, d);
    lemma_in_sum(a.1 + b.1 + c.1 + e.1 + f.1, g.1, d);
    lemma_in_sum(a.1 + b.1 + c.1 + e.1 + f.1 + g.1, h.1, d);
    lemma_in_sum(a.1 + b.1 + c.1 + e.1 + f.1 + g.1 + h.1, l, d);
}

proof fn lemma_in_sum(
    x: Seq<diagnostic::DiagnosticView>,
    y: Seq<diagnostic::DiagnosticView>,
    d: diagnostic::DiagnosticView,
)
    ensures
        x.contains(d) || y.contains(d) ==> (x + y).contains(d),
{
    if x.contains(d) {
        let i = choose|i: int| 0 <= i < x.len() && x[i] == d;
        assert((x + y)[i] == d);
    } else if y.contains(d) {
        let i = choose|i: int| 0 <= i < y.len() && y[i] == d;
        assert((x + y)[x.len() + i] == d);
    }
}

proof fn lemma_found(t: Tree, raw: Seq<char>, d: diagnostic::DiagnosticView)
    requires
        errors::ruled(t, raw).1.contains(d),
    ensures
        reported(t, raw, d.rule),
        d.fix_result is Unfixable ==> refused(t, raw, d.rule),
        !(d.fix_result is Unfixable) ==> rewritten(t, raw, d.rule),
{
    let i = choose|i: int| 0 <= i < errors::ruled(t, raw).1.len() && errors::ruled(t, raw).1[i] == d;
    assert(errors::ruled(t, raw).1[i].rule == d.rule);
}

proof fn lemma_rows_keep(
    t: Tree,
    raw: Seq<char>,
    es: Seq<refusals::FieldModel>,
    kind: Seq<char>,
    key: Seq<char>,
)
    requires
        forall|i: int| 0 <= i < es.len() ==> (#[trigger] es[i]).kind != kind || es[i].field != key,
    ensures
        part(refusals::rows_rule(t, raw, es).0, kind, key) == part(t, kind, key),
        syntax::member(refusals::rows_rule(t, raw, es).0, kind) is Some == syntax::member(
            t,
            kind,
        ) is Some,
        (forall|i: int| 0 <= i < es.len() ==> (#[trigger] es[i]).kind != kind) ==> syntax::member(
            refusals::rows_rule(t, raw, es).0,
            kind,
        ) == syntax::member(t, kind),
    decreases es.len(),
{
    if es.len() > 0 {
        let front = es.drop_last();
        assert forall|i: int| 0 <= i < front.len() implies (#[trigger] front[i]).kind != kind
            || front[i].field != key by {
            assert(front[i] == es[i]);
        }
        lemma_rows_keep(t, raw, front, kind, key);
        let before = refusals::rows_rule(t, raw, front).0;
        assert(es[es.len() - 1] == es.last());
        refusals::lemma_row_keeps(before, raw, es.last(), kind, key);
        if forall|i: int| 0 <= i < es.len() ==> (#[trigger] es[i]).kind != kind {
            assert forall|i: int| 0 <= i < front.len() implies (#[trigger] front[i]).kind != kind by {
                assert(front[i] == es[i]);
            }
        }
    }
}

/// Where a row applies it reports, and what it mends is mended.
proof fn lemma_row_tells(t: Tree, raw: Seq<char>, es: Seq<refusals::FieldModel>, at: int)
    requires
        refusals::are_apart(es),
        0 <= at < es.len(),
        refusals::applies(t, es[at]),
    ensures
        refusals::rows_rule(t, raw, es).1.contains(
            refusals::field_report(es[at], refusals::value_of(t, es[at])->Some_0, raw),
        ),
        refusals::value_of(refusals::rows_rule(t, raw, es).0, es[at]) == if es[at].remedy
            == refusals::Remedy::Left {
            refusals::value_of(t, es[at])
        } else {
            Some(refusals::neutral(es[at].mend))
        },
    decreases es.len(),
{
    let e = es[at];
    let d = refusals::field_report(e, refusals::value_of(t, e)->Some_0, raw);
    let front = es.drop_last();
    let before = refusals::rows_rule(t, raw, front);
    let last = refusals::row_rule(before.0, raw, es.last());
    assert(es.last() == es[es.len() - 1]);
    assert forall|i: int, j: int| 0 <= i < j < front.len() implies (#[trigger] front[i]).kind != (
    #[trigger] front[j]).kind || front[i].field != front[j].field by {
        assert(front[i] == es[i] && front[j] == es[j]);
    }
    lemma_in_sum(before.1, last.1, d);
    if at < front.len() {
        assert(front[at] == e);
        lemma_row_tells(t, raw, front, at);
        assert(es[at].kind != es[es.len() - 1].kind || es[at].field != es[es.len() - 1].field);
        refusals::lemma_row_keeps(before.0, raw, es.last(), e.kind, e.field);
    } else {
        assert forall|i: int| 0 <= i < front.len() implies (#[trigger] front[i]).kind != e.kind
            || front[i].field != e.field by {
            assert(front[i] == es[i]);
            assert(es[i].kind != es[at].kind || es[i].field != es[at].field);
        }
        lemma_rows_keep(t, raw, front, e.kind, e.field);
        assert(part(before.0, e.kind, e.field) == part(t, e.kind, e.field));
        assert(refusals::value_of(before.0, e) == refusals::value_of(t, e));
        assert(last.1[0] == d);
        assert(last.1.contains(d));
    }
}

/// The stages behind the rows on fields leave what the rows speak of.
#[verifier::spinoff_prover]
#[verifier::rlimit(60)]
proof fn lemma_later_stages_keep(t: Tree, raw: Seq<char>, kind: Seq<char>, key: Seq<char>)
    requires
        kind == "CreateTable"@ ==> key != "columns"@,
        kind == "AlterTable"@ ==> key != "operations"@,
        kind == "CreateIndex"@ ==> key != "async"@ && key != "concurrently"@,
        kind == "CreateSequence"@ ==> key != "sequence_options"@,
        kind == "StartTransaction"@ ==> key != "modes"@,
    ensures
        part(made(t, raw), kind, key) == part(refusals::field_rule(t, raw).0, kind, key),
        kind != "CreateTable"@ && kind != "AlterTable"@ && kind != "CreateIndex"@ && kind
            != "CreateSequence"@ && kind != "StartTransaction"@ ==> syntax::member(
            made(t, raw),
            kind,
        ) == syntax::member(refusals::field_rule(t, raw).0, kind),
        syntax::member(made(t, raw), kind) is Some == syntax::member(
            refusals::field_rule(t, raw).0,
            kind,
        ) is Some,
        t is Text ==> made(t, raw) == t,
{
    lemma_names();
    let a = refusals::field_rule(t, raw).0;
    let b = errors::serial_rule(a, raw).0;
    let c = errors::key_rule(b, raw).0;
    let e = errors::added_rule(c, raw).0;
    let f = errors::index_rule(e, raw).0;
    let g = options::cache_rule(f, raw).0;
    let h = options::level_rule(g, raw).0;
    assert(part(b, kind, key) == part(a, kind, key));
    assert(part(c, kind, key) == part(b, kind, key));
    assert(part(e, kind, key) == part(c, kind, key));
    assert(part(f, kind, key) == part(e, kind, key));
    assert(part(g, kind, key) == part(f, kind, key));
    assert(part(h, kind, key) == part(g, kind, key));
    if t is Text {
        lemma_text_rows(t, raw, refusals::field_table());
    }
}

proof fn lemma_text_rows(t: Tree, raw: Seq<char>, es: Seq<refusals::FieldModel>)
    requires
        t is Text,
    ensures
        refusals::rows_rule(t, raw, es).0 == t,
    decreases es.len(),
{
    if es.len() > 0 {
        lemma_text_rows(t, raw, es.drop_last());
    }
}

/// The rules change nothing but what they name: of a table whether it is temporary, how it is
/// partitioned, what it inherits, its options and its columns; of a view whether it is temporary; of
/// an index how it is built and of what kind it is; of a sequence its type and its options; the
/// operations of an `ALTER TABLE` and the modes of a transaction. Every other statement stays.
#[verifier::spinoff_prover]
#[verifier::rlimit(60)]
pub proof fn law_rules_keep_the_rest(t: Tree, raw: Seq<char>, kind: Seq<char>, key: Seq<char>)
    requires
        kind == "CreateTable"@ ==> key != "columns"@ && key != "temporary"@ && key
            != "partition_by"@ && key != "inherits"@ && key != "table_options"@,
        kind == "CreateView"@ ==> key != "temporary"@,
        kind == "CreateIndex"@ ==> key != "async"@ && key != "concurrently"@ && key != "using"@
            && key != "index_options"@,
        kind == "CreateSequence"@ ==> key != "sequence_options"@ && key != "data_type"@,
        kind == "AlterTable"@ ==> key != "operations"@,
        kind == "StartTransaction"@ ==> key != "modes"@,
    ensures
        part(made(t, raw), kind, key) == part(t, kind, key),
        syntax::member(made(t, raw), kind) is Some == syntax::member(t, kind) is Some,
        transactions::is_kind(made(t, raw), kind) == transactions::is_kind(t, kind),
        kind != "CreateTable"@ && kind != "CreateView"@ && kind != "CreateIndex"@ && kind
            != "CreateSequence"@ && kind != "AlterTable"@ && kind != "StartTransaction"@
            ==> syntax::member(made(t, raw), kind) == syntax::member(t, kind),
{
    lemma_names();
    lemma_later_stages_keep(t, raw, kind, key);
    lemma_mending_rows_keep(t, raw, refusals::field_table().len() as int, kind, key);
    assert(refusals::field_table().take(refusals::field_table().len() as int)
        =~= refusals::field_table());
    if t is Text {
    } else {
        lemma_no_text(t, raw);
    }
}

proof fn lemma_no_text(t: Tree, raw: Seq<char>)
    requires
        !(t is Text),
    ensures
        !(made(t, raw) is Text),
{
    lemma_no_text_rows(t, raw, refusals::field_table());
}

proof fn lemma_no_text_rows(t: Tree, raw: Seq<char>, es: Seq<refusals::FieldModel>)
    requires
        !(t is Text),
    ensures
        !(refusals::rows_rule(t, raw, es).0 is Text),
    decreases es.len(),
{
    if es.len() > 0 {
        lemma_no_text_rows(t, raw, es.drop_last());
    }
}

/// Rows that leave what they find change nothing, the others nothing but their field.
#[verifier::spinoff_prover]
#[verifier::rlimit(60)]
proof fn lemma_mending_rows_keep(
    t: Tree,
    raw: Seq<char>,
    n: int,
    kind: Seq<char>,
    key: Seq<char>,
)
    requires
        0 <= n <= refusals::field_table().len(),
        kind == "CreateTable"@ ==> key != "temporary"@ && key != "partition_by"@ && key
            != "inherits"@ && key != "table_options"@,
        kind == "CreateView"@ ==> key != "temporary"@,
        kind == "CreateIndex"@ ==> key != "using"@ && key != "index_options"@,
        kind == "CreateSequence"@ ==> key != "data_type"@,
    ensures
        ({
            let r = refusals::rows_rule(t, raw, refusals::field_table().take(n)).0;
            &&& part(r, kind, key) == part(t, kind, key)
            &&& syntax::member(r, kind) is Some == syntax::member(t, kind) is Some
            &&& kind != "CreateTable"@ && kind != "CreateView"@ && kind != "CreateIndex"@ && kind
                != "CreateSequence"@ ==> syntax::member(r, kind) == syntax::member(t, kind)
        }),
    decreases n,
{
    if n > 0 {
        let es = refusals::field_table().take(n);
        let front = refusals::field_table().take(n - 1);
        assert(es.drop_last() =~= front);
        lemma_mending_rows_keep(t, raw, n - 1, kind, key);
        let before = refusals::rows_rule(t, raw, front).0;
        let e = es.last();
        assert(e == refusals::field_table()[n - 1]);
        lemma_row_kinds(n - 1);
        if e.remedy != refusals::Remedy::Left {
            refusals::lemma_row_keeps(before, raw, e, kind, key);
        }
    }
}

proof fn lemma_row_kinds(i: int)
    requires
        0 <= i < refusals::field_table().len(),
    ensures
        ({
            let e = refusals::field_table()[i];
            e.remedy != refusals::Remedy::Left ==> {
                ||| e.kind == "CreateTable"@ && (e.field == "temporary"@ || e.field
                    == "partition_by"@ || e.field == "inherits"@ || e.field == "table_options"@)
                ||| e.kind == "CreateView"@ && e.field == "temporary"@
                ||| e.kind == "CreateIndex"@ && (e.field == "using"@ || e.field
                    == "index_options"@)
                ||| e.kind == "CreateSequence"@ && e.field == "data_type"@
            }
        }),
{
    reveal(refusals::field_table);
}

proof fn lemma_refusal_tells(t: Tree, raw: Seq<char>, es: Seq<refusals::RefusalModel>, j: int)
    requires
        0 <= j < es.len(),
        refusals::is_refused(t, es[j]),
    ensures
        refusals::refusal_reports(t, raw, es).contains(refusals::refusal_report(es[j], raw)),
    decreases es.len(),
{
    let front = es.drop_last();
    let before = refusals::refusal_reports(t, raw, front);
    let all = refusals::refusal_reports(t, raw, es);
    let d = refusals::refusal_report(es[j], raw);
    if j < front.len() {
        assert(front[j] == es[j]);
        lemma_refusal_tells(t, raw, front, j);
        let i = choose|i: int| 0 <= i < before.len() && before[i] == d;
        assert(all[i] == d);
    } else {
        assert(all[before.len() as int] == d);
    }
}

proof fn lemma_all_refusals_tell(
    ts: Seq<Tree>,
    raw: Seq<char>,
    es: Seq<refusals::RefusalModel>,
    i: int,
    j: int,
)
    requires
        0 <= i < ts.len(),
        0 <= j < es.len(),
        refusals::is_refused(ts[i], es[j]),
    ensures
        refusals::all_refusal_reports(ts, raw, es).contains(refusals::refusal_report(es[j], raw)),
    decreases ts.len(),
{
    let front = ts.drop_last();
    let before = refusals::all_refusal_reports(front, raw, es);
    let last = refusals::refusal_reports(ts.last(), raw, es);
    let d = refusals::refusal_report(es[j], raw);
    lemma_in_sum(before, last, d);
    if i < front.len() {
        assert(front[i] == ts[i]);
        lemma_all_refusals_tell(front, raw, es, i, j);
    } else {
        lemma_refusal_tells(ts.last(), raw, es, j);
    }
}

/// A statement that a row of the table on statements speaks of behind the rules is refused.
proof fn lemma_statement_refused(t: Tree, raw: Seq<char>, j: int)
    requires
        0 <= j < refusals::statement_table().len(),
        refusals::is_refused(made(t, raw), refusals::statement_table()[j]),
    ensures
        refused(t, raw, refusals::statement_table()[j].rule),
{
    let u = made(t, raw);
    let e = refusals::statement_table()[j];
    let d = refusals::refusal_report(e, raw);
    let x = errors::truncate_reports(u, raw);
    let y = errors::column_reports(errors::operations(u), raw);
    let z = refusals::refused(u, raw);
    let p = refusals::refusal_reports(u, raw, refusals::statement_table());
    let q = refusals::all_refusal_reports(operations_of(u), raw, refusals::operation_table());
    let r = refusals::all_refusal_reports(columns_of(u), raw, refusals::column_table());
    lemma_refusal_tells(u, raw, refusals::statement_table(), j);
    lemma_in_sum(p, q, d);
    lemma_in_sum(p + q, r, d);
    lemma_in_sum(x + y, z, d);
    lemma_stages(t, raw, d);
    lemma_found(t, raw, d);
}

/// An operation that a row of the table on operations speaks of behind the rules is refused.
proof fn lemma_operation_refused(t: Tree, raw: Seq<char>, i: int, j: int)
    requires
        0 <= i < operations_of(made(t, raw)).len(),
        0 <= j < refusals::operation_table().len(),
        refusals::is_refused(operations_of(made(t, raw))[i], refusals::operation_table()[j]),
    ensures
        refused(t, raw, refusals::operation_table()[j].rule),
{
    let u = made(t, raw);
    let e = refusals::operation_table()[j];
    let d = refusals::refusal_report(e, raw);
    let x = errors::truncate_reports(u, raw);
    let y = errors::column_reports(errors::operations(u), raw);
    let z = refusals::refused(u, raw);
    let p = refusals::refusal_reports(u, raw, refusals::statement_table());
    let q = refusals::all_refusal_reports(operations_of(u), raw, refusals::operation_table());
    let r = refusals::all_refusal_reports(columns_of(u), raw, refusals::column_table());
    lemma_all_refusals_tell(operations_of(u), raw, refusals::operation_table(), i, j);
    lemma_in_sum(p, q, d);
    lemma_in_sum(p + q, r, d);
    lemma_in_sum(x + y, z, d);
    lemma_stages(t, raw, d);
    lemma_found(t, raw, d);
}

/// A column that a row of the table on columns speaks of behind the rules is refused.
proof fn lemma_column_refused(t: Tree, raw: Seq<char>, i: int, j: int)
    requires
        0 <= i < columns_of(made(t, raw)).len(),
        0 <= j < refusals::column_table().len(),
        refusals::is_refused(columns_of(made(t, raw))[i], refusals::column_table()[j]),
    ensures
        refused(t, raw, refusals::column_table()[j].rule),
{
    let u = made(t, raw);
    let e = refusals::column_table()[j];
    let d = refusals::refusal_report(e, raw);
    let x = errors::truncate_reports(u, raw);
    let y = errors::column_reports(errors::operations(u), raw);
    let z = refusals::refused(u, raw);
    let p = refusals::refusal_reports(u, raw, refusals::statement_table());
    let q = refusals::all_refusal_reports(operations_of(u), raw, refusals::operation_table());
    let r = refusals::all_refusal_reports(columns_of(u), raw, refusals::column_table());
    lemma_all_refusals_tell(columns_of(u), raw, refusals::column_table(), i, j);
    lemma_in_sum(p, q, d);
    lemma_in_sum(p + q, r, d);
    lemma_in_sum(x + y, z, d);
    lemma_stages(t, raw, d);
    lemma_found(t, raw, d);
}

/// A `TRUNCATE` is refused.
pub proof fn law_truncate_is_refused(t: Tree, raw: Seq<char>)
    requires
        transactions::is_kind(t, "Truncate"@),
    ensures
        refused(t, raw, LintRule::Truncate),
        !errors::is_clean(t),
{
    lemma_names();
    law_rules_keep_the_rest(t, raw, "Truncate"@, "name"@);
    let u = made(t, raw);
    let d = errors::truncate_report(raw);
    let x = errors::truncate_reports(u, raw);
    let y = errors::column_reports(errors::operations(u), raw);
    let z = refusals::refused(u, raw);
    assert(x[0] == d);
    lemma_in_sum(x, y, d);
    lemma_in_sum(x + y, z, d);
    lemma_stages(t, raw, d);
    lemma_found(t, raw, d);
    errors::law_clean_is_what_is_not_reported(t, raw);
}

/// Statements that DSQL does not have are refused, each under the rule that is named after it.
#[verifier::spinoff_prover]
#[verifier::rlimit(80)]
pub proof fn law_unsupported_statements_are_refused(t: Tree, raw: Seq<char>)
    ensures
        transactions::is_kind(t, "CreateTrigger"@) ==> refused(t, raw, LintRule::UnsupportedCreateTrigger),
        transactions::is_kind(t, "CreateExtension"@) ==> refused(t, raw, LintRule::UnsupportedCreateExtension),
        transactions::is_kind(t, "CreateDatabase"@) ==> refused(t, raw, LintRule::UnsupportedCreateDatabase),
        transactions::is_kind(t, "CreatePolicy"@) ==> refused(t, raw, LintRule::UnsupportedCreatePolicy),
        transactions::is_kind(t, "Savepoint"@) ==> refused(t, raw, LintRule::UnsupportedSavepoint),
        transactions::is_kind(t, "ReleaseSavepoint"@) ==> refused(t, raw, LintRule::UnsupportedReleaseSavepoint),
        transactions::is_kind(t, "Declare"@) ==> refused(t, raw, LintRule::UnsupportedDeclareCursor),
        transactions::is_kind(t, "CreateType"@) ==> refused(t, raw, LintRule::UnsupportedCreateType),
        transactions::is_kind(t, "CreateServer"@) ==> refused(t, raw, LintRule::UnsupportedCreateServer),
        transactions::is_kind(t, "Lock"@) ==> refused(t, raw, LintRule::UnsupportedLockTable),
        transactions::is_kind(t, "Vacuum"@) ==> refused(t, raw, LintRule::UnsupportedVacuum),
        transactions::is_kind(t, "AlterIndex"@) ==> refused(t, raw, LintRule::UnsupportedAlterIndex),
        transactions::is_kind(t, "LISTEN"@) ==> refused(t, raw, LintRule::UnsupportedListen),
        transactions::is_kind(t, "LockTables"@) ==> refused(t, raw, LintRule::UnsupportedLockTable),
        transactions::is_kind(t, "UNLISTEN"@) ==> refused(t, raw, LintRule::UnsupportedUnlisten),
        transactions::is_kind(t, "NOTIFY"@) ==> refused(t, raw, LintRule::UnsupportedNotify),
        transactions::is_kind(t, "Load"@) ==> refused(t, raw, LintRule::UnsupportedLoad),
        transactions::is_kind(t, "Prepare"@) ==> refused(t, raw, LintRule::UnsupportedPrepare),
        transactions::is_kind(t, "Deallocate"@) ==> refused(t, raw, LintRule::UnsupportedDeallocate),
        transactions::is_kind(t, "Discard"@) ==> refused(t, raw, LintRule::UnsupportedDiscard),
        transactions::is_kind(t, "CreateProcedure"@) ==> refused(t, raw, LintRule::UnsupportedCreateProcedure),
        transactions::is_kind(t, "AlterPolicy"@) ==> refused(t, raw, LintRule::UnsupportedAlterPolicy),
        transactions::is_kind(t, "AlterType"@) ==> refused(t, raw, LintRule::UnsupportedAlterType),
        transactions::is_kind(t, "DropTrigger"@) ==> refused(t, raw, LintRule::UnsupportedDropTrigger),
        transactions::is_kind(t, "DropPolicy"@) ==> refused(t, raw, LintRule::UnsupportedDropPolicy),
{
    lemma_names();
    lemma_statement_rows();
    reveal_strlit("");
    assert(""@.len() == 0);
    if transactions::is_kind(t, "CreateTrigger"@) {
        law_rules_keep_the_rest(t, raw, "CreateTrigger"@, "name"@);
        lemma_statement_refused(t, raw, 0);
    }
    if transactions::is_kind(t, "CreateExtension"@) {
        law_rules_keep_the_rest(t, raw, "CreateExtension"@, "name"@);
        lemma_statement_refused(t, raw, 1);
    }
    if transactions::is_kind(t, "CreateDatabase"@) {
        law_rules_keep_the_rest(t, raw, "CreateDatabase"@, "name"@);
        lemma_statement_refused(t, raw, 2);
    }
    if transactions::is_kind(t, "CreatePolicy"@) {
        law_rules_keep_the_rest(t, raw, "CreatePolicy"@, "name"@);
        lemma_statement_refused(t, raw, 3);
    }
    if transactions::is_kind(t, "Savepoint"@) {
        law_rules_keep_the_rest(t, raw, "Savepoint"@, "name"@);
        lemma_statement_refused(t, raw, 4);
    }
    if transactions::is_kind(t, "ReleaseSavepoint"@) {
        law_rules_keep_the_rest(t, raw, "ReleaseSavepoint"@, "name"@);
        lemma_statement_refused(t, raw, 5);
    }
    if transactions::is_kind(t, "Declare"@) {
        law_rules_keep_the_rest(t, raw, "Declare"@, "name"@);
        lemma_statement_refused(t, raw, 6);
    }
    if transactions::is_kind(t, "CreateType"@) {
        law_rules_keep_the_rest(t, raw, "CreateType"@, "name"@);
        lemma_statement_refused(t, raw, 7);
    }
    if transactions::is_kind(t, "CreateServer"@) {
        law_rules_keep_the_rest(t, raw, "CreateServer"@, "name"@);
        lemma_statement_refused(t, raw, 8);
    }
    if transactions::is_kind(t, "Lock"@) {
        law_rules_keep_the_rest(t, raw, "Lock"@, "name"@);
        lemma_statement_refused(t, raw, 9);
    }
    if transactions::is_kind(t, "Vacuum"@) {
        law_rules_keep_the_rest(t, raw, "Vacuum"@, "name"@);
        lemma_statement_refused(t, raw, 10);
    }
    if transactions::is_kind(t, "AlterIndex"@) {
        law_rules_keep_the_rest(t, raw, "AlterIndex"@, "name"@);
        lemma_statement_refused(t, raw, 11);
    }
    if transactions::is_kind(t, "LISTEN"@) {
        law_rules_keep_the_rest(t, raw, "LISTEN"@, "name"@);
        lemma_statement_refused(t, raw, 12);
    }
    if transactions::is_kind(t, "LockTables"@) {
        law_rules_keep_the_rest(t, raw, "LockTables"@, "name"@);
        lemma_statement_refused(t, raw, 13);
    }
    if transactions::is_kind(t, "UNLISTEN"@) {
        law_rules_keep_the_rest(t, raw, "UNLISTEN"@, "name"@);
        lemma_statement_refused(t, raw, 14);
    }
    if transactions::is_kind(t, "NOTIFY"@) {
        law_rules_keep_the_rest(t, raw, "NOTIFY"@, "name"@);
        lemma_statement_refused(t, raw, 15);
    }
    if transactions::is_kind(t, "Load"@) {
        law_rules_keep_the_rest(t, raw, "Load"@, "name"@);
        lemma_statement_refused(t, raw, 16);
    }
    if transactions::is_kind(t, "Prepare"@) {
        law_rules_keep_the_rest(t, raw, "Prepare"@, "name"@);
        lemma_statement_refused(t, raw, 17);
    }
    if transactions::is_kind(t, "Deallocate"@) {
        law_rules_keep_the_rest(t, raw, "Deallocate"@, "name"@);
        lemma_statement_refused(t, raw, 18);
    }
    if transactions::is_kind(t, "Discard"@) {
        law_rules_keep_the_rest(t, raw, "Discard"@, "name"@);
        lemma_statement_refused(t, raw, 19);
    }
    if transactions::is_kind(t, "CreateProcedure"@) {
        law_rules_keep_the_rest(t, raw, "CreateProcedure"@, "name"@);
        lemma_statement_refused(t, raw, 20);
    }
    if transactions::is_kind(t, "AlterPolicy"@) {
        law_rules_keep_the_rest(t, raw, "AlterPolicy"@, "name"@);
        lemma_statement_refused(t, raw, 21);
    }
    if transactions::is_kind(t, "AlterType"@) {
        law_rules_keep_the_rest(t, raw, "AlterType"@, "name"@);
        lemma_statement_refused(t, raw, 22);
    }
    if transactions::is_kind(t, "DropTrigger"@) {
        law_rules_keep_the_rest(t, raw, "DropTrigger"@, "name"@);
        lemma_statement_refused(t, raw, 23);
    }
    if transactions::is_kind(t, "DropPolicy"@) {
        law_rules_keep_the_rest(t, raw, "DropPolicy"@, "name"@);
        lemma_statement_refused(t, raw, 24);
    }
}

proof fn lemma_statement_rows()
    ensures
        refusals::statement_table().len() == 30,
        ({
            let e = refusals::statement_table()[0];
            e.first == ""@ && e.second == ""@ && e.third == ""@ && e.kind == "CreateTrigger"@ && e.rule
                == LintRule::UnsupportedCreateTrigger
        }),
        ({
            let e = refusals::statement_table()[1];
            e.first == ""@ && e.second == ""@ && e.third == ""@ && e.kind == "CreateExtension"@ && e.rule
                == LintRule::UnsupportedCreateExtension
        }),
        ({
            let e = refusals::statement_table()[2];
            e.first == ""@ && e.second == ""@ && e.third == ""@ && e.kind == "CreateDatabase"@ && e.rule
                == LintRule::UnsupportedCreateDatabase
        }),
        ({
            let e = refusals::statement_table()[3];
            e.first == ""@ && e.second == ""@ && e.third == ""@ && e.kind == "CreatePolicy"@ && e.rule
                == LintRule::UnsupportedCreatePolicy
        }),
        ({
            let e = refusals::statement_table()[4];
            e.first == ""@ && e.second == ""@ && e.third == ""@ && e.kind == "Savepoint"@ && e.rule
                == LintRule::UnsupportedSavepoint
        }),
        ({
            let e = refusals::statement_table()[5];
            e.first == ""@ && e.second == ""@ && e.third == ""@ && e.kind == "ReleaseSavepoint"@ && e.rule
                == LintRule::UnsupportedReleaseSavepoint
        }),
        ({
            let e = refusals::statement_table()[6];
            e.first == ""@ && e.second == ""@ && e.third == ""@ && e.kind == "Declare"@ && e.rule
                == LintRule::UnsupportedDeclareCursor
        }),
        ({
            let e = refusals::statement_table()[7];
            e.first == ""@ && e.second == ""@ && e.third == ""@ && e.kind == "CreateType"@ && e.rule
                == LintRule::UnsupportedCreateType
        }),
        ({
            let e = refusals::statement_table()[8];
            e.first == ""@ && e.second == ""@ && e.third == ""@ && e.kind == "CreateServer"@ && e.rule
                == LintRule::UnsupportedCreateServer
        }),
        ({
            let e = refusals::statement_table()[9];
            e.first == ""@ && e.second == ""@ && e.third == ""@ && e.kind == "Lock"@ && e.rule
                == LintRule::UnsupportedLockTable
        }),
        ({
            let e = refusals::statement_table()[10];
            e.first == ""@ && e.second == ""@ && e.third == ""@ && e.kind == "Vacuum"@ && e.rule
                == LintRule::UnsupportedVacuum
        }),
        ({
            let e = refusals::statement_table()[11];
            e.first == ""@ && e.second == ""@ && e.third == ""@ && e.kind == "AlterIndex"@ && e.rule
                == LintRule::UnsupportedAlterIndex
        }),
        ({
            let e = refusals::statement_table()[12];
            e.first == ""@ && e.second == ""@ && e.third == ""@ && e.kind == "LISTEN"@ && e.rule
                == LintRule::UnsupportedListen
        }),
        ({
            let e = refusals::statement_table()[13];
            e.first == ""@ && e.second == ""@ && e.third == ""@ && e.kind == "LockTables"@ && e.rule
                == LintRule::UnsupportedLockTable
        }),
        ({
            let e = refusals::statement_table()[14];
            e.first == ""@ && e.second == ""@ && e.third == ""@ && e.kind == "UNLISTEN"@ && e.rule
                == LintRule::UnsupportedUnlisten
        }),
        ({
            let e = refusals::statement_table()[15];
            e.first == ""@ && e.second == ""@ && e.third == ""@ && e.kind == "NOTIFY"@ && e.rule
                == LintRule::UnsupportedNotify
        }),
        ({
            let e = refusals::statement_table()[16];
            e.first == ""@ && e.second == ""@ && e.third == ""@ && e.kind == "Load"@ && e.rule
                == LintRule::UnsupportedLoad
        }),
        ({
            let e = refusals::statement_table()[17];
            e.first == ""@ && e.second == ""@ && e.third == ""@ && e.kind == "Prepare"@ && e.rule
                == LintRule::UnsupportedPrepare
        }),
        ({
            let e = refusals::statement_table()[18];
            e.first == ""@ && e.second == ""@ && e.third == ""@ && e.kind == "Deallocate"@ && e.rule
                == LintRule::UnsupportedDeallocate
        }),
        ({
            let e = refusals::statement_table()[19];
            e.first == ""@ && e.second == ""@ && e.third == ""@ && e.kind == "Discard"@ && e.rule
                == LintRule::UnsupportedDiscard
        }),
        ({
            let e = refusals::statement_table()[20];
            e.first == ""@ && e.second == ""@ && e.third == ""@ && e.kind == "CreateProcedure"@ && e.rule
                == LintRule::UnsupportedCreateProcedure
        }),
        ({
            let e = refusals::statement_table()[21];
            e.first == ""@ && e.second == ""@ && e.third == ""@ && e.kind == "AlterPolicy"@ && e.rule
                == LintRule::UnsupportedAlterPolicy
        }),
        ({
            let e = refusals::statement_table()[22];
            e.first == ""@ && e.second == ""@ && e.third == ""@ && e.kind == "AlterType"@ && e.rule
                == LintRule::UnsupportedAlterType
        }),
        ({
            let e = refusals::statement_table()[23];
            e.first == ""@ && e.second == ""@ && e.third == ""@ && e.kind == "DropTrigger"@ && e.rule
                == LintRule::UnsupportedDropTrigger
        }),
        ({
            let e = refusals::statement_table()[24];
            e.first == ""@ && e.second == ""@ && e.third == ""@ && e.kind == "DropPolicy"@ && e.rule
                == LintRule::UnsupportedDropPolicy
        }),
        ({
            let e = refusals::statement_table()[25];
            e.first == "Copy"@ && e.second == "target"@ && e.third == ""@ && e.kind == "File"@ && e.rule
                == LintRule::UnsupportedCopyFromFile
        }),
        ({
            let e = refusals::statement_table()[26];
            e.first == "Copy"@ && e.second == "target"@ && e.third == ""@ && e.kind == "Program"@ && e.rule
                == LintRule::UnsupportedCopyFromFile
        }),
        ({
            let e = refusals::statement_table()[27];
            e.first == "Set"@ && e.second == ""@ && e.third == ""@ && e.kind == "SetTransaction"@ && e.rule
                == LintRule::SetTransaction
        }),
        ({
            let e = refusals::statement_table()[28];
            e.first == "Drop"@ && e.second == "object_type"@ && e.third == ""@ && e.kind == "MaterializedView"@ && e.rule
                == LintRule::UnsupportedDropMaterializedView
        }),
        ({
            let e = refusals::statement_table()[29];
            e.first == "Drop"@ && e.second == "object_type"@ && e.third == ""@ && e.kind == "Type"@ && e.rule
                == LintRule::UnsupportedDropType
        }),
{
    reveal(refusals::statement_table);
}

/// `COPY` with a file or a program, `SET TRANSACTION`, and dropping a materialized view or a type are
/// refused.
#[verifier::spinoff_prover]
#[verifier::rlimit(80)]
pub proof fn law_unsupported_forms_are_refused(t: Tree, raw: Seq<char>)
    ensures
        transactions::is_kind(token::field(token::field(t, "Copy"@), "target"@), "File"@) ==> refused(t, raw, LintRule::UnsupportedCopyFromFile),
        transactions::is_kind(token::field(token::field(t, "Copy"@), "target"@), "Program"@) ==> refused(t, raw, LintRule::UnsupportedCopyFromFile),
        transactions::is_kind(token::field(t, "Set"@), "SetTransaction"@) ==> refused(t, raw, LintRule::SetTransaction),
        transactions::is_kind(token::field(token::field(t, "Drop"@), "object_type"@), "MaterializedView"@) ==> refused(t, raw, LintRule::UnsupportedDropMaterializedView),
        transactions::is_kind(token::field(token::field(t, "Drop"@), "object_type"@), "Type"@) ==> refused(t, raw, LintRule::UnsupportedDropType),
{
    lemma_names();
    lemma_statement_rows();
    reveal_strlit("");
    assert(""@.len() == 0);
    law_rules_keep_the_rest(t, raw, "Copy"@, "name"@);
    law_rules_keep_the_rest(t, raw, "Drop"@, "name"@);
    law_rules_keep_the_rest(t, raw, "Set"@, "name"@);
    if transactions::is_kind(token::field(token::field(t, "Copy"@), "target"@), "File"@) {
        lemma_statement_refused(t, raw, 25);
    }
    if transactions::is_kind(token::field(token::field(t, "Copy"@), "target"@), "Program"@) {
        lemma_statement_refused(t, raw, 26);
    }
    if transactions::is_kind(token::field(t, "Set"@), "SetTransaction"@) {
        lemma_statement_refused(t, raw, 27);
    }
    if transactions::is_kind(token::field(token::field(t, "Drop"@), "object_type"@), "MaterializedView"@) {
        lemma_statement_refused(t, raw, 28);
    }
    if transactions::is_kind(token::field(token::field(t, "Drop"@), "object_type"@), "Type"@) {
        lemma_statement_refused(t, raw, 29);
    }
}

/// The rows on fields, as the laws below name them.
proof fn lemma_field_rows()
    ensures
        refusals::field_table().len() == 12,
        ({
            let e = refusals::field_table()[0];
            e.kind == "CreateTable"@ && e.field == "temporary"@ && e.mend == refusals::Mend::Down && e.rule
                == LintRule::TempTable && e.remedy == refusals::Remedy::Warned
        }),
        ({
            let e = refusals::field_table()[1];
            e.kind == "CreateTable"@ && e.field == "partition_by"@ && e.mend == refusals::Mend::Null && e.rule
                == LintRule::PartitionBy && e.remedy == refusals::Remedy::Warned
        }),
        ({
            let e = refusals::field_table()[2];
            e.kind == "CreateTable"@ && e.field == "inherits"@ && e.mend == refusals::Mend::Null && e.rule
                == LintRule::Inherits && e.remedy == refusals::Remedy::Warned
        }),
        ({
            let e = refusals::field_table()[3];
            e.kind == "CreateTable"@ && e.field == "query"@ && e.mend == refusals::Mend::Null && e.rule
                == LintRule::CreateTableAs && e.remedy == refusals::Remedy::Left
        }),
        ({
            let e = refusals::field_table()[4];
            e.kind == "CreateTable"@ && e.field == "table_options"@ && e.mend == refusals::Mend::Bare && e.rule
                == LintRule::Tablespace && e.remedy == refusals::Remedy::Warned
        }),
        ({
            let e = refusals::field_table()[5];
            e.kind == "CreateView"@ && e.field == "temporary"@ && e.mend == refusals::Mend::Down && e.rule
                == LintRule::UnsupportedTempView && e.remedy == refusals::Remedy::Warned
        }),
        ({
            let e = refusals::field_table()[6];
            e.kind == "CreateView"@ && e.field == "materialized"@ && e.mend == refusals::Mend::Down && e.rule
                == LintRule::UnsupportedMaterializedView && e.remedy == refusals::Remedy::Left
        }),
        ({
            let e = refusals::field_table()[7];
            e.kind == "CreateIndex"@ && e.field == "using"@ && e.mend == refusals::Mend::Null && e.rule
                == LintRule::IndexUsing && e.remedy == refusals::Remedy::Judged
        }),
        ({
            let e = refusals::field_table()[8];
            e.kind == "CreateIndex"@ && e.field == "index_options"@ && e.mend == refusals::Mend::Empty && e.rule
                == LintRule::IndexUsing && e.remedy == refusals::Remedy::Judged
        }),
        ({
            let e = refusals::field_table()[9];
            e.kind == "CreateIndex"@ && e.field == "predicate"@ && e.mend == refusals::Mend::Null && e.rule
                == LintRule::IndexPartial && e.remedy == refusals::Remedy::Left
        }),
        ({
            let e = refusals::field_table()[10];
            e.kind == "CreateSequence"@ && e.field == "data_type"@ && e.mend == refusals::Mend::Big && e.rule
                == LintRule::SequenceType && e.remedy == refusals::Remedy::Fixed
        }),
        ({
            let e = refusals::field_table()[11];
            e.kind == "Rollback"@ && e.field == "savepoint"@ && e.mend == refusals::Mend::Null && e.rule
                == LintRule::UnsupportedRollbackToSavepoint && e.remedy == refusals::Remedy::Left
        }),
{
    reveal(refusals::field_table);
}

proof fn lemma_field_told(t: Tree, raw: Seq<char>, j: int)
    requires
        0 <= j < refusals::field_table().len(),
        refusals::applies(t, refusals::field_table()[j]),
    ensures
        ({
            let e = refusals::field_table()[j];
            &&& e.remedy == refusals::Remedy::Left ==> refused(t, raw, e.rule)
            &&& e.remedy != refusals::Remedy::Left ==> rewritten(t, raw, e.rule) && part(
                made(t, raw),
                e.kind,
                e.field,
            ) == Some(refusals::neutral(e.mend))
        }),
{
    lemma_names();
    let table = refusals::field_table();
    let e = table[j];
    refusals::lemma_table_is_apart();
    lemma_row_tells(t, raw, table, j);
    let d = refusals::field_report(e, refusals::value_of(t, e)->Some_0, raw);
    lemma_stages(t, raw, d);
    lemma_found(t, raw, d);
    lemma_later_stages_keep(t, raw, e.kind, e.field);
    let a = refusals::field_rule(t, raw).0;
    if e.remedy != refusals::Remedy::Left {
        assert(refusals::value_of(a, e) == Some(refusals::neutral(e.mend)));
        assert(part(a, e.kind, e.field) == refusals::value_of(a, e));
    }
}

/// Clauses that DSQL does not have are taken off and reported: `TEMPORARY`, `PARTITION BY`, `INHERITS`
/// and a lone `TABLESPACE` of a table, `TEMPORARY` of a view, `USING` of an index, and a type of a
/// sequence other than `BIGINT`.
#[verifier::spinoff_prover]
#[verifier::rlimit(80)]
pub proof fn law_unsupported_clauses_are_taken_off(t: Tree, raw: Seq<char>)
    ensures
        (part(t, "CreateTable"@, "temporary"@) matches Some(v) && (v == Tree::Flag(true))) ==> rewritten(t, raw, LintRule::TempTable) && part(
            made(t, raw),
            "CreateTable"@,
            "temporary"@,
        ) == Some(Tree::Flag(false)),
        (part(t, "CreateTable"@, "partition_by"@) matches Some(v) && (v != Tree::Null)) ==> rewritten(t, raw, LintRule::PartitionBy) && part(
            made(t, raw),
            "CreateTable"@,
            "partition_by"@,
        ) == Some(Tree::Null),
        (part(t, "CreateTable"@, "inherits"@) matches Some(v) && (v != Tree::Null)) ==> rewritten(t, raw, LintRule::Inherits) && part(
            made(t, raw),
            "CreateTable"@,
            "inherits"@,
        ) == Some(Tree::Null),
        (part(t, "CreateTable"@, "table_options"@) matches Some(v) && (token::field(v, "Plain"@) matches Tree::List(options) && options.len() == 1 && transactions::is_kind(options[0], "TableSpace"@))) ==> rewritten(t, raw, LintRule::Tablespace) && part(
            made(t, raw),
            "CreateTable"@,
            "table_options"@,
        ) == Some(Tree::Text("None"@)),
        (part(t, "CreateView"@, "temporary"@) matches Some(v) && (v == Tree::Flag(true))) ==> rewritten(t, raw, LintRule::UnsupportedTempView) && part(
            made(t, raw),
            "CreateView"@,
            "temporary"@,
        ) == Some(Tree::Flag(false)),
        (part(t, "CreateIndex"@, "using"@) matches Some(v) && (v != Tree::Null)) ==> rewritten(t, raw, LintRule::IndexUsing) && part(
            made(t, raw),
            "CreateIndex"@,
            "using"@,
        ) == Some(Tree::Null),
        (part(t, "CreateIndex"@, "index_options"@) matches Some(v) && (v matches Tree::List(items) && items.len() > 0)) ==> rewritten(t, raw, LintRule::IndexUsing) && part(
            made(t, raw),
            "CreateIndex"@,
            "index_options"@,
        ) == Some(Tree::List(seq![])),
        (part(t, "CreateSequence"@, "data_type"@) matches Some(v) && (v != Tree::Null && !transactions::is_kind(v, "BigInt"@) && !transactions::is_kind(v, "Int8"@))) ==> rewritten(t, raw, LintRule::SequenceType) && part(
            made(t, raw),
            "CreateSequence"@,
            "data_type"@,
        ) == Some(syntax::variant("BigInt"@, Tree::Null)),
{
    lemma_names();
    lemma_field_rows();
    if refusals::applies(t, refusals::field_table()[0]) {
        lemma_field_told(t, raw, 0);
    }
    if refusals::applies(t, refusals::field_table()[1]) {
        lemma_field_told(t, raw, 1);
    }
    if refusals::applies(t, refusals::field_table()[2]) {
        lemma_field_told(t, raw, 2);
    }
    if refusals::applies(t, refusals::field_table()[4]) {
        lemma_field_told(t, raw, 4);
    }
    if refusals::applies(t, refusals::field_table()[5]) {
        lemma_field_told(t, raw, 5);
    }
    if refusals::applies(t, refusals::field_table()[7]) {
        lemma_field_told(t, raw, 7);
    }
    if refusals::applies(t, refusals::field_table()[8]) {
        lemma_field_told(t, raw, 8);
    }
    if refusals::applies(t, refusals::field_table()[10]) {
        lemma_field_told(t, raw, 10);
    }
}

/// A table made by a query, a materialized view, a partial index and a rollback to a savepoint are
/// refused.
#[verifier::spinoff_prover]
#[verifier::rlimit(80)]
pub proof fn law_unsupported_clauses_are_refused(t: Tree, raw: Seq<char>)
    ensures
        (part(t, "CreateTable"@, "query"@) matches Some(v) && (v != Tree::Null)) ==> refused(t, raw, LintRule::CreateTableAs),
        (part(t, "CreateView"@, "materialized"@) matches Some(v) && (v == Tree::Flag(true))) ==> refused(t, raw, LintRule::UnsupportedMaterializedView),
        (part(t, "CreateIndex"@, "predicate"@) matches Some(v) && (v != Tree::Null)) ==> refused(t, raw, LintRule::IndexPartial),
        (part(t, "Rollback"@, "savepoint"@) matches Some(v) && (v != Tree::Null)) ==> refused(t, raw, LintRule::UnsupportedRollbackToSavepoint),
{
    lemma_names();
    lemma_field_rows();
    if refusals::applies(t, refusals::field_table()[3]) {
        lemma_field_told(t, raw, 3);
    }
    if refusals::applies(t, refusals::field_table()[6]) {
        lemma_field_told(t, raw, 6);
    }
    if refusals::applies(t, refusals::field_table()[9]) {
        lemma_field_told(t, raw, 9);
    }
    if refusals::applies(t, refusals::field_table()[11]) {
        lemma_field_told(t, raw, 11);
    }
}

/// What becomes of the operations and the columns of a statement.
#[verifier::spinoff_prover]
#[verifier::rlimit(60)]
proof fn lemma_lists(t: Tree, raw: Seq<char>)
    ensures
        operations_of(made(t, raw)) == errors::without_added_serials(
            errors::with_not_valid(operations_of(t)),
        ),
        columns_of(made(t, raw)) == errors::without_serials(columns_of(t)),
{
    lemma_names();
    let a = refusals::field_rule(t, raw).0;
    refusals::lemma_table_is_apart();
    lemma_rows_keep(t, raw, refusals::field_table(), "AlterTable"@, "operations"@);
    lemma_rows_keep(t, raw, refusals::field_table(), "CreateTable"@, "columns"@);
    let b = errors::serial_rule(a, raw).0;
    let c = errors::key_rule(b, raw).0;
    let e = errors::added_rule(c, raw).0;
    let f = errors::index_rule(e, raw).0;
    let g = options::cache_rule(f, raw).0;
    let h = options::level_rule(g, raw).0;
    assert(operations_of(a) == operations_of(t));
    assert(columns_of(a) == columns_of(t));
    assert(operations_of(b) == operations_of(a));
    assert(columns_of(b) =~= errors::without_serials(columns_of(a)));
    assert(operations_of(c) =~= errors::with_not_valid(operations_of(b)));
    assert(columns_of(c) == columns_of(b));
    assert(operations_of(e) =~= errors::without_added_serials(operations_of(c)));
    assert(columns_of(e) == columns_of(c));
    assert(operations_of(f) == operations_of(e) && columns_of(f) == columns_of(e));
    assert(operations_of(g) == operations_of(f) && columns_of(g) == columns_of(f));
    assert(operations_of(h) == operations_of(g) && columns_of(h) == columns_of(g));
}

/// An operation behind the rules.
pub open spec fn operation_made(op: Tree) -> Tree {
    let a = if errors::adds_valid_key(op) {
        errors::as_not_valid(op)
    } else {
        op
    };
    if errors::is_off(errors::added_column(a)) {
        errors::adding_identity(a)
    } else {
        a
    }
}

proof fn lemma_operation_made(t: Tree, raw: Seq<char>, i: int)
    requires
        0 <= i < operations_of(t).len(),
    ensures
        operations_of(made(t, raw)).len() == operations_of(t).len(),
        operations_of(made(t, raw))[i] == operation_made(operations_of(t)[i]),
{
    lemma_lists(t, raw);
}

/// An operation keeps what it is: only a key that it adds and a column that it adds can change.
#[verifier::spinoff_prover]
proof fn lemma_operation_kept(op: Tree)
    ensures
        forall|k: Seq<char>| #[trigger] transactions::is_kind(operation_made(op), k)
            == transactions::is_kind(op, k),
        forall|k: Seq<char>| k != "AddConstraint"@ && k != "AddColumn"@ ==> #[trigger] token::field(
            operation_made(op),
            k,
        ) == token::field(op, k),
        token::field(token::field(operation_made(op), "AddConstraint"@), "constraint"@)
            == token::field(token::field(op, "AddConstraint"@), "constraint"@),
{
    lemma_names();
    let a = if errors::adds_valid_key(op) {
        errors::as_not_valid(op)
    } else {
        op
    };
    assert(forall|k: Seq<char>| #[trigger] transactions::is_kind(a, k) == transactions::is_kind(
        op,
        k,
    ));
    if errors::is_off(errors::added_column(a)) {
        lemma_off_is_record(errors::added_column(a));
        assert(syntax::member(a, "AddColumn"@) is Some);
    }
}

proof fn lemma_off_is_record(c: Tree)
    requires
        errors::is_off(c),
    ensures
        c is Record,
{
}

proof fn lemma_operation_rows()
    ensures
        refusals::operation_table().len() == 19,
        ({
            let e = refusals::operation_table()[0];
            e.first == ""@ && e.second == ""@ && e.third == ""@ && e.kind == "EnableRowLevelSecurity"@ && e.rule
                == LintRule::AtUnsupportedRowLevelSecurity
        }),
        ({
            let e = refusals::operation_table()[1];
            e.first == ""@ && e.second == ""@ && e.third == ""@ && e.kind == "DisableRowLevelSecurity"@ && e.rule
                == LintRule::AtUnsupportedRowLevelSecurity
        }),
        ({
            let e = refusals::operation_table()[2];
            e.first == ""@ && e.second == ""@ && e.third == ""@ && e.kind == "ForceRowLevelSecurity"@ && e.rule
                == LintRule::AtUnsupportedRowLevelSecurity
        }),
        ({
            let e = refusals::operation_table()[3];
            e.first == ""@ && e.second == ""@ && e.third == ""@ && e.kind == "NoForceRowLevelSecurity"@ && e.rule
                == LintRule::AtUnsupportedRowLevelSecurity
        }),
        ({
            let e = refusals::operation_table()[4];
            e.first == ""@ && e.second == ""@ && e.third == ""@ && e.kind == "ReplicaIdentity"@ && e.rule
                == LintRule::AtUnsupportedReplicaIdentity
        }),
        ({
            let e = refusals::operation_table()[5];
            e.first == ""@ && e.second == ""@ && e.third == ""@ && e.kind == "EnableRule"@ && e.rule
                == LintRule::AtUnsupportedRewriteRule
        }),
        ({
            let e = refusals::operation_table()[6];
            e.first == ""@ && e.second == ""@ && e.third == ""@ && e.kind == "DisableRule"@ && e.rule
                == LintRule::AtUnsupportedRewriteRule
        }),
        ({
            let e = refusals::operation_table()[7];
            e.first == ""@ && e.second == ""@ && e.third == ""@ && e.kind == "EnableAlwaysRule"@ && e.rule
                == LintRule::AtUnsupportedRewriteRule
        }),
        ({
            let e = refusals::operation_table()[8];
            e.first == ""@ && e.second == ""@ && e.third == ""@ && e.kind == "EnableReplicaRule"@ && e.rule
                == LintRule::AtUnsupportedRewriteRule
        }),
        ({
            let e = refusals::operation_table()[9];
            e.first == "AlterColumn"@ && e.second == "op"@ && e.third == ""@ && e.kind == "SetDataType"@ && e.rule
                == LintRule::AtUnsupportedAlterColumnSetType
        }),
        ({
            let e = refusals::operation_table()[10];
            e.first == "AlterColumn"@ && e.second == "op"@ && e.third == ""@ && e.kind == "SetNotNull"@ && e.rule
                == LintRule::AtUnsupportedAlterColumnSetNotNull
        }),
        ({
            let e = refusals::operation_table()[11];
            e.first == "AlterColumn"@ && e.second == "op"@ && e.third == ""@ && e.kind == "AddGenerated"@ && e.rule
                == LintRule::AtUnsupportedAlterColumnAddGenerated
        }),
        ({
            let e = refusals::operation_table()[12];
            e.first == "AddConstraint"@ && e.second == "constraint"@ && e.third == ""@ && e.kind == "Check"@ && e.rule
                == LintRule::AtUnsupportedAddCheck
        }),
        ({
            let e = refusals::operation_table()[13];
            e.first == "AddConstraint"@ && e.second == "constraint"@ && e.third == ""@ && e.kind == "PrimaryKey"@ && e.rule
                == LintRule::AtUnsupportedAddPrimaryKey
        }),
        ({
            let e = refusals::operation_table()[14];
            e.first == "AddConstraint"@ && e.second == "constraint"@ && e.third == ""@ && e.kind == "Unique"@ && e.rule
                == LintRule::AtUnsupportedAddUnique
        }),
        ({
            let e = refusals::operation_table()[15];
            e.first == "AddConstraint"@ && e.second == "constraint"@ && e.third == ""@ && e.kind == "PrimaryKeyUsingIndex"@ && e.rule
                == LintRule::AtUnsupportedPrimaryKeyUsingIndex
        }),
        ({
            let e = refusals::operation_table()[16];
            e.first == "AddConstraint"@ && e.second == "constraint"@ && e.third == ""@ && e.kind == "UniqueUsingIndex"@ && e.rule
                == LintRule::AtUnsupportedUniqueUsingIndex
        }),
        ({
            let e = refusals::operation_table()[17];
            e.first == "AddColumn"@ && e.second == "column_def"@ && e.third == "data_type"@ && e.kind == "Array"@ && e.rule
                == LintRule::ArrayType
        }),
        ({
            let e = refusals::operation_table()[18];
            e.first == ""@ && e.second == ""@ && e.third == ""@ && e.kind == "ValidateConstraint"@ && e.rule
                == LintRule::ValidateConstraintAsync
        }),
{
    reveal(refusals::operation_table);
}

/// Operations on a table that DSQL does not have are refused, each under the rule that is named after
/// it: row-level security, replica identity, rewrite rules, the type, the nullability and the numbering
/// of a column, checks, keys and keys by an index.
#[verifier::spinoff_prover]
#[verifier::rlimit(80)]
pub proof fn law_unsupported_operations_are_refused(t: Tree, raw: Seq<char>, i: int)
    requires
        0 <= i < operations_of(t).len(),
    ensures
        ({
            let op = operations_of(t)[i];
            &&& transactions::is_kind(op, "EnableRowLevelSecurity"@) ==> refused(t, raw, LintRule::AtUnsupportedRowLevelSecurity)
            &&& transactions::is_kind(op, "DisableRowLevelSecurity"@) ==> refused(t, raw, LintRule::AtUnsupportedRowLevelSecurity)
            &&& transactions::is_kind(op, "ForceRowLevelSecurity"@) ==> refused(t, raw, LintRule::AtUnsupportedRowLevelSecurity)
            &&& transactions::is_kind(op, "NoForceRowLevelSecurity"@) ==> refused(t, raw, LintRule::AtUnsupportedRowLevelSecurity)
            &&& transactions::is_kind(op, "ReplicaIdentity"@) ==> refused(t, raw, LintRule::AtUnsupportedReplicaIdentity)
            &&& transactions::is_kind(op, "EnableRule"@) ==> refused(t, raw, LintRule::AtUnsupportedRewriteRule)
            &&& transactions::is_kind(op, "DisableRule"@) ==> refused(t, raw, LintRule::AtUnsupportedRewriteRule)
            &&& transactions::is_kind(op, "EnableAlwaysRule"@) ==> refused(t, raw, LintRule::AtUnsupportedRewriteRule)
            &&& transactions::is_kind(op, "EnableReplicaRule"@) ==> refused(t, raw, LintRule::AtUnsupportedRewriteRule)
            &&& transactions::is_kind(token::field(token::field(op, "AlterColumn"@), "op"@), "SetDataType"@) ==> refused(t, raw, LintRule::AtUnsupportedAlterColumnSetType)
            &&& transactions::is_kind(token::field(token::field(op, "AlterColumn"@), "op"@), "SetNotNull"@) ==> refused(t, raw, LintRule::AtUnsupportedAlterColumnSetNotNull)
            &&& transactions::is_kind(token::field(token::field(op, "AlterColumn"@), "op"@), "AddGenerated"@) ==> refused(t, raw, LintRule::AtUnsupportedAlterColumnAddGenerated)
            &&& transactions::is_kind(token::field(token::field(op, "AddConstraint"@), "constraint"@), "Check"@) ==> refused(t, raw, LintRule::AtUnsupportedAddCheck)
            &&& transactions::is_kind(token::field(token::field(op, "AddConstraint"@), "constraint"@), "PrimaryKey"@) ==> refused(t, raw, LintRule::AtUnsupportedAddPrimaryKey)
            &&& transactions::is_kind(token::field(token::field(op, "AddConstraint"@), "constraint"@), "Unique"@) ==> refused(t, raw, LintRule::AtUnsupportedAddUnique)
            &&& transactions::is_kind(token::field(token::field(op, "AddConstraint"@), "constraint"@), "PrimaryKeyUsingIndex"@) ==> refused(t, raw, LintRule::AtUnsupportedPrimaryKeyUsingIndex)
            &&& transactions::is_kind(token::field(token::field(op, "AddConstraint"@), "constraint"@), "UniqueUsingIndex"@) ==> refused(t, raw, LintRule::AtUnsupportedUniqueUsingIndex)
            &&& transactions::is_kind(op, "ValidateConstraint"@) ==> refused(t, raw, LintRule::ValidateConstraintAsync)
        }),
{
    lemma_names();
    lemma_operation_rows();
    reveal_strlit("");
    assert(""@.len() == 0);
    let op = operations_of(t)[i];
    lemma_operation_made(t, raw, i);
    lemma_operation_kept(op);
    let u = operations_of(made(t, raw))[i];
    assert(token::field(u, "AlterColumn"@) == token::field(op, "AlterColumn"@));
    if transactions::is_kind(op, "EnableRowLevelSecurity"@) {
        assert(transactions::is_kind(u, "EnableRowLevelSecurity"@));
        lemma_operation_refused(t, raw, i, 0);
    }
    if transactions::is_kind(op, "DisableRowLevelSecurity"@) {
        assert(transactions::is_kind(u, "DisableRowLevelSecurity"@));
        lemma_operation_refused(t, raw, i, 1);
    }
    if transactions::is_kind(op, "ForceRowLevelSecurity"@) {
        assert(transactions::is_kind(u, "ForceRowLevelSecurity"@));
        lemma_operation_refused(t, raw, i, 2);
    }
    if transactions::is_kind(op, "NoForceRowLevelSecurity"@) {
        assert(transactions::is_kind(u, "NoForceRowLevelSecurity"@));
        lemma_operation_refused(t, raw, i, 3);
    }
    if transactions::is_kind(op, "ReplicaIdentity"@) {
        assert(transactions::is_kind(u, "ReplicaIdentity"@));
        lemma_operation_refused(t, raw, i, 4);
    }
    if transactions::is_kind(op, "EnableRule"@) {
        assert(transactions::is_kind(u, "EnableRule"@));
        lemma_operation_refused(t, raw, i, 5);
    }
    if transactions::is_kind(op, "DisableRule"@) {
        assert(transactions::is_kind(u, "DisableRule"@));
        lemma_operation_refused(t, raw, i, 6);
    }
    if transactions::is_kind(op, "EnableAlwaysRule"@) {
        assert(transactions::is_kind(u, "EnableAlwaysRule"@));
        lemma_operation_refused(t, raw, i, 7);
    }
    if transactions::is_kind(op, "EnableReplicaRule"@) {
        assert(transactions::is_kind(u, "EnableReplicaRule"@));
        lemma_operation_refused(t, raw, i, 8);
    }
    if transactions::is_kind(token::field(token::field(op, "AlterColumn"@), "op"@), "SetDataType"@) {
        assert(transactions::is_kind(token::field(token::field(u, "AlterColumn"@), "op"@), "SetDataType"@));
        lemma_operation_refused(t, raw, i, 9);
    }
    if transactions::is_kind(token::field(token::field(op, "AlterColumn"@), "op"@), "SetNotNull"@) {
        assert(transactions::is_kind(token::field(token::field(u, "AlterColumn"@), "op"@), "SetNotNull"@));
        lemma_operation_refused(t, raw, i, 10);
    }
    if transactions::is_kind(token::field(token::field(op, "AlterColumn"@), "op"@), "AddGenerated"@) {
        assert(transactions::is_kind(token::field(token::field(u, "AlterColumn"@), "op"@), "AddGenerated"@));
        lemma_operation_refused(t, raw, i, 11);
    }
    if transactions::is_kind(token::field(token::field(op, "AddConstraint"@), "constraint"@), "Check"@) {
        assert(transactions::is_kind(token::field(token::field(u, "AddConstraint"@), "constraint"@), "Check"@));
        lemma_operation_refused(t, raw, i, 12);
    }
    if transactions::is_kind(token::field(token::field(op, "AddConstraint"@), "constraint"@), "PrimaryKey"@) {
        assert(transactions::is_kind(token::field(token::field(u, "AddConstraint"@), "constraint"@), "PrimaryKey"@));
        lemma_operation_refused(t, raw, i, 13);
    }
    if transactions::is_kind(token::field(token::field(op, "AddConstraint"@), "constraint"@), "Unique"@) {
        assert(transactions::is_kind(token::field(token::field(u, "AddConstraint"@), "constraint"@), "Unique"@));
        lemma_operation_refused(t, raw, i, 14);
    }
    if transactions::is_kind(token::field(token::field(op, "AddConstraint"@), "constraint"@), "PrimaryKeyUsingIndex"@) {
        assert(transactions::is_kind(token::field(token::field(u, "AddConstraint"@), "constraint"@), "PrimaryKeyUsingIndex"@));
        lemma_operation_refused(t, raw, i, 15);
    }
    if transactions::is_kind(token::field(token::field(op, "AddConstraint"@), "constraint"@), "UniqueUsingIndex"@) {
        assert(transactions::is_kind(token::field(token::field(u, "AddConstraint"@), "constraint"@), "UniqueUsingIndex"@));
        lemma_operation_refused(t, raw, i, 16);
    }
    if transactions::is_kind(op, "ValidateConstraint"@) {
        assert(transactions::is_kind(u, "ValidateConstraint"@));
        lemma_operation_refused(t, raw, i, 18);
    }
}

/// A column of an array type is refused, in a table and where it is added.
#[verifier::spinoff_prover]
pub proof fn law_array_columns_are_refused(t: Tree, raw: Seq<char>, i: int, element: Tree)
    ensures
        0 <= i < columns_of(t).len() && token::field(columns_of(t)[i], "data_type"@)
            == syntax::variant("Array"@, element) ==> refused(t, raw, LintRule::ArrayType),
        0 <= i < operations_of(t).len() && token::field(
            token::field(token::field(operations_of(t)[i], "AddColumn"@), "column_def"@),
            "data_type"@,
        ) == syntax::variant("Array"@, element) ==> refused(t, raw, LintRule::ArrayType),
{
    lemma_names();
    reveal_strlit("");
    assert(""@.len() == 0);
    let array = syntax::variant("Array"@, element);
    assert(syntax::member(array, "Custom"@) is None);
    assert(syntax::member(array, "Array"@) is Some);
    if 0 <= i < columns_of(t).len() && token::field(columns_of(t)[i], "data_type"@) == array {
        let c = columns_of(t)[i];
        lemma_lists(t, raw);
        let d = columns_of(made(t, raw))[i];
        lemma_array_stays(c, element);
        assert(d == if errors::is_off(c) {
            errors::mended_column(c)
        } else {
            c
        });
        reveal(refusals::column_table);
        lemma_column_refused(t, raw, i, 0);
    }
    if 0 <= i < operations_of(t).len() && token::field(
        token::field(token::field(operations_of(t)[i], "AddColumn"@), "column_def"@),
        "data_type"@,
    ) == array {
        let op = operations_of(t)[i];
        lemma_operation_made(t, raw, i);
        lemma_operation_rows();
        let u = operations_of(made(t, raw))[i];
        let a = if errors::adds_valid_key(op) {
            errors::as_not_valid(op)
        } else {
            op
        };
        assert(token::field(a, "AddColumn"@) == token::field(op, "AddColumn"@));
        let c = errors::added_column(op);
        assert(errors::added_column(a) == c);
        lemma_array_stays(c, element);
        if errors::is_off(c) {
            assert(errors::added_column(u) == errors::mended_column(c));
        }
        assert(token::field(errors::added_column(u), "data_type"@) == array);
        lemma_operation_refused(t, raw, i, 17);
    }
}

proof fn lemma_array_stays(c: Tree, element: Tree)
    requires
        token::field(c, "data_type"@) == syntax::variant("Array"@, element),
    ensures
        errors::serial_type(c) is None,
        errors::is_off(c) ==> token::field(errors::mended_column(c), "data_type"@) == token::field(
            c,
            "data_type"@,
        ),
{
    lemma_names();
    let array = syntax::variant("Array"@, element);
    assert(syntax::member(array, "Custom"@) is None);
}

/// Whether the type of a column is one plain word, and that word is `SERIAL`, `BIGSERIAL`,
/// `SMALLSERIAL`, `SERIAL2`, `SERIAL4` or `SERIAL8`, however it is spelled.
pub open spec fn is_serial_column(c: Tree) -> bool {
    let custom = name_match::items_of(
        token::field(token::field(c, "data_type"@), "Custom"@),
    );
    let parts = name_match::items_of(custom[0]);
    let word = token::text_in(token::field(parts[0], "Identifier"@), "value"@);
    &&& custom.len() > 0
    &&& parts.len() == 1
    &&& syntax::member(parts[0], "Identifier"@) is Some
    &&& {
        ||| text::same_word(word, "SERIAL"@)
        ||| text::same_word(word, "BIGSERIAL"@)
        ||| text::same_word(word, "SMALLSERIAL"@)
        ||| text::same_word(word, "SERIAL2"@)
        ||| text::same_word(word, "SERIAL4"@)
        ||| text::same_word(word, "SERIAL8"@)
    }
}

/// Whether a column is a `BIGINT` that is numbered by default, with a cache of 1.
pub open spec fn is_identity_column(c: Tree) -> bool {
    let last = name_match::items_of(token::field(c, "options"@)).last();
    let g = token::field(token::field(last, "option"@), "Generated"@);
    &&& token::field(c, "data_type"@) == syntax::variant("BigInt"@, Tree::Null)
    &&& name_match::items_of(token::field(c, "options"@)).len() > 0
    &&& token::field(g, "generated_as"@) == Tree::Text("ByDefault"@)
    &&& token::field(g, "generation_expr"@) == Tree::Null
    &&& token::field(g, "sequence_options"@) == Tree::List(
        seq![syntax::variant("Cache"@, shapes::number_expr("1"@))],
    )
}

/// An identity column that takes the place of another keeps its name and is what it is to be.
#[verifier::spinoff_prover]
pub proof fn law_identity_columns_are_identities(c: Tree)
    requires
        c is Record,
    ensures
        is_identity_column(serial_idiom::identity_column(c)),
        forall|k: Seq<char>| k != "data_type"@ && k != "options"@ ==> #[trigger] syntax::member(
            serial_idiom::identity_column(c),
            k,
        ) == syntax::member(c, k),
{
    lemma_names();
    let d = serial_idiom::identity_column(c);
    let last = shapes::identity("1"@, None);
    let g = token::field(token::field(last, "option"@), "Generated"@);
    assert(name_match::items_of(token::field(d, "options"@)).last() == last);
    assert(token::field(g, "sequence_options"@) == Tree::List(
        shapes::identity_options("1"@, None),
    ));
}

proof fn lemma_serial_word(c: Tree)
    requires
        is_serial_column(c),
    ensures
        errors::serial_type(c) is Some,
        c is Record,
{
    let custom = name_match::items_of(
        token::field(token::field(c, "data_type"@), "Custom"@),
    );
    let parts = name_match::items_of(custom[0]);
    assert(errors::type_word(c) == Some(
        token::text_in(token::field(parts[0], "Identifier"@), "value"@),
    ));
}

proof fn lemma_serial_told(cs: Seq<Tree>, raw: Seq<char>, i: int)
    requires
        0 <= i < cs.len(),
        errors::is_off(cs[i]),
    ensures
        errors::serial_reports(cs, raw).contains(errors::off_report(cs[i], raw)),
    decreases cs.len(),
{
    let front = cs.drop_last();
    let before = errors::serial_reports(front, raw);
    let all = errors::serial_reports(cs, raw);
    let d = errors::off_report(cs[i], raw);
    if i < front.len() {
        assert(front[i] == cs[i]);
        lemma_serial_told(front, raw, i);
        let n = choose|n: int| 0 <= n < before.len() && before[n] == d;
        assert(all[n] == d);
    } else {
        assert(all[before.len() as int] == d);
    }
}

proof fn lemma_added_told(ops: Seq<Tree>, raw: Seq<char>, i: int)
    requires
        0 <= i < ops.len(),
        errors::is_off(errors::added_column(ops[i])),
    ensures
        errors::added_reports(ops, raw).contains(
            errors::off_report(errors::added_column(ops[i]), raw),
        ),
    decreases ops.len(),
{
    let front = ops.drop_last();
    let before = errors::added_reports(front, raw);
    let all = errors::added_reports(ops, raw);
    let d = errors::off_report(errors::added_column(ops[i]), raw);
    if i < front.len() {
        assert(front[i] == ops[i]);
        lemma_added_told(front, raw, i);
        let n = choose|n: int| 0 <= n < before.len() && before[n] == d;
        assert(all[n] == d);
    } else {
        assert(all[before.len() as int] == d);
    }
}

/// A column of a serial type in a table is reported and becomes an identity column of its name, and
/// no clean table has one.
#[verifier::spinoff_prover]
#[verifier::rlimit(60)]
pub proof fn law_serial_columns_become_identities(t: Tree, raw: Seq<char>, i: int)
    requires
        0 <= i < columns_of(t).len(),
        is_serial_column(columns_of(t)[i]),
    ensures
        rewritten(t, raw, LintRule::SerialType),
        !errors::is_clean(t),
        is_identity_column(columns_of(made(t, raw))[i]),
        token::field(columns_of(made(t, raw))[i], "name"@) == token::field(
            columns_of(t)[i],
            "name"@,
        ),
{
    lemma_names();
    let c = columns_of(t)[i];
    lemma_serial_word(c);
    lemma_lists(t, raw);
    law_identity_columns_are_identities(c);
    let a = refusals::field_rule(t, raw).0;
    refusals::lemma_table_is_apart();
    lemma_rows_keep(t, raw, refusals::field_table(), "CreateTable"@, "columns"@);
    assert(columns_of(a) == columns_of(t));
    lemma_serial_told(columns_of(a), raw, i);
    let d = errors::off_report(c, raw);
    assert(errors::serial_rule(a, raw).1 == errors::serial_reports(columns_of(a), raw));
    lemma_stages(t, raw, d);
    lemma_found(t, raw, d);
    errors::law_clean_is_what_is_not_reported(t, raw);
}

/// A column of a serial type that is added is reported and becomes an identity column of its name,
/// and no clean statement adds one.
#[verifier::spinoff_prover]
#[verifier::rlimit(60)]
pub proof fn law_added_serial_columns_become_identities(t: Tree, raw: Seq<char>, i: int)
    requires
        0 <= i < operations_of(t).len(),
        is_serial_column(
            token::field(token::field(operations_of(t)[i], "AddColumn"@), "column_def"@),
        ),
    ensures
        ({
            let old = token::field(
                token::field(operations_of(t)[i], "AddColumn"@),
                "column_def"@,
            );
            let new = token::field(
                token::field(operations_of(made(t, raw))[i], "AddColumn"@),
                "column_def"@,
            );
            &&& rewritten(t, raw, LintRule::SerialType)
            &&& !errors::is_clean(t)
            &&& is_identity_column(new)
            &&& token::field(new, "name"@) == token::field(old, "name"@)
        }),
{
    lemma_names();
    let op = operations_of(t)[i];
    let c = errors::added_column(op);
    lemma_serial_word(c);
    lemma_operation_made(t, raw, i);
    law_identity_columns_are_identities(c);
    let x = if errors::adds_valid_key(op) {
        errors::as_not_valid(op)
    } else {
        op
    };
    assert(token::field(x, "AddColumn"@) == token::field(op, "AddColumn"@));
    assert(errors::added_column(x) == c);
    let u = operations_of(made(t, raw))[i];
    assert(u == errors::adding_identity(x));
    assert(errors::added_column(u) == serial_idiom::identity_column(c));
    let a = refusals::field_rule(t, raw).0;
    let b = errors::serial_rule(a, raw).0;
    let k = errors::key_rule(b, raw).0;
    refusals::lemma_table_is_apart();
    lemma_rows_keep(t, raw, refusals::field_table(), "AlterTable"@, "operations"@);
    assert(operations_of(a) == operations_of(t));
    assert(operations_of(b) == operations_of(t));
    assert(operations_of(k) =~= errors::with_not_valid(operations_of(t)));
    assert(operations_of(k)[i] == x);
    lemma_added_told(operations_of(k), raw, i);
    let d = errors::off_report(c, raw);
    assert(errors::added_rule(k, raw).1 == errors::added_reports(operations_of(k), raw));
    lemma_stages(t, raw, d);
    lemma_found(t, raw, d);
    errors::law_clean_is_what_is_not_reported(t, raw);
}

/// Whether an option makes a column an identity column.
pub open spec fn numbers_by_itself(o: Tree) -> bool {
    syntax::member(token::field(o, "option"@), "Generated"@) is Some
}

/// A table keeps its columns, one for one and in order; one that is of no serial type and is not
/// numbered by DSQL stays as it is.
pub proof fn law_other_columns_stay(t: Tree, raw: Seq<char>, i: int)
    requires
        0 <= i < columns_of(t).len(),
    ensures
        columns_of(made(t, raw)).len() == columns_of(t).len(),
        syntax::member(token::field(columns_of(t)[i], "data_type"@), "Custom"@) is None && (forall|
            j: int,
        |
            0 <= j < name_match::items_of(token::field(columns_of(t)[i], "options"@)).len()
                ==> !numbers_by_itself(
                #[trigger] name_match::items_of(token::field(columns_of(t)[i], "options"@))[j],
            )) ==> columns_of(made(t, raw))[i] == columns_of(t)[i],
{
    lemma_lists(t, raw);
    let c = columns_of(t)[i];
    let os = name_match::items_of(token::field(c, "options"@));
    if syntax::member(token::field(c, "data_type"@), "Custom"@) is None && forall|j: int|
        0 <= j < os.len() ==> !numbers_by_itself(#[trigger] os[j]) {
        assert(errors::serial_type(c) is None);
        assert forall|j: int| 0 <= j < options::column_options(c).len() implies !options::option_caches_badly(
            #[trigger] options::column_options(c)[j],
        ) by {
            assert(!numbers_by_itself(os[j]));
        }
    }
}

proof fn lemma_key_told(ops: Seq<Tree>, raw: Seq<char>, i: int)
    requires
        0 <= i < ops.len(),
        errors::adds_valid_key(ops[i]),
    ensures
        errors::key_reports(ops, raw).contains(errors::key_report(raw)),
    decreases ops.len(),
{
    let front = ops.drop_last();
    let before = errors::key_reports(front, raw);
    let all = errors::key_reports(ops, raw);
    let d = errors::key_report(raw);
    if i < front.len() {
        assert(front[i] == ops[i]);
        lemma_key_told(front, raw, i);
        let n = choose|n: int| 0 <= n < before.len() && before[n] == d;
        assert(all[n] == d);
    } else {
        assert(all[before.len() as int] == d);
    }
}

/// A foreign key that is added is added `NOT VALID`, and reported where it was not; the key itself
/// stays, and so does every operation that adds neither a key nor a column.
#[verifier::spinoff_prover]
#[verifier::rlimit(60)]
pub proof fn law_foreign_keys_are_added_not_valid(t: Tree, raw: Seq<char>, i: int)
    requires
        0 <= i < operations_of(t).len(),
    ensures
        ({
            let old = operations_of(t)[i];
            let new = operations_of(made(t, raw))[i];
            let add = token::field(old, "AddConstraint"@);
            &&& operations_of(made(t, raw)).len() == operations_of(t).len()
            &&& syntax::member(token::field(add, "constraint"@), "ForeignKey"@) is Some
                && token::field(add, "not_valid"@) == Tree::Flag(false) ==> rewritten(
                t,
                raw,
                LintRule::ForeignKeyNotValid,
            ) && token::field(token::field(new, "AddConstraint"@), "not_valid"@) == Tree::Flag(
                true,
            ) && !errors::is_clean(t)
            &&& forall|k: Seq<char>| k != "not_valid"@ ==> #[trigger] syntax::member(
                token::field(new, "AddConstraint"@),
                k,
            ) == syntax::member(add, k)
            &&& syntax::member(old, "AddConstraint"@) is None && syntax::member(
                old,
                "AddColumn"@,
            ) is None ==> new == old
        }),
{
    lemma_names();
    let op = operations_of(t)[i];
    lemma_operation_made(t, raw, i);
    let new = operations_of(made(t, raw))[i];
    let x = if errors::adds_valid_key(op) {
        errors::as_not_valid(op)
    } else {
        op
    };
    if errors::is_off(errors::added_column(x)) {
        lemma_off_is_record(errors::added_column(x));
    }
    assert(token::field(new, "AddConstraint"@) == token::field(x, "AddConstraint"@));
    if errors::adds_valid_key(op) {
        let a = refusals::field_rule(t, raw).0;
        let b = errors::serial_rule(a, raw).0;
        refusals::lemma_table_is_apart();
        lemma_rows_keep(t, raw, refusals::field_table(), "AlterTable"@, "operations"@);
        assert(operations_of(a) == operations_of(t));
        assert(operations_of(b) == operations_of(t));
        lemma_key_told(operations_of(b), raw, i);
        let d = errors::key_report(raw);
        assert(errors::key_rule(b, raw).1 == errors::key_reports(operations_of(b), raw));
        lemma_stages(t, raw, d);
        lemma_found(t, raw, d);
        errors::law_clean_is_what_is_not_reported(t, raw);
    }
}

proof fn lemma_constrained_told(ops: Seq<Tree>, raw: Seq<char>, i: int)
    requires
        0 <= i < ops.len(),
        errors::adds_constrained_column(ops[i]),
    ensures
        errors::column_reports(ops, raw).contains(errors::column_report(ops[i], raw)),
    decreases ops.len(),
{
    let front = ops.drop_last();
    let before = errors::column_reports(front, raw);
    let all = errors::column_reports(ops, raw);
    let d = errors::column_report(ops[i], raw);
    if i < front.len() {
        assert(front[i] == ops[i]);
        lemma_constrained_told(front, raw, i);
        let n = choose|n: int| 0 <= n < before.len() && before[n] == d;
        assert(all[n] == d);
    } else {
        assert(all[before.len() as int] == d);
    }
}

/// A column that is added with a default or with `NOT NULL` is refused.
#[verifier::spinoff_prover]
#[verifier::rlimit(60)]
pub proof fn law_constrained_columns_are_refused(t: Tree, raw: Seq<char>, i: int, j: int)
    requires
        0 <= i < operations_of(t).len(),
        ({
            let c = token::field(token::field(operations_of(t)[i], "AddColumn"@), "column_def"@);
            let os = name_match::items_of(token::field(c, "options"@));
            let o = token::field(os[j], "option"@);
            &&& 0 <= j < os.len()
            &&& syntax::member(o, "Default"@) is Some || o == Tree::Text("NotNull"@)
            &&& syntax::member(token::field(c, "data_type"@), "Custom"@) is None
            &&& forall|n: int| 0 <= n < os.len() ==> !numbers_by_itself(#[trigger] os[n])
        }),
    ensures
        refused(t, raw, LintRule::AddColumnConstraint),
        !errors::is_clean(t),
{
    lemma_names();
    let op = operations_of(t)[i];
    let c = errors::added_column(op);
    let os = name_match::items_of(token::field(c, "options"@));
    lemma_operation_made(t, raw, i);
    let x = if errors::adds_valid_key(op) {
        errors::as_not_valid(op)
    } else {
        op
    };
    assert(token::field(x, "AddColumn"@) == token::field(op, "AddColumn"@));
    assert(errors::added_column(x) == c);
    assert(errors::serial_type(c) is None);
    assert forall|n: int| 0 <= n < options::column_options(c).len() implies !options::option_caches_badly(
        #[trigger] options::column_options(c)[n],
    ) by {
        assert(!numbers_by_itself(os[n]));
    }
    let u = made(t, raw);
    let new = operations_of(u)[i];
    assert(new == x);
    assert(errors::is_inline_constraint(os[j]));
    assert(errors::adds_constrained_column(new));
    assert(errors::operations(u) == operations_of(u));
    lemma_constrained_told(errors::operations(u), raw, i);
    let d = errors::column_report(new, raw);
    let p = errors::truncate_reports(u, raw);
    let q = errors::column_reports(errors::operations(u), raw);
    let z = refusals::refused(u, raw);
    lemma_in_sum(p, q, d);
    lemma_in_sum(p + q, z, d);
    lemma_stages(t, raw, d);
    lemma_found(t, raw, d);
    errors::law_clean_is_what_is_not_reported(t, raw);
}

/// An index is built asynchronously: where it was to be built at once or concurrently it is
/// rewritten and reported; one that is built so already is not.
#[verifier::spinoff_prover]
#[verifier::rlimit(60)]
pub proof fn law_indexes_are_built_asynchronously(t: Tree, raw: Seq<char>)
    ensures
        part(t, "CreateIndex"@, "concurrently"@) == Some(Tree::Flag(true)) ==> rewritten(
            t,
            raw,
            LintRule::IndexConcurrently,
        ) && part(made(t, raw), "CreateIndex"@, "concurrently"@) == Some(Tree::Flag(false)) && part(
            made(t, raw),
            "CreateIndex"@,
            "async"@,
        ) == Some(Tree::Flag(true)) && !errors::is_clean(t),
        part(t, "CreateIndex"@, "concurrently"@) == Some(Tree::Flag(false)) && part(
            t,
            "CreateIndex"@,
            "async"@,
        ) == Some(Tree::Flag(false)) ==> rewritten(t, raw, LintRule::IndexAsync) && part(
            made(t, raw),
            "CreateIndex"@,
            "async"@,
        ) == Some(Tree::Flag(true)) && part(made(t, raw), "CreateIndex"@, "concurrently"@) == Some(
            Tree::Flag(false),
        ) && !errors::is_clean(t),
        part(t, "CreateIndex"@, "async"@) == Some(Tree::Flag(true)) && part(
            t,
            "CreateIndex"@,
            "concurrently"@,
        ) == Some(Tree::Flag(false)) ==> part(made(t, raw), "CreateIndex"@, "async"@) == Some(
            Tree::Flag(true),
        ) && part(made(t, raw), "CreateIndex"@, "concurrently"@) == Some(Tree::Flag(false)),
{
    lemma_names();
    let a = refusals::field_rule(t, raw).0;
    refusals::lemma_table_is_apart();
    lemma_rows_keep(t, raw, refusals::field_table(), "CreateIndex"@, "concurrently"@);
    lemma_rows_keep(t, raw, refusals::field_table(), "CreateIndex"@, "async"@);
    let b = errors::serial_rule(a, raw).0;
    let c = errors::key_rule(b, raw).0;
    let e = errors::added_rule(c, raw).0;
    let f = errors::index_rule(e, raw);
    let g = options::cache_rule(f.0, raw).0;
    let h = options::level_rule(g, raw).0;
    assert(syntax::member(e, "CreateIndex"@) == syntax::member(a, "CreateIndex"@));
    assert(syntax::member(h, "CreateIndex"@) == syntax::member(f.0, "CreateIndex"@));
    if f.1.len() > 0 {
        let d = f.1[0];
        assert(f.1.contains(d));
        lemma_stages(t, raw, d);
        lemma_found(t, raw, d);
        errors::law_clean_is_what_is_not_reported(t, raw);
    }
}

/// The kind of index goes: where it only says that the index is a B-tree nothing is lost, and the
/// report is of a plain fix; of any other kind it warns.
pub proof fn law_lost_index_kinds_are_warned_of(t: Tree, raw: Seq<char>, v: Tree)
    requires
        part(t, "CreateIndex"@, "using"@) == Some(v),
        v != Tree::Null,
    ensures
        exists|i: int|
            0 <= i < errors::ruled(t, raw).1.len() && (#[trigger] errors::ruled(t, raw).1[i]).rule
                == LintRule::IndexUsing && (if v == Tree::Text("BTree"@) {
                errors::ruled(t, raw).1[i].fix_result is Fixed
            } else {
                v is List || errors::ruled(t, raw).1[i].fix_result is FixedWithWarning
            }),
{
    lemma_names();
    lemma_field_rows();
    let table = refusals::field_table();
    let j: int = 7;
    refusals::lemma_table_is_apart();
    assert(refusals::applies(t, table[j]));
    lemma_row_tells(t, raw, table, j);
    let d = refusals::field_report(table[j], v, raw);
    lemma_stages(t, raw, d);
    let i = choose|i: int| 0 <= i < errors::ruled(t, raw).1.len() && errors::ruled(t, raw).1[i] == d;
    assert(errors::ruled(t, raw).1[i].rule == LintRule::IndexUsing);
}

/// The digits of a cache without a sign.
pub open spec fn cache_of(o: Tree) -> Option<Seq<char>> {
    let value = token::field(token::field(token::field(o, "Cache"@), "Value"@), "value"@);
    let number = name_match::items_of(token::field(value, "Number"@));
    if number.len() > 0 && number[0] is Text {
        Some(number[0]->Text_0)
    } else {
        None
    }
}

/// Whether an option is a cache that is written without a sign.
pub open spec fn has_plain_cache(o: Tree) -> bool {
    &&& cache_of(o) is Some
    &&& cache_of(o)->Some_0.len() > 0
    &&& cache_of(o)->Some_0[0] != '+'
}

/// Whether DSQL takes a cache: 1, or 65536 and more.
pub open spec fn is_taken_size(digits: Seq<char>) -> bool {
    &&& literal::all_digits(digits, 10)
    &&& literal::value_of(digits, 10) <= u64::MAX
    &&& literal::value_of(digits, 10) == 1 || literal::value_of(digits, 10) >= 65536
}

proof fn lemma_taken(o: Tree, digits: Seq<char>)
    requires
        cache_of(o) == Some(digits),
        digits.len() > 0,
        digits[0] != '+',
    ensures
        options::takes_cache(o) == is_taken_size(digits),
{
    assert(options::cache_digits(o) == Some(digits));
}

/// `CACHE 1`.
pub open spec fn cache_one() -> Tree {
    syntax::variant("Cache"@, shapes::number_expr("1"@))
}

/// A sequence has a cache that DSQL takes: one without a cache gets a cache of 1, a cache that DSQL
/// does not take becomes one of 1, either is reported, and a cache that DSQL takes stays; so does every
/// other option.
#[verifier::spinoff_prover]
#[verifier::rlimit(60)]
pub proof fn law_sequences_have_a_cache(t: Tree, raw: Seq<char>, os: Seq<Tree>, i: int)
    requires
        part(t, "CreateSequence"@, "sequence_options"@) == Some(Tree::List(os)),
        0 <= i < os.len(),
    ensures
        ({
            let new = name_match::items_of(
                token::field(token::field(made(t, raw), "CreateSequence"@), "sequence_options"@),
            );
            &&& syntax::member(os[i], "Cache"@) is None ==> new[i] == os[i]
            &&& new.len() >= os.len()
            &&& has_plain_cache(os[i]) && is_taken_size(cache_of(os[i])->Some_0) ==> new[i] == os[i]
            &&& has_plain_cache(os[i]) && !is_taken_size(cache_of(os[i])->Some_0) ==> new[i]
                == cache_one() && rewritten(t, raw, LintRule::SequenceCache)
            &&& (forall|n: int| 0 <= n < os.len() ==> syntax::member(#[trigger] os[n], "Cache"@) is None)
                ==> new == os.push(cache_one()) && rewritten(
                t,
                raw,
                LintRule::SequenceCacheMissing,
            )
            &&& syntax::member(os[i], "Cache"@) is Some ==> new.len() == os.len()
        }),
{
    lemma_names();
    let h = made(t, raw);
    let f = lemma_sequence_stage(t, raw, os);
    let rule = options::cache_rule(f, raw);
    let made_os = options::cached(os, raw);
    if has_plain_cache(os[i]) {
        lemma_taken(os[i], cache_of(os[i])->Some_0);
        assert(options::is_cache(os[i]));
    }
    if options::is_cache(os[i]) {
        assert(options::has_cache(os));
        if options::is_bad_cache(os[i]) {
            lemma_cache_told(os, raw, i);
            let d = options::cache_report(raw);
            lemma_stages(t, raw, d);
            lemma_found(t, raw, d);
        }
    }
    if forall|n: int| 0 <= n < os.len() ==> syntax::member(#[trigger] os[n], "Cache"@) is None {
        assert(!options::has_cache(os)) by {
            assert forall|n: int| 0 <= n < os.len() implies !options::is_cache(#[trigger] os[n]) by {
                assert(syntax::member(os[n], "Cache"@) is None);
            }
        }
        let d = options::no_cache_report(raw);
        assert(rule.1[0] == d);
        lemma_stages(t, raw, d);
        lemma_found(t, raw, d);
    }
}

/// The statement that the rule on caches is given, and what it leaves.
#[verifier::spinoff_prover]
proof fn lemma_sequence_stage(t: Tree, raw: Seq<char>, os: Seq<Tree>) -> (f: Tree)
    requires
        part(t, "CreateSequence"@, "sequence_options"@) == Some(Tree::List(os)),
    ensures
        ({
            let a = refusals::field_rule(t, raw).0;
            let b = errors::serial_rule(a, raw).0;
            let c = errors::key_rule(b, raw).0;
            let e = errors::added_rule(c, raw).0;
            f == errors::index_rule(e, raw).0
        }),
        options::cache_rule(f, raw).1 == options::cached(os, raw).1,
        part(made(t, raw), "CreateSequence"@, "sequence_options"@) == Some(
            Tree::List(options::cached(os, raw).0),
        ),
{
    lemma_names();
    let a = refusals::field_rule(t, raw).0;
    refusals::lemma_table_is_apart();
    lemma_rows_keep(t, raw, refusals::field_table(), "CreateSequence"@, "sequence_options"@);
    let b = errors::serial_rule(a, raw).0;
    let c = errors::key_rule(b, raw).0;
    let e = errors::added_rule(c, raw).0;
    let f = errors::index_rule(e, raw).0;
    let g = options::cache_rule(f, raw).0;
    let h = options::level_rule(g, raw).0;
    assert(syntax::member(f, "CreateSequence"@) == syntax::member(a, "CreateSequence"@));
    assert(syntax::member(h, "CreateSequence"@) == syntax::member(g, "CreateSequence"@));
    f
}

proof fn lemma_cache_told(os: Seq<Tree>, raw: Seq<char>, i: int)
    requires
        0 <= i < os.len(),
        options::is_bad_cache(os[i]),
    ensures
        options::cache_reports(os, raw).contains(options::cache_report(raw)),
    decreases os.len(),
{
    let front = os.drop_last();
    let before = options::cache_reports(front, raw);
    let all = options::cache_reports(os, raw);
    let d = options::cache_report(raw);
    if i < front.len() {
        assert(front[i] == os[i]);
        lemma_cache_told(front, raw, i);
        let n = choose|n: int| 0 <= n < before.len() && before[n] == d;
        assert(all[n] == d);
    } else {
        assert(all[before.len() as int] == d);
    }
}

/// A transaction is at the isolation level `REPEATABLE READ`: any other level is rewritten and
/// reported, and every other mode stays.
#[verifier::spinoff_prover]
#[verifier::rlimit(60)]
pub proof fn law_transactions_are_at_repeatable_read(t: Tree, raw: Seq<char>, ms: Seq<Tree>, i: int)
    requires
        part(t, "StartTransaction"@, "modes"@) == Some(Tree::List(ms)),
        0 <= i < ms.len(),
    ensures
        ({
            let new = name_match::items_of(
                token::field(token::field(made(t, raw), "StartTransaction"@), "modes"@),
            );
            &&& new.len() == ms.len()
            &&& syntax::member(ms[i], "IsolationLevel"@) is None ==> new[i] == ms[i]
            &&& syntax::member(ms[i], "IsolationLevel"@) is Some ==> token::field(
                new[i],
                "IsolationLevel"@,
            ) == Tree::Text("RepeatableRead"@)
            &&& syntax::member(ms[i], "IsolationLevel"@) is Some && token::field(
                ms[i],
                "IsolationLevel"@,
            ) != Tree::Text("RepeatableRead"@) ==> rewritten(
                t,
                raw,
                LintRule::TransactionIsolation,
            ) && !errors::is_clean(t)
        }),
{
    lemma_names();
    let a = refusals::field_rule(t, raw).0;
    refusals::lemma_table_is_apart();
    lemma_rows_keep(t, raw, refusals::field_table(), "StartTransaction"@, "modes"@);
    let b = errors::serial_rule(a, raw).0;
    let c = errors::key_rule(b, raw).0;
    let e = errors::added_rule(c, raw).0;
    let f = errors::index_rule(e, raw).0;
    let g = options::cache_rule(f, raw).0;
    let h = options::level_rule(g, raw);
    assert(syntax::member(g, "StartTransaction"@) == syntax::member(a, "StartTransaction"@));
    assert(part(h.0, "StartTransaction"@, "modes"@) == Some(
        Tree::List(options::with_only_level(ms)),
    ));
    if options::is_bad_level(ms[i]) {
        lemma_level_told(ms, raw, i);
        let d = options::level_report(raw);
        lemma_stages(t, raw, d);
        lemma_found(t, raw, d);
        errors::law_clean_is_what_is_not_reported(t, raw);
    }
}

proof fn lemma_level_told(ms: Seq<Tree>, raw: Seq<char>, i: int)
    requires
        0 <= i < ms.len(),
        options::is_bad_level(ms[i]),
    ensures
        options::level_reports(ms, raw).contains(options::level_report(raw)),
    decreases ms.len(),
{
    let front = ms.drop_last();
    let before = options::level_reports(front, raw);
    let all = options::level_reports(ms, raw);
    let d = options::level_report(raw);
    if i < front.len() {
        assert(front[i] == ms[i]);
        lemma_level_told(front, raw, i);
        let n = choose|n: int| 0 <= n < before.len() && before[n] == d;
        assert(all[n] == d);
    } else {
        assert(all[before.len() as int] == d);
    }
}

/// An identity column with a cache that DSQL does not take is reported, and its cache becomes one of
/// 1; its name and its type stay.
#[verifier::spinoff_prover]
#[verifier::rlimit(60)]
pub proof fn law_identity_columns_have_a_cache(t: Tree, raw: Seq<char>, i: int, j: int, n: int)
    requires
        0 <= i < columns_of(t).len(),
        syntax::member(token::field(columns_of(t)[i], "data_type"@), "Custom"@) is None,
        0 <= j < name_match::items_of(token::field(columns_of(t)[i], "options"@)).len(),
        ({
            let o = name_match::items_of(token::field(columns_of(t)[i], "options"@))[j];
            let g = token::field(token::field(o, "option"@), "Generated"@);
            let os = name_match::items_of(token::field(g, "sequence_options"@));
            &&& syntax::member(token::field(o, "option"@), "Generated"@) is Some
            &&& token::field(g, "generation_expr"@) == Tree::Null
            &&& 0 <= n < os.len()
            &&& has_plain_cache(os[n]) && !is_taken_size(cache_of(os[n])->Some_0)
        }),
    ensures
        ({
            let new = columns_of(made(t, raw))[i];
            let p = name_match::items_of(token::field(new, "options"@))[j];
            let g = token::field(token::field(p, "option"@), "Generated"@);
            &&& rewritten(t, raw, LintRule::IdentityCache)
            &&& !errors::is_clean(t)
            &&& name_match::items_of(token::field(g, "sequence_options"@))[n] == cache_one()
            &&& forall|k: Seq<char>| k != "options"@ ==> #[trigger] syntax::member(new, k)
                == syntax::member(columns_of(t)[i], k)
        }),
{
    lemma_names();
    let c = columns_of(t)[i];
    let o = name_match::items_of(token::field(c, "options"@))[j];
    let os = options::generated_options(o);
    lemma_taken(os[n], cache_of(os[n])->Some_0);
    assert(options::is_bad_cache(os[n]));
    assert(options::option_caches_badly(o));
    assert(options::column_options(c)[j] == o);
    assert(options::caches_badly(c));
    assert(errors::serial_type(c) is None);
    lemma_lists(t, raw);
    let new = columns_of(made(t, raw))[i];
    assert(new == options::with_taken_cache(c));
    let p = name_match::items_of(token::field(new, "options"@))[j];
    assert(p == options::with_taken_option(o));
    let g = token::field(token::field(p, "option"@), "Generated"@);
    assert(token::field(g, "sequence_options"@) == Tree::List(options::with_taken_caches(os)));
    let a = refusals::field_rule(t, raw).0;
    refusals::lemma_table_is_apart();
    lemma_rows_keep(t, raw, refusals::field_table(), "CreateTable"@, "columns"@);
    assert(columns_of(a) == columns_of(t));
    lemma_serial_told(columns_of(a), raw, i);
    let d = errors::off_report(c, raw);
    assert(errors::serial_rule(a, raw).1 == errors::serial_reports(columns_of(a), raw));
    lemma_stages(t, raw, d);
    lemma_found(t, raw, d);
    errors::law_clean_is_what_is_not_reported(t, raw);
}

} // verus!
