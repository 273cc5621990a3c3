//! The rules and the idioms look at what a statement says, not at where its pieces stand.

use vstd::prelude::*;

use crate::alike;
use crate::rules::{errors, name_match, options, refusals, serial_idiom};
use crate::syntax::{self, Tree};
use crate::token;
use crate::transactions;

verus! {

/// The fields that the rules read tell no places.
proof fn lemma_rule_keys()
    ensures
        !alike::is_place("CreateTable"@),
        !alike::is_place("AlterTable"@),
        !alike::is_place("CreateIndex"@),
        !alike::is_place("CreateSequence"@),
        !alike::is_place("StartTransaction"@),
        !alike::is_place("columns"@),
        !alike::is_place("operations"@),
        !alike::is_place("data_type"@),
        !alike::is_place("Custom"@),
        !alike::is_place("Identifier"@),
        !alike::is_place("value"@),
        !alike::is_place("AddConstraint"@),
        !alike::is_place("constraint"@),
        !alike::is_place("ForeignKey"@),
        !alike::is_place("not_valid"@),
        !alike::is_place("AddColumn"@),
        !alike::is_place("column_def"@),
        !alike::is_place("options"@),
        !alike::is_place("option"@),
        !alike::is_place("Default"@),
        !alike::is_place("concurrently"@),
        !alike::is_place("async"@),
        !alike::is_place("sequence_options"@),
        !alike::is_place("Cache"@),
        !alike::is_place("Value"@),
        !alike::is_place("Number"@),
        !alike::is_place("modes"@),
        !alike::is_place("IsolationLevel"@),
        !alike::is_place("Truncate"@),
        !alike::is_place("Plain"@),
        !alike::is_place("TableSpace"@),
        !alike::is_place("BigInt"@),
        !alike::is_place("Int8"@),
        !alike::is_place("Generated"@),
        !alike::is_place("generation_expr"@),
{
    reveal_strlit("Generated");
    assert("Generated"@.len() == 9);
    assert("Generated"@[3] == 'e' && "Generated"@[8] == 'd');
    alike::lemma_no_place("Generated"@);
    reveal_strlit("generation_expr");
    assert("generation_expr"@.len() == 15);
    assert("generation_expr"@[9] == 'n' && "generation_expr"@[14] == 'r');
    alike::lemma_no_place("generation_expr"@);
    reveal_strlit("CreateTable");
    assert("CreateTable"@.len() == 11);
    assert("CreateTable"@[5] == 'e' && "CreateTable"@[10] == 'e');
    alike::lemma_no_place("CreateTable"@);
    reveal_strlit("AlterTable");
    assert("AlterTable"@.len() == 10);
    assert("AlterTable"@[4] == 'r' && "AlterTable"@[9] == 'e');
    alike::lemma_no_place("AlterTable"@);
    reveal_strlit("CreateIndex");
    assert("CreateIndex"@.len() == 11);
    assert("CreateIndex"@[5] == 'e' && "CreateIndex"@[10] == 'x');
    alike::lemma_no_place("CreateIndex"@);
    reveal_strlit("CreateSequence");
    assert("CreateSequence"@.len() == 14);
    assert("CreateSequence"@[8] == 'q' && "CreateSequence"@[13] == 'e');
    alike::lemma_no_place("CreateSequence"@);
    reveal_strlit("StartTransaction");
    assert("StartTransaction"@.len() == 16);
    assert("StartTransaction"@[10] == 'a' && "StartTransaction"@[15] == 'n');
    alike::lemma_no_place("StartTransaction"@);
    reveal_strlit("columns");
    assert("columns"@.len() == 7);
    assert("columns"@[1] == 'o' && "columns"@[6] == 's');
    alike::lemma_no_place("columns"@);
    reveal_strlit("operations");
    assert("operations"@.len() == 10);
    assert("operations"@[4] == 'a' && "operations"@[9] == 's');
    alike::lemma_no_place("operations"@);
    reveal_strlit("data_type");
    assert("data_type"@.len() == 9);
    assert("data_type"@[3] == 'a' && "data_type"@[8] == 'e');
    alike::lemma_no_place("data_type"@);
    reveal_strlit("Custom");
    assert("Custom"@.len() == 6);
    alike::lemma_no_place("Custom"@);
    reveal_strlit("Identifier");
    assert("Identifier"@.len() == 10);
    assert("Identifier"@[4] == 't' && "Identifier"@[9] == 'r');
    alike::lemma_no_place("Identifier"@);
    reveal_strlit("value");
    assert("value"@.len() == 5);
    alike::lemma_no_place("value"@);
    reveal_strlit("AddConstraint");
    assert("AddConstraint"@.len() == 13);
    assert("AddConstraint"@[7] == 't' && "AddConstraint"@[12] == 't');
    alike::lemma_no_place("AddConstraint"@);
    reveal_strlit("constraint");
    assert("constraint"@.len() == 10);
    assert("constraint"@[4] == 't' && "constraint"@[9] == 't');
    alike::lemma_no_place("constraint"@);
    reveal_strlit("ForeignKey");
    assert("ForeignKey"@.len() == 10);
    assert("ForeignKey"@[4] == 'i' && "ForeignKey"@[9] == 'y');
    alike::lemma_no_place("ForeignKey"@);
    reveal_strlit("not_valid");
    assert("not_valid"@.len() == 9);
    assert("not_valid"@[3] == '_' && "not_valid"@[8] == 'd');
    alike::lemma_no_place("not_valid"@);
    reveal_strlit("AddColumn");
    assert("AddColumn"@.len() == 9);
    assert("AddColumn"@[3] == 'C' && "AddColumn"@[8] == 'n');
    alike::lemma_no_place("AddColumn"@);
    reveal_strlit("column_def");
    assert("column_def"@.len() == 10);
    assert("column_def"@[4] == 'm' && "column_def"@[9] == 'f');
    alike::lemma_no_place("column_def"@);
    reveal_strlit("options");
    assert("options"@.len() == 7);
    assert("options"@[1] == 'p' && "options"@[6] == 's');
    alike::lemma_no_place("options"@);
    reveal_strlit("option");
    assert("option"@.len() == 6);
    alike::lemma_no_place("option"@);
    reveal_strlit("Default");
    assert("Default"@.len() == 7);
    assert("Default"@[1] == 'e' && "Default"@[6] == 't');
    alike::lemma_no_place("Default"@);
    reveal_strlit("concurrently");
    assert("concurrently"@.len() == 12);
    assert("concurrently"@[6] == 'r' && "concurrently"@[11] == 'y');
    alike::lemma_no_place("concurrently"@);
    reveal_strlit("async");
    assert("async"@.len() == 5);
    alike::lemma_no_place("async"@);
    reveal_strlit("sequence_options");
    assert("sequence_options"@.len() == 16);
    assert("sequence_options"@[10] == 'p' && "sequence_options"@[15] == 's');
    alike::lemma_no_place("sequence_options"@);
    reveal_strlit("Cache");
    assert("Cache"@.len() == 5);
    alike::lemma_no_place("Cache"@);
    reveal_strlit("Value");
    assert("Value"@.len() == 5);
    alike::lemma_no_place("Value"@);
    reveal_strlit("Number");
    assert("Number"@.len() == 6);
    alike::lemma_no_place("Number"@);
    reveal_strlit("modes");
    assert("modes"@.len() == 5);
    alike::lemma_no_place("modes"@);
    reveal_strlit("IsolationLevel");
    assert("IsolationLevel"@.len() == 14);
    assert("IsolationLevel"@[8] == 'n' && "IsolationLevel"@[13] == 'l');
    alike::lemma_no_place("IsolationLevel"@);
    reveal_strlit("Truncate");
    assert("Truncate"@.len() == 8);
    assert("Truncate"@[2] == 'u' && "Truncate"@[7] == 'e');
    alike::lemma_no_place("Truncate"@);
    reveal_strlit("Plain");
    assert("Plain"@.len() == 5);
    alike::lemma_no_place("Plain"@);
    reveal_strlit("TableSpace");
    assert("TableSpace"@.len() == 10);
    assert("TableSpace"@[4] == 'e' && "TableSpace"@[9] == 'e');
    alike::lemma_no_place("TableSpace"@);
    reveal_strlit("BigInt");
    assert("BigInt"@.len() == 6);
    alike::lemma_no_place("BigInt"@);
    reveal_strlit("Int8");
    assert("Int8"@.len() == 4);
    assert("Int8"@[0] == 'I' && "Int8"@[1] == 'n');
    alike::lemma_no_place("Int8"@);
}

/// The fields that the idioms read tell no places.
proof fn lemma_idiom_keys()
    ensures
        !alike::is_place("CreateTable"@),
        !alike::is_place("AlterTable"@),
        !alike::is_place("CreateSequence"@),
        !alike::is_place("columns"@),
        !alike::is_place("operations"@),
        !alike::is_place("Identifier"@),
        !alike::is_place("value"@),
        !alike::is_place("name"@),
        !alike::is_place("quote_style"@),
        !alike::is_place("Function"@),
        !alike::is_place("args"@),
        !alike::is_place("List"@),
        !alike::is_place("Unnamed"@),
        !alike::is_place("Expr"@),
        !alike::is_place("Cast"@),
        !alike::is_place("expr"@),
        !alike::is_place("Value"@),
        !alike::is_place("SingleQuotedString"@),
        !alike::is_place("AlterColumn"@),
        !alike::is_place("op"@),
        !alike::is_place("SetDefault"@),
        !alike::is_place("column_name"@),
        !alike::is_place("AddConstraint"@),
        !alike::is_place("constraint"@),
        !alike::is_place("PrimaryKey"@),
        !alike::is_place("Unique"@),
{
    reveal_strlit("CreateTable");
    assert("CreateTable"@.len() == 11);
    assert("CreateTable"@[5] == 'e' && "CreateTable"@[10] == 'e');
    alike::lemma_no_place("CreateTable"@);
    reveal_strlit("AlterTable");
    assert("AlterTable"@.len() == 10);
    assert("AlterTable"@[4] == 'r' && "AlterTable"@[9] == 'e');
    alike::lemma_no_place("AlterTable"@);
    reveal_strlit("CreateSequence");
    assert("CreateSequence"@.len() == 14);
    assert("CreateSequence"@[8] == 'q' && "CreateSequence"@[13] == 'e');
    alike::lemma_no_place("CreateSequence"@);
    reveal_strlit("columns");
    assert("columns"@.len() == 7);
    assert("columns"@[1] == 'o' && "columns"@[6] == 's');
    alike::lemma_no_place("columns"@);
    reveal_strlit("operations");
    assert("operations"@.len() == 10);
    assert("operations"@[4] == 'a' && "operations"@[9] == 's');
    alike::lemma_no_place("operations"@);
    reveal_strlit("Identifier");
    assert("Identifier"@.len() == 10);
    assert("Identifier"@[4] == 't' && "Identifier"@[9] == 'r');
    alike::lemma_no_place("Identifier"@);
    reveal_strlit("value");
    assert("value"@.len() == 5);
    alike::lemma_no_place("value"@);
    reveal_strlit("name");
    assert("name"@.len() == 4);
    assert("name"@[0] == 'n' && "name"@[1] == 'a');
    alike::lemma_no_place("name"@);
    reveal_strlit("quote_style");
    assert("quote_style"@.len() == 11);
    assert("quote_style"@[5] == '_' && "quote_style"@[10] == 'e');
    alike::lemma_no_place("quote_style"@);
    reveal_strlit("Function");
    assert("Function"@.len() == 8);
    assert("Function"@[2] == 'n' && "Function"@[7] == 'n');
    alike::lemma_no_place("Function"@);
    reveal_strlit("args");
    assert("args"@.len() == 4);
    assert("args"@[0] == 'a' && "args"@[1] == 'r');
    alike::lemma_no_place("args"@);
    reveal_strlit("List");
    assert("List"@.len() == 4);
    assert("List"@[0] == 'L' && "List"@[1] == 'i');
    alike::lemma_no_place("List"@);
    reveal_strlit("Unnamed");
    assert("Unnamed"@.len() == 7);
    assert("Unnamed"@[1] == 'n' && "Unnamed"@[6] == 'd');
    alike::lemma_no_place("Unnamed"@);
    reveal_strlit("Expr");
    assert("Expr"@.len() == 4);
    assert("Expr"@[0] == 'E' && "Expr"@[1] == 'x');
    alike::lemma_no_place("Expr"@);
    reveal_strlit("Cast");
    assert("Cast"@.len() == 4);
    assert("Cast"@[0] == 'C' && "Cast"@[1] == 'a');
    alike::lemma_no_place("Cast"@);
    reveal_strlit("expr");
    assert("expr"@.len() == 4);
    assert("expr"@[0] == 'e' && "expr"@[1] == 'x');
    alike::lemma_no_place("expr"@);
    reveal_strlit("Value");
    assert("Value"@.len() == 5);
    alike::lemma_no_place("Value"@);
    reveal_strlit("SingleQuotedString");
    assert("SingleQuotedString"@.len() == 18);
    assert("SingleQuotedString"@[12] == 'S' && "SingleQuotedString"@[17] == 'g');
    alike::lemma_no_place("SingleQuotedString"@);
    reveal_strlit("AlterColumn");
    assert("AlterColumn"@.len() == 11);
    assert("AlterColumn"@[5] == 'C' && "AlterColumn"@[10] == 'n');
    alike::lemma_no_place("AlterColumn"@);
    reveal_strlit("op");
    assert("op"@.len() == 2);
    alike::lemma_no_place("op"@);
    reveal_strlit("SetDefault");
    assert("SetDefault"@.len() == 10);
    assert("SetDefault"@[4] == 'e' && "SetDefault"@[9] == 't');
    alike::lemma_no_place("SetDefault"@);
    reveal_strlit("column_name");
    assert("column_name"@.len() == 11);
    assert("column_name"@[5] == 'n' && "column_name"@[10] == 'e');
    alike::lemma_no_place("column_name"@);
    reveal_strlit("AddConstraint");
    assert("AddConstraint"@.len() == 13);
    assert("AddConstraint"@[7] == 't' && "AddConstraint"@[12] == 't');
    alike::lemma_no_place("AddConstraint"@);
    reveal_strlit("constraint");
    assert("constraint"@.len() == 10);
    assert("constraint"@[4] == 't' && "constraint"@[9] == 't');
    alike::lemma_no_place("constraint"@);
    reveal_strlit("PrimaryKey");
    assert("PrimaryKey"@.len() == 10);
    assert("PrimaryKey"@[4] == 'a' && "PrimaryKey"@[9] == 'y');
    alike::lemma_no_place("PrimaryKey"@);
    reveal_strlit("Unique");
    assert("Unique"@.len() == 6);
    alike::lemma_no_place("Unique"@);
}

/// The rows on fields speak of none that tells places.
proof fn lemma_field_keys()
    ensures
        forall|i: int|
            0 <= i < refusals::field_table().len() ==> !alike::is_place(
                (#[trigger] refusals::field_table()[i]).kind,
            ) && !alike::is_place(refusals::field_table()[i].field),
{
    reveal(refusals::field_table);
    reveal_strlit("CreateIndex");
    assert("CreateIndex"@.len() == 11);
    assert("CreateIndex"@[5] == 'e' && "CreateIndex"@[10] == 'x');
    alike::lemma_no_place("CreateIndex"@);
    reveal_strlit("CreateSequence");
    assert("CreateSequence"@.len() == 14);
    assert("CreateSequence"@[8] == 'q' && "CreateSequence"@[13] == 'e');
    alike::lemma_no_place("CreateSequence"@);
    reveal_strlit("CreateTable");
    assert("CreateTable"@.len() == 11);
    assert("CreateTable"@[5] == 'e' && "CreateTable"@[10] == 'e');
    alike::lemma_no_place("CreateTable"@);
    reveal_strlit("CreateView");
    assert("CreateView"@.len() == 10);
    assert("CreateView"@[4] == 't' && "CreateView"@[9] == 'w');
    alike::lemma_no_place("CreateView"@);
    reveal_strlit("Rollback");
    assert("Rollback"@.len() == 8);
    assert("Rollback"@[2] == 'l' && "Rollback"@[7] == 'k');
    alike::lemma_no_place("Rollback"@);
    reveal_strlit("data_type");
    assert("data_type"@.len() == 9);
    assert("data_type"@[3] == 'a' && "data_type"@[8] == 'e');
    alike::lemma_no_place("data_type"@);
    reveal_strlit("index_options");
    assert("index_options"@.len() == 13);
    assert("index_options"@[7] == 'p' && "index_options"@[12] == 's');
    alike::lemma_no_place("index_options"@);
    reveal_strlit("inherits");
    assert("inherits"@.len() == 8);
    assert("inherits"@[2] == 'h' && "inherits"@[7] == 's');
    alike::lemma_no_place("inherits"@);
    reveal_strlit("materialized");
    assert("materialized"@.len() == 12);
    assert("materialized"@[6] == 'a' && "materialized"@[11] == 'd');
    alike::lemma_no_place("materialized"@);
    reveal_strlit("partition_by");
    assert("partition_by"@.len() == 12);
    assert("partition_by"@[6] == 'i' && "partition_by"@[11] == 'y');
    alike::lemma_no_place("partition_by"@);
    reveal_strlit("predicate");
    assert("predicate"@.len() == 9);
    assert("predicate"@[3] == 'd' && "predicate"@[8] == 'e');
    alike::lemma_no_place("predicate"@);
    reveal_strlit("query");
    assert("query"@.len() == 5);
    alike::lemma_no_place("query"@);
    reveal_strlit("savepoint");
    assert("savepoint"@.len() == 9);
    assert("savepoint"@[3] == 'e' && "savepoint"@[8] == 't');
    alike::lemma_no_place("savepoint"@);
    reveal_strlit("table_options");
    assert("table_options"@.len() == 13);
    assert("table_options"@[7] == 'p' && "table_options"@[12] == 's');
    alike::lemma_no_place("table_options"@);
    reveal_strlit("temporary");
    assert("temporary"@.len() == 9);
    assert("temporary"@[3] == 'p' && "temporary"@[8] == 'y');
    alike::lemma_no_place("temporary"@);
    reveal_strlit("using");
    assert("using"@.len() == 5);
    alike::lemma_no_place("using"@);
}

/// Whether a row on what is refused looks at no field that tells places.
spec fn looks_at_no_place(e: refusals::RefusalModel) -> bool {
    &&& !alike::is_place(e.first)
    &&& !alike::is_place(e.second)
    &&& !alike::is_place(e.third)
    &&& !alike::is_place(e.kind)
}

proof fn lemma_statement_keys()
    ensures
        forall|i: int|
            0 <= i < refusals::statement_table().len() ==> looks_at_no_place(
                #[trigger] refusals::statement_table()[i],
            ),
{
    reveal(refusals::statement_table);
    reveal_strlit("");
    assert(""@.len() == 0);
    alike::lemma_no_place(""@);
    reveal_strlit("AlterIndex");
    assert("AlterIndex"@.len() == 10);
    assert("AlterIndex"@[4] == 'r' && "AlterIndex"@[9] == 'x');
    alike::lemma_no_place("AlterIndex"@);
    reveal_strlit("AlterPolicy");
    assert("AlterPolicy"@.len() == 11);
    assert("AlterPolicy"@[5] == 'P' && "AlterPolicy"@[10] == 'y');
    alike::lemma_no_place("AlterPolicy"@);
    reveal_strlit("AlterType");
    assert("AlterType"@.len() == 9);
    assert("AlterType"@[3] == 'e' && "AlterType"@[8] == 'e');
    alike::lemma_no_place("AlterType"@);
    reveal_strlit("Copy");
    assert("Copy"@.len() == 4);
    assert("Copy"@[0] == 'C' && "Copy"@[1] == 'o');
    alike::lemma_no_place("Copy"@);
    reveal_strlit("CreateDatabase");
    assert("CreateDatabase"@.len() == 14);
    assert("CreateDatabase"@[8] == 't' && "CreateDatabase"@[13] == 'e');
    alike::lemma_no_place("CreateDatabase"@);
    reveal_strlit("CreateExtension");
    assert("CreateExtension"@.len() == 15);
    assert("CreateExtension"@[9] == 'e' && "CreateExtension"@[14] == 'n');
    alike::lemma_no_place("CreateExtension"@);
    reveal_strlit("CreatePolicy");
    assert("CreatePolicy"@.len() == 12);
    assert("CreatePolicy"@[6] == 'P' && "CreatePolicy"@[11] == 'y');
    alike::lemma_no_place("CreatePolicy"@);
    reveal_strlit("CreateProcedure");
    assert("CreateProcedure"@.len() == 15);
    assert("CreateProcedure"@[9] == 'c' && "CreateProcedure"@[14] == 'e');
    alike::lemma_no_place("CreateProcedure"@);
    reveal_strlit("CreateServer");
    assert("CreateServer"@.len() == 12);
    assert("CreateServer"@[6] == 'S' && "CreateServer"@[11] == 'r');
    alike::lemma_no_place("CreateServer"@);
    reveal_strlit("CreateTrigger");
    assert("CreateTrigger"@.len() == 13);
    assert("CreateTrigger"@[7] == 'r' && "CreateTrigger"@[12] == 'r');
    alike::lemma_no_place("CreateTrigger"@);
    reveal_strlit("CreateType");
    assert("CreateType"@.len() == 10);
    assert("CreateType"@[4] == 't' && "CreateType"@[9] == 'e');
    alike::lemma_no_place("CreateType"@);
    reveal_strlit("Deallocate");
    assert("Deallocate"@.len() == 10);
    assert("Deallocate"@[4] == 'l' && "Deallocate"@[9] == 'e');
    alike::lemma_no_place("Deallocate"@);
    reveal_strlit("Declare");
    assert("Declare"@.len() == 7);
    assert("Declare"@[1] == 'e' && "Declare"@[6] == 'e');
    alike::lemma_no_place("Declare"@);
    reveal_strlit("Discard");
    assert("Discard"@.len() == 7);
    assert("Discard"@[1] == 'i' && "Discard"@[6] == 'd');
    alike::lemma_no_place("Discard"@);
    reveal_strlit("Drop");
    assert("Drop"@.len() == 4);
    assert("Drop"@[0] == 'D' && "Drop"@[1] == 'r');
    alike::lemma_no_place("Drop"@);
    reveal_strlit("DropPolicy");
    assert("DropPolicy"@.len() == 10);
    assert("DropPolicy"@[4] == 'P' && "DropPolicy"@[9] == 'y');
    alike::lemma_no_place("DropPolicy"@);
    reveal_strlit("DropTrigger");
    assert("DropTrigger"@.len() == 11);
    assert("DropTrigger"@[5] == 'r' && "DropTrigger"@[10] == 'r');
    alike::lemma_no_place("DropTrigger"@);
    reveal_strlit("File");
    assert("File"@.len() == 4);
    assert("File"@[0] == 'F' && "File"@[1] == 'i');
    alike::lemma_no_place("File"@);
    reveal_strlit("LISTEN");
    assert("LISTEN"@.len() == 6);
    alike::lemma_no_place("LISTEN"@);
    reveal_strlit("Load");
    assert("Load"@.len() == 4);
    assert("Load"@[0] == 'L' && "Load"@[1] == 'o');
    alike::lemma_no_place("Load"@);
    reveal_strlit("Lock");
    assert("Lock"@.len() == 4);
    assert("Lock"@[0] == 'L' && "Lock"@[1] == 'o');
    alike::lemma_no_place("Lock"@);
    reveal_strlit("LockTables");
    assert("LockTables"@.len() == 10);
    assert("LockTables"@[4] == 'T' && "LockTables"@[9] == 's');
    alike::lemma_no_place("LockTables"@);
    reveal_strlit("MaterializedView");
    assert("MaterializedView"@.len() == 16);
    assert("MaterializedView"@[10] == 'e' && "MaterializedView"@[15] == 'w');
    alike::lemma_no_place("MaterializedView"@);
    reveal_strlit("NOTIFY");
    assert("NOTIFY"@.len() == 6);
    alike::lemma_no_place("NOTIFY"@);
    reveal_strlit("Prepare");
    assert("Prepare"@.len() == 7);
    assert("Prepare"@[1] == 'r' && "Prepare"@[6] == 'e');
    alike::lemma_no_place("Prepare"@);
    reveal_strlit("Program");
    assert("Program"@.len() == 7);
    assert("Program"@[1] == 'r' && "Program"@[6] == 'm');
    alike::lemma_no_place("Program"@);
    reveal_strlit("ReleaseSavepoint");
    assert("ReleaseSavepoint"@.len() == 16);
    assert("ReleaseSavepoint"@[10] == 'e' && "ReleaseSavepoint"@[15] == 't');
    alike::lemma_no_place("ReleaseSavepoint"@);
    reveal_strlit("Savepoint");
    assert("Savepoint"@.len() == 9);
    assert("Savepoint"@[3] == 'e' && "Savepoint"@[8] == 't');
    alike::lemma_no_place("Savepoint"@);
    reveal_strlit("Set");
    assert("Set"@.len() == 3);
    alike::lemma_no_place("Set"@);
    reveal_strlit("SetTransaction");
    assert("SetTransaction"@.len() == 14);
    assert("SetTransaction"@[8] == 'a' && "SetTransaction"@[13] == 'n');
    alike::lemma_no_place("SetTransaction"@);
    reveal_strlit("Type");
    assert("Type"@.len() == 4);
    assert("Type"@[0] == 'T' && "Type"@[1] == 'y');
    alike::lemma_no_place("Type"@);
    reveal_strlit("UNLISTEN");
    assert("UNLISTEN"@.len() == 8);
    assert("UNLISTEN"@[2] == 'L' && "UNLISTEN"@[7] == 'N');
    alike::lemma_no_place("UNLISTEN"@);
    reveal_strlit("Vacuum");
    assert("Vacuum"@.len() == 6);
    alike::lemma_no_place("Vacuum"@);
    reveal_strlit("object_type");
    assert("object_type"@.len() == 11);
    assert("object_type"@[5] == 't' && "object_type"@[10] == 'e');
    alike::lemma_no_place("object_type"@);
    reveal_strlit("target");
    assert("target"@.len() == 6);
    alike::lemma_no_place("target"@);
}

proof fn lemma_operation_keys()
    ensures
        forall|i: int|
            0 <= i < refusals::operation_table().len() ==> looks_at_no_place(
                #[trigger] refusals::operation_table()[i],
            ),
{
    reveal(refusals::operation_table);
    reveal_strlit("");
    assert(""@.len() == 0);
    alike::lemma_no_place(""@);
    reveal_strlit("AddColumn");
    assert("AddColumn"@.len() == 9);
    assert("AddColumn"@[3] == 'C' && "AddColumn"@[8] == 'n');
    alike::lemma_no_place("AddColumn"@);
    reveal_strlit("AddConstraint");
    assert("AddConstraint"@.len() == 13);
    assert("AddConstraint"@[7] == 't' && "AddConstraint"@[12] == 't');
    alike::lemma_no_place("AddConstraint"@);
    reveal_strlit("AddGenerated");
    assert("AddGenerated"@.len() == 12);
    assert("AddGenerated"@[6] == 'e' && "AddGenerated"@[11] == 'd');
    alike::lemma_no_place("AddGenerated"@);
    reveal_strlit("AlterColumn");
    assert("AlterColumn"@.len() == 11);
    assert("AlterColumn"@[5] == 'C' && "AlterColumn"@[10] == 'n');
    alike::lemma_no_place("AlterColumn"@);
    reveal_strlit("Array");
    assert("Array"@.len() == 5);
    alike::lemma_no_place("Array"@);
    reveal_strlit("Check");
    assert("Check"@.len() == 5);
    alike::lemma_no_place("Check"@);
    reveal_strlit("DisableRowLevelSecurity");
    assert("DisableRowLevelSecurity"@.len() == 23);
    assert("DisableRowLevelSecurity"@[17] == 'c' && "DisableRowLevelSecurity"@[22] == 'y');
    alike::lemma_no_place("DisableRowLevelSecurity"@);
    reveal_strlit("DisableRule");
    assert("DisableRule"@.len() == 11);
    assert("DisableRule"@[5] == 'l' && "DisableRule"@[10] == 'e');
    alike::lemma_no_place("DisableRule"@);
    reveal_strlit("EnableAlwaysRule");
    assert("EnableAlwaysRule"@.len() == 16);
    assert("EnableAlwaysRule"@[10] == 'y' && "EnableAlwaysRule"@[15] == 'e');
    alike::lemma_no_place("EnableAlwaysRule"@);
    reveal_strlit("EnableReplicaRule");
    assert("EnableReplicaRule"@.len() == 17);
    assert("EnableReplicaRule"@[11] == 'c' && "EnableReplicaRule"@[16] == 'e');
    alike::lemma_no_place("EnableReplicaRule"@);
    reveal_strlit("EnableRowLevelSecurity");
    assert("EnableRowLevelSecurity"@.len() == 22);
    assert("EnableRowLevelSecurity"@[16] == 'c' && "EnableRowLevelSecurity"@[21] == 'y');
    alike::lemma_no_place("EnableRowLevelSecurity"@);
    reveal_strlit("EnableRule");
    assert("EnableRule"@.len() == 10);
    assert("EnableRule"@[4] == 'l' && "EnableRule"@[9] == 'e');
    alike::lemma_no_place("EnableRule"@);
    reveal_strlit("ForceRowLevelSecurity");
    assert("ForceRowLevelSecurity"@.len() == 21);
    assert("ForceRowLevelSecurity"@[15] == 'c' && "ForceRowLevelSecurity"@[20] == 'y');
    alike::lemma_no_place("ForceRowLevelSecurity"@);
    reveal_strlit("NoForceRowLevelSecurity");
    assert("NoForceRowLevelSecurity"@.len() == 23);
    assert("NoForceRowLevelSecurity"@[17] == 'c' && "NoForceRowLevelSecurity"@[22] == 'y');
    alike::lemma_no_place("NoForceRowLevelSecurity"@);
    reveal_strlit("PrimaryKey");
    assert("PrimaryKey"@.len() == 10);
    assert("PrimaryKey"@[4] == 'a' && "PrimaryKey"@[9] == 'y');
    alike::lemma_no_place("PrimaryKey"@);
    reveal_strlit("PrimaryKeyUsingIndex");
    assert("PrimaryKeyUsingIndex"@.len() == 20);
    assert("PrimaryKeyUsingIndex"@[14] == 'g' && "PrimaryKeyUsingIndex"@[19] == 'x');
    alike::lemma_no_place("PrimaryKeyUsingIndex"@);
    reveal_strlit("ReplicaIdentity");
    assert("ReplicaIdentity"@.len() == 15);
    assert("ReplicaIdentity"@[9] == 'e' && "ReplicaIdentity"@[14] == 'y');
    alike::lemma_no_place("ReplicaIdentity"@);
    reveal_strlit("SetDataType");
    assert("SetDataType"@.len() == 11);
    assert("SetDataType"@[5] == 't' && "SetDataType"@[10] == 'e');
    alike::lemma_no_place("SetDataType"@);
    reveal_strlit("SetNotNull");
    assert("SetNotNull"@.len() == 10);
    assert("SetNotNull"@[4] == 'o' && "SetNotNull"@[9] == 'l');
    alike::lemma_no_place("SetNotNull"@);
    reveal_strlit("Unique");
    assert("Unique"@.len() == 6);
    alike::lemma_no_place("Unique"@);
    reveal_strlit("UniqueUsingIndex");
    assert("UniqueUsingIndex"@.len() == 16);
    assert("UniqueUsingIndex"@[10] == 'g' && "UniqueUsingIndex"@[15] == 'x');
    alike::lemma_no_place("UniqueUsingIndex"@);
    reveal_strlit("ValidateConstraint");
    assert("ValidateConstraint"@.len() == 18);
    assert("ValidateConstraint"@[12] == 't' && "ValidateConstraint"@[17] == 't');
    alike::lemma_no_place("ValidateConstraint"@);
    reveal_strlit("column_def");
    assert("column_def"@.len() == 10);
    assert("column_def"@[4] == 'm' && "column_def"@[9] == 'f');
    alike::lemma_no_place("column_def"@);
    reveal_strlit("constraint");
    assert("constraint"@.len() == 10);
    assert("constraint"@[4] == 't' && "constraint"@[9] == 't');
    alike::lemma_no_place("constraint"@);
    reveal_strlit("data_type");
    assert("data_type"@.len() == 9);
    assert("data_type"@[3] == 'a' && "data_type"@[8] == 'e');
    alike::lemma_no_place("data_type"@);
    reveal_strlit("op");
    assert("op"@.len() == 2);
    alike::lemma_no_place("op"@);
}

proof fn lemma_column_keys()
    ensures
        forall|i: int|
            0 <= i < refusals::column_table().len() ==> looks_at_no_place(
                #[trigger] refusals::column_table()[i],
            ),
{
    reveal(refusals::column_table);
    reveal_strlit("");
    assert(""@.len() == 0);
    alike::lemma_no_place(""@);
    reveal_strlit("Array");
    assert("Array"@.len() == 5);
    alike::lemma_no_place("Array"@);
    reveal_strlit("data_type");
    assert("data_type"@.len() == 9);
    assert("data_type"@[3] == 'a' && "data_type"@[8] == 'e');
    alike::lemma_no_place("data_type"@);
}

proof fn lemma_offends(mend: refusals::Mend, v: Tree, w: Tree)
    requires
        alike::alike(v, w),
    ensures
        refusals::offends(mend, v) == refusals::offends(mend, w),
{
    lemma_rule_keys();
    alike::lemma_member(v, w, "BigInt"@);
    alike::lemma_member(v, w, "Int8"@);
    alike::lemma_member(v, w, "Plain"@);
    if let (Tree::List(xs), Tree::List(ys)) = (token::field(v, "Plain"@), token::field(w, "Plain"@)) {
        assert(xs.len() == ys.len());
        if xs.len() == 1 {
            assert(alike::alike(xs[0], ys[0]));
            alike::lemma_member(xs[0], ys[0], "TableSpace"@);
        }
    }
}

proof fn lemma_applies(t: Tree, u: Tree, i: int)
    requires
        alike::alike(t, u),
        0 <= i < refusals::field_table().len(),
    ensures
        refusals::applies(t, refusals::field_table()[i]) == refusals::applies(
            u,
            refusals::field_table()[i],
        ),
{
    let e = refusals::field_table()[i];
    lemma_field_keys();
    alike::lemma_member(t, u, e.kind);
    if let (Some(s), Some(r)) = (syntax::member(t, e.kind), syntax::member(u, e.kind)) {
        alike::lemma_member(s, r, e.field);
        if let (Some(v), Some(w)) = (syntax::member(s, e.field), syntax::member(r, e.field)) {
            lemma_offends(e.mend, v, w);
        }
    }
}

proof fn lemma_option_caches(o: Tree, p: Tree)
    requires
        alike::alike(o, p),
    ensures
        options::option_caches_badly(o) == options::option_caches_badly(p),
{
    lemma_rule_keys();
    alike::lemma_member(o, p, "option"@);
    let a = token::field(o, "option"@);
    let b = token::field(p, "option"@);
    alike::lemma_member(a, b, "Generated"@);
    let g = token::field(a, "Generated"@);
    let h = token::field(b, "Generated"@);
    alike::lemma_member(g, h, "generation_expr"@);
    alike::lemma_member(g, h, "sequence_options"@);
    alike::lemma_items(token::field(g, "sequence_options"@), token::field(h, "sequence_options"@));
    let xs = options::generated_options(o);
    let ys = options::generated_options(p);
    assert forall|i: int| 0 <= i < xs.len() implies options::is_bad_cache(#[trigger] xs[i])
        == options::is_bad_cache(ys[i]) by {
        assert(alike::alike(xs[i], ys[i]));
        lemma_cache(xs[i], ys[i]);
    }
    if options::option_caches_badly(o) {
        let i = choose|i: int| 0 <= i < xs.len() && options::is_bad_cache(#[trigger] xs[i]);
        assert(options::is_bad_cache(ys[i]));
    }
    if options::option_caches_badly(p) {
        let i = choose|i: int| 0 <= i < ys.len() && options::is_bad_cache(#[trigger] ys[i]);
        assert(options::is_bad_cache(xs[i]));
    }
}

proof fn lemma_caches_badly(c: Tree, d: Tree)
    requires
        alike::alike(c, d),
    ensures
        options::caches_badly(c) == options::caches_badly(d),
{
    lemma_rule_keys();
    alike::lemma_member(c, d, "options"@);
    alike::lemma_items(token::field(c, "options"@), token::field(d, "options"@));
    let xs = options::column_options(c);
    let ys = options::column_options(d);
    assert forall|i: int| 0 <= i < xs.len() implies options::option_caches_badly(#[trigger] xs[i])
        == options::option_caches_badly(ys[i]) by {
        assert(alike::alike(xs[i], ys[i]));
        lemma_option_caches(xs[i], ys[i]);
    }
    if options::caches_badly(c) {
        let i = choose|i: int| 0 <= i < xs.len() && options::option_caches_badly(#[trigger] xs[i]);
        assert(options::option_caches_badly(ys[i]));
    }
    if options::caches_badly(d) {
        let i = choose|i: int| 0 <= i < ys.len() && options::option_caches_badly(#[trigger] ys[i]);
        assert(options::option_caches_badly(xs[i]));
    }
}

proof fn lemma_serial_type(c: Tree, d: Tree)
    requires
        alike::alike(c, d),
    ensures
        errors::serial_type(c) == errors::serial_type(d),
        errors::is_off(c) == errors::is_off(d),
{
    lemma_caches_badly(c, d);
    lemma_rule_keys();
    alike::lemma_member(c, d, "data_type"@);
    let v = token::field(c, "data_type"@);
    let w = token::field(d, "data_type"@);
    alike::lemma_member(v, w, "Custom"@);
    alike::lemma_items(token::field(v, "Custom"@), token::field(w, "Custom"@));
    let xs = name_match::items_of(token::field(v, "Custom"@));
    let ys = name_match::items_of(token::field(w, "Custom"@));
    if xs.len() > 0 {
        assert(alike::alike(xs[0], ys[0]));
        alike::lemma_items(xs[0], ys[0]);
        let ns = name_match::items_of(xs[0]);
        let ms = name_match::items_of(ys[0]);
        if ns.len() == 1 {
            assert(alike::alike(ns[0], ms[0]));
            alike::lemma_member(ns[0], ms[0], "Identifier"@);
            if let (Some(a), Some(b)) = (
                syntax::member(ns[0], "Identifier"@),
                syntax::member(ms[0], "Identifier"@),
            ) {
                alike::lemma_member(a, b, "value"@);
            }
        }
    }
}

proof fn lemma_operation(op: Tree, pp: Tree)
    requires
        alike::alike(op, pp),
    ensures
        errors::adds_valid_key(op) == errors::adds_valid_key(pp),
        errors::is_off(errors::added_column(op)) == errors::is_off(errors::added_column(pp)),
        errors::adds_constrained_column(op) == errors::adds_constrained_column(pp),
{
    lemma_rule_keys();
    alike::lemma_member(op, pp, "AddConstraint"@);
    let a = token::field(op, "AddConstraint"@);
    let b = token::field(pp, "AddConstraint"@);
    alike::lemma_member(a, b, "constraint"@);
    alike::lemma_member(a, b, "not_valid"@);
    alike::lemma_member(
        token::field(a, "constraint"@),
        token::field(b, "constraint"@),
        "ForeignKey"@,
    );
    alike::lemma_member(op, pp, "AddColumn"@);
    alike::lemma_member(
        token::field(op, "AddColumn"@),
        token::field(pp, "AddColumn"@),
        "column_def"@,
    );
    let c = errors::added_column(op);
    let d = errors::added_column(pp);
    lemma_serial_type(c, d);
    alike::lemma_member(c, d, "options"@);
    alike::lemma_items(token::field(c, "options"@), token::field(d, "options"@));
    let xs = name_match::items_of(token::field(c, "options"@));
    let ys = name_match::items_of(token::field(d, "options"@));
    assert forall|i: int| 0 <= i < xs.len() implies errors::is_inline_constraint(#[trigger] xs[i])
        == errors::is_inline_constraint(ys[i]) by {
        alike::lemma_member(xs[i], ys[i], "option"@);
        alike::lemma_member(
            token::field(xs[i], "option"@),
            token::field(ys[i], "option"@),
            "Default"@,
        );
    }
    if errors::adds_constrained_column(op) {
        let i = choose|i: int| 0 <= i < xs.len() && errors::is_inline_constraint(#[trigger] xs[i]);
        assert(errors::is_inline_constraint(ys[i]));
    }
    if errors::adds_constrained_column(pp) {
        let i = choose|i: int| 0 <= i < ys.len() && errors::is_inline_constraint(#[trigger] ys[i]);
        assert(errors::is_inline_constraint(xs[i]));
    }
}

proof fn lemma_step(t: Tree, u: Tree, key: Seq<char>)
    requires
        alike::alike(t, u),
        !alike::is_place(key),
    ensures
        alike::alike(refusals::step(t, key), refusals::step(u, key)),
{
    alike::lemma_member(t, u, key);
}

proof fn lemma_refused(t: Tree, u: Tree, e: refusals::RefusalModel)
    requires
        alike::alike(t, u),
        looks_at_no_place(e),
    ensures
        refusals::is_refused(t, e) == refusals::is_refused(u, e),
{
    lemma_step(t, u, e.first);
    let t1 = refusals::step(t, e.first);
    let u1 = refusals::step(u, e.first);
    lemma_step(t1, u1, e.second);
    let t2 = refusals::step(t1, e.second);
    let u2 = refusals::step(u1, e.second);
    lemma_step(t2, u2, e.third);
    alike::lemma_member(refusals::step(t2, e.third), refusals::step(u2, e.third), e.kind);
}

proof fn lemma_none_refused(xs: Seq<Tree>, ys: Seq<Tree>, es: Seq<refusals::RefusalModel>)
    requires
        alike::all_alike(xs, ys),
        forall|i: int| 0 <= i < es.len() ==> looks_at_no_place(#[trigger] es[i]),
        refusals::none_refused(xs, es),
    ensures
        refusals::none_refused(ys, es),
{
    assert forall|i: int, j: int| 0 <= i < ys.len() && 0 <= j < es.len() implies !refusals::is_refused(
        #[trigger] ys[i],
        #[trigger] es[j],
    ) by {
        assert(alike::alike(xs[i], ys[i]));
        lemma_refused(xs[i], ys[i], es[j]);
        assert(!refusals::is_refused(xs[i], es[j]));
    }
}

proof fn lemma_cache(o: Tree, p: Tree)
    requires
        alike::alike(o, p),
    ensures
        options::is_cache(o) == options::is_cache(p),
        options::is_bad_cache(o) == options::is_bad_cache(p),
{
    lemma_rule_keys();
    alike::lemma_member(o, p, "Cache"@);
    let a = token::field(o, "Cache"@);
    let b = token::field(p, "Cache"@);
    alike::lemma_member(a, b, "Value"@);
    let c = token::field(a, "Value"@);
    let d = token::field(b, "Value"@);
    alike::lemma_member(c, d, "value"@);
    let e = token::field(c, "value"@);
    let f = token::field(d, "value"@);
    alike::lemma_member(e, f, "Number"@);
    alike::lemma_items(token::field(e, "Number"@), token::field(f, "Number"@));
    let xs = name_match::items_of(token::field(e, "Number"@));
    let ys = name_match::items_of(token::field(f, "Number"@));
    if xs.len() > 0 {
        assert(alike::alike(xs[0], ys[0]));
    }
    assert(options::cache_digits(o) == options::cache_digits(p));
}

proof fn lemma_caches(t: Tree, u: Tree)
    requires
        alike::alike(t, u),
        options::caches_well(t),
    ensures
        options::caches_well(u),
{
    lemma_rule_keys();
    alike::lemma_member(t, u, "CreateSequence"@);
    let a = token::field(t, "CreateSequence"@);
    let b = token::field(u, "CreateSequence"@);
    alike::lemma_member(a, b, "sequence_options"@);
    if let (Some(Tree::List(xs)), Some(Tree::List(ys))) = (
        syntax::member(a, "sequence_options"@),
        syntax::member(b, "sequence_options"@),
    ) {
        assert(alike::alike(Tree::List(xs), Tree::List(ys)));
        let i = choose|i: int| 0 <= i < xs.len() && options::is_cache(#[trigger] xs[i]);
        assert(alike::alike(xs[i], ys[i]));
        lemma_cache(xs[i], ys[i]);
        assert(options::is_cache(ys[i]));
        assert forall|j: int| 0 <= j < ys.len() implies !options::is_bad_cache(
            #[trigger] ys[j],
        ) by {
            assert(alike::alike(xs[j], ys[j]));
            lemma_cache(xs[j], ys[j]);
        }
    }
}

proof fn lemma_levels(t: Tree, u: Tree)
    requires
        alike::alike(t, u),
        options::levels_well(t),
    ensures
        options::levels_well(u),
{
    lemma_rule_keys();
    alike::lemma_member(t, u, "StartTransaction"@);
    let a = token::field(t, "StartTransaction"@);
    let b = token::field(u, "StartTransaction"@);
    alike::lemma_member(a, b, "modes"@);
    alike::lemma_items(token::field(a, "modes"@), token::field(b, "modes"@));
    let xs = name_match::items_of(token::field(a, "modes"@));
    let ys = name_match::items_of(token::field(b, "modes"@));
    assert forall|i: int| 0 <= i < ys.len() implies !options::is_bad_level(#[trigger] ys[i]) by {
        assert(alike::alike(xs[i], ys[i]));
        alike::lemma_member(xs[i], ys[i], "IsolationLevel"@);
    }
}

/// What is clean stays clean wherever it stands: a statement that says the same as one that the
/// rules find nothing in is one that they find nothing in.
pub proof fn law_clean_is_what_is_said(t: Tree, u: Tree)
    requires
        alike::alike(t, u),
        errors::is_clean(t),
    ensures
        errors::is_clean(u),
{
    reveal(errors::is_clean);
    reveal(errors::is_settled);
    lemma_rule_keys();
    let table = refusals::field_table();
    assert forall|i: int| 0 <= i < table.len() implies !refusals::applies(
        u,
        #[trigger] table[i],
    ) by {
        lemma_applies(t, u, i);
    }
    alike::lemma_member(t, u, "CreateTable"@);
    let ct = token::field(t, "CreateTable"@);
    let cu = token::field(u, "CreateTable"@);
    alike::lemma_member(ct, cu, "columns"@);
    alike::lemma_items(token::field(ct, "columns"@), token::field(cu, "columns"@));
    let xs = name_match::items_of(token::field(ct, "columns"@));
    let ys = name_match::items_of(token::field(cu, "columns"@));
    assert forall|i: int| 0 <= i < ys.len() implies !errors::is_off(#[trigger] ys[i]) by {
        assert(alike::alike(xs[i], ys[i]));
        lemma_serial_type(xs[i], ys[i]);
    }
    alike::lemma_member(t, u, "AlterTable"@);
    let at = token::field(t, "AlterTable"@);
    let au = token::field(u, "AlterTable"@);
    alike::lemma_member(at, au, "operations"@);
    alike::lemma_items(token::field(at, "operations"@), token::field(au, "operations"@));
    let os = errors::operations(t);
    let ps = errors::operations(u);
    assert(alike::all_alike(os, ps));
    assert forall|i: int| 0 <= i < ps.len() implies !errors::adds_valid_key(#[trigger] ps[i])
        && !errors::is_off(errors::added_column(ps[i]))
        && !errors::adds_constrained_column(ps[i]) by {
        assert(alike::alike(os[i], ps[i]));
        lemma_operation(os[i], ps[i]);
        assert(!errors::adds_valid_key(os[i]));
    }
    alike::lemma_member(t, u, "CreateIndex"@);
    let it = token::field(t, "CreateIndex"@);
    let iu = token::field(u, "CreateIndex"@);
    alike::lemma_member(it, iu, "async"@);
    alike::lemma_member(it, iu, "concurrently"@);
    lemma_caches(t, u);
    lemma_levels(t, u);
    alike::lemma_member(t, u, "Truncate"@);
    lemma_statement_keys();
    lemma_operation_keys();
    lemma_column_keys();
    let a = seq![t];
    let b = seq![u];
    assert(alike::all_alike(a, b));
    lemma_none_refused(a, b, refusals::statement_table());
    lemma_none_refused(os, ps, refusals::operation_table());
    lemma_none_refused(xs, ys, refusals::column_table());
}

proof fn lemma_folded_ident(a: Tree, b: Tree)
    requires
        alike::alike(a, b),
    ensures
        name_match::folded_ident(a) == name_match::folded_ident(b),
{
    lemma_idiom_keys();
    alike::lemma_member(a, b, "value"@);
    alike::lemma_member(a, b, "quote_style"@);
}

proof fn lemma_folded_parts(xs: Seq<Tree>, ys: Seq<Tree>)
    requires
        alike::all_alike(xs, ys),
    ensures
        name_match::folded_parts(xs) == name_match::folded_parts(ys),
    decreases xs.len(),
{
    if xs.len() > 0 {
        lemma_idiom_keys();
        let fx = xs.drop_last();
        let fy = ys.drop_last();
        assert forall|i: int| 0 <= i < fx.len() implies alike::alike(#[trigger] fx[i], fy[i]) by {
            assert(alike::alike(xs[i], ys[i]));
        }
        lemma_folded_parts(fx, fy);
        let x = xs[xs.len() - 1];
        let y = ys[ys.len() - 1];
        assert(alike::alike(x, y));
        alike::lemma_member(x, y, "Identifier"@);
        if let (Some(a), Some(b)) = (
            syntax::member(x, "Identifier"@),
            syntax::member(y, "Identifier"@),
        ) {
            lemma_folded_ident(a, b);
        }
    }
}

proof fn lemma_name(a: Tree, b: Tree)
    requires
        alike::alike(a, b),
    ensures
        name_match::normalized(token::field(a, "name"@)) == name_match::normalized(
            token::field(b, "name"@),
        ),
{
    lemma_idiom_keys();
    alike::lemma_member(a, b, "name"@);
    alike::lemma_items(token::field(a, "name"@), token::field(b, "name"@));
    lemma_folded_parts(
        name_match::items_of(token::field(a, "name"@)),
        name_match::items_of(token::field(b, "name"@)),
    );
}

proof fn lemma_nextval(a: Tree, b: Tree)
    requires
        alike::alike(a, b),
    ensures
        serial_idiom::nextval_sequence(a) == serial_idiom::nextval_sequence(b),
{
    lemma_idiom_keys();
    alike::lemma_member(a, b, "Function"@);
    let f = token::field(a, "Function"@);
    let g = token::field(b, "Function"@);
    alike::lemma_member(f, g, "name"@);
    alike::lemma_items(token::field(f, "name"@), token::field(g, "name"@));
    let ns = name_match::items_of(token::field(f, "name"@));
    let ms = name_match::items_of(token::field(g, "name"@));
    alike::lemma_member(f, g, "args"@);
    let h = token::field(f, "args"@);
    let k = token::field(g, "args"@);
    alike::lemma_member(h, k, "List"@);
    let l = token::field(h, "List"@);
    let m = token::field(k, "List"@);
    alike::lemma_member(l, m, "args"@);
    alike::lemma_items(token::field(l, "args"@), token::field(m, "args"@));
    let xs = name_match::items_of(token::field(l, "args"@));
    let ys = name_match::items_of(token::field(m, "args"@));
    if ns.len() > 0 && xs.len() == 1 {
        let n = ns[ns.len() - 1];
        let o = ms[ms.len() - 1];
        assert(alike::alike(n, o));
        alike::lemma_member(n, o, "Identifier"@);
        alike::lemma_member(
            token::field(n, "Identifier"@),
            token::field(o, "Identifier"@),
            "value"@,
        );
        assert(alike::alike(xs[0], ys[0]));
        alike::lemma_member(xs[0], ys[0], "Unnamed"@);
        let p = token::field(xs[0], "Unnamed"@);
        let r = token::field(ys[0], "Unnamed"@);
        alike::lemma_member(p, r, "Expr"@);
        let v = token::field(p, "Expr"@);
        let w = token::field(r, "Expr"@);
        alike::lemma_member(v, w, "Cast"@);
        if let (Some(c), Some(d)) = (syntax::member(v, "Cast"@), syntax::member(w, "Cast"@)) {
            alike::lemma_member(c, d, "expr"@);
        }
        let x = serial_idiom::uncast(v);
        let y = serial_idiom::uncast(w);
        assert(alike::alike(x, y));
        alike::lemma_member(x, y, "Value"@);
        let s = token::field(x, "Value"@);
        let t = token::field(y, "Value"@);
        alike::lemma_member(s, t, "value"@);
        alike::lemma_member(
            token::field(s, "value"@),
            token::field(t, "value"@),
            "SingleQuotedString"@,
        );
        assert(serial_idiom::quoted_text(x) == serial_idiom::quoted_text(y));
    }
}

proof fn lemma_set_default(t: Tree, u: Tree)
    requires
        alike::alike(t, u),
    ensures
        serial_idiom::set_default(t) == serial_idiom::set_default(u),
{
    lemma_idiom_keys();
    alike::lemma_member(t, u, "AlterTable"@);
    let a = token::field(t, "AlterTable"@);
    let b = token::field(u, "AlterTable"@);
    alike::lemma_member(a, b, "operations"@);
    alike::lemma_items(token::field(a, "operations"@), token::field(b, "operations"@));
    let xs = name_match::items_of(token::field(a, "operations"@));
    let ys = name_match::items_of(token::field(b, "operations"@));
    if xs.len() == 1 {
        assert(alike::alike(xs[0], ys[0]));
        alike::lemma_member(xs[0], ys[0], "AlterColumn"@);
        let c = token::field(xs[0], "AlterColumn"@);
        let d = token::field(ys[0], "AlterColumn"@);
        alike::lemma_member(c, d, "op"@);
        alike::lemma_member(c, d, "column_name"@);
        lemma_folded_ident(token::field(c, "column_name"@), token::field(d, "column_name"@));
        let e = token::field(c, "op"@);
        let f = token::field(d, "op"@);
        alike::lemma_member(e, f, "SetDefault"@);
        let g = token::field(e, "SetDefault"@);
        let h = token::field(f, "SetDefault"@);
        alike::lemma_member(g, h, "value"@);
        lemma_nextval(token::field(g, "value"@), token::field(h, "value"@));
    }
}

/// What an idiom can see of a statement does not depend on where its pieces stand.
pub proof fn lemma_traits(t: Tree, u: Tree)
    requires
        alike::alike(t, u),
    ensures
        serial_idiom::traits(t) == serial_idiom::traits(u),
{
    lemma_idiom_keys();
    alike::lemma_member(t, u, "CreateTable"@);
    let ct = token::field(t, "CreateTable"@);
    let cu = token::field(u, "CreateTable"@);
    lemma_name(ct, cu);
    alike::lemma_member(ct, cu, "columns"@);
    alike::lemma_items(token::field(ct, "columns"@), token::field(cu, "columns"@));
    let xs = name_match::items_of(token::field(ct, "columns"@));
    let ys = name_match::items_of(token::field(cu, "columns"@));
    let nx = serial_idiom::column_names(ct);
    let ny = serial_idiom::column_names(cu);
    assert forall|i: int| 0 <= i < nx.len() implies nx[i] == ny[i] by {
        assert(alike::alike(xs[i], ys[i]));
        alike::lemma_member(xs[i], ys[i], "name"@);
        lemma_folded_ident(token::field(xs[i], "name"@), token::field(ys[i], "name"@));
    }
    assert(nx =~= ny);
    alike::lemma_member(t, u, "CreateSequence"@);
    lemma_name(token::field(t, "CreateSequence"@), token::field(u, "CreateSequence"@));
    alike::lemma_member(t, u, "AlterTable"@);
    lemma_name(token::field(t, "AlterTable"@), token::field(u, "AlterTable"@));
    lemma_set_default(t, u);
}

/// What a statement is to a transaction does not depend on where its pieces stand.
pub proof fn lemma_part_in_transaction(t: Tree, u: Tree)
    requires
        alike::alike(t, u),
    ensures
        transactions::is_begin(t) == transactions::is_begin(u),
        transactions::is_commit(t) == transactions::is_commit(u),
        transactions::is_txn_end(t) == transactions::is_txn_end(u),
        transactions::is_ddl(t) == transactions::is_ddl(u),
        transactions::is_dml(t) == transactions::is_dml(u),
{
    reveal_strlit("CreateTable");
    assert("CreateTable"@.len() == 11);
    assert("CreateTable"@[5] == 'e' && "CreateTable"@[10] == 'e');
    alike::lemma_no_place("CreateTable"@);
    alike::lemma_member(t, u, "CreateTable"@);
    reveal_strlit("CreateIndex");
    assert("CreateIndex"@.len() == 11);
    assert("CreateIndex"@[5] == 'e' && "CreateIndex"@[10] == 'x');
    alike::lemma_no_place("CreateIndex"@);
    alike::lemma_member(t, u, "CreateIndex"@);
    reveal_strlit("CreateView");
    assert("CreateView"@.len() == 10);
    assert("CreateView"@[4] == 't' && "CreateView"@[9] == 'w');
    alike::lemma_no_place("CreateView"@);
    alike::lemma_member(t, u, "CreateView"@);
    reveal_strlit("CreateSequence");
    assert("CreateSequence"@.len() == 14);
    assert("CreateSequence"@[8] == 'q' && "CreateSequence"@[13] == 'e');
    alike::lemma_no_place("CreateSequence"@);
    alike::lemma_member(t, u, "CreateSequence"@);
    reveal_strlit("CreateType");
    assert("CreateType"@.len() == 10);
    assert("CreateType"@[4] == 't' && "CreateType"@[9] == 'e');
    alike::lemma_no_place("CreateType"@);
    alike::lemma_member(t, u, "CreateType"@);
    reveal_strlit("CreateFunction");
    assert("CreateFunction"@.len() == 14);
    assert("CreateFunction"@[8] == 'n' && "CreateFunction"@[13] == 'n');
    alike::lemma_no_place("CreateFunction"@);
    alike::lemma_member(t, u, "CreateFunction"@);
    reveal_strlit("CreateProcedure");
    assert("CreateProcedure"@.len() == 15);
    assert("CreateProcedure"@[9] == 'c' && "CreateProcedure"@[14] == 'e');
    alike::lemma_no_place("CreateProcedure"@);
    alike::lemma_member(t, u, "CreateProcedure"@);
    reveal_strlit("CreateTrigger");
    assert("CreateTrigger"@.len() == 13);
    assert("CreateTrigger"@[7] == 'r' && "CreateTrigger"@[12] == 'r');
    alike::lemma_no_place("CreateTrigger"@);
    alike::lemma_member(t, u, "CreateTrigger"@);
    reveal_strlit("CreateExtension");
    assert("CreateExtension"@.len() == 15);
    assert("CreateExtension"@[9] == 'e' && "CreateExtension"@[14] == 'n');
    alike::lemma_no_place("CreateExtension"@);
    alike::lemma_member(t, u, "CreateExtension"@);
    reveal_strlit("CreateSchema");
    assert("CreateSchema"@.len() == 12);
    assert("CreateSchema"@[6] == 'S' && "CreateSchema"@[11] == 'a');
    alike::lemma_no_place("CreateSchema"@);
    alike::lemma_member(t, u, "CreateSchema"@);
    reveal_strlit("CreateDatabase");
    assert("CreateDatabase"@.len() == 14);
    assert("CreateDatabase"@[8] == 't' && "CreateDatabase"@[13] == 'e');
    alike::lemma_no_place("CreateDatabase"@);
    alike::lemma_member(t, u, "CreateDatabase"@);
    reveal_strlit("CreatePolicy");
    assert("CreatePolicy"@.len() == 12);
    assert("CreatePolicy"@[6] == 'P' && "CreatePolicy"@[11] == 'y');
    alike::lemma_no_place("CreatePolicy"@);
    alike::lemma_member(t, u, "CreatePolicy"@);
    reveal_strlit("CreateServer");
    assert("CreateServer"@.len() == 12);
    assert("CreateServer"@[6] == 'S' && "CreateServer"@[11] == 'r');
    alike::lemma_no_place("CreateServer"@);
    alike::lemma_member(t, u, "CreateServer"@);
    reveal_strlit("AlterTable");
    assert("AlterTable"@.len() == 10);
    assert("AlterTable"@[4] == 'r' && "AlterTable"@[9] == 'e');
    alike::lemma_no_place("AlterTable"@);
    alike::lemma_member(t, u, "AlterTable"@);
    reveal_strlit("AlterIndex");
    assert("AlterIndex"@.len() == 10);
    assert("AlterIndex"@[4] == 'r' && "AlterIndex"@[9] == 'x');
    alike::lemma_no_place("AlterIndex"@);
    alike::lemma_member(t, u, "AlterIndex"@);
    reveal_strlit("AlterFunction");
    assert("AlterFunction"@.len() == 13);
    assert("AlterFunction"@[7] == 'n' && "AlterFunction"@[12] == 'n');
    alike::lemma_no_place("AlterFunction"@);
    alike::lemma_member(t, u, "AlterFunction"@);
    reveal_strlit("AlterPolicy");
    assert("AlterPolicy"@.len() == 11);
    assert("AlterPolicy"@[5] == 'P' && "AlterPolicy"@[10] == 'y');
    alike::lemma_no_place("AlterPolicy"@);
    alike::lemma_member(t, u, "AlterPolicy"@);
    reveal_strlit("AlterType");
    assert("AlterType"@.len() == 9);
    assert("AlterType"@[3] == 'e' && "AlterType"@[8] == 'e');
    alike::lemma_no_place("AlterType"@);
    alike::lemma_member(t, u, "AlterType"@);
    reveal_strlit("AlterRole");
    assert("AlterRole"@.len() == 9);
    assert("AlterRole"@[3] == 'e' && "AlterRole"@[8] == 'e');
    alike::lemma_no_place("AlterRole"@);
    alike::lemma_member(t, u, "AlterRole"@);
    reveal_strlit("AlterUser");
    assert("AlterUser"@.len() == 9);
    assert("AlterUser"@[3] == 'e' && "AlterUser"@[8] == 'r');
    alike::lemma_no_place("AlterUser"@);
    alike::lemma_member(t, u, "AlterUser"@);
    reveal_strlit("Drop");
    assert("Drop"@.len() == 4);
    assert("Drop"@[0] == 'D' && "Drop"@[1] == 'r');
    alike::lemma_no_place("Drop"@);
    alike::lemma_member(t, u, "Drop"@);
    reveal_strlit("DropTrigger");
    assert("DropTrigger"@.len() == 11);
    assert("DropTrigger"@[5] == 'r' && "DropTrigger"@[10] == 'r');
    alike::lemma_no_place("DropTrigger"@);
    alike::lemma_member(t, u, "DropTrigger"@);
    reveal_strlit("DropPolicy");
    assert("DropPolicy"@.len() == 10);
    assert("DropPolicy"@[4] == 'P' && "DropPolicy"@[9] == 'y');
    alike::lemma_no_place("DropPolicy"@);
    alike::lemma_member(t, u, "DropPolicy"@);
    reveal_strlit("Truncate");
    assert("Truncate"@.len() == 8);
    assert("Truncate"@[2] == 'u' && "Truncate"@[7] == 'e');
    alike::lemma_no_place("Truncate"@);
    alike::lemma_member(t, u, "Truncate"@);
    reveal_strlit("Insert");
    assert("Insert"@.len() == 6);
    alike::lemma_no_place("Insert"@);
    alike::lemma_member(t, u, "Insert"@);
    reveal_strlit("Update");
    assert("Update"@.len() == 6);
    alike::lemma_no_place("Update"@);
    alike::lemma_member(t, u, "Update"@);
    reveal_strlit("Delete");
    assert("Delete"@.len() == 6);
    alike::lemma_no_place("Delete"@);
    alike::lemma_member(t, u, "Delete"@);
    reveal_strlit("Merge");
    assert("Merge"@.len() == 5);
    alike::lemma_no_place("Merge"@);
    alike::lemma_member(t, u, "Merge"@);
    reveal_strlit("StartTransaction");
    assert("StartTransaction"@.len() == 16);
    assert("StartTransaction"@[10] == 'a' && "StartTransaction"@[15] == 'n');
    alike::lemma_no_place("StartTransaction"@);
    alike::lemma_member(t, u, "StartTransaction"@);
    reveal_strlit("Commit");
    assert("Commit"@.len() == 6);
    alike::lemma_no_place("Commit"@);
    alike::lemma_member(t, u, "Commit"@);
    reveal_strlit("Rollback");
    assert("Rollback"@.len() == 8);
    assert("Rollback"@[2] == 'l' && "Rollback"@[7] == 'k');
    alike::lemma_no_place("Rollback"@);
    alike::lemma_member(t, u, "Rollback"@);
}

} // verus!
