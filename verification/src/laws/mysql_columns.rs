//! What the translation of a MySQL column owes to its options, its default and its numbering.

use vstd::prelude::*;

use crate::diagnostic::LintRule;
use crate::mysql::column::{self, AutoIncrement, Unwanted};
use crate::mysql::{literal, types};
use crate::rules::name_match;
use crate::shapes;
use crate::syntax::{self, Tree};
use crate::text;
use crate::token;
use crate::transactions;

verus! {

/// The names of fields and kinds differ.
proof fn lemma_field_names()
    ensures
        "BigInt"@.len() == 6,
        "Boolean"@.len() == 7,
        "Bytea"@.len() == 5,
        "Cache"@.len() == 5,
        "CharacterSet"@.len() == 12,
        "Collation"@.len() == 9,
        "Comment"@.len() == 7,
        "Date"@.len() == 4,
        "Dec"@.len() == 3,
        "Decimal"@.len() == 7,
        "Default"@.len() == 7,
        "DialectSpecific"@.len() == 15,
        "Double"@.len() == 6,
        "DoublePrecision"@.len() == 15,
        "DoubleQuotedString"@.len() == 18,
        "Float"@.len() == 5,
        "Generated"@.len() == 9,
        "HexStringLiteral"@.len() == 16,
        "Int"@.len() == 3,
        "Integer"@.len() == 7,
        "KeyValue"@.len() == 8,
        "Null"@.len() == 4,
        "Number"@.len() == 6,
        "Numeric"@.len() == 7,
        "OnUpdate"@.len() == 8,
        "Plain"@.len() == 5,
        "Real"@.len() == 4,
        "SingleQuotedByteStringLiteral"@.len() == 29,
        "SingleQuotedString"@.len() == 18,
        "SmallInt"@.len() == 8,
        "StartWith"@.len() == 9,
        "Time"@.len() == 4,
        "Timestamp"@.len() == 9,
        "TinyInt"@.len() == 7,
        "Value"@.len() == 5,
        "With"@.len() == 4,
        "Word"@.len() == 4,
        "data_type"@.len() == 9,
        "generated_as"@.len() == 12,
        "generated_keyword"@.len() == 17,
        "generation_expr"@.len() == 15,
        "generation_expr_mode"@.len() == 20,
        "key"@.len() == 3,
        "name"@.len() == 4,
        "option"@.len() == 6,
        "options"@.len() == 7,
        "sequence_options"@.len() == 16,
        "span"@.len() == 4,
        "value"@.len() == 5,
        "BigInt"@ != "Double"@,
        "BigInt"@ != "Number"@,
        "BigInt"@ != "option"@,
        "Boolean"@ != "Comment"@,
        "Boolean"@ != "Decimal"@,
        "Boolean"@ != "Default"@,
        "Boolean"@ != "Integer"@,
        "Boolean"@ != "Numeric"@,
        "Boolean"@ != "TinyInt"@,
        "Boolean"@ != "options"@,
        "Bytea"@ != "Cache"@,
        "Bytea"@ != "Float"@,
        "Bytea"@ != "Plain"@,
        "Bytea"@ != "Value"@,
        "Bytea"@ != "value"@,
        "Cache"@ != "Float"@,
        "Cache"@ != "Plain"@,
        "Cache"@ != "Value"@,
        "Cache"@ != "value"@,
        "CharacterSet"@ != "generated_as"@,
        "Collation"@ != "Generated"@,
        "Collation"@ != "StartWith"@,
        "Collation"@ != "Timestamp"@,
        "Collation"@ != "data_type"@,
        "Comment"@ != "Decimal"@,
        "Comment"@ != "Default"@,
        "Comment"@ != "Integer"@,
        "Comment"@ != "Numeric"@,
        "Comment"@ != "TinyInt"@,
        "Comment"@ != "options"@,
        "Date"@ != "Null"@,
        "Date"@ != "Real"@,
        "Date"@ != "Time"@,
        "Date"@ != "With"@,
        "Date"@ != "Word"@,
        "Date"@ != "name"@,
        "Date"@ != "span"@,
        "Dec"@ != "Int"@,
        "Dec"@ != "key"@,
        "Decimal"@ != "Default"@,
        "Decimal"@ != "Integer"@,
        "Decimal"@ != "Numeric"@,
        "Decimal"@ != "TinyInt"@,
        "Decimal"@ != "options"@,
        "Default"@ != "Integer"@,
        "Default"@ != "Numeric"@,
        "Default"@ != "TinyInt"@,
        "Default"@ != "options"@,
        "DialectSpecific"@ != "DoublePrecision"@,
        "DialectSpecific"@ != "generation_expr"@,
        "Double"@ != "Number"@,
        "Double"@ != "option"@,
        "DoublePrecision"@ != "generation_expr"@,
        "DoubleQuotedString"@ != "SingleQuotedString"@,
        "Float"@ != "Plain"@,
        "Float"@ != "Value"@,
        "Float"@ != "value"@,
        "Generated"@ != "StartWith"@,
        "Generated"@ != "Timestamp"@,
        "Generated"@ != "data_type"@,
        "HexStringLiteral"@ != "sequence_options"@,
        "Int"@ != "key"@,
        "Integer"@ != "Numeric"@,
        "Integer"@ != "TinyInt"@,
        "Integer"@ != "options"@,
        "KeyValue"@ != "OnUpdate"@,
        "KeyValue"@ != "SmallInt"@,
        "Null"@ != "Real"@,
        "Null"@ != "Time"@,
        "Null"@ != "With"@,
        "Null"@ != "Word"@,
        "Null"@ != "name"@,
        "Null"@ != "span"@,
        "Number"@ != "option"@,
        "Numeric"@ != "TinyInt"@,
        "Numeric"@ != "options"@,
        "OnUpdate"@ != "SmallInt"@,
        "Plain"@ != "Value"@,
        "Plain"@ != "value"@,
        "Real"@ != "Time"@,
        "Real"@ != "With"@,
        "Real"@ != "Word"@,
        "Real"@ != "name"@,
        "Real"@ != "span"@,
        "StartWith"@ != "Timestamp"@,
        "StartWith"@ != "data_type"@,
        "Time"@ != "With"@,
        "Time"@ != "Word"@,
        "Time"@ != "name"@,
        "Time"@ != "span"@,
        "Timestamp"@ != "data_type"@,
        "TinyInt"@ != "options"@,
        "Value"@ != "value"@,
        "With"@ != "Word"@,
        "With"@ != "name"@,
        "With"@ != "span"@,
        "Word"@ != "name"@,
        "Word"@ != "span"@,
        "name"@ != "span"@,
{
    reveal_strlit("BigInt");
    reveal_strlit("Boolean");
    reveal_strlit("Bytea");
    reveal_strlit("Cache");
    reveal_strlit("CharacterSet");
    reveal_strlit("Collation");
    reveal_strlit("Comment");
    reveal_strlit("Date");
    reveal_strlit("Dec");
    reveal_strlit("Decimal");
    reveal_strlit("Default");
    reveal_strlit("DialectSpecific");
    reveal_strlit("Double");
    reveal_strlit("DoublePrecision");
    reveal_strlit("DoubleQuotedString");
    reveal_strlit("Float");
    reveal_strlit("Generated");
    reveal_strlit("HexStringLiteral");
    reveal_strlit("Int");
    reveal_strlit("Integer");
    reveal_strlit("KeyValue");
    reveal_strlit("Null");
    reveal_strlit("Number");
    reveal_strlit("Numeric");
    reveal_strlit("OnUpdate");
    reveal_strlit("Plain");
    reveal_strlit("Real");
    reveal_strlit("SingleQuotedByteStringLiteral");
    reveal_strlit("SingleQuotedString");
    reveal_strlit("SmallInt");
    reveal_strlit("StartWith");
    reveal_strlit("Time");
    reveal_strlit("Timestamp");
    reveal_strlit("TinyInt");
    reveal_strlit("Value");
    reveal_strlit("With");
    reveal_strlit("Word");
    reveal_strlit("data_type");
    reveal_strlit("generated_as");
    reveal_strlit("generated_keyword");
    reveal_strlit("generation_expr");
    reveal_strlit("generation_expr_mode");
    reveal_strlit("key");
    reveal_strlit("name");
    reveal_strlit("option");
    reveal_strlit("options");
    reveal_strlit("sequence_options");
    reveal_strlit("span");
    reveal_strlit("value");
    assert("BigInt"@[0] != "Double"@[0]);
    assert("BigInt"@[0] != "Number"@[0]);
    assert("BigInt"@[0] != "option"@[0]);
    assert("Boolean"@[0] != "Comment"@[0]);
    assert("Boolean"@[0] != "Decimal"@[0]);
    assert("Boolean"@[0] != "Default"@[0]);
    assert("Boolean"@[0] != "Integer"@[0]);
    assert("Boolean"@[0] != "Numeric"@[0]);
    assert("Boolean"@[0] != "TinyInt"@[0]);
    assert("Boolean"@[0] != "options"@[0]);
    assert("Bytea"@[0] != "Cache"@[0]);
    assert("Bytea"@[0] != "Float"@[0]);
    assert("Bytea"@[0] != "Plain"@[0]);
    assert("Bytea"@[0] != "Value"@[0]);
    assert("Bytea"@[0] != "value"@[0]);
    assert("Cache"@[0] != "Float"@[0]);
    assert("Cache"@[0] != "Plain"@[0]);
    assert("Cache"@[0] != "Value"@[0]);
    assert("Cache"@[0] != "value"@[0]);
    assert("CharacterSet"@[0] != "generated_as"@[0]);
    assert("Collation"@[0] != "Generated"@[0]);
    assert("Collation"@[0] != "StartWith"@[0]);
    assert("Collation"@[0] != "Timestamp"@[0]);
    assert("Collation"@[0] != "data_type"@[0]);
    assert("Comment"@[0] != "Decimal"@[0]);
    assert("Comment"@[0] != "Default"@[0]);
    assert("Comment"@[0] != "Integer"@[0]);
    assert("Comment"@[0] != "Numeric"@[0]);
    assert("Comment"@[0] != "TinyInt"@[0]);
    assert("Comment"@[0] != "options"@[0]);
    assert("Date"@[0] != "Null"@[0]);
    assert("Date"@[0] != "Real"@[0]);
    assert("Date"@[0] != "Time"@[0]);
    assert("Date"@[0] != "With"@[0]);
    assert("Date"@[0] != "Word"@[0]);
    assert("Date"@[0] != "name"@[0]);
    assert("Date"@[0] != "span"@[0]);
    assert("Dec"@[0] != "Int"@[0]);
    assert("Dec"@[0] != "key"@[0]);
    assert("Decimal"@[2] != "Default"@[2]);
    assert("Decimal"@[0] != "Integer"@[0]);
    assert("Decimal"@[0] != "Numeric"@[0]);
    assert("Decimal"@[0] != "TinyInt"@[0]);
    assert("Decimal"@[0] != "options"@[0]);
    assert("Default"@[0] != "Integer"@[0]);
    assert("Default"@[0] != "Numeric"@[0]);
    assert("Default"@[0] != "TinyInt"@[0]);
    assert("Default"@[0] != "options"@[0]);
    assert("DialectSpecific"@[1] != "DoublePrecision"@[1]);
    assert("DialectSpecific"@[0] != "generation_expr"@[0]);
    assert("Double"@[0] != "Number"@[0]);
    assert("Double"@[0] != "option"@[0]);
    assert("DoublePrecision"@[0] != "generation_expr"@[0]);
    assert("DoubleQuotedString"@[0] != "SingleQuotedString"@[0]);
    assert("Float"@[0] != "Plain"@[0]);
    assert("Float"@[0] != "Value"@[0]);
    assert("Float"@[0] != "value"@[0]);
    assert("Generated"@[0] != "StartWith"@[0]);
    assert("Generated"@[0] != "Timestamp"@[0]);
    assert("Generated"@[0] != "data_type"@[0]);
    assert("HexStringLiteral"@[0] != "sequence_options"@[0]);
    assert("Int"@[0] != "key"@[0]);
    assert("Integer"@[0] != "Numeric"@[0]);
    assert("Integer"@[0] != "TinyInt"@[0]);
    assert("Integer"@[0] != "options"@[0]);
    assert("KeyValue"@[0] != "OnUpdate"@[0]);
    assert("KeyValue"@[0] != "SmallInt"@[0]);
    assert("Null"@[0] != "Real"@[0]);
    assert("Null"@[0] != "Time"@[0]);
    assert("Null"@[0] != "With"@[0]);
    assert("Null"@[0] != "Word"@[0]);
    assert("Null"@[0] != "name"@[0]);
    assert("Null"@[0] != "span"@[0]);
    assert("Number"@[0] != "option"@[0]);
    assert("Numeric"@[0] != "TinyInt"@[0]);
    assert("Numeric"@[0] != "options"@[0]);
    assert("OnUpdate"@[0] != "SmallInt"@[0]);
    assert("Plain"@[0] != "Value"@[0]);
    assert("Plain"@[0] != "value"@[0]);
    assert("Real"@[0] != "Time"@[0]);
    assert("Real"@[0] != "With"@[0]);
    assert("Real"@[0] != "Word"@[0]);
    assert("Real"@[0] != "name"@[0]);
    assert("Real"@[0] != "span"@[0]);
    assert("StartWith"@[0] != "Timestamp"@[0]);
    assert("StartWith"@[0] != "data_type"@[0]);
    assert("Time"@[0] != "With"@[0]);
    assert("Time"@[0] != "Word"@[0]);
    assert("Time"@[0] != "name"@[0]);
    assert("Time"@[0] != "span"@[0]);
    assert("Timestamp"@[0] != "data_type"@[0]);
    assert("TinyInt"@[0] != "options"@[0]);
    assert("Value"@[0] != "value"@[0]);
    assert("With"@[1] != "Word"@[1]);
    assert("With"@[0] != "name"@[0]);
    assert("With"@[0] != "span"@[0]);
    assert("Word"@[0] != "name"@[0]);
    assert("Word"@[0] != "span"@[0]);
    assert("name"@[0] != "span"@[0]);
}

/// The kind of a column option, where it is the given one.
pub open spec fn is_of(opt: Tree, kind: Seq<char>) -> bool {
    syntax::member(token::field(opt, "option"@), kind) is Some
}

/// Whether a column option is `AUTO_INCREMENT`.
pub open spec fn numbers(opt: Tree) -> bool {
    let tokens = name_match::items_of(
        token::field(token::field(opt, "option"@), "DialectSpecific"@),
    );
    tokens.len() == 1 && syntax::member(tokens[0], "Word"@) is Some && token::text_in(
        token::field(tokens[0], "Word"@),
        "value"@,
    ) == "AUTO_INCREMENT"@
}

/// Whether a column option is one that only MySQL has.
pub open spec fn is_foreign(opt: Tree) -> bool {
    ||| is_of(opt, "CharacterSet"@)
    ||| is_of(opt, "Collation"@)
    ||| is_of(opt, "Comment"@)
    ||| is_of(opt, "OnUpdate"@)
}

/// The options of a column.
pub open spec fn options_of(col: Tree) -> Seq<Tree> {
    name_match::items_of(token::field(col, "options"@))
}

proof fn lemma_wanted_has(opts: Seq<Tree>, which: Unwanted, o: Tree)
    requires
        opts.contains(o),
        !column::unwanted(o, which),
    ensures
        column::wanted(opts, which).contains(o),
    decreases opts.len(),
{
    let front = opts.drop_last();
    let before = column::wanted(front, which);
    let all = column::wanted(opts, which);
    let i = choose|i: int| 0 <= i < opts.len() && opts[i] == o;
    if i < front.len() {
        assert(front[i] == o);
        lemma_wanted_has(front, which, o);
        let j = choose|j: int| 0 <= j < before.len() && before[j] == o;
        assert(all[j] == o);
    } else {
        assert(all[before.len() as int] == o);
    }
}

proof fn lemma_wanted_from(opts: Seq<Tree>, which: Unwanted, j: int)
    requires
        0 <= j < column::wanted(opts, which).len(),
    ensures
        opts.contains(column::wanted(opts, which)[j]),
        !column::unwanted(column::wanted(opts, which)[j], which),
    decreases opts.len(),
{
    let front = opts.drop_last();
    let before = column::wanted(front, which);
    if j < before.len() {
        lemma_wanted_from(front, which, j);
        let i = choose|i: int| 0 <= i < front.len() && front[i] == before[j];
        assert(opts[i] == before[j]);
        assert(column::wanted(opts, which)[j] == before[j]);
    } else {
        assert(opts[opts.len() - 1] == column::wanted(opts, which)[j]);
    }
}

/// An option that is neither a default, nor generated, nor `AUTO_INCREMENT`, nor one that only MySQL
/// has stays in the column as it is: `NOT NULL`, keys, references and checks.
pub proof fn law_plain_options_stay(col: Tree, seed: AutoIncrement, o: Tree)
    requires
        col is Record,
        options_of(col).contains(o),
        !is_of(o, "Default"@),
        !is_of(o, "Generated"@),
        !numbers(o),
        !is_foreign(o),
    ensures
        options_of(column::translated_column(col, seed).0).contains(o),
{
    lemma_field_names();
    let name = token::text_in(token::field(col, "name"@), "value"@);
    let old = token::field(col, "data_type"@);
    let opts = options_of(col);
    let (ty, kept, _) = column::retyped(old, opts, name, seed);
    if column::any_auto_increment(opts) {
        lemma_wanted_has(opts, Unwanted::Numbering, o);
        let rest = column::wanted(opts, Unwanted::Numbering);
        let i = choose|i: int| 0 <= i < rest.len() && rest[i] == o;
        assert(kept[i] == o);
    }
    assert(kept.contains(o));
    let width = column::bit_width_of(old);
    let i = choose|i: int| 0 <= i < kept.len() && kept[i] == o;
    let recast = kept.map_values(|opt: Tree| column::recast_option(opt, ty, width));
    assert(recast[i] == o);
    if column::any_invalid_default(kept, ty, width) {
        lemma_wanted_has(recast, Unwanted::Default, o);
    }
    let (after, _) = column::recast_options(kept, ty, width, name);
    assert(after.contains(o));
    lemma_wanted_has(after, Unwanted::MysqlOnly, o);
    let stripped = column::wanted(after, Unwanted::MysqlOnly);
    let j = choose|j: int| 0 <= j < stripped.len() && stripped[j] == o;
    let made = column::translated_column(col, seed).0;
    let last = stripped.map_values(|p: Tree| column::requoted_option(p));
    assert(column::requoted_option(o) == o);
    assert(last[j] == o);
    assert(token::field(made, "options"@) == Tree::List(last));
    assert(options_of(made)[j] == o);
}

/// What only MySQL has leaves the column, and `ON UPDATE` is reported; so does `AUTO_INCREMENT`.
pub proof fn law_foreign_options_go(col: Tree, seed: AutoIncrement)
    requires
        col is Record,
    ensures
        forall|j: int|
            0 <= j < options_of(column::translated_column(col, seed).0).len() ==> !is_foreign(
                #[trigger] options_of(column::translated_column(col, seed).0)[j],
            ),
        (exists|i: int|
            0 <= i < options_of(col).len() && is_of(#[trigger] options_of(col)[i], "OnUpdate"@) && !is_of(
                options_of(col)[i],
                "Default"@,
            ) && !numbers(options_of(col)[i])) ==> (exists|n: int|
            0 <= n < column::translated_column(col, seed).1.len() && (
            #[trigger] column::translated_column(col, seed).1[n]).rule
                == LintRule::MysqlOnUpdateDropped),
{
    lemma_field_names();
    let name = token::text_in(token::field(col, "name"@), "value"@);
    let old = token::field(col, "data_type"@);
    let opts = options_of(col);
    let (ty, kept, first) = column::retyped(old, opts, name, seed);
    let width = column::bit_width_of(old);
    let (after, second) = column::recast_options(kept, ty, width, name);
    let stripped = column::wanted(after, Unwanted::MysqlOnly);
    let (made, ds) = column::translated_column(col, seed);
    let last = stripped.map_values(|p: Tree| column::requoted_option(p));
    assert(token::field(made, "options"@) == Tree::List(last));
    assert forall|j: int| 0 <= j < options_of(made).len() implies !is_foreign(
        #[trigger] options_of(made)[j],
    ) by {
        lemma_wanted_from(after, Unwanted::MysqlOnly, j);
        let o = stripped[j];
        assert(options_of(made)[j] == column::requoted_option(o));
        lemma_requoted_kinds(o);
    }
    if exists|i: int|
        0 <= i < opts.len() && is_of(#[trigger] opts[i], "OnUpdate"@) && !is_of(
            opts[i],
            "Default"@,
        ) && !numbers(opts[i]) {
        let i = choose|i: int|
            0 <= i < opts.len() && is_of(#[trigger] opts[i], "OnUpdate"@) && !is_of(
                opts[i],
                "Default"@,
            ) && !numbers(opts[i]);
        let o = opts[i];
        if column::any_auto_increment(opts) {
            lemma_wanted_has(opts, Unwanted::Numbering, o);
            let rest = column::wanted(opts, Unwanted::Numbering);
            let n = choose|n: int| 0 <= n < rest.len() && rest[n] == o;
            assert(kept[n] == o);
        }
        assert(kept.contains(o));
        let recast = kept.map_values(|opt: Tree| column::recast_option(opt, ty, width));
        let n = choose|n: int| 0 <= n < kept.len() && kept[n] == o;
        assert(recast[n] == o);
        if column::any_invalid_default(kept, ty, width) {
            lemma_wanted_has(recast, Unwanted::Default, o);
        }
        assert(after.contains(o));
        let m = choose|m: int| 0 <= m < after.len() && after[m] == o;
        assert(column::is_option(after[m], "OnUpdate"@));
        assert(column::any_option(after, "OnUpdate"@));
        let third = column::strip_reports(after, name);
        assert(ds == first + second + third);
        assert(ds[(first.len() + second.len()) as int] == third[0]);
    }
}

proof fn lemma_requoted_kinds(o: Tree)
    ensures
        is_foreign(column::requoted_option(o)) == is_foreign(o),
        is_of(column::requoted_option(o), "Default"@) == is_of(o, "Default"@),
{
    lemma_field_names();
    let p = column::requoted_option(o);
    if p != o {
        let a = token::field(o, "option"@);
        let b = token::field(p, "option"@);
        assert(forall|k: Seq<char>| syntax::member(a, k) is Some == #[trigger] syntax::member(
            b,
            k,
        ) is Some);
    }
}

/// The `AUTO_INCREMENT` column of a table becomes a `BIGINT` that DSQL numbers by default, with a
/// cache of 65536 and, where the dump gives it, the number to go on with; it has no default and is
/// numbered no other way, and that is reported.
pub proof fn law_numbered_columns_become_identities(col: Tree, seed: AutoIncrement, i: int)
    requires
        col is Record,
        0 <= i < options_of(col).len(),
        numbers(options_of(col)[i]),
    ensures
        ({
            let (made, ds) = column::translated_column(col, seed);
            let o = options_of(made).last();
            let g = token::field(token::field(o, "option"@), "Generated"@);
            let sequence = name_match::items_of(token::field(g, "sequence_options"@));
            &&& token::field(made, "data_type"@) == syntax::variant("BigInt"@, Tree::Null)
            &&& options_of(made).len() > 0
            &&& token::field(g, "generated_as"@) == Tree::Text("ByDefault"@)
            &&& token::field(g, "generation_expr"@) == Tree::Null
            &&& sequence[0] == syntax::variant("Cache"@, shapes::number_expr("65536"@))
            &&& seed is Seed && seed->Seed_0 >= 0 ==> sequence.len() == 2 && sequence[1]
                == syntax::variant(
                "StartWith"@,
                Tree::List(
                    seq![shapes::number_expr(text::decimal(seed->Seed_0 as nat)), Tree::Flag(true)],
                ),
            )
            &&& !(seed is Seed) ==> sequence.len() == 1
            &&& forall|j: int|
                0 <= j < options_of(made).len() ==> !is_of(#[trigger] options_of(made)[j], "Default"@)
            &&& ds.len() > 0 && ds[0].rule == LintRule::MysqlAutoIncrementToIdentity
        }),
{
    lemma_field_names();
    let name = token::text_in(token::field(col, "name"@), "value"@);
    let old = token::field(col, "data_type"@);
    let opts = options_of(col);
    assert(column::auto_increment(opts[i]));
    assert(column::any_auto_increment(opts));
    let (ty, kept, first) = column::retyped(old, opts, name, seed);
    let identity = column::numbering(seed);
    let rest = column::wanted(opts, Unwanted::Numbering);
    let width = column::bit_width_of(old);
    assert(kept == rest.push(identity));
    let g = token::field(token::field(identity, "option"@), "Generated"@);
    assert(syntax::member(token::field(identity, "option"@), "Generated"@) == Some(g));
    assert(!is_of(identity, "Default"@));
    assert(!is_foreign(identity));
    assert(token::field(g, "generation_expr"@) == Tree::Null);
    assert forall|j: int| 0 <= j < kept.len() implies !is_of(#[trigger] kept[j], "Default"@) by {
        if j < rest.len() {
            lemma_wanted_from(opts, Unwanted::Numbering, j);
            assert(kept[j] == rest[j]);
        }
    }
    let recast = kept.map_values(|opt: Tree| column::recast_option(opt, ty, width));
    assert(recast =~= kept) by {
        assert forall|j: int| 0 <= j < kept.len() implies recast[j] == kept[j] by {
            assert(!is_of(kept[j], "Default"@));
        }
    }
    assert(!column::any_invalid_default(kept, ty, width)) by {
        assert forall|j: int| 0 <= j < kept.len() implies !column::invalid_default(
            #[trigger] kept[j],
            ty,
            width,
        ) by {
            assert(!is_of(kept[j], "Default"@));
        }
    }
    let (after, second) = column::recast_options(kept, ty, width, name);
    assert(after == kept);
    let stripped = column::wanted(after, Unwanted::MysqlOnly);
    assert(after.drop_last() =~= rest);
    assert(stripped == column::wanted(rest, Unwanted::MysqlOnly).push(identity));
    let (made, ds) = column::translated_column(col, seed);
    let last = stripped.map_values(|p: Tree| column::requoted_option(p));
    assert(token::field(made, "options"@) == Tree::List(last));
    assert(column::requoted_option(identity) == identity);
    assert(options_of(made).last() == identity);
    assert forall|j: int| 0 <= j < options_of(made).len() implies !is_of(
        #[trigger] options_of(made)[j],
        "Default"@,
    ) by {
        lemma_wanted_from(after, Unwanted::MysqlOnly, j);
        let n = choose|n: int| 0 <= n < kept.len() && kept[n] == stripped[j];
        assert(!is_of(kept[n], "Default"@));
        lemma_requoted_kinds(stripped[j]);
    }
    assert(ds == first + second + column::strip_reports(after, name));
    assert(ds[0] == first[0]);
    let sequence = name_match::items_of(token::field(g, "sequence_options"@));
    match seed {
        AutoIncrement::Seed(n) => {
            let start = text::decimal(column::as_unsigned(n));
            assert(token::field(g, "sequence_options"@) == Tree::List(
                shapes::identity_options("65536"@, Some(start)),
            ));
        },
        _ => {
            assert(token::field(g, "sequence_options"@) == Tree::List(
                shapes::identity_options("65536"@, None),
            ));
        },
    }
}

/// A column that is not numbered has the type that stands for its own, under its own name, and what
/// is neither name, type nor options stays.
pub proof fn law_columns_keep_the_rest(col: Tree, seed: AutoIncrement)
    requires
        col is Record,
        forall|i: int| 0 <= i < options_of(col).len() ==> !numbers(#[trigger] options_of(col)[i]),
    ensures
        ({
            let (made, ds) = column::translated_column(col, seed);
            let name = token::text_in(token::field(col, "name"@), "value"@);
            let typed = types::translated_type(token::field(col, "data_type"@), name);
            &&& token::field(made, "data_type"@) == typed.0
            &&& typed.1.len() <= ds.len() && typed.1 == ds.take(typed.1.len() as int)
            &&& forall|k: Seq<char>|
                k != "name"@ && k != "data_type"@ && k != "options"@ ==> #[trigger] syntax::member(
                    made,
                    k,
                ) == syntax::member(col, k)
        }),
{
    lemma_field_names();
    let opts = options_of(col);
    assert(!column::any_auto_increment(opts)) by {
        assert forall|i: int| 0 <= i < opts.len() implies !column::auto_increment(
            #[trigger] opts[i],
        ) by {
            assert(!numbers(opts[i]));
        }
    }
    let (made, ds) = column::translated_column(col, seed);
    let name = token::text_in(token::field(col, "name"@), "value"@);
    let typed = types::translated_type(token::field(col, "data_type"@), name);
    assert(typed.1 =~= ds.take(typed.1.len() as int));
}

/// The number that a table goes on with is that of its `AUTO_INCREMENT` option, however the word is
/// spelled and wherever it stands among the options.
pub proof fn law_numbering_goes_on(opts: Seq<Tree>, i: int, n: i64)
    requires
        0 <= i < opts.len(),
        ({
            let kv = token::field(opts[i], "KeyValue"@);
            let value = token::field(token::field(token::field(kv, "value"@), "Value"@), "value"@);
            let digits = name_match::items_of(token::field(value, "Number"@));
            &&& text::same_word(token::text_in(token::field(kv, "key"@), "value"@), "AUTO_INCREMENT"@)
            &&& digits.len() > 0
            &&& digits[0] matches Tree::Text(s) && literal::signed(s) == Some(n)
        }),
        forall|j: int|
            0 <= j < i ==> !text::same_word(
                token::text_in(
                    token::field(token::field(#[trigger] opts[j], "KeyValue"@), "key"@),
                    "value"@,
                ),
                "AUTO_INCREMENT"@,
            ),
    ensures
        column::seed_of(syntax::variant("Plain"@, Tree::List(opts))) == AutoIncrement::Seed(n),
{
    lemma_field_names();
    let t = syntax::variant("Plain"@, Tree::List(opts));
    assert(syntax::member(t, "Plain"@) == Some(Tree::List(opts)));
    lemma_first_seed(opts, 0, i, n);
}

proof fn lemma_first_seed(opts: Seq<Tree>, at: int, i: int, n: i64)
    requires
        0 <= at <= i < opts.len(),
        column::seed_in(opts[i]) == Some(AutoIncrement::Seed(n)),
        forall|j: int|
            0 <= j < i ==> !text::same_word(
                token::text_in(
                    token::field(token::field(#[trigger] opts[j], "KeyValue"@), "key"@),
                    "value"@,
                ),
                "AUTO_INCREMENT"@,
            ),
    ensures
        column::first_seed(opts, at) == AutoIncrement::Seed(n),
    decreases i - at,
{
    if at < i {
        assert(column::seed_in(opts[at]) is None);
        lemma_first_seed(opts, at + 1, i, n);
    }
}

/// A literal as an expression: what it is, and the rest of it.
pub open spec fn literal_of(expr: Tree) -> Tree {
    token::field(token::field(expr, "Value"@), "value"@)
}

/// Whether an expression is a literal.
pub open spec fn is_literal(expr: Tree) -> bool {
    syntax::member(expr, "Value"@) is Some && syntax::member(
        token::field(expr, "Value"@),
        "value"@,
    ) is Some
}

/// The number that a literal of MySQL stands for: digits, quoted digits, bits or hexadecimal digits.
pub open spec fn number_of(value: Tree) -> Option<nat> {
    match syntax::member(value, "SingleQuotedByteStringLiteral"@) {
        Some(Tree::Text(s)) => if literal::all_digits(s, 2) {
            Some(literal::value_of(s, 2))
        } else {
            None
        },
        _ => match syntax::member(value, "HexStringLiteral"@) {
            Some(Tree::Text(s)) => if literal::all_digits(s, 16) {
                Some(literal::value_of(s, 16))
            } else {
                None
            },
            _ => None,
        },
    }
}

/// A boolean default says what it said: 0 is false and 1 is true, however they are written, and
/// nothing else is a truth value.
pub proof fn law_boolean_defaults_say_the_same(expr: Tree, width: Option<u64>, digit: Seq<char>)
    requires
        is_literal(expr),
        transactions::one_kind(literal_of(expr)),
        ({
            let number = name_match::items_of(token::field(literal_of(expr), "Number"@));
            ||| number.len() > 0 && number[0] == Tree::Text(digit)
            ||| syntax::member(literal_of(expr), "SingleQuotedString"@) == Some(Tree::Text(digit))
            ||| syntax::member(literal_of(expr), "DoubleQuotedString"@) == Some(Tree::Text(digit))
            ||| syntax::member(literal_of(expr), "SingleQuotedByteStringLiteral"@) == Some(
                Tree::Text(digit),
            )
        }),
    ensures
        ({
            let made = column::new_default(expr, Tree::Text("Boolean"@), width);
            &&& digit == "0"@ ==> (made matches Some(e) && literal_of(e) == syntax::variant(
                "Boolean"@,
                Tree::Flag(false),
            ))
            &&& digit == "1"@ ==> (made matches Some(e) && literal_of(e) == syntax::variant(
                "Boolean"@,
                Tree::Flag(true),
            ))
            &&& digit != "0"@ && digit != "1"@ ==> made is None
        }),
{
    lemma_field_names();
    reveal_strlit("0");
    reveal_strlit("1");
    assert("0"@[0] != "1"@[0]);
    let value = literal_of(expr);
    let e = column::single_quoted(expr);
    if syntax::member(value, "Number"@) is Some {
        lemma_only(value, "Number"@);
    } else if syntax::member(value, "SingleQuotedString"@) is Some {
        lemma_only(value, "SingleQuotedString"@);
    } else if syntax::member(value, "DoubleQuotedString"@) is Some {
        lemma_only(value, "DoubleQuotedString"@);
    } else {
        lemma_only(value, "SingleQuotedByteStringLiteral"@);
    }
    if let Some(Tree::Text(s)) = syntax::member(value, "DoubleQuotedString"@) {
        let w = syntax::variant("SingleQuotedString"@, Tree::Text(s));
        assert(literal_of(e) == w);
        assert(syntax::member(w, "SingleQuotedString"@) == Some(Tree::Text(s)));
        assert(is_literal(e));
    } else {
        assert(e == expr);
    }
}

proof fn lemma_only(value: Tree, a: Seq<char>)
    requires
        transactions::one_kind(value),
        syntax::member(value, a) is Some,
    ensures
        forall|b: Seq<char>| a != b ==> !#[trigger] transactions::is_kind(value, b),
        forall|b: Seq<char>| a != b ==> #[trigger] syntax::member(value, b) is None,
{
    assert(transactions::is_kind(value, a));
    assert forall|b: Seq<char>| a != b implies #[trigger] syntax::member(value, b) is None by {
        assert(!transactions::is_kind(value, b));
    }
}

/// A default of bytes spells the number that it spelled, in the hexadecimal digits of whole bytes, as
/// many as the column has.
#[verifier::spinoff_prover]
#[verifier::rlimit(60)]
pub proof fn law_byte_defaults_say_the_same(expr: Tree, width: Option<u64>)
    requires
        is_literal(expr),
        transactions::one_kind(literal_of(expr)),
        number_of(literal_of(expr)) is Some,
        width matches Some(w) ==> 0 < w <= 64,
    ensures
        ({
            let made = column::new_default(expr, Tree::Text("Bytea"@), width);
            &&& made is Some
            &&& syntax::member(literal_of(made->Some_0), "SingleQuotedString"@) matches Some(
                Tree::Text(s),
            ) && s.len() >= 2 && s[0] == '\\' && s[1] == 'x' && literal::value_of(s.skip(2), 16)
                == number_of(literal_of(expr))->Some_0 && s.len() % 2 == 0 && (width matches Some(
                w,
            ) ==> (s.len() - 2) * 4 >= w)
        }),
{
    lemma_field_names();
    let value = literal_of(expr);
    let bytes = column::byte_width(width);
    let made = column::new_default(expr, Tree::Text("Bytea"@), width);
    if let Some(Tree::Text(s)) = syntax::member(value, "SingleQuotedByteStringLiteral"@) {
        lemma_only(value, "SingleQuotedByteStringLiteral"@);
        assert(column::single_quoted(expr) == expr);
        literal::law_bits_keep_their_value(s, bytes);
        let digits = literal::bytes_hex(literal::whole_bytes(s));
        literal::law_padding_keeps_the_value(digits, bytes);
        let hex = literal::padded(digits, bytes);
        lemma_bytea(hex);
        assert(made == Some(
            column::with_literal(
                expr,
                syntax::variant("SingleQuotedString"@, Tree::Text("\\x"@ + hex)),
            ),
        ));
        lemma_with_literal(expr, "\\x"@ + hex);
    } else {
        let s = syntax::member(value, "HexStringLiteral"@)->Some_0->Text_0;
        lemma_only(value, "HexStringLiteral"@);
        assert(column::single_quoted(expr) == expr);
        literal::law_padding_keeps_the_value(text::lowered(s), bytes);
        lemma_lowered_value(s);
        let hex = literal::padded(text::lowered(s), bytes);
        lemma_bytea(hex);
        assert(made == Some(
            column::with_literal(
                expr,
                syntax::variant("SingleQuotedString"@, Tree::Text("\\x"@ + hex)),
            ),
        ));
        lemma_with_literal(expr, "\\x"@ + hex);
    }
}

proof fn lemma_with_literal(expr: Tree, s: Seq<char>)
    requires
        is_literal(expr),
    ensures
        syntax::member(
            literal_of(
                column::with_literal(expr, syntax::variant("SingleQuotedString"@, Tree::Text(s))),
            ),
            "SingleQuotedString"@,
        ) == Some(Tree::Text(s)),
{
    let w = syntax::variant("SingleQuotedString"@, Tree::Text(s));
    assert(literal_of(column::with_literal(expr, w)) == w);
}

proof fn lemma_bytea(hex: Seq<char>)
    ensures
        ("\\x"@ + hex).len() == hex.len() + 2,
        ("\\x"@ + hex)[0] == '\\',
        ("\\x"@ + hex)[1] == 'x',
        ("\\x"@ + hex).skip(2) == hex,
{
    reveal_strlit("\\x");
    assert("\\x"@.len() == 2);
    assert(("\\x"@ + hex).skip(2) =~= hex);
}

proof fn lemma_lowered_value(s: Seq<char>)
    requires
        literal::all_digits(s, 16),
    ensures
        literal::value_of(text::lowered(s), 16) == literal::value_of(s, 16),
    decreases s.len(),
{
    let l = text::lowered(s);
    assert(l.drop_last() =~= text::lowered(s.drop_last()));
    assert(l.last() == text::lower(s.last()));
    assert(literal::is_digit(s[s.len() - 1], 16));
    assert(literal::digit_value(text::lower(s.last())) == literal::digit_value(s.last()));
    if s.len() > 1 {
        let front = s.drop_last();
        assert forall|i: int| 0 <= i < front.len() implies literal::is_digit(
            #[trigger] front[i],
            16,
        ) by {
            assert(front[i] == s[i]);
        }
        lemma_lowered_value(front);
    } else {
        assert(s.drop_last() =~= seq![]);
        assert(l.drop_last() =~= seq![]);
    }
}

/// A date that has a year, a month or a day of zero is no default; any other default of a date,
/// a time or a timestamp stays, and so does every default that is no literal.
pub proof fn law_date_defaults_are_dates(expr: Tree, ty: Tree, width: Option<u64>, s: Seq<char>)
    requires
        transactions::one_kind(ty),
        transactions::is_kind(ty, "Timestamp"@) || transactions::is_kind(ty, "Date"@)
            || transactions::is_kind(ty, "Time"@),
    ensures
        !is_literal(expr) ==> column::new_default(expr, ty, width) == Some(expr),
        is_literal(expr) && literal_of(expr) == syntax::variant("SingleQuotedString"@, Tree::Text(s))
            ==> column::new_default(expr, ty, width) == if is_zero_date(s) {
            None
        } else {
            Some(expr)
        },
{
    lemma_field_names();
    assert(!transactions::is_kind(ty, "Boolean"@) && !transactions::is_kind(ty, "Bytea"@));
    let value = literal_of(expr);
    if is_literal(expr) && value == syntax::variant("SingleQuotedString"@, Tree::Text(s)) {
        assert(syntax::member(value, "SingleQuotedString"@) == Some(Tree::Text(s)));
        assert(syntax::member(value, "DoubleQuotedString"@) is None);
        assert(column::single_quoted(expr) == expr);
        lemma_zero_date(s);
    }
}

/// Whether a year of zero begins a date.
pub open spec fn year_is_zero(d: Seq<char>) -> bool {
    d.len() >= 5 && d[0] == '0' && d[1] == '0' && d[2] == '0' && d[3] == '0' && d[4] == '-'
}

/// Whether a month of zero stands at `i`, between two dashes.
pub open spec fn month_is_zero(d: Seq<char>, i: int) -> bool {
    0 <= i && i + 4 <= d.len() && d[i] == '-' && d[i + 1] == '0' && d[i + 2] == '0' && d[i + 3]
        == '-'
}

/// Whether a day of zero ends a date.
pub open spec fn day_is_zero(d: Seq<char>) -> bool {
    let n = d.len();
    n >= 3 && d[n - 3] == '-' && d[n - 2] == '0' && d[n - 1] == '0'
}

/// Whether the first ten characters have a year, a month or a day of zero.
pub open spec fn is_zero_date(s: Seq<char>) -> bool {
    let d = first_ten(s);
    year_is_zero(d) || day_is_zero(d) || has_zero_month(d)
}

/// The first ten characters of a text.
pub open spec fn first_ten(s: Seq<char>) -> Seq<char> {
    if s.len() < 10 {
        s
    } else {
        s.take(10)
    }
}

/// Whether a month of zero stands in a date.
pub open spec fn has_zero_month(d: Seq<char>) -> bool {
    exists|i: int| #[trigger] month_is_zero(d, i)
}

proof fn lemma_year(d: Seq<char>)
    ensures
        text::stands_at(d, "0000-"@, 0) == year_is_zero(d),
{
    reveal_strlit("0000-");
    assert("0000-"@ =~= seq!['0', '0', '0', '0', '-']);
    if d.len() >= 5 {
        let w = d.subrange(0, 5);
        assert(w =~= seq![d[0], d[1], d[2], d[3], d[4]]);
        if w == "0000-"@ {
            assert(w[0] == '0' && w[1] == '0' && w[2] == '0' && w[3] == '0' && w[4] == '-');
        }
    }
}

proof fn lemma_month(d: Seq<char>, i: int)
    ensures
        text::stands_at(d, "-00-"@, i) == month_is_zero(d, i),
{
    reveal_strlit("-00-");
    assert("-00-"@ =~= seq!['-', '0', '0', '-']);
    if 0 <= i && i + 4 <= d.len() {
        let w = d.subrange(i, i + 4);
        assert(w =~= seq![d[i], d[i + 1], d[i + 2], d[i + 3]]);
        if w == "-00-"@ {
            assert(w[0] == '-' && w[1] == '0' && w[2] == '0' && w[3] == '-');
        }
    }
}

proof fn lemma_day(d: Seq<char>)
    ensures
        text::stands_at(d, "-00"@, d.len() - "-00"@.len()) == day_is_zero(d),
{
    reveal_strlit("-00");
    assert("-00"@ =~= seq!['-', '0', '0']);
    let n = d.len() as int;
    if n >= 3 {
        let w = d.subrange(n - 3, n);
        assert(w =~= seq![d[n - 3], d[n - 2], d[n - 1]]);
        if w == "-00"@ {
            assert(w[0] == '-' && w[1] == '0' && w[2] == '0');
        }
    }
}

proof fn lemma_zero_date(s: Seq<char>)
    ensures
        literal::zero_date(s) == is_zero_date(s),
{
    let d = s.take(
        if s.len() < 10 {
            s.len() as int
        } else {
            10
        },
    );
    if s.len() < 10 {
        assert(d =~= s);
    }
    lemma_year(d);
    lemma_day(d);
    if text::occurs(d, "-00-"@) {
        let i = choose|i: int| text::stands_at(d, "-00-"@, i);
        lemma_month(d, i);
        assert(month_is_zero(d, i));
    }
    if has_zero_month(d) {
        let i = choose|i: int| #[trigger] month_is_zero(d, i);
        lemma_month(d, i);
        assert(text::stands_at(d, "-00-"@, i));
    }
    assert(d =~= first_ten(s));
}

/// A default of a number that is written in hexadecimal digits becomes the decimal one of the same
/// value; any other literal stays but for double quotes.
pub proof fn law_number_defaults_say_the_same(expr: Tree, ty: Tree, width: Option<u64>, s: Seq<char>)
    requires
        transactions::one_kind(ty),
        transactions::is_kind(ty, "SmallInt"@) || transactions::is_kind(ty, "Int"@)
            || transactions::is_kind(ty, "Integer"@) || transactions::is_kind(ty, "BigInt"@)
            || transactions::is_kind(ty, "Numeric"@) || transactions::is_kind(ty, "Decimal"@)
            || transactions::is_kind(ty, "Dec"@) || transactions::is_kind(ty, "Float"@)
            || transactions::is_kind(ty, "Real"@) || transactions::is_kind(ty, "DoublePrecision"@),
        is_literal(expr),
        literal_of(expr) == syntax::variant("HexStringLiteral"@, Tree::Text(s)),
        literal::all_digits(s, 16),
        literal::value_of(s, 16) <= u64::MAX,
        s[0] != '+',
    ensures
        column::new_default(expr, ty, width) matches Some(e) && literal_of(e)
            == shapes::number_literal(text::decimal(literal::value_of(s, 16))),
{
    lemma_field_names();
    let value = literal_of(expr);
    assert(syntax::member(value, "HexStringLiteral"@) == Some(Tree::Text(s)));
    assert(syntax::member(value, "DoubleQuotedString"@) is None);
    assert(column::single_quoted(expr) == expr);
    assert(!transactions::is_kind(ty, "Boolean"@) && !transactions::is_kind(ty, "Bytea"@));
    assert(!transactions::is_kind(ty, "Timestamp"@) && !transactions::is_kind(ty, "Date"@)
        && !transactions::is_kind(ty, "Time"@));
    assert(types::numeric(ty));
}

/// A string in double quotes, which MySQL reads as a text, becomes the same text in single quotes, in
/// a column of texts; every other default of such a column stays.
pub proof fn law_text_defaults_say_the_same(expr: Tree, width: Option<u64>, s: Seq<char>)
    requires
        is_literal(expr),
    ensures
        literal_of(expr) == syntax::variant("DoubleQuotedString"@, Tree::Text(s)) ==> (
        column::new_default(expr, Tree::Text("Text"@), width) matches Some(e) && literal_of(e)
            == syntax::variant("SingleQuotedString"@, Tree::Text(s))),
        syntax::member(literal_of(expr), "DoubleQuotedString"@) is None ==> column::new_default(
            expr,
            Tree::Text("Text"@),
            width,
        ) == Some(expr),
{
    lemma_field_names();
    lemma_text_is_no_other();
    let value = literal_of(expr);
    if value == syntax::variant("DoubleQuotedString"@, Tree::Text(s)) {
        assert(syntax::member(value, "DoubleQuotedString"@) == Some(Tree::Text(s)));
    }
}

proof fn lemma_text_is_no_other()
    ensures
        !transactions::is_kind(Tree::Text("Text"@), "Boolean"@),
        !transactions::is_kind(Tree::Text("Text"@), "Bytea"@),
        !transactions::is_kind(Tree::Text("Text"@), "Timestamp"@),
        !transactions::is_kind(Tree::Text("Text"@), "Date"@),
        !transactions::is_kind(Tree::Text("Text"@), "Time"@),
        !types::numeric(Tree::Text("Text"@)),
{
    lemma_field_names();
    reveal_strlit("Text");
    assert("Text"@.len() == 4);
    reveal_strlit("Date");
    reveal_strlit("Time");
    reveal_strlit("Real");
    assert("Text"@[1] == 'e' && "Date"@[1] == 'a' && "Time"@[1] == 'i');
    assert("Text"@[0] != "Real"@[0]);
}

/// A default that the type of the column has no value for goes, and is reported; the column is left
/// without a default.
#[verifier::spinoff_prover]
pub proof fn law_lost_defaults_are_reported(col: Tree, seed: AutoIncrement, i: int)
    requires
        col is Record,
        forall|j: int| 0 <= j < options_of(col).len() ==> !numbers(#[trigger] options_of(col)[j]),
        0 <= i < options_of(col).len(),
        is_of(options_of(col)[i], "Default"@),
        column::new_default(
            token::field(token::field(options_of(col)[i], "option"@), "Default"@),
            token::field(column::translated_column(col, seed).0, "data_type"@),
            column::bit_width_of(token::field(col, "data_type"@)),
        ) is None,
    ensures
        ({
            let (made, ds) = column::translated_column(col, seed);
            &&& forall|j: int|
                0 <= j < options_of(made).len() ==> !is_of(
                    #[trigger] options_of(made)[j],
                    "Default"@,
                )
            &&& exists|n: int|
                0 <= n < ds.len() && (#[trigger] ds[n]).rule == LintRule::MysqlInvalidDefaultDropped
                    && ds[n].fix_result is FixedWithWarning
        }),
{
    lemma_field_names();
    law_columns_keep_the_rest(col, seed);
    let name = token::text_in(token::field(col, "name"@), "value"@);
    let old = token::field(col, "data_type"@);
    let opts = options_of(col);
    assert(!column::any_auto_increment(opts)) by {
        assert forall|j: int| 0 <= j < opts.len() implies !column::auto_increment(
            #[trigger] opts[j],
        ) by {
            assert(!numbers(opts[j]));
        }
    }
    let (ty, kept, first) = column::retyped(old, opts, name, seed);
    let width = column::bit_width_of(old);
    let (made, ds) = column::translated_column(col, seed);
    assert(token::field(made, "data_type"@) == ty);
    assert(column::invalid_default(kept[i], ty, width));
    let recast = kept.map_values(|opt: Tree| column::recast_option(opt, ty, width));
    let (after, second) = column::recast_options(kept, ty, width, name);
    assert(after == column::wanted(recast, Unwanted::Default));
    let stripped = column::wanted(after, Unwanted::MysqlOnly);
    let last = stripped.map_values(|p: Tree| column::requoted_option(p));
    assert(options_of(made) == last);
    assert forall|j: int| 0 <= j < last.len() implies !is_of(#[trigger] last[j], "Default"@) by {
        lemma_wanted_from(after, Unwanted::MysqlOnly, j);
        let k = choose|k: int| 0 <= k < after.len() && after[k] == stripped[j];
        lemma_wanted_from(recast, Unwanted::Default, k);
        assert(!column::is_option(stripped[j], "Default"@));
        lemma_requoted_has_no_default(stripped[j]);
    }
    let d = column::default_report(name);
    assert(second == seq![d]);
    assert(ds[first.len() as int] == d);
}

proof fn lemma_requoted_has_no_default(o: Tree)
    requires
        !column::is_option(o, "Default"@),
    ensures
        !column::is_option(column::requoted_option(o), "Default"@),
{
    lemma_field_names();
}

/// A default that the type of the column has a value for stays as that value.
#[verifier::spinoff_prover]
pub proof fn law_kept_defaults_are_recast(col: Tree, seed: AutoIncrement, i: int, e: Tree)
    requires
        col is Record,
        forall|j: int| 0 <= j < options_of(col).len() ==> !numbers(#[trigger] options_of(col)[j]),
        forall|j: int|
            0 <= j < options_of(col).len() && is_of(#[trigger] options_of(col)[j], "Default"@)
                ==> j == i,
        0 <= i < options_of(col).len(),
        is_of(options_of(col)[i], "Default"@),
        !is_foreign(options_of(col)[i]),
        column::new_default(
            token::field(token::field(options_of(col)[i], "option"@), "Default"@),
            token::field(column::translated_column(col, seed).0, "data_type"@),
            column::bit_width_of(token::field(col, "data_type"@)),
        ) == Some(e),
    ensures
        ({
            let o = options_of(col)[i];
            options_of(column::translated_column(col, seed).0).contains(
                syntax::with_member(
                    o,
                    "option"@,
                    syntax::with_member(token::field(o, "option"@), "Default"@, syntax::requoted(e)),
                ),
            )
        }),
{
    lemma_field_names();
    law_columns_keep_the_rest(col, seed);
    let name = token::text_in(token::field(col, "name"@), "value"@);
    let old = token::field(col, "data_type"@);
    let opts = options_of(col);
    let o = opts[i];
    assert(!column::any_auto_increment(opts)) by {
        assert forall|j: int| 0 <= j < opts.len() implies !column::auto_increment(
            #[trigger] opts[j],
        ) by {
            assert(!numbers(opts[j]));
        }
    }
    let (ty, kept, first) = column::retyped(old, opts, name, seed);
    let width = column::bit_width_of(old);
    let made = column::translated_column(col, seed).0;
    assert(token::field(made, "data_type"@) == ty);
    assert(!column::any_invalid_default(kept, ty, width)) by {
        assert forall|j: int| 0 <= j < kept.len() implies !#[trigger] column::invalid_default(
            kept[j],
            ty,
            width,
        ) by {
            if is_of(kept[j], "Default"@) {
                assert(j == i);
            }
        }
    }
    let recast = kept.map_values(|opt: Tree| column::recast_option(opt, ty, width));
    let p = recast[i];
    let option = token::field(o, "option"@);
    assert(p == syntax::with_member(o, "option"@, syntax::with_member(option, "Default"@, e)));
    assert(recast.contains(p));
    lemma_wanted_has(recast, Unwanted::MysqlOnly, p);
    let stripped = column::wanted(recast, Unwanted::MysqlOnly);
    let j = choose|j: int| 0 <= j < stripped.len() && stripped[j] == p;
    let last = stripped.map_values(|p: Tree| column::requoted_option(p));
    assert(options_of(made) == last);
    let q = syntax::with_member(
        o,
        "option"@,
        syntax::with_member(option, "Default"@, syntax::requoted(e)),
    );
    assert(column::requoted_option(p) == q) by {
        if let (Tree::Record(f), Tree::Record(g)) = (o, option) {
            let x = Tree::Record(g.insert("Default"@, e));
            let y = Tree::Record(g.insert("Default"@, syntax::requoted(e)));
            assert(g.insert("Default"@, e).insert("Default"@, syntax::requoted(e)) =~= g.insert(
                "Default"@,
                syntax::requoted(e),
            ));
            assert(f.insert("option"@, x).insert("option"@, y) =~= f.insert("option"@, y));
        }
    }
    assert(last[j] == q);
}

} // verus!
