//! What the translation of a MySQL table owes to its names: but for their quotes they stay.

use vstd::prelude::*;

use crate::diagnostic::LintRule;
use crate::mysql;
use crate::mysql::column;
use crate::mysql::{index, quoting};
use crate::rules::name_match;
use crate::syntax::{self, Tree};
use crate::text;
use crate::token;

verus! {

/// The text of an identifier.
pub open spec fn called(ident: Tree) -> Seq<char> {
    token::text_in(ident, "value"@)
}

/// The texts of a list of identifiers, in order.
pub open spec fn all_called(idents: Tree) -> Seq<Seq<char>> {
    name_match::items_of(idents).map_values(|i: Tree| called(i))
}

/// The texts of the parts of an object name, in order.
pub open spec fn name_called(name: Tree) -> Seq<Seq<char>> {
    name_match::items_of(name).map_values(|p: Tree| called(token::field(p, "Identifier"@)))
}

/// The names of fields differ.
proof fn lemma_field_names()
    ensures
        "Check"@.len() == 5,
        "CompoundIdentifier"@.len() == 18,
        "CreateIndex"@.len() == 11,
        "CreateTable"@.len() == 11,
        "Drop"@.len() == 4,
        "Expr"@.len() == 4,
        "ForeignKey"@.len() == 10,
        "Function"@.len() == 8,
        "Identifier"@.len() == 10,
        "Index"@.len() == 5,
        "List"@.len() == 4,
        "Number"@.len() == 6,
        "PrimaryKey"@.len() == 10,
        "Unique"@.len() == 6,
        "Unnamed"@.len() == 7,
        "Value"@.len() == 5,
        "alter_options"@.len() == 13,
        "args"@.len() == 4,
        "async"@.len() == 5,
        "column"@.len() == 6,
        "columns"@.len() == 7,
        "concurrently"@.len() == 12,
        "constraints"@.len() == 11,
        "data_type"@.len() == 9,
        "expr"@.len() == 4,
        "foreign_table"@.len() == 13,
        "if_not_exists"@.len() == 13,
        "include"@.len() == 7,
        "index_name"@.len() == 10,
        "index_options"@.len() == 13,
        "index_type_display"@.len() == 18,
        "name"@.len() == 4,
        "names"@.len() == 5,
        "nulls_distinct"@.len() == 14,
        "options"@.len() == 7,
        "predicate"@.len() == 9,
        "quote_style"@.len() == 11,
        "referred_columns"@.len() == 16,
        "span"@.len() == 4,
        "table_name"@.len() == 10,
        "table_options"@.len() == 13,
        "unique"@.len() == 6,
        "using"@.len() == 5,
        "value"@.len() == 5,
        "with"@.len() == 4,
        "Check"@ != "Index"@,
        "Check"@ != "Value"@,
        "Check"@ != "async"@,
        "Check"@ != "names"@,
        "Check"@ != "using"@,
        "Check"@ != "value"@,
        "CompoundIdentifier"@ != "index_type_display"@,
        "CreateIndex"@ != "CreateTable"@,
        "CreateIndex"@ != "constraints"@,
        "CreateIndex"@ != "quote_style"@,
        "CreateTable"@ != "constraints"@,
        "CreateTable"@ != "quote_style"@,
        "Drop"@ != "Expr"@,
        "Drop"@ != "List"@,
        "Drop"@ != "args"@,
        "Drop"@ != "expr"@,
        "Drop"@ != "name"@,
        "Drop"@ != "span"@,
        "Drop"@ != "with"@,
        "Expr"@ != "List"@,
        "Expr"@ != "args"@,
        "Expr"@ != "expr"@,
        "Expr"@ != "name"@,
        "Expr"@ != "span"@,
        "Expr"@ != "with"@,
        "ForeignKey"@ != "Identifier"@,
        "ForeignKey"@ != "PrimaryKey"@,
        "ForeignKey"@ != "index_name"@,
        "ForeignKey"@ != "table_name"@,
        "Identifier"@ != "PrimaryKey"@,
        "Identifier"@ != "index_name"@,
        "Identifier"@ != "table_name"@,
        "Index"@ != "Value"@,
        "Index"@ != "async"@,
        "Index"@ != "names"@,
        "Index"@ != "using"@,
        "Index"@ != "value"@,
        "List"@ != "args"@,
        "List"@ != "expr"@,
        "List"@ != "name"@,
        "List"@ != "span"@,
        "List"@ != "with"@,
        "Number"@ != "Unique"@,
        "Number"@ != "column"@,
        "Number"@ != "unique"@,
        "PrimaryKey"@ != "index_name"@,
        "PrimaryKey"@ != "table_name"@,
        "Unique"@ != "column"@,
        "Unique"@ != "unique"@,
        "Unnamed"@ != "columns"@,
        "Unnamed"@ != "include"@,
        "Unnamed"@ != "options"@,
        "Value"@ != "async"@,
        "Value"@ != "names"@,
        "Value"@ != "using"@,
        "Value"@ != "value"@,
        "alter_options"@ != "foreign_table"@,
        "alter_options"@ != "if_not_exists"@,
        "alter_options"@ != "index_options"@,
        "alter_options"@ != "table_options"@,
        "args"@ != "expr"@,
        "args"@ != "name"@,
        "args"@ != "span"@,
        "args"@ != "with"@,
        "async"@ != "names"@,
        "async"@ != "using"@,
        "async"@ != "value"@,
        "column"@ != "unique"@,
        "columns"@ != "include"@,
        "columns"@ != "options"@,
        "constraints"@ != "quote_style"@,
        "data_type"@ != "predicate"@,
        "expr"@ != "name"@,
        "expr"@ != "span"@,
        "expr"@ != "with"@,
        "foreign_table"@ != "if_not_exists"@,
        "foreign_table"@ != "index_options"@,
        "foreign_table"@ != "table_options"@,
        "if_not_exists"@ != "index_options"@,
        "if_not_exists"@ != "table_options"@,
        "include"@ != "options"@,
        "index_name"@ != "table_name"@,
        "index_options"@ != "table_options"@,
        "name"@ != "span"@,
        "name"@ != "with"@,
        "names"@ != "using"@,
        "names"@ != "value"@,
        "span"@ != "with"@,
        "using"@ != "value"@,
{
    reveal_strlit("Check");
    reveal_strlit("CompoundIdentifier");
    reveal_strlit("CreateIndex");
    reveal_strlit("CreateTable");
    reveal_strlit("Drop");
    reveal_strlit("Expr");
    reveal_strlit("ForeignKey");
    reveal_strlit("Function");
    reveal_strlit("Identifier");
    reveal_strlit("Index");
    reveal_strlit("List");
    reveal_strlit("Number");
    reveal_strlit("PrimaryKey");
    reveal_strlit("Unique");
    reveal_strlit("Unnamed");
    reveal_strlit("Value");
    reveal_strlit("alter_options");
    reveal_strlit("args");
    reveal_strlit("async");
    reveal_strlit("column");
    reveal_strlit("columns");
    reveal_strlit("concurrently");
    reveal_strlit("constraints");
    reveal_strlit("data_type");
    reveal_strlit("expr");
    reveal_strlit("foreign_table");
    reveal_strlit("if_not_exists");
    reveal_strlit("include");
    reveal_strlit("index_name");
    reveal_strlit("index_options");
    reveal_strlit("index_type_display");
    reveal_strlit("name");
    reveal_strlit("names");
    reveal_strlit("nulls_distinct");
    reveal_strlit("options");
    reveal_strlit("predicate");
    reveal_strlit("quote_style");
    reveal_strlit("referred_columns");
    reveal_strlit("span");
    reveal_strlit("table_name");
    reveal_strlit("table_options");
    reveal_strlit("unique");
    reveal_strlit("using");
    reveal_strlit("value");
    reveal_strlit("with");
    assert("Check"@[0] != "Index"@[0]);
    assert("Check"@[0] != "Value"@[0]);
    assert("Check"@[0] != "async"@[0]);
    assert("Check"@[0] != "names"@[0]);
    assert("Check"@[0] != "using"@[0]);
    assert("Check"@[0] != "value"@[0]);
    assert("CompoundIdentifier"@[0] != "index_type_display"@[0]);
    assert("CreateIndex"@[6] != "CreateTable"@[6]);
    assert("CreateIndex"@[0] != "constraints"@[0]);
    assert("CreateIndex"@[0] != "quote_style"@[0]);
    assert("CreateTable"@[0] != "constraints"@[0]);
    assert("CreateTable"@[0] != "quote_style"@[0]);
    assert("Drop"@[0] != "Expr"@[0]);
    assert("Drop"@[0] != "List"@[0]);
    assert("Drop"@[0] != "args"@[0]);
    assert("Drop"@[0] != "expr"@[0]);
    assert("Drop"@[0] != "name"@[0]);
    assert("Drop"@[0] != "span"@[0]);
    assert("Drop"@[0] != "with"@[0]);
    assert("Expr"@[0] != "List"@[0]);
    assert("Expr"@[0] != "args"@[0]);
    assert("Expr"@[0] != "expr"@[0]);
    assert("Expr"@[0] != "name"@[0]);
    assert("Expr"@[0] != "span"@[0]);
    assert("Expr"@[0] != "with"@[0]);
    assert("ForeignKey"@[0] != "Identifier"@[0]);
    assert("ForeignKey"@[0] != "PrimaryKey"@[0]);
    assert("ForeignKey"@[0] != "index_name"@[0]);
    assert("ForeignKey"@[0] != "table_name"@[0]);
    assert("Identifier"@[0] != "PrimaryKey"@[0]);
    assert("Identifier"@[0] != "index_name"@[0]);
    assert("Identifier"@[0] != "table_name"@[0]);
    assert("Index"@[0] != "Value"@[0]);
    assert("Index"@[0] != "async"@[0]);
    assert("Index"@[0] != "names"@[0]);
    assert("Index"@[0] != "using"@[0]);
    assert("Index"@[0] != "value"@[0]);
    assert("List"@[0] != "args"@[0]);
    assert("List"@[0] != "expr"@[0]);
    assert("List"@[0] != "name"@[0]);
    assert("List"@[0] != "span"@[0]);
    assert("List"@[0] != "with"@[0]);
    assert("Number"@[0] != "Unique"@[0]);
    assert("Number"@[0] != "column"@[0]);
    assert("Number"@[0] != "unique"@[0]);
    assert("PrimaryKey"@[0] != "index_name"@[0]);
    assert("PrimaryKey"@[0] != "table_name"@[0]);
    assert("Unique"@[0] != "column"@[0]);
    assert("Unique"@[0] != "unique"@[0]);
    assert("Unnamed"@[0] != "columns"@[0]);
    assert("Unnamed"@[0] != "include"@[0]);
    assert("Unnamed"@[0] != "options"@[0]);
    assert("Value"@[0] != "async"@[0]);
    assert("Value"@[0] != "names"@[0]);
    assert("Value"@[0] != "using"@[0]);
    assert("Value"@[0] != "value"@[0]);
    assert("alter_options"@[0] != "foreign_table"@[0]);
    assert("alter_options"@[0] != "if_not_exists"@[0]);
    assert("alter_options"@[0] != "index_options"@[0]);
    assert("alter_options"@[0] != "table_options"@[0]);
    assert("args"@[0] != "expr"@[0]);
    assert("args"@[0] != "name"@[0]);
    assert("args"@[0] != "span"@[0]);
    assert("args"@[0] != "with"@[0]);
    assert("async"@[0] != "names"@[0]);
    assert("async"@[0] != "using"@[0]);
    assert("async"@[0] != "value"@[0]);
    assert("column"@[0] != "unique"@[0]);
    assert("columns"@[0] != "include"@[0]);
    assert("columns"@[0] != "options"@[0]);
    assert("constraints"@[0] != "quote_style"@[0]);
    assert("data_type"@[0] != "predicate"@[0]);
    assert("expr"@[0] != "name"@[0]);
    assert("expr"@[0] != "span"@[0]);
    assert("expr"@[0] != "with"@[0]);
    assert("foreign_table"@[0] != "if_not_exists"@[0]);
    assert("foreign_table"@[0] != "index_options"@[0]);
    assert("foreign_table"@[0] != "table_options"@[0]);
    assert("if_not_exists"@[1] != "index_options"@[1]);
    assert("if_not_exists"@[0] != "table_options"@[0]);
    assert("include"@[0] != "options"@[0]);
    assert("index_name"@[0] != "table_name"@[0]);
    assert("index_options"@[0] != "table_options"@[0]);
    assert("name"@[0] != "span"@[0]);
    assert("name"@[0] != "with"@[0]);
    assert("names"@[0] != "using"@[0]);
    assert("names"@[0] != "value"@[0]);
    assert("span"@[0] != "with"@[0]);
    assert("using"@[0] != "value"@[0]);
}

/// The name that PostgreSQL reads where an identifier is printed with these quotes.
pub open spec fn read_by_postgres(name: Seq<char>, quote: Option<char>) -> Seq<char> {
    if quote is None {
        text::lowered(name)
    } else {
        name
    }
}

/// Whether a character stands for itself in a name without quotes.
pub open spec fn is_word_letter(c: char) -> bool {
    c == '_' || 'a' <= c <= 'z' || '0' <= c <= '9'
}

/// An identifier without its backticks is the same but for its quotes, and PostgreSQL reads the
/// name that it had: one without quotes is a lower-case word, and does not begin with a digit.
pub proof fn law_identifiers_keep_their_names(ident: Tree)
    ensures
        forall|k: Seq<char>| k != "quote_style"@ ==> #[trigger] syntax::member(
            quoting::unquoted(ident),
            k,
        ) == syntax::member(ident, k),
        called(quoting::unquoted(ident)) == called(ident),
        quoting::quote_of(ident) == Some('`') ==> {
            let name = called(ident);
            let quote = quoting::quote_of(quoting::unquoted(ident));
            &&& read_by_postgres(name, quote) == name
            &&& quote is None ==> name.len() > 0 && !('0' <= name[0] <= '9') && forall|i: int|
                0 <= i < name.len() ==> is_word_letter(#[trigger] name[i])
            &&& quote is None || quote == Some('"') || quote == Some('`')
        },
        quoting::quote_of(ident) != Some('`') ==> quoting::unquoted(ident) == ident,
{
    lemma_field_names();
    let name = called(ident);
    let made = quoting::unquoted(ident);
    if quoting::quote_of(ident) == Some('`') {
        let q = quoting::new_quote(name, Some('`'));
        assert(syntax::member(made, "quote_style"@) == Some(quoting::quote_tree(q)));
        assert(quoting::quote_of(made) == q);
        if q is None {
            assert(quoting::bare_safe(name));
            assert forall|i: int| 0 <= i < name.len() implies text::lower(#[trigger] name[i])
                == name[i] by {
                assert(quoting::stays_bare(name[i]));
            }
            assert(text::lowered(name) =~= name);
            assert(quoting::starts_bare(name[0]));
        }
    }
}

/// A list of identifiers without their backticks names the same, in the same order.
pub proof fn law_lists_keep_their_names(idents: Tree)
    ensures
        all_called(quoting::unquoted_list(idents)) == all_called(idents),
{
    let xs = name_match::items_of(idents);
    let ys = name_match::items_of(quoting::unquoted_list(idents));
    assert forall|i: int| 0 <= i < xs.len() implies called(#[trigger] ys[i]) == called(xs[i]) by {
        law_identifiers_keep_their_names(xs[i]);
    }
    assert(all_called(quoting::unquoted_list(idents)) =~= all_called(idents));
}

/// An object name without its backticks names the same, part by part.
pub proof fn law_object_names_stay(name: Tree)
    ensures
        name_called(quoting::unquoted_name(name)) == name_called(name),
        quoting::leaf(name_match::items_of(quoting::unquoted_name(name))) == quoting::leaf(
            name_match::items_of(name),
        ),
{
    let xs = name_match::items_of(name);
    let ys = name_match::items_of(quoting::unquoted_name(name));
    assert forall|i: int| 0 <= i < xs.len() implies called(
        token::field(#[trigger] ys[i], "Identifier"@),
    ) == called(token::field(xs[i], "Identifier"@)) by {
        if let Some(ident) = syntax::member(xs[i], "Identifier"@) {
            law_identifiers_keep_their_names(ident);
            assert(syntax::member(ys[i], "Identifier"@) == Some(quoting::unquoted(ident)));
        }
    }
    assert(name_called(quoting::unquoted_name(name)) =~= name_called(name));
    lemma_leaf(xs);
}

proof fn lemma_leaf(xs: Seq<Tree>)
    ensures
        quoting::leaf(xs.map_values(|p: Tree| quoting::unquoted_part(p))) == quoting::leaf(xs),
    decreases xs.len(),
{
    let ys = xs.map_values(|p: Tree| quoting::unquoted_part(p));
    if xs.len() > 0 {
        lemma_leaf(xs.drop_last());
        assert(ys.drop_last() =~= xs.drop_last().map_values(
            |p: Tree| quoting::unquoted_part(p),
        ));
        if let Some(ident) = syntax::member(xs.last(), "Identifier"@) {
            law_identifiers_keep_their_names(ident);
            assert(syntax::member(ys.last(), "Identifier"@) == Some(quoting::unquoted(ident)));
        }
    }
}

/// A foreign key keeps its names: the table that it refers to, the columns that refer and those that
/// are referred to are, one for one and in order, those of the same field of the key of MySQL, and
/// every other field is as it was.
pub proof fn law_foreign_keys_keep_their_names(c: Tree, table: Seq<char>)
    requires
        c is Record,
    ensures
        ({
            let (made, ds) = index::translated_constraint(
                syntax::variant("ForeignKey"@, c),
                table,
            );
            let d = token::field(made, "ForeignKey"@);
            &&& syntax::member(made, "ForeignKey"@) is Some
            &&& ds.len() == 0
            &&& called(token::field(d, "name"@)) == called(token::field(c, "name"@))
            &&& name_called(token::field(d, "foreign_table"@)) == name_called(
                token::field(c, "foreign_table"@),
            )
            &&& all_called(token::field(d, "columns"@)) == all_called(token::field(c, "columns"@))
            &&& all_called(token::field(d, "referred_columns"@)) == all_called(
                token::field(c, "referred_columns"@),
            )
            &&& forall|k: Seq<char>|
                k != "name"@ && k != "foreign_table"@ && k != "columns"@ && k
                    != "referred_columns"@ ==> #[trigger] syntax::member(d, k) == syntax::member(
                    c,
                    k,
                )
        }),
{
    lemma_field_names();
    let t = syntax::variant("ForeignKey"@, c);
    let made = index::translated_constraint(t, table).0;
    assert(syntax::member(t, "Unique"@) is None);
    assert(syntax::member(t, "PrimaryKey"@) is None);
    assert(syntax::member(t, "ForeignKey"@) == Some(c));
    let d = token::field(made, "ForeignKey"@);
    assert(d == index::plain_foreign_key(c));
    law_identifiers_keep_their_names(token::field(c, "name"@));
    law_object_names_stay(token::field(c, "foreign_table"@));
    law_lists_keep_their_names(token::field(c, "columns"@));
    law_lists_keep_their_names(token::field(c, "referred_columns"@));
    assert(token::field(d, "name"@) == quoting::unquoted(token::field(c, "name"@)));
    assert(token::field(d, "foreign_table"@) == quoting::unquoted_name(
        token::field(c, "foreign_table"@),
    ));
}

/// The identifier that an index column stands on: the column's own, or, where only the first
/// characters of the column are indexed, the name that the length stands behind.
pub open spec fn indexed(col: Tree) -> Option<Tree> {
    let expr = token::field(token::field(col, "column"@), "expr"@);
    let call = token::field(expr, "Function"@);
    let parts = name_match::items_of(token::field(call, "name"@));
    if syntax::member(expr, "Identifier"@) is Some {
        syntax::member(expr, "Identifier"@)
    } else if parts.len() == 1 {
        syntax::member(parts[0], "Identifier"@)
    } else {
        None
    }
}

/// Whether an index column is a column, or the first characters of one.
pub open spec fn is_index_column(col: Tree) -> bool {
    let expr = token::field(token::field(col, "column"@), "expr"@);
    &&& col is Record
    &&& token::field(col, "column"@) is Record
    &&& indexed(col) matches Some(ident) && quoting::is_ident(ident)
    &&& expr == syntax::variant("Identifier"@, indexed(col)->Some_0) || is_prefix_call(expr)
}

/// Whether an expression is a name with a length behind it, as `name(20)`.
pub open spec fn is_prefix_call(expr: Tree) -> bool {
    let call = token::field(expr, "Function"@);
    let parts = name_match::items_of(token::field(call, "name"@));
    let args = name_match::items_of(
        token::field(token::field(token::field(call, "args"@), "List"@), "args"@),
    );
    let arg = token::field(token::field(args[0], "Unnamed"@), "Expr"@);
    &&& syntax::member(expr, "Function"@) is Some
    &&& syntax::member(expr, "Identifier"@) is None
    &&& parts.len() == 1
    &&& args.len() == 1
    &&& syntax::member(token::field(token::field(arg, "Value"@), "value"@), "Number"@) is Some
}

/// Whether the names in expressions are requoted as names are.
pub open spec fn requotes_names() -> bool {
    forall|e: Tree| quoting::is_name(e) ==> #[trigger] syntax::requoted(e)
        == quoting::unquoted_node(e)
}

/// A column of a key or an index stays the column that it was, whole where its first characters
/// were indexed, and its direction stays.
pub proof fn law_index_columns_keep_their_names(col: Tree)
    requires
        is_index_column(col),
        requotes_names(),
    ensures
        ({
            let made = index::whole_column(col);
            let expr = token::field(token::field(made, "column"@), "expr"@);
            &&& syntax::member(expr, "Function"@) is None
            &&& syntax::member(expr, "Identifier"@) matches Some(ident) && called(ident) == called(
                indexed(col)->Some_0,
            )
            &&& forall|k: Seq<char>| k != "column"@ ==> #[trigger] syntax::member(made, k)
                == syntax::member(col, k)
            &&& forall|k: Seq<char>| k != "expr"@ ==> #[trigger] syntax::member(
                token::field(made, "column"@),
                k,
            ) == syntax::member(token::field(col, "column"@), k)
        }),
{
    lemma_field_names();
    let old = token::field(col, "column"@);
    let expr = token::field(old, "expr"@);
    let ident = indexed(col)->Some_0;
    let name = syntax::variant("Identifier"@, ident);
    if is_prefix_call(expr) {
        let call = token::field(expr, "Function"@);
        let parts = name_match::items_of(token::field(call, "name"@));
        let args = name_match::items_of(
            token::field(token::field(token::field(call, "args"@), "List"@), "args"@),
        );
        let arg = token::field(token::field(args[0], "Unnamed"@), "Expr"@);
        assert(column::literal_in(arg) == Some(
            token::field(token::field(arg, "Value"@), "value"@),
        ));
        assert(index::prefixed(expr) == Some(ident));
    } else {
        assert(syntax::member(expr, "Function"@) is None);
        assert(token::field(expr, "Function"@) == Tree::Null);
        assert(index::prefixed(expr) is None);
    }
    assert(index::whole(expr) == name);
    assert(quoting::is_name(name));
    assert(syntax::requoted(name) == quoting::unquoted_node(name));
    assert(syntax::member(name, "Identifier"@) == Some(ident));
    law_identifiers_keep_their_names(ident);
    let made = index::whole_column(col);
    assert(token::field(token::field(made, "column"@), "expr"@) == quoting::unquoted_node(name));
}

/// A primary key keeps its columns, one for one and in order, and every other field but its names.
pub proof fn law_primary_keys_keep_their_columns(c: Tree, table: Seq<char>, i: int)
    requires
        c is Record,
        requotes_names(),
        0 <= i < name_match::items_of(token::field(c, "columns"@)).len(),
        is_index_column(name_match::items_of(token::field(c, "columns"@))[i]),
    ensures
        ({
            let made = index::translated_constraint(syntax::variant("PrimaryKey"@, c), table).0;
            let d = token::field(made, "PrimaryKey"@);
            let xs = name_match::items_of(token::field(c, "columns"@));
            let ys = name_match::items_of(token::field(d, "columns"@));
            &&& ys.len() == xs.len()
            &&& indexed(ys[i]) matches Some(ident) && called(ident) == called(
                indexed(xs[i])->Some_0,
            )
            &&& called(token::field(d, "name"@)) == called(token::field(c, "name"@))
            &&& forall|k: Seq<char>|
                k != "name"@ && k != "index_name"@ && k != "columns"@ ==> #[trigger] syntax::member(
                    d,
                    k,
                ) == syntax::member(c, k)
        }),
{
    lemma_field_names();
    let t = syntax::variant("PrimaryKey"@, c);
    assert(syntax::member(t, "Unique"@) is None);
    assert(syntax::member(t, "PrimaryKey"@) == Some(c));
    let d = index::whole_key(c).0;
    assert(token::field(index::translated_constraint(t, table).0, "PrimaryKey"@) == d);
    let xs = name_match::items_of(token::field(c, "columns"@));
    let ys = name_match::items_of(token::field(d, "columns"@));
    assert(ys[i] == index::whole_column(xs[i]));
    law_index_columns_keep_their_names(xs[i]);
    law_identifiers_keep_their_names(token::field(c, "name"@));
    assert(token::field(d, "name"@) == quoting::unquoted(token::field(c, "name"@)));
}

/// A unique key keeps its columns, one for one and in order. Its name is that of its table and its
/// own, which MySQL writes before or behind the word: and that is reported; without a name it stays
/// without one.
pub proof fn law_unique_keys_keep_their_columns(c: Tree, table: Seq<char>, i: int)
    requires
        c is Record,
        requotes_names(),
        0 <= i < name_match::items_of(token::field(c, "columns"@)).len(),
        is_index_column(name_match::items_of(token::field(c, "columns"@))[i]),
    ensures
        ({
            let (made, ds) = index::translated_constraint(syntax::variant("Unique"@, c), table);
            let d = token::field(made, "Unique"@);
            let xs = name_match::items_of(token::field(c, "columns"@));
            let ys = name_match::items_of(token::field(d, "columns"@));
            let own = if token::field(c, "name"@) is Null {
                token::field(c, "index_name"@)
            } else {
                token::field(c, "name"@)
            };
            &&& ys.len() == xs.len()
            &&& indexed(ys[i]) matches Some(ident) && called(ident) == called(
                indexed(xs[i])->Some_0,
            )
            &&& own is Null ==> token::field(d, "name"@) is Null
            &&& !(own is Null) ==> called(token::field(d, "name"@)) == table + "_"@ + called(own)
                && ds.len() > 0 && ds[0].rule == LintRule::MysqlIndexRenamed
            &&& token::field(d, "index_name"@) is Null
            &&& token::field(d, "index_type_display"@) == Tree::Text("None"@)
            &&& forall|k: Seq<char>|
                k != "name"@ && k != "index_name"@ && k != "columns"@ && k
                    != "index_type_display"@ ==> #[trigger] syntax::member(d, k)
                    == syntax::member(c, k)
        }),
{
    lemma_field_names();
    let t = syntax::variant("Unique"@, c);
    assert(syntax::member(t, "Unique"@) == Some(c));
    let named = index::renamed_unique(c, table);
    let d = index::whole_key(named.0).0;
    assert(token::field(index::translated_constraint(t, table).0, "Unique"@) == d);
    let xs = name_match::items_of(token::field(c, "columns"@));
    let ys = name_match::items_of(token::field(d, "columns"@));
    assert(token::field(named.0, "columns"@) == token::field(c, "columns"@));
    assert(ys[i] == index::whole_column(xs[i]));
    law_index_columns_keep_their_names(xs[i]);
    law_identifiers_keep_their_names(token::field(named.0, "name"@));
    assert(token::field(d, "name"@) == quoting::unquoted(token::field(named.0, "name"@)));
    let own = if token::field(c, "name"@) is Null {
        token::field(c, "index_name"@)
    } else {
        token::field(c, "name"@)
    };
    if own is Null {
        assert(token::field(named.0, "name"@) == Tree::Null);
    } else {
        let ident = quoting::qualified_ident(table, called(own));
        assert(token::field(named.0, "name"@) == ident);
        assert(called(ident) == table + "_"@ + called(own));
    }
    assert(token::field(named.0, "index_name"@) == Tree::Null);
}

/// A check keeps its name and is on the same expression but for quotes; any other constraint that is
/// no index stays as it is.
pub proof fn law_checks_stay(c: Tree, t: Tree, table: Seq<char>)
    requires
        c is Record,
    ensures
        ({
            let made = index::translated_constraint(syntax::variant("Check"@, c), table).0;
            let d = token::field(made, "Check"@);
            &&& called(token::field(d, "name"@)) == called(token::field(c, "name"@))
            &&& token::field(d, "expr"@) == syntax::requoted(token::field(c, "expr"@))
            &&& forall|k: Seq<char>|
                k != "name"@ && k != "expr"@ ==> #[trigger] syntax::member(d, k) == syntax::member(
                    c,
                    k,
                )
        }),
        syntax::member(t, "Unique"@) is None && syntax::member(t, "PrimaryKey"@) is None
            && syntax::member(t, "ForeignKey"@) is None && syntax::member(t, "Check"@) is None
            ==> index::translated_constraint(t, table).0 == t,
{
    lemma_field_names();
    let w = syntax::variant("Check"@, c);
    assert(syntax::member(w, "Unique"@) is None);
    assert(syntax::member(w, "PrimaryKey"@) is None);
    assert(syntax::member(w, "ForeignKey"@) is None);
    assert(syntax::member(w, "Check"@) == Some(c));
    law_identifiers_keep_their_names(token::field(c, "name"@));
    let d = index::plain_check(c);
    assert(token::field(index::translated_constraint(w, table).0, "Check"@) == d);
    assert(token::field(d, "name"@) == quoting::unquoted(token::field(c, "name"@)));
}

/// An index becomes a statement that makes it: on its table, on its columns one for one and in
/// order, neither unique nor partial, and named after its table and itself.
pub proof fn law_indexes_become_statements(table: Tree, idx: Tree, i: int)
    requires
        requotes_names(),
        0 <= i < name_match::items_of(token::field(idx, "columns"@)).len(),
        is_index_column(name_match::items_of(token::field(idx, "columns"@))[i]),
    ensures
        ({
            let (made, ds) = index::lifted(table, idx);
            let d = token::field(made, "CreateIndex"@);
            let xs = name_match::items_of(token::field(idx, "columns"@));
            let ys = name_match::items_of(token::field(d, "columns"@));
            let own = token::field(idx, "name"@);
            let leaf = quoting::leaf(name_match::items_of(table));
            &&& syntax::member(made, "CreateIndex"@) is Some
            &&& token::field(d, "table_name"@) == table
            &&& token::field(d, "unique"@) == Tree::Flag(false)
            &&& token::field(d, "predicate"@) == Tree::Null
            &&& ys.len() == xs.len()
            &&& indexed(ys[i]) matches Some(ident) && called(ident) == called(
                indexed(xs[i])->Some_0,
            )
            &&& own is Null ==> token::field(d, "name"@) == Tree::Null && ds.len() == 0
            &&& !(own is Null) ==> name_called(token::field(d, "name"@)) == seq![
                leaf + "_"@ + called(own),
            ] && ds.len() == 1 && ds[0].rule == LintRule::MysqlIndexRenamed
        }),
{
    lemma_field_names();
    let xs = name_match::items_of(token::field(idx, "columns"@));
    law_index_columns_keep_their_names(xs[i]);
    let own = token::field(idx, "name"@);
    let leaf = quoting::leaf(name_match::items_of(table));
    let made = index::lifted(table, idx).0;
    let d = token::field(made, "CreateIndex"@);
    let ys = name_match::items_of(token::field(d, "columns"@));
    assert(token::field(d, "columns"@) == index::whole_columns(token::field(idx, "columns"@)));
    assert(ys[i] == index::whole_column(xs[i]));
    if !(own is Null) {
        let ident = quoting::qualified_ident(leaf, called(own));
        let part = syntax::variant("Identifier"@, ident);
        assert(token::field(d, "name"@) == Tree::List(seq![part]));
        assert(called(ident) == leaf + "_"@ + called(own));
        assert(token::field(part, "Identifier"@) == ident);
        assert(name_called(token::field(d, "name"@)) =~= seq![leaf + "_"@ + called(own)]);
    }
}

/// What becomes of a table: it keeps its name, its columns one for one and in order under their
/// names, and all that is no name, column, constraint or table option; every constraint that is no
/// index stays in it, in order, and every index becomes a statement behind it.
pub proof fn law_tables_keep_what_they_hold(ct: Tree)
    requires
        ct is Record,
    ensures
        ({
            let tr = mysql::translated(syntax::variant("CreateTable"@, ct));
            let d = token::field(tr.stmt, "CreateTable"@);
            let xs = name_match::items_of(token::field(ct, "columns"@));
            let ys = name_match::items_of(token::field(d, "columns"@));
            let cs = name_match::items_of(token::field(ct, "constraints"@));
            let ds = name_match::items_of(token::field(d, "constraints"@));
            &&& syntax::member(tr.stmt, "CreateTable"@) is Some
            &&& name_called(token::field(d, "name"@)) == name_called(token::field(ct, "name"@))
            &&& ys.len() == xs.len()
            &&& forall|i: int|
                0 <= i < xs.len() && (#[trigger] xs[i]) is Record ==> called(
                    token::field(ys[i], "name"@),
                ) == called(token::field(xs[i], "name"@))
            &&& ds.len() == not_indexes(cs).len()
            &&& tr.extra.len() == cs.len() - not_indexes(cs).len()
            &&& forall|i: int|
                0 <= i < ds.len() ==> (#[trigger] ds[i]) == index::translated_constraint(
                    not_indexes(cs)[i],
                    quoting::leaf(name_match::items_of(token::field(ct, "name"@))),
                ).0
            &&& forall|k: Seq<char>|
                k != "name"@ && k != "columns"@ && k != "constraints"@ && k != "table_options"@
                    ==> #[trigger] syntax::member(d, k) == syntax::member(ct, k)
        }),
{
    lemma_field_names();
    let t = syntax::variant("CreateTable"@, ct);
    let tr = mysql::translated(t);
    assert(syntax::member(t, "Drop"@) is None);
    assert(syntax::member(t, "CreateTable"@) == Some(ct));
    let d = token::field(tr.stmt, "CreateTable"@);
    assert(d == mysql::translated_table(ct).stmt);
    let name = quoting::unquoted_name(token::field(ct, "name"@));
    law_object_names_stay(token::field(ct, "name"@));
    assert(token::field(d, "name"@) == name);
    let seed = column::seed_of(token::field(ct, "table_options"@));
    let xs = name_match::items_of(token::field(ct, "columns"@));
    let ys = name_match::items_of(token::field(d, "columns"@));
    mysql::law_no_column_is_lost(xs, seed);
    assert(ys == mysql::translated_columns(xs, seed).0);
    assert forall|i: int| 0 <= i < xs.len() && (#[trigger] xs[i]) is Record implies called(
        token::field(ys[i], "name"@),
    ) == called(token::field(xs[i], "name"@)) by {
        assert(ys[i] == column::translated_column(xs[i], seed).0);
        law_identifiers_keep_their_names(token::field(xs[i], "name"@));
        assert(token::field(ys[i], "name"@) == quoting::unquoted(token::field(xs[i], "name"@)));
    }
    let cs = name_match::items_of(token::field(ct, "constraints"@));
    lemma_kept_constraints(cs, name);
    assert(name_match::items_of(token::field(d, "constraints"@)) == mysql::translated_constraints(
        cs,
        name,
    ).kept);
}

/// The constraints that are no index, in order.
pub open spec fn not_indexes(cs: Seq<Tree>) -> Seq<Tree> {
    cs.filter(|c: Tree| syntax::member(c, "Index"@) is None)
}

proof fn lemma_kept_constraints(cs: Seq<Tree>, table: Tree)
    ensures
        ({
            let after = mysql::translated_constraints(cs, table);
            let leaf = quoting::leaf(name_match::items_of(table));
            &&& after.kept.len() == not_indexes(cs).len()
            &&& after.lifted.len() == cs.len() - not_indexes(cs).len()
            &&& forall|i: int|
                0 <= i < after.kept.len() ==> (#[trigger] after.kept[i])
                    == index::translated_constraint(not_indexes(cs)[i], leaf).0
        }),
    decreases cs.len(),
{
    reveal(Seq::filter);
    if cs.len() > 0 {
        let front = cs.drop_last();
        lemma_kept_constraints(front, table);
        let before = mysql::translated_constraints(front, table);
        let after = mysql::translated_constraints(cs, table);
        let leaf = quoting::leaf(name_match::items_of(table));
        assert forall|i: int| 0 <= i < after.kept.len() implies (#[trigger] after.kept[i])
            == index::translated_constraint(not_indexes(cs)[i], leaf).0 by {
            if i < before.kept.len() {
                assert(after.kept[i] == before.kept[i]);
                assert(not_indexes(cs)[i] == not_indexes(front)[i]);
            }
        }
    }
}

/// What drops objects drops those that it named, in order, and nothing else of it changes; a
/// statement that neither drops nor creates a table stays as it is.
pub proof fn law_other_statements_stay(drop: Tree, t: Tree, i: int)
    requires
        drop is Record,
        0 <= i < name_match::items_of(token::field(drop, "names"@)).len(),
    ensures
        ({
            let made = mysql::translated(syntax::variant("Drop"@, drop));
            let d = token::field(made.stmt, "Drop"@);
            let xs = name_match::items_of(token::field(drop, "names"@));
            let ys = name_match::items_of(token::field(d, "names"@));
            &&& ys.len() == xs.len()
            &&& name_called(ys[i]) == name_called(xs[i])
            &&& made.extra.len() == 0
            &&& forall|k: Seq<char>| k != "names"@ ==> #[trigger] syntax::member(d, k)
                == syntax::member(drop, k)
        }),
        syntax::member(t, "Drop"@) is None && syntax::member(t, "CreateTable"@) is None
            ==> mysql::translated(t).stmt == t && mysql::translated(t).extra.len() == 0,
{
    lemma_field_names();
    let w = syntax::variant("Drop"@, drop);
    assert(syntax::member(w, "Drop"@) == Some(drop));
    let d = token::field(mysql::translated(w).stmt, "Drop"@);
    let xs = name_match::items_of(token::field(drop, "names"@));
    let ys = name_match::items_of(token::field(d, "names"@));
    assert(ys[i] == quoting::unquoted_name(xs[i]));
    law_object_names_stay(xs[i]);
}

/// Whether a lower-case word is one that PostgreSQL reserves.
pub open spec fn is_reserved_word(w: Seq<char>) -> bool {
    ||| w == "with"@
    ||| w == "window"@
    ||| w == "where"@
    ||| w == "when"@
    ||| w == "verbose"@
    ||| w == "variadic"@
    ||| w == "using"@
    ||| w == "user"@
    ||| w == "unique"@
    ||| w == "union"@
    ||| w == "true"@
    ||| w == "trailing"@
    ||| w == "to"@
    ||| w == "then"@
    ||| w == "tablesample"@
    ||| w == "table"@
    ||| w == "system_user"@
    ||| w == "symmetric"@
    ||| w == "some"@
    ||| w == "similar"@
    ||| w == "session_user"@
    ||| w == "select"@
    ||| w == "right"@
    ||| w == "returning"@
    ||| w == "references"@
    ||| w == "primary"@
    ||| w == "placing"@
    ||| w == "overlaps"@
    ||| w == "outer"@
    ||| w == "order"@
    ||| w == "or"@
    ||| w == "only"@
    ||| w == "on"@
    ||| w == "offset"@
    ||| w == "null"@
    ||| w == "notnull"@
    ||| w == "not"@
    ||| w == "natural"@
    ||| w == "localtimestamp"@
    ||| w == "localtime"@
    ||| w == "limit"@
    ||| w == "like"@
    ||| w == "left"@
    ||| w == "leading"@
    ||| w == "lateral"@
    ||| w == "join"@
    ||| w == "isnull"@
    ||| w == "is"@
    ||| w == "into"@
    ||| w == "intersect"@
    ||| w == "inner"@
    ||| w == "initially"@
    ||| w == "in"@
    ||| w == "ilike"@
    ||| w == "having"@
    ||| w == "group"@
    ||| w == "grant"@
    ||| w == "full"@
    ||| w == "from"@
    ||| w == "freeze"@
    ||| w == "foreign"@
    ||| w == "for"@
    ||| w == "fetch"@
    ||| w == "false"@
    ||| w == "except"@
    ||| w == "end"@
    ||| w == "else"@
    ||| w == "do"@
    ||| w == "distinct"@
    ||| w == "desc"@
    ||| w == "deferrable"@
    ||| w == "default"@
    ||| w == "current_user"@
    ||| w == "current_timestamp"@
    ||| w == "current_time"@
    ||| w == "current_schema"@
    ||| w == "current_role"@
    ||| w == "current_date"@
    ||| w == "current_catalog"@
    ||| w == "cross"@
    ||| w == "create"@
    ||| w == "constraint"@
    ||| w == "concurrently"@
    ||| w == "column"@
    ||| w == "collation"@
    ||| w == "collate"@
    ||| w == "check"@
    ||| w == "cast"@
    ||| w == "case"@
    ||| w == "both"@
    ||| w == "binary"@
    ||| w == "authorization"@
    ||| w == "asymmetric"@
    ||| w == "asc"@
    ||| w == "as"@
    ||| w == "array"@
    ||| w == "any"@
    ||| w == "and"@
    ||| w == "analyze"@
    ||| w == "analyse"@
    ||| w == "all"@
}

/// A name without quotes is no word that PostgreSQL reserves, however it is spelled; and a lower-case
/// word that is not reserved needs no quotes.
pub proof fn law_reserved_words_are_quoted(word: Seq<char>)
    ensures
        quoting::reserved(word) == is_reserved_word(text::lowered(word)),
        is_reserved_word(text::lowered(word)) ==> quoting::new_quote(word, Some('`')) is Some,
        !is_reserved_word(text::lowered(word)) && word.len() > 0 && !('0' <= word[0] <= '9') && (
        forall|i: int| 0 <= i < word.len() ==> is_word_letter(#[trigger] word[i]))
            ==> quoting::new_quote(word, Some('`')) is None,
{
    if forall|i: int| 0 <= i < word.len() ==> is_word_letter(#[trigger] word[i]) {
        assert forall|i: int| 0 <= i < word.len() implies quoting::stays_bare(
            #[trigger] word[i],
        ) by {
            assert(is_word_letter(word[i]));
        }
    }
}

proof fn lemma_prefix_told(cols: Seq<Tree>, i: int)
    requires
        0 <= i < cols.len(),
        index::prefixed(index::index_expr(cols[i])) is Some,
    ensures
        index::prefix_reports(cols).contains(index::prefix_report()),
    decreases cols.len(),
{
    let front = cols.drop_last();
    let before = index::prefix_reports(front);
    let all = index::prefix_reports(cols);
    let d = index::prefix_report();
    if i < front.len() {
        assert(front[i] == cols[i]);
        lemma_prefix_told(front, i);
        let n = choose|n: int| 0 <= n < before.len() && before[n] == d;
        assert(all[n] == d);
    } else {
        assert(all[before.len() as int] == d);
    }
}

/// A key on the first characters of a column becomes one on the whole column, and that is reported
/// with a warning.
pub proof fn law_lost_prefixes_are_reported(c: Tree, table: Seq<char>, i: int, kind: Seq<char>)
    requires
        c is Record,
        kind == "PrimaryKey"@ || kind == "Unique"@,
        0 <= i < name_match::items_of(token::field(c, "columns"@)).len(),
        is_index_column(name_match::items_of(token::field(c, "columns"@))[i]),
        is_prefix_call(
            token::field(
                token::field(name_match::items_of(token::field(c, "columns"@))[i], "column"@),
                "expr"@,
            ),
        ),
    ensures
        exists|n: int|
            0 <= n < index::translated_constraint(syntax::variant(kind, c), table).1.len() && (
            #[trigger] index::translated_constraint(syntax::variant(kind, c), table).1[n]).rule
                == LintRule::MysqlIndexPrefixDropped && index::translated_constraint(
                syntax::variant(kind, c),
                table,
            ).1[n].fix_result is FixedWithWarning,
{
    lemma_field_names();
    let t = syntax::variant(kind, c);
    assert(syntax::member(t, kind) == Some(c));
    let cols = name_match::items_of(token::field(c, "columns"@));
    let ds = index::translated_constraint(t, table).1;
    let d = index::prefix_report();
    assert(index::prefixed(index::index_expr(cols[i])) is Some);
    lemma_prefix_told(cols, i);
    let own = index::prefix_reports(cols);
    let n = choose|n: int| 0 <= n < own.len() && own[n] == d;
    if kind == "Unique"@ {
        let named = index::renamed_unique(c, table);
        assert(token::field(named.0, "columns"@) == token::field(c, "columns"@));
        assert(ds[named.1.len() + n] == d);
    } else {
        assert(syntax::member(t, "Unique"@) is None);
        assert(ds[n] == d);
    }
}

/// A name in backticks that is not a lower-case word gets quotes: double ones, unless they would be
/// taken for escaped.
pub proof fn law_other_names_are_quoted(name: Seq<char>, i: int)
    requires
        name.len() == 0 || (0 <= i < name.len() && !is_word_letter(name[i])) || '0' <= name[0]
            <= '9',
    ensures
        quoting::new_quote(name, Some('`')) is Some,
        !text::occurs(name, seq!['\\', '"']) ==> quoting::new_quote(name, Some('`')) == Some('"'),
        text::occurs(name, seq!['\\', '"']) ==> quoting::new_quote(name, Some('`')) == Some('`'),
{
    reveal_strlit("\\\"");
    assert("\\\""@ =~= seq!['\\', '"']);
    if name.len() > 0 && 0 <= i < name.len() && !is_word_letter(name[i]) {
        assert(!quoting::stays_bare(name[i]));
    }
}

} // verus!
