//! SQL as trees: what the `sqlparser` crate makes of a text, held as JSON values.
//!
//! A parsed statement or token is a [`serde_json::Value`]: the serde form of the crate's own
//! syntax tree. `tree` names what such a value holds, and the functions below read and build
//! values; every rule of this library is stated over trees.
//!
//! In serde's form a struct is a record of its fields, a unit variant is its name as a text,
//! and a variant with contents is a record with the one field of that name.

use serde_json::Value;
use sqlparser::ast::{visit_expressions_mut, Expr, Statement};
use sqlparser::dialect::{MySqlDialect, PostgreSqlDialect};
use sqlparser::parser::Parser;
use sqlparser::tokenizer::Tokenizer;
use std::ops::ControlFlow;
use vstd::prelude::*;

use crate::mysql::quoting::{self, unquote_node};
use crate::text;

verus! {

#[verifier::external_type_specification]
#[verifier::external_body]
pub struct ExValue(serde_json::Value);

/// What a JSON value holds. A number is its decimal text, and its value where that is a `u64`.
#[verifier::ext_equal]
pub enum Tree {
    Null,
    Flag(bool),
    Number(Seq<char>, Option<u64>),
    Text(Seq<char>),
    List(Seq<Tree>),
    Record(Map<Seq<char>, Tree>),
}

/// The contents of a JSON value.
pub uninterp spec fn tree(v: Value) -> Tree;

/// The contents of each value of a list.
pub open spec fn trees(vs: Seq<Value>) -> Seq<Tree> {
    vs.map_values(|v: Value| tree(v))
}

/// The field `key` of a record; `None` where there is none.
pub open spec fn member(t: Tree, key: Seq<char>) -> Option<Tree> {
    match t {
        Tree::Record(fields) => if fields.dom().contains(key) {
            Some(fields[key])
        } else {
            None
        },
        _ => None,
    }
}

/// The record with `key` set to `value`.
pub open spec fn with_member(t: Tree, key: Seq<char>, value: Tree) -> Tree {
    match t {
        Tree::Record(fields) => Tree::Record(fields.insert(key, value)),
        _ => t,
    }
}

/// The record that holds `key` alone: the serde form of a variant with contents.
pub open spec fn variant(key: Seq<char>, value: Tree) -> Tree {
    Tree::Record(map![key => value])
}

/// `Value::get` with a field name.
#[verifier::external_body]
pub(crate) fn get<'a>(v: &'a Value, key: &str) -> (r: Option<&'a Value>)
    ensures
        match r {
            Some(w) => member(tree(*v), key@) == Some(tree(*w)),
            None => member(tree(*v), key@) is None,
        },
{
    v.get(key)
}

/// `Value::as_str`.
#[verifier::external_body]
pub(crate) fn as_text<'a>(v: &'a Value) -> (r: Option<&'a str>)
    ensures
        match r {
            Some(s) => tree(*v) == Tree::Text(s@),
            None => !(tree(*v) is Text),
        },
{
    v.as_str()
}

/// `Value::as_array`.
#[verifier::external_body]
pub(crate) fn as_list<'a>(v: &'a Value) -> (r: Option<&'a Vec<Value>>)
    ensures
        match r {
            Some(vs) => tree(*v) == Tree::List(trees(vs@)),
            None => !(tree(*v) is List),
        },
{
    v.as_array()
}

/// `Value::as_u64`.
#[verifier::external_body]
pub(crate) fn as_number(v: &Value) -> (r: Option<u64>)
    ensures
        r == match tree(*v) {
            Tree::Number(_, n) => n,
            _ => None,
        },
{
    v.as_u64()
}

/// `Value::as_bool`.
#[verifier::external_body]
pub(crate) fn as_flag(v: &Value) -> (r: Option<bool>)
    ensures
        r == match tree(*v) {
            Tree::Flag(b) => Some(b),
            _ => None,
        },
{
    v.as_bool()
}

/// `Value::is_null`.
#[verifier::external_body]
pub(crate) fn is_null(v: &Value) -> (r: bool)
    ensures
        r == (tree(*v) is Null),
{
    v.is_null()
}

/// `Value::clone`: a value with the same contents.
#[verifier::external_body]
pub(crate) fn copy(v: &Value) -> (r: Value)
    ensures
        tree(r) == tree(*v),
{
    v.clone()
}

/// `Value::Null`.
#[verifier::external_body]
pub(crate) fn null() -> (r: Value)
    ensures
        tree(r) == Tree::Null,
{
    Value::Null
}

/// `Value::from(bool)`.
#[verifier::external_body]
pub(crate) fn flag(b: bool) -> (r: Value)
    ensures
        tree(r) == Tree::Flag(b),
{
    Value::from(b)
}

/// `Value::from(u64)`: a number, whose text is the decimal one.
#[verifier::external_body]
pub(crate) fn number(n: u64) -> (r: Value)
    ensures
        tree(r) == Tree::Number(text::decimal(n as nat), Some(n)),
{
    Value::from(n)
}

/// `Value::from(&str)`.
#[verifier::external_body]
pub(crate) fn string(s: &str) -> (r: Value)
    ensures
        tree(r) == Tree::Text(s@),
{
    Value::from(s)
}

/// `Value::from(Vec<Value>)`.
#[verifier::external_body]
pub(crate) fn list(vs: Vec<Value>) -> (r: Value)
    ensures
        tree(r) == Tree::List(trees(vs@)),
{
    Value::from(vs)
}

/// `serde_json::Map::new`: the record with no fields.
#[verifier::external_body]
pub(crate) fn record() -> (r: Value)
    ensures
        tree(r) == Tree::Record(Map::empty()),
{
    Value::from(serde_json::Map::new())
}

/// `serde_json::Map::insert` on the fields of a record; a value that is no record stays.
#[verifier::external_body]
pub(crate) fn put(v: &mut Value, key: &str, value: Value)
    ensures
        tree(*final(v)) == with_member(tree(*old(v)), key@, tree(value)),
{
    if let Some(fields) = v.as_object_mut() {
        fields.insert(key.to_string(), value);
    }
}

/// The dialects that a text can be read in.
#[derive(Clone, Copy, PartialEq, Eq, Structural)]
pub enum Dialect {
    Postgres,
    MySql,
}

/// What `Parser::parse_sql` makes of a text: the trees of its statements, or its message.
pub uninterp spec fn statements(dialect: Dialect, sql: Seq<char>) -> Result<Seq<Tree>, Seq<char>>;

/// Whether a parse result is the one that `s` describes.
pub open spec fn parsed_as(
    r: Result<Vec<Value>, String>,
    s: Result<Seq<Tree>, Seq<char>>,
) -> bool {
    match (r, s) {
        (Ok(vs), Ok(ts)) => trees(vs@) == ts,
        (Err(e), Err(m)) => e@ == m,
        _ => false,
    }
}

/// `Parser::parse_sql` in either dialect, each statement in its serde form and the error as its
/// `Display` text. `statements` names the result, which the dialect and the text determine.
#[verifier::external_body]
pub(crate) fn parse(dialect: Dialect, sql: &str) -> (r: Result<Vec<Value>, String>)
    ensures
        parsed_as(r, statements(dialect, sql@)),
{
    match dialect {
        Dialect::Postgres => Parser::parse_sql(&PostgreSqlDialect {}, sql),
        Dialect::MySql => Parser::parse_sql(&MySqlDialect {}, sql),
    }
    .map(|parsed| parsed.iter().map(|s| serde_json::to_value(s).unwrap_or_default()).collect())
    .map_err(|e| e.to_string())
}

/// Whether a quote style is none, or one of the four that an identifier is written in.
pub open spec fn is_quote(t: Tree) -> bool {
    match t {
        Tree::Null => true,
        Tree::Text(s) => s == seq!['"'] || s == seq!['\''] || s == seq!['`'] || s == seq!['['],
        _ => false,
    }
}

/// Whether the fields of a record are no name in other quotes: not an identifier's, and not those
/// of a word of the tokenizer, which has no single quotes and is itself a record.
pub open spec fn is_quoted_well(fields: Map<Seq<char>, Tree>) -> bool {
    &&& fields.dom().contains("quote_style"@) ==> is_quote(fields["quote_style"@])
    &&& fields.dom().contains("quote_style"@) && fields.dom().contains("keyword"@)
        ==> fields["quote_style"@] != Tree::Text(seq!['\''])
    &&& fields.dom().contains("Word"@) ==> !(fields["Word"@] is List)
}

/// Whether a list could be read as an identifier in quotes that there are not: its value, its
/// quote style and its span.
pub open spec fn spells_bad_name(items: Seq<Tree>) -> bool {
    &&& items.len() == 3
    &&& items[0] is Text
    &&& items[1] matches Tree::Text(s) && s.len() == 1 && !is_quote(items[1])
    &&& items[2] is Record || items[2] is List
}

/// Whether every name in a tree is in quotes that there are.
pub open spec fn printable(t: Tree) -> bool
    decreases t,
{
    match t {
        Tree::List(items) => !spells_bad_name(items) && forall|i: int|
            0 <= i < items.len() ==> printable(#[trigger] items[i]),
        Tree::Record(fields) => is_quoted_well(fields) && forall|k: Seq<char>| #[trigger]
            fields.dom().contains(k) ==> printable(fields[k]),
        _ => true,
    }
}

/// `serde_json::Map::iter` on the fields of a record: each name with its value, once. A value that
/// is no record has none.
#[verifier::external_body]
fn members<'a>(v: &'a Value) -> (r: Vec<(&'a String, &'a Value)>)
    ensures
        forall|i: int|
            0 <= i < r@.len() ==> member(tree(*v), (#[trigger] r@[i]).0@) == Some(tree(*r@[i].1)),
        forall|k: Seq<char>| #[trigger]
            member(tree(*v), k) is Some ==> exists|i: int|
                0 <= i < r@.len() && (#[trigger] r@[i]).0@ == k,
{
    v.as_object().map(|fields| fields.iter().collect()).unwrap_or_default()
}

fn reads_quote(v: &Value) -> (r: bool)
    ensures
        r == is_quote(tree(*v)),
{
    match as_text(v) {
        Some(s) => {
            let chars = text::chars_of(s);
            proof {
                if chars@.len() == 1 {
                    assert(s@ =~= seq![chars@[0]]);
                }
            }
            chars.len() == 1 && (chars[0] == '"' || chars[0] == '\'' || chars[0] == '`'
                || chars[0] == '[')
        },
        None => is_null(v),
    }
}

fn reads_bad_name(items: &Vec<Value>) -> (r: bool)
    ensures
        r == spells_bad_name(trees(items@)),
{
    if items.len() != 3 {
        return false;
    }
    let ghost ts = trees(items@);
    proof {
        assert(ts[0] == tree(items@[0]) && ts[1] == tree(items@[1]) && ts[2] == tree(items@[2]));
    }
    let one = match as_text(&items[1]) {
        Some(s) => text::chars_of(s).len() == 1,
        None => false,
    };
    as_text(&items[0]).is_some() && one && !reads_quote(&items[1]) && (is_record(&items[2])
        || as_list(&items[2]).is_some())
}

/// `Value::is_object`.
#[verifier::external_body]
fn is_record(v: &Value) -> (r: bool)
    ensures
        r == (tree(*v) is Record),
{
    v.is_object()
}

fn reads_quoted_well(v: &Value) -> (r: bool)
    ensures
        tree(*v) matches Tree::Record(fields) ==> r == is_quoted_well(fields),
{
    let single = match get(v, "quote_style") {
        Some(q) => {
            if !reads_quote(q) {
                return false;
            }
            match as_text(q) {
                Some(s) => {
                    let chars = text::chars_of(s);
                    proof {
                        if chars@.len() == 1 {
                            assert(s@ =~= seq![chars@[0]]);
                        }
                    }
                    chars.len() == 1 && chars[0] == '\''
                },
                None => false,
            }
        },
        None => false,
    };
    let listed = match get(v, "Word") {
        Some(w) => as_list(w).is_some(),
        None => false,
    };
    !(single && get(v, "keyword").is_some()) && !listed
}

/// Whether every name in a value is in quotes that there are.
#[verifier::loop_isolation(false)]
pub fn is_printable(v: &Value) -> (r: bool)
    ensures
        r == printable(tree(*v)),
    decreases tree(*v),
{
    if let Some(items) = as_list(v) {
        let ghost ts = trees(items@);
        if reads_bad_name(items) {
            return false;
        }
        let mut i: usize = 0;
        while i < items.len()
            invariant
                i <= items@.len(),
                forall|j: int| 0 <= j < i ==> printable(#[trigger] ts[j]),
            decreases items@.len() - i,
        {
            proof {
                assert(ts[i as int] == tree(items@[i as int]));
            }
            if !is_printable(&items[i]) {
                return false;
            }
            i += 1;
        }
        return true;
    }
    if is_record(v) {
        if !reads_quoted_well(v) {
            return false;
        }
        let found = members(v);
        let mut i: usize = 0;
        while i < found.len()
            invariant
                i <= found@.len(),
                forall|j: int| 0 <= j < i ==> printable(tree(*(#[trigger] found@[j]).1)),
            decreases found@.len() - i,
        {
            proof {
                let key = found@[i as int].0@;
                assert(member(tree(*v), key) == Some(tree(*found@[i as int].1)));
                assert(tree(*v)->Record_0.dom().contains(key));
            }
            if !is_printable(found[i].1) {
                return false;
            }
            i += 1;
        }
        proof {
            let fields = tree(*v)->Record_0;
            assert forall|k: Seq<char>| #[trigger] fields.dom().contains(k) implies printable(
                fields[k],
            ) by {
                assert(member(tree(*v), k) is Some);
                let i = choose|i: int| 0 <= i < found@.len() && (#[trigger] found@[i]).0@ == k;
                assert(member(tree(*v), found@[i].0@) == Some(tree(*found@[i].1)));
            }
        }
        return true;
    }
    true
}

/// The `{}` text of the statement that a tree is the serde form of; empty for any other tree.
pub uninterp spec fn printed(t: Tree) -> Seq<char>;

/// `Statement`'s `Display` with `{}`, read back from the serde form. It panics on a name in quotes
/// that there are not.
#[verifier::external_body]
fn print(v: &Value) -> (r: String)
    requires
        printable(tree(*v)),
    ensures
        r@ == printed(tree(*v)),
{
    let statement = serde_json::from_value::<Statement>(v.clone());
    statement.map(|s| s.to_string()).unwrap_or_default()
}

/// The `{:#}` text of the statement that a tree is the serde form of; empty for any other tree.
pub uninterp spec fn pretty(t: Tree) -> Seq<char>;

/// `Statement`'s `Display` with `{:#}`, read back from the serde form. It panics on a name in
/// quotes that there are not.
#[verifier::external_body]
fn print_pretty(v: &Value) -> (r: String)
    requires
        printable(tree(*v)),
    ensures
        r@ == pretty(tree(*v)),
{
    let statement = serde_json::from_value::<Statement>(v.clone());
    statement.map(|s| format!("{s:#}")).unwrap_or_default()
}

/// The text of a tree on one line; none where a name in it cannot be written.
pub open spec fn shown(t: Tree) -> Seq<char> {
    if printable(t) {
        printed(t)
    } else {
        seq![]
    }
}

/// The text of a value on one line; none where a name in it cannot be written.
pub fn show(v: &Value) -> (r: String)
    ensures
        r@ == shown(tree(*v)),
{
    if is_printable(v) {
        print(v)
    } else {
        let r = String::new();
        proof {
            assert(r@ =~= seq![]);
        }
        r
    }
}

/// The text of a tree on several lines; none where a name in it cannot be written.
pub open spec fn shown_pretty(t: Tree) -> Seq<char> {
    if printable(t) {
        pretty(t)
    } else {
        seq![]
    }
}

/// The text of a value on several lines; none where a name in it cannot be written.
pub fn show_pretty(v: &Value) -> (r: String)
    ensures
        r@ == shown_pretty(tree(*v)),
{
    if is_printable(v) {
        print_pretty(v)
    } else {
        let r = String::new();
        proof {
            assert(r@ =~= seq![]);
        }
        r
    }
}

/// The expression that a tree is the serde form of, with every identifier that the visitor finds
/// in it unquoted; null for any other tree.
pub uninterp spec fn requoted(t: Tree) -> Tree;

/// `visit_expressions_mut` on an expression, with `unquote_node` for each expression in it, the
/// inner ones first. `requoted` names the result, which the expression determines. Of an
/// identifier, plain or compound, there is one expression to visit; what is reached in any other
/// is the visitor's to say and is not stated.
#[verifier::external_body]
pub(crate) fn requote(v: &Value) -> (r: Value)
    ensures
        tree(r) == requoted(tree(*v)),
        quoting::is_name(tree(*v)) ==> tree(r) == quoting::unquoted_node(tree(*v)),
{
    let mut parsed = serde_json::from_value::<Expr>(v.clone()).ok();
    let _ = visit_expressions_mut(&mut parsed, |e| {
        let node = unquote_node(&serde_json::to_value(&*e).unwrap_or_default());
        *e = serde_json::from_value(node).unwrap_or(e.clone());
        ControlFlow::<()>::Continue(())
    });
    parsed.map(|e| serde_json::to_value(&e).unwrap_or_default()).unwrap_or_default()
}

/// What `Tokenizer::tokenize_with_location` makes of a text: for each token the serde form of
/// the token with its span, and the token's own text; or its message.
pub uninterp spec fn tokens(dialect: Dialect, sql: Seq<char>) -> Result<
    Seq<(Tree, Seq<char>)>,
    Seq<char>,
>;

/// Whether a tokenizer result is the one that `s` describes.
pub open spec fn tokenized_as(
    r: Result<Vec<(Value, String)>, String>,
    s: Result<Seq<(Tree, Seq<char>)>, Seq<char>>,
) -> bool {
    match (r, s) {
        (Ok(vs), Ok(ts)) => vs@.map_values(|v: (Value, String)| (tree(v.0), v.1@)) == ts,
        (Err(e), Err(m)) => e@ == m,
        _ => false,
    }
}

/// `Tokenizer::tokenize_with_location` in either dialect, each token in its serde form and as
/// its `Display` text, and the error as its `Display` text. `tokens` names the result, which
/// the dialect and the text determine.
#[verifier::external_body]
pub(crate) fn tokenize(dialect: Dialect, sql: &str) -> (r: Result<Vec<(Value, String)>, String>)
    ensures
        tokenized_as(r, tokens(dialect, sql@)),
{
    match dialect {
        Dialect::Postgres => Tokenizer::new(&PostgreSqlDialect {}, sql).tokenize_with_location(),
        Dialect::MySql => Tokenizer::new(&MySqlDialect {}, sql).tokenize_with_location(),
    }
    .map(|ts| ts.iter().map(|t| (serde_json::to_value(t).unwrap_or_default(), t.to_string())).collect())
    .map_err(|e| e.to_string())
}

} // verus!
