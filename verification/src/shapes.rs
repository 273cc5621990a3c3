//! Pieces of the syntax tree that the rules put in.

use serde_json::Value;
use vstd::prelude::*;

use crate::rules::name_match;
use crate::syntax::{
    self, as_list, copy, flag, get, list, null, number, put, record, string, Tree,
};
use crate::text;
use crate::token;

verus! {

/// The record without fields.
pub open spec fn no_fields() -> Tree {
    Tree::Record(Map::empty())
}

/// A number in the syntax tree's own fields.
pub open spec fn count(n: u64) -> Tree {
    Tree::Number(text::decimal(n as nat), Some(n))
}

/// The place of a piece that stands in no text.
pub open spec fn nowhere() -> Tree {
    syntax::with_member(syntax::with_member(no_fields(), "line"@, count(0)), "column"@, count(0))
}

/// The span of a piece that stands in no text.
pub open spec fn no_span() -> Tree {
    syntax::with_member(syntax::with_member(no_fields(), "start"@, nowhere()), "end"@, nowhere())
}

/// A literal value as an expression.
pub open spec fn literal(value: Tree) -> Tree {
    syntax::variant(
        "Value"@,
        syntax::with_member(
            syntax::with_member(no_fields(), "value"@, value),
            "span"@,
            no_span(),
        ),
    )
}

/// A numeric literal with the given digits.
pub open spec fn number_literal(digits: Seq<char>) -> Tree {
    syntax::variant("Number"@, Tree::List(seq![Tree::Text(digits), Tree::Flag(false)]))
}

/// A numeric literal as an expression.
pub open spec fn number_expr(digits: Seq<char>) -> Tree {
    literal(number_literal(digits))
}

/// A column option without a name of its own.
pub open spec fn unnamed_option(option: Tree) -> Tree {
    syntax::with_member(
        syntax::with_member(no_fields(), "name"@, Tree::Null),
        "option"@,
        option,
    )
}

/// The sequence options of an identity column: its cache and, where it is given, its start.
pub open spec fn identity_options(cache: Seq<char>, start: Option<Seq<char>>) -> Seq<Tree> {
    let cached = seq![syntax::variant("Cache"@, number_expr(cache))];
    match start {
        Some(n) => cached.push(
            syntax::variant("StartWith"@, Tree::List(seq![number_expr(n), Tree::Flag(true)])),
        ),
        None => cached,
    }
}

/// `GENERATED BY DEFAULT AS IDENTITY (CACHE cache [START WITH start])`.
pub open spec fn identity(cache: Seq<char>, start: Option<Seq<char>>) -> Tree {
    let base = no_fields();
    let a = syntax::with_member(base, "generated_as"@, Tree::Text("ByDefault"@));
    let b = syntax::with_member(
        a,
        "sequence_options"@,
        Tree::List(identity_options(cache, start)),
    );
    let c = syntax::with_member(b, "generation_expr"@, Tree::Null);
    let d = syntax::with_member(c, "generation_expr_mode"@, Tree::Null);
    let e = syntax::with_member(d, "generated_keyword"@, Tree::Flag(true));
    unnamed_option(syntax::variant("Generated"@, e))
}

/// A copy of a field; null where it is missing.
pub(crate) fn field(v: &Value, key: &str) -> (r: Value)
    ensures
        syntax::tree(r) == token::field(syntax::tree(*v), key@),
{
    match get(v, key) {
        Some(f) => copy(f),
        None => null(),
    }
}

/// Copies of the items of a list; none where the value is no list.
pub(crate) fn items(v: &Value) -> (r: Vec<Value>)
    ensures
        syntax::trees(r@) == name_match::items_of(syntax::tree(*v)),
{
    let mut out: Vec<Value> = Vec::new();
    match as_list(v) {
        Some(vs) => {
            let mut i: usize = 0;
            while i < vs.len()
                invariant
                    i <= vs@.len(),
                    out@.len() == i,
                    forall|j: int|
                        0 <= j < i ==> syntax::tree(#[trigger] out@[j]) == syntax::tree(vs@[j]),
                decreases vs@.len() - i,
            {
                out.push(copy(&vs[i]));
                i += 1;
            }
            proof {
                assert(syntax::trees(out@) =~= syntax::trees(vs@));
            }
        },
        None => {
            proof {
                assert(syntax::trees(out@) =~= seq![]);
            }
        },
    }
    out
}

/// A variant with contents.
pub(crate) fn one(key: &str, value: Value) -> (r: Value)
    ensures
        syntax::tree(r) == syntax::variant(key@, syntax::tree(value)),
{
    let mut v = record();
    put(&mut v, key, value);
    v
}

/// A list of two values.
pub(crate) fn pair(a: Value, b: Value) -> (r: Value)
    ensures
        syntax::tree(r) == Tree::List(seq![syntax::tree(a), syntax::tree(b)]),
{
    let mut items: Vec<Value> = Vec::new();
    items.push(a);
    items.push(b);
    proof {
        assert(syntax::trees(items@) =~= seq![syntax::tree(a), syntax::tree(b)]);
    }
    list(items)
}

fn make_nowhere() -> (r: Value)
    ensures
        syntax::tree(r) == nowhere(),
{
    let mut v = record();
    put(&mut v, "line", number(0));
    put(&mut v, "column", number(0));
    v
}

/// The span of a piece that stands in no text.
pub(crate) fn make_no_span() -> (r: Value)
    ensures
        syntax::tree(r) == no_span(),
{
    let mut v = record();
    put(&mut v, "start", make_nowhere());
    put(&mut v, "end", make_nowhere());
    v
}

/// A literal value as an expression.
pub(crate) fn make_literal(value: Value) -> (r: Value)
    ensures
        syntax::tree(r) == literal(syntax::tree(value)),
{
    let mut v = record();
    put(&mut v, "value", value);
    put(&mut v, "span", make_no_span());
    one("Value", v)
}

/// A numeric literal as an expression.
pub(crate) fn make_number(digits: &str) -> (r: Value)
    ensures
        syntax::tree(r) == number_expr(digits@),
{
    make_literal(one("Number", pair(string(digits), flag(false))))
}

/// `GENERATED BY DEFAULT AS IDENTITY (CACHE cache [START WITH start])`.
pub(crate) fn make_identity(cache: &str, start: Option<&str>) -> (r: Value)
    ensures
        syntax::tree(r) == identity(
            cache@,
            match start {
                Some(n) => Some(n@),
                None => None,
            },
        ),
{
    let mut options: Vec<Value> = Vec::new();
    options.push(one("Cache", make_number(cache)));
    if let Some(n) = start {
        options.push(one("StartWith", pair(make_number(n), flag(true))));
    }
    proof {
        assert(syntax::trees(options@) =~= identity_options(
            cache@,
            match start {
                Some(n) => Some(n@),
                None => None,
            },
        ));
    }
    let mut g = record();
    put(&mut g, "generated_as", string("ByDefault"));
    put(&mut g, "sequence_options", list(options));
    put(&mut g, "generation_expr", null());
    put(&mut g, "generation_expr_mode", null());
    put(&mut g, "generated_keyword", flag(true));
    let mut v = record();
    put(&mut v, "name", null());
    put(&mut v, "option", one("Generated", g));
    v
}

} // verus!
