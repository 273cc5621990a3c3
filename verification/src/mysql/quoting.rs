//! Identifiers on their way from MySQL's backticks to PostgreSQL's quotes.

use serde_json::Value;
use vstd::prelude::*;
use vstd::string::StringExecFns;

use crate::rules::errors::read_value;
use crate::rules::name_match;
use crate::shapes::{self, items, make_no_span};
use crate::syntax::{self, as_list, as_text, copy, get, list, null, put, record, string, Tree};
use crate::text::{self, chars_of, contains, same, to_lower};
use crate::token;

verus! {

/// The reserved words up to the letter g.
pub open spec fn reserved_to_g(w: Seq<char>) -> bool {
    ||| w == "all"@
    ||| w == "analyse"@
    ||| w == "analyze"@
    ||| w == "and"@
    ||| w == "any"@
    ||| w == "array"@
    ||| w == "as"@
    ||| w == "asc"@
    ||| w == "asymmetric"@
    ||| w == "both"@
    ||| w == "case"@
    ||| w == "cast"@
    ||| w == "check"@
    ||| w == "collate"@
    ||| w == "column"@
    ||| w == "constraint"@
    ||| w == "create"@
    ||| w == "current_catalog"@
    ||| w == "current_date"@
    ||| w == "current_role"@
    ||| w == "current_time"@
    ||| w == "current_timestamp"@
    ||| w == "current_user"@
    ||| w == "default"@
    ||| w == "deferrable"@
    ||| w == "desc"@
    ||| w == "distinct"@
    ||| w == "do"@
    ||| w == "else"@
    ||| w == "end"@
    ||| w == "except"@
    ||| w == "false"@
    ||| w == "fetch"@
    ||| w == "for"@
    ||| w == "foreign"@
    ||| w == "from"@
    ||| w == "grant"@
    ||| w == "group"@
}

fn is_reserved_to_g(w: &str) -> (r: bool)
    ensures
        r == reserved_to_g(w@),
{
    same(w, "all")
        || same(w, "analyse")
        || same(w, "analyze")
        || same(w, "and")
        || same(w, "any")
        || same(w, "array")
        || same(w, "as")
        || same(w, "asc")
        || same(w, "asymmetric")
        || same(w, "both")
        || same(w, "case")
        || same(w, "cast")
        || same(w, "check")
        || same(w, "collate")
        || same(w, "column")
        || same(w, "constraint")
        || same(w, "create")
        || same(w, "current_catalog")
        || same(w, "current_date")
        || same(w, "current_role")
        || same(w, "current_time")
        || same(w, "current_timestamp")
        || same(w, "current_user")
        || same(w, "default")
        || same(w, "deferrable")
        || same(w, "desc")
        || same(w, "distinct")
        || same(w, "do")
        || same(w, "else")
        || same(w, "end")
        || same(w, "except")
        || same(w, "false")
        || same(w, "fetch")
        || same(w, "for")
        || same(w, "foreign")
        || same(w, "from")
        || same(w, "grant")
        || same(w, "group")
}

/// The reserved words from the letter h on.
pub open spec fn reserved_from_h(w: Seq<char>) -> bool {
    ||| w == "having"@
    ||| w == "in"@
    ||| w == "initially"@
    ||| w == "intersect"@
    ||| w == "into"@
    ||| w == "lateral"@
    ||| w == "leading"@
    ||| w == "limit"@
    ||| w == "localtime"@
    ||| w == "localtimestamp"@
    ||| w == "not"@
    ||| w == "null"@
    ||| w == "offset"@
    ||| w == "on"@
    ||| w == "only"@
    ||| w == "or"@
    ||| w == "order"@
    ||| w == "placing"@
    ||| w == "primary"@
    ||| w == "references"@
    ||| w == "returning"@
    ||| w == "select"@
    ||| w == "session_user"@
    ||| w == "some"@
    ||| w == "symmetric"@
    ||| w == "system_user"@
    ||| w == "table"@
    ||| w == "then"@
    ||| w == "to"@
    ||| w == "trailing"@
    ||| w == "true"@
    ||| w == "union"@
    ||| w == "unique"@
    ||| w == "user"@
    ||| w == "using"@
    ||| w == "variadic"@
    ||| w == "when"@
    ||| w == "where"@
    ||| w == "window"@
    ||| w == "with"@
}

fn is_reserved_from_h(w: &str) -> (r: bool)
    ensures
        r == reserved_from_h(w@),
{
    same(w, "having")
        || same(w, "in")
        || same(w, "initially")
        || same(w, "intersect")
        || same(w, "into")
        || same(w, "lateral")
        || same(w, "leading")
        || same(w, "limit")
        || same(w, "localtime")
        || same(w, "localtimestamp")
        || same(w, "not")
        || same(w, "null")
        || same(w, "offset")
        || same(w, "on")
        || same(w, "only")
        || same(w, "or")
        || same(w, "order")
        || same(w, "placing")
        || same(w, "primary")
        || same(w, "references")
        || same(w, "returning")
        || same(w, "select")
        || same(w, "session_user")
        || same(w, "some")
        || same(w, "symmetric")
        || same(w, "system_user")
        || same(w, "table")
        || same(w, "then")
        || same(w, "to")
        || same(w, "trailing")
        || same(w, "true")
        || same(w, "union")
        || same(w, "unique")
        || same(w, "user")
        || same(w, "using")
        || same(w, "variadic")
        || same(w, "when")
        || same(w, "where")
        || same(w, "window")
        || same(w, "with")
}

/// The reserved words that can name a function or a type.
pub open spec fn reserved_but_callable(w: Seq<char>) -> bool {
    ||| w == "authorization"@
    ||| w == "binary"@
    ||| w == "collation"@
    ||| w == "concurrently"@
    ||| w == "cross"@
    ||| w == "current_schema"@
    ||| w == "freeze"@
    ||| w == "full"@
    ||| w == "ilike"@
    ||| w == "inner"@
    ||| w == "is"@
    ||| w == "isnull"@
    ||| w == "join"@
    ||| w == "left"@
    ||| w == "like"@
    ||| w == "natural"@
    ||| w == "notnull"@
    ||| w == "outer"@
    ||| w == "overlaps"@
    ||| w == "right"@
    ||| w == "similar"@
    ||| w == "tablesample"@
    ||| w == "verbose"@
}

fn is_reserved_but_callable(w: &str) -> (r: bool)
    ensures
        r == reserved_but_callable(w@),
{
    same(w, "authorization")
        || same(w, "binary")
        || same(w, "collation")
        || same(w, "concurrently")
        || same(w, "cross")
        || same(w, "current_schema")
        || same(w, "freeze")
        || same(w, "full")
        || same(w, "ilike")
        || same(w, "inner")
        || same(w, "is")
        || same(w, "isnull")
        || same(w, "join")
        || same(w, "left")
        || same(w, "like")
        || same(w, "natural")
        || same(w, "notnull")
        || same(w, "outer")
        || same(w, "overlaps")
        || same(w, "right")
        || same(w, "similar")
        || same(w, "tablesample")
        || same(w, "verbose")
}

/// Whether a word is reserved in PostgreSQL: it names a column or a table only in quotes.
pub open spec fn reserved(word: Seq<char>) -> bool {
    let w = text::lowered(word);
    reserved_to_g(w) || reserved_from_h(w) || reserved_but_callable(w)
}

/// Whether a character can begin a name that needs no quotes.
pub open spec fn starts_bare(c: char) -> bool {
    c == '_' || 'a' <= c <= 'z'
}

/// Whether a character can stand in a name that needs no quotes.
pub open spec fn stays_bare(c: char) -> bool {
    starts_bare(c) || '0' <= c <= '9'
}

/// Whether a name is a lower-case word that stays itself without quotes.
pub open spec fn bare_safe(name: Seq<char>) -> bool {
    &&& name.len() > 0
    &&& starts_bare(name[0])
    &&& forall|i: int| 0 <= i < name.len() ==> stays_bare(#[trigger] name[i])
}

/// Whether a name must stand in quotes to stay itself.
pub open spec fn needs_quotes(name: Seq<char>) -> bool {
    !bare_safe(name) || reserved(name)
}

/// Whether a name survives the printing of a double-quoted identifier: a quote behind a
/// backslash would be printed as if it were escaped already.
pub open spec fn quotable(name: Seq<char>) -> bool {
    !text::occurs(name, "\\\""@)
}

/// The quotes of a name that had the quotes `quote`: of a backtick it keeps what it needs.
pub open spec fn new_quote(name: Seq<char>, quote: Option<char>) -> Option<char> {
    if quote != Some('`') {
        quote
    } else if !needs_quotes(name) {
        None
    } else if quotable(name) {
        Some('"')
    } else {
        Some('`')
    }
}

/// Whether a word is reserved in PostgreSQL.
pub fn is_pg_reserved_word(value: &str) -> (r: bool)
    ensures
        r == reserved(value@),
{
    let w = to_lower(value);
    is_reserved_to_g(w.as_str()) || is_reserved_from_h(w.as_str()) || is_reserved_but_callable(
        w.as_str(),
    )
}

fn is_start(c: char) -> (r: bool)
    ensures
        r == starts_bare(c),
{
    c == '_' || ('a' <= c && c <= 'z')
}

/// Whether a name is a lower-case word that stays itself without quotes.
pub fn is_bare_safe_ident(value: &str) -> (r: bool)
    ensures
        r == bare_safe(value@),
{
    let chars = chars_of(value);
    if chars.len() == 0 || !is_start(chars[0]) {
        return false;
    }
    let mut i: usize = 0;
    while i < chars.len()
        invariant
            i <= chars@.len(),
            chars@ == value@,
            forall|j: int| 0 <= j < i ==> stays_bare(#[trigger] value@[j]),
        decreases chars@.len() - i,
    {
        let c = chars[i];
        if !(is_start(c) || ('0' <= c && c <= '9')) {
            proof {
                assert(!stays_bare(value@[i as int]));
            }
            return false;
        }
        i += 1;
    }
    true
}

/// Whether a name must stand in quotes to stay itself.
pub fn needs_double_quote(value: &str) -> (r: bool)
    ensures
        r == needs_quotes(value@),
{
    !is_bare_safe_ident(value) || is_pg_reserved_word(value)
}

/// Whether a name survives the printing of a double-quoted identifier.
pub fn double_quotable(value: &str) -> (r: bool)
    ensures
        r == quotable(value@),
{
    !contains(value, "\\\"")
}

/// The quotes of a name that had the quotes `quote`.
pub fn requoted_style(value: &str, quote: Option<char>) -> (r: Option<char>)
    ensures
        r == new_quote(value@, quote),
{
    match quote {
        Some(c) => if c != '`' {
            quote
        } else if !needs_double_quote(value) {
            None
        } else if double_quotable(value) {
            Some('"')
        } else {
            quote
        },
        None => None,
    }
}

/// The quotes of an identifier in the syntax tree.
pub open spec fn quote_of(ident: Tree) -> Option<char> {
    match syntax::member(ident, "quote_style"@) {
        Some(Tree::Text(s)) => if s.len() == 1 {
            Some(s[0])
        } else {
            None
        },
        _ => None,
    }
}

/// Quotes in the syntax tree.
pub open spec fn quote_tree(quote: Option<char>) -> Tree {
    match quote {
        Some(c) => Tree::Text(seq![c]),
        None => Tree::Null,
    }
}

/// An identifier without its backticks, in double quotes where it needs them.
pub open spec fn unquoted(ident: Tree) -> Tree {
    let quote = quote_of(ident);
    if quote == Some('`') {
        syntax::with_member(
            ident,
            "quote_style"@,
            quote_tree(new_quote(token::text_in(ident, "value"@), quote)),
        )
    } else {
        ident
    }
}

/// One part of an object name without its backticks.
pub open spec fn unquoted_part(part: Tree) -> Tree {
    match syntax::member(part, "Identifier"@) {
        Some(ident) => syntax::with_member(part, "Identifier"@, unquoted(ident)),
        None => part,
    }
}

/// An object name without its backticks.
pub open spec fn unquoted_name(name: Tree) -> Tree {
    Tree::List(name_match::items_of(name).map_values(|p: Tree| unquoted_part(p)))
}

/// Identifiers without their backticks.
pub open spec fn unquoted_list(idents: Tree) -> Tree {
    Tree::List(name_match::items_of(idents).map_values(|p: Tree| unquoted(p)))
}

/// An expression without its backticks where it is an identifier, plain or compound; any other
/// expression stays.
pub open spec fn unquoted_node(e: Tree) -> Tree {
    match syntax::member(e, "Identifier"@) {
        Some(ident) => syntax::with_member(e, "Identifier"@, unquoted(ident)),
        None => match syntax::member(e, "CompoundIdentifier"@) {
            Some(parts) => syntax::with_member(e, "CompoundIdentifier"@, unquoted_list(parts)),
            None => e,
        },
    }
}

/// A place in a text.
pub open spec fn place(line: u64, column: u64) -> Tree {
    syntax::with_member(
        syntax::with_member(shapes::no_fields(), "line"@, shapes::count(line)),
        "column"@,
        shapes::count(column),
    )
}

/// Whether a tree is an identifier: a value in quotes or not, and where it stands.
pub open spec fn is_ident(t: Tree) -> bool {
    exists|value: Seq<char>, quote: Option<char>, from: (u64, u64), to: (u64, u64)|
        t == #[trigger] ident_at(value, quote, from, to)
}

/// The identifier with the given value, quotes and places.
pub open spec fn ident_at(
    value: Seq<char>,
    quote: Option<char>,
    from: (u64, u64),
    to: (u64, u64),
) -> Tree {
    let start = syntax::with_member(shapes::no_fields(), "start"@, place(from.0, from.1));
    let span = syntax::with_member(start, "end"@, place(to.0, to.1));
    let a = syntax::with_member(shapes::no_fields(), "value"@, Tree::Text(value));
    syntax::with_member(syntax::with_member(a, "quote_style"@, quote_tree(quote)), "span"@, span)
}

/// Whether an expression is an identifier, plain or compound.
pub open spec fn is_name(e: Tree) -> bool {
    ||| exists|ident: Tree|
        #[trigger] is_ident(ident) && e == syntax::variant("Identifier"@, ident)
    ||| exists|parts: Seq<Tree>|
        e == #[trigger] syntax::variant("CompoundIdentifier"@, Tree::List(parts)) && forall|i: int|
            0 <= i < parts.len() ==> is_ident(#[trigger] parts[i])
}

/// The last identifier of an object name; empty where there is none.
pub open spec fn leaf(parts: Seq<Tree>) -> Seq<char>
    decreases parts.len(),
{
    if parts.len() == 0 {
        seq![]
    } else {
        match syntax::member(parts.last(), "Identifier"@) {
            Some(ident) => token::text_in(ident, "value"@),
            None => leaf(parts.drop_last()),
        }
    }
}

/// An identifier that stands in no text.
pub open spec fn new_ident(name: Seq<char>, quote: Option<char>) -> Tree {
    let a = syntax::with_member(shapes::no_fields(), "value"@, Tree::Text(name));
    let b = syntax::with_member(a, "quote_style"@, quote_tree(quote));
    syntax::with_member(b, "span"@, shapes::no_span())
}

/// The name of an index with its table's name before it.
pub open spec fn qualified(table: Seq<char>, name: Seq<char>) -> Seq<char> {
    table + "_"@ + name
}

/// `table_name` as an identifier.
pub open spec fn qualified_ident(table: Seq<char>, name: Seq<char>) -> Tree {
    let full = qualified(table, name);
    new_ident(full, new_quote(full, Some('`')))
}

fn read_quote(ident: &Value) -> (r: Option<char>)
    ensures
        r == quote_of(syntax::tree(*ident)),
{
    match get(ident, "quote_style") {
        Some(q) => match as_text(q) {
            Some(s) => {
                let chars = chars_of(s);
                if chars.len() == 1 {
                    Some(chars[0])
                } else {
                    None
                }
            },
            None => None,
        },
        None => None,
    }
}

fn make_quote(quote: Option<char>) -> (r: Value)
    ensures
        syntax::tree(r) == quote_tree(quote),
{
    match quote {
        Some(c) => {
            let mut s = String::new();
            s.push(c);
            proof {
                assert(s@ =~= seq![c]);
            }
            string(s.as_str())
        },
        None => null(),
    }
}

/// Takes the backticks off an identifier. A name that neither stays itself without quotes nor
/// survives in double quotes keeps them, for the parser to refuse.
pub fn unquote_ident(ident: &mut Value)
    ensures
        syntax::tree(*final(ident)) == unquoted(syntax::tree(*old(ident))),
{
    let quote = read_quote(ident);
    let backtick = match quote {
        Some(c) => c == '`',
        None => false,
    };
    if backtick {
        let name = read_value(ident);
        put(ident, "quote_style", make_quote(requoted_style(name.as_str(), quote)));
    }
}

/// Takes the backticks off an object name.
pub fn unquote_object_name(name: &Value) -> (r: Value)
    ensures
        syntax::tree(r) == unquoted_name(syntax::tree(*name)),
{
    let parts = items(name);
    let ghost ts = syntax::trees(parts@);
    let mut out: Vec<Value> = Vec::new();
    for part in it: parts
        invariant
            ts == syntax::trees(it.seq()),
            out@.len() == it.index(),
            forall|j: int|
                0 <= j < out@.len() ==> syntax::tree(#[trigger] out@[j]) == unquoted_part(ts[j]),
    {
        proof {
            assert(ts[it.index() as int] == syntax::tree(part));
        }
        let mut p = part;
        let ident = match get(&p, "Identifier") {
            Some(i) => Some(copy(i)),
            None => None,
        };
        if let Some(mut i) = ident {
            unquote_ident(&mut i);
            put(&mut p, "Identifier", i);
        }
        out.push(p);
    }
    proof {
        assert(syntax::trees(out@) =~= ts.map_values(|p: Tree| unquoted_part(p)));
    }
    list(out)
}

/// Takes the backticks off a list of identifiers.
pub fn unquote_idents(idents: &Value) -> (r: Value)
    ensures
        syntax::tree(r) == unquoted_list(syntax::tree(*idents)),
{
    let parts = items(idents);
    let ghost ts = syntax::trees(parts@);
    let mut out: Vec<Value> = Vec::new();
    for part in it: parts
        invariant
            ts == syntax::trees(it.seq()),
            out@.len() == it.index(),
            forall|j: int|
                0 <= j < out@.len() ==> syntax::tree(#[trigger] out@[j]) == unquoted(ts[j]),
    {
        proof {
            assert(ts[it.index() as int] == syntax::tree(part));
        }
        let mut p = part;
        unquote_ident(&mut p);
        out.push(p);
    }
    proof {
        assert(syntax::trees(out@) =~= ts.map_values(|p: Tree| unquoted(p)));
    }
    list(out)
}

/// Takes the backticks off an expression that is an identifier, plain or compound.
pub fn unquote_node(e: &Value) -> (r: Value)
    ensures
        syntax::tree(r) == unquoted_node(syntax::tree(*e)),
{
    let mut out = copy(e);
    match get(e, "Identifier") {
        Some(ident) => {
            let mut i = copy(ident);
            unquote_ident(&mut i);
            put(&mut out, "Identifier", i);
        },
        None => {
            if let Some(parts) = get(e, "CompoundIdentifier") {
                put(&mut out, "CompoundIdentifier", unquote_idents(parts));
            }
        },
    }
    out
}

/// The last identifier of an object name.
pub fn object_name_leaf(name: &Value) -> (r: String)
    ensures
        r@ == leaf(name_match::items_of(syntax::tree(*name))),
{
    match as_list(name) {
        Some(parts) => {
            let ghost ts = syntax::trees(parts@);
            let mut i: usize = parts.len();
            proof {
                assert(ts.take(i as int) =~= ts);
            }
            while i > 0
                invariant
                    i <= parts@.len(),
                    ts == syntax::trees(parts@),
                    name_match::items_of(syntax::tree(*name)) == ts,
                    leaf(ts.take(i as int)) == leaf(ts),
                decreases i,
            {
                i -= 1;
                proof {
                    assert(ts.take(i + 1).drop_last() =~= ts.take(i as int));
                    assert(ts.take(i + 1).last() == syntax::tree(parts@[i as int]));
                }
                if let Some(ident) = get(&parts[i], "Identifier") {
                    return read_value(ident);
                }
            }
            String::new()
        },
        None => String::new(),
    }
}

/// The identifier `{table}_{name}`, which is unique among the indexes of a schema where `name`
/// is unique among those of the table.
pub fn qualify_index_ident(table_leaf: &str, name: &str) -> (r: Value)
    ensures
        syntax::tree(r) == qualified_ident(table_leaf@, name@),
{
    let mut full = table_leaf.to_owned();
    full.append("_");
    full.append(name);
    let mut ident = record();
    put(&mut ident, "value", string(full.as_str()));
    put(&mut ident, "quote_style", make_quote(requoted_style(full.as_str(), Some('`'))));
    put(&mut ident, "span", make_no_span());
    ident
}

/// A backtick goes only from a name that PostgreSQL reads as itself: one without upper-case
/// letters, blanks or punctuation that is not reserved.
pub proof fn law_bare_names_are_safe(name: Seq<char>)
    ensures
        new_quote(name, Some('`')) is None <==> bare_safe(name) && !reserved(name),
        new_quote(name, Some('`')) == Some('"') ==> quotable(name),
{
}

/// A name without backticks keeps its quotes.
pub proof fn law_other_quotes_stay(name: Seq<char>, quote: Option<char>)
    requires
        quote != Some('`'),
    ensures
        new_quote(name, quote) == quote,
{
}

/// Taking the backticks off twice is taking them off once.
pub proof fn law_unquoting_is_idempotent(ident: Tree)
    ensures
        unquoted(unquoted(ident)) == unquoted(ident),
{
    reveal_strlit("value");
    reveal_strlit("quote_style");
    assert("value"@.len() != "quote_style"@.len());
    let quote = quote_of(ident);
    if quote == Some('`') {
        let name = token::text_in(ident, "value"@);
        let after = unquoted(ident);
        assert(token::text_in(after, "value"@) == name);
        match ident {
            Tree::Record(fields) => {
                let q = quote_tree(new_quote(name, quote));
                assert(fields.insert("quote_style"@, q).insert("quote_style"@, q) =~= fields.insert(
                    "quote_style"@,
                    q,
                ));
            },
            _ => {},
        }
    }
}

/// The name of an identifier never changes with its quotes.
pub proof fn law_unquoting_keeps_the_name(ident: Tree)
    ensures
        token::text_in(unquoted(ident), "value"@) == token::text_in(ident, "value"@),
{
    reveal_strlit("value");
    reveal_strlit("quote_style");
    assert("value"@.len() != "quote_style"@.len());
}

/// Taking the backticks off an expression twice is taking them off once.
pub proof fn law_unquoted_node_is_stable(e: Tree)
    ensures
        unquoted_node(unquoted_node(e)) == unquoted_node(e),
{
    let once = unquoted_node(e);
    if let Some(ident) = syntax::member(e, "Identifier"@) {
        law_unquoting_is_idempotent(ident);
        assert(syntax::member(once, "Identifier"@) == Some(unquoted(ident)));
        assert(once->Record_0.insert("Identifier"@, unquoted(ident)) =~= once->Record_0);
    } else if let Some(parts) = syntax::member(e, "CompoundIdentifier"@) {
        reveal_strlit("Identifier");
        reveal_strlit("CompoundIdentifier");
        assert("Identifier"@.len() != "CompoundIdentifier"@.len());
        let list = unquoted_list(parts);
        assert(syntax::member(once, "Identifier"@) is None);
        assert(syntax::member(once, "CompoundIdentifier"@) == Some(list));
        assert forall|i: int| 0 <= i < name_match::items_of(list).len() implies unquoted(
            #[trigger] name_match::items_of(list)[i],
        ) == name_match::items_of(list)[i] by {
            law_unquoting_is_idempotent(name_match::items_of(parts)[i]);
        }
        assert(name_match::items_of(unquoted_list(list)) =~= name_match::items_of(list));
        assert(once->Record_0.insert("CompoundIdentifier"@, list) =~= once->Record_0);
    }
}

} // verus!
