//! The columns of a MySQL table: defaults, options and automatic numbers.

use serde_json::Value;
use vstd::prelude::*;
use vstd::string::StringExecFns;

use crate::diagnostic::{self, Diagnostic, LintRule};
use crate::mysql::literal::{
    self, bits_to_bytea_hex, has_zero_date_segment, hex_to_bytea_literal, parse_signed,
    parse_unsigned,
};
use crate::mysql::quoting::{self, unquote_ident};
use crate::mysql::types::{self, is_numeric_type, normalize_data_type, warn};
use crate::rules::errors::{read_plain_name, read_value};
use crate::rules::name_match;
use crate::shapes::{self, field, items, make_identity, one, pair};
use crate::syntax::{
    self, as_list, as_number, as_text, copy, flag, get, is_null, list, null, put, requote, string,
    Tree,
};
use crate::text::{self, decimal_text, eq_ignore_case, same, to_lower};
use crate::token;
use crate::transactions::{self, has_kind};

verus! {

/// The literal that an expression is; `None` where it is none.
pub open spec fn literal_in(expr: Tree) -> Option<Tree> {
    match syntax::member(expr, "Value"@) {
        Some(v) => syntax::member(v, "value"@),
        None => None,
    }
}

/// A literal expression with another literal in it.
pub open spec fn with_literal(expr: Tree, value: Tree) -> Tree {
    syntax::with_member(
        expr,
        "Value"@,
        syntax::with_member(token::field(expr, "Value"@), "value"@, value),
    )
}

/// The text of a literal of the given kind.
pub open spec fn literal_text(value: Tree, kind: Seq<char>) -> Option<Seq<char>> {
    match syntax::member(value, kind) {
        Some(Tree::Text(s)) => Some(s),
        _ => None,
    }
}

/// The digits of a numeric literal.
pub open spec fn number_text(value: Tree) -> Option<Seq<char>> {
    match syntax::member(value, "Number"@) {
        Some(Tree::List(parts)) => if parts.len() > 0 {
            match parts[0] {
                Tree::Text(s) => Some(s),
                _ => None,
            }
        } else {
            None
        },
        _ => None,
    }
}

/// Double quotes around a string as single ones: in PostgreSQL the former stand around names.
pub open spec fn single_quoted(expr: Tree) -> Tree {
    match literal_in(expr) {
        Some(value) => match literal_text(value, "DoubleQuotedString"@) {
            Some(s) => with_literal(
                expr,
                syntax::variant("SingleQuotedString"@, Tree::Text(s)),
            ),
            None => expr,
        },
        None => expr,
    }
}

/// What `0` and `1` mean; `None` for any other text.
pub open spec fn bit_meaning(s: Seq<char>) -> Option<bool> {
    if s == "0"@ {
        Some(false)
    } else if s == "1"@ {
        Some(true)
    } else {
        None
    }
}

/// The truth value that a literal of MySQL stands for.
pub open spec fn truth(value: Tree) -> Option<bool> {
    match number_text(value) {
        Some(s) => bit_meaning(s),
        None => match literal_text(value, "SingleQuotedString"@) {
            Some(s) => bit_meaning(s),
            None => match literal_text(value, "SingleQuotedByteStringLiteral"@) {
                Some(s) => bit_meaning(s),
                None => match literal_text(value, "HexStringLiteral"@) {
                    Some(s) => match literal::unsigned(s, 16) {
                        Some(n) => if n == 0 {
                            Some(false)
                        } else if n == 1 {
                            Some(true)
                        } else {
                            None
                        },
                        None => None,
                    },
                    None => None,
                },
            },
        },
    }
}

/// The default of a boolean column; `None` where it is no truth value.
pub open spec fn bool_default(expr: Tree) -> Option<Tree> {
    match literal_in(expr) {
        Some(value) => if transactions::is_kind(value, "Boolean"@) || transactions::is_kind(
            value,
            "Null"@,
        ) {
            Some(expr)
        } else {
            match truth(value) {
                Some(b) => Some(
                    with_literal(expr, syntax::variant("Boolean"@, Tree::Flag(b))),
                ),
                None => None,
            }
        },
        None => None,
    }
}

/// The number of bytes of a column of that many bits; one where it is not said.
pub open spec fn byte_width(bit_width: Option<u64>) -> nat {
    match bit_width {
        Some(w) => ((w + 7) / 8) as nat,
        None => 1,
    }
}

/// The default of a column of bytes; `None` where it is no string of bits or hexadecimal digits.
pub open spec fn bytea_default(expr: Tree, bit_width: Option<u64>) -> Option<Tree> {
    match literal_in(expr) {
        Some(value) => if transactions::is_kind(value, "Null"@) {
            Some(expr)
        } else {
            let hex = match literal_text(value, "SingleQuotedByteStringLiteral"@) {
                Some(bits) => literal::bits_bytea(bits, byte_width(bit_width)),
                None => match literal_text(value, "HexStringLiteral"@) {
                    Some(s) => if literal::all_digits(s, 16) {
                        Some(literal::bytea(text::lowered(s), byte_width(bit_width)))
                    } else {
                        None
                    },
                    None => None,
                },
            };
            match hex {
                Some(h) => Some(
                    with_literal(expr, syntax::variant("SingleQuotedString"@, Tree::Text(h))),
                ),
                None => None,
            }
        },
        None => None,
    }
}

/// The default of a column of dates; `None` where a part of the date is zero.
pub open spec fn date_default(expr: Tree) -> Option<Tree> {
    match literal_in(expr) {
        Some(value) => match literal_text(value, "SingleQuotedString"@) {
            Some(s) => if literal::zero_date(s) {
                None
            } else {
                Some(expr)
            },
            None => Some(expr),
        },
        None => Some(expr),
    }
}

/// The default of a column of numbers, hexadecimal digits as decimal ones; `None` where they
/// spell no `u64`.
pub open spec fn number_default(expr: Tree) -> Option<Tree> {
    match literal_in(expr) {
        Some(value) => match literal_text(value, "HexStringLiteral"@) {
            Some(s) => match literal::unsigned(s, 16) {
                Some(n) => Some(with_literal(expr, shapes::number_literal(text::decimal(n as nat)))),
                None => None,
            },
            None => Some(expr),
        },
        None => Some(expr),
    }
}

/// The default of a column of the given type; `None` where that type has no such value.
pub open spec fn new_default(expr: Tree, ty: Tree, bit_width: Option<u64>) -> Option<Tree> {
    let e = single_quoted(expr);
    if transactions::is_kind(ty, "Boolean"@) {
        bool_default(e)
    } else if transactions::is_kind(ty, "Bytea"@) {
        bytea_default(e, bit_width)
    } else if transactions::is_kind(ty, "Timestamp"@) || transactions::is_kind(ty, "Date"@)
        || transactions::is_kind(ty, "Time"@) {
        date_default(e)
    } else if types::numeric(ty) {
        number_default(e)
    } else {
        Some(e)
    }
}

fn read_literal(expr: &Value) -> (r: Option<Value>)
    ensures
        match (r, literal_in(syntax::tree(*expr))) {
            (Some(v), Some(t)) => syntax::tree(v) == t,
            (None, None) => true,
            _ => false,
        },
{
    match get(expr, "Value") {
        Some(v) => match get(v, "value") {
            Some(value) => Some(copy(value)),
            None => None,
        },
        None => None,
    }
}

fn set_literal(expr: &Value, value: Value) -> (r: Value)
    ensures
        syntax::tree(r) == with_literal(syntax::tree(*expr), syntax::tree(value)),
{
    let mut inner = field(expr, "Value");
    put(&mut inner, "value", value);
    let mut out = copy(expr);
    put(&mut out, "Value", inner);
    out
}

/// Whether a text that was read is the one that `s` describes.
pub open spec fn read_as(r: Option<String>, s: Option<Seq<char>>) -> bool {
    match (r, s) {
        (Some(a), Some(b)) => a@ == b,
        (None, None) => true,
        _ => false,
    }
}

fn read_literal_text(value: &Value, kind: &str) -> (r: Option<String>)
    ensures
        read_as(r, literal_text(syntax::tree(*value), kind@)),
{
    match get(value, kind) {
        Some(v) => match as_text(v) {
            Some(s) => Some(s.to_owned()),
            None => None,
        },
        None => None,
    }
}

fn read_number_text(value: &Value) -> (r: Option<String>)
    ensures
        read_as(r, number_text(syntax::tree(*value))),
{
    match get(value, "Number") {
        Some(v) => match as_list(v) {
            Some(parts) => if parts.len() > 0 {
                proof {
                    assert(syntax::trees(parts@)[0] == syntax::tree(parts@[0]));
                }
                match as_text(&parts[0]) {
                    Some(s) => Some(s.to_owned()),
                    None => None,
                }
            } else {
                None
            },
            None => None,
        },
        None => None,
    }
}

/// Puts a string of MySQL's double quotes in single ones.
pub fn recast_double_quoted_string(expr: &Value) -> (r: Value)
    ensures
        syntax::tree(r) == single_quoted(syntax::tree(*expr)),
{
    match read_literal(expr) {
        Some(value) => match read_literal_text(&value, "DoubleQuotedString") {
            Some(s) => set_literal(expr, one("SingleQuotedString", string(s.as_str()))),
            None => copy(expr),
        },
        None => copy(expr),
    }
}

fn read_bit(s: &str) -> (r: Option<bool>)
    ensures
        r == bit_meaning(s@),
{
    if same(s, "0") {
        Some(false)
    } else if same(s, "1") {
        Some(true)
    } else {
        None
    }
}

fn read_truth(value: &Value) -> (r: Option<bool>)
    ensures
        r == truth(syntax::tree(*value)),
{
    if let Some(s) = read_number_text(value) {
        return read_bit(s.as_str());
    }
    if let Some(s) = read_literal_text(value, "SingleQuotedString") {
        return read_bit(s.as_str());
    }
    if let Some(s) = read_literal_text(value, "SingleQuotedByteStringLiteral") {
        return read_bit(s.as_str());
    }
    match read_literal_text(value, "HexStringLiteral") {
        Some(s) => match parse_unsigned(s.as_str(), 16) {
            Some(n) => if n == 0 {
                Some(false)
            } else if n == 1 {
                Some(true)
            } else {
                None
            },
            None => None,
        },
        None => None,
    }
}

/// Whether an expression that was made is the one that `s` describes.
pub open spec fn made_as(r: Option<Value>, s: Option<Tree>) -> bool {
    match (r, s) {
        (Some(v), Some(t)) => syntax::tree(v) == t,
        (None, None) => true,
        _ => false,
    }
}

/// The default of a boolean column; `None` where it is no truth value.
pub fn recast_bool_default(expr: &Value) -> (r: Option<Value>)
    ensures
        made_as(r, bool_default(syntax::tree(*expr))),
{
    match read_literal(expr) {
        Some(value) => if has_kind(&value, "Boolean") || has_kind(&value, "Null") {
            Some(copy(expr))
        } else {
            match read_truth(&value) {
                Some(b) => Some(set_literal(expr, one("Boolean", flag(b)))),
                None => None,
            }
        },
        None => None,
    }
}

/// Whether a text is made of hexadecimal digits, one at least.
fn is_hex(s: &str) -> (r: bool)
    ensures
        r == literal::all_digits(s@, 16),
{
    let chars = text::chars_of(s);
    let mut i: usize = 0;
    while i < chars.len()
        invariant
            i <= chars@.len(),
            chars@ == s@,
            forall|j: int| 0 <= j < i ==> literal::is_digit(#[trigger] s@[j], 16),
        decreases chars@.len() - i,
    {
        let c = chars[i];
        let hex = ('0' <= c && c <= '9') || ('a' <= c && c <= 'f') || ('A' <= c && c <= 'F');
        if !hex {
            proof {
                assert(!literal::is_digit(s@[i as int], 16));
            }
            return false;
        }
        i += 1;
    }
    chars.len() > 0
}

/// The default of a column of bytes; `None` where it is no string of bits or hexadecimal digits.
pub fn recast_bytea_default(expr: &Value, bit_width: Option<u64>) -> (r: Option<Value>)
    requires
        bit_width matches Some(w) ==> w <= 64,
    ensures
        made_as(r, bytea_default(syntax::tree(*expr), bit_width)),
{
    let min_bytes: usize = match bit_width {
        Some(w) => ((w + 7) / 8) as usize,
        None => 1,
    };
    match read_literal(expr) {
        Some(value) => if has_kind(&value, "Null") {
            Some(copy(expr))
        } else {
            let hex = match read_literal_text(&value, "SingleQuotedByteStringLiteral") {
                Some(bits) => bits_to_bytea_hex(bits.as_str(), min_bytes),
                None => match read_literal_text(&value, "HexStringLiteral") {
                    Some(s) => if is_hex(s.as_str()) {
                        Some(hex_to_bytea_literal(to_lower(s.as_str()).as_str(), min_bytes))
                    } else {
                        None
                    },
                    None => None,
                },
            };
            match hex {
                Some(h) => Some(set_literal(expr, one("SingleQuotedString", string(h.as_str())))),
                None => None,
            }
        },
        None => None,
    }
}

/// The default of a column of dates; `None` where a part of the date is zero.
pub fn recast_date_default(expr: &Value) -> (r: Option<Value>)
    ensures
        made_as(r, date_default(syntax::tree(*expr))),
{
    if let Some(value) = read_literal(expr) {
        if let Some(s) = read_literal_text(&value, "SingleQuotedString") {
            if has_zero_date_segment(s.as_str()) {
                return None;
            }
        }
    }
    Some(copy(expr))
}

/// The default of a column of numbers; `None` where its hexadecimal digits spell no `u64`.
pub fn recast_hex_numeric_default(expr: &Value) -> (r: Option<Value>)
    ensures
        made_as(r, number_default(syntax::tree(*expr))),
{
    match read_literal(expr) {
        Some(value) => match read_literal_text(&value, "HexStringLiteral") {
            Some(s) => match parse_unsigned(s.as_str(), 16) {
                Some(n) => {
                    let digits = decimal_text(n);
                    Some(
                        set_literal(
                            expr,
                            one("Number", pair(string(digits.as_str()), flag(false))),
                        ),
                    )
                },
                None => None,
            },
            None => Some(copy(expr)),
        },
        None => Some(copy(expr)),
    }
}

/// The default of a column of the given type; `None` where that type has no such value.
pub fn recast_default(expr: &Value, ty: &Value, bit_width: Option<u64>) -> (r: Option<Value>)
    requires
        bit_width matches Some(w) ==> w <= 64,
    ensures
        made_as(r, new_default(syntax::tree(*expr), syntax::tree(*ty), bit_width)),
{
    let e = recast_double_quoted_string(expr);
    if has_kind(ty, "Boolean") {
        recast_bool_default(&e)
    } else if has_kind(ty, "Bytea") {
        recast_bytea_default(&e, bit_width)
    } else if has_kind(ty, "Timestamp") || has_kind(ty, "Date") || has_kind(ty, "Time") {
        recast_date_default(&e)
    } else if is_numeric_type(ty) {
        recast_hex_numeric_default(&e)
    } else {
        Some(e)
    }
}

/// Which options of a column go.
#[derive(Clone, Copy, PartialEq, Eq, Structural)]
pub enum Unwanted {
    /// `AUTO_INCREMENT`, and the default that an identity column cannot have.
    Numbering,
    /// The default.
    Default,
    /// What only MySQL knows.
    MysqlOnly,
}

/// Whether a column option is of the given kind.
pub open spec fn is_option(opt: Tree, kind: Seq<char>) -> bool {
    syntax::member(token::field(opt, "option"@), kind) is Some
}

/// Whether a column option is `AUTO_INCREMENT`.
pub open spec fn auto_increment(opt: Tree) -> bool {
    let tokens = name_match::items_of(
        token::field(token::field(opt, "option"@), "DialectSpecific"@),
    );
    tokens.len() == 1 && match syntax::member(tokens[0], "Word"@) {
        Some(w) => token::text_in(w, "value"@) == "AUTO_INCREMENT"@,
        None => false,
    }
}

/// Whether a column option goes.
pub open spec fn unwanted(opt: Tree, which: Unwanted) -> bool {
    match which {
        Unwanted::Numbering => auto_increment(opt) || is_option(opt, "Default"@),
        Unwanted::Default => is_option(opt, "Default"@),
        Unwanted::MysqlOnly => is_option(opt, "CharacterSet"@) || is_option(opt, "Collation"@)
            || is_option(opt, "Comment"@) || is_option(opt, "OnUpdate"@),
    }
}

/// The options that stay, in their order.
pub open spec fn wanted(opts: Seq<Tree>, which: Unwanted) -> Seq<Tree>
    decreases opts.len(),
{
    if opts.len() == 0 {
        seq![]
    } else if unwanted(opts.last(), which) {
        wanted(opts.drop_last(), which)
    } else {
        wanted(opts.drop_last(), which).push(opts.last())
    }
}

fn has_option(opt: &Value, kind: &str) -> (r: bool)
    ensures
        r == is_option(syntax::tree(*opt), kind@),
{
    match get(opt, "option") {
        Some(o) => get(o, kind).is_some(),
        None => false,
    }
}

/// Whether a column option is `AUTO_INCREMENT`.
pub fn is_auto_increment(opt: &Value) -> (r: bool)
    ensures
        r == auto_increment(syntax::tree(*opt)),
{
    let tokens = items(&field(&field(opt, "option"), "DialectSpecific"));
    if tokens.len() != 1 {
        return false;
    }
    proof {
        assert(syntax::trees(tokens@)[0] == syntax::tree(tokens@[0]));
    }
    match get(&tokens[0], "Word") {
        Some(w) => same(read_value(w).as_str(), "AUTO_INCREMENT"),
        None => false,
    }
}

fn is_unwanted(opt: &Value, which: Unwanted) -> (r: bool)
    ensures
        r == unwanted(syntax::tree(*opt), which),
{
    match which {
        Unwanted::Numbering => is_auto_increment(opt) || has_option(opt, "Default"),
        Unwanted::Default => has_option(opt, "Default"),
        Unwanted::MysqlOnly => has_option(opt, "CharacterSet") || has_option(opt, "Collation")
            || has_option(opt, "Comment") || has_option(opt, "OnUpdate"),
    }
}

fn retain(opts: Vec<Value>, which: Unwanted) -> (r: Vec<Value>)
    ensures
        syntax::trees(r@) == wanted(syntax::trees(opts@), which),
{
    let ghost ts = syntax::trees(opts@);
    let mut out: Vec<Value> = Vec::new();
    proof {
        assert(ts.take(0) =~= seq![]);
        assert(syntax::trees(out@) =~= seq![]);
    }
    for opt in it: opts
        invariant
            ts == syntax::trees(it.seq()),
            syntax::trees(out@) == wanted(ts.take(it.index() as int), which),
    {
        proof {
            let i = it.index() as int;
            assert(ts.take(i + 1).drop_last() =~= ts.take(i));
            assert(ts.take(i + 1).last() == syntax::tree(opt));
        }
        if !is_unwanted(&opt, which) {
            let ghost held = out@;
            out.push(opt);
            proof {
                assert(syntax::trees(out@) =~= syntax::trees(held).push(syntax::tree(opt)));
            }
        }
    }
    proof {
        assert(ts.take(ts.len() as int) =~= ts);
    }
    out
}

/// Whether one of the options is of the given kind.
pub open spec fn any_option(opts: Seq<Tree>, kind: Seq<char>) -> bool {
    exists|i: int| 0 <= i < opts.len() && #[trigger] is_option(opts[i], kind)
}

/// Whether one of the options is `AUTO_INCREMENT`.
pub open spec fn any_auto_increment(opts: Seq<Tree>) -> bool {
    exists|i: int| 0 <= i < opts.len() && #[trigger] auto_increment(opts[i])
}

fn has_any(opts: &Vec<Value>, kind: &str) -> (r: bool)
    ensures
        r == any_option(syntax::trees(opts@), kind@),
{
    let ghost ts = syntax::trees(opts@);
    let mut i: usize = 0;
    while i < opts.len()
        invariant
            i <= opts@.len(),
            ts == syntax::trees(opts@),
            forall|j: int| 0 <= j < i ==> !#[trigger] is_option(ts[j], kind@),
        decreases opts@.len() - i,
    {
        if has_option(&opts[i], kind) {
            proof {
                assert(is_option(ts[i as int], kind@));
            }
            return true;
        }
        i += 1;
    }
    false
}

fn has_auto_increment(opts: &Vec<Value>) -> (r: bool)
    ensures
        r == any_auto_increment(syntax::trees(opts@)),
{
    let ghost ts = syntax::trees(opts@);
    let mut i: usize = 0;
    while i < opts.len()
        invariant
            i <= opts@.len(),
            ts == syntax::trees(opts@),
            forall|j: int| 0 <= j < i ==> !#[trigger] auto_increment(ts[j]),
        decreases opts@.len() - i,
    {
        if is_auto_increment(&opts[i]) {
            proof {
                assert(auto_increment(ts[i as int]));
            }
            return true;
        }
        i += 1;
    }
    false
}

/// An option with its default recast; one that goes stays as it is.
pub open spec fn recast_option(opt: Tree, ty: Tree, bit_width: Option<u64>) -> Tree {
    let option = token::field(opt, "option"@);
    match syntax::member(option, "Default"@) {
        Some(expr) => match new_default(expr, ty, bit_width) {
            Some(e) => syntax::with_member(
                opt,
                "option"@,
                syntax::with_member(option, "Default"@, e),
            ),
            None => opt,
        },
        None => opt,
    }
}

/// Whether an option is a default that the column's type has no value for.
pub open spec fn invalid_default(opt: Tree, ty: Tree, bit_width: Option<u64>) -> bool {
    match syntax::member(token::field(opt, "option"@), "Default"@) {
        Some(expr) => new_default(expr, ty, bit_width) is None,
        None => false,
    }
}

/// Whether one of the options is such a default.
pub open spec fn any_invalid_default(opts: Seq<Tree>, ty: Tree, bit_width: Option<u64>) -> bool {
    exists|i: int| 0 <= i < opts.len() && #[trigger] invalid_default(opts[i], ty, bit_width)
}

/// The report on a default that went.
pub open spec fn default_report(column: Seq<char>) -> diagnostic::DiagnosticView {
    types::warning(
        LintRule::MysqlInvalidDefaultDropped,
        "DEFAULT dropped: the MySQL default is invalid for the DSQL column type."@,
        "Column `"@ + column
            + "`: the DEFAULT was removed because it cannot be represented in the translated DSQL type (e.g. a zero-date, or a non-0/1 boolean). Set an explicit default or handle it in application code."@,
    )
}

/// The options of a column of the given type with its default recast, or without it where the
/// type has no such value, and the report on that.
pub open spec fn recast_options(
    opts: Seq<Tree>,
    ty: Tree,
    bit_width: Option<u64>,
    column: Seq<char>,
) -> (Seq<Tree>, Seq<diagnostic::DiagnosticView>) {
    let recast = opts.map_values(|opt: Tree| recast_option(opt, ty, bit_width));
    if any_invalid_default(opts, ty, bit_width) {
        (wanted(recast, Unwanted::Default), seq![default_report(column)])
    } else {
        (recast, seq![])
    }
}

fn default_warning(col_name: &str) -> (r: Diagnostic)
    ensures
        r@ == default_report(col_name@),
{
    let mut detail = "Column `".to_owned();
    detail.append(col_name);
    detail.append(
        "`: the DEFAULT was removed because it cannot be represented in the translated DSQL type (e.g. a zero-date, or a non-0/1 boolean). Set an explicit default or handle it in application code.",
    );
    warn(
        LintRule::MysqlInvalidDefaultDropped,
        "DEFAULT dropped: the MySQL default is invalid for the DSQL column type.",
        detail,
    )
}

/// Recasts the default of a column after its type was translated: PostgreSQL holds a default
/// against the type when the table is made, MySQL does not.
pub fn normalize_default(
    opts: Vec<Value>,
    ty: &Value,
    col_name: &str,
    bit_width: Option<u64>,
    diags: &mut Vec<Diagnostic>,
) -> (r: Vec<Value>)
    requires
        bit_width matches Some(w) ==> w <= 64,
    ensures
        ({
            let after = recast_options(
                syntax::trees(opts@),
                syntax::tree(*ty),
                bit_width,
                col_name@,
            );
            &&& syntax::trees(r@) == after.0
            &&& diagnostic::reports(final(diags)@) == diagnostic::reports(old(diags)@) + after.1
        }),
{
    let ghost said = diagnostic::reports(diags@);
    let ghost ts = syntax::trees(opts@);
    let ghost t = syntax::tree(*ty);
    let mut out: Vec<Value> = Vec::new();
    let mut drop_default = false;
    for opt in it: opts
        invariant
            ts == syntax::trees(it.seq()),
            t == syntax::tree(*ty),
            bit_width matches Some(w) ==> w <= 64,
            out@.len() == it.index(),
            forall|j: int|
                0 <= j < out@.len() ==> syntax::tree(#[trigger] out@[j]) == recast_option(
                    ts[j],
                    t,
                    bit_width,
                ),
            drop_default == exists|j: int|
                0 <= j < it.index() && #[trigger] invalid_default(ts[j], t, bit_width),
    {
        let ghost i = it.index() as int;
        proof {
            assert(ts[i] == syntax::tree(opt));
        }
        let mut o = opt;
        let mut option = field(&o, "option");
        let default = match get(&option, "Default") {
            Some(expr) => Some(copy(expr)),
            None => None,
        };
        match default {
            Some(expr) => match recast_default(&expr, ty, bit_width) {
                Some(e) => {
                    put(&mut option, "Default", e);
                    put(&mut o, "option", option);
                    proof {
                        assert(!invalid_default(ts[i], t, bit_width));
                    }
                },
                None => {
                    proof {
                        assert(invalid_default(ts[i], t, bit_width));
                    }
                    drop_default = true;
                },
            },
            None => {
                proof {
                    assert(!invalid_default(ts[i], t, bit_width));
                }
            },
        }
        out.push(o);
    }
    proof {
        assert(said + seq![] =~= said);
        assert(syntax::trees(out@) =~= ts.map_values(
            |opt: Tree| recast_option(opt, t, bit_width),
        ));
    }
    if drop_default {
        let report = default_warning(col_name);
        diags.push(report);
        proof {
            assert(diagnostic::reports(diags@) =~= said + seq![report@]);
        }
        retain(out, Unwanted::Default)
    } else {
        out
    }
}

/// The report on `ON UPDATE` that went.
pub open spec fn update_report(column: Seq<char>) -> diagnostic::DiagnosticView {
    types::warning(
        LintRule::MysqlOnUpdateDropped,
        "ON UPDATE CURRENT_TIMESTAMP dropped (no DSQL equivalent)."@,
        "Column `"@ + column
            + "`: ON UPDATE CURRENT_TIMESTAMP was removed (DEFAULT CURRENT_TIMESTAMP kept). The column no longer auto-updates on write — replicate that in application code."@,
    )
}

/// The report on the options that go, one where `ON UPDATE` is among them.
pub open spec fn strip_reports(opts: Seq<Tree>, column: Seq<char>) -> Seq<
    diagnostic::DiagnosticView,
> {
    if any_option(opts, "OnUpdate"@) {
        seq![update_report(column)]
    } else {
        seq![]
    }
}

/// Takes away the options that only MySQL knows.
pub fn strip_mysql_column_options(
    opts: Vec<Value>,
    col_name: &str,
    diags: &mut Vec<Diagnostic>,
) -> (r: Vec<Value>)
    ensures
        syntax::trees(r@) == wanted(syntax::trees(opts@), Unwanted::MysqlOnly),
        diagnostic::reports(final(diags)@) == diagnostic::reports(old(diags)@) + strip_reports(
            syntax::trees(opts@),
            col_name@,
        ),
{
    let ghost said = diagnostic::reports(diags@);
    proof {
        assert(said + seq![] =~= said);
    }
    if has_any(&opts, "OnUpdate") {
        let mut detail = "Column `".to_owned();
        detail.append(col_name);
        detail.append(
            "`: ON UPDATE CURRENT_TIMESTAMP was removed (DEFAULT CURRENT_TIMESTAMP kept). The column no longer auto-updates on write — replicate that in application code.",
        );
        let report = warn(
            LintRule::MysqlOnUpdateDropped,
            "ON UPDATE CURRENT_TIMESTAMP dropped (no DSQL equivalent).",
            detail,
        );
        diags.push(report);
        proof {
            assert(diagnostic::reports(diags@) =~= said + seq![report@]);
        }
    }
    retain(opts, Unwanted::MysqlOnly)
}

/// An option with the expression in it requoted.
pub open spec fn requoted_option(opt: Tree) -> Tree {
    let option = token::field(opt, "option"@);
    match syntax::member(option, "Default"@) {
        Some(expr) => syntax::with_member(
            opt,
            "option"@,
            syntax::with_member(option, "Default"@, syntax::requoted(expr)),
        ),
        None => match syntax::member(option, "Generated"@) {
            Some(g) => if token::field(g, "generation_expr"@) is Null {
                opt
            } else {
                syntax::with_member(
                    opt,
                    "option"@,
                    syntax::with_member(
                        option,
                        "Generated"@,
                        syntax::with_member(
                            g,
                            "generation_expr"@,
                            syntax::requoted(token::field(g, "generation_expr"@)),
                        ),
                    ),
                )
            },
            None => opt,
        },
    }
}

fn unquote_option(opt: &Value) -> (r: Value)
    ensures
        syntax::tree(r) == requoted_option(syntax::tree(*opt)),
{
    let mut option = field(opt, "option");
    let mut out = copy(opt);
    let default = match get(&option, "Default") {
        Some(expr) => Some(requote(expr)),
        None => None,
    };
    if let Some(e) = default {
        put(&mut option, "Default", e);
        put(&mut out, "option", option);
        return out;
    }
    let generated = match get(&option, "Generated") {
        Some(g) => copy(g),
        None => {
            return out;
        },
    };
    let mut g = generated;
    let expr = field(&g, "generation_expr");
    if is_null(&expr) {
        return out;
    }
    put(&mut g, "generation_expr", requote(&expr));
    put(&mut option, "Generated", g);
    put(&mut out, "option", option);
    out
}

/// Takes the backticks off the expressions in a column's options.
pub fn unquote_column_option_exprs(opts: Vec<Value>) -> (r: Vec<Value>)
    ensures
        syntax::trees(r@) == syntax::trees(opts@).map_values(|o: Tree| requoted_option(o)),
{
    let ghost ts = syntax::trees(opts@);
    let mut out: Vec<Value> = Vec::new();
    for opt in it: opts
        invariant
            ts == syntax::trees(it.seq()),
            out@.len() == it.index(),
            forall|j: int|
                0 <= j < out@.len() ==> syntax::tree(#[trigger] out@[j]) == requoted_option(ts[j]),
    {
        proof {
            assert(ts[it.index() as int] == syntax::tree(opt));
        }
        out.push(unquote_option(&opt));
    }
    proof {
        assert(syntax::trees(out@) =~= ts.map_values(|o: Tree| requoted_option(o)));
    }
    out
}

/// The state of a table's `AUTO_INCREMENT=<n>` option.
#[derive(Clone, Copy, PartialEq, Eq, Structural)]
pub enum AutoIncrement {
    /// There is none.
    Absent,
    /// A number to start with.
    Seed(i64),
    /// One that is no number of a `BIGINT` column.
    Unusable,
}

/// What one table option says of the number to start with; `None` where it is another option.
pub open spec fn seed_in(opt: Tree) -> Option<AutoIncrement> {
    match syntax::member(opt, "KeyValue"@) {
        Some(kv) => match literal_in(token::field(kv, "value"@)) {
            Some(value) => match number_text(value) {
                Some(n) => if text::same_word(
                    token::text_in(token::field(kv, "key"@), "value"@),
                    "AUTO_INCREMENT"@,
                ) {
                    match literal::signed(n) {
                        Some(seed) => Some(AutoIncrement::Seed(seed)),
                        None => Some(AutoIncrement::Unusable),
                    }
                } else {
                    None
                },
                None => None,
            },
            None => None,
        },
        None => None,
    }
}

/// What the first of the options from `at` on that says it says of the number to start with.
pub open spec fn first_seed(opts: Seq<Tree>, at: int) -> AutoIncrement
    decreases opts.len() - at,
{
    if !(0 <= at < opts.len()) {
        AutoIncrement::Absent
    } else {
        match seed_in(opts[at]) {
            Some(seed) => seed,
            None => first_seed(opts, at + 1),
        }
    }
}

/// The state of a table's `AUTO_INCREMENT=<n>` option.
pub open spec fn seed_of(table_options: Tree) -> AutoIncrement {
    match syntax::member(table_options, "Plain"@) {
        Some(opts) => first_seed(name_match::items_of(opts), 0),
        None => first_seed(name_match::items_of(token::field(table_options, "With"@)), 0),
    }
}

fn read_seed(opt: &Value) -> (r: Option<AutoIncrement>)
    ensures
        r == seed_in(syntax::tree(*opt)),
{
    let kv = match get(opt, "KeyValue") {
        Some(kv) => kv,
        None => {
            return None;
        },
    };
    let value = match read_literal(&field(kv, "value")) {
        Some(value) => value,
        None => {
            return None;
        },
    };
    match read_number_text(&value) {
        Some(n) => {
            let key = read_value(&field(kv, "key"));
            if eq_ignore_case(key.as_str(), "AUTO_INCREMENT") {
                match parse_signed(n.as_str()) {
                    Some(seed) => Some(AutoIncrement::Seed(seed)),
                    None => Some(AutoIncrement::Unusable),
                }
            } else {
                None
            }
        },
        None => None,
    }
}

/// The state of a table's `AUTO_INCREMENT=<n>` option.
pub fn auto_increment_seed(options: &Value) -> (r: AutoIncrement)
    ensures
        r == seed_of(syntax::tree(*options)),
{
    let opts = match get(options, "Plain") {
        Some(o) => items(o),
        None => items(&field(options, "With")),
    };
    let ghost ts = syntax::trees(opts@);
    let mut i: usize = 0;
    while i < opts.len()
        invariant
            i <= opts@.len(),
            ts == syntax::trees(opts@),
            seed_of(syntax::tree(*options)) == first_seed(ts, 0),
            first_seed(ts, 0) == first_seed(ts, i as int),
        decreases opts@.len() - i,
    {
        proof {
            assert(ts[i as int] == syntax::tree(opts@[i as int]));
        }
        if let Some(seed) = read_seed(&opts[i]) {
            return seed;
        }
        i += 1;
    }
    AutoIncrement::Absent
}

/// A signed number in decimal digits.
pub open spec fn signed_decimal(n: i64) -> Seq<char> {
    if n < 0 {
        "-"@ + text::decimal((-n) as nat)
    } else {
        text::decimal(n as nat)
    }
}

/// The unsigned number with the bits of a signed one.
pub open spec fn as_unsigned(n: i64) -> nat {
    if n < 0 {
        (n + 0x1_0000_0000_0000_0000) as nat
    } else {
        n as nat
    }
}

fn signed_text(n: i64) -> (r: String)
    ensures
        r@ == signed_decimal(n),
{
    if n < 0 {
        let mut out = "-".to_owned();
        let size: u64 = (-(n as i128)) as u64;
        out.append(decimal_text(size).as_str());
        out
    } else {
        decimal_text(n as u64)
    }
}

fn unsigned_text(n: i64) -> (r: String)
    ensures
        r@ == text::decimal(as_unsigned(n)),
{
    let wide: i128 = if n < 0 {
        n as i128 + 0x1_0000_0000_0000_0000
    } else {
        n as i128
    };
    decimal_text(wide as u64)
}

/// What a report says of the number that an identity column starts with.
pub open spec fn numbering_detail(column: Seq<char>, seed: AutoIncrement) -> Seq<char> {
    let head = "Column `"@ + column
        + "`: AUTO_INCREMENT became BIGINT GENERATED BY DEFAULT AS IDENTITY (CACHE 65536"@;
    match seed {
        AutoIncrement::Seed(n) => head + " START WITH "@ + signed_decimal(n)
            + "), seeded from the dump's AUTO_INCREMENT="@ + signed_decimal(n)
            + ". Verify the seed is past your largest existing id before relying on new inserts."@,
        AutoIncrement::Absent => head
            + "). The dump carried no AUTO_INCREMENT seed, so the sequence starts at 1 — after loading existing rows, reset it (ALTER TABLE ... ALTER COLUMN ... RESTART WITH N) or new inserts may collide with existing ids."@,
        AutoIncrement::Unusable => head
            + "). The dump's AUTO_INCREMENT seed exceeds a 64-bit integer and was dropped, so the sequence starts at 1 — after loading existing rows, reset it (ALTER TABLE ... ALTER COLUMN ... RESTART WITH N) or new inserts may collide with existing ids."@,
    }
}

/// The report on a column whose numbers an identity gives.
pub open spec fn numbering_report(
    column: Seq<char>,
    seed: AutoIncrement,
) -> diagnostic::DiagnosticView {
    types::warning(
        LintRule::MysqlAutoIncrementToIdentity,
        "AUTO_INCREMENT translated to a DSQL identity column."@,
        numbering_detail(column, seed),
    )
}

/// The identity that stands for `AUTO_INCREMENT`.
pub open spec fn numbering(seed: AutoIncrement) -> Tree {
    shapes::identity(
        "65536"@,
        match seed {
            AutoIncrement::Seed(n) => Some(text::decimal(as_unsigned(n))),
            _ => None,
        },
    )
}

/// Puts an identity in the place of `AUTO_INCREMENT`, in a `BIGINT` column.
pub fn normalize_auto_increment(
    opts: Vec<Value>,
    col_name: &str,
    seed: AutoIncrement,
    diags: &mut Vec<Diagnostic>,
) -> (r: Vec<Value>)
    ensures
        syntax::trees(r@) == wanted(syntax::trees(opts@), Unwanted::Numbering).push(
            numbering(seed),
        ),
        diagnostic::reports(final(diags)@) == diagnostic::reports(old(diags)@).push(
            numbering_report(col_name@, seed),
        ),
{
    let mut out = retain(opts, Unwanted::Numbering);
    let mut detail = "Column `".to_owned();
    detail.append(col_name);
    detail.append(
        "`: AUTO_INCREMENT became BIGINT GENERATED BY DEFAULT AS IDENTITY (CACHE 65536",
    );
    let identity = match seed {
        AutoIncrement::Seed(n) => {
            let shown = signed_text(n);
            detail.append(" START WITH ");
            detail.append(shown.as_str());
            detail.append("), seeded from the dump's AUTO_INCREMENT=");
            detail.append(shown.as_str());
            detail.append(
                ". Verify the seed is past your largest existing id before relying on new inserts.",
            );
            make_identity("65536", Some(unsigned_text(n).as_str()))
        },
        AutoIncrement::Absent => {
            detail.append(
                "). The dump carried no AUTO_INCREMENT seed, so the sequence starts at 1 — after loading existing rows, reset it (ALTER TABLE ... ALTER COLUMN ... RESTART WITH N) or new inserts may collide with existing ids.",
            );
            make_identity("65536", None)
        },
        AutoIncrement::Unusable => {
            detail.append(
                "). The dump's AUTO_INCREMENT seed exceeds a 64-bit integer and was dropped, so the sequence starts at 1 — after loading existing rows, reset it (ALTER TABLE ... ALTER COLUMN ... RESTART WITH N) or new inserts may collide with existing ids.",
            );
            make_identity("65536", None)
        },
    };
    let report = warn(
        LintRule::MysqlAutoIncrementToIdentity,
        "AUTO_INCREMENT translated to a DSQL identity column.",
        detail,
    );
    let ghost said = diags@;
    diags.push(report);
    let ghost held = out@;
    out.push(identity);
    proof {
        assert(diagnostic::reports(diags@) =~= diagnostic::reports(said).push(report@));
        assert(syntax::trees(out@) =~= syntax::trees(held).push(syntax::tree(identity)));
    }
    out
}

/// The number of bits of a column; MySQL has no more than 64.
pub open spec fn bit_width_of(ty: Tree) -> Option<u64> {
    match syntax::member(ty, "Bit"@) {
        Some(Tree::Number(_, Some(w))) => Some(
            if w < 64 {
                w
            } else {
                64
            },
        ),
        _ => None,
    }
}

/// The type and the options of a column after its numbering or its type was translated.
pub open spec fn retyped(ty: Tree, opts: Seq<Tree>, column: Seq<char>, seed: AutoIncrement) -> (
    Tree,
    Seq<Tree>,
    Seq<diagnostic::DiagnosticView>,
) {
    if any_auto_increment(opts) {
        (
            types::bare("BigInt"@),
            wanted(opts, Unwanted::Numbering).push(numbering(seed)),
            seq![numbering_report(column, seed)],
        )
    } else {
        let typed = types::translated_type(ty, column);
        (typed.0, opts, typed.1)
    }
}

/// A column of MySQL as one of DSQL, and the reports on what it loses.
pub open spec fn translated_column(col: Tree, seed: AutoIncrement) -> (
    Tree,
    Seq<diagnostic::DiagnosticView>,
) {
    let column = token::text_in(token::field(col, "name"@), "value"@);
    let old_type = token::field(col, "data_type"@);
    let opts = name_match::items_of(token::field(col, "options"@));
    let (ty, kept, first) = retyped(old_type, opts, column, seed);
    let (recast, second) = recast_options(kept, ty, bit_width_of(old_type), column);
    let stripped = wanted(recast, Unwanted::MysqlOnly);
    let named = syntax::with_member(
        col,
        "name"@,
        quoting::unquoted(token::field(col, "name"@)),
    );
    let typed = syntax::with_member(named, "data_type"@, ty);
    (
        syntax::with_member(
            typed,
            "options"@,
            Tree::List(stripped.map_values(|o: Tree| requoted_option(o))),
        ),
        first + second + strip_reports(recast, column),
    )
}

fn read_bit_width(ty: &Value) -> (r: Option<u64>)
    ensures
        r == bit_width_of(syntax::tree(*ty)),
{
    match get(ty, "Bit") {
        Some(v) => match as_number(v) {
            Some(w) => Some(
                if w < 64 {
                    w
                } else {
                    64
                },
            ),
            None => None,
        },
        None => None,
    }
}

/// Translates a column.
pub fn normalize_column(
    col: &Value,
    seed: AutoIncrement,
    diags: &mut Vec<Diagnostic>,
) -> (r: Value)
    ensures
        ({
            let after = translated_column(syntax::tree(*col), seed);
            &&& syntax::tree(r) == after.0
            &&& diagnostic::reports(final(diags)@) == diagnostic::reports(old(diags)@) + after.1
        }),
{
    let ghost said = diagnostic::reports(diags@);
    let column = read_plain_name(col);
    let mut name = field(col, "name");
    unquote_ident(&mut name);
    let mut ty = field(col, "data_type");
    let bit_width = read_bit_width(&ty);
    let mut opts = items(&field(col, "options"));
    if has_auto_increment(&opts) {
        opts = normalize_auto_increment(opts, column.as_str(), seed, diags);
        ty = one("BigInt", null());
    } else {
        normalize_data_type(&mut ty, column.as_str(), diags);
    }
    proof {
        let first = retyped(
            token::field(syntax::tree(*col), "data_type"@),
            name_match::items_of(token::field(syntax::tree(*col), "options"@)),
            column@,
            seed,
        ).2;
        assert(diagnostic::reports(diags@) =~= said + first);
    }
    opts = normalize_default(opts, &ty, column.as_str(), bit_width, diags);
    opts = strip_mysql_column_options(opts, column.as_str(), diags);
    opts = unquote_column_option_exprs(opts);
    let mut out = copy(col);
    put(&mut out, "name", name);
    put(&mut out, "data_type", ty);
    put(&mut out, "options", list(opts));
    proof {
        assert(diagnostic::reports(diags@) =~= said + translated_column(
            syntax::tree(*col),
            seed,
        ).1);
    }
    out
}

/// A column with `AUTO_INCREMENT` becomes an identity column: it is a `BIGINT`, and no default
/// is left among its options.
pub proof fn law_numbered_columns_have_no_default(
    ty: Tree,
    opts: Seq<Tree>,
    column: Seq<char>,
    seed: AutoIncrement,
)
    requires
        any_auto_increment(opts),
    ensures
        retyped(ty, opts, column, seed).0 == types::bare("BigInt"@),
        forall|i: int|
            0 <= i < wanted(opts, Unwanted::Numbering).len() ==> !is_option(
                #[trigger] wanted(opts, Unwanted::Numbering)[i],
                "Default"@,
            ),
{
    lemma_wanted(opts, Unwanted::Numbering);
}

proof fn lemma_wanted(opts: Seq<Tree>, which: Unwanted)
    ensures
        forall|i: int|
            0 <= i < wanted(opts, which).len() ==> !unwanted(#[trigger] wanted(opts, which)[i], which),
    decreases opts.len(),
{
    if opts.len() > 0 {
        let before = wanted(opts.drop_last(), which);
        lemma_wanted(opts.drop_last(), which);
        assert forall|i: int| 0 <= i < wanted(opts, which).len() implies !unwanted(
            #[trigger] wanted(opts, which)[i],
            which,
        ) by {
            if i < before.len() {
                assert(!unwanted(before[i], which));
            }
        }
    }
}

/// No option that only MySQL knows is left in a translated column.
pub proof fn law_mysql_options_go(opts: Seq<Tree>)
    ensures
        forall|i: int|
            0 <= i < wanted(opts, Unwanted::MysqlOnly).len() ==> !unwanted(
                #[trigger] wanted(opts, Unwanted::MysqlOnly)[i],
                Unwanted::MysqlOnly,
            ),
{
    lemma_wanted(opts, Unwanted::MysqlOnly);
}

} // verus!
