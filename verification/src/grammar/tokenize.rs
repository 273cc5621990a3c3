//! SQL tokens as terminals of the grammar.

use serde_json::Value;
use vstd::prelude::*;

use crate::mysql::column;
use crate::shapes::field;
use crate::syntax::{self, as_flag, as_list, as_text, get, is_null, Tree};
use crate::text::{self, chars_of, same, to_upper};
use crate::token;
use crate::transactions::{self, has_kind};

verus! {

/// What a token is to the grammar.
#[derive(Debug, Clone, PartialEq, Eq)]
pub enum Terminal {
    /// A keyword, in upper case.
    Keyword(String),
    /// Punctuation, as it is written.
    Punct(&'static str),
    /// A class of lexemes, by its name.
    CharClass(&'static str),
    /// Nothing: white space and the end of the text.
    Skip,
}

/// The model of a [`Terminal`].
pub ghost enum TerminalModel {
    Keyword(Seq<char>),
    Punct(Seq<char>),
    CharClass(Seq<char>),
    Skip,
}

impl View for Terminal {
    type V = TerminalModel;

    open spec fn view(&self) -> TerminalModel {
        match *self {
            Terminal::Keyword(s) => TerminalModel::Keyword(s@),
            Terminal::Punct(s) => TerminalModel::Punct(s@),
            Terminal::CharClass(s) => TerminalModel::CharClass(s@),
            Terminal::Skip => TerminalModel::Skip,
        }
    }
}

/// The punctuation that a token is.
pub open spec fn punctuation(t: Tree) -> Option<Seq<char>> {
    if t == Tree::Text("Comma"@) {
        Some(","@)
    } else if t == Tree::Text("Period"@) {
        Some("."@)
    } else if t == Tree::Text("Mul"@) {
        Some("*"@)
    } else if t == Tree::Text("Plus"@) {
        Some("+"@)
    } else if t == Tree::Text("Minus"@) {
        Some("-"@)
    } else if t == Tree::Text("Div"@) {
        Some("/"@)
    } else if t == Tree::Text("Mod"@) {
        Some("%"@)
    } else if t == Tree::Text("Caret"@) {
        Some("^"@)
    } else if t == Tree::Text("LParen"@) {
        Some("("@)
    } else if t == Tree::Text("RParen"@) {
        Some(")"@)
    } else if t == Tree::Text("LBracket"@) {
        Some("["@)
    } else if t == Tree::Text("RBracket"@) {
        Some("]"@)
    } else if t == Tree::Text("Colon"@) {
        Some(":"@)
    } else if t == Tree::Text("DoubleColon"@) {
        Some("::"@)
    } else if t == Tree::Text("Assignment"@) {
        Some(":="@)
    } else if t == Tree::Text("Eq"@) {
        Some("="@)
    } else if t == Tree::Text("Lt"@) {
        Some("<"@)
    } else if t == Tree::Text("Gt"@) {
        Some(">"@)
    } else if t == Tree::Text("LtEq"@) {
        Some("<="@)
    } else if t == Tree::Text("GtEq"@) {
        Some(">="@)
    } else if t == Tree::Text("Neq"@) {
        Some("<>"@)
    } else if t == Tree::Text("RArrow"@) {
        Some("=>"@)
    } else if t == Tree::Text("SemiColon"@) {
        Some(";"@)
    } else {
        None
    }
}

/// Whether a token is a string constant.
pub open spec fn is_string(t: Tree) -> bool {
    ||| transactions::is_kind(t, "Char"@)
    ||| transactions::is_kind(t, "SingleQuotedString"@)
    ||| transactions::is_kind(t, "TripleSingleQuotedString"@)
    ||| transactions::is_kind(t, "DollarQuotedString"@)
    ||| transactions::is_kind(t, "SingleQuotedRawStringLiteral"@)
    ||| transactions::is_kind(t, "DoubleQuotedRawStringLiteral"@)
    ||| transactions::is_kind(t, "TripleSingleQuotedRawStringLiteral"@)
    ||| transactions::is_kind(t, "TripleDoubleQuotedRawStringLiteral"@)
    ||| transactions::is_kind(t, "NationalStringLiteral"@)
    ||| transactions::is_kind(t, "QuoteDelimitedStringLiteral"@)
    ||| transactions::is_kind(t, "NationalQuoteDelimitedStringLiteral"@)
    ||| transactions::is_kind(t, "EscapedStringLiteral"@)
    ||| transactions::is_kind(t, "UnicodeStringLiteral"@)
}

/// Whether a token is a bit-string constant.
pub open spec fn is_bits(t: Tree) -> bool {
    ||| transactions::is_kind(t, "SingleQuotedByteStringLiteral"@)
    ||| transactions::is_kind(t, "DoubleQuotedByteStringLiteral"@)
    ||| transactions::is_kind(t, "TripleSingleQuotedByteStringLiteral"@)
    ||| transactions::is_kind(t, "TripleDoubleQuotedByteStringLiteral"@)
}

/// Whether a token is an identifier in quotes.
pub open spec fn is_quoted_name(t: Tree) -> bool {
    ||| transactions::is_kind(t, "DoubleQuotedString"@)
    ||| transactions::is_kind(t, "TripleDoubleQuotedString"@)
}

/// Whether the digits of a number hold a point or an exponent.
pub open spec fn has_fraction(digits: Seq<char>) -> bool {
    exists|i: int|
        0 <= i < digits.len() && (#[trigger] digits[i] == '.' || digits[i] == 'e' || digits[i]
            == 'E')
}

/// Whether a number is marked as a long one.
pub open spec fn is_long(number: Tree) -> bool {
    match number {
        Tree::List(parts) => parts.len() > 1 && parts[1] == Tree::Flag(true),
        _ => false,
    }
}

/// What a number is to the grammar.
pub open spec fn number_class(t: Tree) -> Seq<char> {
    let digits = match column::number_text(t) {
        Some(s) => s,
        None => seq![],
    };
    if is_long(token::field(t, "Number"@)) || !has_fraction(digits) {
        "ICONST"@
    } else {
        "FCONST"@
    }
}

/// What a word is to the grammar. A word in quotes is an identifier, whatever it spells.
pub open spec fn word_terminal(word: Tree) -> TerminalModel {
    if !(token::field(word, "quote_style"@) is Null) || token::text_in(word, "keyword"@)
        == "NoKeyword"@ {
        TerminalModel::CharClass("IDENT"@)
    } else {
        TerminalModel::Keyword(text::uppered(token::text_in(word, "value"@)))
    }
}

/// What a token is to the grammar. An operator that is no punctuation is one of the class `Op`.
pub open spec fn terminal_of(t: Tree) -> TerminalModel {
    if t == Tree::Text("EOF"@) || syntax::member(t, "Whitespace"@) is Some {
        TerminalModel::Skip
    } else {
        match syntax::member(t, "Word"@) {
            Some(word) => word_terminal(word),
            None => if syntax::member(t, "Number"@) is Some {
                TerminalModel::CharClass(number_class(t))
            } else if is_string(t) {
                TerminalModel::CharClass("SCONST"@)
            } else if is_quoted_name(t) {
                TerminalModel::CharClass("IDENT"@)
            } else if is_bits(t) {
                TerminalModel::CharClass("BCONST"@)
            } else if transactions::is_kind(t, "HexStringLiteral"@) {
                TerminalModel::CharClass("XCONST"@)
            } else if transactions::is_kind(t, "Placeholder"@) {
                TerminalModel::CharClass("PARAM"@)
            } else {
                match punctuation(t) {
                    Some(p) => TerminalModel::Punct(p),
                    None => TerminalModel::CharClass("Op"@),
                }
            },
        }
    }
}

fn is_string_token(tok: &Value) -> (r: bool)
    ensures
        r == is_string(syntax::tree(*tok)),
{
    has_kind(tok, "Char")
        || has_kind(tok, "SingleQuotedString")
        || has_kind(tok, "TripleSingleQuotedString")
        || has_kind(tok, "DollarQuotedString")
        || has_kind(tok, "SingleQuotedRawStringLiteral")
        || has_kind(tok, "DoubleQuotedRawStringLiteral")
        || has_kind(tok, "TripleSingleQuotedRawStringLiteral")
        || has_kind(tok, "TripleDoubleQuotedRawStringLiteral")
        || has_kind(tok, "NationalStringLiteral")
        || has_kind(tok, "QuoteDelimitedStringLiteral")
        || has_kind(tok, "NationalQuoteDelimitedStringLiteral")
        || has_kind(tok, "EscapedStringLiteral")
        || has_kind(tok, "UnicodeStringLiteral")
}

fn is_bits_token(tok: &Value) -> (r: bool)
    ensures
        r == is_bits(syntax::tree(*tok)),
{
    has_kind(tok, "SingleQuotedByteStringLiteral")
        || has_kind(tok, "DoubleQuotedByteStringLiteral")
        || has_kind(tok, "TripleSingleQuotedByteStringLiteral")
        || has_kind(tok, "TripleDoubleQuotedByteStringLiteral")
}

fn is_quoted_token(tok: &Value) -> (r: bool)
    ensures
        r == is_quoted_name(syntax::tree(*tok)),
{
    has_kind(tok, "DoubleQuotedString")
        || has_kind(tok, "TripleDoubleQuotedString")
}

fn read_punctuation(tok: &Value) -> (r: Option<&'static str>)
    ensures
        match (r, punctuation(syntax::tree(*tok))) {
            (Some(s), Some(p)) => s@ == p,
            (None, None) => true,
            _ => false,
        },
{
    let name = match as_text(tok) {
        Some(name) => name,
        None => {
            return None;
        },
    };
    if same(name, "Comma") {
        Some(",")
    } else if same(name, "Period") {
        Some(".")
    } else if same(name, "Mul") {
        Some("*")
    } else if same(name, "Plus") {
        Some("+")
    } else if same(name, "Minus") {
        Some("-")
    } else if same(name, "Div") {
        Some("/")
    } else if same(name, "Mod") {
        Some("%")
    } else if same(name, "Caret") {
        Some("^")
    } else if same(name, "LParen") {
        Some("(")
    } else if same(name, "RParen") {
        Some(")")
    } else if same(name, "LBracket") {
        Some("[")
    } else if same(name, "RBracket") {
        Some("]")
    } else if same(name, "Colon") {
        Some(":")
    } else if same(name, "DoubleColon") {
        Some("::")
    } else if same(name, "Assignment") {
        Some(":=")
    } else if same(name, "Eq") {
        Some("=")
    } else if same(name, "Lt") {
        Some("<")
    } else if same(name, "Gt") {
        Some(">")
    } else if same(name, "LtEq") {
        Some("<=")
    } else if same(name, "GtEq") {
        Some(">=")
    } else if same(name, "Neq") {
        Some("<>")
    } else if same(name, "RArrow") {
        Some("=>")
    } else if same(name, "SemiColon") {
        Some(";")
    } else {
        None
    }
}

fn holds_fraction(digits: &str) -> (r: bool)
    ensures
        r == has_fraction(digits@),
{
    let chars = chars_of(digits);
    let mut i: usize = 0;
    while i < chars.len()
        invariant
            i <= chars@.len(),
            chars@ == digits@,
            forall|j: int|
                0 <= j < i ==> !(#[trigger] digits@[j] == '.' || digits@[j] == 'e' || digits@[j]
                    == 'E'),
        decreases chars@.len() - i,
    {
        if chars[i] == '.' || chars[i] == 'e' || chars[i] == 'E' {
            proof {
                assert(digits@[i as int] == chars@[i as int]);
            }
            return true;
        }
        i += 1;
    }
    false
}

fn read_number_class(tok: &Value) -> (r: &'static str)
    requires
        syntax::member(syntax::tree(*tok), "Number"@) is Some,
    ensures
        r@ == number_class(syntax::tree(*tok)),
{
    let mut whole = true;
    if let Some(v) = get(tok, "Number") {
        if let Some(parts) = as_list(v) {
            let ghost ts = syntax::trees(parts@);
            let mut long = false;
            if parts.len() > 1 {
                proof {
                    assert(ts[1] == syntax::tree(parts@[1]));
                }
                if let Some(b) = as_flag(&parts[1]) {
                    long = b;
                }
            }
            if parts.len() > 0 {
                proof {
                    assert(ts[0] == syntax::tree(parts@[0]));
                }
                if let Some(digits) = as_text(&parts[0]) {
                    whole = long || !holds_fraction(digits);
                }
            }
        }
    }
    if whole {
        "ICONST"
    } else {
        "FCONST"
    }
}

pub fn map_word(word: &Value) -> (r: Terminal)
    ensures
        r@ == word_terminal(syntax::tree(*word)),
{
    let keyword = match get(word, "keyword") {
        Some(k) => match as_text(k) {
            Some(s) => s,
            None => "",
        },
        None => "",
    };
    proof {
        reveal_strlit("");
        assert(""@ =~= seq![]);
    }
    if !is_null(&field(word, "quote_style")) || same(keyword, "NoKeyword") {
        Terminal::CharClass("IDENT")
    } else {
        let value = match get(word, "value") {
            Some(v) => match as_text(v) {
                Some(s) => s,
                None => "",
            },
            None => "",
        };
        Terminal::Keyword(to_upper(value))
    }
}

/// What a token, in its serde form, is to the grammar.
pub fn map_token(tok: &Value) -> (r: Terminal)
    ensures
        r@ == terminal_of(syntax::tree(*tok)),
{
    let ended = match as_text(tok) {
        Some(s) => same(s, "EOF"),
        None => false,
    };
    if ended || get(tok, "Whitespace").is_some() {
        return Terminal::Skip;
    }
    if let Some(word) = get(tok, "Word") {
        return map_word(word);
    }
    if get(tok, "Number").is_some() {
        Terminal::CharClass(read_number_class(tok))
    } else if is_string_token(tok) {
        Terminal::CharClass("SCONST")
    } else if is_quoted_token(tok) {
        Terminal::CharClass("IDENT")
    } else if is_bits_token(tok) {
        Terminal::CharClass("BCONST")
    } else if has_kind(tok, "HexStringLiteral") {
        Terminal::CharClass("XCONST")
    } else if has_kind(tok, "Placeholder") {
        Terminal::CharClass("PARAM")
    } else {
        match read_punctuation(tok) {
            Some(p) => Terminal::Punct(p),
            None => Terminal::CharClass("Op"),
        }
    }
}

/// Whether a token can be of the class of that name.
pub open spec fn is_produced_class(name: Seq<char>) -> bool {
    ||| name == "IDENT"@
    ||| name == "ICONST"@
    ||| name == "FCONST"@
    ||| name == "SCONST"@
    ||| name == "BCONST"@
    ||| name == "XCONST"@
    ||| name == "PARAM"@
    ||| name == "Op"@
}

/// Whether a token can be of the class of that name. A grammar that names another class has a
/// rule that nothing matches.
pub fn produces_charclass(name: &str) -> (r: bool)
    ensures
        r == is_produced_class(name@),
{
    same(name, "IDENT") || same(name, "ICONST") || same(name, "FCONST") || same(name, "SCONST")
        || same(name, "BCONST") || same(name, "XCONST") || same(name, "PARAM") || same(name, "Op")
}

/// Every class that a token is of is one of those.
pub proof fn law_classes_are_produced(t: Tree)
    ensures
        terminal_of(t) matches TerminalModel::CharClass(name) ==> is_produced_class(name),
{
}

} // verus!
