//! Tokens of SQL text, with the places where they stand.

use serde_json::Value;
use vstd::prelude::*;

use crate::syntax::{self, as_number, as_text, get, is_null, tokenize, Dialect, Tree};
use crate::text::{self, eq_ignore_case, same};

verus! {

/// The kinds of token that the rules tell apart.
#[derive(Clone, Copy, PartialEq, Eq, Structural, Debug)]
pub enum TokenClass {
    /// Blanks, line breaks and comments.
    Whitespace,
    SemiColon,
    Period,
    Comma,
    LParen,
    RParen,
    Mul,
    Word,
    Other,
}

/// One token. `word`, `quoted` and `keyword` describe a word and are empty for other tokens.
pub struct Token {
    pub class: TokenClass,
    /// The word without its quotes.
    pub word: String,
    pub quoted: bool,
    /// The keyword that an unquoted word spells, `NoKeyword` where it spells none.
    pub keyword: String,
    /// The token as it prints.
    pub text: String,
    pub start_line: u64,
    pub start_column: u64,
    pub end_line: u64,
    pub end_column: u64,
}

/// The model of a token.
pub ghost struct TokenView {
    pub class: TokenClass,
    pub word: Seq<char>,
    pub quoted: bool,
    pub keyword: Seq<char>,
    pub text: Seq<char>,
    pub start_line: u64,
    pub start_column: u64,
    pub end_line: u64,
    pub end_column: u64,
}

impl View for Token {
    type V = TokenView;

    open spec fn view(&self) -> TokenView {
        TokenView {
            class: self.class,
            word: self.word@,
            quoted: self.quoted,
            keyword: self.keyword@,
            text: self.text@,
            start_line: self.start_line,
            start_column: self.start_column,
            end_line: self.end_line,
            end_column: self.end_column,
        }
    }
}

/// The class of a token in its serde form.
pub open spec fn class_of(t: Tree) -> TokenClass {
    if syntax::member(t, "Whitespace"@) is Some {
        TokenClass::Whitespace
    } else if syntax::member(t, "Word"@) is Some {
        TokenClass::Word
    } else if t == Tree::Text("SemiColon"@) {
        TokenClass::SemiColon
    } else if t == Tree::Text("Period"@) {
        TokenClass::Period
    } else if t == Tree::Text("Comma"@) {
        TokenClass::Comma
    } else if t == Tree::Text("LParen"@) {
        TokenClass::LParen
    } else if t == Tree::Text("RParen"@) {
        TokenClass::RParen
    } else if t == Tree::Text("Mul"@) {
        TokenClass::Mul
    } else {
        TokenClass::Other
    }
}

/// The text in a field; empty where there is none.
pub open spec fn text_in(t: Tree, key: Seq<char>) -> Seq<char> {
    match syntax::member(t, key) {
        Some(Tree::Text(s)) => s,
        _ => seq![],
    }
}

/// The number in a field; 0 where there is none.
pub open spec fn number_in(t: Tree, key: Seq<char>) -> u64 {
    match syntax::member(t, key) {
        Some(Tree::Number(_, Some(n))) => n,
        _ => 0,
    }
}

/// A field, `Null` where it is missing.
pub open spec fn field(t: Tree, key: Seq<char>) -> Tree {
    match syntax::member(t, key) {
        Some(f) => f,
        None => Tree::Null,
    }
}

/// The token that a serde form and a printed text describe.
pub open spec fn token_of(t: Tree, text: Seq<char>) -> TokenView {
    let token = field(t, "token"@);
    let word = field(token, "Word"@);
    let start = field(field(t, "span"@), "start"@);
    let end = field(field(t, "span"@), "end"@);
    TokenView {
        class: class_of(token),
        word: text_in(word, "value"@),
        quoted: field(word, "quote_style"@) != Tree::Null,
        keyword: text_in(word, "keyword"@),
        text,
        start_line: number_in(start, "line"@),
        start_column: number_in(start, "column"@),
        end_line: number_in(end, "line"@),
        end_column: number_in(end, "column"@),
    }
}

/// The tokens of a text, or the tokenizer's message.
pub open spec fn tokens_of(dialect: Dialect, sql: Seq<char>) -> Result<
    Seq<TokenView>,
    Seq<char>,
> {
    match syntax::tokens(dialect, sql) {
        Ok(ts) => Ok(ts.map_values(|t: (Tree, Seq<char>)| token_of(t.0, t.1))),
        Err(m) => Err(m),
    }
}

/// The models of a list of tokens.
pub open spec fn token_views(ts: Seq<Token>) -> Seq<TokenView> {
    ts.map_values(|t: Token| t@)
}

fn is_text(v: &Value, s: &str) -> (r: bool)
    ensures
        r == (syntax::tree(*v) == Tree::Text(s@)),
{
    match as_text(v) {
        Some(t) => same(t, s),
        None => false,
    }
}

fn read_class(v: &Value) -> (r: TokenClass)
    ensures
        r == class_of(syntax::tree(*v)),
{
    if get(v, "Whitespace").is_some() {
        TokenClass::Whitespace
    } else if get(v, "Word").is_some() {
        TokenClass::Word
    } else if is_text(v, "SemiColon") {
        TokenClass::SemiColon
    } else if is_text(v, "Period") {
        TokenClass::Period
    } else if is_text(v, "Comma") {
        TokenClass::Comma
    } else if is_text(v, "LParen") {
        TokenClass::LParen
    } else if is_text(v, "RParen") {
        TokenClass::RParen
    } else if is_text(v, "Mul") {
        TokenClass::Mul
    } else {
        TokenClass::Other
    }
}

/// The text in an optional record's field; empty where there is none.
fn read_text(v: Option<&Value>, key: &str) -> (r: String)
    ensures
        r@ == match v {
            Some(w) => text_in(syntax::tree(*w), key@),
            None => Seq::<char>::empty(),
        },
{
    match v {
        Some(w) => match get(w, key) {
            Some(f) => match as_text(f) {
                Some(s) => s.to_owned(),
                None => String::new(),
            },
            None => String::new(),
        },
        None => String::new(),
    }
}

/// The number in an optional record's field; 0 where there is none.
fn read_number(v: Option<&Value>, key: &str) -> (r: u64)
    ensures
        r == match v {
            Some(w) => number_in(syntax::tree(*w), key@),
            None => 0u64,
        },
{
    match v {
        Some(w) => match get(w, key) {
            Some(f) => match as_number(f) {
                Some(n) => n,
                None => 0,
            },
            None => 0,
        },
        None => 0,
    }
}

/// A field of an optional record.
fn read_field<'a>(v: Option<&'a Value>, key: &str) -> (r: Option<&'a Value>)
    ensures
        match (v, r) {
            (Some(w), Some(f)) => syntax::member(syntax::tree(*w), key@) == Some(syntax::tree(*f)),
            (Some(w), None) => syntax::member(syntax::tree(*w), key@) is None,
            (None, r) => r is None,
        },
{
    match v {
        Some(w) => get(w, key),
        None => None,
    }
}

/// The token that one item of the tokenizer's result describes.
pub fn read_token(v: &Value, text: &String) -> (r: Token)
    ensures
        r@ == token_of(syntax::tree(*v), text@),
{
    let token = get(v, "token");
    let word = read_field(token, "Word");
    let span = get(v, "span");
    let start = read_field(span, "start");
    let end = read_field(span, "end");
    let class = match token {
        Some(t) => read_class(t),
        None => TokenClass::Other,
    };
    let quoted = match read_field(word, "quote_style") {
        Some(q) => !is_null(q),
        None => false,
    };
    let r = Token {
        class,
        word: read_text(word, "value"),
        quoted,
        keyword: read_text(word, "keyword"),
        text: text.clone(),
        start_line: read_number(start, "line"),
        start_column: read_number(start, "column"),
        end_line: read_number(end, "line"),
        end_column: read_number(end, "column"),
    };
    r
}

/// The tokens of a text, white space included.
pub fn read_tokens(dialect: Dialect, sql: &str) -> (r: Result<Vec<Token>, String>)
    ensures
        match (r, tokens_of(dialect, sql@)) {
            (Ok(ts), Ok(vs)) => token_views(ts@) == vs,
            (Err(e), Err(m)) => e@ == m,
            _ => false,
        },
{
    let items = match tokenize(dialect, sql) {
        Ok(items) => items,
        Err(e) => {
            return Err(e);
        },
    };
    let mut out: Vec<Token> = Vec::new();
    let mut i: usize = 0;
    while i < items.len()
        invariant
            i <= items@.len(),
            out@.len() == i,
            forall|j: int|
                0 <= j < i ==> (#[trigger] out@[j])@ == token_of(syntax::tree(items@[j].0), items@[j].1@),
        decreases items@.len() - i,
    {
        out.push(read_token(&items[i].0, &items[i].1));
        i += 1;
    }
    proof {
        let ts = syntax::tokens(dialect, sql@)->Ok_0;
        assert(items@.map_values(|v: (Value, String)| (syntax::tree(v.0), v.1@)) == ts);
        assert(token_views(out@) =~= ts.map_values(|t: (Tree, Seq<char>)| token_of(t.0, t.1)));
    }
    Ok(out)
}

/// Whether a token is the word `expected`, unquoted, in any case.
pub open spec fn is_keyword(t: TokenView, expected: Seq<char>) -> bool {
    t.class == TokenClass::Word && !t.quoted && text::same_word(t.word, expected)
}

/// Whether a token is the word `expected`, unquoted, in any case.
pub fn is_unquoted_keyword(token: &Token, expected: &str) -> (r: bool)
    ensures
        r == is_keyword(token@, expected@),
{
    token.class == TokenClass::Word && !token.quoted && eq_ignore_case(
        token.word.as_str(),
        expected,
    )
}

} // verus!
