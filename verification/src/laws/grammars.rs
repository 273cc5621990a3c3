//! What the tokens of a script are to a grammar, by their kinds, and which of its rules count.

use vstd::prelude::*;

use crate::grammar::{self, model, tokenize};
use crate::syntax::{self, Tree};
use crate::text;
use crate::token;
use crate::transactions;

verus! {

/// The names of the kinds differ.
proof fn lemma_names()
    ensures
        "Assignment"@.len() == 10,
        "Caret"@.len() == 5,
        "Char"@.len() == 4,
        "Colon"@.len() == 5,
        "Comma"@.len() == 5,
        "Div"@.len() == 3,
        "DollarQuotedString"@.len() == 18,
        "DoubleColon"@.len() == 11,
        "DoubleQuotedByteStringLiteral"@.len() == 29,
        "DoubleQuotedRawStringLiteral"@.len() == 28,
        "DoubleQuotedString"@.len() == 18,
        "EOF"@.len() == 3,
        "Eq"@.len() == 2,
        "EscapedStringLiteral"@.len() == 20,
        "Gt"@.len() == 2,
        "GtEq"@.len() == 4,
        "HexStringLiteral"@.len() == 16,
        "LBracket"@.len() == 8,
        "LParen"@.len() == 6,
        "Lt"@.len() == 2,
        "LtEq"@.len() == 4,
        "Minus"@.len() == 5,
        "Mod"@.len() == 3,
        "Mul"@.len() == 3,
        "NationalQuoteDelimitedStringLiteral"@.len() == 35,
        "NationalStringLiteral"@.len() == 21,
        "Neq"@.len() == 3,
        "Number"@.len() == 6,
        "Period"@.len() == 6,
        "Placeholder"@.len() == 11,
        "Plus"@.len() == 4,
        "QuoteDelimitedStringLiteral"@.len() == 27,
        "RArrow"@.len() == 6,
        "RBracket"@.len() == 8,
        "RParen"@.len() == 6,
        "SemiColon"@.len() == 9,
        "SingleQuotedByteStringLiteral"@.len() == 29,
        "SingleQuotedRawStringLiteral"@.len() == 28,
        "SingleQuotedString"@.len() == 18,
        "TripleDoubleQuotedByteStringLiteral"@.len() == 35,
        "TripleDoubleQuotedRawStringLiteral"@.len() == 34,
        "TripleDoubleQuotedString"@.len() == 24,
        "TripleSingleQuotedByteStringLiteral"@.len() == 35,
        "TripleSingleQuotedRawStringLiteral"@.len() == 34,
        "TripleSingleQuotedString"@.len() == 24,
        "UnicodeStringLiteral"@.len() == 20,
        "Whitespace"@.len() == 10,
        "Word"@.len() == 4,
        "Assignment"@ != "Whitespace"@,
        "Caret"@ != "Colon"@,
        "Caret"@ != "Comma"@,
        "Caret"@ != "Minus"@,
        "Char"@ != "GtEq"@,
        "Char"@ != "LtEq"@,
        "Char"@ != "Plus"@,
        "Char"@ != "Word"@,
        "Colon"@ != "Comma"@,
        "Colon"@ != "Minus"@,
        "Comma"@ != "Minus"@,
        "Div"@ != "EOF"@,
        "Div"@ != "Mod"@,
        "Div"@ != "Mul"@,
        "Div"@ != "Neq"@,
        "DollarQuotedString"@ != "DoubleQuotedString"@,
        "DollarQuotedString"@ != "SingleQuotedString"@,
        "DoubleColon"@ != "Placeholder"@,
        "DoubleQuotedByteStringLiteral"@ != "SingleQuotedByteStringLiteral"@,
        "DoubleQuotedRawStringLiteral"@ != "SingleQuotedRawStringLiteral"@,
        "DoubleQuotedString"@ != "SingleQuotedString"@,
        "EOF"@ != "Mod"@,
        "EOF"@ != "Mul"@,
        "EOF"@ != "Neq"@,
        "Eq"@ != "Gt"@,
        "Eq"@ != "Lt"@,
        "EscapedStringLiteral"@ != "UnicodeStringLiteral"@,
        "Gt"@ != "Lt"@,
        "GtEq"@ != "LtEq"@,
        "GtEq"@ != "Plus"@,
        "GtEq"@ != "Word"@,
        "LBracket"@ != "RBracket"@,
        "LParen"@ != "Number"@,
        "LParen"@ != "Period"@,
        "LParen"@ != "RArrow"@,
        "LParen"@ != "RParen"@,
        "LtEq"@ != "Plus"@,
        "LtEq"@ != "Word"@,
        "Mod"@ != "Mul"@,
        "Mod"@ != "Neq"@,
        "Mul"@ != "Neq"@,
        "NationalQuoteDelimitedStringLiteral"@ != "TripleDoubleQuotedByteStringLiteral"@,
        "NationalQuoteDelimitedStringLiteral"@ != "TripleSingleQuotedByteStringLiteral"@,
        "Number"@ != "Period"@,
        "Number"@ != "RArrow"@,
        "Number"@ != "RParen"@,
        "Period"@ != "RArrow"@,
        "Period"@ != "RParen"@,
        "Plus"@ != "Word"@,
        "RArrow"@ != "RParen"@,
        "TripleDoubleQuotedByteStringLiteral"@ != "TripleSingleQuotedByteStringLiteral"@,
        "TripleDoubleQuotedRawStringLiteral"@ != "TripleSingleQuotedRawStringLiteral"@,
        "TripleDoubleQuotedString"@ != "TripleSingleQuotedString"@,
{
    reveal_strlit("Assignment");
    reveal_strlit("Caret");
    reveal_strlit("Char");
    reveal_strlit("Colon");
    reveal_strlit("Comma");
    reveal_strlit("Div");
    reveal_strlit("DollarQuotedString");
    reveal_strlit("DoubleColon");
    reveal_strlit("DoubleQuotedByteStringLiteral");
    reveal_strlit("DoubleQuotedRawStringLiteral");
    reveal_strlit("DoubleQuotedString");
    reveal_strlit("EOF");
    reveal_strlit("Eq");
    reveal_strlit("EscapedStringLiteral");
    reveal_strlit("Gt");
    reveal_strlit("GtEq");
    reveal_strlit("HexStringLiteral");
    reveal_strlit("LBracket");
    reveal_strlit("LParen");
    reveal_strlit("Lt");
    reveal_strlit("LtEq");
    reveal_strlit("Minus");
    reveal_strlit("Mod");
    reveal_strlit("Mul");
    reveal_strlit("NationalQuoteDelimitedStringLiteral");
    reveal_strlit("NationalStringLiteral");
    reveal_strlit("Neq");
    reveal_strlit("Number");
    reveal_strlit("Period");
    reveal_strlit("Placeholder");
    reveal_strlit("Plus");
    reveal_strlit("QuoteDelimitedStringLiteral");
    reveal_strlit("RArrow");
    reveal_strlit("RBracket");
    reveal_strlit("RParen");
    reveal_strlit("SemiColon");
    reveal_strlit("SingleQuotedByteStringLiteral");
    reveal_strlit("SingleQuotedRawStringLiteral");
    reveal_strlit("SingleQuotedString");
    reveal_strlit("TripleDoubleQuotedByteStringLiteral");
    reveal_strlit("TripleDoubleQuotedRawStringLiteral");
    reveal_strlit("TripleDoubleQuotedString");
    reveal_strlit("TripleSingleQuotedByteStringLiteral");
    reveal_strlit("TripleSingleQuotedRawStringLiteral");
    reveal_strlit("TripleSingleQuotedString");
    reveal_strlit("UnicodeStringLiteral");
    reveal_strlit("Whitespace");
    reveal_strlit("Word");
    assert("Assignment"@[0] != "Whitespace"@[0]);
    assert("Caret"@[1] != "Colon"@[1]);
    assert("Caret"@[1] != "Comma"@[1]);
    assert("Caret"@[0] != "Minus"@[0]);
    assert("Char"@[0] != "GtEq"@[0]);
    assert("Char"@[0] != "LtEq"@[0]);
    assert("Char"@[0] != "Plus"@[0]);
    assert("Char"@[0] != "Word"@[0]);
    assert("Colon"@[2] != "Comma"@[2]);
    assert("Colon"@[0] != "Minus"@[0]);
    assert("Comma"@[0] != "Minus"@[0]);
    assert("Div"@[0] != "EOF"@[0]);
    assert("Div"@[0] != "Mod"@[0]);
    assert("Div"@[0] != "Mul"@[0]);
    assert("Div"@[0] != "Neq"@[0]);
    assert("DollarQuotedString"@[2] != "DoubleQuotedString"@[2]);
    assert("DollarQuotedString"@[0] != "SingleQuotedString"@[0]);
    assert("DoubleColon"@[0] != "Placeholder"@[0]);
    assert("DoubleQuotedByteStringLiteral"@[0] != "SingleQuotedByteStringLiteral"@[0]);
    assert("DoubleQuotedRawStringLiteral"@[0] != "SingleQuotedRawStringLiteral"@[0]);
    assert("DoubleQuotedString"@[0] != "SingleQuotedString"@[0]);
    assert("EOF"@[0] != "Mod"@[0]);
    assert("EOF"@[0] != "Mul"@[0]);
    assert("EOF"@[0] != "Neq"@[0]);
    assert("Eq"@[0] != "Gt"@[0]);
    assert("Eq"@[0] != "Lt"@[0]);
    assert("EscapedStringLiteral"@[0] != "UnicodeStringLiteral"@[0]);
    assert("Gt"@[0] != "Lt"@[0]);
    assert("GtEq"@[0] != "LtEq"@[0]);
    assert("GtEq"@[0] != "Plus"@[0]);
    assert("GtEq"@[0] != "Word"@[0]);
    assert("LBracket"@[0] != "RBracket"@[0]);
    assert("LParen"@[0] != "Number"@[0]);
    assert("LParen"@[0] != "Period"@[0]);
    assert("LParen"@[0] != "RArrow"@[0]);
    assert("LParen"@[0] != "RParen"@[0]);
    assert("LtEq"@[0] != "Plus"@[0]);
    assert("LtEq"@[0] != "Word"@[0]);
    assert("Mod"@[1] != "Mul"@[1]);
    assert("Mod"@[0] != "Neq"@[0]);
    assert("Mul"@[0] != "Neq"@[0]);
    assert("NationalQuoteDelimitedStringLiteral"@[0] != "TripleDoubleQuotedByteStringLiteral"@[0]);
    assert("NationalQuoteDelimitedStringLiteral"@[0] != "TripleSingleQuotedByteStringLiteral"@[0]);
    assert("Number"@[0] != "Period"@[0]);
    assert("Number"@[0] != "RArrow"@[0]);
    assert("Number"@[0] != "RParen"@[0]);
    assert("Period"@[0] != "RArrow"@[0]);
    assert("Period"@[0] != "RParen"@[0]);
    assert("Plus"@[0] != "Word"@[0]);
    assert("RArrow"@[1] != "RParen"@[1]);
    assert("TripleDoubleQuotedByteStringLiteral"@[6] != "TripleSingleQuotedByteStringLiteral"@[6]);
    assert("TripleDoubleQuotedRawStringLiteral"@[6] != "TripleSingleQuotedRawStringLiteral"@[6]);
    assert("TripleDoubleQuotedString"@[6] != "TripleSingleQuotedString"@[6]);
}

/// A token of one kind is of no other.
proof fn lemma_only(t: Tree, kind: Seq<char>)
    requires
        transactions::one_kind(t),
        transactions::is_kind(t, kind),
    ensures
        forall|k: Seq<char>| k != kind ==> !#[trigger] transactions::is_kind(t, k),
        forall|k: Seq<char>| k != kind ==> #[trigger] syntax::member(t, k) is None,
{
    assert forall|k: Seq<char>| k != kind implies #[trigger] syntax::member(t, k) is None by {
        assert(!transactions::is_kind(t, k));
    }
}

/// Whether a token is of a class.
pub open spec fn is_class(t: Tree, name: Seq<char>) -> bool {
    tokenize::terminal_of(t) == tokenize::TerminalModel::CharClass(name)
}

/// Every kind of string is a string constant.
#[verifier::spinoff_prover]
#[verifier::rlimit(60)]
pub proof fn law_strings_are_constants(t: Tree)
    requires
        transactions::one_kind(t),
    ensures
        transactions::is_kind(t, "Char"@) ==> is_class(t, "SCONST"@),
        transactions::is_kind(t, "SingleQuotedString"@) ==> is_class(t, "SCONST"@),
        transactions::is_kind(t, "TripleSingleQuotedString"@) ==> is_class(t, "SCONST"@),
        transactions::is_kind(t, "DollarQuotedString"@) ==> is_class(t, "SCONST"@),
        transactions::is_kind(t, "SingleQuotedRawStringLiteral"@) ==> is_class(t, "SCONST"@),
        transactions::is_kind(t, "DoubleQuotedRawStringLiteral"@) ==> is_class(t, "SCONST"@),
        transactions::is_kind(t, "TripleSingleQuotedRawStringLiteral"@) ==> is_class(t, "SCONST"@),
        transactions::is_kind(t, "TripleDoubleQuotedRawStringLiteral"@) ==> is_class(t, "SCONST"@),
        transactions::is_kind(t, "NationalStringLiteral"@) ==> is_class(t, "SCONST"@),
        transactions::is_kind(t, "QuoteDelimitedStringLiteral"@) ==> is_class(t, "SCONST"@),
        transactions::is_kind(t, "NationalQuoteDelimitedStringLiteral"@) ==> is_class(t, "SCONST"@),
        transactions::is_kind(t, "EscapedStringLiteral"@) ==> is_class(t, "SCONST"@),
        transactions::is_kind(t, "UnicodeStringLiteral"@) ==> is_class(t, "SCONST"@),
{
    lemma_names();
    if transactions::is_kind(t, "Char"@) {
        lemma_only(t, "Char"@);
    }
    if transactions::is_kind(t, "SingleQuotedString"@) {
        lemma_only(t, "SingleQuotedString"@);
    }
    if transactions::is_kind(t, "TripleSingleQuotedString"@) {
        lemma_only(t, "TripleSingleQuotedString"@);
    }
    if transactions::is_kind(t, "DollarQuotedString"@) {
        lemma_only(t, "DollarQuotedString"@);
    }
    if transactions::is_kind(t, "SingleQuotedRawStringLiteral"@) {
        lemma_only(t, "SingleQuotedRawStringLiteral"@);
    }
    if transactions::is_kind(t, "DoubleQuotedRawStringLiteral"@) {
        lemma_only(t, "DoubleQuotedRawStringLiteral"@);
    }
    if transactions::is_kind(t, "TripleSingleQuotedRawStringLiteral"@) {
        lemma_only(t, "TripleSingleQuotedRawStringLiteral"@);
    }
    if transactions::is_kind(t, "TripleDoubleQuotedRawStringLiteral"@) {
        lemma_only(t, "TripleDoubleQuotedRawStringLiteral"@);
    }
    if transactions::is_kind(t, "NationalStringLiteral"@) {
        lemma_only(t, "NationalStringLiteral"@);
    }
    if transactions::is_kind(t, "QuoteDelimitedStringLiteral"@) {
        lemma_only(t, "QuoteDelimitedStringLiteral"@);
    }
    if transactions::is_kind(t, "NationalQuoteDelimitedStringLiteral"@) {
        lemma_only(t, "NationalQuoteDelimitedStringLiteral"@);
    }
    if transactions::is_kind(t, "EscapedStringLiteral"@) {
        lemma_only(t, "EscapedStringLiteral"@);
    }
    if transactions::is_kind(t, "UnicodeStringLiteral"@) {
        lemma_only(t, "UnicodeStringLiteral"@);
    }
}

/// Every kind of byte string is a bit-string constant.
#[verifier::spinoff_prover]
#[verifier::rlimit(60)]
pub proof fn law_byte_strings_are_bit_constants(t: Tree)
    requires
        transactions::one_kind(t),
    ensures
        transactions::is_kind(t, "SingleQuotedByteStringLiteral"@) ==> is_class(t, "BCONST"@),
        transactions::is_kind(t, "DoubleQuotedByteStringLiteral"@) ==> is_class(t, "BCONST"@),
        transactions::is_kind(t, "TripleSingleQuotedByteStringLiteral"@) ==> is_class(t, "BCONST"@),
        transactions::is_kind(t, "TripleDoubleQuotedByteStringLiteral"@) ==> is_class(t, "BCONST"@),
{
    lemma_names();
    if transactions::is_kind(t, "SingleQuotedByteStringLiteral"@) {
        lemma_only(t, "SingleQuotedByteStringLiteral"@);
    }
    if transactions::is_kind(t, "DoubleQuotedByteStringLiteral"@) {
        lemma_only(t, "DoubleQuotedByteStringLiteral"@);
    }
    if transactions::is_kind(t, "TripleSingleQuotedByteStringLiteral"@) {
        lemma_only(t, "TripleSingleQuotedByteStringLiteral"@);
    }
    if transactions::is_kind(t, "TripleDoubleQuotedByteStringLiteral"@) {
        lemma_only(t, "TripleDoubleQuotedByteStringLiteral"@);
    }
}

/// A text in double quotes is an identifier.
#[verifier::spinoff_prover]
#[verifier::rlimit(60)]
pub proof fn law_quoted_texts_are_identifiers(t: Tree)
    requires
        transactions::one_kind(t),
    ensures
        transactions::is_kind(t, "DoubleQuotedString"@) ==> is_class(t, "IDENT"@),
        transactions::is_kind(t, "TripleDoubleQuotedString"@) ==> is_class(t, "IDENT"@),
{
    lemma_names();
    if transactions::is_kind(t, "DoubleQuotedString"@) {
        lemma_only(t, "DoubleQuotedString"@);
    }
    if transactions::is_kind(t, "TripleDoubleQuotedString"@) {
        lemma_only(t, "TripleDoubleQuotedString"@);
    }
}

/// A hexadecimal string is a hexadecimal constant.
#[verifier::spinoff_prover]
#[verifier::rlimit(60)]
pub proof fn law_hex_strings_are_hex_constants(t: Tree)
    requires
        transactions::one_kind(t),
    ensures
        transactions::is_kind(t, "HexStringLiteral"@) ==> is_class(t, "XCONST"@),
{
    lemma_names();
    if transactions::is_kind(t, "HexStringLiteral"@) {
        lemma_only(t, "HexStringLiteral"@);
    }
}

/// A placeholder is a parameter.
#[verifier::spinoff_prover]
#[verifier::rlimit(60)]
pub proof fn law_placeholders_are_parameters(t: Tree)
    requires
        transactions::one_kind(t),
    ensures
        transactions::is_kind(t, "Placeholder"@) ==> is_class(t, "PARAM"@),
{
    lemma_names();
    if transactions::is_kind(t, "Placeholder"@) {
        lemma_only(t, "Placeholder"@);
    }
}

/// White space and the end of the text are passed over.
pub proof fn law_white_space_is_passed_over(t: Tree)
    requires
        t == Tree::Text("EOF"@) || syntax::member(t, "Whitespace"@) is Some,
    ensures
        tokenize::terminal_of(t) is Skip,
{
}

/// A word that is no keyword, or is in quotes, is an identifier; a keyword is itself, in upper case.
pub proof fn law_words_are_keywords_or_identifiers(t: Tree)
    requires
        syntax::member(t, "Word"@) is Some,
        syntax::member(t, "Whitespace"@) is None,
    ensures
        ({
            let word = token::field(t, "Word"@);
            let keyword = token::text_in(word, "keyword"@);
            let bare = token::field(word, "quote_style"@) == Tree::Null;
            &&& !bare || keyword == "NoKeyword"@ ==> is_class(t, "IDENT"@)
            &&& bare && keyword != "NoKeyword"@ ==> tokenize::terminal_of(t)
                == tokenize::TerminalModel::Keyword(
                text::uppered(token::text_in(word, "value"@)),
            )
        }),
{
}

/// A number with a point or an exponent is a fraction, unless it is marked as a long one; any other
/// number is a whole one.
pub proof fn law_numbers_are_whole_or_fractions(t: Tree, digits: Seq<char>, long: bool)
    requires
        t == syntax::variant("Number"@, Tree::List(seq![Tree::Text(digits), Tree::Flag(long)])),
    ensures
        ({
            let fraction = digits.contains('.') || digits.contains('e') || digits.contains('E');
            &&& fraction && !long ==> is_class(t, "FCONST"@)
            &&& !fraction || long ==> is_class(t, "ICONST"@)
        }),
{
    lemma_names();
    let number = Tree::List(seq![Tree::Text(digits), Tree::Flag(long)]);
    assert(syntax::member(t, "Number"@) == Some(number));
    assert(seq![Tree::Text(digits), Tree::Flag(long)][0] == Tree::Text(digits));
    assert(crate::mysql::column::number_text(t) == Some(digits));
    if tokenize::has_fraction(digits) {
        let i = choose|i: int|
            0 <= i < digits.len() && (#[trigger] digits[i] == '.' || digits[i] == 'e' || digits[i]
                == 'E');
        assert(digits.contains(digits[i]));
    }
}

/// Punctuation is what it is written as.
#[verifier::spinoff_prover]
#[verifier::rlimit(60)]
pub proof fn law_punctuation_is_itself(t: Tree)
    ensures
        t == Tree::Text("Comma"@) ==> tokenize::terminal_of(t) == tokenize::TerminalModel::Punct(
            ","@,
        ),
        t == Tree::Text("Period"@) ==> tokenize::terminal_of(t) == tokenize::TerminalModel::Punct(
            "."@,
        ),
        t == Tree::Text("Mul"@) ==> tokenize::terminal_of(t) == tokenize::TerminalModel::Punct(
            "*"@,
        ),
        t == Tree::Text("Plus"@) ==> tokenize::terminal_of(t) == tokenize::TerminalModel::Punct(
            "+"@,
        ),
        t == Tree::Text("Minus"@) ==> tokenize::terminal_of(t) == tokenize::TerminalModel::Punct(
            "-"@,
        ),
        t == Tree::Text("Div"@) ==> tokenize::terminal_of(t) == tokenize::TerminalModel::Punct(
            "/"@,
        ),
        t == Tree::Text("Mod"@) ==> tokenize::terminal_of(t) == tokenize::TerminalModel::Punct(
            "%"@,
        ),
        t == Tree::Text("Caret"@) ==> tokenize::terminal_of(t) == tokenize::TerminalModel::Punct(
            "^"@,
        ),
        t == Tree::Text("LParen"@) ==> tokenize::terminal_of(t) == tokenize::TerminalModel::Punct(
            "("@,
        ),
        t == Tree::Text("RParen"@) ==> tokenize::terminal_of(t) == tokenize::TerminalModel::Punct(
            ")"@,
        ),
        t == Tree::Text("LBracket"@) ==> tokenize::terminal_of(t) == tokenize::TerminalModel::Punct(
            "["@,
        ),
        t == Tree::Text("RBracket"@) ==> tokenize::terminal_of(t) == tokenize::TerminalModel::Punct(
            "]"@,
        ),
        t == Tree::Text("Colon"@) ==> tokenize::terminal_of(t) == tokenize::TerminalModel::Punct(
            ":"@,
        ),
        t == Tree::Text("DoubleColon"@) ==> tokenize::terminal_of(t) == tokenize::TerminalModel::Punct(
            "::"@,
        ),
        t == Tree::Text("Assignment"@) ==> tokenize::terminal_of(t) == tokenize::TerminalModel::Punct(
            ":="@,
        ),
        t == Tree::Text("Eq"@) ==> tokenize::terminal_of(t) == tokenize::TerminalModel::Punct(
            "="@,
        ),
        t == Tree::Text("Lt"@) ==> tokenize::terminal_of(t) == tokenize::TerminalModel::Punct(
            "<"@,
        ),
        t == Tree::Text("Gt"@) ==> tokenize::terminal_of(t) == tokenize::TerminalModel::Punct(
            ">"@,
        ),
        t == Tree::Text("LtEq"@) ==> tokenize::terminal_of(t) == tokenize::TerminalModel::Punct(
            "<="@,
        ),
        t == Tree::Text("GtEq"@) ==> tokenize::terminal_of(t) == tokenize::TerminalModel::Punct(
            ">="@,
        ),
        t == Tree::Text("Neq"@) ==> tokenize::terminal_of(t) == tokenize::TerminalModel::Punct(
            "<>"@,
        ),
        t == Tree::Text("RArrow"@) ==> tokenize::terminal_of(t) == tokenize::TerminalModel::Punct(
            "=>"@,
        ),
        t == Tree::Text("SemiColon"@) ==> tokenize::terminal_of(t) == tokenize::TerminalModel::Punct(
            ";"@,
        ),
{
    lemma_names();
}

/// What a script is to a grammar is what its first tokens are, and then what the others are.
pub proof fn law_tokens_are_read_in_order(
    a: Seq<(Tree, Seq<char>)>,
    b: Seq<(Tree, Seq<char>)>,
    rules: Seq<(Seq<char>, model::RuleModel)>,
)
    ensures
        grammar::input_of(a + b, rules).0 == grammar::input_of(a, rules).0 + grammar::input_of(
            b,
            rules,
        ).0,
        grammar::input_of(a + b, rules).1 == grammar::input_of(a, rules).1 + grammar::input_of(
            b,
            rules,
        ).1,
    decreases b.len(),
{
    let all = grammar::input_of(a + b, rules);
    let first = grammar::input_of(a, rules);
    let last = grammar::input_of(b, rules);
    if b.len() == 0 {
        assert(a + b =~= a);
    } else {
        law_tokens_are_read_in_order(a, b.drop_last(), rules);
        assert((a + b).drop_last() =~= a + b.drop_last());
        assert((a + b).last() == b.last());
    }
    assert(all.0 =~= first.0 + last.0);
    assert(all.1 =~= first.1 + last.1);
}

/// Every rule that statements are recognized from counts where the grammar defines it, and no other
/// rule does.
#[verifier::spinoff_prover]
#[verifier::rlimit(60)]
pub proof fn law_statement_rules_count(
    rules: Seq<(Seq<char>, model::RuleModel)>,
    name: Seq<char>,
)
    ensures
        grammar::roots(rules, grammar::top_level().len() as int).contains(name)
            == (model::defines(rules, name) && is_statement_name(name)),
{
    let n = grammar::top_level().len() as int;
    lemma_roots(rules, name, n);
    let tops = grammar::top_level();
    assert(tops.contains(name) == is_statement_name(name)) by {
        assert(tops[0] == "CreateSchemaStmt"@);
        assert(tops[1] == "CreateStmt"@);
        assert(tops[2] == "IndexStmt"@);
        assert(tops[3] == "ViewStmt"@);
        assert(tops[4] == "CreateSeqStmt"@);
        assert(tops[5] == "CreateDomainStmt"@);
        assert(tops[6] == "CreateRoleStmt"@);
        assert(tops[7] == "AlterTableStmt"@);
        assert(tops[8] == "AlterSeqStmt"@);
        assert(tops[9] == "AlterDomainStmt"@);
        assert(tops[10] == "AlterObjectSchemaStmt"@);
        assert(tops[11] == "AlterOwnerStmt"@);
        assert(tops[12] == "AlterRoleStmt"@);
        assert(tops[13] == "AlterRoleSetStmt"@);
        assert(tops[14] == "RenameStmt"@);
        assert(tops[15] == "CommentStmt"@);
        assert(tops[16] == "DropStmt"@);
        assert(tops[17] == "DropRoleStmt"@);
        assert(tops[18] == "GrantStmt"@);
        assert(tops[19] == "RevokeStmt"@);
        assert(tops[20] == "GrantRoleStmt"@);
        assert(tops[21] == "RevokeRoleStmt"@);
        assert(tops[22] == "VariableShowStmt"@);
        assert(tops[23] == "VariableSetStmt"@);
        assert(tops[24] == "VariableResetStmt"@);
        assert(tops[25] == "TransactionStmt"@);
        assert(tops[26] == "ExplainStmt"@);
        assert(tops[27] == "DeallocateStmt"@);
        assert(tops[28] == "SelectStmt"@);
        assert(tops[29] == "InsertStmt"@);
        assert(tops[30] == "UpdateStmt"@);
        assert(tops[31] == "DeleteStmt"@);
        assert(tops.len() == 32);
        if is_statement_name(name) {
            lemma_is_listed(name);
        }
    }
    assert(tops.take(n) =~= tops);
}

proof fn lemma_is_listed(name: Seq<char>)
    requires
        is_statement_name(name),
    ensures
        grammar::top_level().contains(name),
{
    let tops = grammar::top_level();
    if name == "CreateSchemaStmt"@ {
        assert(tops[0] == name);
    }
    if name == "CreateStmt"@ {
        assert(tops[1] == name);
    }
    if name == "IndexStmt"@ {
        assert(tops[2] == name);
    }
    if name == "ViewStmt"@ {
        assert(tops[3] == name);
    }
    if name == "CreateSeqStmt"@ {
        assert(tops[4] == name);
    }
    if name == "CreateDomainStmt"@ {
        assert(tops[5] == name);
    }
    if name == "CreateRoleStmt"@ {
        assert(tops[6] == name);
    }
    if name == "AlterTableStmt"@ {
        assert(tops[7] == name);
    }
    if name == "AlterSeqStmt"@ {
        assert(tops[8] == name);
    }
    if name == "AlterDomainStmt"@ {
        assert(tops[9] == name);
    }
    if name == "AlterObjectSchemaStmt"@ {
        assert(tops[10] == name);
    }
    if name == "AlterOwnerStmt"@ {
        assert(tops[11] == name);
    }
    if name == "AlterRoleStmt"@ {
        assert(tops[12] == name);
    }
    if name == "AlterRoleSetStmt"@ {
        assert(tops[13] == name);
    }
    if name == "RenameStmt"@ {
        assert(tops[14] == name);
    }
    if name == "CommentStmt"@ {
        assert(tops[15] == name);
    }
    if name == "DropStmt"@ {
        assert(tops[16] == name);
    }
    if name == "DropRoleStmt"@ {
        assert(tops[17] == name);
    }
    if name == "GrantStmt"@ {
        assert(tops[18] == name);
    }
    if name == "RevokeStmt"@ {
        assert(tops[19] == name);
    }
    if name == "GrantRoleStmt"@ {
        assert(tops[20] == name);
    }
    if name == "RevokeRoleStmt"@ {
        assert(tops[21] == name);
    }
    if name == "VariableShowStmt"@ {
        assert(tops[22] == name);
    }
    if name == "VariableSetStmt"@ {
        assert(tops[23] == name);
    }
    if name == "VariableResetStmt"@ {
        assert(tops[24] == name);
    }
    if name == "TransactionStmt"@ {
        assert(tops[25] == name);
    }
    if name == "ExplainStmt"@ {
        assert(tops[26] == name);
    }
    if name == "DeallocateStmt"@ {
        assert(tops[27] == name);
    }
    if name == "SelectStmt"@ {
        assert(tops[28] == name);
    }
    if name == "InsertStmt"@ {
        assert(tops[29] == name);
    }
    if name == "UpdateStmt"@ {
        assert(tops[30] == name);
    }
    if name == "DeleteStmt"@ {
        assert(tops[31] == name);
    }
}

/// The names of the rules that statements are recognized from.
pub open spec fn is_statement_name(name: Seq<char>) -> bool {
    ||| name == "CreateSchemaStmt"@
    ||| name == "CreateStmt"@
    ||| name == "IndexStmt"@
    ||| name == "ViewStmt"@
    ||| name == "CreateSeqStmt"@
    ||| name == "CreateDomainStmt"@
    ||| name == "CreateRoleStmt"@
    ||| name == "AlterTableStmt"@
    ||| name == "AlterSeqStmt"@
    ||| name == "AlterDomainStmt"@
    ||| name == "AlterObjectSchemaStmt"@
    ||| name == "AlterOwnerStmt"@
    ||| name == "AlterRoleStmt"@
    ||| name == "AlterRoleSetStmt"@
    ||| name == "RenameStmt"@
    ||| name == "CommentStmt"@
    ||| name == "DropStmt"@
    ||| name == "DropRoleStmt"@
    ||| name == "GrantStmt"@
    ||| name == "RevokeStmt"@
    ||| name == "GrantRoleStmt"@
    ||| name == "RevokeRoleStmt"@
    ||| name == "VariableShowStmt"@
    ||| name == "VariableSetStmt"@
    ||| name == "VariableResetStmt"@
    ||| name == "TransactionStmt"@
    ||| name == "ExplainStmt"@
    ||| name == "DeallocateStmt"@
    ||| name == "SelectStmt"@
    ||| name == "InsertStmt"@
    ||| name == "UpdateStmt"@
    ||| name == "DeleteStmt"@
}

proof fn lemma_roots(rules: Seq<(Seq<char>, model::RuleModel)>, name: Seq<char>, n: int)
    requires
        0 <= n <= grammar::top_level().len(),
    ensures
        grammar::roots(rules, n).contains(name) == (model::defines(rules, name)
            && grammar::top_level().take(n).contains(name)),
    decreases n,
{
    let tops = grammar::top_level();
    if n > 0 {
        lemma_roots(rules, name, n - 1);
        let before = grammar::roots(rules, n - 1);
        let now = grammar::roots(rules, n);
        let last = tops[n - 1];
        assert(tops.take(n) =~= tops.take(n - 1).push(last));
        lemma_pushed(tops.take(n - 1), last, name);
        lemma_pushed(before, last, name);
    }
}

proof fn lemma_pushed(names: Seq<Seq<char>>, last: Seq<char>, name: Seq<char>)
    ensures
        names.push(last).contains(name) == (names.contains(name) || name == last),
{
    let all = names.push(last);
    if names.contains(name) {
        let i = choose|i: int| 0 <= i < names.len() && names[i] == name;
        assert(all[i] == name);
    }
    assert(all[names.len() as int] == last);
    if all.contains(name) {
        let i = choose|i: int| 0 <= i < all.len() && all[i] == name;
        if i < names.len() {
            assert(names[i] == name);
        }
    }
}

} // verus!
