//! How texts are trimmed and what their tokens are.

use vstd::prelude::*;

use crate::diff;
use crate::syntax::{self, Tree};
use crate::text;
use crate::token::{self, TokenClass};

verus! {

/// Whether a text is white space.
pub open spec fn is_blank(s: Seq<char>) -> bool {
    forall|i: int| 0 <= i < s.len() ==> text::white(#[trigger] s[i])
}

proof fn lemma_trimmed_start(s: Seq<char>) -> (n: int)
    ensures
        0 <= n <= s.len(),
        is_blank(s.take(n)),
        text::trimmed_start(s) == s.skip(n),
        n < s.len() ==> !text::white(s[n]),
    decreases s.len(),
{
    if s.len() > 0 && text::white(s[0]) {
        let m = lemma_trimmed_start(s.skip(1));
        let n = m + 1;
        assert forall|i: int| 0 <= i < n implies text::white(#[trigger] s.take(n)[i]) by {
            if i > 0 {
                assert(s.skip(1).take(m)[i - 1] == s[i]);
            }
        }
        assert(s.skip(1).skip(m) =~= s.skip(n));
        if n < s.len() {
            assert(s.skip(1)[m] == s[n]);
        }
        n
    } else {
        assert(s.skip(0) =~= s);
        0
    }
}

proof fn lemma_trimmed_end(s: Seq<char>) -> (n: int)
    ensures
        0 <= n <= s.len(),
        is_blank(s.skip(n)),
        text::trimmed_end(s) == s.take(n),
        n > 0 ==> !text::white(s[n - 1]),
    decreases s.len(),
{
    if s.len() > 0 && text::white(s.last()) {
        let front = s.drop_last();
        let n = lemma_trimmed_end(front);
        let tail = s.skip(n);
        assert forall|i: int| 0 <= i < tail.len() implies text::white(#[trigger] tail[i]) by {
            if n + i < front.len() {
                assert(front.skip(n)[i] == tail[i]);
            } else {
                assert(tail[i] == s.last());
            }
        }
        assert(front.take(n) =~= s.take(n));
        n
    } else {
        assert(s.take(s.len() as int) =~= s);
        s.len() as int
    }
}

/// A trimmed text is the text without the white space at its ends, and nothing else is taken off.
pub proof fn law_trimming_takes_white_space_off(s: Seq<char>) -> (r: (int, int))
    ensures
        0 <= r.0 <= r.1 <= s.len(),
        text::trimmed(s) == s.subrange(r.0, r.1),
        is_blank(s.take(r.0)),
        is_blank(s.skip(r.1)),
        r.0 < r.1 ==> !text::white(s[r.0]) && !text::white(s[r.1 - 1]),
{
    let a = lemma_trimmed_start(s);
    let rest = s.skip(a);
    let n = lemma_trimmed_end(rest);
    let b = a + n;
    assert(rest.take(n) =~= s.subrange(a, b));
    assert(rest.skip(n) =~= s.skip(b));
    if a < b {
        assert(rest[n - 1] == s[b - 1]);
        if a < s.len() {
            assert(s[a] == rest[0]);
        }
    }
    (a, b)
}

/// The last characters go as long as they are the given one, and no further.
pub proof fn law_trailing_characters_go(s: Seq<char>, c: char)
    ensures
        text::without_trailing(s.push(c), c) == text::without_trailing(s, c),
        s.len() == 0 || s.last() != c ==> text::without_trailing(s, c) == s,
{
    assert(s.push(c).drop_last() =~= s);
}

/// The line that stands for a statement is its first, trimmed; a long one is cut to 120 characters,
/// the last three of them points.
pub proof fn law_first_lines_are_short(raw: Seq<char>)
    ensures
        ({
            let ls = text::lines(raw);
            let line = if ls.len() > 0 {
                text::trimmed(ls[0])
            } else {
                Seq::<char>::empty()
            };
            &&& diff::first_line(raw).len() <= 120
            &&& line.len() <= 120 ==> diff::first_line(raw) == line
            &&& line.len() > 120 ==> diff::first_line(raw) == line.take(117) + seq!['.', '.', '.']
        }),
{
    reveal_strlit("...");
    assert("..."@ =~= seq!['.', '.', '.']);
}

/// The names of the kinds differ.
proof fn lemma_names()
    ensures
        "Comma"@.len() == 5,
        "LParen"@.len() == 6,
        "Mul"@.len() == 3,
        "Period"@.len() == 6,
        "RParen"@.len() == 6,
        "SemiColon"@.len() == 9,
        "Whitespace"@.len() == 10,
        "Word"@.len() == 4,
        "LParen"@ != "Period"@,
        "LParen"@ != "RParen"@,
        "Period"@ != "RParen"@,
{
    reveal_strlit("Comma");
    reveal_strlit("LParen");
    reveal_strlit("Mul");
    reveal_strlit("Period");
    reveal_strlit("RParen");
    reveal_strlit("SemiColon");
    reveal_strlit("Whitespace");
    reveal_strlit("Word");
    assert("LParen"@[0] != "Period"@[0]);
    assert("LParen"@[0] != "RParen"@[0]);
    assert("Period"@[0] != "RParen"@[0]);
}

/// Tokens are told apart by their kind.
pub proof fn law_tokens_have_their_class(t: Tree)
    ensures
        syntax::member(t, "Whitespace"@) is Some ==> token::class_of(t) == TokenClass::Whitespace,
        syntax::member(t, "Word"@) is Some && syntax::member(t, "Whitespace"@) is None
            ==> token::class_of(t) == TokenClass::Word,
        t == Tree::Text("SemiColon"@) ==> token::class_of(t) == TokenClass::SemiColon,
        t == Tree::Text("Period"@) ==> token::class_of(t) == TokenClass::Period,
        t == Tree::Text("Comma"@) ==> token::class_of(t) == TokenClass::Comma,
        t == Tree::Text("LParen"@) ==> token::class_of(t) == TokenClass::LParen,
        t == Tree::Text("RParen"@) ==> token::class_of(t) == TokenClass::RParen,
        t == Tree::Text("Mul"@) ==> token::class_of(t) == TokenClass::Mul,
        t is Text && t->Text_0 != "SemiColon"@ && t->Text_0 != "Period"@ && t->Text_0 != "Comma"@
            && t->Text_0 != "LParen"@ && t->Text_0 != "RParen"@ && t->Text_0 != "Mul"@
            ==> token::class_of(t) == TokenClass::Other,
{
    lemma_names();
}

/// A token is as long as its two places tell: it begins at the first and ends at the second.
pub proof fn law_tokens_have_their_place(t: Tree, printed: Seq<char>)
    ensures
        ({
            let span = token::field(t, "span"@);
            let made = token::token_of(t, printed);
            &&& made.start_line == token::number_in(token::field(span, "start"@), "line"@)
            &&& made.start_column == token::number_in(token::field(span, "start"@), "column"@)
            &&& made.end_line == token::number_in(token::field(span, "end"@), "line"@)
            &&& made.end_column == token::number_in(token::field(span, "end"@), "column"@)
            &&& made.text == printed
        }),
{
}

} // verus!
