//! The rules of the linter.

use serde_json::Value;
use vstd::prelude::*;

use crate::diagnostic::{self, Diagnostic};
use crate::syntax;
use crate::text::{self, chars_of, find_from};

pub mod constraint_collapse;
pub mod errors;
pub mod likeness;
pub mod name_match;
pub mod options;
pub mod refusals;
pub mod serial_idiom;
pub mod wiring;

verus! {

/// What `str::to_lowercase` makes of a text.
pub uninterp spec fn lowercased(s: Seq<char>) -> Seq<char>;

/// Whether a text holds ASCII characters alone.
pub open spec fn is_plain_text(s: Seq<char>) -> bool {
    forall|i: int| 0 <= i < s.len() ==> (#[trigger] s[i] as u32) < 128
}

/// `str::to_lowercase`: Unicode lower case, a function of the text alone; of ASCII text the ASCII
/// lower case.
#[verifier::external_body]
fn to_lowercase(s: &str) -> (r: String)
    ensures
        r@ == lowercased(s@),
        is_plain_text(s@) ==> r@ == text::lowered(s@),
{
    s.to_lowercase()
}

/// Whether a character can stand inside an ASCII word.
pub open spec fn word_char(c: char) -> bool {
    'a' <= c <= 'z' || 'A' <= c <= 'Z' || '0' <= c <= '9' || c == '_'
}

/// Whether `needle` stands in `hay` at `at` as a word of its own.
pub open spec fn word_at(hay: Seq<char>, needle: Seq<char>, at: int) -> bool {
    &&& text::stands_at(hay, needle, at)
    &&& at == 0 || !word_char(hay[at - 1])
    &&& at + needle.len() >= hay.len() || !word_char(hay[at + needle.len()])
}

/// The first place at or behind `from` where `needle` stands as a word of its own.
pub open spec fn first_word(hay: Seq<char>, needle: Seq<char>, from: int) -> Option<int>
    decreases hay.len() + 1 - from,
{
    if from > hay.len() {
        None
    } else if word_at(hay, needle, from) {
        Some(from)
    } else {
        first_word(hay, needle, from + 1)
    }
}

/// How many line breaks stand in a text.
pub open spec fn line_breaks(s: Seq<char>) -> nat
    decreases s.len(),
{
    if s.len() == 0 {
        0
    } else {
        line_breaks(s.drop_last()) + if s.last() == '\n' {
            1nat
        } else {
            0
        }
    }
}

/// The part of a text before a position, all of it where the position lies behind its end.
pub open spec fn before(s: Seq<char>, at: int) -> Seq<char> {
    if at <= s.len() {
        s.take(at)
    } else {
        s
    }
}

/// A count as far as a machine word holds it.
pub open spec fn fit(n: nat) -> usize {
    if n <= usize::MAX {
        n as usize
    } else {
        usize::MAX
    }
}

/// The 1-based line of the first word `needle` in a text; `None` where there is none.
pub open spec fn line_in(hay: Seq<char>, needle: Seq<char>) -> Option<usize> {
    match first_word(hay, needle, 0) {
        Some(at) => Some(fit(line_breaks(before(hay, at)) + 1)),
        None => None,
    }
}

/// The 1-based line of the first word `needle`, in any case; `None` where there is none. Lower
/// case has the line breaks of the text, whatever becomes of the characters between them.
pub open spec fn line_of(raw: Seq<char>, needle: Seq<char>) -> Option<usize> {
    line_in(lowercased(raw), lowercased(needle))
}

proof fn lemma_first_word_skips(hay: Seq<char>, needle: Seq<char>, from: int, to: int)
    requires
        0 <= from <= to,
        forall|j: int| from <= j < to ==> !text::stands_at(hay, needle, j),
    ensures
        first_word(hay, needle, from) == first_word(hay, needle, to),
    decreases to - from,
{
    if from < to {
        if from <= hay.len() {
            assert(!text::stands_at(hay, needle, from));
            lemma_first_word_skips(hay, needle, from + 1, to);
        }
    }
}

fn is_word_char(c: char) -> (r: bool)
    ensures
        r == word_char(c),
{
    ('a' <= c && c <= 'z') || ('A' <= c && c <= 'Z') || ('0' <= c && c <= '9') || c == '_'
}

/// The line of a position: one more than the line breaks before it.
fn line_at(chars: &Vec<char>, at: usize) -> (r: usize)
    ensures
        r == fit(line_breaks(before(chars@, at as int)) + 1),
{
    let size: usize = chars.len();
    let end: usize = if at <= size {
        at
    } else {
        size
    };
    let mut line: usize = 1;
    let mut i: usize = 0;
    while i < end
        invariant
            i <= end <= size == chars@.len(),
            line == fit(line_breaks(chars@.take(i as int)) + 1),
        decreases end - i,
    {
        proof {
            assert(chars@.take(i + 1).drop_last() =~= chars@.take(i as int));
        }
        if chars[i] == '\n' {
            line = line.saturating_add(1);
        }
        i += 1;
    }
    proof {
        assert(chars@.take(end as int) =~= before(chars@, at as int));
    }
    line
}

/// The 1-based line of the first word `needle`, in any case.
pub fn try_find_line(raw_sql: &str, needle: &str) -> (r: Option<usize>)
    ensures
        r == line_of(raw_sql@, needle@),
        is_plain_text(raw_sql@) && is_plain_text(needle@) ==> r == line_in(
            text::lowered(raw_sql@),
            text::lowered(needle@),
        ),
{
    let lower = chars_of(to_lowercase(raw_sql).as_str());
    let word = chars_of(to_lowercase(needle).as_str());
    let size: usize = lower.len();
    let mut from: usize = 0;
    loop
        invariant
            from <= size == lower@.len(),
            lower@ == lowercased(raw_sql@),
            word@ == lowercased(needle@),
            is_plain_text(raw_sql@) ==> lower@ == text::lowered(raw_sql@),
            is_plain_text(needle@) ==> word@ == text::lowered(needle@),
            first_word(lower@, word@, 0) == first_word(lower@, word@, from as int),
        decreases size - from,
    {
        match find_from(&lower, &word, from) {
            None => {
                proof {
                    lemma_first_word_skips(lower@, word@, from as int, size + 1);
                }
                return None;
            },
            Some(at) => {
                proof {
                    lemma_first_word_skips(lower@, word@, from as int, at as int);
                }
                let end: usize = at + word.len();
                let starts = at == 0 || !is_word_char(lower[at - 1]);
                let ends = end >= size || !is_word_char(lower[end]);
                if starts && ends {
                    return Some(line_at(&lower, at));
                }
                proof {
                    assert(first_word(lower@, word@, at as int) == first_word(
                        lower@,
                        word@,
                        at + 1,
                    ));
                    if at == size {
                        assert(first_word(lower@, word@, at + 1) is None);
                    }
                }
                if at == size {
                    return None;
                }
                from = at + 1;
            },
        }
    }
}

/// The 1-based line of the first word `needle`, in any case; 1 where there is none.
pub fn find_line(raw_sql: &str, needle: &str) -> (r: usize)
    ensures
        r == match line_of(raw_sql@, needle@) {
            Some(line) => line,
            None => 1,
        },
{
    match try_find_line(raw_sql, needle) {
        Some(line) => line,
        None => 1,
    }
}

/// The line of the first of the words that stands in the text, from the `at`th on; 1 where
/// none does.
pub open spec fn line_of_any(raw: Seq<char>, needles: Seq<Seq<char>>, at: int) -> usize
    decreases needles.len() - at,
{
    if !(0 <= at < needles.len()) {
        1
    } else {
        match line_of(raw, needles[at]) {
            Some(line) => line,
            None => line_of_any(raw, needles, at + 1),
        }
    }
}

/// The line of the first of the words that stands in the text; 1 where none does.
pub fn find_line_any(raw_sql: &str, needles: &Vec<String>) -> (r: usize)
    ensures
        r == line_of_any(raw_sql@, text::views(needles@), 0),
{
    let ghost views = text::views(needles@);
    let mut i: usize = 0;
    while i < needles.len()
        invariant
            i <= needles@.len(),
            views == text::views(needles@),
            line_of_any(raw_sql@, views, 0) == line_of_any(raw_sql@, views, i as int),
        decreases needles@.len() - i,
    {
        if let Some(line) = try_find_line(raw_sql, needles[i].as_str()) {
            return line;
        }
        i += 1;
    }
    1
}

/// Applies the rules of [`errors`] and [`refusals`], which look at one statement.
pub fn check_statement(stmt: &mut Value, raw_sql: &str, diagnostics: &mut Vec<Diagnostic>)
    ensures
        ({
            let r = errors::ruled(syntax::tree(*old(stmt)), raw_sql@);
            &&& syntax::tree(*final(stmt)) == r.0
            &&& diagnostic::reports(final(diagnostics)@) == diagnostic::reports(
                old(diagnostics)@,
            ) + r.1
        }),
{
    errors::check(stmt, raw_sql, diagnostics);
}

} // verus!
