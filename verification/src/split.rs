//! Splitting a script into its statements.

use vstd::prelude::*;

use crate::syntax::Dialect;
use crate::text::{self, chars_of, is_blank, slice_text};
use crate::token::{self, read_tokens, Token, TokenClass};

verus! {

/// Where each line of a text begins, the first line included.
pub open spec fn line_starts(s: Seq<char>) -> Seq<int>
    decreases s.len(),
{
    if s.len() == 0 {
        seq![0int]
    } else if s.last() == '\n' {
        line_starts(s.drop_last()).push(s.len() as int)
    } else {
        line_starts(s.drop_last())
    }
}

/// One less, but never below 0.
pub open spec fn less_one(n: usize) -> int {
    if n == 0 {
        0
    } else {
        n - 1
    }
}

/// The position of a 1-based line and column; an unknown line counts as the first, and a
/// column beyond the end is the end of the text.
pub open spec fn position(s: Seq<char>, line: u64, column: u64) -> int {
    let starts = line_starts(s);
    let index = less_one(line as usize);
    let start = if index < starts.len() {
        starts[index]
    } else {
        0
    };
    let at = start + less_one(column as usize);
    if at < s.len() {
        at
    } else {
        s.len() as int
    }
}

/// The position just behind an inclusive end.
pub open spec fn behind(s: Seq<char>, at: int) -> int {
    if at < s.len() {
        at + 1
    } else {
        s.len() as int
    }
}

/// Line starts lie within the text.
proof fn lemma_starts_in_text(s: Seq<char>)
    ensures
        line_starts(s).len() > 0,
        forall|i: int| 0 <= i < line_starts(s).len() ==> 0 <= #[trigger] line_starts(s)[i] <= s.len(),
    decreases s.len(),
{
    if s.len() > 0 {
        lemma_starts_in_text(s.drop_last());
    }
}

/// Where each line of the text begins.
pub fn line_offsets(chars: &Vec<char>) -> (r: Vec<usize>)
    ensures
        r@.len() == line_starts(chars@).len(),
        forall|i: int| 0 <= i < r@.len() ==> #[trigger] r@[i] == line_starts(chars@)[i],
{
    let mut out: Vec<usize> = Vec::new();
    out.push(0);
    let mut i: usize = 0;
    while i < chars.len()
        invariant
            i <= chars@.len(),
            out@.len() == line_starts(chars@.take(i as int)).len(),
            forall|j: int|
                0 <= j < out@.len() ==> #[trigger] out@[j] == line_starts(chars@.take(i as int))[j],
        decreases chars@.len() - i,
    {
        proof {
            assert(chars@.take(i + 1).drop_last() =~= chars@.take(i as int));
        }
        if chars[i] == '\n' {
            out.push(i + 1);
        }
        i += 1;
    }
    proof {
        assert(chars@.take(i as int) =~= chars@);
    }
    out
}

/// The position of a 1-based line and column.
pub fn loc_to_offset(chars: &Vec<char>, offsets: &Vec<usize>, line: u64, column: u64) -> (r:
    usize)
    requires
        offsets@.len() == line_starts(chars@).len(),
        forall|i: int| 0 <= i < offsets@.len() ==> #[trigger] offsets@[i] == line_starts(chars@)[i],
    ensures
        r == position(chars@, line, column),
        r <= chars@.len(),
{
    let line_index: usize = (line as usize).saturating_sub(1);
    let skip: usize = (column as usize).saturating_sub(1);
    proof {
        lemma_starts_in_text(chars@);
    }
    let start: usize = if line_index < offsets.len() {
        offsets[line_index]
    } else {
        0
    };
    let size: usize = chars.len();
    if skip < size - start {
        start + skip
    } else {
        size
    }
}

/// The part of a text between two positions; empty where they are out of order.
pub open spec fn clip(s: Seq<char>, from: int, to: int) -> Seq<char> {
    if 0 <= from <= to <= s.len() {
        s.subrange(from, to)
    } else {
        seq![]
    }
}

/// A statement: the line it begins on, and its text.
pub type Part = (usize, String);

/// The model of a list of statements.
pub open spec fn parts_view(ps: Seq<Part>) -> Seq<(usize, Seq<char>)> {
    ps.map_values(|p: Part| (p.0, p.1@))
}

/// The tokens behind the last semicolon, without white space.
pub open spec fn open_run(ts: Seq<token::TokenView>) -> Seq<token::TokenView>
    decreases ts.len(),
{
    if ts.len() == 0 {
        seq![]
    } else if ts.last().class == TokenClass::SemiColon {
        seq![]
    } else if ts.last().class == TokenClass::Whitespace {
        open_run(ts.drop_last())
    } else {
        open_run(ts.drop_last()).push(ts.last())
    }
}

/// The text that a run of tokens spans in `s`.
pub open spec fn spanned(s: Seq<char>, run: Seq<token::TokenView>) -> Seq<char> {
    clip(
        s,
        position(s, run.first().start_line, run.first().start_column),
        behind(s, position(s, run.last().end_line, run.last().end_column)),
    )
}

/// The statement that a run of tokens makes: none for an empty run or a blank text.
pub open spec fn piece(s: Seq<char>, run: Seq<token::TokenView>) -> Seq<(usize, Seq<char>)> {
    if run.len() == 0 || text::trimmed(spanned(s, run)).len() == 0 {
        seq![]
    } else {
        seq![(run.first().start_line as usize, spanned(s, run))]
    }
}

/// The statements that a semicolon closes.
pub open spec fn closed_pieces(s: Seq<char>, ts: Seq<token::TokenView>) -> Seq<(usize, Seq<char>)>
    decreases ts.len(),
{
    if ts.len() == 0 {
        seq![]
    } else if ts.last().class == TokenClass::SemiColon {
        closed_pieces(s, ts.drop_last()) + piece(s, open_run(ts.drop_last()))
    } else {
        closed_pieces(s, ts.drop_last())
    }
}

/// The statements of `s`, whose tokens are `ts`: the runs of tokens between semicolons, each
/// with the line of its first token and the text from there to the end of its last.
pub open spec fn pieces(s: Seq<char>, ts: Seq<token::TokenView>) -> Seq<(usize, Seq<char>)> {
    closed_pieces(s, ts) + piece(s, open_run(ts))
}

/// The statements of a script, or the tokenizer's message.
pub open spec fn split(dialect: Dialect, sql: Seq<char>) -> Result<
    Seq<(usize, Seq<char>)>,
    Seq<char>,
> {
    match token::tokens_of(dialect, sql) {
        Ok(ts) => Ok(pieces(sql, ts)),
        Err(m) => Err(m),
    }
}

/// Adds the statement in `chars[start..end]`, unless it is blank.
fn flush(chars: &Vec<char>, line: u64, start: usize, end: usize, out: &mut Vec<Part>)
    requires
        start <= chars@.len(),
        end <= chars@.len(),
    ensures
        ({
            let t = clip(chars@, start as int, end as int);
            parts_view(final(out)@) == parts_view(old(out)@) + if text::trimmed(t).len() == 0 {
                seq![]
            } else {
                seq![(line as usize, t)]
            }
        }),
{
    let t = if start <= end {
        slice_text(chars, start, end)
    } else {
        String::new()
    };
    proof {
        assert(t@ =~= clip(chars@, start as int, end as int));
    }
    if !is_blank(t.as_str()) {
        out.push((line as usize, t));
    }
    proof {
        assert(parts_view(out@) =~= parts_view(old(out)@) + if text::trimmed(t@).len() == 0 {
            seq![]
        } else {
            seq![(line as usize, t@)]
        });
    }
}

/// The statements that the tokens of a text make up.
pub fn split_tokens(input: &str, all_tokens: &Vec<Token>) -> (r: Vec<Part>)
    ensures
        parts_view(r@) == pieces(input@, token::token_views(all_tokens@)),
{
    let chars = chars_of(input);
    let offsets = line_offsets(&chars);
    let mut results: Vec<Part> = Vec::new();
    let mut line: u64 = 0;
    let mut start: Option<usize> = None;
    let mut end: usize = 0;
    let ghost views = token::token_views(all_tokens@);
    let mut i: usize = 0;
    while i < all_tokens.len()
        invariant
            i <= all_tokens@.len(),
            views == token::token_views(all_tokens@),
            chars@ == input@,
            offsets@.len() == line_starts(chars@).len(),
            forall|j: int|
                0 <= j < offsets@.len() ==> #[trigger] offsets@[j] == line_starts(chars@)[j],
            parts_view(results@) == closed_pieces(input@, views.take(i as int)),
            end <= chars@.len(),
            ({
                let run = open_run(views.take(i as int));
                match start {
                    None => run.len() == 0,
                    Some(from) => {
                        &&& run.len() > 0
                        &&& from <= chars@.len()
                        &&& from == position(
                            input@,
                            run.first().start_line,
                            run.first().start_column,
                        )
                        &&& line == run.first().start_line
                        &&& end == behind(
                            input@,
                            position(input@, run.last().end_line, run.last().end_column),
                        )
                    },
                }
            }),
        decreases all_tokens@.len() - i,
    {
        let t = &all_tokens[i];
        proof {
            assert(views.take(i + 1).drop_last() =~= views.take(i as int));
            assert(views.take(i + 1).last() == t@);
        }
        match t.class {
            TokenClass::Whitespace => {},
            TokenClass::SemiColon => {
                if let Some(from) = start {
                    flush(&chars, line, from, end, &mut results);
                }
                start = None;
            },
            _ => {
                let tok_start: usize = loc_to_offset(&chars, &offsets, t.start_line, t.start_column);
                let tok_end: usize = loc_to_offset(&chars, &offsets, t.end_line, t.end_column);
                if start.is_none() {
                    start = Some(tok_start);
                    line = t.start_line;
                }
                end = if tok_end < chars.len() {
                    tok_end + 1
                } else {
                    chars.len()
                };
            },
        }
        i += 1;
    }
    proof {
        assert(views.take(i as int) =~= views);
    }
    if let Some(from) = start {
        flush(&chars, line, from, end, &mut results);
    }
    results
}

/// The statements of a script with the lines they begin on. Semicolons in quoted strings and
/// comments do not split, and the text of a statement is cut from the input as it stands.
pub fn split_statements_dialect(input: &str, dialect: Dialect) -> (r: Result<Vec<Part>, String>)
    ensures
        match (r, split(dialect, input@)) {
            (Ok(ps), Ok(vs)) => parts_view(ps@) == vs,
            (Err(e), Err(m)) => e@ == m,
            _ => false,
        },
{
    match read_tokens(dialect, input) {
        Ok(ts) => Ok(split_tokens(input, &ts)),
        Err(e) => Err(e),
    }
}

/// The statements of a PostgreSQL script.
pub fn split_statements(input: &str) -> (r: Result<Vec<Part>, String>)
    ensures
        match (r, split(Dialect::Postgres, input@)) {
            (Ok(ps), Ok(vs)) => parts_view(ps@) == vs,
            (Err(e), Err(m)) => e@ == m,
            _ => false,
        },
{
    split_statements_dialect(input, Dialect::Postgres)
}

/// Whether a statement is a part of `s`, cut out as it stands, and not blank.
pub open spec fn cut_from(s: Seq<char>, part: (usize, Seq<char>)) -> bool {
    &&& text::trimmed(part.1).len() > 0
    &&& exists|from: int, to: int|
        0 <= from <= to <= s.len() && part.1 == #[trigger] s.subrange(from, to)
}

proof fn lemma_piece_is_cut(s: Seq<char>, run: Seq<token::TokenView>)
    ensures
        forall|i: int| 0 <= i < piece(s, run).len() ==> cut_from(s, #[trigger] piece(s, run)[i]),
{
    let from = position(s, run.first().start_line, run.first().start_column);
    let to = behind(s, position(s, run.last().end_line, run.last().end_column));
    if piece(s, run).len() > 0 {
        if !(0 <= from <= to <= s.len()) {
            assert(text::trimmed(spanned(s, run)).len() == 0);
        }
        assert(spanned(s, run) == s.subrange(from, to));
    }
}

proof fn lemma_closed_pieces_are_cut(s: Seq<char>, ts: Seq<token::TokenView>)
    ensures
        forall|i: int|
            0 <= i < closed_pieces(s, ts).len() ==> cut_from(s, #[trigger] closed_pieces(s, ts)[i]),
    decreases ts.len(),
{
    if ts.len() > 0 {
        let before = closed_pieces(s, ts.drop_last());
        let next = piece(s, open_run(ts.drop_last()));
        lemma_closed_pieces_are_cut(s, ts.drop_last());
        lemma_piece_is_cut(s, open_run(ts.drop_last()));
        assert forall|i: int| 0 <= i < closed_pieces(s, ts).len() implies cut_from(
            s,
            #[trigger] closed_pieces(s, ts)[i],
        ) by {
            if i < before.len() {
                assert(closed_pieces(s, ts)[i] == before[i]);
            } else {
                assert(closed_pieces(s, ts)[i] == next[i - before.len()]);
            }
        }
    }
}

/// Splitting keeps the text: every statement is cut from the script as it stands there, and
/// none is blank.
pub proof fn law_statements_are_cut_from_the_script(s: Seq<char>, ts: Seq<token::TokenView>)
    ensures
        forall|i: int| 0 <= i < pieces(s, ts).len() ==> cut_from(s, #[trigger] pieces(s, ts)[i]),
{
    lemma_closed_pieces_are_cut(s, ts);
    lemma_piece_is_cut(s, open_run(ts));
}

/// A semicolon behind the last statement changes nothing.
pub proof fn law_trailing_semicolon_is_optional(
    s: Seq<char>,
    ts: Seq<token::TokenView>,
    semicolon: token::TokenView,
)
    requires
        semicolon.class == TokenClass::SemiColon,
    ensures
        pieces(s, ts.push(semicolon)) == pieces(s, ts),
{
    assert(ts.push(semicolon).drop_last() =~= ts);
    assert(piece(s, seq![]) =~= seq![]);
}

/// White space and comments make no statement and part none: without them the statements are
/// the same.
pub proof fn law_white_space_does_not_matter(s: Seq<char>, ts: Seq<token::TokenView>)
    ensures
        pieces(s, ts.filter(|t: token::TokenView| t.class != TokenClass::Whitespace)) == pieces(
            s,
            ts,
        ),
{
    lemma_without_white_space(s, ts);
}

proof fn lemma_without_white_space(s: Seq<char>, ts: Seq<token::TokenView>)
    ensures
        ({
            let solid = ts.filter(|t: token::TokenView| t.class != TokenClass::Whitespace);
            closed_pieces(s, solid) == closed_pieces(s, ts) && open_run(solid) == open_run(ts)
        }),
    decreases ts.len(),
{
    reveal(Seq::filter);
    if ts.len() > 0 {
        let keep = |t: token::TokenView| t.class != TokenClass::Whitespace;
        lemma_without_white_space(s, ts.drop_last());
        let before = ts.drop_last().filter(keep);
        if keep(ts.last()) {
            assert(ts.filter(keep) == before.push(ts.last()));
            assert(before.push(ts.last()).drop_last() =~= before);
        }
    }
}

} // verus!
