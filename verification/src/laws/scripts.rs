//! How a script is taken apart and put together, and how what is found in it reaches the reader.

use vstd::prelude::*;

use crate::diagnostic::{self, LintRule};
use crate::lint;
use crate::rules;
use crate::rules::constraint_collapse::Kind;
use crate::rules::{constraint_collapse, errors, serial_idiom};
use crate::split;
use crate::syntax::{self, Dialect, Tree};
use crate::text;
use crate::token::{self, TokenClass};
use crate::transactions;

verus! {

/// Whether a report stands among others.
pub open spec fn among(
    d: diagnostic::DiagnosticView,
    ds: Seq<diagnostic::DiagnosticView>,
) -> bool {
    exists|i: int| 0 <= i < ds.len() && #[trigger] ds[i] == d
}

proof fn lemma_among_sum(
    a: Seq<diagnostic::DiagnosticView>,
    b: Seq<diagnostic::DiagnosticView>,
    d: diagnostic::DiagnosticView,
)
    ensures
        among(d, a) || among(d, b) ==> among(d, a + b),
{
    if among(d, a) {
        let i = choose|i: int| 0 <= i < a.len() && #[trigger] a[i] == d;
        assert((a + b)[i] == d);
    } else if among(d, b) {
        let i = choose|i: int| 0 <= i < b.len() && #[trigger] b[i] == d;
        assert((a + b)[a.len() + i] == d);
    }
}

#[verifier::spinoff_prover]
proof fn lemma_ruled(ts: Seq<Tree>, raw: Seq<char>, k: int, d: diagnostic::DiagnosticView)
    requires
        0 <= k < ts.len(),
        among(d, errors::ruled(ts[k], raw).1),
    ensures
        among(d, lint::ruled_all(ts, raw).1),
    decreases ts.len(),
{
    let before = lint::ruled_all(ts.drop_last(), raw).1;
    let last = errors::ruled(ts.last(), raw).1;
    assert(lint::ruled_all(ts, raw).1 == before + last);
    if k < ts.len() - 1 {
        assert(ts.drop_last()[k] == ts[k]);
        lemma_ruled(ts.drop_last(), raw, k, d);
    } else {
        assert(ts.last() == ts[k]);
    }
    lemma_among_sum(before, last, d);
}

#[verifier::spinoff_prover]
proof fn lemma_part(parts: Seq<(usize, Seq<char>)>, i: int, d: diagnostic::DiagnosticView)
    requires
        0 <= i < parts.len(),
        among(d, lint::part_reports(parts[i])),
    ensures
        among(d, lint::parts_reports(parts)),
    decreases parts.len(),
{
    let before = lint::parts_reports(parts.drop_last());
    let last = lint::part_reports(parts.last());
    assert(lint::parts_reports(parts) == before + last);
    if i < parts.len() - 1 {
        assert(parts.drop_last()[i] == parts[i]);
        lemma_part(parts.drop_last(), i, d);
    } else {
        assert(parts.last() == parts[i]);
    }
    lemma_among_sum(before, last, d);
}

/// What the rules find in a statement of a script is reported by the linter: under its rule, in its
/// words, with the text of its part, and on the line of the script.
#[verifier::spinoff_prover]
pub proof fn law_what_rules_find_is_reported(
    sql: Seq<char>,
    parts: Seq<(usize, Seq<char>)>,
    i: int,
    ts: Seq<Tree>,
    k: int,
    d: diagnostic::DiagnosticView,
)
    requires
        split::split(Dialect::Postgres, sql) == Ok::<Seq<(usize, Seq<char>)>, Seq<char>>(parts),
        0 <= i < parts.len(),
        text::trimmed(parts[i].1).len() > 0,
        syntax::statements(Dialect::Postgres, parts[i].1) == Ok::<Seq<Tree>, Seq<char>>(ts),
        0 <= k < ts.len(),
        among(d, errors::ruled(ts[k], parts[i].1).1),
        1 <= parts[i].0,
        1 <= d.line,
        parts[i].0 + d.line <= usize::MAX,
    ensures
        among(
            (diagnostic::DiagnosticView {
                line: (parts[i].0 + d.line - 1) as usize,
                statement: parts[i].1,
                ..d
            }),
            lint::linted(sql),
        ),
{
    let p = parts[i];
    let ds = lint::ruled_all(ts, p.1).1;
    lemma_ruled(ts, p.1, k, d);
    let n = choose|n: int| 0 <= n < ds.len() && #[trigger] ds[n] == d;
    let e = diagnostic::DiagnosticView {
        line: (p.0 + d.line - 1) as usize,
        statement: p.1,
        ..d
    };
    assert(lint::part_reports(p)[n] == e);
    assert(among(e, lint::part_reports(p)));
    lemma_part(parts, i, e);
    law_findings_in_scripts_are_reported(sql, parts, e);
}

/// What is found in a script as a whole is reported by the linter: serial columns, constraints that
/// can be folded, what its parts hold, and transactions.
#[verifier::spinoff_prover]
pub proof fn law_findings_in_scripts_are_reported(
    sql: Seq<char>,
    parts: Seq<(usize, Seq<char>)>,
    d: diagnostic::DiagnosticView,
)
    requires
        split::split(Dialect::Postgres, sql) == Ok::<Seq<(usize, Seq<char>)>, Seq<char>>(parts),
        among(d, serial_idiom::serial_reports(parts)) || among(
            d,
            constraint_collapse::fold_reports(parts, Kind::Unique),
        ) || among(d, constraint_collapse::fold_reports(parts, Kind::PrimaryKey)) || among(
            d,
            lint::parts_reports(parts),
        ) || among(d, transactions::followed(parts).1),
    ensures
        among(d, lint::linted(sql)),
{
    let a = serial_idiom::serial_reports(parts);
    let b = constraint_collapse::fold_reports(parts, Kind::Unique);
    let c = constraint_collapse::fold_reports(parts, Kind::PrimaryKey);
    let e = lint::parts_reports(parts);
    let f = transactions::followed(parts).1;
    lemma_among_sum(a, b, d);
    lemma_among_sum(a + b, c, d);
    lemma_among_sum(a + b + c, e, d);
    lemma_among_sum(a + b + c + e, f, d);
}

/// A script that is no sequence of tokens is reported as one that does not parse, and the fixer
/// leaves it as it is.
pub proof fn law_broken_scripts_are_reported(sql: Seq<char>)
    requires
        split::split(Dialect::Postgres, sql) is Err,
    ensures
        lint::linted(sql).len() == 1,
        lint::linted(sql)[0].rule == LintRule::ParseError,
        lint::linted(sql)[0].line == 1,
        lint::linted(sql)[0].fix_result is Unfixable,
        lint::fixed(sql).0 == sql,
        lint::fixed(sql).1 == lint::linted(sql),
{
}

/// What rewrote is printed, statement by statement; and a part is taken off only where nothing is
/// left of an `ALTER TABLE`, or where it held no statement.
#[verifier::spinoff_prover]
pub proof fn law_what_becomes_of_a_part(part: (usize, Seq<char>), ts: Seq<Tree>)
    requires
        text::trimmed(part.1).len() > 0,
        syntax::statements(Dialect::Postgres, part.1) == Ok::<Seq<Tree>, Seq<char>>(ts),
        crate::gap::fk_gap(part.1) is None,
    ensures
        ({
            let after = lint::ruled_all(ts, part.1).0;
            let ds = lint::ruled_all(ts, part.1).1;
            let out = lint::fixed_part(part).0;
            let moved = exists|i: int|
                0 <= i < ds.len() && !((#[trigger] ds[i]).fix_result is Unfixable);
            let emptied = after.len() > 0 && token::field(
                token::field(after[0], "AlterTable"@),
                "operations"@,
            ) == Tree::List(seq![]);
            &&& out.len() == 0 <==> (ts.len() == 0 || emptied)
            &&& out.len() > 0 ==> out.len() == 1 && out[0].0 == part.0
            &&& out.len() > 0 && moved ==> out[0].1 == text::joined(
                after.map_values(|t: Tree| syntax::shown_pretty(t)),
                seq![';', '\n'],
            )
            &&& out.len() > 0 && !moved ==> out[0].1 == text::without_trailing(part.1, ';')
        }),
{
    let after = lint::ruled_all(ts, part.1).0;
    let ds = lint::ruled_all(ts, part.1).1;
    lemma_as_many(ts, part.1);
    reveal_strlit(";\n");
    assert(";\n"@ =~= seq![';', '\n']);
    let moved = exists|i: int| 0 <= i < ds.len() && !((#[trigger] ds[i]).fix_result is Unfixable);
    assert(moved == lint::any_rewrote(ds)) by {
        if moved {
            let i = choose|i: int|
                0 <= i < ds.len() && !((#[trigger] ds[i]).fix_result is Unfixable);
            assert(lint::rewrote(ds[i]));
        }
        if lint::any_rewrote(ds) {
            let i = choose|i: int| 0 <= i < ds.len() && #[trigger] lint::rewrote(ds[i]);
            assert(!(ds[i].fix_result is Unfixable));
        }
    }
}

#[verifier::spinoff_prover]
proof fn lemma_as_many(ts: Seq<Tree>, raw: Seq<char>)
    ensures
        lint::ruled_all(ts, raw).0.len() == ts.len(),
    decreases ts.len(),
{
    if ts.len() > 0 {
        lemma_as_many(ts.drop_last(), raw);
    }
}

/// Texts are joined with the separator between neighbours and nowhere else.
pub proof fn law_texts_are_joined(parts: Seq<Seq<char>>, last: Seq<char>, sep: Seq<char>)
    ensures
        text::joined(seq![last], sep) == last,
        parts.len() > 0 ==> text::joined(parts.push(last), sep) == text::joined(parts, sep) + sep
            + last,
{
    assert(parts.push(last).drop_last() =~= parts);
}

/// A script is put together from its parts: each ends in a semicolon, and a blank line stands between
/// neighbours.
pub proof fn law_scripts_are_put_together(
    parts: Seq<(usize, Seq<char>)>,
    last: (usize, Seq<char>),
)
    requires
        last.1.len() > 0,
    ensures
        lint::script_text(seq![last]) == last.1 + seq![';', '\n'],
        parts.len() > 0 && lint::script_text(parts).len() > 0 ==> lint::script_text(
            parts.push(last),
        ) == lint::script_text(parts) + seq!['\n'] + last.1 + seq![';', '\n'],
        lint::script_text(seq![]) == Seq::<char>::empty(),
{
    reveal_strlit(";\n");
    reveal_strlit(";\n\n");
    assert(";\n"@ =~= seq![';', '\n']);
    assert(";\n\n"@ =~= seq![';', '\n', '\n']);
    let texts = parts.map_values(|p: (usize, Seq<char>)| p.1);
    let all = parts.push(last).map_values(|p: (usize, Seq<char>)| p.1);
    assert(all =~= texts.push(last.1));
    law_texts_are_joined(texts, last.1, ";\n\n"@);
    assert(seq![last].map_values(|p: (usize, Seq<char>)| p.1) =~= seq![last.1]);
    let none = Seq::<(usize, Seq<char>)>::empty().map_values(|p: (usize, Seq<char>)| p.1);
    assert(none =~= seq![]);
    if parts.len() > 0 && lint::script_text(parts).len() > 0 {
        let body = text::joined(texts, ";\n\n"@);
        assert(body.len() > 0);
        assert(lint::script_text(parts.push(last)) =~= body + seq![';', '\n'] + seq!['\n'] + last.1
            + seq![';', '\n']);
    }
}

/// How many line breaks a text holds.
pub open spec fn breaks(s: Seq<char>) -> nat {
    s.filter(|c: char| c == '\n').len()
}

proof fn lemma_breaks(s: Seq<char>)
    ensures
        rules::line_breaks(s) == breaks(s),
    decreases s.len(),
{
    reveal(Seq::filter);
    if s.len() > 0 {
        lemma_breaks(s.drop_last());
    }
}

/// Whether a character is a letter, a digit or an underscore.
pub open spec fn is_word_character(c: char) -> bool {
    'a' <= c <= 'z' || 'A' <= c <= 'Z' || '0' <= c <= '9' || c == '_'
}

/// Whether a text stands in another at a place, with no letter, digit or underscore beside it.
pub open spec fn stands_alone(hay: Seq<char>, needle: Seq<char>, at: int) -> bool {
    &&& 0 <= at
    &&& at + needle.len() <= hay.len()
    &&& hay.subrange(at, at + needle.len()) == needle
    &&& at > 0 ==> !is_word_character(hay[at - 1])
    &&& at + needle.len() < hay.len() ==> !is_word_character(hay[at + needle.len()])
}

proof fn lemma_first_word(hay: Seq<char>, needle: Seq<char>, from: int, at: int)
    requires
        0 <= from <= at,
        stands_alone(hay, needle, at),
        forall|j: int| from <= j < at ==> !#[trigger] stands_alone(hay, needle, j),
    ensures
        rules::first_word(hay, needle, from) == Some(at),
    decreases at - from,
{
    if from < at {
        assert(!stands_alone(hay, needle, from));
        lemma_first_word(hay, needle, from + 1, at);
    }
}

/// A word is found on its line: the number of line breaks before its first place, and one.
pub proof fn law_words_are_found_on_their_line(hay: Seq<char>, needle: Seq<char>, at: int)
    requires
        stands_alone(hay, needle, at),
        forall|j: int| 0 <= j < at ==> !#[trigger] stands_alone(hay, needle, j),
        breaks(hay.take(at)) < usize::MAX,
    ensures
        rules::line_in(hay, needle) matches Some(line) && line == breaks(hay.take(at)) + 1,
{
    lemma_first_word(hay, needle, 0, at);
    lemma_breaks(hay.take(at));
}

/// A word that does not stand alone in a text is not found.
pub proof fn law_missing_words_are_not_found(hay: Seq<char>, needle: Seq<char>, from: int)
    requires
        0 <= from,
        forall|j: int| from <= j ==> !#[trigger] stands_alone(hay, needle, j),
    ensures
        rules::first_word(hay, needle, from) is None,
    decreases hay.len() + 1 - from,
{
    if from <= hay.len() {
        assert(!stands_alone(hay, needle, from));
        law_missing_words_are_not_found(hay, needle, from + 1);
    }
}

proof fn lemma_starts(s: Seq<char>)
    ensures
        split::line_starts(s).len() == breaks(s) + 1,
        s.len() == 0 || s.last() == '\n' ==> split::line_starts(s).last() == s.len(),
    decreases s.len(),
{
    reveal(Seq::filter);
    if s.len() > 0 {
        lemma_starts(s.drop_last());
    }
}

proof fn lemma_starts_go_on(a: Seq<char>, b: Seq<char>)
    ensures
        split::line_starts(a + b).len() >= split::line_starts(a).len(),
        forall|i: int|
            0 <= i < split::line_starts(a).len() ==> #[trigger] split::line_starts(a + b)[i]
                == split::line_starts(a)[i],
    decreases b.len(),
{
    if b.len() == 0 {
        assert(a + b =~= a);
    } else {
        lemma_starts_go_on(a, b.drop_last());
        assert((a + b).drop_last() =~= a + b.drop_last());
    }
}

/// A place is counted from the beginning of its line, and a line from the line breaks before it; a
/// column behind the end is the end of the text.
pub proof fn law_places_are_counted_in_lines(
    a: Seq<char>,
    b: Seq<char>,
    line: u64,
    column: u64,
)
    requires
        a.len() == 0 || a.last() == '\n',
        line == breaks(a) + 1,
        1 <= column,
        line <= usize::MAX,
        column <= usize::MAX,
    ensures
        ({
            let at = split::position(a + b, line, column);
            if a.len() + column - 1 <= (a + b).len() {
                at == a.len() + column - 1
            } else {
                at == (a + b).len()
            }
        }),
{
    lemma_starts(a);
    lemma_starts_go_on(a, b);
    assert(split::line_starts(a + b)[line - 1] == a.len());
}

proof fn lemma_open_run(a: Seq<token::TokenView>, semi: token::TokenView, b: Seq<token::TokenView>)
    requires
        semi.class == TokenClass::SemiColon,
    ensures
        split::open_run(a.push(semi) + b) == split::open_run(b),
    decreases b.len(),
{
    if b.len() == 0 {
        assert(a.push(semi) + b =~= a.push(semi));
        assert(split::open_run(b) =~= seq![]);
    } else {
        assert((a.push(semi) + b).drop_last() =~= a.push(semi) + b.drop_last());
        lemma_open_run(a, semi, b.drop_last());
    }
}

/// A semicolon parts statements: those before it and those behind it are found apart, and in order.
pub proof fn law_semicolons_part_statements(
    s: Seq<char>,
    a: Seq<token::TokenView>,
    semi: token::TokenView,
    b: Seq<token::TokenView>,
)
    requires
        semi.class == TokenClass::SemiColon,
    ensures
        split::pieces(s, a.push(semi) + b) == split::pieces(s, a) + split::pieces(s, b),
{
    lemma_closed(s, a, semi, b);
    lemma_open_run(a, semi, b);
    assert(split::pieces(s, a) + split::closed_pieces(s, b) + split::piece(s, split::open_run(b))
        =~= split::pieces(s, a) + split::pieces(s, b));
}

proof fn lemma_closed(
    s: Seq<char>,
    a: Seq<token::TokenView>,
    semi: token::TokenView,
    b: Seq<token::TokenView>,
)
    requires
        semi.class == TokenClass::SemiColon,
    ensures
        split::closed_pieces(s, a.push(semi) + b) == split::pieces(s, a) + split::closed_pieces(
            s,
            b,
        ),
    decreases b.len(),
{
    let all = a.push(semi) + b;
    if b.len() == 0 {
        assert(all =~= a.push(semi));
        assert(all.drop_last() =~= a);
        assert(split::pieces(s, a) + split::closed_pieces(s, b) =~= split::pieces(s, a));
    } else {
        let front = b.drop_last();
        assert(all.drop_last() =~= a.push(semi) + front);
        lemma_closed(s, a, semi, front);
        lemma_open_run(a, semi, front);
        let last = split::piece(s, split::open_run(front));
        assert(split::pieces(s, a) + split::closed_pieces(s, front) + last =~= split::pieces(s, a)
            + (split::closed_pieces(s, front) + last));
    }
}

/// Tokens without a semicolon are one statement: from the first token that is not white space to the
/// end of the last, on the line of the first.
pub proof fn law_a_statement_spans_its_tokens(s: Seq<char>, ts: Seq<token::TokenView>)
    requires
        forall|i: int|
            0 <= i < ts.len() ==> (#[trigger] ts[i]).class != TokenClass::SemiColon
                && ts[i].class != TokenClass::Whitespace,
        ts.len() > 0,
        ({
            let from = split::position(s, ts.first().start_line, ts.first().start_column);
            let to = split::position(s, ts.last().end_line, ts.last().end_column);
            0 <= from <= to < s.len() && text::trimmed(s.subrange(from, to + 1)).len() > 0
        }),
    ensures
        ({
            let from = split::position(s, ts.first().start_line, ts.first().start_column);
            let to = split::position(s, ts.last().end_line, ts.last().end_column);
            split::pieces(s, ts) == seq![
                (ts.first().start_line as usize, s.subrange(from, to + 1)),
            ]
        }),
{
    lemma_solid(s, ts);
    assert(split::pieces(s, ts) =~= split::piece(s, ts));
}

proof fn lemma_solid(s: Seq<char>, ts: Seq<token::TokenView>)
    requires
        forall|i: int|
            0 <= i < ts.len() ==> (#[trigger] ts[i]).class != TokenClass::SemiColon
                && ts[i].class != TokenClass::Whitespace,
    ensures
        split::open_run(ts) == ts,
        split::closed_pieces(s, ts) == Seq::<(usize, Seq<char>)>::empty(),
    decreases ts.len(),
{
    if ts.len() > 0 {
        let front = ts.drop_last();
        assert forall|i: int| 0 <= i < front.len() implies (#[trigger] front[i]).class
            != TokenClass::SemiColon && front[i].class != TokenClass::Whitespace by {
            assert(front[i] == ts[i]);
        }
        lemma_solid(s, front);
        assert(ts[ts.len() - 1].class != TokenClass::SemiColon);
        assert(front.push(ts.last()) =~= ts);
    } else {
        assert(split::open_run(ts) =~= ts);
    }
}

/// Where column lists do not find their places again the statement stays as it was, nothing counts
/// as fixed, and that is reported.
pub proof fn law_lost_lists_leave_the_statement(
    raw: Seq<char>,
    error: Seq<char>,
    ds: Seq<diagnostic::DiagnosticView>,
)
    ensures
        ({
            let (left, told) = lint::with_restored(raw, Err::<Seq<char>, Seq<char>>(error), ds);
            &&& left == text::without_trailing(raw, ';')
            &&& told.len() == ds.len() + 1
            &&& told.last().rule == LintRule::ParseError
            &&& forall|i: int| 0 <= i < told.len() ==> (#[trigger] told[i]).fix_result is Unfixable
            &&& forall|i: int| 0 <= i < ds.len() ==> (#[trigger] told[i]).rule == ds[i].rule
        }),
{
}

/// What the fixer does is reported: the folds of serial columns, of unique keys and of primary keys,
/// what becomes of each part, and the transactions that are split.
#[verifier::spinoff_prover]
pub proof fn law_fixes_are_reported(
    sql: Seq<char>,
    parts: Seq<(usize, Seq<char>)>,
    d: diagnostic::DiagnosticView,
)
    requires
        split::split(Dialect::Postgres, sql) == Ok::<Seq<(usize, Seq<char>)>, Seq<char>>(parts),
        ({
            let serial = serial_idiom::serials_folded(parts);
            let unique = constraint_collapse::all_folded(serial.0, Kind::Unique);
            let primary = constraint_collapse::all_folded(unique.0, Kind::PrimaryKey);
            let single = lint::fixed_parts(primary.0);
            let txns = transactions::split_txns(single.0, 0);
            ||| among(d, serial.1)
            ||| among(d, unique.1)
            ||| among(d, primary.1)
            ||| among(d, single.1)
            ||| among(d, txns.1)
        }),
    ensures
        among(d, lint::fixed(sql).1),
{
    let serial = serial_idiom::serials_folded(parts);
    let unique = constraint_collapse::all_folded(serial.0, Kind::Unique);
    let primary = constraint_collapse::all_folded(unique.0, Kind::PrimaryKey);
    let single = lint::fixed_parts(primary.0);
    let txns = transactions::split_txns(single.0, 0);
    lemma_among_sum(serial.1, unique.1, d);
    lemma_among_sum(serial.1 + unique.1, primary.1, d);
    lemma_among_sum(serial.1 + unique.1 + primary.1, single.1, d);
    lemma_among_sum(serial.1 + unique.1 + primary.1 + single.1, txns.1, d);
}

} // verus!
