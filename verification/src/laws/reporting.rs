//! What is said of a run: the counts, the exit codes, the names of files and the texts of messages.

use vstd::prelude::*;

use crate::diagnostic;
use crate::mysql::literal;
use crate::report;
use crate::text;

verus! {

/// The counts are the numbers of reports of each outcome.
pub proof fn law_counts_are_numbers_of_reports(ds: Seq<diagnostic::DiagnosticView>)
    ensures
        report::tally(ds).errors == ds.filter(
            |d: diagnostic::DiagnosticView| d.fix_result is Unfixable,
        ).len(),
        report::tally(ds).warnings == ds.filter(
            |d: diagnostic::DiagnosticView| d.fix_result is FixedWithWarning,
        ).len(),
        report::tally(ds).fixed == ds.filter(
            |d: diagnostic::DiagnosticView| d.fix_result is Fixed,
        ).len(),
    decreases ds.len(),
{
    reveal(Seq::filter);
    if ds.len() > 0 {
        law_counts_are_numbers_of_reports(ds.drop_last());
    }
}

/// A linting run ends with 1 exactly where something was found or an input was not read, else with 0.
pub proof fn law_linting_exit_codes(run: report::LintRun)
    ensures
        run.exit_code_spec() == 1 <==> (run.total_errors != 0 || run.had_read_error),
        run.exit_code_spec() == 0 <==> (run.total_errors == 0 && !run.had_read_error),
{
}

/// A fixing run ends with 1 where something was left or an input or output failed, with 3 where
/// everything was fixed and something calls for a look, and else with 0.
pub proof fn law_fixing_exit_codes(run: report::FixRun)
    ensures
        run.exit_code_spec() == 1 <==> (run.had_unfixable || run.had_io_error),
        run.exit_code_spec() == 3 <==> (!run.had_unfixable && !run.had_io_error
            && run.summary.warnings != 0),
        run.exit_code_spec() == 0 || run.exit_code_spec() == 1 || run.exit_code_spec() == 3,
{
}

/// A fixed file stands beside its source: `-fixed` comes before the extension, or at the end where
/// there is none.
pub proof fn law_fixed_files_are_named_after_their_source(stem: Seq<char>, extension: Seq<char>)
    requires
        forall|i: int| 0 <= i < extension.len() ==> (#[trigger] extension[i]) != '.',
        extension.len() > 0,
    ensures
        stem.len() > 0 ==> report::fixed_name(stem + seq!['.'] + extension) == stem + "-fixed"@ + seq![
            '.',
        ] + extension,
        report::fixed_name(extension) == extension + "-fixed"@,
        report::fixed_name(seq!['.'] + extension) == seq!['.'] + extension + "-fixed"@,
{
    let name = stem + seq!['.'] + extension;
    lemma_last_point(stem, extension, extension.len() as int);
    lemma_no_point(extension, extension.len() as int);
    let hidden = seq!['.'] + extension;
    lemma_last_point(seq![], extension, extension.len() as int);
    assert(Seq::<char>::empty() + seq!['.'] + extension =~= hidden);
    if stem.len() > 0 {
        let at = stem.len() as int;
        assert(name.take(at) =~= stem);
        assert(name.skip(at) =~= seq!['.'] + extension);
        assert(report::fixed_name(name) =~= stem + "-fixed"@ + seq!['.'] + extension);
    }
}

proof fn lemma_last_point(stem: Seq<char>, extension: Seq<char>, n: int)
    requires
        forall|i: int| 0 <= i < extension.len() ==> (#[trigger] extension[i]) != '.',
        0 <= n <= extension.len(),
    ensures
        report::extension_at(stem + seq!['.'] + extension, stem.len() + 1 + n) == (if stem.len()
            == 0 {
            None
        } else {
            Some(stem.len() as int)
        }),
    decreases n,
{
    let name = stem + seq!['.'] + extension;
    if n > 0 {
        assert(name[stem.len() + n] == extension[n - 1]);
        lemma_last_point(stem, extension, n - 1);
    } else {
        assert(name[stem.len() as int] == '.');
    }
}

proof fn lemma_no_point(name: Seq<char>, n: int)
    requires
        forall|i: int| 0 <= i < name.len() ==> (#[trigger] name[i]) != '.',
        0 <= n <= name.len(),
    ensures
        report::extension_at(name, n) is None,
    decreases n,
{
    if n > 0 {
        assert(name[n - 1] != '.');
        lemma_no_point(name, n - 1);
    }
}

/// The words of a text are its characters that are not white space, in their order: no word is empty
/// or holds white space.
pub proof fn law_words_are_the_text_without_white_space(s: Seq<char>)
    ensures
        run_together(report::words(s)) == s.filter(|c: char| !text::white(c)),
        forall|i: int|
            0 <= i < report::words(s).len() ==> is_word(#[trigger] report::words(s)[i]),
{
    lemma_words(s);
    let (done, open) = report::word_scan(s);
    if open.len() > 0 {
        assert(done.push(open).drop_last() =~= done);
    } else {
        assert(run_together(done) + open =~= run_together(done));
    }
}

/// Texts one behind the other.
pub open spec fn run_together(ws: Seq<Seq<char>>) -> Seq<char>
    decreases ws.len(),
{
    if ws.len() == 0 {
        seq![]
    } else {
        run_together(ws.drop_last()) + ws.last()
    }
}

/// Whether a text is a word: not empty, and without white space.
pub open spec fn is_word(w: Seq<char>) -> bool {
    w.len() > 0 && forall|i: int| 0 <= i < w.len() ==> !text::white(#[trigger] w[i])
}

proof fn lemma_words(s: Seq<char>)
    ensures
        ({
            let (done, open) = report::word_scan(s);
            &&& run_together(done) + open == s.filter(|c: char| !text::white(c))
            &&& forall|i: int| 0 <= i < done.len() ==> is_word(#[trigger] done[i])
            &&& open.len() > 0 ==> is_word(open)
        }),
    decreases s.len(),
{
    reveal(Seq::filter);
    let keep = |c: char| !text::white(c);
    if s.len() == 0 {
        assert(run_together(seq![]) + Seq::<char>::empty() =~= s.filter(keep));
    } else {
        lemma_words(s.drop_last());
        let (done, open) = report::word_scan(s.drop_last());
        let now = report::word_scan(s);
        if !text::white(s.last()) {
            assert(run_together(now.0) + now.1 =~= (run_together(done) + open).push(s.last()));
        } else if open.len() > 0 {
            assert(done.push(open).drop_last() =~= done);
            assert(run_together(now.0) + now.1 =~= run_together(done) + open);
        }
    }
}

/// White space parts words: a text, white space and another text have the words of the one and then
/// those of the other.
pub proof fn law_white_space_parts_words(a: Seq<char>, c: char, b: Seq<char>)
    requires
        text::white(c),
    ensures
        report::words(a.push(c) + b) == report::words(a) + report::words(b),
{
    lemma_parted(a, c, b);
    let whole = report::word_scan(a.push(c) + b);
    let last = report::word_scan(b);
    if last.1.len() > 0 {
        assert(report::words(a) + last.0.push(last.1) =~= (report::words(a) + last.0).push(last.1));
    }
}

proof fn lemma_parted(a: Seq<char>, c: char, b: Seq<char>)
    requires
        text::white(c),
    ensures
        report::word_scan(a.push(c) + b).0 == report::words(a) + report::word_scan(b).0,
        report::word_scan(a.push(c) + b).1 == report::word_scan(b).1,
    decreases b.len(),
{
    let s = a.push(c) + b;
    if b.len() == 0 {
        assert(s =~= a.push(c));
        assert(s.drop_last() =~= a);
        assert(report::words(a) + report::word_scan(b).0 =~= report::words(a));
    } else {
        lemma_parted(a, c, b.drop_last());
        assert(s.drop_last() =~= a.push(c) + b.drop_last());
        let before = report::word_scan(b.drop_last());
        assert((report::words(a) + before.0).push(before.1) =~= report::words(a) + before.0.push(
            before.1,
        ));
    }
}

/// A number is written in decimal: its text is digits alone, without a needless zero, and they have
/// the value of the number.
pub proof fn law_numbers_are_written_in_decimal(n: nat)
    ensures
        text::decimal(n).len() > 0,
        literal::all_digits(text::decimal(n), 10),
        literal::value_of(text::decimal(n), 10) == n,
        n > 0 ==> text::decimal(n)[0] != '0',
    decreases n,
{
    let s = text::decimal(n);
    if n < 10 {
        assert(s.drop_last() =~= seq![]);
        assert(literal::value_of(seq![], 10) == 0);
    } else {
        law_numbers_are_written_in_decimal(n / 10);
        assert(s.drop_last() =~= text::decimal(n / 10));
        assert(s[0] == text::decimal(n / 10)[0]);
    }
}

/// The name of a rule on the wire is its words in lower case with underscores between them: a word
/// more adds an underscore and the word.
pub proof fn law_wire_names_part_the_words(name: Seq<char>, first: char, rest: Seq<char>)
    requires
        'A' <= first <= 'Z',
        forall|i: int| 0 <= i < rest.len() ==> 'a' <= #[trigger] rest[i] <= 'z',
    ensures
        name.len() > 0 ==> diagnostic::snake(name.push(first) + rest) == diagnostic::snake(
            name,
        ).push('_').push(text::lower(first)) + rest,
        diagnostic::snake(seq![first] + rest) == seq![text::lower(first)] + rest,
    decreases rest.len(),
{
    let s = name.push(first) + rest;
    let t = seq![first] + rest;
    if rest.len() == 0 {
        assert(s =~= name.push(first));
        assert(s.drop_last() =~= name);
        assert(t =~= seq![first]);
        assert(t.drop_last() =~= seq![]);
        assert(diagnostic::snake(seq![]) =~= seq![]);
        assert(diagnostic::snake(t) =~= seq![text::lower(first)] + rest);
        if name.len() > 0 {
            assert(diagnostic::snake(s) =~= diagnostic::snake(name).push('_').push(
                text::lower(first),
            ) + rest);
        }
    } else {
        let front = rest.drop_last();
        let c = rest.last();
        assert('a' <= rest[rest.len() - 1] <= 'z');
        law_wire_names_part_the_words(name, first, front);
        assert(s.drop_last() =~= name.push(first) + front);
        assert(t.drop_last() =~= seq![first] + front);
        assert(s.last() == c && t.last() == c && t.len() > 1);
        assert(text::lower(c) == c);
        assert(diagnostic::snake(t) =~= seq![text::lower(first)] + rest);
        if name.len() > 0 {
            assert(diagnostic::snake(s) =~= diagnostic::snake(name).push('_').push(
                text::lower(first),
            ) + rest);
        }
    }
}

/// What one fixes is told beside where it stands: the line begins with the input and the line number.
pub proof fn law_lines_tell_the_place(display: Seq<char>, d: diagnostic::DiagnosticView)
    ensures
        report::fix_line(display, d).len() > 0,
        text::begins(
            report::fix_line(display, d)[0],
            display + seq![':'] + text::decimal(d.line as nat) + seq![':', ' '],
        ),
        d.fix_result is Unfixable ==> report::fix_line(display, d).len() == 3,
        !(d.fix_result is Unfixable) ==> report::fix_line(display, d).len() == 1,
{
    reveal_strlit(":");
    reveal_strlit(": ");
    assert(":"@ =~= seq![':']);
    assert(": "@ =~= seq![':', ' ']);
    let head = display + seq![':'] + text::decimal(d.line as nat) + seq![':', ' '];
    let line = report::fix_line(display, d)[0];
    assert(line.subrange(0, head.len() as int) =~= head);
}

/// An input that was fixed is counted, and it is listed exactly where something in it was left.
pub proof fn law_files_with_errors_are_listed(
    run: report::FixRunModel,
    display: Seq<char>,
    source: Seq<char>,
    ds: Seq<diagnostic::DiagnosticView>,
)
    requires
        run.unfixable_files.len() == 0 || run.unfixable_files.last() != display,
    ensures
        ({
            let after = report::after_fix(run, display, source, ds);
            let left = exists|i: int|
                0 <= i < ds.len() && (#[trigger] ds[i]).fix_result is Unfixable;
            &&& left ==> after.had_unfixable && after.unfixable_files == run.unfixable_files.push(
                display,
            )
            &&& !left ==> after.had_unfixable == run.had_unfixable && after.unfixable_files
                == run.unfixable_files
            &&& after.had_io_error == run.had_io_error
        }),
{
    lemma_some_left(ds);
}

proof fn lemma_some_left(ds: Seq<diagnostic::DiagnosticView>)
    ensures
        report::tally(ds).errors > 0 <==> exists|i: int|
            0 <= i < ds.len() && (#[trigger] ds[i]).fix_result is Unfixable,
    decreases ds.len(),
{
    if ds.len() > 0 {
        let front = ds.drop_last();
        lemma_some_left(front);
        if report::tally(front).errors > 0 {
            let i = choose|i: int|
                0 <= i < front.len() && (#[trigger] front[i]).fix_result is Unfixable;
            assert(ds[i] == front[i]);
        }
        if report::tally(ds).errors > 0 && report::tally(front).errors == 0 {
            assert(ds[ds.len() - 1].fix_result is Unfixable);
        }
        if exists|i: int| 0 <= i < ds.len() && (#[trigger] ds[i]).fix_result is Unfixable {
            let i = choose|i: int| 0 <= i < ds.len() && (#[trigger] ds[i]).fix_result is Unfixable;
            if i < front.len() {
                assert(front[i].fix_result is Unfixable);
            }
        }
    }
}

} // verus!
