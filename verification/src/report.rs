//! What the command-line program says and does: its messages, its counts and its exit codes.

use vstd::prelude::*;
use vstd::string::StringExecFns;

use crate::diagnostic::{self, Diagnostic, FixOutput, FixResult};
use crate::text::{self, chars_of, contains, decimal_text, join, same, slice_text};

verus! {

/// Whether a path stands for the standard input.
pub fn is_stdin(path: &str) -> (r: bool)
    ensures
        r == (path@ == "-"@),
{
    same(path, "-")
}

/// The name of an input in messages.
pub open spec fn shown_name(path: Seq<char>) -> Seq<char> {
    if path == "-"@ {
        "<stdin>"@
    } else {
        path
    }
}

/// The name of an input in messages.
pub fn display_name(path: &str) -> (r: String)
    ensures
        r@ == shown_name(path@),
{
    if is_stdin(path) {
        "<stdin>".to_owned()
    } else {
        path.to_owned()
    }
}

/// The words of a text that are complete, and the one that is not yet.
pub open spec fn word_scan(s: Seq<char>) -> (Seq<Seq<char>>, Seq<char>)
    decreases s.len(),
{
    if s.len() == 0 {
        (seq![], seq![])
    } else {
        let (done, open) = word_scan(s.drop_last());
        if !text::white(s.last()) {
            (done, open.push(s.last()))
        } else if open.len() > 0 {
            (done.push(open), seq![])
        } else {
            (done, open)
        }
    }
}

/// The runs of characters between white space.
pub open spec fn words(s: Seq<char>) -> Seq<Seq<char>> {
    let (done, open) = word_scan(s);
    if open.len() > 0 {
        done.push(open)
    } else {
        done
    }
}

/// The first characters of a text, `n` at most, and a mark where there are more.
pub open spec fn clipped(s: Seq<char>, n: nat) -> Seq<char> {
    if s.len() <= n {
        s
    } else {
        s.take(n as int) + "…"@
    }
}

/// A statement on one line, eighty characters at most before the mark that there are more.
pub open spec fn preview(statement: Seq<char>) -> Seq<char> {
    clipped(text::joined(words(statement), " "@), 80)
}

/// The runs of characters between white space.
pub fn split_words(s: &str) -> (r: Vec<String>)
    ensures
        text::views(r@) == words(s@),
{
    let chars = chars_of(s);
    let mut done: Vec<String> = Vec::new();
    let mut open = String::new();
    let mut i: usize = 0;
    proof {
        assert(s@.take(0) =~= seq![]);
        assert(text::views(done@) =~= seq![]);
        assert(open@ =~= seq![]);
    }
    while i < chars.len()
        invariant
            i <= chars@.len(),
            chars@ == s@,
            (text::views(done@), open@) == word_scan(s@.take(i as int)),
        decreases chars@.len() - i,
    {
        proof {
            assert(s@.take(i + 1).drop_last() =~= s@.take(i as int));
            assert(s@.take(i + 1).last() == chars@[i as int]);
        }
        if !chars[i].is_whitespace() {
            open.push(chars[i]);
        } else if !open.as_str().is_empty() {
            let ghost held = done@;
            let ghost word = open@;
            done.push(open);
            open = String::new();
            proof {
                assert(text::views(done@) =~= text::views(held).push(word));
                assert(open@ =~= seq![]);
            }
        }
        i += 1;
    }
    proof {
        assert(s@.take(i as int) =~= s@);
    }
    if !open.as_str().is_empty() {
        let ghost held = done@;
        let ghost word = open@;
        done.push(open);
        proof {
            assert(text::views(done@) =~= text::views(held).push(word));
        }
    }
    done
}

fn clip(s: &str, n: usize) -> (r: String)
    ensures
        r@ == clipped(s@, n as nat),
{
    let chars = chars_of(s);
    if chars.len() <= n {
        s.to_owned()
    } else {
        proof {
            assert(chars@.subrange(0, n as int) =~= chars@.take(n as int));
        }
        let mut out = slice_text(&chars, 0, n);
        out.append("…");
        out
    }
}

/// A statement on one line, eighty characters at most before the mark that there are more.
pub fn make_preview(statement: &str) -> (r: String)
    ensures
        r@ == preview(statement@),
{
    clip(join(&split_words(statement), " ").as_str(), 80)
}

/// The place of the last point in a file name that has a name before it.
pub open spec fn extension_at(name: Seq<char>, from: int) -> Option<int>
    decreases from,
{
    if from <= 0 || from > name.len() {
        None
    } else if name[from - 1] == '.' {
        if from - 1 == 0 {
            None
        } else {
            Some(from - 1)
        }
    } else {
        extension_at(name, from - 1)
    }
}

/// The name of the file that the fixed text of a file goes to: `-fixed` stands before the
/// extension. A name that begins with its only point has no extension.
pub open spec fn fixed_name(name: Seq<char>) -> Seq<char> {
    match extension_at(name, name.len() as int) {
        Some(at) => if at + 1 == name.len() {
            name.take(at) + "-fixed"@
        } else {
            name.take(at) + "-fixed"@ + name.skip(at)
        },
        None => name + "-fixed"@,
    }
}

/// The name of the file that the fixed text of a file goes to.
pub fn default_output_name(file_name: &str) -> (r: String)
    ensures
        r@ == fixed_name(file_name@),
{
    let chars = chars_of(file_name);
    let size: usize = chars.len();
    let mut from: usize = size;
    while from > 0 && chars[from - 1] != '.'
        invariant
            from <= size == chars@.len(),
            chars@ == file_name@,
            extension_at(file_name@, size as int) == extension_at(file_name@, from as int),
        decreases from,
    {
        from -= 1;
    }
    if from <= 1 {
        let mut out = file_name.to_owned();
        out.append("-fixed");
        return out;
    }
    let at: usize = from - 1;
    proof {
        assert(chars@.subrange(0, at as int) =~= chars@.take(at as int));
        assert(chars@.subrange(at as int, size as int) =~= chars@.skip(at as int));
    }
    let mut out = slice_text(&chars, 0, at);
    out.append("-fixed");
    if from < size {
        out.append(slice_text(&chars, at, size).as_str());
    }
    out
}

/// How many reports there are of each kind.
pub ghost struct Tally {
    /// Of what was not fixed.
    pub errors: nat,
    /// Of what was fixed with a warning.
    pub warnings: nat,
    /// Of what was fixed without one.
    pub fixed: nat,
}

/// How many reports there are of each kind.
pub open spec fn tally(ds: Seq<diagnostic::DiagnosticView>) -> Tally
    decreases ds.len(),
{
    if ds.len() == 0 {
        Tally { errors: 0, warnings: 0, fixed: 0 }
    } else {
        let before = tally(ds.drop_last());
        match ds.last().fix_result {
            diagnostic::FixView::Fixed(_) => Tally { fixed: before.fixed + 1, ..before },
            diagnostic::FixView::FixedWithWarning(_) => Tally {
                warnings: before.warnings + 1,
                ..before
            },
            diagnostic::FixView::Unfixable => Tally { errors: before.errors + 1, ..before },
        }
    }
}

/// The counts of a run.
#[derive(Debug, Clone, Copy, PartialEq, Eq, Structural)]
pub struct Summary {
    pub errors: usize,
    pub warnings: usize,
    pub fixed: usize,
}

/// A count with some more, as far as a machine word holds it.
pub open spec fn plus(a: usize, n: nat) -> usize {
    if a + n <= usize::MAX {
        (a + n) as usize
    } else {
        usize::MAX
    }
}

/// The counts with those of some more reports.
pub open spec fn added(s: Summary, t: Tally) -> Summary {
    Summary {
        errors: plus(s.errors, t.errors),
        warnings: plus(s.warnings, t.warnings),
        fixed: plus(s.fixed, t.fixed),
    }
}

/// The counts of some reports.
pub fn count(ds: &Vec<Diagnostic>) -> (r: Summary)
    ensures
        r.errors == tally(diagnostic::reports(ds@)).errors,
        r.warnings == tally(diagnostic::reports(ds@)).warnings,
        r.fixed == tally(diagnostic::reports(ds@)).fixed,
{
    let ghost vs = diagnostic::reports(ds@);
    let size: usize = ds.len();
    let mut errors: usize = 0;
    let mut warnings: usize = 0;
    let mut fixed: usize = 0;
    let mut i: usize = 0;
    proof {
        assert(vs.take(0) =~= seq![]);
    }
    while i < size
        invariant
            i <= size == ds@.len(),
            vs == diagnostic::reports(ds@),
            errors == tally(vs.take(i as int)).errors,
            warnings == tally(vs.take(i as int)).warnings,
            fixed == tally(vs.take(i as int)).fixed,
            errors <= i,
            warnings <= i,
            fixed <= i,
        decreases size - i,
    {
        proof {
            assert(vs.take(i + 1).drop_last() =~= vs.take(i as int));
            assert(vs.take(i + 1).last() == ds@[i as int]@);
        }
        match &ds[i].fix_result {
            FixResult::Fixed(_) => {
                fixed += 1;
            },
            FixResult::FixedWithWarning(_) => {
                warnings += 1;
            },
            FixResult::Unfixable => {
                errors += 1;
            },
        }
        i += 1;
    }
    proof {
        assert(vs.take(i as int) =~= vs);
    }
    Summary { errors, warnings, fixed }
}

/// The beginning of a message about a line of an input.
pub open spec fn place(display: Seq<char>, line: usize) -> Seq<char> {
    display + ":"@ + text::decimal(line as nat) + ": "@
}

/// The lines about a report that names an error: what it is, what to do, and where.
pub open spec fn error_lines(
    display: Seq<char>,
    word: Seq<char>,
    d: diagnostic::DiagnosticView,
) -> Seq<Seq<char>> {
    seq![
        place(display, d.line) + word + d.message,
        "  → "@ + d.suggestion,
        "  | "@ + preview(d.statement),
    ]
}

/// The lines about the reports of the linter.
pub open spec fn lint_lines(
    display: Seq<char>,
    ds: Seq<diagnostic::DiagnosticView>,
) -> Seq<Seq<char>>
    decreases ds.len(),
{
    if ds.len() == 0 {
        seq![]
    } else {
        lint_lines(display, ds.drop_last()) + error_lines(display, "ERROR — "@, ds.last())
    }
}

/// The lines about one report of the fixer.
pub open spec fn fix_line(display: Seq<char>, d: diagnostic::DiagnosticView) -> Seq<Seq<char>> {
    match d.fix_result {
        diagnostic::FixView::Fixed(what) => seq![place(display, d.line) + "FIXED — "@ + what],
        diagnostic::FixView::FixedWithWarning(what) => seq![
            place(display, d.line) + "WARNING — "@ + what,
        ],
        diagnostic::FixView::Unfixable => error_lines(display, "ERROR (unfixable) — "@, d),
    }
}

/// The lines about the reports of the fixer.
pub open spec fn fix_lines(
    display: Seq<char>,
    ds: Seq<diagnostic::DiagnosticView>,
) -> Seq<Seq<char>>
    decreases ds.len(),
{
    if ds.len() == 0 {
        seq![]
    } else {
        fix_lines(display, ds.drop_last()) + fix_line(display, ds.last())
    }
}

fn write_place(display: &str, line: usize) -> (r: String)
    ensures
        r@ == place(display@, line),
{
    let mut out = display.to_owned();
    out.append(":");
    out.append(decimal_text(line as u64).as_str());
    out.append(": ");
    out
}

fn push_error(display: &str, word: &str, d: &Diagnostic, out: &mut Vec<String>)
    ensures
        text::views(final(out)@) == text::views(old(out)@) + error_lines(display@, word@, d@),
{
    let ghost held = text::views(out@);
    let mut first = write_place(display, d.line);
    first.append(word);
    first.append(d.message.as_str());
    let mut second = "  → ".to_owned();
    second.append(d.suggestion.as_str());
    let mut third = "  | ".to_owned();
    third.append(make_preview(d.statement.as_str()).as_str());
    out.push(first);
    out.push(second);
    out.push(third);
    proof {
        assert(text::views(out@) =~= held + error_lines(display@, word@, d@));
    }
}

/// The lines about the reports of the linter.
pub fn write_lint(display: &str, ds: &Vec<Diagnostic>) -> (r: Vec<String>)
    ensures
        text::views(r@) == lint_lines(display@, diagnostic::reports(ds@)),
{
    let ghost vs = diagnostic::reports(ds@);
    let mut out: Vec<String> = Vec::new();
    let mut i: usize = 0;
    proof {
        assert(vs.take(0) =~= seq![]);
        assert(text::views(out@) =~= seq![]);
    }
    while i < ds.len()
        invariant
            i <= ds@.len(),
            vs == diagnostic::reports(ds@),
            text::views(out@) == lint_lines(display@, vs.take(i as int)),
        decreases ds@.len() - i,
    {
        proof {
            assert(vs.take(i + 1).drop_last() =~= vs.take(i as int));
            assert(vs.take(i + 1).last() == ds@[i as int]@);
        }
        push_error(display, "ERROR — ", &ds[i], &mut out);
        i += 1;
    }
    proof {
        assert(vs.take(i as int) =~= vs);
    }
    out
}

fn push_fix(display: &str, d: &Diagnostic, out: &mut Vec<String>)
    ensures
        text::views(final(out)@) == text::views(old(out)@) + fix_line(display@, d@),
{
    let ghost held = text::views(out@);
    match &d.fix_result {
        FixResult::Fixed(what) => {
            let mut line = write_place(display, d.line);
            line.append("FIXED — ");
            line.append(what.as_str());
            out.push(line);
            proof {
                assert(text::views(out@) =~= held + seq![line@]);
            }
        },
        FixResult::FixedWithWarning(what) => {
            let mut line = write_place(display, d.line);
            line.append("WARNING — ");
            line.append(what.as_str());
            out.push(line);
            proof {
                assert(text::views(out@) =~= held + seq![line@]);
            }
        },
        FixResult::Unfixable => {
            push_error(display, "ERROR (unfixable) — ", d, out);
        },
    }
}

fn write_fix(display: &str, ds: &Vec<Diagnostic>) -> (r: Vec<String>)
    ensures
        text::views(r@) == fix_lines(display@, diagnostic::reports(ds@)),
{
    let ghost vs = diagnostic::reports(ds@);
    let mut out: Vec<String> = Vec::new();
    let mut i: usize = 0;
    proof {
        assert(vs.take(0) =~= seq![]);
        assert(text::views(out@) =~= seq![]);
    }
    while i < ds.len()
        invariant
            i <= ds@.len(),
            vs == diagnostic::reports(ds@),
            text::views(out@) == fix_lines(display@, vs.take(i as int)),
        decreases ds@.len() - i,
    {
        proof {
            assert(vs.take(i + 1).drop_last() =~= vs.take(i as int));
            assert(vs.take(i + 1).last() == ds@[i as int]@);
        }
        push_fix(display, &ds[i], &mut out);
        i += 1;
    }
    proof {
        assert(vs.take(i as int) =~= vs);
    }
    out
}

/// What is wrong with the arguments of a run.
pub open spec fn argument_error(files: nat, fix: bool, output: bool) -> Option<Seq<char>> {
    if files == 0 {
        Some(
            "Usage: dsql-lint <file.sql> [file2.sql ...] or dsql-lint - (read from stdin)"@,
        )
    } else if output && !fix {
        Some("Error: -o/--output requires --fix"@)
    } else if output && files > 1 {
        Some("Error: -o/--output can only be used with a single input file"@)
    } else {
        None
    }
}

/// What is wrong with the arguments of a run: how many files, whether to fix them, and whether
/// an output is named.
pub fn check_arguments(files: usize, fix: bool, output: bool) -> (r: Option<String>)
    ensures
        match (r, argument_error(files as nat, fix, output)) {
            (Some(s), Some(t)) => s@ == t,
            (None, None) => true,
            _ => false,
        },
{
    if files == 0 {
        Some(
            "Usage: dsql-lint <file.sql> [file2.sql ...] or dsql-lint - (read from stdin)".to_owned(),
        )
    } else if output && !fix {
        Some("Error: -o/--output requires --fix".to_owned())
    } else if output && files > 1 {
        Some("Error: -o/--output can only be used with a single input file".to_owned())
    } else {
        None
    }
}

/// The counts with one error more.
pub open spec fn with_failure(s: Summary) -> Summary {
    Summary { errors: plus(s.errors, 1), ..s }
}

fn add_tally(s: Summary, counts: Summary) -> (r: Summary)
    ensures
        r == added(
            s,
            Tally {
                errors: counts.errors as nat,
                warnings: counts.warnings as nat,
                fixed: counts.fixed as nat,
            },
        ),
{
    Summary {
        errors: s.errors.saturating_add(counts.errors),
        warnings: s.warnings.saturating_add(counts.warnings),
        fixed: s.fixed.saturating_add(counts.fixed),
    }
}

fn add_failure(s: Summary) -> (r: Summary)
    ensures
        r == with_failure(s),
{
    Summary { errors: s.errors.saturating_add(1), warnings: s.warnings, fixed: s.fixed }
}

/// A linting run on its way through the inputs.
#[derive(Debug, Clone, Copy, PartialEq, Eq, Structural)]
pub struct LintRun {
    /// The number of reports.
    pub total_errors: usize,
    pub had_read_error: bool,
    /// The reports by what a fix would make of them; an input that could not be read is an
    /// error too.
    pub summary: Summary,
}

impl LintRun {
    /// The run before the first input.
    pub fn new() -> (r: LintRun)
        ensures
            r == (LintRun {
                total_errors: 0,
                had_read_error: false,
                summary: Summary { errors: 0, warnings: 0, fixed: 0 },
            }),
    {
        LintRun {
            total_errors: 0,
            had_read_error: false,
            summary: Summary { errors: 0, warnings: 0, fixed: 0 },
        }
    }

    /// Takes note of an input that could not be read.
    pub fn note_read_error(&mut self)
        ensures
            *final(self) == (LintRun {
                had_read_error: true,
                summary: with_failure(old(self).summary),
                ..*old(self)
            }),
    {
        self.had_read_error = true;
        self.summary = add_failure(self.summary);
    }

    /// Takes note of the reports on an input; the lines about them are returned.
    pub fn note_linted(&mut self, display: &str, ds: &Vec<Diagnostic>) -> (r: Vec<String>)
        ensures
            *final(self) == (LintRun {
                total_errors: plus(old(self).total_errors, ds@.len()),
                summary: added(old(self).summary, tally(diagnostic::reports(ds@))),
                ..*old(self)
            }),
            text::views(r@) == lint_lines(display@, diagnostic::reports(ds@)),
    {
        self.total_errors = self.total_errors.saturating_add(ds.len());
        let counts = count(ds);
        self.summary = add_tally(self.summary, counts);
        write_lint(display, ds)
    }

    /// The exit code of the run.
    pub open spec fn exit_code_spec(&self) -> u8 {
        if self.total_errors > 0 || self.had_read_error {
            1
        } else {
            0
        }
    }

    /// The exit code of the run: 0 where nothing was found and every input was read.
    pub fn exit_code(&self) -> (r: u8)
        ensures
            r == self.exit_code_spec(),
    {
        if self.total_errors > 0 || self.had_read_error {
            1
        } else {
            0
        }
    }

    /// The last line of the run.
    pub open spec fn closing_spec(&self) -> Option<Seq<char>> {
        if self.total_errors > 0 {
            Some("\n"@ + text::decimal(self.total_errors as nat) + " error(s) found."@)
        } else if self.had_read_error {
            None
        } else {
            Some("All statements compatible with DSQL."@)
        }
    }

    /// The last line of the run.
    pub fn closing(&self) -> (r: Option<String>)
        ensures
            match (r, self.closing_spec()) {
                (Some(s), Some(t)) => s@ == t,
                (None, None) => true,
                _ => false,
            },
    {
        if self.total_errors > 0 {
            let mut line = "\n".to_owned();
            line.append(decimal_text(self.total_errors as u64).as_str());
            line.append(" error(s) found.");
            Some(line)
        } else if self.had_read_error {
            None
        } else {
            Some("All statements compatible with DSQL.".to_owned())
        }
    }
}

/// Where the fixed text of an input goes.
#[derive(Debug, Clone, Copy, PartialEq, Eq, Structural)]
pub enum Destination {
    /// The file that was named.
    Named,
    /// The standard output: nothing is written to a file.
    Stdout,
    /// A file beside the input.
    Beside,
}

/// Where the fixed text of an input goes.
pub fn destination(output_named: bool, stdin_input: bool) -> (r: Destination)
    ensures
        r == if output_named {
            Destination::Named
        } else if stdin_input {
            Destination::Stdout
        } else {
            Destination::Beside
        },
{
    if output_named {
        Destination::Named
    } else if stdin_input {
        Destination::Stdout
    } else {
        Destination::Beside
    }
}

/// The message about an input that could not be read.
pub fn read_error(path: &str, error: &str) -> (r: String)
    ensures
        r@ == "Error reading '"@ + path@ + "': "@ + error@,
{
    let mut out = "Error reading '".to_owned();
    out.append(path);
    out.append("': ");
    out.append(error);
    out
}

/// The message about an output that could not be written.
pub fn write_error(path: &str, error: &str) -> (r: String)
    ensures
        r@ == "Error writing '"@ + path@ + "': "@ + error@,
{
    let mut out = "Error writing '".to_owned();
    out.append(path);
    out.append("': ");
    out.append(error);
    out
}

/// The message about an output that would overwrite its input.
pub fn same_file_error(output: &str, input: &str) -> (r: String)
    ensures
        r@ == "Error: output path '"@ + output@ + "' is the same as input '"@ + input@
            + "'. Use a different output path."@,
{
    let mut out = "Error: output path '".to_owned();
    out.append(output);
    out.append("' is the same as input '");
    out.append(input);
    out.append("'. Use a different output path.");
    out
}

/// The message about the file that the fixed text went to.
pub open spec fn written_line(output: Seq<char>, sql: Seq<char>, t: Tally) -> Seq<char> {
    if sql.len() == 0 {
        "Fixed output is empty — all statements were removed: "@ + output
    } else if t.errors > 0 {
        "Partial fix written to: "@ + output + " ("@ + text::decimal(t.errors)
            + " unfixable error(s) remain)"@
    } else if t.warnings > 0 {
        "Fixed output written to: "@ + output + " ("@ + text::decimal(t.warnings)
            + " warning(s) — review recommended)"@
    } else {
        "Fixed output written to: "@ + output
    }
}

fn write_written(output: &str, sql: &str, counts: Summary) -> (r: String)
    ensures
        r@ == written_line(
            output@,
            sql@,
            Tally {
                errors: counts.errors as nat,
                warnings: counts.warnings as nat,
                fixed: counts.fixed as nat,
            },
        ),
{
    if sql.is_empty() {
        let mut out = "Fixed output is empty — all statements were removed: ".to_owned();
        out.append(output);
        out
    } else if counts.errors > 0 {
        let mut out = "Partial fix written to: ".to_owned();
        out.append(output);
        out.append(" (");
        out.append(decimal_text(counts.errors as u64).as_str());
        out.append(" unfixable error(s) remain)");
        out
    } else if counts.warnings > 0 {
        let mut out = "Fixed output written to: ".to_owned();
        out.append(output);
        out.append(" (");
        out.append(decimal_text(counts.warnings as u64).as_str());
        out.append(" warning(s) — review recommended)");
        out
    } else {
        let mut out = "Fixed output written to: ".to_owned();
        out.append(output);
        out
    }
}

/// A fixing run on its way through the inputs.
pub struct FixRun {
    pub had_unfixable: bool,
    pub had_io_error: bool,
    /// The inputs with something that was not fixed; none stands behind itself.
    pub unfixable_files: Vec<String>,
    /// Whether it was said that comments may be lost.
    pub comment_note_printed: bool,
    pub summary: Summary,
}

/// The model of a [`FixRun`].
pub ghost struct FixRunModel {
    pub had_unfixable: bool,
    pub had_io_error: bool,
    pub unfixable_files: Seq<Seq<char>>,
    pub comment_note_printed: bool,
    pub summary: Summary,
}

impl View for FixRun {
    type V = FixRunModel;

    open spec fn view(&self) -> FixRunModel {
        FixRunModel {
            had_unfixable: self.had_unfixable,
            had_io_error: self.had_io_error,
            unfixable_files: text::views(self.unfixable_files@),
            comment_note_printed: self.comment_note_printed,
            summary: self.summary,
        }
    }
}

/// Whether the fixed text of an input may have lost a comment.
pub open spec fn may_lose_comments(sql: Seq<char>, t: Tally) -> bool {
    t.fixed + t.warnings > 0 && (text::occurs(sql, "--"@) || text::occurs(sql, "/*"@))
}

/// The run after an input was fixed.
pub open spec fn after_fix(
    run: FixRunModel,
    display: Seq<char>,
    source: Seq<char>,
    ds: Seq<diagnostic::DiagnosticView>,
) -> FixRunModel {
    let t = tally(ds);
    FixRunModel {
        had_unfixable: run.had_unfixable || t.errors > 0,
        had_io_error: run.had_io_error,
        unfixable_files: if t.errors == 0 || (run.unfixable_files.len() > 0
            && run.unfixable_files.last() == display) {
            run.unfixable_files
        } else {
            run.unfixable_files.push(display)
        },
        comment_note_printed: run.comment_note_printed || may_lose_comments(source, t),
        summary: added(run.summary, t),
    }
}

/// The lines about an input that was fixed: its reports, a note on comments where it is the
/// first that may have lost one, and the file that its text went to.
pub open spec fn fixed_lines(
    run: FixRunModel,
    display: Seq<char>,
    source: Seq<char>,
    sql: Seq<char>,
    ds: Seq<diagnostic::DiagnosticView>,
    output: Option<Seq<char>>,
) -> Seq<Seq<char>> {
    let t = tally(ds);
    fix_lines(display, ds) + (if !run.comment_note_printed && may_lose_comments(source, t) {
        seq!["Note: SQL comments in modified statements were not preserved."@]
    } else {
        seq![]
    }) + (match output {
        Some(path) => seq![written_line(path, sql, t)],
        None => seq![],
    })
}

impl FixRun {
    /// The run before the first input.
    pub fn new() -> (r: FixRun)
        ensures
            r@ == (FixRunModel {
                had_unfixable: false,
                had_io_error: false,
                unfixable_files: seq![],
                comment_note_printed: false,
                summary: Summary { errors: 0, warnings: 0, fixed: 0 },
            }),
    {
        let r = FixRun {
            had_unfixable: false,
            had_io_error: false,
            unfixable_files: Vec::new(),
            comment_note_printed: false,
            summary: Summary { errors: 0, warnings: 0, fixed: 0 },
        };
        proof {
            assert(text::views(r.unfixable_files@) =~= seq![]);
        }
        r
    }

    /// Takes note of an input that could not be read, or an output that could not be written or
    /// would overwrite its input. The run goes on with the next.
    pub fn note_io_error(&mut self)
        ensures
            final(self)@ == (FixRunModel {
                had_io_error: true,
                summary: with_failure(old(self)@.summary),
                ..old(self)@
            }),
    {
        self.had_io_error = true;
        self.summary = add_failure(self.summary);
    }

    /// Takes note of an input that was fixed; the lines about it are returned. `output` names
    /// the file that its text went to, where there is one.
    pub fn note_fixed(
        &mut self,
        display: &str,
        source: &str,
        fixed: &FixOutput,
        output: Option<&str>,
    ) -> (r: Vec<String>)
        ensures
            final(self)@ == after_fix(
                old(self)@,
                display@,
                source@,
                diagnostic::reports(fixed.diagnostics@),
            ),
            text::views(r@) == fixed_lines(
                old(self)@,
                display@,
                source@,
                fixed.sql@,
                diagnostic::reports(fixed.diagnostics@),
                match output {
                    Some(path) => Some(path@),
                    None => None,
                },
            ),
    {
        let ghost run = self@;
        let ghost ds = diagnostic::reports(fixed.diagnostics@);
        let ghost t = tally(ds);
        let counts = count(&fixed.diagnostics);
        let mut lines = write_fix(display, &fixed.diagnostics);
        let ghost reported = text::views(lines@);
        let lost = (counts.fixed > 0 || counts.warnings > 0) && (contains(source, "--") || contains(source, "/*"));
        if !self.comment_note_printed && lost {
            let note = "Note: SQL comments in modified statements were not preserved.".to_owned();
            lines.push(note);
            proof {
                assert(text::views(lines@) =~= reported.push(note@));
            }
        }
        let ghost noted = text::views(lines@);
        if let Some(path) = output {
            let line = write_written(path, fixed.sql.as_str(), counts);
            lines.push(line);
            proof {
                assert(text::views(lines@) =~= noted.push(line@));
            }
        }
        if counts.errors > 0 {
            let size: usize = self.unfixable_files.len();
            let known = size > 0 && same(self.unfixable_files[size - 1].as_str(), display);
            if !known {
                let name = display.to_owned();
                let ghost held = self.unfixable_files@;
                self.unfixable_files.push(name);
                proof {
                    assert(text::views(self.unfixable_files@) =~= text::views(held).push(name@));
                }
            }
            self.had_unfixable = true;
        }
        self.comment_note_printed = self.comment_note_printed || lost;
        self.summary = add_tally(self.summary, counts);
        proof {
            assert(text::views(lines@) =~= fixed_lines(
                run,
                display@,
                source@,
                fixed.sql@,
                ds,
                match output {
                    Some(path) => Some(path@),
                    None => None,
                },
            ));
        }
        lines
    }

    /// The exit code of the run.
    pub open spec fn exit_code_spec(&self) -> u8 {
        if self.had_unfixable || self.had_io_error {
            1
        } else if self.summary.warnings > 0 {
            3
        } else {
            0
        }
    }

    /// The exit code of the run: 1 where something was not fixed, read or written, 3 where
    /// everything was fixed with a warning somewhere.
    pub fn exit_code(&self) -> (r: u8)
        ensures
            r == self.exit_code_spec(),
    {
        if self.had_unfixable || self.had_io_error {
            1
        } else if self.summary.warnings > 0 {
            3
        } else {
            0
        }
    }

    /// The last line of the run, where something was not fixed.
    pub open spec fn closing_spec(&self) -> Option<Seq<char>> {
        if self.had_unfixable {
            Some(
                "\nFix complete: "@ + text::decimal(self.unfixable_files@.len())
                    + " file(s) had unfixable errors and require manual review."@,
            )
        } else {
            None
        }
    }

    /// The last line of the run, where something was not fixed.
    pub fn closing(&self) -> (r: Option<String>)
        ensures
            match (r, self.closing_spec()) {
                (Some(s), Some(t)) => s@ == t,
                (None, None) => true,
                _ => false,
            },
    {
        if self.had_unfixable {
            let mut line = "\nFix complete: ".to_owned();
            line.append(decimal_text(self.unfixable_files.len() as u64).as_str());
            line.append(" file(s) had unfixable errors and require manual review.");
            Some(line)
        } else {
            None
        }
    }
}

/// What is said of one input in JSON.
pub struct FileReport {
    pub file: String,
    /// The reports, each with its statement on one line.
    pub diagnostics: Vec<(Diagnostic, String)>,
    pub error: Option<String>,
    pub output_file: Option<String>,
    pub fixed_sql: Option<String>,
}

/// The models of reports, each with its statement on one line.
pub open spec fn previewed(ds: Seq<(Diagnostic, String)>) -> Seq<
    (diagnostic::DiagnosticView, Seq<char>),
> {
    ds.map_values(|d: (Diagnostic, String)| (d.0@, d.1@))
}

/// Reports, each with its statement on one line.
pub open spec fn with_previews(ds: Seq<diagnostic::DiagnosticView>) -> Seq<
    (diagnostic::DiagnosticView, Seq<char>),
> {
    ds.map_values(|d: diagnostic::DiagnosticView| (d, preview(d.statement)))
}

/// Reports, each with its statement on one line.
pub fn add_previews(ds: Vec<Diagnostic>) -> (r: Vec<(Diagnostic, String)>)
    ensures
        previewed(r@) == with_previews(diagnostic::reports(ds@)),
{
    let ghost vs = diagnostic::reports(ds@);
    let mut out: Vec<(Diagnostic, String)> = Vec::new();
    for d in it: ds
        invariant
            vs == diagnostic::reports(it.seq()),
            out@.len() == it.index(),
            forall|j: int|
                0 <= j < out@.len() ==> (#[trigger] out@[j]).0@ == vs[j] && out@[j].1@ == preview(
                    vs[j].statement,
                ),
    {
        proof {
            assert(vs[it.index() as int] == d@);
        }
        let shown = make_preview(d.statement.as_str());
        out.push((d, shown));
    }
    proof {
        assert(previewed(out@) =~= with_previews(vs));
    }
    out
}

/// A text that was read, as its model.
pub open spec fn told(s: Option<String>) -> Option<Seq<char>> {
    match s {
        Some(t) => Some(t@),
        None => None,
    }
}

impl FileReport {
    /// What is said of an input that could not be taken.
    pub fn of_error(file: &str, error: String) -> (r: FileReport)
        ensures
            r.file@ == file@,
            previewed(r.diagnostics@).len() == 0,
            told(r.error) == Some(error@),
            r.output_file is None,
            r.fixed_sql is None,
    {
        FileReport {
            file: file.to_owned(),
            diagnostics: Vec::new(),
            error: Some(error),
            output_file: None,
            fixed_sql: None,
        }
    }

    /// What is said of an input that was linted.
    pub fn of_lint(display: &str, ds: Vec<Diagnostic>) -> (r: FileReport)
        ensures
            r.file@ == display@,
            previewed(r.diagnostics@) == with_previews(diagnostic::reports(ds@)),
            r.error is None,
            r.output_file is None,
            r.fixed_sql is None,
    {
        FileReport {
            file: display.to_owned(),
            diagnostics: add_previews(ds),
            error: None,
            output_file: None,
            fixed_sql: None,
        }
    }

    /// What is said of an input that was fixed. Its text is part of it where it went to no file.
    pub fn of_fix(
        display: &str,
        stdin_input: bool,
        fixed: FixOutput,
        output: Option<&str>,
    ) -> (r: FileReport)
        ensures
            r.file@ == display@,
            previewed(r.diagnostics@) == with_previews(diagnostic::reports(fixed.diagnostics@)),
            r.error is None,
            told(r.output_file) == match output {
                Some(path) => Some(path@),
                None => None,
            },
            told(r.fixed_sql) == if stdin_input && output is None {
                Some(fixed.sql@)
            } else {
                None
            },
    {
        let FixOutput { sql, diagnostics } = fixed;
        let fixed_sql = if stdin_input && output.is_none() {
            Some(sql)
        } else {
            None
        };
        let output_file = match output {
            Some(path) => Some(path.to_owned()),
            None => None,
        };
        FileReport {
            file: display.to_owned(),
            diagnostics: add_previews(diagnostics),
            error: None,
            output_file,
            fixed_sql,
        }
    }
}

/// Every report is counted once.
pub proof fn law_every_report_is_counted(ds: Seq<diagnostic::DiagnosticView>)
    ensures
        tally(ds).errors + tally(ds).warnings + tally(ds).fixed == ds.len(),
    decreases ds.len(),
{
    if ds.len() > 0 {
        law_every_report_is_counted(ds.drop_last());
    }
}

/// A fixing run ends with 0 only where every input was read and written and everything that was
/// found was fixed without a warning.
pub proof fn law_clean_exit(run: FixRun)
    ensures
        run.exit_code_spec() == 0 <==> !run.had_unfixable && !run.had_io_error
            && run.summary.warnings == 0,
        run.exit_code_spec() == 3 ==> !run.had_unfixable && !run.had_io_error,
{
}

/// Whether the counts of a run tell what its exit code tells: an error was found or met exactly
/// where it is counted.
pub open spec fn in_step(run: FixRunModel) -> bool {
    (run.had_unfixable || run.had_io_error) <==> run.summary.errors > 0
}

/// The counts of a fixing run stay in step with its exit code, so that one who reads the counts
/// alone does not take a failed run for a clean one.
pub proof fn law_counts_stay_in_step(
    run: FixRunModel,
    display: Seq<char>,
    source: Seq<char>,
    ds: Seq<diagnostic::DiagnosticView>,
)
    requires
        in_step(run),
    ensures
        in_step(after_fix(run, display, source, ds)),
        in_step(
            (FixRunModel { had_io_error: true, summary: with_failure(run.summary), ..run }),
        ),
{
}

/// What a run has come to say stays said: an error of one input is not undone by the next.
pub proof fn law_runs_forget_nothing(
    run: FixRunModel,
    display: Seq<char>,
    source: Seq<char>,
    ds: Seq<diagnostic::DiagnosticView>,
)
    ensures
        run.had_unfixable ==> after_fix(run, display, source, ds).had_unfixable,
        run.had_io_error ==> after_fix(run, display, source, ds).had_io_error,
        run.summary.errors <= after_fix(run, display, source, ds).summary.errors,
        run.summary.warnings <= after_fix(run, display, source, ds).summary.warnings,
        run.unfixable_files.is_prefix_of(after_fix(run, display, source, ds).unfixable_files),
{
}

proof fn lemma_word_scan(s: Seq<char>)
    ensures
        forall|i: int, j: int|
            0 <= i < word_scan(s).0.len() && 0 <= j < word_scan(s).0[i].len() ==> !text::white(
                #[trigger] word_scan(s).0[i][j],
            ),
        forall|i: int| 0 <= i < word_scan(s).0.len() ==> (#[trigger] word_scan(s).0[i]).len() > 0,
        forall|j: int|
            0 <= j < word_scan(s).1.len() ==> !text::white(#[trigger] word_scan(s).1[j]),
    decreases s.len(),
{
    if s.len() > 0 {
        lemma_word_scan(s.drop_last());
        let (done, open) = word_scan(s.drop_last());
        let now = word_scan(s);
        assert forall|i: int, j: int|
            0 <= i < now.0.len() && 0 <= j < now.0[i].len() implies !text::white(
            #[trigger] now.0[i][j],
        ) by {
            if i < done.len() {
                assert(now.0[i] == done[i]);
                assert(!text::white(done[i][j]));
            } else {
                assert(!text::white(open[j]));
            }
        }
        assert forall|i: int| 0 <= i < now.0.len() implies (#[trigger] now.0[i]).len() > 0 by {
            if i < done.len() {
                assert(now.0[i] == done[i]);
            }
        }
        assert forall|j: int| 0 <= j < now.1.len() implies !text::white(#[trigger] now.1[j]) by {
            if j < open.len() {
                assert(!text::white(open[j]));
            }
        }
    }
}

/// The words of a text hold no white space, and none is empty; a preview is no longer than
/// eighty characters and the mark that there are more.
pub proof fn law_previews_are_short(s: Seq<char>)
    ensures
        preview(s).len() <= 81,
        forall|i: int, j: int|
            0 <= i < words(s).len() && 0 <= j < words(s)[i].len() ==> !text::white(
                #[trigger] words(s)[i][j],
            ),
        forall|i: int| 0 <= i < words(s).len() ==> (#[trigger] words(s)[i]).len() > 0,
{
    reveal_strlit("…");
    lemma_word_scan(s);
    let (done, open) = word_scan(s);
    assert forall|i: int, j: int|
        0 <= i < words(s).len() && 0 <= j < words(s)[i].len() implies !text::white(
        #[trigger] words(s)[i][j],
    ) by {
        if i < done.len() {
            assert(words(s)[i] == done[i]);
            assert(!text::white(done[i][j]));
        } else {
            assert(!text::white(open[j]));
        }
    }
    assert forall|i: int| 0 <= i < words(s).len() implies (#[trigger] words(s)[i]).len() > 0 by {
        if i < done.len() {
            assert(words(s)[i] == done[i]);
        }
    }
}

proof fn lemma_joined_on_one_line(parts: Seq<Seq<char>>)
    requires
        forall|i: int, j: int|
            0 <= i < parts.len() && 0 <= j < parts[i].len() ==> #[trigger] parts[i][j] != '\n',
    ensures
        forall|k: int|
            0 <= k < text::joined(parts, " "@).len() ==> #[trigger] text::joined(
                parts,
                " "@,
            )[k] != '\n',
    decreases parts.len(),
{
    reveal_strlit(" ");
    if parts.len() > 1 {
        let front = parts.drop_last();
        assert forall|i: int, j: int|
            0 <= i < front.len() && 0 <= j < front[i].len() implies #[trigger] front[i][j]
            != '\n' by {
            assert(front[i][j] == parts[i][j]);
        }
        lemma_joined_on_one_line(front);
        let before = text::joined(front, " "@);
        let all = text::joined(parts, " "@);
        assert forall|k: int| 0 <= k < all.len() implies #[trigger] all[k] != '\n' by {
            if k < before.len() {
                assert(all[k] == before[k]);
            } else if k > before.len() {
                assert(all[k] == parts[parts.len() - 1][k - before.len() - 1]);
            }
        }
    } else if parts.len() == 1 {
        assert forall|k: int| 0 <= k < parts[0].len() implies #[trigger] parts[0][k] != '\n' by {}
    }
}

/// A preview is on one line.
pub proof fn law_previews_hold_no_line_break(s: Seq<char>)
    ensures
        forall|k: int| 0 <= k < preview(s).len() ==> #[trigger] preview(s)[k] != '\n',
{
    reveal_strlit("…");
    law_previews_are_short(s);
    let ws = words(s);
    assert forall|i: int, j: int|
        0 <= i < ws.len() && 0 <= j < ws[i].len() implies #[trigger] ws[i][j] != '\n' by {
        assert(!text::white(words(s)[i][j]));
    }
    lemma_joined_on_one_line(ws);
}

} // verus!
