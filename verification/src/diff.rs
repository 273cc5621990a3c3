//! Where the linter and the grammar differ: each statement of a corpus is held against both.

use vstd::prelude::*;
use vstd::string::StringExecFns;

use crate::diagnostic::{self, Diagnostic};
use crate::grammar::{self, model, split_statements, Grammar};
use crate::lint::{self, lint_sql};
use crate::report;
use crate::split;
use crate::syntax::Dialect;
use crate::text::{
    self, chars_of, decimal_text, slice_text, split_lines, strip_prefix, trim, trim_start,
};

verus! {

/// How the linter and the grammar stand to each other on a statement.
#[derive(Debug, Clone, Copy, PartialEq, Eq, Structural)]
pub enum Category {
    /// Both accept it, or neither does.
    Agreement,
    /// The linter accepts what the grammar does not.
    LintTooLenient,
    /// The linter reports what the grammar accepts.
    LintTooStrict,
    /// The grammar says nothing.
    ParseError,
}

/// How the linter and the grammar stand to each other, by what the grammar says and whether the
/// linter reports nothing.
pub open spec fn category_of(accepted: Option<bool>, passes: bool) -> Category {
    match accepted {
        None => Category::ParseError,
        Some(a) => if a == passes {
            Category::Agreement
        } else if a {
            Category::LintTooStrict
        } else {
            Category::LintTooLenient
        },
    }
}

/// How the linter and the grammar stand to each other.
pub fn classify(accepted: Option<bool>, passes: bool) -> (r: Category)
    ensures
        r == category_of(accepted, passes),
{
    match accepted {
        None => Category::ParseError,
        Some(a) => if a == passes {
            Category::Agreement
        } else if a {
            Category::LintTooStrict
        } else {
            Category::LintTooLenient
        },
    }
}

/// The counts of one file.
#[derive(Debug, Clone, Copy, PartialEq, Eq, Structural)]
pub struct FileSummary {
    pub statements: usize,
    pub agreement: usize,
    pub lint_too_lenient: usize,
    pub lint_too_strict: usize,
    pub parse_error: usize,
}

/// The counts of a corpus.
#[derive(Debug, Clone, Copy, PartialEq, Eq, Structural)]
pub struct Totals {
    pub files_processed: usize,
    pub file_read_errors: usize,
    pub file_tokenize_errors: usize,
    pub agreement: usize,
    pub lint_too_lenient: usize,
    pub lint_too_strict: usize,
    pub parse_error: usize,
}

/// The counts of nothing.
pub open spec fn no_file() -> FileSummary {
    FileSummary {
        statements: 0,
        agreement: 0,
        lint_too_lenient: 0,
        lint_too_strict: 0,
        parse_error: 0,
    }
}

impl Totals {
    /// The counts before the first file.
    pub fn new() -> (r: Totals)
        ensures
            r == (Totals {
                files_processed: 0,
                file_read_errors: 0,
                file_tokenize_errors: 0,
                agreement: 0,
                lint_too_lenient: 0,
                lint_too_strict: 0,
                parse_error: 0,
            }),
    {
        Totals {
            files_processed: 0,
            file_read_errors: 0,
            file_tokenize_errors: 0,
            agreement: 0,
            lint_too_lenient: 0,
            lint_too_strict: 0,
            parse_error: 0,
        }
    }

    /// Takes note of a file that could not be read.
    pub fn note_read_error(&mut self)
        ensures
            *final(self) == (Totals {
                file_read_errors: report::plus(old(self).file_read_errors, 1),
                ..*old(self)
            }),
    {
        self.file_read_errors = self.file_read_errors.saturating_add(1);
    }

    /// Whether a file could not be read or is no sequence of tokens.
    pub fn failed(&self) -> (r: bool)
        ensures
            r == (self.file_read_errors > 0 || self.file_tokenize_errors > 0),
    {
        self.file_read_errors > 0 || self.file_tokenize_errors > 0
    }
}

/// The counts of a file with one statement more.
pub open spec fn bumped_file(cat: Category, s: FileSummary) -> FileSummary {
    match cat {
        Category::Agreement => FileSummary { agreement: report::plus(s.agreement, 1), ..s },
        Category::LintTooLenient => FileSummary {
            lint_too_lenient: report::plus(s.lint_too_lenient, 1),
            ..s
        },
        Category::LintTooStrict => FileSummary {
            lint_too_strict: report::plus(s.lint_too_strict, 1),
            ..s
        },
        Category::ParseError => FileSummary { parse_error: report::plus(s.parse_error, 1), ..s },
    }
}

/// The counts of a corpus with one statement more.
pub open spec fn bumped_totals(cat: Category, t: Totals) -> Totals {
    match cat {
        Category::Agreement => Totals { agreement: report::plus(t.agreement, 1), ..t },
        Category::LintTooLenient => Totals {
            lint_too_lenient: report::plus(t.lint_too_lenient, 1),
            ..t
        },
        Category::LintTooStrict => Totals {
            lint_too_strict: report::plus(t.lint_too_strict, 1),
            ..t
        },
        Category::ParseError => Totals { parse_error: report::plus(t.parse_error, 1), ..t },
    }
}

/// Counts a statement, in its file and in the corpus.
pub fn bump(cat: Category, summary: &mut FileSummary, totals: &mut Totals)
    ensures
        *final(summary) == bumped_file(cat, *old(summary)),
        *final(totals) == bumped_totals(cat, *old(totals)),
{
    match cat {
        Category::Agreement => {
            summary.agreement = summary.agreement.saturating_add(1);
            totals.agreement = totals.agreement.saturating_add(1);
        },
        Category::LintTooLenient => {
            summary.lint_too_lenient = summary.lint_too_lenient.saturating_add(1);
            totals.lint_too_lenient = totals.lint_too_lenient.saturating_add(1);
        },
        Category::LintTooStrict => {
            summary.lint_too_strict = summary.lint_too_strict.saturating_add(1);
            totals.lint_too_strict = totals.lint_too_strict.saturating_add(1);
        },
        Category::ParseError => {
            summary.parse_error = summary.parse_error.saturating_add(1);
            totals.parse_error = totals.parse_error.saturating_add(1);
        },
    }
}

/// The first line of a statement, with three points behind it where it is cut.
pub open spec fn first_line(raw: Seq<char>) -> Seq<char> {
    let ls = text::lines(raw);
    let line = if ls.len() > 0 {
        text::trimmed(ls[0])
    } else {
        seq![]
    };
    if line.len() > 120 {
        line.take(117) + "..."@
    } else {
        line
    }
}

/// The first line of a statement, with three points behind it where it is cut.
pub fn preview(raw: &str) -> (r: String)
    ensures
        r@ == first_line(raw@),
{
    let ls = split_lines(raw);
    let line = if ls.len() > 0 {
        proof {
            assert(text::views(ls@)[0] == ls@[0]@);
        }
        trim(ls[0].as_str())
    } else {
        String::new()
    };
    let chars = chars_of(line.as_str());
    if chars.len() > 120 {
        proof {
            assert(chars@.subrange(0, 117) =~= chars@.take(117));
        }
        let mut out = slice_text(&chars, 0, 117);
        out.append("...");
        out
    } else {
        line
    }
}

/// The label that a line gives: `-- label: ...`.
pub open spec fn label_in(line: Seq<char>) -> Option<Seq<char>> {
    let trimmed = text::trimmed_start(line);
    if !text::begins(trimmed, "--"@) {
        None
    } else {
        let body = text::trimmed_start(trimmed.skip("--"@.len() as int));
        if !text::begins(body, "label:"@) {
            None
        } else {
            let label = text::trimmed(body.skip("label:"@.len() as int));
            if label.len() > 0 {
                Some(label)
            } else {
                None
            }
        }
    }
}

/// The labels of some lines, each with the number of its line.
pub open spec fn labels_in(ls: Seq<Seq<char>>) -> Seq<(usize, Seq<char>)>
    decreases ls.len(),
{
    if ls.len() == 0 {
        seq![]
    } else {
        let before = labels_in(ls.drop_last());
        match label_in(ls.last()) {
            Some(label) => before.push((ls.len() as usize, label)),
            None => before,
        }
    }
}

/// The label of a statement at a line: the last that stands at it or before it.
pub open spec fn label_at(labels: Seq<(usize, Seq<char>)>, line: usize) -> Option<Seq<char>>
    decreases labels.len(),
{
    if labels.len() == 0 {
        None
    } else if labels.last().0 <= line {
        Some(labels.last().1)
    } else {
        label_at(labels.drop_last(), line)
    }
}

fn read_label(line: &str) -> (r: Option<String>)
    ensures
        match (r, label_in(line@)) {
            (Some(s), Some(label)) => s@ == label,
            (None, None) => true,
            _ => false,
        },
{
    match strip_prefix(trim_start(line).as_str(), "--") {
        Some(rest) => match strip_prefix(trim_start(rest.as_str()).as_str(), "label:") {
            Some(part) => {
                let label = trim(part.as_str());
                if label.as_str().is_empty() {
                    None
                } else {
                    Some(label)
                }
            },
            None => None,
        },
        None => None,
    }
}

/// The labels of a file, each with the number of its line.
pub fn label_map(raw: &str) -> (r: Vec<(usize, String)>)
    ensures
        split::parts_view(r@) == labels_in(text::lines(raw@)),
{
    let ls = split_lines(raw);
    let ghost vs = text::views(ls@);
    let size: usize = ls.len();
    let mut out: Vec<(usize, String)> = Vec::new();
    let mut i: usize = 0;
    proof {
        assert(vs.take(0) =~= seq![]);
        assert(split::parts_view(out@) =~= seq![]);
    }
    while i < size
        invariant
            i <= size == ls@.len(),
            vs == text::views(ls@),
            split::parts_view(out@) == labels_in(vs.take(i as int)),
        decreases size - i,
    {
        proof {
            assert(vs.take(i + 1).drop_last() =~= vs.take(i as int));
            assert(vs.take(i + 1).last() == ls@[i as int]@);
        }
        if let Some(label) = read_label(ls[i].as_str()) {
            let ghost held = out@;
            let ghost view = ((i + 1) as usize, label@);
            out.push((i + 1, label));
            proof {
                assert(split::parts_view(out@) =~= split::parts_view(held).push(view));
            }
        }
        i += 1;
    }
    proof {
        assert(vs.take(i as int) =~= vs);
    }
    out
}

fn find_label(labels: &Vec<(usize, String)>, line: usize) -> (r: Option<String>)
    ensures
        match (r, label_at(split::parts_view(labels@), line)) {
            (Some(s), Some(label)) => s@ == label,
            (None, None) => true,
            _ => false,
        },
{
    let ghost vs = split::parts_view(labels@);
    let mut i: usize = labels.len();
    proof {
        assert(vs.take(i as int) =~= vs);
    }
    while i > 0
        invariant
            i <= labels@.len(),
            vs == split::parts_view(labels@),
            label_at(vs, line) == label_at(vs.take(i as int), line),
        decreases i,
    {
        i -= 1;
        proof {
            assert(vs.take(i + 1).drop_last() =~= vs.take(i as int));
            assert(vs.take(i + 1).last() == (labels@[i as int].0, labels@[i as int].1@));
        }
        if labels[i].0 <= line {
            return Some(labels[i].1.clone());
        }
    }
    None
}

/// A statement on which the linter and the grammar differ.
#[derive(Debug)]
pub struct Entry {
    pub line: usize,
    pub category: Category,
    pub label: Option<String>,
    pub diagnostics: Vec<Diagnostic>,
    /// What the grammar says where it neither accepts nor refuses.
    pub grammar_error: Option<String>,
    pub sql_preview: String,
}

/// The model of an [`Entry`].
pub ghost struct EntryModel {
    pub line: usize,
    pub category: Category,
    pub label: Option<Seq<char>>,
    pub reports: Seq<diagnostic::DiagnosticView>,
    pub grammar_error: Option<Seq<char>>,
    pub sql_preview: Seq<char>,
}

impl View for Entry {
    type V = EntryModel;

    open spec fn view(&self) -> EntryModel {
        EntryModel {
            line: self.line,
            category: self.category,
            label: report::told(self.label),
            reports: diagnostic::reports(self.diagnostics@),
            grammar_error: report::told(self.grammar_error),
            sql_preview: self.sql_preview@,
        }
    }
}

/// The models of entries.
pub open spec fn entries_view(es: Seq<Entry>) -> Seq<EntryModel> {
    es.map_values(|e: Entry| e@)
}

/// What a statement comes to, in a grammar of the given rules.
pub open spec fn compared(
    rules: Seq<(Seq<char>, model::RuleModel)>,
    labels: Seq<(usize, Seq<char>)>,
    part: (usize, Seq<char>),
) -> EntryModel {
    let reports = lint::linted(part.1);
    let (accepted, error) = match grammar::verdict(rules, part.1) {
        Ok((a, _)) => (Some(a), None),
        Err(e) => (None, Some(e)),
    };
    EntryModel {
        line: part.0,
        category: category_of(accepted, reports.len() == 0),
        label: label_at(labels, part.0),
        reports,
        grammar_error: error,
        sql_preview: first_line(part.1),
    }
}

/// The counts of a file and of the corpus, and the statements on which the two differ.
pub ghost struct Comparison {
    pub summary: FileSummary,
    pub totals: Totals,
    pub entries: Seq<EntryModel>,
}

/// What the statements of a file come to.
pub open spec fn compared_all(
    rules: Seq<(Seq<char>, model::RuleModel)>,
    labels: Seq<(usize, Seq<char>)>,
    parts: Seq<(usize, Seq<char>)>,
    totals: Totals,
) -> Comparison
    decreases parts.len(),
{
    if parts.len() == 0 {
        Comparison { summary: no_file(), totals, entries: seq![] }
    } else {
        let before = compared_all(rules, labels, parts.drop_last(), totals);
        let entry = compared(rules, labels, parts.last());
        let counted = bumped_file(entry.category, before.summary);
        Comparison {
            summary: FileSummary {
                statements: report::plus(counted.statements, 1),
                ..counted
            },
            totals: bumped_totals(entry.category, before.totals),
            entries: if entry.category == Category::Agreement {
                before.entries
            } else {
                before.entries.push(entry)
            },
        }
    }
}

fn compare_statement(
    grammar: &Grammar,
    labels: &Vec<(usize, String)>,
    line: usize,
    raw: &str,
) -> (r: Entry)
    ensures
        r@ == compared(grammar.rules(), split::parts_view(labels@), (line, raw@)),
{
    let diagnostics = lint_sql(raw);
    let passes = diagnostics.len() == 0;
    let (accepted, grammar_error) = match grammar.accepts(raw) {
        Ok(a) => (Some(a), None),
        Err(e) => (None, Some(e)),
    };
    Entry {
        line,
        category: classify(accepted, passes),
        label: find_label(labels, line),
        diagnostics,
        grammar_error,
        sql_preview: preview(raw),
    }
}

/// Holds each statement of a file against the linter and the grammar. A file that is no sequence
/// of tokens is counted as such, and the tokenizer's message is returned.
pub fn compare_file(grammar: &Grammar, raw: &str, totals: &mut Totals) -> (r: Result<
    (FileSummary, Vec<Entry>),
    String,
>)
    ensures
        ({
            let begun = Totals {
                files_processed: report::plus(old(totals).files_processed, 1),
                ..*old(totals)
            };
            match (r, split::split(Dialect::Postgres, raw@)) {
                (Ok((summary, entries)), Ok(parts)) => {
                    let done = compared_all(
                        grammar.rules(),
                        labels_in(text::lines(raw@)),
                        parts,
                        begun,
                    );
                    &&& summary == done.summary
                    &&& *final(totals) == done.totals
                    &&& entries_view(entries@) == done.entries
                },
                (Err(e), Err(m)) => e@ == m && *final(totals) == (Totals {
                    file_tokenize_errors: report::plus(begun.file_tokenize_errors, 1),
                    ..begun
                }),
                _ => false,
            }
        }),
{
    totals.files_processed = totals.files_processed.saturating_add(1);
    let ghost begun = *totals;
    let stmts = match split_statements(raw) {
        Ok(stmts) => stmts,
        Err(e) => {
            totals.file_tokenize_errors = totals.file_tokenize_errors.saturating_add(1);
            return Err(e);
        },
    };
    let ghost parts = grammar::statements_view(stmts@);
    let ghost rules = grammar.rules();
    let labels = label_map(raw);
    let ghost ls = split::parts_view(labels@);
    let mut summary = FileSummary {
        statements: 0,
        agreement: 0,
        lint_too_lenient: 0,
        lint_too_strict: 0,
        parse_error: 0,
    };
    let mut entries: Vec<Entry> = Vec::new();
    let mut i: usize = 0;
    proof {
        assert(parts.take(0) =~= seq![]);
        assert(entries_view(entries@) =~= seq![]);
    }
    while i < stmts.len()
        invariant
            i <= stmts@.len(),
            parts == grammar::statements_view(stmts@),
            rules == grammar.rules(),
            ls == split::parts_view(labels@),
            summary == compared_all(rules, ls, parts.take(i as int), begun).summary,
            *totals == compared_all(rules, ls, parts.take(i as int), begun).totals,
            entries_view(entries@) == compared_all(
                rules,
                ls,
                parts.take(i as int),
                begun,
            ).entries,
        decreases stmts@.len() - i,
    {
        proof {
            assert(parts.take(i + 1).drop_last() =~= parts.take(i as int));
            assert(parts.take(i + 1).last() == (stmts@[i as int].line, stmts@[i as int].raw@));
        }
        let entry = compare_statement(grammar, &labels, stmts[i].line, stmts[i].raw.as_str());
        bump(entry.category, &mut summary, totals);
        summary.statements = summary.statements.saturating_add(1);
        if entry.category != Category::Agreement {
            let ghost held = entries@;
            entries.push(entry);
            proof {
                assert(entries_view(entries@) =~= entries_view(held).push(entry@));
            }
        }
        i += 1;
    }
    proof {
        assert(parts.take(i as int) =~= parts);
    }
    Ok((summary, entries))
}

/// The lines about the linter's reports on a statement.
pub open spec fn rule_lines(ds: Seq<diagnostic::DiagnosticView>) -> Seq<Seq<char>>
    decreases ds.len(),
{
    if ds.len() == 0 {
        seq![]
    } else {
        rule_lines(ds.drop_last()).push(
            "         - "@ + diagnostic::rule_name(ds.last().rule) + ": "@ + ds.last().message,
        )
    }
}

/// The word for a category.
pub open spec fn category_word(c: Category) -> Seq<char> {
    match c {
        Category::LintTooStrict => "lint-too-strict"@,
        Category::LintTooLenient => "lint-too-lenient"@,
        Category::ParseError => "parse-error"@,
        Category::Agreement => "agreement"@,
    }
}

/// The lines about what differs.
pub open spec fn detail_lines(e: EntryModel) -> Seq<Seq<char>> {
    match e.category {
        Category::LintTooStrict => seq![
            "       grammar: accepts"@,
            "       lint flagged:"@,
        ] + rule_lines(e.reports),
        Category::LintTooLenient => seq![
            "       lint: passes"@,
            "       grammar: rejects"@,
        ],
        Category::ParseError => seq![
            match e.grammar_error {
                Some(m) => "       grammar: parse error: "@ + m,
                None => "       grammar: parse error"@,
            },
        ] + (if e.reports.len() > 0 {
            seq!["       lint flagged:"@] + rule_lines(e.reports)
        } else {
            seq![]
        }),
        Category::Agreement => seq![],
    }
}

/// The first line about a statement: where it stands and how the two differ on it.
pub open spec fn head_line(e: EntryModel) -> Seq<char> {
    let head = "  L"@ + text::decimal(e.line as nat) + " "@ + category_word(e.category);
    match e.label {
        Some(l) => head + "  [label: "@ + l + "]"@,
        None => head,
    }
}

/// The lines about a statement, a blank one before them.
pub open spec fn entry_lines(e: EntryModel) -> Seq<Seq<char>> {
    seq![""@, head_line(e)] + detail_lines(e) + seq!["       sql: "@ + e.sql_preview]
}

/// The lines about the statements of a file.
pub open spec fn entries_lines(es: Seq<EntryModel>) -> Seq<Seq<char>>
    decreases es.len(),
{
    if es.len() == 0 {
        seq![]
    } else {
        entries_lines(es.drop_last()) + entry_lines(es.last())
    }
}

/// The line about the counts of a file.
pub open spec fn counts_line(s: FileSummary) -> Seq<char> {
    "  "@ + text::decimal(s.statements as nat) + " statements: "@ + text::decimal(
        s.lint_too_strict as nat,
    ) + " lint-too-strict, "@ + text::decimal(s.lint_too_lenient as nat) + " lint-too-lenient, "@
        + text::decimal(s.parse_error as nat) + " parse-error, "@ + text::decimal(
        s.agreement as nat,
    ) + " agreement"@
}

/// The lines about a file, a blank one behind them.
pub open spec fn file_lines(
    name: Seq<char>,
    s: FileSummary,
    es: Seq<EntryModel>,
) -> Seq<Seq<char>> {
    seq!["== "@ + name + " =="@, counts_line(s)] + entries_lines(es) + seq![""@]
}

/// The line about the counts of a corpus.
pub open spec fn totals_line(t: Totals) -> Seq<char> {
    "Summary: "@ + text::decimal(t.lint_too_strict as nat) + " lint-too-strict, "@
        + text::decimal(t.lint_too_lenient as nat) + " lint-too-lenient, "@ + text::decimal(
        t.parse_error as nat,
    ) + " parse-error  (files: "@ + text::decimal(t.files_processed as nat) + " processed, "@
        + text::decimal(t.file_read_errors as nat) + " read-errors, "@ + text::decimal(
        t.file_tokenize_errors as nat,
    ) + " tokenize-errors, "@ + text::decimal(t.agreement as nat) + " agreement statements)"@
}

fn push_line(out: &mut Vec<String>, line: String)
    ensures
        text::views(final(out)@) == text::views(old(out)@).push(line@),
{
    let ghost held = out@;
    out.push(line);
    proof {
        assert(text::views(out@) =~= text::views(held).push(line@));
    }
}

fn push_rules(ds: &Vec<Diagnostic>, out: &mut Vec<String>)
    ensures
        text::views(final(out)@) == text::views(old(out)@) + rule_lines(
            diagnostic::reports(ds@),
        ),
{
    let ghost held = text::views(out@);
    let ghost vs = diagnostic::reports(ds@);
    let mut i: usize = 0;
    proof {
        assert(vs.take(0) =~= seq![]);
        assert(held + rule_lines(vs.take(0)) =~= held);
    }
    while i < ds.len()
        invariant
            i <= ds@.len(),
            vs == diagnostic::reports(ds@),
            text::views(out@) == held + rule_lines(vs.take(i as int)),
        decreases ds@.len() - i,
    {
        let mut line = "         - ".to_owned();
        line.append(ds[i].rule.name());
        line.append(": ");
        line.append(ds[i].message.as_str());
        proof {
            assert(vs.take(i + 1).drop_last() =~= vs.take(i as int));
            assert(vs.take(i + 1).last() == ds@[i as int]@);
            assert(held + rule_lines(vs.take(i + 1)) =~= (held + rule_lines(
                vs.take(i as int),
            )).push(line@));
        }
        push_line(out, line);
        i += 1;
    }
    proof {
        assert(vs.take(i as int) =~= vs);
    }
}

fn push_detail(e: &Entry, out: &mut Vec<String>)
    ensures
        text::views(final(out)@) == text::views(old(out)@) + detail_lines(e@),
{
    let ghost held = text::views(out@);
    match e.category {
        Category::LintTooStrict => {
            push_line(out, "       grammar: accepts".to_owned());
            push_line(out, "       lint flagged:".to_owned());
            push_rules(&e.diagnostics, out);
        },
        Category::LintTooLenient => {
            push_line(out, "       lint: passes".to_owned());
            push_line(out, "       grammar: rejects".to_owned());
        },
        Category::ParseError => {
            match &e.grammar_error {
                Some(m) => {
                    let mut line = "       grammar: parse error: ".to_owned();
                    line.append(m.as_str());
                    push_line(out, line);
                },
                None => {
                    push_line(out, "       grammar: parse error".to_owned());
                },
            }
            if e.diagnostics.len() > 0 {
                push_line(out, "       lint flagged:".to_owned());
                push_rules(&e.diagnostics, out);
            }
        },
        Category::Agreement => {},
    }
    proof {
        assert(text::views(out@) =~= held + detail_lines(e@));
    }
}

fn write_head(e: &Entry) -> (r: String)
    ensures
        r@ == head_line(e@),
{
    let mut out = "  L".to_owned();
    out.append(decimal_text(e.line as u64).as_str());
    out.append(" ");
    out.append(
        match e.category {
            Category::LintTooStrict => "lint-too-strict",
            Category::LintTooLenient => "lint-too-lenient",
            Category::ParseError => "parse-error",
            Category::Agreement => "agreement",
        },
    );
    if let Some(l) = &e.label {
        out.append("  [label: ");
        out.append(l.as_str());
        out.append("]");
    }
    out
}

fn push_entry(e: &Entry, out: &mut Vec<String>)
    ensures
        text::views(final(out)@) == text::views(old(out)@) + entry_lines(e@),
{
    let ghost held = text::views(out@);
    push_line(out, "".to_owned());
    push_line(out, write_head(e));
    push_detail(e, out);
    let mut last = "       sql: ".to_owned();
    last.append(e.sql_preview.as_str());
    push_line(out, last);
    proof {
        assert(text::views(out@) =~= held + entry_lines(e@));
    }
}

fn write_counts(s: &FileSummary) -> (r: String)
    ensures
        r@ == counts_line(*s),
{
    let mut out = "  ".to_owned();
    out.append(decimal_text(s.statements as u64).as_str());
    out.append(" statements: ");
    out.append(decimal_text(s.lint_too_strict as u64).as_str());
    out.append(" lint-too-strict, ");
    out.append(decimal_text(s.lint_too_lenient as u64).as_str());
    out.append(" lint-too-lenient, ");
    out.append(decimal_text(s.parse_error as u64).as_str());
    out.append(" parse-error, ");
    out.append(decimal_text(s.agreement as u64).as_str());
    out.append(" agreement");
    out
}

/// The lines about a file, a blank one behind them.
pub fn write_file(name: &str, summary: &FileSummary, entries: &Vec<Entry>) -> (r: Vec<String>)
    ensures
        text::views(r@) == file_lines(name@, *summary, entries_view(entries@)),
{
    let ghost es = entries_view(entries@);
    let mut out: Vec<String> = Vec::new();
    let mut head = "== ".to_owned();
    head.append(name);
    head.append(" ==");
    let ghost first = head@;
    out.push(head);
    out.push(write_counts(summary));
    let ghost held = text::views(out@);
    let mut i: usize = 0;
    proof {
        assert(held =~= seq![first, counts_line(*summary)]);
        assert(es.take(0) =~= seq![]);
        assert(held + entries_lines(es.take(0)) =~= held);
    }
    while i < entries.len()
        invariant
            i <= entries@.len(),
            es == entries_view(entries@),
            text::views(out@) == held + entries_lines(es.take(i as int)),
        decreases entries@.len() - i,
    {
        proof {
            assert(es.take(i + 1).drop_last() =~= es.take(i as int));
            assert(es.take(i + 1).last() == entries@[i as int]@);
            assert(held + entries_lines(es.take(i + 1)) =~= (held + entries_lines(
                es.take(i as int),
            )) + entry_lines(es[i as int]));
        }
        push_entry(&entries[i], &mut out);
        i += 1;
    }
    push_line(&mut out, "".to_owned());
    proof {
        assert(es.take(i as int) =~= es);
        assert(text::views(out@) =~= file_lines(name@, *summary, es));
    }
    out
}

/// The line about the counts of a corpus.
pub fn write_totals(t: &Totals) -> (r: String)
    ensures
        r@ == totals_line(*t),
{
    let mut out = "Summary: ".to_owned();
    out.append(decimal_text(t.lint_too_strict as u64).as_str());
    out.append(" lint-too-strict, ");
    out.append(decimal_text(t.lint_too_lenient as u64).as_str());
    out.append(" lint-too-lenient, ");
    out.append(decimal_text(t.parse_error as u64).as_str());
    out.append(" parse-error  (files: ");
    out.append(decimal_text(t.files_processed as u64).as_str());
    out.append(" processed, ");
    out.append(decimal_text(t.file_read_errors as u64).as_str());
    out.append(" read-errors, ");
    out.append(decimal_text(t.file_tokenize_errors as u64).as_str());
    out.append(" tokenize-errors, ");
    out.append(decimal_text(t.agreement as u64).as_str());
    out.append(" agreement statements)");
    out
}

/// The statements of a file that are told of are those on which the linter and the grammar
/// differ, and no other.
pub proof fn law_agreement_is_not_told(
    rules: Seq<(Seq<char>, model::RuleModel)>,
    labels: Seq<(usize, Seq<char>)>,
    parts: Seq<(usize, Seq<char>)>,
    totals: Totals,
)
    ensures
        ({
            let done = compared_all(rules, labels, parts, totals);
            &&& done.entries.len() <= parts.len()
            &&& forall|i: int|
                0 <= i < done.entries.len() ==> (#[trigger] done.entries[i]).category
                    != Category::Agreement
        }),
    decreases parts.len(),
{
    if parts.len() > 0 {
        law_agreement_is_not_told(rules, labels, parts.drop_last(), totals);
        let before = compared_all(rules, labels, parts.drop_last(), totals);
        let done = compared_all(rules, labels, parts, totals);
        assert forall|i: int| 0 <= i < done.entries.len() implies (
        #[trigger] done.entries[i]).category != Category::Agreement by {
            if i < before.entries.len() {
                assert(done.entries[i] == before.entries[i]);
            }
        }
    }
}

/// Every statement of a file is counted in one category, as far as a machine word holds the
/// count.
pub proof fn law_every_statement_is_counted(
    rules: Seq<(Seq<char>, model::RuleModel)>,
    labels: Seq<(usize, Seq<char>)>,
    parts: Seq<(usize, Seq<char>)>,
    totals: Totals,
)
    requires
        parts.len() <= usize::MAX,
    ensures
        ({
            let s = compared_all(rules, labels, parts, totals).summary;
            &&& s.statements == parts.len()
            &&& s.agreement + s.lint_too_lenient + s.lint_too_strict + s.parse_error
                == parts.len()
        }),
    decreases parts.len(),
{
    if parts.len() > 0 {
        law_every_statement_is_counted(rules, labels, parts.drop_last(), totals);
    }
}

} // verus!
