//! The linter and the fixer: a script is split into statements, the idioms that span several
//! statements are taken first, then each statement by itself, then the transactions.

use serde_json::Value;
use vstd::prelude::*;
use vstd::string::StringExecFns;

use crate::diagnostic::{self, Diagnostic, FixOutput, FixResult, LintRule};
use crate::gap::{
    self, is_supported_parser_gap_statement, restore_fk_action_column_lists,
    without_fk_action_column_lists, FkParserGap,
};
use crate::rules::constraint_collapse::{
    self, check_alter_add_primary_key, check_alter_add_unique, fix_alter_add_primary_key,
    fix_alter_add_unique, pretty_join, Kind,
};
use crate::rules::{check_statement, errors};
use crate::rules::serial_idiom::{self, check_serial_idioms, fix_serial_idioms};
use crate::split::{self, split_statements, Part};
use crate::syntax::{self, as_list, get, parse, Dialect, Tree};
use crate::text::{self, is_blank, join, strip_trailing};
use crate::transactions::{self, check_ddl_transactions, fix_ddl_transactions};

verus! {

/// The report on a script that is no sequence of tokens.
pub open spec fn tokenize_error(error: Seq<char>) -> diagnostic::DiagnosticView {
    diagnostic::DiagnosticView {
        rule: LintRule::ParseError,
        line: 1,
        statement: seq![],
        message: "Failed to tokenize SQL: "@ + error,
        suggestion: "Fix the SQL syntax and try again."@,
        fix_result: diagnostic::FixView::Unfixable,
    }
}

/// The report on a statement that does not parse.
pub open spec fn parse_error(
    part: (usize, Seq<char>),
    error: Seq<char>,
) -> diagnostic::DiagnosticView {
    diagnostic::DiagnosticView {
        rule: LintRule::ParseError,
        line: part.0,
        statement: part.1,
        message: "Failed to parse SQL: "@ + error,
        suggestion: "Fix the SQL syntax and try again."@,
        fix_result: diagnostic::FixView::Unfixable,
    }
}

/// What the parser makes of a statement, without the action column lists of its foreign keys
/// where it does not parse with them.
pub open spec fn bridged_statements(sql: Seq<char>) -> Result<Seq<Tree>, Seq<char>> {
    match syntax::statements(Dialect::Postgres, sql) {
        Ok(ts) => Ok(ts),
        Err(e) => match gap::fk_gap(sql) {
            Some((parseable, _)) => syntax::statements(Dialect::Postgres, parseable),
            None => Err(e),
        },
    }
}

/// What the rules make of the statements of one part, and what they report.
pub open spec fn ruled_all(ts: Seq<Tree>, raw: Seq<char>) -> (
    Seq<Tree>,
    Seq<diagnostic::DiagnosticView>,
)
    decreases ts.len(),
{
    if ts.len() == 0 {
        (seq![], seq![])
    } else {
        let before = ruled_all(ts.drop_last(), raw);
        let last = errors::ruled(ts.last(), raw);
        (before.0.push(last.0), before.1 + last.1)
    }
}

/// A line counted from the beginning of a statement, as a line of the script.
pub open spec fn script_line(base: usize, line: usize) -> usize {
    if base + line > usize::MAX {
        (usize::MAX - 1) as usize
    } else if base + line == 0 {
        0
    } else {
        (base + line - 1) as usize
    }
}

/// A report of a rule, with the statement and its line in the script.
pub open spec fn placed(
    part: (usize, Seq<char>),
    d: diagnostic::DiagnosticView,
) -> diagnostic::DiagnosticView {
    diagnostic::DiagnosticView {
        line: script_line(part.0, d.line),
        statement: part.1,
        ..d
    }
}

/// The reports of the rules, with the statement and its line in the script.
pub open spec fn placed_all(
    part: (usize, Seq<char>),
    ds: Seq<diagnostic::DiagnosticView>,
) -> Seq<diagnostic::DiagnosticView> {
    ds.map_values(|d: diagnostic::DiagnosticView| placed(part, d))
}

/// The reports on one part.
pub open spec fn part_reports(part: (usize, Seq<char>)) -> Seq<diagnostic::DiagnosticView> {
    if text::trimmed(part.1).len() == 0 {
        seq![]
    } else {
        match bridged_statements(part.1) {
            Ok(ts) => placed_all(part, ruled_all(ts, part.1).1),
            Err(e) => if gap::supported_gap(part.1) {
                seq![]
            } else {
                seq![parse_error(part, e)]
            },
        }
    }
}

/// The reports on each part, one after the other.
pub open spec fn parts_reports(parts: Seq<(usize, Seq<char>)>) -> Seq<diagnostic::DiagnosticView>
    decreases parts.len(),
{
    if parts.len() == 0 {
        seq![]
    } else {
        parts_reports(parts.drop_last()) + part_reports(parts.last())
    }
}

/// The reports on a script that was split into its parts.
pub open spec fn script_reports(parts: Seq<(usize, Seq<char>)>) -> Seq<diagnostic::DiagnosticView> {
    serial_idiom::serial_reports(parts) + constraint_collapse::fold_reports(parts, Kind::Unique)
        + constraint_collapse::fold_reports(parts, Kind::PrimaryKey) + parts_reports(parts)
        + transactions::followed(parts).1
}

/// The reports on a script.
pub open spec fn linted(sql: Seq<char>) -> Seq<diagnostic::DiagnosticView> {
    match split::split(Dialect::Postgres, sql) {
        Ok(parts) => script_reports(parts),
        Err(e) => seq![tokenize_error(e)],
    }
}

pub fn tokenize_diag(error: &str) -> (r: Diagnostic)
    ensures
        r@ == tokenize_error(error@),
{
    let mut message = "Failed to tokenize SQL: ".to_owned();
    message.append(error);
    let r = Diagnostic {
        rule: LintRule::ParseError,
        line: 1,
        statement: String::new(),
        message,
        suggestion: "Fix the SQL syntax and try again.".to_owned(),
        fix_result: FixResult::Unfixable,
    };
    proof {
        assert(r.statement@ =~= seq![]);
    }
    r
}

pub fn parse_diag(part: &Part, error: &str) -> (r: Diagnostic)
    ensures
        r@ == parse_error((part.0, part.1@), error@),
{
    let mut message = "Failed to parse SQL: ".to_owned();
    message.append(error);
    Diagnostic {
        rule: LintRule::ParseError,
        line: part.0,
        statement: part.1.clone(),
        message,
        suggestion: "Fix the SQL syntax and try again.".to_owned(),
        fix_result: FixResult::Unfixable,
    }
}

/// Parses a statement, without the action column lists of its foreign keys where it does not
/// parse with them.
fn parse_bridged(sql: &str, parser_gap: &Option<FkParserGap>) -> (r: Result<Vec<Value>, String>)
    requires
        match (*parser_gap, gap::fk_gap(sql@)) {
            (Some(g), Some((parseable, _))) => g.parseable@ == parseable,
            (None, None) => true,
            _ => false,
        },
    ensures
        syntax::parsed_as(r, bridged_statements(sql@)),
{
    match parse(Dialect::Postgres, sql) {
        Ok(stmts) => Ok(stmts),
        Err(e) => match parser_gap {
            Some(g) => parse(Dialect::Postgres, g.parseable.as_str()),
            None => Err(e),
        },
    }
}

/// Applies the rules to the statements of one part.
pub fn rule_all(stmts: Vec<Value>, raw: &str) -> (r: (Vec<Value>, Vec<Diagnostic>))
    ensures
        ({
            let v = ruled_all(syntax::trees(stmts@), raw@);
            syntax::trees(r.0@) == v.0 && diagnostic::reports(r.1@) == v.1
        }),
{
    let ghost ts = syntax::trees(stmts@);
    let mut out: Vec<Value> = Vec::new();
    let mut diags: Vec<Diagnostic> = Vec::new();
    proof {
        assert(ts.take(0) =~= seq![]);
        assert(syntax::trees(out@) =~= seq![]);
        assert(diagnostic::reports(diags@) =~= seq![]);
    }
    for stmt in it: stmts
        invariant
            ts == syntax::trees(it.seq()),
            syntax::trees(out@) == ruled_all(ts.take(it.index() as int), raw@).0,
            diagnostic::reports(diags@) == ruled_all(ts.take(it.index() as int), raw@).1,
    {
        proof {
            let i = it.index() as int;
            assert(ts.take(i + 1).drop_last() =~= ts.take(i));
            assert(ts.take(i + 1).last() == ts[i]);
        }
        let ghost held = out@;
        let mut s = stmt;
        check_statement(&mut s, raw, &mut diags);
        out.push(s);
        proof {
            assert(syntax::trees(out@) =~= syntax::trees(held).push(syntax::tree(s)));
        }
    }
    proof {
        assert(ts.take(ts.len() as int) =~= ts);
    }
    (out, diags)
}

/// Adds the reports of the rules, with the statement and its line in the script.
pub fn push_placed(part: &Part, found: Vec<Diagnostic>, diagnostics: &mut Vec<Diagnostic>)
    ensures
        diagnostic::reports(final(diagnostics)@) == diagnostic::reports(old(diagnostics)@)
            + placed_all((part.0, part.1@), diagnostic::reports(found@)),
{
    let ghost view = (part.0, part.1@);
    let ghost said = diagnostic::reports(diagnostics@);
    let ghost ds = placed_all(view, diagnostic::reports(found@));
    proof {
        assert(said + ds.take(0) =~= said);
    }
    for d in it: found
        invariant
            view == (part.0, part.1@),
            ds == placed_all(view, diagnostic::reports(it.seq())),
            diagnostic::reports(diagnostics@) == said + ds.take(it.index() as int),
    {
        let ghost held = diagnostics@;
        let line: usize = part.0.saturating_add(d.line).saturating_sub(1);
        let moved = Diagnostic {
            rule: d.rule,
            line,
            statement: part.1.clone(),
            message: d.message,
            suggestion: d.suggestion,
            fix_result: d.fix_result,
        };
        proof {
            let i = it.index() as int;
            assert(diagnostic::reports(it.seq())[i] == d@);
            assert(moved@ == ds[i]);
            assert(ds.take(i + 1) =~= ds.take(i).push(ds[i]));
        }
        diagnostics.push(moved);
        proof {
            assert(diagnostic::reports(diagnostics@) =~= diagnostic::reports(held).push(moved@));
            assert(diagnostic::reports(diagnostics@) =~= said + ds.take(it.index() + 1));
        }
    }
    proof {
        assert(ds.take(ds.len() as int) =~= ds);
    }
}

/// Reports on one part.
pub fn lint_part(part: &Part, diagnostics: &mut Vec<Diagnostic>)
    ensures
        diagnostic::reports(final(diagnostics)@) == diagnostic::reports(old(diagnostics)@)
            + part_reports((part.0, part.1@)),
{
    let ghost said = diagnostic::reports(diagnostics@);
    proof {
        assert(said + seq![] =~= said);
    }
    if is_blank(part.1.as_str()) {
        return ;
    }
    let parser_gap = without_fk_action_column_lists(part.1.as_str());
    match parse_bridged(part.1.as_str(), &parser_gap) {
        Ok(stmts) => {
            let (_, found) = rule_all(stmts, part.1.as_str());
            push_placed(part, found, diagnostics);
        },
        Err(e) => {
            if !is_supported_parser_gap_statement(part.1.as_str()) {
                let report = parse_diag(part, e.as_str());
                diagnostics.push(report);
                proof {
                    assert(diagnostic::reports(diagnostics@) =~= said + seq![report@]);
                }
            }
        },
    }
}

/// Reports what the rules of the library find in a PostgreSQL script: the idioms that span
/// statements, the rules on each statement, and the transactions that DSQL does not take.
pub fn lint_sql(sql: &str) -> (r: Vec<Diagnostic>)
    ensures
        diagnostic::reports(r@) == linted(sql@),
{
    let mut diagnostics: Vec<Diagnostic> = Vec::new();
    let parts = match split_statements(sql) {
        Ok(parts) => parts,
        Err(e) => {
            diagnostics.push(tokenize_diag(e.as_str()));
            proof {
                assert(diagnostic::reports(diagnostics@) =~= seq![tokenize_error(e@)]);
            }
            return diagnostics;
        },
    };
    let ghost ps = split::parts_view(parts@);
    proof {
        assert(diagnostic::reports(diagnostics@) =~= seq![]);
    }
    check_serial_idioms(&parts, &mut diagnostics);
    check_alter_add_unique(&parts, &mut diagnostics);
    check_alter_add_primary_key(&parts, &mut diagnostics);
    let ghost said = diagnostic::reports(diagnostics@);
    let mut i: usize = 0;
    proof {
        assert(ps.take(0) =~= seq![]);
        assert(said + parts_reports(ps.take(0)) =~= said);
    }
    while i < parts.len()
        invariant
            i <= parts@.len(),
            ps == split::parts_view(parts@),
            diagnostic::reports(diagnostics@) == said + parts_reports(ps.take(i as int)),
        decreases parts@.len() - i,
    {
        proof {
            assert(ps.take(i + 1).drop_last() =~= ps.take(i as int));
            assert(ps.take(i + 1).last() == ps[i as int]);
            assert(said + (parts_reports(ps.take(i as int)) + part_reports(ps[i as int])) =~= (said
                + parts_reports(ps.take(i as int))) + part_reports(ps[i as int]));
        }
        lint_part(&parts[i], &mut diagnostics);
        i += 1;
    }
    proof {
        assert(ps.take(i as int) =~= ps);
    }
    check_ddl_transactions(&parts, &mut diagnostics);
    proof {
        assert(diagnostic::reports(diagnostics@) =~= script_reports(ps));
    }
    diagnostics
}

/// Whether the report says that the rule rewrote what it found.
pub open spec fn rewrote(d: diagnostic::DiagnosticView) -> bool {
    !(d.fix_result is Unfixable)
}

/// Whether one of the reports says that its rule rewrote what it found.
pub open spec fn any_rewrote(ds: Seq<diagnostic::DiagnosticView>) -> bool {
    exists|i: int| 0 <= i < ds.len() && #[trigger] rewrote(ds[i])
}

/// The report as one of a rule that rewrote nothing.
pub open spec fn unfixed(d: diagnostic::DiagnosticView) -> diagnostic::DiagnosticView {
    diagnostic::DiagnosticView { fix_result: diagnostic::FixView::Unfixable, ..d }
}

/// The report on column lists that did not find their places again.
pub open spec fn lists_lost(error: Seq<char>) -> diagnostic::DiagnosticView {
    diagnostic::DiagnosticView {
        rule: LintRule::ParseError,
        line: 1,
        statement: seq![],
        message: "Failed to restore foreign-key action column lists: "@ + error,
        suggestion: "Preserve each ON DELETE SET NULL/SET DEFAULT column list manually."@,
        fix_result: diagnostic::FixView::Unfixable,
    }
}

/// Whether nothing is left of a statement: it is an ALTER TABLE without operations.
pub open spec fn alters_nothing(t: Tree) -> bool {
    match syntax::member(t, "AlterTable"@) {
        Some(at) => syntax::member(at, "operations"@) == Some(Tree::List(seq![])),
        None => false,
    }
}

/// What becomes of a part.
#[derive(Debug, Clone, Copy, PartialEq, Eq, Structural)]
pub enum Outcome {
    Removed,
    Rewritten,
    Kept,
}

/// What becomes of a part that the rules left the statements `ts` of and made the reports on.
pub open spec fn outcome_of(ts: Seq<Tree>, ds: Seq<diagnostic::DiagnosticView>) -> Outcome {
    if ts.len() == 0 || alters_nothing(ts[0]) {
        Outcome::Removed
    } else if any_rewrote(ds) {
        Outcome::Rewritten
    } else {
        Outcome::Kept
    }
}

/// The text of a rewritten part, and the reports on it, where the action column lists were put
/// back, or were not: the part then stays as it was.
pub open spec fn with_restored(
    raw: Seq<char>,
    restored: Result<Seq<char>, Seq<char>>,
    ds: Seq<diagnostic::DiagnosticView>,
) -> (Seq<char>, Seq<diagnostic::DiagnosticView>) {
    match restored {
        Ok(text) => (text, ds),
        Err(e) => (
            text::without_trailing(raw, ';'),
            ds.map_values(|d: diagnostic::DiagnosticView| unfixed(d)).push(lists_lost(e)),
        ),
    }
}

/// The text of a rewritten part, with the action column lists that the parser was not shown,
/// and the reports on it.
pub open spec fn rewritten(
    raw: Seq<char>,
    ts: Seq<Tree>,
    ds: Seq<diagnostic::DiagnosticView>,
) -> (Seq<char>, Seq<diagnostic::DiagnosticView>) {
    match gap::fk_gap(raw) {
        None => (constraint_collapse::pretty_text(ts), ds),
        Some((_, lists)) => with_restored(
            raw,
            gap::restored(constraint_collapse::pretty_text(ts), lists),
            ds,
        ),
    }
}

/// What becomes of one part, nothing where it is removed, and the reports on it.
pub open spec fn fixed_part(part: (usize, Seq<char>)) -> (
    Seq<(usize, Seq<char>)>,
    Seq<diagnostic::DiagnosticView>,
) {
    let plain = (part.0, text::without_trailing(part.1, ';'));
    if text::trimmed(part.1).len() == 0 {
        (seq![part], seq![])
    } else {
        match bridged_statements(part.1) {
            Err(e) => (
                seq![plain],
                if gap::supported_gap(part.1) {
                    seq![]
                } else {
                    seq![parse_error(part, e)]
                },
            ),
            Ok(ts) => {
                let (after, ds) = ruled_all(ts, part.1);
                match outcome_of(after, ds) {
                    Outcome::Removed => (seq![], placed_all(part, ds)),
                    Outcome::Rewritten => {
                        let (text, reports) = rewritten(part.1, after, ds);
                        (seq![(part.0, text)], placed_all(part, reports))
                    },
                    Outcome::Kept => (seq![plain], placed_all(part, ds)),
                }
            },
        }
    }
}

/// What becomes of each part, one after the other, and the reports on them.
pub open spec fn fixed_parts(parts: Seq<(usize, Seq<char>)>) -> (
    Seq<(usize, Seq<char>)>,
    Seq<diagnostic::DiagnosticView>,
)
    decreases parts.len(),
{
    if parts.len() == 0 {
        (seq![], seq![])
    } else {
        let before = fixed_parts(parts.drop_last());
        let last = fixed_part(parts.last());
        (before.0 + last.0, before.1 + last.1)
    }
}

/// The parts as one script.
pub open spec fn script_text(parts: Seq<(usize, Seq<char>)>) -> Seq<char> {
    let body = text::joined(parts.map_values(|p: (usize, Seq<char>)| p.1), ";\n\n"@);
    if body.len() == 0 {
        body
    } else {
        body + ";\n"@
    }
}

/// The rewritten parts of a script, and the reports on it.
pub open spec fn fixed_script(parts: Seq<(usize, Seq<char>)>) -> (
    Seq<(usize, Seq<char>)>,
    Seq<diagnostic::DiagnosticView>,
) {
    let serial = serial_idiom::serials_folded(parts);
    let unique = constraint_collapse::all_folded(serial.0, Kind::Unique);
    let primary = constraint_collapse::all_folded(unique.0, Kind::PrimaryKey);
    let single = fixed_parts(primary.0);
    let txns = transactions::split_txns(single.0, 0);
    (txns.0, serial.1 + unique.1 + primary.1 + single.1 + txns.1)
}

/// The rewritten script, and the reports on it.
pub open spec fn fixed(sql: Seq<char>) -> (Seq<char>, Seq<diagnostic::DiagnosticView>) {
    match split::split(Dialect::Postgres, sql) {
        Ok(parts) => {
            let (after, ds) = fixed_script(parts);
            (script_text(after), ds)
        },
        Err(e) => (sql, seq![tokenize_error(e)]),
    }
}

pub fn any_modified(found: &Vec<Diagnostic>) -> (r: bool)
    ensures
        r == any_rewrote(diagnostic::reports(found@)),
{
    let ghost ds = diagnostic::reports(found@);
    let mut i: usize = 0;
    while i < found.len()
        invariant
            i <= found@.len(),
            ds == diagnostic::reports(found@),
            forall|j: int| 0 <= j < i ==> !#[trigger] rewrote(ds[j]),
        decreases found@.len() - i,
    {
        match &found[i].fix_result {
            FixResult::Unfixable => {},
            _ => {
                proof {
                    assert(rewrote(ds[i as int]));
                }
                return true;
            },
        }
        i += 1;
    }
    false
}

pub fn lists_diag(error: &str) -> (r: Diagnostic)
    ensures
        r@ == lists_lost(error@),
{
    let mut message = "Failed to restore foreign-key action column lists: ".to_owned();
    message.append(error);
    let r = Diagnostic {
        rule: LintRule::ParseError,
        line: 1,
        statement: String::new(),
        message,
        suggestion: "Preserve each ON DELETE SET NULL/SET DEFAULT column list manually.".to_owned(),
        fix_result: FixResult::Unfixable,
    };
    proof {
        assert(r.statement@ =~= seq![]);
    }
    r
}

pub fn unfix_all(found: Vec<Diagnostic>) -> (r: Vec<Diagnostic>)
    ensures
        diagnostic::reports(r@) == diagnostic::reports(found@).map_values(
            |d: diagnostic::DiagnosticView| unfixed(d),
        ),
{
    let ghost ds = diagnostic::reports(found@).map_values(
        |d: diagnostic::DiagnosticView| unfixed(d),
    );
    let mut out: Vec<Diagnostic> = Vec::new();
    for d in it: found
        invariant
            ds == diagnostic::reports(it.seq()).map_values(
                |d: diagnostic::DiagnosticView| unfixed(d),
            ),
            diagnostic::reports(out@) == ds.take(it.index() as int),
    {
        let ghost held = out@;
        let plain = Diagnostic {
            rule: d.rule,
            line: d.line,
            statement: d.statement,
            message: d.message,
            suggestion: d.suggestion,
            fix_result: FixResult::Unfixable,
        };
        proof {
            let i = it.index() as int;
            assert(diagnostic::reports(it.seq())[i] == d@);
            assert(ds[i] == plain@);
            assert(ds.take(i + 1) =~= ds.take(i).push(ds[i]));
        }
        out.push(plain);
        proof {
            assert(diagnostic::reports(out@) =~= diagnostic::reports(held).push(plain@));
        }
    }
    proof {
        assert(ds.take(ds.len() as int) =~= ds);
    }
    out
}

#[verifier::spinoff_prover]
pub fn is_empty_alter(stmt: &Value) -> (r: bool)
    ensures
        r == alters_nothing(syntax::tree(*stmt)),
{
    match get(stmt, "AlterTable") {
        Some(at) => match get(at, "operations") {
            Some(ops) => match as_list(ops) {
                Some(found) => {
                    proof {
                        assert(syntax::trees(found@).len() == found@.len());
                        if found@.len() == 0 {
                            assert(syntax::trees(found@) =~= Seq::<Tree>::empty());
                        }
                    }
                    found.len() == 0
                },
                None => false,
            },
            None => false,
        },
        None => false,
    }
}

/// What becomes of a part that the rules left statements of and made reports on.
pub fn settle(stmts: &Vec<Value>, found: &Vec<Diagnostic>) -> (r: Outcome)
    ensures
        r == outcome_of(syntax::trees(stmts@), diagnostic::reports(found@)),
{
    if stmts.len() == 0 || is_empty_alter(&stmts[0]) {
        Outcome::Removed
    } else if any_modified(found) {
        Outcome::Rewritten
    } else {
        Outcome::Kept
    }
}

/// The text of a rewritten part, and the reports on it, where the action column lists were put
/// back, or were not.
pub fn settle_lists(raw: &str, restored: Result<String, String>, found: Vec<Diagnostic>) -> (r: (
    String,
    Vec<Diagnostic>,
))
    ensures
        (r.0@, diagnostic::reports(r.1@)) == with_restored(
            raw@,
            match restored {
                Ok(s) => Ok(s@),
                Err(e) => Err(e@),
            },
            diagnostic::reports(found@),
        ),
{
    match restored {
        Ok(text) => (text, found),
        Err(e) => {
            let mut out = unfix_all(found);
            let ghost held = out@;
            let lost = lists_diag(e.as_str());
            out.push(lost);
            proof {
                assert(diagnostic::reports(out@) =~= diagnostic::reports(held).push(lost@));
            }
            (strip_trailing(raw, ';'), out)
        },
    }
}

/// The text of a rewritten part, with the action column lists that the parser was not shown.
fn rewrite(
    raw: &str,
    stmts: &Vec<Value>,
    found: Vec<Diagnostic>,
    parser_gap: &Option<FkParserGap>,
) -> (r: (String, Vec<Diagnostic>))
    requires
        match (*parser_gap, gap::fk_gap(raw@)) {
            (Some(g), Some((parseable, lists))) => g.parseable@ == parseable && gap::lists_view(
                g.action_column_lists@,
            ) == lists,
            (None, None) => true,
            _ => false,
        },
    ensures
        (r.0@, diagnostic::reports(r.1@)) == rewritten(
            raw@,
            syntax::trees(stmts@),
            diagnostic::reports(found@),
        ),
{
    let pretty = pretty_join(stmts);
    match parser_gap {
        None => (pretty, found),
        Some(g) => settle_lists(raw, restore_fk_action_column_lists(pretty.as_str(), g), found),
    }
}

/// Fixes one part.
pub fn fix_part(part: Part, out: &mut Vec<Part>, diagnostics: &mut Vec<Diagnostic>)
    ensures
        ({
            let after = fixed_part((part.0, part.1@));
            &&& split::parts_view(final(out)@) == split::parts_view(old(out)@) + after.0
            &&& diagnostic::reports(final(diagnostics)@) == diagnostic::reports(old(diagnostics)@)
                + after.1
        }),
{
    let ghost view = (part.0, part.1@);
    let ghost said = diagnostic::reports(diagnostics@);
    let ghost held = split::parts_view(out@);
    proof {
        assert(said + seq![] =~= said);
        assert(held + seq![] =~= held);
    }
    if is_blank(part.1.as_str()) {
        out.push(part);
        proof {
            assert(split::parts_view(out@) =~= held + seq![view]);
        }
        return ;
    }
    let parser_gap = without_fk_action_column_lists(part.1.as_str());
    let plain: Part = (part.0, strip_trailing(part.1.as_str(), ';'));
    let ghost plain_view = (plain.0, plain.1@);
    match parse_bridged(part.1.as_str(), &parser_gap) {
        Err(e) => {
            out.push(plain);
            proof {
                assert(split::parts_view(out@) =~= held + seq![plain_view]);
            }
            if !is_supported_parser_gap_statement(part.1.as_str()) {
                let report = parse_diag(&part, e.as_str());
                diagnostics.push(report);
                proof {
                    assert(diagnostic::reports(diagnostics@) =~= said + seq![report@]);
                }
            }
        },
        Ok(stmts) => {
            let (after, found) = rule_all(stmts, part.1.as_str());
            match settle(&after, &found) {
                Outcome::Removed => {
                    push_placed(&part, found, diagnostics);
                },
                Outcome::Rewritten => {
                    let (text, reports) = rewrite(part.1.as_str(), &after, found, &parser_gap);
                    let ghost text_view = (part.0, text@);
                    out.push((part.0, text));
                    proof {
                        assert(split::parts_view(out@) =~= held + seq![text_view]);
                    }
                    push_placed(&part, reports, diagnostics);
                },
                Outcome::Kept => {
                    out.push(plain);
                    proof {
                        assert(split::parts_view(out@) =~= held + seq![plain_view]);
                    }
                    push_placed(&part, found, diagnostics);
                },
            }
        },
    }
}

/// The parts as one script.
pub fn join_script(parts: Vec<Part>) -> (r: String)
    ensures
        r@ == script_text(split::parts_view(parts@)),
{
    let ghost texts_view = split::parts_view(parts@).map_values(|p: (usize, Seq<char>)| p.1);
    let mut texts: Vec<String> = Vec::new();
    for part in it: parts
        invariant
            texts_view == split::parts_view(it.seq()).map_values(|p: (usize, Seq<char>)| p.1),
            text::views(texts@) == texts_view.take(it.index() as int),
    {
        let ghost held = texts@;
        let (_, one) = part;
        proof {
            let i = it.index() as int;
            assert(split::parts_view(it.seq())[i].1 == one@);
            assert(texts_view.take(i + 1) =~= texts_view.take(i).push(one@));
        }
        texts.push(one);
        proof {
            assert(text::views(texts@) =~= text::views(held).push(one@));
        }
    }
    proof {
        assert(texts_view.take(texts_view.len() as int) =~= texts_view);
    }
    let mut sql = join(&texts, ";\n\n");
    if !sql.as_str().is_empty() {
        sql.append(";\n");
    }
    sql
}

/// Fixes a script that was split into its parts already. Each part is parsed by itself, so that
/// one that does not parse keeps no rule from the others.
pub fn fix_statements(stmts: Vec<Part>) -> (r: FixOutput)
    ensures
        ({
            let (after, ds) = fixed_script(split::parts_view(stmts@));
            r.sql@ == script_text(after) && diagnostic::reports(r.diagnostics@) == ds
        }),
{
    let mut parts = stmts;
    let mut diagnostics: Vec<Diagnostic> = Vec::new();
    proof {
        assert(diagnostic::reports(diagnostics@) =~= seq![]);
    }
    fix_serial_idioms(&mut parts, &mut diagnostics);
    fix_alter_add_unique(&mut parts, &mut diagnostics);
    fix_alter_add_primary_key(&mut parts, &mut diagnostics);
    let ghost ps = split::parts_view(parts@);
    let ghost said = diagnostic::reports(diagnostics@);
    let mut out: Vec<Part> = Vec::new();
    proof {
        assert(ps.take(0) =~= seq![]);
        assert(split::parts_view(out@) =~= seq![]);
        assert(said + fixed_parts(ps.take(0)).1 =~= said);
    }
    for part in it: parts
        invariant
            ps == split::parts_view(it.seq()),
            split::parts_view(out@) == fixed_parts(ps.take(it.index() as int)).0,
            diagnostic::reports(diagnostics@) == said + fixed_parts(ps.take(it.index() as int)).1,
    {
        proof {
            let i = it.index() as int;
            assert(ps.take(i + 1).drop_last() =~= ps.take(i));
            assert(ps.take(i + 1).last() == ps[i]);
            assert(said + (fixed_parts(ps.take(i)).1 + fixed_part(ps[i]).1) =~= (said + fixed_parts(
                ps.take(i),
            ).1) + fixed_part(ps[i]).1);
        }
        fix_part(part, &mut out, &mut diagnostics);
    }
    proof {
        assert(ps.take(ps.len() as int) =~= ps);
    }
    fix_ddl_transactions(&mut out, &mut diagnostics);
    proof {
        let ds = fixed_script(split::parts_view(stmts@)).1;
        assert(diagnostic::reports(diagnostics@) =~= ds);
    }
    FixOutput { sql: join_script(out), diagnostics }
}

/// Rewrites a PostgreSQL script for DSQL, and reports what was found on the way.
pub fn fix_sql(sql: &str) -> (r: FixOutput)
    ensures
        r.sql@ == fixed(sql@).0,
        diagnostic::reports(r.diagnostics@) == fixed(sql@).1,
{
    match split_statements(sql) {
        Ok(stmts) => fix_statements(stmts),
        Err(e) => {
            let mut diagnostics: Vec<Diagnostic> = Vec::new();
            diagnostics.push(tokenize_diag(e.as_str()));
            proof {
                assert(diagnostic::reports(diagnostics@) =~= seq![tokenize_error(e@)]);
            }
            FixOutput { sql: sql.to_owned(), diagnostics }
        },
    }
}

/// Linting and fixing report the same on each part: both apply one set of rules. The exception
/// is a part whose action column lists do not find their places again.
#[verifier::spinoff_prover]
pub proof fn law_lint_and_fix_agree(part: (usize, Seq<char>))
    requires
        bridged_statements(part.1) matches Ok(ts) ==> {
            let (after, ds) = ruled_all(ts, part.1);
            outcome_of(after, ds) == Outcome::Rewritten ==> rewritten(part.1, after, ds).1 == ds
        },
    ensures
        fixed_part(part).1 == part_reports(part),
{
}

/// Without action column lists linting and fixing report the same on a part.
#[verifier::spinoff_prover]
pub proof fn law_lint_and_fix_agree_without_lists(part: (usize, Seq<char>))
    requires
        gap::fk_gap(part.1) is None,
    ensures
        fixed_part(part).1 == part_reports(part),
{
}

/// A statement in which no rule rewrites anything keeps its text, but for the semicolons at its
/// end, unless nothing is left of it.
#[verifier::spinoff_prover]
pub proof fn law_clean_statement_is_kept(part: (usize, Seq<char>))
    requires
        text::trimmed(part.1).len() > 0,
        bridged_statements(part.1) matches Ok(ts) ==> {
            let (after, ds) = ruled_all(ts, part.1);
            after.len() > 0 && !alters_nothing(after[0]) && !any_rewrote(ds)
        },
    ensures
        fixed_part(part).0 == seq![(part.0, text::without_trailing(part.1, ';'))],
{
}

/// A statement that the parser does not know and DSQL takes is neither reported nor changed.
#[verifier::spinoff_prover]
pub proof fn law_supported_gap_is_passed_on(part: (usize, Seq<char>))
    requires
        text::trimmed(part.1).len() > 0,
        bridged_statements(part.1) is Err,
        gap::supported_gap(part.1),
    ensures
        part_reports(part) == Seq::<diagnostic::DiagnosticView>::empty(),
        fixed_part(part) == (
            seq![(part.0, text::without_trailing(part.1, ';'))],
            Seq::<diagnostic::DiagnosticView>::empty(),
        ),
{
}

#[verifier::spinoff_prover]
proof fn lemma_reports_are_independent(a: Seq<(usize, Seq<char>)>, b: Seq<(usize, Seq<char>)>)
    ensures
        parts_reports(a + b) == parts_reports(a) + parts_reports(b),
    decreases b.len(),
{
    if b.len() == 0 {
        assert(a + b =~= a);
        assert(parts_reports(a) + parts_reports(b) =~= parts_reports(a));
    } else {
        let front = b.drop_last();
        let last = part_reports(b.last());
        lemma_reports_are_independent(a, front);
        assert((a + b).drop_last() =~= a + front);
        assert((a + b).last() == b.last());
        assert(parts_reports(a + b) == parts_reports(a + front) + last);
        assert(parts_reports(b) == parts_reports(front) + last);
        assert(parts_reports(a) + (parts_reports(front) + last) =~= (parts_reports(a)
            + parts_reports(front)) + last);
    }
}

#[verifier::spinoff_prover]
proof fn lemma_fixes_are_independent(a: Seq<(usize, Seq<char>)>, b: Seq<(usize, Seq<char>)>)
    ensures
        fixed_parts(a + b).0 == fixed_parts(a).0 + fixed_parts(b).0,
        fixed_parts(a + b).1 == fixed_parts(a).1 + fixed_parts(b).1,
    decreases b.len(),
{
    let x = fixed_parts(a);
    if b.len() == 0 {
        assert(a + b =~= a);
        assert(x.0 + fixed_parts(b).0 =~= x.0);
        assert(x.1 + fixed_parts(b).1 =~= x.1);
    } else {
        let front = b.drop_last();
        let y = fixed_parts(front);
        let last = fixed_part(b.last());
        lemma_fixes_are_independent(a, front);
        assert((a + b).drop_last() =~= a + front);
        assert((a + b).last() == b.last());
        assert(fixed_parts(a + b) == (
            fixed_parts(a + front).0 + last.0,
            fixed_parts(a + front).1 + last.1,
        ));
        assert(fixed_parts(b) == (y.0 + last.0, y.1 + last.1));
        assert(x.0 + (y.0 + last.0) =~= (x.0 + y.0) + last.0);
        assert(x.1 + (y.1 + last.1) =~= (x.1 + y.1) + last.1);
    }
}

/// Each part is linted and fixed by itself: what stands before or behind it, parseable or not,
/// makes no difference to it.
#[verifier::spinoff_prover]
pub proof fn law_parts_are_independent(a: Seq<(usize, Seq<char>)>, b: Seq<(usize, Seq<char>)>)
    ensures
        parts_reports(a + b) == parts_reports(a) + parts_reports(b),
        fixed_parts(a + b).0 == fixed_parts(a).0 + fixed_parts(b).0,
        fixed_parts(a + b).1 == fixed_parts(a).1 + fixed_parts(b).1,
{
    lemma_reports_are_independent(a, b);
    lemma_fixes_are_independent(a, b);
}

/// Every report on a part carries the part's own text.
#[verifier::spinoff_prover]
pub proof fn law_reports_quote_the_statement(part: (usize, Seq<char>))
    ensures
        forall|i: int|
            0 <= i < part_reports(part).len() ==> (#[trigger] part_reports(part)[i]).statement
                == part.1,
        forall|i: int|
            0 <= i < fixed_part(part).1.len() ==> (#[trigger] fixed_part(part).1[i]).statement
                == part.1,
{
}

/// The reports on a part that parses are those of the rules, in their order.
#[verifier::spinoff_prover]
pub proof fn law_reports_come_from_the_rules(part: (usize, Seq<char>), i: int)
    requires
        bridged_statements(part.1) is Ok,
        0 <= i < part_reports(part).len(),
    ensures
        ({
            let ds = ruled_all(bridged_statements(part.1)->Ok_0, part.1).1;
            i < ds.len() && part_reports(part)[i].rule == ds[i].rule && part_reports(
                part,
            )[i].message == ds[i].message
        }),
{
}

/// Applied to what they made of statements, the rules change nothing more, and report only what
/// none of them fixes.
#[verifier::rlimit(40)]
#[verifier::spinoff_prover]
pub proof fn law_rules_are_stable(ts: Seq<Tree>, raw: Seq<char>, later: Seq<char>)
    ensures
        ruled_all(ruled_all(ts, raw).0, later).0 == ruled_all(ts, raw).0,
        errors::none_fixed(ruled_all(ruled_all(ts, raw).0, later).1),
    decreases ts.len(),
{
    if ts.len() > 0 {
        let front = ts.drop_last();
        let after = ruled_all(ts, raw).0;
        law_rules_are_stable(front, raw, later);
        errors::law_fixed_statement_is_stable(ts.last(), raw, later);
        assert(after.drop_last() =~= ruled_all(front, raw).0);
        let before = ruled_all(after.drop_last(), later);
        let last = errors::ruled(after.last(), later);
        assert(ruled_all(after, later).0 =~= after);
        let ds = ruled_all(after, later).1;
        assert forall|i: int| 0 <= i < ds.len() implies (#[trigger] ds[i]).fix_result
            is Unfixable by {
            if i < before.1.len() {
                assert(ds[i] == before.1[i]);
            } else {
                assert(ds[i] == last.1[i - before.1.len()]);
            }
        }
    }
}

/// Fixing is stable: a part that the parser reads as what the rules made of some statements, and
/// of which anything is left, keeps its text but for the semicolons at its end, and nothing that
/// is reported on it was fixed.
#[verifier::spinoff_prover]
pub proof fn law_fixed_part_is_kept(part: (usize, Seq<char>), ts: Seq<Tree>, raw: Seq<char>)
    ensures
        ({
            let after = ruled_all(ts, raw).0;
            text::trimmed(part.1).len() > 0 && bridged_statements(part.1) == Ok::<
                Seq<Tree>,
                Seq<char>,
            >(after) && after.len() > 0 && !alters_nothing(after[0]) ==> {
                &&& fixed_part(part).0 == seq![(part.0, text::without_trailing(part.1, ';'))]
                &&& errors::none_fixed(fixed_part(part).1)
            }
        }),
{
    let after = ruled_all(ts, raw).0;
    law_rules_are_stable(ts, raw, part.1);
    let ds = ruled_all(after, part.1).1;
    if any_rewrote(ds) {
        let i = choose|i: int| 0 <= i < ds.len() && #[trigger] rewrote(ds[i]);
        assert(ds[i].fix_result is Unfixable);
    }
    assert forall|i: int| 0 <= i < placed_all(part, ds).len() implies (#[trigger] placed_all(
        part,
        ds,
    )[i]).fix_result is Unfixable by {
        assert(ds[i].fix_result is Unfixable);
    }
}

/// Where no rule fixes anything in statements, the rules leave them as they are.
#[verifier::rlimit(40)]
#[verifier::spinoff_prover]
pub proof fn law_rules_without_fixes_change_nothing(ts: Seq<Tree>, raw: Seq<char>)
    requires
        errors::none_fixed(ruled_all(ts, raw).1),
    ensures
        ruled_all(ts, raw).0 == ts,
    decreases ts.len(),
{
    if ts.len() > 0 {
        let front = ts.drop_last();
        let before = ruled_all(front, raw);
        let last = errors::ruled(ts.last(), raw);
        let ds = ruled_all(ts, raw).1;
        assert forall|i: int| 0 <= i < before.1.len() implies (#[trigger] before.1[i]).fix_result
            is Unfixable by {
            assert(ds[i] == before.1[i]);
        }
        assert forall|i: int| 0 <= i < last.1.len() implies (#[trigger] last.1[i]).fix_result
            is Unfixable by {
            assert(ds[before.1.len() + i] == last.1[i]);
        }
        law_rules_without_fixes_change_nothing(front, raw);
        errors::law_unfixed_statement_is_untouched(ts.last(), raw);
        assert(front.push(ts.last()) =~= ts);
    }
}

/// Statements that are fixed in full are clean: where the rules fixed all that they found, they
/// find nothing in what they made.
#[verifier::rlimit(40)]
#[verifier::spinoff_prover]
pub proof fn law_fully_fixed_statements_are_clean(ts: Seq<Tree>, raw: Seq<char>, later: Seq<char>)
    requires
        errors::all_fixed(ruled_all(ts, raw).1),
    ensures
        ruled_all(ruled_all(ts, raw).0, later) == (
            ruled_all(ts, raw).0,
            Seq::<diagnostic::DiagnosticView>::empty(),
        ),
        forall|i: int|
            0 <= i < ruled_all(ts, raw).0.len() ==> errors::is_clean(
                #[trigger] ruled_all(ts, raw).0[i],
            ),
    decreases ts.len(),
{
    if ts.len() > 0 {
        let front = ts.drop_last();
        let before = ruled_all(front, raw);
        let last = errors::ruled(ts.last(), raw);
        let ds = ruled_all(ts, raw).1;
        let after = ruled_all(ts, raw).0;
        assert forall|i: int| 0 <= i < before.1.len() implies !((
        #[trigger] before.1[i]).fix_result is Unfixable) by {
            assert(ds[i] == before.1[i]);
        }
        assert forall|i: int| 0 <= i < last.1.len() implies !((
        #[trigger] last.1[i]).fix_result is Unfixable) by {
            assert(ds[before.1.len() + i] == last.1[i]);
        }
        law_fully_fixed_statements_are_clean(front, raw, later);
        errors::law_fully_fixed_statement_is_clean(ts.last(), raw, later);
        assert(after.drop_last() =~= before.0);
        assert(ruled_all(after, later).0 =~= after);
        assert(ruled_all(after, later).1 =~= seq![]);
        assert forall|i: int| 0 <= i < after.len() implies errors::is_clean(#[trigger] after[i]) by {
            if i < before.0.len() {
                assert(after[i] == before.0[i]);
            }
        }
    }
}

/// The parts without the semicolons at their ends.
pub open spec fn plain_parts(parts: Seq<(usize, Seq<char>)>) -> Seq<(usize, Seq<char>)> {
    parts.map_values(|p: (usize, Seq<char>)| (p.0, text::without_trailing(p.1, ';')))
}

/// Whether a part says something: it is not blank, and where it parses it is a statement that
/// does something.
pub open spec fn says_something(part: (usize, Seq<char>)) -> bool {
    &&& text::trimmed(part.1).len() > 0
    &&& bridged_statements(part.1) matches Ok(ts) ==> ts.len() > 0 && !alters_nothing(ts[0])
}

#[verifier::spinoff_prover]
proof fn lemma_clean_part(part: (usize, Seq<char>))
    requires
        says_something(part),
        part_reports(part).len() == 0,
    ensures
        fixed_part(part).0 == seq![(part.0, text::without_trailing(part.1, ';'))],
        fixed_part(part).1.len() == 0,
{
    if let Ok(ts) = bridged_statements(part.1) {
        assert(ruled_all(ts, part.1).1.len() == 0);
        law_rules_without_fixes_change_nothing(ts, part.1);
    }
}

#[verifier::spinoff_prover]
proof fn lemma_clean_parts(parts: Seq<(usize, Seq<char>)>)
    requires
        forall|i: int| 0 <= i < parts.len() ==> says_something(#[trigger] parts[i]),
        parts_reports(parts).len() == 0,
    ensures
        fixed_parts(parts).0 == plain_parts(parts),
        fixed_parts(parts).1.len() == 0,
    decreases parts.len(),
{
    if parts.len() > 0 {
        let front = parts.drop_last();
        let last = parts.last();
        assert forall|i: int| 0 <= i < front.len() implies says_something(#[trigger] front[i]) by {
            assert(front[i] == parts[i]);
        }
        lemma_clean_parts(front);
        assert(says_something(parts[parts.len() - 1]));
        let before = fixed_parts(front);
        let made = fixed_part(last);
        assert(parts_reports(parts) == parts_reports(front) + part_reports(last));
        lemma_clean_part(last);
        assert(fixed_parts(parts) == (before.0 + made.0, before.1 + made.1));
        assert(plain_parts(front).push((last.0, text::without_trailing(last.1, ';')))
            =~= plain_parts(parts));
        assert(before.0 + made.0 =~= plain_parts(parts));
    } else {
        assert(plain_parts(parts) =~= seq![]);
    }
}

/// A script that nothing is reported on before its transactions are looked at reaches them with
/// every statement as it was, but for the semicolons at their ends.
#[verifier::spinoff_prover]
pub proof fn law_clean_script_is_kept(parts: Seq<(usize, Seq<char>)>)
    requires
        forall|i: int| 0 <= i < parts.len() ==> says_something(#[trigger] parts[i]),
        script_reports(parts).len() == 0,
    ensures
        fixed_script(parts) == transactions::split_txns(plain_parts(parts), 0),
{
    let serial = serial_idiom::serial_reports(parts);
    let unique = constraint_collapse::fold_reports(parts, Kind::Unique);
    let primary = constraint_collapse::fold_reports(parts, Kind::PrimaryKey);
    assert(serial.len() == 0 && unique.len() == 0 && primary.len() == 0);
    serial_idiom::law_script_without_serials_is_untouched(parts);
    constraint_collapse::law_script_without_folds_is_untouched(parts, Kind::Unique);
    constraint_collapse::law_script_without_folds_is_untouched(parts, Kind::PrimaryKey);
    lemma_clean_parts(parts);
    assert(fixed_script(parts).1 =~= transactions::split_txns(plain_parts(parts), 0).1);
}

} // verus!
