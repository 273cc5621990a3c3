//! `ALTER TABLE ... ADD CONSTRAINT ... [PRIMARY KEY|UNIQUE] (...)` folded into the
//! `CREATE TABLE` before it.
//!
//! A dump writes both constraints as statements of their own behind the table, and DSQL takes
//! them only inside it. One engine serves both; [`Kind`] tells them apart.

use serde_json::Value;
use vstd::prelude::*;
use vstd::string::StringExecFns;

use crate::diagnostic::{self, Diagnostic, FixResult, LintRule};
use crate::rules::name_match::{
    self, drop_parts, normalize_object_name, parse_parts, pick_best_match, refs_match, NameRef,
};
use crate::split::{self, Part};
use crate::syntax::{self, as_list, copy, get, list, parse, put, show_pretty, Dialect, Tree};
use crate::text::{self, join, trim};
use crate::token;

verus! {

/// The constraints that can be folded.
#[derive(Clone, Copy, PartialEq, Eq, Structural, Debug)]
pub enum Kind {
    PrimaryKey,
    Unique,
}

/// The name of a constraint's variant in the syntax tree.
pub open spec fn variant_name(kind: Kind) -> Seq<char> {
    match kind {
        Kind::PrimaryKey => "PrimaryKey"@,
        Kind::Unique => "Unique"@,
    }
}

/// A constraint's keyword in SQL.
pub open spec fn keyword(kind: Kind) -> Seq<char> {
    match kind {
        Kind::PrimaryKey => "PRIMARY KEY"@,
        Kind::Unique => "UNIQUE"@,
    }
}

/// The rule that a constraint's fold is reported under.
pub open spec fn rule_of(kind: Kind) -> LintRule {
    match kind {
        Kind::PrimaryKey => LintRule::AlterAddPrimaryKeyCollapse,
        Kind::Unique => LintRule::AlterAddUniqueCollapse,
    }
}

/// The name of the table that a statement creates.
pub open spec fn created_table(t: Tree) -> Option<name_match::NameView> {
    match syntax::member(t, "CreateTable"@) {
        Some(ct) => name_match::normalized(token::field(ct, "name"@)),
        None => None,
    }
}

/// The constraint that a statement adds, if adding one of this kind is all it does.
pub open spec fn added_constraint(t: Tree, kind: Kind) -> Option<Tree> {
    match syntax::member(t, "AlterTable"@) {
        None => None,
        Some(alter) => {
            let ops = name_match::items_of(token::field(alter, "operations"@));
            if ops.len() != 1 {
                None
            } else {
                match syntax::member(ops[0], "AddConstraint"@) {
                    None => None,
                    Some(add) => {
                        let constraint = token::field(add, "constraint"@);
                        if syntax::member(constraint, variant_name(kind)) is Some {
                            Some(constraint)
                        } else {
                            None
                        }
                    },
                }
            }
        },
    }
}

/// The name of the table that a statement alters.
pub open spec fn altered_table(t: Tree) -> Option<name_match::NameView> {
    match syntax::member(t, "AlterTable"@) {
        Some(alter) => name_match::normalized(token::field(alter, "name"@)),
        None => None,
    }
}

/// The names that the statements create, one for each statement.
pub open spec fn created_names(stmts: Seq<Tree>) -> Seq<name_match::NameView> {
    Seq::new(
        stmts.len(),
        |i: int|
            match created_table(stmts[i]) {
                Some(n) => n,
                None => (None, seq![]),
            },
    )
}

/// Which statements create a table before `limit`.
pub open spec fn created_before(stmts: Seq<Tree>, limit: int) -> Seq<bool> {
    Seq::new(stmts.len(), |i: int| i < limit && created_table(stmts[i]) is Some)
}

/// A constraint that can be folded: its table, the constraint, and where the two statements
/// stand among the parsed ones.
pub ghost struct Fold {
    pub table: name_match::NameView,
    pub constraint: Tree,
    pub create: int,
    pub alter: int,
}

/// The fold that the statement at `at` asks for: it adds a constraint of this kind and nothing
/// else, to a table that an earlier statement creates.
pub open spec fn fold_at(stmts: Seq<Tree>, kind: Kind, at: int) -> Option<Fold> {
    match (added_constraint(stmts[at], kind), altered_table(stmts[at])) {
        (Some(constraint), Some(table)) => match name_match::best_match(
            created_names(stmts),
            created_before(stmts, at),
            table,
        ) {
            Some(create) => Some(Fold { table, constraint, create, alter: at }),
            None => None,
        },
        _ => None,
    }
}

/// The folds that the first `n` statements ask for, in their order.
pub open spec fn folds(stmts: Seq<Tree>, kind: Kind, n: int) -> Seq<Fold>
    decreases n,
{
    if n <= 0 {
        seq![]
    } else {
        match fold_at(stmts, kind, n - 1) {
            Some(f) => folds(stmts, kind, n - 1).push(f),
            None => folds(stmts, kind, n - 1),
        }
    }
}

/// A constraint that can be folded.
#[derive(Debug)]
pub struct Idiom {
    pub table: NameRef,
    pub constraint: Value,
    pub create_table_index: usize,
    pub alter_index: usize,
}

impl View for Idiom {
    type V = Fold;

    open spec fn view(&self) -> Fold {
        Fold {
            table: name_match::name_view(self.table),
            constraint: syntax::tree(self.constraint),
            create: self.create_table_index as int,
            alter: self.alter_index as int,
        }
    }
}

/// The models of a list of idioms.
pub open spec fn fold_views(idioms: Seq<Idiom>) -> Seq<Fold> {
    idioms.map_values(|i: Idiom| i@)
}

fn variant_text(kind: Kind) -> (r: &'static str)
    ensures
        r@ == variant_name(kind),
{
    match kind {
        Kind::PrimaryKey => "PrimaryKey",
        Kind::Unique => "Unique",
    }
}

fn keyword_text(kind: Kind) -> (r: &'static str)
    ensures
        r@ == keyword(kind),
{
    match kind {
        Kind::PrimaryKey => "PRIMARY KEY",
        Kind::Unique => "UNIQUE",
    }
}

/// The name in the `name` field of a record.
pub fn read_name(v: &Value) -> (r: Option<NameRef>)
    ensures
        match (r, name_match::normalized(token::field(syntax::tree(*v), "name"@))) {
            (Some(n), Some(t)) => name_match::name_view(n) == t,
            (None, None) => true,
            _ => false,
        },
{
    match get(v, "name") {
        Some(name) => normalize_object_name(name),
        None => {
            proof {
                assert(name_match::items_of(Tree::Null) =~= seq![]);
                assert(name_match::folded_parts(seq![]) =~= seq![]);
            }
            None
        },
    }
}

/// The name of the table that a statement creates.
pub fn read_created(stmt: &Value) -> (r: Option<NameRef>)
    ensures
        match (r, created_table(syntax::tree(*stmt))) {
            (Some(n), Some(t)) => name_match::name_view(n) == t,
            (None, None) => true,
            _ => false,
        },
{
    match get(stmt, "CreateTable") {
        Some(ct) => read_name(ct),
        None => None,
    }
}

/// The constraint and table of a statement that only adds a constraint of this kind.
pub fn read_added(stmt: &Value, kind: Kind) -> (r: Option<(Value, NameRef)>)
    ensures
        ({
            let t = syntax::tree(*stmt);
            match r {
                Some((c, n)) => added_constraint(t, kind) == Some(syntax::tree(c)) && altered_table(
                    t,
                ) == Some(name_match::name_view(n)),
                None => added_constraint(t, kind) is None || altered_table(t) is None,
            }
        }),
{
    let alter = match get(stmt, "AlterTable") {
        Some(alter) => alter,
        None => {
            return None;
        },
    };
    let ops = match get(alter, "operations") {
        Some(v) => match as_list(v) {
            Some(ops) => ops,
            None => {
                return None;
            },
        },
        None => {
            return None;
        },
    };
    if ops.len() != 1 {
        return None;
    }
    let add = match get(&ops[0], "AddConstraint") {
        Some(add) => add,
        None => {
            return None;
        },
    };
    let constraint = match get(add, "constraint") {
        Some(constraint) => constraint,
        None => {
            return None;
        },
    };
    if get(constraint, variant_text(kind)).is_none() {
        return None;
    }
    match read_name(alter) {
        Some(table) => Some((copy(constraint), table)),
        None => None,
    }
}

/// Every constraint of this kind that can be folded: one that a statement adds alone, to a
/// table created earlier.
pub fn detect(stmts: &Vec<Value>, kind: Kind) -> (r: Vec<Idiom>)
    ensures
        fold_views(r@) == folds(syntax::trees(stmts@), kind, stmts@.len() as int),
        forall|i: int|
            0 <= i < r@.len() ==> (#[trigger] r@[i]).create_table_index < stmts@.len()
                && r@[i].alter_index < stmts@.len(),
{
    let ghost ts = syntax::trees(stmts@);
    let size: usize = stmts.len();
    let mut names: Vec<NameRef> = Vec::new();
    let mut created: Vec<bool> = Vec::new();
    let mut i: usize = 0;
    while i < size
        invariant
            i <= size == stmts@.len(),
            ts == syntax::trees(stmts@),
            names@.len() == i,
            created@.len() == i,
            forall|j: int|
                0 <= j < i ==> name_match::name_view(#[trigger] names@[j]) == created_names(ts)[j],
            forall|j: int| 0 <= j < i ==> #[trigger] created@[j] == (created_table(ts[j]) is Some),
        decreases size - i,
    {
        match read_created(&stmts[i]) {
            Some(n) => {
                names.push(n);
                created.push(true);
            },
            None => {
                let none: NameRef = (None, String::new());
                names.push(none);
                created.push(false);
            },
        }
        i += 1;
    }
    proof {
        assert(name_match::name_views(names@) =~= created_names(ts));
    }
    let mut idioms: Vec<Idiom> = Vec::new();
    let mut eligible: Vec<bool> = Vec::new();
    let mut k: usize = 0;
    while k < size
        invariant
            k <= size,
            size == created@.len(),
            eligible@.len() == k,
            forall|j: int| 0 <= j < k ==> !(#[trigger] eligible@[j]),
        decreases size - k,
    {
        eligible.push(false);
        k += 1;
    }
    let mut at: usize = 0;
    proof {
        assert(fold_views(idioms@) =~= seq![]);
    }
    while at < size
        invariant
            at <= size == stmts@.len(),
            ts == syntax::trees(stmts@),
            names@.len() == size,
            created@.len() == size,
            eligible@.len() == size,
            name_match::name_views(names@) == created_names(ts),
            forall|j: int|
                0 <= j < size ==> #[trigger] created@[j] == (created_table(ts[j]) is Some),
            forall|j: int|
                0 <= j < size ==> #[trigger] eligible@[j] == (j < at && created_table(ts[j]) is Some),
            fold_views(idioms@) == folds(ts, kind, at as int),
            forall|i: int|
                0 <= i < idioms@.len() ==> (#[trigger] idioms@[i]).create_table_index < size
                    && idioms@[i].alter_index < size,
        decreases size - at,
    {
        proof {
            assert(eligible@ =~= created_before(ts, at as int));
        }
        if let Some((constraint, table)) = read_added(&stmts[at], kind) {
            if let Some(create) = pick_best_match(&names, &eligible, &table) {
                let ghost before = idioms@;
                idioms.push(
                    Idiom { table, constraint, create_table_index: create, alter_index: at },
                );
                proof {
                    assert(fold_views(idioms@) =~= fold_views(before).push(idioms@.last()@));
                }
            }
        }
        eligible.set(at, created[at]);
        at += 1;
    }
    idioms
}

/// The report on a fold; `moved` tells whether it was carried out.
pub open spec fn fold_report(
    fold: Fold,
    part: (usize, Seq<char>),
    kind: Kind,
    moved: bool,
) -> diagnostic::DiagnosticView {
    let table = fold.table.1;
    let word = keyword(kind);
    diagnostic::DiagnosticView {
        rule: rule_of(kind),
        line: part.0,
        statement: part.1,
        message: "ALTER TABLE ADD CONSTRAINT ... "@ + word + " on `"@ + table
            + "` is not supported in DSQL. Define "@ + word + " inline on the CREATE TABLE."@,
        suggestion: if moved {
            "Moved"@
        } else {
            "Move"@
        } + " the "@ + word + " constraint into the `CREATE TABLE "@ + table + "` definition."@,
        fix_result: diagnostic::FixView::Fixed(
            "Folded `"@ + table + "` "@ + word + " constraint into the CREATE TABLE definition."@,
        ),
    }
}

fn diag(idiom: &Idiom, part: &Part, kind: Kind, moved: bool) -> (r: Diagnostic)
    ensures
        r@ == fold_report(idiom@, (part.0, part.1@), kind, moved),
{
    let word = keyword_text(kind);
    let table = idiom.table.1.as_str();
    let mut message = "ALTER TABLE ADD CONSTRAINT ... ".to_owned();
    message.append(word);
    message.append(" on `");
    message.append(table);
    message.append("` is not supported in DSQL. Define ");
    message.append(word);
    message.append(" inline on the CREATE TABLE.");
    let mut suggestion = if moved {
        "Moved".to_owned()
    } else {
        "Move".to_owned()
    };
    suggestion.append(" the ");
    suggestion.append(word);
    suggestion.append(" constraint into the `CREATE TABLE ");
    suggestion.append(table);
    suggestion.append("` definition.");
    let mut detail = "Folded `".to_owned();
    detail.append(table);
    detail.append("` ");
    detail.append(word);
    detail.append(" constraint into the CREATE TABLE definition.");
    Diagnostic {
        rule: match kind {
            Kind::PrimaryKey => LintRule::AlterAddPrimaryKeyCollapse,
            Kind::Unique => LintRule::AlterAddUniqueCollapse,
        },
        line: part.0,
        statement: part.1.clone(),
        message,
        suggestion,
        fix_result: FixResult::Fixed(detail),
    }
}

/// The statements of the parts that parse.
pub open spec fn parsed_trees(parts: Seq<(usize, Seq<char>)>) -> Seq<Tree> {
    name_match::parsed_parts(parts).map_values(|p: (Tree, int)| p.0)
}

/// The number of the part that a parsed statement comes from.
pub open spec fn origin(parts: Seq<(usize, Seq<char>)>, i: int) -> int {
    name_match::parsed_parts(parts)[i].1
}

/// The folds that a script asks for.
pub open spec fn script_folds(parts: Seq<(usize, Seq<char>)>, kind: Kind) -> Seq<Fold> {
    folds(parsed_trees(parts), kind, parsed_trees(parts).len() as int)
}

/// The reports on the folds that a script asks for.
pub open spec fn fold_reports(parts: Seq<(usize, Seq<char>)>, kind: Kind) -> Seq<
    diagnostic::DiagnosticView,
> {
    script_folds(parts, kind).map_values(
        |f: Fold| fold_report(f, parts[origin(parts, f.alter)], kind, false),
    )
}

/// Reports every constraint that can be folded.
fn check(parts: &Vec<Part>, diagnostics: &mut Vec<Diagnostic>, kind: Kind)
    ensures
        diagnostic::reports(final(diagnostics)@) == diagnostic::reports(old(diagnostics)@)
            + fold_reports(split::parts_view(parts@), kind),
{
    let ghost ps = split::parts_view(parts@);
    let ghost said = diagnostic::reports(diagnostics@);
    let (parsed, origins) = parse_parts(parts);
    proof {
        assert(syntax::trees(parsed@) =~= parsed_trees(ps));
        name_match::lemma_origins(ps);
    }
    let idioms = detect(&parsed, kind);
    let ghost fs = script_folds(ps, kind);
    let ghost rs = fold_reports(ps, kind);
    let mut i: usize = 0;
    while i < idioms.len()
        invariant
            i <= idioms@.len() == fs.len() == rs.len(),
            ps == split::parts_view(parts@),
            fs == script_folds(ps, kind),
            rs == fold_reports(ps, kind),
            fs == fold_views(idioms@),
            name_match::lists_parsed(parsed@, origins@, name_match::parsed_parts(ps)),
            forall|j: int|
                0 <= j < name_match::parsed_parts(ps).len() ==> 0 <= (
                #[trigger] name_match::parsed_parts(ps)[j]).1 < ps.len(),
            forall|j: int|
                0 <= j < idioms@.len() ==> (#[trigger] idioms@[j]).alter_index < parsed@.len(),
            diagnostic::reports(diagnostics@) == said + rs.take(i as int),
        decreases idioms@.len() - i,
    {
        let idiom = &idioms[i];
        proof {
            let p = name_match::parsed_parts(ps)[idiom.alter_index as int];
            assert(origins@[idiom.alter_index as int] == p.1);
            assert(fs[i as int] == idiom@);
            assert(rs.take(i + 1) =~= rs.take(i as int).push(rs[i as int]));
        }
        let alter_part: usize = origins[idiom.alter_index];
        let ghost held = diagnostics@;
        diagnostics.push(diag(idiom, &parts[alter_part], kind, false));
        i += 1;
        proof {
            assert(diagnostic::reports(diagnostics@) =~= diagnostic::reports(held).push(
                rs[i - 1],
            ));
            assert(diagnostic::reports(diagnostics@) =~= said + rs.take(i as int));
        }
    }
    proof {
        assert(rs.take(i as int) =~= rs);
    }
}

/// A table with one constraint more.
pub open spec fn with_constraint(t: Tree, constraint: Tree) -> Tree {
    let ct = token::field(t, "CreateTable"@);
    let held = name_match::items_of(token::field(ct, "constraints"@));
    syntax::with_member(
        t,
        "CreateTable"@,
        syntax::with_member(ct, "constraints"@, Tree::List(held.push(constraint))),
    )
}

/// The statements with the constraint on the first table that matches, from `at` on; `None`
/// where no table does.
pub open spec fn folded_into(ts: Seq<Tree>, fold: Fold, at: int) -> Option<Seq<Tree>>
    decreases ts.len() - at,
{
    if !(0 <= at < ts.len()) {
        None
    } else {
        match created_table(ts[at]) {
            Some(n) => if name_match::matching(n, fold.table) {
                Some(ts.update(at, with_constraint(ts[at], fold.constraint)))
            } else {
                folded_into(ts, fold, at + 1)
            },
            None => folded_into(ts, fold, at + 1),
        }
    }
}

/// The pretty text of a list of statements.
pub open spec fn pretty_text(ts: Seq<Tree>) -> Seq<char> {
    text::joined(ts.map_values(|t: Tree| syntax::shown_pretty(t)), ";\n"@)
}

/// A script on the way through its folds: its parts, which of them are done with, and the
/// reports.
pub ghost struct Folding {
    pub parts: Seq<(usize, Seq<char>)>,
    pub gone: Seq<usize>,
    pub reports: Seq<diagnostic::DiagnosticView>,
}

/// One fold carried out: the table is rewritten and the `ALTER TABLE` is done with. A table
/// that does not parse again, or is not found again, stays as it is.
pub open spec fn fold_step(st: Folding, fold: Fold, create: int, alter: int, kind: Kind) -> Folding {
    match syntax::statements(Dialect::Postgres, text::trimmed(st.parts[create].1)) {
        Err(_) => st,
        Ok(ts) => match folded_into(ts, fold, 0) {
            None => st,
            Some(us) => {
                let parts = st.parts.update(create, (st.parts[create].0, pretty_text(us)));
                Folding {
                    parts,
                    gone: st.gone.push(alter as usize),
                    reports: st.reports.push(fold_report(fold, parts[alter], kind, true)),
                }
            },
        },
    }
}

/// The script behind its first `n` folds.
pub open spec fn folding(script: Seq<(usize, Seq<char>)>, kind: Kind, n: int) -> Folding
    decreases n,
{
    if n <= 0 {
        Folding { parts: script, gone: seq![], reports: seq![] }
    } else {
        let fold = script_folds(script, kind)[n - 1];
        fold_step(
            folding(script, kind, n - 1),
            fold,
            origin(script, fold.create),
            origin(script, fold.alter),
            kind,
        )
    }
}

/// The script with every fold carried out, and the reports.
pub open spec fn all_folded(script: Seq<(usize, Seq<char>)>, kind: Kind) -> (
    Seq<(usize, Seq<char>)>,
    Seq<diagnostic::DiagnosticView>,
) {
    let end = folding(script, kind, script_folds(script, kind).len() as int);
    (name_match::without(end.parts, end.gone), end.reports)
}

/// Puts a constraint on a table.
pub fn add_constraint(stmt: &mut Value, constraint: &Value)
    requires
        created_table(syntax::tree(*old(stmt))) is Some,
    ensures
        syntax::tree(*final(stmt)) == with_constraint(
            syntax::tree(*old(stmt)),
            syntax::tree(*constraint),
        ),
{
    let mut table = match get(stmt, "CreateTable") {
        Some(ct) => copy(ct),
        None => {
            return ;
        },
    };
    let mut items: Vec<Value> = Vec::new();
    let ghost held = name_match::items_of(token::field(syntax::tree(table), "constraints"@));
    if let Some(v) = get(&table, "constraints") {
        if let Some(vs) = as_list(v) {
            let mut i: usize = 0;
            while i < vs.len()
                invariant
                    i <= vs@.len(),
                    items@.len() == i,
                    forall|j: int|
                        0 <= j < i ==> syntax::tree(#[trigger] items@[j]) == syntax::tree(vs@[j]),
                decreases vs@.len() - i,
            {
                items.push(copy(&vs[i]));
                i += 1;
            }
            proof {
                assert(syntax::trees(items@) =~= syntax::trees(vs@));
            }
        }
    }
    proof {
        assert(syntax::trees(items@) =~= held);
    }
    items.push(copy(constraint));
    proof {
        assert(syntax::trees(items@) =~= held.push(syntax::tree(*constraint)));
    }
    put(&mut table, "constraints", list(items));
    put(stmt, "CreateTable", table);
}

/// The pretty text of a list of statements.
pub fn pretty_join(stmts: &Vec<Value>) -> (r: String)
    ensures
        r@ == pretty_text(syntax::trees(stmts@)),
{
    let ghost ts = syntax::trees(stmts@);
    let mut texts: Vec<String> = Vec::new();
    let mut i: usize = 0;
    while i < stmts.len()
        invariant
            i <= stmts@.len(),
            texts@.len() == i,
            forall|j: int|
                0 <= j < i ==> (#[trigger] texts@[j])@ == syntax::shown_pretty(syntax::tree(stmts@[j])),
        decreases stmts@.len() - i,
    {
        texts.push(show_pretty(&stmts[i]));
        i += 1;
    }
    proof {
        assert(text::views(texts@) =~= ts.map_values(|t: Tree| syntax::shown_pretty(t)));
    }
    join(&texts, ";\n")
}

/// Puts the constraint on the first table that matches; tells whether there is one.
pub fn fold_into(stmts: &mut Vec<Value>, idiom: &Idiom) -> (r: bool)
    ensures
        match folded_into(syntax::trees(old(stmts)@), idiom@, 0) {
            Some(ts) => r && syntax::trees(final(stmts)@) == ts,
            None => !r && syntax::trees(final(stmts)@) == syntax::trees(old(stmts)@),
        },
{
    let ghost ts = syntax::trees(stmts@);
    let mut i: usize = 0;
    while i < stmts.len()
        invariant
            i <= stmts@.len(),
            stmts@ == old(stmts)@,
            ts == syntax::trees(stmts@),
            folded_into(ts, idiom@, 0) == folded_into(ts, idiom@, i as int),
        decreases stmts@.len() - i,
    {
        if let Some(n) = read_created(&stmts[i]) {
            if refs_match(&n, &idiom.table) {
                let mut stmt = copy(&stmts[i]);
                add_constraint(&mut stmt, &idiom.constraint);
                stmts.set(i, stmt);
                proof {
                    assert(syntax::trees(stmts@) =~= ts.update(
                        i as int,
                        with_constraint(ts[i as int], idiom@.constraint),
                    ));
                }
                return true;
            }
        }
        i += 1;
    }
    false
}

/// Carries out every fold: the constraint moves onto its table, and the `ALTER TABLE` goes.
fn fix(parts: &mut Vec<Part>, diagnostics: &mut Vec<Diagnostic>, kind: Kind)
    ensures
        ({
            let fixed = all_folded(split::parts_view(old(parts)@), kind);
            &&& split::parts_view(final(parts)@) == fixed.0
            &&& diagnostic::reports(final(diagnostics)@) == diagnostic::reports(
                old(diagnostics)@,
            ) + fixed.1
        }),
{
    let ghost script = split::parts_view(parts@);
    let ghost said = diagnostic::reports(diagnostics@);
    let (parsed, origins) = parse_parts(parts);
    proof {
        assert(syntax::trees(parsed@) =~= parsed_trees(script));
        name_match::lemma_origins(script);
    }
    let idioms = detect(&parsed, kind);
    let ghost fs = script_folds(script, kind);
    let mut gone: Vec<usize> = Vec::new();
    let mut i: usize = 0;
    proof {
        assert(said + seq![] =~= said);
        assert(gone@ =~= seq![]);
    }
    while i < idioms.len()
        invariant
            i <= idioms@.len() == fs.len(),
            parts@.len() == script.len(),
            fs == script_folds(script, kind),
            fs == fold_views(idioms@),
            name_match::lists_parsed(parsed@, origins@, name_match::parsed_parts(script)),
            forall|j: int|
                0 <= j < name_match::parsed_parts(script).len() ==> 0 <= (
                #[trigger] name_match::parsed_parts(script)[j]).1 < script.len(),
            forall|j: int|
                0 <= j < idioms@.len() ==> (#[trigger] idioms@[j]).alter_index < parsed@.len()
                    && idioms@[j].create_table_index < parsed@.len(),
            split::parts_view(parts@) == folding(script, kind, i as int).parts,
            gone@ == folding(script, kind, i as int).gone,
            diagnostic::reports(diagnostics@) == said + folding(script, kind, i as int).reports,
            forall|j: int| 0 <= j < gone@.len() ==> (#[trigger] gone@[j]) < script.len(),
        decreases idioms@.len() - i,
    {
        let idiom = &idioms[i];
        let ghost st = folding(script, kind, i as int);
        proof {
            let c = name_match::parsed_parts(script)[idiom.create_table_index as int];
            let a = name_match::parsed_parts(script)[idiom.alter_index as int];
            assert(origins@[idiom.create_table_index as int] == c.1);
            assert(origins@[idiom.alter_index as int] == a.1);
            assert(fs[i as int] == idiom@);
            assert(st.parts.len() == script.len());
        }
        let create_part: usize = origins[idiom.create_table_index];
        let alter_part: usize = origins[idiom.alter_index];
        if let Ok(stmts) = parse(
            Dialect::Postgres,
            trim(parts[create_part].1.as_str()).as_str(),
        ) {
            let mut stmts = stmts;
            if fold_into(&mut stmts, idiom) {
                let line: usize = parts[create_part].0;
                let rewritten = pretty_join(&stmts);
                parts.set(create_part, (line, rewritten));
                proof {
                    assert(split::parts_view(parts@) =~= st.parts.update(
                        create_part as int,
                        (line, rewritten@),
                    ));
                }
                gone.push(alter_part);
                let ghost held = diagnostics@;
                let report = diag(idiom, &parts[alter_part], kind, true);
                diagnostics.push(report);
                proof {
                    assert(diagnostic::reports(diagnostics@) =~= diagnostic::reports(held).push(
                        report@,
                    ));
                    assert(said + st.reports.push(report@) =~= (said + st.reports).push(report@));
                }
            }
        }
        i += 1;
    }
    drop_parts(parts, gone);
}

/// Reports each `ALTER TABLE ... ADD ... PRIMARY KEY` that can be folded.
pub fn check_alter_add_primary_key(parts: &Vec<Part>, diagnostics: &mut Vec<Diagnostic>)
    ensures
        diagnostic::reports(final(diagnostics)@) == diagnostic::reports(old(diagnostics)@)
            + fold_reports(split::parts_view(parts@), Kind::PrimaryKey),
{
    check(parts, diagnostics, Kind::PrimaryKey)
}

/// Folds each `ALTER TABLE ... ADD ... PRIMARY KEY` into its table.
pub fn fix_alter_add_primary_key(parts: &mut Vec<Part>, diagnostics: &mut Vec<Diagnostic>)
    ensures
        ({
            let fixed = all_folded(split::parts_view(old(parts)@), Kind::PrimaryKey);
            &&& split::parts_view(final(parts)@) == fixed.0
            &&& diagnostic::reports(final(diagnostics)@) == diagnostic::reports(
                old(diagnostics)@,
            ) + fixed.1
        }),
{
    fix(parts, diagnostics, Kind::PrimaryKey)
}

/// Reports each `ALTER TABLE ... ADD ... UNIQUE` that can be folded.
pub fn check_alter_add_unique(parts: &Vec<Part>, diagnostics: &mut Vec<Diagnostic>)
    ensures
        diagnostic::reports(final(diagnostics)@) == diagnostic::reports(old(diagnostics)@)
            + fold_reports(split::parts_view(parts@), Kind::Unique),
{
    check(parts, diagnostics, Kind::Unique)
}

/// Folds each `ALTER TABLE ... ADD ... UNIQUE` into its table.
pub fn fix_alter_add_unique(parts: &mut Vec<Part>, diagnostics: &mut Vec<Diagnostic>)
    ensures
        ({
            let fixed = all_folded(split::parts_view(old(parts)@), Kind::Unique);
            &&& split::parts_view(final(parts)@) == fixed.0
            &&& diagnostic::reports(final(diagnostics)@) == diagnostic::reports(
                old(diagnostics)@,
            ) + fixed.1
        }),
{
    fix(parts, diagnostics, Kind::Unique)
}

/// A constraint is folded only into a table that an earlier statement creates under a matching
/// name, and a qualified one into the table of that very name where there is one.
pub proof fn law_fold_target_stands_before(stmts: Seq<Tree>, kind: Kind, at: int)
    requires
        0 <= at < stmts.len(),
        fold_at(stmts, kind, at) is Some,
    ensures
        ({
            let fold = fold_at(stmts, kind, at)->Some_0;
            &&& 0 <= fold.create < fold.alter == at
            &&& created_table(stmts[fold.create]) matches Some(n) && name_match::matching(
                n,
                fold.table,
            )
            &&& forall|i: int|
                0 <= i < at && fold.table.0 is Some && #[trigger] created_table(stmts[i]) == Some(
                    fold.table,
                ) ==> created_table(stmts[fold.create]) == Some(fold.table)
        }),
{
    let fold = fold_at(stmts, kind, at)->Some_0;
    let names = created_names(stmts);
    let before = created_before(stmts, at);
    name_match::law_best_match_prefers_the_schema(names, before, fold.table);
    assert(name_match::candidate(names, before, fold.table, fold.create));
    assert forall|i: int|
        0 <= i < at && fold.table.0 is Some && #[trigger] created_table(stmts[i]) == Some(
            fold.table,
        ) implies created_table(stmts[fold.create]) == Some(fold.table) by {
        assert(name_match::exact_candidate(names, before, fold.table, i));
    }
}

/// A script without such constraints stays as it is, without a report.
pub proof fn law_script_without_folds_is_untouched(script: Seq<(usize, Seq<char>)>, kind: Kind)
    requires
        script_folds(script, kind).len() == 0,
    ensures
        all_folded(script, kind) == (script, Seq::<diagnostic::DiagnosticView>::empty()),
{
    name_match::law_dropping_nothing_keeps_all(script);
}

/// The fix reports no more than the check does, and drops one part at most for each report.
pub proof fn law_fix_reports_no_more_than_check(
    script: Seq<(usize, Seq<char>)>,
    kind: Kind,
    n: int,
)
    requires
        0 <= n <= script_folds(script, kind).len(),
    ensures
        folding(script, kind, n).reports.len() <= n,
        folding(script, kind, n).gone.len() == folding(script, kind, n).reports.len(),
    decreases n,
{
    if n > 0 {
        law_fix_reports_no_more_than_check(script, kind, n - 1);
    }
}

} // verus!
