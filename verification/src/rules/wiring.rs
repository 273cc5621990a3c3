//! Serial columns that statements of a script wire up, seen as a property of the whole script:
//! what the folds leave wires up none.

use vstd::prelude::*;

use crate::alike;
use crate::rules::constraint_collapse::Kind;
use crate::rules::{
    constraint_collapse, errors, likeness, name_match, options, refusals, serial_idiom,
};
use crate::syntax::{self, Dialect, Tree};
use crate::text;
use crate::token;

verus! {

/// Whether the parser reads a text as statements that say the same as the given ones.
pub open spec fn reads_as(sql: Seq<char>, ts: Seq<Tree>) -> bool {
    syntax::statements(Dialect::Postgres, text::trimmed(sql)) matches Ok(us) && alike::all_alike(
        ts,
        us,
    )
}

/// What the idiom can see of the statements of a part; `None` where it does not parse.
pub open spec fn seen_in(part: (usize, Seq<char>)) -> Option<Seq<serial_idiom::Traits>> {
    match syntax::statements(Dialect::Postgres, text::trimmed(part.1)) {
        Ok(ts) => Some(ts.map_values(|t: Tree| serial_idiom::traits(t))),
        Err(_) => None,
    }
}

/// Whether the statement at `k` of a part shows the given traits.
pub open spec fn shows_at(part: (usize, Seq<char>), k: int, f: serial_idiom::Traits) -> bool {
    seen_in(part) matches Some(fs) && 0 <= k < fs.len() && fs[k] == f
}

/// Whether a statement of a script shows the given traits.
pub open spec fn shows(parts: Seq<(usize, Seq<char>)>, f: serial_idiom::Traits) -> bool {
    exists|i: int, k: int| 0 <= i < parts.len() && #[trigger] shows_at(parts[i], k, f)
}

/// Whether statements with these traits wire up a serial column: a default, a table, a sequence.
pub open spec fn wires(
    a: serial_idiom::Traits,
    c: serial_idiom::Traits,
    q: serial_idiom::Traits,
) -> bool {
    match (a.default, a.altered, c.created, q.sequence) {
        (Some((column, sequence)), Some(table), Some(created), Some(named)) => {
            &&& c.columns.contains(column)
            &&& name_match::matching(created, table)
            &&& name_match::matching(named, sequence)
        },
        _ => false,
    }
}

/// Whether a script wires up a serial column.
pub open spec fn wires_up(parts: Seq<(usize, Seq<char>)>) -> bool {
    exists|a: serial_idiom::Traits, c: serial_idiom::Traits, q: serial_idiom::Traits|
        shows(parts, a) && shows(parts, c) && shows(parts, q) && #[trigger] wires(a, c, q)
}

/// Whether a statement with these traits takes no part in wiring up a serial column.
pub open spec fn is_inert(f: serial_idiom::Traits) -> bool {
    f.default is None && f.created is None && f.sequence is None
}

/// Whether one script shows nothing that the other does not show.
pub open spec fn draws_on(qs: Seq<(usize, Seq<char>)>, ps: Seq<(usize, Seq<char>)>) -> bool {
    forall|f: serial_idiom::Traits| #[trigger] shows(qs, f) ==> is_inert(f) || shows(ps, f)
}

/// A script that shows nothing new wires up nothing new.
pub proof fn lemma_nothing_new(qs: Seq<(usize, Seq<char>)>, ps: Seq<(usize, Seq<char>)>)
    requires
        draws_on(qs, ps),
        wires_up(qs),
    ensures
        wires_up(ps),
{
    let (a, c, q) = choose|
        a: serial_idiom::Traits,
        c: serial_idiom::Traits,
        q: serial_idiom::Traits,
    |
        shows(qs, a) && shows(qs, c) && shows(qs, q) && #[trigger] wires(a, c, q);
    assert(shows(ps, a) && shows(ps, c) && shows(ps, q));
}

/// A parsed statement is one of the statements of its part.
pub proof fn lemma_parsed(parts: Seq<(usize, Seq<char>)>, n: int)
    requires
        0 <= n < name_match::parsed_parts(parts).len(),
    ensures
        ({
            let (t, i) = name_match::parsed_parts(parts)[n];
            &&& 0 <= i < parts.len()
            &&& exists|k: int| #[trigger] shows_at(parts[i], k, serial_idiom::traits(t))
            &&& syntax::statements(Dialect::Postgres, text::trimmed(parts[i].1)) matches Ok(ts)
                && ts.contains(t)
        }),
    decreases parts.len(),
{
    let front = parts.drop_last();
    let before = name_match::parsed_parts(front);
    let (t, i) = name_match::parsed_parts(parts)[n];
    if n < before.len() {
        lemma_parsed(front, n);
        assert(before[n] == (t, i));
        assert(front[i] == parts[i]);
    } else {
        let k = n - before.len();
        let ts = syntax::statements(Dialect::Postgres, text::trimmed(parts.last().1))->Ok_0;
        assert(ts[k] == t);
        assert(shows_at(parts[i], k, serial_idiom::traits(t)));
    }
}

/// A statement of a part is one of the parsed ones.
pub proof fn lemma_is_parsed(parts: Seq<(usize, Seq<char>)>, i: int, k: int) -> (n: int)
    requires
        0 <= i < parts.len(),
        syntax::statements(Dialect::Postgres, text::trimmed(parts[i].1)) matches Ok(ts) && 0 <= k
            < ts.len(),
    ensures
        0 <= n < name_match::parsed_parts(parts).len(),
        name_match::parsed_parts(parts)[n] == (
            syntax::statements(Dialect::Postgres, text::trimmed(parts[i].1))->Ok_0[k],
            i,
        ),
    decreases parts.len(),
{
    let front = parts.drop_last();
    let before = name_match::parsed_parts(front);
    if i < front.len() {
        assert(front[i] == parts[i]);
        let n = lemma_is_parsed(front, i, k);
        assert(name_match::parsed_parts(parts)[n] == before[n]);
        n
    } else {
        before.len() + k
    }
}

proof fn lemma_serial_is_listed(ts: Seq<Tree>, n: int, at: int)
    requires
        0 <= at < n <= ts.len(),
        serial_idiom::serial_at(ts, at) is Some,
    ensures
        exists|j: int|
            0 <= j < serial_idiom::serials(ts, n).len() && (#[trigger] serial_idiom::serials(
                ts,
                n,
            )[j]).set_default == at,
    decreases n,
{
    let all = serial_idiom::serials(ts, n);
    let before = serial_idiom::serials(ts, n - 1);
    if at < n - 1 {
        lemma_serial_is_listed(ts, n - 1, at);
        let j = choose|j: int| 0 <= j < before.len() && (#[trigger] before[j]).set_default == at;
        assert(all[j] == before[j]);
    } else {
        assert(all[before.len() as int].set_default == at);
    }
}

/// The serial columns of a script come from its statements.
pub proof fn lemma_listed_serial(ts: Seq<Tree>, n: int, j: int)
    requires
        0 <= n <= ts.len(),
        0 <= j < serial_idiom::serials(ts, n).len(),
    ensures
        ({
            let s = serial_idiom::serials(ts, n)[j];
            0 <= s.set_default < n && serial_idiom::serial_at(ts, s.set_default) == Some(s)
        }),
    decreases n,
{
    if n > 0 {
        let before = serial_idiom::serials(ts, n - 1);
        if j < before.len() {
            lemma_listed_serial(ts, n - 1, j);
            assert(serial_idiom::serials(ts, n)[j] == before[j]);
        }
    }
}

/// Where a statement wires up a serial column, the table and the sequence are there.
pub proof fn lemma_serial_parts(ts: Seq<Tree>, at: int)
    requires
        0 <= at < ts.len(),
        serial_idiom::serial_at(ts, at) is Some,
    ensures
        ({
            let s = serial_idiom::serial_at(ts, at)->Some_0;
            &&& 0 <= s.create < ts.len()
            &&& 0 <= s.create_sequence < ts.len()
            &&& s.set_default == at
            &&& constraint_collapse::created_table(ts[s.create]) == Some(s.table)
            &&& serial_idiom::creates_with_column(ts[s.create], s.column)
            &&& wires(
                serial_idiom::traits(ts[at]),
                serial_idiom::traits(ts[s.create]),
                serial_idiom::traits(ts[s.create_sequence]),
            )
        }),
{
    let (column, sequence) = serial_idiom::set_default(ts[at])->Some_0;
    let table = constraint_collapse::altered_table(ts[at])->Some_0;
    let columns = Seq::new(
        ts.len(),
        |i: int| serial_idiom::creates_with_column(ts[i], column),
    );
    let sequences = Seq::new(
        ts.len(),
        |i: int| serial_idiom::created_sequence(ts[i]) is Some,
    );
    name_match::law_best_match_prefers_the_schema(
        constraint_collapse::created_names(ts),
        columns,
        table,
    );
    name_match::law_best_match_prefers_the_schema(
        serial_idiom::sequence_names(ts),
        sequences,
        sequence,
    );
    let s = serial_idiom::serial_at(ts, at)->Some_0;
    assert(name_match::candidate(
        constraint_collapse::created_names(ts),
        columns,
        table,
        s.create,
    ));
    assert(name_match::candidate(
        serial_idiom::sequence_names(ts),
        sequences,
        sequence,
        s.create_sequence,
    ));
}

/// Statements that wire up a serial column are found out.
pub proof fn lemma_wired_is_serial(ts: Seq<Tree>, at: int, c: int, q: int)
    requires
        0 <= at < ts.len(),
        0 <= c < ts.len(),
        0 <= q < ts.len(),
        wires(
            serial_idiom::traits(ts[at]),
            serial_idiom::traits(ts[c]),
            serial_idiom::traits(ts[q]),
        ),
    ensures
        serial_idiom::serial_at(ts, at) is Some,
{
    let (column, sequence) = serial_idiom::set_default(ts[at])->Some_0;
    let table = constraint_collapse::altered_table(ts[at])->Some_0;
    let columns = Seq::new(
        ts.len(),
        |i: int| serial_idiom::creates_with_column(ts[i], column),
    );
    let sequences = Seq::new(
        ts.len(),
        |i: int| serial_idiom::created_sequence(ts[i]) is Some,
    );
    name_match::law_best_match_prefers_the_schema(
        constraint_collapse::created_names(ts),
        columns,
        table,
    );
    name_match::law_best_match_prefers_the_schema(
        serial_idiom::sequence_names(ts),
        sequences,
        sequence,
    );
    assert(name_match::candidate(constraint_collapse::created_names(ts), columns, table, c));
    assert(name_match::candidate(serial_idiom::sequence_names(ts), sequences, sequence, q));
}

/// The reports on serial columns are of what a script wires up: where it wires up none there are
/// none.
pub proof fn law_serials_are_what_is_wired_up(parts: Seq<(usize, Seq<char>)>)
    ensures
        wires_up(parts) <==> serial_idiom::serial_reports(parts).len() > 0,
{
    let ps = name_match::parsed_parts(parts);
    let ts = constraint_collapse::parsed_trees(parts);
    let ss = serial_idiom::script_serials(parts);
    assert(serial_idiom::serial_reports(parts).len() == ss.len());
    if ss.len() > 0 {
        lemma_listed_serial(ts, ts.len() as int, 0);
        let s = ss[0];
        lemma_serial_parts(ts, s.set_default);
        lemma_parsed(parts, s.set_default);
        lemma_parsed(parts, s.create);
        lemma_parsed(parts, s.create_sequence);
        assert(shows(parts, serial_idiom::traits(ts[s.set_default])));
        assert(shows(parts, serial_idiom::traits(ts[s.create])));
        assert(shows(parts, serial_idiom::traits(ts[s.create_sequence])));
    }
    if wires_up(parts) {
        let (a, c, q) = choose|
            a: serial_idiom::Traits,
            c: serial_idiom::Traits,
            q: serial_idiom::Traits,
        |
            shows(parts, a) && shows(parts, c) && shows(parts, q) && #[trigger] wires(a, c, q);
        let x = lemma_shown(parts, a);
        let y = lemma_shown(parts, c);
        let z = lemma_shown(parts, q);
        lemma_wired_is_serial(ts, x, y, z);
        lemma_serial_is_listed(ts, ts.len() as int, x);
    }
}

/// What a script shows is shown by one of its parsed statements.
proof fn lemma_shown(parts: Seq<(usize, Seq<char>)>, f: serial_idiom::Traits) -> (n: int)
    requires
        shows(parts, f),
    ensures
        0 <= n < name_match::parsed_parts(parts).len(),
        serial_idiom::traits(name_match::parsed_parts(parts)[n].0) == f,
        serial_idiom::traits(constraint_collapse::parsed_trees(parts)[n]) == f,
{
    let (i, k) = choose|i: int, k: int| 0 <= i < parts.len() && #[trigger] shows_at(parts[i], k, f);
    lemma_is_parsed(parts, i, k)
}

/// What is left of a script stood in it, at a place that did not go.
pub proof fn lemma_left_stood(parts: Seq<(usize, Seq<char>)>, gone: Seq<usize>, j: int) -> (i: int)
    requires
        0 <= j < name_match::without(parts, gone).len(),
    ensures
        0 <= i < parts.len(),
        parts[i] == name_match::without(parts, gone)[j],
        !gone.contains(i as usize),
    decreases parts.len(),
{
    let front = parts.drop_last();
    let before = name_match::without(front, gone);
    if j < before.len() {
        let i = lemma_left_stood(front, gone, j);
        assert(front[i] == parts[i]);
        assert(name_match::without(parts, gone)[j] == before[j]);
        i
    } else {
        parts.len() - 1
    }
}

/// Whether two scripts show the same, part by part.
pub open spec fn same_sights(qs: Seq<(usize, Seq<char>)>, ps: Seq<(usize, Seq<char>)>) -> bool {
    qs.len() == ps.len() && forall|i: int|
        0 <= i < ps.len() ==> seen_in(#[trigger] qs[i]) == seen_in(ps[i])
}

/// What is left of a script that shows the same shows nothing new.
pub proof fn lemma_left_draws_on(
    qs: Seq<(usize, Seq<char>)>,
    gone: Seq<usize>,
    ps: Seq<(usize, Seq<char>)>,
)
    requires
        same_sights(qs, ps),
    ensures
        draws_on(name_match::without(qs, gone), ps),
{
    let rest = name_match::without(qs, gone);
    assert forall|f: serial_idiom::Traits| #[trigger] shows(rest, f) implies is_inert(f) || shows(
        ps,
        f,
    ) by {
        let (j, k) = choose|j: int, k: int| 0 <= j < rest.len() && #[trigger] shows_at(rest[j], k, f);
        let i = lemma_left_stood(qs, gone, j);
        assert(seen_in(qs[i]) == seen_in(ps[i]));
        assert(shows_at(ps[i], k, f));
    }
}

/// A text that is read as what was printed shows what that showed.
pub proof fn lemma_read_back_sights(line: usize, sql: Seq<char>, ts: Seq<Tree>)
    requires
        reads_as(sql, ts),
    ensures
        seen_in((line, sql)) == Some(ts.map_values(|t: Tree| serial_idiom::traits(t))),
{
    let us = syntax::statements(Dialect::Postgres, text::trimmed(sql))->Ok_0;
    assert forall|i: int| 0 <= i < ts.len() implies serial_idiom::traits(#[trigger] ts[i])
        == serial_idiom::traits(us[i]) by {
        likeness::lemma_traits(ts[i], us[i]);
    }
    assert(us.map_values(|t: Tree| serial_idiom::traits(t)) =~= ts.map_values(
        |t: Tree| serial_idiom::traits(t),
    ));
}

/// Names of fields that the folds set beside others.
proof fn lemma_names_are_apart()
    ensures
        "CreateTable"@ != "CreateSequence"@,
        "CreateTable"@ != "AlterTable"@,
        "CreateSequence"@ != "AlterTable"@,
        "columns"@ != "name"@,
        "constraints"@ != "name"@,
        "constraints"@ != "columns"@,
        "data_type"@ != "name"@,
        "options"@ != "name"@,
{
    reveal_strlit("CreateTable");
    reveal_strlit("CreateSequence");
    reveal_strlit("AlterTable");
    reveal_strlit("columns");
    reveal_strlit("name");
    reveal_strlit("constraints");
    reveal_strlit("data_type");
    reveal_strlit("options");
    assert("CreateTable"@.len() == 11);
    assert("CreateSequence"@.len() == 14);
    assert("AlterTable"@.len() == 10);
    assert("columns"@.len() == 7);
    assert("name"@.len() == 4);
    assert("constraints"@.len() == 11);
    assert("data_type"@.len() == 9);
    assert("options"@.len() == 7);
}

proof fn lemma_identity_is_not_seen(t: Tree, column: Seq<char>)
    requires
        syntax::member(t, "CreateTable"@) is Some,
    ensures
        serial_idiom::traits(serial_idiom::with_identity(t, column)) == serial_idiom::traits(t),
{
    lemma_names_are_apart();
    let u = serial_idiom::with_identity(t, column);
    let ct = token::field(t, "CreateTable"@);
    let cu = token::field(u, "CreateTable"@);
    let xs = name_match::items_of(token::field(ct, "columns"@));
    let ys = serial_idiom::with_identity_column(xs, column);
    assert(cu == syntax::with_member(ct, "columns"@, Tree::List(ys)));
    assert forall|i: int| 0 <= i < xs.len() implies token::field(#[trigger] ys[i], "name"@)
        == token::field(xs[i], "name"@) by {}
    assert(token::field(cu, "name"@) == token::field(ct, "name"@));
    if ct is Record {
        assert(name_match::items_of(token::field(cu, "columns"@)) == ys);
    } else {
        assert(cu == ct);
    }
    assert(serial_idiom::column_names(cu) =~= serial_idiom::column_names(ct));
    assert(syntax::member(u, "CreateSequence"@) == syntax::member(t, "CreateSequence"@));
    assert(syntax::member(u, "AlterTable"@) == syntax::member(t, "AlterTable"@));
}

proof fn lemma_constraint_is_not_seen(t: Tree, constraint: Tree)
    requires
        syntax::member(t, "CreateTable"@) is Some,
    ensures
        serial_idiom::traits(constraint_collapse::with_constraint(t, constraint))
            == serial_idiom::traits(t),
{
    lemma_names_are_apart();
    let u = constraint_collapse::with_constraint(t, constraint);
    let ct = token::field(t, "CreateTable"@);
    let cu = token::field(u, "CreateTable"@);
    assert(token::field(cu, "name"@) == token::field(ct, "name"@));
    assert(token::field(cu, "columns"@) == token::field(ct, "columns"@));
    assert(syntax::member(u, "CreateSequence"@) == syntax::member(t, "CreateSequence"@));
    assert(syntax::member(u, "AlterTable"@) == syntax::member(t, "AlterTable"@));
}

proof fn lemma_identity_into(ts: Seq<Tree>, s: serial_idiom::Serial, at: int)
    requires
        0 <= at,
    ensures
        serial_idiom::identity_into(ts, s, at) matches Some(us) ==> us.map_values(
            |t: Tree| serial_idiom::traits(t),
        ) == ts.map_values(|t: Tree| serial_idiom::traits(t)),
        serial_idiom::identity_into(ts, s, at) is None ==> forall|i: int|
            at <= i < ts.len() ==> !(serial_idiom::creates_with_column(#[trigger] ts[i], s.column)
                && name_match::matching(
                constraint_collapse::created_table(ts[i])->Some_0,
                s.table,
            )),
    decreases ts.len() - at,
{
    if at < ts.len() {
        if serial_idiom::creates_with_column(ts[at], s.column) && name_match::matching(
            constraint_collapse::created_table(ts[at])->Some_0,
            s.table,
        ) {
            let us = serial_idiom::identity_into(ts, s, at)->Some_0;
            lemma_identity_is_not_seen(ts[at], s.column);
            assert(us.map_values(|t: Tree| serial_idiom::traits(t)) =~= ts.map_values(
                |t: Tree| serial_idiom::traits(t),
            ));
        } else {
            lemma_identity_into(ts, s, at + 1);
        }
    }
}

proof fn lemma_folded_into(ts: Seq<Tree>, fold: constraint_collapse::Fold, at: int)
    requires
        0 <= at,
    ensures
        constraint_collapse::folded_into(ts, fold, at) matches Some(us) ==> us.map_values(
            |t: Tree| serial_idiom::traits(t),
        ) == ts.map_values(|t: Tree| serial_idiom::traits(t)),
    decreases ts.len() - at,
{
    if at < ts.len() {
        match constraint_collapse::created_table(ts[at]) {
            Some(n) => {
                if name_match::matching(n, fold.table) {
                    let us = constraint_collapse::folded_into(ts, fold, at)->Some_0;
                    lemma_constraint_is_not_seen(ts[at], fold.constraint);
                    assert(us.map_values(|t: Tree| serial_idiom::traits(t)) =~= ts.map_values(
                        |t: Tree| serial_idiom::traits(t),
                    ));
                } else {
                    lemma_folded_into(ts, fold, at + 1);
                }
            },
            None => {
                lemma_folded_into(ts, fold, at + 1);
            },
        }
    }
}

/// Whether the parser reads the table that a fold of a serial column prints as what was printed.
pub open spec fn serial_step_reads_back(
    st: constraint_collapse::Folding,
    s: serial_idiom::Serial,
    create: int,
) -> bool {
    match syntax::statements(Dialect::Postgres, text::trimmed(st.parts[create].1)) {
        Ok(ts) => match serial_idiom::identity_into(ts, s, 0) {
            Some(us) => reads_as(constraint_collapse::pretty_text(us), us),
            None => true,
        },
        Err(_) => true,
    }
}

/// Whether the parser reads every table that the folds of serial columns print as what was
/// printed.
pub open spec fn serials_read_back(script: Seq<(usize, Seq<char>)>) -> bool {
    forall|n: int|
        0 <= n < serial_idiom::script_serials(script).len() ==> serial_step_reads_back(
            #[trigger] serial_idiom::serial_folding(script, n),
            serial_idiom::script_serials(script)[n],
            constraint_collapse::origin(script, serial_idiom::script_serials(script)[n].create),
        )
}

/// Whether the parser reads the table that the fold of a constraint prints as what was printed.
pub open spec fn fold_step_reads_back(
    st: constraint_collapse::Folding,
    fold: constraint_collapse::Fold,
    create: int,
) -> bool {
    match syntax::statements(Dialect::Postgres, text::trimmed(st.parts[create].1)) {
        Ok(ts) => match constraint_collapse::folded_into(ts, fold, 0) {
            Some(us) => reads_as(constraint_collapse::pretty_text(us), us),
            None => true,
        },
        Err(_) => true,
    }
}

/// Whether the parser reads every table that the folds of constraints print as what was printed.
pub open spec fn folds_read_back(script: Seq<(usize, Seq<char>)>, kind: Kind) -> bool {
    forall|n: int|
        0 <= n < constraint_collapse::script_folds(script, kind).len() ==> fold_step_reads_back(
            #[trigger] constraint_collapse::folding(script, kind, n),
            constraint_collapse::script_folds(script, kind)[n],
            constraint_collapse::origin(
                script,
                constraint_collapse::script_folds(script, kind)[n].create,
            ),
        )
}

/// On its way through the folds a script shows what it showed, and every default that wired up a
/// serial column is done with.
pub proof fn lemma_serial_folding(script: Seq<(usize, Seq<char>)>, n: int)
    requires
        0 <= n <= serial_idiom::script_serials(script).len(),
        serials_read_back(script),
    ensures
        ({
            let st = serial_idiom::serial_folding(script, n);
            &&& same_sights(st.parts, script)
            &&& forall|j: int|
                0 <= j < n ==> st.gone.contains(
                    constraint_collapse::origin(
                        script,
                        (#[trigger] serial_idiom::script_serials(script)[j]).set_default,
                    ) as usize,
                )
            &&& forall|j: int|
                0 <= j < n ==> st.gone.contains(
                    constraint_collapse::origin(
                        script,
                        (#[trigger] serial_idiom::script_serials(script)[j]).create_sequence,
                    ) as usize,
                )
            &&& st.reports.len() == n
        }),
    decreases n,
{
    if n > 0 {
        let ts = constraint_collapse::parsed_trees(script);
        let ss = serial_idiom::script_serials(script);
        let s = ss[n - 1];
        let before = serial_idiom::serial_folding(script, n - 1);
        let after = serial_idiom::serial_folding(script, n);
        lemma_serial_folding(script, n - 1);
        lemma_listed_serial(ts, ts.len() as int, n - 1);
        lemma_serial_parts(ts, s.set_default);
        lemma_parsed(script, s.create);
        let c = constraint_collapse::origin(script, s.create);
        let f = serial_idiom::traits(ts[s.create]);
        let k = choose|k: int| #[trigger] shows_at(script[c], k, f);
        assert(seen_in(before.parts[c]) == seen_in(script[c]));
        assert(shows_at(before.parts[c], k, f));
        let read = syntax::statements(Dialect::Postgres, text::trimmed(before.parts[c].1))->Ok_0;
        assert(serial_idiom::traits(read[k]) == f);
        assert(serial_idiom::creates_with_column(read[k], s.column));
        assert(constraint_collapse::created_table(read[k]) == Some(s.table));
        lemma_identity_into(read, s, 0);
        assert(serial_idiom::identity_into(read, s, 0) is Some);
        let us = serial_idiom::identity_into(read, s, 0)->Some_0;
        let sql = constraint_collapse::pretty_text(us);
        assert(serial_step_reads_back(before, s, c));
        lemma_read_back_sights(before.parts[c].0, sql, us);
        assert(after.parts == before.parts.update(c, (before.parts[c].0, sql)));
        assert forall|i: int| 0 <= i < script.len() implies seen_in(#[trigger] after.parts[i])
            == seen_in(script[i]) by {
            if i != c {
                assert(after.parts[i] == before.parts[i]);
            }
        }
        let q = constraint_collapse::origin(script, s.create_sequence) as usize;
        let d = constraint_collapse::origin(script, s.set_default) as usize;
        let more = serial_idiom::owners(after.parts, s.sequence, after.parts.len() as int);
        assert(after.gone == before.gone.push(q).push(d) + more);
        assert(after.gone[before.gone.len() as int + 1] == d);
        assert forall|j: int| 0 <= j < n implies after.gone.contains(
            constraint_collapse::origin(script, (#[trigger] ss[j]).set_default) as usize,
        ) by {
            if j < n - 1 {
                let x = constraint_collapse::origin(script, ss[j].set_default) as usize;
                let at = choose|at: int| 0 <= at < before.gone.len() && before.gone[at] == x;
                assert(after.gone[at] == x);
            }
        }
        assert(after.gone[before.gone.len() as int] == q);
        assert forall|j: int| 0 <= j < n implies after.gone.contains(
            constraint_collapse::origin(script, (#[trigger] ss[j]).create_sequence) as usize,
        ) by {
            if j < n - 1 {
                let x = constraint_collapse::origin(script, ss[j].create_sequence) as usize;
                let at = choose|at: int| 0 <= at < before.gone.len() && before.gone[at] == x;
                assert(after.gone[at] == x);
            }
        }
    }
}

/// What the folds of serial columns leave wires up none, where the parser reads what they print.
pub proof fn law_folded_serials_are_gone(script: Seq<(usize, Seq<char>)>)
    requires
        serials_read_back(script),
    ensures
        !wires_up(serial_idiom::serials_folded(script).0),
        draws_on(serial_idiom::serials_folded(script).0, script),
{
    let ts = constraint_collapse::parsed_trees(script);
    let ss = serial_idiom::script_serials(script);
    let end = serial_idiom::serial_folding(script, ss.len() as int);
    let rest = serial_idiom::serials_folded(script).0;
    lemma_serial_folding(script, ss.len() as int);
    lemma_left_draws_on(end.parts, end.gone, script);
    if wires_up(rest) {
        let (a, c, q) = choose|
            a: serial_idiom::Traits,
            c: serial_idiom::Traits,
            q: serial_idiom::Traits,
        |
            shows(rest, a) && shows(rest, c) && shows(rest, q) && #[trigger] wires(a, c, q);
        assert(shows(script, c) && shows(script, q));
        let (j, k) = choose|j: int, k: int| 0 <= j < rest.len() && #[trigger] shows_at(rest[j], k, a);
        let i = lemma_left_stood(end.parts, end.gone, j);
        assert(seen_in(end.parts[i]) == seen_in(script[i]));
        assert(shows_at(script[i], k, a));
        let x = lemma_is_parsed(script, i, k);
        let y = lemma_shown(script, c);
        let z = lemma_shown(script, q);
        assert(serial_idiom::traits(ts[x]) == a);
        lemma_wired_is_serial(ts, x, y, z);
        lemma_serial_is_listed(ts, ts.len() as int, x);
        let m = choose|m: int| 0 <= m < ss.len() && (#[trigger] ss[m]).set_default == x;
        assert(constraint_collapse::origin(script, ss[m].set_default) == i);
    }
}

/// The table of a fold is one of the statements.
proof fn lemma_listed_fold(ts: Seq<Tree>, kind: Kind, n: int, j: int)
    requires
        0 <= n <= ts.len(),
        0 <= j < constraint_collapse::folds(ts, kind, n).len(),
    ensures
        0 <= constraint_collapse::folds(ts, kind, n)[j].create < ts.len(),
        0 <= constraint_collapse::folds(ts, kind, n)[j].alter < n,
        constraint_collapse::added_constraint(
            ts[constraint_collapse::folds(ts, kind, n)[j].alter],
            kind,
        ) is Some,
    decreases n,
{
    if n > 0 {
        let before = constraint_collapse::folds(ts, kind, n - 1);
        if j < before.len() {
            lemma_listed_fold(ts, kind, n - 1, j);
            assert(constraint_collapse::folds(ts, kind, n)[j] == before[j]);
        } else {
            let names = constraint_collapse::created_names(ts);
            let eligible = constraint_collapse::created_before(ts, n - 1);
            let table = constraint_collapse::altered_table(ts[n - 1])->Some_0;
            let fold = constraint_collapse::fold_at(ts, kind, n - 1)->Some_0;
            name_match::law_best_match_prefers_the_schema(names, eligible, table);
            assert(name_match::candidate(names, eligible, table, fold.create));
        }
    }
}

proof fn lemma_folding_sights(script: Seq<(usize, Seq<char>)>, kind: Kind, n: int)
    requires
        0 <= n <= constraint_collapse::script_folds(script, kind).len(),
        folds_read_back(script, kind),
    ensures
        same_sights(constraint_collapse::folding(script, kind, n).parts, script),
    decreases n,
{
    if n > 0 {
        let fold = constraint_collapse::script_folds(script, kind)[n - 1];
        let before = constraint_collapse::folding(script, kind, n - 1);
        let after = constraint_collapse::folding(script, kind, n);
        let c = constraint_collapse::origin(script, fold.create);
        let ts = constraint_collapse::parsed_trees(script);
        lemma_folding_sights(script, kind, n - 1);
        lemma_listed_fold(ts, kind, ts.len() as int, n - 1);
        lemma_parsed(script, fold.create);
        assert(fold_step_reads_back(before, fold, c));
        if let Ok(ts) = syntax::statements(Dialect::Postgres, text::trimmed(before.parts[c].1)) {
            lemma_folded_into(ts, fold, 0);
            if let Some(us) = constraint_collapse::folded_into(ts, fold, 0) {
                let sql = constraint_collapse::pretty_text(us);
                lemma_read_back_sights(before.parts[c].0, sql, us);
                assert(after.parts == before.parts.update(c, (before.parts[c].0, sql)));
                assert forall|i: int| 0 <= i < script.len() implies seen_in(
                    #[trigger] after.parts[i],
                ) == seen_in(script[i]) by {
                    if i != c {
                        assert(after.parts[i] == before.parts[i]);
                    } else {
                        assert(seen_in(before.parts[c]) == seen_in(script[c]));
                    }
                }
            }
        }
    }
}

/// What the folds of constraints leave shows nothing new, where the parser reads what they print.
pub proof fn law_folded_constraints_show_nothing_new(script: Seq<(usize, Seq<char>)>, kind: Kind)
    requires
        folds_read_back(script, kind),
    ensures
        draws_on(constraint_collapse::all_folded(script, kind).0, script),
{
    let n = constraint_collapse::script_folds(script, kind).len() as int;
    let end = constraint_collapse::folding(script, kind, n);
    lemma_folding_sights(script, kind, n);
    lemma_left_draws_on(end.parts, end.gone, script);
}

/// Whether two statements agree on what the traits of a statement are made of.
spec fn agree_on_traits(t: Tree, u: Tree) -> bool {
    let ct = token::field(t, "CreateTable"@);
    let cu = token::field(u, "CreateTable"@);
    let qt = token::field(t, "CreateSequence"@);
    let qu = token::field(u, "CreateSequence"@);
    &&& syntax::member(t, "CreateTable"@) is Some == syntax::member(u, "CreateTable"@) is Some
    &&& token::field(ct, "name"@) == token::field(cu, "name"@)
    &&& serial_idiom::column_names(ct) == serial_idiom::column_names(cu)
    &&& syntax::member(t, "CreateSequence"@) is Some == syntax::member(u, "CreateSequence"@) is Some
    &&& token::field(qt, "name"@) == token::field(qu, "name"@)
    &&& constraint_collapse::altered_table(t) == constraint_collapse::altered_table(u)
    &&& serial_idiom::set_default(t) == serial_idiom::set_default(u)
}

proof fn lemma_agreed_traits(t: Tree, u: Tree)
    requires
        agree_on_traits(t, u),
    ensures
        serial_idiom::traits(t) == serial_idiom::traits(u),
{
}

proof fn lemma_row_is_not_seen(t: Tree, raw: Seq<char>, e: refusals::FieldModel)
    requires
        e.kind != "AlterTable"@,
        e.field != "name"@,
        e.field != "columns"@,
    ensures
        serial_idiom::traits(refusals::row_rule(t, raw, e).0) == serial_idiom::traits(t),
{
    let u = refusals::row_rule(t, raw, e).0;
    refusals::lemma_row_keeps(t, raw, e, "CreateTable"@, "name"@);
    refusals::lemma_row_keeps(t, raw, e, "CreateTable"@, "columns"@);
    refusals::lemma_row_keeps(t, raw, e, "CreateSequence"@, "name"@);
    refusals::lemma_row_keeps(t, raw, e, "AlterTable"@, "name"@);
    assert(token::field(token::field(t, "CreateTable"@), "columns"@) == token::field(
        token::field(u, "CreateTable"@),
        "columns"@,
    ));
    lemma_agreed_traits(u, t);
}

proof fn lemma_rows_are_not_seen(t: Tree, raw: Seq<char>, es: Seq<refusals::FieldModel>)
    requires
        forall|i: int|
            0 <= i < es.len() ==> (#[trigger] es[i]).kind != "AlterTable"@ && es[i].field
                != "name"@ && es[i].field != "columns"@,
    ensures
        serial_idiom::traits(refusals::rows_rule(t, raw, es).0) == serial_idiom::traits(t),
    decreases es.len(),
{
    if es.len() > 0 {
        let front = es.drop_last();
        assert forall|i: int| 0 <= i < front.len() implies (#[trigger] front[i]).kind
            != "AlterTable"@ && front[i].field != "name"@ && front[i].field != "columns"@ by {
            assert(front[i] == es[i]);
        }
        lemma_rows_are_not_seen(t, raw, front);
        assert(es.last() == es[es.len() - 1]);
        lemma_row_is_not_seen(refusals::rows_rule(t, raw, front).0, raw, es.last());
    }
}

/// Names of fields that the rules set beside others.
proof fn lemma_more_names_are_apart()
    ensures
        "CreateTable"@ != "CreateIndex"@,
        "CreateSequence"@ != "CreateIndex"@,
        "AlterTable"@ != "CreateIndex"@,
        "CreateTable"@ != "StartTransaction"@,
        "CreateSequence"@ != "StartTransaction"@,
        "AlterTable"@ != "StartTransaction"@,
        "operations"@ != "name"@,
        "sequence_options"@ != "name"@,
        "AlterColumn"@ != "AddConstraint"@,
        "AlterColumn"@ != "AddColumn"@,
{
    reveal_strlit("CreateTable");
    reveal_strlit("CreateSequence");
    reveal_strlit("AlterTable");
    reveal_strlit("CreateIndex");
    reveal_strlit("StartTransaction");
    reveal_strlit("operations");
    reveal_strlit("sequence_options");
    reveal_strlit("name");
    reveal_strlit("AlterColumn");
    reveal_strlit("AddConstraint");
    reveal_strlit("AddColumn");
    assert("CreateTable"@[6] != "CreateIndex"@[6]);
    assert("CreateTable"@.len() == 11);
    assert("CreateSequence"@.len() == 14);
    assert("AlterTable"@.len() == 10);
    assert("CreateIndex"@.len() == 11);
    assert("StartTransaction"@.len() == 16);
    assert("operations"@.len() == 10);
    assert("sequence_options"@.len() == 16);
    assert("name"@.len() == 4);
    assert("AlterColumn"@.len() == 11);
    assert("AddConstraint"@.len() == 13);
    assert("AddColumn"@.len() == 9);
}

proof fn lemma_serial_rule_is_not_seen(t: Tree, raw: Seq<char>)
    ensures
        serial_idiom::traits(errors::serial_rule(t, raw).0) == serial_idiom::traits(t),
{
    lemma_names_are_apart();
    let u = errors::serial_rule(t, raw).0;
    if let Some(ct) = syntax::member(t, "CreateTable"@) {
        if let Some(Tree::List(xs)) = syntax::member(ct, "columns"@) {
            let ys = errors::without_serials(xs);
            let cu = syntax::with_member(ct, "columns"@, Tree::List(ys));
            assert(syntax::member(u, "CreateTable"@) == Some(cu));
            assert(syntax::member(cu, "columns"@) == Some(Tree::List(ys)));
            assert forall|i: int| 0 <= i < xs.len() implies token::field(#[trigger] ys[i], "name"@)
                == token::field(xs[i], "name"@) by {}
            assert(serial_idiom::column_names(cu) =~= serial_idiom::column_names(ct));
            assert(token::field(cu, "name"@) == token::field(ct, "name"@));
            assert(syntax::member(u, "CreateSequence"@) == syntax::member(t, "CreateSequence"@));
            assert(syntax::member(u, "AlterTable"@) == syntax::member(t, "AlterTable"@));
            lemma_agreed_traits(u, t);
        }
    }
}

/// A statement whose operations keep what they do to columns shows what it showed.
proof fn lemma_operations_are_not_seen(t: Tree, alter: Tree, xs: Seq<Tree>, ys: Seq<Tree>)
    requires
        syntax::member(t, "AlterTable"@) == Some(alter),
        syntax::member(alter, "operations"@) == Some(Tree::List(xs)),
        xs.len() == ys.len(),
        forall|i: int|
            0 <= i < xs.len() ==> token::field(#[trigger] ys[i], "AlterColumn"@) == token::field(
                xs[i],
                "AlterColumn"@,
            ),
    ensures
        serial_idiom::traits(
            syntax::with_member(
                t,
                "AlterTable"@,
                syntax::with_member(alter, "operations"@, Tree::List(ys)),
            ),
        ) == serial_idiom::traits(t),
{
    lemma_names_are_apart();
    lemma_more_names_are_apart();
    let made = syntax::with_member(alter, "operations"@, Tree::List(ys));
    let u = syntax::with_member(t, "AlterTable"@, made);
    assert(syntax::member(u, "AlterTable"@) == Some(made));
    assert(syntax::member(made, "operations"@) == Some(Tree::List(ys)));
    assert(token::field(made, "name"@) == token::field(alter, "name"@));
    assert(syntax::member(u, "CreateTable"@) == syntax::member(t, "CreateTable"@));
    assert(syntax::member(u, "CreateSequence"@) == syntax::member(t, "CreateSequence"@));
    if xs.len() == 1 {
        assert(token::field(ys[0], "AlterColumn"@) == token::field(xs[0], "AlterColumn"@));
    }
    assert(serial_idiom::set_default(u) == serial_idiom::set_default(t));
    lemma_agreed_traits(u, t);
}

proof fn lemma_operation_rules_are_not_seen(t: Tree, raw: Seq<char>)
    ensures
        serial_idiom::traits(errors::key_rule(t, raw).0) == serial_idiom::traits(t),
        serial_idiom::traits(errors::added_rule(t, raw).0) == serial_idiom::traits(t),
{
    lemma_more_names_are_apart();
    if let Some(alter) = syntax::member(t, "AlterTable"@) {
        if let Some(Tree::List(xs)) = syntax::member(alter, "operations"@) {
            let ys = errors::with_not_valid(xs);
            assert forall|i: int| 0 <= i < xs.len() implies token::field(
                #[trigger] ys[i],
                "AlterColumn"@,
            ) == token::field(xs[i], "AlterColumn"@) by {}
            lemma_operations_are_not_seen(t, alter, xs, ys);
            let zs = errors::without_added_serials(xs);
            assert forall|i: int| 0 <= i < xs.len() implies token::field(
                #[trigger] zs[i],
                "AlterColumn"@,
            ) == token::field(xs[i], "AlterColumn"@) by {}
            lemma_operations_are_not_seen(t, alter, xs, zs);
        }
    }
}

proof fn lemma_last_rules_are_not_seen(t: Tree, raw: Seq<char>)
    ensures
        serial_idiom::traits(errors::index_rule(t, raw).0) == serial_idiom::traits(t),
        serial_idiom::traits(options::cache_rule(t, raw).0) == serial_idiom::traits(t),
        serial_idiom::traits(options::level_rule(t, raw).0) == serial_idiom::traits(t),
{
    lemma_names_are_apart();
    lemma_more_names_are_apart();
    let e = errors::index_rule(t, raw).0;
    assert(syntax::member(e, "CreateTable"@) == syntax::member(t, "CreateTable"@));
    assert(syntax::member(e, "CreateSequence"@) == syntax::member(t, "CreateSequence"@));
    assert(syntax::member(e, "AlterTable"@) == syntax::member(t, "AlterTable"@));
    lemma_agreed_traits(e, t);
    let f = options::cache_rule(t, raw).0;
    assert(syntax::member(f, "CreateTable"@) == syntax::member(t, "CreateTable"@));
    assert(syntax::member(f, "AlterTable"@) == syntax::member(t, "AlterTable"@));
    assert(token::field(token::field(f, "CreateSequence"@), "name"@) == token::field(
        token::field(t, "CreateSequence"@),
        "name"@,
    ));
    lemma_agreed_traits(f, t);
    let g = options::level_rule(t, raw).0;
    assert(syntax::member(g, "CreateTable"@) == syntax::member(t, "CreateTable"@));
    assert(syntax::member(g, "CreateSequence"@) == syntax::member(t, "CreateSequence"@));
    assert(syntax::member(g, "AlterTable"@) == syntax::member(t, "AlterTable"@));
    lemma_agreed_traits(g, t);
}

/// The rules on one statement change nothing that wires up a serial column.
pub proof fn law_rules_wire_up_nothing(t: Tree, raw: Seq<char>)
    ensures
        serial_idiom::traits(errors::ruled(t, raw).0) == serial_idiom::traits(t),
{
    refusals::lemma_table_is_apart();
    lemma_rows_are_not_seen(t, raw, refusals::field_table());
    let a = refusals::field_rule(t, raw).0;
    lemma_serial_rule_is_not_seen(a, raw);
    let b = errors::serial_rule(a, raw).0;
    lemma_operation_rules_are_not_seen(b, raw);
    let c = errors::key_rule(b, raw).0;
    lemma_operation_rules_are_not_seen(c, raw);
    let d = errors::added_rule(c, raw).0;
    lemma_last_rules_are_not_seen(d, raw);
    let e = errors::index_rule(d, raw).0;
    lemma_last_rules_are_not_seen(e, raw);
    let f = options::cache_rule(e, raw).0;
    lemma_last_rules_are_not_seen(f, raw);
}

/// The fold of a constraint begins with a statement that the rules on one statement refuse.
pub proof fn law_folds_are_refused(t: Tree, kind: Kind)
    requires
        constraint_collapse::added_constraint(t, kind) is Some,
    ensures
        !errors::is_clean(t),
{
    reveal(errors::is_clean);
    let ops = errors::operations(t);
    let row = refusals::lemma_added_constraint_row(kind);
    let table = refusals::operation_table();
    assert(refusals::is_refused(ops[0], table[row]));
}

/// Where no statement of a script is refused, there is nothing to fold.
pub proof fn law_clean_script_has_no_folds(parts: Seq<(usize, Seq<char>)>, kind: Kind)
    requires
        forall|n: int|
            0 <= n < constraint_collapse::parsed_trees(parts).len() ==> errors::is_clean(
                #[trigger] constraint_collapse::parsed_trees(parts)[n],
            ),
    ensures
        constraint_collapse::fold_reports(parts, kind).len() == 0,
{
    let ts = constraint_collapse::parsed_trees(parts);
    let fs = constraint_collapse::script_folds(parts, kind);
    assert(constraint_collapse::fold_reports(parts, kind).len() == fs.len());
    if fs.len() > 0 {
        lemma_listed_fold(ts, kind, ts.len() as int, 0);
        law_folds_are_refused(ts[fs[0].alter], kind);
    }
}

/// A commit is clean, and wires up nothing.
pub proof fn law_commit_is_clean(value: Tree)
    ensures
        errors::is_clean(syntax::variant("Commit"@, value)),
        is_inert(serial_idiom::traits(syntax::variant("Commit"@, value))),
{
    reveal(errors::is_clean);
    reveal(errors::is_settled);
    let t = syntax::variant("Commit"@, value);
    refusals::lemma_commit_is_taken(value);
    assert(token::field(t, "AlterTable"@) == Tree::Null);
    assert(token::field(t, "CreateTable"@) == Tree::Null);
    assert(token::field(t, "CreateIndex"@) == Tree::Null);
    assert(token::field(t, "CreateSequence"@) == Tree::Null);
    assert(token::field(t, "StartTransaction"@) == Tree::Null);
    assert(errors::operations(t).len() == 0);
}

} // verus!
