//! What is fixed in full is clean: where everything that was reported on a script was fixed, nothing
//! is reported on what became of it, as long as the parser reads what was printed.

use vstd::prelude::*;

use crate::alike;
use crate::gap;
use crate::lint;
use crate::rules::constraint_collapse::Kind;
use crate::rules::{constraint_collapse, errors, likeness, name_match, serial_idiom, wiring};
use crate::split;
use crate::syntax::{self, Dialect, Tree};
use crate::text;
use crate::transactions;

verus! {

/// Whether what becomes of a part is read as what the rules made of it, but for where its pieces
/// stand, or, where the part does not parse, as what the part was.
pub open spec fn reads_back(part: (usize, Seq<char>)) -> bool {
    forall|k: int|
        0 <= k < lint::fixed_part(part).0.len() && text::trimmed(part.1).len() > 0 ==> {
            let sql = (#[trigger] lint::fixed_part(part).0[k]).1;
            match lint::bridged_statements(part.1) {
                Ok(ts) => lint::bridged_statements(sql) matches Ok(us) && alike::all_alike(
                    lint::ruled_all(ts, part.1).0,
                    us,
                ),
                Err(_) => lint::bridged_statements(sql) is Err && gap::supported_gap(sql)
                    == gap::supported_gap(part.1),
            }
        }
}

/// Whether every statement is clean.
pub open spec fn all_clean(ts: Seq<Tree>) -> bool {
    forall|i: int| 0 <= i < ts.len() ==> errors::is_clean(#[trigger] ts[i])
}

#[verifier::spinoff_prover]
proof fn lemma_clean_statements(ts: Seq<Tree>, raw: Seq<char>)
    requires
        all_clean(ts),
    ensures
        lint::ruled_all(ts, raw).1.len() == 0,
    decreases ts.len(),
{
    if ts.len() > 0 {
        let front = ts.drop_last();
        assert forall|i: int| 0 <= i < front.len() implies errors::is_clean(#[trigger] front[i]) by {
            assert(front[i] == ts[i]);
        }
        lemma_clean_statements(front, raw);
        assert(ts.last() == ts[ts.len() - 1]);
        errors::law_clean_is_what_is_not_reported(ts.last(), raw);
    }
}

#[verifier::spinoff_prover]
proof fn lemma_clean_readings(ts: Seq<Tree>, us: Seq<Tree>)
    requires
        all_clean(ts),
        alike::all_alike(ts, us),
    ensures
        all_clean(us),
{
    assert forall|i: int| 0 <= i < us.len() implies errors::is_clean(#[trigger] us[i]) by {
        assert(alike::alike(ts[i], us[i]));
        likeness::law_clean_is_what_is_said(ts[i], us[i]);
    }
}

/// A part whose statements are clean is not reported on.
#[verifier::spinoff_prover]
proof fn lemma_clean_part(part: (usize, Seq<char>))
    requires
        match lint::bridged_statements(part.1) {
            Ok(us) => all_clean(us),
            Err(_) => gap::supported_gap(part.1),
        },
    ensures
        lint::part_reports(part).len() == 0,
{
    if let Ok(us) = lint::bridged_statements(part.1) {
        lemma_clean_statements(us, part.1);
    }
}

/// Where all that is reported on a part was fixed, the rules fixed all that they found in it.
#[verifier::spinoff_prover]
proof fn lemma_fixed_part_reports(part: (usize, Seq<char>))
    requires
        text::trimmed(part.1).len() > 0,
        errors::all_fixed(lint::fixed_part(part).1),
    ensures
        match lint::bridged_statements(part.1) {
            Ok(ts) => errors::all_fixed(lint::ruled_all(ts, part.1).1),
            Err(_) => gap::supported_gap(part.1),
        },
{
    let made = lint::fixed_part(part);
    match lint::bridged_statements(part.1) {
        Ok(ts) => {
            let (after, ds) = lint::ruled_all(ts, part.1);
            assert forall|i: int| 0 <= i < ds.len() implies !((
            #[trigger] ds[i]).fix_result is Unfixable) by {
                if lint::outcome_of(after, ds) is Rewritten {
                    let reports = lint::rewritten(part.1, after, ds).1;
                    assert(made.1[made.1.len() - 1] == lint::placed(
                        part,
                        reports[reports.len() - 1],
                    ));
                    assert(reports == ds);
                }
                assert(made.1[i] == lint::placed(part, ds[i]));
            }
        },
        Err(_) => {
            if !gap::supported_gap(part.1) {
                assert(made.1[0].fix_result is Unfixable);
            }
        },
    }
}

/// A part that is fixed in full is clean: where all that is reported on it was fixed, and the
/// parser reads what became of it as what the rules made of it, nothing is reported on that.
#[verifier::spinoff_prover]
pub proof fn law_fully_fixed_part_is_clean(part: (usize, Seq<char>), k: int)
    requires
        errors::all_fixed(lint::fixed_part(part).1),
        reads_back(part),
        0 <= k < lint::fixed_part(part).0.len(),
    ensures
        lint::part_reports(lint::fixed_part(part).0[k]).len() == 0,
        text::trimmed(part.1).len() > 0 ==> match lint::bridged_statements(
            lint::fixed_part(part).0[k].1,
        ) {
            Ok(us) => all_clean(us),
            Err(_) => gap::supported_gap(lint::fixed_part(part).0[k].1),
        },
{
    let made = lint::fixed_part(part).0[k];
    if text::trimmed(part.1).len() > 0 {
        lemma_fixed_part_reports(part);
        if let Ok(ts) = lint::bridged_statements(part.1) {
            let us = lint::bridged_statements(made.1)->Ok_0;
            lint::law_fully_fixed_statements_are_clean(ts, part.1, made.1);
            lemma_clean_readings(lint::ruled_all(ts, part.1).0, us);
        }
        lemma_clean_part(made);
    }
}

/// What becomes of the parts of a script comes from one of them.
#[verifier::spinoff_prover]
proof fn lemma_fixed_parts_stem(parts: Seq<(usize, Seq<char>)>, j: int) -> (r: (int, int))
    requires
        0 <= j < lint::fixed_parts(parts).0.len(),
    ensures
        0 <= r.0 < parts.len(),
        0 <= r.1 < lint::fixed_part(parts[r.0]).0.len(),
        lint::fixed_parts(parts).0[j] == lint::fixed_part(parts[r.0]).0[r.1],
    decreases parts.len(),
{
    let front = parts.drop_last();
    let before = lint::fixed_parts(front).0;
    if j < before.len() {
        let r = lemma_fixed_parts_stem(front, j);
        assert(front[r.0] == parts[r.0]);
        assert(lint::fixed_parts(parts).0[j] == before[j]);
        r
    } else {
        assert(parts.last() == parts[parts.len() - 1]);
        (parts.len() - 1, j - before.len())
    }
}

/// Where all the reports on a script were of fixes, so were those on each part.
#[verifier::spinoff_prover]
proof fn lemma_each_part_is_fixed(parts: Seq<(usize, Seq<char>)>, i: int)
    requires
        errors::all_fixed(lint::fixed_parts(parts).1),
        0 <= i < parts.len(),
    ensures
        errors::all_fixed(lint::fixed_part(parts[i]).1),
    decreases parts.len(),
{
    let front = parts.drop_last();
    let before = lint::fixed_parts(front).1;
    let last = lint::fixed_part(parts.last()).1;
    let all = lint::fixed_parts(parts).1;
    assert forall|n: int| 0 <= n < before.len() implies !((
    #[trigger] before[n]).fix_result is Unfixable) by {
        assert(all[n] == before[n]);
    }
    assert forall|n: int| 0 <= n < last.len() implies !((
    #[trigger] last[n]).fix_result is Unfixable) by {
        assert(all[before.len() + n] == last[n]);
    }
    if i < front.len() {
        lemma_each_part_is_fixed(front, i);
        assert(front[i] == parts[i]);
    }
}

#[verifier::spinoff_prover]
proof fn lemma_no_part_reports(parts: Seq<(usize, Seq<char>)>)
    requires
        forall|i: int| 0 <= i < parts.len() ==> lint::part_reports(#[trigger] parts[i]).len() == 0,
    ensures
        lint::parts_reports(parts).len() == 0,
    decreases parts.len(),
{
    if parts.len() > 0 {
        let front = parts.drop_last();
        assert forall|i: int| 0 <= i < front.len() implies lint::part_reports(
            #[trigger] front[i],
        ).len() == 0 by {
            assert(front[i] == parts[i]);
        }
        lemma_no_part_reports(front);
        assert(parts.last() == parts[parts.len() - 1]);
    }
}

/// A script whose statements are fixed in full is clean: where all that the rules on single
/// statements report was fixed, and the parser reads what became of each part as what the rules
/// made of it, they report nothing on what became of the script.
#[verifier::spinoff_prover]
pub proof fn law_fully_fixed_parts_are_clean(parts: Seq<(usize, Seq<char>)>)
    requires
        errors::all_fixed(lint::fixed_parts(parts).1),
        forall|i: int| 0 <= i < parts.len() ==> reads_back(#[trigger] parts[i]),
    ensures
        lint::parts_reports(lint::fixed_parts(parts).0).len() == 0,
{
    let made = lint::fixed_parts(parts).0;
    assert forall|j: int| 0 <= j < made.len() implies lint::part_reports(
        #[trigger] made[j],
    ).len() == 0 by {
        let r = lemma_fixed_parts_stem(parts, j);
        lemma_each_part_is_fixed(parts, r.0);
        assert(reads_back(parts[r.0]));
        law_fully_fixed_part_is_clean(parts[r.0], r.1);
    }
    lemma_no_part_reports(made);
}

/// Whether the white space around a text makes no difference to what the parser reads.
pub open spec fn reads_evenly(sql: Seq<char>) -> bool {
    syntax::statements(Dialect::Postgres, text::trimmed(sql)) matches Ok(vs)
        ==> lint::bridged_statements(sql) matches Ok(us) && alike::all_alike(us, vs)
}

/// Whether a part that is not blank and what becomes of it are read in the same way: each with or
/// without the white space around it, and what does not parse without a bridge still does not.
pub open spec fn stays_readable(part: (usize, Seq<char>)) -> bool {
    &&& text::trimmed(part.1).len() > 0
    &&& reads_evenly(part.1)
    &&& forall|k: int|
        0 <= k < lint::fixed_part(part).0.len() ==> {
            let sql = (#[trigger] lint::fixed_part(part).0[k]).1;
            &&& reads_evenly(sql)
            &&& syntax::statements(Dialect::Postgres, text::trimmed(sql)) is Ok
                ==> syntax::statements(Dialect::Postgres, text::trimmed(part.1)) is Ok
        }
}

#[verifier::spinoff_prover]
proof fn lemma_same_traits(ts: Seq<Tree>, us: Seq<Tree>)
    requires
        alike::all_alike(ts, us),
    ensures
        us.map_values(|t: Tree| serial_idiom::traits(t)) == ts.map_values(
            |t: Tree| serial_idiom::traits(t),
        ),
{
    assert forall|i: int| 0 <= i < ts.len() implies serial_idiom::traits(#[trigger] ts[i])
        == serial_idiom::traits(us[i]) by {
        likeness::lemma_traits(ts[i], us[i]);
    }
    assert(us.map_values(|t: Tree| serial_idiom::traits(t)) =~= ts.map_values(
        |t: Tree| serial_idiom::traits(t),
    ));
}

#[verifier::spinoff_prover]
proof fn lemma_ruled_traits(ts: Seq<Tree>, raw: Seq<char>)
    ensures
        lint::ruled_all(ts, raw).0.map_values(|t: Tree| serial_idiom::traits(t)) == ts.map_values(
            |t: Tree| serial_idiom::traits(t),
        ),
    decreases ts.len(),
{
    let after = lint::ruled_all(ts, raw).0;
    if ts.len() > 0 {
        let front = ts.drop_last();
        let before = lint::ruled_all(front, raw).0;
        let fs = before.map_values(|t: Tree| serial_idiom::traits(t));
        let gs = front.map_values(|t: Tree| serial_idiom::traits(t));
        lemma_ruled_traits(front, raw);
        wiring::law_rules_wire_up_nothing(ts.last(), raw);
        assert(fs.len() == gs.len());
        assert forall|i: int| 0 <= i < ts.len() implies serial_idiom::traits(#[trigger] after[i])
            == serial_idiom::traits(ts[i]) by {
            if i < before.len() {
                assert(fs[i] == gs[i]);
                assert(after[i] == before[i] && front[i] == ts[i]);
            }
        }
    }
    assert(after.map_values(|t: Tree| serial_idiom::traits(t)) =~= ts.map_values(
        |t: Tree| serial_idiom::traits(t),
    ));
}

/// What becomes of a part shows what the part showed, or does not parse.
#[verifier::spinoff_prover]
proof fn lemma_fixed_part_sights(part: (usize, Seq<char>), k: int)
    requires
        reads_back(part),
        stays_readable(part),
        0 <= k < lint::fixed_part(part).0.len(),
    ensures
        wiring::seen_in(lint::fixed_part(part).0[k]) is Some ==> wiring::seen_in(
            lint::fixed_part(part).0[k],
        ) == wiring::seen_in(part),
{
    let sql = lint::fixed_part(part).0[k].1;
    if let Ok(vs) = syntax::statements(Dialect::Postgres, text::trimmed(sql)) {
        let us = lint::bridged_statements(sql)->Ok_0;
        let ws = syntax::statements(Dialect::Postgres, text::trimmed(part.1))->Ok_0;
        let ts = lint::bridged_statements(part.1)->Ok_0;
        assert(reads_evenly(part.1) && reads_evenly(sql));
        lemma_same_traits(us, vs);
        lemma_same_traits(ts, ws);
        lemma_same_traits(lint::ruled_all(ts, part.1).0, us);
        lemma_ruled_traits(ts, part.1);
    }
}

/// Whether the parser reads `COMMIT` as a commit and nothing else.
pub open spec fn reads_commit() -> bool {
    &&& transactions::holds_one("COMMIT"@)
    &&& transactions::role_of("COMMIT"@) == transactions::Role::End(true)
    &&& syntax::statements(Dialect::Postgres, "COMMIT"@) matches Ok(ts) && exists|value: Tree|
        ts == seq![#[trigger] syntax::variant("Commit"@, value)]
}

/// Whether the parser reads all that the fix of a script prints: the tables that idioms are folded
/// into, and what becomes of each part. The parts are to hold single statements.
pub open spec fn script_reads_back(parts: Seq<(usize, Seq<char>)>) -> bool {
    let serial = serial_idiom::serials_folded(parts).0;
    let unique = constraint_collapse::all_folded(serial, Kind::Unique).0;
    let primary = constraint_collapse::all_folded(unique, Kind::PrimaryKey).0;
    let single = lint::fixed_parts(primary).0;
    &&& wiring::serials_read_back(parts)
    &&& wiring::folds_read_back(serial, Kind::Unique)
    &&& wiring::folds_read_back(unique, Kind::PrimaryKey)
    &&& forall|i: int| 0 <= i < primary.len() ==> reads_back(#[trigger] primary[i])
    &&& forall|i: int| 0 <= i < primary.len() ==> stays_readable(#[trigger] primary[i])
    &&& single.len() < usize::MAX
    &&& transactions::all_hold_at_most_one(single)
    &&& reads_commit()
}

/// Whether a part is read as clean statements only, or is one that DSQL supports although the
/// parser does not read it.
pub open spec fn is_clean_part(part: (usize, Seq<char>)) -> bool {
    &&& match lint::bridged_statements(part.1) {
        Ok(us) => all_clean(us),
        Err(_) => gap::supported_gap(part.1),
    }
    &&& syntax::statements(Dialect::Postgres, text::trimmed(part.1)) matches Ok(vs) ==> all_clean(
        vs,
    )
}

#[verifier::spinoff_prover]
proof fn lemma_commit(part: (usize, Seq<char>))
    requires
        reads_commit(),
        part.1 == "COMMIT"@,
    ensures
        is_clean_part(part),
        forall|k: int, f: serial_idiom::Traits| #[trigger]
            wiring::shows_at(part, k, f) ==> wiring::is_inert(f),
{
    reveal_strlit("COMMIT");
    assert("COMMIT"@.len() == 6 && "COMMIT"@[0] == 'C' && "COMMIT"@.last() == 'T');
    assert(text::trimmed("COMMIT"@) == "COMMIT"@);
    let ts = syntax::statements(Dialect::Postgres, "COMMIT"@)->Ok_0;
    let value = choose|value: Tree| ts == seq![#[trigger] syntax::variant("Commit"@, value)];
    wiring::law_commit_is_clean(value);
    assert(ts[0] == syntax::variant("Commit"@, value));
}

#[verifier::spinoff_prover]
proof fn lemma_fixed_parts_are_clean(parts: Seq<(usize, Seq<char>)>, j: int)
    requires
        errors::all_fixed(lint::fixed_parts(parts).1),
        forall|i: int| 0 <= i < parts.len() ==> reads_back(#[trigger] parts[i]),
        forall|i: int| 0 <= i < parts.len() ==> stays_readable(#[trigger] parts[i]),
        0 <= j < lint::fixed_parts(parts).0.len(),
    ensures
        is_clean_part(lint::fixed_parts(parts).0[j]),
        forall|k: int, f: serial_idiom::Traits| #[trigger]
            wiring::shows_at(lint::fixed_parts(parts).0[j], k, f) ==> wiring::shows(parts, f),
{
    let (i, n) = lemma_fixed_parts_stem(parts, j);
    let part = parts[i];
    let made = lint::fixed_part(part).0[n];
    lemma_each_part_is_fixed(parts, i);
    assert(reads_back(part) && stays_readable(part));
    law_fully_fixed_part_is_clean(part, n);
    assert(reads_evenly(made.1));
    if let Ok(vs) = syntax::statements(Dialect::Postgres, text::trimmed(made.1)) {
        lemma_clean_readings(lint::bridged_statements(made.1)->Ok_0, vs);
    }
    lemma_fixed_part_sights(part, n);
    assert forall|k: int, f: serial_idiom::Traits| #[trigger]
        wiring::shows_at(made, k, f) implies wiring::shows(parts, f) by {
        assert(wiring::shows_at(parts[i], k, f));
    }
}

/// A script of clean parts has no statement that the rules find something in.
#[verifier::spinoff_prover]
proof fn lemma_clean_parts(parts: Seq<(usize, Seq<char>)>)
    requires
        forall|j: int| 0 <= j < parts.len() ==> is_clean_part(#[trigger] parts[j]),
    ensures
        lint::parts_reports(parts).len() == 0,
        constraint_collapse::fold_reports(parts, Kind::Unique).len() == 0,
        constraint_collapse::fold_reports(parts, Kind::PrimaryKey).len() == 0,
{
    let ts = constraint_collapse::parsed_trees(parts);
    assert forall|j: int| 0 <= j < parts.len() implies lint::part_reports(
        #[trigger] parts[j],
    ).len() == 0 by {
        assert(is_clean_part(parts[j]));
        lemma_clean_part(parts[j]);
    }
    lemma_no_part_reports(parts);
    assert forall|n: int| 0 <= n < ts.len() implies errors::is_clean(#[trigger] ts[n]) by {
        wiring::lemma_parsed(parts, n);
        let (t, i) = name_match::parsed_parts(parts)[n];
        assert(is_clean_part(parts[i]));
        let vs = syntax::statements(Dialect::Postgres, text::trimmed(parts[i].1))->Ok_0;
        let k = choose|k: int| 0 <= k < vs.len() && vs[k] == t;
        assert(errors::is_clean(vs[k]));
    }
    wiring::law_clean_script_has_no_folds(parts, Kind::Unique);
    wiring::law_clean_script_has_no_folds(parts, Kind::PrimaryKey);
}

/// What becomes of a script, and what the stages of the fix report of it, where all was fixed.
#[verifier::spinoff_prover]
proof fn lemma_stages(parts: Seq<(usize, Seq<char>)>)
    requires
        errors::all_fixed(lint::fixed_script(parts).1),
    ensures
        ({
            let serial = serial_idiom::serials_folded(parts);
            let unique = constraint_collapse::all_folded(serial.0, Kind::Unique);
            let primary = constraint_collapse::all_folded(unique.0, Kind::PrimaryKey);
            let single = lint::fixed_parts(primary.0);
            let txns = transactions::split_txns(single.0, 0);
            &&& lint::fixed_script(parts).0 == txns.0
            &&& errors::all_fixed(single.1)
            &&& transactions::none_unfixable(txns.1)
        }),
{
    let serial = serial_idiom::serials_folded(parts);
    let unique = constraint_collapse::all_folded(serial.0, Kind::Unique);
    let primary = constraint_collapse::all_folded(unique.0, Kind::PrimaryKey);
    let single = lint::fixed_parts(primary.0);
    let txns = transactions::split_txns(single.0, 0);
    let all = lint::fixed_script(parts).1;
    let n = serial.1.len() + unique.1.len() + primary.1.len();
    assert forall|i: int| 0 <= i < single.1.len() implies !((
    #[trigger] single.1[i]).fix_result is Unfixable) by {
        assert(all[n + i] == single.1[i]);
    }
    assert forall|i: int| 0 <= i < txns.1.len() implies !((
    #[trigger] txns.1[i]).fix_result is Unfixable) by {
        assert(all[n + single.1.len() + i] == txns.1[i]);
    }
}

/// What is fixed in full is clean: where everything that fixing a script reports was fixed, and
/// the parser reads what was printed, nothing is reported on the script that comes out: no idiom, no
/// statement, no transaction.
#[verifier::spinoff_prover]
pub proof fn law_fully_fixed_script_is_clean(parts: Seq<(usize, Seq<char>)>)
    requires
        errors::all_fixed(lint::fixed_script(parts).1),
        script_reads_back(parts),
    ensures
        lint::script_reports(lint::fixed_script(parts).0).len() == 0,
        forall|j: int|
            0 <= j < lint::fixed_script(parts).0.len() ==> is_clean_part(
                #[trigger] lint::fixed_script(parts).0[j],
            ),
{
    let serial = serial_idiom::serials_folded(parts).0;
    let unique = constraint_collapse::all_folded(serial, Kind::Unique).0;
    let primary = constraint_collapse::all_folded(unique, Kind::PrimaryKey).0;
    let single = lint::fixed_parts(primary).0;
    let out = lint::fixed_script(parts).0;
    lemma_stages(parts);
    transactions::law_split_script_stems_from_its_parts(single, 0);
    transactions::law_fixed_script_is_accepted(single);
    assert forall|j: int| 0 <= j < out.len() implies is_clean_part(#[trigger] out[j]) && (forall|
        k: int,
        f: serial_idiom::Traits,
    | #[trigger]
        wiring::shows_at(out[j], k, f) ==> wiring::is_inert(f) || wiring::shows(primary, f)) by {
        assert(transactions::stems_from(out[j], single));
        if single.contains(out[j]) {
            let n = choose|n: int| 0 <= n < single.len() && single[n] == out[j];
            lemma_fixed_parts_are_clean(primary, n);
        } else {
            lemma_commit(out[j]);
        }
    }
    lemma_clean_parts(out);
    assert(wiring::draws_on(out, primary)) by {
        assert forall|f: serial_idiom::Traits| #[trigger] wiring::shows(out, f) implies
            wiring::is_inert(f) || wiring::shows(primary, f) by {
            let (j, k) = choose|j: int, k: int|
                0 <= j < out.len() && #[trigger] wiring::shows_at(out[j], k, f);
            assert(is_clean_part(out[j]));
        }
    }
    wiring::law_folded_serials_are_gone(parts);
    wiring::law_folded_constraints_show_nothing_new(serial, Kind::Unique);
    wiring::law_folded_constraints_show_nothing_new(unique, Kind::PrimaryKey);
    if wiring::wires_up(out) {
        wiring::lemma_nothing_new(out, primary);
        wiring::lemma_nothing_new(primary, unique);
        wiring::lemma_nothing_new(unique, serial);
    }
    wiring::law_serials_are_what_is_wired_up(out);
}

/// Whether two readings say the same, statement by statement.
pub open spec fn same_reading(
    a: Result<Seq<Tree>, Seq<char>>,
    b: Result<Seq<Tree>, Seq<char>>,
) -> bool {
    match (a, b) {
        (Ok(ts), Ok(us)) => alike::all_alike(ts, us),
        (Err(_), Err(_)) => true,
        _ => false,
    }
}

/// Whether two texts are read as the same statements.
pub open spec fn reads_same(a: Seq<char>, b: Seq<char>) -> bool {
    &&& same_reading(lint::bridged_statements(a), lint::bridged_statements(b))
    &&& same_reading(
        syntax::statements(Dialect::Postgres, text::trimmed(a)),
        syntax::statements(Dialect::Postgres, text::trimmed(b)),
    )
    &&& gap::supported_alter_constraint(a) == gap::supported_alter_constraint(b)
    &&& gap::supported_set_constraints(a) == gap::supported_set_constraints(b)
}

/// Whether two scripts are read as the same statements, part by part.
pub open spec fn all_read_same(ps: Seq<(usize, Seq<char>)>, qs: Seq<(usize, Seq<char>)>) -> bool {
    ps.len() == qs.len() && forall|i: int|
        0 <= i < ps.len() ==> reads_same((#[trigger] ps[i]).1, qs[i].1)
}

/// Whether two transactions have come to the same.
spec fn same_txn(a: transactions::Txn, b: transactions::Txn) -> bool {
    a.open == b.open && a.ddl == b.ddl && a.dml == b.dml
}

#[verifier::spinoff_prover]
proof fn lemma_statements_followed(
    a: transactions::Txn,
    ts: Seq<Tree>,
    p: (usize, Seq<char>),
    b: transactions::Txn,
    us: Seq<Tree>,
    q: (usize, Seq<char>),
)
    requires
        same_txn(a, b),
        alike::all_alike(ts, us),
    ensures
        same_txn(
            transactions::statements_step(a, ts, p).0,
            transactions::statements_step(b, us, q).0,
        ),
        transactions::statements_step(a, ts, p).1.len() == transactions::statements_step(
            b,
            us,
            q,
        ).1.len(),
    decreases ts.len(),
{
    if ts.len() > 0 {
        let ft = ts.drop_last();
        let fu = us.drop_last();
        assert forall|i: int| 0 <= i < ft.len() implies alike::alike(#[trigger] ft[i], fu[i]) by {
            assert(alike::alike(ts[i], us[i]));
        }
        lemma_statements_followed(a, ft, p, b, fu, q);
        let t = ts[ts.len() - 1];
        assert(alike::alike(t, us[us.len() - 1]));
        likeness::lemma_part_in_transaction(t, us[us.len() - 1]);
    }
}

#[verifier::spinoff_prover]
proof fn lemma_followed_same(ps: Seq<(usize, Seq<char>)>, qs: Seq<(usize, Seq<char>)>)
    requires
        all_read_same(ps, qs),
    ensures
        same_txn(transactions::followed(ps).0, transactions::followed(qs).0),
        transactions::followed(ps).1.len() == transactions::followed(qs).1.len(),
    decreases ps.len(),
{
    if ps.len() > 0 {
        let fp = ps.drop_last();
        let fq = qs.drop_last();
        assert forall|i: int| 0 <= i < fp.len() implies reads_same((#[trigger] fp[i]).1, fq[i].1) by {
            assert(reads_same(ps[i].1, qs[i].1));
        }
        lemma_followed_same(fp, fq);
        let p = ps[ps.len() - 1];
        let q = qs[qs.len() - 1];
        assert(reads_same(p.1, q.1));
        if let (Ok(ts), Ok(us)) = (
            syntax::statements(Dialect::Postgres, text::trimmed(p.1)),
            syntax::statements(Dialect::Postgres, text::trimmed(q.1)),
        ) {
            lemma_statements_followed(
                transactions::followed(fp).0,
                ts,
                p,
                transactions::followed(fq).0,
                us,
                q,
            );
        }
    }
}

/// A script that is read as the same statements as one of clean parts that nothing is reported on
/// is not reported on either.
#[verifier::spinoff_prover]
pub proof fn law_reports_are_of_what_is_read(
    ps: Seq<(usize, Seq<char>)>,
    qs: Seq<(usize, Seq<char>)>,
)
    requires
        all_read_same(ps, qs),
        forall|j: int| 0 <= j < ps.len() ==> is_clean_part(#[trigger] ps[j]),
        lint::script_reports(ps).len() == 0,
    ensures
        lint::script_reports(qs).len() == 0,
{
    assert forall|j: int| 0 <= j < qs.len() implies is_clean_part(#[trigger] qs[j]) && wiring::seen_in(
        qs[j],
    ) == wiring::seen_in(ps[j]) by {
        assert(is_clean_part(ps[j]));
        assert(reads_same(ps[j].1, qs[j].1));
        if let Ok(us) = lint::bridged_statements(qs[j].1) {
            lemma_clean_readings(lint::bridged_statements(ps[j].1)->Ok_0, us);
        }
        if let Ok(us) = syntax::statements(Dialect::Postgres, text::trimmed(qs[j].1)) {
            let ts = syntax::statements(Dialect::Postgres, text::trimmed(ps[j].1))->Ok_0;
            lemma_clean_readings(ts, us);
            lemma_same_traits(ts, us);
        }
    }
    lemma_clean_parts(qs);
    lemma_followed_same(ps, qs);
    assert(wiring::draws_on(qs, ps)) by {
        assert forall|f: serial_idiom::Traits| #[trigger] wiring::shows(qs, f) implies
            wiring::is_inert(f) || wiring::shows(ps, f) by {
            let (j, k) = choose|j: int, k: int|
                0 <= j < qs.len() && #[trigger] wiring::shows_at(qs[j], k, f);
            assert(wiring::seen_in(qs[j]) == wiring::seen_in(ps[j]));
            assert(wiring::shows_at(ps[j], k, f));
        }
    }
    wiring::law_serials_are_what_is_wired_up(ps);
    wiring::law_serials_are_what_is_wired_up(qs);
    if wiring::wires_up(qs) {
        wiring::lemma_nothing_new(qs, ps);
    }
}

/// What fixing fixed in full is lint-clean: where everything that fixing a text reports was fixed,
/// the parser reads what was printed, and the text that comes out is split into the parts that it
/// was put together from, linting that text reports nothing.
#[verifier::spinoff_prover]
pub proof fn law_fully_fixed_text_is_clean(sql: Seq<char>)
    requires
        errors::all_fixed(lint::fixed(sql).1),
        split::split(Dialect::Postgres, sql) matches Ok(parts) ==> {
            &&& script_reads_back(parts)
            &&& split::split(Dialect::Postgres, lint::fixed(sql).0) matches Ok(qs)
                && all_read_same(lint::fixed_script(parts).0, qs)
        },
    ensures
        lint::linted(lint::fixed(sql).0).len() == 0,
{
    match split::split(Dialect::Postgres, sql) {
        Ok(parts) => {
            let qs = split::split(Dialect::Postgres, lint::fixed(sql).0)->Ok_0;
            law_fully_fixed_script_is_clean(parts);
            law_reports_are_of_what_is_read(lint::fixed_script(parts).0, qs);
        },
        Err(_) => {
            assert(lint::fixed(sql).1[0].fix_result is Unfixable);
        },
    }
}

} // verus!
