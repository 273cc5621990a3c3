//! What the folds of constraints into their tables owe: they add, and take nothing away.

use vstd::prelude::*;

use crate::alike;
use crate::diagnostic::LintRule;
use crate::rules::constraint_collapse::Kind;
use crate::rules::{constraint_collapse, likeness, name_match, wiring};
use crate::syntax::{self, Dialect, Tree};
use crate::text;
use crate::token;

verus! {

/// The table constraints of a `CREATE TABLE`.
pub open spec fn constraints_of(t: Tree) -> Seq<Tree> {
    name_match::items_of(token::field(token::field(t, "CreateTable"@), "constraints"@))
}

/// Whether a statement creates a table.
pub open spec fn creates_table(t: Tree) -> bool {
    syntax::member(t, "CreateTable"@) is Some && token::field(t, "CreateTable"@) is Record
}

/// The name of the table that a statement creates.
pub open spec fn table_of(t: Tree) -> Option<name_match::NameView> {
    name_match::normalized(token::field(token::field(t, "CreateTable"@), "name"@))
}

proof fn lemma_names()
    ensures
        "CreateTable"@.len() == 11,
        "AlterTable"@.len() == 10,
        "constraints"@.len() == 11,
        "name"@.len() == 4,
        "name"@ != "span"@,
        !alike::is_place("CreateTable"@),
        !alike::is_place("AlterTable"@),
        !alike::is_place("constraints"@),
        !alike::is_place("name"@),
{
    reveal_strlit("CreateTable");
    reveal_strlit("AlterTable");
    reveal_strlit("constraints");
    reveal_strlit("name");
    reveal_strlit("span");
    assert("name"@[0] != "span"@[0]);
    assert("CreateTable"@[10] == 'e');
    assert("AlterTable"@[9] == 'e');
    assert("constraints"@[10] == 's');
    assert("name"@[0] == 'n');
    alike::lemma_no_place("CreateTable"@);
    alike::lemma_no_place("AlterTable"@);
    alike::lemma_no_place("constraints"@);
    alike::lemma_no_place("name"@);
}

/// A fold only adds: the table constraints before it are those behind it, in their order, with the
/// folded one behind them, and nothing else of the table changes.
pub proof fn law_a_fold_only_adds(t: Tree, constraint: Tree)
    requires
        creates_table(t),
    ensures
        ({
            let u = constraint_collapse::with_constraint(t, constraint);
            &&& constraints_of(u) == constraints_of(t).push(constraint)
            &&& creates_table(u)
            &&& table_of(u) == table_of(t)
            &&& forall|k: Seq<char>| k != "constraints"@ ==> #[trigger] syntax::member(
                token::field(u, "CreateTable"@),
                k,
            ) == syntax::member(token::field(t, "CreateTable"@), k)
            &&& forall|k: Seq<char>| k != "CreateTable"@ ==> #[trigger] syntax::member(u, k)
                == syntax::member(t, k)
        }),
{
    lemma_names();
}

/// A fold changes one statement, the first that creates a table of the name; where there is none it
/// does nothing.
pub proof fn law_a_fold_changes_one_table(
    ts: Seq<Tree>,
    fold: constraint_collapse::Fold,
    at: int,
) -> (i: int)
    requires
        0 <= at <= ts.len(),
    ensures
        match constraint_collapse::folded_into(ts, fold, at) {
            Some(us) => {
                &&& us.len() == ts.len()
                &&& at <= i < ts.len()
                &&& creates_table(ts[i])
                &&& table_of(ts[i]) matches Some(n) && name_match::matching(n, fold.table)
                &&& constraints_of(us[i]) == constraints_of(ts[i]).push(fold.constraint)
                &&& us[i] == constraint_collapse::with_constraint(ts[i], fold.constraint)
                &&& forall|j: int| 0 <= j < ts.len() && j != i ==> #[trigger] us[j] == ts[j]
                &&& forall|j: int|
                    at <= j < i ==> !(table_of(#[trigger] ts[j]) matches Some(n)
                        && name_match::matching(n, fold.table))
            },
            None => forall|j: int|
                at <= j < ts.len() ==> !(table_of(#[trigger] ts[j]) matches Some(n)
                    && name_match::matching(n, fold.table)),
        },
    decreases ts.len() - at,
{
    if at < ts.len() {
        lemma_table_of(ts[at]);
        match constraint_collapse::created_table(ts[at]) {
            Some(n) => {
                if name_match::matching(n, fold.table) {
                    law_a_fold_only_adds(ts[at], fold.constraint);
                    at
                } else {
                    law_a_fold_changes_one_table(ts, fold, at + 1)
                }
            },
            None => law_a_fold_changes_one_table(ts, fold, at + 1),
        }
    } else {
        0
    }
}

/// A statement has the name of a table exactly where it creates one that has a name.
proof fn lemma_table_of(t: Tree)
    ensures
        constraint_collapse::created_table(t) == table_of(t),
        table_of(t) is Some ==> creates_table(t),
{
    assert(name_match::items_of(Tree::Null) =~= seq![]);
    assert(name_match::folded_parts(seq![]) =~= seq![]);
    assert(name_match::normalized(Tree::Null) is None);
    assert(token::field(Tree::Null, "name"@) == Tree::Null);
}

/// A tree that says the same as a second, which says the same as a third, says the same as the
/// third.
pub proof fn law_alike_is_transitive(a: Tree, b: Tree, c: Tree)
    requires
        alike::alike(a, b),
        alike::alike(b, c),
    ensures
        alike::alike(a, c),
    decreases a,
{
    match (a, b, c) {
        (Tree::List(xs), Tree::List(ys), Tree::List(zs)) => {
            assert forall|i: int| 0 <= i < xs.len() implies alike::alike(#[trigger] xs[i], zs[i]) by {
                assert(alike::alike(xs[i], ys[i]));
                assert(alike::alike(ys[i], zs[i]));
                law_alike_is_transitive(xs[i], ys[i], zs[i]);
            }
        },
        (Tree::Record(f), Tree::Record(g), Tree::Record(h)) => {
            assert forall|k: Seq<char>| !alike::is_place(k) implies f.dom().contains(k)
                == h.dom().contains(k) && (#[trigger] f.dom().contains(k) ==> alike::alike(
                f[k],
                h[k],
            )) by {
                assert(f.dom().contains(k) == g.dom().contains(k));
                assert(g.dom().contains(k) == h.dom().contains(k));
                if f.dom().contains(k) {
                    law_alike_is_transitive(f[k], g[k], h[k]);
                }
            }
            assert forall|k: Seq<char>| !alike::is_place(k) implies f.dom().contains(k)
                == #[trigger] h.dom().contains(k) && (f.dom().contains(k) ==> alike::alike(
                f[k],
                h[k],
            )) by {
                assert(f.dom().contains(k) == g.dom().contains(k));
            }
        },
        _ => {},
    }
}

/// Tables that say the same say the same with one constraint more.
proof fn lemma_both_with_constraint(a: Tree, b: Tree, c: Tree)
    requires
        alike::alike(a, b),
        creates_table(b),
    ensures
        creates_table(a),
        alike::alike(
            constraint_collapse::with_constraint(a, c),
            constraint_collapse::with_constraint(b, c),
        ),
{
    lemma_names();
    alike::lemma_member(a, b, "CreateTable"@);
    let x = token::field(a, "CreateTable"@);
    let y = token::field(b, "CreateTable"@);
    alike::lemma_member(x, y, "constraints"@);
    alike::lemma_items(token::field(x, "constraints"@), token::field(y, "constraints"@));
    alike::law_alike_is_reflexive(c);
    let xs = constraints_of(a).push(c);
    let ys = constraints_of(b).push(c);
    assert forall|i: int| 0 <= i < xs.len() implies alike::alike(#[trigger] xs[i], ys[i]) by {
        if i < constraints_of(a).len() {
            assert(alike::alike(constraints_of(a)[i], constraints_of(b)[i]));
        }
    }
    assert(alike::alike(Tree::List(xs), Tree::List(ys)));
    let v = syntax::with_member(x, "constraints"@, Tree::List(xs));
    let w = syntax::with_member(y, "constraints"@, Tree::List(ys));
    lemma_both_with_member(x, y, "constraints"@, Tree::List(xs), Tree::List(ys));
    lemma_both_with_member(a, b, "CreateTable"@, v, w);
}

proof fn lemma_both_with_member(a: Tree, b: Tree, key: Seq<char>, v: Tree, w: Tree)
    requires
        alike::alike(a, b),
        alike::alike(v, w),
    ensures
        alike::alike(syntax::with_member(a, key, v), syntax::with_member(b, key, w)),
{
    if let (Tree::Record(f), Tree::Record(g)) = (a, b) {
        let p = f.insert(key, v);
        let q = g.insert(key, w);
        assert forall|k: Seq<char>|
            #![trigger p.dom().contains(k)]
            #![trigger q.dom().contains(k)]
            !alike::is_place(k) implies p.dom().contains(k) == q.dom().contains(k) && (
        p.dom().contains(k) ==> alike::alike(p[k], q[k])) by {
            assert(f.dom().contains(k) == g.dom().contains(k));
        }
    }
}

/// A table with some constraints more, behind its own.
pub open spec fn with_more(t: Tree, cs: Seq<Tree>) -> Tree {
    if cs.len() == 0 {
        t
    } else {
        syntax::with_member(
            t,
            "CreateTable"@,
            syntax::with_member(
                token::field(t, "CreateTable"@),
                "constraints"@,
                Tree::List(constraints_of(t) + cs),
            ),
        )
    }
}

/// Whether a statement says the same as another, but for constraints behind its own.
pub open spec fn grows(t: Tree, u: Tree) -> bool {
    exists|cs: Seq<Tree>| alike::alike(#[trigger] with_more(t, cs), u)
}

/// Whether a part has become another by constraints alone: it stands on the same line and reads as
/// the same statements, some of them with more constraints.
pub open spec fn grows_part(p: (usize, Seq<char>), q: (usize, Seq<char>)) -> bool {
    &&& p.0 == q.0
    &&& match (
        syntax::statements(Dialect::Postgres, text::trimmed(p.1)),
        syntax::statements(Dialect::Postgres, text::trimmed(q.1)),
    ) {
        (Ok(ts), Ok(us)) => ts.len() == us.len() && forall|k: int|
            0 <= k < ts.len() ==> grows(#[trigger] ts[k], us[k]),
        (Err(_), Err(_)) => p == q,
        _ => false,
    }
}

/// Whether the table constraints of a statement are among those of another, in the same places.
pub open spec fn keeps_constraints(t: Tree, u: Tree) -> bool {
    constraints_of(t).len() <= constraints_of(u).len() && forall|m: int|
        0 <= m < constraints_of(t).len() ==> alike::alike(
            #[trigger] constraints_of(t)[m],
            constraints_of(u)[m],
        )
}

/// A statement that grew has every table constraint that it had, and the name that it had.
pub proof fn law_grown_tables_keep_their_constraints(t: Tree, u: Tree)
    requires
        grows(t, u),
    ensures
        keeps_constraints(t, u),
        table_of(t) == table_of(u),
{
    lemma_names();
    let cs = choose|cs: Seq<Tree>| alike::alike(#[trigger] with_more(t, cs), u);
    let v = with_more(t, cs);
    alike::lemma_member(v, u, "CreateTable"@);
    let x = token::field(v, "CreateTable"@);
    let y = token::field(u, "CreateTable"@);
    alike::lemma_member(x, y, "constraints"@);
    alike::lemma_items(token::field(x, "constraints"@), token::field(y, "constraints"@));
    likeness::lemma_traits(v, u);
    lemma_table_of(v);
    lemma_table_of(u);
    assert(table_of(v) == table_of(t)) by {
        if cs.len() > 0 && token::field(t, "CreateTable"@) is Record && t is Record {
            assert(token::field(x, "name"@) == token::field(
                token::field(t, "CreateTable"@),
                "name"@,
            ));
        } else if t is Record {
            assert(token::field(x, "name"@) == token::field(
                token::field(t, "CreateTable"@),
                "name"@,
            ));
        }
    }
    if cs.len() > 0 && token::field(t, "CreateTable"@) is Record {
        assert(constraints_of(v) == constraints_of(t) + cs);
    } else if cs.len() > 0 {
        assert(constraints_of(t) =~= seq![]);
    }
    assert forall|m: int| 0 <= m < constraints_of(t).len() implies alike::alike(
        #[trigger] constraints_of(t)[m],
        constraints_of(u)[m],
    ) by {
        assert(constraints_of(v)[m] == constraints_of(t)[m]);
    }
}

/// Whether a part holds a table of the name that a fold is for, with the constraint of the fold.
pub open spec fn carries(part: (usize, Seq<char>), fold: constraint_collapse::Fold) -> bool {
    match syntax::statements(Dialect::Postgres, text::trimmed(part.1)) {
        Ok(us) => exists|k: int, m: int| #[trigger] carries_at(us, fold, k, m),
        Err(_) => false,
    }
}

/// Whether the table at `k` carries the constraint of a fold at `m`.
pub open spec fn carries_at(
    us: Seq<Tree>,
    fold: constraint_collapse::Fold,
    k: int,
    m: int,
) -> bool {
    &&& 0 <= k < us.len()
    &&& 0 <= m < constraints_of(us[k]).len()
    &&& table_of(us[k]) matches Some(n) && name_match::matching(n, fold.table)
    &&& alike::alike(fold.constraint, constraints_of(us[k])[m])
}

/// One fold: what grew goes on growing, and what a part carried it carries on.
#[verifier::spinoff_prover]
#[verifier::rlimit(60)]
proof fn lemma_fold_part(
    p: (usize, Seq<char>),
    q: (usize, Seq<char>),
    fold: constraint_collapse::Fold,
    vs: Seq<Tree>,
)
    requires
        grows_part(p, q),
        syntax::statements(Dialect::Postgres, text::trimmed(q.1)) is Ok,
        constraint_collapse::folded_into(
            syntax::statements(Dialect::Postgres, text::trimmed(q.1))->Ok_0,
            fold,
            0,
        ) == Some(vs),
        wiring::reads_as(constraint_collapse::pretty_text(vs), vs),
    ensures
        grows_part(p, (q.0, constraint_collapse::pretty_text(vs))),
        carries((q.0, constraint_collapse::pretty_text(vs)), fold),
        forall|f: constraint_collapse::Fold| #[trigger]
            carries(q, f) ==> carries((q.0, constraint_collapse::pretty_text(vs)), f),
{
    let ts = syntax::statements(Dialect::Postgres, text::trimmed(p.1))->Ok_0;
    let us = syntax::statements(Dialect::Postgres, text::trimmed(q.1))->Ok_0;
    let sql = constraint_collapse::pretty_text(vs);
    let r = (q.0, sql);
    let ws = syntax::statements(Dialect::Postgres, text::trimmed(sql))->Ok_0;
    let i = law_a_fold_changes_one_table(us, fold, 0);
    let c = fold.constraint;
    law_a_fold_only_adds(us[i], c);
    assert forall|k: int| 0 <= k < ts.len() implies grows(#[trigger] ts[k], ws[k]) by {
        assert(grows(ts[k], us[k]));
        let cs = choose|cs: Seq<Tree>| alike::alike(#[trigger] with_more(ts[k], cs), us[k]);
        assert(alike::alike(vs[k], ws[k]));
        if k != i {
            assert(vs[k] == us[k]);
            law_alike_is_transitive(with_more(ts[k], cs), us[k], ws[k]);
        } else {
            lemma_both_with_constraint(with_more(ts[k], cs), us[k], c);
            lemma_one_more(ts[k], cs, c);
            law_alike_is_transitive(with_more(ts[k], cs.push(c)), vs[k], ws[k]);
        }
    }
    assert forall|k: int| 0 <= k < us.len() implies keeps_constraints(
        #[trigger] us[k],
        ws[k],
    ) && table_of(us[k]) == table_of(ws[k]) by {
        lemma_step_keeps(us[k], vs[k], ws[k], c);
    }
    assert(carries(r, fold)) by {
        let m = constraints_of(us[i]).len() as int;
        assert(alike::alike(vs[i], ws[i]));
        lemma_alike_constraints(vs[i], ws[i]);
        assert(constraints_of(vs[i])[m] == c);
        assert(keeps_constraints(us[i], ws[i]));
        assert(carries_at(ws, fold, i, m));
    }
    assert forall|f: constraint_collapse::Fold| #[trigger] carries(q, f) implies carries(r, f) by {
        let (k, m) = choose|k: int, m: int| #[trigger] carries_at(us, f, k, m);
        assert(keeps_constraints(us[k], ws[k]));
        assert(alike::alike(constraints_of(us[k])[m], constraints_of(ws[k])[m]));
        law_alike_is_transitive(f.constraint, constraints_of(us[k])[m], constraints_of(ws[k])[m]);
        assert(carries_at(ws, f, k, m));
    }
}

proof fn lemma_alike_constraints(t: Tree, u: Tree)
    requires
        alike::alike(t, u),
    ensures
        constraints_of(t).len() == constraints_of(u).len(),
        forall|m: int|
            0 <= m < constraints_of(t).len() ==> alike::alike(
                #[trigger] constraints_of(t)[m],
                constraints_of(u)[m],
            ),
        table_of(t) == table_of(u),
{
    lemma_names();
    alike::lemma_member(t, u, "CreateTable"@);
    let x = token::field(t, "CreateTable"@);
    let y = token::field(u, "CreateTable"@);
    alike::lemma_member(x, y, "constraints"@);
    alike::lemma_items(token::field(x, "constraints"@), token::field(y, "constraints"@));
    likeness::lemma_traits(t, u);
    lemma_table_of(t);
    lemma_table_of(u);
}

proof fn lemma_step_keeps(t: Tree, v: Tree, w: Tree, c: Tree)
    requires
        v == t || (creates_table(t) && v == constraint_collapse::with_constraint(t, c)),
        alike::alike(v, w),
    ensures
        keeps_constraints(t, w),
        table_of(t) == table_of(w),
{
    lemma_alike_constraints(v, w);
    if v != t {
        law_a_fold_only_adds(t, c);
    }
    assert forall|m: int| 0 <= m < constraints_of(t).len() implies alike::alike(
        #[trigger] constraints_of(t)[m],
        constraints_of(w)[m],
    ) by {
        assert(constraints_of(v)[m] == constraints_of(t)[m]);
    }
}

proof fn lemma_one_more(t: Tree, cs: Seq<Tree>, c: Tree)
    requires
        creates_table(with_more(t, cs)),
    ensures
        constraint_collapse::with_constraint(with_more(t, cs), c) == with_more(t, cs.push(c)),
{
    lemma_names();
    let x = token::field(t, "CreateTable"@);
    if let (Tree::Record(f), Tree::Record(g)) = (t, x) {
        assert(constraints_of(t) + cs.push(c) =~= (constraints_of(t) + cs).push(c));
        if cs.len() == 0 {
            assert(constraints_of(t) + cs =~= constraints_of(t));
        } else {
            let list = Tree::List(constraints_of(t) + cs);
            let more = Tree::List((constraints_of(t) + cs).push(c));
            assert(g.insert("constraints"@, list).insert("constraints"@, more) =~= g.insert(
                "constraints"@,
                more,
            ));
            let inner = Tree::Record(g.insert("constraints"@, list));
            let outer = Tree::Record(g.insert("constraints"@, more));
            assert(f.insert("CreateTable"@, inner).insert("CreateTable"@, outer) =~= f.insert(
                "CreateTable"@,
                outer,
            ));
        }
    }
}

/// A fold of a script is the one that its `ALTER TABLE` asks for.
proof fn lemma_listed(ts: Seq<Tree>, kind: Kind, n: int, j: int)
    requires
        0 <= n <= ts.len(),
        0 <= j < constraint_collapse::folds(ts, kind, n).len(),
    ensures
        ({
            let f = constraint_collapse::folds(ts, kind, n)[j];
            &&& 0 <= f.create < f.alter < n
            &&& constraint_collapse::fold_at(ts, kind, f.alter) == Some(f)
            &&& table_of(ts[f.create]) matches Some(name) && name_match::matching(name, f.table)
            &&& syntax::member(ts[f.alter], "AlterTable"@) is Some
        }),
    decreases n,
{
    if n > 0 {
        let before = constraint_collapse::folds(ts, kind, n - 1);
        let f = constraint_collapse::folds(ts, kind, n)[j];
        if j < before.len() {
            lemma_listed(ts, kind, n - 1, j);
            assert(f == before[j]);
        } else {
            constraint_collapse::law_fold_target_stands_before(ts, kind, n - 1);
            lemma_table_of(ts[f.create]);
        }
    }
}

/// The numbers of the parts that the first `n` folds are done with.
pub open spec fn folded_parts(script: Seq<(usize, Seq<char>)>, kind: Kind, n: int) -> Seq<usize> {
    Seq::new(
        n as nat,
        |j: int|
            constraint_collapse::origin(
                script,
                constraint_collapse::script_folds(script, kind)[j].alter,
            ) as usize,
    )
}

/// Behind each fold: every part of the script has only grown, each folded constraint is carried by
/// its table, and the parts that are done with are the `ALTER TABLE`s of the folds.
#[verifier::spinoff_prover]
#[verifier::rlimit(60)]
pub proof fn law_folding_only_adds(script: Seq<(usize, Seq<char>)>, kind: Kind, n: int)
    requires
        0 <= n <= constraint_collapse::script_folds(script, kind).len(),
        wiring::folds_read_back(script, kind),
    ensures
        ({
            let st = constraint_collapse::folding(script, kind, n);
            let fs = constraint_collapse::script_folds(script, kind);
            &&& st.parts.len() == script.len()
            &&& forall|i: int|
                0 <= i < script.len() ==> grows_part(#[trigger] script[i], st.parts[i])
            &&& st.gone == folded_parts(script, kind, n)
            &&& forall|j: int|
                0 <= j < n ==> carries(
                    st.parts[constraint_collapse::origin(script, (#[trigger] fs[j]).create)],
                    fs[j],
                )
        }),
    decreases n,
{
    let fs = constraint_collapse::script_folds(script, kind);
    if n == 0 {
        assert forall|i: int| 0 <= i < script.len() implies grows_part(
            #[trigger] script[i],
            script[i],
        ) by {
            if let Ok(ts) = syntax::statements(Dialect::Postgres, text::trimmed(script[i].1)) {
                assert forall|k: int| 0 <= k < ts.len() implies grows(#[trigger] ts[k], ts[k]) by {
                    alike::law_alike_is_reflexive(ts[k]);
                    assert(with_more(ts[k], seq![]) == ts[k]);
                }
            }
        }
        assert(folded_parts(script, kind, 0) =~= seq![]);
    } else {
        let fold = fs[n - 1];
        let before = constraint_collapse::folding(script, kind, n - 1);
        let after = constraint_collapse::folding(script, kind, n);
        let trees = constraint_collapse::parsed_trees(script);
        let c = constraint_collapse::origin(script, fold.create);
        law_folding_only_adds(script, kind, n - 1);
        lemma_listed(trees, kind, trees.len() as int, n - 1);
        wiring::lemma_parsed(script, fold.create);
        assert(wiring::fold_step_reads_back(before, fold, c));
        let ts = syntax::statements(Dialect::Postgres, text::trimmed(script[c].1))->Ok_0;
        let k = choose|k: int| 0 <= k < ts.len() && ts[k] == trees[fold.create];
        let q = before.parts[c];
        assert(grows_part(script[c], q));
        let us = syntax::statements(Dialect::Postgres, text::trimmed(q.1))->Ok_0;
        assert(grows(ts[k], us[k]));
        law_grown_tables_keep_their_constraints(ts[k], us[k]);
        let i = law_a_fold_changes_one_table(us, fold, 0);
        assert(table_of(us[k]) is Some);
        let vs = constraint_collapse::folded_into(us, fold, 0)->Some_0;
        lemma_fold_part(script[c], q, fold, vs);
        let r = (q.0, constraint_collapse::pretty_text(vs));
        assert(after.parts == before.parts.update(c, r));
        assert forall|x: int| 0 <= x < script.len() implies grows_part(
            #[trigger] script[x],
            after.parts[x],
        ) by {
            assert(grows_part(script[x], before.parts[x]));
        }
        assert(after.gone =~= folded_parts(script, kind, n)) by {
            assert(folded_parts(script, kind, n) =~= folded_parts(script, kind, n - 1).push(
                constraint_collapse::origin(script, fold.alter) as usize,
            ));
        }
        assert forall|j: int| 0 <= j < n implies carries(
            after.parts[constraint_collapse::origin(script, (#[trigger] fs[j]).create)],
            fs[j],
        ) by {
            let x = constraint_collapse::origin(script, fs[j].create);
            if j < n - 1 {
                assert(carries(before.parts[x], fs[j]));
                lemma_listed(trees, kind, trees.len() as int, j);
                wiring::lemma_parsed(script, fs[j].create);
                if x == c {
                    assert(carries(r, fs[j]));
                }
            }
        }
    }
}

/// A part that did not go is still there.
proof fn lemma_stays(parts: Seq<(usize, Seq<char>)>, gone: Seq<usize>, i: int) -> (j: int)
    requires
        0 <= i < parts.len(),
        !gone.contains(i as usize),
    ensures
        0 <= j < name_match::without(parts, gone).len(),
        name_match::without(parts, gone)[j] == parts[i],
    decreases parts.len(),
{
    let front = parts.drop_last();
    let before = name_match::without(front, gone);
    if i < front.len() {
        assert(front[i] == parts[i]);
        let j = lemma_stays(front, gone, i);
        assert(name_match::without(parts, gone)[j] == before[j]);
        j
    } else {
        before.len() as int
    }
}

/// Whether a part holds no `ALTER TABLE`.
pub open spec fn alters_nothing(part: (usize, Seq<char>)) -> bool {
    syntax::statements(Dialect::Postgres, text::trimmed(part.1)) matches Ok(ts) ==> forall|k: int|
        0 <= k < ts.len() ==> syntax::member(#[trigger] ts[k], "AlterTable"@) is None
}

/// Every part of a script that alters no table is in the folded script, on its line, with every
/// table constraint that it had.
pub proof fn law_folded_scripts_keep_their_tables(
    script: Seq<(usize, Seq<char>)>,
    kind: Kind,
    i: int,
) -> (j: int)
    requires
        script.len() <= usize::MAX,
        wiring::folds_read_back(script, kind),
        0 <= i < script.len(),
        alters_nothing(script[i]),
    ensures
        ({
            let out = constraint_collapse::all_folded(script, kind).0;
            &&& 0 <= j < out.len()
            &&& grows_part(script[i], out[j])
            &&& match (
                syntax::statements(Dialect::Postgres, text::trimmed(script[i].1)),
                syntax::statements(Dialect::Postgres, text::trimmed(out[j].1)),
            ) {
                (Ok(ts), Ok(us)) => ts.len() == us.len() && forall|k: int|
                    0 <= k < ts.len() ==> keeps_constraints(#[trigger] ts[k], us[k]),
                (Err(_), Err(_)) => true,
                _ => false,
            }
        }),
{
    let fs = constraint_collapse::script_folds(script, kind);
    let trees = constraint_collapse::parsed_trees(script);
    let end = constraint_collapse::folding(script, kind, fs.len() as int);
    law_folding_only_adds(script, kind, fs.len() as int);
    assert(!end.gone.contains(i as usize)) by {
        if end.gone.contains(i as usize) {
            let x = choose|x: int| 0 <= x < end.gone.len() && end.gone[x] == i as usize;
            lemma_listed(trees, kind, trees.len() as int, x);
            wiring::lemma_parsed(script, fs[x].alter);
            let ts = syntax::statements(Dialect::Postgres, text::trimmed(script[i].1))->Ok_0;
            let k = choose|k: int| 0 <= k < ts.len() && ts[k] == trees[fs[x].alter];
            assert(syntax::member(ts[k], "AlterTable"@) is None);
        }
    }
    let j = lemma_stays(end.parts, end.gone, i);
    let q = end.parts[i];
    assert(grows_part(script[i], q));
    if let Ok(ts) = syntax::statements(Dialect::Postgres, text::trimmed(script[i].1)) {
        let us = syntax::statements(Dialect::Postgres, text::trimmed(q.1))->Ok_0;
        assert forall|k: int| 0 <= k < ts.len() implies keeps_constraints(
            #[trigger] ts[k],
            us[k],
        ) by {
            assert(grows(ts[k], us[k]));
            law_grown_tables_keep_their_constraints(ts[k], us[k]);
        }
    }
    j
}

/// Whether a text that parses is one statement, which does not both create and alter a table.
pub open spec fn is_single(sql: Seq<char>) -> bool {
    syntax::statements(Dialect::Postgres, text::trimmed(sql)) matches Ok(ts) ==> (ts.len() == 1
        && !(syntax::member(ts[0], "CreateTable"@) is Some && syntax::member(
        ts[0],
        "AlterTable"@,
    ) is Some))
}

/// Whether every part that parses is one statement.
pub open spec fn single_statements(script: Seq<(usize, Seq<char>)>) -> bool {
    forall|i: int| 0 <= i < script.len() ==> is_single((#[trigger] script[i]).1)
}

proof fn lemma_origins_rise(script: Seq<(usize, Seq<char>)>, m: int, n: int)
    requires
        single_statements(script),
        0 <= m < n < name_match::parsed_parts(script).len(),
    ensures
        constraint_collapse::origin(script, m) < constraint_collapse::origin(script, n),
    decreases script.len(),
{
    let front = script.drop_last();
    let before = name_match::parsed_parts(front);
    assert(script.last() == script[script.len() - 1]);
    assert forall|i: int| 0 <= i < front.len() implies is_single((#[trigger] front[i]).1) by {
        assert(front[i] == script[i]);
    }
    assert(is_single(script[script.len() - 1].1));
    assert(name_match::parsed_parts(script)[m] == before[m]);
    if n < before.len() {
        assert(name_match::parsed_parts(script)[n] == before[n]);
        lemma_origins_rise(front, m, n);
    } else {
        wiring::lemma_parsed(front, m);
    }
}

/// Every constraint that is folded is in the folded script: a table of the name that the
/// `ALTER TABLE` gave carries it.
pub proof fn law_folded_scripts_carry_the_constraints(
    script: Seq<(usize, Seq<char>)>,
    kind: Kind,
    n: int,
) -> (j: int)
    requires
        script.len() <= usize::MAX,
        single_statements(script),
        wiring::folds_read_back(script, kind),
        0 <= n < constraint_collapse::script_folds(script, kind).len(),
    ensures
        0 <= j < constraint_collapse::all_folded(script, kind).0.len(),
        carries(
            constraint_collapse::all_folded(script, kind).0[j],
            constraint_collapse::script_folds(script, kind)[n],
        ),
{
    let fs = constraint_collapse::script_folds(script, kind);
    let trees = constraint_collapse::parsed_trees(script);
    let end = constraint_collapse::folding(script, kind, fs.len() as int);
    law_folding_only_adds(script, kind, fs.len() as int);
    lemma_listed(trees, kind, trees.len() as int, n);
    let c = constraint_collapse::origin(script, fs[n].create);
    wiring::lemma_parsed(script, fs[n].create);
    assert(!end.gone.contains(c as usize)) by {
        if end.gone.contains(c as usize) {
            let x = choose|x: int| 0 <= x < end.gone.len() && end.gone[x] == c as usize;
            lemma_listed(trees, kind, trees.len() as int, x);
            wiring::lemma_parsed(script, fs[x].alter);
            let a = fs[x].alter;
            let b = fs[n].create;
            if a < b {
                lemma_origins_rise(script, a, b);
            } else if b < a {
                lemma_origins_rise(script, b, a);
            } else {
                lemma_table_of(trees[a]);
                assert(is_single(script[c].1));
                let ts = syntax::statements(Dialect::Postgres, text::trimmed(script[c].1))->Ok_0;
                let k = choose|k: int| 0 <= k < ts.len() && ts[k] == trees[a];
                assert(k == 0);
            }
        }
    }
    assert(carries(end.parts[constraint_collapse::origin(script, fs[n].create)], fs[n]));
    lemma_stays(end.parts, end.gone, c)
}

/// A primary key or a unique key that an `ALTER TABLE` adds, and nothing else, to a table that an
/// earlier statement creates is folded, each kind by its own fold.
pub proof fn law_added_keys_are_folded(ts: Seq<Tree>, kind: Kind, at: int, i: int) -> (j: int)
    requires
        0 <= i < at < ts.len(),
        ({
            let alter = token::field(ts[at], "AlterTable"@);
            let ops = name_match::items_of(token::field(alter, "operations"@));
            let key = token::field(token::field(ops[0], "AddConstraint"@), "constraint"@);
            let table = name_match::normalized(token::field(alter, "name"@));
            &&& ops.len() == 1
            &&& match kind {
                Kind::PrimaryKey => syntax::member(key, "PrimaryKey"@) is Some,
                Kind::Unique => syntax::member(key, "Unique"@) is Some,
            }
            &&& table is Some
            &&& table_of(ts[i]) is Some
            &&& name_match::matching(table_of(ts[i])->Some_0, table->Some_0)
        }),
    ensures
        ({
            let alter = token::field(ts[at], "AlterTable"@);
            let ops = name_match::items_of(token::field(alter, "operations"@));
            let key = token::field(token::field(ops[0], "AddConstraint"@), "constraint"@);
            let fs = constraint_collapse::folds(ts, kind, ts.len() as int);
            &&& 0 <= j < fs.len()
            &&& fs[j].alter == at
            &&& fs[j].constraint == key
            &&& Some(fs[j].table) == name_match::normalized(token::field(alter, "name"@))
            &&& 0 <= fs[j].create < at
        }),
{
    let alter = token::field(ts[at], "AlterTable"@);
    let ops = name_match::items_of(token::field(alter, "operations"@));
    assert(name_match::items_of(Tree::Null) =~= seq![]);
    assert(token::field(Tree::Null, "operations"@) == Tree::Null);
    assert(token::field(Tree::Null, "constraint"@) == Tree::Null);
    assert(syntax::member(ts[at], "AlterTable"@) is Some);
    assert(syntax::member(ops[0], "AddConstraint"@) is Some);
    let table = name_match::normalized(token::field(alter, "name"@))->Some_0;
    assert(constraint_collapse::altered_table(ts[at]) == Some(table));
    lemma_table_of(ts[i]);
    let names = constraint_collapse::created_names(ts);
    let before = constraint_collapse::created_before(ts, at);
    name_match::law_best_match_prefers_the_schema(names, before, table);
    assert(name_match::candidate(names, before, table, i));
    let fold = constraint_collapse::fold_at(ts, kind, at)->Some_0;
    constraint_collapse::law_fold_target_stands_before(ts, kind, at);
    lemma_is_listed(ts, kind, ts.len() as int, at)
}

proof fn lemma_is_listed(ts: Seq<Tree>, kind: Kind, n: int, at: int) -> (j: int)
    requires
        0 <= at < n <= ts.len(),
        constraint_collapse::fold_at(ts, kind, at) is Some,
    ensures
        0 <= j < constraint_collapse::folds(ts, kind, n).len(),
        Some(constraint_collapse::folds(ts, kind, n)[j]) == constraint_collapse::fold_at(
            ts,
            kind,
            at,
        ),
    decreases n,
{
    let before = constraint_collapse::folds(ts, kind, n - 1);
    if at < n - 1 {
        let j = lemma_is_listed(ts, kind, n - 1, at);
        assert(constraint_collapse::folds(ts, kind, n)[j] == before[j]);
        j
    } else {
        before.len() as int
    }
}

/// Each fold is reported as done under the rule of its kind, beside the `ALTER TABLE` that it comes
/// from.
pub proof fn law_folds_are_reported(script: Seq<(usize, Seq<char>)>, kind: Kind, n: int)
    requires
        0 <= n < constraint_collapse::script_folds(script, kind).len(),
    ensures
        ({
            let d = constraint_collapse::fold_reports(script, kind)[n];
            let fold = constraint_collapse::script_folds(script, kind)[n];
            let part = script[constraint_collapse::origin(script, fold.alter)];
            &&& constraint_collapse::fold_reports(script, kind).len()
                == constraint_collapse::script_folds(script, kind).len()
            &&& d.rule == match kind {
                Kind::PrimaryKey => LintRule::AlterAddPrimaryKeyCollapse,
                Kind::Unique => LintRule::AlterAddUniqueCollapse,
            }
            &&& d.line == part.0
            &&& d.statement == part.1
            &&& d.fix_result is Fixed
        }),
{
}

/// Where the folds are carried out each is told of once, under the rule of its kind.
pub proof fn law_carried_out_folds_are_reported(
    script: Seq<(usize, Seq<char>)>,
    kind: Kind,
    n: int,
)
    requires
        0 <= n <= constraint_collapse::script_folds(script, kind).len(),
        wiring::folds_read_back(script, kind),
    ensures
        ({
            let ds = constraint_collapse::folding(script, kind, n).reports;
            &&& ds.len() == n
            &&& forall|i: int|
                0 <= i < n ==> (#[trigger] ds[i]).fix_result is Fixed && ds[i].rule == match kind {
                    Kind::PrimaryKey => LintRule::AlterAddPrimaryKeyCollapse,
                    Kind::Unique => LintRule::AlterAddUniqueCollapse,
                }
        }),
    decreases n,
{
    if n > 0 {
        law_carried_out_folds_are_reported(script, kind, n - 1);
        constraint_collapse::law_fix_reports_no_more_than_check(script, kind, n);
        law_folding_only_adds(script, kind, n);
        let before = constraint_collapse::folding(script, kind, n - 1).reports;
        let now = constraint_collapse::folding(script, kind, n).reports;
        assert(now.len() == folded_parts(script, kind, n).len());
        assert(now.drop_last() =~= before);
        assert forall|i: int| 0 <= i < n implies (#[trigger] now[i]).fix_result is Fixed
            && now[i].rule == match kind {
            Kind::PrimaryKey => LintRule::AlterAddPrimaryKeyCollapse,
            Kind::Unique => LintRule::AlterAddUniqueCollapse,
        } by {
            if i < n - 1 {
                assert(now[i] == before[i]);
            }
        }
    }
}

} // verus!
