//! What becomes of the statements of a MySQL script, over their kinds by name.

use vstd::prelude::*;

use crate::diagnostic::{self, LintRule};
use crate::lint;
use crate::mysql;
use crate::syntax::{self, Dialect, Tree};
use crate::text;
use crate::token;
use crate::transactions;

verus! {

/// The names of the kinds differ.
proof fn lemma_names()
    ensures
        "DELETE"@.len() == 6,
        "DML"@.len() == 3,
        "Delete"@.len() == 6,
        "INSERT"@.len() == 6,
        "Insert"@.len() == 6,
        "LockTables"@.len() == 10,
        "Set"@.len() == 3,
        "UPDATE"@.len() == 6,
        "UnlockTables"@.len() == 12,
        "Update"@.len() == 6,
        "Use"@.len() == 3,
        "DELETE"@ != "Delete"@,
        "DELETE"@ != "INSERT"@,
        "DELETE"@ != "Insert"@,
        "DELETE"@ != "UPDATE"@,
        "DELETE"@ != "Update"@,
        "DML"@ != "Set"@,
        "DML"@ != "Use"@,
        "Delete"@ != "INSERT"@,
        "Delete"@ != "Insert"@,
        "Delete"@ != "UPDATE"@,
        "Delete"@ != "Update"@,
        "INSERT"@ != "Insert"@,
        "INSERT"@ != "UPDATE"@,
        "INSERT"@ != "Update"@,
        "Insert"@ != "UPDATE"@,
        "Insert"@ != "Update"@,
        "Set"@ != "Use"@,
        "UPDATE"@ != "Update"@,
{
    reveal_strlit("DELETE");
    reveal_strlit("DML");
    reveal_strlit("Delete");
    reveal_strlit("INSERT");
    reveal_strlit("Insert");
    reveal_strlit("LockTables");
    reveal_strlit("Set");
    reveal_strlit("UPDATE");
    reveal_strlit("UnlockTables");
    reveal_strlit("Update");
    reveal_strlit("Use");
    assert("DELETE"@[1] != "Delete"@[1]);
    assert("DELETE"@[0] != "INSERT"@[0]);
    assert("DELETE"@[0] != "Insert"@[0]);
    assert("DELETE"@[0] != "UPDATE"@[0]);
    assert("DELETE"@[0] != "Update"@[0]);
    assert("DML"@[0] != "Set"@[0]);
    assert("DML"@[0] != "Use"@[0]);
    assert("Delete"@[0] != "INSERT"@[0]);
    assert("Delete"@[0] != "Insert"@[0]);
    assert("Delete"@[0] != "UPDATE"@[0]);
    assert("Delete"@[0] != "Update"@[0]);
    assert("INSERT"@[1] != "Insert"@[1]);
    assert("INSERT"@[0] != "UPDATE"@[0]);
    assert("INSERT"@[0] != "Update"@[0]);
    assert("Insert"@[0] != "UPDATE"@[0]);
    assert("Insert"@[0] != "Update"@[0]);
    assert("Set"@[0] != "Use"@[0]);
    assert("UPDATE"@[1] != "Update"@[1]);
}

/// The words differ.
proof fn lemma_words()
    ensures
        "ALGORITHM"@.len() == 9,
        "CREATE"@.len() == 6,
        "DEFINER"@.len() == 7,
        "EXISTS"@.len() == 6,
        "IF"@.len() == 2,
        "INVOKER"@.len() == 7,
        "MERGE"@.len() == 5,
        "NOT"@.len() == 3,
        "OR"@.len() == 2,
        "REPLACE"@.len() == 7,
        "SECURITY"@.len() == 8,
        "SQL"@.len() == 3,
        "TABLE"@.len() == 5,
        "TEMPORARY"@.len() == 9,
        "UNDEFINED"@.len() == 9,
        "ALGORITHM"@ != "TEMPORARY"@,
        "ALGORITHM"@ != "UNDEFINED"@,
        "CREATE"@ != "EXISTS"@,
        "DEFINER"@ != "INVOKER"@,
        "DEFINER"@ != "REPLACE"@,
        "IF"@ != "OR"@,
        "INVOKER"@ != "REPLACE"@,
        "MERGE"@ != "TABLE"@,
        "NOT"@ != "SQL"@,
        "TEMPORARY"@ != "UNDEFINED"@,
{
    reveal_strlit("ALGORITHM");
    reveal_strlit("CREATE");
    reveal_strlit("DEFINER");
    reveal_strlit("EXISTS");
    reveal_strlit("IF");
    reveal_strlit("INVOKER");
    reveal_strlit("MERGE");
    reveal_strlit("NOT");
    reveal_strlit("OR");
    reveal_strlit("REPLACE");
    reveal_strlit("SECURITY");
    reveal_strlit("SQL");
    reveal_strlit("TABLE");
    reveal_strlit("TEMPORARY");
    reveal_strlit("UNDEFINED");
    assert("ALGORITHM"@[0] != "TEMPORARY"@[0]);
    assert("ALGORITHM"@[0] != "UNDEFINED"@[0]);
    assert("CREATE"@[0] != "EXISTS"@[0]);
    assert("DEFINER"@[0] != "INVOKER"@[0]);
    assert("DEFINER"@[0] != "REPLACE"@[0]);
    assert("IF"@[0] != "OR"@[0]);
    assert("INVOKER"@[0] != "REPLACE"@[0]);
    assert("MERGE"@[0] != "TABLE"@[0]);
    assert("NOT"@[0] != "SQL"@[0]);
    assert("TEMPORARY"@[0] != "UNDEFINED"@[0]);
}

/// A statement that inserts, updates or deletes rows leaves nothing but one report, which says so,
/// names the statement and cannot be mended.
pub proof fn law_row_statements_are_reported(part: (usize, Seq<char>), t: Tree, word: Seq<char>)
    requires
        transactions::one_kind(t),
        (transactions::is_kind(t, "Insert"@) && word == "INSERT"@) || (transactions::is_kind(
            t,
            "Update"@,
        ) && word == "UPDATE"@) || (transactions::is_kind(t, "Delete"@) && word == "DELETE"@),
    ensures
        mysql::translated_stmt(part, t).0.len() == 0,
        mysql::translated_stmt(part, t).1.len() == 1,
        ({
            let d = mysql::translated_stmt(part, t).1[0];
            &&& d.rule == LintRule::MysqlDataStatementDropped
            &&& d.fix_result is Unfixable
            &&& d.line == part.0
            &&& d.statement == part.1
            &&& text::begins(d.message, word)
        }),
{
    lemma_names();
    let d = mysql::translated_stmt(part, t).1[0];
    assert(d.message.subrange(0, word.len() as int) =~= word);
}

/// A statement that locks or unlocks tables, sets a variable or picks a database leaves nothing.
pub proof fn law_session_statements_go(part: (usize, Seq<char>), t: Tree)
    requires
        transactions::is_kind(t, "LockTables"@) || transactions::is_kind(t, "UnlockTables"@)
            || transactions::is_kind(t, "Set"@) || transactions::is_kind(t, "Use"@),
    ensures
        mysql::translated_stmt(part, t).0.len() == 0,
        mysql::translated_stmt(part, t).1.len() == 0,
{
}

/// Any other statement stays, first among what stands for it, on its line; what is reported of it
/// carries its line and its text.
pub proof fn law_other_statements_are_translated(part: (usize, Seq<char>), t: Tree)
    requires
        !transactions::is_kind(t, "Insert"@),
        !transactions::is_kind(t, "Update"@),
        !transactions::is_kind(t, "Delete"@),
        !transactions::is_kind(t, "LockTables"@),
        !transactions::is_kind(t, "UnlockTables"@),
        !transactions::is_kind(t, "Set"@),
        !transactions::is_kind(t, "Use"@),
    ensures
        ({
            let tr = mysql::translated(t);
            let after = mysql::translated_stmt(part, t);
            &&& after.0.len() == 1 + tr.extra.len()
            &&& after.0[0] == (part.0, syntax::shown(tr.stmt))
            &&& forall|i: int|
                0 <= i < tr.extra.len() ==> after.0[i + 1] == (part.0, syntax::shown(
                    #[trigger] tr.extra[i],
                ))
            &&& after.1.len() == tr.reports.len()
            &&& forall|i: int|
                0 <= i < tr.reports.len() ==> (#[trigger] after.1[i]) == (
                diagnostic::DiagnosticView { line: part.0, statement: part.1, ..tr.reports[i] })
        }),
{
}

/// What stands for two scripts one behind the other is what stands for the first, and then what stands
/// for the second; nothing is lost, moved or told twice.
pub proof fn law_scripts_are_translated_in_order(
    a: Seq<(usize, Seq<char>)>,
    b: Seq<(usize, Seq<char>)>,
)
    ensures
        mysql::translated_parts(a + b).0 == mysql::translated_parts(a).0 + mysql::translated_parts(
            b,
        ).0,
        mysql::translated_parts(a + b).1 == mysql::translated_parts(a).1 + mysql::translated_parts(
            b,
        ).1,
    decreases b.len(),
{
    let all = mysql::translated_parts(a + b);
    let first = mysql::translated_parts(a);
    if b.len() == 0 {
        assert(a + b =~= a);
        assert(all.0 =~= first.0 + mysql::translated_parts(b).0);
        assert(all.1 =~= first.1 + mysql::translated_parts(b).1);
    } else {
        law_scripts_are_translated_in_order(a, b.drop_last());
        assert((a + b).drop_last() =~= a + b.drop_last());
        assert((a + b).last() == b.last());
        assert(all.0 =~= first.0 + mysql::translated_parts(b).0);
        assert(all.1 =~= first.1 + mysql::translated_parts(b).1);
    }
}

/// One part of a script is translated by itself.
pub proof fn law_a_script_of_one_part(part: (usize, Seq<char>))
    ensures
        mysql::translated_parts(seq![part]) == mysql::translated_part(part),
{
    assert(seq![part].drop_last() =~= seq![]);
    let none = mysql::translated_parts(seq![]);
    let one = mysql::translated_part(part);
    assert(none.0 + one.0 =~= one.0);
    assert(none.1 + one.1 =~= one.1);
}

/// A part of one statement is translated as that statement is.
pub proof fn law_a_part_of_one_statement(part: (usize, Seq<char>), t: Tree)
    requires
        syntax::statements(Dialect::MySql, part.1) == Ok::<Seq<Tree>, Seq<char>>(seq![t]),
    ensures
        mysql::translated_part(part) == mysql::translated_stmt(part, t),
{
    let ts = seq![t];
    assert(ts.drop_last() =~= seq![]);
    let none = mysql::translated_stmts(part, seq![]);
    let one = mysql::translated_stmt(part, t);
    assert(none.0 + one.0 =~= one.0);
    assert(none.1 + one.1 =~= one.1);
    assert(mysql::translated_stmts(part, ts) == one);
}

/// Whether a word can stand between `CREATE` and `TABLE`.
pub open spec fn stands_between(k: Seq<char>) -> bool {
    ||| k == "TEMPORARY"@
    ||| k == "OR"@
    ||| k == "REPLACE"@
    ||| k == "IF"@
    ||| k == "NOT"@
    ||| k == "EXISTS"@
    ||| k == "DEFINER"@
    ||| k == "SQL"@
    ||| k == "SECURITY"@
    ||| k == "ALGORITHM"@
    ||| k == "UNDEFINED"@
    ||| k == "MERGE"@
    ||| k == "INVOKER"@
}

/// Whether a table is opened by the words at `i` and `j`: the first word is `CREATE`, the other
/// `TABLE`, and only words that can stand between them do.
pub open spec fn opened_at(ts: Seq<token::TokenView>, i: int, j: int) -> bool {
    &&& 0 <= i < j < ts.len()
    &&& ts[i].class == token::TokenClass::Word && ts[i].keyword == "CREATE"@
    &&& ts[j].class == token::TokenClass::Word && ts[j].keyword == "TABLE"@
    &&& forall|n: int| 0 <= n < i ==> (#[trigger] ts[n]).class != token::TokenClass::Word
    &&& forall|n: int|
        i < n < j ==> (#[trigger] ts[n]).class != token::TokenClass::Word || stands_between(
            ts[n].keyword,
        )
}

/// A text that opens a `CREATE TABLE` is known for one, however the two words are parted.
pub proof fn law_tables_are_known(ts: Seq<token::TokenView>, i: int, j: int)
    requires
        opened_at(ts, i, j),
    ensures
        mysql::opens_table(ts, 0),
{
    lemma_named(ts, i + 1, j);
    lemma_opened(ts, 0, i);
}

proof fn lemma_named(ts: Seq<token::TokenView>, at: int, j: int)
    requires
        0 <= at <= j < ts.len(),
        ts[j].class == token::TokenClass::Word && ts[j].keyword == "TABLE"@,
        forall|n: int|
            at <= n < j ==> (#[trigger] ts[n]).class != token::TokenClass::Word || stands_between(
                ts[n].keyword,
            ),
    ensures
        mysql::names_table(ts, at),
    decreases j - at,
{
    lemma_words();
    if at < j {
        assert(ts[at].class != token::TokenClass::Word || stands_between(ts[at].keyword));
        lemma_named(ts, at + 1, j);
    }
}

proof fn lemma_opened(ts: Seq<token::TokenView>, at: int, i: int)
    requires
        0 <= at <= i < ts.len(),
        ts[i].class == token::TokenClass::Word && ts[i].keyword == "CREATE"@,
        mysql::names_table(ts, i + 1),
        forall|n: int| at <= n < i ==> (#[trigger] ts[n]).class != token::TokenClass::Word,
    ensures
        mysql::opens_table(ts, at),
    decreases i - at,
{
    if at < i {
        assert(ts[at].class != token::TokenClass::Word);
        lemma_opened(ts, at + 1, i);
    }
}

/// A text that opens with another word, or that creates something else, opens no table.
pub proof fn law_other_texts_open_no_table(ts: Seq<token::TokenView>, i: int, j: int)
    requires
        0 <= i < j < ts.len(),
        ts[i].class == token::TokenClass::Word,
        ts[j].class == token::TokenClass::Word,
        forall|n: int| 0 <= n < i ==> (#[trigger] ts[n]).class != token::TokenClass::Word,
        forall|n: int| i < n < j ==> (#[trigger] ts[n]).class != token::TokenClass::Word,
        ts[i].keyword != "CREATE"@ || (ts[j].keyword != "TABLE"@ && !stands_between(
            ts[j].keyword,
        )),
    ensures
        !mysql::opens_table(ts, 0),
{
    if ts[i].keyword == "CREATE"@ {
        lemma_named_not(ts, i + 1, j);
    }
    lemma_opened_not(ts, 0, i);
}

proof fn lemma_named_not(ts: Seq<token::TokenView>, at: int, j: int)
    requires
        0 <= at <= j < ts.len(),
        ts[j].class == token::TokenClass::Word,
        ts[j].keyword != "TABLE"@ && !stands_between(ts[j].keyword),
        forall|n: int| at <= n < j ==> (#[trigger] ts[n]).class != token::TokenClass::Word,
    ensures
        !mysql::names_table(ts, at),
    decreases j - at,
{
    if at < j {
        assert(ts[at].class != token::TokenClass::Word);
        lemma_named_not(ts, at + 1, j);
    }
}

proof fn lemma_opened_not(ts: Seq<token::TokenView>, at: int, i: int)
    requires
        0 <= at <= i < ts.len(),
        ts[i].class == token::TokenClass::Word,
        ts[i].keyword != "CREATE"@ || !mysql::names_table(ts, i + 1),
        forall|n: int| at <= n < i ==> (#[trigger] ts[n]).class != token::TokenClass::Word,
    ensures
        !mysql::opens_table(ts, at),
    decreases i - at,
{
    if at < i {
        assert(ts[at].class != token::TokenClass::Word);
        lemma_opened_not(ts, at + 1, i);
    }
}

/// What does not parse is dropped without a word, but for a table, which is kept on its line.
pub proof fn law_only_tables_are_kept_unparsed(part: (usize, Seq<char>))
    requires
        syntax::statements(Dialect::MySql, part.1) is Err,
    ensures
        mysql::translated_part(part).1.len() == 0,
        mysql::creates_table(part.1) ==> mysql::translated_part(part).0.len() == 1
            && mysql::translated_part(part).0[0].0 == part.0,
        !mysql::creates_table(part.1) ==> mysql::translated_part(part).0.len() == 0,
{
}

/// A text that ends in semicolons and has no white space around it is kept without them.
pub proof fn law_bare_texts_end_before_the_semicolon(s: Seq<char>)
    requires
        s.len() > 0,
        !text::white(s[0]),
        !text::white(s.last()),
        s.last() != ';',
    ensures
        mysql::bare_text(s) == s,
        mysql::bare_text(s.push(';')) == s,
        mysql::bare_text(s.push(';').push('\n')) == s,
{
    let t = s.push(';');
    let u = t.push('\n');
    assert(t.drop_last() =~= s);
    assert(u.drop_last() =~= t);
    assert(t[0] == s[0] && u[0] == s[0]);
    assert(text::trimmed_start(s) == s);
    assert(text::trimmed_end(s) == s);
    assert(text::trimmed_start(t) == t);
    assert(text::trimmed_end(t) == t);
    assert(text::trimmed_start(u) == u);
    assert(text::trimmed_end(u) == text::trimmed_end(t));
    assert(text::without_trailing(s, ';') == s);
    assert(text::without_trailing(t, ';') == s);
}

/// Reports of one line stay in their order, whatever the lines of the others.
pub proof fn law_reports_of_one_line_stay_in_order(
    ds: Seq<diagnostic::DiagnosticView>,
    line: usize,
)
    ensures
        mysql::by_line(ds).filter(|d: diagnostic::DiagnosticView| d.line == line) == ds.filter(
            |d: diagnostic::DiagnosticView| d.line == line,
        ),
    decreases ds.len(),
{
    reveal(Seq::filter);
    if ds.len() > 0 {
        let front = ds.drop_last();
        law_reports_of_one_line_stay_in_order(front, line);
        mysql::law_reports_come_in_line_order(front);
        lemma_inserted_last(mysql::by_line(front), ds.last(), line);
    }
}

proof fn lemma_inserted_last(
    ds: Seq<diagnostic::DiagnosticView>,
    d: diagnostic::DiagnosticView,
    line: usize,
)
    requires
        mysql::in_line_order(ds),
    ensures
        mysql::inserted(ds, d).filter(|e: diagnostic::DiagnosticView| e.line == line) == (
        if d.line == line {
            ds.filter(|e: diagnostic::DiagnosticView| e.line == line).push(d)
        } else {
            ds.filter(|e: diagnostic::DiagnosticView| e.line == line)
        }),
    decreases ds.len(),
{
    reveal(Seq::filter);
    let keep = |e: diagnostic::DiagnosticView| e.line == line;
    if ds.len() == 0 || ds.last().line <= d.line {
        assert(ds.push(d).drop_last() =~= ds);
    } else {
        let front = ds.drop_last();
        lemma_inserted_last(front, d, line);
        let all = mysql::inserted(front, d).push(ds.last());
        assert(all.drop_last() =~= mysql::inserted(front, d));
        if ds.last().line == line {
            assert(d.line != line);
        }
    }
}

/// What is found while a MySQL script is translated and while the result is fixed is reported.
#[verifier::spinoff_prover]
pub proof fn law_mysql_findings_are_reported(sql: Seq<char>, d: diagnostic::DiagnosticView)
    requires
        ({
            let tr = mysql::translated_parts(mysql::mysql_parts(sql));
            tr.1.contains(d) || lint::fixed_script(tr.0).1.contains(d)
        }),
    ensures
        mysql::fixed_mysql(sql).1.contains(d),
{
    broadcast use vstd::seq_lib::group_to_multiset_ensures;

    let tr = mysql::translated_parts(mysql::mysql_parts(sql));
    let fixed = lint::fixed_script(tr.0).1;
    let all = tr.1 + fixed;
    if tr.1.contains(d) {
        let i = choose|i: int| 0 <= i < tr.1.len() && tr.1[i] == d;
        assert(all[i] == d);
    } else {
        let i = choose|i: int| 0 <= i < fixed.len() && fixed[i] == d;
        assert(all[tr.1.len() + i] == d);
    }
    assert(all.contains(d));
    mysql::law_reports_come_in_line_order(all);
    assert(all.to_multiset().count(d) > 0);
    assert(mysql::by_line(all).to_multiset().count(d) > 0);
}

} // verus!
