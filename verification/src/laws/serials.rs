//! What the folds of serial columns owe: which statements they take for one, and what becomes of the
//! table.

use vstd::prelude::*;

use crate::diagnostic::LintRule;
use crate::gap;
use crate::laws::statements;
use crate::rules::{constraint_collapse, name_match, serial_idiom, wiring};
use crate::syntax::{self, Dialect, Tree};
use crate::text;
use crate::token;

verus! {

/// The names of kinds and fields differ.
proof fn lemma_names()
    ensures
        "AlterColumn"@.len() == 11,
        "AlterTable"@.len() == 10,
        "Cast"@.len() == 4,
        "CreateSequence"@.len() == 14,
        "CreateTable"@.len() == 11,
        "Default"@.len() == 7,
        "Expr"@.len() == 4,
        "Function"@.len() == 8,
        "Generated"@.len() == 9,
        "Identifier"@.len() == 10,
        "Identity"@.len() == 8,
        "List"@.len() == 4,
        "SetDefault"@.len() == 10,
        "SingleQuotedString"@.len() == 18,
        "Unnamed"@.len() == 7,
        "Value"@.len() == 5,
        "args"@.len() == 4,
        "column_name"@.len() == 11,
        "columns"@.len() == 7,
        "data_type"@.len() == 9,
        "expr"@.len() == 4,
        "generation_expr"@.len() == 15,
        "name"@.len() == 4,
        "nextval"@.len() == 7,
        "op"@.len() == 2,
        "operations"@.len() == 10,
        "option"@.len() == 6,
        "options"@.len() == 7,
        "value"@.len() == 5,
        "AlterColumn"@ != "CreateTable"@,
        "AlterColumn"@ != "column_name"@,
        "AlterTable"@ != "Identifier"@,
        "AlterTable"@ != "SetDefault"@,
        "AlterTable"@ != "operations"@,
        "Cast"@ != "Expr"@,
        "Cast"@ != "List"@,
        "Cast"@ != "args"@,
        "Cast"@ != "expr"@,
        "Cast"@ != "name"@,
        "CreateTable"@ != "column_name"@,
        "Default"@ != "Unnamed"@,
        "Default"@ != "columns"@,
        "Default"@ != "nextval"@,
        "Default"@ != "options"@,
        "Expr"@ != "List"@,
        "Expr"@ != "args"@,
        "Expr"@ != "expr"@,
        "Expr"@ != "name"@,
        "Function"@ != "Identity"@,
        "Generated"@ != "data_type"@,
        "Identifier"@ != "SetDefault"@,
        "Identifier"@ != "operations"@,
        "List"@ != "args"@,
        "List"@ != "expr"@,
        "List"@ != "name"@,
        "SetDefault"@ != "operations"@,
        "Unnamed"@ != "columns"@,
        "Unnamed"@ != "nextval"@,
        "Unnamed"@ != "options"@,
        "Value"@ != "value"@,
        "args"@ != "expr"@,
        "args"@ != "name"@,
        "columns"@ != "nextval"@,
        "columns"@ != "options"@,
        "expr"@ != "name"@,
        "nextval"@ != "options"@,
{
    reveal_strlit("AlterColumn");
    reveal_strlit("AlterTable");
    reveal_strlit("Cast");
    reveal_strlit("CreateSequence");
    reveal_strlit("CreateTable");
    reveal_strlit("Default");
    reveal_strlit("Expr");
    reveal_strlit("Function");
    reveal_strlit("Generated");
    reveal_strlit("Identifier");
    reveal_strlit("Identity");
    reveal_strlit("List");
    reveal_strlit("SetDefault");
    reveal_strlit("SingleQuotedString");
    reveal_strlit("Unnamed");
    reveal_strlit("Value");
    reveal_strlit("args");
    reveal_strlit("column_name");
    reveal_strlit("columns");
    reveal_strlit("data_type");
    reveal_strlit("expr");
    reveal_strlit("generation_expr");
    reveal_strlit("name");
    reveal_strlit("nextval");
    reveal_strlit("op");
    reveal_strlit("operations");
    reveal_strlit("option");
    reveal_strlit("options");
    reveal_strlit("value");
    assert("AlterColumn"@[0] != "CreateTable"@[0]);
    assert("AlterColumn"@[0] != "column_name"@[0]);
    assert("AlterTable"@[0] != "Identifier"@[0]);
    assert("AlterTable"@[0] != "SetDefault"@[0]);
    assert("AlterTable"@[0] != "operations"@[0]);
    assert("Cast"@[0] != "Expr"@[0]);
    assert("Cast"@[0] != "List"@[0]);
    assert("Cast"@[0] != "args"@[0]);
    assert("Cast"@[0] != "expr"@[0]);
    assert("Cast"@[0] != "name"@[0]);
    assert("CreateTable"@[0] != "column_name"@[0]);
    assert("Default"@[0] != "Unnamed"@[0]);
    assert("Default"@[0] != "columns"@[0]);
    assert("Default"@[0] != "nextval"@[0]);
    assert("Default"@[0] != "options"@[0]);
    assert("Expr"@[0] != "List"@[0]);
    assert("Expr"@[0] != "args"@[0]);
    assert("Expr"@[0] != "expr"@[0]);
    assert("Expr"@[0] != "name"@[0]);
    assert("Function"@[0] != "Identity"@[0]);
    assert("Generated"@[0] != "data_type"@[0]);
    assert("Identifier"@[0] != "SetDefault"@[0]);
    assert("Identifier"@[0] != "operations"@[0]);
    assert("List"@[0] != "args"@[0]);
    assert("List"@[0] != "expr"@[0]);
    assert("List"@[0] != "name"@[0]);
    assert("SetDefault"@[0] != "operations"@[0]);
    assert("Unnamed"@[0] != "columns"@[0]);
    assert("Unnamed"@[0] != "nextval"@[0]);
    assert("Unnamed"@[0] != "options"@[0]);
    assert("Value"@[0] != "value"@[0]);
    assert("args"@[0] != "expr"@[0]);
    assert("args"@[0] != "name"@[0]);
    assert("columns"@[0] != "nextval"@[0]);
    assert("columns"@[0] != "options"@[0]);
    assert("expr"@[0] != "name"@[0]);
    assert("nextval"@[0] != "options"@[0]);
}

/// The text of a literal in single quotes.
pub open spec fn literal_text(e: Tree) -> Option<Tree> {
    syntax::member(token::field(token::field(e, "Value"@), "value"@), "SingleQuotedString"@)
}

/// Whether an expression is `nextval` of a text, whatever the case and the schema of `nextval`, and
/// whether or not the text is cast.
pub open spec fn calls_nextval(e: Tree, s: Seq<char>) -> bool {
    let f = token::field(e, "Function"@);
    let name = name_match::items_of(token::field(f, "name"@));
    let args = name_match::items_of(
        token::field(token::field(token::field(f, "args"@), "List"@), "args"@),
    );
    let arg = token::field(token::field(args[0], "Unnamed"@), "Expr"@);
    &&& name.len() > 0
    &&& syntax::member(name.last(), "Identifier"@) is Some
    &&& text::same_word(
        token::text_in(token::field(name.last(), "Identifier"@), "value"@),
        "nextval"@,
    )
    &&& args.len() == 1
    &&& {
        ||| syntax::member(arg, "Cast"@) is None && literal_text(arg) == Some(Tree::Text(s))
        ||| syntax::member(arg, "Cast"@) is Some && literal_text(
            token::field(token::field(arg, "Cast"@), "expr"@),
        ) == Some(Tree::Text(s))
    }
}

/// An `ALTER TABLE ... ALTER COLUMN ... SET DEFAULT nextval('...')` that does nothing else gives the
/// column and the sequence, each by its name.
pub proof fn law_serial_defaults_are_read(t: Tree, s: Seq<char>)
    requires
        ({
            let ops = name_match::items_of(
                token::field(token::field(t, "AlterTable"@), "operations"@),
            );
            let alter = token::field(ops[0], "AlterColumn"@);
            &&& ops.len() == 1
            &&& calls_nextval(
                token::field(
                    token::field(token::field(alter, "op"@), "SetDefault"@),
                    "value"@,
                ),
                s,
            )
        }),
    ensures
        ({
            let ops = name_match::items_of(
                token::field(token::field(t, "AlterTable"@), "operations"@),
            );
            let column = token::field(token::field(ops[0], "AlterColumn"@), "column_name"@);
            serial_idiom::set_default(t) == Some(
                (name_match::folded_ident(column), name_match::normalized_text(s)),
            )
        }),
{
}

/// A statement that does more than one thing, or that sets no default, wires up nothing.
pub proof fn law_other_defaults_are_left(t: Tree)
    ensures
        ({
            let ops = name_match::items_of(
                token::field(token::field(t, "AlterTable"@), "operations"@),
            );
            let op = token::field(token::field(ops[0], "AlterColumn"@), "op"@);
            let value = token::field(token::field(op, "SetDefault"@), "value"@);
            (ops.len() != 1 || syntax::member(op, "SetDefault"@) is None || syntax::member(
                value,
                "Function"@,
            ) is None) ==> serial_idiom::set_default(t) is None
        }),
{
    lemma_names();
    assert(name_match::items_of(Tree::Null) =~= seq![]);
    assert(token::field(Tree::Null, "value"@) == Tree::Null);
    assert(token::field(Tree::Null, "Function"@) == Tree::Null);
    assert(token::field(Tree::Null, "name"@) == Tree::Null);
}

/// Whether an option of a column has to go where the column becomes an identity column: its default,
/// and what numbers it already.
pub open spec fn gives_way(o: Tree) -> bool {
    let option = token::field(o, "option"@);
    ||| syntax::member(option, "Default"@) is Some
    ||| syntax::member(option, "Identity"@) is Some
    ||| syntax::member(option, "Generated"@) is Some && token::field(
        token::field(option, "Generated"@),
        "generation_expr"@,
    ) == Tree::Null
}

/// The options that stay are those that do not give way, in their order.
pub proof fn law_options_that_stay(options: Seq<Tree>)
    ensures
        serial_idiom::staying(options) == options.filter(|o: Tree| !gives_way(o)),
    decreases options.len(),
{
    reveal(Seq::filter);
    if options.len() > 0 {
        law_options_that_stay(options.drop_last());
    }
}

/// A column that becomes an identity column is one, and keeps every option that does not give way.
pub proof fn law_identity_columns_keep_their_options(c: Tree)
    requires
        c is Record,
    ensures
        ({
            let d = serial_idiom::identity_column(c);
            let old = name_match::items_of(token::field(c, "options"@));
            let new = name_match::items_of(token::field(d, "options"@));
            &&& statements::is_identity_column(d)
            &&& new.drop_last() == old.filter(|o: Tree| !gives_way(o))
            &&& forall|k: Seq<char>| k != "data_type"@ && k != "options"@ ==> #[trigger] syntax::member(
                d,
                k,
            ) == syntax::member(c, k)
        }),
{
    lemma_names();
    statements::law_identity_columns_are_identities(c);
    let old = name_match::items_of(token::field(c, "options"@));
    let d = serial_idiom::identity_column(c);
    law_options_that_stay(old);
    assert(name_match::items_of(token::field(d, "options"@)).drop_last() =~= serial_idiom::staying(
        old,
    ));
}

/// The fold of a serial column changes that column alone: it becomes an identity column of its name,
/// and the other columns and everything else of the table stay.
pub proof fn law_a_serial_fold_changes_one_column(t: Tree, column: Seq<char>, i: int)
    requires
        syntax::member(t, "CreateTable"@) is Some,
        token::field(t, "CreateTable"@) is Record,
        0 <= i < statements::columns_of(t).len(),
        statements::columns_of(t)[i] is Record,
    ensures
        ({
            let u = serial_idiom::with_identity(t, column);
            let old = statements::columns_of(t);
            let new = statements::columns_of(u);
            let named = name_match::folded_ident(token::field(old[i], "name"@)) == column;
            &&& new.len() == old.len()
            &&& named ==> statements::is_identity_column(new[i]) && token::field(new[i], "name"@)
                == token::field(old[i], "name"@)
            &&& !named ==> new[i] == old[i]
            &&& forall|k: Seq<char>| k != "columns"@ ==> #[trigger] syntax::member(
                token::field(u, "CreateTable"@),
                k,
            ) == syntax::member(token::field(t, "CreateTable"@), k)
            &&& forall|k: Seq<char>| k != "CreateTable"@ ==> #[trigger] syntax::member(u, k)
                == syntax::member(t, k)
        }),
{
    lemma_names();
    let c = statements::columns_of(t)[i];
    statements::law_identity_columns_are_identities(c);
    let u = serial_idiom::with_identity(t, column);
    let columns = serial_idiom::with_identity_column(statements::columns_of(t), column);
    assert(statements::columns_of(u) == columns);
    assert(columns[i] == if name_match::folded_ident(token::field(c, "name"@)) == column {
        serial_idiom::identity_column(c)
    } else {
        c
    });
}

/// Whether the tokens are `ALTER SEQUENCE name OWNED BY`, or the same with `IF EXISTS`, where the
/// name stands at `from..end`.
pub open spec fn gives_sequence(ts: Seq<token::TokenView>, from: int, end: int) -> bool {
    &&& end + 1 < ts.len()
    &&& token::is_keyword(ts[0], "ALTER"@)
    &&& token::is_keyword(ts[1], "SEQUENCE"@)
    &&& from == 2 || (from == 4 && token::is_keyword(ts[2], "IF"@) && token::is_keyword(
        ts[3],
        "EXISTS"@,
    ))
    &&& from == 2 ==> !(token::is_keyword(ts[2], "IF"@) && token::is_keyword(ts[3], "EXISTS"@))
    &&& token::is_keyword(ts[end], "OWNED"@)
    &&& token::is_keyword(ts[end + 1], "BY"@)
}

/// The word of a token as a name: as it stands where it is quoted, else in lower case.
pub open spec fn word_of(t: token::TokenView) -> Seq<char> {
    if t.quoted {
        t.word
    } else {
        text::lowered(t.word)
    }
}

/// `ALTER SEQUENCE ... OWNED BY` is read: a name of one word is that word, and of a longer one the
/// last word and the word before the dot count.
pub proof fn law_owned_sequences_are_read(ts: Seq<token::TokenView>, from: int, end: int)
    requires
        gives_sequence(ts, from, end),
        forall|i: int|
            from <= i < end ==> (#[trigger] ts[i]).class == if (i - from) % 2 == 0 {
                token::TokenClass::Word
            } else {
                token::TokenClass::Period
            },
        end > from,
        (end - from) % 2 == 1,
        ts[end].class != token::TokenClass::Period,
    ensures
        serial_idiom::owned_by(ts) == Some(
            (
                if end == from + 1 {
                    None
                } else {
                    Some(word_of(ts[end - 3]))
                },
                word_of(ts[end - 1]),
            ),
        ),
{
    assert(ts[from].class == token::TokenClass::Word);
    lemma_dotted(ts, from, from + 1, end);
}

proof fn lemma_dotted(ts: Seq<token::TokenView>, from: int, at: int, end: int)
    requires
        0 <= from < at <= end < ts.len(),
        forall|i: int|
            from <= i < end ==> (#[trigger] ts[i]).class == if (i - from) % 2 == 0 {
                token::TokenClass::Word
            } else {
                token::TokenClass::Period
            },
        (at - from) % 2 == 1,
        (end - from) % 2 == 1,
        ts[end].class != token::TokenClass::Period,
    ensures
        gap::dotted_end(ts, at) == Some(end),
    decreases end - at,
{
    if at < end {
        assert(ts[at].class == token::TokenClass::Period);
        assert(ts[at + 1].class == token::TokenClass::Word);
        lemma_dotted(ts, from, at + 2, end);
    }
}

/// Whether a part takes no part in a serial column: it creates no sequence, alters no table and
/// gives no sequence to a column.
pub open spec fn is_unconcerned(part: (usize, Seq<char>)) -> bool {
    &&& serial_idiom::owned_sequence(part.1) is None
    &&& syntax::statements(Dialect::Postgres, text::trimmed(part.1)) matches Ok(ts) ==> forall|
        k: int,
    |
        0 <= k < ts.len() ==> syntax::member(#[trigger] ts[k], "CreateSequence"@) is None
            && syntax::member(ts[k], "AlterTable"@) is None && syntax::member(
            ts[k],
            "CreateTable"@,
        ) is None
}

/// On the way through the folds a part that takes no part in a serial column is as it was, and not
/// done with.
proof fn lemma_unconcerned(script: Seq<(usize, Seq<char>)>, n: int, i: int)
    requires
        script.len() <= usize::MAX,
        0 <= n <= serial_idiom::script_serials(script).len(),
        0 <= i < script.len(),
        is_unconcerned(script[i]),
    ensures
        ({
            let st = serial_idiom::serial_folding(script, n);
            st.parts.len() == script.len() && st.parts[i] == script[i] && !st.gone.contains(
                i as usize,
            )
        }),
    decreases n,
{
    if n > 0 {
        let ts = constraint_collapse::parsed_trees(script);
        let s = serial_idiom::script_serials(script)[n - 1];
        let before = serial_idiom::serial_folding(script, n - 1);
        let after = serial_idiom::serial_folding(script, n);
        lemma_unconcerned(script, n - 1, i);
        wiring::lemma_listed_serial(ts, ts.len() as int, n - 1);
        wiring::lemma_serial_parts(ts, s.set_default);
        lemma_elsewhere(script, i, s.create, "CreateTable"@);
        lemma_elsewhere(script, i, s.create_sequence, "CreateSequence"@);
        lemma_elsewhere(script, i, s.set_default, "AlterTable"@);
        let c = constraint_collapse::origin(script, s.create);
        let q = constraint_collapse::origin(script, s.create_sequence);
        let d = constraint_collapse::origin(script, s.set_default);
        if after != before {
            let more = serial_idiom::owners(after.parts, s.sequence, after.parts.len() as int);
            assert(after.parts[i] == before.parts[i]);
            lemma_no_owner(after.parts, s.sequence, after.parts.len() as int, i);
            assert(after.gone == before.gone.push(q as usize).push(d as usize) + more);
            if after.gone.contains(i as usize) {
                let x = choose|x: int| 0 <= x < after.gone.len() && after.gone[x] == i as usize;
                if x < before.gone.len() {
                    assert(before.gone[x] == i as usize);
                } else if x >= before.gone.len() + 2 {
                    assert(more[x - before.gone.len() - 2] == i as usize);
                    assert(more.contains(i as usize));
                }
            }
        }
    }
}

proof fn lemma_elsewhere(script: Seq<(usize, Seq<char>)>, i: int, n: int, kind: Seq<char>)
    requires
        0 <= i < script.len(),
        is_unconcerned(script[i]),
        0 <= n < constraint_collapse::parsed_trees(script).len(),
        kind == "CreateTable"@ || kind == "CreateSequence"@ || kind == "AlterTable"@,
        syntax::member(constraint_collapse::parsed_trees(script)[n], kind) is Some,
    ensures
        constraint_collapse::origin(script, n) != i,
        0 <= constraint_collapse::origin(script, n) < script.len(),
{
    wiring::lemma_parsed(script, n);
    if constraint_collapse::origin(script, n) == i {
        let ts = syntax::statements(Dialect::Postgres, text::trimmed(script[i].1))->Ok_0;
        let k = choose|k: int|
            0 <= k < ts.len() && ts[k] == constraint_collapse::parsed_trees(script)[n];
        assert(syntax::member(ts[k], "CreateTable"@) is None);
    }
}

proof fn lemma_no_owner(
    parts: Seq<(usize, Seq<char>)>,
    sequence: name_match::NameView,
    n: int,
    i: int,
)
    requires
        0 <= n <= parts.len() <= usize::MAX,
        0 <= i < parts.len(),
        serial_idiom::owned_sequence(parts[i].1) is None,
    ensures
        !serial_idiom::owners(parts, sequence, n).contains(i as usize),
    decreases n,
{
    if n > 0 {
        lemma_no_owner(parts, sequence, n - 1, i);
        let before = serial_idiom::owners(parts, sequence, n - 1);
        let now = serial_idiom::owners(parts, sequence, n);
        if now.contains(i as usize) {
            let x = choose|x: int| 0 <= x < now.len() && now[x] == i as usize;
            if x < before.len() {
                assert(before[x] == i as usize);
            }
        }
    }
}

/// The folds of serial columns leave alone what takes no part in them: a part that creates no table
/// and no sequence, alters no table and gives no sequence away is in the folded script as it was.
pub proof fn law_serial_folds_leave_the_rest(script: Seq<(usize, Seq<char>)>, i: int)
    requires
        script.len() <= usize::MAX,
        0 <= i < script.len(),
        is_unconcerned(script[i]),
    ensures
        serial_idiom::serials_folded(script).0.contains(script[i]),
{
    let n = serial_idiom::script_serials(script).len() as int;
    let end = serial_idiom::serial_folding(script, n);
    lemma_unconcerned(script, n, i);
    lemma_stays(end.parts, end.gone, i);
}

proof fn lemma_stays(parts: Seq<(usize, Seq<char>)>, gone: Seq<usize>, i: int)
    requires
        0 <= i < parts.len(),
        !gone.contains(i as usize),
    ensures
        name_match::without(parts, gone).contains(parts[i]),
    decreases parts.len(),
{
    let front = parts.drop_last();
    let before = name_match::without(front, gone);
    let now = name_match::without(parts, gone);
    if i < front.len() {
        assert(front[i] == parts[i]);
        lemma_stays(front, gone, i);
        let j = choose|j: int| 0 <= j < before.len() && before[j] == parts[i];
        assert(now[j] == parts[i]);
    } else {
        assert(now[before.len() as int] == parts[i]);
    }
}

/// Each serial column is reported with a warning, beside the statement that sets its default.
pub proof fn law_serials_are_reported(script: Seq<(usize, Seq<char>)>, n: int)
    requires
        0 <= n < serial_idiom::script_serials(script).len(),
    ensures
        ({
            let d = serial_idiom::serial_reports(script)[n];
            let s = serial_idiom::script_serials(script)[n];
            let part = script[constraint_collapse::origin(script, s.set_default)];
            &&& serial_idiom::serial_reports(script).len() == serial_idiom::script_serials(
                script,
            ).len()
            &&& d.rule == LintRule::SerialSequenceIdiom
            &&& d.fix_result is FixedWithWarning
            &&& d.line == part.0
            &&& d.statement == part.1
        }),
{
}

/// A table with the column, a sequence and a default of the column's that draws on the sequence make
/// a serial column, whatever the order of the three.
pub proof fn law_wired_columns_are_serials(ts: Seq<Tree>, at: int, c: int, q: int)
    requires
        0 <= at < ts.len(),
        0 <= c < ts.len(),
        0 <= q < ts.len(),
        serial_idiom::set_default(ts[at]) is Some,
        ({
            let (column, sequence) = serial_idiom::set_default(ts[at])->Some_0;
            let table = name_match::normalized(
                token::field(token::field(ts[at], "AlterTable"@), "name"@),
            );
            let made = name_match::normalized(
                token::field(token::field(ts[c], "CreateTable"@), "name"@),
            );
            let drawn = name_match::normalized(
                token::field(token::field(ts[q], "CreateSequence"@), "name"@),
            );
            &&& table is Some && made is Some && drawn is Some
            &&& name_match::matching(made->Some_0, table->Some_0)
            &&& name_match::matching(drawn->Some_0, sequence)
            &&& exists|i: int|
                0 <= i < statements::columns_of(ts[c]).len() && name_match::folded_ident(
                    token::field(#[trigger] statements::columns_of(ts[c])[i], "name"@),
                ) == column
        }),
    ensures
        serial_idiom::serial_at(ts, at) is Some,
{
    let (column, sequence) = serial_idiom::set_default(ts[at])->Some_0;
    assert(name_match::items_of(Tree::Null) =~= seq![]);
    assert(name_match::folded_parts(seq![]) =~= seq![]);
    assert(name_match::normalized(Tree::Null) is None);
    assert(token::field(Tree::Null, "name"@) == Tree::Null);
    let i = choose|i: int|
        0 <= i < statements::columns_of(ts[c]).len() && name_match::folded_ident(
            token::field(#[trigger] statements::columns_of(ts[c])[i], "name"@),
        ) == column;
    let columns = serial_idiom::column_names(token::field(ts[c], "CreateTable"@));
    assert(columns[i] == column);
    assert(columns.contains(column));
    wiring::lemma_wired_is_serial(ts, at, c, q);
}

/// Once a serial column is folded the statements that wired it up are done with: the one that creates
/// the sequence and the one that sets the default. Each column is told of once.
pub proof fn law_wiring_is_taken_off(script: Seq<(usize, Seq<char>)>, n: int)
    requires
        0 <= n < serial_idiom::script_serials(script).len(),
        wiring::serials_read_back(script),
    ensures
        ({
            let all = serial_idiom::script_serials(script);
            let end = serial_idiom::serial_folding(script, all.len() as int);
            &&& end.gone.contains(
                constraint_collapse::origin(script, all[n].create_sequence) as usize,
            )
            &&& end.gone.contains(
                constraint_collapse::origin(script, all[n].set_default) as usize,
            )
            &&& end.reports.len() == all.len()
            &&& serial_idiom::serials_folded(script).0 == name_match::without(end.parts, end.gone)
        }),
{
    let all = serial_idiom::script_serials(script);
    wiring::lemma_serial_folding(script, all.len() as int);
    assert(all[n].create == all[n].create);
}

/// Every part that gives the sequence of a serial column to a column is among the owners of the
/// sequence, and no other part is.
pub proof fn law_owners_are_found(
    parts: Seq<(usize, Seq<char>)>,
    sequence: name_match::NameView,
    n: int,
    i: int,
)
    requires
        0 <= n <= parts.len() <= usize::MAX,
        0 <= i < n,
    ensures
        serial_idiom::owners(parts, sequence, n).contains(i as usize) == (
        serial_idiom::owned_sequence(parts[i].1) is Some && name_match::matching(
            serial_idiom::owned_sequence(parts[i].1)->Some_0,
            sequence,
        )),
    decreases n,
{
    let before = serial_idiom::owners(parts, sequence, n - 1);
    let now = serial_idiom::owners(parts, sequence, n);
    if i < n - 1 {
        law_owners_are_found(parts, sequence, n - 1, i);
        if before.contains(i as usize) {
            let x = choose|x: int| 0 <= x < before.len() && before[x] == i as usize;
            assert(now[x] == i as usize);
        }
        if now.contains(i as usize) {
            let x = choose|x: int| 0 <= x < now.len() && now[x] == i as usize;
            if x < before.len() {
                assert(before[x] == i as usize);
            }
        }
    } else {
        lemma_owners_below(parts, sequence, n - 1);
        if now.len() > before.len() {
            assert(now[before.len() as int] == i as usize);
        } else if now.contains(i as usize) {
            let x = choose|x: int| 0 <= x < now.len() && now[x] == i as usize;
            assert(before[x] < n - 1);
        }
    }
}

proof fn lemma_owners_below(
    parts: Seq<(usize, Seq<char>)>,
    sequence: name_match::NameView,
    n: int,
)
    requires
        0 <= n <= parts.len() <= usize::MAX,
    ensures
        forall|x: int|
            0 <= x < serial_idiom::owners(parts, sequence, n).len() ==> (
            #[trigger] serial_idiom::owners(parts, sequence, n)[x]) < n,
    decreases n,
{
    if n > 0 {
        lemma_owners_below(parts, sequence, n - 1);
        let before = serial_idiom::owners(parts, sequence, n - 1);
        let now = serial_idiom::owners(parts, sequence, n);
        assert forall|x: int| 0 <= x < now.len() implies (#[trigger] now[x]) < n by {
            if x < before.len() {
                assert(now[x] == before[x]);
            }
        }
    }
}

/// One fold is done with what it names and with the owners of its sequence, and with nothing else.
pub proof fn law_one_serial_fold_takes_off(
    st: constraint_collapse::Folding,
    s: serial_idiom::Serial,
    create: int,
    sequence: int,
    default: int,
)
    requires
        serial_idiom::serial_step(st, s, create, sequence, default) != st,
    ensures
        ({
            let after = serial_idiom::serial_step(st, s, create, sequence, default);
            let owners = serial_idiom::owners(
                after.parts,
                s.sequence,
                after.parts.len() as int,
            );
            after.gone == st.gone + seq![sequence as usize, default as usize] + owners
        }),
{
    let after = serial_idiom::serial_step(st, s, create, sequence, default);
    let owners = serial_idiom::owners(after.parts, s.sequence, after.parts.len() as int);
    assert(st.gone.push(sequence as usize).push(default as usize) + owners =~= st.gone + seq![
        sequence as usize,
        default as usize,
    ] + owners);
}

} // verus!
