//! Which statements are known although the parser does not read them, word by word.

use vstd::prelude::*;

use crate::gap::{self, FkSetAction};
use crate::text;
use crate::token::{self, TokenClass};

verus! {

/// Whether a token is a word, unquoted and in any case.
pub open spec fn is_the_word(t: token::TokenView, word: Seq<char>) -> bool {
    &&& t.class == TokenClass::Word
    &&& !t.quoted
    &&& text::same_word(t.word, word)
}

/// Whether the tokens from `at` on begin with the given words, unquoted and in any case.
pub open spec fn spells(ts: Seq<token::TokenView>, at: int, words: Seq<Seq<char>>) -> bool {
    0 <= at && at + words.len() <= ts.len() && forall|i: int|
        0 <= i < words.len() ==> is_the_word(ts[at + i], #[trigger] words[i])
}

/// Whether the tokens from `at` on are the given words and nothing else.
pub open spec fn ends_in(ts: Seq<token::TokenView>, at: int, words: Seq<Seq<char>>) -> bool {
    spells(ts, at, words) && ts.len() == at + words.len()
}

/// Whether a name stands at `from..end`: words with dots between them.
pub open spec fn names(ts: Seq<token::TokenView>, from: int, end: int) -> bool {
    &&& 0 <= from < end <= ts.len()
    &&& (end - from) % 2 == 1
    &&& forall|i: int|
        from <= i < end ==> (#[trigger] ts[i]).class == if (i - from) % 2 == 0 {
            TokenClass::Word
        } else {
            TokenClass::Period
        }
    &&& end == ts.len() || ts[end].class != TokenClass::Period
}

proof fn lemma_dotted(ts: Seq<token::TokenView>, from: int, at: int, end: int)
    requires
        names(ts, from, end),
        from < at <= end,
        (at - from) % 2 == 1,
    ensures
        gap::dotted_end(ts, at) == Some(end),
    decreases end - at,
{
    if at < end {
        assert(ts[at].class == TokenClass::Period);
        assert(ts[at + 1].class == TokenClass::Word);
        lemma_dotted(ts, from, at + 2, end);
    }
}

/// A name is stepped over to its end.
pub proof fn law_names_are_stepped_over(ts: Seq<token::TokenView>, from: int, end: int)
    requires
        names(ts, from, end),
    ensures
        gap::name_end(ts, from) == Some(end),
{
    assert(ts[from].class == TokenClass::Word);
    lemma_dotted(ts, from, from + 1, end);
}

/// Whether the tokens from `at` on are one of the deferrabilities.
pub open spec fn defers(ts: Seq<token::TokenView>, at: int) -> bool {
    ||| ends_in(ts, at, seq!["DEFERRABLE"@])
    ||| ends_in(ts, at, seq!["NOT"@, "DEFERRABLE"@])
    ||| ends_in(ts, at, seq!["INITIALLY"@, "DEFERRED"@])
    ||| ends_in(ts, at, seq!["INITIALLY"@, "IMMEDIATE"@])
    ||| ends_in(ts, at, seq!["DEFERRABLE"@, "INITIALLY"@, "DEFERRED"@])
    ||| ends_in(ts, at, seq!["DEFERRABLE"@, "INITIALLY"@, "IMMEDIATE"@])
    ||| ends_in(ts, at, seq!["NOT"@, "DEFERRABLE"@, "INITIALLY"@, "DEFERRED"@])
    ||| ends_in(ts, at, seq!["NOT"@, "DEFERRABLE"@, "INITIALLY"@, "IMMEDIATE"@])
}

proof fn lemma_spells_one(ts: Seq<token::TokenView>, at: int, a: Seq<char>)
    ensures
        spells(ts, at, seq![a]) == gap::keyword_at(ts, at, a),
{
    let words = seq![a];
    if spells(ts, at, words) {
        assert(words[0] == a);
        assert(ts[at + 0] == ts[at]);
    }
}

proof fn lemma_spells_two(ts: Seq<token::TokenView>, at: int, a: Seq<char>, b: Seq<char>)
    ensures
        spells(ts, at, seq![a, b]) == (gap::keyword_at(ts, at, a) && gap::keyword_at(
            ts,
            at + 1,
            b,
        )),
{
    let words = seq![a, b];
    if spells(ts, at, words) {
        assert(words[0] == a);
        assert(words[1] == b);
        assert(ts[at + 0] == ts[at]);
    }
    if gap::keyword_at(ts, at, a) && gap::keyword_at(ts, at + 1, b) {
        assert forall|i: int| 0 <= i < words.len() implies is_the_word(
            ts[at + i],
            #[trigger] words[i],
        ) by {
            assert(i == 0 || i == 1);
        }
    }
}

proof fn lemma_spells_more(
    ts: Seq<token::TokenView>,
    at: int,
    a: Seq<char>,
    rest: Seq<Seq<char>>,
)
    ensures
        spells(ts, at, seq![a] + rest) == (gap::keyword_at(ts, at, a) && spells(ts, at + 1, rest)),
{
    let words = seq![a] + rest;
    if spells(ts, at, words) {
        assert(words[0] == a);
        assert(ts[at + 0] == ts[at]);
        assert forall|i: int| 0 <= i < rest.len() implies is_the_word(
            ts[at + 1 + i],
            #[trigger] rest[i],
        ) by {
            assert(words[i + 1] == rest[i]);
            assert(ts[at + (i + 1)] == ts[at + 1 + i]);
        }
        assert(gap::keyword_at(ts, at, a));
        assert(spells(ts, at + 1, rest));
    }
    if gap::keyword_at(ts, at, a) && spells(ts, at + 1, rest) {
        assert forall|i: int| 0 <= i < words.len() implies is_the_word(
            ts[at + i],
            #[trigger] words[i],
        ) by {
            if i > 0 {
                assert(words[i] == rest[i - 1]);
                assert(ts[at + 1 + (i - 1)] == ts[at + i]);
            } else {
                assert(words[0] == a);
                assert(ts[at + 0] == ts[at]);
            }
        }
        assert(spells(ts, at, words));
    }
}

/// The deferrabilities are these and no others.
#[verifier::spinoff_prover]
pub proof fn law_deferrabilities_are_known(ts: Seq<token::TokenView>, at: int)
    requires
        0 <= at <= ts.len(),
    ensures
        gap::deferral_at(ts, at) == defers(ts, at),
{
    lemma_spells_one(ts, at, "DEFERRABLE"@);
    lemma_spells_two(ts, at, "NOT"@, "DEFERRABLE"@);
    lemma_spells_two(ts, at, "INITIALLY"@, "DEFERRED"@);
    lemma_spells_two(ts, at, "INITIALLY"@, "IMMEDIATE"@);
    lemma_spells_two(ts, at + 1, "INITIALLY"@, "DEFERRED"@);
    lemma_spells_two(ts, at + 1, "INITIALLY"@, "IMMEDIATE"@);
    lemma_spells_two(ts, at + 2, "INITIALLY"@, "DEFERRED"@);
    lemma_spells_two(ts, at + 2, "INITIALLY"@, "IMMEDIATE"@);
    let now = seq!["INITIALLY"@, "IMMEDIATE"@];
    let later = seq!["INITIALLY"@, "DEFERRED"@];
    lemma_spells_more(ts, at, "DEFERRABLE"@, later);
    lemma_spells_more(ts, at, "DEFERRABLE"@, now);
    assert(seq!["DEFERRABLE"@] + later =~= seq!["DEFERRABLE"@, "INITIALLY"@, "DEFERRED"@]);
    assert(seq!["DEFERRABLE"@] + now =~= seq!["DEFERRABLE"@, "INITIALLY"@, "IMMEDIATE"@]);
    let d_later = seq!["DEFERRABLE"@, "INITIALLY"@, "DEFERRED"@];
    let d_now = seq!["DEFERRABLE"@, "INITIALLY"@, "IMMEDIATE"@];
    lemma_spells_more(ts, at + 1, "DEFERRABLE"@, later);
    lemma_spells_more(ts, at + 1, "DEFERRABLE"@, now);
    lemma_spells_more(ts, at, "NOT"@, d_later);
    lemma_spells_more(ts, at, "NOT"@, d_now);
    assert(seq!["NOT"@] + d_later =~= seq![
        "NOT"@,
        "DEFERRABLE"@,
        "INITIALLY"@,
        "DEFERRED"@,
    ]);
    assert(seq!["NOT"@] + d_now =~= seq!["NOT"@, "DEFERRABLE"@, "INITIALLY"@, "IMMEDIATE"@]);
}

/// Where the name of the table begins behind `ALTER TABLE`.
pub open spec fn table_name_at(ts: Seq<token::TokenView>, from: int) -> bool {
    ||| spells(ts, 0, seq!["ALTER"@, "TABLE"@, "IF"@, "EXISTS"@, "ONLY"@]) && from == 5
    ||| spells(ts, 0, seq!["ALTER"@, "TABLE"@, "IF"@, "EXISTS"@]) && from == 4 && !spells(
        ts,
        4,
        seq!["ONLY"@],
    )
    ||| spells(ts, 0, seq!["ALTER"@, "TABLE"@, "ONLY"@]) && from == 3
    ||| spells(ts, 0, seq!["ALTER"@, "TABLE"@]) && from == 2 && !spells(ts, 2, seq!["ONLY"@])
        && !spells(ts, 2, seq!["IF"@, "EXISTS"@])
}

/// `ALTER TABLE [IF EXISTS] [ONLY] name [*] ALTER CONSTRAINT word` with a deferrability is known.
#[verifier::spinoff_prover]
#[verifier::rlimit(60)]
pub proof fn law_altered_constraints_are_known(ts: Seq<token::TokenView>, from: int, end: int, at: int)
    requires
        table_name_at(ts, from),
        names(ts, from, end),
        at == end || (at == end + 1 && end < ts.len() && ts[end].class == TokenClass::Mul),
        spells(ts, at, seq!["ALTER"@, "CONSTRAINT"@]),
        at + 3 <= ts.len(),
        ts[at + 2].class == TokenClass::Word,
        defers(ts, at + 3),
    ensures
        gap::alters_constraint(ts),
{
    let exists_only = seq!["EXISTS"@, "ONLY"@];
    lemma_spells_one(ts, 2, "ONLY"@);
    lemma_spells_one(ts, 4, "ONLY"@);
    lemma_spells_two(ts, 0, "ALTER"@, "TABLE"@);
    lemma_spells_two(ts, 2, "IF"@, "EXISTS"@);
    lemma_spells_two(ts, 3, "EXISTS"@, "ONLY"@);
    lemma_spells_more(ts, 2, "IF"@, exists_only);
    assert(seq!["IF"@] + exists_only =~= seq!["IF"@, "EXISTS"@, "ONLY"@]);
    lemma_spells_head(ts, seq!["IF"@, "EXISTS"@, "ONLY"@]);
    lemma_spells_head(ts, seq!["IF"@, "EXISTS"@]);
    lemma_spells_head(ts, seq!["ONLY"@]);
    assert(seq!["ALTER"@, "TABLE"@] + seq!["IF"@, "EXISTS"@, "ONLY"@] =~= seq![
        "ALTER"@,
        "TABLE"@,
        "IF"@,
        "EXISTS"@,
        "ONLY"@,
    ]);
    assert(seq!["ALTER"@, "TABLE"@] + seq!["IF"@, "EXISTS"@] =~= seq![
        "ALTER"@,
        "TABLE"@,
        "IF"@,
        "EXISTS"@,
    ]);
    assert(seq!["ALTER"@, "TABLE"@] + seq!["ONLY"@] =~= seq!["ALTER"@, "TABLE"@, "ONLY"@]);
    lemma_only_is_not_if(ts);
    assert(gap::altered_name_at(ts) == from);
    law_names_are_stepped_over(ts, from, end);
    lemma_spells_two(ts, at, "ALTER"@, "CONSTRAINT"@);
    law_deferrabilities_are_known(ts, at + 3);
}

proof fn lemma_only_is_not_if(ts: Seq<token::TokenView>)
    ensures
        gap::keyword_at(ts, 2, "ONLY"@) ==> !gap::keyword_at(ts, 2, "IF"@),
{
    reveal_strlit("ONLY");
    reveal_strlit("IF");
    assert(text::lowered("ONLY"@).len() == 4);
    assert(text::lowered("IF"@).len() == 2);
}

proof fn lemma_spells_head(ts: Seq<token::TokenView>, rest: Seq<Seq<char>>)
    ensures
        spells(ts, 0, seq!["ALTER"@, "TABLE"@] + rest) == (gap::keyword_at(ts, 0, "ALTER"@)
            && gap::keyword_at(ts, 1, "TABLE"@) && spells(ts, 2, rest)),
{
    lemma_spells_more(ts, 0, "ALTER"@, seq!["TABLE"@] + rest);
    lemma_spells_more(ts, 1, "TABLE"@, rest);
    assert(seq!["ALTER"@] + (seq!["TABLE"@] + rest) =~= seq!["ALTER"@, "TABLE"@] + rest);
}

/// A text that alters no table, or that ends in no deferrability, is not taken for one that alters
/// a constraint.
pub proof fn law_other_texts_alter_no_constraint(ts: Seq<token::TokenView>)
    requires
        gap::alters_constraint(ts),
    ensures
        spells(ts, 0, seq!["ALTER"@, "TABLE"@]),
        exists|at: int|
            #[trigger] defers(ts, at) && spells(ts, at - 3, seq!["ALTER"@, "CONSTRAINT"@]),
{
    lemma_spells_two(ts, 0, "ALTER"@, "TABLE"@);
    let end = gap::name_end(ts, gap::altered_name_at(ts))->Some_0;
    let at = if gap::class_at(ts, end, TokenClass::Mul) {
        end + 1
    } else {
        end
    };
    lemma_spells_two(ts, at, "ALTER"@, "CONSTRAINT"@);
    law_deferrabilities_are_known(ts, at + 3);
    assert(defers(ts, at + 3));
}

/// `SET CONSTRAINTS ALL` with `DEFERRED` or `IMMEDIATE` is known.
pub proof fn law_all_constraints_can_be_set(ts: Seq<token::TokenView>)
    requires
        ends_in(ts, 0, seq!["SET"@, "CONSTRAINTS"@, "ALL"@, "DEFERRED"@]) || ends_in(
            ts,
            0,
            seq!["SET"@, "CONSTRAINTS"@, "ALL"@, "IMMEDIATE"@],
        ),
    ensures
        gap::sets_constraints(ts),
{
    let a = seq!["SET"@, "CONSTRAINTS"@, "ALL"@, "DEFERRED"@];
    let b = seq!["SET"@, "CONSTRAINTS"@, "ALL"@, "IMMEDIATE"@];
    assert(a[0] == "SET"@ && a[1] == "CONSTRAINTS"@ && a[2] == "ALL"@ && a[3] == "DEFERRED"@);
    assert(b[0] == "SET"@ && b[1] == "CONSTRAINTS"@ && b[2] == "ALL"@ && b[3] == "IMMEDIATE"@);
    assert(gap::keyword_at(ts, 0, "SET"@) && gap::keyword_at(ts, 1, "CONSTRAINTS"@)
        && gap::keyword_at(ts, 2, "ALL"@));
    let targets = ts.subrange(2, ts.len() - 1);
    assert(targets.len() == 1);
    assert(targets[0] == ts[2]);
}

/// `SET CONSTRAINTS` with one name and `DEFERRED` or `IMMEDIATE` is known.
pub proof fn law_one_constraint_can_be_set(ts: Seq<token::TokenView>)
    requires
        ts.len() >= 4,
        spells(ts, 0, seq!["SET"@, "CONSTRAINTS"@]),
        names(ts, 2, ts.len() - 1),
        forall|i: int| 2 <= i < ts.len() - 1 ==> !(#[trigger] token::is_keyword(ts[i], "ALL"@)),
        ends_in(ts, ts.len() - 1, seq!["DEFERRED"@]) || ends_in(
            ts,
            ts.len() - 1,
            seq!["IMMEDIATE"@],
        ),
    ensures
        gap::sets_constraints(ts),
{
    lemma_spells_two(ts, 0, "SET"@, "CONSTRAINTS"@);
    lemma_spells_one(ts, ts.len() - 1, "DEFERRED"@);
    lemma_spells_one(ts, ts.len() - 1, "IMMEDIATE"@);
    let targets = ts.subrange(2, ts.len() - 1);
    assert(names(targets, 0, targets.len() as int)) by {
        assert forall|i: int| 0 <= i < targets.len() implies (#[trigger] targets[i]).class
            == if (i - 0) % 2 == 0 {
            TokenClass::Word
        } else {
            TokenClass::Period
        } by {
            assert(targets[i] == ts[i + 2]);
            assert(ts[i + 2].class == if (i + 2 - 2) % 2 == 0 {
                TokenClass::Word
            } else {
                TokenClass::Period
            });
        }
    }
    assert forall|i: int| !#[trigger] gap::keyword_at(targets, i, "ALL"@) by {
        if 0 <= i < targets.len() {
            assert(targets[i] == ts[i + 2]);
            assert(!token::is_keyword(ts[i + 2], "ALL"@));
        }
    }
    law_names_are_stepped_over(targets, 0, targets.len() as int);
}

/// A list of names goes on behind a comma.
pub proof fn law_names_are_parted_by_commas(ts: Seq<token::TokenView>, at: int, end: int)
    requires
        names(ts, at, end),
        end < ts.len(),
    ensures
        gap::names_from(ts, at) == (ts[end].class == TokenClass::Comma && gap::names_from(
            ts,
            end + 1,
        )),
{
    law_names_are_stepped_over(ts, at, end);
}

/// What sets no constraints, or says neither `DEFERRED` nor `IMMEDIATE` at its end, is not known.
pub proof fn law_other_texts_set_no_constraints(ts: Seq<token::TokenView>)
    requires
        gap::sets_constraints(ts),
    ensures
        spells(ts, 0, seq!["SET"@, "CONSTRAINTS"@]),
        ends_in(ts, ts.len() - 1, seq!["DEFERRED"@]) || ends_in(
            ts,
            ts.len() - 1,
            seq!["IMMEDIATE"@],
        ),
{
    lemma_spells_two(ts, 0, "SET"@, "CONSTRAINTS"@);
    lemma_spells_one(ts, ts.len() - 1, "DEFERRED"@);
    lemma_spells_one(ts, ts.len() - 1, "IMMEDIATE"@);
}

/// The actions that can have a column list are `ON DELETE SET NULL` and `ON DELETE SET DEFAULT`, and
/// no others.
pub proof fn law_actions_are_known(ts: Seq<token::TokenView>, at: int)
    requires
        0 <= at < ts.len(),
    ensures
        (gap::action_at(ts, at) == Some(FkSetAction::Null)) == spells(
            ts,
            at - 3,
            seq!["ON"@, "DELETE"@, "SET"@, "NULL"@],
        ),
        (gap::action_at(ts, at) == Some(FkSetAction::Default)) == spells(
            ts,
            at - 3,
            seq!["ON"@, "DELETE"@, "SET"@, "DEFAULT"@],
        ),
{
    let set_null = seq!["SET"@, "NULL"@];
    let set_default = seq!["SET"@, "DEFAULT"@];
    lemma_spells_two(ts, at - 1, "SET"@, "NULL"@);
    lemma_spells_two(ts, at - 1, "SET"@, "DEFAULT"@);
    lemma_spells_more(ts, at - 2, "DELETE"@, set_null);
    lemma_spells_more(ts, at - 2, "DELETE"@, set_default);
    let delete_null = seq!["DELETE"@] + set_null;
    let delete_default = seq!["DELETE"@] + set_default;
    lemma_spells_more(ts, at - 3, "ON"@, delete_null);
    lemma_spells_more(ts, at - 3, "ON"@, delete_default);
    assert(seq!["ON"@] + delete_null =~= seq!["ON"@, "DELETE"@, "SET"@, "NULL"@]);
    assert(seq!["ON"@] + delete_default =~= seq!["ON"@, "DELETE"@, "SET"@, "DEFAULT"@]);
    reveal_strlit("NULL");
    reveal_strlit("DEFAULT");
    assert(text::lowered("NULL"@).len() == 4);
    assert(text::lowered("DEFAULT"@).len() == 7);
}

/// A column list is its names, as they are written, up to the closing parenthesis.
pub proof fn law_column_lists_are_read(ts: Seq<token::TokenView>, at: int, n: int)
    requires
        0 <= at,
        1 <= n,
        at + 2 * n <= ts.len(),
        forall|i: int| 0 <= i < n ==> (#[trigger] ts[at + 2 * i]).class == TokenClass::Word,
        forall|i: int|
            0 <= i < n ==> (#[trigger] ts[at + 2 * i + 1]).class == if i < n - 1 {
                TokenClass::Comma
            } else {
                TokenClass::RParen
            },
    ensures
        gap::column_list(ts, at) == Some(
            (Seq::new(n as nat, |i: int| ts[at + 2 * i].text), at + 2 * n),
        ),
    decreases n,
{
    assert(ts[at + 2 * 0].class == TokenClass::Word);
    assert(ts[at + 2 * 0 + 1].class == if 0 < n - 1 {
        TokenClass::Comma
    } else {
        TokenClass::RParen
    });
    let all = Seq::new(n as nat, |i: int| ts[at + 2 * i].text);
    if n == 1 {
        assert(all =~= seq![ts[at].text]);
    } else {
        assert forall|i: int| 0 <= i < n - 1 implies (#[trigger] ts[at + 2 + 2 * i]).class
            == TokenClass::Word by {
            assert(ts[at + 2 * (i + 1)].class == TokenClass::Word);
        }
        assert forall|i: int| 0 <= i < n - 1 implies (#[trigger] ts[at + 2 + 2 * i + 1]).class
            == if i < n - 2 {
            TokenClass::Comma
        } else {
            TokenClass::RParen
        } by {
            assert(ts[at + 2 * (i + 1) + 1].class == if i + 1 < n - 1 {
                TokenClass::Comma
            } else {
                TokenClass::RParen
            });
        }
        law_column_lists_are_read(ts, at + 2, n - 1);
        let rest = Seq::new((n - 1) as nat, |i: int| ts[at + 2 + 2 * i].text);
        assert(all =~= seq![ts[at].text] + rest);
    }
}

} // verus!
