//! How names and words are read: what their case, their quotes and their schema mean.

use vstd::prelude::*;

use crate::rules::name_match;
use crate::syntax::{self, Tree};
use crate::text;
use crate::token;

verus! {

/// A letter of ASCII has one other case, 32 places away; every other character has none.
pub proof fn law_letters_have_two_cases(c: char)
    ensures
        'A' <= c <= 'Z' ==> text::lower(c) as int == c as int + 32 && text::upper(c) == c,
        'a' <= c <= 'z' ==> text::upper(c) as int == c as int - 32 && text::lower(c) == c,
        !('A' <= c <= 'Z') && !('a' <= c <= 'z') ==> text::lower(c) == c && text::upper(c) == c,
        text::lower(text::upper(c)) == text::lower(c),
        text::upper(text::lower(c)) == text::upper(c),
{
}

/// Words are the same exactly where they are as long, and character by character the same or the two
/// cases of a letter.
pub proof fn law_words_are_the_same_in_any_case(a: Seq<char>, b: Seq<char>)
    ensures
        text::same_word(a, b) == (a.len() == b.len() && forall|i: int|
            0 <= i < a.len() ==> {
                ||| #[trigger] a[i] == b[i]
                ||| 'A' <= a[i] <= 'Z' && b[i] as int == a[i] as int + 32
                ||| 'A' <= b[i] <= 'Z' && a[i] as int == b[i] as int + 32
            }),
{
    let x = text::lowered(a);
    let y = text::lowered(b);
    if a.len() == b.len() && forall|i: int|
        0 <= i < a.len() ==> {
            ||| #[trigger] a[i] == b[i]
            ||| 'A' <= a[i] <= 'Z' && b[i] as int == a[i] as int + 32
            ||| 'A' <= b[i] <= 'Z' && a[i] as int == b[i] as int + 32
        } {
        assert forall|i: int| 0 <= i < x.len() implies x[i] == y[i] by {
            assert(a[i] == a[i]);
        }
        assert(x =~= y);
    }
    if x == y {
        assert(x.len() == a.len() && y.len() == b.len());
        assert forall|i: int| 0 <= i < a.len() implies {
            ||| #[trigger] a[i] == b[i]
            ||| 'A' <= a[i] <= 'Z' && b[i] as int == a[i] as int + 32
            ||| 'A' <= b[i] <= 'Z' && a[i] as int == b[i] as int + 32
        } by {
            assert(x[i] == text::lower(a[i]));
            assert(y[i] == text::lower(b[i]));
        }
    }
}

/// Unquoted identifiers name the same thing where they are the same word; a quoted one names what
/// it spells.
pub proof fn law_identifiers_are_folded(a: Tree, b: Tree)
    ensures
        token::field(a, "quote_style"@) == Tree::Null && token::field(b, "quote_style"@)
            == Tree::Null ==> (name_match::folded_ident(a) == name_match::folded_ident(b)
            <==> text::same_word(token::text_in(a, "value"@), token::text_in(b, "value"@))),
        token::field(a, "quote_style"@) != Tree::Null ==> name_match::folded_ident(a)
            == token::text_in(a, "value"@),
{
}

/// The list of identifiers that an object name is.
pub open spec fn object_name(parts: Seq<Tree>) -> Tree {
    Tree::List(parts.map_values(|p: Tree| syntax::variant("Identifier"@, p)))
}

/// An object name is read by its last identifier, and by the one before it where there is one.
pub proof fn law_object_names_are_read_from_the_end(parts: Seq<Tree>)
    requires
        parts.len() > 0,
    ensures
        name_match::normalized(object_name(parts)) == Some(
            (
                if parts.len() == 1 {
                    None
                } else {
                    Some(name_match::folded_ident(parts[parts.len() - 2]))
                },
                name_match::folded_ident(parts.last()),
            ),
        ),
{
    lemma_folded(parts);
}

proof fn lemma_folded(parts: Seq<Tree>)
    ensures
        name_match::folded_parts(name_match::items_of(object_name(parts))) == parts.map_values(
            |p: Tree| name_match::folded_ident(p),
        ),
    decreases parts.len(),
{
    let items = name_match::items_of(object_name(parts));
    let all = parts.map_values(|p: Tree| name_match::folded_ident(p));
    if parts.len() == 0 {
        assert(items =~= seq![]);
        assert(all =~= seq![]);
    } else {
        let front = parts.drop_last();
        lemma_folded(front);
        assert(items.drop_last() =~= name_match::items_of(object_name(front)));
        assert(items.last() == syntax::variant("Identifier"@, parts.last()));
        assert(syntax::member(items.last(), "Identifier"@) == Some(parts.last()));
        assert(all =~= front.map_values(|p: Tree| name_match::folded_ident(p)).push(
            name_match::folded_ident(parts.last()),
        ));
    }
}

/// Names match where the last parts are the same, and the schemas are too unless one is missing.
pub proof fn law_names_match(schema: Seq<char>, other: Seq<char>, name: Seq<char>, rest: Seq<char>)
    ensures
        name_match::matching((None, name), (None, rest)) == (name == rest),
        name_match::matching((Some(schema), name), (None, rest)) == (name == rest),
        name_match::matching((None, name), (Some(schema), rest)) == (name == rest),
        name_match::matching((Some(schema), name), (Some(other), rest)) == (name == rest && schema
            == other),
{
}

/// Whether a text is a plain word: no dot, no quote and no white space in it, and not empty.
pub open spec fn is_plain_word(s: Seq<char>) -> bool {
    s.len() > 0 && forall|i: int|
        0 <= i < s.len() ==> (#[trigger] s[i]) != '.' && s[i] != '"' && !text::white(s[i])
}

proof fn lemma_trimmed(s: Seq<char>)
    requires
        s.len() > 0,
        !text::white(s[0]),
        !text::white(s.last()),
    ensures
        text::trimmed(s) == s,
{
}

proof fn lemma_no_dot(s: Seq<char>)
    requires
        forall|i: int| 0 <= i < s.len() ==> (#[trigger] s[i]) != '.' && s[i] != '"',
    ensures
        name_match::last_dot(s) is None,
        !name_match::in_quotes(s),
    decreases s.len(),
{
    if s.len() > 0 {
        assert(s.last() == s[s.len() - 1]);
        lemma_no_dot(s.drop_last());
    }
}

proof fn lemma_one_dot(a: Seq<char>, b: Seq<char>)
    requires
        is_plain_word(a),
        forall|i: int| 0 <= i < b.len() ==> (#[trigger] b[i]) != '.' && b[i] != '"',
    ensures
        name_match::last_dot(a + seq!['.'] + b) == Some(a.len() as int),
    decreases b.len(),
{
    let s = a + seq!['.'] + b;
    if b.len() == 0 {
        assert(s.drop_last() =~= a);
        lemma_no_dot(a);
    } else {
        assert(s.drop_last() =~= a + seq!['.'] + b.drop_last());
        assert(s.last() == b[b.len() - 1]);
        lemma_one_dot(a, b.drop_last());
    }
}

/// A name that stands in text is read as the same name in a syntax tree is: as a word, or as a
/// schema, a dot and a word.
pub proof fn law_names_in_text_are_read_as_in_trees(a: Seq<char>, b: Seq<char>, x: Tree, y: Tree)
    requires
        is_plain_word(a),
        is_plain_word(b),
        token::text_in(x, "value"@) == a,
        token::text_in(y, "value"@) == b,
        token::field(x, "quote_style"@) == Tree::Null,
        token::field(y, "quote_style"@) == Tree::Null,
    ensures
        Some(name_match::normalized_text(b)) == name_match::normalized(object_name(seq![y])),
        Some(name_match::normalized_text(a + seq!['.'] + b)) == name_match::normalized(
            object_name(seq![x, y]),
        ),
{
    law_object_names_are_read_from_the_end(seq![y]);
    law_object_names_are_read_from_the_end(seq![x, y]);
    let s = a + seq!['.'] + b;
    assert(!text::white(a[0]) && !text::white(a[a.len() - 1]));
    assert(!text::white(b[0]) && !text::white(b[b.len() - 1]));
    assert(a[0] != '"' && b[0] != '"');
    lemma_trimmed(a);
    lemma_trimmed(b);
    assert(s[0] == a[0] && s.last() == b[b.len() - 1]);
    lemma_trimmed(s);
    lemma_no_dot(b);
    lemma_one_dot(a, b);
    assert(s.take(a.len() as int) =~= a);
    assert(s.skip(a.len() as int + 1) =~= b);
}

/// A quoted name in text is what stands between the quotes, in its own case.
pub proof fn law_quoted_names_in_text_stay(b: Seq<char>)
    requires
        forall|i: int| 0 <= i < b.len() ==> (#[trigger] b[i]) != '"',
    ensures
        name_match::folded_text(seq!['"'] + b + seq!['"']) == b,
{
    let s = seq!['"'] + b + seq!['"'];
    assert(s[0] == '"' && s.last() == '"');
    assert(!text::white('"'));
    lemma_trimmed(s);
    assert(s.subrange(1, s.len() - 1) =~= b);
    lemma_undoubled(b);
}

proof fn lemma_undoubled(b: Seq<char>)
    requires
        forall|i: int| 0 <= i < b.len() ==> (#[trigger] b[i]) != '"',
    ensures
        name_match::undoubled(b) == b,
    decreases b.len(),
{
    if b.len() > 0 {
        let rest = b.skip(1);
        assert forall|i: int| 0 <= i < rest.len() implies (#[trigger] rest[i]) != '"' by {
            assert(rest[i] == b[i + 1]);
        }
        assert(b[0] != '"');
        lemma_undoubled(rest);
        assert(seq![b[0]] + rest =~= b);
    }
}

/// Two quotes in a quoted name are one.
pub proof fn law_doubled_quotes_are_one(a: Seq<char>, b: Seq<char>)
    requires
        forall|i: int| 0 <= i < a.len() ==> (#[trigger] a[i]) != '"',
    ensures
        name_match::undoubled(a + seq!['"', '"'] + b) == a + seq!['"'] + name_match::undoubled(b),
    decreases a.len(),
{
    let s = a + seq!['"', '"'] + b;
    if a.len() == 0 {
        assert(s.skip(2) =~= b);
        assert(seq!['"'] + name_match::undoubled(b) =~= a + seq!['"'] + name_match::undoubled(b));
    } else {
        let rest = a.skip(1);
        assert forall|i: int| 0 <= i < rest.len() implies (#[trigger] rest[i]) != '"' by {
            assert(rest[i] == a[i + 1]);
        }
        assert(a[0] != '"');
        assert(s[0] == a[0]);
        law_doubled_quotes_are_one(rest, b);
        assert(s.skip(1) =~= rest + seq!['"', '"'] + b);
        assert(seq![a[0]] + (rest + seq!['"'] + name_match::undoubled(b)) =~= a + seq!['"']
            + name_match::undoubled(b));
    }
}

} // verus!
