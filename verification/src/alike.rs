//! Syntax trees that say the same, wherever the text that they were read from has its pieces.

use vstd::prelude::*;

use crate::rules::name_match;
use crate::syntax::{self, Tree};
use crate::token;
use crate::transactions;

verus! {

/// Whether a field tells where a piece stands, or which token it was read from.
pub open spec fn is_place(key: Seq<char>) -> bool {
    key == "span"@ || (key.len() > 6 && key.skip(key.len() - 6) == "_token"@)
}

/// Whether two trees say the same: they are equal, but for the fields that tell places.
pub open spec fn alike(a: Tree, b: Tree) -> bool
    decreases a,
{
    match (a, b) {
        (Tree::List(xs), Tree::List(ys)) => xs.len() == ys.len() && forall|i: int|
            0 <= i < xs.len() ==> alike(#[trigger] xs[i], ys[i]),
        (Tree::Record(f), Tree::Record(g)) => forall|k: Seq<char>|
            #![trigger f.dom().contains(k)]
            #![trigger g.dom().contains(k)]
            !is_place(k) ==> f.dom().contains(k) == g.dom().contains(k) && (f.dom().contains(k)
                ==> alike(f[k], g[k])),
        (Tree::List(_), _) => false,
        (Tree::Record(_), _) => false,
        _ => a == b,
    }
}

/// Whether two lists of trees say the same, tree by tree.
pub open spec fn all_alike(xs: Seq<Tree>, ys: Seq<Tree>) -> bool {
    xs.len() == ys.len() && forall|i: int| 0 <= i < xs.len() ==> alike(#[trigger] xs[i], ys[i])
}

/// Equal trees say the same.
pub proof fn law_alike_is_reflexive(a: Tree)
    ensures
        alike(a, a),
    decreases a,
{
    match a {
        Tree::List(xs) => {
            assert forall|i: int| 0 <= i < xs.len() implies alike(#[trigger] xs[i], xs[i]) by {
                law_alike_is_reflexive(xs[i]);
            }
        },
        Tree::Record(f) => {
            assert forall|k: Seq<char>| #[trigger] f.dom().contains(k) implies alike(
                f[k],
                f[k],
            ) by {
                law_alike_is_reflexive(f[k]);
            }
        },
        _ => {},
    }
}

/// A key that is known by a few of its letters to tell no place.
pub proof fn lemma_no_place(key: Seq<char>)
    requires
        key.len() != 4 || key[0] != 's' || key[1] != 'p',
        key.len() <= 6 || key[key.len() - 6] != '_' || key[key.len() - 1] != 'n',
    ensures
        !is_place(key),
{
    reveal_strlit("span");
    reveal_strlit("_token");
    assert("span"@[0] == 's' && "span"@[1] == 'p' && "span"@.len() == 4);
    assert("_token"@[0] == '_' && "_token"@[5] == 'n' && "_token"@.len() == 6);
    if key.len() > 6 && key.skip(key.len() - 6) == "_token"@ {
        let end = key.skip(key.len() - 6);
        assert(end[0] == key[key.len() - 6]);
        assert(end[5] == key[key.len() - 1]);
    }
}

/// Trees that say the same have the same fields, which say the same.
pub proof fn lemma_member(a: Tree, b: Tree, key: Seq<char>)
    requires
        alike(a, b),
        !is_place(key),
    ensures
        match (syntax::member(a, key), syntax::member(b, key)) {
            (Some(x), Some(y)) => alike(x, y),
            (None, None) => true,
            _ => false,
        },
        alike(token::field(a, key), token::field(b, key)),
        token::text_in(a, key) == token::text_in(b, key),
        transactions::is_kind(a, key) == transactions::is_kind(b, key),
{
    if let (Tree::Record(f), Tree::Record(g)) = (a, b) {
        assert(f.dom().contains(key) == g.dom().contains(key));
    }
}

/// Lists that say the same have items that do.
pub proof fn lemma_items(a: Tree, b: Tree)
    requires
        alike(a, b),
    ensures
        all_alike(name_match::items_of(a), name_match::items_of(b)),
{
}

} // verus!
