//! Lists of names in order.

use vstd::prelude::*;

use crate::text::{self, chars_of, same};

verus! {

/// Whether a name comes before another: by the first character in which they differ, or because
/// it is the beginning of the other.
pub open spec fn comes_before(a: Seq<char>, b: Seq<char>) -> bool
    decreases a.len(),
{
    if b.len() == 0 {
        false
    } else if a.len() == 0 {
        true
    } else if a[0] != b[0] {
        a[0] < b[0]
    } else {
        comes_before(a.skip(1), b.skip(1))
    }
}

/// Names in order with one more in its place, unless it is among them.
pub open spec fn placed(names: Seq<Seq<char>>, name: Seq<char>) -> Seq<Seq<char>>
    decreases names.len(),
{
    if names.len() == 0 {
        seq![name]
    } else if names.last() == name {
        names
    } else if comes_before(names.last(), name) {
        names.push(name)
    } else {
        placed(names.drop_last(), name).push(names.last())
    }
}

/// The names in order, each once.
pub open spec fn in_order(names: Seq<Seq<char>>) -> Seq<Seq<char>>
    decreases names.len(),
{
    if names.len() == 0 {
        seq![]
    } else {
        placed(in_order(names.drop_last()), names.last())
    }
}

/// Whether a name comes before another.
pub fn is_before(a: &str, b: &str) -> (r: bool)
    ensures
        r == comes_before(a@, b@),
{
    let x = chars_of(a);
    let y = chars_of(b);
    let mut i: usize = 0;
    proof {
        assert(a@.skip(0) =~= a@);
        assert(b@.skip(0) =~= b@);
    }
    while i < x.len() && i < y.len() && x[i] == y[i]
        invariant
            i <= x@.len(),
            i <= y@.len(),
            x@ == a@,
            y@ == b@,
            comes_before(a@, b@) == comes_before(a@.skip(i as int), b@.skip(i as int)),
        decreases x@.len() - i,
    {
        proof {
            assert(a@.skip(i as int).skip(1) =~= a@.skip(i + 1));
            assert(b@.skip(i as int).skip(1) =~= b@.skip(i + 1));
        }
        i += 1;
    }
    if i == y.len() {
        false
    } else if i == x.len() {
        true
    } else {
        x[i] < y[i]
    }
}

/// Puts a name in its place among names in order.
pub(crate) fn place(names: &mut Vec<String>, name: &str)
    ensures
        text::views(final(names)@) == placed(text::views(old(names)@), name@),
{
    let ghost vs = text::views(names@);
    let mut at: usize = names.len();
    proof {
        assert(vs.take(at as int) =~= vs);
        assert(placed(vs.take(at as int), name@) + vs.skip(at as int) =~= placed(vs, name@));
    }
    while at > 0 && !same(names[at - 1].as_str(), name) && !is_before(names[at - 1].as_str(), name)
        invariant
            at <= names@.len(),
            vs == text::views(names@),
            placed(vs, name@) == placed(vs.take(at as int), name@) + vs.skip(at as int),
        decreases at,
    {
        at -= 1;
        proof {
            let longer = vs.take(at + 1);
            assert(longer.drop_last() =~= vs.take(at as int));
            assert(longer.last() == names@[at as int]@);
            assert(placed(longer, name@) == placed(vs.take(at as int), name@).push(vs[at as int]));
            assert(placed(longer, name@) + vs.skip(at + 1) =~= placed(vs.take(at as int), name@)
                + vs.skip(at as int));
        }
    }
    proof {
        let front = vs.take(at as int);
        if at > 0 {
            assert(front.last() == names@[at - 1]@);
        }
        assert(front + vs.skip(at as int) =~= vs);
        assert(front.push(name@) + vs.skip(at as int) =~= vs.insert(at as int, name@));
    }
    if at > 0 && same(names[at - 1].as_str(), name) {
        return ;
    }
    proof {
        let front = vs.take(at as int);
        if at == 0 {
            assert(front.push(name@) =~= seq![name@]);
        }
        assert(placed(front, name@) == front.push(name@));
    }
    names.insert(at, name.to_owned());
    proof {
        assert(text::views(names@) =~= vs.insert(at as int, name@));
    }
}

/// Whether each name comes before those behind it.
pub open spec fn is_ordered(names: Seq<Seq<char>>) -> bool {
    forall|i: int, j: int| 0 <= i < j < names.len() ==> comes_before(names[i], names[j])
}

proof fn lemma_before_transitive(a: Seq<char>, b: Seq<char>, c: Seq<char>)
    requires
        comes_before(a, b),
        comes_before(b, c),
    ensures
        comes_before(a, c),
    decreases a.len(),
{
    if a.len() > 0 && b.len() > 0 && c.len() > 0 && a[0] == b[0] && b[0] == c[0] {
        lemma_before_transitive(a.skip(1), b.skip(1), c.skip(1));
    }
}

proof fn lemma_before_total(a: Seq<char>, b: Seq<char>)
    ensures
        comes_before(a, b) || comes_before(b, a) || a == b,
    decreases a.len(),
{
    if a.len() > 0 && b.len() > 0 && a[0] == b[0] {
        lemma_before_total(a.skip(1), b.skip(1));
        if a.skip(1) == b.skip(1) {
            assert(seq![a[0]] + a.skip(1) =~= a);
            assert(seq![b[0]] + b.skip(1) =~= b);
        }
    } else if a.len() == 0 && b.len() == 0 {
        assert(a =~= b);
    }
}

/// A name put in its place leaves the names in order.
pub proof fn lemma_placed(names: Seq<Seq<char>>, name: Seq<char>)
    requires
        is_ordered(names),
    ensures
        is_ordered(placed(names, name)),
        forall|x: Seq<char>| #[trigger]
            placed(names, name).contains(x) <==> names.contains(x) || x == name,
    decreases names.len(),
{
    let after = placed(names, name);
    if names.len() == 0 {
        assert(after[0] == name);
    } else if names.last() == name {
        assert(names[names.len() - 1] == name);
    } else if comes_before(names.last(), name) {
        assert forall|i: int, j: int| 0 <= i < j < after.len() implies comes_before(
            after[i],
            after[j],
        ) by {
            if j == names.len() && i < names.len() - 1 {
                lemma_before_transitive(names[i], names.last(), name);
            }
        }
        assert forall|x: Seq<char>| #[trigger] after.contains(x) implies names.contains(x) || x
            == name by {
            let i = choose|i: int| 0 <= i < after.len() && after[i] == x;
            if i < names.len() {
                assert(names[i] == x);
            }
        }
        assert forall|x: Seq<char>| names.contains(x) || x == name implies #[trigger] after.contains(
            x,
        ) by {
            if x == name {
                assert(after[names.len() as int] == x);
            } else {
                let i = choose|i: int| 0 <= i < names.len() && names[i] == x;
                assert(after[i] == x);
            }
        }
    } else {
        let front = names.drop_last();
        lemma_before_total(names.last(), name);
        lemma_placed(front, name);
        let inner = placed(front, name);
        assert forall|i: int| 0 <= i < inner.len() implies comes_before(
            #[trigger] inner[i],
            names.last(),
        ) by {
            assert(inner.contains(inner[i]));
            if front.contains(inner[i]) {
                let k = choose|k: int| 0 <= k < front.len() && front[k] == inner[i];
                assert(names[k] == inner[i]);
            }
        }
        assert forall|x: Seq<char>| #[trigger] after.contains(x) implies names.contains(x) || x
            == name by {
            let i = choose|i: int| 0 <= i < after.len() && after[i] == x;
            if i < inner.len() {
                assert(inner[i] == x);
                assert(inner.contains(x));
                if front.contains(x) {
                    let k = choose|k: int| 0 <= k < front.len() && front[k] == x;
                    assert(names[k] == x);
                }
            } else {
                assert(names[names.len() - 1] == x);
            }
        }
        assert forall|x: Seq<char>| names.contains(x) || x == name implies #[trigger] after.contains(
            x,
        ) by {
            if x == names.last() && x != name {
                assert(after[inner.len() as int] == x);
            } else {
                if x != name {
                    let k = choose|k: int| 0 <= k < names.len() && names[k] == x;
                    assert(front[k] == x);
                }
                assert(inner.contains(x));
                let i = choose|i: int| 0 <= i < inner.len() && inner[i] == x;
                assert(after[i] == x);
            }
        }
    }
}

/// Names in order are the names, each before those behind it: none is lost and none comes twice.
pub proof fn law_names_in_order(names: Seq<Seq<char>>)
    ensures
        is_ordered(in_order(names)),
        forall|x: Seq<char>| #[trigger] in_order(names).contains(x) <==> names.contains(x),
    decreases names.len(),
{
    if names.len() > 0 {
        let front = names.drop_last();
        law_names_in_order(front);
        lemma_placed(in_order(front), names.last());
        assert forall|x: Seq<char>| #[trigger] in_order(names).contains(x) <==> names.contains(
            x,
        ) by {
            if names.contains(x) && x != names.last() {
                let k = choose|k: int| 0 <= k < names.len() && names[k] == x;
                assert(front[k] == x);
            }
            if front.contains(x) {
                let k = choose|k: int| 0 <= k < front.len() && front[k] == x;
                assert(names[k] == x);
            }
            assert(names.contains(names[names.len() - 1]));
        }
    }
}

} // verus!
