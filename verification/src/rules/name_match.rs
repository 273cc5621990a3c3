//! Names that relate statements to each other: folding, qualified names, and the choice among
//! candidates.

use serde_json::Value;
use vstd::prelude::*;

use crate::split::{self, Part};
use crate::syntax::{self, as_list, as_text, get, is_null, parse, Dialect, Tree};
use crate::text::{self, chars_of, same, slice_text, to_lower, trim};
use crate::token;

verus! {

/// A name with its optional schema, folded as PostgreSQL folds it, so that equal texts mean the
/// same object.
pub type NameRef = (Option<String>, String);

/// The model of a [`NameRef`].
pub type NameView = (Option<Seq<char>>, Seq<char>);

/// The model of a name.
pub open spec fn name_view(n: NameRef) -> NameView {
    (
        match n.0 {
            Some(s) => Some(s@),
            None => None,
        },
        n.1@,
    )
}

/// The models of a list of names.
pub open spec fn name_views(ns: Seq<NameRef>) -> Seq<NameView> {
    ns.map_values(|n: NameRef| name_view(n))
}

/// An identifier as PostgreSQL reads it: a quoted one as it stands, an unquoted one in lower
/// case.
pub open spec fn folded_ident(ident: Tree) -> Seq<char> {
    if token::field(ident, "quote_style"@) != Tree::Null {
        token::text_in(ident, "value"@)
    } else {
        text::lowered(token::text_in(ident, "value"@))
    }
}

/// The folded identifiers of an object name; parts of any other kind are left out.
pub open spec fn folded_parts(parts: Seq<Tree>) -> Seq<Seq<char>>
    decreases parts.len(),
{
    if parts.len() == 0 {
        seq![]
    } else {
        let before = folded_parts(parts.drop_last());
        match syntax::member(parts.last(), "Identifier"@) {
            Some(ident) => before.push(folded_ident(ident)),
            None => before,
        }
    }
}

/// The items of a list; none for any other tree.
pub open spec fn items_of(t: Tree) -> Seq<Tree> {
    match t {
        Tree::List(items) => items,
        _ => seq![],
    }
}

/// An object name by its last identifier and the one before it, if there is one.
pub open spec fn normalized(name: Tree) -> Option<NameView> {
    let parts = folded_parts(items_of(name));
    if parts.len() == 0 {
        None
    } else if parts.len() == 1 {
        Some((None, parts[0]))
    } else {
        Some((Some(parts[parts.len() - 2]), parts.last()))
    }
}

/// Folds an identifier of the syntax tree.
pub fn fold_ident(ident: &Value) -> (r: String)
    ensures
        r@ == folded_ident(syntax::tree(*ident)),
{
    let value = match get(ident, "value") {
        Some(v) => match as_text(v) {
            Some(s) => s.to_owned(),
            None => String::new(),
        },
        None => String::new(),
    };
    proof {
        assert(value@ =~= token::text_in(syntax::tree(*ident), "value"@));
    }
    let quoted = match get(ident, "quote_style") {
        Some(q) => !is_null(q),
        None => false,
    };
    if quoted {
        value
    } else {
        to_lower(value.as_str())
    }
}

/// The name and schema of an object name of the syntax tree.
pub fn normalize_object_name(name: &Value) -> (r: Option<NameRef>)
    ensures
        match (r, normalized(syntax::tree(*name))) {
            (Some(n), Some(v)) => name_view(n) == v,
            (None, None) => true,
            _ => false,
        },
{
    let parts = match as_list(name) {
        Some(parts) => parts,
        None => {
            return None;
        },
    };
    let ghost ts = syntax::trees(parts@);
    let mut folded: Vec<String> = Vec::new();
    let mut i: usize = 0;
    proof {
        assert(ts.take(0) =~= seq![]);
        assert(text::views(folded@) =~= seq![]);
    }
    while i < parts.len()
        invariant
            i <= parts@.len(),
            ts == syntax::trees(parts@),
            text::views(folded@) == folded_parts(ts.take(i as int)),
        decreases parts@.len() - i,
    {
        proof {
            assert(ts.take(i + 1).drop_last() =~= ts.take(i as int));
            assert(ts.take(i + 1).last() == ts[i as int]);
        }
        if let Some(ident) = get(&parts[i], "Identifier") {
            let ghost before = folded@;
            let name = fold_ident(ident);
            folded.push(name);
            proof {
                assert(text::views(folded@) =~= text::views(before).push(name@));
            }
        }
        i += 1;
    }
    proof {
        assert(ts.take(i as int) =~= ts);
        assert(text::views(folded@).len() == folded@.len());
    }
    let count: usize = folded.len();
    if count == 0 {
        None
    } else if count == 1 {
        proof {
            assert(text::views(folded@)[0] == folded@[0]@);
        }
        Some((None, folded[0].clone()))
    } else {
        proof {
            assert(text::views(folded@)[count - 2] == folded@[count - 2]@);
            assert(text::views(folded@).last() == folded@[count - 1]@);
        }
        Some((Some(folded[count - 2].clone()), folded[count - 1].clone()))
    }
}

/// `s` with every `""` read as one `"`, from the left.
pub open spec fn undoubled(s: Seq<char>) -> Seq<char>
    decreases s.len(),
{
    if s.len() == 0 {
        seq![]
    } else if s.len() >= 2 && s[0] == '"' && s[1] == '"' {
        seq!['"'] + undoubled(s.skip(2))
    } else {
        seq![s[0]] + undoubled(s.skip(1))
    }
}

/// One part of a name in text: a quoted one without its quotes, an unquoted one in lower case.
pub open spec fn folded_text(segment: Seq<char>) -> Seq<char> {
    let t = text::trimmed(segment);
    if t.len() >= 2 && t[0] == '"' && t.last() == '"' {
        undoubled(t.subrange(1, t.len() - 1))
    } else {
        text::lowered(t)
    }
}

/// `chars[from..to]` with every `""` read as one `"`.
fn undouble(chars: &Vec<char>, from: usize, to: usize) -> (r: String)
    requires
        from <= to <= chars@.len(),
    ensures
        r@ == undoubled(chars@.subrange(from as int, to as int)),
{
    let mut out = String::new();
    let mut i: usize = from;
    let ghost all = undoubled(chars@.subrange(from as int, to as int));
    proof {
        assert(out@ + all =~= all);
    }
    while i < to
        invariant
            from <= i <= to <= chars@.len(),
            all == out@ + undoubled(chars@.subrange(i as int, to as int)),
        decreases to - i,
    {
        let ghost rest = chars@.subrange(i as int, to as int);
        let ghost held = out@;
        let c = chars[i];
        out.push(c);
        if c == '"' && to - i >= 2 && chars[i + 1] == '"' {
            i += 2;
            proof {
                assert(rest.skip(2) =~= chars@.subrange(i as int, to as int));
            }
        } else {
            i += 1;
            proof {
                assert(rest.skip(1) =~= chars@.subrange(i as int, to as int));
            }
        }
        proof {
            let next = undoubled(chars@.subrange(i as int, to as int));
            assert(held + (seq![c] + next) =~= out@ + next);
        }
    }
    proof {
        assert(chars@.subrange(i as int, to as int) =~= seq![]);
        assert(out@ =~= all);
    }
    out
}

/// Folds one part of a name that stands in text. A part in `"..."` keeps its case, with `""`
/// read as `"`.
pub fn fold_text_ident(segment: &str) -> (r: String)
    ensures
        r@ == folded_text(segment@),
{
    let t = trim(segment);
    let chars = chars_of(t.as_str());
    let size: usize = chars.len();
    if size >= 2 && chars[0] == '"' && chars[size - 1] == '"' {
        undouble(&chars, 1, size - 1)
    } else {
        to_lower(t.as_str())
    }
}

/// Whether an odd number of quotes stands in `s`.
pub open spec fn in_quotes(s: Seq<char>) -> bool
    decreases s.len(),
{
    if s.len() == 0 {
        false
    } else if s.last() == '"' {
        !in_quotes(s.drop_last())
    } else {
        in_quotes(s.drop_last())
    }
}

/// The last dot of `s` that stands outside quotes.
pub open spec fn last_dot(s: Seq<char>) -> Option<int>
    decreases s.len(),
{
    if s.len() == 0 {
        None
    } else if s.last() == '.' && !in_quotes(s.drop_last()) {
        Some(s.len() - 1)
    } else {
        last_dot(s.drop_last())
    }
}

/// The texts before and behind the last dot outside quotes.
pub open spec fn rsplit_dot(s: Seq<char>) -> Option<(Seq<char>, Seq<char>)> {
    match last_dot(s) {
        Some(i) => Some((s.take(i), s.skip(i + 1))),
        None => None,
    }
}

/// Splits at the last dot, but not inside a quoted part: `public."my.tbl"` is `public` and
/// `"my.tbl"`.
pub fn rsplit_dot_outside_quotes(s: &str) -> (r: Option<(String, String)>)
    ensures
        match (r, rsplit_dot(s@)) {
            (Some((a, b)), Some((x, y))) => a@ == x && b@ == y,
            (None, None) => true,
            _ => false,
        },
{
    let chars = chars_of(s);
    let mut quoted = false;
    let mut dot: Option<usize> = None;
    let mut i: usize = 0;
    while i < chars.len()
        invariant
            i <= chars@.len(),
            quoted == in_quotes(chars@.take(i as int)),
            match (dot, last_dot(chars@.take(i as int))) {
                (Some(a), Some(b)) => a == b && a < i,
                (None, None) => true,
                _ => false,
            },
        decreases chars@.len() - i,
    {
        proof {
            assert(chars@.take(i + 1).drop_last() =~= chars@.take(i as int));
        }
        if chars[i] == '"' {
            quoted = !quoted;
        } else if chars[i] == '.' && !quoted {
            dot = Some(i);
        }
        i += 1;
    }
    proof {
        assert(chars@.take(i as int) =~= chars@);
    }
    match dot {
        Some(at) => {
            proof {
                assert(chars@.subrange(0, at as int) =~= s@.take(at as int));
                assert(chars@.subrange(at + 1, chars@.len() as int) =~= s@.skip(at + 1));
            }
            Some((slice_text(&chars, 0, at), slice_text(&chars, at + 1, chars.len())))
        },
        None => None,
    }
}

/// A name in text, with or without a schema and quotes, folded.
pub open spec fn normalized_text(s: Seq<char>) -> NameView {
    match rsplit_dot(text::trimmed(s)) {
        Some((schema, name)) => (Some(folded_text(schema)), folded_text(name)),
        None => (None, folded_text(text::trimmed(s))),
    }
}

/// The name and schema of a name that stands in text, as `normalize_object_name` gives them for
/// one of the syntax tree.
pub fn normalize_dotted_identifier(s: &str) -> (r: NameRef)
    ensures
        name_view(r) == normalized_text(s@),
{
    let t = trim(s);
    match rsplit_dot_outside_quotes(t.as_str()) {
        Some((schema, name)) => (
            Some(fold_text_ident(schema.as_str())),
            fold_text_ident(name.as_str()),
        ),
        None => (None, fold_text_ident(t.as_str())),
    }
}

/// Whether two names can mean the same object: the names are equal, and the schemas where both
/// are given.
pub open spec fn matching(a: NameView, b: NameView) -> bool {
    a.1 == b.1 && (a.0 is Some && b.0 is Some ==> a.0 == b.0)
}

/// Whether two names can mean the same object. A missing schema matches any: a dump may write
/// `public.t` in one statement and `t` in another.
pub fn refs_match(a: &NameRef, b: &NameRef) -> (r: bool)
    ensures
        r == matching(name_view(*a), name_view(*b)),
{
    if !same(a.1.as_str(), b.1.as_str()) {
        return false;
    }
    match (&a.0, &b.0) {
        (Some(x), Some(y)) => same(x.as_str(), y.as_str()),
        _ => true,
    }
}

/// Whether a candidate matches and is eligible.
pub open spec fn candidate(
    names: Seq<NameView>,
    eligible: Seq<bool>,
    target: NameView,
    i: int,
) -> bool {
    0 <= i < names.len() && i < eligible.len() && eligible[i] && matching(names[i], target)
}

/// Whether a candidate matches with its schema.
pub open spec fn exact_candidate(
    names: Seq<NameView>,
    eligible: Seq<bool>,
    target: NameView,
    i: int,
) -> bool {
    candidate(names, eligible, target, i) && names[i].0 is Some && target.0 is Some
}

/// Whether `r` is the best match: the first candidate that matches with its schema or, where
/// there is none, the first that matches at all.
pub open spec fn is_best_match(
    names: Seq<NameView>,
    eligible: Seq<bool>,
    target: NameView,
    r: Option<int>,
) -> bool {
    match r {
        Some(i) => {
            ||| exact_candidate(names, eligible, target, i) && forall|j: int|
                j < i ==> !exact_candidate(names, eligible, target, j)
            ||| candidate(names, eligible, target, i) && (forall|j: int|
                j < i ==> !candidate(names, eligible, target, j)) && (forall|j: int|
                !exact_candidate(names, eligible, target, j))
        },
        None => forall|j: int| !candidate(names, eligible, target, j),
    }
}

/// Whether a candidate matches; with its schema where `exact` asks for that.
pub open spec fn fits(
    names: Seq<NameView>,
    eligible: Seq<bool>,
    target: NameView,
    exact: bool,
    i: int,
) -> bool {
    if exact {
        exact_candidate(names, eligible, target, i)
    } else {
        candidate(names, eligible, target, i)
    }
}

/// The first candidate at or behind `at`; with its schema where `exact` asks for that.
pub open spec fn first_candidate(
    names: Seq<NameView>,
    eligible: Seq<bool>,
    target: NameView,
    exact: bool,
    at: int,
) -> Option<int>
    decreases names.len() - at,
{
    if at >= names.len() {
        None
    } else if fits(names, eligible, target, exact, at) {
        Some(at)
    } else {
        first_candidate(names, eligible, target, exact, at + 1)
    }
}

/// The best match: the first candidate that matches with its schema or, where there is none,
/// the first that matches at all.
pub open spec fn best_match(
    names: Seq<NameView>,
    eligible: Seq<bool>,
    target: NameView,
) -> Option<int> {
    match first_candidate(names, eligible, target, true, 0) {
        Some(i) => Some(i),
        None => first_candidate(names, eligible, target, false, 0),
    }
}

proof fn lemma_first_candidate(
    names: Seq<NameView>,
    eligible: Seq<bool>,
    target: NameView,
    exact: bool,
    at: int,
)
    requires
        0 <= at,
    ensures
        match first_candidate(names, eligible, target, exact, at) {
            Some(i) => at <= i && fits(names, eligible, target, exact, i) && forall|j: int|
                at <= j < i ==> !#[trigger] fits(names, eligible, target, exact, j),
            None => forall|j: int| at <= j ==> !#[trigger] fits(names, eligible, target, exact, j),
        },
    decreases names.len() - at,
{
    if at < names.len() {
        lemma_first_candidate(names, eligible, target, exact, at + 1);
    }
}

/// The best match is the first candidate that matches with its schema or, where no candidate
/// does, the first that matches at all; there is none only where no candidate matches.
pub proof fn law_best_match_prefers_the_schema(
    names: Seq<NameView>,
    eligible: Seq<bool>,
    target: NameView,
)
    ensures
        is_best_match(names, eligible, target, best_match(names, eligible, target)),
{
    lemma_first_candidate(names, eligible, target, true, 0);
    lemma_first_candidate(names, eligible, target, false, 0);
    assert forall|j: int| candidate(names, eligible, target, j) implies fits(
        names,
        eligible,
        target,
        false,
        j,
    ) && exact_candidate(names, eligible, target, j) == fits(names, eligible, target, true, j) by {}
}

/// The best match for `target` among `names`, of which only the eligible ones count. One with
/// the same schema is preferred: beside `t` and `public.t`, a reference to `public.t` means the
/// qualified one, wherever it stands.
pub fn pick_best_match(names: &Vec<NameRef>, eligible: &Vec<bool>, target: &NameRef) -> (r: Option<
    usize,
>)
    requires
        names@.len() == eligible@.len(),
    ensures
        match (r, best_match(name_views(names@), eligible@, name_view(*target))) {
            (Some(i), Some(j)) => i == j && i < names@.len(),
            (None, None) => true,
            _ => false,
        },
{
    let ghost ns = name_views(names@);
    let ghost t = name_view(*target);
    let mut wildcard: Option<usize> = None;
    let mut i: usize = 0;
    while i < names.len()
        invariant
            i <= names@.len() == eligible@.len(),
            ns == name_views(names@),
            t == name_view(*target),
            forall|j: int| j < i ==> !exact_candidate(ns, eligible@, t, j),
            match wildcard {
                Some(w) => w < i && candidate(ns, eligible@, t, w as int) && forall|j: int|
                    j < w ==> !candidate(ns, eligible@, t, j),
                None => forall|j: int| j < i ==> !candidate(ns, eligible@, t, j),
            },
        decreases names@.len() - i,
    {
        if eligible[i] && refs_match(&names[i], target) {
            if names[i].0.is_some() && target.0.is_some() {
                proof {
                    law_best_match_prefers_the_schema(ns, eligible@, t);
                    law_best_match_is_unique(
                        ns,
                        eligible@,
                        t,
                        Some(i as int),
                        best_match(ns, eligible@, t),
                    );
                }
                return Some(i);
            }
            if wildcard.is_none() {
                wildcard = Some(i);
            }
        }
        i += 1;
    }
    proof {
        let found = match wildcard {
            Some(w) => Some(w as int),
            None => None,
        };
        law_best_match_prefers_the_schema(ns, eligible@, t);
        law_best_match_is_unique(ns, eligible@, t, found, best_match(ns, eligible@, t));
    }
    wildcard
}

/// The statements of every part that parses, each with the number of its part.
pub open spec fn parsed_parts(parts: Seq<(usize, Seq<char>)>) -> Seq<(Tree, int)>
    decreases parts.len(),
{
    if parts.len() == 0 {
        seq![]
    } else {
        parsed_parts(parts.drop_last()) + match syntax::statements(
            Dialect::Postgres,
            text::trimmed(parts.last().1),
        ) {
            Ok(ts) => Seq::new(ts.len(), |i: int| (ts[i], parts.len() - 1)),
            Err(_) => seq![],
        }
    }
}

/// Whether two lists are the statements and part numbers of `ps`.
pub open spec fn lists_parsed(stmts: Seq<Value>, origins: Seq<usize>, ps: Seq<(Tree, int)>) -> bool {
    &&& stmts.len() == ps.len()
    &&& origins.len() == ps.len()
    &&& forall|i: int|
        0 <= i < ps.len() ==> syntax::tree(stmts[i]) == (#[trigger] ps[i]).0 && origins[i]
            == ps[i].1
}

/// Every statement comes from one of the parts.
pub proof fn lemma_origins(parts: Seq<(usize, Seq<char>)>)
    ensures
        forall|i: int|
            0 <= i < parsed_parts(parts).len() ==> 0 <= (#[trigger] parsed_parts(parts)[i]).1
                < parts.len(),
    decreases parts.len(),
{
    if parts.len() > 0 {
        let before = parsed_parts(parts.drop_last());
        lemma_origins(parts.drop_last());
        assert forall|i: int| 0 <= i < parsed_parts(parts).len() implies 0 <= (
        #[trigger] parsed_parts(parts)[i]).1 < parts.len() by {
            assert(i < before.len() ==> parsed_parts(parts)[i] == before[i]);
        }
    }
}

/// Parses each part again and keeps which part each statement came from. A part that does not
/// parse is passed over here: it is reported where the statements are checked one by one.
pub fn parse_parts(parts: &Vec<Part>) -> (r: (Vec<Value>, Vec<usize>))
    ensures
        lists_parsed(r.0@, r.1@, parsed_parts(split::parts_view(parts@))),
{
    let ghost ps = split::parts_view(parts@);
    let mut parsed: Vec<Value> = Vec::new();
    let mut origins: Vec<usize> = Vec::new();
    let mut i: usize = 0;
    proof {
        assert(ps.take(0) =~= seq![]);
    }
    while i < parts.len()
        invariant
            i <= parts@.len(),
            ps == split::parts_view(parts@),
            lists_parsed(parsed@, origins@, parsed_parts(ps.take(i as int))),
        decreases parts@.len() - i,
    {
        let ghost before = parsed_parts(ps.take(i as int));
        let ghost now = parsed_parts(ps.take(i + 1));
        proof {
            assert(ps.take(i + 1).drop_last() =~= ps.take(i as int));
            assert(ps.take(i + 1).last() == ps[i as int]);
        }
        match parse(Dialect::Postgres, trim(parts[i].1.as_str()).as_str()) {
            Ok(stmts) => {
                let mut stmts = stmts;
                let ghost ts = syntax::trees(stmts@);
                let count: usize = stmts.len();
                let ghost held = origins@;
                parsed.append(&mut stmts);
                let mut k: usize = 0;
                while k < count
                    invariant
                        k <= count,
                        origins@.len() == held.len() + k,
                        forall|j: int|
                            0 <= j < origins@.len() ==> #[trigger] origins@[j] == if j < held.len() {
                                held[j]
                            } else {
                                i
                            },
                    decreases count - k,
                {
                    origins.push(i);
                    k += 1;
                }
                proof {
                    assert(now =~= before + Seq::new(ts.len(), |j: int| (ts[j], i as int)));
                }
            },
            Err(_) => {
                proof {
                    assert(now =~= before);
                }
            },
        }
        i += 1;
    }
    proof {
        assert(ps.take(i as int) =~= ps);
    }
    (parsed, origins)
}

/// A list without the items whose positions are in `gone`.
pub open spec fn without(parts: Seq<(usize, Seq<char>)>, gone: Seq<usize>) -> Seq<
    (usize, Seq<char>),
>
    decreases parts.len(),
{
    if parts.len() == 0 {
        seq![]
    } else if gone.contains((parts.len() - 1) as usize) {
        without(parts.drop_last(), gone)
    } else {
        without(parts.drop_last(), gone).push(parts.last())
    }
}

/// Whether a list of positions holds `x`.
fn holds(indices: &Vec<usize>, x: usize) -> (r: bool)
    ensures
        r == indices@.contains(x),
{
    let mut i: usize = 0;
    while i < indices.len()
        invariant
            i <= indices@.len(),
            forall|j: int| 0 <= j < i ==> indices@[j] != x,
        decreases indices@.len() - i,
    {
        if indices[i] == x {
            return true;
        }
        i += 1;
    }
    false
}

/// Drops the parts at `indices`, which may repeat and stand in any order.
pub fn drop_parts(parts: &mut Vec<Part>, indices: Vec<usize>)
    requires
        forall|i: int| 0 <= i < indices@.len() ==> (#[trigger] indices@[i]) < old(parts)@.len(),
    ensures
        split::parts_view(final(parts)@) == without(split::parts_view(old(parts)@), indices@),
{
    let ghost ps = split::parts_view(parts@);
    let mut kept: Vec<Part> = Vec::new();
    let mut i: usize = 0;
    proof {
        assert(ps.take(0) =~= seq![]);
        assert(split::parts_view(kept@) =~= seq![]);
    }
    while i < parts.len()
        invariant
            i <= parts@.len(),
            ps == split::parts_view(parts@),
            split::parts_view(kept@) == without(ps.take(i as int), indices@),
        decreases parts@.len() - i,
    {
        proof {
            assert(ps.take(i + 1).drop_last() =~= ps.take(i as int));
            assert(ps.take(i + 1).last() == ps[i as int]);
        }
        if !holds(&indices, i) {
            let ghost before = kept@;
            kept.push((parts[i].0, parts[i].1.clone()));
            proof {
                assert(split::parts_view(kept@) =~= split::parts_view(before).push(ps[i as int]));
            }
        }
        i += 1;
    }
    proof {
        assert(ps.take(i as int) =~= ps);
    }
    *parts = kept;
}

/// Matching goes both ways, and every name matches itself.
pub proof fn law_matching_is_symmetric(a: NameView, b: NameView)
    ensures
        matching(a, b) == matching(b, a),
        matching(a, a),
{
}

/// Between qualified names matching is equality.
pub proof fn law_qualified_names_match_exactly(a: NameView, b: NameView)
    requires
        a.0 is Some,
        b.0 is Some,
    ensures
        matching(a, b) == (a == b),
{
}

/// A best match is unique, and there is one as soon as some candidate matches.
pub proof fn law_best_match_is_unique(
    names: Seq<NameView>,
    eligible: Seq<bool>,
    target: NameView,
    r: Option<int>,
    s: Option<int>,
)
    requires
        is_best_match(names, eligible, target, r),
        is_best_match(names, eligible, target, s),
    ensures
        r == s,
        (exists|i: int| candidate(names, eligible, target, i)) ==> r is Some,
{
    if let (Some(i), Some(j)) = (r, s) {
        if i < j {
            assert(candidate(names, eligible, target, i));
        } else if j < i {
            assert(candidate(names, eligible, target, j));
        }
    }
}

/// Dropping nothing keeps everything.
pub proof fn law_dropping_nothing_keeps_all(parts: Seq<(usize, Seq<char>)>)
    ensures
        without(parts, seq![]) == parts,
    decreases parts.len(),
{
    if parts.len() > 0 {
        law_dropping_nothing_keeps_all(parts.drop_last());
        assert(parts.drop_last().push(parts.last()) =~= parts);
    } else {
        assert(without(parts, seq![]) =~= parts);
    }
}

/// Order and repetition of the positions do not matter: lists with the same positions drop the
/// same parts.
pub proof fn law_dropping_depends_on_the_set(
    parts: Seq<(usize, Seq<char>)>,
    a: Seq<usize>,
    b: Seq<usize>,
)
    requires
        forall|x: usize| a.contains(x) == b.contains(x),
    ensures
        without(parts, a) == without(parts, b),
    decreases parts.len(),
{
    if parts.len() > 0 {
        law_dropping_depends_on_the_set(parts.drop_last(), a, b);
    }
}

} // verus!
