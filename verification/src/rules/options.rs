//! The caches of sequences and identity columns, and the isolation levels of transactions.

use serde_json::Value;
use vstd::prelude::*;

use crate::diagnostic::{self, Diagnostic, FixResult, LintRule};
use crate::mysql::literal::{self, parse_unsigned};
use crate::rules::errors::{self, read_plain_name};
use crate::rules::find_line;
use crate::rules::{name_match, serial_idiom};
use crate::shapes::{self, make_number, one};
use crate::syntax::{self, as_list, as_text, copy, get, is_null, list, put, string, Tree};
use crate::text::same;
use crate::token;

verus! {

/// Whether a sequence option sets the cache.
pub open spec fn is_cache(o: Tree) -> bool {
    syntax::member(o, "Cache"@) is Some
}

/// The digits of a number that stands as a cache without a sign.
pub open spec fn cache_digits(o: Tree) -> Option<Seq<char>> {
    let number = name_match::items_of(
        token::field(
            token::field(token::field(token::field(o, "Cache"@), "Value"@), "value"@),
            "Number"@,
        ),
    );
    if number.len() == 0 {
        None
    } else {
        match number[0] {
            Tree::Text(digits) => Some(digits),
            _ => None,
        }
    }
}

/// Whether DSQL takes a cache of this size: 1, or 65536 and more.
pub open spec fn takes_cache(o: Tree) -> bool {
    cache_digits(o) matches Some(digits) && (literal::unsigned(digits, 10) matches Some(n) && (n == 1
        || n >= 65536))
}

/// `CACHE 1`.
pub open spec fn one_cached() -> Tree {
    syntax::variant("Cache"@, shapes::number_expr("1"@))
}

/// Whether an option sets a cache that DSQL does not take.
pub open spec fn is_bad_cache(o: Tree) -> bool {
    is_cache(o) && !takes_cache(o)
}

/// Whether one of the options sets the cache.
pub open spec fn has_cache(os: Seq<Tree>) -> bool {
    exists|i: int| 0 <= i < os.len() && is_cache(#[trigger] os[i])
}

/// The options, each cache that DSQL does not take as a cache of 1.
pub open spec fn with_taken_caches(os: Seq<Tree>) -> Seq<Tree> {
    os.map_values(
        |o: Tree|
            if is_bad_cache(o) {
                one_cached()
            } else {
                o
            },
    )
}

/// The report on a cache that DSQL does not take.
pub open spec fn cache_report(raw: Seq<char>) -> diagnostic::DiagnosticView {
    diagnostic::DiagnosticView {
        rule: LintRule::SequenceCache,
        line: errors::word_line(raw, "cache"@),
        statement: seq![],
        message: "The CACHE of a sequence must be 1, or 65536 or more, in DSQL."@,
        suggestion: "Use CACHE 1 or CACHE 65536."@,
        fix_result: diagnostic::FixView::Fixed("Set CACHE 1."@),
    }
}

/// The report on a sequence without a cache.
pub open spec fn no_cache_report(raw: Seq<char>) -> diagnostic::DiagnosticView {
    diagnostic::DiagnosticView {
        rule: LintRule::SequenceCacheMissing,
        line: errors::word_line(raw, "sequence"@),
        statement: seq![],
        message: "CREATE SEQUENCE must give a CACHE in DSQL."@,
        suggestion: "Use CACHE 1 or CACHE 65536."@,
        fix_result: diagnostic::FixView::Fixed("Added CACHE 1."@),
    }
}

/// The reports on the caches that DSQL does not take.
pub open spec fn cache_reports(os: Seq<Tree>, raw: Seq<char>) -> Seq<diagnostic::DiagnosticView>
    decreases os.len(),
{
    if os.len() == 0 {
        seq![]
    } else if is_bad_cache(os.last()) {
        cache_reports(os.drop_last(), raw).push(cache_report(raw))
    } else {
        cache_reports(os.drop_last(), raw)
    }
}

/// The options of a sequence with a cache that DSQL takes, and the reports on them.
pub open spec fn cached(os: Seq<Tree>, raw: Seq<char>) -> (
    Seq<Tree>,
    Seq<diagnostic::DiagnosticView>,
) {
    if has_cache(os) {
        (with_taken_caches(os), cache_reports(os, raw))
    } else {
        (os.push(one_cached()), seq![no_cache_report(raw)])
    }
}

/// A sequence with a cache that DSQL takes; any other statement stays.
pub open spec fn cache_rule(t: Tree, raw: Seq<char>) -> (Tree, Seq<diagnostic::DiagnosticView>) {
    match syntax::member(t, "CreateSequence"@) {
        Some(cs) => match syntax::member(cs, "sequence_options"@) {
            Some(Tree::List(os)) => (
                syntax::with_member(
                    t,
                    "CreateSequence"@,
                    syntax::with_member(
                        cs,
                        "sequence_options"@,
                        Tree::List(cached(os, raw).0),
                    ),
                ),
                cached(os, raw).1,
            ),
            _ => (t, seq![]),
        },
        None => (t, seq![]),
    }
}

/// Whether a column option makes the column an identity column.
pub open spec fn is_identity(o: Tree) -> bool {
    syntax::member(token::field(o, "option"@), "Generated"@) matches Some(g) && token::field(
        g,
        "generation_expr"@,
    ) == Tree::Null
}

/// The sequence options of an identity column.
pub open spec fn generated_options(o: Tree) -> Seq<Tree> {
    name_match::items_of(
        token::field(
            token::field(token::field(o, "option"@), "Generated"@),
            "sequence_options"@,
        ),
    )
}

/// Whether a column option gives an identity column a cache that DSQL does not take.
pub open spec fn option_caches_badly(o: Tree) -> bool {
    is_identity(o) && exists|i: int|
        0 <= i < generated_options(o).len() && is_bad_cache(#[trigger] generated_options(o)[i])
}

/// The column option with a cache that DSQL takes.
pub open spec fn with_taken_option(o: Tree) -> Tree {
    if option_caches_badly(o) {
        let option = token::field(o, "option"@);
        syntax::with_member(
            o,
            "option"@,
            syntax::with_member(
                option,
                "Generated"@,
                syntax::with_member(
                    token::field(option, "Generated"@),
                    "sequence_options"@,
                    Tree::List(with_taken_caches(generated_options(o))),
                ),
            ),
        )
    } else {
        o
    }
}

/// The options of a column.
pub open spec fn column_options(c: Tree) -> Seq<Tree> {
    name_match::items_of(token::field(c, "options"@))
}

/// Whether a column is an identity column with a cache that DSQL does not take.
pub open spec fn caches_badly(c: Tree) -> bool {
    exists|i: int|
        0 <= i < column_options(c).len() && option_caches_badly(#[trigger] column_options(c)[i])
}

/// The column with a cache that DSQL takes.
pub open spec fn with_taken_cache(c: Tree) -> Tree {
    syntax::with_member(
        c,
        "options"@,
        Tree::List(column_options(c).map_values(|o: Tree| with_taken_option(o))),
    )
}

/// The report on an identity column with a cache that DSQL does not take.
pub open spec fn identity_report(column: Tree, raw: Seq<char>) -> diagnostic::DiagnosticView {
    let name = token::text_in(token::field(column, "name"@), "value"@);
    diagnostic::DiagnosticView {
        rule: LintRule::IdentityCache,
        line: errors::word_line(raw, "cache"@),
        statement: seq![],
        message: "Column `"@ + name
            + "`: the CACHE of an identity column must be 1, or 65536 or more, in DSQL."@,
        suggestion: "Use CACHE 1 or CACHE 65536."@,
        fix_result: diagnostic::FixView::Fixed("Set CACHE 1 on `"@ + name + "`."@),
    }
}

/// The isolation level that DSQL has.
pub open spec fn only_level() -> Tree {
    syntax::variant("IsolationLevel"@, Tree::Text("RepeatableRead"@))
}

/// Whether a transaction mode is an isolation level that DSQL does not have.
pub open spec fn is_bad_level(m: Tree) -> bool {
    syntax::member(m, "IsolationLevel"@) matches Some(level) && level != Tree::Text(
        "RepeatableRead"@,
    )
}

/// The modes with the isolation level that DSQL has.
pub open spec fn with_only_level(ms: Seq<Tree>) -> Seq<Tree> {
    ms.map_values(
        |m: Tree|
            if is_bad_level(m) {
                only_level()
            } else {
                m
            },
    )
}

/// The report on an isolation level that DSQL does not have.
pub open spec fn level_report(raw: Seq<char>) -> diagnostic::DiagnosticView {
    diagnostic::DiagnosticView {
        rule: LintRule::TransactionIsolation,
        line: errors::word_line(raw, "isolation"@),
        statement: seq![],
        message: "DSQL has no isolation level other than REPEATABLE READ."@,
        suggestion: "Use ISOLATION LEVEL REPEATABLE READ."@,
        fix_result: diagnostic::FixView::Fixed("Set ISOLATION LEVEL REPEATABLE READ."@),
    }
}

/// The reports on the isolation levels that DSQL does not have.
pub open spec fn level_reports(ms: Seq<Tree>, raw: Seq<char>) -> Seq<diagnostic::DiagnosticView>
    decreases ms.len(),
{
    if ms.len() == 0 {
        seq![]
    } else if is_bad_level(ms.last()) {
        level_reports(ms.drop_last(), raw).push(level_report(raw))
    } else {
        level_reports(ms.drop_last(), raw)
    }
}

/// The beginning of a transaction with the isolation level that DSQL has; any other statement
/// stays.
pub open spec fn level_rule(t: Tree, raw: Seq<char>) -> (Tree, Seq<diagnostic::DiagnosticView>) {
    match syntax::member(t, "StartTransaction"@) {
        Some(st) => match syntax::member(st, "modes"@) {
            Some(Tree::List(ms)) => (
                syntax::with_member(
                    t,
                    "StartTransaction"@,
                    syntax::with_member(st, "modes"@, Tree::List(with_only_level(ms))),
                ),
                level_reports(ms, raw),
            ),
            _ => (t, seq![]),
        },
        None => (t, seq![]),
    }
}

fn read_cache_digits<'a>(o: &'a Value) -> (r: Option<&'a str>)
    ensures
        match (r, cache_digits(syntax::tree(*o))) {
            (Some(s), Some(digits)) => s@ == digits,
            (None, None) => true,
            _ => false,
        },
{
    let value = match get(o, "Cache") {
        Some(c) => match get(c, "Value") {
            Some(v) => match get(v, "value") {
                Some(w) => w,
                None => {
                    return None;
                },
            },
            None => {
                return None;
            },
        },
        None => {
            return None;
        },
    };
    match get(value, "Number") {
        Some(n) => match as_list(n) {
            Some(number) => {
                if number.len() == 0 {
                    return None;
                }
                proof {
                    assert(syntax::trees(number@)[0] == syntax::tree(number@[0]));
                }
                as_text(&number[0])
            },
            None => None,
        },
        None => None,
    }
}

fn reads_bad_cache(o: &Value) -> (r: bool)
    ensures
        r == is_bad_cache(syntax::tree(*o)),
{
    if get(o, "Cache").is_none() {
        return false;
    }
    match read_cache_digits(o) {
        Some(digits) => match parse_unsigned(digits, 10) {
            Some(n) => n != 1 && n < 65536,
            None => true,
        },
        None => true,
    }
}

fn make_one_cached() -> (r: Value)
    ensures
        syntax::tree(r) == one_cached(),
{
    one("Cache", make_number("1"))
}

fn cache_diag(raw: &str) -> (r: Diagnostic)
    ensures
        r@ == cache_report(raw@),
{
    let r = Diagnostic {
        rule: LintRule::SequenceCache,
        line: find_line(raw, "cache"),
        statement: String::new(),
        message: "The CACHE of a sequence must be 1, or 65536 or more, in DSQL.".to_owned(),
        suggestion: "Use CACHE 1 or CACHE 65536.".to_owned(),
        fix_result: FixResult::Fixed("Set CACHE 1.".to_owned()),
    };
    proof {
        assert(r.statement@ =~= seq![]);
    }
    r
}

fn no_cache_diag(raw: &str) -> (r: Diagnostic)
    ensures
        r@ == no_cache_report(raw@),
{
    let r = Diagnostic {
        rule: LintRule::SequenceCacheMissing,
        line: find_line(raw, "sequence"),
        statement: String::new(),
        message: "CREATE SEQUENCE must give a CACHE in DSQL.".to_owned(),
        suggestion: "Use CACHE 1 or CACHE 65536.".to_owned(),
        fix_result: FixResult::Fixed("Added CACHE 1.".to_owned()),
    };
    proof {
        assert(r.statement@ =~= seq![]);
    }
    r
}

/// Gives the options of a sequence a cache that DSQL takes.
pub fn fix_cache(options: &Vec<Value>, raw: &str, diagnostics: &mut Vec<Diagnostic>) -> (r: Vec<
    Value,
>)
    ensures
        ({
            let made = cached(syntax::trees(options@), raw@);
            &&& syntax::trees(r@) == made.0
            &&& diagnostic::reports(final(diagnostics)@) == diagnostic::reports(
                old(diagnostics)@,
            ) + made.1
        }),
{
    let ghost said = diagnostic::reports(diagnostics@);
    let ghost os = syntax::trees(options@);
    let mut out: Vec<Value> = Vec::new();
    let mut found = false;
    let mut i: usize = 0;
    proof {
        assert(os.take(0) =~= seq![]);
        assert(said + seq![] =~= said);
    }
    while i < options.len()
        invariant
            i <= options@.len(),
            os == syntax::trees(options@),
            out@.len() == i,
            forall|j: int|
                0 <= j < i ==> syntax::tree(#[trigger] out@[j]) == with_taken_caches(os)[j],
            found == exists|j: int| 0 <= j < i && is_cache(#[trigger] os[j]),
            diagnostic::reports(diagnostics@) == said + cache_reports(os.take(i as int), raw@),
        decreases options@.len() - i,
    {
        proof {
            assert(os.take(i + 1).drop_last() =~= os.take(i as int));
            assert(os.take(i + 1).last() == os[i as int]);
        }
        if get(&options[i], "Cache").is_some() {
            found = true;
            proof {
                assert(is_cache(os[i as int]));
            }
        } else {
            proof {
                assert(!is_cache(os[i as int]));
            }
        }
        if reads_bad_cache(&options[i]) {
            let ghost held = diagnostics@;
            let ghost told = cache_reports(os.take(i as int), raw@);
            let report = cache_diag(raw);
            diagnostics.push(report);
            out.push(make_one_cached());
            proof {
                assert(diagnostic::reports(diagnostics@) =~= diagnostic::reports(held).push(
                    report@,
                ));
                assert(said + told.push(report@) =~= (said + told).push(report@));
            }
        } else {
            out.push(copy(&options[i]));
        }
        i += 1;
    }
    proof {
        assert(os.take(i as int) =~= os);
        assert(syntax::trees(out@) =~= with_taken_caches(os));
    }
    if !found {
        let ghost held = diagnostics@;
        proof {
            assert(!has_cache(os));
            assert(with_taken_caches(os) =~= os);
            lemma_no_cache_reports(os, raw@);
            assert(diagnostic::reports(held) =~= said);
        }
        let ghost before = out@;
        out.push(make_one_cached());
        let report = no_cache_diag(raw);
        diagnostics.push(report);
        proof {
            assert(syntax::trees(out@) =~= syntax::trees(before).push(one_cached()));
            assert(diagnostic::reports(diagnostics@) =~= said + seq![report@]);
        }
    } else {
        proof {
            assert(has_cache(os));
        }
    }
    out
}

/// Gives a sequence a cache that DSQL takes.
pub fn check_cache(stmt: &mut Value, raw: &str, diagnostics: &mut Vec<Diagnostic>)
    ensures
        ({
            let ruled = cache_rule(syntax::tree(*old(stmt)), raw@);
            &&& syntax::tree(*final(stmt)) == ruled.0
            &&& diagnostic::reports(final(diagnostics)@) == diagnostic::reports(
                old(diagnostics)@,
            ) + ruled.1
        }),
{
    proof {
        let said = diagnostic::reports(diagnostics@);
        assert(said + seq![] =~= said);
    }
    let mut sequence = match get(stmt, "CreateSequence") {
        Some(cs) => copy(cs),
        None => {
            return ;
        },
    };
    let options = match get(&sequence, "sequence_options") {
        Some(v) => match as_list(v) {
            Some(os) => fix_cache(os, raw, diagnostics),
            None => {
                return ;
            },
        },
        None => {
            return ;
        },
    };
    put(&mut sequence, "sequence_options", list(options));
    put(stmt, "CreateSequence", sequence);
}

/// Gives an identity option a cache that DSQL takes; `None` where it has one, or needs none.
fn mend_option(o: &Value) -> (r: Option<Value>)
    ensures
        match r {
            Some(v) => option_caches_badly(syntax::tree(*o)) && syntax::tree(v)
                == with_taken_option(syntax::tree(*o)),
            None => !option_caches_badly(syntax::tree(*o)),
        },
{
    let mut option = match get(o, "option") {
        Some(v) => copy(v),
        None => {
            return None;
        },
    };
    let mut generated = match get(&option, "Generated") {
        Some(g) => copy(g),
        None => {
            return None;
        },
    };
    if let Some(e) = get(&generated, "generation_expr") {
        if !is_null(e) {
            return None;
        }
    }
    let mut out: Vec<Value> = Vec::new();
    let mut found = false;
    let ghost os = generated_options(syntax::tree(*o));
    match get(&generated, "sequence_options") {
        Some(v) => match as_list(v) {
            Some(vs) => {
                let mut i: usize = 0;
                proof {
                    assert(os == syntax::trees(vs@));
                }
                while i < vs.len()
                    invariant
                        i <= vs@.len(),
                        os == syntax::trees(vs@),
                        out@.len() == i,
                        forall|j: int|
                            0 <= j < i ==> syntax::tree(#[trigger] out@[j]) == with_taken_caches(
                                os,
                            )[j],
                        found == exists|j: int| 0 <= j < i && is_bad_cache(#[trigger] os[j]),
                    decreases vs@.len() - i,
                {
                    if reads_bad_cache(&vs[i]) {
                        found = true;
                        proof {
                            assert(is_bad_cache(os[i as int]));
                        }
                        out.push(make_one_cached());
                    } else {
                        proof {
                            assert(!is_bad_cache(os[i as int]));
                        }
                        out.push(copy(&vs[i]));
                    }
                    i += 1;
                }
                proof {
                    assert(syntax::trees(out@) =~= with_taken_caches(os));
                }
            },
            None => {
                return None;
            },
        },
        None => {
            return None;
        },
    }
    if !found {
        return None;
    }
    proof {
        let i = choose|i: int| 0 <= i < os.len() && is_bad_cache(#[trigger] os[i]);
        assert(is_bad_cache(generated_options(syntax::tree(*o))[i]));
    }
    put(&mut generated, "sequence_options", list(out));
    put(&mut option, "Generated", generated);
    let mut made = copy(o);
    put(&mut made, "option", option);
    Some(made)
}

/// Gives an identity column a cache that DSQL takes; `None` where it has one, or needs none.
pub fn mend_cache(column: &Value) -> (r: Option<Value>)
    ensures
        match r {
            Some(v) => caches_badly(syntax::tree(*column)) && syntax::tree(v) == with_taken_cache(
                syntax::tree(*column),
            ),
            None => !caches_badly(syntax::tree(*column)),
        },
{
    let mut out: Vec<Value> = Vec::new();
    let mut found = false;
    let ghost os = column_options(syntax::tree(*column));
    match get(column, "options") {
        Some(v) => match as_list(v) {
            Some(vs) => {
                let mut i: usize = 0;
                while i < vs.len()
                    invariant
                        i <= vs@.len(),
                        os == syntax::trees(vs@),
                        out@.len() == i,
                        forall|j: int|
                            0 <= j < i ==> syntax::tree(#[trigger] out@[j]) == with_taken_option(
                                os[j],
                            ),
                        found == exists|j: int| 0 <= j < i && option_caches_badly(#[trigger] os[j]),
                    decreases vs@.len() - i,
                {
                    match mend_option(&vs[i]) {
                        Some(made) => {
                            found = true;
                            proof {
                                assert(option_caches_badly(os[i as int]));
                            }
                            out.push(made);
                        },
                        None => {
                            proof {
                                assert(!option_caches_badly(os[i as int]));
                            }
                            out.push(copy(&vs[i]));
                        },
                    }
                    i += 1;
                }
                proof {
                    assert(syntax::trees(out@) =~= os.map_values(|o: Tree| with_taken_option(o)));
                }
            },
            None => {
                return None;
            },
        },
        None => {
            return None;
        },
    }
    if !found {
        return None;
    }
    proof {
        let i = choose|i: int| 0 <= i < os.len() && option_caches_badly(#[trigger] os[i]);
        assert(option_caches_badly(column_options(syntax::tree(*column))[i]));
    }
    let mut made = copy(column);
    put(&mut made, "options", list(out));
    Some(made)
}

/// The report on an identity column with a cache that DSQL does not take.
pub fn identity_diag(column: &Value, raw: &str) -> (r: Diagnostic)
    ensures
        r@ == identity_report(syntax::tree(*column), raw@),
{
    let name = read_plain_name(column);
    let mut message = "Column `".to_owned();
    message.append(name.as_str());
    message.append("`: the CACHE of an identity column must be 1, or 65536 or more, in DSQL.");
    let mut done = "Set CACHE 1 on `".to_owned();
    done.append(name.as_str());
    done.append("`.");
    let r = Diagnostic {
        rule: LintRule::IdentityCache,
        line: find_line(raw, "cache"),
        statement: String::new(),
        message,
        suggestion: "Use CACHE 1 or CACHE 65536.".to_owned(),
        fix_result: FixResult::Fixed(done),
    };
    proof {
        assert(r.statement@ =~= seq![]);
    }
    r
}

fn reads_bad_level(m: &Value) -> (r: bool)
    ensures
        r == is_bad_level(syntax::tree(*m)),
{
    match get(m, "IsolationLevel") {
        Some(level) => match as_text(level) {
            Some(s) => !same(s, "RepeatableRead"),
            None => true,
        },
        None => false,
    }
}

fn level_diag(raw: &str) -> (r: Diagnostic)
    ensures
        r@ == level_report(raw@),
{
    let r = Diagnostic {
        rule: LintRule::TransactionIsolation,
        line: find_line(raw, "isolation"),
        statement: String::new(),
        message: "DSQL has no isolation level other than REPEATABLE READ.".to_owned(),
        suggestion: "Use ISOLATION LEVEL REPEATABLE READ.".to_owned(),
        fix_result: FixResult::Fixed("Set ISOLATION LEVEL REPEATABLE READ.".to_owned()),
    };
    proof {
        assert(r.statement@ =~= seq![]);
    }
    r
}

/// Gives the modes of a transaction the isolation level that DSQL has.
pub fn fix_levels(modes: &Vec<Value>, raw: &str, diagnostics: &mut Vec<Diagnostic>) -> (r: Vec<
    Value,
>)
    ensures
        syntax::trees(r@) == with_only_level(syntax::trees(modes@)),
        diagnostic::reports(final(diagnostics)@) == diagnostic::reports(old(diagnostics)@)
            + level_reports(syntax::trees(modes@), raw@),
{
    let ghost said = diagnostic::reports(diagnostics@);
    let ghost ms = syntax::trees(modes@);
    let mut out: Vec<Value> = Vec::new();
    let mut i: usize = 0;
    proof {
        assert(ms.take(0) =~= seq![]);
        assert(said + seq![] =~= said);
    }
    while i < modes.len()
        invariant
            i <= modes@.len(),
            ms == syntax::trees(modes@),
            out@.len() == i,
            forall|j: int|
                0 <= j < i ==> syntax::tree(#[trigger] out@[j]) == with_only_level(ms)[j],
            diagnostic::reports(diagnostics@) == said + level_reports(ms.take(i as int), raw@),
        decreases modes@.len() - i,
    {
        proof {
            assert(ms.take(i + 1).drop_last() =~= ms.take(i as int));
            assert(ms.take(i + 1).last() == ms[i as int]);
        }
        if reads_bad_level(&modes[i]) {
            let ghost held = diagnostics@;
            let ghost told = level_reports(ms.take(i as int), raw@);
            let report = level_diag(raw);
            diagnostics.push(report);
            out.push(one("IsolationLevel", string("RepeatableRead")));
            proof {
                assert(diagnostic::reports(diagnostics@) =~= diagnostic::reports(held).push(
                    report@,
                ));
                assert(said + told.push(report@) =~= (said + told).push(report@));
            }
        } else {
            out.push(copy(&modes[i]));
        }
        i += 1;
    }
    proof {
        assert(ms.take(i as int) =~= ms);
        assert(syntax::trees(out@) =~= with_only_level(ms));
    }
    out
}

/// Gives a transaction the isolation level that DSQL has.
pub fn check_level(stmt: &mut Value, raw: &str, diagnostics: &mut Vec<Diagnostic>)
    ensures
        ({
            let ruled = level_rule(syntax::tree(*old(stmt)), raw@);
            &&& syntax::tree(*final(stmt)) == ruled.0
            &&& diagnostic::reports(final(diagnostics)@) == diagnostic::reports(
                old(diagnostics)@,
            ) + ruled.1
        }),
{
    proof {
        let said = diagnostic::reports(diagnostics@);
        assert(said + seq![] =~= said);
    }
    let mut start = match get(stmt, "StartTransaction") {
        Some(st) => copy(st),
        None => {
            return ;
        },
    };
    let modes = match get(&start, "modes") {
        Some(v) => match as_list(v) {
            Some(ms) => fix_levels(ms, raw, diagnostics),
            None => {
                return ;
            },
        },
        None => {
            return ;
        },
    };
    put(&mut start, "modes", list(modes));
    put(stmt, "StartTransaction", start);
}

proof fn lemma_no_cache_reports(os: Seq<Tree>, raw: Seq<char>)
    requires
        forall|i: int| 0 <= i < os.len() ==> !is_bad_cache(#[trigger] os[i]),
    ensures
        cache_reports(os, raw) == Seq::<diagnostic::DiagnosticView>::empty(),
    decreases os.len(),
{
    if os.len() > 0 {
        let front = os.drop_last();
        assert forall|i: int| 0 <= i < front.len() implies !is_bad_cache(#[trigger] front[i]) by {
            assert(front[i] == os[i]);
        }
        lemma_no_cache_reports(front, raw);
        assert(!is_bad_cache(os[os.len() - 1]));
    }
}

proof fn lemma_no_level_reports(ms: Seq<Tree>, raw: Seq<char>)
    requires
        forall|i: int| 0 <= i < ms.len() ==> !is_bad_level(#[trigger] ms[i]),
    ensures
        level_reports(ms, raw) == Seq::<diagnostic::DiagnosticView>::empty(),
    decreases ms.len(),
{
    if ms.len() > 0 {
        let front = ms.drop_last();
        assert forall|i: int| 0 <= i < front.len() implies !is_bad_level(#[trigger] front[i]) by {
            assert(front[i] == ms[i]);
        }
        lemma_no_level_reports(front, raw);
        assert(!is_bad_level(ms[ms.len() - 1]));
    }
}

/// Whether a statement is no sequence without a cache that DSQL takes.
pub open spec fn caches_well(t: Tree) -> bool {
    match syntax::member(token::field(t, "CreateSequence"@), "sequence_options"@) {
        Some(Tree::List(os)) => has_cache(os) && forall|i: int|
            0 <= i < os.len() ==> !is_bad_cache(#[trigger] os[i]),
        _ => true,
    }
}

/// Whether a statement begins no transaction at an isolation level that DSQL does not have.
pub open spec fn levels_well(t: Tree) -> bool {
    let ms = name_match::items_of(token::field(token::field(t, "StartTransaction"@), "modes"@));
    forall|i: int| 0 <= i < ms.len() ==> !is_bad_level(#[trigger] ms[i])
}

proof fn lemma_one_is_taken()
    ensures
        is_cache(one_cached()),
        takes_cache(one_cached()),
{
    reveal_strlit("1");
    reveal_strlit("value");
    reveal_strlit("span");
    assert("value"@.len() != "span"@.len());
    let digits = "1"@;
    assert(digits.len() == 1 && digits[0] == '1');
    assert(digits.drop_last() =~= seq![]);
    reveal_with_fuel(literal::value_of, 2);
    assert(literal::value_of(digits, 10) == 1);
    assert(literal::all_digits(digits, 10));
    let value = token::field(token::field(token::field(one_cached(), "Cache"@), "Value"@), "value"@);
    assert(value == shapes::number_literal(digits));
    let number = name_match::items_of(token::field(value, "Number"@));
    assert(number[0] == Tree::Text(digits));
}

/// Names of fields of an identity column.
proof fn lemma_names_are_apart()
    ensures
        "sequence_options"@ != "generation_expr"@,
        "sequence_options"@ != "generation_expr_mode"@,
        "sequence_options"@ != "generated_keyword"@,
        "generation_expr"@ != "generation_expr_mode"@,
        "generation_expr"@ != "generated_keyword"@,
        "options"@ != "data_type"@,
{
    reveal_strlit("sequence_options");
    reveal_strlit("generation_expr");
    reveal_strlit("generation_expr_mode");
    reveal_strlit("generated_keyword");
    reveal_strlit("options");
    reveal_strlit("data_type");
    assert("sequence_options"@.len() == 16);
    assert("generation_expr"@.len() == 15);
    assert("generation_expr_mode"@.len() == 20);
    assert("generated_keyword"@.len() == 17);
    assert("options"@.len() == 7);
    assert("data_type"@.len() == 9);
}

proof fn lemma_taken_option(o: Tree)
    ensures
        !option_caches_badly(with_taken_option(o)),
{
    lemma_one_is_taken();
    lemma_names_are_apart();
    if option_caches_badly(o) {
        let made = with_taken_option(o);
        let os = generated_options(o);
        let g = token::field(token::field(o, "option"@), "Generated"@);
        let h = syntax::with_member(
            g,
            "sequence_options"@,
            Tree::List(with_taken_caches(os)),
        );
        assert(token::field(token::field(made, "option"@), "Generated"@) == h);
        assert(token::field(g, "sequence_options"@) is List);
        assert(token::field(h, "sequence_options"@) == Tree::List(with_taken_caches(os)));
        assert(generated_options(made) == with_taken_caches(os));
        assert forall|i: int| 0 <= i < generated_options(made).len() implies !is_bad_cache(
            #[trigger] generated_options(made)[i],
        ) by {
            assert(with_taken_caches(os)[i] == if is_bad_cache(os[i]) {
                one_cached()
            } else {
                os[i]
            });
        }
    }
}

/// A column whose cache was mended has one that DSQL takes.
pub proof fn lemma_mended_cache(c: Tree)
    requires
        caches_badly(c),
    ensures
        !caches_badly(with_taken_cache(c)),
        token::field(with_taken_cache(c), "data_type"@) == token::field(c, "data_type"@),
{
    lemma_names_are_apart();
    let made = with_taken_cache(c);
    let os = column_options(c);
    assert(token::field(c, "options"@) is List);
    assert(column_options(made) == os.map_values(|o: Tree| with_taken_option(o)));
    assert forall|i: int| 0 <= i < column_options(made).len() implies !option_caches_badly(
        #[trigger] column_options(made)[i],
    ) by {
        lemma_taken_option(os[i]);
        assert(column_options(made)[i] == with_taken_option(os[i]));
    }
}

proof fn lemma_staying_is_no_identity(os: Seq<Tree>)
    ensures
        forall|i: int|
            0 <= i < serial_idiom::staying(os).len() ==> !option_caches_badly(
                #[trigger] serial_idiom::staying(os)[i],
            ),
    decreases os.len(),
{
    if os.len() > 0 {
        let before = serial_idiom::staying(os.drop_last());
        let all = serial_idiom::staying(os);
        lemma_staying_is_no_identity(os.drop_last());
        assert forall|i: int| 0 <= i < all.len() implies !option_caches_badly(#[trigger] all[i]) by {
            if i < before.len() {
                assert(all[i] == before[i]);
            } else {
                assert(all[i] == os.last());
                assert(!is_identity(os.last()));
            }
        }
    }
}

/// An identity column that takes the place of another column has a cache that DSQL takes.
pub proof fn lemma_identity_column_caches_well(c: Tree)
    requires
        c is Record,
    ensures
        !caches_badly(serial_idiom::identity_column(c)),
{
    lemma_one_is_taken();
    lemma_names_are_apart();
    let made = serial_idiom::identity_column(c);
    let kept = serial_idiom::staying(column_options(c));
    let last = shapes::identity("1"@, None);
    lemma_staying_is_no_identity(column_options(c));
    assert(column_options(made) == kept.push(last));
    let g = token::field(token::field(last, "option"@), "Generated"@);
    assert(token::field(g, "sequence_options"@) == Tree::List(
        shapes::identity_options("1"@, None),
    ));
    assert(generated_options(last) == shapes::identity_options("1"@, None));
    assert(generated_options(last)[0] == one_cached());
    assert(!option_caches_badly(last));
    assert forall|i: int| 0 <= i < column_options(made).len() implies !option_caches_badly(
        #[trigger] column_options(made)[i],
    ) by {
        if i < kept.len() {
            assert(column_options(made)[i] == kept[i]);
        }
    }
}

/// A cache that DSQL takes stays.
pub proof fn lemma_cache_rule_rests(t: Tree, raw: Seq<char>)
    requires
        caches_well(t),
    ensures
        cache_rule(t, raw) == (t, Seq::<diagnostic::DiagnosticView>::empty()),
{
    if let Some(cs) = syntax::member(t, "CreateSequence"@) {
        if let Some(Tree::List(os)) = syntax::member(cs, "sequence_options"@) {
            lemma_no_cache_reports(os, raw);
            assert(with_taken_caches(os) =~= os);
            errors::lemma_member_kept(cs, "sequence_options"@, Tree::List(os));
            errors::lemma_member_kept(t, "CreateSequence"@, cs);
        }
    }
}

/// Behind the rule every sequence has a cache that DSQL takes.
pub proof fn lemma_cache_rule_settles(t: Tree, raw: Seq<char>)
    ensures
        caches_well(cache_rule(t, raw).0),
{
    lemma_one_is_taken();
    if let Some(cs) = syntax::member(t, "CreateSequence"@) {
        if let Some(Tree::List(os)) = syntax::member(cs, "sequence_options"@) {
            let made = cached(os, raw).0;
            if has_cache(os) {
                let i = choose|i: int| 0 <= i < os.len() && is_cache(#[trigger] os[i]);
                assert(is_cache(made[i]));
            } else {
                assert(is_cache(made[os.len() as int]));
                assert forall|i: int| 0 <= i < made.len() implies !is_bad_cache(
                    #[trigger] made[i],
                ) by {
                    if i < os.len() {
                        assert(made[i] == os[i]);
                        assert(!is_cache(os[i]));
                    }
                }
            }
            let sequence = syntax::with_member(cs, "sequence_options"@, Tree::List(made));
            assert(syntax::member(sequence, "sequence_options"@) == Some(Tree::List(made)));
        }
    }
}

/// Where nothing is reported on caches, they are all taken.
pub proof fn lemma_cache_rule_silent(t: Tree, raw: Seq<char>)
    requires
        cache_rule(t, raw).1.len() == 0,
    ensures
        caches_well(t),
{
    if let Some(cs) = syntax::member(t, "CreateSequence"@) {
        if let Some(Tree::List(os)) = syntax::member(cs, "sequence_options"@) {
            assert forall|i: int| 0 <= i < os.len() implies !is_bad_cache(#[trigger] os[i]) by {
                if is_bad_cache(os[i]) {
                    lemma_bad_cache_is_reported(os, i, raw);
                }
            }
        }
    }
}

proof fn lemma_bad_cache_is_reported(os: Seq<Tree>, i: int, raw: Seq<char>)
    requires
        0 <= i < os.len(),
        is_bad_cache(os[i]),
    ensures
        cache_reports(os, raw).len() > 0,
    decreases os.len(),
{
    if i < os.len() - 1 {
        assert(os.drop_last()[i] == os[i]);
        lemma_bad_cache_is_reported(os.drop_last(), i, raw);
    }
}

/// An isolation level that DSQL has stays.
pub proof fn lemma_level_rule_rests(t: Tree, raw: Seq<char>)
    requires
        levels_well(t),
    ensures
        level_rule(t, raw) == (t, Seq::<diagnostic::DiagnosticView>::empty()),
{
    if let Some(st) = syntax::member(t, "StartTransaction"@) {
        if let Some(Tree::List(ms)) = syntax::member(st, "modes"@) {
            assert(ms == name_match::items_of(
                token::field(token::field(t, "StartTransaction"@), "modes"@),
            ));
            lemma_no_level_reports(ms, raw);
            assert(with_only_level(ms) =~= ms);
            errors::lemma_member_kept(st, "modes"@, Tree::List(ms));
            errors::lemma_member_kept(t, "StartTransaction"@, st);
        }
    }
}

/// Behind the rule every transaction is at the isolation level that DSQL has.
pub proof fn lemma_level_rule_settles(t: Tree, raw: Seq<char>)
    ensures
        levels_well(level_rule(t, raw).0),
{
    if let Some(st) = syntax::member(t, "StartTransaction"@) {
        if let Some(Tree::List(ms)) = syntax::member(st, "modes"@) {
            let made = with_only_level(ms);
            assert forall|i: int| 0 <= i < made.len() implies !is_bad_level(#[trigger] made[i]) by {
                assert(!is_bad_level(only_level()));
            }
            let start = syntax::with_member(st, "modes"@, Tree::List(made));
            assert(syntax::member(start, "modes"@) == Some(Tree::List(made)));
        }
    }
}

/// Where nothing is reported on isolation levels, there is none that DSQL does not have.
pub proof fn lemma_level_rule_silent(t: Tree, raw: Seq<char>)
    requires
        level_rule(t, raw).1.len() == 0,
    ensures
        levels_well(t),
{
    let ms = name_match::items_of(token::field(token::field(t, "StartTransaction"@), "modes"@));
    assert forall|i: int| 0 <= i < ms.len() implies !is_bad_level(#[trigger] ms[i]) by {
        if is_bad_level(ms[i]) {
            lemma_bad_level_is_reported(ms, i, raw);
        }
    }
}

proof fn lemma_bad_level_is_reported(ms: Seq<Tree>, i: int, raw: Seq<char>)
    requires
        0 <= i < ms.len(),
        is_bad_level(ms[i]),
    ensures
        level_reports(ms, raw).len() > 0,
    decreases ms.len(),
{
    if i < ms.len() - 1 {
        assert(ms.drop_last()[i] == ms[i]);
        lemma_bad_level_is_reported(ms.drop_last(), i, raw);
    }
}

/// The reports of the two rules are of fixes.
pub proof fn lemma_options_are_fixed(t: Tree, raw: Seq<char>)
    ensures
        forall|k: int|
            0 <= k < cache_rule(t, raw).1.len() ==> (#[trigger] cache_rule(
                t,
                raw,
            ).1[k]).fix_result is Fixed,
        forall|k: int|
            0 <= k < level_rule(t, raw).1.len() ==> (#[trigger] level_rule(
                t,
                raw,
            ).1[k]).fix_result is Fixed,
{
    if let Some(cs) = syntax::member(t, "CreateSequence"@) {
        if let Some(Tree::List(os)) = syntax::member(cs, "sequence_options"@) {
            lemma_cache_reports_are_fixed(os, raw);
        }
    }
    if let Some(st) = syntax::member(t, "StartTransaction"@) {
        if let Some(Tree::List(ms)) = syntax::member(st, "modes"@) {
            lemma_level_reports_are_fixed(ms, raw);
        }
    }
}

proof fn lemma_cache_reports_are_fixed(os: Seq<Tree>, raw: Seq<char>)
    ensures
        forall|k: int|
            0 <= k < cache_reports(os, raw).len() ==> (#[trigger] cache_reports(
                os,
                raw,
            )[k]).fix_result is Fixed,
    decreases os.len(),
{
    if os.len() > 0 {
        lemma_cache_reports_are_fixed(os.drop_last(), raw);
    }
}

proof fn lemma_level_reports_are_fixed(ms: Seq<Tree>, raw: Seq<char>)
    ensures
        forall|k: int|
            0 <= k < level_reports(ms, raw).len() ==> (#[trigger] level_reports(
                ms,
                raw,
            )[k]).fix_result is Fixed,
    decreases ms.len(),
{
    if ms.len() > 0 {
        lemma_level_reports_are_fixed(ms.drop_last(), raw);
    }
}

} // verus!
