//! Statements that DSQL accepts but the parser does not read: recognized, or bridged, by their
//! tokens.

use vstd::prelude::*;
use vstd::string::StringExecFns;

use crate::split::{self, line_offsets, loc_to_offset};
use crate::syntax::Dialect;
use crate::text::{self, chars_of, decimal_text, join, slice_text};
use crate::token::{self, is_unquoted_keyword, read_tokens, Token, TokenClass};

verus! {

/// Whether a token is neither white space nor a semicolon.
pub open spec fn significant(t: token::TokenView) -> bool {
    t.class != TokenClass::Whitespace && t.class != TokenClass::SemiColon
}

/// The tokens of a PostgreSQL text without white space and semicolons.
pub open spec fn significant_tokens(sql: Seq<char>) -> Result<Seq<token::TokenView>, Seq<char>> {
    match token::tokens_of(Dialect::Postgres, sql) {
        Ok(ts) => Ok(ts.filter(|t: token::TokenView| significant(t))),
        Err(m) => Err(m),
    }
}

/// The tokens of a PostgreSQL text without white space and semicolons.
pub fn read_significant(sql: &str) -> (r: Result<Vec<Token>, String>)
    ensures
        match (r, significant_tokens(sql@)) {
            (Ok(ts), Ok(vs)) => token::token_views(ts@) == vs,
            (Err(e), Err(m)) => e@ == m,
            _ => false,
        },
{
    let all = match read_tokens(Dialect::Postgres, sql) {
        Ok(ts) => ts,
        Err(e) => {
            return Err(e);
        },
    };
    let ghost views = token::token_views(all@);
    let ghost keep = |t: token::TokenView| significant(t);
    let mut out: Vec<Token> = Vec::new();
    proof {
        reveal(Seq::filter);
        assert(views.take(0).filter(keep) =~= seq![]);
    }
    for t in it: all
        invariant
            views == token::token_views(it.seq()),
            keep == (|t: token::TokenView| significant(t)),
            token::token_views(out@) == views.take(it.index() as int).filter(keep),
    {
        proof {
            let i = it.index() as int;
            reveal(Seq::filter);
            assert(views.take(i + 1).drop_last() =~= views.take(i));
            assert(views.take(i + 1).last() == t@);
        }
        let ghost before = out@;
        if t.class != TokenClass::Whitespace && t.class != TokenClass::SemiColon {
            out.push(t);
            proof {
                assert(token::token_views(out@) =~= token::token_views(before).push(t@));
            }
        }
    }
    proof {
        assert(views.take(views.len() as int) =~= views);
    }
    Ok(out)
}

/// Whether the token at `at` is the keyword `word`.
pub open spec fn keyword_at(ts: Seq<token::TokenView>, at: int, word: Seq<char>) -> bool {
    0 <= at < ts.len() && token::is_keyword(ts[at], word)
}

/// Whether the token at `at` is of the given class.
pub open spec fn class_at(ts: Seq<token::TokenView>, at: int, class: TokenClass) -> bool {
    0 <= at < ts.len() && ts[at].class == class
}

pub(crate) fn is_keyword_at(tokens: &Vec<Token>, at: usize, word: &str) -> (r: bool)
    ensures
        r == keyword_at(token::token_views(tokens@), at as int, word@),
{
    at < tokens.len() && is_unquoted_keyword(&tokens[at], word)
}

pub(crate) fn is_class_at(tokens: &Vec<Token>, at: usize, class: TokenClass) -> (r: bool)
    ensures
        r == class_at(token::token_views(tokens@), at as int, class),
{
    at < tokens.len() && tokens[at].class == class
}

/// The end of the `.word` tail that begins at `at`; `None` where a dot has no word behind it.
pub open spec fn dotted_end(ts: Seq<token::TokenView>, at: int) -> Option<int>
    decreases ts.len() - at,
{
    if class_at(ts, at, TokenClass::Period) {
        if class_at(ts, at + 1, TokenClass::Word) {
            dotted_end(ts, at + 2)
        } else {
            None
        }
    } else {
        Some(at)
    }
}

/// The end of the possibly qualified name that begins at `at`.
pub open spec fn name_end(ts: Seq<token::TokenView>, at: int) -> Option<int> {
    if class_at(ts, at, TokenClass::Word) {
        dotted_end(ts, at + 1)
    } else {
        None
    }
}

/// Steps over a possibly qualified name.
pub fn consume_object_name(tokens: &Vec<Token>, start: usize) -> (r: Option<usize>)
    ensures
        match (r, name_end(token::token_views(tokens@), start as int)) {
            (Some(end), Some(e)) => end == e && start < end <= tokens@.len(),
            (None, None) => true,
            _ => false,
        },
{
    if !is_class_at(tokens, start, TokenClass::Word) {
        return None;
    }
    let size: usize = tokens.len();
    let ghost views = token::token_views(tokens@);
    let mut next: usize = start + 1;
    while next < size && is_class_at(tokens, next, TokenClass::Period)
        invariant
            start < next <= size == tokens@.len(),
            views == token::token_views(tokens@),
            name_end(views, start as int) == dotted_end(views, next as int),
        decreases size - next,
    {
        if size - next < 2 || !is_class_at(tokens, next + 1, TokenClass::Word) {
            return None;
        }
        next += 2;
    }
    Some(next)
}

/// Whether `ts[at..]` is `INITIALLY DEFERRED` or `INITIALLY IMMEDIATE`.
pub open spec fn timing_at(ts: Seq<token::TokenView>, at: int) -> bool {
    &&& ts.len() == at + 2
    &&& keyword_at(ts, at, "INITIALLY"@)
    &&& keyword_at(ts, at + 1, "DEFERRED"@) || keyword_at(ts, at + 1, "IMMEDIATE"@)
}

/// Whether `ts[at..]` is a deferrability: `[NOT] DEFERRABLE`, a timing, or both in this order.
pub open spec fn deferral_at(ts: Seq<token::TokenView>, at: int) -> bool {
    let plain = keyword_at(ts, at, "DEFERRABLE"@);
    let negated = keyword_at(ts, at, "NOT"@) && keyword_at(ts, at + 1, "DEFERRABLE"@);
    ||| plain && (ts.len() == at + 1 || timing_at(ts, at + 1))
    ||| negated && (ts.len() == at + 2 || timing_at(ts, at + 2))
    ||| timing_at(ts, at)
}

/// Where the table name of `ALTER TABLE [IF EXISTS] [ONLY] name` begins.
pub open spec fn altered_name_at(ts: Seq<token::TokenView>) -> int {
    let at = if keyword_at(ts, 2, "IF"@) && keyword_at(ts, 3, "EXISTS"@) {
        4int
    } else {
        2
    };
    if keyword_at(ts, at, "ONLY"@) {
        at + 1
    } else {
        at
    }
}

/// Whether the tokens are
/// `ALTER TABLE [IF EXISTS] [ONLY] name [*] ALTER CONSTRAINT word deferrability`.
pub open spec fn alters_constraint(ts: Seq<token::TokenView>) -> bool {
    &&& keyword_at(ts, 0, "ALTER"@)
    &&& keyword_at(ts, 1, "TABLE"@)
    &&& match name_end(ts, altered_name_at(ts)) {
        None => false,
        Some(end) => {
            let at = if class_at(ts, end, TokenClass::Mul) {
                end + 1
            } else {
                end
            };
            &&& keyword_at(ts, at, "ALTER"@)
            &&& keyword_at(ts, at + 1, "CONSTRAINT"@)
            &&& class_at(ts, at + 2, TokenClass::Word)
            &&& deferral_at(ts, at + 3)
        },
    }
}

fn is_timing(tokens: &Vec<Token>, at: usize) -> (r: bool)
    requires
        at <= tokens@.len(),
    ensures
        r == timing_at(token::token_views(tokens@), at as int),
{
    let size: usize = tokens.len();
    size - at == 2 && is_keyword_at(tokens, at, "INITIALLY") && (is_keyword_at(
        tokens,
        at + 1,
        "DEFERRED",
    ) || is_keyword_at(tokens, at + 1, "IMMEDIATE"))
}

fn is_deferral(tokens: &Vec<Token>, at: usize) -> (r: bool)
    requires
        at <= tokens@.len(),
    ensures
        r == deferral_at(token::token_views(tokens@), at as int),
{
    let size: usize = tokens.len();
    if is_keyword_at(tokens, at, "DEFERRABLE") {
        if size - at == 1 || is_timing(tokens, at + 1) {
            return true;
        }
    }
    if is_keyword_at(tokens, at, "NOT") {
        if is_keyword_at(tokens, at + 1, "DEFERRABLE") {
            if size - at == 2 || is_timing(tokens, at + 2) {
                return true;
            }
        }
    }
    is_timing(tokens, at)
}

/// Whether tokens are an `ALTER CONSTRAINT` of a supported shape.
pub fn tokens_alter_constraint(tokens: &Vec<Token>) -> (r: bool)
    ensures
        r == alters_constraint(token::token_views(tokens@)),
{
    if !is_keyword_at(tokens, 0, "ALTER") || !is_keyword_at(tokens, 1, "TABLE") {
        return false;
    }
    let mut next: usize = 2;
    if is_keyword_at(tokens, 2, "IF") && is_keyword_at(tokens, 3, "EXISTS") {
        next = 4;
    }
    if is_keyword_at(tokens, next, "ONLY") {
        next += 1;
    }
    let size: usize = tokens.len();
    match consume_object_name(tokens, next) {
        None => false,
        Some(end) => {
            let mut at: usize = end;
            if is_class_at(tokens, at, TokenClass::Mul) {
                at += 1;
            }
            if size - at < 3 {
                return false;
            }
            is_keyword_at(tokens, at, "ALTER") && is_keyword_at(tokens, at + 1, "CONSTRAINT")
                && is_class_at(tokens, at + 2, TokenClass::Word) && is_deferral(tokens, at + 3)
        },
    }
}

/// Whether a text is an `ALTER CONSTRAINT` that DSQL supports for foreign keys.
pub open spec fn supported_alter_constraint(sql: Seq<char>) -> bool {
    match significant_tokens(sql) {
        Ok(ts) => alters_constraint(ts),
        Err(_) => false,
    }
}

/// Recognizes the deferrability operation of `ALTER CONSTRAINT`. Only the supported shapes are
/// taken, so that a malformed one still counts as a parse error.
pub fn is_supported_alter_constraint(stmt_text: &str) -> (r: bool)
    ensures
        r == supported_alter_constraint(stmt_text@),
{
    match read_significant(stmt_text) {
        Ok(tokens) => tokens_alter_constraint(&tokens),
        Err(_) => false,
    }
}

/// Whether `ts[at..]` is one name, or several with commas between them.
pub open spec fn names_from(ts: Seq<token::TokenView>, at: int) -> bool
    decreases ts.len() - at,
{
    match name_end(ts, at) {
        None => false,
        Some(end) => end == ts.len() || (at < end < ts.len() && class_at(ts, end, TokenClass::Comma)
            && names_from(ts, end + 1)),
    }
}

/// Whether the tokens are `SET CONSTRAINTS { ALL | name [, ...] } { DEFERRED | IMMEDIATE }`.
pub open spec fn sets_constraints(ts: Seq<token::TokenView>) -> bool {
    let targets = ts.subrange(2, ts.len() - 1);
    &&& ts.len() >= 4
    &&& keyword_at(ts, 0, "SET"@)
    &&& keyword_at(ts, 1, "CONSTRAINTS"@)
    &&& keyword_at(ts, ts.len() - 1, "DEFERRED"@) || keyword_at(ts, ts.len() - 1, "IMMEDIATE"@)
    &&& {
        ||| targets.len() == 1 && keyword_at(targets, 0, "ALL"@)
        ||| (forall|i: int| !keyword_at(targets, i, "ALL"@)) && names_from(targets, 0)
    }
}

/// Whether tokens are one name, or several with commas between them.
fn is_name_list(tokens: &Vec<Token>) -> (r: bool)
    ensures
        r == names_from(token::token_views(tokens@), 0),
{
    let size: usize = tokens.len();
    let ghost views = token::token_views(tokens@);
    let mut next: usize = 0;
    loop
        invariant
            next <= size == tokens@.len(),
            views == token::token_views(tokens@),
            names_from(views, 0) == names_from(views, next as int),
        decreases size - next,
    {
        match consume_object_name(tokens, next) {
            None => {
                return false;
            },
            Some(end) => {
                if end == size {
                    return true;
                }
                if !is_class_at(tokens, end, TokenClass::Comma) {
                    return false;
                }
                next = end + 1;
            },
        }
    }
}

/// Whether tokens are a `SET CONSTRAINTS` of a supported shape.
#[verifier::loop_isolation(false)]
pub fn tokens_set_constraints(tokens: Vec<Token>) -> (r: bool)
    ensures
        r == sets_constraints(token::token_views(tokens@)),
{
    let size: usize = tokens.len();
    let ghost views = token::token_views(tokens@);
    if size < 4 || !is_keyword_at(&tokens, 0, "SET") || !is_keyword_at(&tokens, 1, "CONSTRAINTS")
        || !(is_keyword_at(&tokens, size - 1, "DEFERRED") || is_keyword_at(
        &tokens,
        size - 1,
        "IMMEDIATE",
    )) {
        return false;
    }
    let mut targets = tokens;
    targets.pop();
    targets.remove(0);
    targets.remove(0);
    proof {
        assert(token::token_views(targets@) =~= views.subrange(2, views.len() - 1));
    }
    if targets.len() == 1 && is_keyword_at(&targets, 0, "ALL") {
        return true;
    }
    let mut i: usize = 0;
    while i < targets.len()
        invariant
            i <= targets@.len(),
            forall|j: int| j < i ==> !keyword_at(token::token_views(targets@), j, "ALL"@),
        decreases targets@.len() - i,
    {
        if is_keyword_at(&targets, i, "ALL") {
            return false;
        }
        i += 1;
    }
    is_name_list(&targets)
}

/// Whether a text is a `SET CONSTRAINTS` that DSQL supports.
pub open spec fn supported_set_constraints(sql: Seq<char>) -> bool {
    match significant_tokens(sql) {
        Ok(ts) => sets_constraints(ts),
        Err(_) => false,
    }
}

/// Recognizes `SET CONSTRAINTS` with a list of names or `ALL`.
pub fn is_supported_set_constraints(stmt_text: &str) -> (r: bool)
    ensures
        r == supported_set_constraints(stmt_text@),
{
    match read_significant(stmt_text) {
        Ok(tokens) => tokens_set_constraints(tokens),
        Err(_) => false,
    }
}

/// Whether a text is a statement that DSQL supports although the parser does not read it.
pub open spec fn supported_gap(sql: Seq<char>) -> bool {
    supported_alter_constraint(sql) || supported_set_constraints(sql)
}

/// Whether a text is a statement that DSQL supports although the parser does not read it.
pub fn is_supported_parser_gap_statement(stmt_text: &str) -> (r: bool)
    ensures
        r == supported_gap(stmt_text@),
{
    is_supported_alter_constraint(stmt_text) || is_supported_set_constraints(stmt_text)
}

/// The two `SET` actions of a foreign key that can name columns.
#[derive(Clone, Copy, PartialEq, Eq, Structural, Debug)]
pub enum FkSetAction {
    Null,
    Default,
}

/// The columns of one `ON DELETE SET NULL/DEFAULT (...)`: which action, how many of the same
/// kind stand before it, and the list in parentheses.
#[derive(Debug, Clone, PartialEq, Eq)]
pub struct FkActionColumnList {
    pub action: FkSetAction,
    pub occurrence: usize,
    pub columns: String,
}

/// A statement without its action column lists, and the lists that were taken out.
#[derive(Debug, Clone, PartialEq, Eq)]
pub struct FkParserGap {
    pub parseable: String,
    pub action_column_lists: Vec<FkActionColumnList>,
}

/// The model of a [`FkActionColumnList`].
pub ghost struct ActionList {
    pub action: FkSetAction,
    pub occurrence: int,
    pub columns: Seq<char>,
}

impl View for FkActionColumnList {
    type V = ActionList;

    open spec fn view(&self) -> ActionList {
        ActionList {
            action: self.action,
            occurrence: self.occurrence as int,
            columns: self.columns@,
        }
    }
}

/// The models of a list of column lists.
pub open spec fn lists_view(ls: Seq<FkActionColumnList>) -> Seq<ActionList> {
    ls.map_values(|l: FkActionColumnList| l@)
}

/// The action whose last word stands at `at`.
pub open spec fn action_at(ts: Seq<token::TokenView>, at: int) -> Option<FkSetAction> {
    if keyword_at(ts, at - 3, "ON"@) && keyword_at(ts, at - 2, "DELETE"@) && keyword_at(
        ts,
        at - 1,
        "SET"@,
    ) {
        if keyword_at(ts, at, "NULL"@) {
            Some(FkSetAction::Null)
        } else if keyword_at(ts, at, "DEFAULT"@) {
            Some(FkSetAction::Default)
        } else {
            None
        }
    } else {
        None
    }
}

/// The names of the column list whose first name stands at `at`, and the position behind its
/// closing parenthesis.
pub open spec fn column_list(ts: Seq<token::TokenView>, at: int) -> Option<(Seq<Seq<char>>, int)>
    decreases ts.len() - at,
{
    if !class_at(ts, at, TokenClass::Word) {
        None
    } else if class_at(ts, at + 1, TokenClass::RParen) {
        Some((seq![ts[at].text], at + 2))
    } else if class_at(ts, at + 1, TokenClass::Comma) {
        match column_list(ts, at + 2) {
            Some((names, end)) => Some((seq![ts[at].text] + names, end)),
            None => None,
        }
    } else {
        None
    }
}

/// The column list behind the action that ends at `at`.
pub open spec fn list_behind(ts: Seq<token::TokenView>, at: int) -> Option<(Seq<Seq<char>>, int)> {
    if class_at(ts, at + 1, TokenClass::LParen) {
        column_list(ts, at + 2)
    } else {
        None
    }
}

/// A column list names something and ends behind where it begins.
pub proof fn lemma_column_list_end(ts: Seq<token::TokenView>, at: int)
    ensures
        column_list(ts, at) matches Some((names, end)) ==> at < end <= ts.len() && names.len() > 0,
    decreases ts.len() - at,
{
    if class_at(ts, at, TokenClass::Word) && class_at(ts, at + 1, TokenClass::Comma) {
        lemma_column_list_end(ts, at + 2);
    }
}

/// A column list as it is written.
pub open spec fn column_list_text(names: Seq<Seq<char>>) -> Seq<char> {
    "("@ + text::joined(names, ", "@) + ")"@
}

/// How many actions of each kind stand before a place.
pub ghost struct Seen {
    pub nulls: int,
    pub defaults: int,
}

/// How many actions of one kind were seen.
pub open spec fn seen_of(seen: Seen, action: FkSetAction) -> int {
    match action {
        FkSetAction::Null => seen.nulls,
        FkSetAction::Default => seen.defaults,
    }
}

/// One more action of a kind.
pub open spec fn seen_more(seen: Seen, action: FkSetAction) -> Seen {
    match action {
        FkSetAction::Null => Seen { nulls: seen.nulls + 1, ..seen },
        FkSetAction::Default => Seen { defaults: seen.defaults + 1, ..seen },
    }
}

/// What `ts[at..]` leaves without its action column lists, token by token, and those lists.
pub open spec fn bridged(ts: Seq<token::TokenView>, at: int, seen: Seen) -> (
    Seq<Seq<char>>,
    Seq<ActionList>,
)
    decreases ts.len() - at,
{
    if !(0 <= at < ts.len()) {
        (seq![], seq![])
    } else {
        match action_at(ts, at) {
            None => {
                let rest = bridged(ts, at + 1, seen);
                (seq![ts[at].text] + rest.0, rest.1)
            },
            Some(action) => {
                let more = seen_more(seen, action);
                match list_behind(ts, at) {
                    None => {
                        let rest = bridged(ts, at + 1, more);
                        (seq![ts[at].text] + rest.0, rest.1)
                    },
                    Some((names, end)) => {
                        proof {
                            lemma_column_list_end(ts, at + 2);
                        }
                        let rest = bridged(ts, end, more);
                        let list = ActionList {
                            action,
                            occurrence: seen_of(seen, action),
                            columns: column_list_text(names),
                        };
                        (seq![ts[at].text] + rest.0, seq![list] + rest.1)
                    },
                }
            },
        }
    }
}

/// The bridged form of a statement: its text without action column lists and those lists;
/// `None` where it has no such list, or is no sequence of tokens.
pub open spec fn fk_gap(sql: Seq<char>) -> Option<(Seq<char>, Seq<ActionList>)> {
    match significant_tokens(sql) {
        Err(_) => None,
        Ok(ts) => {
            let b = bridged(ts, 0, Seen { nulls: 0, defaults: 0 });
            if b.1.len() == 0 {
                None
            } else {
                Some((text::joined(b.0, " "@), b.1))
            }
        },
    }
}

pub fn read_action(tokens: &Vec<Token>, at: usize) -> (r: Option<FkSetAction>)
    ensures
        r == action_at(token::token_views(tokens@), at as int),
{
    if at >= 3 && is_keyword_at(tokens, at - 3, "ON") && is_keyword_at(tokens, at - 2, "DELETE")
        && is_keyword_at(tokens, at - 1, "SET") {
        if is_keyword_at(tokens, at, "NULL") {
            Some(FkSetAction::Null)
        } else if is_keyword_at(tokens, at, "DEFAULT") {
            Some(FkSetAction::Default)
        } else {
            None
        }
    } else {
        None
    }
}

/// The names of a column list and the position behind it.
pub fn read_column_list(tokens: &Vec<Token>, at: usize) -> (r: Option<(Vec<String>, usize)>)
    requires
        at <= tokens@.len(),
    ensures
        match (r, column_list(token::token_views(tokens@), at as int)) {
            (Some((names, end)), Some((ns, e))) => text::views(names@) == ns && end == e && at < end
                <= tokens@.len(),
            (None, None) => true,
            _ => false,
        },
{
    let size: usize = tokens.len();
    let ghost views = token::token_views(tokens@);
    let mut names: Vec<String> = Vec::new();
    let mut next: usize = at;
    proof {
        lemma_column_list_end(views, at as int);
        if let Some((ns, e)) = column_list(views, at as int) {
            assert(text::views(names@) + ns =~= ns);
        }
    }
    loop
        invariant
            at <= next <= size == tokens@.len(),
            views == token::token_views(tokens@),
            column_list(views, at as int) == match column_list(views, next as int) {
                Some((ns, e)) => Some((text::views(names@) + ns, e)),
                None => None,
            },
        decreases size - next,
    {
        if !is_class_at(tokens, next, TokenClass::Word) || size - next < 2 {
            return None;
        }
        let ghost before = names@;
        let ghost rest = column_list(views, next + 2);
        names.push(tokens[next].text.clone());
        proof {
            assert(text::views(names@) =~= text::views(before) + seq![views[next as int].text]);
            if let Some((ns, e)) = rest {
                assert(text::views(before) + (seq![views[next as int].text] + ns) =~= text::views(
                    names@,
                ) + ns);
            }
        }
        if is_class_at(tokens, next + 1, TokenClass::RParen) {
            return Some((names, next + 2));
        }
        if !is_class_at(tokens, next + 1, TokenClass::Comma) {
            return None;
        }
        next += 2;
    }
}

/// The texts of a statement's tokens without the column lists behind its actions, and those lists.
pub fn bridge_tokens(tokens: &Vec<Token>) -> (r: (Vec<String>, Vec<FkActionColumnList>))
    ensures
        (text::views(r.0@), lists_view(r.1@)) == bridged(
            token::token_views(tokens@),
            0,
            Seen { nulls: 0, defaults: 0 },
        ),
{
    let ghost views = token::token_views(tokens@);
    let ghost start = Seen { nulls: 0, defaults: 0 };
    let size: usize = tokens.len();
    let mut output: Vec<String> = Vec::new();
    let mut lists: Vec<FkActionColumnList> = Vec::new();
    let mut nulls: usize = 0;
    let mut defaults: usize = 0;
    let mut i: usize = 0;
    proof {
        let all = bridged(views, 0, start);
        assert(text::views(output@) + all.0 =~= all.0);
        assert(lists_view(lists@) + all.1 =~= all.1);
    }
    while i < size
        invariant
            i <= size == tokens@.len(),
            nulls <= i,
            defaults <= i,
            views == token::token_views(tokens@),
            start == (Seen { nulls: 0, defaults: 0 }),
            ({
                let rest = bridged(
                    views,
                    i as int,
                    Seen { nulls: nulls as int, defaults: defaults as int },
                );
                bridged(views, 0, start) == (
                    text::views(output@) + rest.0,
                    lists_view(lists@) + rest.1,
                )
            }),
        decreases size - i,
    {
        let ghost seen = Seen { nulls: nulls as int, defaults: defaults as int };
        let ghost out_before = output@;
        let ghost lists_before = lists@;
        let at: usize = i;
        output.push(tokens[i].text.clone());
        proof {
            assert(text::views(output@) =~= text::views(out_before) + seq![views[at as int].text]);
        }
        i += 1;
        if let Some(action) = read_action(tokens, at) {
            let occurrence: usize = match action {
                FkSetAction::Null => nulls,
                FkSetAction::Default => defaults,
            };
            match action {
                FkSetAction::Null => {
                    nulls += 1;
                },
                FkSetAction::Default => {
                    defaults += 1;
                },
            }
            if is_class_at(tokens, i, TokenClass::LParen) {
                if let Some((names, end)) = read_column_list(tokens, i + 1) {
                    let mut columns = "(".to_owned();
                    columns.append(join(&names, ", ").as_str());
                    columns.append(")");
                    lists.push(FkActionColumnList { action, occurrence, columns });
                    i = end;
                }
            }
        }
        proof {
            let rest = bridged(
                views,
                i as int,
                Seen { nulls: nulls as int, defaults: defaults as int },
            );
            let step = bridged(views, at as int, seen);
            assert(text::views(out_before) + step.0 =~= text::views(output@) + rest.0);
            assert(lists_view(lists_before) + step.1 =~= lists_view(lists@) + rest.1);
        }
    }
    proof {
        let all = bridged(views, 0, start);
        assert(all.0 =~= text::views(output@));
        assert(all.1 =~= lists_view(lists@));
    }
    (output, lists)
}

/// Takes the optional column lists out of `ON DELETE SET NULL/SET DEFAULT`. The parser does not
/// read them, although DSQL supports them; without them the statement parses, and every other
/// foreign-key rule still applies.
pub fn without_fk_action_column_lists(stmt_text: &str) -> (r: Option<FkParserGap>)
    ensures
        match (r, fk_gap(stmt_text@)) {
            (Some(gap), Some((parseable, lists))) => gap.parseable@ == parseable && lists_view(
                gap.action_column_lists@,
            ) == lists,
            (None, None) => true,
            _ => false,
        },
{
    let tokens = match read_significant(stmt_text) {
        Ok(tokens) => tokens,
        Err(_) => {
            return None;
        },
    };
    let (output, lists) = bridge_tokens(&tokens);
    if lists.len() == 0 {
        None
    } else {
        Some(FkParserGap { parseable: join(&output, " "), action_column_lists: lists })
    }
}

/// The first column list of the given action and occurrence.
pub open spec fn list_of(lists: Seq<ActionList>, action: FkSetAction, occurrence: int) -> Option<
    Seq<char>,
>
    decreases lists.len(),
{
    if lists.len() == 0 {
        None
    } else if lists[0].action == action && lists[0].occurrence == occurrence {
        Some(lists[0].columns)
    } else {
        list_of(lists.skip(1), action, occurrence)
    }
}

/// The column lists that belong behind the actions in `ts[at..]`, with their places in `sql`.
pub open spec fn insertions(
    sql: Seq<char>,
    ts: Seq<token::TokenView>,
    lists: Seq<ActionList>,
    at: int,
    seen: Seen,
) -> Seq<(int, Seq<char>)>
    decreases ts.len() - at,
{
    if !(0 <= at < ts.len()) {
        seq![]
    } else {
        match action_at(ts, at) {
            None => insertions(sql, ts, lists, at + 1, seen),
            Some(action) => {
                let rest = insertions(sql, ts, lists, at + 1, seen_more(seen, action));
                match list_of(lists, action, seen_of(seen, action)) {
                    None => rest,
                    Some(columns) => seq![
                        (
                            split::position(sql, ts[at].end_line, ts[at].end_column),
                            " "@ + columns,
                        ),
                    ] + rest,
                }
            },
        }
    }
}

/// `x` among `s`, behind every item whose place is not greater.
pub open spec fn placed(s: Seq<(int, Seq<char>)>, x: (int, Seq<char>)) -> Seq<(int, Seq<char>)>
    decreases s.len(),
{
    if s.len() > 0 && s.last().0 > x.0 {
        placed(s.drop_last(), x).push(s.last())
    } else {
        s.push(x)
    }
}

/// Insertions in the order of their places; those of one place keep their order.
pub open spec fn by_place(s: Seq<(int, Seq<char>)>) -> Seq<(int, Seq<char>)>
    decreases s.len(),
{
    if s.len() == 0 {
        seq![]
    } else {
        placed(by_place(s.drop_last()), s.last())
    }
}

/// `s` with `t` at `at`.
pub open spec fn with_text(s: Seq<char>, at: int, t: Seq<char>) -> Seq<char> {
    s.take(at) + t + s.skip(at)
}

/// `s` with every insertion made, the last one first.
pub open spec fn with_insertions(s: Seq<char>, ins: Seq<(int, Seq<char>)>) -> Seq<char>
    decreases ins.len(),
{
    if ins.len() == 0 {
        s
    } else {
        with_insertions(with_text(s, ins.last().0, ins.last().1), ins.drop_last())
    }
}

/// The message for column lists that found no place.
pub open spec fn unrestored(found: int, wanted: int) -> Seq<char> {
    "restored "@ + text::decimal(found as nat) + " of "@ + text::decimal(wanted as nat)
        + " foreign-key action column lists"@
}

/// `sql`, whose tokens are `ts`, with the column lists put back: each behind the action of its
/// kind and number.
pub open spec fn with_lists(
    sql: Seq<char>,
    ts: Seq<token::TokenView>,
    lists: Seq<ActionList>,
) -> Result<Seq<char>, Seq<char>> {
    let ins = insertions(sql, ts, lists, 0, Seen { nulls: 0, defaults: 0 });
    if ins.len() != lists.len() {
        Err(unrestored(ins.len() as int, lists.len() as int))
    } else {
        Ok(with_insertions(sql, by_place(ins)))
    }
}

/// `sql` with the column lists put back.
pub open spec fn restored(sql: Seq<char>, lists: Seq<ActionList>) -> Result<Seq<char>, Seq<char>> {
    match significant_tokens(sql) {
        Err(m) => Err(m),
        Ok(ts) => with_lists(sql, ts, lists),
    }
}

/// The model of a list of insertions.
pub open spec fn insertions_view(ins: Seq<(usize, String)>) -> Seq<(int, Seq<char>)> {
    ins.map_values(|x: (usize, String)| (x.0 as int, x.1@))
}

fn find_list(lists: &Vec<FkActionColumnList>, action: FkSetAction, occurrence: usize) -> (r: Option<
    usize,
>)
    ensures
        match (r, list_of(lists_view(lists@), action, occurrence as int)) {
            (Some(i), Some(columns)) => i < lists@.len() && lists@[i as int].columns@ == columns,
            (None, None) => true,
            _ => false,
        },
{
    let mut i: usize = 0;
    let ghost views = lists_view(lists@);
    proof {
        assert(views.skip(0) =~= views);
    }
    while i < lists.len()
        invariant
            i <= lists@.len(),
            views == lists_view(lists@),
            list_of(views, action, occurrence as int) == list_of(
                views.skip(i as int),
                action,
                occurrence as int,
            ),
        decreases lists@.len() - i,
    {
        proof {
            assert(views.skip(i as int).skip(1) =~= views.skip(i + 1));
        }
        if lists[i].action == action && lists[i].occurrence == occurrence {
            return Some(i);
        }
        i += 1;
    }
    None
}

proof fn lemma_placed(s: Seq<(int, Seq<char>)>, x: (int, Seq<char>), at: int)
    requires
        0 <= at <= s.len(),
        forall|i: int| at <= i < s.len() ==> (#[trigger] s[i]).0 > x.0,
        at > 0 ==> s[at - 1].0 <= x.0,
    ensures
        placed(s, x) == s.insert(at, x),
    decreases s.len(),
{
    if at < s.len() {
        lemma_placed(s.drop_last(), x, at);
        assert(s.drop_last().insert(at, x).push(s.last()) =~= s.insert(at, x));
    } else {
        assert(s.insert(at, x) =~= s.push(x));
    }
}

/// Adds an insertion to a list that is in order.
fn place(out: &mut Vec<(usize, String)>, x: (usize, String))
    ensures
        insertions_view(final(out)@) == placed(insertions_view(old(out)@), (x.0 as int, x.1@)),
{
    let mut at: usize = out.len();
    while at > 0 && out[at - 1].0 > x.0
        invariant
            at <= out@.len(),
            out@ == old(out)@,
            forall|i: int| at <= i < out@.len() ==> (#[trigger] out@[i]).0 > x.0,
        decreases at,
    {
        at -= 1;
    }
    let ghost view = (x.0 as int, x.1@);
    proof {
        lemma_placed(insertions_view(out@), view, at as int);
    }
    out.insert(at, x);
    proof {
        assert(insertions_view(out@) =~= insertions_view(old(out)@).insert(at as int, view));
    }
}

/// Puts `t` into `s` at a position.
fn insert_text(s: &Vec<char>, at: usize, t: &str) -> (r: Vec<char>)
    requires
        at <= s@.len(),
    ensures
        r@ == with_text(s@, at as int, t@),
{
    let mut out: Vec<char> = Vec::new();
    let mut i: usize = 0;
    while i < at
        invariant
            i <= at <= s@.len(),
            out@ =~= s@.take(i as int),
        decreases at - i,
    {
        out.push(s[i]);
        i += 1;
    }
    let mut added = chars_of(t);
    out.append(&mut added);
    while i < s.len()
        invariant
            at <= i <= s@.len(),
            out@ =~= s@.take(at as int) + t@ + s@.subrange(at as int, i as int),
        decreases s@.len() - i,
    {
        out.push(s[i]);
        i += 1;
    }
    proof {
        assert(s@.subrange(at as int, i as int) =~= s@.skip(at as int));
    }
    out
}

proof fn lemma_placed_bound(s: Seq<(int, Seq<char>)>, x: (int, Seq<char>), bound: int)
    requires
        forall|i: int| 0 <= i < s.len() ==> 0 <= (#[trigger] s[i]).0 <= bound,
        0 <= x.0 <= bound,
    ensures
        forall|i: int| 0 <= i < placed(s, x).len() ==> 0 <= (#[trigger] placed(s, x)[i]).0 <= bound,
    decreases s.len(),
{
    if s.len() > 0 && s.last().0 > x.0 {
        lemma_placed_bound(s.drop_last(), x, bound);
        let before = placed(s.drop_last(), x);
        assert(s.last() == s[s.len() - 1]);
        assert forall|i: int| 0 <= i < placed(s, x).len() implies 0 <= (#[trigger] placed(
            s,
            x,
        )[i]).0 <= bound by {
            assert(i < before.len() ==> placed(s, x)[i] == before[i]);
        }
    }
}

/// Makes every insertion, the last one first.
fn insert_all(sql: &Vec<char>, ins: &Vec<(usize, String)>) -> (r: Vec<char>)
    requires
        forall|i: int| 0 <= i < ins@.len() ==> (#[trigger] ins@[i]).0 <= sql@.len(),
    ensures
        r@ == with_insertions(sql@, insertions_view(ins@)),
{
    let mut out = insert_text(sql, 0, "");
    let ghost views = insertions_view(ins@);
    proof {
        reveal_strlit("");
        assert(out@ =~= sql@);
        assert(views.take(views.len() as int) =~= views);
    }
    let mut k: usize = ins.len();
    while k > 0
        invariant
            k <= ins@.len(),
            views == insertions_view(ins@),
            forall|i: int| 0 <= i < ins@.len() ==> (#[trigger] ins@[i]).0 <= sql@.len(),
            sql@.len() <= out@.len(),
            with_insertions(sql@, views) == with_insertions(out@, views.take(k as int)),
        decreases k,
    {
        proof {
            assert(views.take(k as int).drop_last() =~= views.take(k - 1));
            assert(views.take(k as int).last() == views[k - 1]);
        }
        out = insert_text(&out, ins[k - 1].0, ins[k - 1].1.as_str());
        k -= 1;
    }
    out
}

/// Puts the column lists back into a text with the given tokens.
pub fn place_lists(sql: &str, tokens: &Vec<Token>, lists: &Vec<FkActionColumnList>) -> (r: Result<
    String,
    String,
>)
    ensures
        match (r, with_lists(sql@, token::token_views(tokens@), lists_view(lists@))) {
            (Ok(s), Ok(v)) => s@ == v,
            (Err(e), Err(m)) => e@ == m,
            _ => false,
        },
{
    let chars = chars_of(sql);
    let offsets = line_offsets(&chars);
    let ghost views = token::token_views(tokens@);
    let ghost lv = lists_view(lists@);
    let ghost start = Seen { nulls: 0, defaults: 0 };
    let size: usize = tokens.len();
    let mut sorted: Vec<(usize, String)> = Vec::new();
    let mut nulls: usize = 0;
    let mut defaults: usize = 0;
    let mut i: usize = 0;
    let mut count: usize = 0;
    let ghost mut done: Seq<(int, Seq<char>)> = seq![];
    proof {
        let all = insertions(sql@, views, lv, 0, start);
        assert(done + all =~= all);
    }
    while i < size
        invariant
            i <= size == tokens@.len(),
            nulls <= i,
            defaults <= i,
            count <= i,
            views == token::token_views(tokens@),
            chars@ == sql@,
            lv == lists_view(lists@),
            start == (Seen { nulls: 0, defaults: 0 }),
            offsets@.len() == split::line_starts(chars@).len(),
            forall|j: int|
                0 <= j < offsets@.len() ==> #[trigger] offsets@[j] == split::line_starts(chars@)[j],
            count == done.len(),
            insertions_view(sorted@) == by_place(done),
            forall|j: int| 0 <= j < sorted@.len() ==> (#[trigger] sorted@[j]).0 <= chars@.len(),
            insertions(sql@, views, lv, 0, start) == done + insertions(
                sql@,
                views,
                lv,
                i as int,
                Seen { nulls: nulls as int, defaults: defaults as int },
            ),
        decreases size - i,
    {
        let ghost seen = Seen { nulls: nulls as int, defaults: defaults as int };
        let ghost step = insertions(sql@, views, lv, i as int, seen);
        let ghost before = done;
        if let Some(action) = read_action(tokens, i) {
            let occurrence: usize = match action {
                FkSetAction::Null => nulls,
                FkSetAction::Default => defaults,
            };
            match action {
                FkSetAction::Null => {
                    nulls += 1;
                },
                FkSetAction::Default => {
                    defaults += 1;
                },
            }
            if let Some(k) = find_list(lists, action, occurrence) {
                let t = &tokens[i];
                let insert_at: usize = loc_to_offset(&chars, &offsets, t.end_line, t.end_column);
                let mut added = " ".to_owned();
                added.append(lists[k].columns.as_str());
                let ghost x = (insert_at as int, added@);
                let ghost old_sorted = insertions_view(sorted@);
                proof {
                    assert forall|j: int| 0 <= j < old_sorted.len() implies 0 <= (
                    #[trigger] old_sorted[j]).0 <= chars@.len() by {
                        assert(sorted@[j].0 <= chars@.len());
                    }
                    lemma_placed_bound(old_sorted, x, chars@.len() as int);
                }
                place(&mut sorted, (insert_at, added));
                count += 1;
                proof {
                    done = done.push(x);
                    assert(done.drop_last() =~= before);
                    assert forall|j: int| 0 <= j < sorted@.len() implies (#[trigger] sorted@[j]).0
                        <= chars@.len() by {
                        assert(insertions_view(sorted@)[j].0 <= chars@.len());
                    }
                }
            }
        }
        i += 1;
        proof {
            let rest = insertions(
                sql@,
                views,
                lv,
                i as int,
                Seen { nulls: nulls as int, defaults: defaults as int },
            );
            assert(before + step =~= done + rest);
        }
    }
    proof {
        assert(insertions(sql@, views, lv, 0, start) =~= done);
    }
    if count != lists.len() {
        let mut message = "restored ".to_owned();
        message.append(decimal_text(count as u64).as_str());
        message.append(" of ");
        message.append(decimal_text(lists.len() as u64).as_str());
        message.append(" foreign-key action column lists");
        return Err(message);
    }
    let out = insert_all(&chars, &sorted);
    let text = slice_text(&out, 0, out.len());
    proof {
        assert(text@ =~= out@);
    }
    Ok(text)
}

/// Puts the column lists back into the text of a rewritten statement.
pub fn restore_fk_action_column_lists(sql: &str, gap: &FkParserGap) -> (r: Result<String, String>)
    ensures
        match (r, restored(sql@, lists_view(gap.action_column_lists@))) {
            (Ok(s), Ok(v)) => s@ == v,
            (Err(e), Err(m)) => e@ == m,
            _ => false,
        },
{
    let tokens = match read_significant(sql) {
        Ok(tokens) => tokens,
        Err(e) => {
            return Err(e);
        },
    };
    place_lists(sql, &tokens, &gap.action_column_lists)
}

/// Whether the lists behind actions of one kind have rising numbers, from those seen on.
pub open spec fn numbered(lists: Seq<ActionList>, seen: Seen) -> bool {
    &&& forall|i: int|
        0 <= i < lists.len() ==> (#[trigger] lists[i]).occurrence >= seen_of(
            seen,
            lists[i].action,
        )
    &&& forall|i: int, j: int|
        0 <= i < j < lists.len() && (#[trigger] lists[i]).action == (#[trigger] lists[j]).action
            ==> lists[i].occurrence < lists[j].occurrence
}

proof fn lemma_numbered(ts: Seq<token::TokenView>, at: int, seen: Seen)
    ensures
        numbered(bridged(ts, at, seen).1, seen),
    decreases ts.len() - at,
{
    if 0 <= at < ts.len() {
        match action_at(ts, at) {
            None => {
                lemma_numbered(ts, at + 1, seen);
            },
            Some(action) => {
                let more = seen_more(seen, action);
                match list_behind(ts, at) {
                    None => {
                        lemma_numbered(ts, at + 1, more);
                        let lists = bridged(ts, at, seen).1;
                        assert forall|i: int| 0 <= i < lists.len() implies (
                        #[trigger] lists[i]).occurrence >= seen_of(seen, lists[i].action) by {
                            assert(lists[i].occurrence >= seen_of(more, lists[i].action));
                        }
                    },
                    Some((_, end)) => {
                        lemma_column_list_end(ts, at + 2);
                        lemma_numbered(ts, end, more);
                        let rest = bridged(ts, end, more).1;
                        let lists = bridged(ts, at, seen).1;
                        assert forall|i: int| 0 <= i < lists.len() implies (
                        #[trigger] lists[i]).occurrence >= seen_of(seen, lists[i].action) by {
                            if i > 0 {
                                assert(rest[i - 1] == lists[i]);
                                assert(rest[i - 1].occurrence >= seen_of(
                                    more,
                                    rest[i - 1].action,
                                ));
                            }
                        }
                        assert forall|i: int, j: int|
                            0 <= i < j < lists.len() && (#[trigger] lists[i]).action == (
                            #[trigger] lists[j]).action implies lists[i].occurrence
                            < lists[j].occurrence by {
                            assert(rest[j - 1] == lists[j]);
                            if i > 0 {
                                assert(rest[i - 1] == lists[i]);
                            } else {
                                assert(rest[j - 1].occurrence >= seen_of(
                                    more,
                                    rest[j - 1].action,
                                ));
                            }
                        }
                    },
                }
            },
        }
    }
}

proof fn lemma_list_of(lists: Seq<ActionList>, seen: Seen, i: int)
    requires
        numbered(lists, seen),
        0 <= i < lists.len(),
    ensures
        list_of(lists, lists[i].action, lists[i].occurrence) == Some(lists[i].columns),
    decreases lists.len(),
{
    if i > 0 {
        let rest = lists.skip(1);
        assert forall|k: int| 0 <= k < rest.len() implies (#[trigger] rest[k]).occurrence
            >= seen_of(seen, rest[k].action) by {
            assert(rest[k] == lists[k + 1]);
        }
        assert forall|k: int, j: int|
            0 <= k < j < rest.len() && (#[trigger] rest[k]).action == (
            #[trigger] rest[j]).action implies rest[k].occurrence < rest[j].occurrence by {
            assert(rest[k] == lists[k + 1] && rest[j] == lists[j + 1]);
        }
        lemma_list_of(rest, seen, i - 1);
        assert(rest[i - 1] == lists[i]);
        assert(lists[0].action == lists[i].action ==> lists[0].occurrence < lists[i].occurrence);
    }
}

/// Every column list that is taken out can be found again, by the kind and the number of the
/// action that it stood behind, and by no other.
pub proof fn law_lists_are_told_apart(sql: Seq<char>, i: int)
    requires
        fk_gap(sql) matches Some((_, lists)) && 0 <= i < lists.len(),
    ensures
        ({
            let lists = fk_gap(sql)->Some_0.1;
            &&& list_of(lists, lists[i].action, lists[i].occurrence) == Some(lists[i].columns)
            &&& forall|j: int|
                0 <= j < lists.len() && j != i ==> !((#[trigger] lists[j]).action
                    == lists[i].action && lists[j].occurrence == lists[i].occurrence)
        }),
{
    let ts = significant_tokens(sql)->Ok_0;
    let none = Seen { nulls: 0, defaults: 0 };
    lemma_numbered(ts, 0, none);
    lemma_list_of(fk_gap(sql)->Some_0.1, none, i);
}

/// A statement that is bridged has a column list, so that putting the lists back is never putting
/// back nothing.
pub proof fn law_bridged_statements_have_lists(sql: Seq<char>)
    requires
        fk_gap(sql) is Some,
    ensures
        fk_gap(sql)->Some_0.1.len() > 0,
{
}

/// Text is put back into a statement, and none is taken from it: where one insertion is made the
/// statement is what stands before it and behind it.
pub proof fn law_insertion_keeps_the_text(s: Seq<char>, at: int, t: Seq<char>)
    requires
        0 <= at <= s.len(),
    ensures
        with_text(s, at, t).take(at) + with_text(s, at, t).skip(at + t.len()) == s,
        with_text(s, at, t).subrange(at, at + t.len()) == t,
{
    let w = with_text(s, at, t);
    assert(w.take(at) =~= s.take(at));
    assert(w.skip(at + t.len()) =~= s.skip(at));
    assert(s.take(at) + s.skip(at) =~= s);
    assert(w.subrange(at, at + t.len()) =~= t);
}

/// The tokens that `ts[at..]` leaves without its action column lists.
pub open spec fn kept(ts: Seq<token::TokenView>, at: int) -> Seq<token::TokenView>
    decreases ts.len() - at,
{
    if !(0 <= at < ts.len()) {
        seq![]
    } else {
        match (action_at(ts, at), list_behind(ts, at)) {
            (Some(_), Some((_, end))) => {
                proof {
                    lemma_column_list_end(ts, at + 2);
                }
                seq![ts[at]] + kept(ts, end)
            },
            _ => seq![ts[at]] + kept(ts, at + 1),
        }
    }
}

/// Whether two tokens say the same, wherever they stand.
pub open spec fn says_same(a: token::TokenView, b: token::TokenView) -> bool {
    a.class == b.class && a.word == b.word && a.quoted == b.quoted && a.keyword == b.keyword
}

/// Whether two texts say the same, token by token.
pub open spec fn all_say_same(us: Seq<token::TokenView>, ts: Seq<token::TokenView>) -> bool {
    us.len() == ts.len() && forall|i: int|
        0 <= i < us.len() ==> says_same(#[trigger] us[i], ts[i])
}

/// Whether no word that leads to an action stands at `i`.
spec fn no_lead(ts: Seq<token::TokenView>, i: int) -> bool {
    !keyword_at(ts, i, "ON"@) && !keyword_at(ts, i, "DELETE"@) && !keyword_at(ts, i, "SET"@)
}

/// Whether what stands before `q` and before `at` leads to the same actions: the last `m` tokens
/// say the same, and those before them, where they are fewer than three, lead to none.
spec fn aligned(
    us: Seq<token::TokenView>,
    q: int,
    ts: Seq<token::TokenView>,
    at: int,
    m: int,
) -> bool {
    &&& 0 <= m <= 3 && m <= q <= us.len() && m <= at <= ts.len()
    &&& forall|j: int| 1 <= j <= m ==> says_same(#[trigger] us[q - j], ts[at - j])
    &&& m < 3 ==> no_lead(us, q - m - 1) && no_lead(ts, at - m - 1)
}

proof fn lemma_same_action(
    us: Seq<token::TokenView>,
    q: int,
    ts: Seq<token::TokenView>,
    at: int,
    m: int,
)
    requires
        aligned(us, q, ts, at, m),
        q < us.len(),
        at < ts.len(),
        says_same(us[q], ts[at]),
    ensures
        action_at(us, q) == action_at(ts, at),
{
    if m >= 1 {
        assert(says_same(us[q - 1], ts[at - 1]));
    }
    if m >= 2 {
        assert(says_same(us[q - 2], ts[at - 2]));
    }
    if m >= 3 {
        assert(says_same(us[q - 3], ts[at - 3]));
    }
}

proof fn lemma_action_is_no_lead(ts: Seq<token::TokenView>, at: int)
    requires
        action_at(ts, at) is Some,
    ensures
        no_lead(ts, at),
{
    reveal_strlit("ON");
    reveal_strlit("DELETE");
    reveal_strlit("SET");
    reveal_strlit("NULL");
    reveal_strlit("DEFAULT");
    assert(text::lowered("ON"@).len() == 2);
    assert(text::lowered("DELETE"@).len() == 6);
    assert(text::lowered("SET"@).len() == 3);
    assert(text::lowered("NULL"@).len() == 4);
    assert(text::lowered("DEFAULT"@).len() == 7);
}

proof fn lemma_list_ends_in_parenthesis(ts: Seq<token::TokenView>, at: int)
    ensures
        column_list(ts, at) matches Some((_, end)) ==> class_at(ts, end - 1, TokenClass::RParen),
    decreases ts.len() - at,
{
    if class_at(ts, at, TokenClass::Word) && class_at(ts, at + 1, TokenClass::Comma) {
        lemma_list_ends_in_parenthesis(ts, at + 2);
    }
}

/// Whether a list is the one behind the given action.
spec fn is_list(l: ActionList, action: FkSetAction, occurrence: int) -> bool {
    l.action == action && l.occurrence == occurrence
}

proof fn lemma_list_behind_others(
    done: Seq<ActionList>,
    rest: Seq<ActionList>,
    action: FkSetAction,
    occurrence: int,
)
    requires
        forall|i: int| 0 <= i < done.len() ==> !is_list(#[trigger] done[i], action, occurrence),
    ensures
        list_of(done + rest, action, occurrence) == list_of(rest, action, occurrence),
    decreases done.len(),
{
    if done.len() == 0 {
        assert(done + rest =~= rest);
    } else {
        let less = done.skip(1);
        assert forall|i: int| 0 <= i < less.len() implies !is_list(
            #[trigger] less[i],
            action,
            occurrence,
        ) by {
            assert(less[i] == done[i + 1]);
        }
        lemma_list_behind_others(less, rest, action, occurrence);
        assert((done + rest).skip(1) =~= less + rest);
        assert(!is_list(done[0], action, occurrence));
        assert((done + rest)[0] == done[0]);
    }
}

proof fn lemma_no_list(lists: Seq<ActionList>, action: FkSetAction, occurrence: int)
    requires
        forall|i: int| 0 <= i < lists.len() ==> !is_list(#[trigger] lists[i], action, occurrence),
    ensures
        list_of(lists, action, occurrence) is None,
{
    lemma_list_behind_others(lists, seq![], action, occurrence);
    assert(lists + seq![] =~= lists);
}

/// The texts that insertions put in.
pub open spec fn inserted_texts(ins: Seq<(int, Seq<char>)>) -> Seq<Seq<char>> {
    ins.map_values(|x: (int, Seq<char>)| x.1)
}

/// Column lists as they are put back.
pub open spec fn list_texts(lists: Seq<ActionList>) -> Seq<Seq<char>> {
    lists.map_values(|l: ActionList| " "@ + l.columns)
}

/// The column lists in `ts[at..]` as they are put back, each with the number of the kept token that
/// it stands behind, counted from `q`.
pub open spec fn marks(ts: Seq<token::TokenView>, at: int, q: int) -> Seq<(int, Seq<char>)>
    decreases ts.len() - at,
{
    if !(0 <= at < ts.len()) {
        seq![]
    } else {
        match (action_at(ts, at), list_behind(ts, at)) {
            (Some(_), Some((names, end))) => {
                proof {
                    lemma_column_list_end(ts, at + 2);
                }
                seq![(q, " "@ + column_list_text(names))] + marks(ts, end, q + 1)
            },
            _ => marks(ts, at + 1, q + 1),
        }
    }
}

/// The marks as insertions behind the tokens of a text.
pub open spec fn placed_marks(
    sql: Seq<char>,
    us: Seq<token::TokenView>,
    ms: Seq<(int, Seq<char>)>,
) -> Seq<(int, Seq<char>)> {
    ms.map_values(
        |m: (int, Seq<char>)| (split::position(sql, us[m.0].end_line, us[m.0].end_column), m.1),
    )
}

proof fn lemma_lists_return(
    sql: Seq<char>,
    us: Seq<token::TokenView>,
    q: int,
    ts: Seq<token::TokenView>,
    at: int,
    m: int,
    seen: Seen,
    done: Seq<ActionList>,
)
    requires
        aligned(us, q, ts, at, m),
        all_say_same(us.skip(q), kept(ts, at)),
        forall|i: int|
            0 <= i < done.len() ==> (#[trigger] done[i]).occurrence < seen_of(
                seen,
                done[i].action,
            ),
    ensures
        inserted_texts(insertions(sql, us, done + bridged(ts, at, seen).1, q, seen)) == list_texts(
            bridged(ts, at, seen).1,
        ),
        insertions(sql, us, done + bridged(ts, at, seen).1, q, seen) == placed_marks(
            sql,
            us,
            marks(ts, at, q),
        ),
    decreases ts.len() - at,
{
    let rest = bridged(ts, at, seen).1;
    let all = done + rest;
    if at >= ts.len() {
        assert(us.skip(q).len() == 0);
        assert(insertions(sql, us, all, q, seen) =~= placed_marks(sql, us, marks(ts, at, q)));
        assert(inserted_texts(insertions(sql, us, all, q, seen)) =~= list_texts(rest));
    } else {
        let tail = us.skip(q);
        assert(kept(ts, at)[0] == ts[at]);
        assert(says_same(tail[0], kept(ts, at)[0]));
        assert(tail[0] == us[q]);
        lemma_same_action(us, q, ts, at, m);
        let listed = action_at(ts, at) is Some && list_behind(ts, at) is Some;
        let next = if listed {
            list_behind(ts, at)->Some_0.1
        } else {
            at + 1
        };
        lemma_column_list_end(ts, at + 2);
        assert(kept(ts, at) =~= seq![ts[at]] + kept(ts, next));
        assert forall|i: int| 0 <= i < us.skip(q + 1).len() implies says_same(
            #[trigger] us.skip(q + 1)[i],
            kept(ts, next)[i],
        ) by {
            assert(says_same(tail[i + 1], kept(ts, at)[i + 1]));
            assert(tail[i + 1] == us.skip(q + 1)[i]);
        }
        let m2 = if listed {
            0int
        } else if m < 3 {
            m + 1
        } else {
            3int
        };
        if listed {
            lemma_action_is_no_lead(us, q);
            lemma_list_ends_in_parenthesis(ts, at + 2);
            assert(no_lead(ts, next - 1));
        } else {
            assert forall|j: int| 1 <= j <= m2 implies says_same(
                #[trigger] us[q + 1 - j],
                ts[next - j],
            ) by {
                if j > 1 {
                    assert(says_same(us[q - (j - 1)], ts[at - (j - 1)]));
                }
            }
        }
        assert(aligned(us, q + 1, ts, next, m2));
        match action_at(ts, at) {
            None => {
                lemma_lists_return(sql, us, q + 1, ts, next, m2, seen, done);
            },
            Some(action) => {
                let more = seen_more(seen, action);
                let occurrence = seen_of(seen, action);
                let later = bridged(ts, next, more).1;
                lemma_numbered(ts, next, more);
                assert forall|i: int| 0 <= i < done.len() implies !is_list(
                    #[trigger] done[i],
                    action,
                    occurrence,
                ) by {}
                lemma_list_behind_others(done, rest, action, occurrence);
                if listed {
                    let here = rest[0];
                    let held = done.push(here);
                    assert(rest =~= seq![here] + later);
                    assert(held + later =~= all);
                    assert forall|i: int| 0 <= i < held.len() implies (
                    #[trigger] held[i]).occurrence < seen_of(more, held[i].action) by {
                        if i < done.len() {
                            assert(held[i] == done[i]);
                        }
                    }
                    lemma_lists_return(sql, us, q + 1, ts, next, m2, more, held);
                    let after = insertions(sql, us, all, q + 1, more);
                    assert(list_of(rest, action, occurrence) == Some(here.columns));
                    assert(insertions(sql, us, all, q, seen)[0].1 == " "@ + here.columns);
                    assert(inserted_texts(insertions(sql, us, all, q, seen)) =~= seq![
                        " "@ + here.columns,
                    ] + inserted_texts(after));
                    assert(list_texts(rest) =~= seq![" "@ + here.columns] + list_texts(later));
                    assert(insertions(sql, us, all, q, seen) =~= placed_marks(
                        sql,
                        us,
                        marks(ts, at, q),
                    ));
                } else {
                    assert forall|i: int| 0 <= i < done.len() implies (
                    #[trigger] done[i]).occurrence < seen_of(more, done[i].action) by {}
                    lemma_lists_return(sql, us, q + 1, ts, next, m2, more, done);
                    assert forall|i: int| 0 <= i < rest.len() implies !is_list(
                        #[trigger] rest[i],
                        action,
                        occurrence,
                    ) by {
                        assert(rest[i].occurrence >= seen_of(more, rest[i].action));
                    }
                    lemma_no_list(rest, action, occurrence);
                }
            },
        }
    }
}

/// Taking the column lists out of a statement and putting them back is a round trip: in a text
/// whose tokens say what was left of the statement, every list finds its place behind its action,
/// in order, and none is refused.
pub proof fn law_lists_come_back(
    ts: Seq<token::TokenView>,
    sql: Seq<char>,
    us: Seq<token::TokenView>,
)
    requires
        all_say_same(us, kept(ts, 0)),
    ensures
        ({
            let none = Seen { nulls: 0, defaults: 0 };
            let lists = bridged(ts, 0, none).1;
            let ins = insertions(sql, us, lists, 0, none);
            &&& inserted_texts(ins) == list_texts(lists)
            &&& with_lists(sql, us, lists) == Ok::<Seq<char>, Seq<char>>(
                with_insertions(sql, by_place(ins)),
            )
        }),
{
    let none = Seen { nulls: 0, defaults: 0 };
    let lists = bridged(ts, 0, none).1;
    assert(us.skip(0) =~= us);
    assert(Seq::<ActionList>::empty() + lists =~= lists);
    lemma_lists_return(sql, us, 0, ts, 0, 0, none, seq![]);
    let ins = insertions(sql, us, lists, 0, none);
    assert(inserted_texts(ins).len() == list_texts(lists).len());
}

/// What is left of a statement without its column lists is what its kept tokens are written as.
pub proof fn law_kept_tokens_are_the_statement(ts: Seq<token::TokenView>, at: int, seen: Seen)
    ensures
        bridged(ts, at, seen).0 == kept(ts, at).map_values(|t: token::TokenView| t.text),
    decreases ts.len() - at,
{
    let texts = kept(ts, at).map_values(|t: token::TokenView| t.text);
    if 0 <= at < ts.len() {
        lemma_column_list_end(ts, at + 2);
        let more = match action_at(ts, at) {
            Some(action) => seen_more(seen, action),
            None => seen,
        };
        let next = match (action_at(ts, at), list_behind(ts, at)) {
            (Some(_), Some((_, end))) => end,
            _ => at + 1,
        };
        law_kept_tokens_are_the_statement(ts, next, more);
        assert(texts =~= seq![ts[at].text] + kept(ts, next).map_values(
            |t: token::TokenView| t.text,
        ));
    } else {
        assert(texts =~= seq![]);
    }
}

/// The round trip of a statement: where the tokenizer reads what is left of it as the tokens that
/// were left, putting the lists back succeeds.
pub proof fn law_bridged_statement_is_restored(sql: Seq<char>)
    ensures
        fk_gap(sql) matches Some((parseable, lists)) ==> (significant_tokens(parseable) matches Ok(
            us,
        ) ==> all_say_same(us, kept(significant_tokens(sql)->Ok_0, 0)) ==> restored(
            parseable,
            lists,
        ) is Ok),
{
    if let Some((parseable, _)) = fk_gap(sql) {
        if let Ok(us) = significant_tokens(parseable) {
            let ts = significant_tokens(sql)->Ok_0;
            if all_say_same(us, kept(ts, 0)) {
                law_lists_come_back(ts, parseable, us);
            }
        }
    }
}

/// Where the `i`th of texts that are joined by blanks ends.
pub open spec fn end_of(texts: Seq<Seq<char>>, i: int) -> int {
    text::joined(texts.take(i + 1), " "@).len() as int
}

/// What stands behind the `i`th of texts that are joined by blanks.
spec fn rest_behind(texts: Seq<Seq<char>>, i: int) -> Seq<char> {
    if i + 1 >= texts.len() {
        seq![]
    } else {
        " "@ + text::joined(texts.skip(i + 1), " "@)
    }
}

proof fn lemma_joined_parts(texts: Seq<Seq<char>>, i: int)
    requires
        0 <= i < texts.len(),
    ensures
        text::joined(texts, " "@) == text::joined(texts.take(i + 1), " "@) + rest_behind(texts, i),
    decreases texts.len(),
{
    if i + 1 == texts.len() {
        assert(texts.take(i + 1) =~= texts);
        assert(text::joined(texts, " "@) + seq![] =~= text::joined(texts, " "@));
    } else {
        let front = texts.drop_last();
        lemma_joined_parts(front, i);
        assert(front.take(i + 1) =~= texts.take(i + 1));
        let tail = texts.skip(i + 1);
        assert(tail.last() == texts.last());
        if i + 1 == front.len() {
            assert(tail =~= seq![texts.last()]);
            assert(text::joined(front, " "@) + " "@ + texts.last() =~= text::joined(front, " "@) + (
            " "@ + texts.last()));
            assert(front.take(i + 1) =~= front);
        } else {
            assert(tail.drop_last() =~= front.skip(i + 1));
            let a = text::joined(texts.take(i + 1), " "@);
            let b = text::joined(front.skip(i + 1), " "@);
            assert((a + (" "@ + b)) + " "@ + texts.last() =~= a + (" "@ + (b + " "@
                + texts.last())));
        }
    }
}

/// Text that is put in behind one of texts that are joined by blanks stands behind that text.
proof fn lemma_put_behind(texts: Seq<Seq<char>>, i: int, x: Seq<char>)
    requires
        0 <= i < texts.len(),
    ensures
        with_text(text::joined(texts, " "@), end_of(texts, i), x) == text::joined(
            texts.update(i, texts[i] + x),
            " "@,
        ),
        forall|j: int|
            0 <= j < i ==> #[trigger] end_of(texts.update(i, texts[i] + x), j) == end_of(texts, j),
{
    let more = texts.update(i, texts[i] + x);
    let s = text::joined(texts, " "@);
    let a = text::joined(texts.take(i + 1), " "@);
    let z = rest_behind(texts, i);
    lemma_joined_parts(texts, i);
    lemma_joined_parts(more, i);
    assert(more.skip(i + 1) =~= texts.skip(i + 1));
    assert(rest_behind(more, i) == z);
    let head = more.take(i + 1);
    assert(head.drop_last() =~= texts.take(i + 1).drop_last());
    assert(head.last() == texts[i] + x);
    assert(texts.take(i + 1).last() == texts[i]);
    if i == 0 {
        assert(text::joined(head, " "@) =~= a + x);
    } else {
        let b = text::joined(head.drop_last(), " "@);
        assert(b + " "@ + (texts[i] + x) =~= (b + " "@ + texts[i]) + x);
    }
    assert(s.take(a.len() as int) =~= a);
    assert(s.skip(a.len() as int) =~= z);
    assert forall|j: int| 0 <= j < i implies #[trigger] end_of(more, j) == end_of(texts, j) by {
        assert(more.take(j + 1) =~= texts.take(j + 1));
    }
}

/// Whether marks stand behind some of `n` texts, one behind the other.
pub open spec fn rises(ms: Seq<(int, Seq<char>)>, n: int) -> bool {
    &&& forall|k: int| 0 <= k < ms.len() ==> 0 <= (#[trigger] ms[k]).0 < n
    &&& forall|k: int, l: int|
        0 <= k < l < ms.len() ==> (#[trigger] ms[k]).0 < (#[trigger] ms[l]).0
}

/// The texts, each with what its mark puts behind it.
spec fn marked(texts: Seq<Seq<char>>, ms: Seq<(int, Seq<char>)>) -> Seq<Seq<char>>
    decreases ms.len(),
{
    if ms.len() == 0 {
        texts
    } else {
        let m = ms.last();
        marked(texts.update(m.0, texts[m.0] + m.1), ms.drop_last())
    }
}

proof fn lemma_marked(texts: Seq<Seq<char>>, ms: Seq<(int, Seq<char>)>)
    requires
        rises(ms, texts.len() as int),
    ensures
        marked(texts, ms).len() == texts.len(),
        forall|k: int|
            0 <= k < ms.len() ==> marked(texts, ms)[(#[trigger] ms[k]).0] == texts[ms[k].0]
                + ms[k].1,
        forall|i: int|
            0 <= i < texts.len() && (forall|k: int| 0 <= k < ms.len() ==> (#[trigger] ms[k]).0 != i)
                ==> #[trigger] marked(texts, ms)[i] == texts[i],
    decreases ms.len(),
{
    if ms.len() > 0 {
        let m = ms.last();
        let front = ms.drop_last();
        let more = texts.update(m.0, texts[m.0] + m.1);
        assert(m == ms[ms.len() - 1]);
        assert forall|k: int| 0 <= k < front.len() implies 0 <= (#[trigger] front[k]).0
            < more.len() && front[k].0 < m.0 by {
            assert(front[k] == ms[k]);
        }
        assert forall|k: int, l: int| 0 <= k < l < front.len() implies (#[trigger] front[k]).0 < (
        #[trigger] front[l]).0 by {
            assert(front[k] == ms[k] && front[l] == ms[l]);
        }
        lemma_marked(more, front);
        let all = marked(texts, ms);
        assert forall|k: int| 0 <= k < ms.len() implies all[(#[trigger] ms[k]).0]
            == texts[ms[k].0] + ms[k].1 by {
            if k < front.len() {
                assert(front[k] == ms[k]);
            } else {
                assert(forall|l: int| 0 <= l < front.len() ==> (#[trigger] front[l]).0 != m.0);
                assert(all[m.0] == more[m.0]);
            }
        }
        assert forall|i: int|
            0 <= i < texts.len() && (forall|k: int|
                0 <= k < ms.len() ==> (#[trigger] ms[k]).0 != i) implies #[trigger] all[i]
            == texts[i] by {
            assert forall|k: int| 0 <= k < front.len() implies (#[trigger] front[k]).0 != i by {
                assert(front[k] == ms[k]);
            }
            assert(ms[ms.len() - 1].0 != i);
            assert(all[i] == more[i]);
        }
    }
}

/// Marks as insertions behind texts that are joined by blanks.
spec fn joined_marks(texts: Seq<Seq<char>>, ms: Seq<(int, Seq<char>)>) -> Seq<(int, Seq<char>)> {
    ms.map_values(|m: (int, Seq<char>)| (end_of(texts, m.0), m.1))
}

proof fn lemma_insertions_mark(texts: Seq<Seq<char>>, ms: Seq<(int, Seq<char>)>)
    requires
        rises(ms, texts.len() as int),
    ensures
        with_insertions(text::joined(texts, " "@), joined_marks(texts, ms)) == text::joined(
            marked(texts, ms),
            " "@,
        ),
    decreases ms.len(),
{
    if ms.len() > 0 {
        let m = ms.last();
        let front = ms.drop_last();
        let more = texts.update(m.0, texts[m.0] + m.1);
        assert(m == ms[ms.len() - 1]);
        assert forall|k: int| 0 <= k < front.len() implies 0 <= (#[trigger] front[k]).0
            < more.len() && front[k].0 < m.0 by {
            assert(front[k] == ms[k]);
        }
        assert forall|k: int, l: int| 0 <= k < l < front.len() implies (#[trigger] front[k]).0 < (
        #[trigger] front[l]).0 by {
            assert(front[k] == ms[k] && front[l] == ms[l]);
        }
        lemma_put_behind(texts, m.0, m.1);
        lemma_insertions_mark(more, front);
        assert(joined_marks(texts, ms).last() == (end_of(texts, m.0), m.1));
        assert(joined_marks(texts, ms).drop_last() =~= joined_marks(more, front)) by {
            assert forall|k: int| 0 <= k < front.len() implies joined_marks(texts, ms)[k]
                == joined_marks(more, front)[k] by {
                assert(front[k] == ms[k]);
                assert(end_of(more, front[k].0) == end_of(texts, front[k].0));
            }
        }
    }
}

proof fn lemma_ends_rise(texts: Seq<Seq<char>>, i: int, j: int)
    requires
        0 <= i <= j < texts.len(),
    ensures
        end_of(texts, i) <= end_of(texts, j),
{
    let head = texts.take(j + 1);
    lemma_joined_parts(head, i);
    assert(head.take(i + 1) =~= texts.take(i + 1));
}

proof fn lemma_by_place_keeps(ins: Seq<(int, Seq<char>)>)
    requires
        forall|k: int, l: int|
            0 <= k < l < ins.len() ==> (#[trigger] ins[k]).0 <= (#[trigger] ins[l]).0,
    ensures
        by_place(ins) == ins,
    decreases ins.len(),
{
    if ins.len() > 0 {
        let front = ins.drop_last();
        assert forall|k: int, l: int| 0 <= k < l < front.len() implies (#[trigger] front[k]).0 <= (
        #[trigger] front[l]).0 by {
            assert(front[k] == ins[k] && front[l] == ins[l]);
        }
        lemma_by_place_keeps(front);
        if front.len() > 0 {
            assert(ins[front.len() - 1].0 <= ins[ins.len() - 1].0);
        }
        assert(front.push(ins.last()) =~= ins);
    }
}

/// The kept tokens of `ts[at..]` as they are written, each with the column list that was behind it.
pub open spec fn whole_texts(ts: Seq<token::TokenView>, at: int) -> Seq<Seq<char>>
    decreases ts.len() - at,
{
    if !(0 <= at < ts.len()) {
        seq![]
    } else {
        match (action_at(ts, at), list_behind(ts, at)) {
            (Some(_), Some((names, end))) => {
                proof {
                    lemma_column_list_end(ts, at + 2);
                }
                seq![ts[at].text + (" "@ + column_list_text(names))] + whole_texts(ts, end)
            },
            _ => seq![ts[at].text] + whole_texts(ts, at + 1),
        }
    }
}

/// The texts of the tokens that are kept.
pub open spec fn kept_texts(ts: Seq<token::TokenView>, at: int) -> Seq<Seq<char>> {
    kept(ts, at).map_values(|t: token::TokenView| t.text)
}

proof fn lemma_whole_texts(ts: Seq<token::TokenView>, at: int, q: int)
    requires
        0 <= at,
    ensures
        whole_texts(ts, at).len() == kept_texts(ts, at).len(),
        forall|k: int|
            0 <= k < marks(ts, at, q).len() ==> q <= (#[trigger] marks(ts, at, q)[k]).0 < q
                + kept_texts(ts, at).len() && whole_texts(ts, at)[marks(ts, at, q)[k].0 - q]
                == kept_texts(ts, at)[marks(ts, at, q)[k].0 - q] + marks(ts, at, q)[k].1,
        forall|k: int, l: int|
            0 <= k < l < marks(ts, at, q).len() ==> (#[trigger] marks(ts, at, q)[k]).0 < (
            #[trigger] marks(ts, at, q)[l]).0,
        forall|i: int|
            0 <= i < kept_texts(ts, at).len() && (forall|k: int|
                0 <= k < marks(ts, at, q).len() ==> (#[trigger] marks(ts, at, q)[k]).0 != q + i)
                ==> #[trigger] whole_texts(ts, at)[i] == kept_texts(ts, at)[i],
    decreases ts.len() - at,
{
    if at < ts.len() {
        lemma_column_list_end(ts, at + 2);
        let listed = action_at(ts, at) is Some && list_behind(ts, at) is Some;
        let next = if listed {
            list_behind(ts, at)->Some_0.1
        } else {
            at + 1
        };
        lemma_whole_texts(ts, next, q + 1);
        let ms = marks(ts, at, q);
        let later = marks(ts, next, q + 1);
        let w = whole_texts(ts, at);
        let wl = whole_texts(ts, next);
        let t = kept_texts(ts, at);
        let tl = kept_texts(ts, next);
        let d = if listed {
            1int
        } else {
            0int
        };
        assert(t =~= seq![ts[at].text] + tl);
        assert(forall|k: int| d <= k < ms.len() ==> #[trigger] ms[k] == later[k - d]);
        assert forall|k: int| 0 <= k < ms.len() implies q <= (#[trigger] ms[k]).0 < q + t.len()
            && w[ms[k].0 - q] == t[ms[k].0 - q] + ms[k].1 by {
            if k >= d {
                assert(ms[k] == later[k - d]);
                assert(w[ms[k].0 - q] == wl[ms[k].0 - q - 1]);
                assert(t[ms[k].0 - q] == tl[ms[k].0 - q - 1]);
            }
        }
        assert forall|k: int, l: int| 0 <= k < l < ms.len() implies (#[trigger] ms[k]).0 < (
        #[trigger] ms[l]).0 by {
            assert(ms[l] == later[l - d]);
            if k >= d {
                assert(ms[k] == later[k - d]);
            }
        }
        assert forall|i: int|
            0 <= i < t.len() && (forall|k: int| 0 <= k < ms.len() ==> (#[trigger] ms[k]).0 != q + i)
            implies #[trigger] w[i] == t[i] by {
            if i == 0 {
                if listed {
                    assert(ms[0].0 == q);
                }
            } else {
                assert(w[i] == wl[i - 1]);
                assert(t[i] == tl[i - 1]);
                assert forall|k: int| 0 <= k < later.len() implies (#[trigger] later[k]).0 != q + 1
                    + (i - 1) by {
                    assert(ms[k + d] == later[k]);
                }
            }
        }
    }
}

/// A statement written out from its tokens: blanks between them, and each column list behind the
/// action that it stood behind.
pub open spec fn written(ts: Seq<token::TokenView>) -> Seq<char> {
    text::joined(whole_texts(ts, 0), " "@)
}

/// Whether tokens stand where texts that are joined by blanks have them.
pub open spec fn stand_as_written(
    sql: Seq<char>,
    us: Seq<token::TokenView>,
    texts: Seq<Seq<char>>,
) -> bool {
    us.len() == texts.len() && forall|i: int|
        0 <= i < us.len() ==> split::position(
            sql,
            (#[trigger] us[i]).end_line,
            us[i].end_column,
        ) == end_of(texts, i)
}

/// Whether the tokenizer reads what is left of a statement as the tokens that were left, each where
/// it is written.
pub open spec fn reads_left(ts: Seq<token::TokenView>) -> bool {
    let left = text::joined(kept_texts(ts, 0), " "@);
    significant_tokens(left) matches Ok(us) && all_say_same(us, kept(ts, 0)) && stand_as_written(
        left,
        us,
        kept_texts(ts, 0),
    )
}

/// Whether the tokenizer reads a statement that is written out from its tokens as those tokens.
pub open spec fn reads_written(ts: Seq<token::TokenView>) -> bool {
    significant_tokens(written(ts)) matches Ok(vs) && all_say_same(vs, ts)
}

/// Taking the column lists out of a statement and putting them back is a round trip on its text:
/// where the tokenizer reads what is left as what is left, the statement comes back as it is
/// written out from its own tokens, with every list in its place. Its tokens are then those of the
/// statement, where the tokenizer reads tokens that are written out as those tokens.
pub proof fn law_column_lists_make_a_round_trip(sql: Seq<char>)
    requires
        fk_gap(sql) is Some,
        reads_left(significant_tokens(sql)->Ok_0),
    ensures
        ({
            let ts = significant_tokens(sql)->Ok_0;
            let (parseable, lists) = fk_gap(sql)->Some_0;
            &&& restored(parseable, lists) == Ok::<Seq<char>, Seq<char>>(written(ts))
            &&& reads_written(ts) ==> (significant_tokens(
                restored(parseable, lists)->Ok_0,
            ) matches Ok(vs) && all_say_same(vs, ts))
        }),
{
    let ts = significant_tokens(sql)->Ok_0;
    let none = Seen { nulls: 0, defaults: 0 };
    let (parseable, lists) = fk_gap(sql)->Some_0;
    let texts = kept_texts(ts, 0);
    law_kept_tokens_are_the_statement(ts, 0, none);
    assert(parseable == text::joined(texts, " "@));
    let us = significant_tokens(parseable)->Ok_0;
    let ms = marks(ts, 0, 0);
    law_lists_come_back(ts, parseable, us);
    assert(us.skip(0) =~= us);
    assert(Seq::<ActionList>::empty() + lists =~= lists);
    lemma_lists_return(parseable, us, 0, ts, 0, 0, none, seq![]);
    let ins = insertions(parseable, us, lists, 0, none);
    assert(ins == placed_marks(parseable, us, ms));
    lemma_whole_texts(ts, 0, 0);
    assert(rises(ms, texts.len() as int));
    assert(ins =~= joined_marks(texts, ms)) by {
        assert forall|k: int| 0 <= k < ms.len() implies ins[k] == joined_marks(texts, ms)[k] by {
            let i = ms[k].0;
            assert(split::position(parseable, us[i].end_line, us[i].end_column) == end_of(texts, i));
        }
    }
    assert forall|k: int, l: int| 0 <= k < l < ins.len() implies (#[trigger] ins[k]).0 <= (
    #[trigger] ins[l]).0 by {
        assert(ms[k].0 < ms[l].0);
        lemma_ends_rise(texts, ms[k].0, ms[l].0);
    }
    lemma_by_place_keeps(ins);
    lemma_insertions_mark(texts, ms);
    lemma_marked(texts, ms);
    let w = whole_texts(ts, 0);
    assert(marked(texts, ms) =~= w) by {
        assert forall|i: int| 0 <= i < texts.len() implies marked(texts, ms)[i] == w[i] by {
            if exists|k: int| 0 <= k < ms.len() && (#[trigger] ms[k]).0 == i {
                let k = choose|k: int| 0 <= k < ms.len() && (#[trigger] ms[k]).0 == i;
                assert(w[ms[k].0 - 0] == texts[ms[k].0 - 0] + ms[k].1);
            }
        }
    }
}

} // verus!
