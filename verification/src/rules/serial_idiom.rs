//! The `SERIAL` idiom of a dump, folded into an identity column.
//!
//! A dump writes a serial column as four statements:
//!
//! ```sql
//! CREATE TABLE public.t (id integer NOT NULL, x text);
//! CREATE SEQUENCE public.t_id_seq START WITH 1 INCREMENT BY 1 CACHE 1;
//! ALTER SEQUENCE public.t_id_seq OWNED BY public.t.id;
//! ALTER TABLE ONLY public.t ALTER COLUMN id SET DEFAULT nextval('public.t_id_seq'::regclass);
//! ```
//!
//! The column becomes `BIGINT GENERATED BY DEFAULT AS IDENTITY (CACHE 1)`, and the other three
//! go. The parser does not read `ALTER SEQUENCE ... OWNED BY`, so that one is recognized by its
//! tokens.

use serde_json::Value;
use vstd::prelude::*;
use vstd::string::StringExecFns;

use crate::diagnostic::{self, Diagnostic, FixResult, LintRule};
use crate::gap::{self, consume_object_name, is_keyword_at, read_significant};
use crate::rules::constraint_collapse::{self, pretty_join, read_created, read_name};
use crate::rules::name_match::{
    self, drop_parts, fold_ident, normalize_dotted_identifier, parse_parts, pick_best_match,
    refs_match, NameRef,
};
use crate::shapes::{self, make_identity, one};
use crate::split::{self, Part};
use crate::syntax::{self, as_list, as_text, copy, get, is_null, list, null, parse, put, Dialect, Tree};
use crate::text::{self, eq_ignore_case, same, trim};
use crate::token::{self, Token};

verus! {

/// The name of the sequence that a statement creates.
pub open spec fn created_sequence(t: Tree) -> Option<name_match::NameView> {
    match syntax::member(t, "CreateSequence"@) {
        Some(cs) => name_match::normalized(token::field(cs, "name"@)),
        None => None,
    }
}

/// The folded names of the columns of a table.
pub open spec fn column_names(ct: Tree) -> Seq<Seq<char>> {
    name_match::items_of(token::field(ct, "columns"@)).map_values(
        |c: Tree| name_match::folded_ident(token::field(c, "name"@)),
    )
}

/// Whether a statement creates a table with the given column.
pub open spec fn creates_with_column(t: Tree, column: Seq<char>) -> bool {
    constraint_collapse::created_table(t) is Some && column_names(
        token::field(t, "CreateTable"@),
    ).contains(column)
}

/// The argument of an expression that may be a cast.
pub open spec fn uncast(e: Tree) -> Tree {
    match syntax::member(e, "Cast"@) {
        Some(c) => token::field(c, "expr"@),
        None => e,
    }
}

/// The text of a single-quoted literal.
pub open spec fn quoted_text(e: Tree) -> Option<Seq<char>> {
    match syntax::member(token::field(token::field(e, "Value"@), "value"@), "SingleQuotedString"@) {
        Some(Tree::Text(s)) => Some(s),
        _ => None,
    }
}

/// The sequence of a `nextval('seq')` or `nextval('seq'::regclass)` call.
pub open spec fn nextval_sequence(e: Tree) -> Option<name_match::NameView> {
    let f = token::field(e, "Function"@);
    let name = name_match::items_of(token::field(f, "name"@));
    let args = name_match::items_of(
        token::field(token::field(token::field(f, "args"@), "List"@), "args"@),
    );
    if name.len() == 0 || args.len() != 1 || syntax::member(name.last(), "Identifier"@) is None {
        None
    } else if !text::same_word(
        token::text_in(token::field(name.last(), "Identifier"@), "value"@),
        "nextval"@,
    ) {
        None
    } else {
        let arg = token::field(token::field(args[0], "Unnamed"@), "Expr"@);
        match quoted_text(uncast(arg)) {
            Some(s) => Some(name_match::normalized_text(s)),
            None => None,
        }
    }
}

/// The column and sequence of a statement that only sets a column's default to `nextval`.
pub open spec fn set_default(t: Tree) -> Option<(Seq<char>, name_match::NameView)> {
    let ops = name_match::items_of(
        token::field(token::field(t, "AlterTable"@), "operations"@),
    );
    if ops.len() != 1 {
        None
    } else {
        let alter = token::field(ops[0], "AlterColumn"@);
        let value = token::field(token::field(token::field(alter, "op"@), "SetDefault"@), "value"@);
        match nextval_sequence(value) {
            Some(sequence) => Some(
                (name_match::folded_ident(token::field(alter, "column_name"@)), sequence),
            ),
            None => None,
        }
    }
}

/// What the idiom can see of a statement: the table or the sequence that it creates, the columns of
/// the table, the column default that it sets, and the table that it alters.
#[verifier::ext_equal]
pub ghost struct Traits {
    pub created: Option<name_match::NameView>,
    pub columns: Seq<Seq<char>>,
    pub sequence: Option<name_match::NameView>,
    pub default: Option<(Seq<char>, name_match::NameView)>,
    pub altered: Option<name_match::NameView>,
}

/// What the idiom can see of a statement.
pub open spec fn traits(t: Tree) -> Traits {
    Traits {
        created: constraint_collapse::created_table(t),
        columns: column_names(token::field(t, "CreateTable"@)),
        sequence: created_sequence(t),
        default: set_default(t),
        altered: constraint_collapse::altered_table(t),
    }
}

/// A serial column: its table, its name, its sequence, and where the statements stand among
/// the parsed ones.
pub ghost struct Serial {
    pub table: name_match::NameView,
    pub column: Seq<char>,
    pub sequence: name_match::NameView,
    pub create: int,
    pub create_sequence: int,
    pub set_default: int,
}

/// The names of the sequences that the statements create, one for each statement.
pub open spec fn sequence_names(stmts: Seq<Tree>) -> Seq<name_match::NameView> {
    Seq::new(
        stmts.len(),
        |i: int|
            match created_sequence(stmts[i]) {
                Some(n) => n,
                None => (None, seq![]),
            },
    )
}

/// The serial column that the statement at `at` wires up: the table with that column and the
/// sequence must both be created in the script.
pub open spec fn serial_at(stmts: Seq<Tree>, at: int) -> Option<Serial> {
    match (set_default(stmts[at]), constraint_collapse::altered_table(stmts[at])) {
        (Some((column, sequence)), Some(table)) => {
            let create = name_match::best_match(
                constraint_collapse::created_names(stmts),
                Seq::new(stmts.len(), |i: int| creates_with_column(stmts[i], column)),
                table,
            );
            let created = name_match::best_match(
                sequence_names(stmts),
                Seq::new(stmts.len(), |i: int| created_sequence(stmts[i]) is Some),
                sequence,
            );
            match (create, created) {
                (Some(c), Some(q)) => Some(
                    Serial {
                        table: constraint_collapse::created_names(stmts)[c],
                        column,
                        sequence: sequence_names(stmts)[q],
                        create: c,
                        create_sequence: q,
                        set_default: at,
                    },
                ),
                _ => None,
            }
        },
        _ => None,
    }
}

/// The serial columns that the first `n` statements wire up, in their order.
pub open spec fn serials(stmts: Seq<Tree>, n: int) -> Seq<Serial>
    decreases n,
{
    if n <= 0 {
        seq![]
    } else {
        match serial_at(stmts, n - 1) {
            Some(s) => serials(stmts, n - 1).push(s),
            None => serials(stmts, n - 1),
        }
    }
}

/// A serial column spread over several statements.
#[derive(Debug)]
pub struct SerialIdiom {
    /// The table as its `CREATE TABLE` names it.
    pub table: NameRef,
    /// The column that becomes an identity column.
    pub column: String,
    /// The sequence as its `CREATE SEQUENCE` names it.
    pub sequence: NameRef,
    /// Where the `CREATE TABLE` stands, which is rewritten.
    pub create_table_index: usize,
    /// Where the `CREATE SEQUENCE` and the `SET DEFAULT` stand, which go.
    pub redundant_indices: Vec<usize>,
}

impl View for SerialIdiom {
    type V = Serial;

    open spec fn view(&self) -> Serial {
        Serial {
            table: name_match::name_view(self.table),
            column: self.column@,
            sequence: name_match::name_view(self.sequence),
            create: self.create_table_index as int,
            create_sequence: self.redundant_indices@[0] as int,
            set_default: self.redundant_indices@[1] as int,
        }
    }
}

/// The models of a list of idioms.
pub open spec fn serial_views(idioms: Seq<SerialIdiom>) -> Seq<Serial> {
    idioms.map_values(|i: SerialIdiom| i@)
}

/// The text of a single-quoted literal.
pub(crate) fn read_quoted<'a>(e: &'a Value) -> (r: Option<&'a str>)
    ensures
        match (r, quoted_text(syntax::tree(*e))) {
            (Some(s), Some(t)) => s@ == t,
            (None, None) => true,
            _ => false,
        },
{
    match get(e, "Value") {
        Some(v) => match get(v, "value") {
            Some(w) => match get(w, "SingleQuotedString") {
                Some(s) => as_text(s),
                None => None,
            },
            None => None,
        },
        None => None,
    }
}

/// The sequence of a `nextval` call.
pub fn extract_nextval_sequence(expr: &Value) -> (r: Option<NameRef>)
    ensures
        match (r, nextval_sequence(syntax::tree(*expr))) {
            (Some(n), Some(v)) => name_match::name_view(n) == v,
            (None, None) => true,
            _ => false,
        },
{
    let func = match get(expr, "Function") {
        Some(f) => f,
        None => {
            return None;
        },
    };
    let name = match get(func, "name") {
        Some(n) => match as_list(n) {
            Some(parts) => parts,
            None => {
                return None;
            },
        },
        None => {
            return None;
        },
    };
    if name.len() == 0 {
        return None;
    }
    let last = match get(&name[name.len() - 1], "Identifier") {
        Some(ident) => ident,
        None => {
            return None;
        },
    };
    let word = match get(last, "value") {
        Some(v) => match as_text(v) {
            Some(s) => s,
            None => "",
        },
        None => "",
    };
    proof {
        reveal_strlit("");
        assert(word@ =~= token::text_in(syntax::tree(*last), "value"@));
        assert(syntax::trees(name@).last() == syntax::tree(name@[name@.len() - 1]));
    }
    if !eq_ignore_case(word, "nextval") {
        return None;
    }
    let args = match get(func, "args") {
        Some(a) => match get(a, "List") {
            Some(l) => match get(l, "args") {
                Some(v) => match as_list(v) {
                    Some(args) => args,
                    None => {
                        return None;
                    },
                },
                None => {
                    return None;
                },
            },
            None => {
                return None;
            },
        },
        None => {
            return None;
        },
    };
    if args.len() != 1 {
        return None;
    }
    proof {
        assert(syntax::trees(args@)[0] == syntax::tree(args@[0]));
    }
    let arg = match get(&args[0], "Unnamed") {
        Some(u) => match get(u, "Expr") {
            Some(e) => e,
            None => {
                return None;
            },
        },
        None => {
            return None;
        },
    };
    let inner = match get(arg, "Cast") {
        Some(c) => match get(c, "expr") {
            Some(e) => e,
            None => {
                return None;
            },
        },
        None => arg,
    };
    match read_quoted(inner) {
        Some(s) => Some(normalize_dotted_identifier(s)),
        None => None,
    }
}

/// The column and sequence of a statement that only sets a column's default to `nextval`.
pub fn read_set_default(stmt: &Value) -> (r: Option<(String, NameRef)>)
    ensures
        match (r, set_default(syntax::tree(*stmt))) {
            (Some((c, n)), Some((column, sequence))) => c@ == column && name_match::name_view(n)
                == sequence,
            (None, None) => true,
            _ => false,
        },
{
    let ops = match get(stmt, "AlterTable") {
        Some(alter) => match get(alter, "operations") {
            Some(v) => match as_list(v) {
                Some(ops) => ops,
                None => {
                    return None;
                },
            },
            None => {
                return None;
            },
        },
        None => {
            return None;
        },
    };
    if ops.len() != 1 {
        return None;
    }
    proof {
        assert(syntax::trees(ops@)[0] == syntax::tree(ops@[0]));
    }
    let alter = match get(&ops[0], "AlterColumn") {
        Some(alter) => alter,
        None => {
            return None;
        },
    };
    let value = match get(alter, "op") {
        Some(op) => match get(op, "SetDefault") {
            Some(d) => match get(d, "value") {
                Some(value) => value,
                None => {
                    return None;
                },
            },
            None => {
                return None;
            },
        },
        None => {
            return None;
        },
    };
    match extract_nextval_sequence(value) {
        Some(sequence) => {
            let column = match get(alter, "column_name") {
                Some(ident) => fold_ident(ident),
                None => fold_ident(&null()),
            };
            Some((column, sequence))
        },
        None => None,
    }
}

/// The name of the sequence that a statement creates.
pub fn read_sequence(stmt: &Value) -> (r: Option<NameRef>)
    ensures
        match (r, created_sequence(syntax::tree(*stmt))) {
            (Some(n), Some(t)) => name_match::name_view(n) == t,
            (None, None) => true,
            _ => false,
        },
{
    match get(stmt, "CreateSequence") {
        Some(cs) => read_name(cs),
        None => None,
    }
}

/// The folded name of a column.
pub(crate) fn read_column_name(column: &Value) -> (r: String)
    ensures
        r@ == name_match::folded_ident(token::field(syntax::tree(*column), "name"@)),
{
    match get(column, "name") {
        Some(ident) => fold_ident(ident),
        None => fold_ident(&null()),
    }
}

/// Whether a statement creates a table with the given column.
#[verifier::loop_isolation(false)]
pub fn reads_column(stmt: &Value, column: &str) -> (r: bool)
    ensures
        r == creates_with_column(syntax::tree(*stmt), column@),
{
    if read_created(stmt).is_none() {
        return false;
    }
    let columns = match get(stmt, "CreateTable") {
        Some(ct) => match get(ct, "columns") {
            Some(v) => match as_list(v) {
                Some(columns) => columns,
                None => {
                    return false;
                },
            },
            None => {
                return false;
            },
        },
        None => {
            return false;
        },
    };
    let ghost names = column_names(token::field(syntax::tree(*stmt), "CreateTable"@));
    let ghost ts = syntax::trees(columns@);
    let mut i: usize = 0;
    while i < columns.len()
        invariant
            i <= columns@.len() == names.len(),
            ts == syntax::trees(columns@),
            forall|j: int|
                0 <= j < names.len() ==> #[trigger] names[j] == name_match::folded_ident(
                    token::field(ts[j], "name"@),
                ),
            forall|j: int| 0 <= j < i ==> names[j] != column@,
        decreases columns@.len() - i,
    {
        let name = read_column_name(&columns[i]);
        proof {
            assert(names[i as int] == name@);
        }
        if same(name.as_str(), column) {
            proof {
                assert(names.contains(column@));
            }
            return true;
        }
        i += 1;
    }
    false
}

/// Every serial column of the statements: a `SET DEFAULT nextval(...)` that stands alone in its
/// `ALTER TABLE`, whose table and sequence are both created here.
pub fn detect_serial_idioms(stmts: &Vec<Value>) -> (r: Vec<SerialIdiom>)
    ensures
        serial_views(r@) == serials(syntax::trees(stmts@), stmts@.len() as int),
        forall|i: int|
            0 <= i < r@.len() ==> (#[trigger] r@[i]).redundant_indices@.len() == 2
                && r@[i].create_table_index < stmts@.len() && r@[i].redundant_indices@[0]
                < stmts@.len() && r@[i].redundant_indices@[1] < stmts@.len(),
{
    let ghost ts = syntax::trees(stmts@);
    let size: usize = stmts.len();
    let mut tables: Vec<NameRef> = Vec::new();
    let mut sequences: Vec<NameRef> = Vec::new();
    let mut created: Vec<bool> = Vec::new();
    let mut i: usize = 0;
    while i < size
        invariant
            i <= size == stmts@.len(),
            ts == syntax::trees(stmts@),
            tables@.len() == i,
            sequences@.len() == i,
            created@.len() == i,
            forall|j: int|
                0 <= j < i ==> name_match::name_view(#[trigger] tables@[j])
                    == constraint_collapse::created_names(ts)[j],
            forall|j: int|
                0 <= j < i ==> name_match::name_view(#[trigger] sequences@[j]) == sequence_names(
                    ts,
                )[j],
            forall|j: int|
                0 <= j < i ==> #[trigger] created@[j] == (created_sequence(ts[j]) is Some),
        decreases size - i,
    {
        let none: NameRef = (None, String::new());
        match read_created(&stmts[i]) {
            Some(n) => {
                tables.push(n);
            },
            None => {
                tables.push(none);
            },
        }
        let none: NameRef = (None, String::new());
        match read_sequence(&stmts[i]) {
            Some(n) => {
                sequences.push(n);
                created.push(true);
            },
            None => {
                sequences.push(none);
                created.push(false);
            },
        }
        i += 1;
    }
    proof {
        assert(name_match::name_views(tables@) =~= constraint_collapse::created_names(ts));
        assert(name_match::name_views(sequences@) =~= sequence_names(ts));
        assert(created@ =~= Seq::new(ts.len(), |i: int| created_sequence(ts[i]) is Some));
    }
    let mut idioms: Vec<SerialIdiom> = Vec::new();
    let mut at: usize = 0;
    proof {
        assert(serial_views(idioms@) =~= seq![]);
    }
    while at < size
        invariant
            at <= size == stmts@.len(),
            ts == syntax::trees(stmts@),
            tables@.len() == size,
            sequences@.len() == size,
            created@.len() == size,
            name_match::name_views(tables@) == constraint_collapse::created_names(ts),
            name_match::name_views(sequences@) == sequence_names(ts),
            created@ == Seq::new(ts.len(), |i: int| created_sequence(ts[i]) is Some),
            serial_views(idioms@) == serials(ts, at as int),
            forall|i: int|
                0 <= i < idioms@.len() ==> (#[trigger] idioms@[i]).redundant_indices@.len() == 2
                    && idioms@[i].create_table_index < size && idioms@[i].redundant_indices@[0]
                    < size && idioms@[i].redundant_indices@[1] < size,
        decreases size - at,
    {
        let table = match get(&stmts[at], "AlterTable") {
            Some(alter) => read_name(alter),
            None => None,
        };
        if let (Some((column, sequence)), Some(table)) = (read_set_default(&stmts[at]), table) {
            let eligible = with_column(stmts, column.as_str());
            let create = pick_best_match(&tables, &eligible, &table);
            let found = pick_best_match(&sequences, &created, &sequence);
            if let (Some(c), Some(q)) = (create, found) {
                let ghost before = idioms@;
                let mut redundant: Vec<usize> = Vec::new();
                redundant.push(q);
                redundant.push(at);
                let owner: NameRef = copy_name(&tables[c]);
                let source: NameRef = copy_name(&sequences[q]);
                proof {
                    assert(name_match::name_views(tables@)[c as int] == name_match::name_view(
                        tables@[c as int],
                    ));
                    assert(name_match::name_views(sequences@)[q as int] == name_match::name_view(
                        sequences@[q as int],
                    ));
                }
                idioms.push(
                    SerialIdiom {
                        table: owner,
                        column,
                        sequence: source,
                        create_table_index: c,
                        redundant_indices: redundant,
                    },
                );
                proof {
                    assert(serial_views(idioms@) =~= serial_views(before).push(idioms@.last()@));
                }
            }
        }
        at += 1;
    }
    idioms
}

/// A copy of a name.
fn copy_name(n: &NameRef) -> (r: NameRef)
    ensures
        name_match::name_view(r) == name_match::name_view(*n),
{
    let schema = match &n.0 {
        Some(s) => Some(s.clone()),
        None => None,
    };
    (schema, n.1.clone())
}

/// Which statements create a table with the given column.
fn with_column(stmts: &Vec<Value>, column: &str) -> (r: Vec<bool>)
    ensures
        ({
            let ts = syntax::trees(stmts@);
            r@ == Seq::new(ts.len(), |i: int| creates_with_column(ts[i], column@))
        }),
{
    let ghost ts = syntax::trees(stmts@);
    let mut out: Vec<bool> = Vec::new();
    let mut i: usize = 0;
    while i < stmts.len()
        invariant
            i <= stmts@.len(),
            ts == syntax::trees(stmts@),
            out@.len() == i,
            forall|j: int|
                0 <= j < i ==> #[trigger] out@[j] == creates_with_column(ts[j], column@),
        decreases stmts@.len() - i,
    {
        out.push(reads_column(&stmts[i], column));
        i += 1;
    }
    proof {
        assert(out@ =~= Seq::new(ts.len(), |i: int| creates_with_column(ts[i], column@)));
    }
    out
}

/// The folded word of a token.
pub open spec fn folded_word(t: token::TokenView) -> Seq<char> {
    if t.quoted {
        t.word
    } else {
        text::lowered(t.word)
    }
}

/// The name in `ts[from..end]`: its last word, and the word before it if there is one.
pub open spec fn name_in(ts: Seq<token::TokenView>, from: int, end: int) -> name_match::NameView {
    (
        if end - from >= 3 {
            Some(folded_word(ts[end - 3]))
        } else {
            None
        },
        folded_word(ts[end - 1]),
    )
}

/// The sequence of `ALTER SEQUENCE [IF EXISTS] name OWNED BY ...`.
pub open spec fn owned_by(ts: Seq<token::TokenView>) -> Option<name_match::NameView> {
    let from = if gap::keyword_at(ts, 2, "IF"@) && gap::keyword_at(ts, 3, "EXISTS"@) {
        4int
    } else {
        2
    };
    if !gap::keyword_at(ts, 0, "ALTER"@) || !gap::keyword_at(ts, 1, "SEQUENCE"@) {
        None
    } else {
        match gap::name_end(ts, from) {
            Some(end) => if gap::keyword_at(ts, end, "OWNED"@) && gap::keyword_at(
                ts,
                end + 1,
                "BY"@,
            ) {
                Some(name_in(ts, from, end))
            } else {
                None
            },
            None => None,
        }
    }
}

/// The sequence that a text gives to a column.
pub open spec fn owned_sequence(sql: Seq<char>) -> Option<name_match::NameView> {
    match gap::significant_tokens(sql) {
        Ok(ts) => owned_by(ts),
        Err(_) => None,
    }
}

fn fold_word(t: &Token) -> (r: String)
    ensures
        r@ == folded_word(t@),
{
    if t.quoted {
        t.word.clone()
    } else {
        text::to_lower(t.word.as_str())
    }
}

/// The sequence that a text gives to a column.
pub fn read_owned_sequence(sql: &str) -> (r: Option<NameRef>)
    ensures
        match (r, owned_sequence(sql@)) {
            (Some(n), Some(v)) => name_match::name_view(n) == v,
            (None, None) => true,
            _ => false,
        },
{
    let tokens = match read_significant(sql) {
        Ok(tokens) => tokens,
        Err(_) => {
            return None;
        },
    };
    if !is_keyword_at(&tokens, 0, "ALTER") || !is_keyword_at(&tokens, 1, "SEQUENCE") {
        return None;
    }
    let from: usize = if is_keyword_at(&tokens, 2, "IF") && is_keyword_at(&tokens, 3, "EXISTS") {
        4
    } else {
        2
    };
    let size: usize = tokens.len();
    match consume_object_name(&tokens, from) {
        Some(end) => {
            if size - end < 2 || !is_keyword_at(&tokens, end, "OWNED") || !is_keyword_at(
                &tokens,
                end + 1,
                "BY",
            ) {
                return None;
            }
            let schema = if end - from >= 3 {
                Some(fold_word(&tokens[end - 3]))
            } else {
                None
            };
            Some((schema, fold_word(&tokens[end - 1])))
        },
        None => None,
    }
}

/// The parts that give the sequence to a column, among the first `n`.
pub open spec fn owners(
    parts: Seq<(usize, Seq<char>)>,
    sequence: name_match::NameView,
    n: int,
) -> Seq<usize>
    decreases n,
{
    if n <= 0 {
        seq![]
    } else {
        let before = owners(parts, sequence, n - 1);
        match owned_sequence(parts[n - 1].1) {
            Some(s) => if name_match::matching(s, sequence) {
                before.push((n - 1) as usize)
            } else {
                before
            },
            None => before,
        }
    }
}

/// Whether a column option stays when the column becomes an identity column: a default and an
/// earlier identity go.
pub open spec fn option_stays(o: Tree) -> bool {
    let option = token::field(o, "option"@);
    &&& syntax::member(option, "Default"@) is None
    &&& syntax::member(option, "Identity"@) is None
    &&& syntax::member(option, "Generated"@) matches Some(g) ==> token::field(
        g,
        "generation_expr"@,
    ) != Tree::Null
}

/// The options that stay.
pub open spec fn staying(options: Seq<Tree>) -> Seq<Tree>
    decreases options.len(),
{
    if options.len() == 0 {
        seq![]
    } else if option_stays(options.last()) {
        staying(options.drop_last()).push(options.last())
    } else {
        staying(options.drop_last())
    }
}

/// The column as an identity column.
pub open spec fn identity_column(c: Tree) -> Tree {
    let options = staying(name_match::items_of(token::field(c, "options"@)));
    syntax::with_member(
        syntax::with_member(c, "data_type"@, syntax::variant("BigInt"@, Tree::Null)),
        "options"@,
        Tree::List(options.push(shapes::identity("1"@, None))),
    )
}

/// The columns with the named one as an identity column.
pub open spec fn with_identity_column(columns: Seq<Tree>, column: Seq<char>) -> Seq<Tree> {
    columns.map_values(
        |c: Tree|
            if name_match::folded_ident(token::field(c, "name"@)) == column {
                identity_column(c)
            } else {
                c
            },
    )
}

/// The table with the named column as an identity column.
pub open spec fn with_identity(t: Tree, column: Seq<char>) -> Tree {
    let ct = token::field(t, "CreateTable"@);
    let columns = name_match::items_of(token::field(ct, "columns"@));
    syntax::with_member(
        t,
        "CreateTable"@,
        syntax::with_member(ct, "columns"@, Tree::List(with_identity_column(columns, column))),
    )
}

/// The statements with the column of the first table that matches as an identity column, from
/// `at` on; `None` where no table does.
pub open spec fn identity_into(ts: Seq<Tree>, s: Serial, at: int) -> Option<Seq<Tree>>
    decreases ts.len() - at,
{
    if !(0 <= at < ts.len()) {
        None
    } else if creates_with_column(ts[at], s.column) && name_match::matching(
        constraint_collapse::created_table(ts[at])->Some_0,
        s.table,
    ) {
        Some(ts.update(at, with_identity(ts[at], s.column)))
    } else {
        identity_into(ts, s, at + 1)
    }
}

/// The report on a serial column.
pub open spec fn serial_report(s: Serial, part: (usize, Seq<char>)) -> diagnostic::DiagnosticView {
    diagnostic::DiagnosticView {
        rule: LintRule::SerialSequenceIdiom,
        line: part.0,
        statement: part.1,
        message: "SERIAL column `"@ + s.column + "` of `"@ + s.table.1
            + "` is wired up by a separate sequence and SET DEFAULT nextval(...). DSQL takes an inline identity column instead."@,
        suggestion: "Declare `"@ + s.column
            + "` as BIGINT GENERATED BY DEFAULT AS IDENTITY (CACHE 1) in the CREATE TABLE, and remove the sequence."@,
        fix_result: diagnostic::FixView::FixedWithWarning(
            "Folded sequence `"@ + s.sequence.1 + "` into an identity column on `"@ + s.table.1
                + "`. The identity counter was NOT advanced past existing rows: after loading data, reset it (ALTER TABLE ... ALTER COLUMN ... RESTART WITH N) or new inserts may collide."@,
        ),
    }
}

/// One serial column folded: the table is rewritten, and its other statements are done with.
pub open spec fn serial_step(
    st: constraint_collapse::Folding,
    s: Serial,
    create: int,
    sequence: int,
    default: int,
) -> constraint_collapse::Folding {
    match syntax::statements(Dialect::Postgres, text::trimmed(st.parts[create].1)) {
        Err(_) => st,
        Ok(ts) => match identity_into(ts, s, 0) {
            None => st,
            Some(us) => {
                let parts = st.parts.update(
                    create,
                    (st.parts[create].0, constraint_collapse::pretty_text(us)),
                );
                constraint_collapse::Folding {
                    parts,
                    gone: st.gone.push(sequence as usize).push(default as usize) + owners(
                        parts,
                        s.sequence,
                        parts.len() as int,
                    ),
                    reports: st.reports.push(serial_report(s, parts[default])),
                }
            },
        },
    }
}

/// The serial columns of a script.
pub open spec fn script_serials(script: Seq<(usize, Seq<char>)>) -> Seq<Serial> {
    let ts = constraint_collapse::parsed_trees(script);
    serials(ts, ts.len() as int)
}

/// The script behind its first `n` serial columns.
pub open spec fn serial_folding(
    script: Seq<(usize, Seq<char>)>,
    n: int,
) -> constraint_collapse::Folding
    decreases n,
{
    if n <= 0 {
        constraint_collapse::Folding { parts: script, gone: seq![], reports: seq![] }
    } else {
        let s = script_serials(script)[n - 1];
        serial_step(
            serial_folding(script, n - 1),
            s,
            constraint_collapse::origin(script, s.create),
            constraint_collapse::origin(script, s.create_sequence),
            constraint_collapse::origin(script, s.set_default),
        )
    }
}

/// The script with every serial column folded, and the reports.
pub open spec fn serials_folded(script: Seq<(usize, Seq<char>)>) -> (
    Seq<(usize, Seq<char>)>,
    Seq<diagnostic::DiagnosticView>,
) {
    let end = serial_folding(script, script_serials(script).len() as int);
    (name_match::without(end.parts, end.gone), end.reports)
}

/// The reports on the serial columns of a script.
pub open spec fn serial_reports(script: Seq<(usize, Seq<char>)>) -> Seq<
    diagnostic::DiagnosticView,
> {
    script_serials(script).map_values(
        |s: Serial| serial_report(s, script[constraint_collapse::origin(script, s.set_default)]),
    )
}

fn serial_diag(idiom: &SerialIdiom, part: &Part) -> (r: Diagnostic)
    ensures
        r@ == serial_report(idiom@, (part.0, part.1@)),
{
    let column = idiom.column.as_str();
    let table = idiom.table.1.as_str();
    let mut message = "SERIAL column `".to_owned();
    message.append(column);
    message.append("` of `");
    message.append(table);
    message.append(
        "` is wired up by a separate sequence and SET DEFAULT nextval(...). DSQL takes an inline identity column instead.",
    );
    let mut suggestion = "Declare `".to_owned();
    suggestion.append(column);
    suggestion.append(
        "` as BIGINT GENERATED BY DEFAULT AS IDENTITY (CACHE 1) in the CREATE TABLE, and remove the sequence.",
    );
    let mut detail = "Folded sequence `".to_owned();
    detail.append(idiom.sequence.1.as_str());
    detail.append("` into an identity column on `");
    detail.append(table);
    detail.append(
        "`. The identity counter was NOT advanced past existing rows: after loading data, reset it (ALTER TABLE ... ALTER COLUMN ... RESTART WITH N) or new inserts may collide.",
    );
    Diagnostic {
        rule: LintRule::SerialSequenceIdiom,
        line: part.0,
        statement: part.1.clone(),
        message,
        suggestion,
        fix_result: FixResult::FixedWithWarning(detail),
    }
}

/// Whether a column option stays.
fn stays(o: &Value) -> (r: bool)
    ensures
        r == option_stays(syntax::tree(*o)),
{
    match get(o, "option") {
        Some(option) => {
            if get(option, "Default").is_some() || get(option, "Identity").is_some() {
                return false;
            }
            match get(option, "Generated") {
                Some(g) => match get(g, "generation_expr") {
                    Some(e) => !is_null(e),
                    None => false,
                },
                None => true,
            }
        },
        None => true,
    }
}

/// The column as an identity column.
pub fn make_identity_column(c: &Value) -> (r: Value)
    ensures
        syntax::tree(r) == identity_column(syntax::tree(*c)),
{
    let mut options: Vec<Value> = Vec::new();
    let ghost all = name_match::items_of(token::field(syntax::tree(*c), "options"@));
    if let Some(v) = get(c, "options") {
        if let Some(vs) = as_list(v) {
            let ghost ts = syntax::trees(vs@);
            let mut i: usize = 0;
            proof {
                assert(ts.take(0) =~= seq![]);
                assert(syntax::trees(options@) =~= seq![]);
            }
            while i < vs.len()
                invariant
                    i <= vs@.len(),
                    ts == syntax::trees(vs@),
                    syntax::trees(options@) == staying(ts.take(i as int)),
                decreases vs@.len() - i,
            {
                proof {
                    assert(ts.take(i + 1).drop_last() =~= ts.take(i as int));
                    assert(ts.take(i + 1).last() == ts[i as int]);
                }
                if stays(&vs[i]) {
                    let ghost before = options@;
                    options.push(copy(&vs[i]));
                    proof {
                        assert(syntax::trees(options@) =~= syntax::trees(before).push(
                            ts[i as int],
                        ));
                    }
                }
                i += 1;
            }
            proof {
                assert(ts.take(i as int) =~= ts);
            }
        }
    }
    proof {
        assert(staying(seq![]) =~= seq![]);
        assert(syntax::trees(options@) =~= staying(all));
    }
    let ghost kept = syntax::trees(options@);
    options.push(make_identity("1", None));
    proof {
        assert(syntax::trees(options@) =~= kept.push(shapes::identity("1"@, None)));
    }
    let mut r = copy(c);
    put(&mut r, "data_type", one("BigInt", null()));
    put(&mut r, "options", list(options));
    r
}

/// The table with the named column as an identity column.
pub fn make_identity_table(stmt: &Value, column: &str) -> (r: Value)
    requires
        creates_with_column(syntax::tree(*stmt), column@),
    ensures
        syntax::tree(r) == with_identity(syntax::tree(*stmt), column@),
{
    let mut table = match get(stmt, "CreateTable") {
        Some(ct) => copy(ct),
        None => null(),
    };
    let mut columns: Vec<Value> = Vec::new();
    let ghost all = name_match::items_of(token::field(syntax::tree(table), "columns"@));
    if let Some(v) = get(&table, "columns") {
        if let Some(vs) = as_list(v) {
            let ghost ts = syntax::trees(vs@);
            let mut i: usize = 0;
            while i < vs.len()
                invariant
                    i <= vs@.len(),
                    ts == syntax::trees(vs@),
                    columns@.len() == i,
                    forall|j: int|
                        0 <= j < i ==> syntax::tree(#[trigger] columns@[j]) == with_identity_column(
                            ts,
                            column@,
                        )[j],
                decreases vs@.len() - i,
            {
                if same(read_column_name(&vs[i]).as_str(), column) {
                    columns.push(make_identity_column(&vs[i]));
                } else {
                    columns.push(copy(&vs[i]));
                }
                i += 1;
            }
        }
    }
    proof {
        assert(syntax::trees(columns@) =~= with_identity_column(all, column@));
    }
    put(&mut table, "columns", list(columns));
    let mut r = copy(stmt);
    put(&mut r, "CreateTable", table);
    r
}

/// Makes the column of the first table that matches an identity column; tells whether there is
/// one.
pub fn fold_identity(stmts: &mut Vec<Value>, idiom: &SerialIdiom) -> (r: bool)
    ensures
        match identity_into(syntax::trees(old(stmts)@), idiom@, 0) {
            Some(ts) => r && syntax::trees(final(stmts)@) == ts,
            None => !r && syntax::trees(final(stmts)@) == syntax::trees(old(stmts)@),
        },
{
    let ghost ts = syntax::trees(stmts@);
    let mut i: usize = 0;
    while i < stmts.len()
        invariant
            i <= stmts@.len(),
            stmts@ == old(stmts)@,
            ts == syntax::trees(stmts@),
            identity_into(ts, idiom@, 0) == identity_into(ts, idiom@, i as int),
        decreases stmts@.len() - i,
    {
        if reads_column(&stmts[i], idiom.column.as_str()) {
            if let Some(n) = read_created(&stmts[i]) {
                if refs_match(&n, &idiom.table) {
                    let stmt = make_identity_table(&stmts[i], idiom.column.as_str());
                    stmts.set(i, stmt);
                    proof {
                        assert(syntax::trees(stmts@) =~= ts.update(
                            i as int,
                            with_identity(ts[i as int], idiom@.column),
                        ));
                    }
                    return true;
                }
            }
        }
        i += 1;
    }
    false
}

/// Adds the parts that give the sequence to a column.
fn push_owners(parts: &Vec<Part>, sequence: &NameRef, gone: &mut Vec<usize>)
    ensures
        final(gone)@ == old(gone)@ + owners(
            split::parts_view(parts@),
            name_match::name_view(*sequence),
            parts@.len() as int,
        ),
        forall|j: int|
            old(gone)@.len() <= j < final(gone)@.len() ==> (#[trigger] final(gone)@[j])
                < parts@.len(),
{
    let ghost ps = split::parts_view(parts@);
    let ghost before = gone@;
    let mut i: usize = 0;
    proof {
        assert(before + seq![] =~= before);
    }
    while i < parts.len()
        invariant
            i <= parts@.len(),
            ps == split::parts_view(parts@),
            gone@ == before + owners(ps, name_match::name_view(*sequence), i as int),
            forall|j: int| before.len() <= j < gone@.len() ==> (#[trigger] gone@[j]) < parts@.len(),
        decreases parts@.len() - i,
    {
        if let Some(n) = read_owned_sequence(parts[i].1.as_str()) {
            if refs_match(&n, sequence) {
                let ghost held = owners(ps, name_match::name_view(*sequence), i as int);
                gone.push(i);
                proof {
                    assert(before + held.push(i) =~= (before + held).push(i));
                }
            }
        }
        i += 1;
    }
}

/// Reports every serial column that a dump spread over several statements.
pub fn check_serial_idioms(parts: &Vec<Part>, diagnostics: &mut Vec<Diagnostic>)
    ensures
        diagnostic::reports(final(diagnostics)@) == diagnostic::reports(old(diagnostics)@)
            + serial_reports(split::parts_view(parts@)),
{
    let ghost ps = split::parts_view(parts@);
    let ghost said = diagnostic::reports(diagnostics@);
    let (parsed, origins) = parse_parts(parts);
    proof {
        assert(syntax::trees(parsed@) =~= constraint_collapse::parsed_trees(ps));
        name_match::lemma_origins(ps);
    }
    let idioms = detect_serial_idioms(&parsed);
    let ghost ss = script_serials(ps);
    let ghost rs = serial_reports(ps);
    let mut i: usize = 0;
    while i < idioms.len()
        invariant
            i <= idioms@.len() == ss.len() == rs.len(),
            ps == split::parts_view(parts@),
            ss == script_serials(ps),
            rs == serial_reports(ps),
            ss == serial_views(idioms@),
            name_match::lists_parsed(parsed@, origins@, name_match::parsed_parts(ps)),
            forall|j: int|
                0 <= j < name_match::parsed_parts(ps).len() ==> 0 <= (
                #[trigger] name_match::parsed_parts(ps)[j]).1 < ps.len(),
            forall|j: int|
                0 <= j < idioms@.len() ==> (#[trigger] idioms@[j]).redundant_indices@.len() == 2
                    && idioms@[j].redundant_indices@[1] < parsed@.len(),
            diagnostic::reports(diagnostics@) == said + rs.take(i as int),
        decreases idioms@.len() - i,
    {
        let idiom = &idioms[i];
        let at: usize = idiom.redundant_indices[1];
        proof {
            let p = name_match::parsed_parts(ps)[at as int];
            assert(origins@[at as int] == p.1);
            assert(ss[i as int] == idiom@);
            assert(rs.take(i + 1) =~= rs.take(i as int).push(rs[i as int]));
        }
        let ghost held = diagnostics@;
        diagnostics.push(serial_diag(idiom, &parts[origins[at]]));
        i += 1;
        proof {
            assert(diagnostic::reports(diagnostics@) =~= diagnostic::reports(held).push(
                rs[i - 1],
            ));
            assert(diagnostic::reports(diagnostics@) =~= said + rs.take(i as int));
        }
    }
    proof {
        assert(rs.take(i as int) =~= rs);
    }
}

/// Folds every serial column that a dump spread over several statements: the column becomes an
/// identity column, and the sequence, its owner clause and the default go.
pub fn fix_serial_idioms(parts: &mut Vec<Part>, diagnostics: &mut Vec<Diagnostic>)
    ensures
        ({
            let fixed = serials_folded(split::parts_view(old(parts)@));
            &&& split::parts_view(final(parts)@) == fixed.0
            &&& diagnostic::reports(final(diagnostics)@) == diagnostic::reports(
                old(diagnostics)@,
            ) + fixed.1
        }),
{
    let ghost script = split::parts_view(parts@);
    let ghost said = diagnostic::reports(diagnostics@);
    let (parsed, origins) = parse_parts(parts);
    proof {
        assert(syntax::trees(parsed@) =~= constraint_collapse::parsed_trees(script));
        name_match::lemma_origins(script);
    }
    let idioms = detect_serial_idioms(&parsed);
    let ghost ss = script_serials(script);
    let mut gone: Vec<usize> = Vec::new();
    let mut i: usize = 0;
    proof {
        assert(said + seq![] =~= said);
        assert(gone@ =~= seq![]);
    }
    while i < idioms.len()
        invariant
            i <= idioms@.len() == ss.len(),
            parts@.len() == script.len(),
            ss == script_serials(script),
            ss == serial_views(idioms@),
            name_match::lists_parsed(parsed@, origins@, name_match::parsed_parts(script)),
            forall|j: int|
                0 <= j < name_match::parsed_parts(script).len() ==> 0 <= (
                #[trigger] name_match::parsed_parts(script)[j]).1 < script.len(),
            forall|j: int|
                0 <= j < idioms@.len() ==> (#[trigger] idioms@[j]).redundant_indices@.len() == 2
                    && idioms@[j].create_table_index < parsed@.len()
                    && idioms@[j].redundant_indices@[0] < parsed@.len()
                    && idioms@[j].redundant_indices@[1] < parsed@.len(),
            split::parts_view(parts@) == serial_folding(script, i as int).parts,
            gone@ == serial_folding(script, i as int).gone,
            diagnostic::reports(diagnostics@) == said + serial_folding(script, i as int).reports,
            forall|j: int| 0 <= j < gone@.len() ==> (#[trigger] gone@[j]) < script.len(),
        decreases idioms@.len() - i,
    {
        let idiom = &idioms[i];
        let ghost st = serial_folding(script, i as int);
        let create_at: usize = idiom.create_table_index;
        let sequence_at: usize = idiom.redundant_indices[0];
        let default_at: usize = idiom.redundant_indices[1];
        proof {
            assert(origins@[create_at as int] == name_match::parsed_parts(
                script,
            )[create_at as int].1);
            assert(origins@[sequence_at as int] == name_match::parsed_parts(
                script,
            )[sequence_at as int].1);
            assert(origins@[default_at as int] == name_match::parsed_parts(
                script,
            )[default_at as int].1);
            assert(ss[i as int] == idiom@);
            assert(st.parts.len() == script.len());
        }
        let create_part: usize = origins[create_at];
        let default_part: usize = origins[default_at];
        if let Ok(stmts) = parse(
            Dialect::Postgres,
            trim(parts[create_part].1.as_str()).as_str(),
        ) {
            let mut stmts = stmts;
            if fold_identity(&mut stmts, idiom) {
                let line: usize = parts[create_part].0;
                let rewritten = pretty_join(&stmts);
                parts.set(create_part, (line, rewritten));
                proof {
                    assert(split::parts_view(parts@) =~= st.parts.update(
                        create_part as int,
                        (line, rewritten@),
                    ));
                }
                gone.push(origins[sequence_at]);
                gone.push(default_part);
                push_owners(parts, &idiom.sequence, &mut gone);
                let ghost held = diagnostics@;
                let report = serial_diag(idiom, &parts[default_part]);
                diagnostics.push(report);
                proof {
                    assert(diagnostic::reports(diagnostics@) =~= diagnostic::reports(held).push(
                        report@,
                    ));
                    assert(said + st.reports.push(report@) =~= (said + st.reports).push(report@));
                }
            }
        }
        i += 1;
    }
    drop_parts(parts, gone);
}

/// A script without such columns stays as it is, without a report.
pub proof fn law_script_without_serials_is_untouched(script: Seq<(usize, Seq<char>)>)
    requires
        script_serials(script).len() == 0,
    ensures
        serials_folded(script) == (script, Seq::<diagnostic::DiagnosticView>::empty()),
{
    name_match::law_dropping_nothing_keeps_all(script);
}

/// A default without its sequence in the script is left alone, and so is one whose table is not
/// created there.
pub proof fn law_incomplete_idiom_is_left_alone(stmts: Seq<Tree>, at: int)
    requires
        0 <= at < stmts.len(),
        set_default(stmts[at]) is Some,
        ({
            let (column, sequence) = set_default(stmts[at])->Some_0;
            ||| forall|i: int|
                0 <= i < stmts.len() ==> !(#[trigger] created_sequence(stmts[i]) matches Some(n)
                    && name_match::matching(n, sequence))
            ||| forall|i: int| 0 <= i < stmts.len() ==> !#[trigger] creates_with_column(
                stmts[i],
                column,
            )
        }),
    ensures
        serial_at(stmts, at) is None,
{
    let (column, sequence) = set_default(stmts[at])->Some_0;
    if let Some(table) = constraint_collapse::altered_table(stmts[at]) {
        let with_column = Seq::new(stmts.len(), |i: int| creates_with_column(stmts[i], column));
        let created = Seq::new(stmts.len(), |i: int| created_sequence(stmts[i]) is Some);
        name_match::law_best_match_prefers_the_schema(
            constraint_collapse::created_names(stmts),
            with_column,
            table,
        );
        name_match::law_best_match_prefers_the_schema(sequence_names(stmts), created, sequence);
        if let Some(s) = serial_at(stmts, at) {
            assert(creates_with_column(stmts[s.create], column));
            assert(created_sequence(stmts[s.create_sequence]) is Some);
        }
    }
}

/// Behind the fold the column has one identity clause, and it keeps every option but its
/// default and an earlier identity.
pub proof fn law_identity_column_is_not_doubled(options: Seq<Tree>)
    ensures
        forall|i: int| 0 <= i < staying(options).len() ==> option_stays(
            #[trigger] staying(options)[i],
        ),
        forall|i: int|
            0 <= i < options.len() && option_stays(#[trigger] options[i]) ==> staying(
                options,
            ).contains(options[i]),
    decreases options.len(),
{
    if options.len() > 0 {
        let before = options.drop_last();
        law_identity_column_is_not_doubled(before);
        assert forall|i: int|
            0 <= i < options.len() && option_stays(#[trigger] options[i]) implies staying(
            options,
        ).contains(options[i]) by {
            if i < before.len() {
                assert(before[i] == options[i]);
                let k = choose|k: int|
                    0 <= k < staying(before).len() && staying(before)[k] == options[i];
                assert(staying(options)[k] == options[i]);
            } else {
                assert(staying(options).last() == options[i]);
            }
        }
    }
}

} // verus!
