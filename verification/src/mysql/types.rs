//! The column types of MySQL and what stands for them in DSQL.

use serde_json::Value;
use vstd::prelude::*;
use vstd::string::StringExecFns;

use crate::diagnostic::{self, Diagnostic, FixResult, LintRule};
use crate::rules::errors::read_value;
use crate::rules::name_match;
use crate::shapes::{self, field, items, one, pair};
use crate::syntax::{self, as_number, get, null, number, put, record, string, Tree};
use crate::text::{self, eq_ignore_case};
use crate::token;
use crate::transactions::{self, has_kind};

verus! {

/// The report on a step of the translation that loses something. Its line and its statement
/// are filled in later.
pub open spec fn warning(
    rule: LintRule,
    message: Seq<char>,
    detail: Seq<char>,
) -> diagnostic::DiagnosticView {
    diagnostic::DiagnosticView {
        rule,
        line: 0,
        statement: seq![],
        message,
        suggestion: "Review the translated column and adjust downstream expectations."@,
        fix_result: diagnostic::FixView::FixedWithWarning(detail),
    }
}

/// The report on a step of the translation that loses something.
pub fn warn(rule: LintRule, message: &str, detail: String) -> (r: Diagnostic)
    ensures
        r@ == warning(rule, message@, detail@),
{
    let r = Diagnostic {
        rule,
        line: 0,
        statement: String::new(),
        message: message.to_owned(),
        suggestion: "Review the translated column and adjust downstream expectations.".to_owned(),
        fix_result: FixResult::FixedWithWarning(detail),
    };
    proof {
        assert(r.statement@ =~= seq![]);
    }
    r
}

/// The report on an unsigned type that became a signed one.
pub open spec fn unsigned_report(
    column: Seq<char>,
    target: Seq<char>,
) -> diagnostic::DiagnosticView {
    warning(
        LintRule::MysqlUnsignedWidened,
        "Unsigned numeric type mapped to a signed DSQL type."@,
        "Column `"@ + column + "`: an unsigned numeric type became "@ + target
            + "; DSQL has no UNSIGNED, and no CHECK (col >= 0) is added, so negative values MySQL rejected are now storable."@,
    )
}

/// The report on an unsigned type that became a signed one.
pub fn unsigned_warning(col_name: &str, target: &str) -> (r: Diagnostic)
    ensures
        r@ == unsigned_report(col_name@, target@),
{
    let mut detail = "Column `".to_owned();
    detail.append(col_name);
    detail.append("`: an unsigned numeric type became ");
    detail.append(target);
    detail.append(
        "; DSQL has no UNSIGNED, and no CHECK (col >= 0) is added, so negative values MySQL rejected are now storable.",
    );
    warn(
        LintRule::MysqlUnsignedWidened,
        "Unsigned numeric type mapped to a signed DSQL type.",
        detail,
    )
}

/// The report on an enumeration that became a text of limited length.
pub open spec fn enum_report(column: Seq<char>) -> diagnostic::DiagnosticView {
    warning(
        LintRule::MysqlEnumToVarchar,
        "ENUM translated to VARCHAR(255) without value validation."@,
        "Column `"@ + column
            + "`: ENUM became VARCHAR(255); the allowed-values constraint is not enforced. Add a CHECK (col IN (...)) or validate in application code."@,
    )
}

/// The report on a set that became a text.
pub open spec fn set_report(column: Seq<char>) -> diagnostic::DiagnosticView {
    warning(
        LintRule::MysqlSetToText,
        "SET translated to TEXT without value validation."@,
        "Column `"@ + column
            + "`: SET became TEXT; the allowed-values set and multi-membership semantics are not enforced. Validate in application code."@,
    )
}

/// Whether a type is `name` with the number `n`.
pub open spec fn sized(t: Tree, name: Seq<char>, n: u64) -> bool {
    match syntax::member(t, name) {
        Some(Tree::Number(_, Some(m))) => m == n,
        _ => false,
    }
}

/// The type `name` without a number.
pub open spec fn bare(name: Seq<char>) -> Tree {
    syntax::variant(name, Tree::Null)
}

/// The precision of a floating-point type: a number alone stays, a pair goes.
pub open spec fn float_precision(info: Tree) -> Tree {
    if syntax::member(info, "Precision"@) is Some {
        info
    } else {
        Tree::Text("None"@)
    }
}

/// Whether a type name is the one word `word`, in any case.
pub open spec fn named(t: Tree, word: Seq<char>) -> bool {
    let custom = name_match::items_of(token::field(t, "Custom"@));
    custom.len() > 0 && {
        let parts = name_match::items_of(custom[0]);
        parts.len() == 1 && match syntax::member(parts[0], "Identifier"@) {
            Some(ident) => text::same_word(token::text_in(ident, "value"@), word),
            None => false,
        }
    }
}

/// Whether a type is one of MySQL's ways to say boolean.
pub open spec fn says_boolean(t: Tree) -> bool {
    ||| sized(t, "TinyInt"@, 1)
    ||| sized(t, "Bit"@, 1)
    ||| transactions::is_kind(t, "Bool"@)
    ||| transactions::is_kind(t, "Boolean"@)
}

/// Whether a type holds bytes.
pub open spec fn says_bytes(t: Tree) -> bool {
    ||| transactions::is_kind(t, "Blob"@)
    ||| transactions::is_kind(t, "TinyBlob"@)
    ||| transactions::is_kind(t, "MediumBlob"@)
    ||| transactions::is_kind(t, "LongBlob"@)
    ||| transactions::is_kind(t, "Binary"@)
    ||| transactions::is_kind(t, "Varbinary"@)
    ||| transactions::is_kind(t, "Bit"@)
    ||| transactions::is_kind(t, "BitVarying"@)
}

/// Whether a type is a text with no spelling of its own in PostgreSQL.
pub open spec fn says_text(t: Tree) -> bool {
    ||| transactions::is_kind(t, "TinyText"@)
    ||| transactions::is_kind(t, "MediumText"@)
    ||| transactions::is_kind(t, "LongText"@)
}

/// `VARCHAR(255)`.
pub open spec fn varchar() -> Tree {
    let length = syntax::with_member(shapes::no_fields(), "length"@, shapes::count(255));
    syntax::variant(
        "Varchar"@,
        syntax::variant("IntegerLength"@, syntax::with_member(length, "unit"@, Tree::Null)),
    )
}

/// The whole-number type that stands for one of MySQL, and the report on what it loses.
pub open spec fn whole_type(t: Tree, column: Seq<char>) -> Option<
    (Tree, Seq<diagnostic::DiagnosticView>),
> {
    if transactions::is_kind(t, "TinyInt"@) {
        Some((bare("SmallInt"@), seq![]))
    } else if transactions::is_kind(t, "TinyIntUnsigned"@) {
        Some((bare("SmallInt"@), seq![unsigned_report(column, "SMALLINT"@)]))
    } else if transactions::is_kind(t, "MediumInt"@) {
        Some((bare("Integer"@), seq![]))
    } else if transactions::is_kind(t, "MediumIntUnsigned"@) {
        Some((bare("Integer"@), seq![unsigned_report(column, "INTEGER"@)]))
    } else if transactions::is_kind(t, "SmallIntUnsigned"@) {
        Some((bare("Integer"@), seq![unsigned_report(column, "INTEGER"@)]))
    } else if transactions::is_kind(t, "IntUnsigned"@) || transactions::is_kind(
        t,
        "IntegerUnsigned"@,
    ) {
        Some((bare("BigInt"@), seq![unsigned_report(column, "BIGINT"@)]))
    } else if transactions::is_kind(t, "BigIntUnsigned"@) {
        Some(
            (
                syntax::variant("Numeric"@, Tree::Text("None"@)),
                seq![unsigned_report(column, "NUMERIC"@)],
            ),
        )
    } else if transactions::is_kind(t, "Int"@) {
        Some((bare("Int"@), seq![]))
    } else if transactions::is_kind(t, "Integer"@) {
        Some((bare("Integer"@), seq![]))
    } else if transactions::is_kind(t, "SmallInt"@) {
        Some((bare("SmallInt"@), seq![]))
    } else if transactions::is_kind(t, "BigInt"@) {
        Some((bare("BigInt"@), seq![]))
    } else {
        None
    }
}

/// The fractional type that stands for one of MySQL, and the report on what it loses.
pub open spec fn fractional_type(t: Tree, column: Seq<char>) -> Option<
    (Tree, Seq<diagnostic::DiagnosticView>),
> {
    if transactions::is_kind(t, "Double"@) {
        Some((Tree::Text("DoublePrecision"@), seq![]))
    } else if transactions::is_kind(t, "DoubleUnsigned"@) || transactions::is_kind(
        t,
        "DoublePrecisionUnsigned"@,
    ) {
        Some(
            (
                Tree::Text("DoublePrecision"@),
                seq![unsigned_report(column, "DOUBLE PRECISION"@)],
            ),
        )
    } else if transactions::is_kind(t, "Float"@) {
        Some((syntax::variant("Float"@, float_precision(token::field(t, "Float"@))), seq![]))
    } else if transactions::is_kind(t, "FloatUnsigned"@) {
        Some(
            (
                syntax::variant("Float"@, float_precision(token::field(t, "FloatUnsigned"@))),
                seq![unsigned_report(column, "FLOAT"@)],
            ),
        )
    } else if transactions::is_kind(t, "RealUnsigned"@) {
        Some((Tree::Text("Real"@), seq![unsigned_report(column, "REAL"@)]))
    } else if transactions::is_kind(t, "DecimalUnsigned"@) {
        Some(
            (
                syntax::variant("Decimal"@, token::field(t, "DecimalUnsigned"@)),
                seq![unsigned_report(column, "DECIMAL"@)],
            ),
        )
    } else if transactions::is_kind(t, "DecUnsigned"@) {
        Some(
            (
                syntax::variant("Dec"@, token::field(t, "DecUnsigned"@)),
                seq![unsigned_report(column, "DEC"@)],
            ),
        )
    } else {
        None
    }
}

/// The type that stands for a column's type, and the report on what it loses. A type with a
/// spelling of its own in PostgreSQL stays.
pub open spec fn translated_type(t: Tree, column: Seq<char>) -> (
    Tree,
    Seq<diagnostic::DiagnosticView>,
) {
    if says_boolean(t) {
        (Tree::Text("Boolean"@), seq![])
    } else if says_bytes(t) {
        (Tree::Text("Bytea"@), seq![])
    } else if says_text(t) {
        (Tree::Text("Text"@), seq![])
    } else if transactions::is_kind(t, "Datetime"@) {
        (
            syntax::variant(
                "Timestamp"@,
                Tree::List(seq![token::field(t, "Datetime"@), Tree::Text("None"@)]),
            ),
            seq![],
        )
    } else if named(t, "year"@) {
        (bare("Integer"@), seq![])
    } else if transactions::is_kind(t, "Enum"@) {
        (varchar(), seq![enum_report(column)])
    } else if transactions::is_kind(t, "Set"@) {
        (Tree::Text("Text"@), seq![set_report(column)])
    } else {
        match whole_type(t, column) {
            Some(r) => r,
            None => match fractional_type(t, column) {
                Some(r) => r,
                None => (t, seq![]),
            },
        }
    }
}

/// Whether a type is a number, exact or approximate.
pub open spec fn numeric(t: Tree) -> bool {
    ||| transactions::is_kind(t, "TinyInt"@)
    ||| transactions::is_kind(t, "SmallInt"@)
    ||| transactions::is_kind(t, "Int"@)
    ||| transactions::is_kind(t, "Integer"@)
    ||| transactions::is_kind(t, "BigInt"@)
    ||| transactions::is_kind(t, "Numeric"@)
    ||| transactions::is_kind(t, "Decimal"@)
    ||| transactions::is_kind(t, "Dec"@)
    ||| transactions::is_kind(t, "Float"@)
    ||| transactions::is_kind(t, "Real"@)
    ||| transactions::is_kind(t, "Double"@)
    ||| transactions::is_kind(t, "DoublePrecision"@)
}

/// Whether a type is a number, exact or approximate.
pub fn is_numeric_type(ty: &Value) -> (r: bool)
    ensures
        r == numeric(syntax::tree(*ty)),
{
    has_kind(ty, "TinyInt") || has_kind(ty, "SmallInt") || has_kind(ty, "Int") || has_kind(
        ty,
        "Integer",
    ) || has_kind(ty, "BigInt") || has_kind(ty, "Numeric") || has_kind(ty, "Decimal") || has_kind(
        ty,
        "Dec",
    ) || has_kind(ty, "Float") || has_kind(ty, "Real") || has_kind(ty, "Double") || has_kind(
        ty,
        "DoublePrecision",
    )
}

fn is_sized(ty: &Value, name: &str, n: u64) -> (r: bool)
    ensures
        r == sized(syntax::tree(*ty), name@, n),
{
    match get(ty, name) {
        Some(v) => match as_number(v) {
            Some(m) => m == n,
            None => false,
        },
        None => false,
    }
}

/// Whether a type name is the one word `target`, in any case.
pub fn object_name_eq_ci(ty: &Value, target: &str) -> (r: bool)
    ensures
        r == named(syntax::tree(*ty), target@),
{
    let custom = items(&field(ty, "Custom"));
    if custom.len() == 0 {
        return false;
    }
    proof {
        assert(syntax::trees(custom@)[0] == syntax::tree(custom@[0]));
    }
    let parts = items(&custom[0]);
    if parts.len() != 1 {
        return false;
    }
    proof {
        assert(syntax::trees(parts@)[0] == syntax::tree(parts@[0]));
    }
    match get(&parts[0], "Identifier") {
        Some(ident) => eq_ignore_case(read_value(ident).as_str(), target),
        None => false,
    }
}

/// The precision of a floating-point type.
pub fn float_info(info: Value) -> (r: Value)
    ensures
        syntax::tree(r) == float_precision(syntax::tree(info)),
{
    if get(&info, "Precision").is_some() {
        info
    } else {
        string("None")
    }
}

fn make_bare(name: &str) -> (r: Value)
    ensures
        syntax::tree(r) == bare(name@),
{
    one(name, null())
}

fn make_varchar() -> (r: Value)
    ensures
        syntax::tree(r) == varchar(),
{
    let mut length = record();
    put(&mut length, "length", number(255));
    put(&mut length, "unit", null());
    one("Varchar", one("IntegerLength", length))
}

fn is_boolean(ty: &Value) -> (r: bool)
    ensures
        r == says_boolean(syntax::tree(*ty)),
{
    is_sized(ty, "TinyInt", 1) || is_sized(ty, "Bit", 1) || has_kind(ty, "Bool") || has_kind(
        ty,
        "Boolean",
    )
}

fn is_bytes(ty: &Value) -> (r: bool)
    ensures
        r == says_bytes(syntax::tree(*ty)),
{
    has_kind(ty, "Blob") || has_kind(ty, "TinyBlob") || has_kind(ty, "MediumBlob") || has_kind(
        ty,
        "LongBlob",
    ) || has_kind(ty, "Binary") || has_kind(ty, "Varbinary") || has_kind(ty, "Bit") || has_kind(
        ty,
        "BitVarying",
    )
}

fn is_long_text(ty: &Value) -> (r: bool)
    ensures
        r == says_text(syntax::tree(*ty)),
{
    has_kind(ty, "TinyText") || has_kind(ty, "MediumText") || has_kind(ty, "LongText")
}

/// Whether a translation, with the report that may come with it, is the one that `s` describes.
pub open spec fn translated_as(
    r: Option<(Value, Option<Diagnostic>)>,
    s: Option<(Tree, Seq<diagnostic::DiagnosticView>)>,
) -> bool {
    match (r, s) {
        (Some((v, d)), Some((t, ds))) => syntax::tree(v) == t && ds == match d {
            Some(d) => seq![d@],
            None => seq![],
        },
        (None, None) => true,
        _ => false,
    }
}

fn whole_number(ty: &Value, col_name: &str) -> (r: Option<(Value, Option<Diagnostic>)>)
    ensures
        translated_as(r, whole_type(syntax::tree(*ty), col_name@)),
{
    if has_kind(ty, "TinyInt") {
        Some((make_bare("SmallInt"), None))
    } else if has_kind(ty, "TinyIntUnsigned") {
        Some((make_bare("SmallInt"), Some(unsigned_warning(col_name, "SMALLINT"))))
    } else if has_kind(ty, "MediumInt") {
        Some((make_bare("Integer"), None))
    } else if has_kind(ty, "MediumIntUnsigned") {
        Some((make_bare("Integer"), Some(unsigned_warning(col_name, "INTEGER"))))
    } else if has_kind(ty, "SmallIntUnsigned") {
        Some((make_bare("Integer"), Some(unsigned_warning(col_name, "INTEGER"))))
    } else if has_kind(ty, "IntUnsigned") || has_kind(ty, "IntegerUnsigned") {
        Some((make_bare("BigInt"), Some(unsigned_warning(col_name, "BIGINT"))))
    } else if has_kind(ty, "BigIntUnsigned") {
        Some((one("Numeric", string("None")), Some(unsigned_warning(col_name, "NUMERIC"))))
    } else if has_kind(ty, "Int") {
        Some((make_bare("Int"), None))
    } else if has_kind(ty, "Integer") {
        Some((make_bare("Integer"), None))
    } else if has_kind(ty, "SmallInt") {
        Some((make_bare("SmallInt"), None))
    } else if has_kind(ty, "BigInt") {
        Some((make_bare("BigInt"), None))
    } else {
        None
    }
}

fn fractional(ty: &Value, col_name: &str) -> (r: Option<(Value, Option<Diagnostic>)>)
    ensures
        translated_as(r, fractional_type(syntax::tree(*ty), col_name@)),
{
    if has_kind(ty, "Double") {
        Some((string("DoublePrecision"), None))
    } else if has_kind(ty, "DoubleUnsigned") || has_kind(ty, "DoublePrecisionUnsigned") {
        Some((string("DoublePrecision"), Some(unsigned_warning(col_name, "DOUBLE PRECISION"))))
    } else if has_kind(ty, "Float") {
        Some((one("Float", float_info(field(ty, "Float"))), None))
    } else if has_kind(ty, "FloatUnsigned") {
        Some(
            (
                one("Float", float_info(field(ty, "FloatUnsigned"))),
                Some(unsigned_warning(col_name, "FLOAT")),
            ),
        )
    } else if has_kind(ty, "RealUnsigned") {
        Some((string("Real"), Some(unsigned_warning(col_name, "REAL"))))
    } else if has_kind(ty, "DecimalUnsigned") {
        Some(
            (
                one("Decimal", field(ty, "DecimalUnsigned")),
                Some(unsigned_warning(col_name, "DECIMAL")),
            ),
        )
    } else if has_kind(ty, "DecUnsigned") {
        Some((one("Dec", field(ty, "DecUnsigned")), Some(unsigned_warning(col_name, "DEC"))))
    } else {
        None
    }
}

fn enum_warning(col_name: &str) -> (r: Diagnostic)
    ensures
        r@ == enum_report(col_name@),
{
    let mut detail = "Column `".to_owned();
    detail.append(col_name);
    detail.append(
        "`: ENUM became VARCHAR(255); the allowed-values constraint is not enforced. Add a CHECK (col IN (...)) or validate in application code.",
    );
    warn(
        LintRule::MysqlEnumToVarchar,
        "ENUM translated to VARCHAR(255) without value validation.",
        detail,
    )
}

fn set_warning(col_name: &str) -> (r: Diagnostic)
    ensures
        r@ == set_report(col_name@),
{
    let mut detail = "Column `".to_owned();
    detail.append(col_name);
    detail.append(
        "`: SET became TEXT; the allowed-values set and multi-membership semantics are not enforced. Validate in application code.",
    );
    warn(LintRule::MysqlSetToText, "SET translated to TEXT without value validation.", detail)
}

pub fn translate_type(ty: &Value, col_name: &str) -> (r: Option<(Value, Option<Diagnostic>)>)
    ensures
        match r {
            Some(_) => translated_as(r, Some(translated_type(syntax::tree(*ty), col_name@))),
            None => translated_type(syntax::tree(*ty), col_name@) == (syntax::tree(*ty), Seq::<
                diagnostic::DiagnosticView,
            >::empty()),
        },
{
    if is_boolean(ty) {
        Some((string("Boolean"), None))
    } else if is_bytes(ty) {
        Some((string("Bytea"), None))
    } else if is_long_text(ty) {
        Some((string("Text"), None))
    } else if has_kind(ty, "Datetime") {
        Some((one("Timestamp", pair(field(ty, "Datetime"), string("None"))), None))
    } else if object_name_eq_ci(ty, "year") {
        Some((make_bare("Integer"), None))
    } else if has_kind(ty, "Enum") {
        Some((make_varchar(), Some(enum_warning(col_name))))
    } else if has_kind(ty, "Set") {
        Some((string("Text"), Some(set_warning(col_name))))
    } else {
        match whole_number(ty, col_name) {
            Some(r) => Some(r),
            None => fractional(ty, col_name),
        }
    }
}

/// Puts DSQL's type in the place of a column's type. A step that loses something is reported;
/// one that keeps every value is not.
pub fn normalize_data_type(ty: &mut Value, col_name: &str, diags: &mut Vec<Diagnostic>)
    ensures
        ({
            let after = translated_type(syntax::tree(*old(ty)), col_name@);
            &&& syntax::tree(*final(ty)) == after.0
            &&& diagnostic::reports(final(diags)@) == diagnostic::reports(old(diags)@) + after.1
        }),
{
    let ghost said = diagnostic::reports(diags@);
    proof {
        assert(said + seq![] =~= said);
    }
    if let Some((new_type, report)) = translate_type(ty, col_name) {
        *ty = new_type;
        if let Some(d) = report {
            diags.push(d);
            proof {
                assert(diagnostic::reports(diags@) =~= said + seq![d@]);
            }
        }
    }
}

/// Whether a type says something that no type of DSQL says: that a number is not negative, or
/// which values there are.
pub open spec fn lossy(t: Tree) -> bool {
    ||| transactions::is_kind(t, "TinyIntUnsigned"@)
    ||| transactions::is_kind(t, "MediumIntUnsigned"@)
    ||| transactions::is_kind(t, "SmallIntUnsigned"@)
    ||| transactions::is_kind(t, "IntUnsigned"@)
    ||| transactions::is_kind(t, "IntegerUnsigned"@)
    ||| transactions::is_kind(t, "BigIntUnsigned"@)
    ||| transactions::is_kind(t, "DoubleUnsigned"@)
    ||| transactions::is_kind(t, "DoublePrecisionUnsigned"@)
    ||| transactions::is_kind(t, "FloatUnsigned"@)
    ||| transactions::is_kind(t, "RealUnsigned"@)
    ||| transactions::is_kind(t, "DecimalUnsigned"@)
    ||| transactions::is_kind(t, "DecUnsigned"@)
    ||| transactions::is_kind(t, "Enum"@)
    ||| transactions::is_kind(t, "Set"@)
}

/// A type that keeps every value and says nothing more is translated in silence, and none is
/// reported twice.
pub proof fn law_only_lossy_types_are_reported(t: Tree, column: Seq<char>)
    ensures
        translated_type(t, column).1.len() <= 1,
        !lossy(t) ==> translated_type(t, column).1.len() == 0,
{
}

/// Whether a word names no type that is translated into another.
pub open spec fn settled(name: Seq<char>) -> bool {
    &&& name != "TinyInt"@
    &&& name != "Bit"@
    &&& name != "Bool"@
    &&& name != "Blob"@
    &&& name != "TinyBlob"@
    &&& name != "MediumBlob"@
    &&& name != "LongBlob"@
    &&& name != "Binary"@
    &&& name != "Varbinary"@
    &&& name != "BitVarying"@
    &&& name != "TinyText"@
    &&& name != "MediumText"@
    &&& name != "LongText"@
    &&& name != "Datetime"@
    &&& name != "Custom"@
    &&& name != "Enum"@
    &&& name != "Set"@
    &&& name != "TinyIntUnsigned"@
    &&& name != "MediumInt"@
    &&& name != "MediumIntUnsigned"@
    &&& name != "SmallIntUnsigned"@
    &&& name != "IntUnsigned"@
    &&& name != "IntegerUnsigned"@
    &&& name != "BigIntUnsigned"@
    &&& name != "Double"@
    &&& name != "DoubleUnsigned"@
    &&& name != "DoublePrecisionUnsigned"@
    &&& name != "FloatUnsigned"@
    &&& name != "RealUnsigned"@
    &&& name != "DecimalUnsigned"@
    &&& name != "DecUnsigned"@
}

/// Whether a word names a type whose own spelling is written anew.
pub open spec fn respelled(name: Seq<char>) -> bool {
    ||| name == "Boolean"@
    ||| name == "Int"@
    ||| name == "Integer"@
    ||| name == "SmallInt"@
    ||| name == "BigInt"@
    ||| name == "Float"@
}

proof fn lemma_settled_words()
    ensures
        settled("Int"@),
        settled("Integer"@),
        settled("SmallInt"@),
        settled("BigInt"@),
        settled("Float"@),
        settled("Bytea"@),
        settled("Text"@),
        settled("DoublePrecision"@),
        settled("Real"@),
        settled("Timestamp"@),
        settled("Varchar"@),
        settled("Numeric"@),
        settled("Decimal"@),
        settled("Dec"@),
        !respelled("Bytea"@),
        !respelled("Text"@),
        !respelled("DoublePrecision"@),
        !respelled("Real"@),
        !respelled("Timestamp"@),
        !respelled("Varchar"@),
        !respelled("Numeric"@),
        !respelled("Decimal"@),
        !respelled("Dec"@),
        "Integer"@ != "Int"@,
        "SmallInt"@ != "Int"@,
        "SmallInt"@ != "Integer"@,
        "BigInt"@ != "Int"@,
        "BigInt"@ != "Integer"@,
        "BigInt"@ != "SmallInt"@,
        "Boolean"@ != "Int"@,
        "Boolean"@ != "Integer"@,
        "Boolean"@ != "SmallInt"@,
        "Boolean"@ != "BigInt"@,
        "Boolean"@ != "Float"@,
        "Float"@ != "Int"@,
        "Float"@ != "Integer"@,
        "Float"@ != "SmallInt"@,
        "Float"@ != "BigInt"@,
        "Precision"@ != "None"@,
{
    reveal_strlit("TinyInt");
    assert("TinyInt"@.len() == 7);
    reveal_strlit("Bit");
    assert("Bit"@.len() == 3);
    reveal_strlit("Bool");
    assert("Bool"@.len() == 4);
    reveal_strlit("Blob");
    assert("Blob"@.len() == 4);
    reveal_strlit("TinyBlob");
    assert("TinyBlob"@.len() == 8);
    reveal_strlit("MediumBlob");
    assert("MediumBlob"@.len() == 10);
    reveal_strlit("LongBlob");
    assert("LongBlob"@.len() == 8);
    reveal_strlit("Binary");
    assert("Binary"@.len() == 6);
    reveal_strlit("Varbinary");
    assert("Varbinary"@.len() == 9);
    reveal_strlit("BitVarying");
    assert("BitVarying"@.len() == 10);
    reveal_strlit("TinyText");
    assert("TinyText"@.len() == 8);
    reveal_strlit("MediumText");
    assert("MediumText"@.len() == 10);
    reveal_strlit("LongText");
    assert("LongText"@.len() == 8);
    reveal_strlit("Datetime");
    assert("Datetime"@.len() == 8);
    reveal_strlit("Custom");
    assert("Custom"@.len() == 6);
    reveal_strlit("Enum");
    assert("Enum"@.len() == 4);
    reveal_strlit("Set");
    assert("Set"@.len() == 3);
    reveal_strlit("TinyIntUnsigned");
    assert("TinyIntUnsigned"@.len() == 15);
    reveal_strlit("MediumInt");
    assert("MediumInt"@.len() == 9);
    reveal_strlit("MediumIntUnsigned");
    assert("MediumIntUnsigned"@.len() == 17);
    reveal_strlit("SmallIntUnsigned");
    assert("SmallIntUnsigned"@.len() == 16);
    reveal_strlit("IntUnsigned");
    assert("IntUnsigned"@.len() == 11);
    reveal_strlit("IntegerUnsigned");
    assert("IntegerUnsigned"@.len() == 15);
    reveal_strlit("BigIntUnsigned");
    assert("BigIntUnsigned"@.len() == 14);
    reveal_strlit("Double");
    assert("Double"@.len() == 6);
    reveal_strlit("DoubleUnsigned");
    assert("DoubleUnsigned"@.len() == 14);
    reveal_strlit("DoublePrecisionUnsigned");
    assert("DoublePrecisionUnsigned"@.len() == 23);
    reveal_strlit("FloatUnsigned");
    assert("FloatUnsigned"@.len() == 13);
    reveal_strlit("RealUnsigned");
    assert("RealUnsigned"@.len() == 12);
    reveal_strlit("DecimalUnsigned");
    assert("DecimalUnsigned"@.len() == 15);
    reveal_strlit("DecUnsigned");
    assert("DecUnsigned"@.len() == 11);
    reveal_strlit("Boolean");
    assert("Boolean"@.len() == 7);
    reveal_strlit("Int");
    assert("Int"@.len() == 3);
    reveal_strlit("Integer");
    assert("Integer"@.len() == 7);
    reveal_strlit("SmallInt");
    assert("SmallInt"@.len() == 8);
    reveal_strlit("BigInt");
    assert("BigInt"@.len() == 6);
    reveal_strlit("Float");
    assert("Float"@.len() == 5);
    reveal_strlit("Bytea");
    assert("Bytea"@.len() == 5);
    reveal_strlit("Text");
    assert("Text"@.len() == 4);
    reveal_strlit("DoublePrecision");
    assert("DoublePrecision"@.len() == 15);
    reveal_strlit("Real");
    assert("Real"@.len() == 4);
    reveal_strlit("Timestamp");
    assert("Timestamp"@.len() == 9);
    reveal_strlit("Varchar");
    assert("Varchar"@.len() == 7);
    reveal_strlit("Numeric");
    assert("Numeric"@.len() == 7);
    reveal_strlit("Decimal");
    assert("Decimal"@.len() == 7);
    reveal_strlit("Dec");
    assert("Dec"@.len() == 3);
    reveal_strlit("Precision");
    assert("Precision"@.len() == 9);
    reveal_strlit("None");
    assert("None"@.len() == 4);
    assert("Boolean"@[0] != "TinyInt"@[0]);
    assert("Boolean"@[0] != "Integer"@[0]);
    assert("Int"@[0] != "Bit"@[0]);
    assert("Int"@[0] != "Set"@[0]);
    assert("Integer"@[0] != "TinyInt"@[0]);
    assert("SmallInt"@[0] != "TinyBlob"@[0]);
    assert("SmallInt"@[0] != "LongBlob"@[0]);
    assert("SmallInt"@[0] != "TinyText"@[0]);
    assert("SmallInt"@[0] != "LongText"@[0]);
    assert("SmallInt"@[0] != "Datetime"@[0]);
    assert("BigInt"@[2] != "Binary"@[2]);
    assert("BigInt"@[0] != "Custom"@[0]);
    assert("BigInt"@[0] != "Double"@[0]);
    assert("Bytea"@[0] != "Float"@[0]);
    assert("Text"@[0] != "Bool"@[0]);
    assert("Text"@[0] != "Blob"@[0]);
    assert("Text"@[0] != "Enum"@[0]);
    assert("DoublePrecision"@[0] != "TinyIntUnsigned"@[0]);
    assert("DoublePrecision"@[0] != "IntegerUnsigned"@[0]);
    assert("DoublePrecision"@[1] != "DecimalUnsigned"@[1]);
    assert("Real"@[0] != "Bool"@[0]);
    assert("Real"@[0] != "Blob"@[0]);
    assert("Real"@[0] != "Enum"@[0]);
    assert("Timestamp"@[0] != "Varbinary"@[0]);
    assert("Timestamp"@[0] != "MediumInt"@[0]);
    assert("Varchar"@[0] != "TinyInt"@[0]);
    assert("Varchar"@[0] != "Boolean"@[0]);
    assert("Varchar"@[0] != "Integer"@[0]);
    assert("Numeric"@[0] != "TinyInt"@[0]);
    assert("Numeric"@[0] != "Boolean"@[0]);
    assert("Numeric"@[0] != "Integer"@[0]);
    assert("Decimal"@[0] != "TinyInt"@[0]);
    assert("Decimal"@[0] != "Boolean"@[0]);
    assert("Decimal"@[0] != "Integer"@[0]);
    assert("Dec"@[0] != "Bit"@[0]);
    assert("Dec"@[0] != "Set"@[0]);
    assert("Dec"@[0] != "Int"@[0]);
}

proof fn lemma_settled_type(t: Tree, name: Seq<char>, column: Seq<char>)
    requires
        settled(name),
        !respelled(name),
        t == Tree::Text(name) || t == syntax::variant(name, token::field(t, name)),
    ensures
        translated_type(t, column) == (t, Seq::<diagnostic::DiagnosticView>::empty()),
{
}

/// A type is translated once: what stands for it in DSQL stands for itself.
#[verifier::rlimit(60)]
pub proof fn law_translated_types_are_stable(t: Tree, column: Seq<char>, other: Seq<char>)
    ensures
        translated_type(translated_type(t, column).0, other) == (
            translated_type(t, column).0,
            Seq::<diagnostic::DiagnosticView>::empty(),
        ),
{
    let r = translated_type(t, column).0;
    lemma_settled_words();
    if says_boolean(t) {
    } else if says_bytes(t) {
        lemma_settled_type(r, "Bytea"@, other);
    } else if says_text(t) {
        lemma_settled_type(r, "Text"@, other);
    } else if transactions::is_kind(t, "Datetime"@) {
        lemma_settled_type(r, "Timestamp"@, other);
    } else if named(t, "year"@) {
    } else if transactions::is_kind(t, "Enum"@) {
        lemma_settled_type(r, "Varchar"@, other);
    } else if transactions::is_kind(t, "Set"@) {
        lemma_settled_type(r, "Text"@, other);
    } else if whole_type(t, column) is Some {
        if transactions::is_kind(t, "BigIntUnsigned"@) && r == syntax::variant(
            "Numeric"@,
            Tree::Text("None"@),
        ) {
            lemma_settled_type(r, "Numeric"@, other);
        }
    } else if transactions::is_kind(t, "Double"@) || transactions::is_kind(t, "DoubleUnsigned"@)
        || transactions::is_kind(t, "DoublePrecisionUnsigned"@) {
        lemma_settled_type(r, "DoublePrecision"@, other);
    } else if transactions::is_kind(t, "Float"@) || transactions::is_kind(t, "FloatUnsigned"@) {
    } else if transactions::is_kind(t, "RealUnsigned"@) {
        lemma_settled_type(r, "Real"@, other);
    } else if transactions::is_kind(t, "DecimalUnsigned"@) {
        lemma_settled_type(r, "Decimal"@, other);
    } else if transactions::is_kind(t, "DecUnsigned"@) {
        lemma_settled_type(r, "Dec"@, other);
    }
}

} // verus!
