//! What the translation of a MySQL column type owes: the type of DSQL holds every value of it.

use vstd::prelude::*;

use crate::diagnostic::{self, LintRule};
use crate::mysql::types;
use crate::rules::name_match;
use crate::syntax::{self, Tree};
use crate::text;
use crate::token;
use crate::transactions;

verus! {

/// The least and the greatest number that a whole-number type of MySQL holds.
pub open spec fn mysql_range(t: Tree) -> Option<(int, int)> {
    if transactions::is_kind(t, "TinyInt"@) {
        Some((-0x80, 0x7f))
    } else if transactions::is_kind(t, "TinyIntUnsigned"@) {
        Some((0, 0xff))
    } else if transactions::is_kind(t, "SmallInt"@) {
        Some((-0x8000, 0x7fff))
    } else if transactions::is_kind(t, "SmallIntUnsigned"@) {
        Some((0, 0xffff))
    } else if transactions::is_kind(t, "MediumInt"@) {
        Some((-0x80_0000, 0x7f_ffff))
    } else if transactions::is_kind(t, "MediumIntUnsigned"@) {
        Some((0, 0xff_ffff))
    } else if transactions::is_kind(t, "Int"@) || transactions::is_kind(t, "Integer"@) {
        Some((-0x8000_0000, 0x7fff_ffff))
    } else if transactions::is_kind(t, "IntUnsigned"@) || transactions::is_kind(
        t,
        "IntegerUnsigned"@,
    ) {
        Some((0, 0xffff_ffff))
    } else if transactions::is_kind(t, "BigInt"@) {
        Some((-0x8000_0000_0000_0000, 0x7fff_ffff_ffff_ffff))
    } else if transactions::is_kind(t, "BigIntUnsigned"@) {
        Some((0, 0xffff_ffff_ffff_ffff))
    } else {
        None
    }
}

/// Whether a type of DSQL holds every whole number from `low` to `high`.
pub open spec fn dsql_holds(t: Tree, low: int, high: int) -> bool {
    if t == syntax::variant("SmallInt"@, Tree::Null) {
        -0x8000 <= low && high <= 0x7fff
    } else if t == syntax::variant("Int"@, Tree::Null) || t == syntax::variant(
        "Integer"@,
        Tree::Null,
    ) {
        -0x8000_0000 <= low && high <= 0x7fff_ffff
    } else if t == syntax::variant("BigInt"@, Tree::Null) {
        -0x8000_0000_0000_0000 <= low && high <= 0x7fff_ffff_ffff_ffff
    } else {
        t == syntax::variant("Numeric"@, Tree::Text("None"@))
    }
}

/// How wide a whole-number type of DSQL is, from the narrowest up.
pub open spec fn dsql_width(t: Tree) -> int {
    if t == syntax::variant("SmallInt"@, Tree::Null) {
        0
    } else if t == syntax::variant("Int"@, Tree::Null) || t == syntax::variant(
        "Integer"@,
        Tree::Null,
    ) {
        1
    } else if t == syntax::variant("BigInt"@, Tree::Null) {
        2
    } else {
        3
    }
}

/// The precision and scale of an exact type, signed or not.
pub open spec fn exact_size(t: Tree) -> Option<Tree> {
    if syntax::member(t, "Decimal"@) is Some {
        syntax::member(t, "Decimal"@)
    } else if syntax::member(t, "Dec"@) is Some {
        syntax::member(t, "Dec"@)
    } else if syntax::member(t, "Numeric"@) is Some {
        syntax::member(t, "Numeric"@)
    } else if syntax::member(t, "DecimalUnsigned"@) is Some {
        syntax::member(t, "DecimalUnsigned"@)
    } else {
        syntax::member(t, "DecUnsigned"@)
    }
}

/// Whether a type is unsigned.
pub open spec fn is_unsigned(t: Tree) -> bool {
    ||| transactions::is_kind(t, "TinyIntUnsigned"@)
    ||| transactions::is_kind(t, "SmallIntUnsigned"@)
    ||| transactions::is_kind(t, "MediumIntUnsigned"@)
    ||| transactions::is_kind(t, "IntUnsigned"@)
    ||| transactions::is_kind(t, "IntegerUnsigned"@)
    ||| transactions::is_kind(t, "BigIntUnsigned"@)
    ||| transactions::is_kind(t, "DecimalUnsigned"@)
    ||| transactions::is_kind(t, "DecUnsigned"@)
    ||| transactions::is_kind(t, "DoubleUnsigned"@)
    ||| transactions::is_kind(t, "DoublePrecisionUnsigned"@)
    ||| transactions::is_kind(t, "FloatUnsigned"@)
    ||| transactions::is_kind(t, "RealUnsigned"@)
}

/// How DSQL spells a numeric type, without its size.
pub open spec fn spelled(t: Tree) -> Seq<char> {
    if transactions::is_kind(t, "SmallInt"@) {
        "SMALLINT"@
    } else if transactions::is_kind(t, "Integer"@) {
        "INTEGER"@
    } else if transactions::is_kind(t, "BigInt"@) {
        "BIGINT"@
    } else if transactions::is_kind(t, "Numeric"@) {
        "NUMERIC"@
    } else if transactions::is_kind(t, "Decimal"@) {
        "DECIMAL"@
    } else if transactions::is_kind(t, "Dec"@) {
        "DEC"@
    } else if transactions::is_kind(t, "DoublePrecision"@) {
        "DOUBLE PRECISION"@
    } else if transactions::is_kind(t, "Float"@) {
        "FLOAT"@
    } else if transactions::is_kind(t, "Real"@) {
        "REAL"@
    } else {
        "?"@
    }
}

/// Whether `needle` stands in `hay`.
pub open spec fn says(hay: Seq<char>, needle: Seq<char>) -> bool {
    exists|a: Seq<char>, b: Seq<char>| hay == #[trigger] (a + needle + b)
}

/// Whether a type is `TINYINT(1)`, which MySQL writes for a boolean.
pub open spec fn is_flag(t: Tree) -> bool {
    syntax::member(t, "TinyInt"@) matches Some(Tree::Number(_, Some(n))) && n == 1
}

/// The names of types differ.
proof fn lemma_type_names()
    ensures
        "BigInt"@.len() == 6,
        "BigIntUnsigned"@.len() == 14,
        "Binary"@.len() == 6,
        "Bit"@.len() == 3,
        "BitVarying"@.len() == 10,
        "Blob"@.len() == 4,
        "Bool"@.len() == 4,
        "Boolean"@.len() == 7,
        "Bytea"@.len() == 5,
        "Custom"@.len() == 6,
        "Datetime"@.len() == 8,
        "Dec"@.len() == 3,
        "DecUnsigned"@.len() == 11,
        "Decimal"@.len() == 7,
        "DecimalUnsigned"@.len() == 15,
        "Double"@.len() == 6,
        "DoublePrecision"@.len() == 15,
        "DoublePrecisionUnsigned"@.len() == 23,
        "DoubleUnsigned"@.len() == 14,
        "Enum"@.len() == 4,
        "Float"@.len() == 5,
        "FloatUnsigned"@.len() == 13,
        "Int"@.len() == 3,
        "IntUnsigned"@.len() == 11,
        "Integer"@.len() == 7,
        "IntegerUnsigned"@.len() == 15,
        "LongBlob"@.len() == 8,
        "LongText"@.len() == 8,
        "MediumBlob"@.len() == 10,
        "MediumInt"@.len() == 9,
        "MediumIntUnsigned"@.len() == 17,
        "MediumText"@.len() == 10,
        "Numeric"@.len() == 7,
        "Real"@.len() == 4,
        "RealUnsigned"@.len() == 12,
        "Set"@.len() == 3,
        "SmallInt"@.len() == 8,
        "SmallIntUnsigned"@.len() == 16,
        "Text"@.len() == 4,
        "Timestamp"@.len() == 9,
        "TinyBlob"@.len() == 8,
        "TinyInt"@.len() == 7,
        "TinyIntUnsigned"@.len() == 15,
        "TinyText"@.len() == 8,
        "Varbinary"@.len() == 9,
        "Varchar"@.len() == 7,
        "BigInt"@ != "Binary"@,
        "BigInt"@ != "Custom"@,
        "BigInt"@ != "Double"@,
        "BigIntUnsigned"@ != "DoubleUnsigned"@,
        "Binary"@ != "Custom"@,
        "Binary"@ != "Double"@,
        "Bit"@ != "Dec"@,
        "Bit"@ != "Int"@,
        "Bit"@ != "Set"@,
        "BitVarying"@ != "MediumBlob"@,
        "BitVarying"@ != "MediumText"@,
        "Blob"@ != "Bool"@,
        "Blob"@ != "Enum"@,
        "Blob"@ != "Real"@,
        "Blob"@ != "Text"@,
        "Bool"@ != "Enum"@,
        "Bool"@ != "Real"@,
        "Bool"@ != "Text"@,
        "Boolean"@ != "Decimal"@,
        "Boolean"@ != "Integer"@,
        "Boolean"@ != "Numeric"@,
        "Boolean"@ != "TinyInt"@,
        "Boolean"@ != "Varchar"@,
        "Bytea"@ != "Float"@,
        "Custom"@ != "Double"@,
        "Datetime"@ != "LongBlob"@,
        "Datetime"@ != "LongText"@,
        "Datetime"@ != "SmallInt"@,
        "Datetime"@ != "TinyBlob"@,
        "Datetime"@ != "TinyText"@,
        "Dec"@ != "Int"@,
        "Dec"@ != "Set"@,
        "DecUnsigned"@ != "IntUnsigned"@,
        "Decimal"@ != "Integer"@,
        "Decimal"@ != "Numeric"@,
        "Decimal"@ != "TinyInt"@,
        "Decimal"@ != "Varchar"@,
        "DecimalUnsigned"@ != "DoublePrecision"@,
        "DecimalUnsigned"@ != "IntegerUnsigned"@,
        "DecimalUnsigned"@ != "TinyIntUnsigned"@,
        "DoublePrecision"@ != "IntegerUnsigned"@,
        "DoublePrecision"@ != "TinyIntUnsigned"@,
        "Enum"@ != "Real"@,
        "Enum"@ != "Text"@,
        "Int"@ != "Set"@,
        "Integer"@ != "Numeric"@,
        "Integer"@ != "TinyInt"@,
        "Integer"@ != "Varchar"@,
        "IntegerUnsigned"@ != "TinyIntUnsigned"@,
        "LongBlob"@ != "LongText"@,
        "LongBlob"@ != "SmallInt"@,
        "LongBlob"@ != "TinyBlob"@,
        "LongBlob"@ != "TinyText"@,
        "LongText"@ != "SmallInt"@,
        "LongText"@ != "TinyBlob"@,
        "LongText"@ != "TinyText"@,
        "MediumBlob"@ != "MediumText"@,
        "MediumInt"@ != "Timestamp"@,
        "MediumInt"@ != "Varbinary"@,
        "Numeric"@ != "TinyInt"@,
        "Numeric"@ != "Varchar"@,
        "Real"@ != "Text"@,
        "SmallInt"@ != "TinyBlob"@,
        "SmallInt"@ != "TinyText"@,
        "Timestamp"@ != "Varbinary"@,
        "TinyBlob"@ != "TinyText"@,
        "TinyInt"@ != "Varchar"@,
{
    reveal_strlit("BigInt");
    reveal_strlit("BigIntUnsigned");
    reveal_strlit("Binary");
    reveal_strlit("Bit");
    reveal_strlit("BitVarying");
    reveal_strlit("Blob");
    reveal_strlit("Bool");
    reveal_strlit("Boolean");
    reveal_strlit("Bytea");
    reveal_strlit("Custom");
    reveal_strlit("Datetime");
    reveal_strlit("Dec");
    reveal_strlit("DecUnsigned");
    reveal_strlit("Decimal");
    reveal_strlit("DecimalUnsigned");
    reveal_strlit("Double");
    reveal_strlit("DoublePrecision");
    reveal_strlit("DoublePrecisionUnsigned");
    reveal_strlit("DoubleUnsigned");
    reveal_strlit("Enum");
    reveal_strlit("Float");
    reveal_strlit("FloatUnsigned");
    reveal_strlit("Int");
    reveal_strlit("IntUnsigned");
    reveal_strlit("Integer");
    reveal_strlit("IntegerUnsigned");
    reveal_strlit("LongBlob");
    reveal_strlit("LongText");
    reveal_strlit("MediumBlob");
    reveal_strlit("MediumInt");
    reveal_strlit("MediumIntUnsigned");
    reveal_strlit("MediumText");
    reveal_strlit("Numeric");
    reveal_strlit("Real");
    reveal_strlit("RealUnsigned");
    reveal_strlit("Set");
    reveal_strlit("SmallInt");
    reveal_strlit("SmallIntUnsigned");
    reveal_strlit("Text");
    reveal_strlit("Timestamp");
    reveal_strlit("TinyBlob");
    reveal_strlit("TinyInt");
    reveal_strlit("TinyIntUnsigned");
    reveal_strlit("TinyText");
    reveal_strlit("Varbinary");
    reveal_strlit("Varchar");
    assert("BigInt"@[2] != "Binary"@[2]);
    assert("BigInt"@[0] != "Custom"@[0]);
    assert("BigInt"@[0] != "Double"@[0]);
    assert("BigIntUnsigned"@[0] != "DoubleUnsigned"@[0]);
    assert("Binary"@[0] != "Custom"@[0]);
    assert("Binary"@[0] != "Double"@[0]);
    assert("Bit"@[0] != "Dec"@[0]);
    assert("Bit"@[0] != "Int"@[0]);
    assert("Bit"@[0] != "Set"@[0]);
    assert("BitVarying"@[0] != "MediumBlob"@[0]);
    assert("BitVarying"@[0] != "MediumText"@[0]);
    assert("Blob"@[1] != "Bool"@[1]);
    assert("Blob"@[0] != "Enum"@[0]);
    assert("Blob"@[0] != "Real"@[0]);
    assert("Blob"@[0] != "Text"@[0]);
    assert("Bool"@[0] != "Enum"@[0]);
    assert("Bool"@[0] != "Real"@[0]);
    assert("Bool"@[0] != "Text"@[0]);
    assert("Boolean"@[0] != "Decimal"@[0]);
    assert("Boolean"@[0] != "Integer"@[0]);
    assert("Boolean"@[0] != "Numeric"@[0]);
    assert("Boolean"@[0] != "TinyInt"@[0]);
    assert("Boolean"@[0] != "Varchar"@[0]);
    assert("Bytea"@[0] != "Float"@[0]);
    assert("Custom"@[0] != "Double"@[0]);
    assert("Datetime"@[0] != "LongBlob"@[0]);
    assert("Datetime"@[0] != "LongText"@[0]);
    assert("Datetime"@[0] != "SmallInt"@[0]);
    assert("Datetime"@[0] != "TinyBlob"@[0]);
    assert("Datetime"@[0] != "TinyText"@[0]);
    assert("Dec"@[0] != "Int"@[0]);
    assert("Dec"@[0] != "Set"@[0]);
    assert("DecUnsigned"@[0] != "IntUnsigned"@[0]);
    assert("Decimal"@[0] != "Integer"@[0]);
    assert("Decimal"@[0] != "Numeric"@[0]);
    assert("Decimal"@[0] != "TinyInt"@[0]);
    assert("Decimal"@[0] != "Varchar"@[0]);
    assert("DecimalUnsigned"@[1] != "DoublePrecision"@[1]);
    assert("DecimalUnsigned"@[0] != "IntegerUnsigned"@[0]);
    assert("DecimalUnsigned"@[0] != "TinyIntUnsigned"@[0]);
    assert("DoublePrecision"@[0] != "IntegerUnsigned"@[0]);
    assert("DoublePrecision"@[0] != "TinyIntUnsigned"@[0]);
    assert("Enum"@[0] != "Real"@[0]);
    assert("Enum"@[0] != "Text"@[0]);
    assert("Int"@[0] != "Set"@[0]);
    assert("Integer"@[0] != "Numeric"@[0]);
    assert("Integer"@[0] != "TinyInt"@[0]);
    assert("Integer"@[0] != "Varchar"@[0]);
    assert("IntegerUnsigned"@[0] != "TinyIntUnsigned"@[0]);
    assert("LongBlob"@[4] != "LongText"@[4]);
    assert("LongBlob"@[0] != "SmallInt"@[0]);
    assert("LongBlob"@[0] != "TinyBlob"@[0]);
    assert("LongBlob"@[0] != "TinyText"@[0]);
    assert("LongText"@[0] != "SmallInt"@[0]);
    assert("LongText"@[0] != "TinyBlob"@[0]);
    assert("LongText"@[0] != "TinyText"@[0]);
    assert("MediumBlob"@[6] != "MediumText"@[6]);
    assert("MediumInt"@[0] != "Timestamp"@[0]);
    assert("MediumInt"@[0] != "Varbinary"@[0]);
    assert("Numeric"@[0] != "TinyInt"@[0]);
    assert("Numeric"@[0] != "Varchar"@[0]);
    assert("Real"@[0] != "Text"@[0]);
    assert("SmallInt"@[0] != "TinyBlob"@[0]);
    assert("SmallInt"@[0] != "TinyText"@[0]);
    assert("Timestamp"@[0] != "Varbinary"@[0]);
    assert("TinyBlob"@[4] != "TinyText"@[4]);
    assert("TinyInt"@[0] != "Varchar"@[0]);
}

/// Whether a type is none but what its one kind says.
pub open spec fn is_plain_type(t: Tree) -> bool {
    transactions::one_kind(t) && syntax::member(t, "Custom"@) is None
}

proof fn lemma_other_kinds(t: Tree, kind: Seq<char>)
    requires
        is_plain_type(t),
        transactions::is_kind(t, kind),
    ensures
        forall|other: Seq<char>| other != kind ==> !#[trigger] transactions::is_kind(t, other),
        forall|other: Seq<char>| other != kind ==> #[trigger] syntax::member(t, other) is None,
        !types::named(t, "year"@),
{
    assert forall|other: Seq<char>| other != kind implies #[trigger] syntax::member(
        t,
        other,
    ) is None by {
        assert(!transactions::is_kind(t, other));
    }
}

/// A whole-number type becomes the narrowest type of DSQL that holds every value of it.
#[verifier::spinoff_prover]
#[verifier::rlimit(60)]
pub proof fn law_whole_numbers_fit(t: Tree, column: Seq<char>)
    requires
        is_plain_type(t),
        mysql_range(t) is Some,
        !is_flag(t),
    ensures
        ({
            let (low, high) = mysql_range(t)->Some_0;
            let made = types::translated_type(t, column).0;
            &&& dsql_holds(made, low, high)
            &&& forall|other: Tree| #[trigger]
                dsql_holds(other, low, high) ==> dsql_width(made) <= dsql_width(other)
        }),
{
    lemma_type_names();
    lemma_variants();
    if transactions::is_kind(t, "TinyInt"@) {
        lemma_other_kinds(t, "TinyInt"@);
    } else if transactions::is_kind(t, "TinyIntUnsigned"@) {
        lemma_other_kinds(t, "TinyIntUnsigned"@);
    } else if transactions::is_kind(t, "SmallInt"@) {
        lemma_other_kinds(t, "SmallInt"@);
    } else if transactions::is_kind(t, "SmallIntUnsigned"@) {
        lemma_other_kinds(t, "SmallIntUnsigned"@);
    } else if transactions::is_kind(t, "MediumInt"@) {
        lemma_other_kinds(t, "MediumInt"@);
    } else if transactions::is_kind(t, "MediumIntUnsigned"@) {
        lemma_other_kinds(t, "MediumIntUnsigned"@);
    } else if transactions::is_kind(t, "Int"@) {
        lemma_other_kinds(t, "Int"@);
    } else if transactions::is_kind(t, "Integer"@) {
        lemma_other_kinds(t, "Integer"@);
    } else if transactions::is_kind(t, "IntUnsigned"@) {
        lemma_other_kinds(t, "IntUnsigned"@);
    } else if transactions::is_kind(t, "IntegerUnsigned"@) {
        lemma_other_kinds(t, "IntegerUnsigned"@);
    } else if transactions::is_kind(t, "BigInt"@) {
        lemma_other_kinds(t, "BigInt"@);
    } else if transactions::is_kind(t, "BigIntUnsigned"@) {
        lemma_other_kinds(t, "BigIntUnsigned"@);
    }
}

/// Variants of different names differ.
proof fn lemma_variants()
    ensures
        forall|a: Seq<char>, x: Tree, b: Seq<char>, y: Tree| #[trigger]
            syntax::variant(a, x) == #[trigger] syntax::variant(b, y) ==> a == b && x == y,
{
    assert forall|a: Seq<char>, x: Tree, b: Seq<char>, y: Tree| #[trigger]
        syntax::variant(a, x) == #[trigger] syntax::variant(b, y) implies a == b && x == y by {
        let f = map![a => x];
        let g = map![b => y];
        assert(f == g);
        assert(f.dom().contains(a));
        assert(g.dom().contains(a));
        assert(f[a] == g[a]);
    }
}

/// An exact type with a precision and a scale, signed or not, becomes an exact type with the same
/// precision and scale.
#[verifier::spinoff_prover]
#[verifier::rlimit(60)]
pub proof fn law_exact_numbers_keep_their_size(t: Tree, column: Seq<char>)
    requires
        is_plain_type(t),
        exact_size(t) is Some,
    ensures
        ({
            let made = types::translated_type(t, column).0;
            &&& exact_size(made) == exact_size(t)
            &&& !is_unsigned(made)
            &&& transactions::is_kind(made, "Decimal"@) || transactions::is_kind(made, "Dec"@)
                || transactions::is_kind(made, "Numeric"@)
        }),
{
    lemma_type_names();
    if transactions::is_kind(t, "Decimal"@) {
        lemma_other_kinds(t, "Decimal"@);
    } else if transactions::is_kind(t, "Dec"@) {
        lemma_other_kinds(t, "Dec"@);
    } else if transactions::is_kind(t, "Numeric"@) {
        lemma_other_kinds(t, "Numeric"@);
    } else if transactions::is_kind(t, "DecimalUnsigned"@) {
        lemma_other_kinds(t, "DecimalUnsigned"@);
    } else if transactions::is_kind(t, "DecUnsigned"@) {
        lemma_other_kinds(t, "DecUnsigned"@);
    }
}

/// An approximate type stays one that is as precise: a double is a double, a float keeps its
/// precision where that is a single number, a real is a real.
#[verifier::spinoff_prover]
#[verifier::rlimit(60)]
pub proof fn law_approximate_numbers_stay_as_precise(t: Tree, column: Seq<char>)
    requires
        is_plain_type(t),
    ensures
        ({
            let made = types::translated_type(t, column).0;
            &&& transactions::is_kind(t, "Double"@) || transactions::is_kind(t, "DoubleUnsigned"@)
                || transactions::is_kind(t, "DoublePrecisionUnsigned"@) || transactions::is_kind(
                t,
                "DoublePrecision"@,
            ) ==> transactions::is_kind(made, "DoublePrecision"@)
            &&& transactions::is_kind(t, "RealUnsigned"@) || transactions::is_kind(t, "Real"@)
                ==> transactions::is_kind(made, "Real"@)
            &&& forall|size: Tree|
                syntax::member(size, "Precision"@) is Some && (t == #[trigger] syntax::variant(
                    "Float"@,
                    size,
                ) || t == syntax::variant("FloatUnsigned"@, size)) ==> made == syntax::variant(
                    "Float"@,
                    size,
                )
            &&& transactions::is_kind(t, "FloatUnsigned"@) || transactions::is_kind(t, "Float"@)
                ==> transactions::is_kind(made, "Float"@)
        }),
{
    lemma_type_names();
    let made = types::translated_type(t, column).0;
    assert forall|size: Tree|
        syntax::member(size, "Precision"@) is Some && (t == #[trigger] syntax::variant(
            "Float"@,
            size,
        ) || t == syntax::variant("FloatUnsigned"@, size)) implies made == syntax::variant(
        "Float"@,
        size,
    ) by {
        if t == syntax::variant("Float"@, size) {
            assert(syntax::member(t, "Float"@) == Some(size));
            lemma_other_kinds(t, "Float"@);
        } else {
            assert(syntax::member(t, "FloatUnsigned"@) == Some(size));
            lemma_other_kinds(t, "FloatUnsigned"@);
        }
    }
    if transactions::is_kind(t, "Double"@) {
        lemma_other_kinds(t, "Double"@);
    } else if transactions::is_kind(t, "DoubleUnsigned"@) {
        lemma_other_kinds(t, "DoubleUnsigned"@);
    } else if transactions::is_kind(t, "DoublePrecisionUnsigned"@) {
        lemma_other_kinds(t, "DoublePrecisionUnsigned"@);
    } else if transactions::is_kind(t, "DoublePrecision"@) {
        lemma_other_kinds(t, "DoublePrecision"@);
    } else if transactions::is_kind(t, "RealUnsigned"@) {
        lemma_other_kinds(t, "RealUnsigned"@);
    } else if transactions::is_kind(t, "Real"@) {
        lemma_other_kinds(t, "Real"@);
    } else if transactions::is_kind(t, "Float"@) {
        lemma_other_kinds(t, "Float"@);
    } else if transactions::is_kind(t, "FloatUnsigned"@) {
        lemma_other_kinds(t, "FloatUnsigned"@);
    }
}

/// An unsigned type is reported once, as widened, with a warning that names the column and the
/// type that is in the tree, which is signed.
#[verifier::spinoff_prover]
#[verifier::rlimit(80)]
pub proof fn law_unsigned_types_are_reported(t: Tree, column: Seq<char>)
    requires
        is_plain_type(t),
        is_unsigned(t),
    ensures
        ({
            let (made, ds) = types::translated_type(t, column);
            &&& !is_unsigned(made)
            &&& spelled(made) != "?"@
            &&& ds.len() == 1
            &&& ds[0].rule == LintRule::MysqlUnsignedWidened
            &&& ds[0].fix_result matches diagnostic::FixView::FixedWithWarning(detail) && says(
                detail,
                " became "@ + spelled(made) + ";"@,
            ) && says(detail, "Column `"@ + column + "`:"@)
        }),
{
    lemma_type_names();
    let (made, ds) = types::translated_type(t, column);
    if transactions::is_kind(t, "TinyIntUnsigned"@) {
        lemma_other_kinds(t, "TinyIntUnsigned"@);
    } else if transactions::is_kind(t, "SmallIntUnsigned"@) {
        lemma_other_kinds(t, "SmallIntUnsigned"@);
    } else if transactions::is_kind(t, "MediumIntUnsigned"@) {
        lemma_other_kinds(t, "MediumIntUnsigned"@);
    } else if transactions::is_kind(t, "IntUnsigned"@) {
        lemma_other_kinds(t, "IntUnsigned"@);
    } else if transactions::is_kind(t, "IntegerUnsigned"@) {
        lemma_other_kinds(t, "IntegerUnsigned"@);
    } else if transactions::is_kind(t, "BigIntUnsigned"@) {
        lemma_other_kinds(t, "BigIntUnsigned"@);
    } else if transactions::is_kind(t, "DecimalUnsigned"@) {
        lemma_other_kinds(t, "DecimalUnsigned"@);
    } else if transactions::is_kind(t, "DecUnsigned"@) {
        lemma_other_kinds(t, "DecUnsigned"@);
    } else if transactions::is_kind(t, "DoubleUnsigned"@) {
        lemma_other_kinds(t, "DoubleUnsigned"@);
    } else if transactions::is_kind(t, "DoublePrecisionUnsigned"@) {
        lemma_other_kinds(t, "DoublePrecisionUnsigned"@);
    } else if transactions::is_kind(t, "FloatUnsigned"@) {
        lemma_other_kinds(t, "FloatUnsigned"@);
    } else if transactions::is_kind(t, "RealUnsigned"@) {
        lemma_other_kinds(t, "RealUnsigned"@);
    }
    lemma_spellings();
    lemma_unsigned_detail(column, spelled(made));
}

proof fn lemma_spellings()
    ensures
        "SMALLINT"@ != "?"@,
        "INTEGER"@ != "?"@,
        "BIGINT"@ != "?"@,
        "NUMERIC"@ != "?"@,
        "DECIMAL"@ != "?"@,
        "DEC"@ != "?"@,
        "DOUBLE PRECISION"@ != "?"@,
        "FLOAT"@ != "?"@,
        "REAL"@ != "?"@,
{
    reveal_strlit("?");
    reveal_strlit("SMALLINT");
    reveal_strlit("INTEGER");
    reveal_strlit("BIGINT");
    reveal_strlit("NUMERIC");
    reveal_strlit("DECIMAL");
    reveal_strlit("DEC");
    reveal_strlit("DOUBLE PRECISION");
    reveal_strlit("FLOAT");
    reveal_strlit("REAL");
    assert("?"@.len() == 1);
    assert("SMALLINT"@.len() == 8);
    assert("INTEGER"@.len() == 7);
    assert("BIGINT"@.len() == 6);
    assert("NUMERIC"@.len() == 7);
    assert("DECIMAL"@.len() == 7);
    assert("DEC"@.len() == 3);
    assert("DOUBLE PRECISION"@.len() == 16);
    assert("FLOAT"@.len() == 5);
    assert("REAL"@.len() == 4);
}

proof fn lemma_unsigned_detail(column: Seq<char>, target: Seq<char>)
    ensures
        types::unsigned_report(column, target).fix_result matches diagnostic::FixView::FixedWithWarning(
            detail,
        ) && says(detail, " became "@ + target + ";"@) && says(
            detail,
            "Column `"@ + column + "`:"@,
        ),
{
    let tail = "; DSQL has no UNSIGNED, and no CHECK (col >= 0) is added, so negative values MySQL rejected are now storable."@;
    let head = "`: an unsigned numeric type became "@;
    let detail = "Column `"@ + column + head + target + tail;
    reveal_strlit("; DSQL has no UNSIGNED, and no CHECK (col >= 0) is added, so negative values MySQL rejected are now storable.");
    reveal_strlit("`: an unsigned numeric type became ");
    reveal_strlit(" became ");
    reveal_strlit("`:");
    reveal_strlit(";");
    let a = "Column `"@ + column + head.take(27);
    let b = tail.skip(1);
    assert(head.take(27) + " became "@ =~= head);
    assert(";"@ + b =~= tail);
    assert(detail =~= a + (" became "@ + target + ";"@) + b);
    let c = head.skip(2) + target + tail;
    assert("`:"@ + head.skip(2) =~= head);
    assert(detail =~= Seq::<char>::empty() + ("Column `"@ + column + "`:"@) + c);
}

/// A type of strings, bytes, flags, points in time or members becomes the type of DSQL that holds
/// its values: texts stay texts, bytes stay bytes, a point in time keeps its precision.
#[verifier::spinoff_prover]
#[verifier::rlimit(80)]
pub proof fn law_other_types_hold_their_values(t: Tree, column: Seq<char>)
    requires
        is_plain_type(t),
    ensures
        ({
            let (made, ds) = types::translated_type(t, column);
            &&& transactions::is_kind(t, "TinyText"@) || transactions::is_kind(t, "MediumText"@)
                || transactions::is_kind(t, "LongText"@) || transactions::is_kind(t, "Set"@)
                ==> made == Tree::Text("Text"@)
            &&& transactions::is_kind(t, "TinyBlob"@) || transactions::is_kind(t, "Blob"@)
                || transactions::is_kind(t, "MediumBlob"@) || transactions::is_kind(t, "LongBlob"@)
                || transactions::is_kind(t, "Binary"@) || transactions::is_kind(t, "Varbinary"@)
                || transactions::is_kind(t, "BitVarying"@) ==> made == Tree::Text("Bytea"@)
            &&& is_flag(t) || transactions::is_kind(t, "Bool"@) || transactions::is_kind(
                t,
                "Boolean"@,
            ) ==> made == Tree::Text("Boolean"@)
            &&& syntax::member(t, "Bit"@) matches Some(width) ==> made == if width matches Tree::Number(
                _,
                Some(n),
            ) && n == 1 {
                Tree::Text("Boolean"@)
            } else {
                Tree::Text("Bytea"@)
            }
            &&& syntax::member(t, "Datetime"@) matches Some(precision) ==> made == syntax::variant(
                "Timestamp"@,
                Tree::List(seq![precision, Tree::Text("None"@)]),
            )
            &&& transactions::is_kind(t, "Enum"@) ==> (token::field(
                token::field(token::field(made, "Varchar"@), "IntegerLength"@),
                "length"@,
            ) matches Tree::Number(_, Some(n)) && n == 255)
            &&& transactions::is_kind(t, "Enum"@) ==> ds.len() == 1 && ds[0].rule
                == LintRule::MysqlEnumToVarchar
            &&& transactions::is_kind(t, "Set"@) ==> ds.len() == 1 && ds[0].rule
                == LintRule::MysqlSetToText
        }),
{
    lemma_type_names();
    reveal_strlit("length");
    reveal_strlit("unit");
    assert("length"@.len() == 6 && "unit"@.len() == 4);
    if transactions::is_kind(t, "TinyText"@) {
        lemma_other_kinds(t, "TinyText"@);
    } else if transactions::is_kind(t, "MediumText"@) {
        lemma_other_kinds(t, "MediumText"@);
    } else if transactions::is_kind(t, "LongText"@) {
        lemma_other_kinds(t, "LongText"@);
    } else if transactions::is_kind(t, "Set"@) {
        lemma_other_kinds(t, "Set"@);
    } else if transactions::is_kind(t, "TinyBlob"@) {
        lemma_other_kinds(t, "TinyBlob"@);
    } else if transactions::is_kind(t, "Blob"@) {
        lemma_other_kinds(t, "Blob"@);
    } else if transactions::is_kind(t, "MediumBlob"@) {
        lemma_other_kinds(t, "MediumBlob"@);
    } else if transactions::is_kind(t, "LongBlob"@) {
        lemma_other_kinds(t, "LongBlob"@);
    } else if transactions::is_kind(t, "Binary"@) {
        lemma_other_kinds(t, "Binary"@);
    } else if transactions::is_kind(t, "Varbinary"@) {
        lemma_other_kinds(t, "Varbinary"@);
    } else if transactions::is_kind(t, "BitVarying"@) {
        lemma_other_kinds(t, "BitVarying"@);
    } else if transactions::is_kind(t, "TinyInt"@) {
        lemma_other_kinds(t, "TinyInt"@);
    } else if transactions::is_kind(t, "Bool"@) {
        lemma_other_kinds(t, "Bool"@);
    } else if transactions::is_kind(t, "Boolean"@) {
        lemma_other_kinds(t, "Boolean"@);
    } else if transactions::is_kind(t, "Bit"@) {
        lemma_other_kinds(t, "Bit"@);
    } else if transactions::is_kind(t, "Datetime"@) {
        lemma_other_kinds(t, "Datetime"@);
    } else if transactions::is_kind(t, "Enum"@) {
        lemma_other_kinds(t, "Enum"@);
    }
}

/// A type that is not one of MySQL's own stays as it is, and is not reported: texts and
/// characters with their lengths, dates, times, exact numbers, JSON and the rest.
#[verifier::spinoff_prover]
#[verifier::rlimit(60)]
pub proof fn law_common_types_stay(t: Tree, column: Seq<char>)
    requires
        syntax::member(t, "Custom"@) is None,
        !transactions::is_kind(t, "BigInt"@),
        !transactions::is_kind(t, "BigIntUnsigned"@),
        !transactions::is_kind(t, "Binary"@),
        !transactions::is_kind(t, "Bit"@),
        !transactions::is_kind(t, "BitVarying"@),
        !transactions::is_kind(t, "Blob"@),
        !transactions::is_kind(t, "Bool"@),
        !transactions::is_kind(t, "Boolean"@),
        !transactions::is_kind(t, "Datetime"@),
        !transactions::is_kind(t, "DecUnsigned"@),
        !transactions::is_kind(t, "DecimalUnsigned"@),
        !transactions::is_kind(t, "Double"@),
        !transactions::is_kind(t, "DoublePrecisionUnsigned"@),
        !transactions::is_kind(t, "DoubleUnsigned"@),
        !transactions::is_kind(t, "Enum"@),
        !transactions::is_kind(t, "Float"@),
        !transactions::is_kind(t, "FloatUnsigned"@),
        !transactions::is_kind(t, "Int"@),
        !transactions::is_kind(t, "IntUnsigned"@),
        !transactions::is_kind(t, "Integer"@),
        !transactions::is_kind(t, "IntegerUnsigned"@),
        !transactions::is_kind(t, "LongBlob"@),
        !transactions::is_kind(t, "LongText"@),
        !transactions::is_kind(t, "MediumBlob"@),
        !transactions::is_kind(t, "MediumInt"@),
        !transactions::is_kind(t, "MediumIntUnsigned"@),
        !transactions::is_kind(t, "MediumText"@),
        !transactions::is_kind(t, "RealUnsigned"@),
        !transactions::is_kind(t, "Set"@),
        !transactions::is_kind(t, "SmallInt"@),
        !transactions::is_kind(t, "SmallIntUnsigned"@),
        !transactions::is_kind(t, "TinyBlob"@),
        !transactions::is_kind(t, "TinyInt"@),
        !transactions::is_kind(t, "TinyIntUnsigned"@),
        !transactions::is_kind(t, "TinyText"@),
        !transactions::is_kind(t, "Varbinary"@),
    ensures
        types::translated_type(t, column).0 == t,
        types::translated_type(t, column).1.len() == 0,
{
}

/// A year becomes a whole number.
pub proof fn law_years_are_numbers(ident: Tree, modifiers: Tree, column: Seq<char>)
    requires
        text::same_word(token::text_in(ident, "value"@), "YEAR"@),
    ensures
        ({
            let name = Tree::List(seq![syntax::variant("Identifier"@, ident)]);
            let t = syntax::variant("Custom"@, Tree::List(seq![name, modifiers]));
            types::translated_type(t, column).0 == syntax::variant("Integer"@, Tree::Null)
        }),
{
    lemma_type_names();
    let name = Tree::List(seq![syntax::variant("Identifier"@, ident)]);
    let t = syntax::variant("Custom"@, Tree::List(seq![name, modifiers]));
    let custom = name_match::items_of(token::field(t, "Custom"@));
    assert(custom[0] == name);
    let parts = name_match::items_of(custom[0]);
    assert(parts[0] == syntax::variant("Identifier"@, ident));
    reveal_strlit("YEAR");
    reveal_strlit("year");
    assert(text::lowered("YEAR"@) =~= text::lowered("year"@));
}

} // verus!
