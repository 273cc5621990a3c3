//! What the linter reports: rules, diagnostics, and the outcome of a fix.

use vstd::prelude::*;

use crate::text::{self, chars_of, lower_char};

verus! {

/// Whether a rule was able to fix the issue it found.
#[derive(Debug, Clone, PartialEq)]
pub enum FixResult {
    /// Rewritten without a change of meaning.
    Fixed(String),
    /// Rewritten, with a change of meaning that the text describes.
    FixedWithWarning(String),
    Unfixable,
}

/// The rule that produced a diagnostic.
#[derive(Debug, Clone, Copy, PartialEq, Eq, Structural)]
pub enum LintRule {
    SerialType,
    ArrayType,
    /// No diagnostic carries this rule any more.
    ForeignKey,
    ForeignKeyMatchPartial,
    ForeignKeyEnforced,
    ForeignKeyNotValid,
    TempTable,
    PartitionBy,
    Inherits,
    CreateTableAs,
    Tablespace,
    IdentityType,
    IdentityCache,
    IdentityCacheMissing,
    IndexAsync,
    IndexConcurrently,
    IndexUsing,
    IndexSortDirection,
    IndexPartial,
    Truncate,
    SequenceType,
    SequenceCache,
    SequenceCacheMissing,
    AddColumnConstraint,
    Collation,
    TransactionIsolation,
    SetTransaction,
    // ALTER TABLE operations, one variant for each that is rejected.
    AtUnsupportedAlterColumnSetType,
    AtUnsupportedAlterColumnSetNotNull,
    AtUnsupportedAlterColumnAddGenerated,
    AtUnsupportedAddCheck,
    AtUnsupportedAddPrimaryKey,
    AtUnsupportedAddUnique,
    /// No diagnostic carries this rule any more.
    AtUnsupportedDropConstraint,
    AtUnsupportedPrimaryKeyUsingIndex,
    AtUnsupportedUniqueUsingIndex,
    AtUnsupportedRowLevelSecurity,
    AtUnsupportedReplicaIdentity,
    ValidateConstraintAsync,
    AtUnsupportedRewriteRule,
    // Whole statements, one variant for each kind that is rejected.
    UnsupportedTempView,
    UnsupportedMaterializedView,
    UnsupportedCreateTrigger,
    UnsupportedCreateExtension,
    UnsupportedCreateFunctionNonSql,
    UnsupportedCreateProcedure,
    UnsupportedCreateDatabase,
    UnsupportedCreatePolicy,
    UnsupportedSavepoint,
    UnsupportedReleaseSavepoint,
    UnsupportedRollbackToSavepoint,
    UnsupportedDeclareCursor,
    UnsupportedCreateType,
    UnsupportedCreateServer,
    UnsupportedVacuum,
    UnsupportedAlterIndex,
    UnsupportedCopyFromFile,
    UnsupportedLockTable,
    UnsupportedAlterAggregate,
    UnsupportedAlterFunctionProperty,
    UnsupportedAlterPolicy,
    UnsupportedAlterType,
    UnsupportedAlterRoleProperty,
    UnsupportedAlterRoleSet,
    UnsupportedAlterUser,
    UnsupportedDropMaterializedView,
    UnsupportedDropType,
    UnsupportedDropTrigger,
    UnsupportedDropPolicy,
    UnsupportedListen,
    UnsupportedUnlisten,
    UnsupportedNotify,
    UnsupportedLoad,
    UnsupportedPrepare,
    UnsupportedDeallocate,
    UnsupportedDiscard,
    UnsupportedPartitionOf,
    UnsupportedOnCommit,
    UnsupportedCreateTableWithStorageParameters,
    MultiDdlTransaction,
    MixedDdlDmlTransaction,
    SerialSequenceIdiom,
    AlterAddUniqueCollapse,
    AlterAddPrimaryKeyCollapse,
    // Idioms of a dump taken from a DSQL cluster.
    IdentityAddGeneratedCollapse,
    AlterColumnSetCompressionStrip,
    // Lossy steps of the MySQL translation: valid output that means less than its source.
    MysqlUnsignedWidened,
    MysqlEnumToVarchar,
    MysqlSetToText,
    MysqlAutoIncrementToIdentity,
    MysqlOnUpdateDropped,
    MysqlInvalidDefaultDropped,
    MysqlIndexPrefixDropped,
    MysqlIndexRenamed,
    MysqlDataStatementDropped,
    ParseError,
}

/// One compatibility issue found in the input.
#[derive(Debug, Clone)]
pub struct Diagnostic {
    pub rule: LintRule,
    /// The line of the input, counted from 1.
    pub line: usize,
    /// The text of the offending statement.
    pub statement: String,
    pub message: String,
    pub suggestion: String,
    pub fix_result: FixResult,
}

/// The rewritten SQL with everything that was found on the way.
pub struct FixOutput {
    pub sql: String,
    pub diagnostics: Vec<Diagnostic>,
}

/// The model of a [`FixResult`].
pub ghost enum FixView {
    Fixed(Seq<char>),
    FixedWithWarning(Seq<char>),
    Unfixable,
}

/// The model of a [`Diagnostic`].
pub ghost struct DiagnosticView {
    pub rule: LintRule,
    pub line: usize,
    pub statement: Seq<char>,
    pub message: Seq<char>,
    pub suggestion: Seq<char>,
    pub fix_result: FixView,
}

impl View for FixResult {
    type V = FixView;

    open spec fn view(&self) -> FixView {
        match *self {
            FixResult::Fixed(s) => FixView::Fixed(s@),
            FixResult::FixedWithWarning(s) => FixView::FixedWithWarning(s@),
            FixResult::Unfixable => FixView::Unfixable,
        }
    }
}

impl View for Diagnostic {
    type V = DiagnosticView;

    open spec fn view(&self) -> DiagnosticView {
        DiagnosticView {
            rule: self.rule,
            line: self.line,
            statement: self.statement@,
            message: self.message@,
            suggestion: self.suggestion@,
            fix_result: self.fix_result@,
        }
    }
}

/// The models of a list of diagnostics.
pub open spec fn reports(ds: Seq<Diagnostic>) -> Seq<DiagnosticView> {
    ds.map_values(|d: Diagnostic| d@)
}

/// The name of a rule.
pub open spec fn rule_name(rule: LintRule) -> Seq<char> {
    match rule {
        LintRule::SerialType => "SerialType"@,
        LintRule::ArrayType => "ArrayType"@,
        LintRule::ForeignKey => "ForeignKey"@,
        LintRule::ForeignKeyMatchPartial => "ForeignKeyMatchPartial"@,
        LintRule::ForeignKeyEnforced => "ForeignKeyEnforced"@,
        LintRule::ForeignKeyNotValid => "ForeignKeyNotValid"@,
        LintRule::TempTable => "TempTable"@,
        LintRule::PartitionBy => "PartitionBy"@,
        LintRule::Inherits => "Inherits"@,
        LintRule::CreateTableAs => "CreateTableAs"@,
        LintRule::Tablespace => "Tablespace"@,
        LintRule::IdentityType => "IdentityType"@,
        LintRule::IdentityCache => "IdentityCache"@,
        LintRule::IdentityCacheMissing => "IdentityCacheMissing"@,
        LintRule::IndexAsync => "IndexAsync"@,
        LintRule::IndexConcurrently => "IndexConcurrently"@,
        LintRule::IndexUsing => "IndexUsing"@,
        LintRule::IndexSortDirection => "IndexSortDirection"@,
        LintRule::IndexPartial => "IndexPartial"@,
        LintRule::Truncate => "Truncate"@,
        LintRule::SequenceType => "SequenceType"@,
        LintRule::SequenceCache => "SequenceCache"@,
        LintRule::SequenceCacheMissing => "SequenceCacheMissing"@,
        LintRule::AddColumnConstraint => "AddColumnConstraint"@,
        LintRule::Collation => "Collation"@,
        LintRule::TransactionIsolation => "TransactionIsolation"@,
        LintRule::SetTransaction => "SetTransaction"@,
        LintRule::AtUnsupportedAlterColumnSetType => "AtUnsupportedAlterColumnSetType"@,
        LintRule::AtUnsupportedAlterColumnSetNotNull => "AtUnsupportedAlterColumnSetNotNull"@,
        LintRule::AtUnsupportedAlterColumnAddGenerated => "AtUnsupportedAlterColumnAddGenerated"@,
        LintRule::AtUnsupportedAddCheck => "AtUnsupportedAddCheck"@,
        LintRule::AtUnsupportedAddPrimaryKey => "AtUnsupportedAddPrimaryKey"@,
        LintRule::AtUnsupportedAddUnique => "AtUnsupportedAddUnique"@,
        LintRule::AtUnsupportedDropConstraint => "AtUnsupportedDropConstraint"@,
        LintRule::AtUnsupportedPrimaryKeyUsingIndex => "AtUnsupportedPrimaryKeyUsingIndex"@,
        LintRule::AtUnsupportedUniqueUsingIndex => "AtUnsupportedUniqueUsingIndex"@,
        LintRule::AtUnsupportedRowLevelSecurity => "AtUnsupportedRowLevelSecurity"@,
        LintRule::AtUnsupportedReplicaIdentity => "AtUnsupportedReplicaIdentity"@,
        LintRule::ValidateConstraintAsync => "ValidateConstraintAsync"@,
        LintRule::AtUnsupportedRewriteRule => "AtUnsupportedRewriteRule"@,
        LintRule::UnsupportedTempView => "UnsupportedTempView"@,
        LintRule::UnsupportedMaterializedView => "UnsupportedMaterializedView"@,
        LintRule::UnsupportedCreateTrigger => "UnsupportedCreateTrigger"@,
        LintRule::UnsupportedCreateExtension => "UnsupportedCreateExtension"@,
        LintRule::UnsupportedCreateFunctionNonSql => "UnsupportedCreateFunctionNonSql"@,
        LintRule::UnsupportedCreateProcedure => "UnsupportedCreateProcedure"@,
        LintRule::UnsupportedCreateDatabase => "UnsupportedCreateDatabase"@,
        LintRule::UnsupportedCreatePolicy => "UnsupportedCreatePolicy"@,
        LintRule::UnsupportedSavepoint => "UnsupportedSavepoint"@,
        LintRule::UnsupportedReleaseSavepoint => "UnsupportedReleaseSavepoint"@,
        LintRule::UnsupportedRollbackToSavepoint => "UnsupportedRollbackToSavepoint"@,
        LintRule::UnsupportedDeclareCursor => "UnsupportedDeclareCursor"@,
        LintRule::UnsupportedCreateType => "UnsupportedCreateType"@,
        LintRule::UnsupportedCreateServer => "UnsupportedCreateServer"@,
        LintRule::UnsupportedVacuum => "UnsupportedVacuum"@,
        LintRule::UnsupportedAlterIndex => "UnsupportedAlterIndex"@,
        LintRule::UnsupportedCopyFromFile => "UnsupportedCopyFromFile"@,
        LintRule::UnsupportedLockTable => "UnsupportedLockTable"@,
        LintRule::UnsupportedAlterAggregate => "UnsupportedAlterAggregate"@,
        LintRule::UnsupportedAlterFunctionProperty => "UnsupportedAlterFunctionProperty"@,
        LintRule::UnsupportedAlterPolicy => "UnsupportedAlterPolicy"@,
        LintRule::UnsupportedAlterType => "UnsupportedAlterType"@,
        LintRule::UnsupportedAlterRoleProperty => "UnsupportedAlterRoleProperty"@,
        LintRule::UnsupportedAlterRoleSet => "UnsupportedAlterRoleSet"@,
        LintRule::UnsupportedAlterUser => "UnsupportedAlterUser"@,
        LintRule::UnsupportedDropMaterializedView => "UnsupportedDropMaterializedView"@,
        LintRule::UnsupportedDropType => "UnsupportedDropType"@,
        LintRule::UnsupportedDropTrigger => "UnsupportedDropTrigger"@,
        LintRule::UnsupportedDropPolicy => "UnsupportedDropPolicy"@,
        LintRule::UnsupportedListen => "UnsupportedListen"@,
        LintRule::UnsupportedUnlisten => "UnsupportedUnlisten"@,
        LintRule::UnsupportedNotify => "UnsupportedNotify"@,
        LintRule::UnsupportedLoad => "UnsupportedLoad"@,
        LintRule::UnsupportedPrepare => "UnsupportedPrepare"@,
        LintRule::UnsupportedDeallocate => "UnsupportedDeallocate"@,
        LintRule::UnsupportedDiscard => "UnsupportedDiscard"@,
        LintRule::UnsupportedPartitionOf => "UnsupportedPartitionOf"@,
        LintRule::UnsupportedOnCommit => "UnsupportedOnCommit"@,
        LintRule::UnsupportedCreateTableWithStorageParameters => "UnsupportedCreateTableWithStorageParameters"@,
        LintRule::MultiDdlTransaction => "MultiDdlTransaction"@,
        LintRule::MixedDdlDmlTransaction => "MixedDdlDmlTransaction"@,
        LintRule::SerialSequenceIdiom => "SerialSequenceIdiom"@,
        LintRule::AlterAddUniqueCollapse => "AlterAddUniqueCollapse"@,
        LintRule::AlterAddPrimaryKeyCollapse => "AlterAddPrimaryKeyCollapse"@,
        LintRule::IdentityAddGeneratedCollapse => "IdentityAddGeneratedCollapse"@,
        LintRule::AlterColumnSetCompressionStrip => "AlterColumnSetCompressionStrip"@,
        LintRule::MysqlUnsignedWidened => "MysqlUnsignedWidened"@,
        LintRule::MysqlEnumToVarchar => "MysqlEnumToVarchar"@,
        LintRule::MysqlSetToText => "MysqlSetToText"@,
        LintRule::MysqlAutoIncrementToIdentity => "MysqlAutoIncrementToIdentity"@,
        LintRule::MysqlOnUpdateDropped => "MysqlOnUpdateDropped"@,
        LintRule::MysqlInvalidDefaultDropped => "MysqlInvalidDefaultDropped"@,
        LintRule::MysqlIndexPrefixDropped => "MysqlIndexPrefixDropped"@,
        LintRule::MysqlIndexRenamed => "MysqlIndexRenamed"@,
        LintRule::MysqlDataStatementDropped => "MysqlDataStatementDropped"@,
        LintRule::ParseError => "ParseError"@,
    }
}

/// A name of capitalized words as lower-case words with underscores between them.
pub open spec fn snake(name: Seq<char>) -> Seq<char>
    decreases name.len(),
{
    if name.len() == 0 {
        seq![]
    } else {
        let before = snake(name.drop_last());
        let c = name.last();
        if name.len() > 1 && 'A' <= c <= 'Z' {
            before.push('_').push(text::lower(c))
        } else {
            before.push(text::lower(c))
        }
    }
}

impl LintRule {
    /// The name of the rule.
    pub fn name(self) -> (r: &'static str)
        ensures
            r@ == rule_name(self),
    {
        match self {
            LintRule::SerialType => "SerialType",
            LintRule::ArrayType => "ArrayType",
            LintRule::ForeignKey => "ForeignKey",
            LintRule::ForeignKeyMatchPartial => "ForeignKeyMatchPartial",
            LintRule::ForeignKeyEnforced => "ForeignKeyEnforced",
            LintRule::ForeignKeyNotValid => "ForeignKeyNotValid",
            LintRule::TempTable => "TempTable",
            LintRule::PartitionBy => "PartitionBy",
            LintRule::Inherits => "Inherits",
            LintRule::CreateTableAs => "CreateTableAs",
            LintRule::Tablespace => "Tablespace",
            LintRule::IdentityType => "IdentityType",
            LintRule::IdentityCache => "IdentityCache",
            LintRule::IdentityCacheMissing => "IdentityCacheMissing",
            LintRule::IndexAsync => "IndexAsync",
            LintRule::IndexConcurrently => "IndexConcurrently",
            LintRule::IndexUsing => "IndexUsing",
            LintRule::IndexSortDirection => "IndexSortDirection",
            LintRule::IndexPartial => "IndexPartial",
            LintRule::Truncate => "Truncate",
            LintRule::SequenceType => "SequenceType",
            LintRule::SequenceCache => "SequenceCache",
            LintRule::SequenceCacheMissing => "SequenceCacheMissing",
            LintRule::AddColumnConstraint => "AddColumnConstraint",
            LintRule::Collation => "Collation",
            LintRule::TransactionIsolation => "TransactionIsolation",
            LintRule::SetTransaction => "SetTransaction",
            LintRule::AtUnsupportedAlterColumnSetType => "AtUnsupportedAlterColumnSetType",
            LintRule::AtUnsupportedAlterColumnSetNotNull => "AtUnsupportedAlterColumnSetNotNull",
            LintRule::AtUnsupportedAlterColumnAddGenerated => "AtUnsupportedAlterColumnAddGenerated",
            LintRule::AtUnsupportedAddCheck => "AtUnsupportedAddCheck",
            LintRule::AtUnsupportedAddPrimaryKey => "AtUnsupportedAddPrimaryKey",
            LintRule::AtUnsupportedAddUnique => "AtUnsupportedAddUnique",
            LintRule::AtUnsupportedDropConstraint => "AtUnsupportedDropConstraint",
            LintRule::AtUnsupportedPrimaryKeyUsingIndex => "AtUnsupportedPrimaryKeyUsingIndex",
            LintRule::AtUnsupportedUniqueUsingIndex => "AtUnsupportedUniqueUsingIndex",
            LintRule::AtUnsupportedRowLevelSecurity => "AtUnsupportedRowLevelSecurity",
            LintRule::AtUnsupportedReplicaIdentity => "AtUnsupportedReplicaIdentity",
            LintRule::ValidateConstraintAsync => "ValidateConstraintAsync",
            LintRule::AtUnsupportedRewriteRule => "AtUnsupportedRewriteRule",
            LintRule::UnsupportedTempView => "UnsupportedTempView",
            LintRule::UnsupportedMaterializedView => "UnsupportedMaterializedView",
            LintRule::UnsupportedCreateTrigger => "UnsupportedCreateTrigger",
            LintRule::UnsupportedCreateExtension => "UnsupportedCreateExtension",
            LintRule::UnsupportedCreateFunctionNonSql => "UnsupportedCreateFunctionNonSql",
            LintRule::UnsupportedCreateProcedure => "UnsupportedCreateProcedure",
            LintRule::UnsupportedCreateDatabase => "UnsupportedCreateDatabase",
            LintRule::UnsupportedCreatePolicy => "UnsupportedCreatePolicy",
            LintRule::UnsupportedSavepoint => "UnsupportedSavepoint",
            LintRule::UnsupportedReleaseSavepoint => "UnsupportedReleaseSavepoint",
            LintRule::UnsupportedRollbackToSavepoint => "UnsupportedRollbackToSavepoint",
            LintRule::UnsupportedDeclareCursor => "UnsupportedDeclareCursor",
            LintRule::UnsupportedCreateType => "UnsupportedCreateType",
            LintRule::UnsupportedCreateServer => "UnsupportedCreateServer",
            LintRule::UnsupportedVacuum => "UnsupportedVacuum",
            LintRule::UnsupportedAlterIndex => "UnsupportedAlterIndex",
            LintRule::UnsupportedCopyFromFile => "UnsupportedCopyFromFile",
            LintRule::UnsupportedLockTable => "UnsupportedLockTable",
            LintRule::UnsupportedAlterAggregate => "UnsupportedAlterAggregate",
            LintRule::UnsupportedAlterFunctionProperty => "UnsupportedAlterFunctionProperty",
            LintRule::UnsupportedAlterPolicy => "UnsupportedAlterPolicy",
            LintRule::UnsupportedAlterType => "UnsupportedAlterType",
            LintRule::UnsupportedAlterRoleProperty => "UnsupportedAlterRoleProperty",
            LintRule::UnsupportedAlterRoleSet => "UnsupportedAlterRoleSet",
            LintRule::UnsupportedAlterUser => "UnsupportedAlterUser",
            LintRule::UnsupportedDropMaterializedView => "UnsupportedDropMaterializedView",
            LintRule::UnsupportedDropType => "UnsupportedDropType",
            LintRule::UnsupportedDropTrigger => "UnsupportedDropTrigger",
            LintRule::UnsupportedDropPolicy => "UnsupportedDropPolicy",
            LintRule::UnsupportedListen => "UnsupportedListen",
            LintRule::UnsupportedUnlisten => "UnsupportedUnlisten",
            LintRule::UnsupportedNotify => "UnsupportedNotify",
            LintRule::UnsupportedLoad => "UnsupportedLoad",
            LintRule::UnsupportedPrepare => "UnsupportedPrepare",
            LintRule::UnsupportedDeallocate => "UnsupportedDeallocate",
            LintRule::UnsupportedDiscard => "UnsupportedDiscard",
            LintRule::UnsupportedPartitionOf => "UnsupportedPartitionOf",
            LintRule::UnsupportedOnCommit => "UnsupportedOnCommit",
            LintRule::UnsupportedCreateTableWithStorageParameters => "UnsupportedCreateTableWithStorageParameters",
            LintRule::MultiDdlTransaction => "MultiDdlTransaction",
            LintRule::MixedDdlDmlTransaction => "MixedDdlDmlTransaction",
            LintRule::SerialSequenceIdiom => "SerialSequenceIdiom",
            LintRule::AlterAddUniqueCollapse => "AlterAddUniqueCollapse",
            LintRule::AlterAddPrimaryKeyCollapse => "AlterAddPrimaryKeyCollapse",
            LintRule::IdentityAddGeneratedCollapse => "IdentityAddGeneratedCollapse",
            LintRule::AlterColumnSetCompressionStrip => "AlterColumnSetCompressionStrip",
            LintRule::MysqlUnsignedWidened => "MysqlUnsignedWidened",
            LintRule::MysqlEnumToVarchar => "MysqlEnumToVarchar",
            LintRule::MysqlSetToText => "MysqlSetToText",
            LintRule::MysqlAutoIncrementToIdentity => "MysqlAutoIncrementToIdentity",
            LintRule::MysqlOnUpdateDropped => "MysqlOnUpdateDropped",
            LintRule::MysqlInvalidDefaultDropped => "MysqlInvalidDefaultDropped",
            LintRule::MysqlIndexPrefixDropped => "MysqlIndexPrefixDropped",
            LintRule::MysqlIndexRenamed => "MysqlIndexRenamed",
            LintRule::MysqlDataStatementDropped => "MysqlDataStatementDropped",
            LintRule::ParseError => "ParseError",
        }
    }

    /// The name of the rule in JSON, as lower-case words with underscores between them. It does
    /// not change from one version to the next.
    pub fn wire_name(self) -> (r: String)
        ensures
            r@ == snake(rule_name(self)),
    {
        snake_case(self.name())
    }
}

/// A name of capitalized words as lower-case words with underscores between them.
pub fn snake_case(name: &str) -> (r: String)
    ensures
        r@ == snake(name@),
{
    let chars = chars_of(name);
    let mut out = String::new();
    let mut i: usize = 0;
    proof {
        assert(name@.take(0) =~= seq![]);
        assert(out@ =~= seq![]);
    }
    while i < chars.len()
        invariant
            i <= chars@.len(),
            chars@ == name@,
            out@ == snake(name@.take(i as int)),
        decreases chars@.len() - i,
    {
        proof {
            assert(name@.take(i + 1).drop_last() =~= name@.take(i as int));
            assert(name@.take(i + 1).last() == chars@[i as int]);
        }
        let c = chars[i];
        if i > 0 && 'A' <= c && c <= 'Z' {
            out.push('_');
        }
        out.push(lower_char(c));
        i += 1;
    }
    proof {
        assert(name@.take(i as int) =~= name@);
    }
    out
}

} // verus!
