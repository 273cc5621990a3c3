//! Lint and fix SQL for Aurora DSQL.
//!
//! [`lint_sql`] reports what a PostgreSQL script holds that DSQL does not take, [`fix_sql`]
//! rewrites what can be rewritten, and [`fix_sql_mysql`] does so for MySQL DDL. [`grammar`] holds
//! statements against a grammar of DSQL, and [`diff`] tells where it and the linter differ.

use vstd::prelude::*;

pub mod alike;
pub mod clean;
pub mod corpus;
pub mod diagnostic;
pub mod diff;
pub mod gap;
pub mod grammar;
pub mod laws;
pub mod lint;
pub mod mysql;
pub mod report;
pub mod rules;
pub mod shapes;
pub mod split;
pub mod syntax;
pub mod text;
pub mod token;
pub mod transactions;

pub use crate::diagnostic::{Diagnostic, FixOutput, FixResult, LintRule};
pub use crate::lint::{fix_sql, lint_sql};
pub use crate::mysql::fix_sql_mysql;

verus! {

} // verus!
