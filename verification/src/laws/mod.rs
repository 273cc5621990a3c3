//! What the library owes as a whole, stated over the kinds of statement, the types and the words by
//! name.

pub mod corpora;
pub mod folds;
pub mod gaps;
pub mod grammars;
pub mod mysql_columns;
pub mod mysql_names;
pub mod mysql_scripts;
pub mod mysql_types;
pub mod names;
pub mod reporting;
pub mod scripts;
pub mod serials;
pub mod statements;
pub mod texts;
pub mod transactions;
