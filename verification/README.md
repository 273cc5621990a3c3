# dsql-lint

A linter and fixer for SQL that is to run on Aurora DSQL, written in Verus: the functions of
the library state what they return, and the statements are proved.

`lint_sql` reports what the rules below find in a PostgreSQL script. `fix_sql` rewrites what it
can and says of each report whether it was fixed, fixed with a warning, or left.
`fix_sql_mysql` does the same for a MySQL dump, which it first turns into PostgreSQL.

## Rules

Of one statement (`src/rules/errors.rs`, and the tables in `src/rules/refusals.rs`):

- serial columns, in `CREATE TABLE` and `ALTER TABLE ... ADD COLUMN`: rewritten as identity
  columns;
- foreign keys that are added without `NOT VALID`, indexes that are not built `ASYNC` or are built
  `CONCURRENTLY`: rewritten;
- sequences of a type other than `BIGINT`, or without a cache of 1 or of 65536 and more, identity
  columns with another cache, and transactions at an isolation level other than `REPEATABLE READ`
  (`src/rules/options.rs`): rewritten;
- temporary tables and views, `PARTITION BY`, `INHERITS`, a `TABLESPACE` that is the only option of
  a table, and `USING` on an index: taken off;
- array columns, columns added with a default or `NOT NULL`, `CREATE TABLE AS`, materialized views,
  partial indexes, `TRUNCATE`, `COPY` with a file or a program, and the statements and `ALTER TABLE`
  operations of the tables: reported, and left.

Of several statements: `CREATE SEQUENCE` idioms that stand for a serial column, unique constraints
and primary keys that are added behind their table, and transactions with several DDL statements or
with DDL beside DML.

There are no rules here on the type of identity columns or on those without a cache, on collations,
on the sort direction of index columns, on partitions, `ON COMMIT` and storage parameters of a
table, or on the `ADD GENERATED` and `SET COMPRESSION` idioms of a dump. The names of such rules are
in `LintRule` all the same.

## Layout

- `src/lint.rs`: the two entry points, and what happens to each statement of a script.
- `src/rules/`: the rules on one statement, and the idioms that span several statements.
- `src/alike.rs`, `src/rules/likeness.rs`, `src/rules/wiring.rs`, `src/clean.rs`: the law that what
  is fixed in full is lint-clean, and what it rests on.
- `src/transactions.rs`: transactions with several DDL statements, or with DDL beside DML.
- `src/gap.rs`: statements that DSQL takes and the parser does not read.
- `src/mysql/`: MySQL dumps.
- `src/grammar/`: the grammar of DSQL, held against single statements.
- `src/diff.rs`: where the linter and the grammar disagree.
- `src/corpus.rs`: the fixtures that the two are compared on.
- `src/report.rs`: what a run over files prints, counts and returns.
- `src/split.rs`, `src/token.rs`, `src/text.rs`, `src/shapes.rs`: scripts, tokens and texts.
- `src/syntax.rs`: the SQL parser, tokenizer and printer, and the trees they work on.
- `app/`: the command line around the library.

## How contracts are stated

A parsed statement is held as a JSON value, whose contents `syntax::tree` names. Every rule is a
function on such trees: a spec function says which tree comes out and what is reported, and the
executable function is proved to do that. What the SQL parser makes of a text, and how it prints
a tree, are names without a body; contracts speak of them, and the functions that follow the
parser take its result as an argument.

Public proof functions whose names begin with `law_` state what holds of the library as a whole.
