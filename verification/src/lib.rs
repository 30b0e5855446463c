//! A tiny SQL engine: a parser for a small statement language
//! (CREATE TABLE, DROP TABLE, INSERT INTO, SELECT) and an executor
//! that runs parsed statements against tables stored as record text
//! (a header line of column names followed by comma-joined rows).
//!
//! The parser turns one line of text into a statement value or a
//! structured syntax error; the executor enforces schema consistency
//! between a statement and a table's header before changing anything.
//! File access itself is left to the caller: the executor works on
//! table contents handed to it as plain strings, and the `store`
//! module offers an in-memory table store with the same rules.

pub mod ast;
pub mod executor;
pub mod laws;
pub mod parser;
pub mod store;
pub mod text;
