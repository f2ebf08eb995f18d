//! Reading dumps of a PostgreSQL database and working out how to load them
//! into an SQLite store.
//!
//! A dump is text: statements that define tables, statements that declare a
//! bulk copy of rows into a table, and the rows themselves. [`parser`] reads the
//! statements of a dump, by the grammar that [`grammar`] defines. [`source`]
//! finds the rows of a bulk copy and [`rows`] reads them. [`sql`] renders
//! statements as commands for the store, and [`loader`] lays out the operations
//! on the store, in order and in transactions. Nothing here touches a file or a
//! store: a caller reads the text, hands it in, and runs the operations that
//! come out.
//!
//! All functions are verified against the contracts they carry. The contracts
//! speak of texts as sequences of bytes (their UTF-8 encoding) and of values
//! by their views in [`model`].

pub mod grammar;
mod lexer;
pub mod loader;
pub mod model;
pub mod parser;
pub mod rows;
pub mod source;
pub mod sql;
pub mod text;
