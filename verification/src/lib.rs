//! A small relational table engine whose numeric column updates run as a
//! generated compute kernel.
//!
//! This crate holds the engine's logic, each function with a contract
//! that is proved of it:
//!
//! - [`schema`] and [`statements`] read the four statements, and
//!   [`runner`] tells which of them a line is;
//! - [`literal`] and [`codec`] turn a statement's literals into values and
//!   values into bytes, and [`rowlog`] frames rows into a table's data and
//!   scans them back;
//! - [`grammar`] and [`parser`] read the assignments of an update, and
//!   [`kernel`] generates the kernel that carries them out;
//! - [`columns`] moves a table's data between rows and columns,
//!   [`executor`] plans a kernel run and takes in what it gave, and
//!   [`rewrite`] puts that into the table's rows and data;
//! - [`catalog`] names the files of a table;
//! - [`schema_laws`] and [`text_laws`] hold what is proved of writing a
//!   schema and reading it back.
//!
//! Reading and writing files, driving the device and printing are left to
//! the caller, which hands this crate plain values and gets plain values
//! back. Numbers with a fraction are kept as their bits; the caller reads
//! and writes their text.

pub mod catalog;
pub mod codec;
pub mod columns;
pub mod executor;
pub mod grammar;
pub mod kernel;
pub mod literal;
pub mod parser;
pub mod rewrite;
pub mod rowlog;
pub mod runner;
pub mod schema;
pub mod schema_laws;
pub mod statements;
pub mod text;
pub mod text_laws;
pub mod types;
