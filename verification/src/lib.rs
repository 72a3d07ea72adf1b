//! Semantic core of a schema language for typed data and prompt-bound
//! function implementations.
//!
//! The language declares classes and enums, and variants that bind a client
//! and a prompt template. This crate takes the syntax trees that a parser
//! made of the source texts and builds a validated, typed model of them:
//!
//! - [`parser_database`] and [`walkers`]: the database of declarations, the
//!   lookup of names, and the resolution of types;
//! - [`visit`], [`variant`], [`attributes`] and [`finalize`]: the passes that
//!   fill the tables of the database, with [`arguments`] for the arguments
//!   of test cases;
//! - [`validate`], [`cycle`] and [`graph`]: the validation pipeline;
//! - [`schema`]: from parsed files to a validated schema;
//! - [`resolve`] and [`value`]: evaluation of expressions against a snapshot
//!   of the environment;
//! - [`repr`] and [`ir`]: the typed model and its read-only navigation;
//! - [`prompt`]: assembly of a prompt from a template and its markers;
//! - [`diagnostics`] and [`pretty_print`]: errors, warnings and their report.
//!
//! Every function states what it computes, and the statements are proved. A
//! few private functions call into `indexmap` and into parts of `std` that
//! have no specification; each says in its documentation what is taken on
//! trust.

pub mod arguments;
pub mod ast;
pub mod attributes;
pub mod baml_context;
pub mod coerce;
pub mod cycle;
pub mod context;
pub mod diagnostics;
pub mod finalize;
pub mod graph;
pub mod ir;
pub mod numeric;
pub mod parser_database;
pub mod pretty_print;
pub mod prompt;
pub mod repr;
pub mod resolve;
pub mod schema;
pub mod semantic;
pub mod source_file;
pub mod syntax_view;
pub mod text;
pub mod top;
pub mod types;
pub mod validate;
pub mod value;
pub mod variant;
pub mod visit;
pub mod walkers;
