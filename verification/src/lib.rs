//! Functional-equivalence checking for pairs of Rust sources.
//!
//! Two implementations of the same module are compared function by function.
//! Heterogeneous evidence — syntactic identity, symbolic model checking,
//! IR-level translation validation, property testing and differential
//! fuzzing — is merged into four worklists until every common function is
//! verified, refuted or exhausted.  This crate holds the data model and the
//! decision logic; launching the external tools and reading their files is
//! left to a thin driver.

pub mod ast;
pub mod backends;
pub mod bitalloc;
pub mod checker;
pub mod codegen;
pub mod collection;
pub mod components;
pub mod config;
pub mod defs;
pub mod log;
pub mod outparse;
pub mod path;
pub mod resolve;
pub mod text;
pub mod translate;
pub mod types;
