//! Only argument parsing: a small command-line parser driven by a schema that
//! is derived once from a declaration of the target configuration.
//!
//! A [`StructDecl`] lists the fields of the configuration with their type
//! spellings and attributes. [`derive_parser`] classifies each field (flag,
//! scalar option, multi-value option, positional sink), checks the
//! declaration for conflicts, and renders the help and version texts. The
//! resulting [`Parser`] turns the tokens of a command line into a
//! [`parser::ParsedArgs`], a [`CliError`], or a request to show help or the
//! version.

pub mod derive;
pub mod error;
pub mod help;
pub mod laws;
pub mod parser;
pub mod schema;
pub mod text;
pub mod traits;
pub mod types;
pub mod value;

pub use derive::{derive_parser, AppInfo, Parser};
pub use error::CliError;
pub use schema::{FieldAttr, FieldDecl, StructDecl};
