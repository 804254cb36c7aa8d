//! Verified core of a command-line front end for a package-profile manager.
//!
//! The library turns semi-structured text produced by an external tool into a
//! strict, queryable data model: generation-history reconstruction, package
//! version inference from store paths, directory-size accumulation over a
//! plain tree model, and the option/command bookkeeping around them.
//! Process invocation, terminal output and serialization live outside the
//! library and hand it plain values.

pub mod strutil;

pub mod normalize;

pub mod error;

pub mod history;

pub mod package;

pub mod query;

pub mod cli;

pub mod options;

pub mod operations;

pub mod command;

