//! Verified core of the `#[tokio_select]` macro.
//!
//! The macro rewrites a `match` expression whose arms read
//! `.. if let <pattern> = <future> && <condition> => <handler>` (or `_ => <handler>`)
//! into the branches of `tokio::select!`. This crate holds the rules of that
//! rewrite over a model of the parsed input, with the spans, patterns and
//! expressions of `syn` and `proc_macro2` carried through unchanged.

pub mod syntax;
pub mod errors;
pub mod guard;
pub mod input;
pub mod expand;
pub mod laws;
pub mod read;

pub use expand::tokio_select;
