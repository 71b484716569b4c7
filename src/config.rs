//! Reading configuration values: each value is a string, read into its type
//! by a parser and then checked by validators.
//!
//! The hierarchical providers of the values live outside the library.
use vstd::prelude::*;

pub mod parse;
pub mod validate;

verus! {

/// Reads a configuration value into a `T`.
pub trait ValueParser<T> {
    fn parse(&self, value: &str) -> Result<T, String>;
}

/// Checks a configuration value read into a `T`.
pub trait ValueValidator<T> {
    fn validate(&self, value: &T) -> Result<(), String>;
}

} // verus!
