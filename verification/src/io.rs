//! Errors raised while building a model from its configuration.

use vstd::prelude::*;

verus! {

/// Why a configuration was turned down.
#[derive(Debug, PartialEq, Eq)]
pub enum ConfigError {
    /// A constructor rejected its arguments; `msg` says which and why.
    InvalidConfig { msg: String },
    /// A document could not be read as the model it should hold.
    ParseError { msg: String },
}

/// `String::push_str` of the standard library: the text is appended.
pub assume_specification[ String::push_str ](s: &mut String, string: &str)
    ensures
        final(s)@ == old(s)@ + string@,
;

} // verus!
