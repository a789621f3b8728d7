//! Verified core of an attribute that times a function and prints how long it ran.
//!
//! The attribute takes a short list of settings and the declaration of a function. It gives
//! the declaration back with a body that reads the clock before and after the old body and
//! prints the difference. [`print_elapsed`] is the whole of it; the modules hold the steps.

use vstd::prelude::*;
use proc_macro2::TokenStream;
use crate::attribute::parsed_attributes;
use crate::error::TransformError;
use crate::function::parsed_function;
use crate::print_option::PrintOption;
use crate::stream::stream_tokens;
use crate::synth::synthesized;

pub mod attribute;
pub mod config;
pub mod error;
pub mod function;
pub mod laws;
pub mod print_option;
pub mod stream;
pub mod synth;
pub mod text;
pub mod token;

verus! {

/// Rewrites the function `function` as the attribute's arguments `attr` ask.
///
/// The arguments, in any order and with or without double quotes:
/// 1. `stdout`, `stderr` or `both` (default: `stdout`);
/// 2. `auto`, `s`, `ms`, `us` or `ns` (default: `auto`);
/// 3. a group of features, as in `[feature_1, "feature_2"]`: the time is printed only in
///    builds where one of them is on.
///
/// Arguments that break a rule are refused first. Then a declaration that is not a function
/// is refused. Otherwise the result holds the declaration with its new body.
pub fn print_elapsed(attr: TokenStream, function: TokenStream) -> (expansion: Result<
    TokenStream,
    TransformError,
>)
    ensures
        match parsed_attributes(stream_tokens(attr)) {
            Err(error) => expansion matches Err(reason) && reason
                == TransformError::Configuration(error),
            Ok(settings) => match parsed_function(stream_tokens(function)) {
                Ok(declaration) => expansion matches Ok(tokens) && stream_tokens(tokens)
                    == synthesized(settings, declaration),
                Err(diagnostic) => expansion matches Err(TransformError::TargetKind(message))
                    && message@ == diagnostic,
            },
        },
{
    match PrintOption::parse(attr, function) {
        Ok(print_option) => Ok(print_option.new_token_stream()),
        Err(error) => Err(error),
    }
}

} // verus!
