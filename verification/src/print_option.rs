//! One annotated function: its settings, its name and its parts.

use vstd::prelude::*;
use proc_macro2::TokenStream;
use crate::attribute::parsed_attributes;
use crate::config::Configuration;
use crate::error::TransformError;
use crate::function::{
    diagnostic_of, fragment_of, name_of, parse_item_fn, parsed_function, Declaration,
    FunctionFragment,
};
use crate::stream::{append_stream, empty_stream, push_group, push_ident, stream_tokens};
use crate::synth::{
    body, feature_gate_token, header, push_result_statement, push_start_statement, synthesized,
    timed_statements, vocabulary,
};
use crate::token::Delimiter;

verus! {

/// All that the rewriting of one function needs.
pub struct PrintOption {
    /// What the attribute asks for.
    pub configuration: Configuration,
    /// The name that the printed line starts with.
    pub function_name: String,
    /// The declaration under the attribute, taken apart.
    pub function: FunctionFragment,
}

impl PrintOption {
    /// The name and the parts of the function.
    pub open spec fn declaration(&self) -> Declaration {
        Declaration { name: self.function_name@, fragment: self.function@ }
    }

    /// Reads the attribute's arguments, then the declaration under the attribute. A fault in
    /// the arguments ends the work before the declaration is looked at.
    pub fn parse(attr: TokenStream, function: TokenStream) -> (option: Result<
        PrintOption,
        TransformError,
    >)
        ensures
            match parsed_attributes(stream_tokens(attr)) {
                Err(error) => option matches Err(reason) && reason
                    == TransformError::Configuration(error),
                Ok(settings) => match parsed_function(stream_tokens(function)) {
                    Ok(declaration) => {
                        &&& option matches Ok(parsed)
                        &&& parsed.configuration@ == settings
                        &&& parsed.configuration.wf()
                        &&& parsed.declaration() == declaration
                    },
                    Err(diagnostic) => option matches Err(TransformError::TargetKind(message))
                        && message@ == diagnostic,
                },
            },
    {
        let configuration = match Self::parse_attributes(&attr) {
            Ok(configuration) => configuration,
            Err(error) => {
                return Err(TransformError::Configuration(error));
            },
        };
        match Self::parse_function(function) {
            Ok((function_name, function)) => Ok(
                PrintOption { configuration, function_name, function },
            ),
            Err(error) => Err(error),
        }
    }

    /// Takes the declaration apart. What is not a function is refused, with the parser's
    /// diagnostic.
    pub fn parse_function(function: TokenStream) -> (parts: Result<
        (String, FunctionFragment),
        TransformError,
    >)
        ensures
            match parsed_function(stream_tokens(function)) {
                Ok(declaration) => {
                    &&& parts matches Ok((name, fragment))
                    &&& name@ == declaration.name
                    &&& fragment@ == declaration.fragment
                },
                Err(diagnostic) => parts matches Err(TransformError::TargetKind(message))
                    && message@ == diagnostic,
            },
    {
        match parse_item_fn(function) {
            Ok(item_fn) => {
                let function_name = name_of(&item_fn);
                Ok((function_name, fragment_of(&item_fn)))
            },
            Err(error) => Err(TransformError::TargetKind(diagnostic_of(&error))),
        }
    }

    /// Writes the declaration anew: every part before the body as it was, and a body that
    /// times the old one.
    pub fn new_token_stream(&self) -> (tokens: TokenStream)
        ensures
            stream_tokens(tokens) == synthesized(self.configuration@, self.declaration()),
    {
        proof {
            vocabulary();
        }
        let function = &self.function;
        let configuration = &self.configuration;

        let mut parameters = empty_stream();
        append_stream(&mut parameters, &function.inputs);
        append_stream(&mut parameters, &function.variadic);

        let mut tokens = empty_stream();
        append_stream(&mut tokens, &function.attrs);
        append_stream(&mut tokens, &function.vis);
        append_stream(&mut tokens, &function.constness);
        append_stream(&mut tokens, &function.asyncness);
        append_stream(&mut tokens, &function.unsafety);
        append_stream(&mut tokens, &function.abi);
        push_ident(&mut tokens, "fn");
        append_stream(&mut tokens, &function.ident);
        append_stream(&mut tokens, &function.generics);
        push_group(&mut tokens, Delimiter::Parenthesis, parameters);
        append_stream(&mut tokens, &function.output);
        append_stream(&mut tokens, &function.where_clause);
        assert(stream_tokens(tokens) == header(function@));

        let duration_token = configuration.time_unit.duration_token();
        let print_token = configuration.printer.print_token(
            &configuration.time_unit,
            &self.function_name,
        );
        let mut timed = empty_stream();
        push_start_statement(&mut timed);
        push_result_statement(&mut timed, &function.block);
        append_stream(&mut timed, &duration_token);
        append_stream(&mut timed, &print_token);
        push_ident(&mut timed, "result");
        assert(stream_tokens(timed) == timed_statements(
            configuration.printer,
            configuration.time_unit,
            self.function_name@,
            function@.block,
        ));

        let features = &configuration.features;
        let new_body = if features.len() == 0 {
            timed
        } else {
            let mut gated = feature_gate_token(features, true);
            push_group(&mut gated, Delimiter::Brace, timed);
            append_stream(&mut gated, &feature_gate_token(features, false));
            append_stream(&mut gated, &function.block);
            gated
        };
        assert(stream_tokens(new_body) == body(
            configuration@,
            self.function_name@,
            function@.block,
        ));
        push_group(&mut tokens, Delimiter::Brace, new_body);
        tokens
    }
}

} // verus!
