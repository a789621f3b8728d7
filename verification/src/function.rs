//! The parts of a function declaration, as `syn` takes them apart.
//!
//! Whether a stream of tokens is a function, and which tokens make up each of its parts, is
//! for `syn` to say. The verifier knows the answer only by name: [`parsed_function`] for
//! the parse, [`declaration_of`] for the parts of a parsed function, [`message_of`] for the
//! text of an error.

use vstd::prelude::*;
use proc_macro2::TokenStream;
use quote::ToTokens;
use crate::stream::stream_tokens;
use crate::token::Token;

verus! {

#[verifier::external_type_specification]
#[verifier::external_body]
pub struct ExItemFn(syn::ItemFn);

#[verifier::external_type_specification]
#[verifier::external_body]
pub struct ExSynError(syn::Error);

/// The tokens of each part of a function declaration.
pub struct Fragment {
    /// The attributes, one after the other.
    pub attrs: Seq<Token>,
    /// `pub`, `pub(crate)` and the like.
    pub vis: Seq<Token>,
    /// `const`
    pub constness: Seq<Token>,
    /// `async`
    pub asyncness: Seq<Token>,
    /// `unsafe`
    pub unsafety: Seq<Token>,
    /// `extern "C"` and the like.
    pub abi: Seq<Token>,
    /// The function's name as it stands in the declaration.
    pub ident: Seq<Token>,
    /// The generic parameters with their angle brackets, without the `where` clause.
    pub generics: Seq<Token>,
    /// The parameters, without their parentheses.
    pub inputs: Seq<Token>,
    /// The `...` of a variadic function.
    pub variadic: Seq<Token>,
    /// The arrow and the return type.
    pub output: Seq<Token>,
    /// `where` and the bounds that follow it.
    pub where_clause: Seq<Token>,
    /// The body, braces included.
    pub block: Seq<Token>,
}

/// A function declaration taken apart: its bare name and its parts.
pub struct Declaration {
    pub name: Seq<char>,
    pub fragment: Fragment,
}

/// What `syn::parse2::<syn::ItemFn>` makes of a stream that holds `tokens`: the function that
/// it finds there, or the message of the error that it reports.
pub uninterp spec fn parsed_function(tokens: Seq<Token>) -> Result<Declaration, Seq<char>>;

/// What a parsed function holds: the text of its name and the tokens that each of its parts
/// prints.
pub uninterp spec fn declaration_of(item: syn::ItemFn) -> Declaration;

/// The parts of a function declaration, each as the stream of its tokens.
pub struct FunctionFragment {
    pub attrs: TokenStream,
    pub vis: TokenStream,
    pub constness: TokenStream,
    pub asyncness: TokenStream,
    pub unsafety: TokenStream,
    pub abi: TokenStream,
    pub ident: TokenStream,
    pub generics: TokenStream,
    pub inputs: TokenStream,
    pub variadic: TokenStream,
    pub output: TokenStream,
    pub where_clause: TokenStream,
    pub block: TokenStream,
}

impl View for FunctionFragment {
    type V = Fragment;

    open spec fn view(&self) -> Fragment {
        Fragment {
            attrs: stream_tokens(self.attrs),
            vis: stream_tokens(self.vis),
            constness: stream_tokens(self.constness),
            asyncness: stream_tokens(self.asyncness),
            unsafety: stream_tokens(self.unsafety),
            abi: stream_tokens(self.abi),
            ident: stream_tokens(self.ident),
            generics: stream_tokens(self.generics),
            inputs: stream_tokens(self.inputs),
            variadic: stream_tokens(self.variadic),
            output: stream_tokens(self.output),
            where_clause: stream_tokens(self.where_clause),
            block: stream_tokens(self.block),
        }
    }
}

/// The message that a `syn::Error` prints.
pub uninterp spec fn message_of(error: syn::Error) -> Seq<char>;

/// `syn::parse2` for a function item. It reads the whole stream: tokens left over after the
/// function are an error.
#[verifier::external_body]
pub(crate) fn parse_item_fn(tokens: TokenStream) -> (parsed: Result<syn::ItemFn, syn::Error>)
    ensures
        match parsed {
            Ok(item) => parsed_function(stream_tokens(tokens)) == Ok::<Declaration, Seq<char>>(
                declaration_of(item),
            ),
            Err(error) => parsed_function(stream_tokens(tokens)) == Err::<
                Declaration,
                Seq<char>,
            >(message_of(error)),
        },
{
    syn::parse2::<syn::ItemFn>(tokens)
}

/// The message of a `syn::Error`, as its `Display` prints it.
#[verifier::external_body]
pub(crate) fn diagnostic_of(error: &syn::Error) -> (message: String)
    ensures
        message@ == message_of(*error),
{
    error.to_string()
}

/// The name of a parsed function: the text of `sig.ident`.
#[verifier::external_body]
pub(crate) fn name_of(item: &syn::ItemFn) -> (name: String)
    ensures
        name@ == declaration_of(*item).name,
{
    item.sig.ident.to_string()
}

/// The parts of a parsed function, each printed with `quote::ToTokens::to_token_stream`.
#[verifier::external_body]
pub(crate) fn fragment_of(item: &syn::ItemFn) -> (fragment: FunctionFragment)
    ensures
        fragment@ == declaration_of(*item).fragment,
{
    FunctionFragment {
        attrs: item.attrs.iter().map(ToTokens::to_token_stream).collect(),
        vis: item.vis.to_token_stream(),
        constness: item.sig.constness.to_token_stream(),
        asyncness: item.sig.asyncness.to_token_stream(),
        unsafety: item.sig.unsafety.to_token_stream(),
        abi: item.sig.abi.to_token_stream(),
        ident: item.sig.ident.to_token_stream(),
        generics: item.sig.generics.to_token_stream(),
        inputs: item.sig.inputs.to_token_stream(),
        variadic: item.sig.variadic.to_token_stream(),
        output: item.sig.output.to_token_stream(),
        where_clause: item.sig.generics.where_clause.to_token_stream(),
        block: item.block.to_token_stream(),
    }
}

} // verus!
