//! Token streams of `proc_macro2`, seen through their contents.
//!
//! A stream is opaque to the verifier. What it holds is named by [`stream_tokens`], and the
//! few operations below say what they do to that content. Nothing here is proved: each
//! contract restates what the source of `proc_macro2` and `quote` shows.

use vstd::prelude::*;
use proc_macro2::TokenStream;
use crate::token::{Delimiter, Spacing, Token};

verus! {

#[verifier::external_type_specification]
#[verifier::external_body]
pub struct ExTokenStream(proc_macro2::TokenStream);

/// The token trees that a stream holds, in order.
pub uninterp spec fn stream_tokens(stream: TokenStream) -> Seq<Token>;

/// The source text of the string literal that `proc_macro2::Literal::string` makes for
/// `value`: `value` between double quotes, with the characters that need it escaped.
pub uninterp spec fn string_literal_text(value: Seq<char>) -> Seq<char>;

/// Can `c` open an identifier made of ASCII letters, digits and underscores?
pub open spec fn is_word_start(c: char) -> bool {
    ('a' <= c && c <= 'z') || ('A' <= c && c <= 'Z') || c == '_'
}

/// Can `c` stand inside an identifier made of ASCII letters, digits and underscores?
pub open spec fn is_word_char(c: char) -> bool {
    is_word_start(c) || ('0' <= c && c <= '9')
}

/// An ASCII identifier or keyword: a letter or underscore, then letters, digits and
/// underscores.
pub open spec fn is_word(text: Seq<char>) -> bool {
    &&& text.len() > 0
    &&& is_word_start(text[0])
    &&& forall|i: int| 0 <= i < text.len() ==> is_word_char(#[trigger] text[i])
}

/// The characters that can be a punctuation token.
pub open spec fn is_punct_char(c: char) -> bool {
    c == '!' || c == '#' || c == '$' || c == '%' || c == '&' || c == '\'' || c == '*'
        || c == '+' || c == ',' || c == '-' || c == '.' || c == '/' || c == ':' || c == ';'
        || c == '<' || c == '=' || c == '>' || c == '?' || c == '@' || c == '^' || c == '|'
        || c == '~'
}

/// What a reader learns of one token tree: the text of an identifier or of a literal, the
/// character of a punctuation mark, the inner stream of a group.
pub enum Tree {
    Ident(String),
    Literal(String),
    Punct(char),
    Group(TokenStream),
}

impl Tree {
    /// Is `self` what reading `token` gives?
    pub open spec fn reads(self, token: Token) -> bool {
        match self {
            Tree::Ident(text) => token == Token::Ident(text@),
            Tree::Literal(text) => token == Token::Literal(text@),
            Tree::Punct(ch) => token matches Token::Punct(c, _) && c == ch,
            Tree::Group(inner) => token matches Token::Group(_, tokens) && tokens
                == stream_tokens(inner),
        }
    }
}

/// `TokenStream::new`: a stream that holds no token.
#[verifier::external_body]
pub(crate) fn empty_stream() -> (stream: TokenStream)
    ensures
        stream_tokens(stream) == Seq::<Token>::empty(),
{
    TokenStream::new()
}

/// Walks `stream` with `TokenStream::into_iter`, which yields its token trees in order
/// without entering groups, and hands each out as a [`Tree`]: an identifier or a literal
/// with the text that its `Display` prints, a punctuation mark with `Punct::as_char`, a
/// group with `Group::stream`.
#[verifier::external_body]
pub(crate) fn trees_of(stream: &TokenStream) -> (trees: Vec<Tree>)
    ensures
        trees@.len() == stream_tokens(*stream).len(),
        forall|i: int|
            0 <= i < trees@.len() ==> (#[trigger] trees@[i]).reads(stream_tokens(*stream)[i]),
{
    stream.clone().into_iter().map(|tree| match tree {
        proc_macro2::TokenTree::Ident(ident) => Tree::Ident(ident.to_string()),
        proc_macro2::TokenTree::Literal(literal) => Tree::Literal(literal.to_string()),
        proc_macro2::TokenTree::Punct(punct) => Tree::Punct(punct.as_char()),
        proc_macro2::TokenTree::Group(group) => Tree::Group(group.stream()),
    }).collect()
}

/// `quote::ToTokens::to_tokens` of a stream: appends the tokens of `tail` to `stream`.
#[verifier::external_body]
pub(crate) fn append_stream(stream: &mut TokenStream, tail: &TokenStream)
    ensures
        stream_tokens(*final(stream)) == stream_tokens(*old(stream)) + stream_tokens(*tail),
{
    quote::ToTokens::to_tokens(tail, stream)
}

/// `proc_macro2::Ident::new` at the call site, appended with `quote::TokenStreamExt::append`.
/// `Ident::new` panics unless `text` is an identifier or a keyword; ASCII words are.
#[verifier::external_body]
pub(crate) fn push_ident(stream: &mut TokenStream, text: &str)
    requires
        is_word(text@),
    ensures
        stream_tokens(*final(stream)) == stream_tokens(*old(stream)).push(Token::Ident(text@)),
{
    quote::TokenStreamExt::append(
        stream,
        proc_macro2::Ident::new(text, proc_macro2::Span::call_site()),
    )
}

/// `proc_macro2::Punct::new`, appended with `quote::TokenStreamExt::append`. `Punct::new`
/// panics on a character that is no punctuation.
#[verifier::external_body]
pub(crate) fn push_punct(stream: &mut TokenStream, ch: char, spacing: Spacing)
    requires
        is_punct_char(ch),
    ensures
        stream_tokens(*final(stream)) == stream_tokens(*old(stream)).push(
            Token::Punct(ch, spacing),
        ),
{
    let spacing = match spacing {
        Spacing::Alone => proc_macro2::Spacing::Alone,
        Spacing::Joint => proc_macro2::Spacing::Joint,
    };
    quote::TokenStreamExt::append(stream, proc_macro2::Punct::new(ch, spacing))
}

/// `quote::ToTokens::to_tokens` of a string, which appends `proc_macro2::Literal::string`
/// of it: one string literal.
#[verifier::external_body]
pub(crate) fn push_string(stream: &mut TokenStream, value: &str)
    ensures
        stream_tokens(*final(stream)) == stream_tokens(*old(stream)).push(
            Token::Literal(string_literal_text(value@)),
        ),
{
    quote::ToTokens::to_tokens(value, stream)
}

/// `proc_macro2::Group::new` around `inner`, appended with `quote::TokenStreamExt::append`.
#[verifier::external_body]
pub(crate) fn push_group(stream: &mut TokenStream, delimiter: Delimiter, inner: TokenStream)
    ensures
        stream_tokens(*final(stream)) == stream_tokens(*old(stream)).push(
            Token::Group(delimiter, stream_tokens(inner)),
        ),
{
    let delimiter = match delimiter {
        Delimiter::Parenthesis => proc_macro2::Delimiter::Parenthesis,
        Delimiter::Brace => proc_macro2::Delimiter::Brace,
        Delimiter::Bracket => proc_macro2::Delimiter::Bracket,
        Delimiter::Invisible => proc_macro2::Delimiter::None,
    };
    quote::TokenStreamExt::append(stream, proc_macro2::Group::new(delimiter, inner))
}

} // verus!
