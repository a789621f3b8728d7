//! The tokens of the timing code, and the functions that write them.

use vstd::prelude::*;
use proc_macro2::TokenStream;
use crate::config::{texts, Printer, Settings, TimeUnit};
use crate::function::{Declaration, Fragment};
use crate::stream::{
    append_stream, empty_stream, is_word, push_group, push_ident, push_punct, push_string,
    stream_tokens, string_literal_text,
};
use crate::token::{Delimiter, Spacing, Token};

verus! {

/// The string literal that stands for `value`.
pub open spec fn string_literal(value: Seq<char>) -> Token {
    Token::Literal(string_literal_text(value))
}

/// `::`
pub open spec fn path_separator() -> Seq<Token> {
    seq![Token::Punct(':', Spacing::Joint), Token::Punct(':', Spacing::Alone)]
}

/// `.method()`
pub open spec fn method_call(method: Seq<char>) -> Seq<Token> {
    seq![
        Token::punct('.'),
        Token::Ident(method),
        Token::Group(Delimiter::Parenthesis, Seq::empty()),
    ]
}

/// `let start = std::time::Instant::now();`
pub open spec fn start_statement() -> Seq<Token> {
    seq![Token::Ident("let"@), Token::Ident("start"@), Token::punct('='), Token::Ident("std"@)]
        + path_separator() + seq![Token::Ident("time"@)] + path_separator() + seq![
        Token::Ident("Instant"@),
    ] + path_separator() + seq![
        Token::Ident("now"@),
        Token::Group(Delimiter::Parenthesis, Seq::empty()),
        Token::punct(';'),
    ]
}

/// `let result = <block>;`
pub open spec fn result_statement(block: Seq<Token>) -> Seq<Token> {
    seq![Token::Ident("let"@), Token::Ident("result"@), Token::punct('=')] + block + seq![
        Token::punct(';'),
    ]
}

impl TimeUnit {
    /// The method of a duration that counts it in this unit; none where the duration is kept
    /// as it is.
    pub open spec fn conversion(self) -> Option<Seq<char>> {
        match self {
            TimeUnit::Auto => None,
            TimeUnit::S => Some("as_secs"@),
            TimeUnit::Ms => Some("as_millis"@),
            TimeUnit::Us => Some("as_micros"@),
            TimeUnit::Ns => Some("as_nanos"@),
        }
    }

    /// The format of a printed line: the function's name, a comma, then the elapsed time
    /// followed by the unit. `Auto` prints the duration with `{:?}`, which brings its own
    /// unit.
    pub open spec fn format(self) -> Seq<char> {
        match self {
            TimeUnit::Auto => "{}, {:?}"@,
            TimeUnit::S => "{}, {}s"@,
            TimeUnit::Ms => "{}, {}ms"@,
            TimeUnit::Us => "{}, {}us"@,
            TimeUnit::Ns => "{}, {}ns"@,
        }
    }

    /// `let duration = start.elapsed();`, with the conversion to this unit before the
    /// semicolon where there is one.
    pub open spec fn duration_tokens(self) -> Seq<Token> {
        seq![
            Token::Ident("let"@),
            Token::Ident("duration"@),
            Token::punct('='),
            Token::Ident("start"@),
        ] + method_call("elapsed"@) + (match self.conversion() {
            Some(method) => method_call(method),
            None => Seq::empty(),
        }) + seq![Token::punct(';')]
    }

    /// `<print>!("<format>", "<function_name>", duration);`
    pub open spec fn print_tokens(self, print: Seq<char>, function_name: Seq<char>) -> Seq<Token> {
        seq![
            Token::Ident(print),
            Token::punct('!'),
            Token::Group(
                Delimiter::Parenthesis,
                seq![
                    string_literal(self.format()),
                    Token::punct(','),
                    string_literal(function_name),
                    Token::punct(','),
                    Token::Ident("duration"@),
                ],
            ),
            Token::punct(';'),
        ]
    }

    /// The statement that prints one line to standard output.
    pub open spec fn stdout_tokens(self, function_name: Seq<char>) -> Seq<Token> {
        self.print_tokens("println"@, function_name)
    }

    /// The statement that prints one line to standard error.
    pub open spec fn stderr_tokens(self, function_name: Seq<char>) -> Seq<Token> {
        self.print_tokens("eprintln"@, function_name)
    }
}

impl Printer {
    /// The statements that print the line: one for standard output, one for standard error,
    /// or the first followed by the second.
    pub open spec fn print_tokens(self, time_unit: TimeUnit, function_name: Seq<char>) -> Seq<
        Token,
    > {
        match self {
            Printer::StdOut => time_unit.stdout_tokens(function_name),
            Printer::StdErr => time_unit.stderr_tokens(function_name),
            Printer::Both => time_unit.stdout_tokens(function_name) + time_unit.stderr_tokens(
                function_name,
            ),
        }
    }
}

/// The statements that run `block` between two readings of the clock, print the difference
/// and give back what `block` gave.
pub open spec fn timed_statements(
    printer: Printer,
    time_unit: TimeUnit,
    function_name: Seq<char>,
    block: Seq<Token>,
) -> Seq<Token> {
    start_statement() + result_statement(block) + time_unit.duration_tokens()
        + printer.print_tokens(time_unit, function_name) + seq![Token::Ident("result"@)]
}

/// `feature = "a", feature = "b"`: one test for each feature, commas between them.
pub open spec fn feature_tests(features: Seq<Seq<char>>) -> Seq<Token>
    decreases features.len(),
{
    if features.len() == 0 {
        Seq::empty()
    } else {
        feature_tests(features.drop_last()) + (if features.len() > 1 {
            seq![Token::punct(',')]
        } else {
            Seq::empty()
        }) + seq![Token::Ident("feature"@), Token::punct('='), string_literal(features.last())]
    }
}

/// `any(feature = "a", feature = "b")`: true of a build in which one of the features is on.
pub open spec fn any_feature(features: Seq<Seq<char>>) -> Seq<Token> {
    seq![Token::Ident("any"@), Token::Group(Delimiter::Parenthesis, feature_tests(features))]
}

/// `not(<predicate>)`
pub open spec fn negated(predicate: Seq<Token>) -> Seq<Token> {
    seq![Token::Ident("not"@), Token::Group(Delimiter::Parenthesis, predicate)]
}

/// `#[cfg(<predicate>)]`: keeps what follows in the builds of which `predicate` is true.
pub open spec fn cfg_attribute(predicate: Seq<Token>) -> Seq<Token> {
    seq![
        Token::punct('#'),
        Token::Group(
            Delimiter::Bracket,
            seq![Token::Ident("cfg"@), Token::Group(Delimiter::Parenthesis, predicate)],
        ),
    ]
}

/// The new body, braces not included.
///
/// Without features, the timed statements. With features, two candidates of which every
/// build keeps exactly one: the timed statements in a block of their own where one of the
/// features is on, `block` as it was where none is.
pub open spec fn body(settings: Settings, function_name: Seq<char>, block: Seq<Token>) -> Seq<
    Token,
> {
    let timed = timed_statements(settings.printer, settings.time_unit, function_name, block);
    if settings.features.len() == 0 {
        timed
    } else {
        cfg_attribute(any_feature(settings.features)) + seq![
            Token::Group(Delimiter::Brace, timed),
        ] + cfg_attribute(negated(any_feature(settings.features))) + block
    }
}

/// Everything of a declaration that stands before its body.
pub open spec fn header(fragment: Fragment) -> Seq<Token> {
    fragment.attrs + fragment.vis + fragment.constness + fragment.asyncness + fragment.unsafety
        + fragment.abi + seq![Token::Ident("fn"@)] + fragment.ident + fragment.generics + seq![
        Token::Group(Delimiter::Parenthesis, fragment.inputs + fragment.variadic),
    ] + fragment.output + fragment.where_clause
}

/// The declaration as it was: its header, then its body.
pub open spec fn reassembled(fragment: Fragment) -> Seq<Token> {
    header(fragment) + fragment.block
}

/// The rewritten declaration: the same header, then the new body in braces.
pub open spec fn synthesized(settings: Settings, declaration: Declaration) -> Seq<Token> {
    header(declaration.fragment) + seq![
        Token::Group(
            Delimiter::Brace,
            body(settings, declaration.name, declaration.fragment.block),
        ),
    ]
}

/// The words that the timing code is written with are identifiers.
pub(crate) proof fn vocabulary()
    ensures
        is_word("let"@),
        is_word("start"@),
        is_word("std"@),
        is_word("time"@),
        is_word("Instant"@),
        is_word("now"@),
        is_word("result"@),
        is_word("duration"@),
        is_word("elapsed"@),
        is_word("as_secs"@),
        is_word("as_millis"@),
        is_word("as_micros"@),
        is_word("as_nanos"@),
        is_word("println"@),
        is_word("eprintln"@),
        is_word("feature"@),
        is_word("any"@),
        is_word("not"@),
        is_word("cfg"@),
        is_word("fn"@),
{
    reveal_strlit("let");
    reveal_strlit("start");
    reveal_strlit("std");
    reveal_strlit("time");
    reveal_strlit("Instant");
    reveal_strlit("now");
    reveal_strlit("result");
    reveal_strlit("duration");
    reveal_strlit("elapsed");
    reveal_strlit("as_secs");
    reveal_strlit("as_millis");
    reveal_strlit("as_micros");
    reveal_strlit("as_nanos");
    reveal_strlit("println");
    reveal_strlit("eprintln");
    reveal_strlit("feature");
    reveal_strlit("any");
    reveal_strlit("not");
    reveal_strlit("cfg");
    reveal_strlit("fn");
}

/// Appends `::`.
pub(crate) fn push_path_separator(stream: &mut TokenStream)
    ensures
        stream_tokens(*final(stream)) == stream_tokens(*old(stream)) + path_separator(),
{
    push_punct(stream, ':', Spacing::Joint);
    push_punct(stream, ':', Spacing::Alone);
}

/// Appends `.method()`.
pub(crate) fn push_method_call(stream: &mut TokenStream, method: &str)
    requires
        is_word(method@),
    ensures
        stream_tokens(*final(stream)) == stream_tokens(*old(stream)) + method_call(method@),
{
    push_punct(stream, '.', Spacing::Alone);
    push_ident(stream, method);
    push_group(stream, Delimiter::Parenthesis, empty_stream());
}

/// Appends `let start = std::time::Instant::now();`.
pub(crate) fn push_start_statement(stream: &mut TokenStream)
    ensures
        stream_tokens(*final(stream)) == stream_tokens(*old(stream)) + start_statement(),
{
    proof {
        vocabulary();
    }
    push_ident(stream, "let");
    push_ident(stream, "start");
    push_punct(stream, '=', Spacing::Alone);
    push_ident(stream, "std");
    push_path_separator(stream);
    push_ident(stream, "time");
    push_path_separator(stream);
    push_ident(stream, "Instant");
    push_path_separator(stream);
    push_ident(stream, "now");
    push_group(stream, Delimiter::Parenthesis, empty_stream());
    push_punct(stream, ';', Spacing::Alone);
}

/// Appends `let result = <block>;`.
pub(crate) fn push_result_statement(stream: &mut TokenStream, block: &TokenStream)
    ensures
        stream_tokens(*final(stream)) == stream_tokens(*old(stream)) + result_statement(
            stream_tokens(*block),
        ),
{
    proof {
        vocabulary();
    }
    push_ident(stream, "let");
    push_ident(stream, "result");
    push_punct(stream, '=', Spacing::Alone);
    append_stream(stream, block);
    push_punct(stream, ';', Spacing::Alone);
}

impl TimeUnit {
    /// The format of a printed line in this unit.
    pub fn format_text(&self) -> (text: &'static str)
        ensures
            text@ == self.format(),
    {
        match self {
            TimeUnit::Auto => "{}, {:?}",
            TimeUnit::S => "{}, {}s",
            TimeUnit::Ms => "{}, {}ms",
            TimeUnit::Us => "{}, {}us",
            TimeUnit::Ns => "{}, {}ns",
        }
    }

    /// The statement that binds `duration` to the time elapsed since `start`, counted in
    /// this unit.
    pub fn duration_token(&self) -> (tokens: TokenStream)
        ensures
            stream_tokens(tokens) == self.duration_tokens(),
    {
        proof {
            vocabulary();
        }
        let mut tokens = empty_stream();
        push_ident(&mut tokens, "let");
        push_ident(&mut tokens, "duration");
        push_punct(&mut tokens, '=', Spacing::Alone);
        push_ident(&mut tokens, "start");
        push_method_call(&mut tokens, "elapsed");
        match self {
            TimeUnit::Auto => {},
            TimeUnit::S => push_method_call(&mut tokens, "as_secs"),
            TimeUnit::Ms => push_method_call(&mut tokens, "as_millis"),
            TimeUnit::Us => push_method_call(&mut tokens, "as_micros"),
            TimeUnit::Ns => push_method_call(&mut tokens, "as_nanos"),
        }
        push_punct(&mut tokens, ';', Spacing::Alone);
        tokens
    }

    /// The statement that prints `function_name` and `duration` with the macro `print`.
    fn print_statement(&self, print: &str, function_name: &str) -> (tokens: TokenStream)
        requires
            is_word(print@),
        ensures
            stream_tokens(tokens) == self.print_tokens(print@, function_name@),
    {
        proof {
            vocabulary();
        }
        let mut arguments = empty_stream();
        push_string(&mut arguments, self.format_text());
        push_punct(&mut arguments, ',', Spacing::Alone);
        push_string(&mut arguments, function_name);
        push_punct(&mut arguments, ',', Spacing::Alone);
        push_ident(&mut arguments, "duration");
        assert(stream_tokens(arguments) == seq![
            string_literal(self.format()),
            Token::punct(','),
            string_literal(function_name@),
            Token::punct(','),
            Token::Ident("duration"@),
        ]);
        let mut tokens = empty_stream();
        push_ident(&mut tokens, print);
        push_punct(&mut tokens, '!', Spacing::Alone);
        push_group(&mut tokens, Delimiter::Parenthesis, arguments);
        push_punct(&mut tokens, ';', Spacing::Alone);
        tokens
    }

    /// The statement that prints the line to standard output.
    pub fn print_to_stdout_token(&self, function_name: &String) -> (tokens: TokenStream)
        ensures
            stream_tokens(tokens) == self.stdout_tokens(function_name@),
    {
        proof {
            vocabulary();
        }
        self.print_statement("println", function_name.as_str())
    }

    /// The statement that prints the line to standard error.
    pub fn print_to_stderr_token(&self, function_name: &String) -> (tokens: TokenStream)
        ensures
            stream_tokens(tokens) == self.stderr_tokens(function_name@),
    {
        proof {
            vocabulary();
        }
        self.print_statement("eprintln", function_name.as_str())
    }
}

impl Printer {
    /// The statements that print the line where this setting sends it: with `Both`, to
    /// standard output first and to standard error second.
    pub fn print_token(&self, time_unit: &TimeUnit, function_name: &String) -> (tokens:
        TokenStream)
        ensures
            stream_tokens(tokens) == self.print_tokens(*time_unit, function_name@),
    {
        match self {
            Printer::StdOut => time_unit.print_to_stdout_token(function_name),
            Printer::StdErr => time_unit.print_to_stderr_token(function_name),
            Printer::Both => {
                let mut tokens = time_unit.print_to_stdout_token(function_name);
                let print_to_stderr_token = time_unit.print_to_stderr_token(function_name);
                append_stream(&mut tokens, &print_to_stderr_token);
                tokens
            },
        }
    }
}

/// The tests `feature = "..."` for each of `features`, commas between them.
pub fn feature_tests_token(features: &Vec<String>) -> (tokens: TokenStream)
    ensures
        stream_tokens(tokens) == feature_tests(texts(features@)),
{
    proof {
        vocabulary();
    }
    let mut tokens = empty_stream();
    let mut i: usize = 0;
    while i < features.len()
        invariant
            i <= features.len(),
            is_word("feature"@),
            stream_tokens(tokens) == feature_tests(texts(features@).take(i as int)),
        decreases features.len() - i,
    {
        proof {
            let names = texts(features@);
            assert(names.take(i + 1).drop_last() == names.take(i as int));
            assert(names.take(i + 1).last() == features@[i as int]@);
        }
        if i > 0 {
            push_punct(&mut tokens, ',', Spacing::Alone);
        }
        push_ident(&mut tokens, "feature");
        push_punct(&mut tokens, '=', Spacing::Alone);
        push_string(&mut tokens, features[i].as_str());
        i += 1;
    }
    assert(texts(features@).take(features.len() as int) == texts(features@));
    tokens
}

/// `#[cfg(any(...))]` over `features`, or `#[cfg(not(any(...)))]` where `enabled` is false.
pub fn feature_gate_token(features: &Vec<String>, enabled: bool) -> (tokens: TokenStream)
    ensures
        stream_tokens(tokens) == cfg_attribute(
            if enabled {
                any_feature(texts(features@))
            } else {
                negated(any_feature(texts(features@)))
            },
        ),
{
    proof {
        vocabulary();
    }
    let mut any = empty_stream();
    push_ident(&mut any, "any");
    push_group(&mut any, Delimiter::Parenthesis, feature_tests_token(features));
    assert(stream_tokens(any) == any_feature(texts(features@)));
    let mut predicate = empty_stream();
    if enabled {
        append_stream(&mut predicate, &any);
        assert(stream_tokens(predicate) == any_feature(texts(features@)));
    } else {
        push_ident(&mut predicate, "not");
        push_group(&mut predicate, Delimiter::Parenthesis, any);
        assert(stream_tokens(predicate) == negated(any_feature(texts(features@))));
    }
    let mut attribute = empty_stream();
    push_ident(&mut attribute, "cfg");
    push_group(&mut attribute, Delimiter::Parenthesis, predicate);
    assert(stream_tokens(attribute) == seq![
        Token::Ident("cfg"@),
        Token::Group(Delimiter::Parenthesis, stream_tokens(predicate)),
    ]);
    let mut tokens = empty_stream();
    push_punct(&mut tokens, '#', Spacing::Alone);
    push_group(&mut tokens, Delimiter::Bracket, attribute);
    tokens
}

} // verus!
