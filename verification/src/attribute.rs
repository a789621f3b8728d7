//! Reading the arguments of the attribute.
//!
//! The arguments are a list with commas between its items: at most one word for the output
//! stream, at most one for the unit of time, at most one group of feature names. Tokens are
//! taken from left to right, and the first one that breaks a rule decides the error.

use vstd::prelude::*;
use proc_macro2::TokenStream;
use crate::config::{texts, Configuration, Keyword, Printer, Settings, TimeUnit};
use crate::error::ConfigError;
use crate::print_option::PrintOption;
use crate::stream::{stream_tokens, trees_of, Tree};
use crate::text::{strip_quotes, without_quotes};
use crate::token::Token;

verus! {

/// The word that a token spells: the text of an identifier, the text of a literal without
/// its double quotes. Punctuation and groups spell none.
pub open spec fn tag_of(token: Token) -> Option<Seq<char>> {
    match token {
        Token::Ident(text) => Some(text),
        Token::Literal(text) => Some(without_quotes(text)),
        _ => None,
    }
}

/// `names` with `name` at its end, unless it is there already.
pub open spec fn with_feature(names: Seq<Seq<char>>, name: Seq<char>) -> Seq<Seq<char>> {
    if names.contains(name) {
        names
    } else {
        names.push(name)
    }
}

/// The feature names that the tokens of a group list, each once, in the order of their first
/// mention; or the first error met.
///
/// Names stand at the even places and commas at the odd ones. A comma after the last name is
/// accepted.
pub open spec fn parsed_features(tokens: Seq<Token>) -> Result<Seq<Seq<char>>, ConfigError>
    decreases tokens.len(),
{
    if tokens.len() == 0 {
        Ok(Seq::empty())
    } else {
        match parsed_features(tokens.drop_last()) {
            Err(error) => Err(error),
            Ok(names) => if (tokens.len() - 1) % 2 == 1 {
                if tokens.last().is_comma() {
                    Ok(names)
                } else {
                    Err(ConfigError::FeatureDelimiter)
                }
            } else {
                match tag_of(tokens.last()) {
                    Some(name) => Ok(with_feature(names, name)),
                    None => Err(ConfigError::UnknownFeature),
                }
            },
        }
    }
}

/// What has been set so far while the arguments are read.
pub struct Scan {
    pub printer: Option<Printer>,
    pub time_unit: Option<TimeUnit>,
    pub features: Option<Seq<Seq<char>>>,
}

impl Scan {
    /// Nothing set yet.
    pub open spec fn start() -> Scan {
        Scan { printer: None, time_unit: None, features: None }
    }

    /// The settings once the reading is over: what was not set takes its default.
    pub open spec fn settings(self) -> Settings {
        Settings {
            printer: match self.printer {
                Some(printer) => printer,
                None => Printer::StdOut,
            },
            time_unit: match self.time_unit {
                Some(time_unit) => time_unit,
                None => TimeUnit::Auto,
            },
            features: match self.features {
                Some(features) => features,
                None => Seq::empty(),
            },
        }
    }

    /// Takes in a word: it sets the output stream or the unit of time, each at most once.
    pub open spec fn with_tag(self, tag: Seq<char>) -> Result<Scan, ConfigError> {
        match Keyword::of_tag(tag) {
            Keyword::Printer(printer) => if self.printer is None {
                Ok(Scan { printer: Some(printer), ..self })
            } else {
                Err(ConfigError::DuplicatePrinter)
            },
            Keyword::TimeUnit(time_unit) => if self.time_unit is None {
                Ok(Scan { time_unit: Some(time_unit), ..self })
            } else {
                Err(ConfigError::DuplicateTimeUnit)
            },
            Keyword::Unrecognized => Err(ConfigError::UnknownKeyword),
        }
    }

    /// Takes in the token at an even place: a word, or the one group of features.
    pub open spec fn with_value(self, token: Token) -> Result<Scan, ConfigError> {
        match token {
            Token::Ident(text) => self.with_tag(text),
            Token::Literal(text) => self.with_tag(without_quotes(text)),
            Token::Group(_, inner) => if self.features is Some {
                Err(ConfigError::DuplicateFeatures)
            } else {
                match parsed_features(inner) {
                    Ok(features) => Ok(Scan { features: Some(features), ..self }),
                    Err(error) => Err(error),
                }
            },
            Token::Punct(_, _) => Err(ConfigError::UnknownAttribute),
        }
    }

    /// Takes in the token at place `index`: a comma at an odd place, a value at an even one.
    pub open spec fn with_token(self, index: int, token: Token) -> Result<Scan, ConfigError> {
        if index % 2 == 1 {
            if token.is_comma() {
                Ok(self)
            } else {
                Err(ConfigError::AttributeDelimiter)
            }
        } else {
            self.with_value(token)
        }
    }
}

/// What is set once all of `tokens` are read, or the first error met.
pub open spec fn scanned(tokens: Seq<Token>) -> Result<Scan, ConfigError>
    decreases tokens.len(),
{
    if tokens.len() == 0 {
        Ok(Scan::start())
    } else {
        match scanned(tokens.drop_last()) {
            Err(error) => Err(error),
            Ok(scan) => scan.with_token(tokens.len() - 1, tokens.last()),
        }
    }
}

/// The settings that the arguments `tokens` ask for, or the reason why they are rejected.
pub open spec fn parsed_attributes(tokens: Seq<Token>) -> Result<Settings, ConfigError> {
    match scanned(tokens) {
        Ok(scan) => Ok(scan.settings()),
        Err(error) => Err(error),
    }
}

/// What a result of the reader stands for.
pub open spec fn settings_of(result: Result<Configuration, ConfigError>) -> Result<
    Settings,
    ConfigError,
> {
    match result {
        Ok(configuration) => Ok(configuration@),
        Err(error) => Err(error),
    }
}

/// What a list of feature names stands for.
pub open spec fn names_of(result: Result<Vec<String>, ConfigError>) -> Result<
    Seq<Seq<char>>,
    ConfigError,
> {
    match result {
        Ok(names) => Ok(texts(names@)),
        Err(error) => Err(error),
    }
}

/// What a list of feature names that may not have been given yet stands for.
spec fn optional_names(features: Option<Vec<String>>) -> Option<Seq<Seq<char>>> {
    match features {
        Some(names) => Some(texts(names@)),
        None => None,
    }
}

/// One more token of a list that was fine so far.
proof fn scanned_step(tokens: Seq<Token>, i: int)
    requires
        0 <= i < tokens.len(),
    ensures
        scanned(tokens.take(i + 1)) == match scanned(tokens.take(i)) {
            Err(error) => Err(error),
            Ok(scan) => scan.with_token(i, tokens[i]),
        },
{
    assert(tokens.take(i + 1).drop_last() == tokens.take(i));
}

/// One more token of a group that was fine so far.
proof fn parsed_features_step(tokens: Seq<Token>, i: int)
    requires
        0 <= i < tokens.len(),
    ensures
        parsed_features(tokens.take(i + 1)) == match parsed_features(tokens.take(i)) {
            Err(error) => Err(error),
            Ok(names) => if i % 2 == 1 {
                if tokens[i].is_comma() {
                    Ok(names)
                } else {
                    Err(ConfigError::FeatureDelimiter)
                }
            } else {
                match tag_of(tokens[i]) {
                    Some(name) => Ok(with_feature(names, name)),
                    None => Err(ConfigError::UnknownFeature),
                }
            },
        },
{
    assert(tokens.take(i + 1).drop_last() == tokens.take(i));
}

/// The first error decides: an error met in the first `n` tokens of a group is the error of
/// the whole group.
pub proof fn first_feature_error(tokens: Seq<Token>, n: int)
    requires
        0 <= n <= tokens.len(),
        parsed_features(tokens.take(n)) is Err,
    ensures
        parsed_features(tokens) == parsed_features(tokens.take(n)),
    decreases tokens.len() - n,
{
    if n == tokens.len() {
        assert(tokens.take(n) == tokens);
    } else {
        parsed_features_step(tokens, n);
        first_feature_error(tokens, n + 1);
    }
}

/// The first error decides: an error met in the first `n` tokens is the error of the whole
/// list.
pub proof fn first_error(tokens: Seq<Token>, n: int)
    requires
        0 <= n <= tokens.len(),
        scanned(tokens.take(n)) is Err,
    ensures
        scanned(tokens) == scanned(tokens.take(n)),
    decreases tokens.len() - n,
{
    if n == tokens.len() {
        assert(tokens.take(n) == tokens);
    } else {
        scanned_step(tokens, n);
        first_error(tokens, n + 1);
    }
}

/// What the reader of a list waits for.
#[derive(Clone, Copy, Debug, PartialEq, Eq, Structural)]
pub enum Expect {
    /// An item of the list.
    Value,
    /// The comma after an item.
    Delimiter,
}

impl Expect {
    /// What is due at place `index`: items at the even places, commas at the odd ones.
    pub open spec fn at(index: int) -> Expect {
        if index % 2 == 1 {
            Expect::Delimiter
        } else {
            Expect::Value
        }
    }
}

/// Is `name` among `names`?
fn has_feature(names: &Vec<String>, name: &String) -> (found: bool)
    ensures
        found == texts(names@).contains(name@),
{
    let mut i: usize = 0;
    while i < names.len()
        invariant
            i <= names.len(),
            forall|j: int| 0 <= j < i ==> texts(names@)[j] != name@,
        decreases names.len() - i,
    {
        if names[i] == *name {
            assert(texts(names@)[i as int] == name@);
            return true;
        }
        i += 1;
    }
    false
}

impl PrintOption {
    /// Is the token a comma?
    pub fn token_is_comma(tree: &Tree) -> (is_comma: bool)
        ensures
            is_comma == (tree matches Tree::Punct(ch) && ch == ','),
            forall|token: Token| tree.reads(token) ==> is_comma == token.is_comma(),
    {
        match tree {
            Tree::Punct(ch) => *ch == ',',
            _ => false,
        }
    }

    /// Takes in one word of the attribute, quotes already removed: it names the output
    /// stream or the unit of time, and neither may be named twice.
    pub fn parse_from_tag(
        tag: &str,
        optional_printer: &mut Option<Printer>,
        optional_time_unit: &mut Option<TimeUnit>,
    ) -> (outcome: Result<(), ConfigError>)
        ensures
            match (Scan {
                printer: *old(optional_printer),
                time_unit: *old(optional_time_unit),
                features: None,
            }).with_tag(tag@) {
                Ok(scan) => {
                    &&& outcome is Ok
                    &&& *final(optional_printer) == scan.printer
                    &&& *final(optional_time_unit) == scan.time_unit
                },
                Err(error) => {
                    &&& outcome == Err::<(), ConfigError>(error)
                    &&& *final(optional_printer) == *old(optional_printer)
                    &&& *final(optional_time_unit) == *old(optional_time_unit)
                },
            },
    {
        match Keyword::classify(tag) {
            Keyword::Printer(printer) => {
                if optional_printer.is_none() {
                    *optional_printer = Some(printer);
                    Ok(())
                } else {
                    Err(ConfigError::DuplicatePrinter)
                }
            },
            Keyword::TimeUnit(time_unit) => {
                if optional_time_unit.is_none() {
                    *optional_time_unit = Some(time_unit);
                    Ok(())
                } else {
                    Err(ConfigError::DuplicateTimeUnit)
                }
            },
            Keyword::Unrecognized => Err(ConfigError::UnknownKeyword),
        }
    }

    /// Reads the feature names that a group lists, keeping each once.
    pub fn parse_features(group: &TokenStream) -> (features: Result<Vec<String>, ConfigError>)
        ensures
            names_of(features) == parsed_features(stream_tokens(*group)),
            features matches Ok(names) ==> texts(names@).no_duplicates(),
    {
        let ghost tokens = stream_tokens(*group);
        let trees = trees_of(group);
        let mut features: Vec<String> = Vec::new();
        let mut expect = Expect::Value;
        let mut index: usize = 0;
        assert(texts(features@) == Seq::<Seq<char>>::empty());
        while index < trees.len()
            invariant
                index <= trees.len(),
                expect == Expect::at(index as int),
                tokens == stream_tokens(*group),
                trees@.len() == tokens.len(),
                forall|i: int| 0 <= i < trees@.len() ==> (#[trigger] trees@[i]).reads(tokens[i]),
                parsed_features(tokens.take(index as int)) == Ok::<Seq<Seq<char>>, ConfigError>(
                    texts(features@),
                ),
                texts(features@).no_duplicates(),
            decreases trees.len() - index,
        {
            proof {
                parsed_features_step(tokens, index as int);
                assert(trees@[index as int].reads(tokens[index as int]));
                if parsed_features(tokens.take(index + 1)) is Err {
                    first_feature_error(tokens, index + 1);
                }
            }
            match expect {
                Expect::Delimiter => {
                    if !Self::token_is_comma(&trees[index]) {
                        return Err(ConfigError::FeatureDelimiter);
                    }
                    expect = Expect::Value;
                },
                Expect::Value => {
                    let feature = match &trees[index] {
                        Tree::Ident(ident) => ident.clone(),
                        Tree::Literal(literal) => strip_quotes(literal.as_str()),
                        _ => {
                            return Err(ConfigError::UnknownFeature);
                        },
                    };
                    if !has_feature(&features, &feature) {
                        let ghost before = texts(features@);
                        features.push(feature);
                        assert(texts(features@) == before.push(feature@));
                    }
                    expect = Expect::Delimiter;
                },
            }
            index += 1;
        }
        assert(tokens.take(tokens.len() as int) == tokens);
        Ok(features)
    }

    /// Reads the arguments of the attribute into settings, with the defaults where nothing
    /// is said: standard output, the duration's own rendering, no feature.
    pub fn parse_attributes(attr: &TokenStream) -> (configuration: Result<
        Configuration,
        ConfigError,
    >)
        ensures
            settings_of(configuration) == parsed_attributes(stream_tokens(*attr)),
            configuration matches Ok(settings) ==> settings.wf(),
    {
        let ghost tokens = stream_tokens(*attr);
        let trees = trees_of(attr);
        let mut optional_printer: Option<Printer> = None;
        let mut optional_time_unit: Option<TimeUnit> = None;
        let mut optional_features: Option<Vec<String>> = None;
        let mut expect = Expect::Value;
        let mut index: usize = 0;
        while index < trees.len()
            invariant
                index <= trees.len(),
                expect == Expect::at(index as int),
                tokens == stream_tokens(*attr),
                trees@.len() == tokens.len(),
                forall|i: int| 0 <= i < trees@.len() ==> (#[trigger] trees@[i]).reads(tokens[i]),
                scanned(tokens.take(index as int)) == Ok::<Scan, ConfigError>(
                    Scan {
                        printer: optional_printer,
                        time_unit: optional_time_unit,
                        features: optional_names(optional_features),
                    },
                ),
                optional_features matches Some(names) ==> texts(names@).no_duplicates(),
            decreases trees.len() - index,
        {
            proof {
                scanned_step(tokens, index as int);
                assert(trees@[index as int].reads(tokens[index as int]));
                if scanned(tokens.take(index + 1)) is Err {
                    first_error(tokens, index + 1);
                }
            }
            match expect {
                Expect::Delimiter => {
                    if !Self::token_is_comma(&trees[index]) {
                        return Err(ConfigError::AttributeDelimiter);
                    }
                    expect = Expect::Value;
                },
                Expect::Value => {
                    match &trees[index] {
                        Tree::Ident(ident) => {
                            match Self::parse_from_tag(
                                ident.as_str(),
                                &mut optional_printer,
                                &mut optional_time_unit,
                            ) {
                                Ok(()) => {},
                                Err(error) => {
                                    return Err(error);
                                },
                            }
                        },
                        Tree::Literal(literal) => {
                            let tag = strip_quotes(literal.as_str());
                            match Self::parse_from_tag(
                                tag.as_str(),
                                &mut optional_printer,
                                &mut optional_time_unit,
                            ) {
                                Ok(()) => {},
                                Err(error) => {
                                    return Err(error);
                                },
                            }
                        },
                        Tree::Group(group) => {
                            if optional_features.is_some() {
                                return Err(ConfigError::DuplicateFeatures);
                            }
                            match Self::parse_features(group) {
                                Ok(features) => {
                                    optional_features = Some(features);
                                },
                                Err(error) => {
                                    return Err(error);
                                },
                            }
                        },
                        Tree::Punct(_) => {
                            return Err(ConfigError::UnknownAttribute);
                        },
                    }
                    expect = Expect::Delimiter;
                },
            }
            index += 1;
        }
        assert(tokens.take(tokens.len() as int) == tokens);
        let printer = match optional_printer {
            Some(printer) => printer,
            None => Printer::default(),
        };
        let time_unit = match optional_time_unit {
            Some(time_unit) => time_unit,
            None => TimeUnit::default(),
        };
        let features = match optional_features {
            Some(features) => features,
            None => Vec::new(),
        };
        assert(optional_features is None ==> texts(features@) == Seq::<Seq<char>>::empty());
        Ok(Configuration { printer, time_unit, features })
    }
}

} // verus!
