//! What can go wrong while an attribute is read and a declaration is rewritten.

use vstd::prelude::*;

verus! {

/// The four families of failure.
#[derive(Clone, Copy, Debug, PartialEq, Eq, Structural)]
pub enum ErrorKind {
    /// Something other than a comma stands where a comma is due.
    Delimiter,
    /// A setting is given a second time.
    DuplicateSetting,
    /// A token that names no setting.
    UnrecognizedToken,
    /// The attribute sits on something that is not a function.
    TargetKind,
}

/// Why an attribute's arguments were rejected.
#[derive(Clone, Copy, Debug, PartialEq, Eq, Structural)]
pub enum ConfigError {
    /// Two settings are not separated by a comma.
    AttributeDelimiter,
    /// Two feature names are not separated by a comma.
    FeatureDelimiter,
    /// A second output stream is named.
    DuplicatePrinter,
    /// A second unit of time is named.
    DuplicateTimeUnit,
    /// A second list of features is given.
    DuplicateFeatures,
    /// A word or literal that names neither an output stream nor a unit of time.
    UnknownKeyword,
    /// A punctuation mark where a setting is due.
    UnknownAttribute,
    /// A feature that is neither a word nor a literal.
    UnknownFeature,
}

impl ConfigError {
    /// The family that this error belongs to.
    pub open spec fn spec_kind(self) -> ErrorKind {
        match self {
            ConfigError::AttributeDelimiter | ConfigError::FeatureDelimiter => ErrorKind::Delimiter,
            ConfigError::DuplicatePrinter
            | ConfigError::DuplicateTimeUnit
            | ConfigError::DuplicateFeatures => ErrorKind::DuplicateSetting,
            ConfigError::UnknownKeyword
            | ConfigError::UnknownAttribute
            | ConfigError::UnknownFeature => ErrorKind::UnrecognizedToken,
        }
    }

    /// The family that this error belongs to.
    #[verifier::when_used_as_spec(spec_kind)]
    pub fn kind(self) -> (kind: ErrorKind)
        ensures
            kind == self.spec_kind(),
    {
        match self {
            ConfigError::AttributeDelimiter | ConfigError::FeatureDelimiter => ErrorKind::Delimiter,
            ConfigError::DuplicatePrinter
            | ConfigError::DuplicateTimeUnit
            | ConfigError::DuplicateFeatures => ErrorKind::DuplicateSetting,
            ConfigError::UnknownKeyword
            | ConfigError::UnknownAttribute
            | ConfigError::UnknownFeature => ErrorKind::UnrecognizedToken,
        }
    }

    /// The sentence shown to the user.
    pub open spec fn spec_message(self) -> Seq<char> {
        match self {
            ConfigError::AttributeDelimiter => "Commas(,) are used as attribute delimiter."@,
            ConfigError::FeatureDelimiter => "Commas(,) are used as feature delimiter."@,
            ConfigError::DuplicatePrinter => "Printer attribute is assigned multiple times."@,
            ConfigError::DuplicateTimeUnit => "Time unit attribute is assigned multiple times."@,
            ConfigError::DuplicateFeatures => "Features attribute is assigned multiple times."@,
            ConfigError::UnknownKeyword => "Attribute allows printer settings(stdout, stderr, both) and time unit(auto, s, ms, us, ns)"@,
            ConfigError::UnknownAttribute => "Unknown attributes"@,
            ConfigError::UnknownFeature => "Features allows only attribute"@,
        }
    }

    /// The sentence shown to the user.
    pub fn message(self) -> (text: String)
        ensures
            text@ == self.spec_message(),
    {
        let text: &str = match self {
            ConfigError::AttributeDelimiter => "Commas(,) are used as attribute delimiter.",
            ConfigError::FeatureDelimiter => "Commas(,) are used as feature delimiter.",
            ConfigError::DuplicatePrinter => "Printer attribute is assigned multiple times.",
            ConfigError::DuplicateTimeUnit => "Time unit attribute is assigned multiple times.",
            ConfigError::DuplicateFeatures => "Features attribute is assigned multiple times.",
            ConfigError::UnknownKeyword => "Attribute allows printer settings(stdout, stderr, both) and time unit(auto, s, ms, us, ns)",
            ConfigError::UnknownAttribute => "Unknown attributes",
            ConfigError::UnknownFeature => "Features allows only attribute",
        };
        text.to_owned()
    }
}

/// Why a declaration was not rewritten.
#[derive(Debug, PartialEq, Eq)]
pub enum TransformError {
    /// The attribute's arguments were rejected.
    Configuration(ConfigError),
    /// The declaration is not a function; the parser's diagnostic is carried along.
    TargetKind(String),
}

impl TransformError {
    /// The family that this error belongs to.
    pub open spec fn spec_kind(&self) -> ErrorKind {
        match self {
            TransformError::Configuration(error) => error.spec_kind(),
            TransformError::TargetKind(_) => ErrorKind::TargetKind,
        }
    }

    /// The family that this error belongs to.
    #[verifier::when_used_as_spec(spec_kind)]
    pub fn kind(&self) -> (kind: ErrorKind)
        ensures
            kind == self.spec_kind(),
    {
        match self {
            TransformError::Configuration(error) => error.kind(),
            TransformError::TargetKind(_) => ErrorKind::TargetKind,
        }
    }

    /// The sentence shown to the user.
    pub open spec fn spec_message(&self) -> Seq<char> {
        match self {
            TransformError::Configuration(error) => error.spec_message(),
            TransformError::TargetKind(diagnostic) => diagnostic@,
        }
    }

    /// The sentence shown to the user.
    pub fn message(&self) -> (text: String)
        ensures
            text@ == self.spec_message(),
    {
        match self {
            TransformError::Configuration(error) => error.message(),
            TransformError::TargetKind(diagnostic) => diagnostic.clone(),
        }
    }
}

} // verus!
