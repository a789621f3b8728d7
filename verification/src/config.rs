//! The settings that an attribute can carry, and the words that name them.

use vstd::prelude::*;
use crate::text::same_text;

verus! {

/// Where the elapsed time is printed.
#[derive(Clone, Copy, Debug, PartialEq, Eq, Structural)]
pub enum Printer {
    /// To standard output.
    StdOut,
    /// To standard error.
    StdErr,
    /// To standard output, then to standard error.
    Both,
}

/// The unit in which the elapsed time is printed.
#[derive(Clone, Copy, Debug, PartialEq, Eq, Structural)]
pub enum TimeUnit {
    /// As the duration prints itself, unit included.
    Auto,
    /// Whole seconds.
    S,
    /// Whole milliseconds.
    Ms,
    /// Whole microseconds.
    Us,
    /// Whole nanoseconds.
    Ns,
}

/// What one word of an attribute names.
#[derive(Clone, Copy, Debug, PartialEq, Eq, Structural)]
pub enum Keyword {
    /// An output stream.
    Printer(Printer),
    /// A unit of time.
    TimeUnit(TimeUnit),
    /// Nothing.
    Unrecognized,
}

impl Printer {
    /// The stream that `tag` names, if it names one.
    pub open spec fn of_tag(tag: Seq<char>) -> Option<Printer> {
        if tag == "stdout"@ {
            Some(Printer::StdOut)
        } else if tag == "stderr"@ {
            Some(Printer::StdErr)
        } else if tag == "both"@ {
            Some(Printer::Both)
        } else {
            None
        }
    }

    /// The stream that `tag` names, if it names one.
    pub fn from_tag(tag: &str) -> (printer: Option<Printer>)
        ensures
            printer == Printer::of_tag(tag@),
    {
        if same_text(tag, "stdout") {
            Some(Printer::StdOut)
        } else if same_text(tag, "stderr") {
            Some(Printer::StdErr)
        } else if same_text(tag, "both") {
            Some(Printer::Both)
        } else {
            None
        }
    }
}

impl Default for Printer {
    /// Standard output.
    fn default() -> (printer: Printer)
        ensures
            printer == Printer::StdOut,
    {
        Printer::StdOut
    }
}

impl TimeUnit {
    /// The unit that `tag` names, if it names one.
    pub open spec fn of_tag(tag: Seq<char>) -> Option<TimeUnit> {
        if tag == "auto"@ {
            Some(TimeUnit::Auto)
        } else if tag == "s"@ {
            Some(TimeUnit::S)
        } else if tag == "ms"@ {
            Some(TimeUnit::Ms)
        } else if tag == "us"@ {
            Some(TimeUnit::Us)
        } else if tag == "ns"@ {
            Some(TimeUnit::Ns)
        } else {
            None
        }
    }

    /// The unit that `tag` names, if it names one.
    pub fn from_tag(tag: &str) -> (unit: Option<TimeUnit>)
        ensures
            unit == TimeUnit::of_tag(tag@),
    {
        if same_text(tag, "auto") {
            Some(TimeUnit::Auto)
        } else if same_text(tag, "s") {
            Some(TimeUnit::S)
        } else if same_text(tag, "ms") {
            Some(TimeUnit::Ms)
        } else if same_text(tag, "us") {
            Some(TimeUnit::Us)
        } else if same_text(tag, "ns") {
            Some(TimeUnit::Ns)
        } else {
            None
        }
    }
}

impl Default for TimeUnit {
    /// The duration's own rendering.
    fn default() -> (unit: TimeUnit)
        ensures
            unit == TimeUnit::Auto,
    {
        TimeUnit::Auto
    }
}

impl Keyword {
    /// What `tag` names: an output stream first, else a unit of time, else nothing.
    pub open spec fn of_tag(tag: Seq<char>) -> Keyword {
        match Printer::of_tag(tag) {
            Some(printer) => Keyword::Printer(printer),
            None => match TimeUnit::of_tag(tag) {
                Some(unit) => Keyword::TimeUnit(unit),
                None => Keyword::Unrecognized,
            },
        }
    }

    /// Classifies one word of an attribute, quotes already removed.
    pub fn classify(tag: &str) -> (keyword: Keyword)
        ensures
            keyword == Keyword::of_tag(tag@),
    {
        match Printer::from_tag(tag) {
            Some(printer) => Keyword::Printer(printer),
            None => match TimeUnit::from_tag(tag) {
                Some(unit) => Keyword::TimeUnit(unit),
                None => Keyword::Unrecognized,
            },
        }
    }
}

/// The settings of one attribute, in the terms of the contracts.
pub struct Settings {
    pub printer: Printer,
    pub time_unit: TimeUnit,
    /// The features that switch the timing on, each once, in the order of their first
    /// mention. None: the timing is always on.
    pub features: Seq<Seq<char>>,
}

/// The characters of each string.
pub open spec fn texts(strings: Seq<String>) -> Seq<Seq<char>> {
    strings.map_values(|s: String| s@)
}

/// The settings of one attribute.
#[derive(Debug, PartialEq, Eq)]
pub struct Configuration {
    pub printer: Printer,
    pub time_unit: TimeUnit,
    pub features: Vec<String>,
}

impl View for Configuration {
    type V = Settings;

    open spec fn view(&self) -> Settings {
        Settings {
            printer: self.printer,
            time_unit: self.time_unit,
            features: texts(self.features@),
        }
    }
}

impl Configuration {
    /// No feature is listed twice.
    pub open spec fn wf(&self) -> bool {
        self@.features.no_duplicates()
    }
}

impl Default for Configuration {
    /// Standard output, the duration's own rendering, no feature.
    fn default() -> (configuration: Configuration)
        ensures
            configuration@ == (Settings {
                printer: Printer::StdOut,
                time_unit: TimeUnit::Auto,
                features: Seq::empty(),
            }),
            configuration.wf(),
    {
        let configuration = Configuration {
            printer: Printer::default(),
            time_unit: TimeUnit::default(),
            features: Vec::new(),
        };
        assert(configuration@.features =~= Seq::empty());
        configuration
    }
}

} // verus!
