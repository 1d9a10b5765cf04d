use vstd::prelude::*;

verus! {

/// Why an input could not be read.
#[derive(Copy, Clone, Debug, PartialEq, Eq, Structural)]
pub enum IngestFailure {
    /// The bytes are not UTF-8 text.
    InvalidUtf8,
    /// The text is not a document of the format it was read as.
    Syntax,
}

impl IngestFailure {
    /// What the failure says.
    pub open spec fn text(&self) -> Seq<char> {
        match self {
            IngestFailure::InvalidUtf8 => "input is not valid UTF-8 text"@,
            IngestFailure::Syntax => "input could not be parsed"@,
        }
    }

    /// What the failure says.
    pub fn describe(&self) -> (text: &'static str)
        ensures
            text@ == self.text(),
            text@.len() > 0,
    {
        proof {
            reveal_strlit("input is not valid UTF-8 text");
            reveal_strlit("input could not be parsed");
        }
        match self {
            IngestFailure::InvalidUtf8 => "input is not valid UTF-8 text",
            IngestFailure::Syntax => "input could not be parsed",
        }
    }
}

/// An argument whose value is one of a few names.
#[derive(Copy, Clone, Debug, PartialEq, Eq, Structural)]
pub enum Argument {
    Style,
    Format,
    Skew,
    InputFormat,
}

impl Argument {
    /// The name of the argument.
    pub open spec fn name_text(&self) -> Seq<char> {
        match self {
            Argument::Style => "style"@,
            Argument::Format => "format"@,
            Argument::Skew => "skew"@,
            Argument::InputFormat => "input_format"@,
        }
    }

    /// The names that the argument takes, as a message lists them.
    pub open spec fn expected_text(&self) -> Seq<char> {
        match self {
            Argument::Style => "'strict' | 'default' | 'detailed'"@,
            Argument::Format => "'auto' | 'json' | 'yaml' | 'text' | 'code'"@,
            Argument::Skew => "'balanced' | 'head' | 'tail'"@,
            Argument::InputFormat => "'json' | 'yaml' | 'text'"@,
        }
    }

    /// The name of the argument.
    pub fn name(&self) -> (text: &'static str)
        ensures
            text@ == self.name_text(),
    {
        match self {
            Argument::Style => "style",
            Argument::Format => "format",
            Argument::Skew => "skew",
            Argument::InputFormat => "input_format",
        }
    }

    /// The names that the argument takes, as a message lists them.
    pub fn expected(&self) -> (text: &'static str)
        ensures
            text@ == self.expected_text(),
    {
        match self {
            Argument::Style => "'strict' | 'default' | 'detailed'",
            Argument::Format => "'auto' | 'json' | 'yaml' | 'text' | 'code'",
            Argument::Skew => "'balanced' | 'head' | 'tail'",
            Argument::InputFormat => "'json' | 'yaml' | 'text'",
        }
    }
}

/// The message for a value that an argument does not take: it names the
/// argument, the value and the names that were expected.
pub open spec fn unknown_text(argument: Argument, value: Seq<char>) -> Seq<char> {
    "unknown "@ + argument.name_text() + ": "@ + value + " (expected "@ + argument.expected_text()
        + ")"@
}

/// The ways in which a preview can fail.
#[derive(Clone, Debug, PartialEq, Eq)]
pub enum HeadsonError {
    /// An input without a name could not be read.
    IngestFailed(IngestFailure),
    /// The input of the given name could not be read.
    InputFailed { input: String, failure: IngestFailure },
    /// A format other than the automatic one was asked for a fileset.
    FilesetFormatForbidden,
    /// More than one per-file budget, or more than one global budget.
    BudgetConflict,
    /// Strong and weak search together, or a display of matches without a
    /// strong search.
    GrepConflict,
    /// Two options that exclude each other.
    ArgumentConflict,
    /// The file tree was asked for without a file to show.
    TreeWithoutFiles,
    /// The pattern of a search is not a regular expression.
    InvalidPattern,
    /// The argument has a value that is not one of its names.
    UnknownValue(Argument),
}

impl HeadsonError {
    /// The message of an error, as text.
    pub open spec fn message_text(&self) -> Seq<char> {
        match self {
            HeadsonError::IngestFailed(failure) => failure.text(),
            HeadsonError::InputFailed { input, failure } => input@ + ": "@ + failure.text(),
            HeadsonError::FilesetFormatForbidden => "--format cannot be customized for filesets; remove it or set to auto"@,
            HeadsonError::BudgetConflict => "only one per-file budget and only one global budget may be given"@,
            HeadsonError::GrepConflict => "--grep and --weak-grep cannot be used together, and --grep-show requires --grep"@,
            HeadsonError::ArgumentConflict => "conflict: these options cannot be used with each other"@,
            HeadsonError::TreeWithoutFiles => "--tree requires file inputs; it cannot be used with stdin"@,
            HeadsonError::InvalidPattern => "the search pattern is not a valid regular expression"@,
            HeadsonError::UnknownValue(argument) => "unknown "@ + argument.name_text()
                + " (expected "@ + argument.expected_text() + ")"@,
        }
    }

    /// The message of an error.
    pub fn message(&self) -> (text: String)
        ensures
            text@ == self.message_text(),
            text@.len() > 0,
    {
        proof {
            reveal_strlit("--format cannot be customized for filesets; remove it or set to auto");
            reveal_strlit("only one per-file budget and only one global budget may be given");
            reveal_strlit("--grep and --weak-grep cannot be used together, and --grep-show requires --grep");
            reveal_strlit("unknown ");
            reveal_strlit("conflict: these options cannot be used with each other");
            reveal_strlit("the search pattern is not a valid regular expression");
            reveal_strlit("--tree requires file inputs; it cannot be used with stdin");
        }
        match self {
            HeadsonError::IngestFailed(failure) => failure.describe().to_owned(),
            HeadsonError::InputFailed { input, failure } => {
                let mut text = input.clone();
                text.push_str(": ");
                text.push_str(failure.describe());
                text
            },
            HeadsonError::FilesetFormatForbidden => "--format cannot be customized for filesets; remove it or set to auto".to_owned(),
            HeadsonError::BudgetConflict => "only one per-file budget and only one global budget may be given".to_owned(),
            HeadsonError::GrepConflict => "--grep and --weak-grep cannot be used together, and --grep-show requires --grep".to_owned(),
            HeadsonError::ArgumentConflict => "conflict: these options cannot be used with each other".to_owned(),
            HeadsonError::TreeWithoutFiles => "--tree requires file inputs; it cannot be used with stdin".to_owned(),
            HeadsonError::InvalidPattern => "the search pattern is not a valid regular expression".to_owned(),
            HeadsonError::UnknownValue(argument) => {
                let mut text = "unknown ".to_owned();
                text.push_str(argument.name());
                text.push_str(" (expected ");
                text.push_str(argument.expected());
                text.push_str(")");
                text
            },
        }
    }

    /// The message of an error about a value: for a value that an argument
    /// does not take, it names the argument, the value and the names that
    /// were expected; for any other error it is the message of the error.
    pub open spec fn message_text_for(&self, value: Seq<char>) -> Seq<char> {
        match self {
            HeadsonError::UnknownValue(argument) => unknown_text(*argument, value),
            _ => self.message_text(),
        }
    }

    /// The message of an error about a value.
    pub fn message_for(&self, value: &str) -> (text: String)
        ensures
            text@ == self.message_text_for(value@),
    {
        match self {
            HeadsonError::UnknownValue(argument) => {
                let mut text = "unknown ".to_owned();
                text.push_str(argument.name());
                text.push_str(": ");
                text.push_str(value);
                text.push_str(" (expected ");
                text.push_str(argument.expected());
                text.push_str(")");
                text
            },
            _ => self.message(),
        }
    }

    /// The error with the failure of an input put under the name of that
    /// input; any other error as it is.
    pub open spec fn named(self, input: String) -> HeadsonError {
        match self {
            HeadsonError::IngestFailed(failure) => HeadsonError::InputFailed { input, failure },
            other => other,
        }
    }

    /// Put the failure of an input under the name of that input.
    pub fn with_input(self, input: &String) -> (e: HeadsonError)
        ensures
            e == self.named(*input),
    {
        match self {
            HeadsonError::IngestFailed(failure) => HeadsonError::InputFailed {
                input: input.clone(),
                failure,
            },
            other => other,
        }
    }
}

} // verus!
