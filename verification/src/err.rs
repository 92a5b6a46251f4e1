//! The pipeline's error taxonomy. Every fatal condition is one variant here,
//! and each variant maps to its own stable positive exit code.

use vstd::prelude::*;

verus! {

/// Everything that can stop a run: parse failures before any item is read,
/// and I/O failures while items flow.
#[derive(Debug, Clone, PartialEq, Eq)]
pub enum RpErr {
    /// The option part of an embedded token string did not parse.
    ParseConfigTokenErr(String),
    /// The input command of an embedded token string did not parse.
    ParseInputTokenErr(String),
    /// An operator command of an embedded token string did not parse.
    ParseOpTokenErr(String),
    /// The output command of an embedded token string did not parse.
    ParseOutputTokenErr(String),
    /// An argument's value could not be parsed.
    ArgParseErr { cmd: String, arg: String, arg_value: String, error: String },
    /// An argument's value parsed only partially.
    UnexpectedRemaining { cmd: String, arg: String, remaining: String },
    /// A command misses a required argument.
    MissingArg { cmd: String, arg: String },
    /// Words were left over after the whole pipeline was parsed.
    UnknownArgs { args: Vec<String> },
    /// Reading from the clipboard failed.
    ReadClipboardTextErr(String),
    /// Reading a line from a file failed.
    ReadFromFileErr { file: String, line_no: usize, err: String },
    /// Writing the result to the clipboard failed.
    WriteToClipboardErr(String),
    /// Opening an output file failed.
    OpenFileErr { file: String, err: String },
    /// Writing an item to a file failed.
    WriteToFileErr { file: String, item: String, err: String },
    /// A format template could not be applied to a generated value.
    FormatStringErr { fmt: String, value: String, err_pos: usize },
    /// A regular expression did not compile.
    ParseRegexErr { reg: String, err: String },
}

/// The exit code owed to each error kind: positive, distinct, stable.
pub open spec fn exit_code_spec(e: RpErr) -> u8 {
    match e {
        RpErr::ParseConfigTokenErr(_) => 1,
        RpErr::ParseInputTokenErr(_) => 2,
        RpErr::ParseOpTokenErr(_) => 3,
        RpErr::ParseOutputTokenErr(_) => 4,
        RpErr::ArgParseErr { .. } => 5,
        RpErr::UnexpectedRemaining { .. } => 6,
        RpErr::MissingArg { .. } => 7,
        RpErr::UnknownArgs { .. } => 8,
        RpErr::ReadClipboardTextErr(_) => 9,
        RpErr::ReadFromFileErr { .. } => 10,
        RpErr::WriteToClipboardErr(_) => 11,
        RpErr::OpenFileErr { .. } => 12,
        RpErr::WriteToFileErr { .. } => 13,
        RpErr::FormatStringErr { .. } => 14,
        RpErr::ParseRegexErr { .. } => 15,
    }
}

impl RpErr {
    /// The process exit code for this error.
    pub fn exit_code(&self) -> (r: u8)
        ensures
            r == exit_code_spec(*self),
            1 <= r <= 15,
    {
        match self {
            RpErr::ParseConfigTokenErr(_) => 1,
            RpErr::ParseInputTokenErr(_) => 2,
            RpErr::ParseOpTokenErr(_) => 3,
            RpErr::ParseOutputTokenErr(_) => 4,
            RpErr::ArgParseErr { .. } => 5,
            RpErr::UnexpectedRemaining { .. } => 6,
            RpErr::MissingArg { .. } => 7,
            RpErr::UnknownArgs { .. } => 8,
            RpErr::ReadClipboardTextErr(_) => 9,
            RpErr::ReadFromFileErr { .. } => 10,
            RpErr::WriteToClipboardErr(_) => 11,
            RpErr::OpenFileErr { .. } => 12,
            RpErr::WriteToFileErr { .. } => 13,
            RpErr::FormatStringErr { .. } => 14,
            RpErr::ParseRegexErr { .. } => 15,
        }
    }
}

/// Two distinct error kinds never share an exit code; the code is the kind.
pub proof fn lemma_exit_codes_distinct(a: RpErr, b: RpErr)
    ensures
        exit_code_spec(a) == exit_code_spec(b) ==> match (a, b) {
            (RpErr::ParseConfigTokenErr(_), RpErr::ParseConfigTokenErr(_)) => true,
            (RpErr::ParseInputTokenErr(_), RpErr::ParseInputTokenErr(_)) => true,
            (RpErr::ParseOpTokenErr(_), RpErr::ParseOpTokenErr(_)) => true,
            (RpErr::ParseOutputTokenErr(_), RpErr::ParseOutputTokenErr(_)) => true,
            (RpErr::ArgParseErr { .. }, RpErr::ArgParseErr { .. }) => true,
            (RpErr::UnexpectedRemaining { .. }, RpErr::UnexpectedRemaining { .. }) => true,
            (RpErr::MissingArg { .. }, RpErr::MissingArg { .. }) => true,
            (RpErr::UnknownArgs { .. }, RpErr::UnknownArgs { .. }) => true,
            (RpErr::ReadClipboardTextErr(_), RpErr::ReadClipboardTextErr(_)) => true,
            (RpErr::ReadFromFileErr { .. }, RpErr::ReadFromFileErr { .. }) => true,
            (RpErr::WriteToClipboardErr(_), RpErr::WriteToClipboardErr(_)) => true,
            (RpErr::OpenFileErr { .. }, RpErr::OpenFileErr { .. }) => true,
            (RpErr::WriteToFileErr { .. }, RpErr::WriteToFileErr { .. }) => true,
            (RpErr::FormatStringErr { .. }, RpErr::FormatStringErr { .. }) => true,
            (RpErr::ParseRegexErr { .. }, RpErr::ParseRegexErr { .. }) => true,
            _ => false,
        },
{
}

} // verus!
