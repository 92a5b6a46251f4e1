//! The pipeline's sinks: standard output, a file with its write mode and
//! line ending, or the system clipboard.

use vstd::prelude::*;

verus! {

/// Where the result goes.
#[derive(Debug, PartialEq)]
pub enum Output {
    StdOut,
    File { file: String, append: bool, crlf: Option<bool> },
    Clip { crlf: Option<bool> },
}

impl Output {
    pub fn new_std_out() -> (r: Output)
        ensures
            r == Output::StdOut,
    {
        Output::StdOut
    }

    pub fn new_file(file: String, append: bool, crlf: Option<bool>) -> (r: Output)
        ensures
            r == (Output::File { file, append, crlf }),
    {
        Output::File { file, append, crlf }
    }

    pub fn new_clip(crlf: Option<bool>) -> (r: Output)
        ensures
            r == (Output::Clip { crlf }),
    {
        Output::Clip { crlf }
    }
}

/// The line ending an optional `crlf` flag selects; LF unless asked for.
pub fn line_ending(crlf: Option<bool>) -> (r: &'static str)
    ensures
        r@ == if crlf matches Some(true) {
            "\r\n"@
        } else {
            "\n"@
        },
{
    match crlf {
        Some(true) => "\r\n",
        _ => "\n",
    }
}

} // verus!
