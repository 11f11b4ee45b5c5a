//! The error taxonomy of a fuzz run. Configuration and resource errors are
//! fatal and abort the run before (or between) invocations; they carry enough
//! to render the human-facing description.

use vstd::prelude::*;

verus! {

/// A fatal error of a fuzz run.
#[derive(Debug, PartialEq, Eq)]
pub enum FuzzError {
    /// No executable was configured.
    MissingExec,
    /// A range option did not hold exactly one `..` separator; the field is
    /// the offending input.
    NotARange(String),
    /// A side of a range option was not a decimal integer in range; the
    /// field is the offending input.
    NotAnInteger(String),
    /// The wordlist path does not name a readable regular file.
    WordlistNotFound(String),
    /// Captured output of the target was not valid UTF-8.
    InvalidUtf8,
}

impl FuzzError {
    /// The human-facing description of the error.
    pub open spec fn message_spec(&self) -> Seq<char> {
        match self {
            FuzzError::MissingExec => "Unable to parse \"exec\" argument."@,
            FuzzError::NotARange(s) => "Unable to parse the following value: \""@ + s@
                + "\": not a range."@,
            FuzzError::NotAnInteger(s) => "Unable to parse the following value: \""@ + s@
                + "\": not an integer."@,
            FuzzError::WordlistNotFound(p) => "File \""@ + p@ + "\" not found."@,
            FuzzError::InvalidUtf8 => "Captured output was not valid UTF-8."@,
        }
    }

    /// Renders the description, for the caller to print.
    pub fn message(&self) -> (r: String)
        ensures
            r@ == self.message_spec(),
    {
        match self {
            FuzzError::MissingExec => {
                let r = "Unable to parse \"exec\" argument.".to_owned();
                r
            },
            FuzzError::NotARange(s) => {
                let mut r = "Unable to parse the following value: \"".to_owned();
                r.append(s.as_str());
                r.append("\": not a range.");
                r
            },
            FuzzError::NotAnInteger(s) => {
                let mut r = "Unable to parse the following value: \"".to_owned();
                r.append(s.as_str());
                r.append("\": not an integer.");
                r
            },
            FuzzError::WordlistNotFound(p) => {
                let mut r = "File \"".to_owned();
                r.append(p.as_str());
                r.append("\" not found.");
                r
            },
            FuzzError::InvalidUtf8 => {
                let r = "Captured output was not valid UTF-8.".to_owned();
                r
            },
        }
    }
}

} // verus!
