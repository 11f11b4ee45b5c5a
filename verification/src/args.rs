//! The raw command-line options, as the surrounding binary hands them over:
//! one field per flag, before ranges are parsed and defaults applied.

use vstd::prelude::*;

verus! {

/// Raw options of one run. Exactly one of `wordlist`, `string_range` and
/// `number_range` is expected to be present; the loader that builds this
/// value enforces that before the core sees it.
#[derive(Debug)]
pub struct Args {
    /// Path to the executable under test.
    pub executable: Option<String>,
    /// Path to a wordlist file.
    pub wordlist: Option<String>,
    /// A `lo..hi` range of string lengths.
    pub string_range: Option<String>,
    /// An `a..b` range of numbers.
    pub number_range: Option<String>,
    /// By how much the string or number mode steps; zero means the default
    /// of one.
    pub increment: usize,
    /// The argument template, holding the placeholder token.
    pub arguments: Option<String>,
}

} // verus!
