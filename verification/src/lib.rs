//! Core of a command-line argument fuzzer: candidate generation from a
//! wordlist, a numeric range or a string-length range, template substitution,
//! and classification of each invocation's outcome.
//!
//! Everything that computes is here and carries a contract; spawning the
//! target process, reading the wordlist file and printing reports are left to
//! the surrounding binary, which feeds plain values in and out.

use vstd::prelude::*;

pub mod args;
pub mod errors;
pub mod fuzzer;
pub mod num;
pub mod text;

use crate::args::Args;
use crate::errors::FuzzError;
use crate::fuzzer::FuzzerConfig;
use crate::num::{
    i128_in_range, int_str_val, is_digit, is_int_str, is_uint_str, parse_i128, parse_usize,
    uint_str_val,
};

verus! {

/// The two-character range separator stands at position `i` of `s`.
pub open spec fn sep_at(s: Seq<char>, i: int) -> bool {
    0 <= i && i + 2 <= s.len() && s[i] == '.' && s[i + 1] == '.'
}

/// Position of the first range separator at or after `i`, if any.
pub open spec fn first_sep_from(s: Seq<char>, i: int) -> Option<int>
    decreases s.len() - i, when 0 <= i
{
    if i + 2 > s.len() {
        None
    } else if sep_at(s, i) {
        Some(i)
    } else {
        first_sep_from(s, i + 1)
    }
}

/// The two parts of a range string, when splitting on the separator yields
/// exactly two: the text before the first separator and the text after it,
/// the latter free of further separators.
pub open spec fn split_once_spec(s: Seq<char>) -> Option<(Seq<char>, Seq<char>)> {
    match first_sep_from(s, 0) {
        None => None,
        Some(i) => if first_sep_from(s.skip(i + 2), 0) is Some {
            None
        } else {
            Some((s.take(i), s.skip(i + 2)))
        },
    }
}

/// The signed range a string denotes: both parts parse as in-range signed
/// integers around exactly one separator.
pub open spec fn i128_range_of(s: Seq<char>) -> Option<(int, int)> {
    match split_once_spec(s) {
        None => None,
        Some(p) => if is_int_str(p.0) && i128_in_range(int_str_val(p.0)) && is_int_str(p.1)
            && i128_in_range(int_str_val(p.1)) {
            Some((int_str_val(p.0), int_str_val(p.1)))
        } else {
            None
        },
    }
}

/// The unsigned range a string denotes: both parts parse as in-range
/// unsigned integers around exactly one separator.
pub open spec fn usize_range_of(s: Seq<char>) -> Option<(int, int)> {
    match split_once_spec(s) {
        None => None,
        Some(p) => if is_uint_str(p.0) && uint_str_val(p.0) <= usize::MAX && is_uint_str(p.1)
            && uint_str_val(p.1) <= usize::MAX {
            Some((uint_str_val(p.0), uint_str_val(p.1)))
        } else {
            None
        },
    }
}

/// Finds the first range separator at or after `start`.
fn find_sep_from(s: &str, start: usize) -> (r: Option<usize>)
    requires
        start <= s@.len(),
    ensures
        match r {
            Some(i) => start <= i && i + 2 <= s@.len() && first_sep_from(s@, start as int)
                == Some(i as int),
            None => first_sep_from(s@, start as int) is None,
        },
{
    let n = s.unicode_len();
    if n < 2 || start > n - 2 {
        return None;
    }
    let mut i = start;
    while i <= n - 2
        invariant
            n == s@.len(),
            2 <= n,
            start <= i <= n,
            first_sep_from(s@, start as int) == first_sep_from(s@, i as int),
        ensures
            i > n - 2,
            first_sep_from(s@, start as int) == first_sep_from(s@, i as int),
        decreases n - i,
    {
        if s.get_char(i) == '.' && s.get_char(i + 1) == '.' {
            assert(sep_at(s@, i as int));
            return Some(i);
        }
        assert(!sep_at(s@, i as int));
        i = i + 1;
    }
    None
}

/// Splits a range string on its single separator, if it has exactly one.
fn split_range_once(s: &str) -> (r: Option<(String, String)>)
    ensures
        match r {
            Some(p) => split_once_spec(s@) == Some((p.0@, p.1@)),
            None => split_once_spec(s@) is None,
        },
{
    let n = s.unicode_len();
    match find_sep_from(s, 0) {
        None => None,
        Some(i) => {
            let rest = s.substring_char(i + 2, n);
            proof {
                assert(rest@ =~= s@.skip(i + 2));
            }
            match find_sep_from(rest, 0) {
                Some(_) => None,
                None => {
                    let left = s.substring_char(0, i).to_owned();
                    let right = rest.to_owned();
                    proof {
                        assert(left@ =~= s@.take(i as int));
                    }
                    Some((left, right))
                },
            }
        },
    }
}

/// Parses a `"a..b"` string into a pair of signed integers. Succeeds exactly
/// when the string holds one separator with an in-range signed decimal
/// integer on each side.
pub fn string_to_range(s: &str) -> (r: Result<(i128, i128), FuzzError>)
    ensures
        r is Ok <==> i128_range_of(s@) is Some,
        r matches Ok(p) ==> i128_range_of(s@) == Some((p.0 as int, p.1 as int)),
        r matches Err(e) ==> (if split_once_spec(s@) is None {
            e matches FuzzError::NotARange(t) && t@ == s@
        } else {
            e matches FuzzError::NotAnInteger(t) && t@ == s@
        }),
{
    match split_range_once(s) {
        None => Err(FuzzError::NotARange(s.to_owned())),
        Some((left, right)) => {
            match (parse_i128(left.as_str()), parse_i128(right.as_str())) {
                (Some(a), Some(b)) => Ok((a, b)),
                _ => Err(FuzzError::NotAnInteger(s.to_owned())),
            }
        },
    }
}

/// Parses a `"lo..hi"` string into a pair of unsigned integers. Succeeds
/// exactly when the string holds one separator with an in-range unsigned
/// decimal integer on each side.
pub fn string_to_usize_range(s: &str) -> (r: Result<(usize, usize), FuzzError>)
    ensures
        r is Ok <==> usize_range_of(s@) is Some,
        r matches Ok(p) ==> usize_range_of(s@) == Some((p.0 as int, p.1 as int)),
        r matches Err(e) ==> (if split_once_spec(s@) is None {
            e matches FuzzError::NotARange(t) && t@ == s@
        } else {
            e matches FuzzError::NotAnInteger(t) && t@ == s@
        }),
{
    match split_range_once(s) {
        None => Err(FuzzError::NotARange(s.to_owned())),
        Some((left, right)) => {
            match (parse_usize(left.as_str()), parse_usize(right.as_str())) {
                (Some(a), Some(b)) => Ok((a, b)),
                _ => Err(FuzzError::NotAnInteger(s.to_owned())),
            }
        },
    }
}

/// Resolves raw options into a run configuration: ranges are parsed and a
/// zero increment becomes the default of one. Fails exactly when a range
/// option that is present does not parse.
pub fn args_to_fuzzer_config(args: &Args) -> (r: Result<FuzzerConfig, FuzzError>)
    ensures
        r is Ok <==> ((args.string_range is Some ==> usize_range_of(args.string_range->0@)
            is Some) && (args.number_range is Some ==> i128_range_of(args.number_range->0@)
            is Some)),
        r matches Ok(c) ==> {
            &&& c.executable == args.executable
            &&& c.wordlist == args.wordlist
            &&& (args.string_range is None <==> c.string_range is None)
            &&& (args.string_range is Some ==> (c.string_range matches Some(q) && Some(
                (q.0 as int, q.1 as int),
            ) == usize_range_of(args.string_range->0@)))
            &&& (args.number_range is None <==> c.number_range is None)
            &&& (args.number_range is Some ==> (c.number_range matches Some(q) && Some(
                (q.0 as int, q.1 as int),
            ) == i128_range_of(args.number_range->0@)))
            &&& c.increment as int == (if args.increment > 0 {
                args.increment as int
            } else {
                1
            })
            &&& c.arguments == args.arguments
        },
        r matches Err(e) ==> (e is NotARange || e is NotAnInteger),
{
    let executable = match &args.executable {
        Some(v) => Some(v.clone()),
        None => None,
    };
    let wordlist = match &args.wordlist {
        Some(v) => Some(v.clone()),
        None => None,
    };
    let string_range = match &args.string_range {
        Some(v) => {
            match string_to_usize_range(v.as_str()) {
                Ok(p) => Some(p),
                Err(e) => {
                    return Err(e);
                },
            }
        },
        None => None,
    };
    let number_range = match &args.number_range {
        Some(v) => {
            match string_to_range(v.as_str()) {
                Ok(p) => Some(p),
                Err(e) => {
                    return Err(e);
                },
            }
        },
        None => None,
    };
    let increment = if args.increment > 0 {
        args.increment
    } else {
        1
    };
    let arguments = match &args.arguments {
        Some(v) => Some(v.clone()),
        None => None,
    };
    Ok(
        FuzzerConfig {
            executable,
            wordlist,
            number_range,
            string_range,
            increment,
            arguments,
        },
    )
}

/// With no separator at or after `i`, the search finds none.
proof fn lemma_first_sep_none(s: Seq<char>, i: int)
    requires
        0 <= i,
        forall|j: int| i <= j ==> !sep_at(s, j),
    ensures
        first_sep_from(s, i) is None,
    decreases s.len() - i,
{
    if i + 2 <= s.len() {
        lemma_first_sep_none(s, i + 1);
    }
}

/// With no separator before `m` and one at `m`, the search from `i` finds
/// exactly `m`.
proof fn lemma_first_sep_found(s: Seq<char>, i: int, m: int)
    requires
        0 <= i <= m,
        sep_at(s, m),
        forall|j: int| i <= j < m ==> !sep_at(s, j),
    ensures
        first_sep_from(s, i) == Some(m),
    decreases m - i,
{
    if i < m {
        lemma_first_sep_found(s, i + 1, m);
    }
}

/// A character of a signed decimal string is a sign or a digit, never the
/// separator's dot.
proof fn lemma_int_str_no_dot(s: Seq<char>, j: int)
    requires
        is_int_str(s),
        0 <= j < s.len(),
    ensures
        s[j] != '.',
{
    if j == 0 && (s[0] == '-' || s[0] == '+') {
    } else if s.len() > 0 && (s[0] == '-' || s[0] == '+') {
        assert(is_digit(s.skip(1)[j - 1]));
    } else {
        assert(is_digit(s[j]));
    }
}

/// Built by construction: putting the separator between any two in-range
/// signed decimal strings yields a string that range parsing splits at that
/// very separator and maps to exactly the two denoted values.
pub proof fn lemma_range_string_parses(left: Seq<char>, right: Seq<char>)
    requires
        is_int_str(left),
        i128_in_range(int_str_val(left)),
        is_int_str(right),
        i128_in_range(int_str_val(right)),
    ensures
        i128_range_of(left + ".."@ + right) == Some((int_str_val(left), int_str_val(right))),
{
    reveal_strlit("..");
    let s = left + ".."@ + right;
    let m = left.len() as int;
    assert(s[m] == '.' && s[m + 1] == '.');
    assert(sep_at(s, m));
    assert forall|j: int| 0 <= j < m implies !sep_at(s, j) by {
        lemma_int_str_no_dot(left, j);
        assert(s[j] == left[j]);
    }
    lemma_first_sep_found(s, 0, m);
    let rest = s.skip(m + 2);
    assert(rest =~= right);
    assert forall|j: int| 0 <= j implies !sep_at(rest, j) by {
        if j < rest.len() {
            lemma_int_str_no_dot(right, j);
        }
    }
    lemma_first_sep_none(rest, 0);
    assert(s.take(m) =~= left);
    assert(split_once_spec(s) == Some((left, right)));
}

} // verus!
