//! The fuzzing engine's decisions: which candidates a configuration
//! generates, which argument list each candidate yields, and how one
//! invocation's captured result is classified. The surrounding binary spawns
//! the processes and reads the wordlist file; it hands the raw results back
//! as plain values.

use vstd::prelude::*;

use crate::errors::FuzzError;
use crate::num::{dec_str_of, render_i128, stepped};
use crate::text::{
    contains_placeholder, contains_sub, join_spaces, join_with_spaces, placeholder, repeat_a,
    replace_all, replace_placeholder, strip_eol, strip_line_ending,
};
use vstd::utf8::{decode_utf8, valid_utf8};

verus! {

/// A fully resolved run configuration. At most one of `wordlist`,
/// `number_range` and `string_range` is expected to be present.
#[derive(Debug)]
pub struct FuzzerConfig {
    /// The executable to invoke for each candidate.
    pub executable: Option<String>,
    /// Path of a wordlist file, one candidate per line.
    pub wordlist: Option<String>,
    /// A signed numeric range, half-open.
    pub number_range: Option<(i128, i128)>,
    /// A string-length range, half-open.
    pub string_range: Option<(usize, usize)>,
    /// Step of the number and string modes.
    pub increment: usize,
    /// The argument template; absent means an empty template.
    pub arguments: Option<String>,
}

impl FuzzerConfig {
    /// An empty configuration: no executable, no value source, no template,
    /// and a zero increment that resolution later lifts to one.
    pub fn new() -> (c: FuzzerConfig)
        ensures
            c.executable is None,
            c.wordlist is None,
            c.number_range is None,
            c.string_range is None,
            c.increment == 0,
            c.arguments is None,
    {
        FuzzerConfig {
            executable: None,
            wordlist: None,
            number_range: None,
            string_range: None,
            increment: 0,
            arguments: None,
        }
    }
}

/// What `shellwords::split` returns on a given input: the words of the
/// string under Bourne-shell tokenization, or nothing when its quotes are
/// mismatched.
pub uninterp spec fn shell_split(s: Seq<char>) -> Option<Seq<Seq<char>>>;

/// Relies on `shellwords::split`: the result is a function of the input
/// characters alone, named `shell_split`; a mismatched-quotes error maps to
/// `None`.
#[verifier::external_body]
fn split_shell(s: &str) -> (r: Option<Vec<String>>)
    ensures
        match r {
            Some(v) => shell_split(s@) == Some(v.deep_view()),
            None => shell_split(s@) is None,
        },
{
    match shellwords::split(s) {
        Ok(words) => Some(words),
        Err(_) => None,
    }
}

/// The argument list a template and a candidate yield: with a placeholder
/// present, every occurrence is substituted and the result shell-tokenized
/// (mismatched quotes degrade to an empty list); without one, the candidate
/// itself is the single argument.
pub open spec fn arg_list_spec(template: Seq<char>, candidate: Seq<char>) -> Seq<Seq<char>> {
    if contains_sub(template, placeholder()) {
        match shell_split(replace_all(template, placeholder(), candidate)) {
            Some(words) => words,
            None => Seq::<Seq<char>>::empty(),
        }
    } else {
        seq![candidate]
    }
}

/// Builds the concrete argument list for one candidate.
pub fn build_arg_list(args: &str, fuzz_value: &str) -> (r: Vec<String>)
    ensures
        r.deep_view() == arg_list_spec(args@, fuzz_value@),
{
    if contains_placeholder(args) {
        let substituted = replace_placeholder(args, fuzz_value);
        match split_shell(substituted.as_str()) {
            Some(words) => words,
            None => {
                let empty: Vec<String> = Vec::new();
                proof {
                    assert(empty.deep_view() =~= Seq::<Seq<char>>::empty());
                }
                empty
            },
        }
    } else {
        let mut single: Vec<String> = Vec::new();
        single.push(fuzz_value.to_owned());
        proof {
            assert(single.deep_view() =~= seq![fuzz_value@]);
        }
        single
    }
}

/// The candidate strings of the number-range mode: the stepped sequence
/// rendered in decimal, ascending when `a <= b`; when `a > b`, the ascending
/// stepped sequence over `[b, a)` emitted in reverse.
pub open spec fn number_candidates_spec(a: int, b: int, k: int) -> Seq<Seq<char>> {
    if a <= b {
        stepped(a, b, k).map_values(|n: int| dec_str_of(n))
    } else {
        stepped(b, a, k).map_values(|n: int| dec_str_of(n)).reverse()
    }
}

/// The candidate strings of the string-range mode: for each stepped `n` in
/// `[lo, hi)`, the capital-letter string of length `lo + n`.
pub open spec fn string_candidates_spec(lo: int, hi: int, k: int) -> Seq<Seq<char>> {
    stepped(lo, hi, k).map_values(|n: int| Seq::new((lo + n) as nat, |i: int| 'A'))
}

/// Renders the ascending stepped sequence over `[a, b)` in decimal.
fn ascending_candidates(a: i128, b: i128, k: usize) -> (r: Vec<String>)
    requires
        k >= 1,
    ensures
        r.deep_view() == stepped(a as int, b as int, k as int).map_values(|n: int| dec_str_of(n)),
{
    let ghost full = stepped(a as int, b as int, k as int).map_values(|n: int| dec_str_of(n));
    let mut out: Vec<String> = Vec::new();
    if a >= b {
        proof {
            assert(out.deep_view() =~= full);
        }
        return out;
    }
    let mut n = a;
    loop
        invariant_except_break
            n < b,
            full =~= out.deep_view() + stepped(n as int, b as int, k as int).map_values(
                |m: int| dec_str_of(m),
            ),
        invariant
            k >= 1,
            full == stepped(a as int, b as int, k as int).map_values(|m: int| dec_str_of(m)),
        ensures
            full =~= out.deep_view(),
        decreases b - n,
    {
        let ghost prev = out.deep_view();
        let rendered = render_i128(n);
        out.push(rendered);
        proof {
            assert(out.deep_view() =~= prev.push(dec_str_of(n as int)));
            lemma_map_dec_unfold(n as int, b as int, k as int);
            assert(full =~= out.deep_view() + stepped(
                n as int + k as int,
                b as int,
                k as int,
            ).map_values(|m: int| dec_str_of(m)));
        }
        if n > i128::MAX - (k as i128) {
            proof {
                assert(stepped(n as int + k as int, b as int, k as int) =~= Seq::<int>::empty());
                assert(Seq::<int>::empty().map_values(|m: int| dec_str_of(m)) =~= Seq::<
                    Seq<char>,
                >::empty());
                assert(full =~= out.deep_view());
            }
            break ;
        }
        n = n + (k as i128);
        if n >= b {
            proof {
                assert(stepped(n as int, b as int, k as int) =~= Seq::<int>::empty());
                assert(Seq::<int>::empty().map_values(|m: int| dec_str_of(m)) =~= Seq::<
                    Seq<char>,
                >::empty());
                assert(full =~= out.deep_view());
            }
            break ;
        }
    }
    out
}

/// Unfolding one element of the rendered stepped sequence.
proof fn lemma_map_dec_unfold(a: int, b: int, k: int)
    requires
        k >= 1,
        a < b,
    ensures
        stepped(a, b, k).map_values(|m: int| dec_str_of(m)) =~= seq![dec_str_of(a)] + stepped(
            a + k,
            b,
            k,
        ).map_values(|m: int| dec_str_of(m)),
{
    crate::num::lemma_stepped_unfold(a, b, k);
}

/// Reverses a vector of strings.
fn reverse_strings(v: Vec<String>) -> (r: Vec<String>)
    ensures
        r.deep_view() == v.deep_view().reverse(),
{
    let n = v.len();
    let mut out: Vec<String> = Vec::new();
    let mut i: usize = 0;
    while i < n
        invariant
            n == v.len(),
            i <= n,
            out.len() == i,
            forall|j: int| 0 <= j < i ==> out.deep_view()[j] == v.deep_view()[n - 1 - j],
        decreases n - i,
    {
        let ghost prevv = out@;
        let ghost prevd = out.deep_view();
        let s = v[n - 1 - i].clone();
        out.push(s);
        proof {
            assert(out@ == prevv.push(s));
            assert(out@.len() == i + 1);
            assert(s@ == v.deep_view()[n - 1 - i]);
            assert forall|j: int| 0 <= j < i + 1 implies out.deep_view()[j] == v.deep_view()[n - 1
                - j] by {
                if j < i {
                    assert(out@[j] == prevv[j]);
                    assert(prevd[j] == prevv[j].deep_view());
                    assert(prevd[j] == v.deep_view()[n - 1 - j]);
                } else {
                    assert(out@[j] == s);
                }
            }
        }
        i = i + 1;
    }
    proof {
        assert(out.deep_view() =~= v.deep_view().reverse());
    }
    out
}

/// Generates the number-range candidates.
pub fn number_range_candidates(range: (i128, i128), increment: usize) -> (r: Vec<String>)
    requires
        increment >= 1,
    ensures
        r.deep_view() == number_candidates_spec(range.0 as int, range.1 as int, increment as int),
{
    if range.0 <= range.1 {
        ascending_candidates(range.0, range.1, increment)
    } else {
        let ascending = ascending_candidates(range.1, range.0, increment);
        reverse_strings(ascending)
    }
}

/// Generates the string-range candidates.
pub fn string_range_candidates(range: (usize, usize), increment: usize) -> (r: Vec<String>)
    requires
        increment >= 1,
        range.0 < range.1 ==> range.0 as int + range.1 as int - 1 <= usize::MAX as int,
    ensures
        r.deep_view() == string_candidates_spec(range.0 as int, range.1 as int, increment as int),
{
    let (lo, hi) = range;
    let ghost full = string_candidates_spec(lo as int, hi as int, increment as int);
    let mut out: Vec<String> = Vec::new();
    if lo >= hi {
        proof {
            assert(full =~= Seq::<Seq<char>>::empty());
            assert(out.deep_view() =~= full);
        }
        return out;
    }
    let mut n = lo;
    loop
        invariant_except_break
            lo <= n < hi,
            full =~= out.deep_view() + stepped(n as int, hi as int, increment as int).map_values(
                (|m: int| Seq::new((lo as int + m) as nat, |i: int| 'A')),
            ),
        invariant
            increment >= 1,
            lo < hi,
            lo as int + hi as int - 1 <= usize::MAX as int,
            full == string_candidates_spec(lo as int, hi as int, increment as int),
        ensures
            full =~= out.deep_view(),
        decreases hi - n,
    {
        let ghost prev = out.deep_view();
        let len = lo + n;
        let word = repeat_a(len);
        out.push(word);
        proof {
            assert(out.deep_view() =~= prev.push(Seq::new((lo as int + n as int) as nat, |i: int| 'A')));
            lemma_map_alen_unfold(lo as int, n as int, hi as int, increment as int);
            assert(full =~= out.deep_view() + stepped(
                n as int + increment as int,
                hi as int,
                increment as int,
            ).map_values((|m: int| Seq::new((lo as int + m) as nat, |i: int| 'A'))));
        }
        if hi - n <= increment {
            proof {
                assert(stepped(n as int + increment as int, hi as int, increment as int)
                    =~= Seq::<int>::empty());
                assert(Seq::<int>::empty().map_values(
                    (|m: int| Seq::new((lo as int + m) as nat, |i: int| 'A')),
                ) =~= Seq::<Seq<char>>::empty());
                assert(full =~= out.deep_view());
            }
            break ;
        }
        n = n + increment;
    }
    out
}

/// The candidates a wordlist's lines yield: one per line, in order, each
/// with its trailing line ending stripped. The binary streams the file and
/// strips line by line; this states the same mapping over lines already
/// read.
pub fn wordlist_candidates(lines: &Vec<String>) -> (r: Vec<String>)
    ensures
        r.deep_view() == lines.deep_view().map_values((|l: Seq<char>| strip_eol(l))),
{
    let ghost goal = lines.deep_view().map_values(|l: Seq<char>| strip_eol(l));
    let mut out: Vec<String> = Vec::new();
    let mut i: usize = 0;
    while i < lines.len()
        invariant
            i <= lines.len(),
            goal == lines.deep_view().map_values((|l: Seq<char>| strip_eol(l))),
            lines.deep_view().len() == lines.len(),
            out.len() == i,
            forall|j: int| 0 <= j < i ==> out.deep_view()[j] == goal[j],
        decreases lines.len() - i,
    {
        let ghost prevv = out@;
        let ghost prevd = out.deep_view();
        let candidate = strip_line_ending(lines[i].as_str());
        out.push(candidate);
        proof {
            assert(out@ == prevv.push(candidate));
            assert(lines.deep_view()[i as int] == lines@[i as int]@);
            assert forall|j: int| 0 <= j < i + 1 implies out.deep_view()[j] == goal[j] by {
                if j < i {
                    assert(out@[j] == prevv[j]);
                    assert(prevd[j] == prevv[j].deep_view());
                    assert(prevd[j] == goal[j]);
                } else {
                    assert(out@[j] == candidate);
                }
            }
        }
        i = i + 1;
    }
    proof {
        assert(out.deep_view() =~= goal);
    }
    out
}

/// What one run will do, decided entirely by the configuration. The
/// surrounding binary carries it out: it streams the wordlist file and
/// spawns one process per argument list.
#[derive(Debug)]
pub enum FuzzPlan {
    /// Stream the file at `path` and invoke the executable once per line,
    /// substituting the line into the template.
    Wordlist { executable: String, path: String, template: String },
    /// Invoke the executable once per prepared argument list, in order.
    Batch { executable: String, arg_lists: Vec<Vec<String>> },
}

/// The template a configuration carries; absent means empty.
pub open spec fn template_view(c: &FuzzerConfig) -> Seq<char> {
    if c.arguments is Some {
        c.arguments->0@
    } else {
        Seq::<char>::empty()
    }
}

/// The plan a configuration determines. The sources are tried in a fixed
/// order — wordlist, then number range, then string range — though a valid
/// configuration holds at most one; with none present the plan is empty.
pub open spec fn plan_matches(p: FuzzPlan, c: FuzzerConfig) -> bool {
    if c.wordlist is Some {
        p matches FuzzPlan::Wordlist { executable, path, template } && executable@
            == c.executable->0@ && path@ == c.wordlist->0@ && template@ == template_view(&c)
    } else if c.number_range is Some {
        let range = c.number_range->0;
        p matches FuzzPlan::Batch { executable, arg_lists } && executable@ == c.executable->0@
            && arg_lists.deep_view() == number_candidates_spec(
            range.0 as int,
            range.1 as int,
            c.increment as int,
        ).map_values(|cand: Seq<char>| arg_list_spec(template_view(&c), cand))
    } else if c.string_range is Some {
        let range = c.string_range->0;
        p matches FuzzPlan::Batch { executable, arg_lists } && executable@ == c.executable->0@
            && arg_lists.deep_view() == string_candidates_spec(
            range.0 as int,
            range.1 as int,
            c.increment as int,
        ).map_values(|cand: Seq<char>| arg_list_spec(template_view(&c), cand))
    } else {
        p matches FuzzPlan::Batch { executable, arg_lists } && executable@ == c.executable->0@
            && arg_lists.deep_view() == Seq::<Seq<Seq<char>>>::empty()
    }
}

/// Builds one argument list per candidate, in order.
fn build_arg_lists(template: &str, candidates: &Vec<String>) -> (r: Vec<Vec<String>>)
    ensures
        r.deep_view() == candidates.deep_view().map_values(
            (|cand: Seq<char>| arg_list_spec(template@, cand)),
        ),
{
    let ghost goal = candidates.deep_view().map_values(
        |cand: Seq<char>| arg_list_spec(template@, cand),
    );
    let mut out: Vec<Vec<String>> = Vec::new();
    let mut i: usize = 0;
    while i < candidates.len()
        invariant
            i <= candidates.len(),
            goal == candidates.deep_view().map_values(
                (|cand: Seq<char>| arg_list_spec(template@, cand)),
            ),
            candidates.deep_view().len() == candidates.len(),
            out.len() == i,
            forall|j: int| 0 <= j < i ==> out.deep_view()[j] == goal[j],
        decreases candidates.len() - i,
    {
        let ghost prevv = out@;
        let ghost prevd = out.deep_view();
        let arg_list = build_arg_list(template, candidates[i].as_str());
        out.push(arg_list);
        proof {
            assert(out@ == prevv.push(arg_list));
            assert(candidates.deep_view()[i as int] == candidates@[i as int]@);
            assert forall|j: int| 0 <= j < i + 1 implies out.deep_view()[j] == goal[j] by {
                if j < i {
                    assert(out@[j] == prevv[j]);
                    assert(prevd[j] == prevv[j].deep_view());
                    assert(prevd[j] == goal[j]);
                } else {
                    assert(out@[j] == arg_list);
                }
            }
        }
        i = i + 1;
    }
    proof {
        assert(out.deep_view() =~= goal);
    }
    out
}

/// The string range's largest candidate length stays representable.
pub open spec fn string_range_fits(c: &FuzzerConfig) -> bool {
    match c.string_range {
        Some(sr) => sr.0 < sr.1 ==> sr.0 as int + sr.1 as int - 1 <= usize::MAX as int,
        None => true,
    }
}

/// Decides the whole run from the configuration: the executable must be
/// present; the one value source present determines the candidates and,
/// through the template, every argument list. The result is a function of
/// the configuration alone — the same configuration always yields the same
/// plan.
pub fn fuzz(config: &FuzzerConfig) -> (r: Result<FuzzPlan, FuzzError>)
    requires
        config.number_range is Some ==> config.increment >= 1,
        config.string_range is Some ==> config.increment >= 1,
        string_range_fits(config),
    ensures
        r is Ok <==> config.executable is Some,
        r matches Ok(p) ==> plan_matches(p, *config),
        r matches Err(e) ==> e is MissingExec,
{
    let executable = match &config.executable {
        Some(e) => e.clone(),
        None => {
            return Err(FuzzError::MissingExec);
        },
    };
    let template = match &config.arguments {
        Some(t) => t.clone(),
        None => String::new(),
    };
    if let Some(path) = &config.wordlist {
        return Ok(
            FuzzPlan::Wordlist { executable, path: path.clone(), template },
        );
    }
    if let Some(range) = config.number_range {
        let candidates = number_range_candidates(range, config.increment);
        let arg_lists = build_arg_lists(template.as_str(), &candidates);
        return Ok(FuzzPlan::Batch { executable, arg_lists });
    }
    if let Some(range) = config.string_range {
        let candidates = string_range_candidates(range, config.increment);
        let arg_lists = build_arg_lists(template.as_str(), &candidates);
        return Ok(FuzzPlan::Batch { executable, arg_lists });
    }
    let arg_lists: Vec<Vec<String>> = Vec::new();
    proof {
        assert(arg_lists.deep_view() =~= Seq::<Seq<Seq<char>>>::empty());
    }
    Ok(FuzzPlan::Batch { executable, arg_lists })
}

/// What the operating system reported for one attempted invocation, as the
/// surrounding binary hands it over.
#[derive(Debug)]
pub enum SpawnResult {
    /// The process ran to completion with the given captured streams.
    Exited { success: bool, stdout: Vec<u8>, stderr: Vec<u8> },
    /// The process could not be started; the field describes why.
    NotStarted { message: String },
}

/// The classified outcome of one invocation, carrying the payload the
/// report line shows.
#[derive(Debug)]
pub enum InvocationOutcome {
    /// The process exited successfully; the payload is its decoded standard
    /// output.
    Success(String),
    /// The process exited unsuccessfully; the payload is its decoded
    /// standard error.
    Failure(String),
    /// The process could not be started; the payload describes the failure.
    SpawnError(String),
}

/// Relies on `String::from_utf8`: it succeeds exactly on valid UTF-8 and
/// then returns the decoded characters, as vstd's UTF-8 model states them.
#[verifier::external_body]
fn bytes_to_string(bytes: Vec<u8>) -> (r: Option<String>)
    ensures
        match r {
            Some(s) => valid_utf8(bytes@) && s@ == decode_utf8(bytes@),
            None => !valid_utf8(bytes@),
        },
{
    String::from_utf8(bytes).ok()
}

/// Classifies one spawn attempt: a successful exit yields the decoded
/// standard output, an unsuccessful one the decoded standard error, and a
/// process that never started its failure description. Output that is not
/// valid UTF-8 aborts the whole run.
pub fn classify_invocation(result: SpawnResult) -> (r: Result<InvocationOutcome, FuzzError>)
    ensures
        match result {
            SpawnResult::Exited { success, stdout, stderr } => {
                if success {
                    if valid_utf8(stdout@) {
                        r matches Ok(o) && o matches InvocationOutcome::Success(s) && s@
                            == decode_utf8(stdout@)
                    } else {
                        r matches Err(e) && e is InvalidUtf8
                    }
                } else {
                    if valid_utf8(stderr@) {
                        r matches Ok(o) && o matches InvocationOutcome::Failure(s) && s@
                            == decode_utf8(stderr@)
                    } else {
                        r matches Err(e) && e is InvalidUtf8
                    }
                }
            },
            SpawnResult::NotStarted { message } => r matches Ok(o) && o
                matches InvocationOutcome::SpawnError(m) && m@ == message@,
        },
{
    match result {
        SpawnResult::Exited { success, stdout, stderr } => {
            if success {
                match bytes_to_string(stdout) {
                    Some(s) => Ok(InvocationOutcome::Success(s)),
                    None => Err(FuzzError::InvalidUtf8),
                }
            } else {
                match bytes_to_string(stderr) {
                    Some(s) => Ok(InvocationOutcome::Failure(s)),
                    None => Err(FuzzError::InvalidUtf8),
                }
            }
        },
        SpawnResult::NotStarted { message } => Ok(InvocationOutcome::SpawnError(message)),
    }
}

/// The progress line announced before each invocation: the executable and
/// the space-joined argument list, quoted.
pub open spec fn progress_line_spec(executable: Seq<char>, args: Seq<Seq<char>>) -> Seq<char> {
    "[+] Executing: \""@ + executable + " "@ + join_spaces(args) + "\""@
}

/// Renders the progress line for one invocation.
pub fn progress_message(executable: &str, arg_list: &Vec<String>) -> (r: String)
    ensures
        r@ == progress_line_spec(executable@, arg_list.deep_view()),
{
    let mut m = "[+] Executing: \"".to_owned();
    m.append(executable);
    m.append(" ");
    let joined = join_with_spaces(arg_list);
    m.append(joined.as_str());
    m.append("\"");
    m
}

/// What a plan shows of a run: its kind, the executable, the wordlist path
/// and template of a streamed run, and the argument lists of a prepared one.
pub open spec fn plan_obs(p: FuzzPlan) -> (bool, Seq<char>, Seq<char>, Seq<char>, Seq<
    Seq<Seq<char>>,
>) {
    match p {
        FuzzPlan::Wordlist { executable, path, template } => (
            true,
            executable@,
            path@,
            template@,
            Seq::<Seq<Seq<char>>>::empty(),
        ),
        FuzzPlan::Batch { executable, arg_lists } => (
            false,
            executable@,
            Seq::<char>::empty(),
            Seq::<char>::empty(),
            arg_lists.deep_view(),
        ),
    }
}

/// Candidate generation has no hidden state: any two plans drawn from one
/// configuration show the same run, so running the same configuration twice
/// performs the identical sequence of invocations.
pub proof fn lemma_fuzz_deterministic(c: FuzzerConfig, p1: FuzzPlan, p2: FuzzPlan)
    requires
        plan_matches(p1, c),
        plan_matches(p2, c),
    ensures
        plan_obs(p1) == plan_obs(p2),
{
}

/// Ascending number range: the candidates are `a, a + k, a + 2k, ...` in
/// decimal while below `b`, and there are `ceil((b - a) / k)` of them (none
/// when `a == b`).
pub proof fn lemma_number_ascending(a: int, b: int, k: int)
    requires
        k >= 1,
        a <= b,
    ensures
        a == b ==> number_candidates_spec(a, b, k).len() == 0,
        a < b ==> number_candidates_spec(a, b, k).len() == (b - a + k - 1) / k,
        forall|i: int| 0 <= i < number_candidates_spec(a, b, k).len()
            ==> #[trigger] number_candidates_spec(a, b, k)[i] == dec_str_of(a + i * k),
{
}

/// Descending number range: the candidates are exactly the reverse of the
/// ascending stepped sequence over `[b, a)` — not a stepped descent of its
/// own.
pub proof fn lemma_number_descending(a: int, b: int, k: int)
    requires
        k >= 1,
        a > b,
    ensures
        number_candidates_spec(a, b, k) == number_candidates_spec(b, a, k).reverse(),
{
}

/// String range: the candidate at position `i` is all capital letters, of
/// length `lo` plus the stepped value `lo + i * k`.
pub proof fn lemma_string_candidates_shape(lo: int, hi: int, k: int, i: int)
    requires
        k >= 1,
        lo >= 0,
        0 <= i < string_candidates_spec(lo, hi, k).len(),
    ensures
        string_candidates_spec(lo, hi, k)[i].len() == lo + (lo + i * k),
        forall|j: int| 0 <= j < string_candidates_spec(lo, hi, k)[i].len()
            ==> #[trigger] string_candidates_spec(lo, hi, k)[i][j] == 'A',
{
    crate::num::lemma_stepped_in_range(lo, hi, k, i);
    assert(stepped(lo, hi, k)[i] == lo + i * k);
    assert(string_candidates_spec(lo, hi, k)[i] == Seq::new((lo + (lo + i * k)) as nat, |j: int| 'A'));
}

/// Unfolding one element of the letter-string stepped sequence.
proof fn lemma_map_alen_unfold(lo: int, n: int, hi: int, k: int)
    requires
        k >= 1,
        n < hi,
    ensures
        stepped(n, hi, k).map_values((|m: int| Seq::new((lo + m) as nat, |i: int| 'A')))
            =~= seq![Seq::new((lo + n) as nat, |i: int| 'A')] + stepped(n + k, hi, k).map_values(
            (|m: int| Seq::new((lo + m) as nat, |i: int| 'A')),
        ),
{
    crate::num::lemma_stepped_unfold(n, hi, k);
}

} // verus!
