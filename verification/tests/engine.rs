//! The invocation engine's decisions: argument-list construction, plans,
//! outcome classification, progress lines.

use clif::errors::FuzzError;
use clif::fuzzer::{
    build_arg_list, classify_invocation, fuzz, progress_message, FuzzPlan, FuzzerConfig,
    InvocationOutcome, SpawnResult,
};

#[test]
fn template_substitution_replaces_and_splits() {
    assert_eq!(build_arg_list("--x=FUZZ --y=1", "abc"), vec!["--x=abc", "--y=1"]);
}

#[test]
fn empty_template_passes_the_candidate_alone() {
    assert_eq!(build_arg_list("", "abc"), vec!["abc"]);
}

#[test]
fn template_without_placeholder_passes_the_candidate_alone() {
    assert_eq!(build_arg_list("-v --trace", "abc"), vec!["abc"]);
}

#[test]
fn every_placeholder_occurrence_is_substituted() {
    assert_eq!(build_arg_list("FUZZ mid FUZZ", "x"), vec!["x", "mid", "x"]);
}

#[test]
fn quoted_words_stay_one_argument() {
    assert_eq!(build_arg_list("--m=\"a FUZZ b\" -v", "x"), vec!["--m=a x b", "-v"]);
}

#[test]
fn mismatched_quotes_degrade_to_an_empty_argument_list() {
    assert_eq!(build_arg_list("FUZZ 'unclosed", "x"), Vec::<String>::new());
}

#[test]
fn successful_exit_captures_stdout() {
    let r = classify_invocation(SpawnResult::Exited {
        success: true,
        stdout: b"all good\n".to_vec(),
        stderr: b"noise".to_vec(),
    });
    match r.unwrap() {
        InvocationOutcome::Success(s) => assert_eq!(s, "all good\n"),
        other => panic!("expected a success outcome, got {:?}", other),
    }
}

#[test]
fn failing_exit_captures_stderr() {
    let r = classify_invocation(SpawnResult::Exited {
        success: false,
        stdout: b"ignored".to_vec(),
        stderr: b"boom\n".to_vec(),
    });
    match r.unwrap() {
        InvocationOutcome::Failure(s) => assert_eq!(s, "boom\n"),
        other => panic!("expected a failure outcome, got {:?}", other),
    }
}

#[test]
fn unstarted_process_reports_a_spawn_error() {
    let r = classify_invocation(SpawnResult::NotStarted {
        message: String::from("No such file or directory"),
    });
    match r.unwrap() {
        InvocationOutcome::SpawnError(m) => assert_eq!(m, "No such file or directory"),
        other => panic!("expected a spawn error, got {:?}", other),
    }
}

#[test]
fn multibyte_output_decodes_exactly() {
    let r = classify_invocation(SpawnResult::Exited {
        success: true,
        stdout: "h\u{e9}llo".as_bytes().to_vec(),
        stderr: Vec::new(),
    });
    match r.unwrap() {
        InvocationOutcome::Success(s) => assert_eq!(s, "h\u{e9}llo"),
        other => panic!("expected a success outcome, got {:?}", other),
    }
}

#[test]
fn invalid_output_aborts_the_run() {
    let r = classify_invocation(SpawnResult::Exited {
        success: true,
        stdout: vec![0xff, 0xfe],
        stderr: Vec::new(),
    });
    assert_eq!(r.unwrap_err(), FuzzError::InvalidUtf8);
}

#[test]
fn progress_line_quotes_the_command() {
    let args = vec![String::from("-a"), String::from("b c")];
    assert_eq!(
        progress_message("/bin/echo", &args),
        "[+] Executing: \"/bin/echo -a b c\""
    );
    let none: Vec<String> = Vec::new();
    assert_eq!(progress_message("/bin/echo", &none), "[+] Executing: \"/bin/echo \"");
}

fn echo_string_range_config() -> FuzzerConfig {
    let mut config = FuzzerConfig::new();
    config.executable = Some(String::from("/bin/echo"));
    config.string_range = Some((1, 4));
    config.increment = 1;
    config.arguments = Some(String::from("FUZZ"));
    config
}

#[test]
fn string_range_run_plans_three_echo_invocations() {
    let plan = fuzz(&echo_string_range_config()).unwrap();
    match plan {
        FuzzPlan::Batch { executable, arg_lists } => {
            assert_eq!(executable, "/bin/echo");
            assert_eq!(
                arg_lists,
                vec![vec!["AA"], vec!["AAA"], vec!["AAAA"]]
            );
        },
        other => panic!("expected a prepared batch, got {:?}", other),
    }
}

#[test]
fn number_range_run_substitutes_each_candidate() {
    let mut config = FuzzerConfig::new();
    config.executable = Some(String::from("/bin/true"));
    config.number_range = Some((3, 1));
    config.increment = 1;
    config.arguments = Some(String::from("--n=FUZZ"));
    let plan = fuzz(&config).unwrap();
    match plan {
        FuzzPlan::Batch { arg_lists, .. } => {
            assert_eq!(arg_lists, vec![vec!["--n=2"], vec!["--n=1"]]);
        },
        other => panic!("expected a prepared batch, got {:?}", other),
    }
}

#[test]
fn wordlist_run_hands_the_path_through() {
    let mut config = FuzzerConfig::new();
    config.executable = Some(String::from("/bin/true"));
    config.wordlist = Some(String::from("words.txt"));
    config.increment = 1;
    let plan = fuzz(&config).unwrap();
    match plan {
        FuzzPlan::Wordlist { executable, path, template } => {
            assert_eq!(executable, "/bin/true");
            assert_eq!(path, "words.txt");
            assert_eq!(template, "");
        },
        other => panic!("expected a streamed wordlist plan, got {:?}", other),
    }
}

#[test]
fn missing_executable_is_fatal() {
    let mut config = FuzzerConfig::new();
    config.wordlist = Some(String::from("words.txt"));
    config.increment = 1;
    assert_eq!(fuzz(&config).unwrap_err(), FuzzError::MissingExec);
}

#[test]
fn no_value_source_plans_zero_invocations() {
    let mut config = FuzzerConfig::new();
    config.executable = Some(String::from("/bin/true"));
    config.increment = 1;
    match fuzz(&config).unwrap() {
        FuzzPlan::Batch { arg_lists, .. } => assert_eq!(arg_lists, Vec::<Vec<String>>::new()),
        other => panic!("expected an empty batch, got {:?}", other),
    }
}

#[test]
fn the_same_configuration_plans_the_same_run_twice() {
    let p1 = fuzz(&echo_string_range_config()).unwrap();
    let p2 = fuzz(&echo_string_range_config()).unwrap();
    match (p1, p2) {
        (
            FuzzPlan::Batch { executable: e1, arg_lists: a1 },
            FuzzPlan::Batch { executable: e2, arg_lists: a2 },
        ) => {
            assert_eq!(e1, e2);
            assert_eq!(a1, a2);
        },
        other => panic!("expected two prepared batches, got {:?}", other),
    }
}
