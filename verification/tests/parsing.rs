//! Range-string parsing and option resolution.

use clif::args::Args;
use clif::errors::FuzzError;
use clif::{args_to_fuzzer_config, string_to_range, string_to_usize_range};

#[test]
fn signed_range_parses_exactly() {
    assert_eq!(string_to_range("1..5").unwrap(), (1, 5));
    assert_eq!(string_to_range("-3..7").unwrap(), (-3, 7));
    assert_eq!(string_to_range("+4..2").unwrap(), (4, 2));
    assert_eq!(string_to_range("0..0").unwrap(), (0, 0));
    assert_eq!(string_to_range("10..-10").unwrap(), (10, -10));
}

#[test]
fn signed_range_extremes_parse() {
    let max = "170141183460469231731687303715884105727";
    let min = "-170141183460469231731687303715884105728";
    let s = format!("{}..{}", min, max);
    assert_eq!(string_to_range(&s).unwrap(), (i128::MIN, i128::MAX));
}

#[test]
fn signed_range_rejects_missing_separator() {
    assert!(matches!(string_to_range("12"), Err(FuzzError::NotARange(_))));
    assert!(matches!(string_to_range(""), Err(FuzzError::NotARange(_))));
    assert!(matches!(string_to_range("1.5"), Err(FuzzError::NotARange(_))));
}

#[test]
fn signed_range_rejects_extra_separator() {
    assert!(matches!(
        string_to_range("1..2..3"),
        Err(FuzzError::NotARange(_))
    ));
    assert!(matches!(
        string_to_range("...."),
        Err(FuzzError::NotARange(_))
    ));
}

#[test]
fn signed_range_rejects_bad_integers() {
    assert!(matches!(
        string_to_range("a..b"),
        Err(FuzzError::NotAnInteger(_))
    ));
    // the first separator wins, leaving ".5" as the right-hand part
    assert!(matches!(
        string_to_range("1...5"),
        Err(FuzzError::NotAnInteger(_))
    ));
    assert!(matches!(
        string_to_range("..3"),
        Err(FuzzError::NotAnInteger(_))
    ));
    // one past i128::MAX overflows
    assert!(matches!(
        string_to_range("0..170141183460469231731687303715884105728"),
        Err(FuzzError::NotAnInteger(_))
    ));
}

#[test]
fn unsigned_range_parses_exactly() {
    assert_eq!(string_to_usize_range("2..9").unwrap(), (2, 9));
    assert_eq!(string_to_usize_range("+1..+4").unwrap(), (1, 4));
    assert_eq!(string_to_usize_range("007..8").unwrap(), (7, 8));
}

#[test]
fn unsigned_range_rejects_signs_and_overflow() {
    assert!(matches!(
        string_to_usize_range("-1..5"),
        Err(FuzzError::NotAnInteger(_))
    ));
    assert!(matches!(
        string_to_usize_range("1..18446744073709551616"),
        Err(FuzzError::NotAnInteger(_))
    ));
    assert!(matches!(
        string_to_usize_range("3"),
        Err(FuzzError::NotARange(_))
    ));
}

#[test]
fn error_messages_name_the_input() {
    let e = string_to_range("oops").unwrap_err();
    assert_eq!(
        e.message(),
        "Unable to parse the following value: \"oops\": not a range."
    );
    let e = string_to_range("a..b").unwrap_err();
    assert_eq!(
        e.message(),
        "Unable to parse the following value: \"a..b\": not an integer."
    );
    assert_eq!(
        FuzzError::MissingExec.message(),
        "Unable to parse \"exec\" argument."
    );
    assert_eq!(
        FuzzError::WordlistNotFound(String::from("w.txt")).message(),
        "File \"w.txt\" not found."
    );
}

fn empty_args() -> Args {
    Args {
        executable: None,
        wordlist: None,
        string_range: None,
        number_range: None,
        increment: 0,
        arguments: None,
    }
}

#[test]
fn config_resolution_parses_ranges_and_defaults_increment() {
    let mut args = empty_args();
    args.executable = Some(String::from("/bin/true"));
    args.number_range = Some(String::from("-2..2"));
    let config = args_to_fuzzer_config(&args).unwrap();
    assert_eq!(config.executable.as_deref(), Some("/bin/true"));
    assert_eq!(config.number_range, Some((-2, 2)));
    assert_eq!(config.string_range, None);
    assert_eq!(config.increment, 1);
    assert_eq!(config.arguments, None);
}

#[test]
fn config_resolution_keeps_positive_increment() {
    let mut args = empty_args();
    args.string_range = Some(String::from("1..4"));
    args.increment = 3;
    args.arguments = Some(String::from("-x FUZZ"));
    let config = args_to_fuzzer_config(&args).unwrap();
    assert_eq!(config.string_range, Some((1, 4)));
    assert_eq!(config.increment, 3);
    assert_eq!(config.arguments.as_deref(), Some("-x FUZZ"));
}

#[test]
fn config_resolution_fails_on_bad_range() {
    let mut args = empty_args();
    args.number_range = Some(String::from("1..2..3"));
    assert!(matches!(
        args_to_fuzzer_config(&args),
        Err(FuzzError::NotARange(_))
    ));
    let mut args = empty_args();
    args.string_range = Some(String::from("x..1"));
    assert!(matches!(
        args_to_fuzzer_config(&args),
        Err(FuzzError::NotAnInteger(_))
    ));
}
