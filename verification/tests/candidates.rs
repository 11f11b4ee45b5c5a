//! Candidate generation: number ranges, string ranges, line stripping.

use clif::fuzzer::{number_range_candidates, string_range_candidates, wordlist_candidates};
use clif::text::strip_line_ending;

#[test]
fn ascending_number_range_steps_up_to_the_bound() {
    assert_eq!(number_range_candidates((1, 10), 3), vec!["1", "4", "7"]);
    assert_eq!(number_range_candidates((0, 5), 1), vec!["0", "1", "2", "3", "4"]);
    assert_eq!(number_range_candidates((-2, 3), 2), vec!["-2", "0", "2"]);
}

#[test]
fn empty_number_range_yields_nothing() {
    assert_eq!(number_range_candidates((5, 5), 1), Vec::<String>::new());
}

#[test]
fn ascending_length_is_the_ceiling_of_the_span_over_the_step() {
    // ceil((10 - 1) / 4) == 3
    assert_eq!(number_range_candidates((1, 10), 4).len(), 3);
    // ceil((9 - 1) / 4) == 2
    assert_eq!(number_range_candidates((1, 9), 4).len(), 2);
}

#[test]
fn descending_number_range_is_the_reverse_of_the_ascending_one() {
    // ascending over [1, 10) by 3 is 1, 4, 7 — reversed, not 10, 7, 4
    assert_eq!(number_range_candidates((10, 1), 3), vec!["7", "4", "1"]);
    assert_eq!(number_range_candidates((3, -2), 2), vec!["2", "0", "-2"]);
    assert_eq!(number_range_candidates((1, 0), 1), vec!["0"]);
}

#[test]
fn number_candidates_render_in_canonical_decimal() {
    assert_eq!(number_range_candidates((-1, 0), 1), vec!["-1"]);
    assert_eq!(
        number_range_candidates((1000000000000000000000, 1000000000000000000001), 1),
        vec!["1000000000000000000000"]
    );
}

#[test]
fn string_range_lengths_add_the_lower_bound_again() {
    // n runs over 1, 2, 3; each string has length lo + n
    assert_eq!(string_range_candidates((1, 4), 1), vec!["AA", "AAA", "AAAA"]);
    // n runs over 2, 5; lengths 4 and 7
    assert_eq!(string_range_candidates((2, 7), 3), vec!["AAAA", "AAAAAAA"]);
    assert_eq!(string_range_candidates((0, 2), 1), vec!["", "A"]);
}

#[test]
fn empty_string_range_yields_nothing() {
    assert_eq!(string_range_candidates((3, 3), 1), Vec::<String>::new());
}

#[test]
fn string_candidates_hold_only_the_capital_letter() {
    for word in string_range_candidates((0, 6), 2) {
        assert!(word.chars().all(|c| c == 'A'));
    }
}

#[test]
fn wordlist_lines_become_candidates_in_order() {
    let lines = vec![
        String::from("alpha\n"),
        String::from("beta\r\n"),
        String::from("gamma"),
    ];
    assert_eq!(wordlist_candidates(&lines), vec!["alpha", "beta", "gamma"]);
    assert_eq!(wordlist_candidates(&Vec::new()), Vec::<String>::new());
}

#[test]
fn stripping_removes_one_line_ending() {
    assert_eq!(strip_line_ending("word\n"), "word");
    assert_eq!(strip_line_ending("word\r\n"), "word");
    assert_eq!(strip_line_ending("word"), "word");
    assert_eq!(strip_line_ending("word\n\n"), "word\n");
    assert_eq!(strip_line_ending("\n"), "");
    assert_eq!(strip_line_ending(""), "");
    // an inner carriage return alone is kept
    assert_eq!(strip_line_ending("a\rb"), "a\rb");
    // a trailing carriage return without a newline is kept too
    assert_eq!(strip_line_ending("word\r"), "word\r");
}
