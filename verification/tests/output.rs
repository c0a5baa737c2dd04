use atcli_judge::{normalized_output, output_diff, output_tokens, outputs_match_exactly, DiffTag};

#[test]
fn ignores_line_endings_trailing_spaces_and_final_blank_lines() {
    assert_eq!(normalized_output("a  \r\nb\r\n\r\n"), "a\nb");
    assert!(outputs_match_exactly("a  \nb\n", "a\nb\n\n"));
}

#[test]
fn normalizing_twice_changes_nothing() {
    for value in ["a  \r\nb\r\n\r\n", "\r\r\n x \t\n\n", "", "\n\n", "a\rb", "  lead\n"] {
        let once = normalized_output(value);
        assert_eq!(normalized_output(&once), once);
    }
}

#[test]
fn lone_carriage_returns_end_lines() {
    assert_eq!(normalized_output("a\rb\r"), "a\nb");
    assert_eq!(normalized_output("a\r\r\nb"), "a\n\nb");
}

#[test]
fn inner_blank_lines_and_leading_spaces_stay() {
    assert_eq!(normalized_output("  a\n\n b  \n"), "  a\n\n b");
    assert_eq!(normalized_output(""), "");
    assert_eq!(normalized_output("   \n \n"), "");
}

#[test]
fn different_outputs_do_not_match() {
    assert!(!outputs_match_exactly("1\n2\n", "1 2\n"));
    assert!(!outputs_match_exactly(" a", "a"));
}

#[test]
fn tokens_of_normalized_output() {
    assert_eq!(output_tokens(" answer  1.0\t2\r\n\n"), vec!["answer", "1.0", "2"]);
    assert!(output_tokens(" \n ").is_empty());
}

#[test]
fn trailing_whitespace_never_matters() {
    for value in ["a b", "a\r", "x\n\ny", ""] {
        for tail in [" ", "\t\n", "\r\n\r\n  ", "\r", "\n\u{3000}\u{a0}"] {
            let extended = format!("{value}{tail}");
            assert_eq!(normalized_output(&extended), normalized_output(value));
            assert!(outputs_match_exactly(&extended, value));
        }
    }
}

#[test]
fn diff_of_normalized_outputs() {
    let diff = output_diff("1\n2  \r\n3\n", "1\n4\n3\n\n");
    assert_eq!(
        diff,
        vec![
            (DiffTag::Equal, "1\n".to_string()),
            (DiffTag::Delete, "2\n".to_string()),
            (DiffTag::Insert, "4\n".to_string()),
            (DiffTag::Equal, "3\n".to_string()),
        ]
    );
    assert!(output_diff("", "\n").is_empty());
}
