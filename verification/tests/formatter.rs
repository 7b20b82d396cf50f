use fcp_rust::fcpcore::formatter::{format_result, suggest};

#[test]
fn test_format_result_success_with_prefix() {
    let got = format_result(true, "svc AuthService", Some("+"));
    assert_eq!(got, "+ svc AuthService");
}

#[test]
fn test_format_result_success_without_prefix() {
    let got = format_result(true, "done", None);
    assert_eq!(got, "done");
}

#[test]
fn test_format_result_error() {
    let got = format_result(false, "something broke", None);
    assert_eq!(got, "ERROR: something broke");
}

#[test]
fn test_format_result_error_ignores_prefix() {
    let got = format_result(false, "bad input", Some("+"));
    assert_eq!(got, "ERROR: bad input");
}

#[test]
fn test_format_result_prefix_conventions() {
    let tests = vec![
        ("+", "AuthService", "+ AuthService"),
        ("~", "edge A->B", "~ edge A->B"),
        ("*", "styled A", "* styled A"),
        ("-", "A", "- A"),
        ("!", "group Backend", "! group Backend"),
        ("@", "layout", "@ layout"),
    ];
    for (prefix, message, want) in tests {
        let got = format_result(true, message, Some(prefix));
        assert_eq!(got, want, "format_result({:?}, {:?})", prefix, message);
    }
}

#[test]
fn test_suggest() {
    let candidates = vec!["add", "remove", "connect", "style", "label", "badge"];

    let tests = vec![
        ("add", Some("add")),
        ("ad", Some("add")),
        ("styel", Some("style")),
        ("labek", Some("label")),
        ("zzzzzzz", None),
        ("bade", Some("badge")),
    ];

    for (input, want) in tests {
        let got = suggest(input, &candidates);
        assert_eq!(got, want.map(|s| s.to_string()), "suggest({:?})", input);
    }
}

#[test]
fn test_suggest_empty_candidates() {
    let got = suggest("test", &[]);
    assert_eq!(got, None);
}

#[test]
fn format_result_empty_prefix_gives_message_alone() {
    assert_eq!(format_result(true, "m", Some("")), "m");
}

#[test]
fn suggest_ignores_case_and_prefers_first_of_equals() {
    assert_eq!(suggest("ADD", &["Add", "add"]), Some("Add".to_string()));
    // "ab" is at distance 1 from both; the first wins.
    assert_eq!(suggest("ab", &["abc", "abd"]), Some("abc".to_string()));
}

#[test]
fn suggest_distance_three_is_still_suggested_four_is_not() {
    assert_eq!(suggest("abc", &["abcdef"]), Some("abcdef".to_string()));
    assert_eq!(suggest("abc", &["abcdefg"]), None);
}
