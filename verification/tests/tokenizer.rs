use fcp_rust::fcpcore::tokenizer::{
    is_arrow, is_key_value, is_selector, parse_key_value, parse_key_value_with_meta, tokenize,
};

#[test]
fn test_tokenize_simple_tokens() {
    let got = tokenize("add svc AuthService");
    assert_eq!(got, vec!["add", "svc", "AuthService"]);
}

#[test]
fn test_tokenize_quoted_strings() {
    let got = tokenize(r#"add svc "Auth Service" theme:blue"#);
    assert_eq!(got, vec!["add", "svc", "Auth Service", "theme:blue"]);
}

#[test]
fn test_tokenize_escaped_quotes() {
    let got = tokenize(r#"label A "say \"hello\"""#);
    assert_eq!(got, vec!["label", "A", r#"say "hello""#]);
}

#[test]
fn test_tokenize_empty_input() {
    let got = tokenize("");
    assert!(got.is_empty());
}

#[test]
fn test_tokenize_whitespace_only() {
    let got = tokenize("   ");
    assert!(got.is_empty());
}

#[test]
fn test_tokenize_multiple_spaces() {
    let got = tokenize("add   svc   A");
    assert_eq!(got, vec!["add", "svc", "A"]);
}

#[test]
fn test_tokenize_newline_in_unquoted() {
    let got = tokenize(r"add svc Container\nRegistry");
    assert_eq!(got, vec!["add", "svc", "Container\nRegistry"]);
}

#[test]
fn test_tokenize_newline_in_quoted() {
    let got = tokenize(r#"add svc "Container\nRegistry""#);
    assert_eq!(got, vec!["add", "svc", "Container\nRegistry"]);
}

#[test]
fn test_tokenize_embedded_quoted_value() {
    let got = tokenize(r#"label:"Line1\nLine2""#);
    assert_eq!(got, vec!["label:\"Line1\nLine2\""]);
}

#[test]
fn test_tokenize_multiple_newlines() {
    let got = tokenize(r"add svc A\nB\nC");
    assert_eq!(got, vec!["add", "svc", "A\nB\nC"]);
}

#[test]
fn test_tokenize_single_token() {
    let got = tokenize("add");
    assert_eq!(got, vec!["add"]);
}

#[test]
fn test_tokenize_empty_quoted_string() {
    let got = tokenize(r#""""#);
    assert_eq!(got, vec![""]);
}

#[test]
fn test_tokenize_unclosed_quote() {
    let got = tokenize(r#""hello world"#);
    assert_eq!(got, vec!["hello world"]);
}

#[test]
fn test_tokenize_escaped_backslash() {
    let got = tokenize(r#""path\\dir""#);
    assert_eq!(got, vec![r"path\dir"]);
}

#[test]
fn test_tokenize_colons_in_value() {
    let got = tokenize("url:http://example.com");
    assert_eq!(got, vec!["url:http://example.com"]);
}

#[test]
fn test_is_key_value() {
    let tests = vec![
        ("theme:blue", true),
        ("url:http://x", true),
        ("@type:db", false),
        ("->", false),
        ("hello", false),
        ("key:", false),
        (":value", false),
    ];
    for (input, want) in tests {
        assert_eq!(
            is_key_value(input),
            want,
            "is_key_value({:?}) = {}, want {}",
            input,
            is_key_value(input),
            want
        );
    }
}

#[test]
fn test_parse_key_value() {
    let (key, value) = parse_key_value("theme:blue");
    assert_eq!(key, "theme");
    assert_eq!(value, "blue");

    let (key, value) = parse_key_value("url:http://x:8080");
    assert_eq!(key, "url");
    assert_eq!(value, "http://x:8080");
}

#[test]
fn test_parse_key_value_strips_quotes() {
    let (key, value) = parse_key_value("label:\"Line1\nLine2\"");
    assert_eq!(key, "label");
    assert_eq!(value, "Line1\nLine2");
}

#[test]
fn test_parse_key_value_with_meta() {
    let (key, value, was_quoted) = parse_key_value_with_meta(r#"engine_version:"15""#);
    assert_eq!(key, "engine_version");
    assert_eq!(value, "15");
    assert!(was_quoted);

    let (key, value, was_quoted) = parse_key_value_with_meta("port:80");
    assert_eq!(key, "port");
    assert_eq!(value, "80");
    assert!(!was_quoted);
}

#[test]
fn test_is_arrow() {
    assert!(is_arrow("->"));
    assert!(is_arrow("<->"));
    assert!(is_arrow("--"));
    assert!(!is_arrow("=>"));
    assert!(!is_arrow("add"));
}

#[test]
fn test_is_selector() {
    assert!(is_selector("@type:db"));
    assert!(is_selector("@all"));
    assert!(!is_selector("type:db"));
    assert!(!is_selector("add"));
}

#[test]
fn tokenize_reads_each_byte_of_a_non_ascii_word_as_a_character() {
    // "é" is two bytes in UTF-8; each byte becomes the character with that code.
    let got = tokenize("caf\u{e9}");
    assert_eq!(got, vec!["caf\u{c3}\u{a9}"]);
}

#[test]
fn tokenize_escaped_character_in_quotes() {
    let got = tokenize(r#""a\qb" c"#);
    assert_eq!(got, vec!["aqb", "c"]);
}

#[test]
fn tokenize_trailing_backslash_in_quotes_is_kept() {
    let got = tokenize("\"ab\\");
    assert_eq!(got, vec!["ab\\"]);
}

#[test]
fn tokenize_unclosed_embedded_quote_runs_to_end() {
    let got = tokenize(r#"a:"b c"#);
    assert_eq!(got, vec!["a:\"b c"]);
}

#[test]
fn key_value_rejects_bad_key_characters() {
    assert!(!is_key_value("a b:c"));
    assert!(!is_key_value("k.x:1"));
    assert!(is_key_value("my-key_1:v"));
    assert!(!is_key_value("--"));
}

#[test]
fn parse_key_value_keeps_single_quote_value() {
    let (key, value, quoted) = parse_key_value_with_meta("k:\"");
    assert_eq!(key, "k");
    assert_eq!(value, "\"");
    assert!(!quoted);
}

#[test]
fn plain_words_round_trip() {
    let words = vec!["connect", "A->B", "key:value", "@file:main.rs", "x"];
    assert_eq!(tokenize(&words.join(" ")), words);
}

#[test]
fn plain_text_splits_on_runs_of_spaces() {
    assert_eq!(tokenize("  add   svc  X "), vec!["add", "svc", "X"]);
    assert!(tokenize("   ").is_empty());
    assert_eq!(tokenize("url:http://example.com"), vec!["url:http://example.com"]);
}
