use fcp_rust::fcpcore::parsed_op::parse_op;

#[test]
fn test_parse_op_simple_verb() {
    let r = parse_op("add svc AuthService").unwrap();
    assert_eq!(r.verb, "add");
    assert_eq!(r.positionals, vec!["svc", "AuthService"]);
    assert!(r.params.is_empty());
    assert!(r.selectors.is_empty());
}

#[test]
fn test_parse_op_key_value_params() {
    let r = parse_op("add svc AuthService theme:blue near:Gateway").unwrap();
    assert_eq!(r.verb, "add");
    assert_eq!(r.positionals, vec!["svc", "AuthService"]);
    assert_eq!(r.params.get("theme").unwrap(), "blue");
    assert_eq!(r.params.get("near").unwrap(), "Gateway");
}

#[test]
fn test_parse_op_selectors() {
    let r = parse_op("remove @type:db @recent:3").unwrap();
    assert_eq!(r.verb, "remove");
    assert_eq!(r.selectors, vec!["@type:db", "@recent:3"]);
    assert!(r.positionals.is_empty());
}

#[test]
fn test_parse_op_mixed_types() {
    let r = parse_op("style @type:svc fill:#ff0000 bold").unwrap();
    assert_eq!(r.verb, "style");
    assert_eq!(r.selectors, vec!["@type:svc"]);
    assert_eq!(r.params.get("fill").unwrap(), "#ff0000");
    assert_eq!(r.positionals, vec!["bold"]);
}

#[test]
fn test_parse_op_lowercases_verb() {
    let r = parse_op("ADD svc Test").unwrap();
    assert_eq!(r.verb, "add");
}

#[test]
fn test_parse_op_preserves_raw() {
    let r = parse_op("  add svc Test  ").unwrap();
    assert_eq!(r.raw, "add svc Test");
}

#[test]
fn test_parse_op_quoted_positionals() {
    let r = parse_op(r#"label Gateway "API Gateway v2""#).unwrap();
    assert_eq!(r.positionals, vec!["Gateway", "API Gateway v2"]);
}

#[test]
fn test_parse_op_empty_input() {
    let r = parse_op("");
    assert!(r.is_err());
    let e = r.unwrap_err();
    assert_eq!(e.error, "empty operation");
}

#[test]
fn test_parse_op_whitespace_only() {
    let r = parse_op("   ");
    assert!(r.is_err());
}

#[test]
fn test_parse_op_arrows_as_positionals() {
    let r = parse_op("connect A -> B").unwrap();
    assert_eq!(r.positionals, vec!["A", "->", "B"]);
}

#[test]
fn test_parse_op_verb_only() {
    let r = parse_op("undo").unwrap();
    assert_eq!(r.verb, "undo");
    assert!(r.positionals.is_empty());
    assert!(r.params.is_empty());
    assert!(r.selectors.is_empty());
}

#[test]
fn test_parse_op_terraform_style() {
    let r = parse_op("add resource aws_instance web ami:ami-123 instance_type:t2.micro").unwrap();
    assert_eq!(r.verb, "add");
    assert_eq!(r.positionals, vec!["resource", "aws_instance", "web"]);
    assert_eq!(r.params.get("ami").unwrap(), "ami-123");
    assert_eq!(r.params.get("instance_type").unwrap(), "t2.micro");
}

#[test]
fn parse_op_later_key_replaces_earlier_and_quoted_keys_are_recorded() {
    let r = parse_op(r#"set a:"1" a:2 b:3"#).unwrap();
    assert_eq!(r.params.get("a").unwrap(), "2");
    assert_eq!(r.params.get("b").unwrap(), "3");
    assert_eq!(r.quoted_params.get("a"), Some(&true));
    assert_eq!(r.quoted_params.get("b"), None);
}

#[test]
fn parse_op_trims_tabs_and_newlines() {
    let r = parse_op("\t move X \n").unwrap();
    assert_eq!(r.raw, "move X");
    assert_eq!(r.verb, "move");
    assert_eq!(r.positionals, vec!["X"]);
}

#[test]
fn parse_op_empty_error_keeps_trimmed_raw() {
    let e = parse_op(" \t ").unwrap_err();
    assert_eq!(e.error, "empty operation");
    assert_eq!(e.raw, "");
}

#[test]
fn parse_op_trims_unicode_whitespace() {
    let r = parse_op("\u{3000}\tADD svc X\u{2003}\n").unwrap();
    assert_eq!(r.verb, "add");
    assert_eq!(r.positionals, vec!["svc", "X"]);
}
