use baka::command::CommandParser;

#[test]
fn empty_line_is_noop() {
    let p = CommandParser::new(String::new());
    assert_eq!(p.target(), &None);
    assert_eq!(p.command(), "noop");
    assert!(p.args().is_empty());
    assert_eq!(p.tail(), &None);
}

#[test]
fn full_line_parses_all_parts() {
    let p = CommandParser::new(":room foo {a b} :trailing text".to_string());
    assert_eq!(p.target(), &Some("room".to_string()));
    assert_eq!(p.command(), "foo");
    assert_eq!(p.args(), &vec!["a".to_string(), "b".to_string()]);
    assert_eq!(p.tail(), &Some(":trailing text".to_string()));
}

#[test]
fn bare_command() {
    let p = CommandParser::new("quit".to_string());
    assert_eq!(p.target(), &None);
    assert_eq!(p.command(), "quit");
    assert!(p.args().is_empty());
    assert_eq!(p.tail(), &None);
}

#[test]
fn command_with_tail_only() {
    let p = CommandParser::new("say :hello there".to_string());
    assert_eq!(p.target(), &None);
    assert_eq!(p.command(), "say");
    assert!(p.args().is_empty());
    assert_eq!(p.tail(), &Some(":hello there".to_string()));
}

#[test]
fn command_with_args_only() {
    let p = CommandParser::new("kick {mallory eve}".to_string());
    assert_eq!(p.target(), &None);
    assert_eq!(p.command(), "kick");
    assert_eq!(p.args(), &vec!["mallory".to_string(), "eve".to_string()]);
    assert_eq!(p.tail(), &None);
}

#[test]
fn target_and_command() {
    let p = CommandParser::new(":lobby join".to_string());
    assert_eq!(p.target(), &Some("lobby".to_string()));
    assert_eq!(p.command(), "join");
    assert!(p.args().is_empty());
    assert_eq!(p.tail(), &None);
}

#[test]
fn lone_colon_token_is_the_command() {
    // a leading :token with nothing after it cannot be a target
    let p = CommandParser::new(":room".to_string());
    assert_eq!(p.target(), &None);
    assert_eq!(p.command(), ":room");
    assert!(p.args().is_empty());
    assert_eq!(p.tail(), &None);
}

#[test]
fn unmatched_line_falls_back_to_noop() {
    // two bare tokens fit no part of the grammar
    let p = CommandParser::new("foo bar".to_string());
    assert_eq!(p.target(), &None);
    assert_eq!(p.command(), "noop");
    assert!(p.args().is_empty());
    assert_eq!(p.tail(), &None);
}

#[test]
fn unclosed_brace_falls_back_to_noop() {
    let p = CommandParser::new("foo {a b".to_string());
    assert_eq!(p.command(), "noop");
}

#[test]
fn empty_args_block_falls_back_to_noop() {
    let p = CommandParser::new("foo {}".to_string());
    assert_eq!(p.command(), "noop");
}
