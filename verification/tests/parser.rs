use melon::input::parser::{
    cursor_quote_mode, parse_completion_input, split_partial, tokenize, tokenize_last_command,
    try_tokenize, QuoteMode, TokenKind,
};

#[test]
fn test_simple_tokens() {
    let tokens = tokenize("git commit -m 'hello world'");
    assert_eq!(tokens.len(), 4);
    assert_eq!(tokens[0].text, "git");
    assert_eq!(tokens[1].text, "commit");
    assert_eq!(tokens[2].text, "-m");
    assert_eq!(tokens[3].text, "hello world");
}

#[test]
fn test_pipes() {
    let tokens = tokenize("cat file | grep pattern");
    assert_eq!(tokens.len(), 5);
    assert_eq!(tokens[2].kind, TokenKind::Pipe);

    let last = tokenize_last_command("cat file | grep pattern");
    assert_eq!(last.len(), 2);
    assert_eq!(last[0].text, "grep");
}

#[test]
fn test_operators() {
    let last = tokenize_last_command("make && cargo test");
    assert_eq!(last.len(), 2);
    assert_eq!(last[0].text, "cargo");
}

#[test]
fn test_split_partial() {
    let (tokens, partial) = split_partial("git com");
    assert_eq!(tokens.len(), 1);
    assert_eq!(tokens[0].text, "git");
    assert_eq!(partial, "com");
}

#[test]
fn test_split_partial_trailing_space() {
    let (tokens, partial) = split_partial("git ");
    assert_eq!(tokens.len(), 1);
    assert_eq!(tokens[0].text, "git");
    assert_eq!(partial, "");
}

#[test]
fn test_parse_completion_input_reuses_last_token_as_partial() {
    let parsed = parse_completion_input("git commit");
    assert_eq!(parsed.tokens.len(), 1);
    assert_eq!(parsed.tokens[0].text, "git");
    assert_eq!(parsed.partial, "commit");
}

#[test]
fn test_double_quotes_with_escape() {
    let tokens = tokenize(r#"echo "hello \"world""#);
    assert_eq!(tokens[1].text, r#"hello "world"#);
}

#[test]
fn test_backslash_escape() {
    let tokens = tokenize(r"echo hello\ world");
    assert_eq!(tokens[1].text, "hello world");
}

#[test]
fn test_redirects() {
    let tokens = tokenize("echo hello > file.txt");
    assert_eq!(tokens.len(), 4);
    assert_eq!(tokens[2].kind, TokenKind::Redirect);
}

#[test]
fn tokenize_records_byte_offsets_and_operators() {
    let tokens = tokenize("a;b || c 2>> log");
    let texts: Vec<&str> = tokens.iter().map(|t| t.text.as_str()).collect();
    assert_eq!(texts, vec!["a", ";", "b", "||", "c", "2>>", "log"]);
    assert_eq!(tokens[3].kind, TokenKind::Operator);
    assert_eq!(tokens[5].kind, TokenKind::Redirect);
    assert_eq!(tokens[5].start, 9);
}

#[test]
fn try_tokenize_refuses_a_lone_ampersand() {
    assert!(try_tokenize("sleep 1 &").is_none());
    assert!(try_tokenize("a && b").is_some());
}

#[test]
fn parse_completion_input_of_empty_line() {
    let parsed = parse_completion_input("");
    assert!(parsed.tokens.is_empty());
    assert_eq!(parsed.partial, "");
}

#[test]
fn quote_mode_follows_open_quotes() {
    assert_eq!(cursor_quote_mode("git commit -m 'fix"), QuoteMode::Single);
    assert_eq!(cursor_quote_mode("echo \"a\\\"b"), QuoteMode::Double);
    assert_eq!(cursor_quote_mode("echo 'a' b"), QuoteMode::Plain);
    assert_eq!(cursor_quote_mode("echo \\'"), QuoteMode::Plain);
}
