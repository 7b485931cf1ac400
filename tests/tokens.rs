use minigrep::{char_slice_to_str, parse_to_tokens, Token};

fn texts(tokens: &[Token]) -> Vec<String> {
    tokens
        .iter()
        .map(|t| match t {
            Token::TokenStr(s) => s.clone(),
            Token::TokenStrLine(t) => t.contents.clone(),
        })
        .collect()
}

fn lines(tokens: &[Token]) -> Vec<(String, usize)> {
    tokens
        .iter()
        .map(|t| match t {
            Token::TokenStrLine(t) => (t.contents.clone(), t.line_num),
            Token::TokenStr(_) => panic!("token without a line number"),
        })
        .collect()
}

#[test]
fn tokens_carry_their_start_line() {
    let tokens = parse_to_tokens("foo\nbar baz", true);
    assert_eq!(
        lines(&tokens),
        vec![("foo".to_string(), 0), ("bar".to_string(), 1), ("baz".to_string(), 1)]
    );
}

#[test]
fn line_numbers_count_blank_lines() {
    let tokens = parse_to_tokens("\n\n  a\r\n\tb c\n\nd", true);
    assert_eq!(
        lines(&tokens),
        vec![
            ("a".to_string(), 2),
            ("b".to_string(), 3),
            ("c".to_string(), 3),
            ("d".to_string(), 5)
        ]
    );
}

#[test]
fn without_line_tracking_tokens_are_bare() {
    let tokens = parse_to_tokens("foo\nbar", false);
    assert!(tokens.iter().all(|t| matches!(t, Token::TokenStr(_))));
    assert_eq!(texts(&tokens), vec!["foo", "bar"]);
}

#[test]
fn empty_text_has_no_tokens() {
    assert!(parse_to_tokens("", false).is_empty());
    assert!(parse_to_tokens("", true).is_empty());
}

#[test]
fn whitespace_only_text_has_no_tokens() {
    assert!(parse_to_tokens(" \t\n\r\n  ", true).is_empty());
}

#[test]
fn last_character_belongs_to_last_token() {
    assert_eq!(texts(&parse_to_tokens("ab cd", false)), vec!["ab", "cd"]);
    assert_eq!(texts(&parse_to_tokens("x", false)), vec!["x"]);
}

#[test]
fn unicode_white_space_separates_tokens() {
    let tokens = parse_to_tokens("a\u{a0}b\u{3000}c\u{2028}d\u{85}e", false);
    assert_eq!(texts(&tokens), vec!["a", "b", "c", "d", "e"]);
}

#[test]
fn zero_width_space_is_not_white_space() {
    let tokens = parse_to_tokens("a\u{200b}b \u{feff}c", false);
    assert_eq!(texts(&tokens), vec!["a\u{200b}b", "\u{feff}c"]);
}

#[test]
fn joined_tokens_tokenize_the_same() {
    let text = "  alpha\tbeta\n\n gamma \u{3000}delta  ";
    let first = texts(&parse_to_tokens(text, false));
    let joined = first.join(" ");
    assert_eq!(joined, "alpha beta gamma delta");
    assert_eq!(texts(&parse_to_tokens(&joined, false)), first);
}

#[test]
fn char_slice_becomes_string() {
    assert_eq!(char_slice_to_str(&['h', 'é', 'l', 'ö']), "hélö");
    assert_eq!(char_slice_to_str(&[]), "");
}
