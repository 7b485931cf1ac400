use minigrep::{
    cmp_chars, collect_occurrences, contains_text, find_occurences, match_str, match_vecs,
    parse_to_tokens, MatchMode, Script, Token,
};

const ASCII: MatchMode = MatchMode { ignore_case: false, script: Script::Ascii };
const ASCII_FOLD: MatchMode = MatchMode { ignore_case: true, script: Script::Ascii };
const CYRILLIC_FOLD: MatchMode = MatchMode { ignore_case: true, script: Script::Cyrillic };

fn texts(tokens: &[Token]) -> Vec<String> {
    tokens
        .iter()
        .map(|t| match t {
            Token::TokenStr(s) => s.clone(),
            Token::TokenStrLine(t) => t.contents.clone(),
        })
        .collect()
}

fn units(s: &str) -> Vec<u32> {
    s.bytes().map(u32::from).collect()
}

#[test]
fn case_fold_boundary() {
    assert!(cmp_chars('A' as u32, 'a' as u32, true, 32));
    assert!(cmp_chars('a' as u32, 'A' as u32, true, 32));
    assert!(!cmp_chars('A' as u32, 'B' as u32, true, 32));
    assert!(!cmp_chars('A' as u32, 'a' as u32, false, 32));
    assert!(cmp_chars('x' as u32, 'x' as u32, false, 32));
}

#[test]
fn substring_found_case_sensitively() {
    assert!(match_str("HelloWorld", "loWor", ASCII));
    assert!(!match_str("HelloWorld", "LOWOR", ASCII));
}

#[test]
fn substring_found_ignoring_case() {
    assert!(match_str("HelloWorld", "LOWOR", ASCII_FOLD));
    assert!(match_str("HELLO", "hello", ASCII_FOLD));
}

#[test]
fn longer_pattern_never_matches() {
    assert!(!match_str("abc", "abcd", ASCII));
    assert!(!match_str("abc", "abcd", ASCII_FOLD));
    assert!(!match_str("abc", "ABCD", CYRILLIC_FOLD));
}

#[test]
fn empty_pattern_matches_every_candidate() {
    assert!(match_str("abc", "", ASCII));
    assert!(match_str("", "", ASCII_FOLD));
    assert!(!match_str("", "a", ASCII));
}

#[test]
fn naive_search_restarts_after_a_partial_match() {
    assert!(match_vecs(&units("aab"), &units("ab"), false, 32));
    assert!(match_vecs(&units("abababc"), &units("ababc"), false, 32));
    assert!(!match_vecs(&units("abab"), &units("abb"), false, 32));
    assert!(match_vecs(&units("xyz"), &units("z"), false, 32));
    assert!(!match_vecs(&units("xy"), &units("yz"), false, 32));
}

#[test]
fn cyrillic_letters_fold_by_code_point() {
    assert!(match_str("Привет", "ПРИВЕТ", CYRILLIC_FOLD));
    assert!(match_str("ПРИВЕТ", "вет", CYRILLIC_FOLD));
    assert!(!match_str("Привет", "ПРИВЕТ", ASCII_FOLD));
    assert!(!match_str("Привет", "ПРИВЕТ", MatchMode { ignore_case: false, script: Script::Cyrillic }));
}

#[test]
fn exact_text_containment() {
    assert!(contains_text("src/.git/config", ".git"));
    assert!(!contains_text("src/.GIT/config", ".git"));
    assert!(contains_text("héllo", "él"));
    assert!(contains_text("x", ""));
}

#[test]
fn end_to_end_case_sensitive() {
    let tokens = parse_to_tokens("apple Banana apple ORANGE", false);
    let found = find_occurences(tokens, &"apple".to_string(), false);
    assert_eq!(texts(&found), vec!["apple", "apple"]);
}

#[test]
fn end_to_end_ignoring_case() {
    let tokens = parse_to_tokens("apple Banana apple ORANGE", false);
    let found = find_occurences(tokens, &"APPLE".to_string(), true);
    assert_eq!(texts(&found), vec!["apple", "apple"]);
}

#[test]
fn occurrences_keep_order_and_duplicates() {
    let tokens = parse_to_tokens("cab abc xyz abc zab", true);
    let found = find_occurences(tokens, &"ab".to_string(), false);
    let tagged: Vec<(String, usize)> = found
        .iter()
        .map(|t| match t {
            Token::TokenStrLine(t) => (t.contents.clone(), t.line_num),
            Token::TokenStr(_) => panic!("line number lost"),
        })
        .collect();
    assert_eq!(
        tagged,
        vec![
            ("cab".to_string(), 0),
            ("abc".to_string(), 0),
            ("abc".to_string(), 0),
            ("zab".to_string(), 0)
        ]
    );
}

#[test]
fn no_occurrence_gives_empty_result() {
    let tokens = parse_to_tokens("one two", false);
    assert!(find_occurences(tokens, &"three".to_string(), true).is_empty());
    assert!(find_occurences(Vec::new(), &"x".to_string(), false).is_empty());
}

#[test]
fn collector_uses_the_given_script() {
    let tokens = parse_to_tokens("Москва мост Кремль", false);
    let found = collect_occurrences(tokens, "МОС", CYRILLIC_FOLD);
    assert_eq!(texts(&found), vec!["Москва", "мост"]);
}
