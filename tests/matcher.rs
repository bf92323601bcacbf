use code_grep::{find_in_text, Cli, CodeGrepError, PatternMatcher};

fn test_cli() -> Cli {
    Cli { pattern: Some("test".to_string()), ..Cli::default() }
}

#[test]
fn test_literal_matcher() {
    let cli = Cli { literal: true, ..test_cli() };
    let matcher = PatternMatcher::new(&cli).unwrap();

    let matches = matcher.find_matches("This is a test string");
    assert_eq!(matches.len(), 1);
    assert_eq!(matches[0].text, "test");
}

#[test]
fn test_regex_matcher() {
    let cli = Cli { pattern: Some(r"\d+".to_string()), regex: true, ..test_cli() };
    let matcher = PatternMatcher::new(&cli).unwrap();

    let matches = matcher.find_matches("There are 123 numbers and 456 more");
    assert_eq!(matches.len(), 2);
    assert_eq!(matches[0].text, "123");
    assert_eq!(matches[1].text, "456");
}

#[test]
fn literal_overlapping_occurrences() {
    let matcher = PatternMatcher::Literal("aa".to_string());
    let matches = matcher.find_matches("aaa");
    let starts: Vec<usize> = matches.iter().map(|m| m.start).collect();
    assert_eq!(starts, vec![0, 1]);
    assert_eq!(matches[0].end, 2);
    assert_eq!(matches[1].end, 3);
}

#[test]
fn literal_ignores_case() {
    let matcher = PatternMatcher::Literal("TEST".to_string());
    let matches = matcher.find_matches("a Test here");
    assert_eq!(matches.len(), 1);
    assert_eq!(matches[0].start, 2);
    assert_eq!(matches[0].end, 6);
    assert_eq!(matches[0].text, "Test");
}

#[test]
fn literal_empty_pattern_finds_nothing() {
    let matcher = PatternMatcher::Literal(String::new());
    assert!(matcher.find_matches("abc").is_empty());
}

#[test]
fn literal_offsets_are_bytes() {
    let matcher = PatternMatcher::Literal("b".to_string());
    let matches = matcher.find_matches("éb");
    assert_eq!(matches.len(), 1);
    assert_eq!(matches[0].start, 2);
    assert_eq!(matches[0].len(), 1);
}

#[test]
fn metacharacters_select_a_regex() {
    let cli = Cli { pattern: Some("a.c".to_string()), ..Cli::default() };
    let matcher = PatternMatcher::new(&cli).unwrap();
    assert!(matches!(matcher, PatternMatcher::Basic(_)));
    assert!(matcher.is_match("xxABCxx"));
    let plain = Cli { pattern: Some("abc".to_string()), ..Cli::default() };
    assert!(matches!(PatternMatcher::new(&plain).unwrap(), PatternMatcher::Literal(_)));
}

#[test]
fn case_sensitive_regex() {
    let cli = Cli { pattern: Some("abc".to_string()), regex: true, case_sensitive: true, ..Cli::default() };
    let matcher = PatternMatcher::new(&cli).unwrap();
    assert!(!matcher.is_match("ABC"));
    assert!(matcher.is_match("abc"));
}

#[test]
fn word_boundary_regex() {
    let cli = Cli { pattern: Some("cat".to_string()), regex: true, word_boundary: true, ..Cli::default() };
    let matcher = PatternMatcher::new(&cli).unwrap();
    assert!(!matcher.is_match("concatenate"));
    let matches = matcher.find_matches("a cat sat");
    assert_eq!(matches.len(), 1);
    assert_eq!(matches[0].start, 2);
}

#[test]
fn fancy_regex_look_ahead() {
    let cli = Cli { pattern: Some(r"\w+(?=!)".to_string()), fancy_regex: true, ..Cli::default() };
    let matcher = PatternMatcher::new(&cli).unwrap();
    let texts: Vec<String> = matcher.find_matches("so fancy! even with! no").into_iter().map(|m| m.text).collect();
    assert_eq!(texts, vec!["fancy".to_string(), "with".to_string()]);
}

#[test]
fn and_composition_needs_every_part() {
    let cli = Cli { and: vec!["foo".to_string(), "bar".to_string()], ..Cli::default() };
    let matcher = PatternMatcher::new(&cli).unwrap();
    assert!(matcher.is_match("foo and bar"));
    assert!(!matcher.is_match("foo only"));
    let matches = matcher.find_matches("bar then foo");
    assert_eq!(matches.len(), 1);
    assert_eq!(matches[0].text, "foo");
}

#[test]
fn and_composition_includes_main_pattern() {
    let cli = Cli { pattern: Some("baz".to_string()), and: vec!["foo".to_string()], ..Cli::default() };
    let matcher = PatternMatcher::new(&cli).unwrap();
    assert!(!matcher.is_match("foo"));
    let matches = matcher.find_matches("foo baz");
    assert_eq!(matches[0].text, "baz");
}

#[test]
fn or_composition_is_one_alternation() {
    let cli = Cli { pattern: Some("cat".to_string()), or: vec!["dog".to_string(), "cow".to_string()], ..Cli::default() };
    let matcher = PatternMatcher::new(&cli).unwrap();
    let texts: Vec<String> = matcher.find_matches("dog, cat and cow").into_iter().map(|m| m.text).collect();
    assert_eq!(texts, vec!["dog".to_string(), "cat".to_string(), "cow".to_string()]);
}

#[test]
fn missing_pattern_is_a_config_error() {
    let r = PatternMatcher::new(&Cli::default());
    assert!(matches!(r, Err(CodeGrepError::Config(_))));
}

#[test]
fn malformed_regex_errors() {
    let plain = Cli { pattern: Some("(".to_string()), ..Cli::default() };
    assert!(matches!(PatternMatcher::new(&plain), Err(CodeGrepError::Regex(_))));
    let fancy = Cli { pattern: Some("(".to_string()), fancy_regex: true, ..Cli::default() };
    assert!(matches!(PatternMatcher::new(&fancy), Err(CodeGrepError::FancyRegex(_))));
}

#[test]
fn find_in_text_numbers_lines() {
    let matcher = PatternMatcher::Literal("hello".to_string());
    let lines = find_in_text("Hello world\nThis is a test\r\nHello again\n", &matcher);
    assert_eq!(lines.len(), 2);
    assert_eq!(lines[0].line_number, 1);
    assert_eq!(lines[1].line_number, 3);
    assert_eq!(lines[1].line_text, "Hello again");
    assert!(lines[0].has_matches());
}

#[test]
fn regex_check_reports_each_engine() {
    let (plain, fancy) = code_grep::check_regex_pattern(r"\w+");
    assert!(plain.is_none() && fancy.is_none());
    let (plain, fancy) = code_grep::check_regex_pattern(r"a(?=b)");
    assert!(plain.is_some());
    assert!(fancy.is_none());
}

#[test]
fn nested_composite_parts() {
    let inner = PatternMatcher::Multiple(vec![PatternMatcher::Literal("foo".to_string())]);
    let outer = PatternMatcher::Multiple(vec![inner, PatternMatcher::Literal("bar".to_string())]);
    assert!(outer.is_match("foo bar"));
    let matches = outer.find_matches("foo bar");
    assert_eq!(matches.len(), 1);
    assert_eq!(matches[0].text, "foo");
    assert!(!outer.is_match("bar only"));
}
