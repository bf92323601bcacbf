use code_grep::replacer::{confirm_all, parse_response, results_to_write};
use code_grep::{batch_mode, BatchMode, Cli, Confirmation, PatternMatcher, Replacer, Response};

fn replacer(pattern: &str, template: &str) -> Replacer {
    Replacer::new(PatternMatcher::Literal(pattern.to_string()), template.to_string(), Cli::default())
}

#[test]
fn replaces_every_matching_line() {
    let r = replacer("Hello", "Hi");
    let result = r.replace_content("greet.txt", "Hello world\nThis is a test\nHello again").unwrap();
    assert_eq!(result.replacements_made, 2);
    assert_eq!(result.new_content, "Hi world\nThis is a test\nHi again");
    assert_eq!(result.lines_affected, vec![1, 3]);
    assert_eq!(result.original_content, "Hello world\nThis is a test\nHello again");
    assert_eq!(result.file_path, "greet.txt");
}

#[test]
fn no_match_gives_none() {
    assert!(replacer("zzz", "y").replace_content("f", "abc\ndef").is_none());
}

#[test]
fn whole_match_tokens() {
    let r = replacer("cat", "[$0|${0}]");
    let result = r.replace_content("f", "a cat").unwrap();
    assert_eq!(result.new_content, "a [cat|cat]");
    assert_eq!(r.process_replacement("dog"), "[dog|dog]");
}

#[test]
fn offsets_shift_within_a_line() {
    let r = replacer("ab", "xyz");
    let result = r.replace_content("f", "ab-ab-ab").unwrap();
    assert_eq!(result.new_content, "xyz-xyz-xyz");
    assert_eq!(result.replacements_made, 3);
}

#[test]
fn unchanged_text_still_counts() {
    let r = replacer("a", "a");
    let result = r.replace_content("f", "banana").unwrap();
    assert_eq!(result.new_content, "banana");
    assert_eq!(result.replacements_made, 3);
}

#[test]
fn same_length_keeps_line_count() {
    let r = replacer("o", "0");
    let content = "foo\nbar\nboo";
    let result = r.replace_content("f", content).unwrap();
    assert_eq!(result.new_content.lines().count(), content.lines().count());
}

#[test]
fn replacing_twice_agrees() {
    let r = replacer("o", "0");
    let first = r.replace_content("f", "foo\nbar").unwrap();
    let second = r.replace_content("f", "foo\nbar").unwrap();
    assert_eq!(first.new_content, second.new_content);
}

#[test]
fn preview_text() {
    let r = replacer("Hello", "Hi");
    let result = r.replace_content("greet.txt", "Hello world\nThis is a test\nHello again").unwrap();
    assert_eq!(
        r.preview_replacement(&result),
        "File: greet.txt\nReplacements: 2\n---\nLine 1: Hello world -> Hi world\nLine 3: Hello again -> Hi again\n"
    );
}

#[test]
fn confirm_then_quit() {
    assert_eq!(confirm_all(2, &vec![Response::Yes, Response::Quit]), vec![0]);
    assert!(results_to_write(BatchMode::Interactive, false, 2, &vec![0]).is_empty());
    assert_eq!(results_to_write(BatchMode::Interactive, true, 2, &vec![0]), vec![0]);
}

#[test]
fn confirm_all_remaining() {
    assert_eq!(confirm_all(3, &vec![Response::No, Response::All]), vec![1, 2]);
    assert_eq!(confirm_all(2, &vec![Response::Unknown, Response::Yes, Response::Yes, Response::Yes]), vec![0, 1]);
    let mut c = Confirmation::start();
    c.step(1, Response::Quit);
    assert!(c.is_done(1));
    assert!(c.confirmed.is_empty());
}

#[test]
fn responses_are_read_loosely() {
    assert_eq!(parse_response(" Y\n"), Response::Yes);
    assert_eq!(parse_response("no"), Response::No);
    assert_eq!(parse_response("ALL"), Response::All);
    assert_eq!(parse_response("q"), Response::Quit);
    assert_eq!(parse_response("maybe"), Response::Unknown);
}

#[test]
fn batch_modes() {
    assert_eq!(batch_mode(&Cli::default()), BatchMode::Preview);
    assert_eq!(batch_mode(&Cli { write: true, ..Cli::default() }), BatchMode::Write);
    assert_eq!(batch_mode(&Cli { write: true, preview: true, ..Cli::default() }), BatchMode::Preview);
    assert_eq!(batch_mode(&Cli { interactive: true, write: true, ..Cli::default() }), BatchMode::Interactive);
    assert_eq!(results_to_write(BatchMode::Write, true, 3, &vec![]), vec![0, 1, 2]);
    assert!(results_to_write(BatchMode::Preview, true, 3, &vec![]).is_empty());
}

#[test]
fn test_replacement_basic() {
    let content = "Hello world\nThis is a test\nHello again";
    let pattern_matcher = PatternMatcher::Literal("Hello".to_string());
    let replacer = Replacer::new(pattern_matcher, "Hi".to_string(), Cli::default());

    let result = replacer.replace_content("test.txt", content);
    assert!(result.is_some());

    let result = result.unwrap();
    // Both the first and the third line hold "Hello", and every matching
    // line of the file is replaced, so two replacements are made.
    assert_eq!(result.replacements_made, 2);
    assert!(result.new_content.contains("Hi world"));
}

#[test]
fn final_empty_line_is_kept() {
    let r = replacer("a", "b");
    let result = r.replace_content("f", "a\n\n").unwrap();
    assert_eq!(result.new_content, "b\n\n");
    assert_eq!(result.new_content.lines().count(), 2);
    let result = r.replace_content("f", "a\nc\n").unwrap();
    assert_eq!(result.new_content, "b\nc\n");
}

#[test]
fn overlapping_matches_all_count() {
    let r = replacer("aa", "X");
    let result = r.replace_content("f", "aaa").unwrap();
    assert_eq!(result.replacements_made, 2);
    assert_eq!(result.new_content, "Xa");
}
