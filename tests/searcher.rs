use code_grep::structure::{is_comment_line, is_function_line, is_import_line, is_in_class, is_in_function};
use code_grep::{collect_results, search_content, Cli, PatternMatcher};
use std::time::Duration;

#[test]
fn test_search_basic() {
    let cli = Cli { pattern: Some("test".to_string()), ..Default::default() };
    let matcher = PatternMatcher::new(&cli).unwrap();
    let file_match = search_content("test.txt", "Hello world\nThis is a test\nGoodbye", &matcher, &cli);
    let (results, stats) = collect_results(vec![Some(file_match)], Duration::from_millis(5));

    assert_eq!(results.len(), 1);
    assert_eq!(results[0].total_matches, 1);
    assert!(stats.files_searched > 0);
}

#[test]
fn hello_scenario() {
    let cli = Cli { pattern: Some("Hello".to_string()), literal: true, ..Cli::default() };
    let matcher = PatternMatcher::new(&cli).unwrap();
    let fm = search_content("greet.txt", "Hello world\nThis is a test\nHello again", &matcher, &cli);
    assert_eq!(fm.line_matches.len(), 2);
    assert_eq!(fm.line_matches[0].line_number, 1);
    assert_eq!(fm.line_matches[1].line_number, 3);
    assert_eq!(fm.total_matches, 2);
    let (results, stats) = collect_results(vec![Some(fm)], Duration::from_secs(1));
    assert_eq!(stats.files_with_matches, 1);
    assert_eq!(results[0].path, "greet.txt");
    assert_eq!(stats.total_matches, 2);
    assert_eq!(stats.total_lines, 2);
}

#[test]
fn empty_candidate_list() {
    let (results, stats) = collect_results(Vec::new(), Duration::ZERO);
    assert!(results.is_empty());
    assert_eq!(stats.files_searched, 0);
    assert_eq!(stats.files_with_matches, 0);
    assert_eq!(stats.total_matches, 0);
    assert_eq!(stats.total_lines, 0);
}

#[test]
fn results_sorted_and_unreadable_files_skipped() {
    let matcher = PatternMatcher::Literal("x".to_string());
    let cli = Cli::default();
    let b = search_content("b.txt", "x\nx", &matcher, &cli);
    let a = search_content("a.txt", "x", &matcher, &cli);
    let none = search_content("c.txt", "y", &matcher, &cli);
    let (results, stats) = collect_results(vec![Some(b), None, Some(none), Some(a)], Duration::ZERO);
    let paths: Vec<&str> = results.iter().map(|f| f.path.as_str()).collect();
    assert_eq!(paths, vec!["a.txt", "b.txt"]);
    assert_eq!(stats.files_searched, 3);
    assert_eq!(stats.files_with_matches, 2);
    assert_eq!(stats.total_matches, 3);
}

#[test]
fn function_line_scenario() {
    let lines = vec!["fn main() {".to_string(), "println!(\"hi\");".to_string(), "}".to_string()];
    assert!(is_function_line(&lines[0], Some("rs")));
    assert!(!is_function_line(&lines[1], Some("rs")));
    assert!(is_in_function(0, &lines, "main", Some("rs")));
    assert!(is_in_function(1, &lines, "main", Some("rs")));
    assert!(!is_in_function(2, &lines, "main", Some("rs")));
    assert!(!is_in_function(1, &lines, "other", Some("rs")));
}

#[test]
fn structural_filters_keep_line_numbers() {
    let cli = Cli { pattern: Some("x".to_string()), functions: true, ..Cli::default() };
    let matcher = PatternMatcher::new(&cli).unwrap();
    let fm = search_content("m.rs", "let x = 1;\nfn x() {\n}", &matcher, &cli);
    assert_eq!(fm.line_matches.len(), 1);
    assert_eq!(fm.line_matches[0].line_number, 2);
}

#[test]
fn comments_imports_classes() {
    assert!(is_comment_line("   // note", Some("rs")));
    assert!(is_comment_line("# note", Some("py")));
    assert!(!is_comment_line("# note", Some("rs")));
    assert!(is_import_line("use std::fmt;", Some("rs")));
    assert!(is_import_line("const x = require('y')", Some("js")));
    assert!(is_import_line("#include <stdio.h> // import", None));
    let lines = vec!["class Shape {".to_string(), "  int x;".to_string(), "}".to_string(), "int y;".to_string()];
    assert!(is_in_class(1, &lines, "Shape"));
    assert!(!is_in_class(3, &lines, "Shape"));
}

#[test]
fn control_flow_is_not_a_function() {
    assert!(!is_function_line("if (x) {", Some("js")));
    assert!(!is_function_line("for (;;) {", Some("ts")));
    assert!(is_function_line("function foo() {", Some("js")));
    assert!(is_function_line("run(x) {", Some("ts")));
}

#[test]
fn every_structural_filter_must_hold() {
    let cli = Cli { pattern: Some("x".to_string()), functions: true, comments_only: true, ..Cli::default() };
    let matcher = PatternMatcher::new(&cli).unwrap();
    let fm = search_content("m.rs", "// fn x\nfn x() {\n// x", &matcher, &cli);
    assert_eq!(fm.line_matches.len(), 1);
    assert_eq!(fm.line_matches[0].line_number, 1);
}
