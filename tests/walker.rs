use code_grep::walker::{looks_binary, parse_duration_secs, passes_name_filters, within_age, within_size};
use code_grep::{parse_duration, parse_size, Cli};

#[test]
fn test_parse_size() {
    assert_eq!(parse_size("1024"), Some(1024));
    assert_eq!(parse_size("1K"), Some(1024));
    assert_eq!(parse_size("1M"), Some(1024 * 1024));
    assert_eq!(parse_size("1G"), Some(1024 * 1024 * 1024));
}

#[test]
fn test_parse_duration() {
    assert_eq!(parse_duration("60s"), Some(std::time::Duration::from_secs(60)));
    assert_eq!(parse_duration("1m"), Some(std::time::Duration::from_secs(60)));
    assert_eq!(parse_duration("1h"), Some(std::time::Duration::from_secs(3600)));
    assert_eq!(parse_duration("1d"), Some(std::time::Duration::from_secs(86400)));
}

#[test]
fn size_edge_cases() {
    assert_eq!(parse_size(" 2k "), Some(2048));
    assert_eq!(parse_size("+3"), Some(3));
    assert_eq!(parse_size("k"), None);
    assert_eq!(parse_size("12x"), None);
    assert_eq!(parse_size("18446744073709551615"), Some(u64::MAX));
    assert_eq!(parse_size("18446744073709551616"), None);
    assert_eq!(parse_size("18014398509481984k"), None);
}

#[test]
fn duration_edge_cases() {
    assert_eq!(parse_duration_secs("90"), Some(90));
    assert_eq!(parse_duration_secs("2H"), Some(7200));
    assert_eq!(parse_duration_secs("soon"), None);
    assert_eq!(parse_duration("x"), None);
}

#[test]
fn name_filters() {
    let cli = Cli { ext: vec!["rs".to_string()], ..Cli::default() };
    assert!(passes_name_filters(Some("rs"), &cli));
    assert!(!passes_name_filters(Some("go"), &cli));
    assert!(!passes_name_filters(None, &cli));
    let typed = Cli { types: vec!["cpp".to_string()], ..Cli::default() };
    assert!(passes_name_filters(Some("hpp"), &typed));
    assert!(!passes_name_filters(Some("c"), &typed));
    assert!(passes_name_filters(None, &Cli::default()));
}

#[test]
fn size_and_age_limits() {
    assert!(within_size(1024, Some("1k")));
    assert!(!within_size(1025, Some("1k")));
    assert!(within_size(u64::MAX, Some("nonsense")));
    assert!(within_size(5, None));
    assert!(within_age(59, 0, Some("1m")));
    assert!(within_age(60, 0, Some("1m")));
    assert!(!within_age(60, 1, Some("1m")));
}

#[test]
fn binary_detection() {
    assert!(looks_binary(&[1, 0, 2]));
    assert!(!looks_binary(b"text"));
    assert!(!looks_binary(&[]));
}
