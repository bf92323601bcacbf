use code_grep::{Cli, ColorChoice};

#[test]
fn context_settings() {
    let cli = Cli { context: 3, before_context: Some(1), ..Cli::default() };
    assert_eq!(cli.effective_context(), (1, 3));
    assert!(!cli.has_replacement());
    assert!(Cli { replace: Some("x".to_string()), ..Cli::default() }.has_replacement());
}

#[test]
fn structured_search_flags() {
    assert!(!Cli::default().is_structured_search());
    assert!(Cli { in_class: Some("A".to_string()), ..Cli::default() }.is_structured_search());
    assert!(Cli { in_scope: vec!["x".to_string()], ..Cli::default() }.is_structured_search());
}

#[test]
fn color_and_threads() {
    let never = Cli { color: ColorChoice::Never, ..Cli::default() };
    assert!(!never.should_use_color(true));
    assert!(Cli::default().should_use_color(true));
    assert!(!Cli::default().should_use_color(false));
    assert_eq!(Cli { threads: Some(2), ..Cli::default() }.effective_threads(8), 2);
    assert_eq!(Cli::default().effective_threads(8), 8);
}
