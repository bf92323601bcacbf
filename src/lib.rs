//! A code search library: pattern matching over lines of text, heuristic
//! structural filters (comments, imports, functions, classes), per-file
//! match aggregation and a line-oriented replacement engine.

pub mod cli;
pub mod config;
pub mod engine;
pub mod matcher;
pub mod output;
pub mod parser;
pub mod replacer;
pub mod searcher;
pub mod structure;
pub mod text;
pub mod walker;

pub use cli::{Cli, ColorChoice, Commands, OutputFormat};
pub use config::{glob_match, Config, DefaultConfig, OutputConfig, PerformanceConfig, ProjectConfig};
pub use matcher::{check_regex_pattern, find_in_text, LineMatch, Match, PatternMatcher};
pub use output::{csv_quote, html_escape};
pub use parser::{ClassInfo, CodeParser, CommentInfo, CommentType, FunctionInfo, ImportInfo, ParsedCode};
pub use replacer::{batch_mode, BatchMode, Confirmation, ReplacementResult, Replacer, Response};
pub use searcher::{collect_results, search_content, FileMatch, SearchStats};
pub use walker::{parse_duration, parse_size};

use vstd::prelude::*;

verus! {

/// The errors of the library.
#[derive(Debug)]
pub enum CodeGrepError {
    Io(String),
    Regex(regex::Error),
    FancyRegex(fancy_regex::Error),
    Config(String),
    Search(String),
    Parser(String),
}

/// A result whose error is the library's own.
pub type CodeGrepResult<T> = Result<T, CodeGrepError>;

} // verus!
