//! The search options, as plain values.

use vstd::prelude::*;

verus! {

/// How results are rendered.
#[derive(Clone, Copy, Debug, PartialEq, Eq, Structural)]
pub enum OutputFormat {
    Text,
    Json,
    Csv,
    Xml,
}

/// When results are colored.
#[derive(Clone, Copy, Debug, PartialEq, Eq, Structural)]
pub enum ColorChoice {
    Auto,
    Always,
    Never,
}

/// Subcommands beside a plain search.
#[derive(Clone, Debug)]
pub enum Commands {
    Config { path: Option<String>, default: bool },
    Benchmark { pattern: String, path: Option<String>, iterations: usize },
    LangHelp { language: Option<String> },
}

/// Every option of a search run.
#[derive(Clone, Debug)]
pub struct Cli {
    pub pattern: Option<String>,
    pub paths: Vec<String>,
    pub regex: bool,
    pub fancy_regex: bool,
    pub case_sensitive: bool,
    pub word_boundary: bool,
    pub literal: bool,
    pub types: Vec<String>,
    pub ext: Vec<String>,
    pub ignore: Vec<String>,
    pub respect_gitignore: bool,
    pub hidden: bool,
    pub binary: bool,
    pub max_filesize: Option<String>,
    pub max_depth: Option<usize>,
    pub modified_within: Option<String>,
    pub replace: Option<String>,
    pub preview: bool,
    pub interactive: bool,
    pub write: bool,
    pub line_numbers: bool,
    pub context: usize,
    pub before_context: Option<usize>,
    pub after_context: Option<usize>,
    pub output: OutputFormat,
    pub color: ColorChoice,
    pub files_only: bool,
    pub count_only: bool,
    pub stats_only: bool,
    pub threads: Option<usize>,
    pub max_memory: Option<String>,
    pub fast: bool,
    pub thorough: bool,
    pub functions: bool,
    pub in_function: Option<String>,
    pub in_class: Option<String>,
    pub in_scope: Vec<String>,
    pub imports_only: bool,
    pub comments_only: bool,
    pub and: Vec<String>,
    pub or: Vec<String>,
    pub pattern_file: Option<String>,
    pub lang_rules: Option<String>,
    pub output_filter: Option<String>,
    pub config: Option<String>,
    pub interactive_mode: bool,
    pub fuzzy: bool,
    pub live: bool,
    pub check_regex: Option<String>,
    pub command: Option<Commands>,
}

impl Default for Cli {
    fn default() -> (r: Cli)
        ensures
            r.pattern is None,
            r.paths@.len() == 0,
            !r.regex && !r.fancy_regex && !r.case_sensitive && !r.word_boundary && !r.literal,
            r.types@.len() == 0 && r.ext@.len() == 0 && r.ignore@.len() == 0,
            r.respect_gitignore && !r.hidden && !r.binary,
            r.max_filesize is None && r.max_depth is None && r.modified_within is None,
            r.replace is None && !r.preview && !r.interactive && !r.write,
            !r.line_numbers && r.context == 0,
            r.before_context is None && r.after_context is None,
            r.output == OutputFormat::Text && r.color == ColorChoice::Auto,
            !r.files_only && !r.count_only && !r.stats_only,
            r.threads is None && r.max_memory is None && !r.fast && !r.thorough,
            !r.functions && r.in_function is None && r.in_class is None && r.in_scope@.len() == 0,
            !r.imports_only && !r.comments_only,
            r.and@.len() == 0 && r.or@.len() == 0,
            r.pattern_file is None && r.lang_rules is None && r.output_filter is None,
            r.config is None,
            !r.interactive_mode && !r.fuzzy && !r.live,
            r.check_regex is None && r.command is None,
    {
        Cli {
            pattern: None,
            paths: Vec::new(),
            regex: false,
            fancy_regex: false,
            case_sensitive: false,
            word_boundary: false,
            literal: false,
            types: Vec::new(),
            ext: Vec::new(),
            ignore: Vec::new(),
            respect_gitignore: true,
            hidden: false,
            binary: false,
            max_filesize: None,
            max_depth: None,
            modified_within: None,
            replace: None,
            preview: false,
            interactive: false,
            write: false,
            line_numbers: false,
            context: 0,
            before_context: None,
            after_context: None,
            output: OutputFormat::Text,
            color: ColorChoice::Auto,
            files_only: false,
            count_only: false,
            stats_only: false,
            threads: None,
            max_memory: None,
            fast: false,
            thorough: false,
            functions: false,
            in_function: None,
            in_class: None,
            in_scope: Vec::new(),
            imports_only: false,
            comments_only: false,
            and: Vec::new(),
            or: Vec::new(),
            pattern_file: None,
            lang_rules: None,
            output_filter: None,
            config: None,
            interactive_mode: false,
            fuzzy: false,
            live: false,
            check_regex: None,
            command: None,
        }
    }
}

impl Cli {
    /// Whether any structural filter is requested.
    pub open spec fn spec_is_structured_search(&self) -> bool {
        self.functions || self.in_function is Some || self.in_class is Some
            || self.in_scope@.len() > 0 || self.imports_only || self.comments_only
    }

    /// The context lines before and after a match: the specific settings
    /// where given, else the shared one.
    pub fn effective_context(&self) -> (r: (usize, usize))
        ensures
            r.0 == match self.before_context {
                Some(b) => b,
                None => self.context,
            },
            r.1 == match self.after_context {
                Some(a) => a,
                None => self.context,
            },
    {
        let before = match self.before_context {
            Some(b) => b,
            None => self.context,
        };
        let after = match self.after_context {
            Some(a) => a,
            None => self.context,
        };
        (before, after)
    }

    /// Whether a replacement template was given.
    pub fn has_replacement(&self) -> (r: bool)
        ensures
            r == self.replace is Some,
    {
        self.replace.is_some()
    }

    /// Whether output is colored, given whether the terminal supports color.
    pub fn should_use_color(&self, terminal_supports_color: bool) -> (r: bool)
        ensures
            r == match self.color {
                ColorChoice::Always => true,
                ColorChoice::Never => false,
                ColorChoice::Auto => terminal_supports_color,
            },
    {
        match self.color {
            ColorChoice::Always => true,
            ColorChoice::Never => false,
            ColorChoice::Auto => terminal_supports_color,
        }
    }

    /// Whether any structural filter is requested.
    pub fn is_structured_search(&self) -> (r: bool)
        ensures
            r == self.spec_is_structured_search(),
    {
        self.functions || self.in_function.is_some() || self.in_class.is_some()
            || !self.in_scope.is_empty() || self.imports_only || self.comments_only
    }

    /// The worker count: the setting where given, else the machine's.
    pub fn effective_threads(&self, available: usize) -> (r: usize)
        ensures
            r == match self.threads {
                Some(t) => t,
                None => available,
            },
    {
        match self.threads {
            Some(t) => t,
            None => available,
        }
    }
}

} // verus!
