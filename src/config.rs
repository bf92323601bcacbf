//! Settings that a configuration file can hold, with their defaults, and
//! the ignore-pattern check they drive.

use vstd::prelude::*;
use crate::text::{chars_of, string_of, starts_with, ends_with, same_text, has_prefix, has_suffix, views};

verus! {

/// Output settings.
#[derive(Clone, Debug)]
pub struct OutputConfig {
    pub colors: bool,
    pub line_numbers: bool,
    pub context: usize,
}

/// Performance settings.
#[derive(Clone, Debug)]
pub struct PerformanceConfig {
    pub max_threads: Option<usize>,
    pub max_memory_mb: Option<usize>,
    pub fast_mode: bool,
}

/// The settings that apply to every project. File types map a type name to
/// its extensions; the first entry of a name is the one that counts.
#[derive(Clone, Debug)]
pub struct DefaultConfig {
    pub ignore_patterns: Vec<String>,
    pub file_types: Vec<(String, Vec<String>)>,
    pub output: OutputConfig,
    pub performance: PerformanceConfig,
}

/// Settings of one project.
#[derive(Clone, Debug)]
pub struct ProjectConfig {
    pub ignore_patterns: Vec<String>,
    pub file_types: Vec<(String, Vec<String>)>,
    pub custom_rules: Vec<String>,
}

/// The whole configuration: the shared settings and the projects by name.
#[derive(Clone, Debug)]
pub struct Config {
    pub default: DefaultConfig,
    pub projects: Vec<(String, ProjectConfig)>,
}

/// The value a missing flag takes.
pub fn default_true() -> (r: bool)
    ensures
        r,
{
    true
}

/// The context a missing setting takes.
pub fn default_context() -> (r: usize)
    ensures
        r == 2,
{
    2
}

impl Default for OutputConfig {
    fn default() -> (r: OutputConfig)
        ensures
            r.colors && r.line_numbers && r.context == 2,
    {
        OutputConfig { colors: default_true(), line_numbers: default_true(), context: default_context() }
    }
}

impl Default for PerformanceConfig {
    fn default() -> (r: PerformanceConfig)
        ensures
            r.max_threads is None && r.max_memory_mb is None && r.fast_mode,
    {
        PerformanceConfig { max_threads: None, max_memory_mb: None, fast_mode: default_true() }
    }
}

/// The names of the built-in file types, in order.
pub open spec fn default_type_names() -> Seq<Seq<char>> {
    seq!["rust"@, "go"@, "javascript"@, "typescript"@, "python"@, "java"@, "c"@, "cpp"@]
}

/// The extensions of the built-in file types, in the order of their names.
pub open spec fn default_type_extensions() -> Seq<Seq<Seq<char>>> {
    seq![
        seq!["rs"@],
        seq!["go"@],
        seq!["js"@, "jsx"@],
        seq!["ts"@, "tsx"@],
        seq!["py"@, "pyw"@],
        seq!["java"@],
        seq!["c"@, "h"@],
        seq!["cpp"@, "cxx"@, "cc"@, "hpp"@],
    ]
}

/// The built-in ignore patterns, in order.
pub open spec fn default_ignores() -> Seq<Seq<char>> {
    seq!["*.log"@, "*.tmp"@, "node_modules"@, "target"@, ".git"@, "dist"@, "build"@]
}

/// A list of owned strings made from literals.
fn owned_list(items: &[&str]) -> (r: Vec<String>)
    ensures
        r@.len() == items@.len(),
        forall|i: int| 0 <= i < items@.len() ==> #[trigger] r@[i]@ == items@[i]@,
{
    let mut out: Vec<String> = Vec::new();
    let mut i: usize = 0;
    while i < items.len()
        invariant
            i <= items@.len(),
            out@.len() == i,
            forall|j: int| 0 <= j < i ==> #[trigger] out@[j]@ == items@[j]@,
        decreases items.len() - i,
    {
        out.push(items[i].to_owned());
        i = i + 1;
    }
    out
}

impl Default for DefaultConfig {
    fn default() -> (r: DefaultConfig)
        ensures
            views(r.ignore_patterns@) == default_ignores(),
            r.file_types@.len() == 8,
            forall|i: int| 0 <= i < 8 ==> #[trigger] r.file_types@[i].0@ == default_type_names()[i],
            forall|i: int| 0 <= i < 8 ==> #[trigger] views(r.file_types@[i].1@) == default_type_extensions()[i],
            r.output.colors && r.output.line_numbers && r.output.context == 2,
            r.performance.max_threads is None && r.performance.max_memory_mb is None && r.performance.fast_mode,
    {
        let mut file_types: Vec<(String, Vec<String>)> = Vec::new();
        let ghost exts = default_type_extensions();
        file_types.push(("rust".to_owned(), owned_list(&["rs"])));
        file_types.push(("go".to_owned(), owned_list(&["go"])));
        file_types.push(("javascript".to_owned(), owned_list(&["js", "jsx"])));
        file_types.push(("typescript".to_owned(), owned_list(&["ts", "tsx"])));
        file_types.push(("python".to_owned(), owned_list(&["py", "pyw"])));
        file_types.push(("java".to_owned(), owned_list(&["java"])));
        file_types.push(("c".to_owned(), owned_list(&["c", "h"])));
        file_types.push(("cpp".to_owned(), owned_list(&["cpp", "cxx", "cc", "hpp"])));
        assert forall|i: int| 0 <= i < 8 implies #[trigger] views(file_types@[i].1@) == exts[i] by {
            assert(views(file_types@[i].1@) =~= exts[i]);
        }
        let ignore_patterns = owned_list(&["*.log", "*.tmp", "node_modules", "target", ".git", "dist", "build"]);
        assert(views(ignore_patterns@) =~= default_ignores());
        DefaultConfig {
            ignore_patterns,
            file_types,
            output: OutputConfig::default(),
            performance: PerformanceConfig::default(),
        }
    }
}

impl Default for Config {
    fn default() -> (r: Config)
        ensures
            views(r.default.ignore_patterns@) == default_ignores(),
            r.default.file_types@.len() == 8,
            forall|i: int| 0 <= i < 8 ==> #[trigger] r.default.file_types@[i].0@ == default_type_names()[i],
            forall|i: int| 0 <= i < 8 ==> #[trigger] views(r.default.file_types@[i].1@) == default_type_extensions()[i],
            r.default.output.colors && r.default.output.line_numbers && r.default.output.context == 2,
            r.projects@.len() == 0,
    {
        Config { default: DefaultConfig::default(), projects: Vec::new() }
    }
}

/// `text` matches the simple glob `pattern`: a leading `*` (with more after
/// it) matches any prefix, else a trailing `*` (with more before it) any
/// suffix, else the text must equal the pattern.
pub open spec fn glob_matches(pattern: Seq<char>, text: Seq<char>) -> bool {
    if pattern.len() > 1 && pattern[0] == '*' {
        has_suffix(text, pattern.drop_first())
    } else if pattern.len() > 1 && pattern.last() == '*' {
        has_prefix(text, pattern.drop_last())
    } else {
        pattern == text
    }
}

/// Whether `text` matches the simple glob `pattern`.
pub fn glob_match(pattern: &str, text: &str) -> (r: bool)
    ensures
        r == glob_matches(pattern@, text@),
{
    let pc = chars_of(pattern);
    if pc.len() > 1 && pc[0] == '*' {
        let rest = string_of(&pc.as_slice()[1..pc.len()]);
        assert(rest@ =~= pattern@.drop_first());
        ends_with(text, rest.as_str())
    } else if pc.len() > 1 && pc[pc.len() - 1] == '*' {
        let rest = string_of(&pc.as_slice()[0..pc.len() - 1]);
        assert(rest@ =~= pattern@.drop_last());
        starts_with(text, rest.as_str())
    } else {
        same_text(pattern, text)
    }
}

impl Config {
    /// The extensions of the file type `file_type`, from its first entry.
    pub fn get_file_extensions(&self, file_type: &str) -> (r: Option<&Vec<String>>)
        ensures
            match r {
                Some(v) => exists|i: int|
                    0 <= i < self.default.file_types@.len() && #[trigger] self.default.file_types@[i].0@ == file_type@
                        && *v == self.default.file_types@[i].1 && forall|j: int|
                        0 <= j < i ==> self.default.file_types@[j].0@ != file_type@,
                None => forall|i: int|
                    0 <= i < self.default.file_types@.len() ==> #[trigger] self.default.file_types@[i].0@ != file_type@,
            },
    {
        let mut i: usize = 0;
        while i < self.default.file_types.len()
            invariant
                i <= self.default.file_types@.len(),
                forall|j: int| 0 <= j < i ==> #[trigger] self.default.file_types@[j].0@ != file_type@,
            decreases self.default.file_types.len() - i,
        {
            if same_text(self.default.file_types[i].0.as_str(), file_type) {
                return Some(&self.default.file_types[i].1);
            }
            i = i + 1;
        }
        None
    }

    /// Whether `path` matches one of the ignore patterns.
    pub fn should_ignore(&self, path: &str) -> (r: bool)
        ensures
            r == exists|i: int|
                0 <= i < self.default.ignore_patterns@.len() && glob_matches(
                    #[trigger] self.default.ignore_patterns@[i]@,
                    path@,
                ),
    {
        let mut i: usize = 0;
        while i < self.default.ignore_patterns.len()
            invariant
                i <= self.default.ignore_patterns@.len(),
                forall|j: int| 0 <= j < i ==> !glob_matches(#[trigger] self.default.ignore_patterns@[j]@, path@),
            decreases self.default.ignore_patterns.len() - i,
        {
            if glob_match(self.default.ignore_patterns[i].as_str(), path) {
                return true;
            }
            i = i + 1;
        }
        false
    }
}

} // verus!
