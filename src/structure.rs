//! Heuristic structural classification of source lines: comments, imports,
//! function declarations, and whether a line lies inside a named function
//! or class. These are keyword and brace-count approximations, not a parser.

use vstd::prelude::*;
use crate::text::{
    has_prefix, has_suffix, has_infix, trim_of, trim, starts_with, ends_with, contains, opt_view,
    opt_is, count_char, count_occurrences, views,
};

verus! {

/// The name of what `Path::extension` gives for a path, as text.
pub uninterp spec fn extension_of(path: Seq<char>) -> Option<Seq<char>>;

/// Relies on `std::path::Path::extension`: the extension of the path's
/// last component, if it has one.
#[verifier::external_body]
pub fn path_extension(path: &str) -> (r: Option<String>)
    ensures
        match r {
            Some(e) => extension_of(path@) == Some(e@),
            None => extension_of(path@) is None,
        },
{
    std::path::Path::new(path).extension().and_then(|e| e.to_str()).map(|e| e.to_string())
}

/// The extension is `e`.
pub open spec fn ext_eq(ext: Option<Seq<char>>, e: &str) -> bool {
    ext == Some(e@)
}

/// Languages whose comments start with `//` or `/*`.
pub open spec fn slash_comment_lang(ext: Option<Seq<char>>) -> bool {
    ext_eq(ext, "rs") || ext_eq(ext, "js") || ext_eq(ext, "ts") || ext_eq(ext, "go") || ext_eq(ext, "java")
        || ext_eq(ext, "c") || ext_eq(ext, "cpp")
}

/// Languages whose comments start with `#`.
pub open spec fn hash_comment_lang(ext: Option<Seq<char>>) -> bool {
    ext_eq(ext, "py") || ext_eq(ext, "rb") || ext_eq(ext, "sh")
}

/// A trimmed line `t` is a comment line.
pub open spec fn comment_text(t: Seq<char>, ext: Option<Seq<char>>) -> bool {
    if slash_comment_lang(ext) {
        has_prefix(t, "//"@) || has_prefix(t, "/*"@) || has_suffix(t, "*/"@)
    } else if hash_comment_lang(ext) {
        has_prefix(t, "#"@)
    } else {
        has_prefix(t, "#"@) || has_prefix(t, "//"@)
    }
}

/// A trimmed line `t` is an import line.
pub open spec fn import_text(t: Seq<char>, ext: Option<Seq<char>>) -> bool {
    if ext_eq(ext, "rs") {
        has_prefix(t, "use "@) || has_prefix(t, "extern crate"@)
    } else if ext_eq(ext, "go") {
        has_prefix(t, "import "@)
    } else if ext_eq(ext, "js") || ext_eq(ext, "ts") {
        has_prefix(t, "import "@) || (has_prefix(t, "const "@) && has_infix(t, "require("@))
    } else if ext_eq(ext, "py") {
        has_prefix(t, "import "@) || has_prefix(t, "from "@)
    } else if ext_eq(ext, "java") {
        has_prefix(t, "import "@)
    } else {
        has_infix(t, "import"@) || has_infix(t, "require"@)
    }
}

/// A trimmed line `t` declares a function.
pub open spec fn function_text(t: Seq<char>, ext: Option<Seq<char>>) -> bool {
    if ext_eq(ext, "rs") {
        has_prefix(t, "fn "@) || has_infix(t, " fn "@)
    } else if ext_eq(ext, "go") {
        has_prefix(t, "func "@)
    } else if ext_eq(ext, "js") || ext_eq(ext, "ts") {
        has_prefix(t, "function "@) || has_infix(t, "function("@) || has_infix(t, "=> "@)
            || (has_infix(t, "("@) && has_infix(t, "{"@) && !has_prefix(t, "if"@) && !has_prefix(t, "for"@))
    } else if ext_eq(ext, "py") {
        has_prefix(t, "def "@)
    } else if ext_eq(ext, "java") {
        (has_infix(t, "public "@) || has_infix(t, "private "@) || has_infix(t, "protected "@))
            && has_infix(t, "("@) && has_infix(t, ")"@)
    } else {
        has_infix(t, "function"@) || has_prefix(t, "def "@)
    }
}

/// Whether the trimmed line `t` is a comment line.
pub fn is_comment_text(t: &str, ext: Option<&str>) -> (r: bool)
    ensures
        r == comment_text(t@, opt_view(ext)),
{
    if opt_is(ext, "rs") || opt_is(ext, "js") || opt_is(ext, "ts") || opt_is(ext, "go")
        || opt_is(ext, "java") || opt_is(ext, "c") || opt_is(ext, "cpp") {
        starts_with(t, "//") || starts_with(t, "/*") || ends_with(t, "*/")
    } else if opt_is(ext, "py") || opt_is(ext, "rb") || opt_is(ext, "sh") {
        starts_with(t, "#")
    } else {
        starts_with(t, "#") || starts_with(t, "//")
    }
}

/// Whether the trimmed line `t` is an import line.
pub fn is_import_text(t: &str, ext: Option<&str>) -> (r: bool)
    ensures
        r == import_text(t@, opt_view(ext)),
{
    if opt_is(ext, "rs") {
        starts_with(t, "use ") || starts_with(t, "extern crate")
    } else if opt_is(ext, "go") {
        starts_with(t, "import ")
    } else if opt_is(ext, "js") || opt_is(ext, "ts") {
        starts_with(t, "import ") || (starts_with(t, "const ") && contains(t, "require("))
    } else if opt_is(ext, "py") {
        starts_with(t, "import ") || starts_with(t, "from ")
    } else if opt_is(ext, "java") {
        starts_with(t, "import ")
    } else {
        contains(t, "import") || contains(t, "require")
    }
}

/// Whether the trimmed line `t` declares a function.
pub fn is_function_text(t: &str, ext: Option<&str>) -> (r: bool)
    ensures
        r == function_text(t@, opt_view(ext)),
{
    if opt_is(ext, "rs") {
        starts_with(t, "fn ") || contains(t, " fn ")
    } else if opt_is(ext, "go") {
        starts_with(t, "func ")
    } else if opt_is(ext, "js") || opt_is(ext, "ts") {
        starts_with(t, "function ") || contains(t, "function(") || contains(t, "=> ")
            || (contains(t, "(") && contains(t, "{") && !starts_with(t, "if") && !starts_with(t, "for"))
    } else if opt_is(ext, "py") {
        starts_with(t, "def ")
    } else if opt_is(ext, "java") {
        (contains(t, "public ") || contains(t, "private ") || contains(t, "protected "))
            && contains(t, "(") && contains(t, ")")
    } else {
        contains(t, "function") || starts_with(t, "def ")
    }
}

/// Whether `line` is a comment line, judged on its trimmed text.
pub fn is_comment_line(line: &str, ext: Option<&str>) -> (r: bool)
    ensures
        r == comment_text(trim_of(line@), opt_view(ext)),
{
    is_comment_text(trim(line), ext)
}

/// Whether `line` is an import line, judged on its trimmed text.
pub fn is_import_line(line: &str, ext: Option<&str>) -> (r: bool)
    ensures
        r == import_text(trim_of(line@), opt_view(ext)),
{
    is_import_text(trim(line), ext)
}

/// Whether `line` declares a function, judged on its trimmed text.
pub fn is_function_line(line: &str, ext: Option<&str>) -> (r: bool)
    ensures
        r == function_text(trim_of(line@), opt_view(ext)),
{
    is_function_text(trim(line), ext)
}

/// Line `l` opens the scope named `name`: its trimmed text declares a
/// function (for a class: starts with `class `) and contains the name.
pub open spec fn declares(l: Seq<char>, name: Seq<char>, ext: Option<Seq<char>>, class: bool) -> bool {
    &&& if class {
        has_prefix(trim_of(l), "class "@)
    } else {
        function_text(trim_of(l), ext)
    }
    &&& has_infix(trim_of(l), name)
}

/// The index of the nearest line at or above `k` that opens the scope, or
/// -1 if none does.
pub open spec fn nearest_decl(lines: Seq<Seq<char>>, k: int, name: Seq<char>, ext: Option<Seq<char>>, class: bool) -> int
    decreases k + 1,
{
    if k < 0 {
        -1
    } else if declares(lines[k], name, ext, class) {
        k
    } else {
        nearest_decl(lines, k - 1, name, ext, class)
    }
}

/// The number of `c` characters on lines `i..j`.
pub open spec fn count_in_lines(lines: Seq<Seq<char>>, i: int, j: int, c: char) -> nat
    decreases j - i,
{
    if j <= i {
        0
    } else {
        count_in_lines(lines, i, j - 1, c) + count_char(lines[j - 1], c)
    }
}

/// Line `n` lies inside the scope named `name`: some line at or above it
/// opens the scope, and from the nearest such line down to line `n` more
/// `{` than `}` occur (raw characters, strings and comments included).
pub open spec fn inside_scope(lines: Seq<Seq<char>>, n: int, name: Seq<char>, ext: Option<Seq<char>>, class: bool) -> bool {
    let d = nearest_decl(lines, n, name, ext, class);
    d >= 0 && count_in_lines(lines, d, n + 1, '{') > count_in_lines(lines, d, n + 1, '}')
}

/// Whether more `{` than `}` occur on lines `from..=to`.
fn braces_open(lines: &Vec<String>, from: usize, to: usize) -> (r: bool)
    requires
        from <= to < lines@.len(),
    ensures
        r == (count_in_lines(views(lines@), from as int, to + 1, '{') > count_in_lines(
            views(lines@),
            from as int,
            to + 1,
            '}',
        )),
{
    let ghost ls = views(lines@);
    let n = lines.len();
    let mut opens: u128 = 0;
    let mut closes: u128 = 0;
    let mut j: usize = from;
    while j <= to
        invariant
            ls == views(lines@),
            from <= j <= to + 1,
            to < n,
            n == lines@.len(),
            opens == count_in_lines(ls, from as int, j as int, '{'),
            closes == count_in_lines(ls, from as int, j as int, '}'),
            opens <= (j - from) * 18446744073709551615u128,
            closes <= (j - from) * 18446744073709551615u128,
        decreases to + 1 - j,
    {
        assert(lines@[j as int]@ == ls[j as int]);
        let o = count_occurrences(lines[j].as_str(), '{');
        let c = count_occurrences(lines[j].as_str(), '}');
        opens = opens + o as u128;
        closes = closes + c as u128;
        j = j + 1;
    }
    opens > closes
}

/// Whether line `line_num` lies inside the scope named `name`.
fn scope_contains(lines: &Vec<String>, line_num: usize, name: &str, ext: Option<&str>, class: bool) -> (r: bool)
    requires
        line_num < lines@.len(),
    ensures
        r == inside_scope(views(lines@), line_num as int, name@, opt_view(ext), class),
{
    let ghost ls = views(lines@);
    let n = lines.len();
    assert(line_num < n);
    let mut k: usize = line_num + 1;
    while k > 0
        invariant
            ls == views(lines@),
            k <= line_num + 1,
            line_num < lines@.len(),
            nearest_decl(ls, line_num as int, name@, opt_view(ext), class) == nearest_decl(
                ls,
                k - 1,
                name@,
                opt_view(ext),
                class,
            ),
        decreases k,
    {
        let idx = k - 1;
        assert(lines@[idx as int]@ == ls[idx as int]);
        let t = trim(lines[idx].as_str());
        let shaped = if class {
            starts_with(t, "class ")
        } else {
            is_function_text(t, ext)
        };
        if shaped && contains(t, name) {
            assert(declares(ls[idx as int], name@, opt_view(ext), class));
            return braces_open(lines, idx, line_num);
        }
        assert(!declares(ls[idx as int], name@, opt_view(ext), class));
        k = idx;
    }
    false
}

/// Whether line `line_num` of `lines` lies inside the function named
/// `name`: the nearest declaration at or above it that mentions the name
/// opens more braces than close down to that line.
pub fn is_in_function(line_num: usize, lines: &Vec<String>, name: &str, ext: Option<&str>) -> (r: bool)
    requires
        line_num < lines@.len(),
    ensures
        r == inside_scope(views(lines@), line_num as int, name@, opt_view(ext), false),
{
    scope_contains(lines, line_num, name, ext, false)
}

/// Whether line `line_num` of `lines` lies inside the class named `name`:
/// the nearest `class ` line at or above it that mentions the name opens
/// more braces than close down to that line.
pub fn is_in_class(line_num: usize, lines: &Vec<String>, name: &str) -> (r: bool)
    requires
        line_num < lines@.len(),
    ensures
        r == inside_scope(views(lines@), line_num as int, name@, None, true),
{
    scope_contains(lines, line_num, name, None, true)
}

} // verus!
