//! A line-oriented outline of source code: function, class, import and
//! comment lines per language family, found by keywords, not by a grammar.

use vstd::prelude::*;
use crate::CodeGrepError;
use crate::structure::{extension_of, path_extension};
use crate::text::{
    has_prefix, has_infix, trim_of, trim, starts_with, contains, first_index, find_str, substring,
    before_first, take_before, strip_trailing, strip_leading, trim_end_char, trim_char,
    split_at_char, first_word_of, first_word, lines_of, split_lines, views, opt_view, opt_is,
};

verus! {

/// A function found on one line.
#[derive(Clone, Debug)]
pub struct FunctionInfo {
    pub name: String,
    pub start_line: usize,
    pub end_line: usize,
    pub signature: String,
}

/// A class, struct or type found on one line.
#[derive(Clone, Debug)]
pub struct ClassInfo {
    pub name: String,
    pub start_line: usize,
    pub end_line: usize,
    pub methods: Vec<FunctionInfo>,
}

/// An import found on one line.
#[derive(Clone, Debug)]
pub struct ImportInfo {
    pub line: usize,
    pub module: String,
    pub items: Vec<String>,
}

/// The kind of a comment line.
#[derive(Clone, Copy, Debug, PartialEq, Eq, Structural)]
pub enum CommentType {
    SingleLine,
    MultiLine,
    Documentation,
}

/// A comment line.
#[derive(Clone, Debug)]
pub struct CommentInfo {
    pub line: usize,
    pub text: String,
    pub comment_type: CommentType,
}

/// The outline of one source text.
#[derive(Clone, Debug)]
pub struct ParsedCode {
    pub functions: Vec<FunctionInfo>,
    pub classes: Vec<ClassInfo>,
    pub imports: Vec<ImportInfo>,
    pub comments: Vec<CommentInfo>,
}

/// A function as plain values: name, first and last line, signature.
pub type FnView = (Seq<char>, nat, nat, Seq<char>);

/// A class as plain values: name, first and last line, number of methods.
pub type ClassView = (Seq<char>, nat, nat, nat);

/// An import as plain values: line, module, imported items.
pub type ImportView = (nat, Seq<char>, Seq<Seq<char>>);

/// A comment as plain values: line, text, kind.
pub type CommentView = (nat, Seq<char>, CommentType);

impl FunctionInfo {
    pub open spec fn view(&self) -> FnView {
        (self.name@, self.start_line as nat, self.end_line as nat, self.signature@)
    }
}

impl ClassInfo {
    pub open spec fn view(&self) -> ClassView {
        (self.name@, self.start_line as nat, self.end_line as nat, self.methods@.len())
    }
}

impl ImportInfo {
    pub open spec fn view(&self) -> ImportView {
        (self.line as nat, self.module@, views(self.items@))
    }
}

impl CommentInfo {
    pub open spec fn view(&self) -> CommentView {
        (self.line as nat, self.text@, self.comment_type)
    }
}

/// The items that `f` finds on the first `k` lines, in order; `f` gets a
/// line and its 1-based number.
pub open spec fn gather<T>(lines: Seq<Seq<char>>, k: int, f: spec_fn(Seq<char>, nat) -> Option<T>) -> Seq<T>
    decreases k,
{
    if k <= 0 {
        Seq::empty()
    } else {
        match f(lines[k - 1], k as nat) {
            Some(x) => gather(lines, k - 1, f).push(x),
            None => gather(lines, k - 1, f),
        }
    }
}

/// `s` from character `i` on.
pub open spec fn from_index(s: Seq<char>, i: int) -> Seq<char> {
    if 0 <= i <= s.len() {
        s.subrange(i, s.len() as int)
    } else {
        Seq::empty()
    }
}

/// A Rust function on the trimmed line `t`: the text between the first
/// `fn ` and the next `(`, trimmed.
pub open spec fn rust_function_info(t: Seq<char>, n: nat) -> Option<FnView> {
    match first_index(t, "fn "@) {
        Some(st) => {
            let after = from_index(t, st + 3);
            match first_index(after, "("@) {
                Some(pa) => Some((trim_of(after.subrange(0, pa)), n, n, trim_of(t))),
                None => None,
            }
        },
        None => None,
    }
}

/// The first word after the first occurrence of keyword `kw` in `t`.
pub open spec fn word_after(t: Seq<char>, kw: Seq<char>, n: nat) -> Option<ClassView> {
    match first_index(t, kw) {
        Some(st) => match first_word_of(from_index(t, st + kw.len())) {
            Some(w) => Some((w, n, n, 0nat)),
            None => None,
        },
        None => None,
    }
}

/// A Rust struct, enum or impl on the trimmed line `t`: the word after the
/// first of those keywords that occurs.
pub open spec fn rust_struct_info(t: Seq<char>, n: nat) -> Option<ClassView> {
    if first_index(t, "struct "@) is Some {
        word_after(t, "struct "@, n)
    } else if first_index(t, "enum "@) is Some {
        word_after(t, "enum "@, n)
    } else {
        word_after(t, "impl "@, n)
    }
}

/// A Rust `use` on the trimmed line `t`: the path without trailing `;`.
pub open spec fn rust_import_info(t: Seq<char>, n: nat) -> Option<ImportView> {
    if has_prefix(t, "use "@) {
        Some((n, trim_of(strip_trailing(from_index(t, 4), ';')), Seq::empty()))
    } else {
        None
    }
}

/// A Go function on the trimmed line `t`: the text between `func ` and the
/// next `(`, cut at its first space, trimmed.
pub open spec fn go_function_info(t: Seq<char>, n: nat) -> Option<FnView> {
    match first_index(t, "func "@) {
        Some(st) => {
            let after = from_index(t, st + 5);
            match first_index(after, "("@) {
                Some(pa) => {
                    let part = after.subrange(0, pa);
                    Some((trim_of(before_first(part, " "@)), n, n, trim_of(t)))
                },
                None => None,
            }
        },
        None => None,
    }
}

/// A Go import on the trimmed line `t`: the rest, trimmed, without quotes.
pub open spec fn go_import_info(t: Seq<char>, n: nat) -> Option<ImportView> {
    if has_prefix(t, "import "@) {
        Some((n, strip_trailing(strip_leading(trim_of(from_index(t, 7)), '"'), '"'), Seq::empty()))
    } else {
        None
    }
}

/// A script function on the trimmed line `t`: the text after the first
/// `function ` up to the next `function ` and then to the next `(`,
/// trimmed; `anonymous` where `function ` does not occur.
pub open spec fn js_function_info(t: Seq<char>, n: nat) -> Option<FnView> {
    match first_index(t, "function "@) {
        Some(st) => Some((
            trim_of(before_first(before_first(from_index(t, st + 9), "function "@), "("@)),
            n,
            n,
            trim_of(t),
        )),
        None => Some(("anonymous"@, n, n, trim_of(t))),
    }
}

/// An import statement on the trimmed line `t`: the rest, trimmed.
pub open spec fn js_import_info(t: Seq<char>, n: nat) -> Option<ImportView> {
    if has_prefix(t, "import "@) {
        Some((n, trim_of(from_index(t, 7)), Seq::empty()))
    } else {
        None
    }
}

/// A Python function on the trimmed line `t`: the text between `def ` and
/// the next `(`, trimmed.
pub open spec fn python_function_info(t: Seq<char>, n: nat) -> Option<FnView> {
    match first_index(t, "def "@) {
        Some(st) => {
            let after = from_index(t, st + 4);
            match first_index(after, "("@) {
                Some(pa) => Some((trim_of(after.subrange(0, pa)), n, n, trim_of(t))),
                None => None,
            }
        },
        None => None,
    }
}

/// A Python class on the trimmed line `t`: the text after `class ` up to
/// the first `(` and then the first `:`, trimmed.
pub open spec fn python_class_info(t: Seq<char>, n: nat) -> Option<ClassView> {
    match first_index(t, "class "@) {
        Some(st) => Some((trim_of(before_first(before_first(from_index(t, st + 6), "("@), ":"@)), n, n, 0nat)),
        None => None,
    }
}

/// A Python import on the trimmed line `t`: `import m`, or `from m import
/// a, b` with its items (the module is empty where ` import ` starts
/// before the module could).
pub open spec fn python_import_info(t: Seq<char>, n: nat) -> Option<ImportView> {
    if has_prefix(t, "import "@) {
        Some((n, trim_of(from_index(t, 7)), Seq::empty()))
    } else if has_prefix(t, "from "@) {
        match first_index(t, " import "@) {
            Some(ip) => Some((
                n,
                if ip >= 5 { trim_of(t.subrange(5, ip)) } else { Seq::empty() },
                split_at_char(from_index(t, ip + 8), ',').map_values(|p: Seq<char>| trim_of(p)),
            )),
            None => None,
        }
    } else {
        None
    }
}

/// `s` from character `i + k` on.
fn rest_from(s: &str, i: usize, k: usize) -> (r: String)
    ensures
        r@ == from_index(s@, i + k),
{
    let n = crate::text::char_count(s);
    if i <= n && k <= n - i {
        substring(s, i + k, n)
    } else {
        String::new()
    }
}

/// The outliner; it holds no state.
pub struct CodeParser;

impl CodeParser {
    pub fn new() -> (r: CodeParser) {
        CodeParser
    }

    /// A Rust function on the trimmed line `line`, numbered `line_num`.
    pub fn extract_rust_function(&self, line: &str, line_num: usize) -> (r: Option<FunctionInfo>)
        ensures
            match r {
                Some(f) => rust_function_info(line@, line_num as nat) == Some(f.view()),
                None => rust_function_info(line@, line_num as nat) is None,
            },
    {
        match find_str(line, "fn ") {
            Some(start) => {
                let after = rest_from(line, start, 3);
                match find_str(after.as_str(), "(") {
                    Some(paren) => {
                        let head = substring(after.as_str(), 0, paren);
                        Some(FunctionInfo {
                            name: trim(head.as_str()).to_owned(),
                            start_line: line_num,
                            end_line: line_num,
                            signature: trim(line).to_owned(),
                        })
                    },
                    None => None,
                }
            },
            None => None,
        }
    }

    /// The first word after keyword `kw` in `line`, as a class.
    fn class_after(&self, line: &str, kw: &str, line_num: usize) -> (r: Option<ClassInfo>)
        ensures
            match r {
                Some(c) => word_after(line@, kw@, line_num as nat) == Some(c.view()),
                None => word_after(line@, kw@, line_num as nat) is None,
            },
    {
        match find_str(line, kw) {
            Some(start) => {
                let klen = crate::text::char_count(kw);
                let after = rest_from(line, start, klen);
                match first_word(after.as_str()) {
                    Some(w) => Some(ClassInfo { name: w, start_line: line_num, end_line: line_num, methods: Vec::new() }),
                    None => None,
                }
            },
            None => None,
        }
    }

    /// A Rust struct, enum or impl on the trimmed line `line`.
    pub fn extract_rust_struct(&self, line: &str, line_num: usize) -> (r: Option<ClassInfo>)
        ensures
            match r {
                Some(c) => rust_struct_info(line@, line_num as nat) == Some(c.view()),
                None => rust_struct_info(line@, line_num as nat) is None,
            },
    {
        if find_str(line, "struct ").is_some() {
            self.class_after(line, "struct ", line_num)
        } else if find_str(line, "enum ").is_some() {
            self.class_after(line, "enum ", line_num)
        } else {
            self.class_after(line, "impl ", line_num)
        }
    }

    /// A Rust `use` on the trimmed line `line`.
    pub fn extract_rust_import(&self, line: &str, line_num: usize) -> (r: Option<ImportInfo>)
        ensures
            match r {
                Some(im) => rust_import_info(line@, line_num as nat) == Some(im.view()),
                None => rust_import_info(line@, line_num as nat) is None,
            },
    {
        if starts_with(line, "use ") {
            let rest = rest_from(line, 0, 4);
            let stripped = trim_end_char(rest.as_str(), ';');
            let items: Vec<String> = Vec::new();
            assert(views(items@) =~= Seq::<Seq<char>>::empty());
            Some(ImportInfo { line: line_num, module: trim(stripped.as_str()).to_owned(), items })
        } else {
            None
        }
    }

    /// A Go function on the trimmed line `line`.
    pub fn extract_go_function(&self, line: &str, line_num: usize) -> (r: Option<FunctionInfo>)
        ensures
            match r {
                Some(f) => go_function_info(line@, line_num as nat) == Some(f.view()),
                None => go_function_info(line@, line_num as nat) is None,
            },
    {
        match find_str(line, "func ") {
            Some(start) => {
                let after = rest_from(line, start, 5);
                match find_str(after.as_str(), "(") {
                    Some(paren) => {
                        let part = substring(after.as_str(), 0, paren);
                        let head = take_before(part.as_str(), " ");
                        Some(FunctionInfo {
                            name: trim(head.as_str()).to_owned(),
                            start_line: line_num,
                            end_line: line_num,
                            signature: trim(line).to_owned(),
                        })
                    },
                    None => None,
                }
            },
            None => None,
        }
    }

    /// A Go type on the trimmed line `line`: the word after `type `.
    pub fn extract_go_type(&self, line: &str, line_num: usize) -> (r: Option<ClassInfo>)
        ensures
            match r {
                Some(c) => word_after(line@, "type "@, line_num as nat) == Some(c.view()),
                None => word_after(line@, "type "@, line_num as nat) is None,
            },
    {
        self.class_after(line, "type ", line_num)
    }

    /// A Go import on the trimmed line `line`.
    pub fn extract_go_import(&self, line: &str, line_num: usize) -> (r: Option<ImportInfo>)
        ensures
            match r {
                Some(im) => go_import_info(line@, line_num as nat) == Some(im.view()),
                None => go_import_info(line@, line_num as nat) is None,
            },
    {
        if starts_with(line, "import ") {
            let rest = rest_from(line, 0, 7);
            let module = trim_char(trim(rest.as_str()), '"');
            let items: Vec<String> = Vec::new();
            assert(views(items@) =~= Seq::<Seq<char>>::empty());
            Some(ImportInfo { line: line_num, module, items })
        } else {
            None
        }
    }

    /// A script function on the trimmed line `line`.
    pub fn extract_js_function(&self, line: &str, line_num: usize) -> (r: Option<FunctionInfo>)
        ensures
            match r {
                Some(f) => js_function_info(line@, line_num as nat) == Some(f.view()),
                None => js_function_info(line@, line_num as nat) is None,
            },
    {
        let name = match find_str(line, "function ") {
            Some(start) => {
                let after = rest_from(line, start, 9);
                let piece = take_before(after.as_str(), "function ");
                let head = take_before(piece.as_str(), "(");
                trim(head.as_str()).to_owned()
            },
            None => "anonymous".to_owned(),
        };
        Some(FunctionInfo { name, start_line: line_num, end_line: line_num, signature: trim(line).to_owned() })
    }

    /// A class on the trimmed line `line`: the word after `class `.
    pub fn extract_js_class(&self, line: &str, line_num: usize) -> (r: Option<ClassInfo>)
        ensures
            match r {
                Some(c) => word_after(line@, "class "@, line_num as nat) == Some(c.view()),
                None => word_after(line@, "class "@, line_num as nat) is None,
            },
    {
        self.class_after(line, "class ", line_num)
    }

    /// An import statement on the trimmed line `line`.
    pub fn extract_js_import(&self, line: &str, line_num: usize) -> (r: Option<ImportInfo>)
        ensures
            match r {
                Some(im) => js_import_info(line@, line_num as nat) == Some(im.view()),
                None => js_import_info(line@, line_num as nat) is None,
            },
    {
        if starts_with(line, "import ") {
            let rest = rest_from(line, 0, 7);
            let items: Vec<String> = Vec::new();
            assert(views(items@) =~= Seq::<Seq<char>>::empty());
            Some(ImportInfo { line: line_num, module: trim(rest.as_str()).to_owned(), items })
        } else {
            None
        }
    }

    /// A Python function on the trimmed line `line`.
    pub fn extract_python_function(&self, line: &str, line_num: usize) -> (r: Option<FunctionInfo>)
        ensures
            match r {
                Some(f) => python_function_info(line@, line_num as nat) == Some(f.view()),
                None => python_function_info(line@, line_num as nat) is None,
            },
    {
        match find_str(line, "def ") {
            Some(start) => {
                let after = rest_from(line, start, 4);
                match find_str(after.as_str(), "(") {
                    Some(paren) => {
                        let head = substring(after.as_str(), 0, paren);
                        Some(FunctionInfo {
                            name: trim(head.as_str()).to_owned(),
                            start_line: line_num,
                            end_line: line_num,
                            signature: trim(line).to_owned(),
                        })
                    },
                    None => None,
                }
            },
            None => None,
        }
    }

    /// A Python class on the trimmed line `line`.
    pub fn extract_python_class(&self, line: &str, line_num: usize) -> (r: Option<ClassInfo>)
        ensures
            match r {
                Some(c) => python_class_info(line@, line_num as nat) == Some(c.view()),
                None => python_class_info(line@, line_num as nat) is None,
            },
    {
        match find_str(line, "class ") {
            Some(start) => {
                let after = rest_from(line, start, 6);
                let a = take_before(after.as_str(), "(");
                let b = take_before(a.as_str(), ":");
                Some(ClassInfo {
                    name: trim(b.as_str()).to_owned(),
                    start_line: line_num,
                    end_line: line_num,
                    methods: Vec::new(),
                })
            },
            None => None,
        }
    }

    /// A Python import on the trimmed line `line`.
    pub fn extract_python_import(&self, line: &str, line_num: usize) -> (r: Option<ImportInfo>)
        ensures
            match r {
                Some(im) => python_import_info(line@, line_num as nat) == Some(im.view()),
                None => python_import_info(line@, line_num as nat) is None,
            },
    {
        if starts_with(line, "import ") {
            let rest = rest_from(line, 0, 7);
            let items: Vec<String> = Vec::new();
            assert(views(items@) =~= Seq::<Seq<char>>::empty());
            Some(ImportInfo { line: line_num, module: trim(rest.as_str()).to_owned(), items })
        } else if starts_with(line, "from ") {
            match find_str(line, " import ") {
                Some(ip) => {
                    let module = if ip >= 5 {
                        let m = substring(line, 5, ip);
                        trim(m.as_str()).to_owned()
                    } else {
                        String::new()
                    };
                    let tail = rest_from(line, ip, 8);
                    let pieces = crate::text::split_char(tail.as_str(), ',');
                    let mut items: Vec<String> = Vec::new();
                    let mut k: usize = 0;
                    while k < pieces.len()
                        invariant
                            k <= pieces@.len(),
                            views(items@) == views(pieces@).take(k as int).map_values(|p: Seq<char>| trim_of(p)),
                        decreases pieces.len() - k,
                    {
                        let t = trim(pieces[k].as_str()).to_owned();
                        let ghost before = items@;
                        let ghost tv = t@;
                        assert(views(pieces@)[k as int] == pieces@[k as int]@);
                        items.push(t);
                        assert(views(items@) =~= views(before).push(tv));
                        assert(views(items@) =~= views(pieces@).take(k + 1).map_values(|p: Seq<char>| trim_of(p)));
                        k = k + 1;
                    }
                    assert(views(pieces@).take(pieces@.len() as int) =~= views(pieces@));
                    Some(ImportInfo { line: line_num, module, items })
                },
                None => None,
            }
        } else {
            None
        }
    }
}

/// The language families that the outliner knows.
#[derive(Clone, Copy, Debug, PartialEq, Eq, Structural)]
pub enum Family {
    Rust,
    Go,
    Script,
    Python,
    Generic,
}

/// The family of a file extension: `rs`; `go`; `js`, `ts`, `jsx`, `tsx`;
/// `py`; anything else (Java and C-like sources included) is generic.
pub open spec fn family_of(ext: Option<Seq<char>>) -> Family {
    if ext == Some("rs"@) {
        Family::Rust
    } else if ext == Some("go"@) {
        Family::Go
    } else if ext == Some("js"@) || ext == Some("ts"@) || ext == Some("jsx"@) || ext == Some("tsx"@) {
        Family::Script
    } else if ext == Some("py"@) {
        Family::Python
    } else {
        Family::Generic
    }
}

/// The function on line `l` (number `n`) for the family.
pub open spec fn function_at(fam: Family, l: Seq<char>, n: nat) -> Option<FnView> {
    let t = trim_of(l);
    match fam {
        Family::Rust => if has_prefix(t, "fn "@) || has_infix(t, " fn "@) { rust_function_info(t, n) } else { None },
        Family::Go => if has_prefix(t, "func "@) { go_function_info(t, n) } else { None },
        Family::Script => if has_prefix(t, "function "@) || has_infix(t, "function("@) || has_infix(t, "=>"@)
            || (has_infix(t, "("@) && has_infix(t, "{"@) && !has_prefix(t, "if"@) && !has_prefix(t, "for"@)) {
            js_function_info(t, n)
        } else {
            None
        },
        Family::Python => if has_prefix(t, "def "@) { python_function_info(t, n) } else { None },
        Family::Generic => if has_infix(t, "function"@) || has_prefix(t, "def "@) || has_prefix(t, "fn "@) {
            Some(("unknown"@, n, n, t))
        } else {
            None
        },
    }
}

/// The class on line `l` (number `n`) for the family.
pub open spec fn class_at(fam: Family, l: Seq<char>, n: nat) -> Option<ClassView> {
    let t = trim_of(l);
    match fam {
        Family::Rust => if has_prefix(t, "struct "@) || has_prefix(t, "enum "@) || has_prefix(t, "impl "@) {
            rust_struct_info(t, n)
        } else {
            None
        },
        Family::Go => if has_prefix(t, "type "@) && (has_infix(t, " struct"@) || has_infix(t, " interface"@)) {
            word_after(t, "type "@, n)
        } else {
            None
        },
        Family::Script => if has_prefix(t, "class "@) { word_after(t, "class "@, n) } else { None },
        Family::Python => if has_prefix(t, "class "@) { python_class_info(t, n) } else { None },
        Family::Generic => None,
    }
}

/// The import on line `l` (number `n`) for the family.
pub open spec fn import_at(fam: Family, l: Seq<char>, n: nat) -> Option<ImportView> {
    let t = trim_of(l);
    match fam {
        Family::Rust => if has_prefix(t, "use "@) || has_prefix(t, "extern crate "@) { rust_import_info(t, n) } else { None },
        Family::Go => if has_prefix(t, "import "@) { go_import_info(t, n) } else { None },
        Family::Script => if has_prefix(t, "import "@) || (has_prefix(t, "const "@) && has_infix(t, "require("@)) {
            js_import_info(t, n)
        } else {
            None
        },
        Family::Python => if has_prefix(t, "import "@) || has_prefix(t, "from "@) { python_import_info(t, n) } else { None },
        Family::Generic => None,
    }
}

/// The comment on line `l` (number `n`) for the family.
pub open spec fn comment_at(fam: Family, l: Seq<char>, n: nat) -> Option<CommentView> {
    let t = trim_of(l);
    match fam {
        Family::Rust => if has_prefix(t, "//"@) || has_prefix(t, "/*"@) || has_prefix(t, "///"@) {
            Some((n, t, if has_prefix(t, "///"@) {
                CommentType::Documentation
            } else if has_prefix(t, "/*"@) {
                CommentType::MultiLine
            } else {
                CommentType::SingleLine
            }))
        } else {
            None
        },
        Family::Go | Family::Script => if has_prefix(t, "//"@) || has_prefix(t, "/*"@) {
            Some((n, t, if has_prefix(t, "/*"@) { CommentType::MultiLine } else { CommentType::SingleLine }))
        } else {
            None
        },
        Family::Python => if has_prefix(t, "#"@) { Some((n, t, CommentType::SingleLine)) } else { None },
        Family::Generic => if has_prefix(t, "//"@) || has_prefix(t, "#"@) || has_prefix(t, "/*"@) {
            Some((n, t, CommentType::SingleLine))
        } else {
            None
        },
    }
}

/// The views of lists of outline items.
pub open spec fn function_views(v: Seq<FunctionInfo>) -> Seq<FnView> {
    v.map_values(|f: FunctionInfo| f.view())
}

pub open spec fn class_views(v: Seq<ClassInfo>) -> Seq<ClassView> {
    v.map_values(|c: ClassInfo| c.view())
}

pub open spec fn import_views(v: Seq<ImportInfo>) -> Seq<ImportView> {
    v.map_values(|i: ImportInfo| i.view())
}

pub open spec fn comment_views(v: Seq<CommentInfo>) -> Seq<CommentView> {
    v.map_values(|c: CommentInfo| c.view())
}

/// `p` is the outline of `content` for the family: every line's items, in
/// line order.
pub open spec fn outlines(p: ParsedCode, content: Seq<char>, fam: Family) -> bool {
    let ls = lines_of(content);
    &&& function_views(p.functions@) == gather(ls, ls.len() as int, |l: Seq<char>, n: nat| function_at(fam, l, n))
    &&& class_views(p.classes@) == gather(ls, ls.len() as int, |l: Seq<char>, n: nat| class_at(fam, l, n))
    &&& import_views(p.imports@) == gather(ls, ls.len() as int, |l: Seq<char>, n: nat| import_at(fam, l, n))
    &&& comment_views(p.comments@) == gather(ls, ls.len() as int, |l: Seq<char>, n: nat| comment_at(fam, l, n))
}

impl CodeParser {
    /// The function on the raw line `line` (number `n`) for the family.
    fn function_on(&self, fam: Family, line: &str, n: usize) -> (r: Option<FunctionInfo>)
        ensures
            match r {
                Some(f) => function_at(fam, line@, n as nat) == Some(f.view()),
                None => function_at(fam, line@, n as nat) is None,
            },
    {
        let t = trim(line);
        match fam {
            Family::Rust => if starts_with(t, "fn ") || contains(t, " fn ") {
                self.extract_rust_function(t, n)
            } else {
                None
            },
            Family::Go => if starts_with(t, "func ") { self.extract_go_function(t, n) } else { None },
            Family::Script => if starts_with(t, "function ") || contains(t, "function(") || contains(t, "=>")
                || (contains(t, "(") && contains(t, "{") && !starts_with(t, "if") && !starts_with(t, "for")) {
                self.extract_js_function(t, n)
            } else {
                None
            },
            Family::Python => if starts_with(t, "def ") { self.extract_python_function(t, n) } else { None },
            Family::Generic => if contains(t, "function") || starts_with(t, "def ") || starts_with(t, "fn ") {
                Some(FunctionInfo { name: "unknown".to_owned(), start_line: n, end_line: n, signature: t.to_owned() })
            } else {
                None
            },
        }
    }

    /// The class on the raw line `line` (number `n`) for the family.
    fn class_on(&self, fam: Family, line: &str, n: usize) -> (r: Option<ClassInfo>)
        ensures
            match r {
                Some(c) => class_at(fam, line@, n as nat) == Some(c.view()),
                None => class_at(fam, line@, n as nat) is None,
            },
    {
        let t = trim(line);
        match fam {
            Family::Rust => if starts_with(t, "struct ") || starts_with(t, "enum ") || starts_with(t, "impl ") {
                self.extract_rust_struct(t, n)
            } else {
                None
            },
            Family::Go => if starts_with(t, "type ") && (contains(t, " struct") || contains(t, " interface")) {
                self.extract_go_type(t, n)
            } else {
                None
            },
            Family::Script => if starts_with(t, "class ") { self.extract_js_class(t, n) } else { None },
            Family::Python => if starts_with(t, "class ") { self.extract_python_class(t, n) } else { None },
            Family::Generic => None,
        }
    }

    /// The import on the raw line `line` (number `n`) for the family.
    fn import_on(&self, fam: Family, line: &str, n: usize) -> (r: Option<ImportInfo>)
        ensures
            match r {
                Some(im) => import_at(fam, line@, n as nat) == Some(im.view()),
                None => import_at(fam, line@, n as nat) is None,
            },
    {
        let t = trim(line);
        match fam {
            Family::Rust => if starts_with(t, "use ") || starts_with(t, "extern crate ") {
                self.extract_rust_import(t, n)
            } else {
                None
            },
            Family::Go => if starts_with(t, "import ") { self.extract_go_import(t, n) } else { None },
            Family::Script => if starts_with(t, "import ") || (starts_with(t, "const ") && contains(t, "require(")) {
                self.extract_js_import(t, n)
            } else {
                None
            },
            Family::Python => if starts_with(t, "import ") || starts_with(t, "from ") {
                self.extract_python_import(t, n)
            } else {
                None
            },
            Family::Generic => None,
        }
    }

    /// The comment on the raw line `line` (number `n`) for the family.
    fn comment_on(&self, fam: Family, line: &str, n: usize) -> (r: Option<CommentInfo>)
        ensures
            match r {
                Some(c) => comment_at(fam, line@, n as nat) == Some(c.view()),
                None => comment_at(fam, line@, n as nat) is None,
            },
    {
        let t = trim(line);
        let found = match fam {
            Family::Rust => starts_with(t, "//") || starts_with(t, "/*") || starts_with(t, "///"),
            Family::Go | Family::Script => starts_with(t, "//") || starts_with(t, "/*"),
            Family::Python => starts_with(t, "#"),
            Family::Generic => starts_with(t, "//") || starts_with(t, "#") || starts_with(t, "/*"),
        };
        if !found {
            return None;
        }
        let comment_type = match fam {
            Family::Rust => if starts_with(t, "///") {
                CommentType::Documentation
            } else if starts_with(t, "/*") {
                CommentType::MultiLine
            } else {
                CommentType::SingleLine
            },
            Family::Go | Family::Script => if starts_with(t, "/*") {
                CommentType::MultiLine
            } else {
                CommentType::SingleLine
            },
            _ => CommentType::SingleLine,
        };
        Some(CommentInfo { line: n, text: t.to_owned(), comment_type })
    }

    /// The outline of `content` for the family.
    fn outline(&self, content: &str, fam: Family) -> (r: Result<ParsedCode, CodeGrepError>)
        ensures
            r matches Ok(p) && outlines(p, content@, fam),
    {
        let lines = split_lines(content);
        let ghost ls = lines_of(content@);
        let ghost ff = |l: Seq<char>, n: nat| function_at(fam, l, n);
        let ghost cf = |l: Seq<char>, n: nat| class_at(fam, l, n);
        let ghost imf = |l: Seq<char>, n: nat| import_at(fam, l, n);
        let ghost cmf = |l: Seq<char>, n: nat| comment_at(fam, l, n);
        let mut functions: Vec<FunctionInfo> = Vec::new();
        let mut classes: Vec<ClassInfo> = Vec::new();
        let mut imports: Vec<ImportInfo> = Vec::new();
        let mut comments: Vec<CommentInfo> = Vec::new();
        let mut i: usize = 0;
        while i < lines.len()
            invariant
                ls == lines_of(content@),
                views(lines@) == ls,
                i <= lines@.len(),
                ff == (|l: Seq<char>, n: nat| function_at(fam, l, n)),
                cf == (|l: Seq<char>, n: nat| class_at(fam, l, n)),
                imf == (|l: Seq<char>, n: nat| import_at(fam, l, n)),
                cmf == (|l: Seq<char>, n: nat| comment_at(fam, l, n)),
                function_views(functions@) == gather(ls, i as int, ff),
                class_views(classes@) == gather(ls, i as int, cf),
                import_views(imports@) == gather(ls, i as int, imf),
                comment_views(comments@) == gather(ls, i as int, cmf),
            decreases lines.len() - i,
        {
            assert(lines@[i as int]@ == ls[i as int]);
            let n = i + 1;
            let line = lines[i].as_str();
            match self.function_on(fam, line, n) {
                Some(f) => {
                    let ghost before = functions@;
                    functions.push(f);
                    assert(function_views(functions@) =~= function_views(before).push(f.view()));
                },
                None => {},
            }
            match self.class_on(fam, line, n) {
                Some(c) => {
                    let ghost before = classes@;
                    classes.push(c);
                    assert(class_views(classes@) =~= class_views(before).push(c.view()));
                },
                None => {},
            }
            match self.import_on(fam, line, n) {
                Some(im) => {
                    let ghost before = imports@;
                    imports.push(im);
                    assert(import_views(imports@) =~= import_views(before).push(im.view()));
                },
                None => {},
            }
            match self.comment_on(fam, line, n) {
                Some(c) => {
                    let ghost before = comments@;
                    comments.push(c);
                    assert(comment_views(comments@) =~= comment_views(before).push(c.view()));
                },
                None => {},
            }
            i = i + 1;
        }
        assert(lines@.len() == ls.len());
        Ok(ParsedCode { functions, classes, imports, comments })
    }

    fn parse_rust(&self, content: &str) -> (r: Result<ParsedCode, CodeGrepError>)
        ensures
            r matches Ok(p) && outlines(p, content@, Family::Rust),
    {
        self.outline(content, Family::Rust)
    }

    fn parse_go(&self, content: &str) -> (r: Result<ParsedCode, CodeGrepError>)
        ensures
            r matches Ok(p) && outlines(p, content@, Family::Go),
    {
        self.outline(content, Family::Go)
    }

    fn parse_javascript(&self, content: &str) -> (r: Result<ParsedCode, CodeGrepError>)
        ensures
            r matches Ok(p) && outlines(p, content@, Family::Script),
    {
        self.outline(content, Family::Script)
    }

    fn parse_python(&self, content: &str) -> (r: Result<ParsedCode, CodeGrepError>)
        ensures
            r matches Ok(p) && outlines(p, content@, Family::Python),
    {
        self.outline(content, Family::Python)
    }

    fn parse_generic(&self, content: &str) -> (r: Result<ParsedCode, CodeGrepError>)
        ensures
            r matches Ok(p) && outlines(p, content@, Family::Generic),
    {
        self.outline(content, Family::Generic)
    }

    /// The outline of `content`, in the family given by the extension of
    /// `path`. It never fails.
    pub fn parse(&self, content: &str, path: &str) -> (r: Result<ParsedCode, CodeGrepError>)
        ensures
            r matches Ok(p) && outlines(p, content@, family_of(extension_of(path@))),
    {
        let ext = path_extension(path);
        let e: Option<&str> = match &ext {
            Some(x) => Some(x.as_str()),
            None => None,
        };
        assert(opt_view(e) == extension_of(path@));
        if opt_is(e, "rs") {
            self.parse_rust(content)
        } else if opt_is(e, "go") {
            self.parse_go(content)
        } else if opt_is(e, "js") || opt_is(e, "ts") || opt_is(e, "jsx") || opt_is(e, "tsx") {
            self.parse_javascript(content)
        } else if opt_is(e, "py") {
            self.parse_python(content)
        } else {
            self.parse_generic(content)
        }
    }
}

} // verus!
