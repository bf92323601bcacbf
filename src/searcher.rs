//! Searching the content of one file, and aggregating the results of many.

use vstd::prelude::*;
use crate::cli::Cli;
use crate::matcher::{LineMatch, PatternMatcher, spans_of, reports};
use crate::structure::{
    inside_scope, function_text, import_text, comment_text, extension_of, path_extension,
    is_in_class, is_in_function, is_function_line, is_import_line, is_comment_line,
};
use crate::text::{trim_of, views, lines_of, split_lines, opt_view, lex_lt, text_lt, lemma_lex_lt_transitive};

verus! {

/// The matches found in one file.
#[derive(Clone, Debug)]
pub struct FileMatch {
    pub path: String,
    pub line_matches: Vec<LineMatch>,
    pub total_matches: usize,
}

/// The number of matches over all the line records.
pub open spec fn match_total(lms: Seq<LineMatch>) -> nat
    decreases lms.len(),
{
    if lms.len() == 0 {
        0
    } else {
        match_total(lms.drop_last()) + lms.last().matches@.len()
    }
}

/// `n`, or the largest `usize` where `n` is larger.
pub open spec fn capped(n: nat) -> nat {
    if n > usize::MAX {
        usize::MAX as nat
    } else {
        n
    }
}

impl FileMatch {
    /// The record of `path` with these line records; the total counts their
    /// matches (held at the largest `usize` should it ever exceed it).
    pub fn new(path: String, line_matches: Vec<LineMatch>) -> (r: FileMatch)
        ensures
            r.path == path,
            r.line_matches == line_matches,
            r.total_matches == capped(match_total(line_matches@)),
    {
        let mut total: usize = 0;
        let mut i: usize = 0;
        while i < line_matches.len()
            invariant
                i <= line_matches@.len(),
                total == capped(match_total(line_matches@.take(i as int))),
            decreases line_matches.len() - i,
        {
            assert(line_matches@.take(i + 1).drop_last() =~= line_matches@.take(i as int));
            total = total.saturating_add(line_matches[i].matches.len());
            i = i + 1;
        }
        assert(line_matches@.take(line_matches@.len() as int) =~= line_matches@);
        FileMatch { path, line_matches, total_matches: total }
    }

    /// Whether the file has at least one match.
    pub fn has_matches(&self) -> (r: bool)
        ensures
            r == (self.total_matches > 0),
    {
        self.total_matches > 0
    }
}

/// Line `i` of `lines` passes the structural filters of `cli`: every one
/// that is set (comments, imports, functions, named function, named class)
/// holds of it.
pub open spec fn keeps(lines: Seq<Seq<char>>, i: int, ext: Option<Seq<char>>, cli: Cli) -> bool {
    &&& cli.comments_only ==> comment_text(trim_of(lines[i]), ext)
    &&& cli.imports_only ==> import_text(trim_of(lines[i]), ext)
    &&& cli.functions ==> function_text(trim_of(lines[i]), ext)
    &&& match cli.in_function {
        Some(f) => inside_scope(lines, i, f@, ext, false),
        None => true,
    }
    &&& match cli.in_class {
        Some(c) => inside_scope(lines, i, c@, None, true),
        None => true,
    }
}

/// Line `i` is searched: no structural filter is set, or it passes them.
pub open spec fn searched(lines: Seq<Seq<char>>, i: int, ext: Option<Seq<char>>, cli: Cli) -> bool {
    !cli.spec_is_structured_search() || keeps(lines, i, ext, cli)
}

/// The indices below `n` of the searched lines where `m` finds a match.
pub open spec fn kept_hits_below(m: PatternMatcher, lines: Seq<Seq<char>>, n: int, ext: Option<Seq<char>>, cli: Cli) -> Seq<int>
    decreases n,
{
    if n <= 0 {
        Seq::empty()
    } else if searched(lines, n - 1, ext, cli) && spans_of(m, lines[n - 1]).len() > 0 {
        kept_hits_below(m, lines, n - 1, ext, cli).push(n - 1)
    } else {
        kept_hits_below(m, lines, n - 1, ext, cli)
    }
}

/// Whether line `i` of `lines` passes the structural filters of `cli`.
pub fn keep_line(lines: &Vec<String>, i: usize, ext: Option<&str>, cli: &Cli) -> (r: bool)
    requires
        i < lines@.len(),
    ensures
        r == keeps(views(lines@), i as int, opt_view(ext), *cli),
{
    assert(lines@[i as int]@ == views(lines@)[i as int]);
    if cli.comments_only && !is_comment_line(lines[i].as_str(), ext) {
        return false;
    }
    if cli.imports_only && !is_import_line(lines[i].as_str(), ext) {
        return false;
    }
    if cli.functions && !is_function_line(lines[i].as_str(), ext) {
        return false;
    }
    let in_function = match &cli.in_function {
        Some(f) => is_in_function(i, lines, f.as_str(), ext),
        None => true,
    };
    if !in_function {
        return false;
    }
    match &cli.in_class {
        Some(c) => is_in_class(i, lines, c.as_str()),
        None => true,
    }
}

/// The record of one file's `content`: every searched line where the
/// pattern matches, numbered as in the file (structural filters leave out
/// lines but never renumber the rest). The language comes from the path's
/// extension as `ext`.
pub fn search_lines(path: &str, content: &str, ext: Option<&str>, matcher: &PatternMatcher, cli: &Cli) -> (r: FileMatch)
    ensures
        r.path@ == path@,
        reports(
            r.line_matches@,
            *matcher,
            lines_of(content@),
            kept_hits_below(*matcher, lines_of(content@), lines_of(content@).len() as int, opt_view(ext), *cli),
        ),
        r.total_matches == capped(match_total(r.line_matches@)),
{
    let lines = split_lines(content);
    let ghost ls = lines_of(content@);
    let ghost e = opt_view(ext);
    let structured = cli.is_structured_search();
    let mut out: Vec<LineMatch> = Vec::new();
    let mut i: usize = 0;
    while i < lines.len()
        invariant
            ls == lines_of(content@),
            views(lines@) == ls,
            e == opt_view(ext),
            structured == cli.spec_is_structured_search(),
            i <= lines.len(),
            reports(out@, *matcher, ls, kept_hits_below(*matcher, ls, i as int, e, *cli)),
        decreases lines.len() - i,
    {
        assert(lines@[i as int]@ == ls[i as int]);
        let wanted = !structured || keep_line(&lines, i, ext, cli);
        if wanted {
            let found = matcher.find_matches(lines[i].as_str());
            if found.len() > 0 {
                let ghost before = out@;
                let text_copy = lines[i].clone();
                out.push(LineMatch::new(i + 1, text_copy, found));
                proof {
                    let idx = kept_hits_below(*matcher, ls, i + 1, e, *cli);
                    let old_idx = kept_hits_below(*matcher, ls, i as int, e, *cli);
                    assert(idx == old_idx.push(i as int));
                    assert forall|k: int| 0 <= k < out@.len() implies #[trigger] crate::matcher::line_match_is(out@[k], *matcher, ls, idx[k]) by {
                        if k < before.len() {
                            assert(out@[k] == before[k]);
                            assert(crate::matcher::line_match_is(before[k], *matcher, ls, old_idx[k]));
                        }
                    }
                }
            }
        }
        i = i + 1;
    }
    assert(lines@.len() == ls.len());
    FileMatch::new(path.to_owned(), out)
}

/// The record of one file's `content`, the language taken from the
/// extension of `path`.
pub fn search_content(path: &str, content: &str, matcher: &PatternMatcher, cli: &Cli) -> (r: FileMatch)
    ensures
        r.path@ == path@,
        reports(
            r.line_matches@,
            *matcher,
            lines_of(content@),
            kept_hits_below(*matcher, lines_of(content@), lines_of(content@).len() as int, extension_of(path@), *cli),
        ),
        r.total_matches == capped(match_total(r.line_matches@)),
{
    let ext = path_extension(path);
    match &ext {
        Some(e) => search_lines(path, content, Some(e.as_str()), matcher, cli),
        None => search_lines(path, content, None, matcher, cli),
    }
}

/// Counters of a search run, taken once all files are done.
#[derive(Debug)]
pub struct SearchStats {
    pub files_searched: usize,
    pub files_with_matches: usize,
    pub total_matches: usize,
    pub total_lines: usize,
    pub elapsed_time: std::time::Duration,
}

impl SearchStats {
    pub fn new(
        files_searched: usize,
        files_with_matches: usize,
        total_matches: usize,
        total_lines: usize,
        elapsed_time: std::time::Duration,
    ) -> (r: SearchStats)
        ensures
            r.files_searched == files_searched,
            r.files_with_matches == files_with_matches,
            r.total_matches == total_matches,
            r.total_lines == total_lines,
            r.elapsed_time == elapsed_time,
    {
        SearchStats { files_searched, files_with_matches, total_matches, total_lines, elapsed_time }
    }
}

/// How many of the outcomes are records (files that could be read).
pub open spec fn read_count(o: Seq<Option<FileMatch>>) -> nat
    decreases o.len(),
{
    if o.len() == 0 {
        0
    } else {
        read_count(o.drop_last()) + if o.last() is Some { 1nat } else { 0nat }
    }
}

/// The records with at least one match, in the order of the outcomes.
pub open spec fn matched(o: Seq<Option<FileMatch>>) -> Seq<FileMatch>
    decreases o.len(),
{
    if o.len() == 0 {
        Seq::empty()
    } else {
        match o.last() {
            Some(f) => if f.total_matches > 0 {
                matched(o.drop_last()).push(f)
            } else {
                matched(o.drop_last())
            },
            None => matched(o.drop_last()),
        }
    }
}

/// The sum of the records' match totals.
pub open spec fn sum_matches(fs: Seq<FileMatch>) -> nat
    decreases fs.len(),
{
    if fs.len() == 0 {
        0
    } else {
        sum_matches(fs.drop_last()) + fs.last().total_matches as nat
    }
}

/// The sum of the records' matching line counts.
pub open spec fn sum_lines(fs: Seq<FileMatch>) -> nat
    decreases fs.len(),
{
    if fs.len() == 0 {
        0
    } else {
        sum_lines(fs.drop_last()) + fs.last().line_matches@.len()
    }
}

/// The records are in ascending order of path.
pub open spec fn sorted_by_path(fs: Seq<FileMatch>) -> bool {
    forall|i: int, j: int| 0 <= i < j < fs.len() ==> !lex_lt(#[trigger] fs[j].path@, #[trigger] fs[i].path@)
}

/// `fs` with `f` placed after every record whose path is not after its
/// own: a stable insertion into a list sorted by path.
fn insert_by_path(fs: &mut Vec<FileMatch>, f: FileMatch)
    requires
        sorted_by_path(old(fs)@),
    ensures
        sorted_by_path(final(fs)@),
        final(fs)@.to_multiset() == old(fs)@.to_multiset().insert(f),
{
    let mut pos: usize = 0;
    let mut stop = false;
    while pos < fs.len() && !stop
        invariant
            pos <= fs@.len(),
            fs@ == old(fs)@,
            stop ==> pos < fs@.len() && lex_lt(f.path@, fs@[pos as int].path@),
            forall|k: int| 0 <= k < pos ==> !lex_lt(f.path@, #[trigger] fs@[k].path@),
        decreases fs.len() - pos, if stop { 0int } else { 1int },
    {
        if text_lt(f.path.as_str(), fs[pos].path.as_str()) {
            stop = true;
        } else {
            pos = pos + 1;
        }
    }
    let ghost before = fs@;
    proof {
        vstd::seq_lib::to_multiset_insert(before, pos as int, f);
    }
    fs.insert(pos, f);
    assert forall|i: int, j: int| 0 <= i < j < fs@.len() implies !lex_lt(#[trigger] fs@[j].path@, #[trigger] fs@[i].path@) by {
        if i < pos && j < pos {
            assert(fs@[i] == before[i] && fs@[j] == before[j]);
        } else if i > pos {
            assert(fs@[i] == before[i - 1] && fs@[j] == before[j - 1]);
        } else if i < pos && j == pos {
            assert(fs@[i] == before[i] && fs@[j] == f);
            assert(!lex_lt(f.path@, before[i].path@));
        } else if i < pos && j > pos {
            assert(fs@[i] == before[i] && fs@[j] == before[j - 1]);
            if lex_lt(fs@[j].path@, fs@[i].path@) {
                lemma_lex_lt_transitive(fs@[j].path@, fs@[i].path@, f.path@);
                assert(!lex_lt(f.path@, before[i].path@));
            }
        } else {
            assert(i == pos);
            assert(fs@[j] == before[j - 1]);
            assert(pos < before.len());
            assert(lex_lt(f.path@, before[pos as int].path@));
            if lex_lt(fs@[j].path@, f.path@) {
                lemma_lex_lt_transitive(fs@[j].path@, f.path@, before[pos as int].path@);
                if j - 1 > pos {
                    assert(!lex_lt(before[j - 1].path@, before[pos as int].path@));
                }
                crate::text::lemma_lex_lt_irreflexive(before[pos as int].path@);
            }
        }
    }
}

/// The result of a search from the per-file outcomes (`None` for a file
/// that could not be read): the records with at least one match, sorted by
/// path, and the counters. Sums are held at the largest `usize` should they
/// ever exceed it.
pub fn collect_results(outcomes: Vec<Option<FileMatch>>, elapsed_time: std::time::Duration) -> (r: (Vec<FileMatch>, SearchStats))
    ensures
        sorted_by_path(r.0@),
        r.0@.to_multiset() == matched(outcomes@).to_multiset(),
        r.1.files_searched == read_count(outcomes@),
        r.1.files_with_matches == matched(outcomes@).len(),
        r.1.total_matches == capped(sum_matches(matched(outcomes@))),
        r.1.total_lines == capped(sum_lines(matched(outcomes@))),
        r.1.elapsed_time == elapsed_time,
{
    let ghost o = outcomes@;
    let n = outcomes.len();
    let mut rest = outcomes;
    let mut files_searched: usize = 0;
    let mut total_matches: usize = 0;
    let mut total_lines: usize = 0;
    let mut kept: Vec<FileMatch> = Vec::new();
    let mut i: usize = 0;
    while i < n
        invariant
            n == o.len(),
            i <= n,
            rest@ == o.subrange(i as int, n as int),
            files_searched == read_count(o.take(i as int)),
            files_searched <= i,
            sorted_by_path(kept@),
            kept@.to_multiset() == matched(o.take(i as int)).to_multiset(),
            total_matches == capped(sum_matches(matched(o.take(i as int)))),
            total_lines == capped(sum_lines(matched(o.take(i as int)))),
        decreases n - i,
    {
        let ghost prefix = o.take(i as int);
        assert(o.take(i + 1).drop_last() =~= prefix);
        assert(rest@[0] == o[i as int]);
        let item = rest.remove(0);
        assert(rest@ =~= o.subrange(i + 1, n as int));
        match item {
            Some(f) => {
                files_searched = files_searched + 1;
                if f.total_matches > 0 {
                    total_matches = total_matches.saturating_add(f.total_matches);
                    total_lines = total_lines.saturating_add(f.line_matches.len());
                    proof {
                        assert(matched(o.take(i + 1)) == matched(prefix).push(f));
                        assert(matched(prefix).push(f).drop_last() =~= matched(prefix));
                        assert(sum_matches(matched(prefix).push(f)) == sum_matches(matched(prefix)) + f.total_matches);
                        assert(sum_lines(matched(prefix).push(f)) == sum_lines(matched(prefix)) + f.line_matches@.len());
                        vstd::seq_lib::to_multiset_build(matched(prefix), f);
                    }
                    insert_by_path(&mut kept, f);
                } else {
                    assert(matched(o.take(i + 1)) == matched(prefix));
                }
            },
            None => {
                assert(matched(o.take(i + 1)) == matched(prefix));
            },
        }
        i = i + 1;
    }
    assert(o.take(n as int) =~= o);
    proof {
        vstd::seq_lib::to_multiset_len(kept@);
        vstd::seq_lib::to_multiset_len(matched(o));
    }
    let count = kept.len();
    (kept, SearchStats::new(files_searched, count, total_matches, total_lines, elapsed_time))
}

} // verus!
