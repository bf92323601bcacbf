//! Patterns and the matches they find in a line.

use vstd::prelude::*;
use vstd::utf8::is_char_boundary;
use crate::engine::{span_is, spans_match, plain_accepts, fancy_accepts, plain_spans, fancy_spans, PlainRegex, FancyRegex};
use crate::text::{bytes_of, lower_of, occurs_at, lowercase, bytes_occur_at, byte_slice, chars_of, concat, join, joined, views, lines_of, split_lines};
use crate::cli::Cli;
use crate::CodeGrepError;

verus! {

/// A span found in a line: byte offsets and the text between them.
#[derive(Clone, Debug)]
pub struct Match {
    pub start: usize,
    pub end: usize,
    pub text: String,
}

impl Match {
    /// The length of the span in bytes.
    pub fn len(&self) -> (r: usize)
        requires
            self.start <= self.end,
        ensures
            r == self.end - self.start,
    {
        self.end - self.start
    }
}

/// The matches of one line, with its 1-based number and its text.
#[derive(Clone, Debug)]
pub struct LineMatch {
    pub line_number: usize,
    pub line_text: String,
    pub matches: Vec<Match>,
}

impl LineMatch {
    pub fn new(line_number: usize, line_text: String, matches: Vec<Match>) -> (r: LineMatch)
        ensures
            r.line_number == line_number,
            r.line_text == line_text,
            r.matches == matches,
    {
        LineMatch { line_number, line_text, matches }
    }

    /// Whether the line has at least one match.
    pub fn has_matches(&self) -> (r: bool)
        ensures
            r == (self.matches@.len() > 0),
    {
        !self.matches.is_empty()
    }
}

/// A literal hit at byte `i`: the lower-cased pattern `pb` (not empty)
/// occurs at `i` in the lower-cased line `lb`, and the same span lies on
/// character boundaries of the line's own bytes `tb`.
pub open spec fn literal_hit(lb: Seq<u8>, pb: Seq<u8>, tb: Seq<u8>, i: int) -> bool {
    &&& pb.len() > 0
    &&& occurs_at(lb, pb, i)
    &&& i + pb.len() <= tb.len()
    &&& is_char_boundary(tb, i)
    &&& is_char_boundary(tb, i + pb.len())
}

/// The literal hits that start below byte `n`, in order.
pub open spec fn literal_spans_below(lb: Seq<u8>, pb: Seq<u8>, tb: Seq<u8>, n: int) -> Seq<(int, int)>
    decreases n,
{
    if n <= 0 {
        Seq::empty()
    } else if literal_hit(lb, pb, tb, n - 1) {
        literal_spans_below(lb, pb, tb, n - 1).push((n - 1, n - 1 + pb.len()))
    } else {
        literal_spans_below(lb, pb, tb, n - 1)
    }
}

/// Every occurrence of the lower-cased pattern in the lower-cased line,
/// overlapping ones included, from left to right.
pub open spec fn literal_spans(pattern: Seq<char>, line: Seq<char>) -> Seq<(int, int)> {
    let lb = bytes_of(lower_of(line));
    literal_spans_below(lb, bytes_of(lower_of(pattern)), bytes_of(line), lb.len() as int)
}

/// A matching strategy.
pub enum PatternMatcher {
    /// A substring, compared case-insensitively.
    Literal(String),
    /// A pattern of the plain regular-expression engine.
    Basic(PlainRegex),
    /// A pattern of the backtracking engine (look-around allowed).
    Fancy(FancyRegex),
    /// All of these must match in a line; the spans are those of the first.
    Multiple(Vec<PatternMatcher>),
}

/// Every part of a composite matches somewhere in `line`.
pub open spec fn all_parts_match(ms: Seq<PatternMatcher>, line: Seq<char>) -> bool
    decreases ms,
{
    if ms.len() == 0 {
        true
    } else {
        all_parts_match(ms.drop_last(), line) && spans_of(ms.last(), line).len() > 0
    }
}

/// The spans that `m` reports in `line`: for a composite, those of its
/// first part where every part matches (parts may be composites
/// themselves), else none.
pub open spec fn spans_of(m: PatternMatcher, line: Seq<char>) -> Seq<(int, int)>
    decreases m,
{
    match m {
        PatternMatcher::Literal(p) => literal_spans(p@, line),
        PatternMatcher::Basic(b) => plain_spans(b.source(), b.case_insensitive(), line),
        PatternMatcher::Fancy(f) => fancy_spans(f.source(), line),
        PatternMatcher::Multiple(ms) => {
            if ms@.len() > 0 && all_parts_match(ms@, line) {
                spans_of(ms@[0], line)
            } else {
                Seq::empty()
            }
        },
    }
}

/// The parts of a composite all match exactly when each of them does.
pub proof fn lemma_all_parts_match(ms: Seq<PatternMatcher>, line: Seq<char>)
    ensures
        all_parts_match(ms, line) <==> forall|i: int| 0 <= i < ms.len() ==> #[trigger] spans_of(ms[i], line).len() > 0,
    decreases ms.len(),
{
    if ms.len() > 0 {
        lemma_all_parts_match(ms.drop_last(), line);
        assert forall|i: int| 0 <= i < ms.len() - 1 implies #[trigger] ms.drop_last()[i] == ms[i] by {}
        if forall|i: int| 0 <= i < ms.len() ==> #[trigger] spans_of(ms[i], line).len() > 0 {
            assert(spans_of(ms[ms.len() - 1], line).len() > 0);
            assert forall|i: int| 0 <= i < ms.drop_last().len() implies #[trigger] spans_of(ms.drop_last()[i], line).len() > 0 by {
                assert(ms.drop_last()[i] == ms[i]);
            }
        }
        if all_parts_match(ms, line) {
            assert forall|i: int| 0 <= i < ms.len() implies #[trigger] spans_of(ms[i], line).len() > 0 by {
                if i < ms.len() - 1 {
                    assert(ms.drop_last()[i] == ms[i]);
                    assert(spans_of(ms.drop_last()[i], line).len() > 0);
                }
            }
        }
    }
}

/// The literal matches of `pattern` in `line`.
fn find_literal(pattern: &str, line: &str) -> (r: Vec<Match>)
    ensures
        spans_match(r@, literal_spans(pattern@, line@), bytes_of(line@)),
{
    let lowered_line = lowercase(line);
    let lowered_pattern = lowercase(pattern);
    let lb = lowered_line.as_str().as_bytes();
    let pb = lowered_pattern.as_str().as_bytes();
    let tb = line.as_bytes();
    let ghost glb = bytes_of(lower_of(line@));
    let ghost gpb = bytes_of(lower_of(pattern@));
    let ghost gtb = bytes_of(line@);
    let mut out: Vec<Match> = Vec::new();
    let mut i: usize = 0;
    while i < lb.len()
        invariant
            i <= lb.len(),
            lb@ == glb,
            pb@ == gpb,
            tb@ == gtb,
            glb == bytes_of(lower_of(line@)),
            gpb == bytes_of(lower_of(pattern@)),
            gtb == bytes_of(line@),
            spans_match(out@, literal_spans_below(glb, gpb, gtb, i as int), gtb),
        decreases lb.len() - i,
    {
        if pb.len() > 0 && bytes_occur_at(lb, pb, i) && pb.len() <= tb.len() && i <= tb.len() - pb.len()
            && line.is_char_boundary(i) && line.is_char_boundary(i + pb.len()) {
            let end = i + pb.len();
            let text = byte_slice(line, i, end);
            let ghost prev = out@;
            out.push(Match { start: i, end, text });
            proof {
                assert(literal_hit(glb, gpb, gtb, i as int));
                let sp = literal_spans_below(glb, gpb, gtb, i + 1);
                assert(sp == literal_spans_below(glb, gpb, gtb, i as int).push((i as int, i + pb.len())));
                assert forall|k: int| 0 <= k < out@.len() implies #[trigger] span_is(out@[k], sp[k], gtb) by {
                    let old_sp = literal_spans_below(glb, gpb, gtb, i as int);
                    if k < prev.len() {
                        assert(out@[k] == prev[k]);
                        assert(span_is(prev[k], old_sp[k], gtb));
                        assert(sp[k] == old_sp[k]);
                    } else {
                        assert(k == prev.len());
                        assert(sp[k] == (i as int, i + pb.len()));
                    }
                }
                assert(spans_match(out@, sp, gtb));
            }
        } else {
            assert(!literal_hit(glb, gpb, gtb, i as int));
            assert(literal_spans_below(glb, gpb, gtb, i + 1) == literal_spans_below(glb, gpb, gtb, i as int));
            assert(spans_match(out@, literal_spans_below(glb, gpb, gtb, i + 1), gtb));
        }
        i = i + 1;
    }
    out
}

impl PatternMatcher {
    /// The matches of this pattern in `line`, by byte offset, left to right.
    pub fn find_matches(&self, line: &str) -> (r: Vec<Match>)
        ensures
            spans_match(r@, spans_of(*self, line@), bytes_of(line@)),
        decreases self,
    {
        match self {
            PatternMatcher::Literal(p) => {
                let ps = p.as_str();
                let found = find_literal(ps, line);
                assert(ps@ == p@);
                found
            },
            PatternMatcher::Basic(b) => b.find_all(line),
            PatternMatcher::Fancy(f) => f.find_all(line),
            PatternMatcher::Multiple(ms) => {
                if ms.len() == 0 {
                    return Vec::new();
                }
                let mut i: usize = 0;
                while i < ms.len()
                    invariant
                        i <= ms@.len(),
                        *self == PatternMatcher::Multiple(*ms),
                        all_parts_match(ms@.take(i as int), line@),
                    decreases ms.len() - i,
                {
                    proof {
                        vstd::std_specs::vec::axiom_vec_index_decreases(*ms, i as int);
                        assert((*self)->Multiple_0 == *ms);
                        assert(decreases_to!(*self => *ms));
                    }
                    let found = ms[i].find_matches(line);
                    assert(ms@.take(i + 1).drop_last() =~= ms@.take(i as int));
                    assert(ms@.take(i + 1).last() == ms@[i as int]);
                    if found.len() == 0 {
                        proof {
                            lemma_all_parts_match(ms@, line@);
                            assert(!(spans_of(ms@[i as int], line@).len() > 0));
                        }
                        return Vec::new();
                    }
                    i = i + 1;
                }
                assert(ms@.take(ms@.len() as int) =~= ms@);
                proof {
                    vstd::std_specs::vec::axiom_vec_index_decreases(*ms, 0);
                    assert((*self)->Multiple_0 == *ms);
                    assert(decreases_to!(*self => *ms));
                }
                ms[0].find_matches(line)
            },
        }
    }

    /// Whether this pattern matches somewhere in `line`.
    pub fn is_match(&self, line: &str) -> (r: bool)
        ensures
            r == (spans_of(*self, line@).len() > 0),
    {
        let found = self.find_matches(line);
        found.len() > 0
    }
}

/// A character that makes an undecorated pattern a regular expression.
pub open spec fn is_meta(c: char) -> bool {
    c == '.' || c == '*' || c == '+' || c == '?' || c == '^' || c == '$' || c == '|' || c == '['
        || c == ']' || c == '(' || c == ')' || c == '{' || c == '}' || c == '\\'
}

/// `p` holds a regular-expression metacharacter.
pub open spec fn has_meta(p: Seq<char>) -> bool {
    exists|i: int| 0 <= i < p.len() && is_meta(#[trigger] p[i])
}

/// The pattern, wrapped in word-boundary assertions where asked.
pub open spec fn bounded(p: Seq<char>, word_boundary: bool) -> Seq<char> {
    if word_boundary {
        "\\b"@ + p + "\\b"@
    } else {
        p
    }
}

/// The options choose the backtracking engine.
pub open spec fn uses_fancy(cli: Cli) -> bool {
    !cli.literal && cli.fancy_regex
}

/// The options choose the plain engine for `p`: asked for, or detected.
pub open spec fn uses_plain(p: Seq<char>, cli: Cli) -> bool {
    !cli.literal && !cli.fancy_regex && (cli.regex || has_meta(p))
}

/// The source handed to the backtracking engine.
pub open spec fn fancy_source(p: Seq<char>, cli: Cli) -> Seq<char> {
    if cli.case_sensitive {
        bounded(p, cli.word_boundary)
    } else {
        "(?i)"@ + bounded(p, cli.word_boundary)
    }
}

/// The chosen engine accepts the pattern `p` (literals always succeed).
pub open spec fn single_ok(p: Seq<char>, cli: Cli) -> bool {
    if uses_fancy(cli) {
        fancy_accepts(fancy_source(p, cli))
    } else if uses_plain(p, cli) {
        plain_accepts(bounded(p, cli.word_boundary), !cli.case_sensitive)
    } else {
        true
    }
}

/// `r` is what building a single pattern from `p` under `cli` gives.
pub open spec fn single_built(p: Seq<char>, cli: Cli, r: Result<PatternMatcher, CodeGrepError>) -> bool {
    if uses_fancy(cli) {
        match r {
            Ok(PatternMatcher::Fancy(f)) => single_ok(p, cli) && f.source() == fancy_source(p, cli),
            Err(CodeGrepError::FancyRegex(_)) => !single_ok(p, cli),
            _ => false,
        }
    } else if uses_plain(p, cli) {
        match r {
            Ok(PatternMatcher::Basic(b)) => single_ok(p, cli) && b.source() == bounded(p, cli.word_boundary)
                && b.case_insensitive() == !cli.case_sensitive,
            Err(CodeGrepError::Regex(_)) => !single_ok(p, cli),
            _ => false,
        }
    } else {
        match r {
            Ok(PatternMatcher::Literal(s)) => s@ == p,
            _ => false,
        }
    }
}

/// The parts of an AND composition: the main pattern, if any, then each
/// AND pattern.
pub open spec fn and_parts(cli: Cli) -> Seq<Seq<char>> {
    match cli.pattern {
        Some(p) => seq![p@] + views(cli.and@),
        None => views(cli.and@),
    }
}

/// The single pattern that an OR composition compiles to.
pub open spec fn or_source(cli: Cli) -> Seq<char> {
    match cli.pattern {
        Some(p) => "("@ + p@ + "|"@ + joined(views(cli.or@), "|"@) + ")"@,
        None => "("@ + joined(views(cli.or@), "|"@) + ")"@,
    }
}

/// Whether `p` holds a regular-expression metacharacter.
fn contains_meta(p: &str) -> (r: bool)
    ensures
        r == has_meta(p@),
{
    let cs = chars_of(p);
    let mut i: usize = 0;
    while i < cs.len()
        invariant
            cs@ == p@,
            i <= cs.len(),
            forall|j: int| 0 <= j < i ==> !is_meta(#[trigger] p@[j]),
        decreases cs.len() - i,
    {
        let c = cs[i];
        if c == '.' || c == '*' || c == '+' || c == '?' || c == '^' || c == '$' || c == '|' || c == '['
            || c == ']' || c == '(' || c == ')' || c == '{' || c == '}' || c == '\\' {
            return true;
        }
        i = i + 1;
    }
    false
}

/// The pattern, wrapped in word-boundary assertions where asked.
fn with_boundary(p: &str, word_boundary: bool) -> (r: String)
    ensures
        r@ == bounded(p@, word_boundary),
{
    if word_boundary {
        let front = concat("\\b", p);
        concat(front.as_str(), "\\b")
    } else {
        p.to_owned()
    }
}

impl PatternMatcher {
    /// Builds one pattern from `pattern` under the options: a literal where
    /// asked or where no metacharacter occurs, else a regular expression of
    /// the chosen engine.
    pub fn create_single_matcher(pattern: &str, cli: &Cli) -> (r: Result<PatternMatcher, CodeGrepError>)
        ensures
            single_built(pattern@, *cli, r),
    {
        if cli.literal {
            return Ok(PatternMatcher::Literal(pattern.to_owned()));
        }
        if cli.fancy_regex {
            let body = with_boundary(pattern, cli.word_boundary);
            let source = if cli.case_sensitive {
                body
            } else {
                concat("(?i)", body.as_str())
            };
            return match FancyRegex::compile(source.as_str()) {
                Ok(f) => Ok(PatternMatcher::Fancy(f)),
                Err(e) => Err(CodeGrepError::FancyRegex(e)),
            };
        }
        if cli.regex || contains_meta(pattern) {
            let body = with_boundary(pattern, cli.word_boundary);
            return match PlainRegex::compile(body.as_str(), !cli.case_sensitive) {
                Ok(b) => Ok(PatternMatcher::Basic(b)),
                Err(e) => Err(CodeGrepError::Regex(e)),
            };
        }
        Ok(PatternMatcher::Literal(pattern.to_owned()))
    }

    /// Builds the pattern of a search: an AND composition where AND patterns
    /// are given, else one alternation where OR patterns are given, else the
    /// main pattern; with no pattern at all, a configuration error.
    pub fn new(cli: &Cli) -> (r: Result<PatternMatcher, CodeGrepError>)
        ensures
            cli.and@.len() > 0 ==> match r {
                Ok(m) => {
                    &&& forall|i: int| 0 <= i < and_parts(*cli).len() ==> #[trigger] single_ok(and_parts(*cli)[i], *cli)
                    &&& m is Multiple
                    &&& m->Multiple_0@.len() == and_parts(*cli).len()
                    &&& forall|i: int| 0 <= i < m->Multiple_0@.len()
                        ==> #[trigger] single_built(and_parts(*cli)[i], *cli, Ok(m->Multiple_0@[i]))
                },
                Err(e) => exists|i: int| 0 <= i < and_parts(*cli).len() && #[trigger] single_built(and_parts(*cli)[i], *cli, Err(e)),
            },
            cli.and@.len() == 0 && cli.or@.len() > 0 ==> single_built(or_source(*cli), *cli, r),
            cli.and@.len() == 0 && cli.or@.len() == 0 ==> match cli.pattern {
                Some(p) => single_built(p@, *cli, r),
                None => r matches Err(CodeGrepError::Config(_)),
            },
    {
        if cli.and.len() > 0 {
            let mut ms: Vec<PatternMatcher> = Vec::new();
            let ghost parts = and_parts(*cli);
            let mut offset: usize = 0;
            match &cli.pattern {
                Some(p) => {
                    match Self::create_single_matcher(p.as_str(), cli) {
                        Ok(m) => {
                            ms.push(m);
                        },
                        Err(e) => {
                            assert(single_built(parts[0], *cli, Err(e)));
                            return Err(e);
                        },
                    }
                    offset = 1;
                },
                None => {},
            }
            let mut i: usize = 0;
            while i < cli.and.len()
                invariant
                    parts == and_parts(*cli),
                    parts.len() == offset + cli.and@.len(),
                    offset <= 1,
                    forall|j: int| 0 <= j < cli.and@.len() ==> parts[offset + j] == #[trigger] cli.and@[j]@,
                    i <= cli.and@.len(),
                    ms@.len() == offset + i,
                    forall|j: int| 0 <= j < ms@.len() ==> #[trigger] single_built(parts[j], *cli, Ok(ms@[j])),
                decreases cli.and.len() - i,
            {
                match Self::create_single_matcher(cli.and[i].as_str(), cli) {
                    Ok(m) => {
                        ms.push(m);
                    },
                    Err(e) => {
                        assert(single_built(parts[offset + i], *cli, Err(e)));
                        return Err(e);
                    },
                }
                i = i + 1;
            }
            assert forall|j: int| 0 <= j < parts.len() implies #[trigger] single_ok(parts[j], *cli) by {
                assert(single_built(parts[j], *cli, Ok(ms@[j])));
            }
            return Ok(PatternMatcher::Multiple(ms));
        }
        if cli.or.len() > 0 {
            let alternatives = join(&cli.or, "|");
            let source = match &cli.pattern {
                Some(p) => {
                    let a = concat("(", p.as_str());
                    let b = concat(a.as_str(), "|");
                    let c = concat(b.as_str(), alternatives.as_str());
                    concat(c.as_str(), ")")
                },
                None => {
                    let a = concat("(", alternatives.as_str());
                    concat(a.as_str(), ")")
                },
            };
            return Self::create_single_matcher(source.as_str(), cli);
        }
        match &cli.pattern {
            Some(p) => Self::create_single_matcher(p.as_str(), cli),
            None => Err(CodeGrepError::Config("No pattern provided".to_owned())),
        }
    }
}

/// `lm` reports line `i` of `lines` (1-based number, verbatim text) with
/// the spans that `m` finds there.
pub open spec fn line_match_is(lm: LineMatch, m: PatternMatcher, lines: Seq<Seq<char>>, i: int) -> bool {
    &&& 0 <= i < lines.len()
    &&& lm.line_number == i + 1
    &&& lm.line_text@ == lines[i]
    &&& spans_match(lm.matches@, spans_of(m, lines[i]), bytes_of(lines[i]))
}

/// The indices below `n` of the lines where `m` finds a match.
pub open spec fn hit_lines_below(m: PatternMatcher, lines: Seq<Seq<char>>, n: int) -> Seq<int>
    decreases n,
{
    if n <= 0 {
        Seq::empty()
    } else if spans_of(m, lines[n - 1]).len() > 0 {
        hit_lines_below(m, lines, n - 1).push(n - 1)
    } else {
        hit_lines_below(m, lines, n - 1)
    }
}

/// `r` reports, in order, exactly the lines of `lines` whose index is in
/// `idx`.
pub open spec fn reports(r: Seq<LineMatch>, m: PatternMatcher, lines: Seq<Seq<char>>, idx: Seq<int>) -> bool {
    &&& r.len() == idx.len()
    &&& forall|k: int| 0 <= k < r.len() ==> #[trigger] line_match_is(r[k], m, lines, idx[k])
}

/// The matching lines of `text`, each with its matches.
pub fn find_in_text(text: &str, matcher: &PatternMatcher) -> (r: Vec<LineMatch>)
    ensures
        reports(r@, *matcher, lines_of(text@), hit_lines_below(*matcher, lines_of(text@), lines_of(text@).len() as int)),
{
    let lines = split_lines(text);
    let ghost ls = lines_of(text@);
    let mut out: Vec<LineMatch> = Vec::new();
    let mut i: usize = 0;
    while i < lines.len()
        invariant
            ls == lines_of(text@),
            views(lines@) == ls,
            i <= lines.len(),
            reports(out@, *matcher, ls, hit_lines_below(*matcher, ls, i as int)),
        decreases lines.len() - i,
    {
        let found = matcher.find_matches(lines[i].as_str());
        assert(lines@[i as int]@ == ls[i as int]);
        if found.len() > 0 {
            let ghost before = out@;
            let text_copy = lines[i].clone();
            out.push(LineMatch::new(i + 1, text_copy, found));
            proof {
                let idx = hit_lines_below(*matcher, ls, i + 1);
                let old_idx = hit_lines_below(*matcher, ls, i as int);
                assert(idx == old_idx.push(i as int));
                assert forall|k: int| 0 <= k < out@.len() implies #[trigger] line_match_is(out@[k], *matcher, ls, idx[k]) by {
                    if k < before.len() {
                        assert(out@[k] == before[k]);
                        assert(line_match_is(before[k], *matcher, ls, old_idx[k]));
                    }
                }
            }
        }
        i = i + 1;
    }
    assert(lines@.len() == ls.len());
    out
}

proof fn lemma_literal_spans_below(lb: Seq<u8>, pb: Seq<u8>, tb: Seq<u8>, n: int)
    ensures
        forall|k: int| 0 <= k < literal_spans_below(lb, pb, tb, n).len() ==> {
            let sp = #[trigger] literal_spans_below(lb, pb, tb, n)[k];
            &&& occurs_at(lb, pb, sp.0)
            &&& sp.1 == sp.0 + pb.len()
            &&& sp.0 < n
        },
        forall|k: int, l: int| 0 <= k < l < literal_spans_below(lb, pb, tb, n).len()
            ==> #[trigger] literal_spans_below(lb, pb, tb, n)[k].0 < #[trigger] literal_spans_below(lb, pb, tb, n)[l].0,
        forall|i: int| 0 <= i < n && #[trigger] literal_hit(lb, pb, tb, i) ==> exists|k: int|
            0 <= k < literal_spans_below(lb, pb, tb, n).len() && #[trigger] literal_spans_below(lb, pb, tb, n)[k].0 == i,
    decreases n,
{
    if n > 0 {
        lemma_literal_spans_below(lb, pb, tb, n - 1);
        let prev = literal_spans_below(lb, pb, tb, n - 1);
        let cur = literal_spans_below(lb, pb, tb, n);
        if literal_hit(lb, pb, tb, n - 1) {
            assert(cur == prev.push((n - 1, n - 1 + pb.len())));
            assert forall|i: int| 0 <= i < n && #[trigger] literal_hit(lb, pb, tb, i) implies exists|k: int|
                0 <= k < cur.len() && #[trigger] cur[k].0 == i by {
                if i < n - 1 {
                    let k = choose|k: int| 0 <= k < prev.len() && #[trigger] prev[k].0 == i;
                    assert(cur[k] == prev[k]);
                } else {
                    assert(cur[prev.len() as int].0 == i);
                }
            }
        } else {
            assert forall|i: int| 0 <= i < n && #[trigger] literal_hit(lb, pb, tb, i) implies exists|k: int|
                0 <= k < cur.len() && #[trigger] cur[k].0 == i by {
                assert(i < n - 1);
            }
        }
    }
}

/// A literal pattern reports only occurrences of its lower-cased form in
/// the lower-cased line, each as long as that form, in strictly increasing
/// order of start; and it reports every occurrence (overlapping ones
/// included) whose span lies on character boundaries of the line.
pub proof fn lemma_literal_matches(p: String, line: Seq<char>)
    ensures
        ({
            let lb = bytes_of(lower_of(line));
            let pb = bytes_of(lower_of(p@));
            let sp = spans_of(PatternMatcher::Literal(p), line);
            &&& forall|k: int| 0 <= k < sp.len() ==> occurs_at(lb, pb, #[trigger] sp[k].0) && sp[k].1 == sp[k].0 + pb.len()
            &&& forall|k: int, l: int| 0 <= k < l < sp.len() ==> #[trigger] sp[k].0 < #[trigger] sp[l].0
            &&& forall|i: int| #[trigger] literal_hit(lb, pb, bytes_of(line), i) ==> exists|k: int|
                0 <= k < sp.len() && #[trigger] sp[k].0 == i
        }),
{
    let lb = bytes_of(lower_of(line));
    let pb = bytes_of(lower_of(p@));
    lemma_literal_spans_below(lb, pb, bytes_of(line), lb.len() as int);
    let sp = spans_of(PatternMatcher::Literal(p), line);
    assert forall|i: int| #[trigger] literal_hit(lb, pb, bytes_of(line), i) implies exists|k: int|
        0 <= k < sp.len() && #[trigger] sp[k].0 == i by {
        assert(0 <= i < lb.len());
    }
}

/// An AND composition matches in a line exactly when
/// every part matches somewhere in it, and then reports the first part's
/// matches.
pub proof fn lemma_and_composition(ms: Vec<PatternMatcher>, line: Seq<char>)
    requires
        ms@.len() > 0,
    ensures
        spans_of(PatternMatcher::Multiple(ms), line).len() > 0 <==> forall|i: int|
            0 <= i < ms@.len() ==> #[trigger] spans_of(ms@[i], line).len() > 0,
        spans_of(PatternMatcher::Multiple(ms), line).len() > 0 ==> spans_of(PatternMatcher::Multiple(ms), line)
            == spans_of(ms@[0], line),
{
    lemma_all_parts_match(ms@, line);
    let whole = spans_of(PatternMatcher::Multiple(ms), line);
    assert(whole == (if all_parts_match(ms@, line) { spans_of(ms@[0], line) } else { Seq::empty() }));
    if forall|i: int| 0 <= i < ms@.len() ==> #[trigger] spans_of(ms@[i], line).len() > 0 {
        assert(spans_of(ms@[0], line).len() > 0);
    }
}

/// Whether `pattern`, undecorated and case-sensitive, compiles for each
/// engine: the plain engine's error, if any, then the backtracking
/// engine's.
pub fn check_regex_pattern(pattern: &str) -> (r: (Option<regex::Error>, Option<fancy_regex::Error>))
    ensures
        r.0 is None <==> plain_accepts(pattern@, false),
        r.1 is None <==> fancy_accepts(pattern@),
{
    let plain = match PlainRegex::compile(pattern, false) {
        Ok(_) => None,
        Err(e) => Some(e),
    };
    let fancy = match FancyRegex::compile(pattern) {
        Ok(_) => None,
        Err(e) => Some(e),
    };
    (plain, fancy)
}

} // verus!
