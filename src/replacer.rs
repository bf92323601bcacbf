//! The replacement engine: new file content with every match replaced,
//! previews of the edits, and the decisions of a confirmation session.

use vstd::prelude::*;
use vstd::utf8::{decode_utf8, is_char_boundary};
use crate::cli::Cli;
use crate::engine::{span_is, spans_match};
use crate::matcher::{Match, PatternMatcher, spans_of, hit_lines_below};
use crate::searcher::capped;
use crate::text::{
    bytes_of, byte_slice, concat, join, joined, lemma_bytes_of_concat, lines_of, replace_all,
    replaced, split_lines, views, has_infix, has_suffix, ends_with, decimal, decimal_of, lower_of, trim_of, lowercase, trim, same_text,
};

verus! {

broadcast use vstd::utf8::group_utf8_lib;

/// The outcome of replacing in one file.
#[derive(Clone, Debug)]
pub struct ReplacementResult {
    pub file_path: String,
    pub original_content: String,
    pub new_content: String,
    pub replacements_made: usize,
    pub lines_affected: Vec<usize>,
}

/// The replacement text for one match: the template with each `$0`, then
/// each `${0}`, replaced by the matched text.
pub open spec fn expansion(template: Seq<char>, matched: Seq<char>) -> Seq<char> {
    replaced(replaced(template, "$0"@, matched), "${0}"@, matched)
}

/// The edit of a line's bytes `tb` after the first `n` spans: the bytes
/// written so far and the position up to which the line is consumed. Spans
/// are replaced left to right; a span that starts inside text an earlier
/// replacement already rewrote (overlapping literal hits) has no text of
/// its own left, so it adds nothing, though it counts as a replacement.
pub open spec fn edit_state(tb: Seq<u8>, sp: Seq<(int, int)>, template: Seq<char>, n: int) -> (Seq<u8>, int)
    decreases n,
{
    if n <= 0 {
        (Seq::empty(), 0)
    } else {
        let prev = edit_state(tb, sp, template, n - 1);
        let s = sp[n - 1];
        if s.0 >= prev.1 {
            (
                prev.0 + tb.subrange(prev.1, s.0) + bytes_of(expansion(template, decode_utf8(tb.subrange(s.0, s.1)))),
                s.1,
            )
        } else {
            prev
        }
    }
}

/// The bytes of a line after its spans are replaced.
pub open spec fn edited(tb: Seq<u8>, sp: Seq<(int, int)>, template: Seq<char>) -> Seq<u8> {
    let st = edit_state(tb, sp, template, sp.len() as int);
    st.0 + tb.subrange(st.1, tb.len() as int)
}

/// A line after replacement: where the pattern matches, its matches
/// replaced; else the line itself.
pub open spec fn line_after(m: PatternMatcher, template: Seq<char>, l: Seq<char>) -> Seq<char> {
    if spans_of(m, l).len() > 0 {
        decode_utf8(edited(bytes_of(l), spans_of(m, l), template))
    } else {
        l
    }
}

/// The replacements made over the first `n` lines: one per match.
pub open spec fn edits_below(m: PatternMatcher, ls: Seq<Seq<char>>, n: int) -> nat
    decreases n,
{
    if n <= 0 {
        0
    } else {
        edits_below(m, ls, n - 1) + spans_of(m, ls[n - 1]).len()
    }
}

/// The new text of a file: its lines after replacement, joined with line
/// feeds, and ended with one where the content ends with one.
pub open spec fn new_text(m: PatternMatcher, template: Seq<char>, content: Seq<char>) -> Seq<char> {
    let ls = lines_of(content);
    joined(Seq::new(ls.len(), |i: int| line_after(m, template, ls[i])), "\n"@) + if has_suffix(content, "\n"@) {
        "\n"@
    } else {
        Seq::empty()
    }
}

/// `r` is the replacement over `content` of the file at `path`: none where
/// no line matches; else the path, both contents, the number of
/// replacements and the 1-based numbers of the lines that matched.
pub open spec fn replacement_of(
    m: PatternMatcher,
    template: Seq<char>,
    path: Seq<char>,
    content: Seq<char>,
    r: Option<ReplacementResult>,
) -> bool {
    let ls = lines_of(content);
    let hits = hit_lines_below(m, ls, ls.len() as int);
    match r {
        None => hits.len() == 0,
        Some(res) => {
            &&& hits.len() > 0
            &&& res.file_path@ == path
            &&& res.original_content@ == content
            &&& res.new_content@ == new_text(m, template, content)
            &&& res.replacements_made == capped(edits_below(m, ls, ls.len() as int))
            &&& res.lines_affected@.len() == hits.len()
            &&& forall|k: int| 0 <= k < hits.len() ==> #[trigger] res.lines_affected@[k] == hits[k] + 1
        },
    }
}

/// Replacing is a function of the content, the pattern and the template:
/// two replacements over the same content agree, whatever else differs.
pub proof fn lemma_replacement_repeatable(
    m: PatternMatcher,
    template: Seq<char>,
    path: Seq<char>,
    content: Seq<char>,
    first: Option<ReplacementResult>,
    second: Option<ReplacementResult>,
)
    requires
        !has_infix(template, "$0"@),
        !has_infix(template, "${0}"@),
        replacement_of(m, template, path, content, first),
        replacement_of(m, template, path, content, second),
    ensures
        first is Some <==> second is Some,
        first is Some ==> first->0.new_content@ == second->0.new_content@
            && first->0.replacements_made == second->0.replacements_made
            && first->0.lines_affected@ == second->0.lines_affected@,
{
    if first is Some {
        assert(first->0.lines_affected@ =~= second->0.lines_affected@);
    }
}

/// Where every line keeps its length under replacement, the new text has
/// as many lines as the old. Left out: replacements that bring a line feed
/// into a line.
pub proof fn lemma_line_count_kept(m: PatternMatcher, template: Seq<char>, content: Seq<char>)
    requires
        forall|i: int| 0 <= i < lines_of(content).len()
            ==> (#[trigger] line_after(m, template, lines_of(content)[i])).len() == lines_of(content)[i].len(),
        forall|i: int, j: int| 0 <= i < lines_of(content).len() && 0 <= j < lines_of(content)[i].len()
            ==> #[trigger] line_after(m, template, lines_of(content)[i])[j] != '\n',
    ensures
        lines_of(new_text(m, template, content)).len() == lines_of(content).len(),
{
    let ls = lines_of(content);
    let xs = Seq::new(ls.len(), |i: int| line_after(m, template, ls[i]));
    assert forall|i: int, j: int| 0 <= i < xs.len() && 0 <= j < xs[i].len() implies #[trigger] xs[i][j] != '\n' by {
        assert(xs[i] == line_after(m, template, ls[i]));
    }
    reveal_strlit("\n");
    if has_suffix(content, "\n"@) {
        assert(ls.len() > 0);
        crate::text::lemma_joined_terminated_line_count(xs);
    } else {
        if content.len() > 0 {
            assert("\n"@ =~= seq!['\n']);
            assert(content.subrange(content.len() - 1, content.len() as int) =~= seq![content.last()]);
            crate::text::lemma_last_line_not_empty(content);
            assert(xs.last() == line_after(m, template, ls.last()));
        }
        assert(joined(xs, "\n"@) + Seq::<char>::empty() =~= joined(xs, "\n"@));
        crate::text::lemma_joined_line_count(xs);
    }
}

/// A replacement engine: a pattern and the template that replaces its
/// matches.
pub struct Replacer {
    pattern_matcher: PatternMatcher,
    replacement: String,
    cli: Cli,
}

impl Replacer {
    pub closed spec fn matcher(&self) -> PatternMatcher {
        self.pattern_matcher
    }

    pub closed spec fn template(&self) -> Seq<char> {
        self.replacement@
    }

    pub fn new(pattern_matcher: PatternMatcher, replacement: String, cli: Cli) -> (r: Replacer)
        ensures
            r.matcher() == pattern_matcher,
            r.template() == replacement@,
    {
        Replacer { pattern_matcher, replacement, cli }
    }

    /// The replacement text for a match of `matched`.
    pub fn process_replacement(&self, matched: &str) -> (r: String)
        ensures
            r@ == expansion(self.template(), matched@),
    {
        proof {
            reveal_strlit("$0");
            reveal_strlit("${0}");
        }
        let once = replace_all(self.replacement.as_str(), "$0", matched);
        replace_all(once.as_str(), "${0}", matched)
    }

    /// The line with its matches `ms` replaced, and how many were.
    fn rewrite_line(&self, line: &str, ms: &Vec<Match>, Ghost(sp): Ghost<Seq<(int, int)>>) -> (r: (String, usize))
        requires
            spans_match(ms@, sp, bytes_of(line@)),
        ensures
            bytes_of(r.0@) == edited(bytes_of(line@), sp, self.template()),
            r.1 == sp.len(),
    {
        let ghost tb = bytes_of(line@);
        let len = line.as_bytes().len();
        let mut out = String::new();
        let mut pos: usize = 0;
        let mut count: usize = 0;
        let mut k: usize = 0;
        while k < ms.len()
            invariant
                tb == bytes_of(line@),
                len == tb.len(),
                spans_match(ms@, sp, tb),
                k <= ms@.len(),
                pos <= len,
                is_char_boundary(tb, pos as int),
                count == k,
                bytes_of(out@) == edit_state(tb, sp, self.template(), k as int).0,
                pos == edit_state(tb, sp, self.template(), k as int).1,
            decreases ms.len() - k,
        {
            assert(span_is(ms@[k as int], sp[k as int], tb));
            let m = &ms[k];
            if m.start >= pos {
                let piece = byte_slice(line, pos, m.start);
                let rep = self.process_replacement(m.text.as_str());
                let ghost old_out = out@;
                let front = concat(out.as_str(), piece.as_str());
                out = concat(front.as_str(), rep.as_str());
                proof {
                    lemma_bytes_of_concat(old_out, piece@);
                    lemma_bytes_of_concat(old_out + piece@, rep@);
                    vstd::utf8::encode_utf8_decode_utf8(m.text@);
                }
                pos = m.end;
            }
            count = count + 1;
            k = k + 1;
        }
        proof {
            vstd::utf8::is_char_boundary_start_end_of_seq(tb);
        }
        let tail = byte_slice(line, pos, len);
        let ghost old_out = out@;
        out = concat(out.as_str(), tail.as_str());
        proof {
            lemma_bytes_of_concat(old_out, tail@);
        }
        (out, count)
    }

    /// The replacement over a file's `content`: each line where the pattern
    /// matches gets its matches replaced; lines are joined with line feeds.
    /// `None` where no line matches.
    pub fn replace_content(&self, path: &str, content: &str) -> (r: Option<ReplacementResult>)
        ensures
            replacement_of(self.matcher(), self.template(), path@, content@, r),
    {
        let lines = split_lines(content);
        let ghost ls = lines_of(content@);
        let ghost m = self.matcher();
        let ghost t = self.template();
        let mut new_lines: Vec<String> = Vec::new();
        let mut affected: Vec<usize> = Vec::new();
        let mut made: usize = 0;
        let mut i: usize = 0;
        while i < lines.len()
            invariant
                ls == lines_of(content@),
                views(lines@) == ls,
                m == self.matcher(),
                t == self.template(),
                i <= lines.len(),
                views(new_lines@) == Seq::new(i as nat, |j: int| line_after(m, t, ls[j])),
                made == capped(edits_below(m, ls, i as int)),
                affected@.len() == hit_lines_below(m, ls, i as int).len(),
                forall|k: int| 0 <= k < affected@.len() ==> #[trigger] affected@[k] == hit_lines_below(m, ls, i as int)[k] + 1,
            decreases lines.len() - i,
        {
            assert(lines@[i as int]@ == ls[i as int]);
            let ghost sp = spans_of(m, ls[i as int]);
            let found = self.pattern_matcher.find_matches(lines[i].as_str());
            let ghost before = new_lines@;
            let ghost hb = hit_lines_below(m, ls, i as int);
            if found.len() > 0 {
                let (new_line, count) = self.rewrite_line(lines[i].as_str(), &found, Ghost(sp));
                proof {
                    vstd::utf8::encode_utf8_decode_utf8(new_line@);
                }
                made = made.saturating_add(count);
                affected.push(i + 1);
                let ghost nl = new_line@;
                new_lines.push(new_line);
                assert(views(new_lines@) =~= views(before).push(nl));
                proof {
                    assert(hit_lines_below(m, ls, i + 1) == hb.push(i as int));
                    assert forall|k: int| 0 <= k < affected@.len() implies #[trigger] affected@[k] == hit_lines_below(m, ls, i + 1)[k] + 1 by {
                        if k < hb.len() {
                            assert(affected@[k] == hb[k] + 1);
                        }
                    }
                }
            } else {
                let copy = lines[i].clone();
                let ghost nl = copy@;
                new_lines.push(copy);
                assert(views(new_lines@) =~= views(before).push(nl));
            }
            assert(views(new_lines@) =~= Seq::new((i + 1) as nat, |j: int| line_after(m, t, ls[j])));
            i = i + 1;
        }
        assert(lines@.len() == ls.len());
        if affected.len() == 0 {
            return None;
        }
        proof {
            reveal_strlit("\n");
        }
        let body = join(&new_lines, "\n");
        let new_content = if ends_with(content, "\n") {
            concat(body.as_str(), "\n")
        } else {
            proof {
                assert(body@ + Seq::<char>::empty() =~= body@);
            }
            body
        };
        Some(ReplacementResult {
            file_path: path.to_owned(),
            original_content: content.to_owned(),
            new_content,
            replacements_made: made,
            lines_affected: affected,
        })
    }
}

/// The preview line of affected line `n`, if both contents have it.
pub open spec fn preview_entry(original: Seq<Seq<char>>, updated: Seq<Seq<char>>, n: int) -> Seq<char> {
    if 1 <= n && n - 1 < original.len() && n - 1 < updated.len() {
        "Line "@ + decimal_of(n as nat) + ": "@ + original[n - 1] + " -> "@ + updated[n - 1] + "\n"@
    } else {
        Seq::empty()
    }
}

/// The preview lines of the first `k` affected lines.
pub open spec fn preview_entries(original: Seq<Seq<char>>, updated: Seq<Seq<char>>, affected: Seq<usize>, k: int) -> Seq<char>
    decreases k,
{
    if k <= 0 {
        Seq::empty()
    } else {
        preview_entries(original, updated, affected, k - 1) + preview_entry(original, updated, affected[k - 1] as int)
    }
}

/// The preview of a result: a header with the path and the count, then
/// `Line n: old -> new` for each affected line.
pub open spec fn preview_text(r: ReplacementResult) -> Seq<char> {
    "File: "@ + r.file_path@ + "\n"@ + "Replacements: "@ + decimal_of(r.replacements_made as nat) + "\n"@ + "---\n"@
        + preview_entries(lines_of(r.original_content@), lines_of(r.new_content@), r.lines_affected@, r.lines_affected@.len() as int)
}

impl Replacer {
    /// The preview of `result`; nothing is written anywhere.
    pub fn preview_replacement(&self, result: &ReplacementResult) -> (r: String)
        ensures
            r@ == preview_text(*result),
    {
        let original = split_lines(result.original_content.as_str());
        let updated = split_lines(result.new_content.as_str());
        let ghost ol = lines_of(result.original_content@);
        let ghost ul = lines_of(result.new_content@);
        let a = concat("File: ", result.file_path.as_str());
        let b = concat(a.as_str(), "\n");
        let c = concat(b.as_str(), "Replacements: ");
        let d = concat(c.as_str(), decimal(result.replacements_made).as_str());
        let e = concat(d.as_str(), "\n");
        let mut out = concat(e.as_str(), "---\n");
        let ghost head = out@;
        let mut k: usize = 0;
        while k < result.lines_affected.len()
            invariant
                views(original@) == ol,
                views(updated@) == ul,
                ol == lines_of(result.original_content@),
                ul == lines_of(result.new_content@),
                k <= result.lines_affected@.len(),
                out@ == head + preview_entries(ol, ul, result.lines_affected@, k as int),
            decreases result.lines_affected.len() - k,
        {
            let n = result.lines_affected[k];
            if n >= 1 && n - 1 < original.len() && n - 1 < updated.len() {
                assert(original@[n - 1]@ == ol[n - 1]);
                assert(updated@[n - 1]@ == ul[n - 1]);
                let p1 = concat("Line ", decimal(n).as_str());
                let p2 = concat(p1.as_str(), ": ");
                let p3 = concat(p2.as_str(), original[n - 1].as_str());
                let p4 = concat(p3.as_str(), " -> ");
                let p5 = concat(p4.as_str(), updated[n - 1].as_str());
                let p6 = concat(p5.as_str(), "\n");
                let ghost old_out = out@;
                out = concat(out.as_str(), p6.as_str());
                assert(out@ =~= head + preview_entries(ol, ul, result.lines_affected@, k + 1));
            } else {
                assert(preview_entry(ol, ul, n as int) == Seq::<char>::empty());
                assert(out@ =~= head + preview_entries(ol, ul, result.lines_affected@, k + 1));
            }
            k = k + 1;
        }
        out
    }
}

/// An answer to a confirmation prompt.
#[derive(Clone, Copy, Debug, PartialEq, Eq, Structural)]
pub enum Response {
    /// Apply this result.
    Yes,
    /// Skip this result.
    No,
    /// Apply this result and all the remaining ones.
    All,
    /// Stop; this and the remaining results are dropped.
    Quit,
    /// Anything else: ask again.
    Unknown,
}

/// The answer that a trimmed, lower-cased input stands for.
pub open spec fn response_for(t: Seq<char>) -> Response {
    if t == "y"@ || t == "yes"@ {
        Response::Yes
    } else if t == "n"@ || t == "no"@ {
        Response::No
    } else if t == "a"@ || t == "all"@ {
        Response::All
    } else if t == "q"@ || t == "quit"@ {
        Response::Quit
    } else {
        Response::Unknown
    }
}

/// The answer that a trimmed, lower-cased input stands for.
pub fn response_of(t: &str) -> (r: Response)
    ensures
        r == response_for(t@),
{
    if same_text(t, "y") || same_text(t, "yes") {
        Response::Yes
    } else if same_text(t, "n") || same_text(t, "no") {
        Response::No
    } else if same_text(t, "a") || same_text(t, "all") {
        Response::All
    } else if same_text(t, "q") || same_text(t, "quit") {
        Response::Quit
    } else {
        Response::Unknown
    }
}

/// The answer in a line typed at the prompt (surrounding white space and
/// letter case do not matter).
pub fn parse_response(input: &str) -> (r: Response)
    ensures
        r == response_for(lower_of(trim_of(input@))),
{
    let lowered = lowercase(trim(input));
    response_of(lowered.as_str())
}

/// The state of a confirmation session over `n` results, taken in order.
pub struct Confirmation {
    /// The index of the result being asked about.
    pub next: usize,
    /// The indices of the confirmed results, ascending.
    pub confirmed: Vec<usize>,
    /// The session was ended by `All` or `Quit`.
    pub finished: bool,
}

/// A session over `n` results after one more answer: `Yes` confirms the
/// current result and moves on, `No` moves on, `All` confirms it and every
/// remaining one and ends, `Quit` ends, anything else asks again. An ended
/// or exhausted session stays as it is.
pub open spec fn step_after(st: (int, Seq<usize>, bool), n: int, response: Response) -> (int, Seq<usize>, bool) {
    if st.2 || st.0 >= n {
        st
    } else {
        match response {
            Response::Yes => (st.0 + 1, st.1.push(st.0 as usize), false),
            Response::No => (st.0 + 1, st.1, false),
            Response::All => (n, st.1 + index_range(st.0, n), true),
            Response::Quit => (st.0, st.1, true),
            Response::Unknown => st,
        }
    }
}

/// A session over `n` results after the answers `rs`, in order.
pub open spec fn session_after(n: int, rs: Seq<Response>) -> (int, Seq<usize>, bool)
    decreases rs.len(),
{
    if rs.len() == 0 {
        (0, Seq::empty(), false)
    } else {
        step_after(session_after(n, rs.drop_last()), n, rs.last())
    }
}

/// The indices `from..to`.
pub open spec fn index_range(from: int, to: int) -> Seq<usize> {
    Seq::new((if to > from { to - from } else { 0 }) as nat, |i: int| (from + i) as usize)
}

impl Confirmation {
    /// A session before the first answer.
    pub fn start() -> (r: Confirmation)
        ensures
            r.next == 0,
            r.confirmed@.len() == 0,
            !r.finished,
    {
        Confirmation { next: 0, confirmed: Vec::new(), finished: false }
    }

    /// No more answers are wanted for `n` results.
    pub open spec fn done(&self, n: usize) -> bool {
        self.finished || self.next >= n
    }

    /// Whether no more answers are wanted for `n` results.
    pub fn is_done(&self, n: usize) -> (r: bool)
        ensures
            r == self.done(n),
    {
        self.finished || self.next >= n
    }

    /// The session as plain values: next index, confirmed indices, ended.
    pub open spec fn view(&self) -> (int, Seq<usize>, bool) {
        (self.next as int, self.confirmed@, self.finished)
    }

    /// The session after an answer about result `next` of `n`.
    pub fn step(&mut self, n: usize, response: Response)
        ensures
            final(self).view() == step_after(old(self).view(), n as int, response),
    {
        if self.finished || self.next >= n {
            return;
        }
        match response {
            Response::Yes => {
                self.confirmed.push(self.next);
                self.next = self.next + 1;
            },
            Response::No => {
                self.next = self.next + 1;
            },
            Response::All => {
                let ghost before = self.confirmed@;
                let ghost from = self.next;
                let mut i = self.next;
                while i < n
                    invariant
                        from <= i <= n,
                        self.confirmed@ == before + index_range(from as int, i as int),
                    decreases n - i,
                {
                    self.confirmed.push(i);
                    assert(index_range(from as int, i + 1) =~= index_range(from as int, i as int).push(i));
                    i = i + 1;
                }
                self.next = n;
                self.finished = true;
            },
            Response::Quit => {
                self.finished = true;
            },
            Response::Unknown => {},
        }
    }
}

/// The confirmed indices after the answers `responses`, in order, over `n`
/// results; answers after the session ends are ignored.
pub fn confirm_all(n: usize, responses: &Vec<Response>) -> (r: Vec<usize>)
    ensures
        r@ == session_after(n as int, responses@).1,
{
    let mut c = Confirmation::start();
    let mut k: usize = 0;
    assert(c.view() =~= session_after(n as int, responses@.take(0)));
    while k < responses.len()
        invariant
            k <= responses@.len(),
            c.view() == session_after(n as int, responses@.take(k as int)),
        decreases responses.len() - k,
    {
        c.step(n, responses[k]);
        assert(responses@.take(k + 1).drop_last() =~= responses@.take(k as int));
        k = k + 1;
    }
    assert(responses@.take(responses@.len() as int) =~= responses@);
    c.confirmed
}

/// How a batch of results is handled.
#[derive(Clone, Copy, Debug, PartialEq, Eq, Structural)]
pub enum BatchMode {
    /// Show every preview; write nothing.
    Preview,
    /// Ask about each result in turn.
    Interactive,
    /// Write every result without asking.
    Write,
}

/// The handling that the options ask for: interactive first, then an
/// explicit preview, then writing; previewing by default.
pub open spec fn mode_for(cli: Cli) -> BatchMode {
    if cli.interactive {
        BatchMode::Interactive
    } else if cli.preview {
        BatchMode::Preview
    } else if cli.write {
        BatchMode::Write
    } else {
        BatchMode::Preview
    }
}

/// The handling that the options ask for.
pub fn batch_mode(cli: &Cli) -> (r: BatchMode)
    ensures
        r == mode_for(*cli),
{
    if cli.interactive {
        BatchMode::Interactive
    } else if cli.preview {
        BatchMode::Preview
    } else if cli.write {
        BatchMode::Write
    } else {
        BatchMode::Preview
    }
}

/// The indices of the results to write, of `n` computed ones: in the
/// interactive mode the confirmed ones where writing is asked for, else
/// none; every one in the writing mode; none in the preview mode.
pub fn results_to_write(mode: BatchMode, write: bool, n: usize, confirmed: &Vec<usize>) -> (r: Vec<usize>)
    ensures
        r@ == match mode {
            BatchMode::Interactive => if write { confirmed@ } else { Seq::empty() },
            BatchMode::Write => index_range(0, n as int),
            BatchMode::Preview => Seq::empty(),
        },
{
    match mode {
        BatchMode::Interactive => {
            if write {
                confirmed.clone()
            } else {
                Vec::new()
            }
        },
        BatchMode::Write => {
            let mut out: Vec<usize> = Vec::new();
            let mut i: usize = 0;
            while i < n
                invariant
                    i <= n,
                    out@ == index_range(0, i as int),
                decreases n - i,
            {
                out.push(i);
                assert(index_range(0, i + 1) =~= index_range(0, i as int).push(i));
                i = i + 1;
            }
            assert(out@ =~= index_range(0, n as int));
            out
        },
        BatchMode::Preview => Vec::new(),
    }
}

} // verus!
