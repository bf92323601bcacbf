//! The two regular-expression engines behind the pattern matcher: a plain
//! engine and a backtracking one that supports look-around.

use vstd::prelude::*;
use crate::matcher::Match;
use crate::text::bytes_of;
use vstd::utf8::is_char_boundary;

verus! {

#[verifier::external_type_specification]
#[verifier::external_body]
pub struct ExRegex(regex::Regex);

#[verifier::external_type_specification]
#[verifier::external_body]
pub struct ExRegexError(regex::Error);

#[verifier::external_type_specification]
#[verifier::external_body]
pub struct ExFancyRegex(fancy_regex::Regex);

#[verifier::external_type_specification]
#[verifier::external_body]
pub struct ExFancyError(fancy_regex::Error);

/// The plain engine accepts pattern `p` with the given case sensitivity.
pub uninterp spec fn plain_accepts(p: Seq<char>, case_insensitive: bool) -> bool;

/// The successive non-overlapping match spans (byte offsets) of the plain
/// engine for pattern `p` over `text`.
pub uninterp spec fn plain_spans(p: Seq<char>, case_insensitive: bool, text: Seq<char>) -> Seq<(int, int)>;

/// The backtracking engine accepts pattern `p`.
pub uninterp spec fn fancy_accepts(p: Seq<char>) -> bool;

/// The successive non-overlapping match spans (byte offsets) of the
/// backtracking engine for pattern `p` over `text`, leaving out any search
/// step that ended in an engine error.
pub uninterp spec fn fancy_spans(p: Seq<char>, text: Seq<char>) -> Seq<(int, int)>;

/// `m` is the span `sp` of the text whose bytes are `tb`, on character
/// boundaries, with the bytes it covers.
pub open spec fn span_is(m: Match, sp: (int, int), tb: Seq<u8>) -> bool {
    &&& 0 <= sp.0 <= sp.1 <= tb.len()
    &&& is_char_boundary(tb, sp.0)
    &&& is_char_boundary(tb, sp.1)
    &&& m.start == sp.0
    &&& m.end == sp.1
    &&& bytes_of(m.text@) == tb.subrange(sp.0, sp.1)
}

/// `ms` are exactly the spans `spans` of the text whose bytes are `tb`: same
/// number, same order, same offsets, and each match carries the bytes it covers.
pub open spec fn spans_match(ms: Seq<Match>, spans: Seq<(int, int)>, tb: Seq<u8>) -> bool {
    &&& ms.len() == spans.len()
    &&& forall|k: int| 0 <= k < ms.len() ==> #[trigger] span_is(ms[k], spans[k], tb)
}

/// A compiled pattern of the plain engine, with the source it was built from.
pub struct PlainRegex {
    re: regex::Regex,
    source: String,
    case_insensitive: bool,
}

impl PlainRegex {
    pub closed spec fn source(&self) -> Seq<char> {
        self.source@
    }

    pub closed spec fn case_insensitive(&self) -> bool {
        self.case_insensitive
    }

    /// Relies on `regex::RegexBuilder::build`: it fails exactly when the
    /// engine rejects the pattern under the given case sensitivity.
    #[verifier::external_body]
    pub(crate) fn compile(p: &str, case_insensitive: bool) -> (r: Result<PlainRegex, regex::Error>)
        ensures
            r.is_ok() == plain_accepts(p@, case_insensitive),
            r matches Ok(b) ==> b.source() == p@ && b.case_insensitive() == case_insensitive,
    {
        let mut builder = regex::RegexBuilder::new(p);
        builder.case_insensitive(case_insensitive);
        builder.build().map(|re| PlainRegex { re, source: p.to_string(), case_insensitive })
    }

    /// Relies on `regex::Regex::find_iter`: the successive non-overlapping
    /// matches, in order, each with its byte offsets (on character
    /// boundaries of the haystack) and the text between them.
    #[verifier::external_body]
    pub(crate) fn find_all(&self, text: &str) -> (r: Vec<Match>)
        ensures
            spans_match(r@, plain_spans(self.source(), self.case_insensitive(), text@), bytes_of(text@)),
            forall|k: int| 0 < k < r@.len() ==> r@[k - 1].end <= #[trigger] r@[k].start,
    {
        self.re.find_iter(text).map(|m| Match { start: m.start(), end: m.end(), text: m.as_str().to_string() }).collect()
    }
}

/// A compiled pattern of the backtracking engine, with its source.
pub struct FancyRegex {
    re: fancy_regex::Regex,
    source: String,
}

impl FancyRegex {
    pub closed spec fn source(&self) -> Seq<char> {
        self.source@
    }

    /// Relies on `fancy_regex::Regex::new`: it fails exactly when the engine
    /// rejects the pattern.
    #[verifier::external_body]
    pub(crate) fn compile(p: &str) -> (r: Result<FancyRegex, fancy_regex::Error>)
        ensures
            r.is_ok() == fancy_accepts(p@),
            r matches Ok(b) ==> b.source() == p@,
    {
        fancy_regex::Regex::new(p).map(|re| FancyRegex { re, source: p.to_string() })
    }

    /// Relies on `fancy_regex::Regex::find_iter`: the successive
    /// non-overlapping matches that the engine reports without error, in
    /// order, each with its byte offsets (on character boundaries of the
    /// haystack) and the text between them.
    #[verifier::external_body]
    pub(crate) fn find_all(&self, text: &str) -> (r: Vec<Match>)
        ensures
            spans_match(r@, fancy_spans(self.source(), text@), bytes_of(text@)),
            forall|k: int| 0 < k < r@.len() ==> r@[k - 1].end <= #[trigger] r@[k].start,
    {
        self.re.find_iter(text).filter_map(|m| m.ok()).map(|m| Match { start: m.start(), end: m.end(), text: m.as_str().to_string() }).collect()
    }
}

} // verus!
