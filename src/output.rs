//! Text escaping for the structured result formats.

use vstd::prelude::*;
use crate::text::{chars_of, string_of, concat, replace_all, replaced};

verus! {

/// The XML/HTML entity text of one character.
pub open spec fn escape_char(c: char) -> Seq<char> {
    if c == '&' {
        "&amp;"@
    } else if c == '<' {
        "&lt;"@
    } else if c == '>' {
        "&gt;"@
    } else if c == '"' {
        "&quot;"@
    } else if c == '\'' {
        "&#39;"@
    } else {
        seq![c]
    }
}

/// `s` with each of `& < > " '` written as its entity.
pub open spec fn escaped(s: Seq<char>) -> Seq<char>
    decreases s.len(),
{
    if s.len() == 0 {
        Seq::empty()
    } else {
        escaped(s.drop_last()) + escape_char(s.last())
    }
}

/// `text` with each of `& < > " '` written as its entity.
pub fn html_escape(text: &str) -> (r: String)
    ensures
        r@ == escaped(text@),
{
    let cs = chars_of(text);
    let mut out: Vec<char> = Vec::new();
    let mut i: usize = 0;
    while i < cs.len()
        invariant
            cs@ == text@,
            i <= cs.len(),
            out@ == escaped(cs@.take(i as int)),
        decreases cs.len() - i,
    {
        let c = cs[i];
        let piece: &str = if c == '&' {
            "&amp;"
        } else if c == '<' {
            "&lt;"
        } else if c == '>' {
            "&gt;"
        } else if c == '"' {
            "&quot;"
        } else if c == '\'' {
            "&#39;"
        } else {
            ""
        };
        assert(cs@.take(i + 1).drop_last() =~= cs@.take(i as int));
        let ghost before = out@;
        if c == '&' || c == '<' || c == '>' || c == '"' || c == '\'' {
            let mut pc = chars_of(piece);
            out.append(&mut pc);
        } else {
            out.push(c);
        }
        assert(out@ =~= escaped(cs@.take(i + 1)));
        i = i + 1;
    }
    assert(cs@.take(cs.len() as int) =~= cs@);
    string_of(out.as_slice())
}

/// `s` as a quoted CSV field: in double quotes, each inner quote doubled.
pub open spec fn csv_quoted(s: Seq<char>) -> Seq<char> {
    "\""@ + replaced(s, "\""@, "\"\""@) + "\""@
}

/// `text` as a quoted CSV field.
pub fn csv_quote(text: &str) -> (r: String)
    ensures
        r@ == csv_quoted(text@),
{
    proof {
        reveal_strlit("\"");
    }
    let inner = replace_all(text, "\"", "\"\"");
    let front = concat("\"", inner.as_str());
    concat(front.as_str(), "\"")
}

} // verus!
