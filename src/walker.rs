//! Decisions about which enumerated files are searched: extension and type
//! filters, size and age limits, and the binary-content check.

use vstd::prelude::*;
use crate::cli::Cli;
use crate::text::{chars_of, string_of, has_suffix, lower_of, trim_of, lowercase, trim, ends_with, same_text, opt_view};

verus! {

/// `t` is an ASCII decimal digit string, not empty.
pub open spec fn all_digits(t: Seq<char>) -> bool {
    t.len() > 0 && forall|i: int| 0 <= i < t.len() ==> '0' <= #[trigger] t[i] && t[i] <= '9'
}

/// The value of a string of decimal digits.
pub open spec fn digits_value(t: Seq<char>) -> nat
    decreases t.len(),
{
    if t.len() == 0 {
        0
    } else {
        digits_value(t.drop_last()) * 10 + ((t.last() as u32) - ('0' as u32)) as nat
    }
}

/// The number that `t` spells as `u64`'s `FromStr` reads it: an optional
/// `+`, then decimal digits; `None` where it spells none or one too large.
pub open spec fn u64_value(t: Seq<char>) -> Option<u64> {
    let body = if t.len() > 0 && t[0] == '+' { t.drop_first() } else { t };
    if all_digits(body) && digits_value(body) <= u64::MAX {
        Some(digits_value(body) as u64)
    } else {
        None
    }
}

proof fn lemma_digits_grow(t: Seq<char>, i: int)
    requires
        0 <= i <= t.len(),
        all_digits(t) || t.len() == 0,
    ensures
        digits_value(t.take(i)) <= digits_value(t),
    decreases t.len() - i,
{
    if i < t.len() {
        lemma_digits_grow(t, i + 1);
        assert(t.take(i + 1).drop_last() =~= t.take(i));
        assert(t[i] >= '0');
    } else {
        assert(t.take(i) =~= t);
    }
}

/// The number that `t` spells, read as `u64`'s `FromStr` does.
pub fn parse_u64(t: &str) -> (r: Option<u64>)
    ensures
        r == u64_value(t@),
{
    let cs = chars_of(t);
    let start: usize = if cs.len() > 0 && cs[0] == '+' { 1 } else { 0 };
    let ghost body = if t@.len() > 0 && t@[0] == '+' { t@.drop_first() } else { t@ };
    assert(body =~= cs@.subrange(start as int, cs@.len() as int));
    if start >= cs.len() {
        assert(body.len() == 0);
        return None;
    }
    let mut acc: u64 = 0;
    let mut i: usize = start;
    while i < cs.len()
        invariant
            cs@ == t@,
            start <= i <= cs@.len(),
            body == cs@.subrange(start as int, cs@.len() as int),
            body == (if t@.len() > 0 && t@[0] == '+' { t@.drop_first() } else { t@ }),
            forall|j: int| 0 <= j < i - start ==> '0' <= #[trigger] body[j] && body[j] <= '9',
            acc as nat == digits_value(body.take(i - start)),
        decreases cs.len() - i,
    {
        let c = cs[i];
        if !('0' <= c && c <= '9') {
            assert(!all_digits(body)) by {
                assert(body[i - start] == c);
            }
            return None;
        }
        let d = (c as u32 - '0' as u32) as u64;
        assert(body.take(i - start + 1).drop_last() =~= body.take(i - start));
        assert(body.take(i - start + 1).last() == c);
        assert(digits_value(body.take(i - start + 1)) == acc * 10 + d);
        match acc.checked_mul(10) {
            Some(m) => match m.checked_add(d) {
                Some(v) => {
                    acc = v;
                },
                None => {
                    proof {
                        assert(all_digits(body) ==> digits_value(body.take(i - start + 1)) <= digits_value(body)) by {
                            if all_digits(body) {
                                lemma_digits_grow(body, i - start + 1);
                            }
                        }
                    }
                    return None;
                },
            },
            None => {
                proof {
                    assert(all_digits(body) ==> digits_value(body.take(i - start + 1)) <= digits_value(body)) by {
                        if all_digits(body) {
                            lemma_digits_grow(body, i - start + 1);
                        }
                    }
                }
                return None;
            },
        }
        i = i + 1;
    }
    assert(body.take(body.len() as int) =~= body);
    Some(acc)
}

/// The size in bytes that a normalized size text `t` (trimmed, lower case)
/// names: a number with an optional `k`, `m` or `g` suffix for binary
/// kilo-, mega- and gigabytes. `None` where it names none or one beyond
/// `u64`.
pub open spec fn size_value(t: Seq<char>) -> Option<u64> {
    let scaled = |n: Option<u64>, f: nat| match n {
        Some(v) => if v * f <= u64::MAX { Some((v * f) as u64) } else { None },
        None => None,
    };
    if has_suffix(t, "k"@) {
        scaled(u64_value(t.drop_last()), 1024)
    } else if has_suffix(t, "m"@) {
        scaled(u64_value(t.drop_last()), 1048576)
    } else if has_suffix(t, "g"@) {
        scaled(u64_value(t.drop_last()), 1073741824)
    } else {
        u64_value(t)
    }
}

/// The number in `t` without its last character, times `factor`.
fn scaled_prefix(t: &str, factor: u64) -> (r: Option<u64>)
    requires
        t@.len() > 0,
    ensures
        r == match u64_value(t@.drop_last()) {
            Some(v) => if v * factor <= u64::MAX { Some((v * factor) as u64) } else { None },
            None => None,
        },
{
    let cs = chars_of(t);
    let body = string_of(&cs.as_slice()[0..cs.len() - 1]);
    assert(body@ =~= t@.drop_last());
    match parse_u64(body.as_str()) {
        Some(v) => v.checked_mul(factor),
        None => None,
    }
}

/// The size that the normalized text `t` names.
pub fn parse_size_normalized(t: &str) -> (r: Option<u64>)
    ensures
        r == size_value(t@),
{
    proof {
        reveal_strlit("k");
        reveal_strlit("m");
        reveal_strlit("g");
    }
    if ends_with(t, "k") {
        scaled_prefix(t, 1024)
    } else if ends_with(t, "m") {
        scaled_prefix(t, 1048576)
    } else if ends_with(t, "g") {
        scaled_prefix(t, 1073741824)
    } else {
        parse_u64(t)
    }
}

/// The size that `s` names, read after trimming and lower-casing it.
pub fn parse_size(s: &str) -> (r: Option<u64>)
    ensures
        r == size_value(lower_of(trim_of(s@))),
{
    let t = lowercase(trim(s));
    parse_size_normalized(t.as_str())
}

/// The seconds that a normalized duration text `t` names: a number with an
/// optional `s`, `m`, `h` or `d` suffix. `None` where it names none or one
/// beyond `u64`.
pub open spec fn duration_value(t: Seq<char>) -> Option<u64> {
    let scaled = |n: Option<u64>, f: nat| match n {
        Some(v) => if v * f <= u64::MAX { Some((v * f) as u64) } else { None },
        None => None,
    };
    if has_suffix(t, "s"@) {
        u64_value(t.drop_last())
    } else if has_suffix(t, "m"@) {
        scaled(u64_value(t.drop_last()), 60)
    } else if has_suffix(t, "h"@) {
        scaled(u64_value(t.drop_last()), 3600)
    } else if has_suffix(t, "d"@) {
        scaled(u64_value(t.drop_last()), 86400)
    } else {
        u64_value(t)
    }
}

/// The seconds that the normalized text `t` names.
pub fn parse_duration_normalized(t: &str) -> (r: Option<u64>)
    ensures
        r == duration_value(t@),
{
    proof {
        reveal_strlit("s");
        reveal_strlit("m");
        reveal_strlit("h");
        reveal_strlit("d");
    }
    if ends_with(t, "s") {
        scaled_prefix(t, 1)
    } else if ends_with(t, "m") {
        scaled_prefix(t, 60)
    } else if ends_with(t, "h") {
        scaled_prefix(t, 3600)
    } else if ends_with(t, "d") {
        scaled_prefix(t, 86400)
    } else {
        parse_u64(t)
    }
}

/// The seconds that `s` names, read after trimming and lower-casing it.
pub fn parse_duration_secs(s: &str) -> (r: Option<u64>)
    ensures
        r == duration_value(lower_of(trim_of(s@))),
{
    let t = lowercase(trim(s));
    parse_duration_normalized(t.as_str())
}

/// The name of what `Duration::from_secs` gives for `n` seconds.
pub uninterp spec fn duration_of(n: u64) -> std::time::Duration;

/// Relies on `std::time::Duration::from_secs`: a duration of `n` seconds,
/// a function of `n` alone.
#[verifier::external_body]
fn duration_from_secs(n: u64) -> (r: std::time::Duration)
    ensures
        r == duration_of(n),
{
    std::time::Duration::from_secs(n)
}

/// The duration that `s` names, read after trimming and lower-casing it;
/// `None` exactly where it names none.
pub fn parse_duration(s: &str) -> (r: Option<std::time::Duration>)
    ensures
        r == match duration_value(lower_of(trim_of(s@))) {
            Some(n) => Some(duration_of(n)),
            None => None,
        },
{
    match parse_duration_secs(s) {
        Some(n) => Some(duration_from_secs(n)),
        None => None,
    }
}

/// The file type `t` (a name or an alias) covers extension `e`.
pub open spec fn type_covers(t: Seq<char>, e: Seq<char>) -> bool {
    if t == "rust"@ || t == "rs"@ {
        e == "rs"@
    } else if t == "go"@ {
        e == "go"@
    } else if t == "js"@ || t == "javascript"@ {
        e == "js"@
    } else if t == "ts"@ || t == "typescript"@ {
        e == "ts"@
    } else if t == "jsx"@ {
        e == "jsx"@
    } else if t == "tsx"@ {
        e == "tsx"@
    } else if t == "py"@ || t == "python"@ {
        e == "py"@
    } else if t == "java"@ {
        e == "java"@
    } else if t == "c"@ {
        e == "c"@
    } else if t == "cpp"@ || t == "cxx"@ || t == "cc"@ {
        e == "cpp"@ || e == "cxx"@ || e == "cc"@ || e == "hpp"@
    } else if t == "h"@ {
        e == "h"@
    } else if t == "json"@ {
        e == "json"@
    } else if t == "yaml"@ || t == "yml"@ {
        e == "yaml"@ || e == "yml"@
    } else if t == "toml"@ {
        e == "toml"@
    } else if t == "md"@ || t == "markdown"@ {
        e == "md"@ || e == "markdown"@
    } else if t == "txt"@ || t == "text"@ {
        e == "txt"@
    } else {
        false
    }
}

/// Whether the file type `t` covers extension `e`.
pub fn type_matches(t: &str, e: &str) -> (r: bool)
    ensures
        r == type_covers(t@, e@),
{
    if same_text(t, "rust") || same_text(t, "rs") {
        same_text(e, "rs")
    } else if same_text(t, "go") {
        same_text(e, "go")
    } else if same_text(t, "js") || same_text(t, "javascript") {
        same_text(e, "js")
    } else if same_text(t, "ts") || same_text(t, "typescript") {
        same_text(e, "ts")
    } else if same_text(t, "jsx") {
        same_text(e, "jsx")
    } else if same_text(t, "tsx") {
        same_text(e, "tsx")
    } else if same_text(t, "py") || same_text(t, "python") {
        same_text(e, "py")
    } else if same_text(t, "java") {
        same_text(e, "java")
    } else if same_text(t, "c") {
        same_text(e, "c")
    } else if same_text(t, "cpp") || same_text(t, "cxx") || same_text(t, "cc") {
        same_text(e, "cpp") || same_text(e, "cxx") || same_text(e, "cc") || same_text(e, "hpp")
    } else if same_text(t, "h") {
        same_text(e, "h")
    } else if same_text(t, "json") {
        same_text(e, "json")
    } else if same_text(t, "yaml") || same_text(t, "yml") {
        same_text(e, "yaml") || same_text(e, "yml")
    } else if same_text(t, "toml") {
        same_text(e, "toml")
    } else if same_text(t, "md") || same_text(t, "markdown") {
        same_text(e, "md") || same_text(e, "markdown")
    } else if same_text(t, "txt") || same_text(t, "text") {
        same_text(e, "txt")
    } else {
        false
    }
}

/// A file with extension `ext` passes the extension and type filters of
/// `cli`: with extensions listed, it has one of them; with types listed,
/// one of them covers its extension (none counts as empty).
pub open spec fn name_allowed(ext: Option<Seq<char>>, cli: Cli) -> bool {
    &&& cli.ext@.len() > 0 ==> match ext {
        Some(e) => exists|i: int| 0 <= i < cli.ext@.len() && #[trigger] cli.ext@[i]@ == e,
        None => false,
    }
    &&& cli.types@.len() > 0 ==> exists|i: int|
        0 <= i < cli.types@.len() && type_covers(#[trigger] cli.types@[i]@, match ext {
            Some(e) => e,
            None => Seq::empty(),
        })
}

/// Whether a file with extension `ext` passes the extension and type
/// filters of `cli`.
pub fn passes_name_filters(ext: Option<&str>, cli: &Cli) -> (r: bool)
    ensures
        r == name_allowed(opt_view(ext), *cli),
{
    if cli.ext.len() > 0 {
        match ext {
            Some(e) => {
                let mut found = false;
                let mut i: usize = 0;
                while i < cli.ext.len()
                    invariant
                        i <= cli.ext@.len(),
                        found == exists|j: int| 0 <= j < i && #[trigger] cli.ext@[j]@ == e@,
                    decreases cli.ext.len() - i,
                {
                    if same_text(cli.ext[i].as_str(), e) {
                        found = true;
                    }
                    i = i + 1;
                }
                if !found {
                    return false;
                }
            },
            None => {
                return false;
            },
        }
    }
    if cli.types.len() > 0 {
        let e: &str = match ext {
            Some(x) => x,
            None => "",
        };
        proof {
            reveal_strlit("");
        }
        let ghost ev = match opt_view(ext) {
            Some(x) => x,
            None => Seq::<char>::empty(),
        };
        assert(e@ == ev);
        let mut covered = false;
        let mut i: usize = 0;
        while i < cli.types.len()
            invariant
                i <= cli.types@.len(),
                e@ == ev,
                covered == exists|j: int| 0 <= j < i && type_covers(#[trigger] cli.types@[j]@, ev),
            decreases cli.types.len() - i,
        {
            if type_matches(cli.types[i].as_str(), e) {
                covered = true;
            }
            i = i + 1;
        }
        return covered;
    }
    true
}

/// A file of `len` bytes is within the size limit `max` (the text of a
/// size; one that names no size sets no limit).
pub open spec fn size_allowed(len: u64, max: Option<Seq<char>>) -> bool {
    match max {
        Some(m) => match size_value(lower_of(trim_of(m))) {
            Some(limit) => len <= limit,
            None => true,
        },
        None => true,
    }
}

/// Whether a file of `len` bytes is within the size limit `max`.
pub fn within_size(len: u64, max: Option<&str>) -> (r: bool)
    ensures
        r == size_allowed(len, opt_view(max)),
{
    match max {
        Some(m) => match parse_size(m) {
            Some(limit) => len <= limit,
            None => true,
        },
        None => true,
    }
}

/// A file modified `secs` seconds and `nanos` nanoseconds ago is within
/// the age limit `within` (the text of a duration; one that names none sets
/// no limit).
pub open spec fn age_allowed(secs: u64, nanos: u32, within: Option<Seq<char>>) -> bool {
    match within {
        Some(w) => match duration_value(lower_of(trim_of(w))) {
            Some(limit) => secs < limit || (secs == limit && nanos == 0),
            None => true,
        },
        None => true,
    }
}

/// Whether a file modified `secs` seconds and `nanos` nanoseconds ago is
/// within the age limit `within`.
pub fn within_age(secs: u64, nanos: u32, within: Option<&str>) -> (r: bool)
    ensures
        r == age_allowed(secs, nanos, opt_view(within)),
{
    match within {
        Some(w) => match parse_duration_secs(w) {
            Some(limit) => secs < limit || (secs == limit && nanos == 0),
            None => true,
        },
        None => true,
    }
}

/// Whether the leading bytes of a file hold a zero byte, which marks it
/// as binary.
pub fn looks_binary(head: &[u8]) -> (r: bool)
    ensures
        r == exists|i: int| 0 <= i < head@.len() && head@[i] == 0,
{
    let mut i: usize = 0;
    while i < head.len()
        invariant
            i <= head@.len(),
            forall|j: int| 0 <= j < i ==> head@[j] != 0,
        decreases head.len() - i,
    {
        if head[i] == 0 {
            return true;
        }
        i = i + 1;
    }
    false
}

} // verus!
