//! Text primitives over the character and byte views of strings.

use vstd::prelude::*;
use vstd::utf8::*;

verus! {

/// The UTF-8 encoding of a character sequence.
pub open spec fn bytes_of(s: Seq<char>) -> Seq<u8> {
    encode_utf8(s)
}

/// `s` begins with `p`.
pub open spec fn has_prefix(s: Seq<char>, p: Seq<char>) -> bool {
    p.len() <= s.len() && s.subrange(0, p.len() as int) == p
}

/// `s` ends with `p`.
pub open spec fn has_suffix(s: Seq<char>, p: Seq<char>) -> bool {
    p.len() <= s.len() && s.subrange(s.len() - p.len(), s.len() as int) == p
}

/// `p` occurs in `s` starting at index `i`.
pub open spec fn occurs_at<T>(s: Seq<T>, p: Seq<T>, i: int) -> bool {
    0 <= i && i + p.len() <= s.len() && s.subrange(i, i + p.len()) == p
}

/// `p` occurs somewhere in `s`.
pub open spec fn has_infix(s: Seq<char>, p: Seq<char>) -> bool {
    exists|i: int| occurs_at(s, p, i)
}

/// The name of what `str::to_lowercase` returns.
pub uninterp spec fn lower_of(s: Seq<char>) -> Seq<char>;

/// The name of what `str::trim` returns.
pub uninterp spec fn trim_of(s: Seq<char>) -> Seq<char>;

/// Relies on `str::to_lowercase`: the result depends on the characters alone.
#[verifier::external_body]
pub fn lowercase(s: &str) -> (r: String)
    ensures
        r@ == lower_of(s@),
{
    s.to_lowercase()
}

/// Relies on `str::trim`: the result depends on the characters alone.
#[verifier::external_body]
pub fn trim(s: &str) -> (r: &str)
    ensures
        r@ == trim_of(s@),
{
    s.trim()
}

/// Relies on `str::chars`: the characters of `s`, in order.
#[verifier::external_body]
pub(crate) fn chars_of(s: &str) -> (r: Vec<char>)
    ensures
        r@ == s@,
{
    s.chars().collect()
}

/// Relies on `FromIterator<char>` for `String`: the string of these characters.
#[verifier::external_body]
pub(crate) fn string_of(cs: &[char]) -> (r: String)
    ensures
        r@ == cs@,
{
    cs.iter().collect()
}

/// Relies on range indexing of `str`: the bytes `a..b` of `s`, which lie on
/// character boundaries.
#[verifier::external_body]
pub(crate) fn byte_slice(s: &str, a: usize, b: usize) -> (r: String)
    requires
        a <= b <= bytes_of(s@).len(),
        is_char_boundary(bytes_of(s@), a as int),
        is_char_boundary(bytes_of(s@), b as int),
    ensures
        bytes_of(r@) == bytes_of(s@).subrange(a as int, b as int),
{
    s[a..b].to_string()
}

/// Whether `p` occurs in `s` at index `i`.
pub fn chars_occur_at(s: &[char], p: &[char], i: usize) -> (r: bool)
    ensures
        r == occurs_at(s@, p@, i as int),
{
    if i > s.len() || p.len() > s.len() - i {
        return false;
    }
    let mut k: usize = 0;
    while k < p.len()
        invariant
            i + p.len() <= s.len(),
            k <= p.len(),
            forall|j: int| 0 <= j < k ==> s@[i + j] == p@[j],
        decreases p.len() - k,
    {
        if s[i + k] != p[k] {
            assert(s@.subrange(i as int, i + p.len())[k as int] != p@[k as int]);
            return false;
        }
        k = k + 1;
    }
    assert(s@.subrange(i as int, i + p.len()) =~= p@);
    true
}

/// Whether `s` begins with `p`.
pub fn starts_with(s: &str, p: &str) -> (r: bool)
    ensures
        r == has_prefix(s@, p@),
{
    let sc = chars_of(s);
    let pc = chars_of(p);
    chars_occur_at(sc.as_slice(), pc.as_slice(), 0)
}

/// Whether `s` ends with `p`.
pub fn ends_with(s: &str, p: &str) -> (r: bool)
    ensures
        r == has_suffix(s@, p@),
{
    let sc = chars_of(s);
    let pc = chars_of(p);
    if pc.len() > sc.len() {
        return false;
    }
    chars_occur_at(sc.as_slice(), pc.as_slice(), sc.len() - pc.len())
}

/// The first index at or after `from` where `p` occurs in `s`.
pub fn find_chars_from(s: &[char], p: &[char], from: usize) -> (r: Option<usize>)
    ensures
        match r {
            Some(i) => from <= i && occurs_at(s@, p@, i as int) && forall|j: int|
                from <= j < i ==> !occurs_at(s@, p@, j),
            None => forall|j: int| from <= j ==> !occurs_at(s@, p@, j),
        },
{
    if p.len() > s.len() || from > s.len() - p.len() {
        return None;
    }
    let last = s.len() - p.len();
    let mut i: usize = from;
    while i < last
        invariant
            from <= i <= last,
            last + p.len() == s.len(),
            forall|j: int| from <= j < i ==> !occurs_at(s@, p@, j),
        decreases last - i,
    {
        if chars_occur_at(s, p, i) {
            return Some(i);
        }
        i = i + 1;
    }
    if chars_occur_at(s, p, last) {
        Some(last)
    } else {
        None
    }
}

/// Whether `p` occurs anywhere in `s`.
pub fn contains(s: &str, p: &str) -> (r: bool)
    ensures
        r == has_infix(s@, p@),
{
    let sc = chars_of(s);
    let pc = chars_of(p);
    match find_chars_from(sc.as_slice(), pc.as_slice(), 0) {
        Some(i) => true,
        None => false,
    }
}

/// Whether the bytes `p` occur in `s` at index `i`.
pub fn bytes_occur_at(s: &[u8], p: &[u8], i: usize) -> (r: bool)
    ensures
        r == occurs_at(s@, p@, i as int),
{
    if i > s.len() || p.len() > s.len() - i {
        return false;
    }
    let mut k: usize = 0;
    while k < p.len()
        invariant
            i + p.len() <= s.len(),
            k <= p.len(),
            forall|j: int| 0 <= j < k ==> s@[i + j] == p@[j],
        decreases p.len() - k,
    {
        if s[i + k] != p[k] {
            assert(s@.subrange(i as int, i + p.len())[k as int] != p@[k as int]);
            return false;
        }
        k = k + 1;
    }
    assert(s@.subrange(i as int, i + p.len()) =~= p@);
    true
}

/// The concatenation of `a` and `b`.
pub fn concat(a: &str, b: &str) -> (r: String)
    ensures
        r@ == a@ + b@,
{
    let mut ca = chars_of(a);
    let mut cb = chars_of(b);
    ca.append(&mut cb);
    string_of(ca.as_slice())
}

/// `parts` joined with `sep` between neighbours.
pub open spec fn joined(parts: Seq<Seq<char>>, sep: Seq<char>) -> Seq<char>
    decreases parts.len(),
{
    if parts.len() == 0 {
        Seq::empty()
    } else if parts.len() == 1 {
        parts[0]
    } else {
        joined(parts.drop_last(), sep) + sep + parts.last()
    }
}

/// The views of a list of strings.
pub open spec fn views(v: Seq<String>) -> Seq<Seq<char>> {
    v.map_values(|s: String| s@)
}

/// `parts` joined with `sep` between neighbours.
pub fn join(parts: &Vec<String>, sep: &str) -> (r: String)
    ensures
        r@ == joined(views(parts@), sep@),
{
    let mut out: Vec<char> = Vec::new();
    let sc = chars_of(sep);
    let mut i: usize = 0;
    while i < parts.len()
        invariant
            i <= parts.len(),
            sc@ == sep@,
            out@ == joined(views(parts@).take(i as int), sep@),
        decreases parts.len() - i,
    {
        let mut pc = chars_of(parts[i].as_str());
        assert(views(parts@).take(i + 1).drop_last() =~= views(parts@).take(i as int));
        if i > 0 {
            let mut s2 = sc.clone();
            assert(s2@ =~= sc@);
            out.append(&mut s2);
        }
        out.append(&mut pc);
        i = i + 1;
    }
    assert(views(parts@).take(parts.len() as int) =~= views(parts@));
    string_of(out.as_slice())
}

/// The index of the first line feed in `s`, or its length if none.
pub open spec fn first_newline(s: Seq<char>) -> int
    decreases s.len(),
{
    if s.len() == 0 {
        0
    } else if s[0] == '\n' {
        0
    } else {
        1 + first_newline(s.drop_first())
    }
}

/// `s` without one trailing carriage return.
pub open spec fn strip_cr(s: Seq<char>) -> Seq<char> {
    if s.len() > 0 && s.last() == '\r' {
        s.drop_last()
    } else {
        s
    }
}

/// The lines of `s`: split at each line feed, a carriage return before a
/// line feed dropped, no empty line after a final line feed.
pub open spec fn lines_of(s: Seq<char>) -> Seq<Seq<char>>
    decreases s.len(),
{
    if s.len() == 0 {
        Seq::empty()
    } else {
        let k = first_newline(s);
        if !(0 <= k < s.len()) {
            seq![s]
        } else {
            seq![strip_cr(s.subrange(0, k))] + lines_of(s.subrange(k + 1, s.len() as int))
        }
    }
}

proof fn lemma_first_newline(s: Seq<char>, k: int)
    requires
        0 <= k <= s.len(),
        forall|j: int| 0 <= j < k ==> s[j] != '\n',
        k == s.len() || s[k] == '\n',
    ensures
        first_newline(s) == k,
    decreases k,
{
    if k > 0 {
        lemma_first_newline(s.drop_first(), k - 1);
    }
}

/// The lines of `s`, as `str::lines` gives them.
pub fn split_lines(s: &str) -> (r: Vec<String>)
    ensures
        views(r@) == lines_of(s@),
{
    let cs = chars_of(s);
    let mut out: Vec<String> = Vec::new();
    let mut start: usize = 0;
    let mut i: usize = 0;
    assert(cs@.subrange(0, cs.len() as int) =~= cs@);
    assert(views(out@) + lines_of(s@) =~= lines_of(s@));
    while i < cs.len()
        invariant
            cs@ == s@,
            start <= i <= cs.len(),
            forall|j: int| start <= j < i ==> cs@[j] != '\n',
            views(out@) + lines_of(cs@.subrange(start as int, cs.len() as int)) == lines_of(s@),
        decreases cs.len() - i,
    {
        if cs[i] == '\n' {
            let ghost rest = cs@.subrange(start as int, cs.len() as int);
            proof {
                lemma_first_newline(rest, i - start);
                assert(rest.subrange(0, i - start) == cs@.subrange(start as int, i as int));
                assert(rest.subrange(i - start + 1, rest.len() as int) == cs@.subrange(i + 1, cs.len() as int));
            }
            let mut end = i;
            if end > start && cs[end - 1] == '\r' {
                end = end - 1;
            }
            let line = string_of(&cs.as_slice()[start..end]);
            proof {
                assert(line@ == strip_cr(cs@.subrange(start as int, i as int)));
            }
            let ghost before = out@;
            out.push(line);
            proof {
                assert(views(out@) == views(before).push(line@));
            }
            start = i + 1;
        }
        i = i + 1;
    }
    if start < cs.len() {
        let ghost rest = cs@.subrange(start as int, cs.len() as int);
        proof {
            lemma_first_newline(rest, rest.len() as int);
        }
        let line = string_of(&cs.as_slice()[start..cs.len()]);
        let ghost before = out@;
        out.push(line);
        proof {
            assert(views(out@) == views(before).push(line@));
            assert(line@ == rest);
        }
    } else {
        assert(views(out@) + lines_of(cs@.subrange(start as int, cs.len() as int)) == views(out@));
    }
    out
}

/// Whether `a` and `b` hold the same characters.
pub fn same_text(a: &str, b: &str) -> (r: bool)
    ensures
        r == (a@ == b@),
{
    let ac = chars_of(a);
    let bc = chars_of(b);
    if ac.len() != bc.len() {
        return false;
    }
    let r = chars_occur_at(ac.as_slice(), bc.as_slice(), 0);
    assert(r ==> ac@.subrange(0, bc@.len() as int) =~= ac@);
    if !r {
        assert(ac@.subrange(0, bc@.len() as int) =~= ac@);
    }
    r
}

/// The view of an optional string slice.
pub open spec fn opt_view(o: Option<&str>) -> Option<Seq<char>> {
    match o {
        Some(s) => Some(s@),
        None => None,
    }
}

/// Whether `o` holds exactly the text `e`.
pub fn opt_is(o: Option<&str>, e: &str) -> (r: bool)
    ensures
        r == (opt_view(o) == Some(e@)),
{
    match o {
        Some(s) => same_text(s, e),
        None => false,
    }
}

/// How often `c` occurs in `s`.
pub open spec fn count_char(s: Seq<char>, c: char) -> nat
    decreases s.len(),
{
    if s.len() == 0 {
        0
    } else {
        count_char(s.drop_last(), c) + if s.last() == c { 1nat } else { 0nat }
    }
}

/// How often `c` occurs in `s`.
pub fn count_occurrences(s: &str, c: char) -> (r: usize)
    ensures
        r == count_char(s@, c),
{
    let cs = chars_of(s);
    let mut n: usize = 0;
    let mut i: usize = 0;
    while i < cs.len()
        invariant
            cs@ == s@,
            i <= cs.len(),
            n == count_char(cs@.subrange(0, i as int), c),
            n <= i,
        decreases cs.len() - i,
    {
        assert(cs@.subrange(0, i + 1).drop_last() =~= cs@.subrange(0, i as int));
        if cs[i] == c {
            n = n + 1;
        }
        i = i + 1;
    }
    assert(cs@.subrange(0, cs.len() as int) =~= cs@);
    n
}

/// `a` comes strictly before `b` in lexicographic character order.
pub open spec fn lex_lt(a: Seq<char>, b: Seq<char>) -> bool
    decreases a.len(),
{
    if a.len() == 0 {
        b.len() > 0
    } else if b.len() == 0 {
        false
    } else if a[0] != b[0] {
        (a[0] as u32) < (b[0] as u32)
    } else {
        lex_lt(a.drop_first(), b.drop_first())
    }
}

/// Lexicographic order is transitive.
pub proof fn lemma_lex_lt_transitive(a: Seq<char>, b: Seq<char>, c: Seq<char>)
    requires
        lex_lt(a, b),
        lex_lt(b, c),
    ensures
        lex_lt(a, c),
    decreases a.len(),
{
    if a.len() > 0 && b.len() > 0 && c.len() > 0 && a[0] == b[0] && b[0] == c[0] {
        lemma_lex_lt_transitive(a.drop_first(), b.drop_first(), c.drop_first());
    }
}

/// Lexicographic order is irreflexive.
pub proof fn lemma_lex_lt_irreflexive(a: Seq<char>)
    ensures
        !lex_lt(a, a),
    decreases a.len(),
{
    if a.len() > 0 {
        lemma_lex_lt_irreflexive(a.drop_first());
    }
}

proof fn lemma_lex_lt_skip(a: Seq<char>, b: Seq<char>, i: int)
    requires
        0 <= i <= a.len(),
        i <= b.len(),
        a.subrange(0, i) == b.subrange(0, i),
    ensures
        lex_lt(a, b) == lex_lt(a.subrange(i, a.len() as int), b.subrange(i, b.len() as int)),
    decreases i,
{
    if i > 0 {
        assert(a[0] == a.subrange(0, i)[0]);
        assert(b[0] == b.subrange(0, i)[0]);
        assert(a.drop_first().subrange(0, i - 1) =~= a.subrange(0, i).drop_first());
        assert(b.drop_first().subrange(0, i - 1) =~= b.subrange(0, i).drop_first());
        lemma_lex_lt_skip(a.drop_first(), b.drop_first(), i - 1);
        assert(a.drop_first().subrange(i - 1, a.len() - 1) =~= a.subrange(i, a.len() as int));
        assert(b.drop_first().subrange(i - 1, b.len() - 1) =~= b.subrange(i, b.len() as int));
    } else {
        assert(a.subrange(0, a.len() as int) =~= a);
        assert(b.subrange(0, b.len() as int) =~= b);
    }
}

/// Whether `a` comes strictly before `b` in lexicographic character order.
pub fn text_lt(a: &str, b: &str) -> (r: bool)
    ensures
        r == lex_lt(a@, b@),
{
    let ac = chars_of(a);
    let bc = chars_of(b);
    let mut i: usize = 0;
    while i < ac.len() && i < bc.len()
        invariant
            ac@ == a@,
            bc@ == b@,
            i <= ac.len(),
            i <= bc.len(),
            ac@.subrange(0, i as int) == bc@.subrange(0, i as int),
        decreases ac.len() - i,
    {
        if ac[i] != bc[i] {
            proof {
                lemma_lex_lt_skip(ac@, bc@, i as int);
                let ra = ac@.subrange(i as int, ac.len() as int);
                let rb = bc@.subrange(i as int, bc.len() as int);
                assert(ra[0] == ac@[i as int]);
                assert(rb[0] == bc@[i as int]);
            }
            return (ac[i] as u32) < (bc[i] as u32);
        }
        assert(ac@.subrange(0, i + 1) =~= ac@.subrange(0, i as int).push(ac@[i as int]));
        assert(bc@.subrange(0, i + 1) =~= bc@.subrange(0, i as int).push(bc@[i as int]));
        i = i + 1;
    }
    proof {
        lemma_lex_lt_skip(ac@, bc@, i as int);
    }
    i < bc.len()
}

/// The encoding of a concatenation is the concatenation of the encodings.
pub proof fn lemma_bytes_of_concat(a: Seq<char>, b: Seq<char>)
    ensures
        bytes_of(a + b) == bytes_of(a) + bytes_of(b),
    decreases a.len(),
{
    if a.len() > 0 {
        lemma_bytes_of_concat(a.drop_first(), b);
        assert((a + b).drop_first() =~= a.drop_first() + b);
        assert(bytes_of(a + b) == encode_scalar(a[0] as u32) + bytes_of(a.drop_first() + b));
        assert(bytes_of(a) == encode_scalar(a[0] as u32) + bytes_of(a.drop_first()));
        assert(encode_scalar(a[0] as u32) + (bytes_of(a.drop_first()) + bytes_of(b)) =~= (encode_scalar(a[0] as u32) + bytes_of(a.drop_first())) + bytes_of(b));
    } else {
        assert(a + b =~= b);
        assert(bytes_of(a) =~= Seq::<u8>::empty());
        assert(bytes_of(a) + bytes_of(b) =~= bytes_of(b));
    }
}

/// `s` with every non-overlapping occurrence of `from` (not empty), found
/// left to right, replaced by `to`.
pub open spec fn replaced(s: Seq<char>, from: Seq<char>, to: Seq<char>) -> Seq<char>
    decreases s.len(),
{
    if from.len() == 0 || s.len() == 0 {
        s
    } else if has_prefix(s, from) {
        to + replaced(s.subrange(from.len() as int, s.len() as int), from, to)
    } else {
        seq![s[0]] + replaced(s.drop_first(), from, to)
    }
}

/// `s` with every non-overlapping occurrence of `from`, found left to
/// right, replaced by `to`.
pub fn replace_all(s: &str, from: &str, to: &str) -> (r: String)
    requires
        from@.len() > 0,
    ensures
        r@ == replaced(s@, from@, to@),
{
    let sc = chars_of(s);
    let fc = chars_of(from);
    let tc = chars_of(to);
    let mut out: Vec<char> = Vec::new();
    let mut i: usize = 0;
    assert(sc@.subrange(0, sc@.len() as int) =~= sc@);
    while i < sc.len()
        invariant
            sc@ == s@,
            fc@ == from@,
            tc@ == to@,
            from@.len() > 0,
            i <= sc.len(),
            out@ + replaced(sc@.subrange(i as int, sc@.len() as int), from@, to@) == replaced(s@, from@, to@),
        decreases sc.len() - i,
    {
        let ghost rest = sc@.subrange(i as int, sc@.len() as int);
        if chars_occur_at(sc.as_slice(), fc.as_slice(), i) {
            assert(rest.subrange(0, from@.len() as int) =~= sc@.subrange(i as int, i + from@.len()));
            assert(rest.subrange(from@.len() as int, rest.len() as int) =~= sc@.subrange(i + from@.len(), sc@.len() as int));
            let ghost before = out@;
            let mut piece = tc.clone();
            assert(piece@ =~= tc@);
            out.append(&mut piece);
            assert(before + (to@ + replaced(sc@.subrange(i + from@.len(), sc@.len() as int), from@, to@)) =~= out@ + replaced(sc@.subrange(i + from@.len(), sc@.len() as int), from@, to@));
            i = i + fc.len();
        } else {
            assert(!has_prefix(rest, from@)) by {
                if has_prefix(rest, from@) {
                    assert(rest.subrange(0, from@.len() as int) =~= sc@.subrange(i as int, i + from@.len()));
                }
            }
            assert(rest.drop_first() =~= sc@.subrange(i + 1, sc@.len() as int));
            let ghost before = out@;
            out.push(sc[i]);
            assert(before + (seq![sc@[i as int]] + replaced(sc@.subrange(i + 1, sc@.len() as int), from@, to@)) =~= out@ + replaced(sc@.subrange(i + 1, sc@.len() as int), from@, to@));
            i = i + 1;
        }
    }
    assert(out@ + replaced(sc@.subrange(i as int, sc@.len() as int), from@, to@) =~= out@);
    string_of(out.as_slice())
}

/// The decimal digit for `d` below ten.
pub open spec fn digit_char(d: nat) -> char {
    if d == 0 { '0' } else if d == 1 { '1' } else if d == 2 { '2' } else if d == 3 { '3' }
    else if d == 4 { '4' } else if d == 5 { '5' } else if d == 6 { '6' } else if d == 7 { '7' }
    else if d == 8 { '8' } else { '9' }
}

/// The decimal notation of `n`, without leading zeros.
pub open spec fn decimal_of(n: nat) -> Seq<char>
    decreases n,
{
    if n < 10 {
        seq![digit_char(n)]
    } else {
        decimal_of(n / 10) + seq![digit_char(n % 10)]
    }
}

/// The decimal notation of `n`.
pub fn decimal(n: usize) -> (r: String)
    ensures
        r@ == decimal_of(n as nat),
    decreases n,
{
    let d = n % 10;
    let c = if d == 0 { '0' } else if d == 1 { '1' } else if d == 2 { '2' } else if d == 3 { '3' }
        else if d == 4 { '4' } else if d == 5 { '5' } else if d == 6 { '6' } else if d == 7 { '7' }
        else if d == 8 { '8' } else { '9' };
    let cs = vec![c];
    let last = string_of(cs.as_slice());
    if n < 10 {
        last
    } else {
        let front = decimal(n / 10);
        concat(front.as_str(), last.as_str())
    }
}

/// The index of the first occurrence of `p` in `s`, if any.
#[verifier::opaque]
pub open spec fn first_index(s: Seq<char>, p: Seq<char>) -> Option<int> {
    if has_infix(s, p) {
        Some(choose|i: int| occurs_at(s, p, i) && forall|j: int| 0 <= j < i ==> !occurs_at(s, p, j))
    } else {
        None
    }
}

proof fn lemma_first_index(s: Seq<char>, p: Seq<char>, i: int)
    requires
        occurs_at(s, p, i),
        forall|j: int| 0 <= j < i ==> !occurs_at(s, p, j),
    ensures
        first_index(s, p) == Some(i),
{
    reveal(first_index);
    assert(has_infix(s, p));
    let k = choose|k: int| occurs_at(s, p, k) && forall|j: int| 0 <= j < k ==> !occurs_at(s, p, j);
    if k < i {
        assert(!occurs_at(s, p, k));
    } else if k > i {
        assert(!occurs_at(s, p, i));
    }
}

/// The character index of the first occurrence of `p` in `s`.
pub fn find_str(s: &str, p: &str) -> (r: Option<usize>)
    ensures
        r matches Some(i) ==> first_index(s@, p@) == Some(i as int) && occurs_at(s@, p@, i as int),
        r is None ==> first_index(s@, p@) is None,
{
    let sc = chars_of(s);
    let pc = chars_of(p);
    match find_chars_from(sc.as_slice(), pc.as_slice(), 0) {
        Some(i) => {
            proof {
                lemma_first_index(s@, p@, i as int);
            }
            Some(i)
        },
        None => {
            assert(!has_infix(s@, p@));
            proof {
                reveal(first_index);
            }
            None
        },
    }
}

/// The characters `a..b` of `s`.
pub fn substring(s: &str, a: usize, b: usize) -> (r: String)
    requires
        a <= b <= s@.len(),
    ensures
        r@ == s@.subrange(a as int, b as int),
{
    let sc = chars_of(s);
    string_of(&sc.as_slice()[a..b])
}

/// `s` up to the first occurrence of `p`, or all of it.
pub open spec fn before_first(s: Seq<char>, p: Seq<char>) -> Seq<char> {
    match first_index(s, p) {
        Some(i) => s.subrange(0, i),
        None => s,
    }
}

/// `s` up to the first occurrence of `p`, or all of it.
pub fn take_before(s: &str, p: &str) -> (r: String)
    ensures
        r@ == before_first(s@, p@),
{
    match find_str(s, p) {
        Some(i) => substring(s, 0, i),
        None => s.to_owned(),
    }
}

/// `s` without any trailing `c`.
pub open spec fn strip_trailing(s: Seq<char>, c: char) -> Seq<char>
    decreases s.len(),
{
    if s.len() > 0 && s.last() == c {
        strip_trailing(s.drop_last(), c)
    } else {
        s
    }
}

/// `s` without any leading `c`.
pub open spec fn strip_leading(s: Seq<char>, c: char) -> Seq<char>
    decreases s.len(),
{
    if s.len() > 0 && s[0] == c {
        strip_leading(s.drop_first(), c)
    } else {
        s
    }
}

/// `s` without any trailing `c`.
pub fn trim_end_char(s: &str, c: char) -> (r: String)
    ensures
        r@ == strip_trailing(s@, c),
{
    let sc = chars_of(s);
    let mut end = sc.len();
    assert(sc@.subrange(0, sc@.len() as int) =~= sc@);
    while end > 0 && sc[end - 1] == c
        invariant
            sc@ == s@,
            end <= sc@.len(),
            strip_trailing(sc@.subrange(0, end as int), c) == strip_trailing(s@, c),
        decreases end,
    {
        assert(sc@.subrange(0, end as int).drop_last() =~= sc@.subrange(0, end - 1));
        end = end - 1;
    }
    string_of(&sc.as_slice()[0..end])
}

/// `s` without any leading or trailing `c`.
pub fn trim_char(s: &str, c: char) -> (r: String)
    ensures
        r@ == strip_trailing(strip_leading(s@, c), c),
{
    let sc = chars_of(s);
    let mut start: usize = 0;
    assert(sc@.subrange(0, sc@.len() as int) =~= sc@);
    while start < sc.len() && sc[start] == c
        invariant
            sc@ == s@,
            start <= sc@.len(),
            strip_leading(sc@.subrange(start as int, sc@.len() as int), c) == strip_leading(s@, c),
        decreases sc.len() - start,
    {
        assert(sc@.subrange(start as int, sc@.len() as int).drop_first() =~= sc@.subrange(start + 1, sc@.len() as int));
        start = start + 1;
    }
    let rest = string_of(&sc.as_slice()[start..sc.len()]);
    trim_end_char(rest.as_str(), c)
}

/// The pieces of `s` between the occurrences of `c`.
pub open spec fn split_at_char(s: Seq<char>, c: char) -> Seq<Seq<char>>
    decreases s.len(),
{
    match first_index(s, seq![c]) {
        Some(i) => if 0 <= i < s.len() {
            seq![s.subrange(0, i)] + split_at_char(s.subrange(i + 1, s.len() as int), c)
        } else {
            seq![s]
        },
        None => seq![s],
    }
}

/// The name of the first whitespace-separated word of `s`, if any.
pub uninterp spec fn first_word_of(s: Seq<char>) -> Option<Seq<char>>;

/// Relies on `str::split_whitespace`: its first item.
#[verifier::external_body]
pub fn first_word(s: &str) -> (r: Option<String>)
    ensures
        match r {
            Some(w) => first_word_of(s@) == Some(w@),
            None => first_word_of(s@) is None,
        },
{
    s.split_whitespace().next().map(|w| w.to_string())
}

/// The number of characters of `s`.
pub fn char_count(s: &str) -> (r: usize)
    ensures
        r == s@.len(),
{
    let sc = chars_of(s);
    sc.len()
}

/// The pieces of `s` between the occurrences of `c`, as `str::split` gives
/// them.
pub fn split_char(s: &str, c: char) -> (r: Vec<String>)
    ensures
        views(r@) == split_at_char(s@, c),
{
    let sc = chars_of(s);
    let ghost sep = seq![c];
    let mut out: Vec<String> = Vec::new();
    let mut start: usize = 0;
    let mut i: usize = 0;
    assert(sc@.subrange(0, sc@.len() as int) =~= sc@);
    assert(views(out@) + split_at_char(s@, c) =~= split_at_char(s@, c));
    while i < sc.len()
        invariant
            sc@ == s@,
            sep == seq![c],
            start <= i <= sc@.len(),
            forall|j: int| start <= j < i ==> sc@[j] != c,
            views(out@) + split_at_char(sc@.subrange(start as int, sc@.len() as int), c) == split_at_char(s@, c),
        decreases sc.len() - i,
    {
        if sc[i] == c {
            let ghost rest = sc@.subrange(start as int, sc@.len() as int);
            proof {
                assert(occurs_at(rest, sep, i - start)) by {
                    assert(rest.subrange(i - start, i - start + 1) =~= sep);
                }
                assert forall|j: int| 0 <= j < i - start implies !occurs_at(rest, sep, j) by {
                    if occurs_at(rest, sep, j) {
                        assert(rest.subrange(j, j + 1)[0] == rest[j]);
                    }
                }
                lemma_first_index(rest, sep, i - start);
                assert(rest.subrange(0, i - start) =~= sc@.subrange(start as int, i as int));
                assert(rest.subrange(i - start + 1, rest.len() as int) =~= sc@.subrange(i + 1, sc@.len() as int));
            }
            let piece = string_of(&sc.as_slice()[start..i]);
            let ghost before = out@;
            out.push(piece);
            assert(views(out@) =~= views(before).push(piece@));
            start = i + 1;
        }
        i = i + 1;
    }
    let ghost rest = sc@.subrange(start as int, sc@.len() as int);
    proof {
        assert forall|j: int| 0 <= j && #[trigger] occurs_at(rest, sep, j) implies false by {
            assert(rest.subrange(j, j + 1)[0] == rest[j]);
        }
        reveal(first_index);
    }
    let piece = string_of(&sc.as_slice()[start..sc.len()]);
    let ghost before = out@;
    out.push(piece);
    assert(views(out@) =~= views(before).push(piece@));
    out
}

/// A line with no line feed, a line feed, then more: the first line, then
/// the lines of the rest.
proof fn lemma_lines_of_cons(a: Seq<char>, b: Seq<char>)
    requires
        forall|j: int| 0 <= j < a.len() ==> a[j] != '\n',
    ensures
        lines_of(a + seq!['\n'] + b) == seq![strip_cr(a)] + lines_of(b),
{
    let s = a + seq!['\n'] + b;
    lemma_first_newline(s, a.len() as int);
    assert(s.subrange(0, a.len() as int) =~= a);
    assert(s.subrange(a.len() as int + 1, s.len() as int) =~= b);
}

/// A non-empty text without line feeds is one line.
proof fn lemma_lines_of_single(a: Seq<char>)
    requires
        a.len() > 0,
        forall|j: int| 0 <= j < a.len() ==> a[j] != '\n',
    ensures
        lines_of(a) == seq![a],
{
    lemma_first_newline(a, a.len() as int);
}

/// Joining splits off the first part.
proof fn lemma_joined_front(xs: Seq<Seq<char>>, sep: Seq<char>)
    requires
        xs.len() >= 2,
    ensures
        joined(xs, sep) == xs[0] + sep + joined(xs.drop_first(), sep),
    decreases xs.len(),
{
    if xs.len() > 2 {
        lemma_joined_front(xs.drop_last(), sep);
        assert(xs.drop_last()[0] == xs[0]);
        assert(xs.drop_last().drop_first() =~= xs.drop_first().drop_last());
        assert(xs.drop_first().last() == xs.last());
        assert(joined(xs.drop_first(), sep) == joined(xs.drop_first().drop_last(), sep) + sep + xs.drop_first().last());
        assert(xs[0] + sep + joined(xs.drop_last().drop_first(), sep) + sep + xs.last() =~= xs[0] + sep + (
        joined(xs.drop_first().drop_last(), sep) + sep + xs.drop_first().last()));
    } else {
        assert(xs.drop_last().len() == 1);
        assert(xs.drop_first().len() == 1);
        assert(joined(xs.drop_last(), sep) == xs[0]);
        assert(joined(xs.drop_first(), sep) == xs[1]);
    }
}

/// Joining at least one line that holds no line feed with line feeds, and
/// ending the text with one more, gives a text of as many lines.
pub proof fn lemma_joined_terminated_line_count(xs: Seq<Seq<char>>)
    requires
        xs.len() > 0,
        forall|i: int, j: int| 0 <= i < xs.len() && 0 <= j < xs[i].len() ==> #[trigger] xs[i][j] != '\n',
    ensures
        lines_of(joined(xs, "\n"@) + "\n"@).len() == xs.len(),
    decreases xs.len(),
{
    reveal_strlit("\n");
    assert("\n"@ =~= seq!['\n']);
    assert forall|j: int| 0 <= j < xs[0].len() implies xs[0][j] != '\n' by {
        assert(xs[0][j] != '\n');
    }
    if xs.len() == 1 {
        lemma_lines_of_cons(xs[0], Seq::empty());
        assert(xs[0] + seq!['\n'] + Seq::<char>::empty() =~= joined(xs, "\n"@) + "\n"@);
    } else {
        let rest = xs.drop_first();
        assert forall|i: int, j: int| 0 <= i < rest.len() && 0 <= j < rest[i].len() implies #[trigger] rest[i][j] != '\n' by {
            assert(rest[i] == xs[i + 1]);
            assert(xs[i + 1][j] != '\n');
        }
        lemma_joined_terminated_line_count(rest);
        lemma_joined_front(xs, "\n"@);
        lemma_lines_of_cons(xs[0], joined(rest, "\n"@) + "\n"@);
        assert(xs[0] + seq!['\n'] + (joined(rest, "\n"@) + "\n"@) =~= joined(xs, "\n"@) + "\n"@);
    }
}

proof fn lemma_first_newline_found(s: Seq<char>)
    ensures
        0 <= first_newline(s) <= s.len(),
        first_newline(s) < s.len() ==> s[first_newline(s)] == '\n',
    decreases s.len(),
{
    if s.len() > 0 && s[0] != '\n' {
        lemma_first_newline_found(s.drop_first());
    }
}

/// The lines of a non-empty text that does not end with a line feed end
/// with a non-empty line.
pub proof fn lemma_last_line_not_empty(s: Seq<char>)
    requires
        s.len() > 0,
        s.last() != '\n',
    ensures
        lines_of(s).len() > 0,
        lines_of(s).last().len() > 0,
    decreases s.len(),
{
    let k = first_newline(s);
    lemma_first_newline_found(s);
    if 0 <= k < s.len() {
        let rest = s.subrange(k + 1, s.len() as int);
        assert(k != s.len() - 1);
        assert(rest.last() == s.last());
        lemma_last_line_not_empty(rest);
        assert(lines_of(s) == seq![strip_cr(s.subrange(0, k))] + lines_of(rest));
    }
}

/// Joining lines that hold no line feed, the last not empty, with line
/// feeds gives a text of as many lines.
pub proof fn lemma_joined_line_count(xs: Seq<Seq<char>>)
    requires
        forall|i: int, j: int| 0 <= i < xs.len() && 0 <= j < xs[i].len() ==> #[trigger] xs[i][j] != '\n',
        xs.len() == 0 || xs.last().len() > 0,
    ensures
        lines_of(joined(xs, "\n"@)).len() == xs.len(),
    decreases xs.len(),
{
    reveal_strlit("\n");
    assert("\n"@ =~= seq!['\n']);
    if xs.len() == 0 {
    } else if xs.len() == 1 {
        assert forall|j: int| 0 <= j < xs[0].len() implies xs[0][j] != '\n' by {
            assert(xs[0][j] != '\n');
        }
        lemma_lines_of_single(xs[0]);
    } else {
        let rest = xs.drop_first();
        assert forall|i: int, j: int| 0 <= i < rest.len() && 0 <= j < rest[i].len() implies #[trigger] rest[i][j] != '\n' by {
            assert(rest[i] == xs[i + 1]);
            assert(xs[i + 1][j] != '\n');
        }
        assert(rest.last() == xs.last());
        lemma_joined_line_count(rest);
        lemma_joined_front(xs, "\n"@);
        assert forall|j: int| 0 <= j < xs[0].len() implies xs[0][j] != '\n' by {
            assert(xs[0][j] != '\n');
        }
        lemma_lines_of_cons(xs[0], joined(rest, "\n"@));
    }
}

} // verus!
