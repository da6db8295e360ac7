//! Byte-level line handling for shader descriptions: line splitting, ASCII
//! whitespace trimming, case-insensitive matching and quoted values.

use vstd::prelude::*;
use vstd::utf8::{decode_utf8, valid_utf8};

verus! {

/// `\n`
pub const NEWLINE: u8 = 10;
/// `\r`
pub const RETURN: u8 = 13;
/// `"`
pub const QUOTE: u8 = 34;
/// ` `
pub const SPACE: u8 = 32;

/// The characters of an optional string.
pub open spec fn text_view(o: Option<String>) -> Option<Seq<char>> {
    match o {
        Some(s) => Some(s@),
        None => None,
    }
}

/// ASCII upper case of a byte; other bytes are kept.
pub open spec fn upper(b: u8) -> u8 {
    if 97 <= b && b <= 122 {
        (b - 32) as u8
    } else {
        b
    }
}

/// ASCII whitespace: space, tab, line feed, vertical tab, form feed, carriage return.
pub open spec fn is_space(b: u8) -> bool {
    b == SPACE || (9 <= b && b <= 13)
}

/// Index of the first `b` in `s` at or after `i`, or `s.len()` when there is none.
pub open spec fn find_from(s: Seq<u8>, b: u8, i: int) -> int
    decreases s.len() - i,
{
    if i < 0 || i >= s.len() {
        s.len() as int
    } else if s[i] == b {
        i
    } else {
        find_from(s, b, i + 1)
    }
}

/// Index of the first non-space byte of `s` at or after `i`, or `s.len()`.
pub open spec fn skip_space(s: Seq<u8>, i: int) -> int
    decreases s.len() - i,
{
    if i < 0 || i >= s.len() {
        s.len() as int
    } else if !is_space(s[i]) {
        i
    } else {
        skip_space(s, i + 1)
    }
}

/// One past the last non-space byte of `s` before `j`, or 0.
pub open spec fn back_space(s: Seq<u8>, j: int) -> int
    decreases j,
{
    if j <= 0 || j > s.len() {
        0
    } else if !is_space(s[j - 1]) {
        j
    } else {
        back_space(s, j - 1)
    }
}

/// `s` without leading and trailing whitespace.
pub open spec fn trim(s: Seq<u8>) -> Seq<u8> {
    let lo = skip_space(s, 0);
    let hi = back_space(s, s.len() as int);
    if lo < hi {
        s.subrange(lo, hi)
    } else {
        seq![]
    }
}

/// `t` begins with `pat` when `t` is taken in upper case.
pub open spec fn starts_ci(t: Seq<u8>, pat: Seq<u8>) -> bool {
    pat.len() <= t.len() && forall|k: int| 0 <= k < pat.len() ==> upper(#[trigger] t[k]) == pat[k]
}

/// `t` ends with `pat` when `t` is taken in upper case.
pub open spec fn ends_ci(t: Seq<u8>, pat: Seq<u8>) -> bool {
    pat.len() <= t.len() && forall|k: int|
        0 <= k < pat.len() ==> upper(#[trigger] t[t.len() - pat.len() + k]) == pat[k]
}

/// The first space-separated token of the trimmed line is `word` in any case.
pub open spec fn is_directive(line: Seq<u8>, word: Seq<u8>) -> bool {
    let t = trim(line);
    starts_ci(t, word) && (t.len() == word.len() || t[word.len() as int] == SPACE)
}

/// The bytes after the first double quote, up to the next one or the end of
/// the line; `None` when the line holds no double quote.
pub open spec fn quoted(line: Seq<u8>) -> Option<Seq<u8>> {
    let q1 = find_from(line, QUOTE, 0);
    if q1 >= line.len() {
        None
    } else {
        Some(line.subrange(q1 + 1, find_from(line, QUOTE, q1 + 1)))
    }
}

/// The quoted value of a line as text, when there is one and it is valid UTF-8.
pub open spec fn quoted_text(line: Seq<u8>) -> Option<Seq<char>> {
    match quoted(line) {
        Some(q) => if valid_utf8(q) {
            Some(decode_utf8(q))
        } else {
            None
        },
        None => None,
    }
}

/// Where the line that begins at `pos` ends (without its line break) and
/// where the next line begins.
pub open spec fn line_end(s: Seq<u8>, pos: int) -> int {
    let e = find_from(s, NEWLINE, pos);
    if e < s.len() && e > pos && s[e - 1] == RETURN {
        e - 1
    } else {
        e
    }
}

pub open spec fn next_line(s: Seq<u8>, pos: int) -> int {
    find_from(s, NEWLINE, pos) + 1
}

pub proof fn lemma_find_from_bounds(s: Seq<u8>, b: u8, i: int)
    requires
        0 <= i,
    ensures
        i <= find_from(s, b, i) <= s.len() || (i > s.len() && find_from(s, b, i) == s.len()),
        find_from(s, b, i) < s.len() ==> s[find_from(s, b, i)] == b,
    decreases s.len() - i,
{
    if i < s.len() && s[i] != b {
        lemma_find_from_bounds(s, b, i + 1);
    }
}

/// Bytes `lo` to `hi` of `s`.
pub fn copy_range(s: &[u8], lo: usize, hi: usize) -> (r: Vec<u8>)
    requires
        lo <= hi <= s@.len(),
    ensures
        r@ == s@.subrange(lo as int, hi as int),
{
    let mut r: Vec<u8> = Vec::new();
    let mut k = lo;
    while k < hi
        invariant
            lo <= k <= hi <= s@.len(),
            r@ == s@.subrange(lo as int, k as int),
        decreases hi - k,
    {
        r.push(s[k]);
        assert(r@ =~= s@.subrange(lo as int, k + 1));
        k = k + 1;
    }
    r
}

/// Index of the first `b` in `s` at or after `i`, or `s.len()`.
pub fn find_byte(s: &[u8], b: u8, i: usize) -> (r: usize)
    ensures
        r == find_from(s@, b, i as int),
{
    if i >= s.len() {
        return s.len();
    }
    let mut k = i;
    while k < s.len()
        invariant
            i <= k <= s@.len(),
            find_from(s@, b, i as int) == find_from(s@, b, k as int),
        decreases s@.len() - k,
    {
        if s[k] == b {
            return k;
        }
        k = k + 1;
    }
    k
}

/// The bounds of `s` without leading and trailing whitespace.
pub fn trim_bounds(s: &[u8]) -> (r: (usize, usize))
    ensures
        r.0 <= r.1 <= s@.len(),
        s@.subrange(r.0 as int, r.1 as int) == trim(s@),
{
    let mut lo: usize = 0;
    while lo < s.len() && is_space_byte(s[lo])
        invariant
            lo <= s@.len(),
            skip_space(s@, 0) == skip_space(s@, lo as int),
        decreases s@.len() - lo,
    {
        lo = lo + 1;
    }
    let mut hi: usize = s.len();
    while hi > 0 && is_space_byte(s[hi - 1])
        invariant
            hi <= s@.len(),
            back_space(s@, s@.len() as int) == back_space(s@, hi as int),
        decreases hi,
    {
        hi = hi - 1;
    }
    if lo < hi {
        (lo, hi)
    } else {
        assert(s@.subrange(0, 0) =~= Seq::<u8>::empty());
        (0, 0)
    }
}

fn is_space_byte(b: u8) -> (r: bool)
    ensures
        r == is_space(b),
{
    b == SPACE || (9 <= b && b <= 13)
}

fn upper_byte(b: u8) -> (r: u8)
    ensures
        r == upper(b),
{
    if 97 <= b && b <= 122 {
        b - 32
    } else {
        b
    }
}

/// Whether `t` begins with `pat` when `t` is taken in upper case.
pub fn starts_with_ci(t: &[u8], pat: &[u8]) -> (r: bool)
    ensures
        r == starts_ci(t@, pat@),
{
    if pat.len() > t.len() {
        return false;
    }
    let mut k: usize = 0;
    while k < pat.len()
        invariant
            pat@.len() <= t@.len(),
            k <= pat@.len(),
            forall|j: int| 0 <= j < k ==> upper(#[trigger] t@[j]) == pat@[j],
        decreases pat@.len() - k,
    {
        if upper_byte(t[k]) != pat[k] {
            return false;
        }
        k = k + 1;
    }
    true
}

/// Whether `t` ends with `pat` when `t` is taken in upper case.
pub fn ends_with_ci(t: &[u8], pat: &[u8]) -> (r: bool)
    ensures
        r == ends_ci(t@, pat@),
{
    if pat.len() > t.len() {
        return false;
    }
    let off = t.len() - pat.len();
    let mut k: usize = 0;
    while k < pat.len()
        invariant
            pat@.len() <= t@.len(),
            off == t@.len() - pat@.len(),
            t@.len() <= usize::MAX,
            k <= pat@.len(),
            forall|j: int| 0 <= j < k ==> upper(#[trigger] t@[t@.len() - pat@.len() + j]) == pat@[j],
        decreases pat@.len() - k,
    {
        if upper_byte(t[off + k]) != pat[k] {
            return false;
        }
        k = k + 1;
    }
    true
}

/// Relies on std::str::from_utf8: it accepts exactly the valid UTF-8 byte
/// sequences and then holds the characters they encode.
#[verifier::external_body]
fn utf8_text(b: &[u8]) -> (r: Option<String>)
    ensures
        r is Some <==> valid_utf8(b@),
        r is Some ==> r->Some_0@ == decode_utf8(b@),
{
    std::str::from_utf8(b).ok().map(|s| s.to_string())
}

/// The quoted value of a line as text (see `quoted_text`).
pub fn quoted_value(line: &[u8]) -> (r: Option<String>)
    ensures
        match r {
            Some(s) => quoted_text(line@) == Some(s@),
            None => quoted_text(line@) is None,
        },
{
    let q1 = find_byte(line, QUOTE, 0);
    if q1 >= line.len() {
        return None;
    }
    let q2 = find_byte(line, QUOTE, q1 + 1);
    proof {
        lemma_find_from_bounds(line@, QUOTE, q1 + 1);
    }
    let mut q: Vec<u8> = Vec::new();
    let mut k = q1 + 1;
    while k < q2
        invariant
            q1 + 1 <= k <= q2 || k == q1 + 1,
            q2 <= line@.len(),
            q@ == line@.subrange(q1 + 1, k as int),
        decreases q2 - k,
    {
        q.push(line[k]);
        assert(q@ =~= line@.subrange(q1 + 1, k + 1));
        k = k + 1;
    }
    assert(q1 + 1 > q2 ==> q2 == line@.len() && q1 + 1 > line@.len());
    assert(q@ =~= line@.subrange(q1 + 1, q2 as int));
    utf8_text(q.as_slice())
}

} // verus!
