//! Verified text helpers: keyword canonicalization (ASCII trim and
//! lowercase) and decimal rendering of port numbers.

use vstd::prelude::*;

verus! {

/// ASCII whitespace, as removed from the ends of a keyword before
/// matching.  Non-ASCII whitespace is not removed: such characters stay
/// in the keyword and make it match nothing.
pub open spec fn is_blank(c: char) -> bool {
    c == ' ' || c == '\t' || c == '\n' || c == '\r' || c == '\u{0B}' || c == '\u{0C}'
}

/// ASCII lowercasing of one character; every other character, non-ASCII
/// letters included, is kept unchanged and so is matched verbatim.
pub open spec fn lower_char(c: char) -> char {
    if 65 <= c as u32 && c as u32 <= 90 {
        ((c as u32 + 32) as u8) as char
    } else {
        c
    }
}

pub open spec fn trim_front(s: Seq<char>) -> Seq<char>
    decreases s.len(),
{
    if s.len() > 0 && is_blank(s[0]) {
        trim_front(s.drop_first())
    } else {
        s
    }
}

pub open spec fn trim_back(s: Seq<char>) -> Seq<char>
    decreases s.len(),
{
    if s.len() > 0 && is_blank(s.last()) {
        trim_back(s.drop_last())
    } else {
        s
    }
}

/// The sequence with ASCII whitespace removed from both ends.
pub open spec fn trimmed(s: Seq<char>) -> Seq<char> {
    trim_back(trim_front(s))
}

/// The sequence with every character ASCII-lowercased.
pub open spec fn lower(s: Seq<char>) -> Seq<char> {
    s.map_values(|c: char| lower_char(c))
}

/// The canonical form a keyword is matched in: trimmed, then lowercased.
pub open spec fn canon(s: Seq<char>) -> Seq<char> {
    lower(trimmed(s))
}

proof fn lemma_trim_front_is_subrange(s: Seq<char>, k: int)
    requires
        0 <= k <= s.len(),
        forall|i: int| 0 <= i < k ==> is_blank(s[i]),
        k < s.len() ==> !is_blank(s[k]),
    ensures
        trim_front(s) =~= s.subrange(k, s.len() as int),
    decreases k,
{
    if k == 0 {
        assert(trim_front(s) =~= s.subrange(0, s.len() as int));
    } else {
        assert(is_blank(s[0]));
        assert(s.drop_first() =~= s.subrange(1, s.len() as int));
        lemma_trim_front_is_subrange(s.drop_first(), k - 1);
        assert(s.drop_first().subrange(k - 1, s.drop_first().len() as int) =~= s.subrange(
            k,
            s.len() as int,
        ));
    }
}

proof fn lemma_trim_back_is_subrange(s: Seq<char>, e: int)
    requires
        0 <= e <= s.len(),
        forall|i: int| e <= i < s.len() ==> is_blank(s[i]),
        e > 0 ==> !is_blank(s[e - 1]),
    ensures
        trim_back(s) =~= s.subrange(0, e),
    decreases s.len(),
{
    if s.len() > 0 && is_blank(s.last()) {
        assert(e < s.len());
        lemma_trim_back_is_subrange(s.drop_last(), e);
    } else {
        assert(e == s.len());
    }
}

fn is_blank_exec(c: char) -> (r: bool)
    ensures
        r == is_blank(c),
{
    c == ' ' || c == '\t' || c == '\n' || c == '\r' || c == '\u{0B}' || c == '\u{0C}'
}

fn lower_char_exec(c: char) -> (r: char)
    ensures
        r == lower_char(c),
{
    let u = c as u32;
    if 65 <= u && u <= 90 {
        ((u + 32) as u8) as char
    } else {
        c
    }
}

/// Returns `(start, end)` such that the trimmed input is exactly the
/// characters in `start..end`.
fn trim_bounds(s: &str) -> (r: (usize, usize))
    ensures
        r.0 <= r.1 <= s@.len(),
        trimmed(s@) =~= s@.subrange(r.0 as int, r.1 as int),
{
    let n = s.unicode_len();
    let mut start: usize = 0;
    while start < n && is_blank_exec(s.get_char(start))
        invariant
            start <= n,
            n == s@.len(),
            forall|i: int| 0 <= i < start ==> is_blank(s@[i]),
        decreases n - start,
    {
        start = start + 1;
    }
    let mut end: usize = n;
    while end > start && is_blank_exec(s.get_char(end - 1))
        invariant
            start <= end <= n,
            n == s@.len(),
            forall|i: int| end <= i < n ==> is_blank(s@[i]),
        decreases end,
    {
        end = end - 1;
    }
    proof {
        lemma_trim_front_is_subrange(s@, start as int);
        let t = s@.subrange(start as int, n as int);
        lemma_trim_back_is_subrange(t, end - start);
        assert(t.subrange(0, end - start) =~= s@.subrange(start as int, end as int));
    }
    (start, end)
}

/// Whether the canonical form of `s` is exactly the keyword `kw`.
pub fn canon_eq(s: &str, kw: &str) -> (r: bool)
    ensures
        r == (canon(s@) == kw@),
{
    let (start, end) = trim_bounds(s);
    let m = end - start;
    if m != kw.unicode_len() {
        return false;
    }
    let mut i: usize = 0;
    while i < m
        invariant
            0 <= i <= m,
            start + m == end <= s@.len(),
            m == kw@.len(),
            trimmed(s@) =~= s@.subrange(start as int, end as int),
            forall|j: int| 0 <= j < i ==> lower_char(s@[start + j]) == kw@[j],
        decreases m - i,
    {
        if lower_char_exec(s.get_char(start + i)) != kw.get_char(i) {
            proof {
                assert(canon(s@)[i as int] == lower_char(trimmed(s@)[i as int]));
                assert(trimmed(s@)[i as int] == s@[start + i]);
            }
            return false;
        }
        i = i + 1;
    }
    proof {
        assert forall|j: int| 0 <= j < m implies canon(s@)[j] == kw@[j] by {
            assert(canon(s@)[j] == lower_char(trimmed(s@)[j]));
            assert(trimmed(s@)[j] == s@[start + j]);
        }
        assert(canon(s@) =~= kw@);
    }
    true
}

/// Whether `s`, lowercased but not trimmed, is exactly the keyword `kw`.
pub fn lower_eq(s: &str, kw: &str) -> (r: bool)
    ensures
        r == (lower(s@) == kw@),
{
    let n = s.unicode_len();
    if n != kw.unicode_len() {
        return false;
    }
    let mut i: usize = 0;
    while i < n
        invariant
            0 <= i <= n,
            n == s@.len(),
            n == kw@.len(),
            forall|j: int| 0 <= j < i ==> lower_char(s@[j]) == kw@[j],
        decreases n - i,
    {
        if lower_char_exec(s.get_char(i)) != kw.get_char(i) {
            proof {
                assert(lower(s@)[i as int] == lower_char(s@[i as int]));
            }
            return false;
        }
        i = i + 1;
    }
    proof {
        assert forall|j: int| 0 <= j < n implies lower(s@)[j] == kw@[j] by {
            assert(lower(s@)[j] == lower_char(s@[j]));
        }
        assert(lower(s@) =~= kw@);
    }
    true
}

/// Relies on `String::push`: appends the character to the end of the string.
#[verifier::external_body]
pub(crate) fn string_push(s: &mut String, c: char)
    ensures
        final(s)@ == old(s)@.push(c),
{
    s.push(c);
}

/// The canonical (trimmed, lowercased) form of `s`, as an owned string.
pub fn canon_string(s: &str) -> (r: String)
    ensures
        r@ == canon(s@),
{
    let (start, end) = trim_bounds(s);
    let m = end - start;
    let mut out = String::new();
    let mut i: usize = 0;
    while i < m
        invariant
            0 <= i <= m,
            start + m == end <= s@.len(),
            trimmed(s@) =~= s@.subrange(start as int, end as int),
            out@.len() == i,
            forall|j: int| 0 <= j < i ==> out@[j] == lower_char(s@[start + j]),
        decreases m - i,
    {
        let c = lower_char_exec(s.get_char(start + i));
        string_push(&mut out, c);
        i = i + 1;
    }
    proof {
        assert forall|j: int| 0 <= j < m implies out@[j] == canon(s@)[j] by {
            assert(canon(s@)[j] == lower_char(trimmed(s@)[j]));
            assert(trimmed(s@)[j] == s@[start + j]);
        }
        assert(out@ =~= canon(s@));
    }
    out
}

/// Whether `pat` occurs as a contiguous run of characters inside `s`.
pub open spec fn contains_seq(s: Seq<char>, pat: Seq<char>) -> bool {
    exists|i: int| 0 <= i && i + pat.len() <= s.len() && #[trigger] s.subrange(i, i + pat.len())
        == pat
}

fn match_at(s: &str, pat: &str, at: usize) -> (r: bool)
    requires
        at + pat@.len() <= s@.len() <= usize::MAX,
    ensures
        r == (s@.subrange(at as int, at + pat@.len()) == pat@),
{
    let m = pat.unicode_len();
    let mut j: usize = 0;
    while j < m
        invariant
            0 <= j <= m,
            m == pat@.len(),
            at + m <= s@.len(),
            forall|t: int| 0 <= t < j ==> s@[at + t] == pat@[t],
        decreases m - j,
    {
        if s.get_char(at + j) != pat.get_char(j) {
            proof {
                assert(s@.subrange(at as int, at + pat@.len())[j as int] == s@[at + j]);
            }
            return false;
        }
        j = j + 1;
    }
    proof {
        assert(s@.subrange(at as int, at + pat@.len()) =~= pat@);
    }
    true
}

/// Whether the pattern occurs as a substring of `s`.
pub fn contains_str(s: &str, pat: &str) -> (r: bool)
    ensures
        r == contains_seq(s@, pat@),
{
    let n = s.unicode_len();
    let m = pat.unicode_len();
    if m > n {
        return false;
    }
    if m == 0 {
        proof {
            assert(s@.subrange(0, 0 + pat@.len() as int) =~= pat@);
            assert(contains_seq(s@, pat@));
        }
        return true;
    }
    let mut i: usize = 0;
    while i <= n - m
        invariant
            0 <= i <= n - m + 1,
            forall|k: int| 0 <= k < i ==> #[trigger] s@.subrange(k, k + pat@.len()) != pat@,
        decreases n - i,
    {
        if match_at(s, pat, i) {
            return true;
        }
        i = i + 1;
    }
    false
}

/// The character for one decimal digit.
pub open spec fn digit_char(d: int) -> char {
    ((48 + d) as u8) as char
}

/// The decimal representation of a non-negative number, most significant
/// digit first and without leading zeros.
pub open spec fn dec_str(n: int) -> Seq<char>
    recommends
        n >= 0,
    decreases n,
{
    if n < 10 {
        seq![digit_char(n)]
    } else {
        dec_str(n / 10).push(digit_char(n % 10))
    }
}

pub(crate) fn push_dec(out: &mut String, n: u16)
    ensures
        final(out)@ == old(out)@ + dec_str(n as int),
    decreases n,
{
    if n < 10 {
        string_push(out, (48 + n as u8) as char);
        proof {
            assert(out@ =~= old(out)@ + dec_str(n as int));
        }
    } else {
        push_dec(out, n / 10);
        string_push(out, (48 + (n % 10) as u8) as char);
        proof {
            assert(out@ =~= old(out)@ + dec_str(n as int));
        }
    }
}

/// The decimal representation of a port number.
pub fn dec_string(n: u16) -> (r: String)
    ensures
        r@ == dec_str(n as int),
{
    let mut out = String::new();
    push_dec(&mut out, n);
    proof {
        assert(out@ =~= dec_str(n as int));
    }
    out
}

} // verus!
