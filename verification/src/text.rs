//! Characters and pieces of text.

use vstd::prelude::*;
use vstd::string::StrSliceExecFns;

verus! {

/// `c` has the Unicode property `White_Space`.
pub open spec fn is_whitespace(c: char) -> bool {
    let v = c as u32;
    ||| 0x09 <= v <= 0x0d
    ||| v == 0x20
    ||| v == 0x85
    ||| v == 0xa0
    ||| v == 0x1680
    ||| 0x2000 <= v <= 0x200a
    ||| v == 0x2028
    ||| v == 0x2029
    ||| v == 0x202f
    ||| v == 0x205f
    ||| v == 0x3000
}

/// The index of the first character at or after `i` that is no white space,
/// or the length of `s`.
pub open spec fn skip_whitespace(s: Seq<char>, i: int) -> int
    decreases s.len() - i,
{
    if 0 <= i < s.len() && is_whitespace(s[i]) {
        skip_whitespace(s, i + 1)
    } else {
        i
    }
}

/// The index after the last character before `i` that is no white space,
/// and no less than `lo`.
pub open spec fn skip_whitespace_back(s: Seq<char>, lo: int, i: int) -> int
    decreases i,
{
    if lo < i <= s.len() && i > 0 && is_whitespace(s[i - 1]) {
        skip_whitespace_back(s, lo, i - 1)
    } else {
        i
    }
}

/// `s` without the white space at its two ends.
pub open spec fn spec_trim(s: Seq<char>) -> Seq<char> {
    let start = skip_whitespace(s, 0);
    let end = skip_whitespace_back(s, start, s.len() as int);
    s.subrange(start, end)
}

/// The index of the first `c` at or after `i`, or the length of `s` where
/// none follows.
pub open spec fn index_of(s: Seq<char>, c: char, i: int) -> int
    decreases s.len() - i,
{
    if i < 0 || i >= s.len() {
        s.len() as int
    } else if s[i] == c {
        i
    } else {
        index_of(s, c, i + 1)
    }
}

/// The first `c` at or after `i` is found at `i` or later.
pub proof fn lemma_index_of_bounds(s: Seq<char>, c: char, i: int)
    requires
        0 <= i <= s.len(),
    ensures
        i <= index_of(s, c, i) <= s.len(),
    decreases s.len() - i,
{
    if i < s.len() && s[i] != c {
        lemma_index_of_bounds(s, c, i + 1);
    }
}

/// `s` ends with `suffix`.
pub open spec fn ends_with(s: Seq<char>, suffix: Seq<char>) -> bool {
    s.len() >= suffix.len() && s.subrange(s.len() - suffix.len(), s.len() as int) == suffix
}

pub fn whitespace(c: char) -> (b: bool)
    ensures
        b == is_whitespace(c),
{
    let v = c as u32;
    (0x09 <= v && v <= 0x0d) || v == 0x20 || v == 0x85 || v == 0xa0 || v == 0x1680 || (0x2000 <= v
        && v <= 0x200a) || v == 0x2028 || v == 0x2029 || v == 0x202f || v == 0x205f || v
        == 0x3000
}

/// The index of the first `c` in `s` at or after `from`, or the length of
/// `s`.
pub fn find_char(s: &str, c: char, from: usize) -> (at: usize)
    requires
        from <= s@.len(),
    ensures
        at == index_of(s@, c, from as int),
        from <= at <= s@.len(),
        at < s@.len() ==> s@[at as int] == c,
{
    let n = s.unicode_len();
    let mut at = from;
    while at < n && s.get_char(at) != c
        invariant
            from <= at <= n,
            n == s@.len(),
            index_of(s@, c, at as int) == index_of(s@, c, from as int),
        decreases n - at,
    {
        at += 1;
    }
    at
}

/// Whether `s` ends with `suffix`.
pub fn str_ends_with(s: &str, suffix: &str) -> (b: bool)
    ensures
        b == ends_with(s@, suffix@),
{
    let n = s.unicode_len();
    let m = suffix.unicode_len();
    if n < m {
        return false;
    }
    let base = n - m;
    let mut i: usize = 0;
    while i < m
        invariant
            i <= m,
            m == suffix@.len(),
            n == s@.len(),
            base == n - m,
            forall|k: int| 0 <= k < i ==> s@[base + k] == suffix@[k],
        decreases m - i,
    {
        if s.get_char(base + i) != suffix.get_char(i) {
            proof {
                let tail = s@.subrange(n - m, n as int);
                assert(tail[i as int] == s@[base + i]);
            }
            return false;
        }
        i += 1;
    }
    assert(s@.subrange(n - m, n as int) =~= suffix@);
    true
}

} // verus!
