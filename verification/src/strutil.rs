//! Character-level string helpers: equality, substring search, whitespace
//! trimming, and a trusted lowercasing wrapper.

use vstd::prelude::*;
use vstd::string::*;

verus! {

/// The sequence of characters that `str::to_lowercase` yields for the given
/// characters; it depends on them alone.
pub uninterp spec fn lower_of(s: Seq<char>) -> Seq<char>;

/// Relies on `str::to_lowercase`: the result depends on the characters alone.
#[verifier::external_body]
pub(crate) fn to_lower(s: &str) -> (r: String)
    ensures
        r@ == lower_of(s@),
{
    s.to_lowercase()
}

/// `pat` occurs in `text` starting at position `i`.
pub open spec fn matches_at(text: Seq<char>, pat: Seq<char>, i: int) -> bool {
    0 <= i && i + pat.len() <= text.len() && text.subrange(i, i + pat.len()) == pat
}

/// `pat` occurs somewhere in `text`.
pub open spec fn contains_seq(text: Seq<char>, pat: Seq<char>) -> bool {
    exists|i: int| matches_at(text, pat, i)
}

/// Character-wise equality of two string slices.
pub fn str_eq(a: &str, b: &str) -> (r: bool)
    ensures
        r == (a@ == b@),
{
    let alen = a.unicode_len();
    let blen = b.unicode_len();
    if alen != blen {
        return false;
    }
    let mut i: usize = 0;
    while i < alen
        invariant
            i <= alen,
            alen == a@.len(),
            alen == b@.len(),
            forall|j: int| 0 <= j < i ==> a@[j] == b@[j],
        decreases alen - i,
    {
        if a.get_char(i) != b.get_char(i) {
            return false;
        }
        i = i + 1;
    }
    proof {
        assert(a@ =~= b@);
    }
    true
}

/// `pat` occurs in `text` at position `i`.
fn occurs_at(text: &str, pat: &str, i: usize, tlen: usize, plen: usize) -> (r: bool)
    requires
        tlen == text@.len(),
        plen == pat@.len(),
        i + plen <= tlen,
    ensures
        r == matches_at(text@, pat@, i as int),
{
    let mut k: usize = 0;
    while k < plen
        invariant
            k <= plen,
            tlen == text@.len(),
            plen == pat@.len(),
            i + plen <= tlen,
            forall|j: int| 0 <= j < k ==> text@[i + j] == pat@[j],
        decreases plen - k,
    {
        if text.get_char(i + k) != pat.get_char(k) {
            return false;
        }
        k = k + 1;
    }
    proof {
        assert(text@.subrange(i as int, i + plen) =~= pat@);
    }
    true
}

/// Substring search: does `pat` occur anywhere in `text`?
pub fn str_contains(text: &str, pat: &str) -> (r: bool)
    ensures
        r == contains_seq(text@, pat@),
{
    let tlen = text.unicode_len();
    let plen = pat.unicode_len();
    if plen > tlen {
        return false;
    }
    if plen == 0 {
        proof {
            assert(text@.subrange(0, 0) =~= pat@);
            assert(matches_at(text@, pat@, 0));
        }
        return true;
    }
    let last = tlen - plen;
    let mut i: usize = 0;
    loop
        invariant
            i <= last + 1,
            last == tlen - plen,
            tlen == text@.len(),
            plen == pat@.len(),
            1 <= plen <= tlen,
            forall|j: int| 0 <= j < i ==> !matches_at(text@, pat@, j),
        ensures
            i <= last ==> matches_at(text@, pat@, i as int),
            i > last ==> forall|j: int| 0 <= j < i ==> !matches_at(text@, pat@, j),
        decreases last + 1 - i,
    {
        if i > last {
            break;
        }
        if occurs_at(text, pat, i, tlen, plen) {
            break;
        }
        i = i + 1;
    }
    if i <= last {
        true
    } else {
        false
    }
}

/// Space-like characters that token trimming strips at the edges.
pub open spec fn is_space(c: char) -> bool {
    c == ' ' || c == '\t' || c == '\n' || c == '\r'
}

fn is_space_exec(c: char) -> (r: bool)
    ensures
        r == is_space(c),
{
    c == ' ' || c == '\t' || c == '\n' || c == '\r'
}

/// The characters of `s` with space-like characters stripped from both ends:
/// the subrange from the first non-space to one past the last non-space.
pub open spec fn trimmed(s: Seq<char>) -> Seq<char>
    decreases s.len(),
{
    if s.len() == 0 {
        s
    } else if is_space(s[0]) {
        trimmed(s.subrange(1, s.len() as int))
    } else if is_space(s[s.len() - 1]) {
        trimmed(s.subrange(0, s.len() - 1))
    } else {
        s
    }
}

proof fn lemma_trimmed_inner(s: Seq<char>, lo: int, hi: int)
    requires
        0 <= lo <= hi <= s.len(),
        forall|j: int| 0 <= j < lo ==> is_space(s[j]),
        forall|j: int| hi <= j < s.len() ==> is_space(s[j]),
        lo < hi ==> !is_space(s[lo]) && !is_space(s[hi - 1]),
    ensures
        trimmed(s) == s.subrange(lo, hi),
    decreases s.len(),
{
    if s.len() == 0 {
        assert(trimmed(s) =~= s.subrange(lo, hi));
    } else if lo == hi {
        // everything is space-like; trimming reaches the empty sequence
        if is_space(s[0]) {
            let t = s.subrange(1, s.len() as int);
            let lo2: int = if lo <= 0 { 0 } else { lo - 1 };
            lemma_trimmed_inner(t, lo2, lo2);
            assert(trimmed(s) =~= s.subrange(lo, hi));
        } else {
            assert(lo == 0 && hi == 0);
            assert(is_space(s[s.len() - 1]));
            let t = s.subrange(0, s.len() - 1);
            lemma_trimmed_inner(t, 0, 0);
            assert(trimmed(s) =~= s.subrange(lo, hi));
        }
    } else {
        if is_space(s[0]) {
            assert(lo > 0);
            let t = s.subrange(1, s.len() as int);
            lemma_trimmed_inner(t, lo - 1, hi - 1);
            assert(t.subrange(lo - 1, hi - 1) =~= s.subrange(lo, hi));
        } else if is_space(s[s.len() - 1]) {
            assert(hi < s.len());
            let t = s.subrange(0, s.len() - 1);
            lemma_trimmed_inner(t, lo, hi);
            assert(t.subrange(lo, hi) =~= s.subrange(lo, hi));
        } else {
            assert(lo == 0 && hi == s.len());
            assert(trimmed(s) =~= s.subrange(lo, hi));
        }
    }
}

/// A copy of `s` with space-like characters stripped from both ends.
pub fn trim_spaces(s: &str) -> (r: String)
    ensures
        r@ == trimmed(s@),
{
    let len = s.unicode_len();
    let mut lo: usize = 0;
    while lo < len && is_space_exec(s.get_char(lo))
        invariant
            lo <= len,
            len == s@.len(),
            forall|j: int| 0 <= j < lo ==> is_space(s@[j]),
        decreases len - lo,
    {
        lo = lo + 1;
    }
    let mut hi: usize = len;
    while hi > lo && is_space_exec(s.get_char(hi - 1))
        invariant
            lo <= hi <= len,
            len == s@.len(),
            forall|j: int| 0 <= j < lo ==> is_space(s@[j]),
            forall|j: int| hi <= j < len ==> is_space(s@[j]),
        decreases hi,
    {
        hi = hi - 1;
    }
    proof {
        lemma_trimmed_inner(s@, lo as int, hi as int);
    }
    String::from_str(s.substring_char(lo, hi))
}

} // verus!
