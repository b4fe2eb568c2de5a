//! Small verified helpers over strings: equality, suffix tests, and
//! character search, all specified over the character-sequence view.

use vstd::prelude::*;
use vstd::string::StrSliceExecFns;
use vstd::string::StringExecFns;

verus! {

/// Character-for-character string equality.
pub fn str_eq(a: &str, b: &str) -> (r: bool)
    ensures
        r == (a@ == b@),
{
    let la = a.unicode_len();
    let lb = b.unicode_len();
    if la != lb {
        proof {
            assert(a@ != b@);
        }
        return false;
    }
    let mut i: usize = 0;
    while i < la
        invariant
            la == a@.len(),
            la == b@.len(),
            i <= la,
            forall|k: int| 0 <= k < i ==> a@[k] == b@[k],
        decreases la - i,
    {
        if a.get_char(i) != b.get_char(i) {
            return false;
        }
        i = i + 1;
    }
    proof {
        assert(a@ =~= b@);
    }
    true
}

/// Whether `suffix` ends `s`.
pub open spec fn spec_ends_with(s: Seq<char>, suffix: Seq<char>) -> bool {
    s.len() >= suffix.len() && s.subrange(s.len() - suffix.len(), s.len() as int) == suffix
}

pub fn str_ends_with(s: &str, suffix: &str) -> (r: bool)
    ensures
        r == spec_ends_with(s@, suffix@),
{
    let n = s.unicode_len();
    let m = suffix.unicode_len();
    if m > n {
        return false;
    }
    let mut i: usize = 0;
    while i < m
        invariant
            n == s@.len(),
            m == suffix@.len(),
            m <= n,
            i <= m,
            forall|k: int| 0 <= k < i ==> s@[n - m + k] == suffix@[k],
        decreases m - i,
    {
        if s.get_char(n - m + i) != suffix.get_char(i) {
            proof {
                let tail = s@.subrange(s@.len() - suffix@.len(), s@.len() as int);
                assert(tail[i as int] == s@[n - m + i]);
            }
            return false;
        }
        i = i + 1;
    }
    proof {
        assert(s@.subrange(s@.len() - suffix@.len(), s@.len() as int) =~= suffix@);
    }
    true
}

/// Concatenation of two strings as a fresh `String`.
pub fn str_concat(a: &str, b: &str) -> (r: String)
    ensures
        r@ == a@ + b@,
{
    let mut out = a.to_owned();
    out.append(b);
    out
}

/// The first position at or after `from` where `c` occurs, if any.
pub open spec fn spec_find_from(s: Seq<char>, c: char, from: int) -> Option<int>
    decreases s.len() - from,
{
    if from < 0 || from >= s.len() {
        None
    } else if s[from] == c {
        Some(from)
    } else {
        spec_find_from(s, c, from + 1)
    }
}

/// A found position holds `c` and nothing before it (at or after `from`) does.
pub proof fn lemma_find_from_properties(s: Seq<char>, c: char, from: int)
    requires
        0 <= from,
    ensures
        match spec_find_from(s, c, from) {
            Some(p) => {
                &&& from <= p < s.len()
                &&& s[p] == c
                &&& forall|k: int| from <= k < p ==> s[k] != c
            },
            None => forall|k: int| from <= k < s.len() ==> s[k] != c,
        },
    decreases s.len() - from,
{
    if from < s.len() && s[from] != c {
        lemma_find_from_properties(s, c, from + 1);
    }
}

/// The last position in `[0, end)` where `c` occurs, if any.
pub open spec fn spec_rfind_before(s: Seq<char>, c: char, end: int) -> Option<int>
    decreases end,
{
    if end <= 0 || end > s.len() {
        None
    } else if s[end - 1] == c {
        Some(end - 1)
    } else {
        spec_rfind_before(s, c, end - 1)
    }
}

pub proof fn lemma_rfind_before_properties(s: Seq<char>, c: char, end: int)
    requires
        end <= s.len(),
    ensures
        match spec_rfind_before(s, c, end) {
            Some(p) => {
                &&& 0 <= p < end
                &&& s[p] == c
                &&& forall|k: int| p < k < end ==> s[k] != c
            },
            None => forall|k: int| 0 <= k < end ==> s[k] != c,
        },
    decreases end,
{
    if end > 0 && s[end - 1] != c {
        lemma_rfind_before_properties(s, c, end - 1);
    }
}

/// First occurrence of `c` at or after `from`.
pub fn find_char_from(s: &str, c: char, from: usize) -> (r: Option<usize>)
    ensures
        match r {
            Some(p) => from <= p < s@.len() && spec_find_from(s@, c, from as int) == Some(p as int),
            None => spec_find_from(s@, c, from as int) is None,
        },
{
    let n = s.unicode_len();
    let mut i: usize = from;
    if i > n {
        proof {
            assert(spec_find_from(s@, c, from as int) is None);
        }
        return None;
    }
    while i < n
        invariant
            n == s@.len(),
            from <= i <= n,
            spec_find_from(s@, c, from as int) == spec_find_from(s@, c, i as int),
        decreases n - i,
    {
        if s.get_char(i) == c {
            return Some(i);
        }
        i = i + 1;
    }
    None
}

/// Last occurrence of `c` before position `end`.
pub fn rfind_char_before(s: &str, c: char, end: usize) -> (r: Option<usize>)
    requires
        end <= s@.len(),
    ensures
        match r {
            Some(p) => p < end && spec_rfind_before(s@, c, end as int) == Some(p as int),
            None => spec_rfind_before(s@, c, end as int) is None,
        },
{
    let mut i: usize = end;
    while i > 0
        invariant
            end <= s@.len(),
            i <= end,
            spec_rfind_before(s@, c, end as int) == spec_rfind_before(s@, c, i as int),
        decreases i,
    {
        i = i - 1;
        if s.get_char(i) == c {
            return Some(i);
        }
    }
    None
}

/// A position that holds `c`, with nothing before it holding `c`, is the
/// find result.
pub proof fn lemma_find_from_is(s: Seq<char>, c: char, from: int, p: int)
    requires
        0 <= from <= p < s.len(),
        s[p] == c,
        forall|j: int| from <= j < p ==> s[j] != c,
    ensures
        spec_find_from(s, c, from) == Some(p),
{
    lemma_find_from_properties(s, c, from);
    match spec_find_from(s, c, from) {
        None => {
            assert(s[p] != c);
        },
        Some(q) => {
            if q < p {
                assert(s[q] != c);
            } else if q > p {
                assert(s[p] != c);
            }
        },
    }
}

/// A sequence without `c` has no find result.
pub proof fn lemma_find_from_none(s: Seq<char>, c: char, from: int)
    requires
        0 <= from,
        forall|j: int| from <= j < s.len() ==> s[j] != c,
    ensures
        spec_find_from(s, c, from) is None,
{
    lemma_find_from_properties(s, c, from);
    match spec_find_from(s, c, from) {
        Some(q) => {
            assert(s[q] != c);
        },
        None => {},
    }
}

/// A position that holds `c`, with nothing after it (before `end`)
/// holding `c`, is the right-most find result.
pub proof fn lemma_rfind_before_is(s: Seq<char>, c: char, end: int, p: int)
    requires
        0 <= p < end <= s.len(),
        s[p] == c,
        forall|j: int| p < j < end ==> s[j] != c,
    ensures
        spec_rfind_before(s, c, end) == Some(p),
{
    lemma_rfind_before_properties(s, c, end);
    match spec_rfind_before(s, c, end) {
        None => {
            assert(s[p] != c);
        },
        Some(q) => {
            if q < p {
                assert(s[p] != c);
            } else if q > p {
                assert(s[q] != c);
            }
        },
    }
}

} // verus!
