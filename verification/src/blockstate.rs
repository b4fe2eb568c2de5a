//! The textual block-state grammar: `name` or
//! `name[prop1=val1,prop2=val2,...]`. Parsing splits at the first `[`,
//! takes the property list up to the right-most `]` after it (tolerating
//! trailing characters), splits properties at commas and the first `=`,
//! trims whitespace, and silently drops entries with an empty key or no
//! `=` at all.

use vstd::prelude::*;
use vstd::string::StrSliceExecFns;

use crate::strutil::{
    find_char_from, rfind_char_before, spec_find_from, spec_rfind_before,
    lemma_find_from_properties,
};

verus! {

/// The characters `str::trim` removes: the White_Space property.
pub open spec fn spec_is_space(c: char) -> bool {
    ||| c == ' '
    ||| c == '\u{0009}'
    ||| c == '\u{000A}'
    ||| c == '\u{000B}'
    ||| c == '\u{000C}'
    ||| c == '\u{000D}'
    ||| c == '\u{0085}'
    ||| c == '\u{00A0}'
    ||| c == '\u{1680}'
    ||| c == '\u{2000}'
    ||| c == '\u{2001}'
    ||| c == '\u{2002}'
    ||| c == '\u{2003}'
    ||| c == '\u{2004}'
    ||| c == '\u{2005}'
    ||| c == '\u{2006}'
    ||| c == '\u{2007}'
    ||| c == '\u{2008}'
    ||| c == '\u{2009}'
    ||| c == '\u{200A}'
    ||| c == '\u{2028}'
    ||| c == '\u{2029}'
    ||| c == '\u{202F}'
    ||| c == '\u{205F}'
    ||| c == '\u{3000}'
}

fn is_space(c: char) -> (r: bool)
    ensures
        r == spec_is_space(c),
{
    c == ' ' || c == '\u{0009}' || c == '\u{000A}' || c == '\u{000B}' || c == '\u{000C}'
        || c == '\u{000D}' || c == '\u{0085}' || c == '\u{00A0}' || c == '\u{1680}'
        || c == '\u{2000}' || c == '\u{2001}' || c == '\u{2002}' || c == '\u{2003}'
        || c == '\u{2004}' || c == '\u{2005}' || c == '\u{2006}' || c == '\u{2007}'
        || c == '\u{2008}' || c == '\u{2009}' || c == '\u{200A}' || c == '\u{2028}'
        || c == '\u{2029}' || c == '\u{202F}' || c == '\u{205F}' || c == '\u{3000}'
}

/// First non-space position at or after `lo`, stopping at `hi`.
pub open spec fn spec_skip_front(s: Seq<char>, lo: int, hi: int) -> int
    decreases hi - lo,
{
    if lo < 0 || hi > s.len() || lo >= hi {
        lo
    } else if spec_is_space(s[lo]) {
        spec_skip_front(s, lo + 1, hi)
    } else {
        lo
    }
}

/// End of the last non-space run before `hi`, stopping at `lo`.
pub open spec fn spec_skip_back(s: Seq<char>, lo: int, hi: int) -> int
    decreases hi - lo,
{
    if lo < 0 || hi > s.len() || lo >= hi {
        hi
    } else if spec_is_space(s[hi - 1]) {
        spec_skip_back(s, lo, hi - 1)
    } else {
        hi
    }
}

/// The range `[lo, hi)` of `s` with surrounding whitespace removed.
pub open spec fn spec_trim(s: Seq<char>, lo: int, hi: int) -> Seq<char> {
    let f = spec_skip_front(s, lo, hi);
    let b = spec_skip_back(s, f, hi);
    s.subrange(f, b)
}

/// First occurrence of `c` within `[lo, hi)`.
pub open spec fn spec_find_in(s: Seq<char>, c: char, lo: int, hi: int) -> Option<int>
    decreases hi - lo,
{
    if lo < 0 || lo >= hi || hi > s.len() {
        None
    } else if s[lo] == c {
        Some(lo)
    } else {
        spec_find_in(s, c, lo + 1, hi)
    }
}

/// A bounded search agrees with an unbounded one cut off at `hi`.
proof fn lemma_find_in_from(s: Seq<char>, c: char, lo: int, hi: int)
    requires
        0 <= lo,
        hi <= s.len(),
    ensures
        spec_find_in(s, c, lo, hi) == (match spec_find_from(s, c, lo) {
            Some(p) => if p < hi {
                Some(p)
            } else {
                None::<int>
            },
            None => None::<int>,
        }),
    decreases s.len() - lo,
{
    if lo < s.len() && s[lo] != c {
        lemma_find_in_from(s, c, lo + 1, hi);
    }
}

/// One `key=value` segment: `None` when there is no `=` or the trimmed key
/// is empty.
pub open spec fn spec_segment_pair(s: Seq<char>, lo: int, hi: int) -> Option<(Seq<char>, Seq<
    char>)> {
    match spec_find_in(s, '=', lo, hi) {
        None => None,
        Some(e) => {
            let k = spec_trim(s, lo, e);
            let v = spec_trim(s, e + 1, hi);
            if k.len() == 0 {
                None
            } else {
                Some((k, v))
            }
        },
    }
}

/// The property pairs of the comma-separated segments in `[lo, hi)`.
pub open spec fn spec_props_in(s: Seq<char>, lo: int, hi: int) -> Seq<(Seq<char>, Seq<char>)>
    decreases hi - lo,
{
    if lo < 0 || lo > hi || hi > s.len() {
        Seq::empty()
    } else {
        match spec_find_in(s, ',', lo, hi) {
            None => match spec_segment_pair(s, lo, hi) {
                None => Seq::empty(),
                Some(p) => seq![p],
            },
            Some(m) => {
                let m2 = if m < lo {
                    lo
                } else if m >= hi {
                    hi - 1
                } else {
                    m
                };
                let head: Seq<(Seq<char>, Seq<char>)> = match spec_segment_pair(s, lo, m2) {
                    None => Seq::empty(),
                    Some(p) => seq![p],
                };
                head + spec_props_in(s, m2 + 1, hi)
            },
        }
    }
}

/// The name part: everything before the first `[`, or the whole string.
pub open spec fn spec_parse_name(s: Seq<char>) -> Seq<char> {
    match spec_find_from(s, '[', 0) {
        None => s,
        Some(b) => s.subrange(0, b),
    }
}

/// The property pairs: the segments between the first `[` and the last `]`
/// after it (or the end of the string when no such `]` exists).
pub open spec fn spec_parse_props(s: Seq<char>) -> Seq<(Seq<char>, Seq<char>)> {
    match spec_find_from(s, '[', 0) {
        None => Seq::empty(),
        Some(b) => {
            let e = match spec_rfind_before(s, ']', s.len() as int) {
                Some(p) => if p > b {
                    p
                } else {
                    s.len() as int
                },
                None => s.len() as int,
            };
            spec_props_in(s, b + 1, e)
        },
    }
}

/// The pair views of a vector of owned string pairs.
pub open spec fn spec_pair_views(v: Seq<(String, String)>) -> Seq<(Seq<char>, Seq<char>)> {
    v.map_values(|p: (String, String)| (p.0@, p.1@))
}

/// Trimmed bounds of the range `[lo, hi)`.
fn trim_range(s: &str, lo: usize, hi: usize) -> (r: (usize, usize))
    requires
        lo <= hi <= s@.len(),
    ensures
        lo <= r.0 <= r.1 <= hi,
        r.0 == spec_skip_front(s@, lo as int, hi as int),
        r.1 == spec_skip_back(s@, r.0 as int, hi as int),
{
    let mut f = lo;
    loop
        invariant_except_break
            lo <= f <= hi <= s@.len(),
            spec_skip_front(s@, lo as int, hi as int) == spec_skip_front(s@, f as int, hi as int),
        ensures
            lo <= f <= hi <= s@.len(),
            f == spec_skip_front(s@, lo as int, hi as int),
        decreases hi - f,
    {
        if f >= hi {
            break;
        }
        if !is_space(s.get_char(f)) {
            break;
        }
        f = f + 1;
    }
    let mut b = hi;
    loop
        invariant_except_break
            f <= b <= hi <= s@.len(),
            spec_skip_back(s@, f as int, hi as int) == spec_skip_back(s@, f as int, b as int),
        ensures
            f <= b <= hi <= s@.len(),
            b == spec_skip_back(s@, f as int, hi as int),
        decreases b,
    {
        if b <= f {
            break;
        }
        if !is_space(s.get_char(b - 1)) {
            break;
        }
        b = b - 1;
    }
    (f, b)
}

/// First occurrence of `c` within `[lo, hi)`, by a forward scan cut off at
/// `hi`.
fn find_in_range(s: &str, c: char, lo: usize, hi: usize) -> (r: Option<usize>)
    requires
        lo <= hi <= s@.len(),
    ensures
        match r {
            Some(p) => lo <= p < hi && spec_find_in(s@, c, lo as int, hi as int) == Some(p as int),
            None => spec_find_in(s@, c, lo as int, hi as int) is None,
        },
{
    proof {
        lemma_find_in_from(s@, c, lo as int, hi as int);
    }
    match find_char_from(s, c, lo) {
        Some(p) => if p < hi {
            Some(p)
        } else {
            None
        },
        None => None,
    }
}

/// One `key=value` segment of `[lo, hi)` as owned strings.
fn segment_pair(s: &str, lo: usize, hi: usize) -> (r: Option<(String, String)>)
    requires
        lo <= hi <= s@.len(),
    ensures
        match r {
            Some(p) => spec_segment_pair(s@, lo as int, hi as int) == Some((p.0@, p.1@)),
            None => spec_segment_pair(s@, lo as int, hi as int) is None,
        },
{
    match find_in_range(s, '=', lo, hi) {
        None => None,
        Some(e) => {
            let (kl, kh) = trim_range(s, lo, e);
            let (vl, vh) = trim_range(s, e + 1, hi);
            if kl == kh {
                None
            } else {
                let key = s.substring_char(kl, kh).to_owned();
                let value = s.substring_char(vl, vh).to_owned();
                Some((key, value))
            }
        },
    }
}

/// All property pairs of the comma-separated segments in `[lo, hi)`.
fn parse_props_range(s: &str, lo: usize, hi: usize) -> (r: Vec<(String, String)>)
    requires
        lo <= hi <= s@.len(),
    ensures
        spec_pair_views(r@) == spec_props_in(s@, lo as int, hi as int),
    decreases hi - lo,
{
    let mut out: Vec<(String, String)> = Vec::new();
    match find_in_range(s, ',', lo, hi) {
        None => {
            match segment_pair(s, lo, hi) {
                None => {
                    proof {
                        assert(spec_pair_views(out@) =~= spec_props_in(s@, lo as int, hi as int));
                    }
                },
                Some(p) => {
                    out.push(p);
                    proof {
                        assert(spec_pair_views(out@) =~= spec_props_in(s@, lo as int, hi as int));
                    }
                },
            }
        },
        Some(m) => {
            match segment_pair(s, lo, m) {
                None => {},
                Some(p) => {
                    out.push(p);
                },
            }
            let mut rest = parse_props_range(s, m + 1, hi);
            let ghost head = out@;
            let ghost restv = rest@;
            out.append(&mut rest);
            proof {
                assert(spec_pair_views(out@) =~= spec_pair_views(head) + spec_pair_views(
                    restv,
                ));
                assert(spec_pair_views(out@) =~= spec_props_in(s@, lo as int, hi as int));
            }
        },
    }
    out
}

/// Parse a block state string like `minecraft:oak_stairs[facing=north]`
/// into the block name and its property pairs.
pub fn parse_block_state_string(s: &str) -> (r: (String, Vec<(String, String)>))
    ensures
        r.0@ == spec_parse_name(s@),
        spec_pair_views(r.1@) == spec_parse_props(s@),
{
    let n = s.unicode_len();
    match find_char_from(s, '[', 0) {
        None => {
            let name = s.to_owned();
            let props: Vec<(String, String)> = Vec::new();
            proof {
                assert(spec_pair_views(props@) =~= spec_parse_props(s@));
            }
            (name, props)
        },
        Some(bs) => {
            let name = s.substring_char(0, bs).to_owned();
            let be = match rfind_char_before(s, ']', n) {
                Some(e) => if e > bs {
                    e
                } else {
                    n
                },
                None => n,
            };
            proof {
                lemma_find_from_properties(s@, '[', 0);
            }
            let props = parse_props_range(s, bs + 1, be);
            (name, props)
        },
    }
}

/// A text without `[` parses as a bare name with no properties.
pub proof fn lemma_parse_plain_name(s: Seq<char>)
    requires
        forall|i: int| 0 <= i < s.len() ==> s[i] != '[',
    ensures
        spec_parse_name(s) == s,
        spec_parse_props(s) == Seq::<(Seq<char>, Seq<char>)>::empty(),
{
    crate::strutil::lemma_find_from_none(s, '[', 0);
}

/// Properties of the bounded search: a hit is the first in range, a miss
/// means no occurrence in range.
proof fn lemma_find_in_properties(s: Seq<char>, c: char, lo: int, hi: int)
    requires
        0 <= lo,
        hi <= s.len(),
    ensures
        match spec_find_in(s, c, lo, hi) {
            Some(p) => {
                &&& lo <= p < hi
                &&& s[p] == c
                &&& forall|j: int| lo <= j < p ==> s[j] != c
            },
            None => forall|j: int| lo <= j < hi ==> s[j] != c,
        },
    decreases hi - lo,
{
    if lo < hi && s[lo] != c {
        lemma_find_in_properties(s, c, lo + 1, hi);
    }
}

/// A position in range that holds `c`, with nothing before it in range
/// holding `c`, is the bounded find result.
proof fn lemma_find_in_is(s: Seq<char>, c: char, lo: int, hi: int, p: int)
    requires
        0 <= lo <= p < hi <= s.len(),
        s[p] == c,
        forall|j: int| lo <= j < p ==> s[j] != c,
    ensures
        spec_find_in(s, c, lo, hi) == Some(p),
{
    lemma_find_in_properties(s, c, lo, hi);
    match spec_find_in(s, c, lo, hi) {
        None => {
            assert(s[p] != c);
        },
        Some(q) => {
            if q < p {
                assert(s[q] != c);
            } else if q > p {
                assert(s[p] != c);
            }
        },
    }
}

/// A range without `c` has no bounded find result.
proof fn lemma_find_in_none(s: Seq<char>, c: char, lo: int, hi: int)
    requires
        0 <= lo,
        hi <= s.len(),
        forall|j: int| lo <= j < hi ==> s[j] != c,
    ensures
        spec_find_in(s, c, lo, hi) is None,
{
    lemma_find_in_properties(s, c, lo, hi);
    match spec_find_in(s, c, lo, hi) {
        Some(q) => {
            assert(s[q] != c);
        },
        None => {},
    }
}

/// A token the grammar passes through unchanged: no whitespace, no comma,
/// no equals sign.
pub open spec fn spec_plain_token(s: Seq<char>) -> bool {
    forall|i: int|
        0 <= i < s.len() ==> !spec_is_space(#[trigger] s[i]) && s[i] != ',' && s[i] != '='
}

/// A property list the canonical text represents losslessly: every key is
/// non-empty and every key and value is a plain token.
pub open spec fn spec_plain_props(props: Seq<(Seq<char>, Seq<char>)>) -> bool {
    forall|i: int|
        0 <= i < props.len() ==> (#[trigger] props[i]).0.len() >= 1 && spec_plain_token(
            props[i].0) && spec_plain_token(props[i].1)
}

/// Parsing the `key=value` body of a canonical text recovers the pairs it
/// was printed from.
proof fn lemma_props_in_built(s: Seq<char>, lo: int, hi: int, props: Seq<(Seq<char>, Seq<
    char>)>, k: int)
    requires
        0 <= k <= props.len(),
        0 <= lo <= hi <= s.len(),
        spec_plain_props(props),
        hi - lo == crate::registry::spec_props_string_from(props, k).len(),
        s.subrange(lo, hi) == crate::registry::spec_props_string_from(props, k),
    ensures
        spec_props_in(s, lo, hi) == props.subrange(k, props.len() as int),
    decreases props.len() - k,
{
    let body = crate::registry::spec_props_string_from(props, k);
    assert(forall|i: int| 0 <= i < body.len() ==> s[lo + i] == body[i]) by {
        assert(forall|i: int|
            0 <= i < body.len() ==> s.subrange(lo, hi)[i] == #[trigger] body[i]);
    }
    if k == props.len() {
        assert(body.len() == 0);
        lemma_find_in_none(s, ',', lo, hi);
        lemma_find_in_none(s, '=', lo, hi);
        assert(props.subrange(k, props.len() as int) =~= Seq::<(Seq<char>, Seq<char>)>::empty());
    } else {
        let key = props[k].0;
        let val = props[k].1;
        let kl = key.len() as int;
        let vl = val.len() as int;
        let seg = key + seq!['='] + val;
        let seglen = kl + 1 + vl;
        let seg_hi = lo + seglen;
        // Character layout of the segment, bridged into `s`.
        assert(spec_plain_token(key) && spec_plain_token(val) && kl >= 1);
        assert forall|j: int| lo <= j < lo + kl implies s[j] == key[j - lo] && s[j] != '='
            && s[j] != ',' && !spec_is_space(s[j]) by {
            assert(s[j] == body[j - lo]);
            assert(body[j - lo] == key[j - lo]);
            assert(key[j - lo] != '=' && key[j - lo] != ',' && !spec_is_space(key[j - lo]));
        }
        assert(s[lo + kl] == '=') by {
            assert(body[kl] == '=');
        }
        assert forall|j: int| lo + kl + 1 <= j < seg_hi implies s[j] == val[j - (lo + kl + 1)]
            && s[j] != ',' && !spec_is_space(s[j]) by {
            assert(s[j] == body[j - lo]);
            assert(body[j - lo] == val[j - lo - kl - 1]);
            assert(val[j - lo - kl - 1] != ',' && !spec_is_space(val[j - lo - kl - 1]));
        }
        // Common facts about one segment [lo, seg_hi).
        assert(spec_segment_pair(s, lo, seg_hi) == Some((key, val))) by {
            lemma_find_in_is(s, '=', lo, seg_hi, lo + kl);
            // Key is space-free and non-empty: trimming keeps it whole.
            assert(!spec_is_space(s[lo]));
            assert(spec_skip_front(s, lo, lo + kl) == lo);
            assert(!spec_is_space(s[lo + kl - 1]));
            assert(spec_skip_back(s, lo, lo + kl) == lo + kl);
            assert(spec_trim(s, lo, lo + kl) =~= key);
            if vl == 0 {
                assert(spec_skip_front(s, lo + kl + 1, seg_hi) == lo + kl + 1);
                assert(spec_trim(s, lo + kl + 1, seg_hi) =~= val);
            } else {
                assert(!spec_is_space(s[lo + kl + 1]));
                assert(spec_skip_front(s, lo + kl + 1, seg_hi) == lo + kl + 1);
                assert(!spec_is_space(s[seg_hi - 1]));
                assert(spec_skip_back(s, lo + kl + 1, seg_hi) == seg_hi);
                assert(spec_trim(s, lo + kl + 1, seg_hi) =~= val);
            }
        }

        if k == props.len() - 1 {
            assert(body =~= seg);
            assert(hi == seg_hi);
            assert(forall|j: int| lo <= j < hi ==> s[j] != ',');
            lemma_find_in_none(s, ',', lo, hi);
            assert(seq![(key, val)] =~= props.subrange(k, props.len() as int));
        } else {
            let rest = crate::registry::spec_props_string_from(props, k + 1);
            assert(body =~= seg + seq![','] + rest);
            assert(body[seglen] == ',');
            assert(s[seg_hi] == ',');
            assert(forall|j: int| lo <= j < seg_hi ==> s[j] != ',');
            lemma_find_in_is(s, ',', lo, hi, seg_hi);
            assert(rest.len() >= 1) by {
                assert(props[k + 1].0.len() >= 1);
            }
            assert forall|i: int| 0 <= i < rest.len() implies s[seg_hi + 1 + i] == #[trigger] rest[i] by {
                assert(s[lo + (seglen + 1 + i)] == body[seglen + 1 + i]);
                assert(body[seglen + 1 + i] == rest[i]);
            }
            assert(s.subrange(seg_hi + 1, hi) =~= rest);
            lemma_props_in_built(s, seg_hi + 1, hi, props, k + 1);
            assert(spec_segment_pair(s, lo, seg_hi) == Some((key, val)));
            assert(spec_props_in(s, lo, hi) =~= seq![(key, val)] + props.subrange(k + 1,
                props.len() as int));
            assert(seq![(key, val)] + props.subrange(k + 1, props.len() as int) =~= props.subrange(
                k, props.len() as int));
        }
    }
}

/// Parsing the canonical text of a name with a non-empty plain property
/// list recovers the name and the pairs exactly.
pub proof fn lemma_parse_built(name: Seq<char>, props: Seq<(Seq<char>, Seq<char>)>)
    requires
        props.len() >= 1,
        forall|i: int| 0 <= i < name.len() ==> #[trigger] name[i] != '[',
        spec_plain_props(props),
    ensures
        spec_parse_name(crate::registry::spec_state_string(name, props)) == name,
        spec_parse_props(crate::registry::spec_state_string(name, props)) == props,
{
    let body = crate::registry::spec_props_string_from(props, 0);
    let t = crate::registry::spec_state_string(name, props);
    let nl = name.len() as int;
    assert(t == name + seq!['['] + body + seq![']']);
    assert(t[nl] == '[');
    assert(forall|j: int| 0 <= j < nl ==> t[j] == name[j]);
    crate::strutil::lemma_find_from_is(t, '[', 0, nl);
    assert(spec_parse_name(t) =~= name) by {
        assert(t.subrange(0, nl) =~= name);
    }
    assert(t[t.len() - 1] == ']');
    crate::strutil::lemma_rfind_before_is(t, ']', t.len() as int, t.len() - 1);
    assert(body.len() >= 2) by {
        assert(props[0].0.len() >= 1);
    }
    assert(t.len() - 1 > nl);
    assert(t.subrange(nl + 1, t.len() - 1) =~= body) by {
        assert(forall|i: int| 0 <= i < body.len() ==> t[nl + 1 + i] == #[trigger] body[i]);
    }
    lemma_props_in_built(t, nl + 1, t.len() - 1, props, 0);
    assert(props.subrange(0, props.len() as int) =~= props);
}

} // verus!
