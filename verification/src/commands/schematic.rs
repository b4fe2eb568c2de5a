//! Schematic commands: resolving a user-given name to a file name,
//! choosing the name to save under, and turning a directory listing into
//! the sorted list of schematic names.

use vstd::prelude::*;
use vstd::seq_lib::lemma_multiset_commutative;
use vstd::string::StrSliceExecFns;

use crate::strutil::{spec_ends_with, str_concat, str_ends_with};

verus! {

/// `/we schem load <name>`: load a schematic file into the clipboard.
pub struct SchemLoadExecutor;

/// `/we schem save <name>`: save the clipboard as a schematic file.
pub struct SchemSaveExecutor;

/// `/we schem list`: list the stored schematics.
pub struct SchemListExecutor;

/// `/we schem delete <name>`: delete a stored schematic file.
pub struct SchemDeleteExecutor;

/// The file name a user-given schematic name resolves to, given which of
/// the two candidate files exist: an explicit extension is kept; else the
/// single-region file wins, then the multi-region file, and a missing
/// file defaults to the single-region name (to fail there).
pub open spec fn spec_resolved_name(name: Seq<char>, schem_exists: bool,
    litematic_exists: bool) -> Seq<char> {
    if spec_ends_with(name, ".schem"@) || spec_ends_with(name, ".litematic"@) {
        name
    } else if schem_exists {
        name + ".schem"@
    } else if litematic_exists {
        name + ".litematic"@
    } else {
        name + ".schem"@
    }
}

/// Resolve a user-given name against the two candidate files.
pub fn resolve_schematic_filename(name: &str, schem_exists: bool, litematic_exists: bool) -> (r:
    String)
    ensures
        r@ == spec_resolved_name(name@, schem_exists, litematic_exists),
{
    if str_ends_with(name, ".schem") || str_ends_with(name, ".litematic") {
        name.to_owned()
    } else if schem_exists {
        str_concat(name, ".schem")
    } else if litematic_exists {
        str_concat(name, ".litematic")
    } else {
        str_concat(name, ".schem")
    }
}

impl SchemLoadExecutor {
    /// The file name to load; see `spec_resolved_name`.
    pub fn resolve_filename(name: &str, schem_exists: bool, litematic_exists: bool) -> (r:
        String)
        ensures
            r@ == spec_resolved_name(name@, schem_exists, litematic_exists),
    {
        resolve_schematic_filename(name, schem_exists, litematic_exists)
    }
}

impl SchemDeleteExecutor {
    /// The file name to delete; see `spec_resolved_name`.
    pub fn resolve_filename(name: &str, schem_exists: bool, litematic_exists: bool) -> (r:
        String)
        ensures
            r@ == spec_resolved_name(name@, schem_exists, litematic_exists),
    {
        resolve_schematic_filename(name, schem_exists, litematic_exists)
    }
}

impl SchemSaveExecutor {
    /// The file name to save under: the given name, with the
    /// single-region extension added when absent.
    pub fn save_filename(name: &str) -> (r: String)
        ensures
            r@ == (if spec_ends_with(name@, ".schem"@) {
                name@
            } else {
                name@ + ".schem"@
            }),
    {
        if str_ends_with(name, ".schem") {
            name.to_owned()
        } else {
            str_concat(name, ".schem")
        }
    }
}

/// Whether code point order puts `a` at or before `b` (the order file
/// names are listed in).
pub open spec fn spec_lex_le(a: Seq<char>, b: Seq<char>) -> bool
    decreases a.len(),
{
    if a.len() == 0 {
        true
    } else if b.len() == 0 {
        false
    } else if (a[0] as u32) < (b[0] as u32) {
        true
    } else if (a[0] as u32) > (b[0] as u32) {
        false
    } else {
        spec_lex_le(a.drop_first(), b.drop_first())
    }
}

/// Of two names, at least one comes first.
proof fn lemma_lex_total(a: Seq<char>, b: Seq<char>)
    ensures
        spec_lex_le(a, b) || spec_lex_le(b, a),
    decreases a.len(),
{
    if a.len() > 0 && b.len() > 0 && a[0] as u32 == b[0] as u32 {
        lemma_lex_total(a.drop_first(), b.drop_first());
    }
}

/// The order chains.
proof fn lemma_lex_trans(a: Seq<char>, b: Seq<char>, c: Seq<char>)
    requires
        spec_lex_le(a, b),
        spec_lex_le(b, c),
    ensures
        spec_lex_le(a, c),
    decreases a.len(),
{
    if a.len() > 0 && b.len() > 0 && c.len() > 0 && a[0] as u32 == b[0] as u32 && b[0] as u32
        == c[0] as u32 {
        lemma_lex_trans(a.drop_first(), b.drop_first(), c.drop_first());
    }
}

/// Compare two names in code point order.
fn str_lex_le(a: &str, b: &str) -> (r: bool)
    ensures
        r == spec_lex_le(a@, b@),
{
    let la = a.unicode_len();
    let lb = b.unicode_len();
    let mut i: usize = 0;
    let mut le_result: bool = false;
    proof {
        assert(a@.skip(0) =~= a@);
        assert(b@.skip(0) =~= b@);
    }
    loop
        invariant_except_break
            i <= la,
            i <= lb,
            la == a@.len(),
            lb == b@.len(),
            spec_lex_le(a@, b@) == spec_lex_le(a@.skip(i as int), b@.skip(i as int)),
        ensures
            le_result == spec_lex_le(a@, b@),
        decreases la - i,
    {
        if i >= la {
            proof {
                assert(a@.skip(i as int).len() == 0);
            }
            le_result = true;
            break;
        }
        if i >= lb {
            proof {
                assert(b@.skip(i as int).len() == 0 && a@.skip(i as int).len() > 0);
            }
            le_result = false;
            break;
        }
        let ca = a.get_char(i) as u32;
        let cb = b.get_char(i) as u32;
        proof {
            let sa = a@.skip(i as int);
            let sb = b@.skip(i as int);
            assert(sa[0] == a@[i as int] && sb[0] == b@[i as int]);
            assert(sa.drop_first() =~= a@.skip(i as int + 1));
            assert(sb.drop_first() =~= b@.skip(i as int + 1));
        }
        if ca < cb {
            le_result = true;
            break;
        }
        if ca > cb {
            le_result = false;
            break;
        }
        i = i + 1;
    }
    le_result
}

/// The schematic names among a directory's file names, in listing order:
/// the stem of every name with one of the two schematic extensions.
pub open spec fn spec_schem_stems(names: Seq<Seq<char>>, i: int) -> Seq<Seq<char>>
    decreases i,
{
    if i <= 0 {
        Seq::empty()
    } else {
        let prev = spec_schem_stems(names, i - 1);
        let n = names[i - 1];
        if spec_ends_with(n, ".schem"@) && n.len() > 6 {
            prev.push(n.subrange(0, n.len() - 6))
        } else if spec_ends_with(n, ".litematic"@) && n.len() > 10 {
            prev.push(n.subrange(0, n.len() - 10))
        } else {
            prev
        }
    }
}

/// The views of a vector of names.
pub open spec fn spec_name_views(v: Seq<String>) -> Seq<Seq<char>> {
    v.map_values(|s: String| s@)
}

/// Inserting anywhere adds exactly one occurrence.
proof fn lemma_insert_multiset(s: Seq<Seq<char>>, p: int, x: Seq<char>)
    requires
        0 <= p <= s.len(),
    ensures
        s.insert(p, x).to_multiset() =~= s.to_multiset().insert(x),
{
    broadcast use vstd::seq_lib::group_to_multiset_ensures;

    let left = s.take(p);
    let right = s.skip(p);
    assert(s.insert(p, x) =~= left.push(x) + right);
    assert(s =~= left + right);
    lemma_multiset_commutative(left.push(x), right);
    lemma_multiset_commutative(left, right);
    assert(left.push(x).to_multiset() =~= left.to_multiset().insert(x));
    assert(left.to_multiset().insert(x).add(right.to_multiset()) =~= left.to_multiset().add(
        right.to_multiset()).insert(x));
}

impl SchemListExecutor {
    /// The names to report for a directory listing: the stems of the
    /// schematic files, in code point order.
    pub fn plan(file_names: &Vec<String>) -> (r: Vec<String>)
        ensures
            spec_name_views(r@).to_multiset() == spec_schem_stems(
                spec_name_views(file_names@),
                file_names@.len() as int,
            ).to_multiset(),
            forall|i: int, j: int|
                0 <= i < j < r@.len() ==> spec_lex_le(r@[i]@, r@[j]@),
    {
        let n = file_names.len();
        let ghost views = spec_name_views(file_names@);
        let mut stems: Vec<String> = Vec::new();
        let mut i: usize = 0;
        proof {
            assert(spec_name_views(stems@) =~= spec_schem_stems(views, 0));
        }
        while i < n
            invariant
                i <= n == file_names@.len(),
                views == spec_name_views(file_names@),
                spec_name_views(stems@) == spec_schem_stems(views, i as int),
            decreases n - i,
        {
            let name = &file_names[i];
            proof {
                assert(views[i as int] == file_names@[i as int]@);
            }
            let len = name.as_str().unicode_len();
            let ghost old_stems = stems@;
            if str_ends_with(name.as_str(), ".schem") && len > 6 {
                proof {
                    reveal_strlit(".schem");
                }
                stems.push(name.as_str().substring_char(0, len - 6).to_owned());
            } else if str_ends_with(name.as_str(), ".litematic") && len > 10 {
                proof {
                    reveal_strlit(".litematic");
                }
                stems.push(name.as_str().substring_char(0, len - 10).to_owned());
            } else {
                proof {
                    reveal_strlit(".schem");
                    reveal_strlit(".litematic");
                }
            }
            proof {
                assert(spec_name_views(stems@) =~= spec_schem_stems(views, i as int + 1));
            }
            i = i + 1;
        }

        // Insertion sort into code point order.
        let m = stems.len();
        let mut out: Vec<String> = Vec::new();
        let mut k: usize = 0;
        proof {
            assert(spec_name_views(out@) =~= spec_name_views(stems@.take(0)));
        }
        while k < m
            invariant
                k <= m == stems@.len(),
                spec_name_views(stems@) == spec_schem_stems(views, file_names@.len() as int),
                views == spec_name_views(file_names@),
                spec_name_views(out@).to_multiset() == spec_name_views(stems@.take(
                    k as int)).to_multiset(),
                forall|a: int, b: int|
                    0 <= a < b < out@.len() ==> spec_lex_le(out@[a]@, out@[b]@),
            decreases m - k,
        {
            let s = stems[k].clone();
            let ghost sv = stems@[k as int]@;
            proof {
                assert(s@ == stems@[k as int]@);
            }
            let olen = out.len();
            let mut p: usize = 0;
            loop
                invariant_except_break
                    p <= olen == out@.len(),
                    s@ == sv,
                    forall|a: int| 0 <= a < p ==> spec_lex_le(out@[a]@, sv),
                ensures
                    p <= out@.len(),
                    s@ == sv,
                    forall|a: int| 0 <= a < p ==> spec_lex_le(out@[a]@, sv),
                    p < out@.len() ==> spec_lex_le(sv, out@[p as int]@),
                decreases olen - p,
            {
                if p >= olen {
                    break;
                }
                if str_lex_le(s.as_str(), out[p].as_str()) {
                    proof {
                        lemma_lex_total(out@[p as int]@, sv);
                    }
                    break;
                }
                proof {
                    lemma_lex_total(out@[p as int]@, sv);
                }
                p = p + 1;
            }
            let ghost old_out = out@;
            let ghost pp = p as int;
            out.insert(p, s);
            proof {
                lemma_insert_multiset(spec_name_views(old_out), pp, sv);
                assert forall|j: int| 0 <= j < out@.len() implies spec_name_views(out@)[j]
                    == spec_name_views(old_out).insert(pp, sv)[j] by {
                    if j < pp {
                        assert(out@[j] == old_out[j]);
                    } else if j == pp {
                        assert(out@[j]@ == sv);
                    } else {
                        assert(out@[j] == old_out[j - 1]);
                    }
                }
                assert(spec_name_views(out@) =~= spec_name_views(old_out).insert(pp, sv));
                assert(stems@.take(k as int + 1) =~= stems@.take(k as int).push(
                    stems@[k as int]));
                assert(spec_name_views(stems@.take(k as int + 1)) =~= spec_name_views(
                    stems@.take(k as int)).push(sv));
                broadcast use vstd::seq_lib::group_to_multiset_ensures;

                assert forall|a: int, b: int| 0 <= a < b < out@.len() implies spec_lex_le(
                    out@[a]@, out@[b]@) by {
                    if b < pp {
                    } else if a < pp && b == pp {
                    } else if a < pp && b > pp {
                        assert(out@[b]@ == old_out[b - 1]@);
                    } else if a == pp {
                        assert(out@[b]@ == old_out[b - 1]@);
                        if pp < old_out.len() {
                            if b - 1 > pp {
                                lemma_lex_trans(sv, old_out[pp as int]@, old_out[b - 1]@);
                            }
                        }
                    } else {
                        assert(out@[a]@ == old_out[a - 1]@);
                        assert(out@[b]@ == old_out[b - 1]@);
                    }
                }
            }
            k = k + 1;
        }
        proof {
            assert(stems@.take(m as int) =~= stems@);
        }
        out
    }
}

} // verus!
