//! The schematic interchange codec: decoding the single-region format
//! (two wire sub-versions) and the multi-region format into one canonical
//! in-memory block list, and encoding the canonical list back into the
//! single-region format. The compressed-stream transport that turns file
//! bytes into a tag tree is an external collaborator; this module works on
//! the tag tree itself.

use vstd::prelude::*;

use crate::bitpack::{bits_for_palette_size, spec_bits_for_palette_size, spec_unpacked_entry, unpack_packed_long_array};
use crate::error::SchemError;
use crate::registry::{
    build_block_state_string, resolve_block_state, spec_build_block_state,
    spec_resolve_block_state, spec_resolves_built, BlockRegistry,
};
use crate::state::{max3, min3, spec_max3, spec_min3, ClipboardData};
use crate::tag::{Compound, Tag};
use crate::varint::{decode_varints, encode_varints, spec_decode_varints, spec_encode_varints};
use crate::vector::Vector3;
use vstd::string::StringExecFns;

verus! {

/// Data version written into saved files (the external schema constant of
/// the game release this codec targets).
pub const MC_DATA_VERSION: i32 = 4671;

/// A loaded schematic: its dimensions, its origin offset, and its non-air
/// blocks as (position, state id) pairs. Air is implicit for any position
/// not listed.
pub struct SchematicData {
    pub width: u16,
    pub height: u16,
    pub length: u16,
    pub offset: Vector3,
    pub blocks: Vec<(Vector3, u16)>,
}

/// A decode result before it is packed into owned vectors:
/// (width, height, length, offset, blocks).
pub type SpecDecoded = (u16, u16, u16, Vector3, Seq<(Vector3, u16)>);

/// A 16-bit tag value reinterpreted as an unsigned dimension.
pub open spec fn spec_short_to_u16(v: i16) -> u16 {
    if v >= 0 {
        v as u16
    } else {
        (v + 0x10000) as u16
    }
}

fn short_to_u16(v: i16) -> (r: u16)
    ensures
        r == spec_short_to_u16(v),
{
    proof {
        assert(v >= 0 ==> v as u16 == v) by (bit_vector);
        assert(v < 0 ==> v as u16 == v + 0x10000) by (bit_vector);
    }
    v as u16
}

/// The sub-version and the compound the schema fields live in: a root with
/// a `Schematic` wrapper reads the version from the wrapper (default 3)
/// and the fields from inside it; a flat root reads both from itself
/// (default version 2).
pub open spec fn spec_version_and_root(root: Compound) -> (int, Compound) {
    match root.spec_get("Schematic"@) {
        Some(Tag::Compound(sc)) => {
            let v = match sc.spec_get("Version"@) {
                Some(Tag::Int(v)) => v as int,
                _ => 3,
            };
            (v, sc)
        },
        _ => {
            let v = match root.spec_get("Version"@) {
                Some(Tag::Int(v)) => v as int,
                _ => 2,
            };
            (v, root)
        },
    }
}

/// The optional `Offset` field; origin when absent or too short.
pub open spec fn spec_offset_of(dr: Compound) -> Vector3 {
    match dr.spec_get("Offset"@) {
        Some(Tag::IntArray(a)) => if a@.len() >= 3 {
            Vector3 { x: a@[0], y: a@[1], z: a@[2] }
        } else {
            Vector3 { x: 0, y: 0, z: 0 }
        },
        _ => Vector3 { x: 0, y: 0, z: 0 },
    }
}

/// The palette compound and block-data bytes: nested under `Blocks` from
/// version 3 on, flat (`Palette`/`BlockData`) before.
pub open spec fn spec_palette_and_data(dr: Compound, version: int) -> Result<(Compound, Seq<u8>),
    SchemError> {
    if version >= 3 {
        match dr.spec_get("Blocks"@) {
            Some(Tag::Compound(bc)) => match bc.spec_get("Palette"@) {
                Some(Tag::Compound(pc)) => match bc.spec_get("Data"@) {
                    Some(Tag::ByteArray(d)) => Ok((pc, d@)),
                    _ => Err(SchemError::MissingData),
                },
                _ => Err(SchemError::MissingPalette),
            },
            _ => Err(SchemError::MissingBlocks),
        }
    } else {
        match dr.spec_get("Palette"@) {
            Some(Tag::Compound(pc)) => match dr.spec_get("BlockData"@) {
                Some(Tag::ByteArray(d)) => Ok((pc, d@)),
                _ => Err(SchemError::MissingData),
            },
            _ => Err(SchemError::MissingPalette),
        }
    }
}

/// The block-state text of palette index `idx`: the name of the last
/// integer entry carrying `idx`, as a keyed-map insert would leave it.
pub open spec fn spec_palette_last_match(entries: Seq<(String, Tag)>, idx: i32) -> Option<Seq<
    char>>
    decreases entries.len(),
{
    if entries.len() == 0 {
        None
    } else {
        match entries.last().1 {
            Tag::Int(v) => if v == idx {
                Some(entries.last().0@)
            } else {
                spec_palette_last_match(entries.drop_last(), idx)
            },
            _ => spec_palette_last_match(entries.drop_last(), idx),
        }
    }
}

/// The state id palette index `idx` resolves to: air for an index missing
/// from the palette or a text the registry does not know (the soft
/// degradations), else the resolved id.
pub open spec fn spec_resolved_id(reg: BlockRegistry, entries: Seq<(String, Tag)>, idx: i32,
    air: u16) -> u16 {
    match spec_palette_last_match(entries, idx) {
        None => air,
        Some(text) => match spec_resolve_block_state(reg, text) {
            None => air,
            Some(id) => id,
        },
    }
}

/// The non-air blocks of the first `i` cells, in cell order. Cell `k`
/// sits at `x = k % w`, `z = (k / w) % l`, `y = k / (w * l)`, shifted by
/// the offset.
/// The position cell `c` of a grid decodes to: `x = c % w`,
/// `z = (c % (w * l)) / w`, `y = c / (w * l)`, shifted by the offset.
pub open spec fn spec_sponge_pos(c: int, w: int, l: int, off: Vector3) -> Vector3 {
    let y = c / (w * l);
    let rem = c % (w * l);
    let z = rem / w;
    let x = rem % w;
    Vector3 { x: (x + off.x) as i32, y: (y + off.y) as i32, z: (z + off.z) as i32 }
}

pub open spec fn spec_sponge_cells(reg: BlockRegistry, pal: Seq<(String, Tag)>, vals: Seq<i32>,
    w: int, l: int, off: Vector3, air: u16, i: int) -> Seq<(Vector3, u16)>
    decreases i,
{
    if i <= 0 {
        Seq::empty()
    } else {
        let prev = spec_sponge_cells(reg, pal, vals, w, l, off, air, i - 1);
        let k = i - 1;
        let id = spec_resolved_id(reg, pal, vals[k], air);
        if id == air {
            prev
        } else {
            prev.push((spec_sponge_pos(k, w, l, off), id))
        }
    }
}

/// The whole single-region decode as a value: exactly what
/// `load_schematic` returns on a root that is not multi-region.
pub open spec fn spec_load_sponge(reg: BlockRegistry, root: Compound) -> Result<SpecDecoded,
    SchemError> {
    let vr = spec_version_and_root(root);
    let version = vr.0;
    let dr = vr.1;
    match (dr.spec_get("Width"@), dr.spec_get("Height"@), dr.spec_get("Length"@)) {
        (Some(Tag::Short(ws)), Some(Tag::Short(hs)), Some(Tag::Short(ls))) => {
            let w = spec_short_to_u16(ws);
            let h = spec_short_to_u16(hs);
            let l = spec_short_to_u16(ls);
            let off = spec_offset_of(dr);
            match spec_palette_and_data(dr, version) {
                Err(e) => Err(e),
                Ok((pal, data)) => {
                    let expected = w as int * h as int * l as int;
                    match spec_decode_varints(data, 0, expected as nat) {
                        Err(e) => Err(e),
                        Ok(vals) => if vals.len() != expected {
                            Err(SchemError::CountMismatch)
                        } else if expected > 0 && (off.x + w as int - 1 > i32::MAX || off.y
                            + h as int - 1 > i32::MAX || off.z + l as int - 1 > i32::MAX) {
                            Err(SchemError::CoordinateOverflow)
                        } else {
                            Ok(
                                (
                                    w,
                                    h,
                                    l,
                                    off,
                                    spec_sponge_cells(
                                        reg,
                                        pal.entries@,
                                        vals,
                                        w as int,
                                        l as int,
                                        off,
                                        reg.air_state,
                                        expected,
                                    ),
                                ),
                            )
                        },
                    }
                },
            }
        },
        (None, _, _) => Err(SchemError::MissingWidth),
        (Some(Tag::Short(_)), None, _) => Err(SchemError::MissingHeight),
        (Some(Tag::Short(_)), Some(Tag::Short(_)), None) => Err(SchemError::MissingLength),
        (Some(t), _, _) => if !(t is Short) {
            Err(SchemError::MissingWidth)
        } else {
            match dr.spec_get("Height"@) {
                Some(t2) => if !(t2 is Short) {
                    Err(SchemError::MissingHeight)
                } else {
                    Err(SchemError::MissingLength)
                },
                None => Err(SchemError::MissingHeight),
            }
        },
    }
}

/// Resolve palette index `idx` through the palette compound and the
/// registry, falling back to air for an unknown index or text.
fn resolved_palette_id(reg: &BlockRegistry, pal: &Compound, idx: i32, air: u16) -> (id: u16)
    ensures
        id == spec_resolved_id(*reg, pal.entries@, idx, air),
{
    let n = pal.entries.len();
    let mut j: usize = n;
    proof {
        assert(pal.entries@.take(n as int) =~= pal.entries@);
    }
    while j > 0
        invariant
            j <= n == pal.entries@.len(),
            spec_palette_last_match(pal.entries@, idx) == spec_palette_last_match(
                pal.entries@.take(j as int),
                idx,
            ),
        decreases j,
    {
        proof {
            let t = pal.entries@.take(j as int);
            assert(t.last() == pal.entries@[j - 1]);
            assert(t.drop_last() =~= pal.entries@.take(j - 1));
        }
        let is_match = match &pal.entries[j - 1].1 {
            Tag::Int(v) => *v == idx,
            _ => false,
        };
        if is_match {
            return match resolve_block_state(reg, pal.entries[j - 1].0.as_str()) {
                Some(id) => id,
                None => air,
            };
        }
        j = j - 1;
    }
    proof {
        assert(pal.entries@.take(0) =~= Seq::<(String, Tag)>::empty());
    }
    air
}

/// Decode the single-region layout from a parsed root compound.
fn load_sponge(reg: &BlockRegistry, root: &Compound) -> (r: Result<SchematicData, SchemError>)
    ensures
        match (r, spec_load_sponge(*reg, *root)) {
            (Ok(doc), Ok(t)) => doc.width == t.0 && doc.height == t.1 && doc.length == t.2
                && doc.offset == t.3 && doc.blocks@ == t.4,
            (Err(e), Err(e2)) => e == e2,
            _ => false,
        },
{
    let (version, data_root): (i32, &Compound) = match root.get_compound("Schematic") {
        Some(sc) => {
            let v = match sc.get_int("Version") {
                Some(v) => v,
                None => 3,
            };
            (v, sc)
        },
        None => {
            let v = match root.get_int("Version") {
                Some(v) => v,
                None => 2,
            };
            (v, root)
        },
    };

    let ws = match data_root.get_short("Width") {
        Some(v) => v,
        None => {
            return Err(SchemError::MissingWidth);
        },
    };
    let hs = match data_root.get_short("Height") {
        Some(v) => v,
        None => {
            return Err(SchemError::MissingHeight);
        },
    };
    let ls = match data_root.get_short("Length") {
        Some(v) => v,
        None => {
            return Err(SchemError::MissingLength);
        },
    };
    let w = short_to_u16(ws);
    let h = short_to_u16(hs);
    let l = short_to_u16(ls);

    let offset = match data_root.get_int_array("Offset") {
        Some(arr) => if arr.len() >= 3 {
            Vector3 { x: arr[0], y: arr[1], z: arr[2] }
        } else {
            Vector3 { x: 0, y: 0, z: 0 }
        },
        None => Vector3 { x: 0, y: 0, z: 0 },
    };

    let (palette, data): (&Compound, &Vec<u8>) = if version >= 3 {
        let blocks_c = match data_root.get_compound("Blocks") {
            Some(c) => c,
            None => {
                return Err(SchemError::MissingBlocks);
            },
        };
        let pc = match blocks_c.get_compound("Palette") {
            Some(c) => c,
            None => {
                return Err(SchemError::MissingPalette);
            },
        };
        let d = match blocks_c.get_byte_array("Data") {
            Some(d) => d,
            None => {
                return Err(SchemError::MissingData);
            },
        };
        (pc, d)
    } else {
        let pc = match data_root.get_compound("Palette") {
            Some(c) => c,
            None => {
                return Err(SchemError::MissingPalette);
            },
        };
        let d = match data_root.get_byte_array("BlockData") {
            Some(d) => d,
            None => {
                return Err(SchemError::MissingData);
            },
        };
        (pc, d)
    };

    proof {
        assert((w as int) * (h as int) <= 0xffff_ffff && (w as int) * (h as int) * (
        l as int) <= 0xffff_ffff_ffff && (w as int) * (l as int) <= 0xffff_ffff)
            by (nonlinear_arith)
            requires
                w as int <= 0xffff,
                h as int <= 0xffff,
                l as int <= 0xffff,
        ;
    }
    let expected64: u64 = (w as u64) * (h as u64) * (l as u64);
    let cap: usize = if expected64 > data.len() as u64 {
        data.len()
    } else {
        expected64 as usize
    };
    proof {
        if expected64 > data@.len() {
            crate::varint::lemma_decode_saturates(data@, 0, cap as nat, expected64 as nat);
        }
    }

    let block_indices = match decode_varints(data.as_slice(), cap) {
        Ok(v) => v,
        Err(e) => {
            return Err(e);
        },
    };

    if block_indices.len() as u64 != expected64 {
        return Err(SchemError::CountMismatch);
    }
    let expected: usize = block_indices.len();

    if expected > 0 {
        let far_x = (offset.x as i64) + (w as i64) - 1;
        let far_y = (offset.y as i64) + (h as i64) - 1;
        let far_z = (offset.z as i64) + (l as i64) - 1;
        if far_x > i32::MAX as i64 || far_y > i32::MAX as i64 || far_z > i32::MAX as i64 {
            return Err(SchemError::CoordinateOverflow);
        }
    }

    let air = reg.air_state;
    let mut blocks: Vec<(Vector3, u16)> = Vec::new();
    let mut i: usize = 0;
    let ghost pal_entries = palette.entries@;
    let ghost vals = block_indices@;
    while i < expected
        invariant
            i <= expected,
            expected == (w as int) * (h as int) * (l as int),
            expected > 0 ==> {
                &&& offset.x + w as int - 1 <= i32::MAX
                &&& offset.y + h as int - 1 <= i32::MAX
                &&& offset.z + l as int - 1 <= i32::MAX
            },
            vals.len() == expected,
            vals == block_indices@,
            pal_entries == palette.entries@,
            air == reg.air_state,
            blocks@ == spec_sponge_cells(*reg, pal_entries, vals, w as int, l as int, offset, air,
                i as int),
        decreases expected - i,
    {
        proof {
            assert(w as int > 0 && h as int > 0 && l as int > 0) by (nonlinear_arith)
                requires
                    expected == (w as int) * (h as int) * (l as int),
                    i < expected,
            ;
            assert(1 <= (w as int) * (l as int) <= 0xffff_ffff) by (nonlinear_arith)
                requires
                    1 <= w as int <= 0xffff,
                    1 <= l as int <= 0xffff,
            ;
        }
        let wl: u64 = (w as u64) * (l as u64);
        proof {
            vstd::arithmetic::div_mod::lemma_fundamental_div_mod(i as int, wl as int);
            assert(expected == (wl as int) * (h as int)) by (nonlinear_arith)
                requires
                    expected == (w as int) * (h as int) * (l as int),
                    wl as int == (w as int) * (l as int),
            ;
            assert((i as int) / (wl as int) < h as int) by (nonlinear_arith)
                requires
                    expected == (wl as int) * (h as int),
                    i < expected,
                    wl as int > 0,
                    h as int > 0,
                    i as int == (wl as int) * ((i as int) / (wl as int)) + (i as int) % (
                    wl as int),
                    (i as int) % (wl as int) >= 0,
                    (i as int) / (wl as int) >= 0,
            ;
        }
        let y64: u64 = (i as u64) / wl;
        let rem: u64 = (i as u64) % wl;
        let z64: u64 = rem / (w as u64);
        let x64: u64 = rem % (w as u64);
        proof {
            assert(rem < wl);
            assert(z64 < l as int && x64 < w as int) by (nonlinear_arith)
                requires
                    rem < wl,
                    wl == w as int * l as int,
                    w as int > 0,
                    l as int > 0,
                    z64 == rem as int / (w as int),
                    x64 == rem as int % (w as int),
            ;
        }
        let id = resolved_palette_id(reg, palette, block_indices[i], air);
        if id != air {
            let px = (x64 as i32) + offset.x;
            let py = (y64 as i32) + offset.y;
            let pz = (z64 as i32) + offset.z;
            blocks.push((Vector3 { x: px, y: py, z: pz }, id));
        }
        i = i + 1;
    }

    Ok(SchematicData { width: w, height: h, length: l, offset, blocks })
}

/// The bounding box of the first `i` blocks (`i >= 1`).
pub open spec fn spec_bounds_upto(blocks: Seq<(Vector3, u16)>, i: int) -> (Vector3, Vector3)
    decreases i,
{
    if i <= 1 {
        (blocks[0].0, blocks[0].0)
    } else {
        let p = spec_bounds_upto(blocks, i - 1);
        (spec_min3(p.0, blocks[i - 1].0), spec_max3(p.1, blocks[i - 1].0))
    }
}

/// Every listed block lies inside the bounding box of the whole list.
pub proof fn lemma_bounds_contain(blocks: Seq<(Vector3, u16)>, i: int, k: int)
    requires
        1 <= i <= blocks.len(),
        0 <= k < i,
    ensures
        ({
            let b = spec_bounds_upto(blocks, i);
            &&& b.0.x <= blocks[k].0.x <= b.1.x
            &&& b.0.y <= blocks[k].0.y <= b.1.y
            &&& b.0.z <= blocks[k].0.z <= b.1.z
        }),
    decreases i,
{
    if i > 1 && k < i - 1 {
        lemma_bounds_contain(blocks, i - 1, k);
    }
}

/// The encode palette after the first `i` blocks: air at index 0, then
/// each distinct state id at its first appearance.
pub open spec fn spec_palette_upto(blocks: Seq<(Vector3, u16)>, air: u16, i: int) -> Seq<u16>
    decreases i,
{
    if i <= 0 {
        seq![air]
    } else {
        let p = spec_palette_upto(blocks, air, i - 1);
        if p.contains(blocks[i - 1].1) {
            p
        } else {
            p.push(blocks[i - 1].1)
        }
    }
}

/// The encode palette never lists one id twice.
pub proof fn lemma_palette_no_duplicates(blocks: Seq<(Vector3, u16)>, air: u16, i: int)
    ensures
        spec_palette_upto(blocks, air, i).no_duplicates(),
        spec_palette_upto(blocks, air, i).len() >= 1,
        spec_palette_upto(blocks, air, i)[0] == air,
    decreases i,
{
    if i <= 0 {
    } else {
        lemma_palette_no_duplicates(blocks, air, i - 1);
        let p = spec_palette_upto(blocks, air, i - 1);
        let id = blocks[i - 1].1;
        if !p.contains(id) {
            assert forall|a: int, b: int|
                0 <= a < p.push(id).len() && 0 <= b < p.push(id).len() && a != b implies p.push(
                id)[a] != p.push(id)[b] by {
                if a < p.len() && b < p.len() {
                } else if a < p.len() {
                    assert(p[a] == p.push(id)[a]);
                } else if b < p.len() {
                    assert(p[b] == p.push(id)[b]);
                }
            }
        }
    }
}

/// A sequence of distinct 16-bit values has at most 2^16 entries.
pub proof fn lemma_distinct_u16_len(s: Seq<u16>)
    requires
        s.no_duplicates(),
    ensures
        s.len() <= 0x10000,
{
    let f = |v: u16| v as int;
    s.lemma_no_duplicates_injective(f);
    let m = s.map_values(f);
    m.unique_seq_to_set();
    let range = vstd::set_lib::set_int_range(0, 0x10000);
    vstd::set_lib::lemma_int_range(0, 0x10000);
    assert(m.to_set().subset_of(range)) by {
        assert forall|v: int| m.to_set().contains(v) implies range.contains(v) by {
            assert(m.contains(v));
            let j = choose|j: int| 0 <= j < m.len() && m[j] == v;
            assert(0 <= (s[j] as int) && (s[j] as int) < 0x10000);
        }
    }
    vstd::set_lib::lemma_len_subset(m.to_set(), range);
}

/// The first position of `id` in the palette.
pub open spec fn spec_index_of(pal: Seq<u16>, id: u16) -> int
    decreases pal.len(),
{
    if pal.len() == 0 {
        0
    } else if pal[0] == id {
        0
    } else {
        1 + spec_index_of(pal.drop_first(), id)
    }
}

/// A contained id is found at an in-range position holding it.
pub proof fn lemma_index_of_contained(pal: Seq<u16>, id: u16)
    requires
        pal.contains(id),
    ensures
        0 <= spec_index_of(pal, id) < pal.len(),
        pal[spec_index_of(pal, id)] == id,
    decreases pal.len(),
{
    if pal.len() > 0 && pal[0] != id {
        assert(pal.drop_first().contains(id)) by {
            let j = choose|j: int| 0 <= j < pal.len() && pal[j] == id;
            assert(pal.drop_first()[j - 1] == id);
        }
        lemma_index_of_contained(pal.drop_first(), id);
    }
}

/// The grid cell a position encodes into.
pub open spec fn spec_cell_of(p: Vector3, mn: Vector3, w: int, l: int) -> int {
    (p.x - mn.x) + (p.z - mn.z) * w + (p.y - mn.y) * w * l
}

/// The index grid after the first `i` blocks: zeroes, with each listed
/// block's cell overwritten (in list order) by its palette index.
pub open spec fn spec_grid_upto(blocks: Seq<(Vector3, u16)>, i: int, mn: Vector3, w: int, l: int,
    total: nat, pal: Seq<u16>) -> Seq<i32>
    decreases i,
{
    if i <= 0 {
        Seq::new(total, |k: int| 0i32)
    } else {
        let p = spec_grid_upto(blocks, i - 1, mn, w, l, total, pal);
        let b = blocks[i - 1];
        p.update(spec_cell_of(b.0, mn, w, l), spec_index_of(pal, b.1) as i32)
    }
}

/// What the saved tree looks like when encoding succeeds.
pub open spec fn spec_saved_root_ok(reg: BlockRegistry, root: Compound, blocks: Seq<(Vector3,
    u16)>) -> bool {
    let bounds = spec_bounds_upto(blocks, blocks.len() as int);
    let mn = bounds.0;
    let mx = bounds.1;
    let w = (mx.x - mn.x + 1) as u16;
    let h = (mx.y - mn.y + 1) as u16;
    let l = (mx.z - mn.z + 1) as u16;
    let pal = spec_palette_upto(blocks, reg.air_state, blocks.len() as int);
    let total = (w as nat) * (h as nat) * (l as nat);
    let grid = spec_grid_upto(blocks, blocks.len() as int, mn, w as int, l as int, total, pal);
    &&& root.spec_get("Schematic"@) matches Some(Tag::Compound(sc)) && {
        &&& sc.spec_get("Version"@) == Some(Tag::Int(3))
        &&& sc.spec_get("DataVersion"@) == Some(Tag::Int(MC_DATA_VERSION))
        &&& sc.spec_get("Width"@) == Some(Tag::Short(spec_u16_to_i16(w)))
        &&& sc.spec_get("Height"@) == Some(Tag::Short(spec_u16_to_i16(h)))
        &&& sc.spec_get("Length"@) == Some(Tag::Short(spec_u16_to_i16(l)))
        &&& sc.spec_get("Offset"@) matches Some(Tag::IntArray(a)) && a@ == seq![mn.x, mn.y, mn.z]
        &&& sc.spec_get("Blocks"@) matches Some(Tag::Compound(bc)) && {
            &&& bc.spec_get("Palette"@) matches Some(Tag::Compound(pc))
                && spec_palette_compound_ok(reg, pc.entries@, pal)
            &&& bc.spec_get("Data"@) matches Some(Tag::ByteArray(d)) && d@ == spec_encode_varints(
                grid,
            )
        }
    }
}

/// The palette compound lists each palette id's text at its index, with
/// air fixed at index 0 under its canonical name.
pub open spec fn spec_palette_compound_ok(reg: BlockRegistry, entries: Seq<(String, Tag)>,
    pal: Seq<u16>) -> bool {
    &&& entries.len() == pal.len()
    &&& forall|k: int| 0 <= k < entries.len() ==> entries[k].1 == Tag::Int(k as i32)
    &&& entries[0].0@ == "minecraft:air"@
    &&& forall|k: int|
        1 <= k < entries.len() ==> Some(entries[k].0@) == spec_build_block_state(reg, pal[k])
}

/// A dimension value reinterpreted as a signed 16-bit tag payload.
pub open spec fn spec_u16_to_i16(v: u16) -> i16 {
    if v <= 0x7fff {
        v as i16
    } else {
        (v - 0x10000) as i16
    }
}

fn u16_to_i16(v: u16) -> (r: i16)
    ensures
        r == spec_u16_to_i16(v),
{
    proof {
        assert(v <= 0x7fff ==> v as i16 == v) by (bit_vector);
        assert(v > 0x7fff ==> v as i16 == v - 0x10000) by (bit_vector);
    }
    v as i16
}

/// Whether `ids` holds `id`.
fn contains_u16(ids: &Vec<u16>, id: u16) -> (r: bool)
    ensures
        r == ids@.contains(id),
{
    let n = ids.len();
    let mut i: usize = 0;
    while i < n
        invariant
            n == ids@.len(),
            i <= n,
            forall|k: int| 0 <= k < i ==> ids@[k] != id,
        decreases n - i,
    {
        if ids[i] == id {
            return true;
        }
        i = i + 1;
    }
    false
}

/// The first position of `id` in `ids`.
fn index_of_u16(ids: &Vec<u16>, id: u16) -> (r: usize)
    requires
        ids@.contains(id),
    ensures
        r as int == spec_index_of(ids@, id),
        r < ids@.len(),
        ids@[r as int] == id,
{
    let n = ids.len();
    let mut i: usize = 0;
    proof {
        lemma_index_of_contained(ids@, id);
        assert(ids@.skip(0) =~= ids@);
    }
    while i < n
        invariant
            n == ids@.len(),
            i <= n,
            ids@.contains(id),
            0 <= spec_index_of(ids@, id) < n,
            ids@[spec_index_of(ids@, id)] == id,
            spec_index_of(ids@, id) == i + spec_index_of(ids@.skip(i as int), id),
            forall|k: int| 0 <= k < i ==> ids@[k] != id,
        decreases n - i,
    {
        if ids[i] == id {
            return i;
        }
        proof {
            let sk = ids@.skip(i as int);
            assert(sk[0] == ids@[i as int]);
            assert(sk.drop_first() =~= ids@.skip(i as int + 1));
            assert(sk.len() > 0);
        }
        i = i + 1;
    }
    proof {
        assert(false);
    }
    0
}

/// Save clipboard data as a single-region tag tree (always sub-version 3).
/// Fails on an empty clipboard, on a bounding box that does not fit the
/// 16-bit dimension fields (or this machine's address range), and on a
/// state id the registry does not know.
pub fn save_schematic(reg: &BlockRegistry, clipboard: &ClipboardData) -> (r: Result<Compound,
    SchemError>)
    ensures
        ({
            let blocks = clipboard.blocks@;
            let bounds = spec_bounds_upto(blocks, blocks.len() as int);
            let mn = bounds.0;
            let mx = bounds.1;
            match r {
                Err(SchemError::EmptyClipboard) => blocks.len() == 0,
                Err(SchemError::BoundsTooLarge) => blocks.len() > 0 && (mx.x - mn.x + 1 > 0xffff
                    || mx.y - mn.y + 1 > 0xffff || mx.z - mn.z + 1 > 0xffff || (mx.x - mn.x + 1) * (
                mx.y - mn.y + 1) * (mx.z - mn.z + 1) > usize::MAX),
                Err(SchemError::UnknownStateId) => {
                    &&& blocks.len() > 0
                    &&& mx.x - mn.x + 1 <= 0xffff
                    &&& mx.y - mn.y + 1 <= 0xffff
                    &&& mx.z - mn.z + 1 <= 0xffff
                    &&& (mx.x - mn.x + 1) * (mx.y - mn.y + 1) * (mx.z - mn.z + 1) <= usize::MAX
                    &&& exists|k: int|
                        0 <= k < blocks.len() && blocks[k].1 != reg.air_state
                            && spec_build_block_state(*reg, blocks[k].1) is None
                },
                Ok(root) => {
                    &&& blocks.len() > 0
                    &&& mx.x - mn.x + 1 <= 0xffff
                    &&& mx.y - mn.y + 1 <= 0xffff
                    &&& mx.z - mn.z + 1 <= 0xffff
                    &&& (mx.x - mn.x + 1) * (mx.y - mn.y + 1) * (mx.z - mn.z + 1) <= usize::MAX
                    &&& forall|k: int|
                        0 <= k < blocks.len() && blocks[k].1 != reg.air_state
                            ==> spec_build_block_state(*reg, blocks[k].1) is Some
                    &&& spec_saved_root_ok(*reg, root, blocks)
                },
                Err(_) => false,
            }
        }),
{
    let n = clipboard.blocks.len();
    if n == 0 {
        return Err(SchemError::EmptyClipboard);
    }
    let ghost blocks = clipboard.blocks@;

    // Bounding box of the block list.
    let mut mn: Vector3 = clipboard.blocks[0].0;
    let mut mx: Vector3 = clipboard.blocks[0].0;
    let mut i: usize = 1;
    while i < n
        invariant
            1 <= i <= n == blocks.len(),
            blocks == clipboard.blocks@,
            (mn, mx) == spec_bounds_upto(blocks, i as int),
        decreases n - i,
    {
        mn = min3(mn, clipboard.blocks[i].0);
        mx = max3(mx, clipboard.blocks[i].0);
        i = i + 1;
    }

    let sx: i64 = (mx.x as i64) - (mn.x as i64) + 1;
    let sy: i64 = (mx.y as i64) - (mn.y as i64) + 1;
    let sz: i64 = (mx.z as i64) - (mn.z as i64) + 1;
    if sx > 0xffff || sy > 0xffff || sz > 0xffff {
        return Err(SchemError::BoundsTooLarge);
    }
    proof {
        lemma_bounds_contain(blocks, n as int, 0);
        assert(1 <= sx * sy <= 0xffff_ffff && 1 <= sx * sy * sz <= 0xffff_ffff_ffff)
            by (nonlinear_arith)
            requires
                1 <= sx <= 0xffff,
                1 <= sy <= 0xffff,
                1 <= sz <= 0xffff,
        ;
    }
    let total64: u64 = (sx as u64) * (sy as u64) * (sz as u64);
    if total64 > usize::MAX as u64 {
        return Err(SchemError::BoundsTooLarge);
    }
    proof {
        assert(total64 as int == (mx.x - mn.x + 1) * (mx.y - mn.y + 1) * (mx.z - mn.z + 1));
    }
    let w: u16 = sx as u16;
    let h: u16 = sy as u16;
    let l: u16 = sz as u16;
    let air = reg.air_state;

    // Palette: air at index 0, then each distinct id at first appearance.
    let mut pal_ids: Vec<u16> = Vec::new();
    pal_ids.push(air);
    let mut names: Vec<String> = Vec::new();
    names.push(String::from_str("minecraft:air"));
    let mut i: usize = 0;
    while i < n
        invariant
            i <= n == blocks.len(),
            n >= 1,
            blocks == clipboard.blocks@,
            air == reg.air_state,
            (mn, mx) == spec_bounds_upto(blocks, n as int),
            1 <= mx.x - mn.x + 1 <= 0xffff,
            1 <= mx.y - mn.y + 1 <= 0xffff,
            1 <= mx.z - mn.z + 1 <= 0xffff,
            (mx.x - mn.x + 1) * (mx.y - mn.y + 1) * (mx.z - mn.z + 1) <= usize::MAX,
            pal_ids@ == spec_palette_upto(blocks, air, i as int),
            names@.len() == pal_ids@.len(),
            names@[0]@ == "minecraft:air"@,
            forall|k: int|
                1 <= k < names@.len() ==> Some(names@[k]@) == spec_build_block_state(*reg,
                pal_ids@[k]),
            forall|k: int|
                0 <= k < i ==> (blocks[k].1 == air || spec_build_block_state(*reg,
                blocks[k].1) is Some),
        decreases n - i,
    {
        let id = clipboard.blocks[i].1;
        if !contains_u16(&pal_ids, id) {
            match build_block_state_string(reg, id) {
                None => {
                    proof {
                        lemma_palette_no_duplicates(blocks, air, i as int);
                        assert(pal_ids@[0] == air);
                        assert(id != air) by {
                            assert(!pal_ids@.contains(id));
                            assert(pal_ids@[0] == air);
                        }
                        assert(0 <= i < blocks.len() && blocks[i as int].1 != reg.air_state
                            && spec_build_block_state(*reg, blocks[i as int].1) is None);
                    }
                    return Err(SchemError::UnknownStateId);
                },
                Some(text) => {
                    pal_ids.push(id);
                    names.push(text);
                },
            }
        }
        proof {
            if blocks[i as int].1 != air {
                let p = spec_palette_upto(blocks, air, i as int);
                if p.contains(id) {
                    let ghost j = choose|j: int| 0 <= j < p.len() && p[j] == id;
                    if j >= 1 {
                        assert(Some(names@[j]@) == spec_build_block_state(*reg, id));
                    } else {
                        lemma_palette_no_duplicates(blocks, air, i as int);
                        assert(p[0] == air);
                    }
                }
            }
        }
        i = i + 1;
    }

    proof {
        lemma_palette_no_duplicates(blocks, air, n as int);
        lemma_distinct_u16_len(pal_ids@);
    }

    // Grid of palette indices, one cell per position in the box.
    let total: usize = total64 as usize;
    let mut grid: Vec<i32> = Vec::new();
    grid.resize(total, 0i32);
    proof {
        assert(grid@ =~= Seq::new(total as nat, |k: int| 0i32));
    }
    let ghost pal = pal_ids@;
    let mut i: usize = 0;
    while i < n
        invariant
            i <= n == blocks.len(),
            blocks == clipboard.blocks@,
            air == reg.air_state,
            pal == pal_ids@,
            pal == spec_palette_upto(blocks, air, n as int),
            pal.len() <= 0x10000,
            total == total64,
            total64 == (mx.x - mn.x + 1) * (mx.y - mn.y + 1) * (mx.z - mn.z + 1),
            (mn, mx) == spec_bounds_upto(blocks, n as int),
            1 <= mx.x - mn.x + 1 <= 0xffff,
            1 <= mx.y - mn.y + 1 <= 0xffff,
            1 <= mx.z - mn.z + 1 <= 0xffff,
            w == mx.x - mn.x + 1,
            h == mx.y - mn.y + 1,
            l == mx.z - mn.z + 1,
            grid@ == spec_grid_upto(blocks, i as int, mn, w as int, l as int, total as nat, pal),
            grid@.len() == total,
        decreases n - i,
    {
        let b = clipboard.blocks[i];
        proof {
            lemma_bounds_contain(blocks, n as int, i as int);
            lemma_palette_contains_block(blocks, air, n as int, i as int);
        }
        let dx: usize = (b.0.x - mn.x) as usize;
        let dy: usize = (b.0.y - mn.y) as usize;
        let dz: usize = (b.0.z - mn.z) as usize;
        proof {
            assert(dx + dz * (w as int) + dy * (w as int) * (l as int) < total && dz * (
            w as int) <= total && dy * (w as int) <= total && dy * (w as int) * (l as int)
                <= total && dx + dz * (w as int) <= total) by (nonlinear_arith)
                requires
                    0 <= dx < w as int,
                    0 <= dz < l as int,
                    0 <= dy < h as int,
                    total == (w as int) * (h as int) * (l as int),
                    w as int >= 1,
                    h as int >= 1,
                    l as int >= 1,
            ;
        }
        let cell: usize = dx + dz * (w as usize) + dy * (w as usize) * (l as usize);
        let idx = index_of_u16(&pal_ids, b.1);
        grid.set(cell, idx as i32);
        i = i + 1;
    }

    // Varint-encode the grid and assemble the tag tree.
    let data = encode_varints(grid.as_slice());

    let mut palette_compound = Compound::new();
    let mut k: usize = 0;
    let pcount = pal_ids.len();
    while k < pcount
        invariant
            k <= pcount == pal_ids@.len(),
            pal_ids@.len() <= 0x10000,
            names@.len() == pal_ids@.len(),
            palette_compound.entries@.len() == k,
            forall|j: int|
                0 <= j < k ==> palette_compound.entries@[j] == (names@[j], Tag::Int(j as i32)),
        decreases pcount - k,
    {
        palette_compound.put(names[k].clone(), Tag::Int(k as i32));
        k = k + 1;
    }

    let mut blocks_compound = Compound::new();
    blocks_compound.put(String::from_str("Palette"), Tag::Compound(palette_compound));
    blocks_compound.put(String::from_str("Data"), Tag::ByteArray(data));

    let mut schematic = Compound::new();
    schematic.put(String::from_str("Version"), Tag::Int(3));
    schematic.put(String::from_str("DataVersion"), Tag::Int(MC_DATA_VERSION));
    schematic.put(String::from_str("Width"), Tag::Short(u16_to_i16(w)));
    schematic.put(String::from_str("Height"), Tag::Short(u16_to_i16(h)));
    schematic.put(String::from_str("Length"), Tag::Short(u16_to_i16(l)));
    let mut offset_vec: Vec<i32> = Vec::new();
    offset_vec.push(mn.x);
    offset_vec.push(mn.y);
    offset_vec.push(mn.z);
    proof {
        assert(offset_vec@ =~= seq![mn.x, mn.y, mn.z]);
    }
    schematic.put(String::from_str("Offset"), Tag::IntArray(offset_vec));
    schematic.put(String::from_str("Blocks"), Tag::Compound(blocks_compound));

    let mut root = Compound::new();
    root.put(String::from_str("Schematic"), Tag::Compound(schematic));

    proof {
        reveal_strlit("Schematic");
        reveal_strlit("Version");
        reveal_strlit("DataVersion");
        reveal_strlit("Width");
        reveal_strlit("Height");
        reveal_strlit("Length");
        reveal_strlit("Offset");
        reveal_strlit("Blocks");
        reveal_strlit("Palette");
        reveal_strlit("Data");
        reveal_with_fuel(crate::tag::spec_lookup, 10);
        assert("Version"@.len() == 7);
        assert("DataVersion"@.len() == 11);
        assert("Width"@.len() == 5);
        assert("Height"@.len() == 6);
        assert("Length"@.len() == 6);
        assert("Offset"@.len() == 6);
        assert("Blocks"@.len() == 6);
        assert("Palette"@.len() == 7);
        assert("Data"@.len() == 4);
        assert("Height"@[0] == 'H' && "Length"@[0] == 'L' && "Offset"@[0] == 'O' && "Blocks"@[0]
            == 'B');
        assert("Length"@ != "Height"@);
        assert("Offset"@ != "Height"@ && "Offset"@ != "Length"@);
        assert("Blocks"@ != "Height"@ && "Blocks"@ != "Length"@ && "Blocks"@ != "Offset"@);
        assert(root.spec_get("Schematic"@) == Some(Tag::Compound(schematic)));
        assert(schematic.spec_get("Version"@) == Some(Tag::Int(3)));
        assert(schematic.spec_get("DataVersion"@) == Some(Tag::Int(MC_DATA_VERSION)));
        assert(schematic.spec_get("Width"@) == Some(Tag::Short(spec_u16_to_i16(w))));
        assert(schematic.spec_get("Height"@) == Some(Tag::Short(spec_u16_to_i16(h))));
        assert(schematic.spec_get("Length"@) == Some(Tag::Short(spec_u16_to_i16(l))));
        assert(schematic.spec_get("Offset"@) matches Some(Tag::IntArray(a)) && a@ == seq![mn.x,
            mn.y, mn.z]);
        assert(schematic.spec_get("Blocks"@) == Some(Tag::Compound(blocks_compound)));
        assert(blocks_compound.spec_get("Palette"@) == Some(Tag::Compound(palette_compound)));
        assert(blocks_compound.spec_get("Data"@) matches Some(Tag::ByteArray(d)) && d@
            == spec_encode_varints(grid@));
        assert(spec_palette_compound_ok(*reg, palette_compound.entries@, pal));
    }

    Ok(root)
}

/// Every block's id is in the final palette.
pub proof fn lemma_palette_contains_block(blocks: Seq<(Vector3, u16)>, air: u16, i: int, k: int)
    requires
        0 <= k < i <= blocks.len(),
    ensures
        spec_palette_upto(blocks, air, i).contains(blocks[k].1),
    decreases i,
{
    let p = spec_palette_upto(blocks, air, i);
    let q = spec_palette_upto(blocks, air, i - 1);
    if k == i - 1 {
        if q.contains(blocks[k].1) {
            lemma_palette_prefix_extends(blocks, air, i - 1, i);
        } else {
            assert(p == q.push(blocks[k].1));
            assert(p[p.len() - 1] == blocks[k].1);
        }
    } else {
        lemma_palette_contains_block(blocks, air, i - 1, k);
        lemma_palette_prefix_extends(blocks, air, i - 1, i);
    }
}

/// A later palette keeps everything an earlier one held.
pub proof fn lemma_palette_prefix_extends(blocks: Seq<(Vector3, u16)>, air: u16, i: int, j: int)
    requires
        0 <= i <= j,
    ensures
        forall|id: u16|
            spec_palette_upto(blocks, air, i).contains(id) ==> #[trigger] spec_palette_upto(
            blocks, air, j).contains(id),
    decreases j - i,
{
    if i < j {
        lemma_palette_prefix_extends(blocks, air, i, j - 1);
        let q = spec_palette_upto(blocks, air, j - 1);
        let p = spec_palette_upto(blocks, air, j);
        assert forall|id: u16| q.contains(id) implies p.contains(id) by {
            let m = choose|m: int| 0 <= m < q.len() && q[m] == id;
            if p != q {
                assert(p[m] == q[m]);
            }
        }
    }
}

/// A 32-bit unpacked entry reinterpreted as the signed palette index the
/// wire format stores.
pub open spec fn spec_u32_to_i32(v: u32) -> i32 {
    if v <= 0x7fff_ffff {
        v as i32
    } else {
        (v - 0x1_0000_0000) as i32
    }
}

fn u32_to_i32(v: u32) -> (r: i32)
    ensures
        r == spec_u32_to_i32(v),
{
    proof {
        assert(v <= 0x7fff_ffff ==> v as i32 == v) by (bit_vector);
        assert(v > 0x7fff_ffff ==> v as i32 == v - 0x1_0000_0000) by (bit_vector);
    }
    #[verifier::truncate] (v as i32)
}

/// A three-element integer array under `key`.
pub open spec fn spec_int_array_vec3(c: Compound, key: Seq<char>) -> Option<Vector3> {
    match c.spec_get(key) {
        Some(Tag::IntArray(a)) => if a@.len() >= 3 {
            Some(Vector3 { x: a@[0], y: a@[1], z: a@[2] })
        } else {
            None
        },
        _ => None,
    }
}

/// A three-element list under `key`: outer `None` means "not this shape,
/// keep trying"; `Some(None)` means a list was found whose elements are
/// not integers, which aborts the whole lenient read.
pub open spec fn spec_list_vec3(c: Compound, key: Seq<char>) -> Option<Option<Vector3>> {
    match c.spec_get(key) {
        Some(Tag::List(ts)) => if ts@.len() >= 3 {
            match (ts@[0], ts@[1], ts@[2]) {
                (Tag::Int(x), Tag::Int(y), Tag::Int(z)) => Some(
                    Some(Vector3 { x: x, y: y, z: z }),
                ),
                _ => Some(None),
            }
        } else {
            None
        },
        _ => None,
    }
}

pub open spec fn spec_get_int(c: Compound, key: Seq<char>) -> Option<i32> {
    match c.spec_get(key) {
        Some(Tag::Int(v)) => Some(v),
        _ => None,
    }
}

/// A region's position, read leniently: an integer array under one of the
/// accepted spellings, then a list, then three separate scalars.
pub open spec fn spec_region_position(region: Compound) -> Option<Vector3> {
    match spec_int_array_vec3(region, "Position"@) {
        Some(v) => Some(v),
        None => match spec_int_array_vec3(region, "Pos"@) {
            Some(v) => Some(v),
            None => match spec_int_array_vec3(region, "position"@) {
                Some(v) => Some(v),
                None => match spec_int_array_vec3(region, "pos"@) {
                    Some(v) => Some(v),
                    None => match spec_list_vec3(region, "Position"@) {
                        Some(r) => r,
                        None => match spec_list_vec3(region, "Pos"@) {
                            Some(r) => r,
                            None => match spec_list_vec3(region, "position"@) {
                                Some(r) => r,
                                None => match spec_list_vec3(region, "pos"@) {
                                    Some(r) => r,
                                    None => match (spec_get_int(region, "x"@), spec_get_int(
                                        region, "y"@), spec_get_int(region, "z"@)) {
                                        (Some(x), Some(y), Some(z)) => Some(
                                            Vector3 { x: x, y: y, z: z },
                                        ),
                                        _ => None,
                                    },
                                },
                            },
                        },
                    },
                },
            },
        },
    }
}

/// A region's size, read leniently like the position, with scalar
/// fallbacks under two spelling families.
pub open spec fn spec_region_size(region: Compound) -> Option<Vector3> {
    match spec_int_array_vec3(region, "Size"@) {
        Some(v) => Some(v),
        None => match spec_int_array_vec3(region, "Dimensions"@) {
            Some(v) => Some(v),
            None => match spec_int_array_vec3(region, "size"@) {
                Some(v) => Some(v),
                None => match spec_int_array_vec3(region, "dimensions"@) {
                    Some(v) => Some(v),
                    None => match spec_list_vec3(region, "Size"@) {
                        Some(r) => r,
                        None => match spec_list_vec3(region, "Dimensions"@) {
                            Some(r) => r,
                            None => match spec_list_vec3(region, "size"@) {
                                Some(r) => r,
                                None => match spec_list_vec3(region, "dimensions"@) {
                                    Some(r) => r,
                                    None => {
                                        let w = match spec_get_int(region, "width"@) {
                                            Some(v) => Some(v),
                                            None => spec_get_int(region, "size_x"@),
                                        };
                                        let h = match spec_get_int(region, "height"@) {
                                            Some(v) => Some(v),
                                            None => spec_get_int(region, "size_y"@),
                                        };
                                        let l = match spec_get_int(region, "length"@) {
                                            Some(v) => Some(v),
                                            None => spec_get_int(region, "size_z"@),
                                        };
                                        match (w, h, l) {
                                            (Some(w), Some(h), Some(l)) => Some(
                                                Vector3 { x: w, y: h, z: l },
                                            ),
                                            _ => None,
                                        }
                                    },
                                },
                            },
                        },
                    },
                },
            },
        },
    }
}

/// Fallback region size from the file metadata's enclosure dimensions.
pub open spec fn spec_size_from_metadata(root: Compound) -> Option<Vector3> {
    match root.spec_get("Metadata"@) {
        Some(Tag::Compound(meta)) => {
            let w = match spec_get_int(meta, "EnclosureWidth"@) {
                Some(v) => Some(v),
                None => spec_get_int(meta, "Width"@),
            };
            let h = match spec_get_int(meta, "EnclosureHeight"@) {
                Some(v) => Some(v),
                None => spec_get_int(meta, "Height"@),
            };
            let l = match spec_get_int(meta, "EnclosureLength"@) {
                Some(v) => Some(v),
                None => spec_get_int(meta, "Length"@),
            };
            match (w, h, l) {
                (Some(w), Some(h), Some(l)) => Some(Vector3 { x: w, y: h, z: l }),
                _ => None,
            }
        },
        _ => None,
    }
}

/// The set of distinct integer values among a palette compound's entries.
pub open spec fn spec_palette_index_set(entries: Seq<(String, Tag)>) -> Set<i32>
    decreases entries.len(),
{
    if entries.len() == 0 {
        Set::empty()
    } else {
        let rest = spec_palette_index_set(entries.drop_last());
        match entries.last().1 {
            Tag::Int(v) => rest.insert(v),
            _ => rest,
        }
    }
}

/// The non-air blocks of one region's first `i` cells, at absolute world
/// coordinates. Cell `k` sits at `x = k % w`, `z = (k / w) % l`,
/// `y = (k / w) / l` from the region's base corner.
pub open spec fn spec_region_cells(reg: BlockRegistry, pal: Seq<(String, Tag)>, longs: Seq<i64>,
    bits: u8, base: (int, int, int), w: int, l: int, air: u16, i: int) -> Seq<((int, int, int),
    u16)>
    decreases i,
{
    if i <= 0 {
        Seq::empty()
    } else {
        let prev = spec_region_cells(reg, pal, longs, bits, base, w, l, air, i - 1);
        let k = i - 1;
        let idx = spec_u32_to_i32(spec_unpacked_entry(longs, bits, k));
        let id = spec_resolved_id(reg, pal, idx, air);
        if id == air {
            prev
        } else {
            let lx = k % w;
            let rest = k / w;
            let lz = rest % l;
            let ly = rest / l;
            prev.push(((base.0 + lx, base.1 + ly, base.2 + lz), id))
        }
    }
}

/// One region's decode as a value: its non-air blocks at absolute
/// coordinates, or the error that aborts the whole file.
pub open spec fn spec_region_blocks(reg: BlockRegistry, root: Compound, region: Compound) ->
    Result<Seq<((int, int, int), u16)>, SchemError> {
    let pos = match spec_region_position(region) {
        Some(p) => p,
        None => Vector3 { x: 0, y: 0, z: 0 },
    };
    let size_opt = match spec_region_size(region) {
        Some(sz) => Some(sz),
        None => spec_size_from_metadata(root),
    };
    match size_opt {
        None => Err(SchemError::MissingRegionSize),
        Some(size) => {
            let w = if size.x >= 0 { size.x as int } else { -(size.x as int) };
            let h = if size.y >= 0 { size.y as int } else { -(size.y as int) };
            let l = if size.z >= 0 { size.z as int } else { -(size.z as int) };
            let count = w * h * l;
            if count == 0 {
                Ok(Seq::empty())
            } else {
                match region.spec_get("BlockStatePalette"@) {
                    Some(Tag::Compound(pc)) => {
                        let bits = spec_bits_for_palette_size(
                            spec_palette_index_set(pc.entries@).len(),
                        );
                        match region.spec_get("BlockStates"@) {
                            Some(Tag::LongArray(longs)) => if count > usize::MAX || count
                                > longs@.len() * (64int / (bits as int)) {
                                Err(SchemError::PackedArrayTooShort)
                            } else {
                                let base = (
                                    if size.x >= 0 { pos.x as int } else { pos.x + size.x + 1 },
                                    if size.y >= 0 { pos.y as int } else { pos.y + size.y + 1 },
                                    if size.z >= 0 { pos.z as int } else { pos.z + size.z + 1 },
                                );
                                Ok(spec_region_cells(reg, pc.entries@, longs@, bits, base, w, l,
                                    reg.air_state, count))
                            },
                            _ => Err(SchemError::MissingBlockStates),
                        }
                    },
                    _ => Err(SchemError::MissingBlockStatePalette),
                }
            }
        },
    }
}

/// All regions' blocks in entry order, or the first error.
pub open spec fn spec_regions_fold(reg: BlockRegistry, root: Compound, entries: Seq<(String,
    Tag)>, i: int) -> Result<Seq<((int, int, int), u16)>, SchemError>
    decreases i,
{
    if i <= 0 {
        Ok(Seq::empty())
    } else {
        match spec_regions_fold(reg, root, entries, i - 1) {
            Err(e) => Err(e),
            Ok(acc) => match entries[i - 1].1 {
                Tag::Compound(rc) => match spec_region_blocks(reg, root, rc) {
                    Err(e) => Err(e),
                    Ok(bs) => Ok(acc + bs),
                },
                _ => Ok(acc),
            },
        }
    }
}

/// A block at machine-word coordinates, as mathematical integers.
pub open spec fn spec_to_int_block(b: ((i64, i64, i64), u16)) -> ((int, int, int), u16) {
    ((b.0.0 as int, b.0.1 as int, b.0.2 as int), b.1)
}

/// A whole accumulated block list, as mathematical integers.
pub open spec fn spec_map_blocks(s: Seq<((i64, i64, i64), u16)>) -> Seq<((int, int, int), u16)> {
    s.map_values(|b: ((i64, i64, i64), u16)| spec_to_int_block(b))
}

/// One absolute block re-expressed relative to the minimum corner.
pub open spec fn spec_rel_block(b: ((int, int, int), u16), mn: (int, int, int)) -> (Vector3,
    u16) {
    (
        Vector3 { x: (b.0.0 - mn.0) as i32, y: (b.0.1 - mn.1) as i32, z: (b.0.2 - mn.2) as i32 },
        b.1,
    )
}

/// A whole absolute block list re-expressed relative to the minimum corner.
pub open spec fn spec_map_rel(s: Seq<((int, int, int), u16)>, mn: (int, int, int)) -> Seq<(
    Vector3, u16)> {
    s.map_values(|b: ((int, int, int), u16)| spec_rel_block(b, mn))
}

/// Every listed position lies between the folded minimum and maximum.
pub proof fn lemma_fold_bounds_contain(bs: Seq<((int, int, int), u16)>, i: int, k: int)
    requires
        1 <= i <= bs.len(),
        0 <= k < i,
    ensures
        ({
            let mn = spec_fold_min(bs, i);
            let mx = spec_fold_max(bs, i);
            &&& mn.0 <= bs[k].0.0 <= mx.0
            &&& mn.1 <= bs[k].0.1 <= mx.1
            &&& mn.2 <= bs[k].0.2 <= mx.2
        }),
    decreases i,
{
    if i > 1 && k < i - 1 {
        lemma_fold_bounds_contain(bs, i - 1, k);
    }
}

/// Once one region fails, the whole fold fails with that error.
pub proof fn lemma_fold_err_persists(reg: BlockRegistry, root: Compound, entries: Seq<(String,
    Tag)>, i: int, j: int, e: SchemError)
    requires
        0 <= i <= j,
        spec_regions_fold(reg, root, entries, i) == Err::<Seq<((int, int, int), u16)>, _>(e),
    ensures
        spec_regions_fold(reg, root, entries, j) == Err::<Seq<((int, int, int), u16)>, _>(e),
    decreases j - i,
{
    if i < j {
        lemma_fold_err_persists(reg, root, entries, i + 1, j, e);
    }
}

/// Componentwise minimum over the first `i` positions (`i >= 1`).
pub open spec fn spec_fold_min(bs: Seq<((int, int, int), u16)>, i: int) -> (int, int, int)
    decreases i,
{
    if i <= 1 {
        bs[0].0
    } else {
        let p = spec_fold_min(bs, i - 1);
        let c = bs[i - 1].0;
        (
            if c.0 <= p.0 { c.0 } else { p.0 },
            if c.1 <= p.1 { c.1 } else { p.1 },
            if c.2 <= p.2 { c.2 } else { p.2 },
        )
    }
}

/// Componentwise maximum over the first `i` positions (`i >= 1`).
pub open spec fn spec_fold_max(bs: Seq<((int, int, int), u16)>, i: int) -> (int, int, int)
    decreases i,
{
    if i <= 1 {
        bs[0].0
    } else {
        let p = spec_fold_max(bs, i - 1);
        let c = bs[i - 1].0;
        (
            if c.0 >= p.0 { c.0 } else { p.0 },
            if c.1 >= p.1 { c.1 } else { p.1 },
            if c.2 >= p.2 { c.2 } else { p.2 },
        )
    }
}

/// The whole multi-region decode as a value: every region's non-air
/// blocks, re-expressed relative to the global bounding box's minimum
/// corner, which becomes the offset.
pub open spec fn spec_load_litematic(reg: BlockRegistry, root: Compound) -> Result<SpecDecoded,
    SchemError> {
    match root.spec_get("Regions"@) {
        Some(Tag::Compound(regions)) => {
            match spec_regions_fold(reg, root, regions.entries@, regions.entries@.len() as int) {
                Err(e) => Err(e),
                Ok(all) => if all.len() == 0 {
                    Err(SchemError::NoBlocksInRegions)
                } else {
                    let mn = spec_fold_min(all, all.len() as int);
                    let mx = spec_fold_max(all, all.len() as int);
                    if mx.0 - mn.0 + 1 > 0xffff || mx.1 - mn.1 + 1 > 0xffff || mx.2 - mn.2 + 1
                        > 0xffff || mn.0 < i32::MIN || mn.0 > i32::MAX || mn.1 < i32::MIN || mn.1
                        > i32::MAX || mn.2 < i32::MIN || mn.2 > i32::MAX {
                        Err(SchemError::BoundsTooLarge)
                    } else {
                        Ok(
                            (
                                (mx.0 - mn.0 + 1) as u16,
                                (mx.1 - mn.1 + 1) as u16,
                                (mx.2 - mn.2 + 1) as u16,
                                Vector3 { x: mn.0 as i32, y: mn.1 as i32, z: mn.2 as i32 },
                                spec_map_rel(all, mn),
                            ),
                        )
                    }
                },
            }
        },
        _ => Err(SchemError::MissingRegions),
    }
}

/// Whether the root is the multi-region layout: a `Regions` compound and
/// no `Schematic` compound.
pub open spec fn spec_is_multi_region(root: Compound) -> bool {
    &&& root.spec_get("Regions"@) matches Some(Tag::Compound(_))
    &&& !(root.spec_get("Schematic"@) matches Some(Tag::Compound(_)))
}

/// Read a three-element integer array under `key`.
fn int_array_vec3(c: &Compound, key: &str) -> (r: Option<Vector3>)
    ensures
        r == spec_int_array_vec3(*c, key@),
{
    match c.get_int_array(key) {
        Some(a) => if a.len() >= 3 {
            Some(Vector3 { x: a[0], y: a[1], z: a[2] })
        } else {
            None
        },
        None => None,
    }
}

/// Read a three-element integer list under `key`, with the lenient
/// reader's abort semantics.
fn list_vec3(c: &Compound, key: &str) -> (r: Option<Option<Vector3>>)
    ensures
        r == spec_list_vec3(*c, key@),
{
    match c.get_list(key) {
        Some(ts) => if ts.len() >= 3 {
            let x = match ts[0].extract_int() {
                Some(v) => v,
                None => {
                    return Some(None);
                },
            };
            let y = match ts[1].extract_int() {
                Some(v) => v,
                None => {
                    return Some(None);
                },
            };
            let z = match ts[2].extract_int() {
                Some(v) => v,
                None => {
                    return Some(None);
                },
            };
            Some(Some(Vector3 { x, y, z }))
        } else {
            None
        },
        None => None,
    }
}

/// Read a region's position leniently; see `spec_region_position`.
fn get_region_position(region: &Compound) -> (r: Option<Vector3>)
    ensures
        r == spec_region_position(*region),
{
    if let Some(v) = int_array_vec3(region, "Position") {
        return Some(v);
    }
    if let Some(v) = int_array_vec3(region, "Pos") {
        return Some(v);
    }
    if let Some(v) = int_array_vec3(region, "position") {
        return Some(v);
    }
    if let Some(v) = int_array_vec3(region, "pos") {
        return Some(v);
    }
    if let Some(r) = list_vec3(region, "Position") {
        return r;
    }
    if let Some(r) = list_vec3(region, "Pos") {
        return r;
    }
    if let Some(r) = list_vec3(region, "position") {
        return r;
    }
    if let Some(r) = list_vec3(region, "pos") {
        return r;
    }
    match (region.get_int("x"), region.get_int("y"), region.get_int("z")) {
        (Some(x), Some(y), Some(z)) => Some(Vector3 { x, y, z }),
        _ => None,
    }
}

/// Read a region's size leniently; see `spec_region_size`.
fn get_region_size(region: &Compound) -> (r: Option<Vector3>)
    ensures
        r == spec_region_size(*region),
{
    if let Some(v) = int_array_vec3(region, "Size") {
        return Some(v);
    }
    if let Some(v) = int_array_vec3(region, "Dimensions") {
        return Some(v);
    }
    if let Some(v) = int_array_vec3(region, "size") {
        return Some(v);
    }
    if let Some(v) = int_array_vec3(region, "dimensions") {
        return Some(v);
    }
    if let Some(r) = list_vec3(region, "Size") {
        return r;
    }
    if let Some(r) = list_vec3(region, "Dimensions") {
        return r;
    }
    if let Some(r) = list_vec3(region, "size") {
        return r;
    }
    if let Some(r) = list_vec3(region, "dimensions") {
        return r;
    }
    let w = match region.get_int("width") {
        Some(v) => Some(v),
        None => region.get_int("size_x"),
    };
    let h = match region.get_int("height") {
        Some(v) => Some(v),
        None => region.get_int("size_y"),
    };
    let l = match region.get_int("length") {
        Some(v) => Some(v),
        None => region.get_int("size_z"),
    };
    match (w, h, l) {
        (Some(w), Some(h), Some(l)) => Some(Vector3 { x: w, y: h, z: l }),
        _ => None,
    }
}

/// Fallback region size from the file metadata.
fn get_size_from_metadata(root: &Compound) -> (r: Option<Vector3>)
    ensures
        r == spec_size_from_metadata(*root),
{
    let meta = match root.get_compound("Metadata") {
        Some(m) => m,
        None => {
            return None;
        },
    };
    let w = match meta.get_int("EnclosureWidth") {
        Some(v) => Some(v),
        None => meta.get_int("Width"),
    };
    let h = match meta.get_int("EnclosureHeight") {
        Some(v) => Some(v),
        None => meta.get_int("Height"),
    };
    let l = match meta.get_int("EnclosureLength") {
        Some(v) => Some(v),
        None => meta.get_int("Length"),
    };
    match (w, h, l) {
        (Some(w), Some(h), Some(l)) => Some(Vector3 { x: w, y: h, z: l }),
        _ => None,
    }
}

/// Whether `ids` holds `id`.
fn contains_i32(ids: &Vec<i32>, id: i32) -> (r: bool)
    ensures
        r == ids@.contains(id),
{
    let n = ids.len();
    let mut i: usize = 0;
    while i < n
        invariant
            n == ids@.len(),
            i <= n,
            forall|k: int| 0 <= k < i ==> ids@[k] != id,
        decreases n - i,
    {
        if ids[i] == id {
            return true;
        }
        i = i + 1;
    }
    false
}

/// The number of distinct integer values among a palette's entries.
fn count_distinct_indices(pc: &Compound) -> (r: usize)
    ensures
        r == spec_palette_index_set(pc.entries@).len(),
{
    let n = pc.entries.len();
    let mut seen: Vec<i32> = Vec::new();
    let mut j: usize = 0;
    proof {
        assert(pc.entries@.take(0) =~= Seq::<(String, Tag)>::empty());
        assert(seen@.to_set() =~= spec_palette_index_set(pc.entries@.take(0)));
    }
    while j < n
        invariant
            j <= n == pc.entries@.len(),
            seen@.no_duplicates(),
            seen@.to_set() == spec_palette_index_set(pc.entries@.take(j as int)),
        decreases n - j,
    {
        proof {
            let t = pc.entries@.take(j as int + 1);
            assert(t.last() == pc.entries@[j as int]);
            assert(t.drop_last() =~= pc.entries@.take(j as int));
        }
        let entry_val: Option<i32> = match &pc.entries[j].1 {
            Tag::Int(v) => Some(*v),
            _ => None,
        };
        let ghost pre_seen = seen@;
        match entry_val {
            Some(v) => {
                if !contains_i32(&seen, v) {
                    seen.push(v);
                    proof {
                        let old_seen = pre_seen;
                        assert(seen@.drop_last() =~= old_seen);
                        assert(!old_seen.contains(v));
                        assert(seen@.no_duplicates()) by {
                            assert(forall|a: int|
                                0 <= a < old_seen.len() ==> seen@[a] == old_seen[a]);
                        }
                        assert(seen@.to_set() =~= old_seen.to_set().insert(v)) by {
                            assert forall|q: i32| seen@.to_set().contains(q) implies
                                old_seen.to_set().contains(q) || q == v by {
                                let w2 = choose|w2: int|
                                    0 <= w2 < seen@.len() && seen@[w2] == q;
                                if w2 < old_seen.len() {
                                    assert(old_seen[w2] == q);
                                }
                            }
                            assert forall|q: i32| old_seen.to_set().contains(q) implies
                                seen@.to_set().contains(q) by {
                                let w2 = choose|w2: int|
                                    0 <= w2 < old_seen.len() && old_seen[w2] == q;
                                assert(seen@[w2] == q);
                            }
                            assert(seen@[seen@.len() - 1] == v);
                        }
                    }
                } else {
                    proof {
                        assert(seen@.to_set().contains(v));
                        assert(seen@.to_set() =~= seen@.to_set().insert(v));
                    }
                }
            },
            None => {},
        }
        j = j + 1;
    }
    proof {
        assert(pc.entries@.take(n as int) =~= pc.entries@);
        seen@.unique_seq_to_set();
    }
    seen.len()
}

/// The absolute magnitude of a signed size component.
fn abs_i32_u64(v: i32) -> (r: u64)
    ensures
        r as int == (if v >= 0 { v as int } else { -(v as int) }),
{
    if v >= 0 {
        v as u64
    } else {
        proof {
            assert(v < 0 ==> -(v as int) <= 0x8000_0000);
        }
        (-(v as i64)) as u64
    }
}

/// Decode one region into non-air blocks at absolute coordinates.
fn region_blocks(reg: &BlockRegistry, root: &Compound, region: &Compound) -> (r: Result<Vec<((
    i64, i64, i64), u16)>, SchemError>)
    ensures
        match (r, spec_region_blocks(*reg, *root, *region)) {
            (Ok(v), Ok(bs)) => spec_map_blocks(v@) == bs && (forall|k: int|
                #![trigger v@[k]]
                0 <= k < v@.len() ==> {
                    &&& -0x2_0000_0000 <= v@[k].0.0 <= 0x2_0000_0000
                    &&& -0x2_0000_0000 <= v@[k].0.1 <= 0x2_0000_0000
                    &&& -0x2_0000_0000 <= v@[k].0.2 <= 0x2_0000_0000
                }),
            (Err(e), Err(e2)) => e == e2,
            _ => false,
        },
{
    let pos = match get_region_position(region) {
        Some(p) => p,
        None => Vector3 { x: 0, y: 0, z: 0 },
    };
    let size = match get_region_size(region) {
        Some(sz) => sz,
        None => match get_size_from_metadata(root) {
            Some(sz) => sz,
            None => {
                return Err(SchemError::MissingRegionSize);
            },
        },
    };
    let w64 = abs_i32_u64(size.x);
    let h64 = abs_i32_u64(size.y);
    let l64 = abs_i32_u64(size.z);
    proof {
        assert(w64 * h64 * l64 <= 0x8000_0000_0000_0000_0000_0000u128 as int && w64 * h64
            <= 0x4000_0000_0000_0000) by (nonlinear_arith)
            requires
                w64 <= 0x8000_0000u64,
                h64 <= 0x8000_0000u64,
                l64 <= 0x8000_0000u64,
        ;
    }
    let count128: u128 = (w64 as u128) * (h64 as u128) * (l64 as u128);
    if count128 == 0 {
        proof {
            assert(spec_map_blocks(Seq::<((i64, i64, i64), u16)>::empty()) =~= Seq::<((int, int,
                int), u16)>::empty());
        }
        return Ok(Vec::new());
    }
    proof {
        assert(w64 >= 1 && h64 >= 1 && l64 >= 1) by (nonlinear_arith)
            requires
                count128 as int == (w64 as int) * (h64 as int) * (l64 as int),
                count128 != 0,
        ;
    }
    let pc = match region.get_compound("BlockStatePalette") {
        Some(c) => c,
        None => {
            return Err(SchemError::MissingBlockStatePalette);
        },
    };
    let dcount = count_distinct_indices(pc);
    let bits = bits_for_palette_size(dcount);
    let longs = match region.get_long_array("BlockStates") {
        Some(a) => a,
        None => {
            return Err(SchemError::MissingBlockStates);
        },
    };
    if count128 > usize::MAX as u128 {
        return Err(SchemError::PackedArrayTooShort);
    }
    let count: usize = count128 as usize;
    let vals = match unpack_packed_long_array(longs.as_slice(), count, bits) {
        Ok(v) => v,
        Err(e) => {
            return Err(e);
        },
    };

    let base_x: i64 = if size.x >= 0 {
        pos.x as i64
    } else {
        (pos.x as i64) + (size.x as i64) + 1
    };
    let base_y: i64 = if size.y >= 0 {
        pos.y as i64
    } else {
        (pos.y as i64) + (size.y as i64) + 1
    };
    let base_z: i64 = if size.z >= 0 {
        pos.z as i64
    } else {
        (pos.z as i64) + (size.z as i64) + 1
    };

    let air = reg.air_state;
    let mut out: Vec<((i64, i64, i64), u16)> = Vec::new();
    let mut i: usize = 0;
    let ghost base = (base_x as int, base_y as int, base_z as int);
    let ghost longsv = longs@;
    proof {
        assert(spec_map_blocks(out@) =~= spec_region_cells(*reg, pc.entries@, longsv, bits,
            base, w64 as int, l64 as int, air, 0));
    }
    while i < count
        invariant
            i <= count,
            count == w64 * h64 * l64,
            1 <= w64 <= 0x8000_0000,
            1 <= h64 <= 0x8000_0000,
            1 <= l64 <= 0x8000_0000,
            -0x1_0000_0000 <= base_x <= 0x1_0000_0000,
            -0x1_0000_0000 <= base_y <= 0x1_0000_0000,
            -0x1_0000_0000 <= base_z <= 0x1_0000_0000,
            base == (base_x as int, base_y as int, base_z as int),
            longsv == longs@,
            air == reg.air_state,
            1 <= bits <= 64,
            count <= longsv.len() * (64int / (bits as int)),
            vals@.len() == count,
            forall|k: int|
                0 <= k < count ==> vals@[k] == spec_unpacked_entry(longsv, bits, k),
            spec_map_blocks(out@) == spec_region_cells(*reg, pc.entries@, longsv, bits, base,
                w64 as int, l64 as int, air, i as int),
            forall|k: int|
                #![trigger out@[k]]
                0 <= k < out@.len() ==> {
                    &&& -0x2_0000_0000 <= out@[k].0.0 <= 0x2_0000_0000
                    &&& -0x2_0000_0000 <= out@[k].0.1 <= 0x2_0000_0000
                    &&& -0x2_0000_0000 <= out@[k].0.2 <= 0x2_0000_0000
                },
        decreases count - i,
    {
        proof {
            vstd::arithmetic::div_mod::lemma_fundamental_div_mod(i as int, w64 as int);
            vstd::arithmetic::div_mod::lemma_fundamental_div_mod((i as int) / (w64 as int),
                l64 as int);
            assert((i as int) / (w64 as int) < (h64 as int) * (l64 as int) && ((i as int) / (
            w64 as int)) / (l64 as int) < h64 as int) by (nonlinear_arith)
                requires
                    i < count,
                    count == (w64 as int) * (h64 as int) * (l64 as int),
                    1 <= w64,
                    1 <= h64,
                    1 <= l64,
                    i as int == (w64 as int) * ((i as int) / (w64 as int)) + (i as int) % (
                    w64 as int),
                    0 <= (i as int) % (w64 as int),
                    (i as int) % (w64 as int) < w64 as int,
                    (i as int) / (w64 as int) == (l64 as int) * (((i as int) / (w64 as int)) / (
                    l64 as int)) + ((i as int) / (w64 as int)) % (l64 as int),
                    0 <= ((i as int) / (w64 as int)) % (l64 as int),
                    ((i as int) / (w64 as int)) % (l64 as int) < l64 as int,
            ;
        }
        let lx: u64 = (i as u64) % w64;
        let rest: u64 = (i as u64) / w64;
        let lz: u64 = rest % l64;
        let ly: u64 = rest / l64;
        let idx = u32_to_i32(vals[i]);
        let id = resolved_palette_id(reg, pc, idx, air);
        let ghost old_out = out@;
        if id != air {
            out.push(((base_x + lx as i64, base_y + ly as i64, base_z + lz as i64), id));
        }
        proof {
            if id != air {
                assert(spec_map_blocks(out@) =~= spec_map_blocks(old_out).push(
                    spec_to_int_block(out@.last())));
            }
            assert(spec_map_blocks(out@) =~= spec_region_cells(*reg, pc.entries@, longsv, bits,
                base, w64 as int, l64 as int, air, i as int + 1));
        }
        i = i + 1;
    }
    Ok(out)
}

/// Decode the multi-region layout from a parsed root compound.
fn load_litematic(reg: &BlockRegistry, root: &Compound) -> (r: Result<SchematicData, SchemError>)
    ensures
        match (r, spec_load_litematic(*reg, *root)) {
            (Ok(doc), Ok(t)) => doc.width == t.0 && doc.height == t.1 && doc.length == t.2
                && doc.offset == t.3 && doc.blocks@ == t.4,
            (Err(e), Err(e2)) => e == e2,
            _ => false,
        },
{
    let regions = match root.get_compound("Regions") {
        Some(c) => c,
        None => {
            return Err(SchemError::MissingRegions);
        },
    };
    let mut all: Vec<((i64, i64, i64), u16)> = Vec::new();
    let rn = regions.entries.len();
    let mut ri: usize = 0;
    proof {
        assert(spec_map_blocks(all@) =~= Seq::<((int, int, int), u16)>::empty());
    }
    while ri < rn
        invariant
            ri <= rn == regions.entries@.len(),
            root.spec_get("Regions"@) == Some(Tag::Compound(*regions)),
            spec_regions_fold(*reg, *root, regions.entries@, ri as int) == Ok::<_, SchemError>(
                spec_map_blocks(all@),
            ),
            forall|k: int|
                #![trigger all@[k]]
                0 <= k < all@.len() ==> {
                    &&& -0x2_0000_0000 <= all@[k].0.0 <= 0x2_0000_0000
                    &&& -0x2_0000_0000 <= all@[k].0.1 <= 0x2_0000_0000
                    &&& -0x2_0000_0000 <= all@[k].0.2 <= 0x2_0000_0000
                },
        decreases rn - ri,
    {
        match &regions.entries[ri].1 {
            Tag::Compound(rc) => {
                match region_blocks(reg, root, rc) {
                    Ok(mut bs) => {
                        let ghost old_all = all@;
                        let ghost bsv = bs@;
                        all.append(&mut bs);
                        proof {
                            assert(spec_map_blocks(all@) =~= spec_map_blocks(old_all)
                                + spec_map_blocks(bsv));
                        }
                    },
                    Err(e) => {
                        proof {
                            assert(regions.entries@[ri as int].1 == Tag::Compound(*rc));
                            assert(spec_region_blocks(*reg, *root, *rc) == Err::<Seq<((int, int,
                                int), u16)>, _>(e));
                            assert(spec_regions_fold(*reg, *root, regions.entries@,
                                ri as int + 1) == Err::<Seq<((int, int, int), u16)>, _>(e));
                            lemma_fold_err_persists(*reg, *root, regions.entries@,
                                ri as int + 1, rn as int, e);
                        }
                        return Err(e);
                    },
                }
            },
            _ => {},
        }
        ri = ri + 1;
    }

    let total = all.len();
    if total == 0 {
        proof {
            assert(spec_map_blocks(all@).len() == 0);
        }
        return Err(SchemError::NoBlocksInRegions);
    }
    let ghost allv = spec_map_blocks(all@);

    // Global bounding box over every accumulated block.
    let mut mnx: i64 = all[0].0.0;
    let mut mny: i64 = all[0].0.1;
    let mut mnz: i64 = all[0].0.2;
    let mut mxx: i64 = all[0].0.0;
    let mut mxy: i64 = all[0].0.1;
    let mut mxz: i64 = all[0].0.2;
    let mut i: usize = 1;
    proof {
        assert(allv[0] == spec_to_int_block(all@[0]));
    }
    while i < total
        invariant
            1 <= i <= total == all@.len(),
            allv == spec_map_blocks(all@),
            forall|k: int|
                #![trigger all@[k]]
                0 <= k < all@.len() ==> {
                    &&& -0x2_0000_0000 <= all@[k].0.0 <= 0x2_0000_0000
                    &&& -0x2_0000_0000 <= all@[k].0.1 <= 0x2_0000_0000
                    &&& -0x2_0000_0000 <= all@[k].0.2 <= 0x2_0000_0000
                },
            -0x2_0000_0000 <= mnx <= 0x2_0000_0000,
            -0x2_0000_0000 <= mny <= 0x2_0000_0000,
            -0x2_0000_0000 <= mnz <= 0x2_0000_0000,
            -0x2_0000_0000 <= mxx <= 0x2_0000_0000,
            -0x2_0000_0000 <= mxy <= 0x2_0000_0000,
            -0x2_0000_0000 <= mxz <= 0x2_0000_0000,
            (mnx as int, mny as int, mnz as int) == spec_fold_min(allv, i as int),
            (mxx as int, mxy as int, mxz as int) == spec_fold_max(allv, i as int),
        decreases total - i,
    {
        let c = all[i].0;
        proof {
            assert(allv[i as int] == spec_to_int_block(all@[i as int]));
        }
        if c.0 < mnx {
            mnx = c.0;
        }
        if c.1 < mny {
            mny = c.1;
        }
        if c.2 < mnz {
            mnz = c.2;
        }
        if c.0 > mxx {
            mxx = c.0;
        }
        if c.1 > mxy {
            mxy = c.1;
        }
        if c.2 > mxz {
            mxz = c.2;
        }
        i = i + 1;
    }

    if mxx - mnx + 1 > 0xffff || mxy - mny + 1 > 0xffff || mxz - mnz + 1 > 0xffff
        || mnx < i32::MIN as i64 || mnx > i32::MAX as i64 || mny < i32::MIN as i64
        || mny > i32::MAX as i64 || mnz < i32::MIN as i64 || mnz > i32::MAX as i64 {
        return Err(SchemError::BoundsTooLarge);
    }

    let width: u16 = (mxx - mnx + 1) as u16;
    let height: u16 = (mxy - mny + 1) as u16;
    let length: u16 = (mxz - mnz + 1) as u16;
    let offset = Vector3 { x: mnx as i32, y: mny as i32, z: mnz as i32 };

    let ghost mn = (mnx as int, mny as int, mnz as int);
    proof {
        assert forall|k: int| #![trigger allv[k]] 0 <= k < total implies {
            &&& mn.0 <= allv[k].0.0 <= mn.0 + 0xffff
            &&& mn.1 <= allv[k].0.1 <= mn.1 + 0xffff
            &&& mn.2 <= allv[k].0.2 <= mn.2 + 0xffff
        } by {
            lemma_fold_bounds_contain(allv, total as int, k);
        }
    }
    let mut blocks: Vec<(Vector3, u16)> = Vec::new();
    let mut i: usize = 0;
    proof {
        assert(blocks@ =~= spec_map_rel(allv, mn).take(0));
    }
    while i < total
        invariant
            i <= total == all@.len(),
            allv == spec_map_blocks(all@),
            mn == (mnx as int, mny as int, mnz as int),
            forall|k: int| #![trigger allv[k]]
                0 <= k < total ==> {
                    &&& mn.0 <= allv[k].0.0 <= mn.0 + 0xffff
                    &&& mn.1 <= allv[k].0.1 <= mn.1 + 0xffff
                    &&& mn.2 <= allv[k].0.2 <= mn.2 + 0xffff
                },
            -0x8000_0000 <= mnx <= 0x7fff_ffff,
            -0x8000_0000 <= mny <= 0x7fff_ffff,
            -0x8000_0000 <= mnz <= 0x7fff_ffff,
            blocks@ == spec_map_rel(allv, mn).take(i as int),
        decreases total - i,
    {
        let b = all[i];
        proof {
            assert(allv[i as int] == spec_to_int_block(all@[i as int]));
            assert(spec_map_rel(allv, mn)[i as int] == spec_rel_block(allv[i as int], mn));
            assert(spec_map_rel(allv, mn).take(i as int + 1) =~= spec_map_rel(allv, mn).take(
                i as int).push(spec_map_rel(allv, mn)[i as int]));
        }
        blocks.push(
            (
                Vector3 {
                    x: (b.0.0 - mnx) as i32,
                    y: (b.0.1 - mny) as i32,
                    z: (b.0.2 - mnz) as i32,
                },
                b.1,
            ),
        );
        i = i + 1;
    }
    proof {
        assert(spec_map_rel(allv, mn).take(total as int) =~= spec_map_rel(allv, mn));
    }

    Ok(SchematicData { width, height, length, offset, blocks })
}

/// Load a schematic from a parsed root tag tree. The multi-region layout
/// is detected by a `Regions` compound with no `Schematic` compound; any
/// other root is decoded as single-region.
pub fn load_schematic(reg: &BlockRegistry, root: &Compound) -> (r: Result<SchematicData,
    SchemError>)
    ensures
        ({
            let expected = if spec_is_multi_region(*root) {
                spec_load_litematic(*reg, *root)
            } else {
                spec_load_sponge(*reg, *root)
            };
            match (r, expected) {
                (Ok(doc), Ok(t)) => doc.width == t.0 && doc.height == t.1 && doc.length == t.2
                    && doc.offset == t.3 && doc.blocks@ == t.4,
                (Err(e), Err(e2)) => e == e2,
                _ => false,
            }
        }),
{
    let has_regions = match root.get_compound("Regions") {
        Some(_) => true,
        None => false,
    };
    let has_schematic = match root.get_compound("Schematic") {
        Some(_) => true,
        None => false,
    };
    if has_regions && !has_schematic {
        load_litematic(reg, root)
    } else {
        load_sponge(reg, root)
    }
}

/// Convert a loaded schematic into clipboard data for pasting.
pub fn schematic_to_clipboard(schem: &SchematicData) -> (r: ClipboardData)
    ensures
        r.blocks@ == schem.blocks@,
{
    let n = schem.blocks.len();
    let mut blocks: Vec<(Vector3, u16)> = Vec::new();
    let mut i: usize = 0;
    while i < n
        invariant
            i <= n == schem.blocks@.len(),
            blocks@ == schem.blocks@.take(i as int),
        decreases n - i,
    {
        blocks.push(schem.blocks[i]);
        proof {
            assert(schem.blocks@.take(i as int + 1) =~= schem.blocks@.take(i as int).push(
                schem.blocks@[i as int]));
        }
        i = i + 1;
    }
    proof {
        assert(schem.blocks@.take(n as int) =~= schem.blocks@);
    }
    ClipboardData { blocks }
}

// ------------------------------------------------------------------
// The encode/decode round trip.
// ------------------------------------------------------------------

/// The grid always holds one entry per cell.
proof fn lemma_grid_len(blocks: Seq<(Vector3, u16)>, i: int, mn: Vector3, w: int, l: int,
    total: nat, pal: Seq<u16>)
    requires
        i <= blocks.len(),
        forall|a: int|
            0 <= a < i ==> 0 <= spec_cell_of((#[trigger] blocks[a]).0, mn, w, l) < total,
    ensures
        spec_grid_upto(blocks, i, mn, w, l, total, pal).len() == total,
    decreases i,
{
    if i > 0 {
        lemma_grid_len(blocks, i - 1, mn, w, l, total, pal);
    }
}

/// Reading a dimension back from its signed 16-bit tag value restores it.
proof fn lemma_u16_i16_round(w: u16)
    ensures
        spec_short_to_u16(spec_u16_to_i16(w)) == w,
{
}

/// Within the box, decoding a cell index restores the position it was
/// encoded from.
proof fn lemma_pos_cell_inverse(p: Vector3, mn: Vector3, w: int, l: int, h: int)
    requires
        w >= 1,
        l >= 1,
        h >= 1,
        mn.x <= p.x < mn.x + w,
        mn.y <= p.y < mn.y + h,
        mn.z <= p.z < mn.z + l,
    ensures
        0 <= spec_cell_of(p, mn, w, l) < w * h * l,
        spec_sponge_pos(spec_cell_of(p, mn, w, l), w, l, mn) == p,
{
    let dx = p.x - mn.x;
    let dy = p.y - mn.y;
    let dz = p.z - mn.z;
    let c = spec_cell_of(p, mn, w, l);
    let rem = dx + dz * w;
    assert(0 <= rem < w * l && c == dy * (w * l) + rem && c < w * h * l && w * l >= 1)
        by (nonlinear_arith)
        requires
            0 <= dx < w,
            0 <= dz < l,
            0 <= dy < h,
            rem == dx + dz * w,
            c == dx + dz * w + dy * w * l,
            w >= 1,
            l >= 1,
            h >= 1,
    ;
    vstd::arithmetic::div_mod::lemma_fundamental_div_mod_converse(c, w * l, dy, rem);
    vstd::arithmetic::div_mod::lemma_fundamental_div_mod_converse(rem, w, dz, dx);
}

/// Every palette index past 0 is the state id of one of the blocks.
proof fn lemma_palette_members(blocks: Seq<(Vector3, u16)>, air: u16, i: int, j: int)
    requires
        0 <= i,
        1 <= j < spec_palette_upto(blocks, air, i).len(),
    ensures
        exists|k: int|
            0 <= k < i && spec_palette_upto(blocks, air, i)[j] == #[trigger] blocks[k].1,
    decreases i,
{
    let pal = spec_palette_upto(blocks, air, i);
    let prev = spec_palette_upto(blocks, air, i - 1);
    if i > 0 {
        if j < prev.len() {
            lemma_palette_members(blocks, air, i - 1, j);
            let k = choose|k: int| 0 <= k < i - 1 && prev[j] == #[trigger] blocks[k].1;
            assert(pal[j] == prev[j]);
            assert(0 <= k < i && pal[j] == blocks[k].1);
        } else {
            assert(pal == prev.push(blocks[i - 1].1) && j == pal.len() - 1);
            assert(pal[j] == blocks[i - 1].1);
        }
    }
}

/// In a palette compound whose entry `k` holds the integer `k`, the
/// last-match lookup of `idx` lands exactly on entry `idx`.
proof fn lemma_last_match_indexed(entries: Seq<(String, Tag)>, idx: i32)
    requires
        entries.len() <= 0x10000,
        forall|k: int| 0 <= k < entries.len() ==> (#[trigger] entries[k]).1 == Tag::Int(k as i32),
    ensures
        spec_palette_last_match(entries, idx) == (if 0 <= idx < entries.len() {
            Some(entries[idx as int].0@)
        } else {
            None::<Seq<char>>
        }),
    decreases entries.len(),
{
    if entries.len() > 0 {
        let n = entries.len() as int;
        assert(entries.last().1 == Tag::Int((n - 1) as i32));
        if (n - 1) as i32 == idx {
            assert(idx == n - 1);
        } else {
            assert(forall|k: int|
                0 <= k < entries.drop_last().len() ==> (#[trigger] entries.drop_last()[k]).1
                    == Tag::Int(k as i32));
            lemma_last_match_indexed(entries.drop_last(), idx);
            if 0 <= idx < n - 1 {
                assert(entries.drop_last()[idx as int] == entries[idx as int]);
            }
        }
    }
}

/// The grid holds each block's palette index at that block's cell.
proof fn lemma_grid_hit(blocks: Seq<(Vector3, u16)>, i: int, mn: Vector3, w: int, l: int,
    total: nat, pal: Seq<u16>, k: int)
    requires
        0 <= k < i <= blocks.len(),
        forall|a: int|
            0 <= a < blocks.len() ==> 0 <= spec_cell_of((#[trigger] blocks[a]).0, mn, w, l)
                < total,
        forall|a: int, b: int|
            0 <= a < b < blocks.len() ==> spec_cell_of(blocks[a].0, mn, w, l) != spec_cell_of(
                blocks[b].0, mn, w, l),
    ensures
        spec_grid_upto(blocks, i, mn, w, l, total, pal)[spec_cell_of(blocks[k].0, mn, w, l)]
            == spec_index_of(pal, blocks[k].1) as i32,
    decreases i,
{
    lemma_grid_len(blocks, i - 1, mn, w, l, total, pal);
    if k == i - 1 {
    } else {
        lemma_grid_hit(blocks, i - 1, mn, w, l, total, pal, k);
        assert(spec_cell_of(blocks[i - 1].0, mn, w, l) != spec_cell_of(blocks[k].0, mn, w, l));
    }
}

/// A cell no block encodes into keeps its zero.
proof fn lemma_grid_miss(blocks: Seq<(Vector3, u16)>, i: int, mn: Vector3, w: int, l: int,
    total: nat, pal: Seq<u16>, c: int)
    requires
        0 <= c < total,
        i <= blocks.len(),
        forall|a: int|
            0 <= a < i ==> 0 <= spec_cell_of((#[trigger] blocks[a]).0, mn, w, l) < total,
        forall|a: int| 0 <= a < i ==> spec_cell_of((#[trigger] blocks[a]).0, mn, w, l) != c,
    ensures
        spec_grid_upto(blocks, i, mn, w, l, total, pal)[c] == 0,
    decreases i,
{
    if i > 0 {
        lemma_grid_miss(blocks, i - 1, mn, w, l, total, pal, c);
        lemma_grid_len(blocks, i - 1, mn, w, l, total, pal);
    }
}

/// Membership in the decoded block list: exactly the non-air resolutions
/// of the first `i` cells, at their decoded positions.
proof fn lemma_cells_membership(reg: BlockRegistry, pal: Seq<(String, Tag)>, vals: Seq<i32>,
    w: int, l: int, off: Vector3, air: u16, i: int, q: Vector3, s: u16)
    requires
        0 <= i,
    ensures
        spec_sponge_cells(reg, pal, vals, w, l, off, air, i).contains((q, s)) <==> exists|c: int|
            0 <= c < i && #[trigger] spec_resolved_id(reg, pal, vals[c], air) == s && s != air
                && spec_sponge_pos(c, w, l, off) == q,
    decreases i,
{
    let cells = spec_sponge_cells(reg, pal, vals, w, l, off, air, i);
    if i == 0 {
        assert(!cells.contains((q, s))) by {
            assert(cells.len() == 0);
        }
    } else {
        lemma_cells_membership(reg, pal, vals, w, l, off, air, i - 1, q, s);
        let prev = spec_sponge_cells(reg, pal, vals, w, l, off, air, i - 1);
        let id = spec_resolved_id(reg, pal, vals[i - 1], air);
        if id == air {
            assert(cells == prev);
            assert(forall|c: int|
                0 <= c < i && #[trigger] spec_resolved_id(reg, pal, vals[c], air) == s && s
                    != air && spec_sponge_pos(c, w, l, off) == q ==> c < i - 1);
        } else {
            let elem = (spec_sponge_pos(i - 1, w, l, off), id);
            assert(cells == prev.push(elem));
            if cells.contains((q, s)) {
                let j = choose|j: int| 0 <= j < cells.len() && cells[j] == (q, s);
                if j < prev.len() {
                    assert(prev[j] == (q, s));
                    assert(prev.contains((q, s)));
                } else {
                    assert((q, s) == elem);
                    assert(spec_resolved_id(reg, pal, vals[i - 1], air) == s && s != air
                        && spec_sponge_pos(i - 1, w, l, off) == q);
                }
            }
            if exists|c: int|
                0 <= c < i && #[trigger] spec_resolved_id(reg, pal, vals[c], air) == s && s
                    != air && spec_sponge_pos(c, w, l, off) == q {
                let c = choose|c: int|
                    0 <= c < i && #[trigger] spec_resolved_id(reg, pal, vals[c], air) == s && s
                        != air && spec_sponge_pos(c, w, l, off) == q;
                if c == i - 1 {
                    assert(cells[cells.len() - 1] == elem);
                    assert(cells.contains((q, s)));
                } else {
                    assert(prev.contains((q, s)));
                    let j = choose|j: int| 0 <= j < prev.len() && prev[j] == (q, s);
                    assert(cells[j] == (q, s));
                    assert(cells.contains((q, s)));
                }
            }
        }
    }
}

/// Round-trip law: a block list encoded into the single-region layout
/// decodes back to the same set of (position, state id) pairs, with the
/// bounding box as the dimensions and its minimum corner as the offset.
/// The hypotheses ask for a consistent registry (every listed id's
/// canonical text resolves back to it, and the air name resolves to the
/// air id), a non-empty list with no air entries, one entry per position,
/// and a bounding box that fits the 16-bit dimension fields.
pub proof fn lemma_save_load_round_trip(reg: BlockRegistry, blocks: Seq<(Vector3, u16)>,
    root: Compound)
    requires
        blocks.len() > 0,
        spec_saved_root_ok(reg, root, blocks),
        ({
            let bounds = spec_bounds_upto(blocks, blocks.len() as int);
            &&& bounds.1.x - bounds.0.x + 1 <= 0xffff
            &&& bounds.1.y - bounds.0.y + 1 <= 0xffff
            &&& bounds.1.z - bounds.0.z + 1 <= 0xffff
        }),
        forall|k: int| 0 <= k < blocks.len() ==> (#[trigger] blocks[k]).1 != reg.air_state,
        forall|k: int|
            0 <= k < blocks.len() ==> spec_resolves_built(reg, (#[trigger] blocks[k]).1),
        spec_resolve_block_state(reg, "minecraft:air"@) == Some(reg.air_state),
        forall|a: int, b: int|
            0 <= a < b < blocks.len() ==> (#[trigger] blocks[a]).0 != (#[trigger] blocks[b]).0,
    ensures
        !spec_is_multi_region(root),
        spec_load_sponge(reg, root) matches Ok(t) && {
            let bounds = spec_bounds_upto(blocks, blocks.len() as int);
            &&& t.0 == (bounds.1.x - bounds.0.x + 1) as u16
            &&& t.1 == (bounds.1.y - bounds.0.y + 1) as u16
            &&& t.2 == (bounds.1.z - bounds.0.z + 1) as u16
            &&& t.3 == bounds.0
            &&& forall|e: (Vector3, u16)|
                #![trigger t.4.contains(e)]
                #![trigger blocks.contains(e)]
                t.4.contains(e) <==> blocks.contains(e)
        },
{
    let n = blocks.len() as int;
    let bounds = spec_bounds_upto(blocks, n);
    let mn = bounds.0;
    let mx = bounds.1;
    let w = (mx.x - mn.x + 1) as u16;
    let h = (mx.y - mn.y + 1) as u16;
    let l = (mx.z - mn.z + 1) as u16;
    let wi = w as int;
    let hi = h as int;
    let li = l as int;
    let air = reg.air_state;
    let pal = spec_palette_upto(blocks, air, n);
    let total = (w as nat) * (h as nat) * (l as nat);
    let grid = spec_grid_upto(blocks, n, mn, wi, li, total, pal);

    let sc = root.spec_get("Schematic"@)->Some_0->Compound_0;
    let bc = sc.spec_get("Blocks"@)->Some_0->Compound_0;
    let pc = bc.spec_get("Palette"@)->Some_0->Compound_0;
    let entries = pc.entries@;
    let d = bc.spec_get("Data"@)->Some_0->ByteArray_0;

    // The saved layout steers the decoder: version 3, fields inside the
    // wrapper.
    assert(spec_version_and_root(root) == (3int, sc));
    lemma_u16_i16_round(w);
    lemma_u16_i16_round(h);
    lemma_u16_i16_round(l);
    assert(spec_offset_of(sc) == mn);
    assert(spec_palette_and_data(sc, 3) == Ok::<_, SchemError>((pc, d@)));

    // Every block sits in the box; cells are in range and invertible.
    assert forall|k: int| 0 <= k < n implies {
        &&& mn.x <= (#[trigger] blocks[k]).0.x <= mx.x
        &&& mn.y <= blocks[k].0.y <= mx.y
        &&& mn.z <= blocks[k].0.z <= mx.z
    } by {
        lemma_bounds_contain(blocks, n, k);
    }
    assert(total == wi * hi * li) by (nonlinear_arith)
        requires
            total == (w as nat) * (h as nat) * (l as nat),
            wi == w as int,
            hi == h as int,
            li == l as int,
    ;
    assert forall|k: int| 0 <= k < n implies {
        &&& 0 <= spec_cell_of((#[trigger] blocks[k]).0, mn, wi, li) < total
        &&& spec_sponge_pos(spec_cell_of(blocks[k].0, mn, wi, li), wi, li, mn) == blocks[k].0
    } by {
        lemma_pos_cell_inverse(blocks[k].0, mn, wi, li, hi);
    }
    assert forall|a: int, b: int| 0 <= a < b < n implies spec_cell_of(
        (#[trigger] blocks[a]).0, mn, wi, li) != spec_cell_of((#[trigger] blocks[b]).0, mn, wi,
        li) by {
        if spec_cell_of(blocks[a].0, mn, wi, li) == spec_cell_of(blocks[b].0, mn, wi, li) {
            assert(blocks[a].0 == blocks[b].0);
        }
    }

    // The byte payload decodes back to the grid.
    lemma_grid_len(blocks, n, mn, wi, li, total, pal);
    crate::varint::lemma_varint_round_trip(grid);

    // Palette shape.
    lemma_palette_no_duplicates(blocks, air, n);
    lemma_distinct_u16_len(pal);
    assert(entries.len() == pal.len());

    let cells = spec_sponge_cells(reg, entries, grid, wi, li, mn, air, total as int);
    assert(mn.x + wi - 1 == mx.x && mn.y + hi - 1 == mx.y && mn.z + li - 1 == mx.z);
    assert(total > 0) by (nonlinear_arith)
        requires
            total == wi * hi * li,
            wi >= 1,
            hi >= 1,
            li >= 1,
    ;
    assert(spec_load_sponge(reg, root) == Ok::<SpecDecoded, SchemError>((w, h, l, mn, cells)));

    // Forward inclusion: every listed block comes back.
    assert forall|e: (Vector3, u16)| blocks.contains(e) implies cells.contains(e) by {
        let k = choose|k: int| 0 <= k < n && blocks[k] == e;
        let c = spec_cell_of(blocks[k].0, mn, wi, li);
        let id = blocks[k].1;
        lemma_grid_hit(blocks, n, mn, wi, li, total, pal, k);
        lemma_palette_contains_block(blocks, air, n, k);
        lemma_index_of_contained(pal, id);
        let j = spec_index_of(pal, id);
        assert(j != 0) by {
            assert(pal[0] == air && pal[j] == id && id != air);
        }
        lemma_last_match_indexed(entries, j as i32);
        assert(spec_palette_last_match(entries, j as i32) == Some(entries[j].0@));
        assert(Some(entries[j].0@) == spec_build_block_state(reg, pal[j]));
        assert(spec_resolves_built(reg, id));
        assert(spec_resolved_id(reg, entries, grid[c], air) == id);
        lemma_cells_membership(reg, entries, grid, wi, li, mn, air, total as int, blocks[k].0,
            id);
        assert(spec_resolved_id(reg, entries, grid[c], air) == id && id != air
            && spec_sponge_pos(c, wi, li, mn) == blocks[k].0);
    }

    // Backward inclusion: everything decoded was listed.
    assert forall|e: (Vector3, u16)| cells.contains(e) implies blocks.contains(e) by {
        lemma_cells_membership(reg, entries, grid, wi, li, mn, air, total as int, e.0, e.1);
        let c = choose|c: int|
            0 <= c < total as int && #[trigger] spec_resolved_id(reg, entries, grid[c], air)
                == e.1 && e.1 != air && spec_sponge_pos(c, wi, li, mn) == e.0;
        if exists|k: int| 0 <= k < n && spec_cell_of((#[trigger] blocks[k]).0, mn, wi, li) == c {
            let k = choose|k: int|
                0 <= k < n && spec_cell_of((#[trigger] blocks[k]).0, mn, wi, li) == c;
            let id = blocks[k].1;
            lemma_grid_hit(blocks, n, mn, wi, li, total, pal, k);
            lemma_palette_contains_block(blocks, air, n, k);
            lemma_index_of_contained(pal, id);
            let j = spec_index_of(pal, id);
            assert(j != 0) by {
                assert(pal[0] == air && pal[j] == id && id != air);
            }
            lemma_last_match_indexed(entries, j as i32);
            assert(Some(entries[j].0@) == spec_build_block_state(reg, pal[j]));
            assert(spec_resolves_built(reg, id));
            assert(spec_resolved_id(reg, entries, grid[c], air) == id);
            assert(e.1 == id);
            assert(e.0 == spec_sponge_pos(c, wi, li, mn) && spec_sponge_pos(spec_cell_of(
                blocks[k].0, mn, wi, li), wi, li, mn) == blocks[k].0);
            assert(e == blocks[k]);
        } else {
            lemma_grid_miss(blocks, n, mn, wi, li, total, pal, c);
            assert(grid[c] == 0);
            assert(pal.len() >= 1);
            lemma_last_match_indexed(entries, 0);
            assert(spec_palette_last_match(entries, 0) == Some(entries[0].0@));
            assert(entries[0].0@ == "minecraft:air"@);
            assert(spec_resolved_id(reg, entries, 0i32, air) == air);
            assert(false);
        }
    }
}

} // verus!
