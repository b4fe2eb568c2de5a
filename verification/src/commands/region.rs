//! Region commands: fill, replace, walls, clear, hollow. Each plan lists
//! the writes to perform and the undo entries to keep, from the selection
//! box and the blocks currently in it.

use vstd::prelude::*;

use crate::commands::{cell_pos, spec_box_volume, spec_box_wf, spec_cell_pos};
use crate::state::MAX_BLOCKS;
use crate::vector::Vector3;

verus! {

/// `//set <block>`: fill the whole selection with one block state.
pub struct SetExecutor;

/// `//replace <from> <to>`: swap one block kind for another.
pub struct ReplaceExecutor;

/// `//walls <block>`: build the four vertical walls of the selection.
pub struct WallsExecutor;

/// `//clear`: replace every non-air block of the selection with air.
pub struct ClearExecutor;

/// `//hollow`: carve out the interior, keeping the shell.
pub struct HollowExecutor;

/// Whether cell `r` lies on a vertical wall of the box.
pub open spec fn spec_is_wall(min: Vector3, max: Vector3, r: int) -> bool {
    let p = spec_cell_pos(min, max, r);
    p.x == min.x || p.x == max.x || p.z == min.z || p.z == max.z
}

/// Whether cell `r` lies strictly inside the box.
pub open spec fn spec_is_interior(min: Vector3, max: Vector3, r: int) -> bool {
    let p = spec_cell_pos(min, max, r);
    min.x < p.x && p.x < max.x && min.y < p.y && p.y < max.y && min.z < p.z && p.z < max.z
}

/// The replace plan over the first `i` cells: a write and an undo entry
/// for each cell whose current block kind is `from`.
pub open spec fn spec_replace_plan(min: Vector3, max: Vector3, cur: Seq<u16>, old: Seq<u16>,
    from: u16, to: u16, i: int) -> (Seq<(Vector3, u16)>, Seq<(Vector3, u16)>)
    decreases i,
{
    if i <= 0 {
        (Seq::empty(), Seq::empty())
    } else {
        let prev = spec_replace_plan(min, max, cur, old, from, to, i - 1);
        if cur[i - 1] == from {
            let p = spec_cell_pos(min, max, i - 1);
            (prev.0.push((p, to)), prev.1.push((p, old[i - 1])))
        } else {
            prev
        }
    }
}

/// The walls plan over the first `i` cells.
pub open spec fn spec_walls_plan(min: Vector3, max: Vector3, old: Seq<u16>, to: u16, i: int) -> (
    Seq<(Vector3, u16)>, Seq<(Vector3, u16)>)
    decreases i,
{
    if i <= 0 {
        (Seq::empty(), Seq::empty())
    } else {
        let prev = spec_walls_plan(min, max, old, to, i - 1);
        if spec_is_wall(min, max, i - 1) {
            let p = spec_cell_pos(min, max, i - 1);
            (prev.0.push((p, to)), prev.1.push((p, old[i - 1])))
        } else {
            prev
        }
    }
}

/// The clear plan over the first `i` cells: air for every non-air cell.
pub open spec fn spec_clear_plan(min: Vector3, max: Vector3, old: Seq<u16>, air: u16, i:
    int) -> (Seq<(Vector3, u16)>, Seq<(Vector3, u16)>)
    decreases i,
{
    if i <= 0 {
        (Seq::empty(), Seq::empty())
    } else {
        let prev = spec_clear_plan(min, max, old, air, i - 1);
        if old[i - 1] != air {
            let p = spec_cell_pos(min, max, i - 1);
            (prev.0.push((p, air)), prev.1.push((p, old[i - 1])))
        } else {
            prev
        }
    }
}

/// The hollow plan over the first `i` cells: air for every non-air
/// interior cell.
pub open spec fn spec_hollow_plan(min: Vector3, max: Vector3, old: Seq<u16>, air: u16, i:
    int) -> (Seq<(Vector3, u16)>, Seq<(Vector3, u16)>)
    decreases i,
{
    if i <= 0 {
        (Seq::empty(), Seq::empty())
    } else {
        let prev = spec_hollow_plan(min, max, old, air, i - 1);
        if spec_is_interior(min, max, i - 1) && old[i - 1] != air {
            let p = spec_cell_pos(min, max, i - 1);
            (prev.0.push((p, air)), prev.1.push((p, old[i - 1])))
        } else {
            prev
        }
    }
}

impl SetExecutor {
    /// Write `state_id` to every cell; the undo keeps every cell's old
    /// state.
    pub fn plan(min: Vector3, max: Vector3, state_id: u16, old: &Vec<u16>) -> (r: (Vec<(Vector3,
        u16)>, Vec<(Vector3, u16)>))
        requires
            spec_box_wf(min, max),
            spec_box_volume(min, max) <= MAX_BLOCKS,
            old@.len() == spec_box_volume(min, max),
        ensures
            r.0@.len() == spec_box_volume(min, max),
            r.1@.len() == spec_box_volume(min, max),
            forall|k: int|
                0 <= k < r.0@.len() ==> r.0@[k] == (spec_cell_pos(min, max, k), state_id),
            forall|k: int|
                0 <= k < r.1@.len() ==> r.1@[k] == (spec_cell_pos(min, max, k), old@[k]),
    {
        let total = old.len();
        let mut writes: Vec<(Vector3, u16)> = Vec::new();
        let mut undo: Vec<(Vector3, u16)> = Vec::new();
        let mut r: usize = 0;
        while r < total
            invariant
                r <= total == old@.len(),
                spec_box_wf(min, max),
                total == spec_box_volume(min, max),
                total <= MAX_BLOCKS,
                writes@.len() == r,
                undo@.len() == r,
                forall|k: int|
                    0 <= k < r ==> writes@[k] == (spec_cell_pos(min, max, k), state_id),
                forall|k: int| 0 <= k < r ==> undo@[k] == (spec_cell_pos(min, max, k), old@[k]),
            decreases total - r,
        {
            let p = cell_pos(min, max, r as u64);
            writes.push((p, state_id));
            undo.push((p, old[r]));
            r = r + 1;
        }
        (writes, undo)
    }
}

impl ReplaceExecutor {
    /// Write `to_state` to every cell whose current block kind is
    /// `from_id`; the undo keeps those cells' old states.
    pub fn plan(min: Vector3, max: Vector3, cur: &Vec<u16>, old: &Vec<u16>, from_id: u16,
        to_state: u16) -> (r: (Vec<(Vector3, u16)>, Vec<(Vector3, u16)>))
        requires
            spec_box_wf(min, max),
            spec_box_volume(min, max) <= MAX_BLOCKS,
            cur@.len() == spec_box_volume(min, max),
            old@.len() == spec_box_volume(min, max),
        ensures
            (r.0@, r.1@) == spec_replace_plan(min, max, cur@, old@, from_id, to_state,
                spec_box_volume(min, max)),
    {
        let total = old.len();
        let mut writes: Vec<(Vector3, u16)> = Vec::new();
        let mut undo: Vec<(Vector3, u16)> = Vec::new();
        let mut r: usize = 0;
        while r < total
            invariant
                r <= total == old@.len(),
                cur@.len() == total,
                spec_box_wf(min, max),
                total == spec_box_volume(min, max),
                total <= MAX_BLOCKS,
                (writes@, undo@) == spec_replace_plan(min, max, cur@, old@, from_id, to_state,
                    r as int),
            decreases total - r,
        {
            if cur[r] == from_id {
                let p = cell_pos(min, max, r as u64);
                writes.push((p, to_state));
                undo.push((p, old[r]));
            }
            r = r + 1;
        }
        (writes, undo)
    }
}

impl WallsExecutor {
    /// Write `state_id` to every wall cell; the undo keeps those cells'
    /// old states.
    pub fn plan(min: Vector3, max: Vector3, state_id: u16, old: &Vec<u16>) -> (r: (Vec<(Vector3,
        u16)>, Vec<(Vector3, u16)>))
        requires
            spec_box_wf(min, max),
            spec_box_volume(min, max) <= MAX_BLOCKS,
            old@.len() == spec_box_volume(min, max),
        ensures
            (r.0@, r.1@) == spec_walls_plan(min, max, old@, state_id, spec_box_volume(min, max)),
    {
        let total = old.len();
        let mut writes: Vec<(Vector3, u16)> = Vec::new();
        let mut undo: Vec<(Vector3, u16)> = Vec::new();
        let mut r: usize = 0;
        while r < total
            invariant
                r <= total == old@.len(),
                spec_box_wf(min, max),
                total == spec_box_volume(min, max),
                total <= MAX_BLOCKS,
                (writes@, undo@) == spec_walls_plan(min, max, old@, state_id, r as int),
            decreases total - r,
        {
            let p = cell_pos(min, max, r as u64);
            let is_wall = p.x == min.x || p.x == max.x || p.z == min.z || p.z == max.z;
            if is_wall {
                writes.push((p, state_id));
                undo.push((p, old[r]));
            }
            r = r + 1;
        }
        (writes, undo)
    }
}

impl ClearExecutor {
    /// Write air to every non-air cell; the undo keeps those cells' old
    /// states.
    pub fn plan(min: Vector3, max: Vector3, air: u16, old: &Vec<u16>) -> (r: (Vec<(Vector3,
        u16)>, Vec<(Vector3, u16)>))
        requires
            spec_box_wf(min, max),
            spec_box_volume(min, max) <= MAX_BLOCKS,
            old@.len() == spec_box_volume(min, max),
        ensures
            (r.0@, r.1@) == spec_clear_plan(min, max, old@, air, spec_box_volume(min, max)),
    {
        let total = old.len();
        let mut writes: Vec<(Vector3, u16)> = Vec::new();
        let mut undo: Vec<(Vector3, u16)> = Vec::new();
        let mut r: usize = 0;
        while r < total
            invariant
                r <= total == old@.len(),
                spec_box_wf(min, max),
                total == spec_box_volume(min, max),
                total <= MAX_BLOCKS,
                (writes@, undo@) == spec_clear_plan(min, max, old@, air, r as int),
            decreases total - r,
        {
            if old[r] != air {
                let p = cell_pos(min, max, r as u64);
                writes.push((p, air));
                undo.push((p, old[r]));
            }
            r = r + 1;
        }
        (writes, undo)
    }
}

impl HollowExecutor {
    /// Write air to every non-air interior cell; the undo keeps those
    /// cells' old states.
    pub fn plan(min: Vector3, max: Vector3, air: u16, old: &Vec<u16>) -> (r: (Vec<(Vector3,
        u16)>, Vec<(Vector3, u16)>))
        requires
            spec_box_wf(min, max),
            spec_box_volume(min, max) <= MAX_BLOCKS,
            old@.len() == spec_box_volume(min, max),
        ensures
            (r.0@, r.1@) == spec_hollow_plan(min, max, old@, air, spec_box_volume(min, max)),
    {
        let total = old.len();
        let mut writes: Vec<(Vector3, u16)> = Vec::new();
        let mut undo: Vec<(Vector3, u16)> = Vec::new();
        let mut r: usize = 0;
        while r < total
            invariant
                r <= total == old@.len(),
                spec_box_wf(min, max),
                total == spec_box_volume(min, max),
                total <= MAX_BLOCKS,
                (writes@, undo@) == spec_hollow_plan(min, max, old@, air, r as int),
            decreases total - r,
        {
            let p = cell_pos(min, max, r as u64);
            let interior = min.x < p.x && p.x < max.x && min.y < p.y && p.y < max.y && min.z
                < p.z && p.z < max.z;
            if interior && old[r] != air {
                writes.push((p, air));
                undo.push((p, old[r]));
            }
            r = r + 1;
        }
        (writes, undo)
    }
}

} // verus!
