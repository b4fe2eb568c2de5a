//! Per-player editing state: the two selection corners, the clipboard,
//! and the undo buffer, together with the selection arithmetic. The
//! surrounding glue keeps one `PlayerState` per player id behind its own
//! lock; this module only defines the values and the pure rules on them.

use vstd::prelude::*;

use crate::vector::Vector3;

verus! {

/// Maximum number of blocks one operation may touch.
pub const MAX_BLOCKS: i64 = 100_000;

/// Blocks stored in the clipboard as (offset from the player position,
/// block state id).
pub struct ClipboardData {
    pub blocks: Vec<(Vector3, u16)>,
}

/// One player's selection corners, clipboard, and undo buffer.
pub struct PlayerState {
    pub pos1: Option<Vector3>,
    pub pos2: Option<Vector3>,
    pub clipboard: Option<ClipboardData>,
    pub undo_data: Option<Vec<(Vector3, u16)>>,
}

impl Default for PlayerState {
    fn default() -> (s: PlayerState)
        ensures
            s.pos1 is None,
            s.pos2 is None,
            s.clipboard is None,
            s.undo_data is None,
    {
        PlayerState { pos1: None, pos2: None, clipboard: None, undo_data: None }
    }
}

/// Componentwise minimum.
pub open spec fn spec_min3(a: Vector3, b: Vector3) -> Vector3 {
    Vector3 {
        x: if a.x <= b.x { a.x } else { b.x },
        y: if a.y <= b.y { a.y } else { b.y },
        z: if a.z <= b.z { a.z } else { b.z },
    }
}

/// Componentwise maximum.
pub open spec fn spec_max3(a: Vector3, b: Vector3) -> Vector3 {
    Vector3 {
        x: if a.x >= b.x { a.x } else { b.x },
        y: if a.y >= b.y { a.y } else { b.y },
        z: if a.z >= b.z { a.z } else { b.z },
    }
}

pub fn min3(a: Vector3, b: Vector3) -> (r: Vector3)
    ensures
        r == spec_min3(a, b),
{
    Vector3 {
        x: if a.x <= b.x { a.x } else { b.x },
        y: if a.y <= b.y { a.y } else { b.y },
        z: if a.z <= b.z { a.z } else { b.z },
    }
}

pub fn max3(a: Vector3, b: Vector3) -> (r: Vector3)
    ensures
        r == spec_max3(a, b),
{
    Vector3 {
        x: if a.x >= b.x { a.x } else { b.x },
        y: if a.y >= b.y { a.y } else { b.y },
        z: if a.z >= b.z { a.z } else { b.z },
    }
}

impl PlayerState {
    /// The normalized selection: the componentwise minimum and maximum of
    /// the two corners, or `None` while either corner is unset.
    pub fn get_selection(&self) -> (r: Option<(Vector3, Vector3)>)
        ensures
            match r {
                Some(p) => {
                    &&& self.pos1 matches Some(p1) && self.pos2 matches Some(p2) && p == (
                        spec_min3(p1, p2),
                        spec_max3(p1, p2),
                    )
                },
                None => self.pos1 is None || self.pos2 is None,
            },
    {
        match (&self.pos1, &self.pos2) {
            (Some(p1), Some(p2)) => Some((min3(*p1, *p2), max3(*p1, *p2))),
            _ => None,
        }
    }

    /// Move the undo buffer out, leaving none behind.
    pub fn take_undo(&mut self) -> (r: Option<Vec<(Vector3, u16)>>)
        ensures
            final(self).undo_data is None,
            r == old(self).undo_data,
            final(self).pos1 == old(self).pos1,
            final(self).pos2 == old(self).pos2,
            final(self).clipboard == old(self).clipboard,
    {
        self.undo_data.take()
    }
}

/// The number of cells in the box `[min, max]`, as a mathematical integer.
pub open spec fn spec_volume(min: Vector3, max: Vector3) -> int {
    (max.x - min.x + 1) * (max.y - min.y + 1) * (max.z - min.z + 1)
}

/// The volume of a selection. The caller keeps the corners normalized and
/// small enough that the product fits the result type.
pub fn selection_volume(min: &Vector3, max: &Vector3) -> (r: i64)
    requires
        min.x <= max.x,
        min.y <= max.y,
        min.z <= max.z,
        spec_volume(*min, *max) <= i64::MAX,
    ensures
        r == spec_volume(*min, *max),
{
    let dx = (max.x as i64) - (min.x as i64) + 1;
    let dy = (max.y as i64) - (min.y as i64) + 1;
    let dz = (max.z as i64) - (min.z as i64) + 1;
    proof {
        assert(dx * dy * dz == spec_volume(*min, *max) && dx * dy <= i64::MAX && dx * dy >= 0)
            by (nonlinear_arith)
            requires
                dx == max.x - min.x + 1,
                dy == max.y - min.y + 1,
                dz == max.z - min.z + 1,
                dx >= 1,
                dy >= 1,
                dz >= 1,
                dx * dy * dz == spec_volume(*min, *max),
                spec_volume(*min, *max) <= i64::MAX,
        ;
    }
    dx * dy * dz
}

/// Whether the selection stays within the block limit.
pub fn check_selection_size(min: &Vector3, max: &Vector3) -> (r: bool)
    requires
        min.x <= max.x,
        min.y <= max.y,
        min.z <= max.z,
    ensures
        r == (spec_volume(*min, *max) <= MAX_BLOCKS),
{
    let dx = (max.x as i128) - (min.x as i128) + 1;
    let dy = (max.y as i128) - (min.y as i128) + 1;
    let dz = (max.z as i128) - (min.z as i128) + 1;
    proof {
        assert(dx * dy * dz == spec_volume(*min, *max) && dx * dy < 0x1_0000_0000_0000_0000_0000i128
            && dx * dy * dz < 0x1_0000_0000_0000_0000_0000_0000_0000i128 && dx * dy >= 1 && dx * dy
            * dz >= 1) by (nonlinear_arith)
            requires
                dx == max.x - min.x + 1,
                dy == max.y - min.y + 1,
                dz == max.z - min.z + 1,
                1 <= dx <= 0x1_0000_0000,
                1 <= dy <= 0x1_0000_0000,
                1 <= dz <= 0x1_0000_0000,
                dx * dy * dz == spec_volume(*min, *max),
        ;
    }
    let v = dx * dy * dz;
    v <= MAX_BLOCKS as i128
}

} // verus!
