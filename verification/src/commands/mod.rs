//! The editing commands' decision logic. Each executor computes, from
//! plain values (the selection box, the blocks currently there, the
//! clipboard), exactly which positions to write and what the undo buffer
//! receives; the surrounding glue performs the world reads and writes.

use vstd::prelude::*;

use crate::vector::Vector3;

pub mod clipboard;
pub mod history;
pub mod region;
pub mod schematic;
pub mod selection;

verus! {

/// The number of cells in the box `[min, max]`.
pub open spec fn spec_box_volume(min: Vector3, max: Vector3) -> int {
    (max.x - min.x + 1) * (max.y - min.y + 1) * (max.z - min.z + 1)
}

/// A normalized, non-empty selection box.
pub open spec fn spec_box_wf(min: Vector3, max: Vector3) -> bool {
    min.x <= max.x && min.y <= max.y && min.z <= max.z
}

/// The position of cell `r` of the box, enumerated x-outermost, then y,
/// then z innermost.
pub open spec fn spec_cell_pos(min: Vector3, max: Vector3, r: int) -> Vector3 {
    let dy = max.y - min.y + 1;
    let dz = max.z - min.z + 1;
    Vector3 {
        x: (min.x + r / (dy * dz)) as i32,
        y: (min.y + (r / dz) % dy) as i32,
        z: (min.z + r % dz) as i32,
    }
}

/// The position of cell `r`, computed with machine arithmetic.
pub fn cell_pos(min: Vector3, max: Vector3, r: u64) -> (p: Vector3)
    requires
        spec_box_wf(min, max),
        r < spec_box_volume(min, max),
        spec_box_volume(min, max) <= 0x4000_0000_0000,
    ensures
        p == spec_cell_pos(min, max, r as int),
{
    let dx: u64 = ((max.x as i64) - (min.x as i64) + 1) as u64;
    let dy: u64 = ((max.y as i64) - (min.y as i64) + 1) as u64;
    let dz: u64 = ((max.z as i64) - (min.z as i64) + 1) as u64;
    proof {
        assert(dx * dy * dz == spec_box_volume(min, max) && dy * dz <= 0x4000_0000_0000 && dy
            * dz >= 1) by (nonlinear_arith)
            requires
                dx == max.x - min.x + 1,
                dy == max.y - min.y + 1,
                dz == max.z - min.z + 1,
                1 <= dx,
                1 <= dy,
                1 <= dz,
                spec_box_volume(min, max) == (max.x - min.x + 1) * (max.y - min.y + 1) * (max.z
                    - min.z + 1),
                spec_box_volume(min, max) <= 0x4000_0000_0000,
        ;
        vstd::arithmetic::div_mod::lemma_fundamental_div_mod(r as int, (dy * dz) as int);
        vstd::arithmetic::div_mod::lemma_fundamental_div_mod(r as int, dz as int);
        vstd::arithmetic::div_mod::lemma_fundamental_div_mod((r as int) / (dz as int),
            dy as int);
        assert((r as int) / ((dy * dz) as int) < dx as int && ((r as int) / (dz as int)) % (
        dy as int) < dy as int && (r as int) % (dz as int) < dz as int) by (nonlinear_arith)
            requires
                r < dx * dy * dz,
                1 <= dx,
                1 <= dy,
                1 <= dz,
                r as int == ((dy * dz) as int) * ((r as int) / ((dy * dz) as int)) + (r as int)
                    % ((dy * dz) as int),
                0 <= (r as int) % ((dy * dz) as int),
                (r as int) % ((dy * dz) as int) < (dy * dz) as int,
                0 <= ((r as int) / (dz as int)) % (dy as int),
                ((r as int) / (dz as int)) % (dy as int) < dy as int,
                0 <= (r as int) % (dz as int),
                (r as int) % (dz as int) < dz as int,
        ;
    }
    let qx: u64 = r / (dy * dz);
    let qy: u64 = (r / dz) % dy;
    let qz: u64 = r % dz;
    Vector3 {
        x: ((min.x as i64) + (qx as i64)) as i32,
        y: ((min.y as i64) + (qy as i64)) as i32,
        z: ((min.z as i64) + (qz as i64)) as i32,
    }
}

} // verus!
