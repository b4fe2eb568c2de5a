//! Selection commands: set the two corners and report the selection's
//! dimensions and volume.

use vstd::prelude::*;

use crate::state::{spec_max3, spec_min3, spec_volume, PlayerState};
use crate::vector::Vector3;

verus! {

/// `//pos1`: set the first selection corner.
pub struct Pos1Executor;

/// `//pos2`: set the second selection corner.
pub struct Pos2Executor;

/// `//size`: report the selection's dimensions and volume.
pub struct SizeExecutor;

impl Pos1Executor {
    pub fn plan(state: &mut PlayerState, block_pos: Vector3)
        ensures
            final(state).pos1 == Some(block_pos),
            final(state).pos2 == old(state).pos2,
            final(state).clipboard == old(state).clipboard,
            final(state).undo_data == old(state).undo_data,
    {
        state.pos1 = Some(block_pos);
    }
}

impl Pos2Executor {
    pub fn plan(state: &mut PlayerState, block_pos: Vector3)
        ensures
            final(state).pos2 == Some(block_pos),
            final(state).pos1 == old(state).pos1,
            final(state).clipboard == old(state).clipboard,
            final(state).undo_data == old(state).undo_data,
    {
        state.pos2 = Some(block_pos);
    }
}

impl SizeExecutor {
    /// The selection's extent on each axis and its volume, or `None`
    /// while either corner is unset.
    pub fn plan(state: &PlayerState) -> (r: Option<(i64, i64, i64, i128)>)
        ensures
            match r {
                Some(t) => {
                    &&& state.pos1 matches Some(p1) && state.pos2 matches Some(p2) && {
                        let mn = spec_min3(p1, p2);
                        let mx = spec_max3(p1, p2);
                        &&& t.0 == mx.x - mn.x + 1
                        &&& t.1 == mx.y - mn.y + 1
                        &&& t.2 == mx.z - mn.z + 1
                        &&& t.3 == spec_volume(mn, mx)
                    }
                },
                None => state.pos1 is None || state.pos2 is None,
            },
    {
        match state.get_selection() {
            None => None,
            Some((mn, mx)) => {
                let dx: i64 = (mx.x as i64) - (mn.x as i64) + 1;
                let dy: i64 = (mx.y as i64) - (mn.y as i64) + 1;
                let dz: i64 = (mx.z as i64) - (mn.z as i64) + 1;
                proof {
                    assert((dx as int) * (dy as int) * (dz as int) == spec_volume(mn, mx) && (
                    dx as int) * (dy as int) <= 0x1_0000_0000_0000_0000 && 1 <= (dx as int) * (
                    dy as int) * (dz as int) <= 0x1_0000_0000_0000_0000_0000_0000)
                        by (nonlinear_arith)
                        requires
                            dx == mx.x - mn.x + 1,
                            dy == mx.y - mn.y + 1,
                            dz == mx.z - mn.z + 1,
                            1 <= dx <= 0x1_0000_0000,
                            1 <= dy <= 0x1_0000_0000,
                            1 <= dz <= 0x1_0000_0000,
                            spec_volume(mn, mx) == (mx.x - mn.x + 1) * (mx.y - mn.y + 1) * (
                            mx.z - mn.z + 1),
                    ;
                }
                let volume: i128 = (dx as i128) * (dy as i128) * (dz as i128);
                Some((dx, dy, dz, volume))
            },
        }
    }
}

} // verus!
