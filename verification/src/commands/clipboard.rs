//! Clipboard commands: copy the selection relative to the player, and
//! paste the clipboard back at the player's position.

use vstd::prelude::*;

use crate::commands::{cell_pos, spec_box_volume, spec_box_wf, spec_cell_pos};
use crate::state::{ClipboardData, MAX_BLOCKS};
use crate::vector::Vector3;

verus! {

/// `//copy`: capture the selection into the clipboard.
pub struct CopyExecutor;

/// `//paste`: place the clipboard at the player's position.
pub struct PasteExecutor;

impl CopyExecutor {
    /// Every cell of the selection, stored as (offset from the player
    /// position, current state id). Air cells are kept too: pasting
    /// reproduces the selection exactly.
    pub fn plan(min: Vector3, max: Vector3, player: Vector3, states: &Vec<u16>) -> (r:
        ClipboardData)
        requires
            spec_box_wf(min, max),
            spec_box_volume(min, max) <= MAX_BLOCKS,
            states@.len() == spec_box_volume(min, max),
            min.x - player.x >= i32::MIN && max.x - player.x <= i32::MAX,
            min.y - player.y >= i32::MIN && max.y - player.y <= i32::MAX,
            min.z - player.z >= i32::MIN && max.z - player.z <= i32::MAX,
        ensures
            r.blocks@.len() == spec_box_volume(min, max),
            forall|k: int| #![trigger r.blocks@[k]]
                0 <= k < r.blocks@.len() ==> r.blocks@[k] == ({
                    let p = spec_cell_pos(min, max, k);
                    (
                        Vector3 {
                            x: (p.x - player.x) as i32,
                            y: (p.y - player.y) as i32,
                            z: (p.z - player.z) as i32,
                        },
                        states@[k],
                    )
                }),
    {
        let total = states.len();
        let mut blocks: Vec<(Vector3, u16)> = Vec::new();
        let mut r: usize = 0;
        while r < total
            invariant
                r <= total == states@.len(),
                spec_box_wf(min, max),
                total == spec_box_volume(min, max),
                total <= MAX_BLOCKS,
                min.x - player.x >= i32::MIN && max.x - player.x <= i32::MAX,
                min.y - player.y >= i32::MIN && max.y - player.y <= i32::MAX,
                min.z - player.z >= i32::MIN && max.z - player.z <= i32::MAX,
                blocks@.len() == r,
                forall|k: int| #![trigger blocks@[k]]
                    0 <= k < r ==> blocks@[k] == ({
                        let p = spec_cell_pos(min, max, k);
                        (
                            Vector3 {
                                x: (p.x - player.x) as i32,
                                y: (p.y - player.y) as i32,
                                z: (p.z - player.z) as i32,
                            },
                            states@[k],
                        )
                    }),
            decreases total - r,
        {
            let p = cell_pos(min, max, r as u64);
            let off = Vector3 {
                x: ((p.x as i64) - (player.x as i64)) as i32,
                y: ((p.y as i64) - (player.y as i64)) as i32,
                z: ((p.z as i64) - (player.z as i64)) as i32,
            };
            blocks.push((off, states[r]));
            r = r + 1;
        }
        ClipboardData { blocks }
    }
}

impl PasteExecutor {
    /// Every clipboard entry shifted to the player's position, with an
    /// undo entry keeping each target's old state.
    pub fn plan(player: Vector3, clipboard: &ClipboardData, old: &Vec<u16>) -> (r: (Vec<(Vector3,
        u16)>, Vec<(Vector3, u16)>))
        requires
            old@.len() == clipboard.blocks@.len(),
            forall|k: int|
                0 <= k < clipboard.blocks@.len() ==> {
                    &&& i32::MIN <= player.x + (#[trigger] clipboard.blocks@[k]).0.x <= i32::MAX
                    &&& i32::MIN <= player.y + clipboard.blocks@[k].0.y <= i32::MAX
                    &&& i32::MIN <= player.z + clipboard.blocks@[k].0.z <= i32::MAX
                },
        ensures
            r.0@.len() == clipboard.blocks@.len(),
            r.1@.len() == clipboard.blocks@.len(),
            forall|k: int| #![trigger r.0@[k]]
                0 <= k < r.0@.len() ==> {
                    let b = clipboard.blocks@[k];
                    let target = Vector3 {
                        x: (player.x + b.0.x) as i32,
                        y: (player.y + b.0.y) as i32,
                        z: (player.z + b.0.z) as i32,
                    };
                    r.0@[k] == (target, b.1) && r.1@[k] == (target, old@[k])
                },
    {
        let total = clipboard.blocks.len();
        let mut writes: Vec<(Vector3, u16)> = Vec::new();
        let mut undo: Vec<(Vector3, u16)> = Vec::new();
        let mut k: usize = 0;
        while k < total
            invariant
                k <= total == clipboard.blocks@.len(),
                old@.len() == total,
                forall|q: int|
                    0 <= q < total ==> {
                        &&& i32::MIN <= player.x + (#[trigger] clipboard.blocks@[q]).0.x
                            <= i32::MAX
                        &&& i32::MIN <= player.y + clipboard.blocks@[q].0.y <= i32::MAX
                        &&& i32::MIN <= player.z + clipboard.blocks@[q].0.z <= i32::MAX
                    },
                writes@.len() == k,
                undo@.len() == k,
                forall|q: int| #![trigger writes@[q]]
                    0 <= q < k ==> {
                        let b = clipboard.blocks@[q];
                        let target = Vector3 {
                            x: (player.x + b.0.x) as i32,
                            y: (player.y + b.0.y) as i32,
                            z: (player.z + b.0.z) as i32,
                        };
                        writes@[q] == (target, b.1) && undo@[q] == (target, old@[q])
                    },
            decreases total - k,
        {
            let b = clipboard.blocks[k];
            let target = Vector3 {
                x: ((player.x as i64) + (b.0.x as i64)) as i32,
                y: ((player.y as i64) + (b.0.y as i64)) as i32,
                z: ((player.z as i64) + (b.0.z as i64)) as i32,
            };
            writes.push((target, b.1));
            undo.push((target, old[k]));
            k = k + 1;
        }
        (writes, undo)
    }
}

} // verus!
