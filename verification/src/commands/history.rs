//! The undo command: move the undo buffer out of the player's state; its
//! entries are exactly the writes that restore the previous blocks.

use vstd::prelude::*;

use crate::state::PlayerState;
use crate::vector::Vector3;

verus! {

/// `//undo`: restore the blocks recorded by the last operation.
pub struct UndoExecutor;

impl UndoExecutor {
    /// Take the undo buffer; `None` means there is nothing to undo. The
    /// returned entries are applied verbatim as writes.
    pub fn plan(state: &mut PlayerState) -> (r: Option<Vec<(Vector3, u16)>>)
        ensures
            r == old(state).undo_data,
            final(state).undo_data is None,
            final(state).pos1 == old(state).pos1,
            final(state).pos2 == old(state).pos2,
            final(state).clipboard == old(state).clipboard,
    {
        state.take_undo()
    }
}

} // verus!
