//! A world-edit toolkit core: selections, clipboards, and a verified codec
//! for portable schematic files (single-region and multi-region formats).

use vstd::prelude::*;

pub mod bitpack;
pub mod blockstate;
pub mod commands;
pub mod error;
pub mod registry;
pub mod schematic;
pub mod state;
pub mod strutil;
pub mod tag;
pub mod varint;
pub mod vector;

verus! {

/// Marker type for the plugin entry point; the surrounding server glue
/// constructs one instance per load.
pub struct MyPlugin {}

impl MyPlugin {
    pub fn new() -> Self {
        MyPlugin {}
    }
}

impl Default for MyPlugin {
    fn default() -> Self {
        MyPlugin::new()
    }
}

} // verus!
