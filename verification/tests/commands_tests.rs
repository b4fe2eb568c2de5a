use pumpkin_worldedit::commands::clipboard::{CopyExecutor, PasteExecutor};
use pumpkin_worldedit::commands::history::UndoExecutor;
use pumpkin_worldedit::commands::region::{
    ClearExecutor, HollowExecutor, ReplaceExecutor, SetExecutor, WallsExecutor,
};
use pumpkin_worldedit::commands::schematic::{
    SchemDeleteExecutor, SchemListExecutor, SchemLoadExecutor, SchemSaveExecutor,
};
use pumpkin_worldedit::commands::selection::{Pos1Executor, Pos2Executor, SizeExecutor};
use pumpkin_worldedit::state::{check_selection_size, selection_volume, PlayerState};
use pumpkin_worldedit::vector::Vector3;

fn v(x: i32, y: i32, z: i32) -> Vector3 {
    Vector3 { x, y, z }
}

#[test]
fn selection_corners_and_size() {
    let mut state = PlayerState::default();
    assert!(SizeExecutor::plan(&state).is_none());
    Pos1Executor::plan(&mut state, v(5, 1, 9));
    Pos2Executor::plan(&mut state, v(2, 4, 3));
    let (dx, dy, dz, volume) = SizeExecutor::plan(&state).unwrap();
    assert_eq!((dx, dy, dz), (4, 4, 7));
    assert_eq!(volume, 4 * 4 * 7);
    let (mn, mx) = state.get_selection().unwrap();
    assert_eq!(mn, v(2, 1, 3));
    assert_eq!(mx, v(5, 4, 9));
}

#[test]
fn selection_volume_and_limit() {
    let mn = v(0, 0, 0);
    assert_eq!(selection_volume(&mn, &v(99, 99, 9)), 100_000);
    assert!(check_selection_size(&mn, &v(99, 99, 9)));
    assert!(!check_selection_size(&mn, &v(99, 99, 10)));
}

#[test]
fn set_plan_covers_every_cell() {
    let old = vec![7u16; 8];
    let (writes, undo) = SetExecutor::plan(v(0, 0, 0), v(1, 1, 1), 42, &old);
    assert_eq!(writes.len(), 8);
    assert_eq!(undo.len(), 8);
    // x outermost, then y, then z.
    assert_eq!(writes[0], (v(0, 0, 0), 42));
    assert_eq!(writes[1], (v(0, 0, 1), 42));
    assert_eq!(writes[2], (v(0, 1, 0), 42));
    assert_eq!(writes[4], (v(1, 0, 0), 42));
    assert!(undo.iter().all(|&(_, s)| s == 7));
}

#[test]
fn replace_plan_touches_only_matching_blocks() {
    // 2x1x2 box; current block kinds 3,5,3,5; states 30,50,31,51.
    let cur = vec![3u16, 5, 3, 5];
    let old = vec![30u16, 50, 31, 51];
    let (writes, undo) = ReplaceExecutor::plan(v(0, 0, 0), v(1, 0, 1), &cur, &old, 3, 99);
    assert_eq!(writes, vec![(v(0, 0, 0), 99), (v(1, 0, 0), 99)]);
    assert_eq!(undo, vec![(v(0, 0, 0), 30), (v(1, 0, 0), 31)]);
}

#[test]
fn walls_plan_keeps_the_middle_open() {
    // 3x1x3: every cell but the center is a wall.
    let old = vec![0u16; 9];
    let (writes, _) = WallsExecutor::plan(v(0, 0, 0), v(2, 0, 2), 7, &old);
    assert_eq!(writes.len(), 8);
    assert!(!writes.iter().any(|&(p, _)| p == v(1, 0, 1)));
}

#[test]
fn clear_plan_skips_air() {
    let old = vec![0u16, 5, 0, 6];
    let (writes, undo) = ClearExecutor::plan(v(0, 0, 0), v(1, 0, 1), 0, &old);
    assert_eq!(writes, vec![(v(0, 0, 1), 0), (v(1, 0, 1), 0)]);
    assert_eq!(undo, vec![(v(0, 0, 1), 5), (v(1, 0, 1), 6)]);
}

#[test]
fn hollow_plan_carves_the_interior() {
    // 3x3x3 of stone: only the center cell is interior.
    let old = vec![5u16; 27];
    let (writes, undo) = HollowExecutor::plan(v(0, 0, 0), v(2, 2, 2), 0, &old);
    assert_eq!(writes, vec![(v(1, 1, 1), 0)]);
    assert_eq!(undo, vec![(v(1, 1, 1), 5)]);
}

#[test]
fn copy_then_paste_round_trips_positions() {
    let states = vec![1u16, 2, 3, 4];
    let player = v(10, 20, 30);
    let clip = CopyExecutor::plan(v(10, 20, 30), v(11, 20, 31), player, &states);
    assert_eq!(clip.blocks.len(), 4);
    assert_eq!(clip.blocks[0], (v(0, 0, 0), 1));
    assert_eq!(clip.blocks[3], (v(1, 0, 1), 4));

    let old = vec![0u16; 4];
    let (writes, undo) = PasteExecutor::plan(player, &clip, &old);
    assert_eq!(writes[0], (v(10, 20, 30), 1));
    assert_eq!(writes[3], (v(11, 20, 31), 4));
    assert_eq!(undo[0], (v(10, 20, 30), 0));
}

#[test]
fn undo_plan_takes_the_buffer_once() {
    let mut state = PlayerState::default();
    assert!(UndoExecutor::plan(&mut state).is_none());
    state.undo_data = Some(vec![(v(1, 2, 3), 9)]);
    let entries = UndoExecutor::plan(&mut state).unwrap();
    assert_eq!(entries, vec![(v(1, 2, 3), 9)]);
    assert!(UndoExecutor::plan(&mut state).is_none());
}

#[test]
fn schematic_filename_resolution() {
    assert_eq!(SchemLoadExecutor::resolve_filename("castle.schem", false, false), "castle.schem");
    assert_eq!(
        SchemLoadExecutor::resolve_filename("castle.litematic", false, false),
        "castle.litematic"
    );
    assert_eq!(SchemLoadExecutor::resolve_filename("castle", true, true), "castle.schem");
    assert_eq!(SchemLoadExecutor::resolve_filename("castle", false, true), "castle.litematic");
    assert_eq!(SchemDeleteExecutor::resolve_filename("castle", false, false), "castle.schem");
}

#[test]
fn schematic_save_filename() {
    assert_eq!(SchemSaveExecutor::save_filename("castle"), "castle.schem");
    assert_eq!(SchemSaveExecutor::save_filename("castle.schem"), "castle.schem");
}

#[test]
fn schematic_listing_filters_and_sorts() {
    let names: Vec<String> = vec![
        "tower.schem".to_string(),
        "abbey.litematic".to_string(),
        "notes.txt".to_string(),
        "bridge.schem".to_string(),
        ".schem".to_string(),
    ];
    let listed = SchemListExecutor::plan(&names);
    assert_eq!(listed, vec!["abbey".to_string(), "bridge".to_string(), "tower".to_string()]);
}
