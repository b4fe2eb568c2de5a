use pumpkin_worldedit::blockstate::parse_block_state_string;
use pumpkin_worldedit::registry::{
    build_block_state_string, resolve_block_state, BlockDef, BlockRegistry, BlockState,
};

fn pair(k: &str, v: &str) -> (String, String) {
    (k.to_string(), v.to_string())
}

#[test]
fn parse_with_properties() {
    let (name, props) = parse_block_state_string("minecraft:oak_stairs[facing=north,half=bottom]");
    assert_eq!(name, "minecraft:oak_stairs");
    assert_eq!(props, vec![pair("facing", "north"), pair("half", "bottom")]);
}

#[test]
fn parse_bare_name() {
    let (name, props) = parse_block_state_string("minecraft:stone");
    assert_eq!(name, "minecraft:stone");
    assert!(props.is_empty());
}

#[test]
fn parse_trims_whitespace() {
    let (name, props) = parse_block_state_string("x[ a = b ,c=d]");
    assert_eq!(name, "x");
    assert_eq!(props, vec![pair("a", "b"), pair("c", "d")]);
}

#[test]
fn parse_drops_empty_keys_and_bad_segments() {
    let (name, props) = parse_block_state_string("x[=v,a=b,noequals]");
    assert_eq!(name, "x");
    assert_eq!(props, vec![pair("a", "b")]);
}

#[test]
fn parse_without_closing_bracket() {
    let (name, props) = parse_block_state_string("x[a=b");
    assert_eq!(name, "x");
    assert_eq!(props, vec![pair("a", "b")]);
}

#[test]
fn parse_empty_bracket() {
    let (name, props) = parse_block_state_string("x[]");
    assert_eq!(name, "x");
    assert!(props.is_empty());
}

fn test_registry() -> BlockRegistry {
    BlockRegistry {
        blocks: vec![
            BlockDef {
                name: "minecraft:air".to_string(),
                default_state: 0,
                states: vec![BlockState { id: 0, props: vec![] }],
            },
            BlockDef {
                name: "minecraft:stone".to_string(),
                default_state: 1,
                states: vec![BlockState { id: 1, props: vec![] }],
            },
            BlockDef {
                name: "minecraft:oak_stairs".to_string(),
                default_state: 10,
                states: vec![
                    BlockState { id: 10, props: vec![pair("facing", "north"), pair("half", "bottom")] },
                    BlockState { id: 11, props: vec![pair("facing", "north"), pair("half", "top")] },
                    BlockState { id: 12, props: vec![pair("facing", "south"), pair("half", "bottom")] },
                ],
            },
        ],
        air_state: 0,
    }
}

#[test]
fn resolve_default_state() {
    let reg = test_registry();
    assert_eq!(resolve_block_state(&reg, "minecraft:stone"), Some(1));
    assert_eq!(resolve_block_state(&reg, "minecraft:air"), Some(0));
}

#[test]
fn resolve_with_properties() {
    let reg = test_registry();
    assert_eq!(
        resolve_block_state(&reg, "minecraft:oak_stairs[facing=north,half=top]"),
        Some(11)
    );
    // Property order does not matter on input.
    assert_eq!(
        resolve_block_state(&reg, "minecraft:oak_stairs[half=top,facing=north]"),
        Some(11)
    );
}

#[test]
fn resolve_bad_properties_falls_back_to_default() {
    let reg = test_registry();
    assert_eq!(
        resolve_block_state(&reg, "minecraft:oak_stairs[facing=up,half=bottom]"),
        Some(10)
    );
}

#[test]
fn resolve_unknown_name() {
    let reg = test_registry();
    assert_eq!(resolve_block_state(&reg, "minecraft:not_a_block"), None);
}

#[test]
fn build_emits_registry_order() {
    let reg = test_registry();
    assert_eq!(build_block_state_string(&reg, 1).unwrap(), "minecraft:stone");
    assert_eq!(
        build_block_state_string(&reg, 11).unwrap(),
        "minecraft:oak_stairs[facing=north,half=top]"
    );
}

#[test]
fn build_unknown_id() {
    let reg = test_registry();
    assert!(build_block_state_string(&reg, 999).is_none());
}

#[test]
fn build_then_resolve_is_identity() {
    let reg = test_registry();
    for id in [0u16, 1, 10, 11, 12] {
        let text = build_block_state_string(&reg, id).unwrap();
        assert_eq!(resolve_block_state(&reg, &text), Some(id));
    }
}
