use pumpkin_worldedit::error::SchemError;
use pumpkin_worldedit::registry::{BlockDef, BlockRegistry, BlockState};
use pumpkin_worldedit::schematic::{load_schematic, save_schematic, schematic_to_clipboard};
use pumpkin_worldedit::state::ClipboardData;
use pumpkin_worldedit::tag::{Compound, Tag};
use pumpkin_worldedit::varint::encode_varints;
use pumpkin_worldedit::vector::Vector3;

fn test_registry() -> BlockRegistry {
    BlockRegistry {
        blocks: vec![
            BlockDef {
                name: "minecraft:air".to_string(),
                default_state: 0,
                states: vec![BlockState { id: 0, props: vec![] }],
            },
            BlockDef {
                name: "minecraft:stone".to_string(),
                default_state: 1,
                states: vec![BlockState { id: 1, props: vec![] }],
            },
            BlockDef {
                name: "minecraft:dirt".to_string(),
                default_state: 2,
                states: vec![BlockState { id: 2, props: vec![] }],
            },
        ],
        air_state: 0,
    }
}

fn put(c: &mut Compound, name: &str, tag: Tag) {
    c.put(name.to_string(), tag);
}

/// A flat (version 2) single-region tree: 2 x 1 x 2, air/stone palette,
/// indices 1, 0, 0, 1.
fn sponge_v2_root() -> Compound {
    let mut root = Compound::new();
    put(&mut root, "Width", Tag::Short(2));
    put(&mut root, "Height", Tag::Short(1));
    put(&mut root, "Length", Tag::Short(2));
    let mut palette = Compound::new();
    put(&mut palette, "minecraft:air", Tag::Int(0));
    put(&mut palette, "minecraft:stone", Tag::Int(1));
    put(&mut root, "Palette", Tag::Compound(palette));
    put(&mut root, "BlockData", Tag::ByteArray(encode_varints(&[1, 0, 0, 1])));
    root
}

#[test]
fn sponge_decode_omits_air() {
    let reg = test_registry();
    let doc = load_schematic(&reg, &sponge_v2_root()).unwrap();
    assert_eq!(doc.width, 2);
    assert_eq!(doc.height, 1);
    assert_eq!(doc.length, 2);
    assert_eq!(
        doc.blocks,
        vec![(Vector3 { x: 0, y: 0, z: 0 }, 1), (Vector3 { x: 1, y: 0, z: 1 }, 1)]
    );
}

#[test]
fn sponge_decode_applies_offset() {
    let reg = test_registry();
    let mut root = sponge_v2_root();
    put(&mut root, "Offset", Tag::IntArray(vec![10, 20, 30]));
    // The Offset entry stands after the data; lookups still find it.
    let doc = load_schematic(&reg, &root).unwrap();
    assert_eq!(doc.offset, Vector3 { x: 10, y: 20, z: 30 });
    assert_eq!(
        doc.blocks,
        vec![(Vector3 { x: 10, y: 20, z: 30 }, 1), (Vector3 { x: 11, y: 20, z: 31 }, 1)]
    );
}

#[test]
fn sponge_decode_unknown_palette_entry_becomes_air() {
    let reg = test_registry();
    let mut root = Compound::new();
    put(&mut root, "Width", Tag::Short(1));
    put(&mut root, "Height", Tag::Short(1));
    put(&mut root, "Length", Tag::Short(1));
    let mut palette = Compound::new();
    put(&mut palette, "minecraft:mystery_block", Tag::Int(0));
    put(&mut root, "Palette", Tag::Compound(palette));
    put(&mut root, "BlockData", Tag::ByteArray(encode_varints(&[0])));
    let doc = load_schematic(&reg, &root).unwrap();
    assert!(doc.blocks.is_empty());
}

#[test]
fn sponge_decode_count_mismatch_fails() {
    let reg = test_registry();
    let mut root = sponge_v2_root();
    // Replace the data with fewer indices than Width*Height*Length.
    let mut root2 = Compound::new();
    for (name, tag) in root.entries.drain(..) {
        if name == "BlockData" {
            root2.put(name, Tag::ByteArray(encode_varints(&[1, 0])));
        } else {
            root2.put(name, tag);
        }
    }
    let r = load_schematic(&reg, &root2);
    assert_eq!(r.err().unwrap(), SchemError::CountMismatch);
}

#[test]
fn sponge_decode_missing_dimensions_fail() {
    let reg = test_registry();
    let root = Compound::new();
    assert_eq!(load_schematic(&reg, &root).err().unwrap(), SchemError::MissingWidth);

    let mut root = Compound::new();
    put(&mut root, "Width", Tag::Short(1));
    assert_eq!(load_schematic(&reg, &root).err().unwrap(), SchemError::MissingHeight);

    let mut root = Compound::new();
    put(&mut root, "Width", Tag::Short(1));
    put(&mut root, "Height", Tag::Short(1));
    assert_eq!(load_schematic(&reg, &root).err().unwrap(), SchemError::MissingLength);
}

#[test]
fn sponge_decode_missing_palette_fails() {
    let reg = test_registry();
    let mut root = Compound::new();
    put(&mut root, "Width", Tag::Short(1));
    put(&mut root, "Height", Tag::Short(1));
    put(&mut root, "Length", Tag::Short(1));
    assert_eq!(load_schematic(&reg, &root).err().unwrap(), SchemError::MissingPalette);
}

fn litematic_region(position: Tag, size: Tag, states_word: i64) -> Compound {
    let mut region = Compound::new();
    put(&mut region, "Position", position);
    put(&mut region, "Size", size);
    let mut palette = Compound::new();
    put(&mut palette, "minecraft:air", Tag::Int(0));
    put(&mut palette, "minecraft:stone", Tag::Int(1));
    put(&mut region, "BlockStatePalette", Tag::Compound(palette));
    put(&mut region, "BlockStates", Tag::LongArray(vec![states_word]));
    region
}

#[test]
fn litematic_negative_size_flips_base_corner() {
    let reg = test_registry();
    // One region at (5,0,5) of size (-2,1,-2): its local origin must land
    // at absolute (4,0,4).
    let region = litematic_region(
        Tag::IntArray(vec![5, 0, 5]),
        Tag::IntArray(vec![-2, 1, -2]),
        0b0001, // only local cell (0,0,0) is stone
    );
    let mut regions = Compound::new();
    put(&mut regions, "main", Tag::Compound(region));
    let mut root = Compound::new();
    put(&mut root, "Regions", Tag::Compound(regions));

    let doc = load_schematic(&reg, &root).unwrap();
    assert_eq!(doc.offset, Vector3 { x: 4, y: 0, z: 4 });
    assert_eq!(doc.blocks, vec![(Vector3 { x: 0, y: 0, z: 0 }, 1)]);
    assert_eq!((doc.width, doc.height, doc.length), (1, 1, 1));
}

#[test]
fn litematic_normalizes_to_bounding_box() {
    let reg = test_registry();
    // 2x1x2 region at (10, 3, 10): stone at local (0,0,0) and (1,0,1).
    // Local order is x, then z, then y: cells 0 and 3.
    let region = litematic_region(
        Tag::IntArray(vec![10, 3, 10]),
        Tag::IntArray(vec![2, 1, 2]),
        0x1001,
    );
    let mut regions = Compound::new();
    put(&mut regions, "main", Tag::Compound(region));
    let mut root = Compound::new();
    put(&mut root, "Regions", Tag::Compound(regions));

    let doc = load_schematic(&reg, &root).unwrap();
    assert_eq!(doc.offset, Vector3 { x: 10, y: 3, z: 10 });
    assert_eq!((doc.width, doc.height, doc.length), (2, 1, 2));
    assert_eq!(
        doc.blocks,
        vec![(Vector3 { x: 0, y: 0, z: 0 }, 1), (Vector3 { x: 1, y: 0, z: 1 }, 1)]
    );
}

#[test]
fn litematic_size_fallbacks() {
    let reg = test_registry();
    // Size as separate scalar tags.
    let mut region = Compound::new();
    put(&mut region, "Position", Tag::IntArray(vec![0, 0, 0]));
    put(&mut region, "width", Tag::Int(1));
    put(&mut region, "height", Tag::Int(1));
    put(&mut region, "length", Tag::Int(1));
    let mut palette = Compound::new();
    put(&mut palette, "minecraft:stone", Tag::Int(0));
    put(&mut region, "BlockStatePalette", Tag::Compound(palette));
    put(&mut region, "BlockStates", Tag::LongArray(vec![0]));
    let mut regions = Compound::new();
    put(&mut regions, "main", Tag::Compound(region));
    let mut root = Compound::new();
    put(&mut root, "Regions", Tag::Compound(regions));

    let doc = load_schematic(&reg, &root).unwrap();
    assert_eq!(doc.blocks, vec![(Vector3 { x: 0, y: 0, z: 0 }, 1)]);
}

#[test]
fn litematic_metadata_size_fallback() {
    let reg = test_registry();
    let mut region = Compound::new();
    let mut palette = Compound::new();
    put(&mut palette, "minecraft:stone", Tag::Int(0));
    put(&mut region, "BlockStatePalette", Tag::Compound(palette));
    put(&mut region, "BlockStates", Tag::LongArray(vec![0]));
    let mut regions = Compound::new();
    put(&mut regions, "main", Tag::Compound(region));
    let mut meta = Compound::new();
    put(&mut meta, "EnclosureWidth", Tag::Int(1));
    put(&mut meta, "EnclosureHeight", Tag::Int(1));
    put(&mut meta, "EnclosureLength", Tag::Int(1));
    let mut root = Compound::new();
    put(&mut root, "Regions", Tag::Compound(regions));
    put(&mut root, "Metadata", Tag::Compound(meta));

    let doc = load_schematic(&reg, &root).unwrap();
    assert_eq!(doc.blocks.len(), 1);
}

#[test]
fn litematic_missing_size_fails() {
    let reg = test_registry();
    let mut region = Compound::new();
    put(&mut region, "Position", Tag::IntArray(vec![0, 0, 0]));
    let mut regions = Compound::new();
    put(&mut regions, "main", Tag::Compound(region));
    let mut root = Compound::new();
    put(&mut root, "Regions", Tag::Compound(regions));
    assert_eq!(load_schematic(&reg, &root).err().unwrap(), SchemError::MissingRegionSize);
}

#[test]
fn litematic_all_air_fails() {
    let reg = test_registry();
    let region = litematic_region(
        Tag::IntArray(vec![0, 0, 0]),
        Tag::IntArray(vec![2, 1, 2]),
        0,
    );
    let mut regions = Compound::new();
    put(&mut regions, "main", Tag::Compound(region));
    let mut root = Compound::new();
    put(&mut root, "Regions", Tag::Compound(regions));
    assert_eq!(load_schematic(&reg, &root).err().unwrap(), SchemError::NoBlocksInRegions);
}

#[test]
fn save_empty_clipboard_fails() {
    let reg = test_registry();
    let clipboard = ClipboardData { blocks: vec![] };
    assert_eq!(save_schematic(&reg, &clipboard).err().unwrap(), SchemError::EmptyClipboard);
}

#[test]
fn save_unknown_state_id_fails() {
    let reg = test_registry();
    let clipboard = ClipboardData { blocks: vec![(Vector3 { x: 0, y: 0, z: 0 }, 999)] };
    assert_eq!(save_schematic(&reg, &clipboard).err().unwrap(), SchemError::UnknownStateId);
}

#[test]
fn save_oversized_bounds_fail() {
    let reg = test_registry();
    let clipboard = ClipboardData {
        blocks: vec![
            (Vector3 { x: 0, y: 0, z: 0 }, 1),
            (Vector3 { x: 70000, y: 0, z: 0 }, 1),
        ],
    };
    assert_eq!(save_schematic(&reg, &clipboard).err().unwrap(), SchemError::BoundsTooLarge);
}

#[test]
fn save_writes_version_3_layout() {
    let reg = test_registry();
    let clipboard = ClipboardData { blocks: vec![(Vector3 { x: 2, y: 3, z: 4 }, 1)] };
    let root = save_schematic(&reg, &clipboard).unwrap();
    let sc = root.get_compound("Schematic").unwrap();
    assert_eq!(sc.get_int("Version"), Some(3));
    assert_eq!(sc.get_int("DataVersion"), Some(4671));
    assert_eq!(sc.get_short("Width"), Some(1));
    assert_eq!(sc.get_short("Height"), Some(1));
    assert_eq!(sc.get_short("Length"), Some(1));
    assert_eq!(sc.get_int_array("Offset").unwrap(), &vec![2, 3, 4]);
    let blocks = sc.get_compound("Blocks").unwrap();
    let palette = blocks.get_compound("Palette").unwrap();
    assert_eq!(palette.get("minecraft:air").unwrap().extract_int(), Some(0));
    assert_eq!(palette.get("minecraft:stone").unwrap().extract_int(), Some(1));
    assert_eq!(blocks.get_byte_array("Data").unwrap(), &encode_varints(&[1]));
}

#[test]
fn save_then_load_round_trip() {
    let reg = test_registry();
    let original = vec![
        (Vector3 { x: 1, y: 2, z: 3 }, 1),
        (Vector3 { x: 4, y: 2, z: 3 }, 2),
        (Vector3 { x: 1, y: 5, z: 3 }, 1),
    ];
    let clipboard = ClipboardData { blocks: original.clone() };
    let root = save_schematic(&reg, &clipboard).unwrap();
    let doc = load_schematic(&reg, &root).unwrap();
    let mut loaded = doc.blocks.clone();
    let mut expected = original.clone();
    let key = |b: &(Vector3, u16)| (b.0.x, b.0.y, b.0.z, b.1);
    loaded.sort_by_key(key);
    expected.sort_by_key(key);
    assert_eq!(loaded, expected);
}

#[test]
fn clipboard_conversion_keeps_blocks() {
    let reg = test_registry();
    let doc = load_schematic(&reg, &sponge_v2_root()).unwrap();
    let clip = schematic_to_clipboard(&doc);
    assert_eq!(clip.blocks, doc.blocks);
}

#[test]
fn litematic_position_as_list() {
    let reg = test_registry();
    let mut region = Compound::new();
    put(
        &mut region,
        "Pos",
        Tag::List(vec![Tag::Int(1), Tag::Int(2), Tag::Int(3)]),
    );
    put(&mut region, "Size", Tag::IntArray(vec![1, 1, 1]));
    let mut palette = Compound::new();
    put(&mut palette, "minecraft:stone", Tag::Int(0));
    put(&mut region, "BlockStatePalette", Tag::Compound(palette));
    put(&mut region, "BlockStates", Tag::LongArray(vec![0]));
    let mut regions = Compound::new();
    put(&mut regions, "main", Tag::Compound(region));
    let mut root = Compound::new();
    put(&mut root, "Regions", Tag::Compound(regions));

    let doc = load_schematic(&reg, &root).unwrap();
    assert_eq!(doc.offset, Vector3 { x: 1, y: 2, z: 3 });
}

#[test]
fn litematic_position_as_scalars() {
    let reg = test_registry();
    let mut region = Compound::new();
    put(&mut region, "x", Tag::Int(7));
    put(&mut region, "y", Tag::Int(8));
    put(&mut region, "z", Tag::Int(9));
    put(&mut region, "Size", Tag::IntArray(vec![1, 1, 1]));
    let mut palette = Compound::new();
    put(&mut palette, "minecraft:stone", Tag::Int(0));
    put(&mut region, "BlockStatePalette", Tag::Compound(palette));
    put(&mut region, "BlockStates", Tag::LongArray(vec![0]));
    let mut regions = Compound::new();
    put(&mut regions, "main", Tag::Compound(region));
    let mut root = Compound::new();
    put(&mut root, "Regions", Tag::Compound(regions));

    let doc = load_schematic(&reg, &root).unwrap();
    assert_eq!(doc.offset, Vector3 { x: 7, y: 8, z: 9 });
}

#[test]
fn litematic_two_regions_merge_into_one_box() {
    let reg = test_registry();
    let r1 = litematic_region(Tag::IntArray(vec![0, 0, 0]), Tag::IntArray(vec![1, 1, 1]), 0b1);
    let r2 = litematic_region(Tag::IntArray(vec![3, 0, 0]), Tag::IntArray(vec![1, 1, 1]), 0b1);
    let mut regions = Compound::new();
    put(&mut regions, "a", Tag::Compound(r1));
    put(&mut regions, "b", Tag::Compound(r2));
    let mut root = Compound::new();
    put(&mut root, "Regions", Tag::Compound(regions));

    let doc = load_schematic(&reg, &root).unwrap();
    assert_eq!((doc.width, doc.height, doc.length), (4, 1, 1));
    assert_eq!(doc.offset, Vector3 { x: 0, y: 0, z: 0 });
    assert_eq!(
        doc.blocks,
        vec![(Vector3 { x: 0, y: 0, z: 0 }, 1), (Vector3 { x: 3, y: 0, z: 0 }, 1)]
    );
}

#[test]
fn litematic_region_missing_palette_fails() {
    let reg = test_registry();
    let mut region = Compound::new();
    put(&mut region, "Position", Tag::IntArray(vec![0, 0, 0]));
    put(&mut region, "Size", Tag::IntArray(vec![1, 1, 1]));
    let mut regions = Compound::new();
    put(&mut regions, "main", Tag::Compound(region));
    let mut root = Compound::new();
    put(&mut root, "Regions", Tag::Compound(regions));
    assert_eq!(
        load_schematic(&reg, &root).err().unwrap(),
        SchemError::MissingBlockStatePalette
    );
}

#[test]
fn litematic_region_short_packed_array_fails() {
    let reg = test_registry();
    // 17 cells at 4 bits need two words; only one is present.
    let region = litematic_region(
        Tag::IntArray(vec![0, 0, 0]),
        Tag::IntArray(vec![17, 1, 1]),
        0,
    );
    let mut regions = Compound::new();
    put(&mut regions, "main", Tag::Compound(region));
    let mut root = Compound::new();
    put(&mut root, "Regions", Tag::Compound(regions));
    assert_eq!(
        load_schematic(&reg, &root).err().unwrap(),
        SchemError::PackedArrayTooShort
    );
}

#[test]
fn sponge_v3_missing_blocks_compound_fails() {
    let reg = test_registry();
    let mut sc = Compound::new();
    put(&mut sc, "Version", Tag::Int(3));
    put(&mut sc, "Width", Tag::Short(1));
    put(&mut sc, "Height", Tag::Short(1));
    put(&mut sc, "Length", Tag::Short(1));
    let mut root = Compound::new();
    put(&mut root, "Schematic", Tag::Compound(sc));
    assert_eq!(load_schematic(&reg, &root).err().unwrap(), SchemError::MissingBlocks);
}

#[test]
fn sponge_v3_missing_data_fails() {
    let reg = test_registry();
    let mut palette = Compound::new();
    put(&mut palette, "minecraft:air", Tag::Int(0));
    let mut blocks = Compound::new();
    put(&mut blocks, "Palette", Tag::Compound(palette));
    let mut sc = Compound::new();
    put(&mut sc, "Version", Tag::Int(3));
    put(&mut sc, "Width", Tag::Short(1));
    put(&mut sc, "Height", Tag::Short(1));
    put(&mut sc, "Length", Tag::Short(1));
    put(&mut sc, "Blocks", Tag::Compound(blocks));
    let mut root = Compound::new();
    put(&mut root, "Schematic", Tag::Compound(sc));
    assert_eq!(load_schematic(&reg, &root).err().unwrap(), SchemError::MissingData);
}

#[test]
fn litematic_missing_block_states_fails() {
    let reg = test_registry();
    let mut region = Compound::new();
    put(&mut region, "Position", Tag::IntArray(vec![0, 0, 0]));
    put(&mut region, "Size", Tag::IntArray(vec![1, 1, 1]));
    let mut palette = Compound::new();
    put(&mut palette, "minecraft:stone", Tag::Int(0));
    put(&mut region, "BlockStatePalette", Tag::Compound(palette));
    let mut regions = Compound::new();
    put(&mut regions, "main", Tag::Compound(region));
    let mut root = Compound::new();
    put(&mut root, "Regions", Tag::Compound(regions));
    assert_eq!(load_schematic(&reg, &root).err().unwrap(), SchemError::MissingBlockStates);
}

#[test]
fn sponge_offset_near_range_end_fails() {
    let reg = test_registry();
    let mut root = sponge_v2_root();
    put(&mut root, "Offset", Tag::IntArray(vec![i32::MAX, 0, 0]));
    assert_eq!(
        load_schematic(&reg, &root).err().unwrap(),
        SchemError::CoordinateOverflow
    );
}

#[test]
fn litematic_oversized_bounds_fail() {
    let reg = test_registry();
    let r1 = litematic_region(Tag::IntArray(vec![0, 0, 0]), Tag::IntArray(vec![1, 1, 1]), 0b1);
    let r2 = litematic_region(
        Tag::IntArray(vec![70000, 0, 0]),
        Tag::IntArray(vec![1, 1, 1]),
        0b1,
    );
    let mut regions = Compound::new();
    put(&mut regions, "a", Tag::Compound(r1));
    put(&mut regions, "b", Tag::Compound(r2));
    let mut root = Compound::new();
    put(&mut root, "Regions", Tag::Compound(regions));
    assert_eq!(load_schematic(&reg, &root).err().unwrap(), SchemError::BoundsTooLarge);
}
