use mstry::component::Mover;
use mstry::decode::DecodeError;
use mstry::grid::TilemapData;
use mstry::tilemap::{BuildError, TileRect, TilemapFormat};

fn atlas(
    tile_size: (usize, usize),
    size: (usize, usize),
    symbols: &[(&str, usize)],
) -> TilemapData {
    let mut data = TilemapData::new(tile_size, size);
    for (symbol, index) in symbols {
        data.mapping.insert(symbol.to_string(), *index);
    }
    data
}

const NO_TILE: TileRect = TileRect { x: 0, y: 0, width: 0, height: 0 };

#[test]
fn build_gives_each_symbol_the_rectangle_of_its_tile() {
    let data = atlas((32, 32), (256, 256), &[("grass", 1), ("water", 2)]);
    let tilemap = TilemapFormat.build(data, "environment").unwrap();
    assert_eq!(
        tilemap.tile("grass"),
        Some(&TileRect { x: 32, y: 0, width: 32, height: 32 })
    );
    assert_eq!(
        tilemap.tile("water"),
        Some(&TileRect { x: 64, y: 0, width: 32, height: 32 })
    );
    assert_eq!(tilemap.tile("lava"), None);
}

#[test]
fn build_sizes_the_rectangles_to_the_whole_grid() {
    let data = atlas((32, 32), (256, 256), &[("grass", 1), ("water", 2)]);
    let tilemap = TilemapFormat.build(data, 0u32).unwrap();
    let rects = tilemap.tile_rects();
    assert_eq!(rects.len(), 64);
    for (index, rect) in rects.iter().enumerate() {
        if index == 1 {
            assert_eq!(*rect, TileRect { x: 32, y: 0, width: 32, height: 32 });
        } else if index == 2 {
            assert_eq!(*rect, TileRect { x: 64, y: 0, width: 32, height: 32 });
        } else {
            assert_eq!(*rect, NO_TILE);
        }
    }
}

#[test]
fn build_places_tiles_of_later_rows() {
    let data = atlas((16, 8), (64, 32), &[("door", 6), ("roof", 15)]);
    let tilemap = TilemapFormat.build(data, ()).unwrap();
    assert_eq!(tilemap.tile_rects().len(), 16);
    assert_eq!(
        tilemap.tile("door"),
        Some(&TileRect { x: 32, y: 8, width: 16, height: 8 })
    );
    assert_eq!(
        tilemap.tile("roof"),
        Some(&TileRect { x: 48, y: 24, width: 16, height: 8 })
    );
}

#[test]
fn symbols_that_share_an_index_share_a_rectangle() {
    let data = atlas((32, 32), (64, 64), &[("grass", 3), ("meadow", 3)]);
    let tilemap = TilemapFormat.build(data, ()).unwrap();
    let expected = TileRect { x: 32, y: 32, width: 32, height: 32 };
    assert_eq!(tilemap.tile("grass"), Some(&expected));
    assert_eq!(tilemap.tile("meadow"), Some(&expected));
    assert_eq!(
        tilemap.tile_rects().as_slice(),
        &[NO_TILE, NO_TILE, NO_TILE, expected]
    );
}

#[test]
fn every_rectangle_lies_inside_the_atlas() {
    let data = atlas(
        (32, 16),
        (128, 64),
        &[("a", 0), ("b", 3), ("c", 7), ("d", 12), ("e", 15)],
    );
    let tilemap = TilemapFormat.build(data, ()).unwrap();
    assert_eq!(tilemap.tile_rects().len(), 16);
    for rect in tilemap.tile_rects() {
        assert!(rect.x + rect.width <= 128);
        assert!(rect.y + rect.height <= 64);
    }
}

#[test]
fn build_twice_gives_equal_rectangles() {
    let data = atlas((32, 32), (256, 256), &[("grass", 1), ("water", 2)]);
    let first = TilemapFormat.build(data.clone(), 1u8).unwrap();
    let second = TilemapFormat.build(data, 1u8).unwrap();
    assert_eq!(first.tile_rects(), second.tile_rects());
    assert_eq!(first.tile("grass"), second.tile("grass"));
    assert_eq!(first.tile("water"), second.tile("water"));
}

#[test]
fn build_does_not_depend_on_the_order_of_bindings() {
    let one = atlas((32, 32), (128, 128), &[("grass", 1), ("water", 9)]);
    let other = atlas((32, 32), (128, 128), &[("water", 9), ("grass", 1)]);
    let first = TilemapFormat.build(one, ()).unwrap();
    let second = TilemapFormat.build(other, ()).unwrap();
    assert_eq!(first.tile_rects(), second.tile_rects());
}

#[test]
fn build_keeps_the_texture() {
    let data = atlas((32, 32), (256, 256), &[]);
    let tilemap = TilemapFormat.build(data, String::from("textures/environment")).unwrap();
    assert_eq!(tilemap.texture().as_str(), "textures/environment");
}

#[test]
fn build_rejects_invalid_geometry() {
    let data = atlas((32, 32), (100, 100), &[]);
    assert_eq!(
        TilemapFormat.build(data, ()).err(),
        Some(BuildError::InvalidDescriptor)
    );
    let data = atlas((0, 32), (256, 256), &[]);
    assert_eq!(
        TilemapFormat.build(data, ()).err(),
        Some(BuildError::InvalidDescriptor)
    );
}

#[test]
fn build_rejects_an_index_out_of_range() {
    let data = atlas((32, 32), (256, 256), &[("grass", 64)]);
    assert_eq!(
        TilemapFormat.build(data, ()).err(),
        Some(BuildError::InvalidDescriptor)
    );
}

#[test]
fn build_of_an_empty_atlas_has_no_rectangles() {
    let data = atlas((32, 32), (0, 0), &[]);
    let tilemap = TilemapFormat.build(data, ()).unwrap();
    assert_eq!(tilemap.tile_rects().len(), 0);
    assert_eq!(tilemap.tile("grass"), None);
}

#[test]
fn import_builds_what_was_read() {
    let data = atlas((32, 32), (256, 256), &[("grass", 1), ("water", 2)]);
    let tilemap = TilemapFormat.import(Ok(data), 5u64).unwrap();
    assert_eq!(*tilemap.texture(), 5);
    assert_eq!(tilemap.tile_rects().len(), 64);
    assert_eq!(
        tilemap.tile("water"),
        Some(&TileRect { x: 64, y: 0, width: 32, height: 32 })
    );
    assert_eq!(tilemap.tile("lava"), None);
}

#[test]
fn import_reports_the_reader_failure() {
    match TilemapFormat.import(Err("unexpected end of input".to_string()), ()) {
        Err(DecodeError::MalformedSource(reason)) => assert_eq!(reason, "unexpected end of input"),
        other => panic!("unexpected result: {:?}", other.map(|_| ())),
    }
}

#[test]
fn import_reports_invalid_geometry_and_offending_symbol() {
    let data = atlas((32, 32), (100, 100), &[]);
    assert!(matches!(
        TilemapFormat.import(Ok(data), ()),
        Err(DecodeError::InvalidGeometry)
    ));
    let data = atlas((32, 32), (64, 64), &[("grass", 1), ("lava", 4)]);
    match TilemapFormat.import(Ok(data), ()) {
        Err(DecodeError::IndexOutOfRange(symbol)) => assert_eq!(symbol, "lava"),
        other => panic!("unexpected result: {:?}", other.map(|_| ())),
    }
}

#[test]
fn mover_default_is_the_marker() {
    assert_eq!(Mover::default(), Mover);
}
