use mstry::decode::{decode, DecodeError};
use mstry::grid::TilemapData;

fn described(
    tile_size: (usize, usize),
    size: (usize, usize),
    symbols: &[(&str, usize)],
) -> TilemapData {
    let mut data = TilemapData::new(tile_size, size);
    for (symbol, index) in symbols {
        data.mapping.insert(symbol.to_string(), *index);
    }
    data
}

#[test]
fn valid_description_passes_unchanged() {
    let data = described((32, 32), (256, 256), &[("grass", 1), ("water", 2)]);
    assert!(data.validate().is_ok());
    let checked = decode(Ok(data)).unwrap();
    assert_eq!(checked.tile_size, (32, 32));
    assert_eq!(checked.size, (256, 256));
    assert_eq!(checked.mapping.len(), 2);
    assert_eq!(checked.mapping.get("grass"), Some(1));
    assert_eq!(checked.mapping.get("water"), Some(2));
}

#[test]
fn atlas_not_divisible_by_tile_is_invalid_geometry() {
    let data = described((32, 32), (100, 100), &[]);
    assert!(matches!(decode(Ok(data)), Err(DecodeError::InvalidGeometry)));
}

#[test]
fn atlas_height_not_divisible_is_invalid_geometry() {
    let data = described((32, 32), (256, 100), &[]);
    assert!(matches!(data.validate(), Err(DecodeError::InvalidGeometry)));
}

#[test]
fn zero_tile_width_is_invalid_geometry() {
    let data = described((0, 32), (256, 256), &[]);
    assert!(matches!(decode(Ok(data)), Err(DecodeError::InvalidGeometry)));
}

#[test]
fn zero_tile_height_is_invalid_geometry() {
    let data = described((32, 0), (256, 256), &[("grass", 0)]);
    assert!(matches!(decode(Ok(data)), Err(DecodeError::InvalidGeometry)));
}

#[test]
fn cell_count_beyond_the_word_is_invalid_geometry() {
    let data = described((1, 1), (usize::MAX, usize::MAX), &[]);
    assert!(matches!(data.validate(), Err(DecodeError::InvalidGeometry)));
}

#[test]
fn geometry_is_checked_before_indices() {
    let data = described((32, 32), (100, 100), &[("grass", 1000)]);
    assert!(matches!(decode(Ok(data)), Err(DecodeError::InvalidGeometry)));
}

#[test]
fn index_at_cell_count_is_out_of_range() {
    let data = described((32, 32), (256, 256), &[("grass", 63), ("water", 64)]);
    match decode(Ok(data)) {
        Err(DecodeError::IndexOutOfRange(symbol)) => assert_eq!(symbol, "water"),
        other => panic!("unexpected result: {:?}", other),
    }
}

#[test]
fn last_cell_is_in_range() {
    let data = described((32, 32), (256, 256), &[("grass", 63)]);
    assert!(decode(Ok(data)).is_ok());
}

#[test]
fn first_offending_symbol_is_named() {
    let data = described(
        (32, 32),
        (64, 64),
        &[("grass", 3), ("lava", 9), ("water", 4), ("sand", 0)],
    );
    match data.validate() {
        Err(DecodeError::IndexOutOfRange(symbol)) => assert_eq!(symbol, "lava"),
        other => panic!("unexpected result: {:?}", other),
    }
}

#[test]
fn empty_atlas_has_no_cell_for_any_symbol() {
    let data = described((32, 32), (0, 0), &[]);
    assert!(data.validate().is_ok());
    let data = described((32, 32), (0, 0), &[("grass", 0)]);
    match data.validate() {
        Err(DecodeError::IndexOutOfRange(symbol)) => assert_eq!(symbol, "grass"),
        other => panic!("unexpected result: {:?}", other),
    }
}

#[test]
fn reader_failure_is_carried_unchanged() {
    match decode(Err("1:7: expected a closing bracket".to_string())) {
        Err(DecodeError::MalformedSource(reason)) => {
            assert_eq!(reason, "1:7: expected a closing bracket")
        }
        other => panic!("unexpected result: {:?}", other),
    }
}
