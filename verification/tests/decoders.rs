//! The numeric decoders: precision unpacking, extended directions,
//! legacy wall geometry.

use bsmap::beatmap::util::{decode_wall_geometry, deserialize_precision};
use bsmap::beatmap::v2;
use bsmap::beatmap::v3;

#[test]
fn precision_nominal_values_unchanged() {
    assert_eq!(deserialize_precision(0), 0);
    assert_eq!(deserialize_precision(3), 3_000_000);
    assert_eq!(deserialize_precision(-2), -2_000_000);
    assert_eq!(deserialize_precision(999), 999_000_000);
    assert_eq!(deserialize_precision(-999), -999_000_000);
}

#[test]
fn precision_encoded_values_unpack() {
    // 2500 encodes 2500/1000 - 1 = 1.5 units.
    assert_eq!(deserialize_precision(2500), 1_500_000);
    // -2500 encodes -2500/1000 + 1 = -1.5 units.
    assert_eq!(deserialize_precision(-2500), -1_500_000);
    // The boundary values decode through the encoded branch.
    assert_eq!(deserialize_precision(1000), 0);
    assert_eq!(deserialize_precision(-1000), 0);
}

#[test]
fn precision_decode_is_deterministic() {
    // A pure function: the same encoded value decodes the same twice.
    assert_eq!(deserialize_precision(4321), deserialize_precision(4321));
    assert_eq!(deserialize_precision(-4321), deserialize_precision(-4321));
}

#[test]
fn extended_direction_boundaries() {
    assert_eq!(v2::NoteDirection::from_code(1000), Some(v2::NoteDirection::Down));
    assert_eq!(v2::NoteDirection::from_code(1022), Some(v2::NoteDirection::Down));
    assert_eq!(v2::NoteDirection::from_code(1023), Some(v2::NoteDirection::DownLeft));
    assert_eq!(v2::NoteDirection::from_code(1337), Some(v2::NoteDirection::DownRight));
    assert_eq!(v2::NoteDirection::from_code(1338), Some(v2::NoteDirection::Down));
    assert_eq!(v2::NoteDirection::from_code(1360), Some(v2::NoteDirection::Down));
    assert_eq!(v2::NoteDirection::from_code(1361), None);
    assert_eq!(v2::NoteDirection::from_code(999), None);
    assert_eq!(v2::NoteDirection::from_code(9), None);
}

#[test]
fn nominal_directions_map_directly() {
    assert_eq!(v3::NoteDirection::from_code(0), Some(v3::NoteDirection::Up));
    assert_eq!(v3::NoteDirection::from_code(1), Some(v3::NoteDirection::Down));
    assert_eq!(v3::NoteDirection::from_code(8), Some(v3::NoteDirection::Any));
    assert_eq!(v3::NoteDirection::from_code(1158), Some(v3::NoteDirection::Up));
    assert_eq!(v3::NoteDirection::from_code(1361), None);
}

#[test]
fn wall_geometry_special_codes() {
    // Code 0: full-height wall at height 5, vertical position 0.
    assert_eq!(decode_wall_geometry(0), (0, 5_000_000));
    // Code 1: ceiling wall at height 3, vertical position 2.
    assert_eq!(decode_wall_geometry(1), (2_000_000, 3_000_000));
}

#[test]
fn wall_geometry_packed_codes() {
    // Bottom of the extended sub-range: height 0, position -0.666.
    assert_eq!(decode_wall_geometry(4001), (-666_000, 0));
    // Remainder 750 rescales to a 5-unit offset: 750/750*5 + 1.334 - 2.
    assert_eq!(decode_wall_geometry(4751), (4_334_000, 0));
    // Coarse height from thousands above the offset.
    assert_eq!(decode_wall_geometry(104_001), (-666_000, 500_000));
    // Outside the extended sub-range: the code minus 1000, rescaled.
    assert_eq!(decode_wall_geometry(2000), (-666_000, 5_000_000));
}
