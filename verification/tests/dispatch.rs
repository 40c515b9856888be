//! Version dispatch and the dialect adapters.

use bsmap::beatmap::{v2, v3, AnyverBeatmap, AnyverParseError};
use bsmap::raw::RawValue;

fn obj(fields: Vec<(&str, RawValue)>) -> RawValue {
    RawValue::Obj(fields.into_iter().map(|(k, v)| (k.to_string(), v)).collect())
}

fn num(micros: i64) -> RawValue {
    RawValue::Num(micros)
}

fn text(s: &str) -> RawValue {
    RawValue::Str(s.to_string())
}

fn v2_note(beat: i64, x: i64, y: i64, kind: i64, dir: i64) -> RawValue {
    obj(vec![
        ("_time", num(beat)),
        ("_lineIndex", num(x)),
        ("_lineLayer", num(y)),
        ("_type", num(kind)),
        ("_cutDirection", num(dir)),
    ])
}

fn v2_doc() -> RawValue {
    obj(vec![
        ("_version", text("2.0.0")),
        (
            "_notes",
            RawValue::Arr(vec![
                v2_note(1_000_000, 2_000_000, 0, 1_000_000, 1_000_000),
                v2_note(2_000_000, 3_000_000, 1_000_000, 3_000_000, 8_000_000),
            ]),
        ),
        (
            "_obstacles",
            RawValue::Arr(vec![obj(vec![
                ("_time", num(4_000_000)),
                ("_type", num(0)),
                ("_lineIndex", num(1_000_000)),
                ("_duration", num(2_000_000)),
                ("_width", num(2_000_000)),
            ])]),
        ),
    ])
}

#[test]
fn older_marker_routes_to_older_adapter() {
    // The legacy marker wins even when newer-dialect collections are
    // present beside it.
    let mut doc = v2_doc();
    if let RawValue::Obj(fields) = &mut doc {
        fields.push(("colorNotes".to_string(), RawValue::Arr(Vec::new())));
    }
    let parsed = AnyverBeatmap::from_raw(&doc).unwrap();
    match parsed {
        AnyverBeatmap::V2(map) => {
            assert_eq!(map.version, "2.0.0");
            assert_eq!(map.notes.len(), 2);
            assert_eq!(map.notes[0].note_type, v2::NoteType::Blue);
            assert_eq!(map.notes[0].direction, v2::NoteDirection::Down);
            assert_eq!(map.notes[1].note_type, v2::NoteType::Bomb);
            assert_eq!(map.obstacles.len(), 1);
            assert_eq!(map.bpm_events.len(), 0);
        },
        AnyverBeatmap::V3(_) => panic!("routed to the wrong dialect"),
    }
}

#[test]
fn unrecognized_major_version_is_unsupported() {
    let doc = obj(vec![("version", text("9.0.0")), ("colorNotes", RawValue::Arr(Vec::new()))]);
    assert_eq!(
        AnyverBeatmap::from_raw(&doc).unwrap_err(),
        AnyverParseError::UnsupportedVersion("9.0.0".to_string())
    );
}

#[test]
fn missing_marker_is_unknown() {
    let doc = obj(vec![("_notes", RawValue::Arr(Vec::new()))]);
    assert_eq!(
        AnyverBeatmap::from_raw(&doc).unwrap_err(),
        AnyverParseError::UnsupportedVersion("unknown".to_string())
    );
}

#[test]
fn missing_required_field_names_the_field() {
    let doc = obj(vec![("_version", text("2.0.0"))]);
    assert_eq!(
        AnyverBeatmap::from_raw(&doc).unwrap_err(),
        AnyverParseError::ExpectedType("_notes".to_string())
    );
}

#[test]
fn direction_outside_every_domain_is_a_decode_error() {
    let doc = obj(vec![
        ("_version", text("2.0.0")),
        (
            "_notes",
            RawValue::Arr(vec![v2_note(1_000_000, 0, 0, 0, 1_361_000_000)]),
        ),
        ("_obstacles", RawValue::Arr(Vec::new())),
    ]);
    assert_eq!(
        AnyverBeatmap::from_raw(&doc).unwrap_err(),
        AnyverParseError::BadDirection(1361)
    );
}

#[test]
fn precision_encoded_coordinates_unpack_in_the_adapter() {
    // x = 2500 in whole units decodes to 1.5 grid units.
    let doc = obj(vec![
        ("_version", text("2.0.0")),
        (
            "_notes",
            RawValue::Arr(vec![v2_note(0, 2_500_000_000, 0, 0, 0)]),
        ),
        ("_obstacles", RawValue::Arr(Vec::new())),
    ]);
    let parsed = AnyverBeatmap::from_raw(&doc).unwrap();
    match parsed {
        AnyverBeatmap::V2(map) => assert_eq!(map.notes[0].x, 1_500_000),
        AnyverBeatmap::V3(_) => panic!("routed to the wrong dialect"),
    }
}

#[test]
fn fractional_coordinate_is_a_structural_error() {
    // A precision-carrying field must hold a whole number.
    let doc = obj(vec![
        ("_version", text("2.0.0")),
        (
            "_notes",
            RawValue::Arr(vec![v2_note(0, 1_500_000, 0, 0, 0)]),
        ),
        ("_obstacles", RawValue::Arr(Vec::new())),
    ]);
    assert_eq!(
        AnyverBeatmap::from_raw(&doc).unwrap_err(),
        AnyverParseError::ExpectedType("_lineIndex".to_string())
    );
}

#[test]
fn newer_dialect_parses_separate_collections() {
    let doc = obj(vec![
        ("version", text("3.2.0")),
        (
            "colorNotes",
            RawValue::Arr(vec![obj(vec![
                ("b", num(1_000_000)),
                ("x", num(1_000_000)),
                ("y", num(0)),
                ("c", num(1_000_000)),
                ("d", num(0)),
            ])]),
        ),
        (
            "bombNotes",
            RawValue::Arr(vec![obj(vec![
                ("b", num(2_000_000)),
                ("x", num(3_000_000)),
                ("y", num(2_000_000)),
            ])]),
        ),
        ("obstacles", RawValue::Arr(Vec::new())),
        (
            "burstSliders",
            RawValue::Arr(vec![obj(vec![
                ("b", num(1_000_000)),
                ("x", num(0)),
                ("y", num(0)),
                ("c", num(0)),
                ("d", num(1_000_000)),
                ("tb", num(2_000_000)),
                ("tx", num(1_000_000)),
                ("ty", num(0)),
                ("sc", num(3_000_000)),
                ("s", num(500_000)),
            ])]),
        ),
        (
            "bpmEvents",
            RawValue::Arr(vec![obj(vec![("b", num(0)), ("m", num(128_000_000))])]),
        ),
    ]);
    let parsed = AnyverBeatmap::from_raw(&doc).unwrap();
    match parsed {
        AnyverBeatmap::V3(map) => {
            assert_eq!(map.version, "3.2.0");
            assert_eq!(map.color_notes.len(), 1);
            assert_eq!(map.color_notes[0].color, v3::NoteColor::Blue);
            assert_eq!(map.bomb_notes.len(), 1);
            assert_eq!(map.burst_sliders.len(), 1);
            assert_eq!(map.burst_sliders[0].num_slices, 3);
            assert_eq!(map.burst_sliders[0].squish_amount, 500_000);
            assert_eq!(map.bpm_events.len(), 1);
            assert_eq!(map.fake_color_notes, None);
        },
        AnyverBeatmap::V2(_) => panic!("routed to the wrong dialect"),
    }
}

#[test]
fn constant_tempo_note_time() {
    // A note's own constant-tempo time helper: beat 2.0 at 120.
    let note = v3::ColorNote {
        beat: 2_000_000,
        x: 0,
        y: 0,
        angle_offset: None,
        color: v3::NoteColor::Red,
        direction: v3::NoteDirection::Any,
    };
    assert_eq!(note.time(120_000_000), 1_000_000);
}
