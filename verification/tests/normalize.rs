//! The normalization pipeline: partitioning, interval resolution,
//! unified enumerations.

use bsmap::beatmap::standard::{Beatmap, BpmEvent, NoteColor, NoteDirection};
use bsmap::beatmap::{v2, v3, AnyverBeatmap, AnyverParseError};

fn v2_map() -> v2::Beatmap {
    v2::Beatmap {
        version: "2.0.0".to_string(),
        notes: vec![
            v2::Note {
                beat: 2_000_000,
                x: 1_000_000,
                y: 0,
                note_type: v2::NoteType::Red,
                direction: v2::NoteDirection::Up,
                angle_offset: None,
            },
            v2::Note {
                beat: 3_000_000,
                x: 2_000_000,
                y: 1_000_000,
                note_type: v2::NoteType::Bomb,
                direction: v2::NoteDirection::Any,
                angle_offset: None,
            },
            v2::Note {
                beat: 4_000_000,
                x: 0,
                y: 2_000_000,
                note_type: v2::NoteType::Blue,
                direction: v2::NoteDirection::DownLeft,
                angle_offset: Some(15_000_000),
            },
        ],
        obstacles: vec![v2::Obstacle {
            beat: 2_000_000,
            wall_type: 0,
            x: 1_000_000,
            duration: 4_000_000,
            width: 2_000_000,
        }],
        bpm_events: Vec::new(),
    }
}

#[test]
fn older_dialect_notes_are_partitioned() {
    let unified = Beatmap::from_v2(v2_map(), 120_000_000).unwrap();
    assert_eq!(unified.beats.len(), 2);
    assert_eq!(unified.bombs.len(), 1);
    assert_eq!(unified.chains.len(), 0);
    assert_eq!(unified.beats[0].color, NoteColor::Red);
    assert_eq!(unified.beats[0].direction, NoteDirection::Up);
    assert_eq!(unified.beats[0].time, 1_000_000);
    assert_eq!(unified.beats[1].color, NoteColor::Blue);
    assert_eq!(unified.beats[1].angle_offset, Some(15_000_000));
    assert_eq!(unified.bombs[0].beat, 3_000_000);
    assert_eq!(unified.bombs[0].time, 1_500_000);
}

#[test]
fn obstacle_interval_is_resolved_through_the_timeline() {
    // A tempo change in the middle of the wall: the interval end is
    // mapped independently, never scaled from the beat span.
    let mut map = v2_map();
    map.bpm_events = vec![v2::BpmEvent { beat: 4_000_000, bpm: 60_000_000 }];
    let unified = Beatmap::from_v2(map, 120_000_000).unwrap();
    let wall = &unified.obstacles[0];
    // Starts at beat 2 under 120: 1.0 s.
    assert_eq!(wall.time, 1_000_000);
    // Ends at beat 6: 2 beats at 120 then 2 beats at 60: 2.0 + 2.0 s.
    assert_eq!(wall.end_time, 4_000_000);
    // The round-trip law: duration is exactly the interval length.
    assert_eq!(wall.duration, wall.end_time - wall.time);
    assert_eq!(wall.duration, 3_000_000);
    // Legacy geometry code 0 unpacked.
    assert_eq!(wall.y, 0);
    assert_eq!(wall.height, 5_000_000);
}

#[test]
fn newer_dialect_chains_resolve_both_ends() {
    let map = v3::Beatmap {
        version: "3.0.0".to_string(),
        color_notes: Vec::new(),
        bomb_notes: Vec::new(),
        obstacles: Vec::new(),
        burst_sliders: vec![v3::BurstSlider {
            beat: 2_000_000,
            x: 0,
            y: 0,
            color: v3::NoteColor::Red,
            direction: v3::NoteDirection::Down,
            tail_beat: 6_000_000,
            tail_x: 1_000_000,
            tail_y: 2_000_000,
            num_slices: 4,
            squish_amount: 1_000_000,
        }],
        bpm_events: vec![v3::BpmEvent { beat: 4_000_000, bpm: 240_000_000 }],
        fake_color_notes: None,
        fake_bomb_notes: None,
        fake_obstacles: None,
        fake_burst_sliders: None,
    };
    let unified = Beatmap::from_v3(map, 120_000_000).unwrap();
    let chain = &unified.chains[0];
    // Head at beat 2 under 120: 1.0 s.
    assert_eq!(chain.time, 1_000_000);
    // Tail at beat 6: 2 beats at 120 then 2 at 240: 2.0 + 0.5 s.
    assert_eq!(chain.tail_time, 2_500_000);
    assert!(chain.tail_time >= chain.time);
    assert_eq!(chain.color, NoteColor::Red);
    assert_eq!(chain.num_slices, 4);
}

#[test]
fn dispatch_then_normalize() {
    let unified = Beatmap::from_any(AnyverBeatmap::V2(v2_map()), 120_000_000).unwrap();
    assert_eq!(unified.beats.len(), 2);
    assert_eq!(unified.obstacles.len(), 1);
}

#[test]
fn invalid_tempo_input_is_rejected_by_normalization() {
    let mut map = v2_map();
    map.bpm_events = vec![
        v2::BpmEvent { beat: 8_000_000, bpm: 100_000_000 },
        v2::BpmEvent { beat: 2_000_000, bpm: 100_000_000 },
    ];
    assert_eq!(
        Beatmap::from_v2(map, 120_000_000).unwrap_err(),
        AnyverParseError::UnorderedTempoEvents
    );
}

#[test]
fn empty_collections_normalize_to_empty_collections() {
    let map = v2::Beatmap {
        version: "2.0.0".to_string(),
        notes: Vec::new(),
        obstacles: Vec::new(),
        bpm_events: Vec::new(),
    };
    let unified = Beatmap::from_v2(map, 120_000_000).unwrap();
    assert!(unified.beats.is_empty());
    assert!(unified.bombs.is_empty());
    assert!(unified.obstacles.is_empty());
    assert!(unified.chains.is_empty());
}
