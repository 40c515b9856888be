//! The tempo timeline: constant mapping, base-tempo override,
//! multi-segment queries, defensive rejection.

use bsmap::beatmap::standard::{BpmEvent, BpmTracker};
use bsmap::beatmap::AnyverParseError;

#[test]
fn constant_tempo_maps_beats_linearly() {
    // Base tempo 120, no events: beat 2.0 falls at 1.0 second.
    let tracker = BpmTracker::new(120_000_000, Vec::new()).unwrap();
    assert_eq!(tracker.beat_to_song_time(2_000_000), 1_000_000);
    assert_eq!(tracker.beat_to_song_time(0), 0);
    assert_eq!(tracker.beat_to_song_time(1_000_000), 500_000);
}

#[test]
fn event_at_beat_zero_overrides_base_tempo() {
    // Declared base 100, but an event at beat zero sets 150: beat 4.0
    // maps at 150 from the start, to 1.6 seconds.
    let events = vec![BpmEvent { beat: 0, bpm: 150_000_000 }];
    let tracker = BpmTracker::new(100_000_000, events).unwrap();
    assert_eq!(tracker.beat_to_song_time(4_000_000), 1_600_000);
}

#[test]
fn multi_segment_query() {
    // Base 120 with a change to 180 at beat 8.
    let events = vec![BpmEvent { beat: 8_000_000, bpm: 180_000_000 }];
    let tracker = BpmTracker::new(120_000_000, events).unwrap();
    // Beat 4 is before the change: 2.0 seconds.
    assert_eq!(tracker.beat_to_song_time(4_000_000), 2_000_000);
    // Beat 8 is the boundary: 4.0 seconds.
    assert_eq!(tracker.beat_to_song_time(8_000_000), 4_000_000);
    // Beat 12 adds 4 beats at 180: 4.0 + 1.333... seconds.
    assert_eq!(tracker.beat_to_song_time(12_000_000), 5_333_333);
}

#[test]
fn timeline_is_monotone_on_samples() {
    let events = vec![
        BpmEvent { beat: 4_000_000, bpm: 60_000_000 },
        BpmEvent { beat: 10_000_000, bpm: 240_000_000 },
    ];
    let tracker = BpmTracker::new(120_000_000, events).unwrap();
    let mut last = 0;
    for beat in 0..30u64 {
        let t = tracker.beat_to_song_time(beat * 500_000);
        assert!(t >= last);
        last = t;
    }
}

#[test]
fn zero_tempo_is_rejected() {
    assert_eq!(
        BpmTracker::new(0, Vec::new()).unwrap_err(),
        AnyverParseError::ZeroTempo
    );
    let events = vec![BpmEvent { beat: 1_000_000, bpm: 0 }];
    assert_eq!(
        BpmTracker::new(120_000_000, events).unwrap_err(),
        AnyverParseError::ZeroTempo
    );
}

#[test]
fn unordered_events_are_rejected() {
    let events = vec![
        BpmEvent { beat: 8_000_000, bpm: 100_000_000 },
        BpmEvent { beat: 4_000_000, bpm: 110_000_000 },
    ];
    assert_eq!(
        BpmTracker::new(120_000_000, events).unwrap_err(),
        AnyverParseError::UnorderedTempoEvents
    );
}

#[test]
fn equal_event_beats_are_allowed() {
    let events = vec![
        BpmEvent { beat: 4_000_000, bpm: 100_000_000 },
        BpmEvent { beat: 4_000_000, bpm: 200_000_000 },
    ];
    let tracker = BpmTracker::new(120_000_000, events).unwrap();
    // The later segment wins at the tied beat.
    assert_eq!(tracker.beat_to_song_time(4_000_000), 2_000_000);
    // One beat later at 200: 0.3 more seconds.
    assert_eq!(tracker.beat_to_song_time(5_000_000), 2_300_000);
}
