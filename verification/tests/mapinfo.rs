//! Map-level metadata: the info adapter, difficulty and
//! characteristic names, the content hash.

use bsmap::beatmap::v2 as beatmap_v2;
use bsmap::beatmap::{AnyverBeatmap, AnyverParseError};
use bsmap::mapinfo::standard::{
    content_hash, find_info, Beatmap as AssembledBeatmap, BeatmapCharacteristic, Difficulty,
    MapInfo as AssembledInfo, MapReadError,
};
use bsmap::mapinfo::v2::{DifficultyRank, MapInfo};
use bsmap::raw::RawValue;

fn obj(fields: Vec<(&str, RawValue)>) -> RawValue {
    RawValue::Obj(fields.into_iter().map(|(k, v)| (k.to_string(), v)).collect())
}

fn num(micros: i64) -> RawValue {
    RawValue::Num(micros)
}

fn text(s: &str) -> RawValue {
    RawValue::Str(s.to_string())
}

fn info_doc() -> RawValue {
    obj(vec![
        ("_version", text("2.0.0")),
        ("_songName", text("Sample Song")),
        ("_songSubName", text("")),
        ("_songAuthorName", text("Sample Artist")),
        ("_levelAuthorName", text("Sample Mapper")),
        ("_beatsPerMinute", num(128_000_000)),
        ("_shuffle", num(0)),
        ("_shufflePeriod", num(500_000)),
        ("_previewStartTime", num(12_000_000)),
        ("_previewDuration", num(10_000_000)),
        ("_songFilename", text("song.egg")),
        ("_coverImageFilename", text("cover.jpg")),
        ("_environmentName", text("DefaultEnvironment")),
        ("_songTimeOffset", num(0)),
        (
            "_difficultyBeatmapSets",
            RawValue::Arr(vec![obj(vec![
                ("_beatmapCharacteristicName", text("Standard")),
                (
                    "_difficultyBeatmaps",
                    RawValue::Arr(vec![obj(vec![
                        ("_difficulty", text("ExpertPlus")),
                        ("_difficultyRank", num(9_000_000)),
                        ("_beatmapFilename", text("ExpertPlusStandard.dat")),
                        ("_noteJumpMovementSpeed", num(18_000_000)),
                        ("_noteJumpStartBeatOffset", num(-500_000)),
                    ])]),
                ),
            ])]),
        ),
    ])
}

#[test]
fn info_document_adapts() {
    let info = MapInfo::from_raw(&info_doc()).unwrap();
    assert_eq!(info.song_name, "Sample Song");
    assert_eq!(info.bpm, 128_000_000);
    assert_eq!(info.beatmap_sets.len(), 1);
    let set = &info.beatmap_sets[0];
    assert_eq!(set.characteristic, "Standard");
    assert_eq!(set.beatmaps.len(), 1);
    assert_eq!(set.beatmaps[0].difficulty, "ExpertPlus");
    assert_eq!(set.beatmaps[0].difficulty_rank, DifficultyRank::ExpertPlus);
    assert_eq!(set.beatmaps[0].njs, 18_000_000);
    assert_eq!(set.beatmaps[0].njs_offset, -500_000);
}

#[test]
fn characteristic_names_round_trip() {
    for name in ["Standard", "NoArrows", "OneSaber", "360Degree", "90Degree", "Legacy"] {
        let c = BeatmapCharacteristic::from_name(name);
        assert_eq!(c.name(), name);
    }
    let other = BeatmapCharacteristic::from_name("Lawless");
    assert_eq!(other, BeatmapCharacteristic::Other("Lawless".to_string()));
    assert_eq!(other.name(), "Lawless");
}

#[test]
fn difficulty_names_and_ranks() {
    assert_eq!(Difficulty::from_name("Easy"), Ok(Difficulty::Easy));
    assert_eq!(Difficulty::from_name("Expert+"), Ok(Difficulty::ExpertPlus));
    assert_eq!(Difficulty::from_name("ExpertPlus"), Ok(Difficulty::ExpertPlus));
    assert_eq!(
        Difficulty::from_name("Impossible"),
        Err("Impossible".to_string())
    );
    assert_eq!(Difficulty::Hard.rank(), 5);
    assert_eq!(Difficulty::from_rank(7), Some(Difficulty::Expert));
    assert_eq!(Difficulty::from_rank(2), None);
    for d in [
        Difficulty::Easy,
        Difficulty::Normal,
        Difficulty::Hard,
        Difficulty::Expert,
        Difficulty::ExpertPlus,
    ] {
        assert_eq!(Difficulty::from_rank(d.rank()), Some(d));
    }
}

#[test]
fn metadata_document_is_found_case_insensitively() {
    let names = vec![
        "song.egg".to_string(),
        "Info.DAT".to_string(),
        "ExpertPlusStandard.dat".to_string(),
    ];
    assert_eq!(find_info(&names), Some(1));
    let none = vec!["song.egg".to_string()];
    assert_eq!(find_info(&none), None);
}

#[test]
fn content_hash_of_known_bytes() {
    // The digest of no bytes at all is a published constant.
    assert_eq!(
        content_hash(&Vec::new()),
        "DA39A3EE5E6B4B0D3255BFEF95601890AFD80709"
    );
    // Feeding "abc" split over two parts hashes their concatenation.
    let parts = vec![vec![97u8], vec![98u8, 99u8]];
    assert_eq!(
        content_hash(&parts),
        "A9993E364706816ABA3E25717850C26C9CD0D89D"
    );
}

#[test]
fn per_difficulty_assembly_reports_bad_difficulty() {
    let entry = bsmap::mapinfo::v2::Beatmap {
        difficulty: "Impossible".to_string(),
        difficulty_rank: DifficultyRank::Unknown,
        filename: "x.dat".to_string(),
        njs: 16_000_000,
        njs_offset: 0,
    };
    let doc = AnyverBeatmap::V2(beatmap_v2::Beatmap {
        version: "2.0.0".to_string(),
        notes: Vec::new(),
        obstacles: Vec::new(),
        bpm_events: Vec::new(),
    });
    match AssembledBeatmap::from_entry(&"Standard".to_string(), &entry, doc, 120_000_000) {
        Err(MapReadError::BadDifficulty(name)) => assert_eq!(name, "Impossible"),
        other => panic!("expected a bad-difficulty report, got {other:?}"),
    }
}

#[test]
fn per_difficulty_assembly_reports_map_errors() {
    let entry = bsmap::mapinfo::v2::Beatmap {
        difficulty: "Hard".to_string(),
        difficulty_rank: DifficultyRank::Hard,
        filename: "x.dat".to_string(),
        njs: 16_000_000,
        njs_offset: 0,
    };
    let doc = AnyverBeatmap::V2(beatmap_v2::Beatmap {
        version: "2.0.0".to_string(),
        notes: Vec::new(),
        obstacles: Vec::new(),
        bpm_events: vec![beatmap_v2::BpmEvent { beat: 1_000_000, bpm: 0 }],
    });
    match AssembledBeatmap::from_entry(&"Standard".to_string(), &entry, doc, 120_000_000) {
        Err(MapReadError::MapParseError(e)) => assert_eq!(e, AnyverParseError::ZeroTempo),
        other => panic!("expected a map parse report, got {other:?}"),
    }
}

#[test]
fn assembly_builds_song_and_audio_metadata() {
    let info = MapInfo::from_raw(&info_doc()).unwrap();
    let assembled = AssembledInfo::assemble("ABCD".to_string(), info, Vec::new());
    assert_eq!(assembled.hash, "ABCD");
    assert_eq!(assembled.song.title, "Sample Song");
    // An empty subtitle field means no subtitle at all.
    assert_eq!(assembled.song.subtitle, None);
    assert_eq!(assembled.song.author, "Sample Artist");
    assert_eq!(assembled.song.cover_image_path, "cover.jpg");
    assert_eq!(assembled.audio.bpm, 128_000_000);
    assert_eq!(assembled.audio.audio_path, "song.egg");
    assert_eq!(assembled.maps.len(), 0);
}
