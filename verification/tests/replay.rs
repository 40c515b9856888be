//! The binary replay codec: primitive readers, round trips.

use std::f32::consts::PI;

use bsmap::bsor::{
    read_bool, read_byte, read_i32, read_str, write_str, ParseError, Quat, RawF32, Replay,
    ReplayFrame, ReplayInfo, Vec3,
};

fn raw(x: f32) -> RawF32 {
    RawF32 { bits: x.to_bits() }
}

fn vec3(x: f32, y: f32, z: f32) -> Vec3 {
    Vec3 { x: raw(x), y: raw(y), z: raw(z) }
}

fn quat(q: glam::Quat) -> Quat {
    Quat { x: raw(q.x), y: raw(q.y), z: raw(q.z), w: raw(q.w) }
}

#[test]
fn test_replay_frame_ser() {
    let frame = ReplayFrame {
        time: raw(0.3),
        fps: 60,
        head: (vec3(0.0, 1.8, 0.0), quat(glam::Quat::IDENTITY)),
        left_hand: (vec3(-1.0, 1.6, 0.25), quat(glam::Quat::from_rotation_y(PI / 2.))),
        right_hand: (vec3(1.0, 1.6, 0.25), quat(glam::Quat::from_rotation_z(PI / 2.))),
    };
    let serialized_frame = frame.serialize_to_vector();
    let mut pos = 0;
    let deserialized_frame = ReplayFrame::from_reader(&serialized_frame, &mut pos).unwrap();
    assert_eq!(deserialized_frame.time, frame.time);
    assert_eq!(deserialized_frame.fps, frame.fps);
    assert_eq!(deserialized_frame.head, frame.head);
    assert_eq!(deserialized_frame.left_hand, frame.left_hand);
    assert_eq!(deserialized_frame.right_hand, frame.right_hand);
}

#[test]
fn primitive_readers() {
    let bytes = vec![7u8, 0u8, 0x2A, 0, 0, 0];
    let mut pos = 0;
    assert_eq!(read_byte(&bytes, &mut pos), Ok(7));
    assert_eq!(read_bool(&bytes, &mut pos), Ok(false));
    assert_eq!(read_i32(&bytes, &mut pos), Ok(42));
    assert_eq!(pos, 6);
    assert_eq!(read_byte(&bytes, &mut pos), Err(ParseError::UnexpectedEof));
}

#[test]
fn negative_i32_round_trips_through_bytes() {
    let bytes = vec![0xFF, 0xFF, 0xFF, 0xFF];
    let mut pos = 0;
    assert_eq!(read_i32(&bytes, &mut pos), Ok(-1));
}

#[test]
fn strings_round_trip() {
    let mut out = Vec::new();
    write_str(&mut out, "hello maps");
    let mut pos = 0;
    let back = read_str(&out, &mut pos).unwrap();
    assert_eq!(back, "hello maps");
    assert_eq!(pos, out.len());
}

#[test]
fn invalid_utf8_is_reported() {
    // Length 2, then a lone continuation byte.
    let bytes = vec![2u8, 0, 0, 0, 0xC3, 0x28];
    let mut pos = 0;
    assert_eq!(read_str(&bytes, &mut pos), Err(ParseError::Utf8Error));
    assert_eq!(pos, 0);
}

fn sample_info() -> ReplayInfo {
    ReplayInfo {
        version: "0.7.1".to_string(),
        game_version: "1.29.0".to_string(),
        timestamp: "1672531200".to_string(),
        player_id: "76561198000000000".to_string(),
        player_name: "Sample Player".to_string(),
        platform: "steam".to_string(),
        tracking_system: "Lighthouse".to_string(),
        hmd: "Index".to_string(),
        controller: "Knuckles".to_string(),
        song_hash: "A9993E364706816ABA3E25717850C26C9CD0D89D".to_string(),
        song_name: "Sample Song".to_string(),
        mapper: "Sample Mapper".to_string(),
        difficulty: "ExpertPlus".to_string(),
        score: 1_234_567,
        mode: "Standard".to_string(),
        environment: "DefaultEnvironment".to_string(),
        modifiers: vec!["DA".to_string(), "FS".to_string()],
        jump_distance: raw(18.0),
        left_handed: false,
        height: raw(1.71),
        start_time: raw(0.0),
        fail_time: raw(0.0),
        speed: raw(1.0),
    }
}

#[test]
fn replay_info_round_trips() {
    let info = sample_info();
    let serialized = info.serialize_to_vector();
    let mut pos = 0;
    let back = ReplayInfo::from_reader(&serialized, &mut pos).unwrap();
    assert_eq!(back, info);
    assert_eq!(pos, serialized.len());
}

#[test]
fn empty_modifier_list_round_trips() {
    let mut info = sample_info();
    info.modifiers = Vec::new();
    let serialized = info.serialize_to_vector();
    let mut pos = 0;
    let back = ReplayInfo::from_reader(&serialized, &mut pos).unwrap();
    assert_eq!(back.modifiers, Vec::<String>::new());
}

#[test]
fn same_map_compares_hash_mode_and_difficulty() {
    let a = sample_info();
    let mut b = sample_info();
    assert!(a.is_same_map(&b));
    b.player_name = "Someone Else".to_string();
    assert!(a.is_same_map(&b));
    b.difficulty = "Hard".to_string();
    assert!(!a.is_same_map(&b));
}

#[test]
fn whole_replay_round_trips() {
    let frame = ReplayFrame {
        time: raw(0.5),
        fps: 90,
        head: (vec3(0.0, 1.7, 0.0), quat(glam::Quat::IDENTITY)),
        left_hand: (vec3(-0.3, 1.2, 0.4), quat(glam::Quat::IDENTITY)),
        right_hand: (vec3(0.3, 1.2, 0.4), quat(glam::Quat::IDENTITY)),
    };
    let replay = Replay { info: sample_info(), frames: vec![frame, frame] };
    let bytes = replay.serialize_to_bytes();
    let back = Replay::from_bytes(&bytes).unwrap();
    assert_eq!(back, replay);
}

#[test]
fn bad_magic_is_a_header_error() {
    let bytes = vec![0u8; 16];
    assert_eq!(Replay::from_bytes(&bytes), Err(ParseError::BadHeader));
}

#[test]
fn truncated_replay_is_an_eof_error() {
    let replay = Replay { info: sample_info(), frames: Vec::new() };
    let mut bytes = replay.serialize_to_bytes();
    bytes.truncate(bytes.len() - 3);
    assert_eq!(Replay::from_bytes(&bytes), Err(ParseError::UnexpectedEof));
}
