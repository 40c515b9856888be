//! The map-level metadata document: song information, audio
//! information, and the per-difficulty beatmap entries.

pub mod standard;
pub mod v2;
