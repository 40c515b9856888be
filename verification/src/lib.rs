//! Parsing and normalization of rhythm-game beatmap documents.
//!
//! Beatmap documents come in several incompatible schema dialects.  This
//! crate detects the dialect of a decoded document, undoes the numeric
//! encodings that pack extra precision or extended enumerations into
//! small-range fields, and converts beat-indexed timestamps into
//! wall-clock time through a piecewise tempo timeline.
//!
//! Fractional quantities (beats, seconds, grid positions, tempos) are
//! represented as fixed-point integers in millionths of a unit, so that
//! every computation has an exact, machine-checkable meaning.

pub mod beatmap;

pub mod bsor;

pub mod mapinfo;

pub mod raw;
