//! Numeric decoders shared by the beatmap dialects.

use vstd::prelude::*;

verus! {

/// Millionths of one unit: the scale of every fixed-point quantity in
/// this crate.
pub const MICROS_PER_UNIT: i64 = 1_000_000;

/// Meaning of a grid-coordinate field that may carry the overloaded
/// precision encoding, in millionths of a grid unit.
///
/// A value in the nominal range (-1000, 1000) is the coordinate itself;
/// a value outside it packs a sub-unit offset: `v / 1000 + 1` units when
/// negative, `v / 1000 - 1` units when positive.
pub open spec fn spec_precision(v: int) -> int {
    if -1000 < v < 1000 {
        v * 1_000_000
    } else if v >= 1000 {
        (v - 1000) * 1000
    } else {
        (v + 1000) * 1000
    }
}

/// Decoding a value already in the nominal small range returns it
/// unchanged; the decoder is a pure function, so equal inputs always
/// decode equally.
pub proof fn lemma_precision_nominal_unchanged(v: int)
    requires
        -1000 < v < 1000,
    ensures
        spec_precision(v) == v * 1_000_000,
{
}

/// Decode a grid-coordinate field that may carry the overloaded
/// precision encoding.  Total: every input has a meaning.
pub fn deserialize_precision(v: i32) -> (r: i64)
    ensures
        r == spec_precision(v as int),
        -1000 < v < 1000 ==> r == v * 1_000_000,
{
    if v > -1000 && v < 1000 {
        (v as i64) * 1_000_000
    } else if v >= 1000 {
        ((v as i64) - 1000) * 1000
    } else {
        ((v as i64) + 1000) * 1000
    }
}

/// Vertical position and height of a wall whose geometry is packed
/// into one legacy code, in millionths of a unit: `(position, height)`.
///
/// Code 0 is a full-height wall, code 1 a ceiling wall.  Any other
/// code is unpacked over two piecewise-scaled sub-ranges: the coarse
/// height comes from the (optionally offset) code divided by 1000 and
/// rescaled to a 0-5 unit range; in the extended sub-range
/// [4001, 410000] the remainder modulo 1000, rescaled against a
/// divisor of 750 into the same range, yields a fine vertical offset
/// from a fixed base.  The magic ranges and scale constants are fixed
/// protocol constants of a community convention.
pub open spec fn spec_wall_geometry(t: u32) -> (int, int) {
    if t == 0 {
        (0, 5_000_000)
    } else if t == 1 {
        (2_000_000, 3_000_000)
    } else if 4001 <= t <= 410000 {
        let off = t - 4001;
        ((20000 * (off % 1000)) / 3 - 666_000, 5000 * (off / 1000))
    } else {
        (-666_000, 5000 * (t - 1000))
    }
}

/// Unpack the vertical geometry of a legacy wall code.  Total: every
/// code has a meaning.
pub fn decode_wall_geometry(t: u32) -> (r: (i64, i64))
    ensures
        (r.0 as int, r.1 as int) == spec_wall_geometry(t),
{
    if t == 0 {
        (0, 5_000_000)
    } else if t == 1 {
        (2_000_000, 3_000_000)
    } else if 4001 <= t && t <= 410000 {
        let off = t - 4001;
        let coarse = off / 1000;
        let fine = off % 1000;
        let y = ((20000u64 * (fine as u64)) / 3) as i64 - 666_000;
        (y, 5000 * (coarse as i64))
    } else {
        (-666_000, 5000 * ((t as i64) - 1000))
    }
}

/// The elapsed time that `delta` beats span at tempo `bpm`, in
/// millionths of a second; beats and tempo are in millionths too.
pub open spec fn spec_span_micros(delta: u64, bpm: u64) -> int {
    (delta * 60_000_000) as int / (bpm as int)
}

/// Clamp a non-negative mathematical time to the representable range.
pub open spec fn spec_sat_u64(x: int) -> u64 {
    if x > u64::MAX {
        u64::MAX
    } else if x < 0 {
        0
    } else {
        x as u64
    }
}

/// The time reached by starting at `time` and advancing `delta` beats
/// at tempo `bpm`, saturating at the representable top.
pub open spec fn spec_advance(time: u64, delta: u64, bpm: u64) -> u64 {
    spec_sat_u64(time + spec_span_micros(delta, bpm))
}

/// Advance a time by a span of beats at one tempo.
pub fn advance_time(time: u64, delta: u64, bpm: u64) -> (t: u64)
    requires
        bpm >= 1,
    ensures
        t == spec_advance(time, delta, bpm),
{
    let span: u128 = (delta as u128) * 60_000_000 / (bpm as u128);
    let total: u128 = (time as u128) + span;
    if total > u64::MAX as u128 {
        u64::MAX
    } else {
        total as u64
    }
}

/// Beat addition clamped to the representable range.
pub open spec fn spec_sat_add(a: u64, b: u64) -> u64 {
    if a + b > u64::MAX {
        u64::MAX
    } else {
        (a + b) as u64
    }
}

/// Add two beat coordinates, saturating at the representable top.
pub fn sat_add(a: u64, b: u64) -> (r: u64)
    ensures
        r == spec_sat_add(a, b),
{
    if b > u64::MAX - a {
        u64::MAX
    } else {
        a + b
    }
}

} // verus!
