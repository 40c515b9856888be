//! The unified, version-independent object model, and the tempo
//! timeline that resolves beat coordinates into wall-clock time.
//!
//! Beats, tempos and grid positions are in millionths of a unit;
//! times are in millionths of a second.

use vstd::arithmetic::div_mod::{lemma_div_is_ordered, lemma_div_pos_is_pos};
use vstd::arithmetic::mul::{lemma_mul_inequality, lemma_mul_nonnegative};
use vstd::prelude::*;

use crate::beatmap::util::{
    advance_time, decode_wall_geometry, sat_add, spec_advance, spec_sat_add, spec_wall_geometry,
};
use crate::beatmap::{v2, v3, AnyverBeatmap, AnyverBeatmapView, AnyverParseError, ParseErrorView};

verus! {

/// The color of a tap target in the unified model.
#[derive(Debug, Clone, Copy, PartialEq, Eq, Hash, Structural)]
pub enum NoteColor {
    Red,
    Blue,
}

impl NoteColor {
    /// The unified color of an older-dialect note type: bombs carry
    /// no color.
    pub open spec fn spec_from_v2(t: v2::NoteType) -> Option<NoteColor> {
        match t {
            v2::NoteType::Red => Some(NoteColor::Red),
            v2::NoteType::Blue => Some(NoteColor::Blue),
            v2::NoteType::Bomb => None,
        }
    }

    pub fn from_v2(t: v2::NoteType) -> (r: Option<NoteColor>)
        ensures
            r == Self::spec_from_v2(t),
    {
        match t {
            v2::NoteType::Red => Some(NoteColor::Red),
            v2::NoteType::Blue => Some(NoteColor::Blue),
            v2::NoteType::Bomb => None,
        }
    }

    /// The unified color of a newer-dialect color.
    pub open spec fn spec_from_v3(c: v3::NoteColor) -> NoteColor {
        match c {
            v3::NoteColor::Red => NoteColor::Red,
            v3::NoteColor::Blue => NoteColor::Blue,
        }
    }

    pub fn from_v3(c: v3::NoteColor) -> (r: NoteColor)
        ensures
            r == Self::spec_from_v3(c),
    {
        match c {
            v3::NoteColor::Red => NoteColor::Red,
            v3::NoteColor::Blue => NoteColor::Blue,
        }
    }
}

/// A cut direction in the unified model: eight compass points or
/// "any".  Dialect-specific extended encodings are fully resolved
/// before a value enters this type.
#[derive(Debug, Clone, Copy, PartialEq, Eq, Hash, Structural)]
pub enum NoteDirection {
    Up,
    Down,
    Left,
    Right,
    UpLeft,
    UpRight,
    DownLeft,
    DownRight,
    Any,
}

impl NoteDirection {
    /// The unified direction of an older-dialect direction.
    pub open spec fn spec_from_v2(d: v2::NoteDirection) -> NoteDirection {
        match d {
            v2::NoteDirection::Up => NoteDirection::Up,
            v2::NoteDirection::Down => NoteDirection::Down,
            v2::NoteDirection::Left => NoteDirection::Left,
            v2::NoteDirection::Right => NoteDirection::Right,
            v2::NoteDirection::UpLeft => NoteDirection::UpLeft,
            v2::NoteDirection::UpRight => NoteDirection::UpRight,
            v2::NoteDirection::DownLeft => NoteDirection::DownLeft,
            v2::NoteDirection::DownRight => NoteDirection::DownRight,
            v2::NoteDirection::Any => NoteDirection::Any,
        }
    }

    pub fn from_v2(d: v2::NoteDirection) -> (r: NoteDirection)
        ensures
            r == Self::spec_from_v2(d),
    {
        match d {
            v2::NoteDirection::Up => NoteDirection::Up,
            v2::NoteDirection::Down => NoteDirection::Down,
            v2::NoteDirection::Left => NoteDirection::Left,
            v2::NoteDirection::Right => NoteDirection::Right,
            v2::NoteDirection::UpLeft => NoteDirection::UpLeft,
            v2::NoteDirection::UpRight => NoteDirection::UpRight,
            v2::NoteDirection::DownLeft => NoteDirection::DownLeft,
            v2::NoteDirection::DownRight => NoteDirection::DownRight,
            v2::NoteDirection::Any => NoteDirection::Any,
        }
    }

    /// The unified direction of a newer-dialect direction.
    pub open spec fn spec_from_v3(d: v3::NoteDirection) -> NoteDirection {
        match d {
            v3::NoteDirection::Up => NoteDirection::Up,
            v3::NoteDirection::Down => NoteDirection::Down,
            v3::NoteDirection::Left => NoteDirection::Left,
            v3::NoteDirection::Right => NoteDirection::Right,
            v3::NoteDirection::UpLeft => NoteDirection::UpLeft,
            v3::NoteDirection::UpRight => NoteDirection::UpRight,
            v3::NoteDirection::DownLeft => NoteDirection::DownLeft,
            v3::NoteDirection::DownRight => NoteDirection::DownRight,
            v3::NoteDirection::Any => NoteDirection::Any,
        }
    }

    pub fn from_v3(d: v3::NoteDirection) -> (r: NoteDirection)
        ensures
            r == Self::spec_from_v3(d),
    {
        match d {
            v3::NoteDirection::Up => NoteDirection::Up,
            v3::NoteDirection::Down => NoteDirection::Down,
            v3::NoteDirection::Left => NoteDirection::Left,
            v3::NoteDirection::Right => NoteDirection::Right,
            v3::NoteDirection::UpLeft => NoteDirection::UpLeft,
            v3::NoteDirection::UpRight => NoteDirection::UpRight,
            v3::NoteDirection::DownLeft => NoteDirection::DownLeft,
            v3::NoteDirection::DownRight => NoteDirection::DownRight,
            v3::NoteDirection::Any => NoteDirection::Any,
        }
    }
}

/// A directional tap target with both coordinates resolved: `beat` in
/// musical time, `time` in millionths of a second.
#[derive(Debug, Clone, Copy, PartialEq, Eq)]
pub struct Beat {
    pub beat: u64,
    pub time: u64,
    pub x: i64,
    pub y: i64,
    pub angle_offset: Option<i64>,
    pub color: NoteColor,
    pub direction: NoteDirection,
}

/// A non-directional avoidance target.
#[derive(Debug, Clone, Copy, PartialEq, Eq)]
pub struct Bomb {
    pub beat: u64,
    pub time: u64,
    pub x: i64,
    pub y: i64,
}

/// A rectangular wall spanning a beat interval; `duration` is always
/// `end_time - time`.
#[derive(Debug, Clone, Copy, PartialEq, Eq)]
pub struct Obstacle {
    pub beat: u64,
    pub time: u64,
    pub x: i64,
    pub y: i64,
    pub duration_beats: u64,
    pub duration: u64,
    pub end_time: u64,
    pub width: i64,
    pub height: i64,
}

/// A slider from a head note to a tail position; whenever
/// `tail_beat >= beat`, also `tail_time >= time`.
#[derive(Debug, Clone, Copy, PartialEq, Eq)]
pub struct Chain {
    pub beat: u64,
    pub time: u64,
    pub x: i64,
    pub y: i64,
    pub color: NoteColor,
    pub direction: NoteDirection,
    pub tail_beat: u64,
    pub tail_time: u64,
    pub tail_x: i64,
    pub tail_y: i64,
    pub num_slices: u8,
    pub squish_factor: i64,
}

/// A tempo-change event in beat units: at `beat`, the tempo becomes
/// `bpm`.
#[derive(Debug, Clone, Copy, PartialEq, Eq)]
pub struct BpmEvent {
    pub beat: u64,
    pub bpm: u64,
}

impl BpmEvent {
    pub open spec fn spec_from_v2(e: v2::BpmEvent) -> BpmEvent {
        BpmEvent { beat: e.beat, bpm: e.bpm }
    }

    pub fn from_v2(e: v2::BpmEvent) -> (r: BpmEvent)
        ensures
            r == Self::spec_from_v2(e),
    {
        BpmEvent { beat: e.beat, bpm: e.bpm }
    }

    pub open spec fn spec_from_v3(e: v3::BpmEvent) -> BpmEvent {
        BpmEvent { beat: e.beat, bpm: e.bpm }
    }

    pub fn from_v3(e: v3::BpmEvent) -> (r: BpmEvent)
        ensures
            r == Self::spec_from_v3(e),
    {
        BpmEvent { beat: e.beat, bpm: e.bpm }
    }
}


/// A tempo segment: from `start_beat` (inclusive) onward, time flows
/// at `bpm`, and `start_beat` itself falls at `start_time`.
#[derive(Debug, Clone, Copy, PartialEq, Eq, Structural)]
pub struct BpmChangeEvent {
    pub bpm: u64,
    pub start_time: u64,
    pub start_beat: u64,
}

/// Well-formed segment sequences: positive tempos, a first segment at
/// the origin, beat-ordered starts, and each start time computed from
/// the segment before it.
pub open spec fn changes_wf(s: Seq<BpmChangeEvent>) -> bool {
    &&& forall|i: int| 0 <= i < s.len() ==> (#[trigger] s[i]).bpm >= 1
    &&& s.len() > 0 ==> s[0].start_beat == 0 && s[0].start_time == 0
    &&& forall|i: int|
        0 <= i < s.len() - 1 ==> (#[trigger] s[i]).start_beat <= s[i + 1].start_beat
    &&& forall|i: int|
        0 <= i < s.len() - 1 ==> (#[trigger] s[i + 1]).start_time == spec_advance(
            s[i].start_time,
            (s[i + 1].start_beat - s[i].start_beat) as u64,
            s[i].bpm,
        )
}

/// The piecewise tempo timeline: a base tempo and beat-ordered
/// segments.  With no segments the timeline is the constant mapping
/// at `base_bpm`.
#[derive(Debug, Clone)]
pub struct BpmTracker {
    pub base_bpm: u64,
    pub changes: Vec<BpmChangeEvent>,
}

/// The index of the last segment whose start beat is at or before
/// `beat` (ties resolve to the later segment).
pub open spec fn seg_index(s: Seq<BpmChangeEvent>, beat: u64) -> int
    decreases s.len(),
{
    if s.len() <= 1 {
        0
    } else if s.last().start_beat <= beat {
        s.len() - 1
    } else {
        seg_index(s.drop_last(), beat)
    }
}

/// What a beat maps to under a base tempo and a segment sequence.
pub open spec fn spec_eval_changes(s: Seq<BpmChangeEvent>, base: u64, beat: u64) -> u64 {
    if s.len() == 0 {
        spec_advance(0, beat, base)
    } else {
        let i = seg_index(s, beat);
        spec_advance(s[i].start_time, (beat - s[i].start_beat) as u64, s[i].bpm)
    }
}

/// Advancing by a larger span never yields an earlier time.
pub proof fn lemma_advance_le(time: u64, d1: u64, d2: u64, bpm: u64)
    requires
        d1 <= d2,
        bpm >= 1,
    ensures
        spec_advance(time, d1, bpm) <= spec_advance(time, d2, bpm),
{
    lemma_mul_inequality(d1 as int, d2 as int, 60_000_000);
    lemma_div_is_ordered(d1 * 60_000_000, d2 * 60_000_000, bpm as int);
}

/// Advancing never moves time backwards.
pub proof fn lemma_advance_ge(time: u64, d: u64, bpm: u64)
    requires
        bpm >= 1,
    ensures
        spec_advance(time, d, bpm) >= time,
{
    lemma_mul_nonnegative(d as int, 60_000_000);
    lemma_div_pos_is_pos(d * 60_000_000, bpm as int);
}

/// Beat order is transitive across a well-formed segment sequence.
pub proof fn lemma_starts_sorted(s: Seq<BpmChangeEvent>, j: int, k: int)
    requires
        changes_wf(s),
        0 <= j <= k < s.len(),
    ensures
        s[j].start_beat <= s[k].start_beat,
    decreases k - j,
{
    if j < k {
        lemma_starts_sorted(s, j + 1, k);
    }
}

/// Start times never decrease along a well-formed segment sequence.
pub proof fn lemma_start_times_ordered(s: Seq<BpmChangeEvent>, j: int, k: int)
    requires
        changes_wf(s),
        0 <= j <= k < s.len(),
    ensures
        s[j].start_time <= s[k].start_time,
    decreases k - j,
{
    if j < k {
        lemma_advance_ge(s[j].start_time, (s[j + 1].start_beat - s[j].start_beat) as u64, s[j].bpm);
        lemma_start_times_ordered(s, j + 1, k);
    }
}

/// The segment index is always inside the sequence.
pub proof fn lemma_seg_index_range(s: Seq<BpmChangeEvent>, beat: u64)
    requires
        s.len() > 0,
    ensures
        0 <= seg_index(s, beat) < s.len(),
    decreases s.len(),
{
    if s.len() > 1 && s.last().start_beat > beat {
        lemma_seg_index_range(s.drop_last(), beat);
    }
}

/// A well-formed prefix of a well-formed sequence stays well-formed.
pub proof fn lemma_changes_wf_drop_last(s: Seq<BpmChangeEvent>)
    requires
        changes_wf(s),
        s.len() > 0,
    ensures
        changes_wf(s.drop_last()),
{
    assert forall|i: int| 0 <= i < s.len() - 2 implies (#[trigger] s.drop_last()[
        i + 1
    ]).start_time == spec_advance(
        s.drop_last()[i].start_time,
        (s.drop_last()[i + 1].start_beat - s.drop_last()[i].start_beat) as u64,
        s.drop_last()[i].bpm,
    ) by {
        assert(s.drop_last()[i] == s[i]);
        assert(s.drop_last()[i + 1] == s[i + 1]);
    }
}

/// The chosen segment starts at or before the queried beat, and the
/// next one (if any) starts strictly after it.
pub proof fn lemma_seg_index_props(s: Seq<BpmChangeEvent>, beat: u64)
    requires
        changes_wf(s),
        s.len() > 0,
    ensures
        0 <= seg_index(s, beat) < s.len(),
        s[seg_index(s, beat)].start_beat <= beat,
        seg_index(s, beat) < s.len() - 1 ==> beat < s[seg_index(s, beat) + 1].start_beat,
    decreases s.len(),
{
    lemma_seg_index_range(s, beat);
    if s.len() == 1 {
    } else if s.last().start_beat <= beat {
    } else {
        lemma_changes_wf_drop_last(s);
        lemma_seg_index_props(s.drop_last(), beat);
        let i = seg_index(s, beat);
        assert(s.drop_last()[i] == s[i]);
        if i < s.len() - 2 {
            assert(s.drop_last()[i + 1] == s[i + 1]);
        }
    }
}

/// Any index that starts at or before the beat, with the next one
/// after it, is the segment index.
pub proof fn lemma_seg_index_unique(s: Seq<BpmChangeEvent>, beat: u64, i: int)
    requires
        changes_wf(s),
        0 <= i < s.len(),
        s[i].start_beat <= beat,
        i < s.len() - 1 ==> beat < s[i + 1].start_beat,
    ensures
        seg_index(s, beat) == i,
    decreases s.len(),
{
    if s.len() <= 1 {
    } else if s.last().start_beat <= beat {
        if i < s.len() - 1 {
            lemma_starts_sorted(s, i + 1, s.len() - 1);
            assert(false);
        }
    } else {
        assert(i < s.len() - 1);
        lemma_changes_wf_drop_last(s);
        assert(s.drop_last()[i] == s[i]);
        if i < s.len() - 2 {
            assert(s.drop_last()[i + 1] == s[i + 1]);
        }
        lemma_seg_index_unique(s.drop_last(), beat, i);
    }
}

/// A later beat never selects an earlier segment.
pub proof fn lemma_seg_index_monotone(s: Seq<BpmChangeEvent>, b1: u64, b2: u64)
    requires
        s.len() > 0,
        b1 <= b2,
    ensures
        seg_index(s, b1) <= seg_index(s, b2),
    decreases s.len(),
{
    if s.len() <= 1 {
    } else if s.last().start_beat <= b1 {
    } else if s.last().start_beat <= b2 {
        lemma_seg_index_range(s.drop_last(), b1);
    } else {
        lemma_seg_index_monotone(s.drop_last(), b1, b2);
    }
}

/// Mapping beats to times through a well-formed segment sequence is
/// monotone.
pub proof fn lemma_eval_changes_monotone(s: Seq<BpmChangeEvent>, base: u64, b1: u64, b2: u64)
    requires
        base >= 1,
        changes_wf(s),
        b1 <= b2,
    ensures
        spec_eval_changes(s, base, b1) <= spec_eval_changes(s, base, b2),
{
    if s.len() == 0 {
        lemma_advance_le(0, b1, b2, base);
    } else {
        lemma_seg_index_props(s, b1);
        lemma_seg_index_props(s, b2);
        lemma_seg_index_monotone(s, b1, b2);
        let i1 = seg_index(s, b1);
        let i2 = seg_index(s, b2);
        if i1 == i2 {
            lemma_advance_le(
                s[i1].start_time,
                (b1 - s[i1].start_beat) as u64,
                (b2 - s[i1].start_beat) as u64,
                s[i1].bpm,
            );
        } else {
            lemma_advance_le(
                s[i1].start_time,
                (b1 - s[i1].start_beat) as u64,
                (s[i1 + 1].start_beat - s[i1].start_beat) as u64,
                s[i1].bpm,
            );
            lemma_start_times_ordered(s, i1 + 1, i2);
            lemma_advance_ge(s[i2].start_time, (b2 - s[i2].start_beat) as u64, s[i2].bpm);
        }
    }
}

impl BpmTracker {
    /// A usable timeline: a positive base tempo and well-formed
    /// segments.
    pub open spec fn wf(self) -> bool {
        self.base_bpm >= 1 && changes_wf(self.changes@)
    }

    /// What a beat maps to under this timeline, in millionths of a
    /// second.
    pub open spec fn spec_beat_to_song_time(self, beat: u64) -> u64 {
        spec_eval_changes(self.changes@, self.base_bpm, beat)
    }

    /// Later beats never map to earlier times: the timeline is a
    /// monotone function from beats to seconds.
    pub proof fn lemma_beat_to_song_time_monotonic(self, b1: u64, b2: u64)
        requires
            self.wf(),
            b1 <= b2,
        ensures
            self.spec_beat_to_song_time(b1) <= self.spec_beat_to_song_time(b2),
    {
        lemma_eval_changes_monotone(self.changes@, self.base_bpm, b1, b2);
    }

    /// Resolve a beat coordinate into elapsed time: find the last
    /// segment whose start beat is at or before the queried beat and
    /// evaluate within it; with no segments, evaluate the constant
    /// mapping at the base tempo.
    pub fn beat_to_song_time(&self, beat: u64) -> (t: u64)
        requires
            self.wf(),
        ensures
            t == self.spec_beat_to_song_time(beat),
    {
        let n = self.changes.len();
        if n == 0 {
            return advance_time(0, beat, self.base_bpm);
        }
        let mut i: usize = 0;
        while i + 1 < n && self.changes[i + 1].start_beat <= beat
            invariant
                n == self.changes@.len(),
                0 < n,
                i < n,
                changes_wf(self.changes@),
                self.changes@[i as int].start_beat <= beat,
            decreases n - i,
        {
            i = i + 1;
        }
        proof {
            lemma_seg_index_unique(self.changes@, beat, i as int);
        }
        let c = self.changes[i];
        advance_time(c.start_time, beat - c.start_beat, c.bpm)
    }
}


/// Acceptable construction input: a positive base tempo, positive
/// event tempos, and event beats that never decrease.
pub open spec fn events_valid(base_bpm: u64, events: Seq<BpmEvent>) -> bool {
    &&& base_bpm >= 1
    &&& forall|i: int| 0 <= i < events.len() ==> (#[trigger] events[i]).bpm >= 1
    &&& forall|i: int|
        0 <= i < events.len() - 1 ==> (#[trigger] events[i]).beat <= events[i + 1].beat
}

/// The tempo in force at beat zero: an event at beat zero overrides
/// the declared base tempo entirely.
pub open spec fn spec_base_bpm(base_bpm: u64, events: Seq<BpmEvent>) -> u64 {
    if events.len() > 0 && events[0].beat == 0 {
        events[0].bpm
    } else {
        base_bpm
    }
}

/// The segments seeded at the origin with `seed` and extended by one
/// segment per event, each start time computed from the segment
/// before it.
pub open spec fn spec_segments(seed: u64, events: Seq<BpmEvent>) -> Seq<BpmChangeEvent>
    decreases events.len(),
{
    if events.len() == 0 {
        seq![BpmChangeEvent { bpm: seed, start_time: 0, start_beat: 0 }]
    } else {
        let prev = spec_segments(seed, events.drop_last());
        let last = prev.last();
        let e = events.last();
        prev.push(
            BpmChangeEvent {
                bpm: e.bpm,
                start_time: spec_advance(
                    last.start_time,
                    (e.beat - last.start_beat) as u64,
                    last.bpm,
                ),
                start_beat: e.beat,
            },
        )
    }
}

/// The segment sequence a construction input denotes: empty for no
/// events; otherwise seeded at the origin, with an event at beat zero
/// consumed by the seed.
pub open spec fn spec_changes(base_bpm: u64, events: Seq<BpmEvent>) -> Seq<BpmChangeEvent> {
    if events.len() == 0 {
        Seq::empty()
    } else if events[0].beat == 0 {
        spec_segments(events[0].bpm, events.drop_first())
    } else {
        spec_segments(base_bpm, events)
    }
}

/// What a beat maps to under a construction input, in millionths of
/// a second.
pub open spec fn spec_time_at(base_bpm: u64, events: Seq<BpmEvent>, beat: u64) -> u64 {
    spec_eval_changes(spec_changes(base_bpm, events), spec_base_bpm(base_bpm, events), beat)
}

/// A valid construction input denotes a well-formed segment
/// sequence.
pub proof fn lemma_changes_wf(base_bpm: u64, events: Seq<BpmEvent>)
    requires
        events_valid(base_bpm, events),
    ensures
        changes_wf(spec_changes(base_bpm, events)),
        spec_base_bpm(base_bpm, events) >= 1,
{
    if events.len() == 0 {
    } else if events[0].beat == 0 {
        let rest = events.drop_first();
        assert forall|i: int| 0 <= i < rest.len() implies (#[trigger] rest[i]).bpm >= 1 by {
            assert(rest[i] == events[i + 1]);
        }
        assert forall|i: int| 0 <= i < rest.len() - 1 implies (#[trigger] rest[i]).beat <= rest[i
            + 1].beat by {
            assert(rest[i] == events[i + 1]);
            assert(rest[i + 1] == events[i + 2]);
        }
        lemma_segments_wf(events[0].bpm, rest);
    } else {
        lemma_segments_wf(base_bpm, events);
    }
}

/// For beats `b1 <= b2` and any valid construction input, the time
/// of `b1` never exceeds the time of `b2`: the timeline a document's
/// events denote is monotone.
pub proof fn lemma_time_at_monotonic(base_bpm: u64, events: Seq<BpmEvent>, b1: u64, b2: u64)
    requires
        events_valid(base_bpm, events),
        b1 <= b2,
    ensures
        spec_time_at(base_bpm, events, b1) <= spec_time_at(base_bpm, events, b2),
{
    lemma_changes_wf(base_bpm, events);
    lemma_eval_changes_monotone(
        spec_changes(base_bpm, events),
        spec_base_bpm(base_bpm, events),
        b1,
        b2,
    );
}

/// The first defect a left-to-right scan of the events meets, given
/// the beat of whatever came before: a zero tempo, or a beat that
/// went backwards.
pub open spec fn spec_scan_issue(events: Seq<BpmEvent>, prev_beat: u64) -> Option<ParseErrorView>
    decreases events.len(),
{
    if events.len() == 0 {
        None
    } else if events[0].bpm == 0 {
        Some(ParseErrorView::ZeroTempo)
    } else if events[0].beat < prev_beat {
        Some(ParseErrorView::UnorderedTempoEvents)
    } else {
        spec_scan_issue(events.drop_first(), events[0].beat)
    }
}

/// The defect that construction reports for an input, if any.
pub open spec fn spec_new_issue(base_bpm: u64, events: Seq<BpmEvent>) -> Option<ParseErrorView> {
    if base_bpm == 0 {
        Some(ParseErrorView::ZeroTempo)
    } else {
        spec_scan_issue(events, 0)
    }
}

/// A scan finds no defect exactly when tempos are positive and beats
/// never decrease from the given origin.
pub proof fn lemma_scan_issue_none(events: Seq<BpmEvent>, prev_beat: u64)
    ensures
        spec_scan_issue(events, prev_beat) is None <==> {
            &&& forall|i: int| 0 <= i < events.len() ==> (#[trigger] events[i]).bpm >= 1
            &&& events.len() > 0 ==> events[0].beat >= prev_beat
            &&& forall|i: int|
                0 <= i < events.len() - 1 ==> (#[trigger] events[i]).beat <= events[i + 1].beat
        },
    decreases events.len(),
{
    if events.len() == 0 {
        return;
    }
    let rest = events.drop_first();
    lemma_scan_issue_none(rest, events[0].beat);
    if events[0].bpm == 0 {
        assert(!(events[0].bpm >= 1));
        return;
    }
    if events[0].beat < prev_beat {
        return;
    }
    if spec_scan_issue(rest, events[0].beat) is None {
        assert forall|i: int| 0 <= i < events.len() implies (#[trigger] events[i]).bpm >= 1 by {
            if i > 0 {
                assert(rest[i - 1] == events[i]);
            }
        }
        assert forall|i: int| 0 <= i < events.len() - 1 implies (#[trigger] events[i]).beat
            <= events[i + 1].beat by {
            if i == 0 {
                assert(rest[0] == events[1]);
            } else {
                assert(rest[i - 1] == events[i]);
                assert(rest[i] == events[i + 1]);
            }
        }
    } else {
        if !(forall|i: int| 0 <= i < rest.len() ==> (#[trigger] rest[i]).bpm >= 1) {
            let j = choose|j: int| 0 <= j < rest.len() && !((#[trigger] rest[j]).bpm >= 1);
            assert(rest[j] == events[j + 1]);
            assert(!(events[j + 1].bpm >= 1));
        } else if rest.len() > 0 && !(rest[0].beat >= events[0].beat) {
            assert(rest[0] == events[1]);
            assert(!(events[0].beat <= events[1].beat));
        } else {
            let j = choose|j: int|
                0 <= j < rest.len() - 1 && !((#[trigger] rest[j]).beat <= rest[j + 1].beat);
            assert(rest[j] == events[j + 1]);
            assert(rest[j + 1] == events[j + 2]);
            assert(!(events[j + 1].beat <= events[j + 2].beat));
        }
    }
}

/// No defect is exactly validity of the construction input.
pub proof fn lemma_new_issue_none(base_bpm: u64, events: Seq<BpmEvent>)
    ensures
        spec_new_issue(base_bpm, events) is None <==> events_valid(base_bpm, events),
{
    lemma_scan_issue_none(events, 0);
}

/// A segment sequence has one segment more than its events, starts at
/// the origin, and ends at the last event's beat.
pub proof fn lemma_segments_basics(seed: u64, events: Seq<BpmEvent>)
    ensures
        spec_segments(seed, events).len() == events.len() + 1,
        spec_segments(seed, events).first() == (BpmChangeEvent {
            bpm: seed,
            start_time: 0,
            start_beat: 0,
        }),
        spec_segments(seed, events).last().start_beat == if events.len() == 0 {
            0
        } else {
            events.last().beat
        },
    decreases events.len(),
{
    if events.len() > 0 {
        lemma_segments_basics(seed, events.drop_last());
    }
}

/// Appending one ordered, positive-tempo event extends the segment
/// sequence by one well-formed segment.
pub proof fn lemma_segments_extend(seed: u64, events: Seq<BpmEvent>, e: BpmEvent)
    requires
        e.bpm >= 1,
        changes_wf(spec_segments(seed, events)),
        e.beat >= spec_segments(seed, events).last().start_beat,
    ensures
        spec_segments(seed, events.push(e)) == spec_segments(seed, events).push(
            BpmChangeEvent {
                bpm: e.bpm,
                start_time: spec_advance(
                    spec_segments(seed, events).last().start_time,
                    (e.beat - spec_segments(seed, events).last().start_beat) as u64,
                    spec_segments(seed, events).last().bpm,
                ),
                start_beat: e.beat,
            },
        ),
        changes_wf(spec_segments(seed, events.push(e))),
{
    lemma_segments_basics(seed, events);
    assert(events.push(e).drop_last() =~= events);
    let prev = spec_segments(seed, events);
    let s2 = spec_segments(seed, events.push(e));
    let m = prev.len() as int;
    assert(s2 == prev.push(s2.last()));
    assert forall|i: int| 0 <= i < s2.len() implies (#[trigger] s2[i]).bpm >= 1 by {
        if i < m {
            assert(s2[i] == prev[i]);
        }
    }
    assert forall|i: int| 0 <= i < s2.len() - 1 implies (#[trigger] s2[i]).start_beat <= s2[i
        + 1].start_beat by {
        assert(s2[i] == prev[i]);
        if i < m - 1 {
            assert(s2[i + 1] == prev[i + 1]);
        }
    }
    assert forall|i: int| 0 <= i < s2.len() - 1 implies (#[trigger] s2[i + 1]).start_time
        == spec_advance(
        s2[i].start_time,
        (s2[i + 1].start_beat - s2[i].start_beat) as u64,
        s2[i].bpm,
    ) by {
        assert(s2[i] == prev[i]);
        if i < m - 1 {
            assert(s2[i + 1] == prev[i + 1]);
        }
    }
}

/// Positive, ordered events always denote a well-formed segment
/// sequence.
pub proof fn lemma_segments_wf(seed: u64, events: Seq<BpmEvent>)
    requires
        seed >= 1,
        forall|i: int| 0 <= i < events.len() ==> (#[trigger] events[i]).bpm >= 1,
        forall|i: int|
            0 <= i < events.len() - 1 ==> (#[trigger] events[i]).beat <= events[i + 1].beat,
    ensures
        changes_wf(spec_segments(seed, events)),
    decreases events.len(),
{
    if events.len() > 0 {
        let front = events.drop_last();
        assert forall|i: int| 0 <= i < front.len() implies (#[trigger] front[i]).bpm >= 1 by {
            assert(front[i] == events[i]);
        }
        assert forall|i: int| 0 <= i < front.len() - 1 implies (#[trigger] front[i]).beat
            <= front[i + 1].beat by {
            assert(front[i] == events[i]);
            assert(front[i + 1] == events[i + 1]);
        }
        lemma_segments_wf(seed, front);
        lemma_segments_basics(seed, front);
        if front.len() > 0 {
            assert(front.last() == events[events.len() - 2]);
        }
        lemma_segments_extend(seed, front, events.last());
        assert(front.push(events.last()) =~= events);
    }
}

fn build_segments(seed: u64, events: &Vec<BpmEvent>, start_idx: usize) -> (r: Vec<
    BpmChangeEvent,
>)
    requires
        seed >= 1,
        start_idx <= events@.len(),
        forall|i: int| 0 <= i < events@.len() ==> (#[trigger] events@[i]).bpm >= 1,
        forall|i: int|
            0 <= i < events@.len() - 1 ==> (#[trigger] events@[i]).beat <= events@[i + 1].beat,
    ensures
        r@ == spec_segments(seed, events@.skip(start_idx as int)),
        changes_wf(r@),
{
    let ghost rest = events@.skip(start_idx as int);
    let mut changes: Vec<BpmChangeEvent> = Vec::new();
    changes.push(BpmChangeEvent { bpm: seed, start_time: 0, start_beat: 0 });
    proof {
        assert(rest.take(0) =~= Seq::<BpmEvent>::empty());
        assert(changes@ =~= spec_segments(seed, rest.take(0)));
    }
    let n = events.len();
    let mut i: usize = start_idx;
    while i < n
        invariant
            n == events@.len(),
            start_idx as int <= i <= n,
            seed >= 1,
            rest == events@.skip(start_idx as int),
            forall|j: int| 0 <= j < events@.len() ==> (#[trigger] events@[j]).bpm >= 1,
            forall|j: int|
                0 <= j < events@.len() - 1 ==> (#[trigger] events@[j]).beat <= events@[j
                    + 1].beat,
            changes@ == spec_segments(seed, rest.take(i - start_idx)),
            changes@.len() == i - start_idx + 1,
            changes@.last().start_beat == if i == start_idx {
                0u64
            } else {
                events@[i - 1].beat
            },
            changes@.last().bpm == if i == start_idx {
                seed
            } else {
                events@[i - 1].bpm
            },
        decreases n - i,
    {
        let e = events[i];
        let last = changes[changes.len() - 1];
        let ghost k = i - start_idx;
        proof {
            assert(changes@.last() == changes@[changes@.len() - 1]);
            assert(rest.take(k + 1).drop_last() =~= rest.take(k as int));
            assert(rest.take(k + 1).last() == events@[i as int]);
        }
        let start_time = advance_time(last.start_time, e.beat - last.start_beat, last.bpm);
        changes.push(BpmChangeEvent { bpm: e.bpm, start_time, start_beat: e.beat });
        proof {
            assert(changes@ == spec_segments(seed, rest.take(k + 1)));
        }
        i = i + 1;
    }
    proof {
        assert(rest.take(n - start_idx) =~= rest);
        assert forall|j: int| 0 <= j < rest.len() implies (#[trigger] rest[j]).bpm >= 1 by {
            assert(rest[j] == events@[start_idx + j]);
        }
        assert forall|j: int| 0 <= j < rest.len() - 1 implies (#[trigger] rest[j]).beat <= rest[j
            + 1].beat by {
            assert(rest[j] == events@[start_idx + j]);
            assert(rest[j + 1] == events@[start_idx + j + 1]);
        }
        lemma_segments_wf(seed, rest);
    }
    changes
}

impl BpmTracker {
    /// Build a timeline from a declared base tempo and a sequence of
    /// tempo-change events, consumed in file order.
    ///
    /// An event at beat zero overrides the declared base tempo and
    /// seeds the first segment at time zero; each further event
    /// starts a segment whose start time is computed from the one
    /// before it.  A zero tempo anywhere, or an event whose beat is
    /// earlier than its predecessor's, is rejected.
    #[verifier::rlimit(100)]
    pub fn new(start_bpm: u64, events: Vec<BpmEvent>) -> (r: Result<BpmTracker, AnyverParseError>)
        ensures
            match r {
                Ok(t) => {
                    &&& spec_new_issue(start_bpm, events@) is None
                    &&& events_valid(start_bpm, events@)
                    &&& t.wf()
                    &&& t.base_bpm == spec_base_bpm(start_bpm, events@)
                    &&& t.changes@ == spec_changes(start_bpm, events@)
                },
                Err(e) => {
                    &&& spec_new_issue(start_bpm, events@) == Some(e@)
                    &&& !events_valid(start_bpm, events@)
                },
            },
    {
        proof {
            lemma_new_issue_none(start_bpm, events@);
        }
        if start_bpm == 0 {
            return Err(AnyverParseError::ZeroTempo);
        }
        let n = events.len();
        let mut prev_beat: u64 = 0;
        let mut i: usize = 0;
        proof {
            assert(events@.skip(0) =~= events@);
        }
        while i < n
            invariant
                n == events@.len(),
                0 <= i <= n,
                start_bpm >= 1,
                prev_beat == if i == 0 {
                    0u64
                } else {
                    events@[i - 1].beat
                },
                spec_scan_issue(events@, 0) == spec_scan_issue(events@.skip(i as int), prev_beat),
            decreases n - i,
        {
            let e = events[i];
            proof {
                assert(events@.skip(i as int)[0] == events@[i as int]);
                assert(events@.skip(i as int).drop_first() =~= events@.skip(i + 1));
            }
            if e.bpm == 0 {
                proof {
                    lemma_new_issue_none(start_bpm, events@);
                }
                return Err(AnyverParseError::ZeroTempo);
            }
            if e.beat < prev_beat {
                proof {
                    assert(events@.skip(i as int)[0].bpm != 0);
                    assert(events@.skip(i as int)[0].beat < prev_beat);
                    assert(spec_scan_issue(events@.skip(i as int), prev_beat) == Some(
                        ParseErrorView::UnorderedTempoEvents,
                    ));
                    lemma_new_issue_none(start_bpm, events@);
                }
                return Err(AnyverParseError::UnorderedTempoEvents);
            }
            prev_beat = e.beat;
            i = i + 1;
        }
        proof {
            assert(events@.skip(n as int) =~= Seq::<BpmEvent>::empty());
            assert(spec_new_issue(start_bpm, events@) is None);
        }
        if n == 0 {
            return Ok(BpmTracker { base_bpm: start_bpm, changes: Vec::new() });
        }
        let first = events[0];
        let (seed, start_idx): (u64, usize) = if first.beat == 0 {
            (first.bpm, 1)
        } else {
            (start_bpm, 0)
        };
        let changes = build_segments(seed, &events, start_idx);
        proof {
            if start_idx == 1 {
                assert(events@.drop_first() =~= events@.skip(1));
            } else {
                assert(events@.skip(0) =~= events@);
            }
            assert(changes@ == spec_changes(start_bpm, events@));
        }
        Ok(
            BpmTracker {
                base_bpm: if first.beat == 0 {
                    first.bpm
                } else {
                    start_bpm
                },
                changes,
            },
        )
    }
}

/// The unified image of an older-dialect tempo-change list.
pub open spec fn spec_events_v2(es: Seq<v2::BpmEvent>) -> Seq<BpmEvent> {
    es.map_values(|e: v2::BpmEvent| BpmEvent::spec_from_v2(e))
}

/// The unified image of a newer-dialect tempo-change list.
pub open spec fn spec_events_v3(es: Seq<v3::BpmEvent>) -> Seq<BpmEvent> {
    es.map_values(|e: v3::BpmEvent| BpmEvent::spec_from_v3(e))
}

/// The unified tap target an older-dialect note denotes, under a
/// construction input (bombs are filtered out before this applies).
pub open spec fn spec_beat_v2(n: v2::Note, base: u64, evs: Seq<BpmEvent>) -> Beat {
    Beat {
        beat: n.beat,
        time: spec_time_at(base, evs, n.beat),
        x: n.x,
        y: n.y,
        angle_offset: n.angle_offset,
        color: match NoteColor::spec_from_v2(n.note_type) {
            Some(c) => c,
            None => NoteColor::Red,
        },
        direction: NoteDirection::spec_from_v2(n.direction),
    }
}

/// The unified bomb an older-dialect bomb note denotes.
pub open spec fn spec_bomb_v2(n: v2::Note, base: u64, evs: Seq<BpmEvent>) -> Bomb {
    Bomb { beat: n.beat, time: spec_time_at(base, evs, n.beat), x: n.x, y: n.y }
}

/// The unified wall an older-dialect wall denotes: vertical geometry
/// unpacked from the legacy code, both interval ends resolved through
/// the timeline, and the duration their difference.
pub open spec fn spec_obstacle_v2(o: v2::Obstacle, base: u64, evs: Seq<BpmEvent>) -> Obstacle {
    let wall = spec_wall_geometry(o.wall_type);
    let t0 = spec_time_at(base, evs, o.beat);
    let t1 = spec_time_at(base, evs, spec_sat_add(o.beat, o.duration));
    Obstacle {
        beat: o.beat,
        time: t0,
        x: o.x,
        y: wall.0 as i64,
        duration_beats: o.duration,
        duration: (t1 - t0) as u64,
        end_time: t1,
        width: o.width,
        height: wall.1 as i64,
    }
}

/// The tap targets of an older-dialect note list, in order.
pub open spec fn spec_beats_v2(notes: Seq<v2::Note>, base: u64, evs: Seq<BpmEvent>) -> Seq<Beat>
    decreases notes.len(),
{
    if notes.len() == 0 {
        Seq::empty()
    } else {
        let p = spec_beats_v2(notes.drop_last(), base, evs);
        if notes.last().note_type != v2::NoteType::Bomb {
            p.push(spec_beat_v2(notes.last(), base, evs))
        } else {
            p
        }
    }
}

/// The bombs of an older-dialect note list, in order.
pub open spec fn spec_bombs_v2(notes: Seq<v2::Note>, base: u64, evs: Seq<BpmEvent>) -> Seq<Bomb>
    decreases notes.len(),
{
    if notes.len() == 0 {
        Seq::empty()
    } else {
        let p = spec_bombs_v2(notes.drop_last(), base, evs);
        if notes.last().note_type == v2::NoteType::Bomb {
            p.push(spec_bomb_v2(notes.last(), base, evs))
        } else {
            p
        }
    }
}

/// The unified walls of an older-dialect wall list, in order.
pub open spec fn spec_obstacles_v2(os: Seq<v2::Obstacle>, base: u64, evs: Seq<BpmEvent>) -> Seq<
    Obstacle,
> {
    os.map_values(|o: v2::Obstacle| spec_obstacle_v2(o, base, evs))
}

/// The unified tap target a newer-dialect note denotes.
pub open spec fn spec_beat_v3(n: v3::ColorNote, base: u64, evs: Seq<BpmEvent>) -> Beat {
    Beat {
        beat: n.beat,
        time: spec_time_at(base, evs, n.beat),
        x: n.x,
        y: n.y,
        angle_offset: n.angle_offset,
        color: NoteColor::spec_from_v3(n.color),
        direction: NoteDirection::spec_from_v3(n.direction),
    }
}

/// The unified bomb a newer-dialect bomb denotes.
pub open spec fn spec_bomb_v3(n: v3::BombNote, base: u64, evs: Seq<BpmEvent>) -> Bomb {
    Bomb { beat: n.beat, time: spec_time_at(base, evs, n.beat), x: n.x, y: n.y }
}

/// The unified wall a newer-dialect wall denotes: geometry is stored
/// unpacked in that dialect, so only the interval ends are resolved.
pub open spec fn spec_obstacle_v3(o: v3::Obstacle, base: u64, evs: Seq<BpmEvent>) -> Obstacle {
    let t0 = spec_time_at(base, evs, o.beat);
    let t1 = spec_time_at(base, evs, spec_sat_add(o.beat, o.duration));
    Obstacle {
        beat: o.beat,
        time: t0,
        x: o.x,
        y: o.y,
        duration_beats: o.duration,
        duration: (t1 - t0) as u64,
        end_time: t1,
        width: o.width,
        height: o.height,
    }
}

/// The unified chain a newer-dialect burst slider denotes: head and
/// tail beats resolved independently through the timeline.
pub open spec fn spec_chain_v3(s: v3::BurstSlider, base: u64, evs: Seq<BpmEvent>) -> Chain {
    Chain {
        beat: s.beat,
        time: spec_time_at(base, evs, s.beat),
        x: s.x,
        y: s.y,
        color: NoteColor::spec_from_v3(s.color),
        direction: NoteDirection::spec_from_v3(s.direction),
        tail_beat: s.tail_beat,
        tail_time: spec_time_at(base, evs, s.tail_beat),
        tail_x: s.tail_x,
        tail_y: s.tail_y,
        num_slices: s.num_slices,
        squish_factor: s.squish_amount,
    }
}

/// The unified tap targets of a newer-dialect note list.
pub open spec fn spec_beats_v3(notes: Seq<v3::ColorNote>, base: u64, evs: Seq<BpmEvent>) -> Seq<
    Beat,
> {
    notes.map_values(|n: v3::ColorNote| spec_beat_v3(n, base, evs))
}

/// The unified bombs of a newer-dialect bomb list.
pub open spec fn spec_bombs_v3(notes: Seq<v3::BombNote>, base: u64, evs: Seq<BpmEvent>) -> Seq<
    Bomb,
> {
    notes.map_values(|n: v3::BombNote| spec_bomb_v3(n, base, evs))
}

/// The unified walls of a newer-dialect wall list.
pub open spec fn spec_obstacles_v3(os: Seq<v3::Obstacle>, base: u64, evs: Seq<BpmEvent>) -> Seq<
    Obstacle,
> {
    os.map_values(|o: v3::Obstacle| spec_obstacle_v3(o, base, evs))
}

/// The unified chains of a newer-dialect burst-slider list.
pub open spec fn spec_chains_v3(ss: Seq<v3::BurstSlider>, base: u64, evs: Seq<BpmEvent>) -> Seq<
    Chain,
> {
    ss.map_values(|s: v3::BurstSlider| spec_chain_v3(s, base, evs))
}

/// The unified model: every entity carries both its beat coordinate
/// and its resolved wall-clock time.
#[derive(Debug, Clone)]
pub struct Beatmap {
    pub beats: Vec<Beat>,
    pub bombs: Vec<Bomb>,
    pub obstacles: Vec<Obstacle>,
    pub chains: Vec<Chain>,
}

/// A timeline handle whose segments denote a construction input.
pub open spec fn tracker_denotes(t: BpmTracker, base: u64, evs: Seq<BpmEvent>) -> bool {
    &&& t.wf()
    &&& t.changes@ == spec_changes(base, evs)
    &&& t.base_bpm == spec_base_bpm(base, evs)
}

fn collect_v2_notes(
    notes: &Vec<v2::Note>,
    tracker: &BpmTracker,
    Ghost(base): Ghost<u64>,
    Ghost(evs): Ghost<Seq<BpmEvent>>,
) -> (r: (Vec<Beat>, Vec<Bomb>))
    requires
        tracker_denotes(*tracker, base, evs),
    ensures
        r.0@ == spec_beats_v2(notes@, base, evs),
        r.1@ == spec_bombs_v2(notes@, base, evs),
{
    let mut beats: Vec<Beat> = Vec::new();
    let mut bombs: Vec<Bomb> = Vec::new();
    let n = notes.len();
    proof {
        assert(notes@.take(0) =~= Seq::<v2::Note>::empty());
    }
    for i in 0..n
        invariant
            n == notes@.len(),
            tracker_denotes(*tracker, base, evs),
            beats@ == spec_beats_v2(notes@.take(i as int), base, evs),
            bombs@ == spec_bombs_v2(notes@.take(i as int), base, evs),
    {
        proof {
            assert(notes@.take(i + 1).drop_last() =~= notes@.take(i as int));
            assert(notes@.take(i + 1).last() == notes@[i as int]);
        }
        let note = notes[i];
        let time = tracker.beat_to_song_time(note.beat);
        match note.note_type {
            v2::NoteType::Bomb => {
                bombs.push(Bomb { beat: note.beat, time, x: note.x, y: note.y });
            },
            v2::NoteType::Red => {
                beats.push(
                    Beat {
                        beat: note.beat,
                        time,
                        x: note.x,
                        y: note.y,
                        angle_offset: note.angle_offset,
                        color: NoteColor::Red,
                        direction: NoteDirection::from_v2(note.direction),
                    },
                );
            },
            v2::NoteType::Blue => {
                beats.push(
                    Beat {
                        beat: note.beat,
                        time,
                        x: note.x,
                        y: note.y,
                        angle_offset: note.angle_offset,
                        color: NoteColor::Blue,
                        direction: NoteDirection::from_v2(note.direction),
                    },
                );
            },
        }
    }
    proof {
        assert(notes@.take(n as int) =~= notes@);
    }
    (beats, bombs)
}

fn collect_v2_obstacles(
    os: &Vec<v2::Obstacle>,
    tracker: &BpmTracker,
    Ghost(base): Ghost<u64>,
    Ghost(evs): Ghost<Seq<BpmEvent>>,
) -> (r: Vec<Obstacle>)
    requires
        tracker_denotes(*tracker, base, evs),
    ensures
        r@ == spec_obstacles_v2(os@, base, evs),
        forall|i: int|
            0 <= i < r@.len() ==> (#[trigger] r@[i]).end_time >= r@[i].time && r@[i].duration
                == r@[i].end_time - r@[i].time,
{
    let mut out: Vec<Obstacle> = Vec::new();
    let n = os.len();
    proof {
        assert(os@.take(0) =~= Seq::<v2::Obstacle>::empty());
        assert(os@.take(0).map_values(|o: v2::Obstacle| spec_obstacle_v2(o, base, evs)) =~= Seq::<
            Obstacle,
        >::empty());
    }
    for i in 0..n
        invariant
            n == os@.len(),
            tracker_denotes(*tracker, base, evs),
            out@ == spec_obstacles_v2(os@.take(i as int), base, evs),
            forall|j: int|
                0 <= j < out@.len() ==> (#[trigger] out@[j]).end_time >= out@[j].time
                    && out@[j].duration == out@[j].end_time - out@[j].time,
    {
        let o = os[i];
        let geometry = decode_wall_geometry(o.wall_type);
        let t0 = tracker.beat_to_song_time(o.beat);
        let end_beat = sat_add(o.beat, o.duration);
        let t1 = tracker.beat_to_song_time(end_beat);
        proof {
            tracker.lemma_beat_to_song_time_monotonic(o.beat, end_beat);
        }
        let entity = Obstacle {
            beat: o.beat,
            time: t0,
            x: o.x,
            y: geometry.0,
            duration_beats: o.duration,
            duration: t1 - t0,
            end_time: t1,
            width: o.width,
            height: geometry.1,
        };
        out.push(entity);
        proof {
            assert(entity == spec_obstacle_v2(os@[i as int], base, evs));
            assert(os@.take(i + 1) =~= os@.take(i as int).push(os@[i as int]));
            assert(spec_obstacles_v2(os@.take(i + 1), base, evs) =~= spec_obstacles_v2(
                os@.take(i as int),
                base,
                evs,
            ).push(spec_obstacle_v2(os@[i as int], base, evs)));
        }
    }
    proof {
        assert(os@.take(n as int) =~= os@);
    }
    out
}

impl Beatmap {
    /// Normalize an adapted older-dialect document against a starting
    /// tempo: build the timeline from the document's tempo-change
    /// events, partition the shared note records into tap targets and
    /// bombs, and resolve every beat coordinate into time.
    ///
    /// Succeeds exactly when the starting tempo and every event tempo
    /// are positive and the event beats never decrease.  Every wall
    /// of the result satisfies `end_time >= time` and
    /// `duration == end_time - time`.
    pub fn from_v2(beatmap: v2::Beatmap, bpm: u64) -> (r: Result<Beatmap, AnyverParseError>)
        ensures
            match r {
                Ok(b) => {
                    &&& events_valid(bpm, spec_events_v2(beatmap@.bpm_events))
                    &&& b.beats@ == spec_beats_v2(
                        beatmap@.notes,
                        bpm,
                        spec_events_v2(beatmap@.bpm_events),
                    )
                    &&& b.bombs@ == spec_bombs_v2(
                        beatmap@.notes,
                        bpm,
                        spec_events_v2(beatmap@.bpm_events),
                    )
                    &&& b.obstacles@ == spec_obstacles_v2(
                        beatmap@.obstacles,
                        bpm,
                        spec_events_v2(beatmap@.bpm_events),
                    )
                    &&& b.chains@ == Seq::<Chain>::empty()
                    &&& forall|i: int|
                        0 <= i < b.obstacles@.len() ==> (#[trigger] b.obstacles@[i]).end_time
                            >= b.obstacles@[i].time && b.obstacles@[i].duration
                            == b.obstacles@[i].end_time - b.obstacles@[i].time
                },
                Err(e) => {
                    &&& spec_new_issue(bpm, spec_events_v2(beatmap@.bpm_events)) == Some(e@)
                    &&& !events_valid(bpm, spec_events_v2(beatmap@.bpm_events))
                },
            },
    {
        let ghost sevs = spec_events_v2(beatmap@.bpm_events);
        let mut evs: Vec<BpmEvent> = Vec::new();
        let ne = beatmap.bpm_events.len();
        proof {
            assert(beatmap@.bpm_events.take(0).map_values(
                |e: v2::BpmEvent| BpmEvent::spec_from_v2(e),
            ) =~= Seq::<BpmEvent>::empty());
        }
        for i in 0..ne
            invariant
                ne == beatmap@.bpm_events.len(),
                evs@ == spec_events_v2(beatmap@.bpm_events.take(i as int)),
        {
            evs.push(BpmEvent::from_v2(beatmap.bpm_events[i]));
            proof {
                assert(beatmap@.bpm_events.take(i + 1) =~= beatmap@.bpm_events.take(
                    i as int,
                ).push(beatmap@.bpm_events[i as int]));
                assert(spec_events_v2(beatmap@.bpm_events.take(i + 1)) =~= spec_events_v2(
                    beatmap@.bpm_events.take(i as int),
                ).push(BpmEvent::spec_from_v2(beatmap@.bpm_events[i as int])));
            }
        }
        proof {
            assert(beatmap@.bpm_events.take(ne as int) =~= beatmap@.bpm_events);
        }
        let tracker = match BpmTracker::new(bpm, evs) {
            Ok(t) => t,
            Err(e) => return Err(e),
        };
        let (beats, bombs) = collect_v2_notes(
            &beatmap.notes,
            &tracker,
            Ghost(bpm),
            Ghost(sevs),
        );
        let obstacles = collect_v2_obstacles(&beatmap.obstacles, &tracker, Ghost(bpm), Ghost(sevs));
        Ok(Beatmap { beats, bombs, obstacles, chains: Vec::new() })
    }
}


fn collect_v3_beats(
    items: &Vec<v3::ColorNote>,
    tracker: &BpmTracker,
    Ghost(base): Ghost<u64>,
    Ghost(evs): Ghost<Seq<BpmEvent>>,
) -> (r: Vec<Beat>)
    requires
        tracker_denotes(*tracker, base, evs),
    ensures
        r@ == spec_beats_v3(items@, base, evs),
{
    let mut out: Vec<Beat> = Vec::new();
    let n = items.len();
    proof {
        assert(items@.take(0) =~= Seq::<v3::ColorNote>::empty());
        assert(items@.take(0).map_values(|v: v3::ColorNote| spec_beat_v3(v, base, evs)) =~= Seq::<
            Beat,
        >::empty());
    }
    for i in 0..n
        invariant
            n == items@.len(),
            tracker_denotes(*tracker, base, evs),
            out@ == spec_beats_v3(items@.take(i as int), base, evs),
    {
        let item = items[i];
        let entity = Beat {
            beat: item.beat,
            time: tracker.beat_to_song_time(item.beat),
            x: item.x,
            y: item.y,
            angle_offset: item.angle_offset,
            color: NoteColor::from_v3(item.color),
            direction: NoteDirection::from_v3(item.direction),
        };
        out.push(entity);
        proof {
            assert(entity == spec_beat_v3(items@[i as int], base, evs));
            assert(items@.take(i + 1) =~= items@.take(i as int).push(items@[i as int]));
            assert(spec_beats_v3(items@.take(i + 1), base, evs) =~= spec_beats_v3(
                items@.take(i as int),
                base,
                evs,
            ).push(spec_beat_v3(items@[i as int], base, evs)));
        }
    }
    proof {
        assert(items@.take(n as int) =~= items@);
    }
    out
}

fn collect_v3_bombs(
    items: &Vec<v3::BombNote>,
    tracker: &BpmTracker,
    Ghost(base): Ghost<u64>,
    Ghost(evs): Ghost<Seq<BpmEvent>>,
) -> (r: Vec<Bomb>)
    requires
        tracker_denotes(*tracker, base, evs),
    ensures
        r@ == spec_bombs_v3(items@, base, evs),
{
    let mut out: Vec<Bomb> = Vec::new();
    let n = items.len();
    proof {
        assert(items@.take(0) =~= Seq::<v3::BombNote>::empty());
        assert(items@.take(0).map_values(|v: v3::BombNote| spec_bomb_v3(v, base, evs)) =~= Seq::<
            Bomb,
        >::empty());
    }
    for i in 0..n
        invariant
            n == items@.len(),
            tracker_denotes(*tracker, base, evs),
            out@ == spec_bombs_v3(items@.take(i as int), base, evs),
    {
        let item = items[i];
        let entity = Bomb {
            beat: item.beat,
            time: tracker.beat_to_song_time(item.beat),
            x: item.x,
            y: item.y,
        };
        out.push(entity);
        proof {
            assert(entity == spec_bomb_v3(items@[i as int], base, evs));
            assert(items@.take(i + 1) =~= items@.take(i as int).push(items@[i as int]));
            assert(spec_bombs_v3(items@.take(i + 1), base, evs) =~= spec_bombs_v3(
                items@.take(i as int),
                base,
                evs,
            ).push(spec_bomb_v3(items@[i as int], base, evs)));
        }
    }
    proof {
        assert(items@.take(n as int) =~= items@);
    }
    out
}

fn collect_v3_obstacles(
    items: &Vec<v3::Obstacle>,
    tracker: &BpmTracker,
    Ghost(base): Ghost<u64>,
    Ghost(evs): Ghost<Seq<BpmEvent>>,
) -> (r: Vec<Obstacle>)
    requires
        tracker_denotes(*tracker, base, evs),
    ensures
        r@ == spec_obstacles_v3(items@, base, evs),
        forall|i: int|
            0 <= i < r@.len() ==> (#[trigger] r@[i]).end_time >= r@[i].time && r@[i].duration
                == r@[i].end_time - r@[i].time,
{
    let mut out: Vec<Obstacle> = Vec::new();
    let n = items.len();
    proof {
        assert(items@.take(0) =~= Seq::<v3::Obstacle>::empty());
        assert(items@.take(0).map_values(|v: v3::Obstacle| spec_obstacle_v3(v, base, evs)) =~= Seq::<
            Obstacle,
        >::empty());
    }
    for i in 0..n
        invariant
            n == items@.len(),
            tracker_denotes(*tracker, base, evs),
            out@ == spec_obstacles_v3(items@.take(i as int), base, evs),
            forall|j: int|
                0 <= j < out@.len() ==> (#[trigger] out@[j]).end_time >= out@[j].time
                    && out@[j].duration == out@[j].end_time - out@[j].time,
    {
        let item = items[i];
        let t0 = tracker.beat_to_song_time(item.beat);
        let end_beat = sat_add(item.beat, item.duration);
        let t1 = tracker.beat_to_song_time(end_beat);
        proof {
            tracker.lemma_beat_to_song_time_monotonic(item.beat, end_beat);
        }
        let entity = Obstacle {
            beat: item.beat,
            time: t0,
            x: item.x,
            y: item.y,
            duration_beats: item.duration,
            duration: t1 - t0,
            end_time: t1,
            width: item.width,
            height: item.height,
        };
        out.push(entity);
        proof {
            assert(entity == spec_obstacle_v3(items@[i as int], base, evs));
            assert(items@.take(i + 1) =~= items@.take(i as int).push(items@[i as int]));
            assert(spec_obstacles_v3(items@.take(i + 1), base, evs) =~= spec_obstacles_v3(
                items@.take(i as int),
                base,
                evs,
            ).push(spec_obstacle_v3(items@[i as int], base, evs)));
        }
    }
    proof {
        assert(items@.take(n as int) =~= items@);
    }
    out
}

fn collect_v3_chains(
    items: &Vec<v3::BurstSlider>,
    tracker: &BpmTracker,
    Ghost(base): Ghost<u64>,
    Ghost(evs): Ghost<Seq<BpmEvent>>,
) -> (r: Vec<Chain>)
    requires
        tracker_denotes(*tracker, base, evs),
    ensures
        r@ == spec_chains_v3(items@, base, evs),
        forall|i: int|
            0 <= i < r@.len() ==> ((#[trigger] r@[i]).tail_beat >= r@[i].beat ==> r@[i].tail_time
                >= r@[i].time),
{
    let mut out: Vec<Chain> = Vec::new();
    let n = items.len();
    proof {
        assert(items@.take(0) =~= Seq::<v3::BurstSlider>::empty());
        assert(items@.take(0).map_values(|v: v3::BurstSlider| spec_chain_v3(v, base, evs)) =~= Seq::<
            Chain,
        >::empty());
    }
    for i in 0..n
        invariant
            n == items@.len(),
            tracker_denotes(*tracker, base, evs),
            out@ == spec_chains_v3(items@.take(i as int), base, evs),
            forall|j: int|
                0 <= j < out@.len() ==> ((#[trigger] out@[j]).tail_beat >= out@[j].beat
                    ==> out@[j].tail_time >= out@[j].time),
    {
        let item = items[i];
        let time = tracker.beat_to_song_time(item.beat);
        let tail_time = tracker.beat_to_song_time(item.tail_beat);
        proof {
            if item.tail_beat >= item.beat {
                tracker.lemma_beat_to_song_time_monotonic(item.beat, item.tail_beat);
            }
        }
        let entity = Chain {
            beat: item.beat,
            time,
            x: item.x,
            y: item.y,
            color: NoteColor::from_v3(item.color),
            direction: NoteDirection::from_v3(item.direction),
            tail_beat: item.tail_beat,
            tail_time,
            tail_x: item.tail_x,
            tail_y: item.tail_y,
            num_slices: item.num_slices,
            squish_factor: item.squish_amount,
        };
        out.push(entity);
        proof {
            assert(entity == spec_chain_v3(items@[i as int], base, evs));
            assert(items@.take(i + 1) =~= items@.take(i as int).push(items@[i as int]));
            assert(spec_chains_v3(items@.take(i + 1), base, evs) =~= spec_chains_v3(
                items@.take(i as int),
                base,
                evs,
            ).push(spec_chain_v3(items@[i as int], base, evs)));
        }
    }
    proof {
        assert(items@.take(n as int) =~= items@);
    }
    out
}

impl Beatmap {
    /// Normalize an adapted newer-dialect document against a starting
    /// tempo.  The dialect's separate collections map one-to-one onto
    /// the unified ones; burst sliders become chains with head and
    /// tail beats resolved independently.
    ///
    /// Succeeds exactly when the starting tempo and every event tempo
    /// are positive and the event beats never decrease.  Every wall
    /// of the result satisfies `end_time >= time` and
    /// `duration == end_time - time`; every chain whose tail beat is
    /// at or after its head beat has `tail_time >= time`.
    pub fn from_v3(beatmap: v3::Beatmap, bpm: u64) -> (r: Result<Beatmap, AnyverParseError>)
        ensures
            match r {
                Ok(b) => {
                    &&& events_valid(bpm, spec_events_v3(beatmap@.bpm_events))
                    &&& b.beats@ == spec_beats_v3(
                        beatmap@.color_notes,
                        bpm,
                        spec_events_v3(beatmap@.bpm_events),
                    )
                    &&& b.bombs@ == spec_bombs_v3(
                        beatmap@.bomb_notes,
                        bpm,
                        spec_events_v3(beatmap@.bpm_events),
                    )
                    &&& b.obstacles@ == spec_obstacles_v3(
                        beatmap@.obstacles,
                        bpm,
                        spec_events_v3(beatmap@.bpm_events),
                    )
                    &&& b.chains@ == spec_chains_v3(
                        beatmap@.burst_sliders,
                        bpm,
                        spec_events_v3(beatmap@.bpm_events),
                    )
                    &&& forall|i: int|
                        0 <= i < b.obstacles@.len() ==> (#[trigger] b.obstacles@[i]).end_time
                            >= b.obstacles@[i].time && b.obstacles@[i].duration
                            == b.obstacles@[i].end_time - b.obstacles@[i].time
                    &&& forall|i: int|
                        0 <= i < b.chains@.len() ==> ((#[trigger] b.chains@[i]).tail_beat
                            >= b.chains@[i].beat ==> b.chains@[i].tail_time >= b.chains@[i].time)
                },
                Err(e) => {
                    &&& spec_new_issue(bpm, spec_events_v3(beatmap@.bpm_events)) == Some(e@)
                    &&& !events_valid(bpm, spec_events_v3(beatmap@.bpm_events))
                },
            },
    {
        let ghost sevs = spec_events_v3(beatmap@.bpm_events);
        let mut evs: Vec<BpmEvent> = Vec::new();
        let ne = beatmap.bpm_events.len();
        proof {
            assert(beatmap@.bpm_events.take(0).map_values(
                |e: v3::BpmEvent| BpmEvent::spec_from_v3(e),
            ) =~= Seq::<BpmEvent>::empty());
        }
        for i in 0..ne
            invariant
                ne == beatmap@.bpm_events.len(),
                evs@ == spec_events_v3(beatmap@.bpm_events.take(i as int)),
        {
            evs.push(BpmEvent::from_v3(beatmap.bpm_events[i]));
            proof {
                assert(beatmap@.bpm_events.take(i + 1) =~= beatmap@.bpm_events.take(
                    i as int,
                ).push(beatmap@.bpm_events[i as int]));
                assert(spec_events_v3(beatmap@.bpm_events.take(i + 1)) =~= spec_events_v3(
                    beatmap@.bpm_events.take(i as int),
                ).push(BpmEvent::spec_from_v3(beatmap@.bpm_events[i as int])));
            }
        }
        proof {
            assert(beatmap@.bpm_events.take(ne as int) =~= beatmap@.bpm_events);
        }
        let tracker = match BpmTracker::new(bpm, evs) {
            Ok(t) => t,
            Err(e) => return Err(e),
        };
        let beats = collect_v3_beats(&beatmap.color_notes, &tracker, Ghost(bpm), Ghost(sevs));
        let bombs = collect_v3_bombs(&beatmap.bomb_notes, &tracker, Ghost(bpm), Ghost(sevs));
        let obstacles = collect_v3_obstacles(&beatmap.obstacles, &tracker, Ghost(bpm), Ghost(sevs));
        let chains = collect_v3_chains(&beatmap.burst_sliders, &tracker, Ghost(bpm), Ghost(sevs));
        Ok(Beatmap { beats, bombs, obstacles, chains })
    }

    /// Normalize a dialect-tagged document against a starting tempo:
    /// dispatch on the tag and hand the document to that dialect's
    /// normalizer.
    pub fn from_any(beatmap: AnyverBeatmap, bpm: u64) -> (r: Result<Beatmap, AnyverParseError>)
        ensures
            match r {
                Ok(b) => {
                    &&& events_valid(bpm, norm_events(beatmap@))
                    &&& normalizes_to(beatmap@, bpm, b)
                },
                Err(e) => {
                    &&& spec_new_issue(bpm, norm_events(beatmap@)) == Some(e@)
                    &&& !events_valid(bpm, norm_events(beatmap@))
                },
            },
    {
        match beatmap {
            AnyverBeatmap::V2(b) => Self::from_v2(b, bpm),
            AnyverBeatmap::V3(b) => Self::from_v3(b, bpm),
        }
    }
}


/// The tempo-change events of a dialect-tagged document, in beat
/// units.
pub open spec fn norm_events(src: AnyverBeatmapView) -> Seq<BpmEvent> {
    match src {
        AnyverBeatmapView::V2(v) => spec_events_v2(v.bpm_events),
        AnyverBeatmapView::V3(v) => spec_events_v3(v.bpm_events),
    }
}

/// What normalizing a dialect-tagged document against a starting
/// tempo yields: each dialect's collections mapped through the
/// timeline its events denote, with the laws every wall and chain
/// obeys.
pub open spec fn normalizes_to(src: AnyverBeatmapView, bpm: u64, b: Beatmap) -> bool {
    let evs = norm_events(src);
    &&& match src {
        AnyverBeatmapView::V2(v) => {
            &&& b.beats@ == spec_beats_v2(v.notes, bpm, evs)
            &&& b.bombs@ == spec_bombs_v2(v.notes, bpm, evs)
            &&& b.obstacles@ == spec_obstacles_v2(v.obstacles, bpm, evs)
            &&& b.chains@ == Seq::<Chain>::empty()
        },
        AnyverBeatmapView::V3(v) => {
            &&& b.beats@ == spec_beats_v3(v.color_notes, bpm, evs)
            &&& b.bombs@ == spec_bombs_v3(v.bomb_notes, bpm, evs)
            &&& b.obstacles@ == spec_obstacles_v3(v.obstacles, bpm, evs)
            &&& b.chains@ == spec_chains_v3(v.burst_sliders, bpm, evs)
        },
    }
    &&& forall|i: int|
        0 <= i < b.obstacles@.len() ==> (#[trigger] b.obstacles@[i]).end_time
            >= b.obstacles@[i].time && b.obstacles@[i].duration == b.obstacles@[i].end_time
            - b.obstacles@[i].time
    &&& forall|i: int|
        0 <= i < b.chains@.len() ==> ((#[trigger] b.chains@[i]).tail_beat >= b.chains@[i].beat
            ==> b.chains@[i].tail_time >= b.chains@[i].time)
}

} // verus!
