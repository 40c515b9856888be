//! The newer beatmap dialect: terse field names, separate collections
//! per entity kind, unpacked wall geometry.

use vstd::prelude::*;

use crate::beatmap::util::spec_precision;
use crate::beatmap::util::{deserialize_precision, spec_advance, advance_time};
use crate::beatmap::{
    AnyverParseError, ParseErrorView, get_arr, get_beats, get_code, get_int, get_num, get_str,
    opt_num, spec_get_arr, spec_get_beats, spec_get_code, spec_get_int, spec_get_num,
    spec_get_str, spec_opt_num,
};
use crate::beatmap::v2::spec_parse_seq;
use crate::raw::RawValue;

verus! {

/// The color of a tap target.
#[derive(Debug, Clone, Copy, PartialEq, Eq, Hash, Structural)]
pub enum NoteColor {
    Red,
    Blue,
}

impl NoteColor {
    /// The color a raw code names, if any: 0 red, 1 blue.
    pub open spec fn spec_from_code(v: u32) -> Option<NoteColor> {
        if v == 0 {
            Some(NoteColor::Red)
        } else if v == 1 {
            Some(NoteColor::Blue)
        } else {
            None
        }
    }

    pub fn from_code(v: u32) -> (r: Option<NoteColor>)
        ensures
            r == Self::spec_from_code(v),
    {
        if v == 0 {
            Some(NoteColor::Red)
        } else if v == 1 {
            Some(NoteColor::Blue)
        } else {
            None
        }
    }
}

/// A cut direction: eight compass points or "any".
#[derive(Debug, Clone, Copy, PartialEq, Eq, Hash, Structural)]
pub enum NoteDirection {
    Up,
    Down,
    Left,
    Right,
    UpLeft,
    UpRight,
    DownLeft,
    DownRight,
    Any,
}

impl NoteDirection {
    /// The direction a raw code names, if any.  Codes 0 through 8 are
    /// the nominal domain; [1000, 1360] approximates a continuous
    /// rotation by 45-degree arcs, each bucketed to the nearest
    /// compass point.  Anything else is outside every known domain.
    pub open spec fn spec_from_code(v: u32) -> Option<NoteDirection> {
        if v == 0 {
            Some(NoteDirection::Up)
        } else if v == 1 {
            Some(NoteDirection::Down)
        } else if v == 2 {
            Some(NoteDirection::Left)
        } else if v == 3 {
            Some(NoteDirection::Right)
        } else if v == 4 {
            Some(NoteDirection::UpLeft)
        } else if v == 5 {
            Some(NoteDirection::UpRight)
        } else if v == 6 {
            Some(NoteDirection::DownLeft)
        } else if v == 7 {
            Some(NoteDirection::DownRight)
        } else if v == 8 {
            Some(NoteDirection::Any)
        } else if 1000 <= v < 1023 {
            Some(NoteDirection::Down)
        } else if 1023 <= v < 1068 {
            Some(NoteDirection::DownLeft)
        } else if 1068 <= v < 1113 {
            Some(NoteDirection::Left)
        } else if 1113 <= v < 1158 {
            Some(NoteDirection::UpLeft)
        } else if 1158 <= v < 1203 {
            Some(NoteDirection::Up)
        } else if 1203 <= v < 1248 {
            Some(NoteDirection::UpRight)
        } else if 1248 <= v < 1293 {
            Some(NoteDirection::Right)
        } else if 1293 <= v < 1338 {
            Some(NoteDirection::DownRight)
        } else if 1338 <= v <= 1360 {
            Some(NoteDirection::Down)
        } else {
            None
        }
    }

    pub fn from_code(v: u32) -> (r: Option<NoteDirection>)
        ensures
            r == Self::spec_from_code(v),
    {
        if v == 0 {
            Some(NoteDirection::Up)
        } else if v == 1 {
            Some(NoteDirection::Down)
        } else if v == 2 {
            Some(NoteDirection::Left)
        } else if v == 3 {
            Some(NoteDirection::Right)
        } else if v == 4 {
            Some(NoteDirection::UpLeft)
        } else if v == 5 {
            Some(NoteDirection::UpRight)
        } else if v == 6 {
            Some(NoteDirection::DownLeft)
        } else if v == 7 {
            Some(NoteDirection::DownRight)
        } else if v == 8 {
            Some(NoteDirection::Any)
        } else if 1000 <= v && v < 1023 {
            Some(NoteDirection::Down)
        } else if 1023 <= v && v < 1068 {
            Some(NoteDirection::DownLeft)
        } else if 1068 <= v && v < 1113 {
            Some(NoteDirection::Left)
        } else if 1113 <= v && v < 1158 {
            Some(NoteDirection::UpLeft)
        } else if 1158 <= v && v < 1203 {
            Some(NoteDirection::Up)
        } else if 1203 <= v && v < 1248 {
            Some(NoteDirection::UpRight)
        } else if 1248 <= v && v < 1293 {
            Some(NoteDirection::Right)
        } else if 1293 <= v && v < 1338 {
            Some(NoteDirection::DownRight)
        } else if 1338 <= v && v <= 1360 {
            Some(NoteDirection::Down)
        } else {
            None
        }
    }
}

/// A directional tap target.  Beats and positions in millionths.
#[derive(Debug, Clone, Copy, PartialEq, Eq)]
pub struct ColorNote {
    pub beat: u64,
    pub x: i64,
    pub y: i64,
    pub angle_offset: Option<i64>,
    pub color: NoteColor,
    pub direction: NoteDirection,
}

/// A non-directional avoidance target.
#[derive(Debug, Clone, Copy, PartialEq, Eq)]
pub struct BombNote {
    pub beat: u64,
    pub x: i64,
    pub y: i64,
}

/// A wall record; geometry is stored unpacked in this dialect.
#[derive(Debug, Clone, Copy, PartialEq, Eq)]
pub struct Obstacle {
    pub beat: u64,
    pub x: i64,
    pub y: i64,
    pub duration: u64,
    pub width: i64,
    pub height: i64,
}

/// A burst slider from a head note to a tail position.
#[derive(Debug, Clone, Copy, PartialEq, Eq)]
pub struct BurstSlider {
    pub beat: u64,
    pub x: i64,
    pub y: i64,
    pub color: NoteColor,
    pub direction: NoteDirection,
    pub tail_beat: u64,
    pub tail_x: i64,
    pub tail_y: i64,
    pub num_slices: u8,
    pub squish_amount: i64,
}

/// A tempo-change event: at `beat`, the tempo becomes `bpm`
/// (millionths of one beat per minute).
#[derive(Debug, Clone, Copy, PartialEq, Eq)]
pub struct BpmEvent {
    pub beat: u64,
    pub bpm: u64,
}

/// A fully adapted document of this dialect.
#[derive(Debug, Clone)]
pub struct Beatmap {
    pub version: String,
    pub color_notes: Vec<ColorNote>,
    pub bomb_notes: Vec<BombNote>,
    pub obstacles: Vec<Obstacle>,
    pub burst_sliders: Vec<BurstSlider>,
    pub bpm_events: Vec<BpmEvent>,
    pub fake_color_notes: Option<Vec<ColorNote>>,
    pub fake_bomb_notes: Option<Vec<ColorNote>>,
    pub fake_obstacles: Option<Vec<ColorNote>>,
    pub fake_burst_sliders: Option<Vec<ColorNote>>,
}

/// Mathematical image of a [`Beatmap`].
pub struct BeatmapView {
    pub version: Seq<char>,
    pub color_notes: Seq<ColorNote>,
    pub bomb_notes: Seq<BombNote>,
    pub obstacles: Seq<Obstacle>,
    pub burst_sliders: Seq<BurstSlider>,
    pub bpm_events: Seq<BpmEvent>,
    pub fake_color_notes: Option<Seq<ColorNote>>,
    pub fake_bomb_notes: Option<Seq<ColorNote>>,
    pub fake_obstacles: Option<Seq<ColorNote>>,
    pub fake_burst_sliders: Option<Seq<ColorNote>>,
}

/// The view of an optional collection.
pub open spec fn spec_opt_view(v: Option<Vec<ColorNote>>) -> Option<Seq<ColorNote>> {
    match v {
        Some(items) => Some(items@),
        None => None,
    }
}

impl View for Beatmap {
    type V = BeatmapView;

    open spec fn view(&self) -> BeatmapView {
        BeatmapView {
            version: self.version@,
            color_notes: self.color_notes@,
            bomb_notes: self.bomb_notes@,
            obstacles: self.obstacles@,
            burst_sliders: self.burst_sliders@,
            bpm_events: self.bpm_events@,
            fake_color_notes: spec_opt_view(self.fake_color_notes),
            fake_bomb_notes: spec_opt_view(self.fake_bomb_notes),
            fake_obstacles: spec_opt_view(self.fake_obstacles),
            fake_burst_sliders: spec_opt_view(self.fake_burst_sliders),
        }
    }
}

impl ColorNote {
    /// What adapting one entry of the tap-target collection yields.
    pub open spec fn spec_from_raw(v: RawValue) -> Result<ColorNote, ParseErrorView> {
        match spec_get_beats(v, "b"@) {
            None => Err(ParseErrorView::ExpectedType("b"@)),
            Some(beat) => match spec_get_int(v, "x"@) {
                None => Err(ParseErrorView::ExpectedType("x"@)),
                Some(xi) => match spec_get_int(v, "y"@) {
                    None => Err(ParseErrorView::ExpectedType("y"@)),
                    Some(yi) => match spec_opt_num(v, "a"@) {
                        None => Err(ParseErrorView::ExpectedType("a"@)),
                        Some(angle_offset) => match spec_get_code(v, "c"@) {
                            None => Err(ParseErrorView::ExpectedType("c"@)),
                            Some(cc) => match NoteColor::spec_from_code(cc) {
                                None => Err(ParseErrorView::ExpectedType("c"@)),
                                Some(color) => match spec_get_code(v, "d"@) {
                                    None => Err(ParseErrorView::ExpectedType("d"@)),
                                    Some(dc) => match NoteDirection::spec_from_code(dc) {
                                        None => Err(ParseErrorView::BadDirection(dc)),
                                        Some(direction) => Ok(
                                            ColorNote {
                                                beat,
                                                x: spec_precision(xi as int) as i64,
                                                y: spec_precision(yi as int) as i64,
                                                angle_offset,
                                                color,
                                                direction,
                                            },
                                        ),
                                    },
                                },
                            },
                        },
                    },
                },
            },
        }
    }

    /// Adapt one entry of the tap-target collection.
    pub fn from_raw(v: &RawValue) -> (r: Result<ColorNote, AnyverParseError>)
        ensures
            match r {
                Ok(n) => Self::spec_from_raw(*v) == Ok::<ColorNote, ParseErrorView>(n),
                Err(e) => Self::spec_from_raw(*v) == Err::<ColorNote, ParseErrorView>(e@),
            },
    {
        let beat = match get_beats(v, "b") {
            Ok(b) => b,
            Err(e) => return Err(e),
        };
        let xi = match get_int(v, "x") {
            Ok(x) => x,
            Err(e) => return Err(e),
        };
        let yi = match get_int(v, "y") {
            Ok(y) => y,
            Err(e) => return Err(e),
        };
        let angle_offset = match opt_num(v, "a") {
            Ok(a) => a,
            Err(e) => return Err(e),
        };
        let cc = match get_code(v, "c") {
            Ok(c) => c,
            Err(e) => return Err(e),
        };
        let color = match NoteColor::from_code(cc) {
            Some(c) => c,
            None => return Err(AnyverParseError::ExpectedType("c".to_owned())),
        };
        let dc = match get_code(v, "d") {
            Ok(d) => d,
            Err(e) => return Err(e),
        };
        let direction = match NoteDirection::from_code(dc) {
            Some(d) => d,
            None => return Err(AnyverParseError::BadDirection(dc)),
        };
        Ok(
            ColorNote {
                beat,
                x: deserialize_precision(xi),
                y: deserialize_precision(yi),
                angle_offset,
                color,
                direction,
            },
        )
    }

    /// The event time of this note under one constant tempo, in
    /// millionths of a second (saturating at the representable top).
    pub fn time(&self, bpm: u64) -> (t: u64)
        requires
            bpm >= 1,
        ensures
            t == spec_advance(0, self.beat, bpm),
    {
        advance_time(0, self.beat, bpm)
    }
}

impl BombNote {
    /// What adapting one entry of the bomb collection yields.
    pub open spec fn spec_from_raw(v: RawValue) -> Result<BombNote, ParseErrorView> {
        match spec_get_beats(v, "b"@) {
            None => Err(ParseErrorView::ExpectedType("b"@)),
            Some(beat) => match spec_get_int(v, "x"@) {
                None => Err(ParseErrorView::ExpectedType("x"@)),
                Some(xi) => match spec_get_int(v, "y"@) {
                    None => Err(ParseErrorView::ExpectedType("y"@)),
                    Some(yi) => Ok(
                        BombNote {
                            beat,
                            x: spec_precision(xi as int) as i64,
                            y: spec_precision(yi as int) as i64,
                        },
                    ),
                },
            },
        }
    }

    /// Adapt one entry of the bomb collection.
    pub fn from_raw(v: &RawValue) -> (r: Result<BombNote, AnyverParseError>)
        ensures
            match r {
                Ok(n) => Self::spec_from_raw(*v) == Ok::<BombNote, ParseErrorView>(n),
                Err(e) => Self::spec_from_raw(*v) == Err::<BombNote, ParseErrorView>(e@),
            },
    {
        let beat = match get_beats(v, "b") {
            Ok(b) => b,
            Err(e) => return Err(e),
        };
        let xi = match get_int(v, "x") {
            Ok(x) => x,
            Err(e) => return Err(e),
        };
        let yi = match get_int(v, "y") {
            Ok(y) => y,
            Err(e) => return Err(e),
        };
        Ok(BombNote { beat, x: deserialize_precision(xi), y: deserialize_precision(yi) })
    }

    /// The event time of this bomb under one constant tempo, in
    /// millionths of a second (saturating at the representable top).
    pub fn time(&self, bpm: u64) -> (t: u64)
        requires
            bpm >= 1,
        ensures
            t == spec_advance(0, self.beat, bpm),
    {
        advance_time(0, self.beat, bpm)
    }
}

impl Obstacle {
    /// What adapting one entry of the wall collection yields.
    pub open spec fn spec_from_raw(v: RawValue) -> Result<Obstacle, ParseErrorView> {
        match spec_get_beats(v, "b"@) {
            None => Err(ParseErrorView::ExpectedType("b"@)),
            Some(beat) => match spec_get_int(v, "x"@) {
                None => Err(ParseErrorView::ExpectedType("x"@)),
                Some(xi) => match spec_get_int(v, "y"@) {
                    None => Err(ParseErrorView::ExpectedType("y"@)),
                    Some(yi) => match spec_get_beats(v, "d"@) {
                        None => Err(ParseErrorView::ExpectedType("d"@)),
                        Some(duration) => match spec_get_int(v, "w"@) {
                            None => Err(ParseErrorView::ExpectedType("w"@)),
                            Some(wi) => match spec_get_int(v, "h"@) {
                                None => Err(ParseErrorView::ExpectedType("h"@)),
                                Some(hi) => Ok(
                                    Obstacle {
                                        beat,
                                        x: spec_precision(xi as int) as i64,
                                        y: spec_precision(yi as int) as i64,
                                        duration,
                                        width: spec_precision(wi as int) as i64,
                                        height: spec_precision(hi as int) as i64,
                                    },
                                ),
                            },
                        },
                    },
                },
            },
        }
    }

    /// Adapt one entry of the wall collection.
    pub fn from_raw(v: &RawValue) -> (r: Result<Obstacle, AnyverParseError>)
        ensures
            match r {
                Ok(o) => Self::spec_from_raw(*v) == Ok::<Obstacle, ParseErrorView>(o),
                Err(e) => Self::spec_from_raw(*v) == Err::<Obstacle, ParseErrorView>(e@),
            },
    {
        let beat = match get_beats(v, "b") {
            Ok(b) => b,
            Err(e) => return Err(e),
        };
        let xi = match get_int(v, "x") {
            Ok(x) => x,
            Err(e) => return Err(e),
        };
        let yi = match get_int(v, "y") {
            Ok(y) => y,
            Err(e) => return Err(e),
        };
        let duration = match get_beats(v, "d") {
            Ok(d) => d,
            Err(e) => return Err(e),
        };
        let wi = match get_int(v, "w") {
            Ok(w) => w,
            Err(e) => return Err(e),
        };
        let hi = match get_int(v, "h") {
            Ok(h) => h,
            Err(e) => return Err(e),
        };
        Ok(
            Obstacle {
                beat,
                x: deserialize_precision(xi),
                y: deserialize_precision(yi),
                duration,
                width: deserialize_precision(wi),
                height: deserialize_precision(hi),
            },
        )
    }
}

impl BurstSlider {
    /// What adapting one entry of the burst-slider collection yields.
    pub open spec fn spec_from_raw(v: RawValue) -> Result<BurstSlider, ParseErrorView> {
        match spec_get_beats(v, "b"@) {
            None => Err(ParseErrorView::ExpectedType("b"@)),
            Some(beat) => match spec_get_int(v, "x"@) {
                None => Err(ParseErrorView::ExpectedType("x"@)),
                Some(xi) => match spec_get_int(v, "y"@) {
                    None => Err(ParseErrorView::ExpectedType("y"@)),
                    Some(yi) => match spec_get_code(v, "c"@) {
                        None => Err(ParseErrorView::ExpectedType("c"@)),
                        Some(cc) => match NoteColor::spec_from_code(cc) {
                            None => Err(ParseErrorView::ExpectedType("c"@)),
                            Some(color) => match spec_get_code(v, "d"@) {
                                None => Err(ParseErrorView::ExpectedType("d"@)),
                                Some(dc) => match NoteDirection::spec_from_code(dc) {
                                    None => Err(ParseErrorView::BadDirection(dc)),
                                    Some(direction) => match spec_get_beats(v, "tb"@) {
                                        None => Err(ParseErrorView::ExpectedType("tb"@)),
                                        Some(tail_beat) => match spec_get_int(v, "tx"@) {
                                            None => Err(ParseErrorView::ExpectedType("tx"@)),
                                            Some(txi) => match spec_get_int(v, "ty"@) {
                                                None => Err(ParseErrorView::ExpectedType("ty"@)),
                                                Some(tyi) => match spec_get_code(v, "sc"@) {
                                                    None => Err(
                                                        ParseErrorView::ExpectedType("sc"@),
                                                    ),
                                                    Some(sc) => if sc <= 255 {
                                                        match spec_get_num(v, "s"@) {
                                                            None => Err(
                                                                ParseErrorView::ExpectedType("s"@),
                                                            ),
                                                            Some(squish_amount) => Ok(
                                                                BurstSlider {
                                                                    beat,
                                                                    x: spec_precision(
                                                                        xi as int,
                                                                    ) as i64,
                                                                    y: spec_precision(
                                                                        yi as int,
                                                                    ) as i64,
                                                                    color,
                                                                    direction,
                                                                    tail_beat,
                                                                    tail_x: spec_precision(
                                                                        txi as int,
                                                                    ) as i64,
                                                                    tail_y: spec_precision(
                                                                        tyi as int,
                                                                    ) as i64,
                                                                    num_slices: sc as u8,
                                                                    squish_amount,
                                                                },
                                                            ),
                                                        }
                                                    } else {
                                                        Err(ParseErrorView::ExpectedType("sc"@))
                                                    },
                                                },
                                            },
                                        },
                                    },
                                },
                            },
                        },
                    },
                },
            },
        }
    }

    /// Adapt one entry of the burst-slider collection.
    pub fn from_raw(v: &RawValue) -> (r: Result<BurstSlider, AnyverParseError>)
        ensures
            match r {
                Ok(s) => Self::spec_from_raw(*v) == Ok::<BurstSlider, ParseErrorView>(s),
                Err(e) => Self::spec_from_raw(*v) == Err::<BurstSlider, ParseErrorView>(e@),
            },
    {
        let beat = match get_beats(v, "b") {
            Ok(b) => b,
            Err(e) => return Err(e),
        };
        let xi = match get_int(v, "x") {
            Ok(x) => x,
            Err(e) => return Err(e),
        };
        let yi = match get_int(v, "y") {
            Ok(y) => y,
            Err(e) => return Err(e),
        };
        let cc = match get_code(v, "c") {
            Ok(c) => c,
            Err(e) => return Err(e),
        };
        let color = match NoteColor::from_code(cc) {
            Some(c) => c,
            None => return Err(AnyverParseError::ExpectedType("c".to_owned())),
        };
        let dc = match get_code(v, "d") {
            Ok(d) => d,
            Err(e) => return Err(e),
        };
        let direction = match NoteDirection::from_code(dc) {
            Some(d) => d,
            None => return Err(AnyverParseError::BadDirection(dc)),
        };
        let tail_beat = match get_beats(v, "tb") {
            Ok(t) => t,
            Err(e) => return Err(e),
        };
        let txi = match get_int(v, "tx") {
            Ok(t) => t,
            Err(e) => return Err(e),
        };
        let tyi = match get_int(v, "ty") {
            Ok(t) => t,
            Err(e) => return Err(e),
        };
        let sc = match get_code(v, "sc") {
            Ok(s) => s,
            Err(e) => return Err(e),
        };
        if sc > 255 {
            return Err(AnyverParseError::ExpectedType("sc".to_owned()));
        }
        let squish_amount = match get_num(v, "s") {
            Ok(s) => s,
            Err(e) => return Err(e),
        };
        Ok(
            BurstSlider {
                beat,
                x: deserialize_precision(xi),
                y: deserialize_precision(yi),
                color,
                direction,
                tail_beat,
                tail_x: deserialize_precision(txi),
                tail_y: deserialize_precision(tyi),
                num_slices: sc as u8,
                squish_amount,
            },
        )
    }
}

impl BpmEvent {
    /// What adapting one tempo-change event yields.  "b" is the beat
    /// the change takes effect at; "m" is the new tempo.
    pub open spec fn spec_from_raw(v: RawValue) -> Result<BpmEvent, ParseErrorView> {
        match spec_get_beats(v, "b"@) {
            None => Err(ParseErrorView::ExpectedType("b"@)),
            Some(beat) => match spec_get_beats(v, "m"@) {
                None => Err(ParseErrorView::ExpectedType("m"@)),
                Some(bpm) => Ok(BpmEvent { beat, bpm }),
            },
        }
    }

    /// Adapt one tempo-change event.
    pub fn from_raw(v: &RawValue) -> (r: Result<BpmEvent, AnyverParseError>)
        ensures
            match r {
                Ok(n) => Self::spec_from_raw(*v) == Ok::<BpmEvent, ParseErrorView>(n),
                Err(e) => Self::spec_from_raw(*v) == Err::<BpmEvent, ParseErrorView>(e@),
            },
    {
        let beat = match get_beats(v, "b") {
            Ok(b) => b,
            Err(e) => return Err(e),
        };
        let bpm = match get_beats(v, "m") {
            Ok(m) => m,
            Err(e) => return Err(e),
        };
        Ok(BpmEvent { beat, bpm })
    }
}


/// What adapting the tap-target collection yields.
pub open spec fn spec_color_notes_seq(items: Seq<RawValue>) -> Result<
    Seq<ColorNote>,
    ParseErrorView,
> {
    spec_parse_seq(items, |v| ColorNote::spec_from_raw(v))
}

/// What adapting the bomb collection yields.
pub open spec fn spec_bomb_notes_seq(items: Seq<RawValue>) -> Result<
    Seq<BombNote>,
    ParseErrorView,
> {
    spec_parse_seq(items, |v| BombNote::spec_from_raw(v))
}

/// What adapting the wall collection yields.
pub open spec fn spec_obstacles_seq(items: Seq<RawValue>) -> Result<
    Seq<Obstacle>,
    ParseErrorView,
> {
    spec_parse_seq(items, |v| Obstacle::spec_from_raw(v))
}

/// What adapting the burst-slider collection yields.
pub open spec fn spec_sliders_seq(items: Seq<RawValue>) -> Result<
    Seq<BurstSlider>,
    ParseErrorView,
> {
    spec_parse_seq(items, |v| BurstSlider::spec_from_raw(v))
}

/// What adapting the tempo-change collection yields.
pub open spec fn spec_events_seq(items: Seq<RawValue>) -> Result<Seq<BpmEvent>, ParseErrorView> {
    spec_parse_seq(items, |v| BpmEvent::spec_from_raw(v))
}

/// Once a prefix of the collection fails to adapt, the whole
/// collection fails with that same error.
pub proof fn lemma_color_notes_seq_err(items: Seq<RawValue>, k: int)
    requires
        0 <= k <= items.len(),
        spec_color_notes_seq(items.take(k)) is Err,
    ensures
        spec_color_notes_seq(items) == spec_color_notes_seq(items.take(k)),
    decreases items.len() - k,
{
    if k < items.len() {
        assert(items.take(k + 1).drop_last() =~= items.take(k));
        lemma_color_notes_seq_err(items, k + 1);
    } else {
        assert(items.take(k) =~= items);
    }
}

/// Once a prefix of the collection fails to adapt, the whole
/// collection fails with that same error.
pub proof fn lemma_bomb_notes_seq_err(items: Seq<RawValue>, k: int)
    requires
        0 <= k <= items.len(),
        spec_bomb_notes_seq(items.take(k)) is Err,
    ensures
        spec_bomb_notes_seq(items) == spec_bomb_notes_seq(items.take(k)),
    decreases items.len() - k,
{
    if k < items.len() {
        assert(items.take(k + 1).drop_last() =~= items.take(k));
        lemma_bomb_notes_seq_err(items, k + 1);
    } else {
        assert(items.take(k) =~= items);
    }
}

/// Once a prefix of the collection fails to adapt, the whole
/// collection fails with that same error.
pub proof fn lemma_obstacles_seq_err(items: Seq<RawValue>, k: int)
    requires
        0 <= k <= items.len(),
        spec_obstacles_seq(items.take(k)) is Err,
    ensures
        spec_obstacles_seq(items) == spec_obstacles_seq(items.take(k)),
    decreases items.len() - k,
{
    if k < items.len() {
        assert(items.take(k + 1).drop_last() =~= items.take(k));
        lemma_obstacles_seq_err(items, k + 1);
    } else {
        assert(items.take(k) =~= items);
    }
}

/// Once a prefix of the collection fails to adapt, the whole
/// collection fails with that same error.
pub proof fn lemma_sliders_seq_err(items: Seq<RawValue>, k: int)
    requires
        0 <= k <= items.len(),
        spec_sliders_seq(items.take(k)) is Err,
    ensures
        spec_sliders_seq(items) == spec_sliders_seq(items.take(k)),
    decreases items.len() - k,
{
    if k < items.len() {
        assert(items.take(k + 1).drop_last() =~= items.take(k));
        lemma_sliders_seq_err(items, k + 1);
    } else {
        assert(items.take(k) =~= items);
    }
}

/// Once a prefix of the collection fails to adapt, the whole
/// collection fails with that same error.
pub proof fn lemma_events_seq_err(items: Seq<RawValue>, k: int)
    requires
        0 <= k <= items.len(),
        spec_events_seq(items.take(k)) is Err,
    ensures
        spec_events_seq(items) == spec_events_seq(items.take(k)),
    decreases items.len() - k,
{
    if k < items.len() {
        assert(items.take(k + 1).drop_last() =~= items.take(k));
        lemma_events_seq_err(items, k + 1);
    } else {
        assert(items.take(k) =~= items);
    }
}

/// What adapting an optional tap-target collection yields: absent or
/// null means "not given".
pub open spec fn spec_opt_notes(doc: RawValue, key: Seq<char>) -> Result<
    Option<Seq<ColorNote>>,
    ParseErrorView,
> {
    match doc.spec_get(key) {
        Option::None => Ok(Option::<Seq<ColorNote>>::None),
        Some(RawValue::Null) => Ok(Option::<Seq<ColorNote>>::None),
        Some(RawValue::Arr(items)) => match spec_color_notes_seq(items@) {
            Ok(s) => Ok(Some(s)),
            Err(e) => Err(e),
        },
        Some(_) => Err(ParseErrorView::ExpectedType(key)),
    }
}

/// Adapt an optional tap-target collection.
fn parse_opt_notes(doc: &RawValue, key: &str) -> (r: Result<
    Option<Vec<ColorNote>>,
    AnyverParseError,
>)
    ensures
        match r {
            Ok(v) => spec_opt_notes(*doc, key@) == Ok::<
                Option<Seq<ColorNote>>,
                ParseErrorView,
            >(spec_opt_view(v)),
            Err(e) => spec_opt_notes(*doc, key@) == Err::<
                Option<Seq<ColorNote>>,
                ParseErrorView,
            >(e@),
        },
{
    match doc.get(key) {
        Option::None => Ok(Option::None),
        Some(RawValue::Null) => Ok(Option::None),
        Some(RawValue::Arr(items)) => match parse_color_notes(items) {
            Ok(ns) => Ok(Some(ns)),
            Err(e) => Err(e),
        },
        Some(_) => Err(AnyverParseError::ExpectedType(key.to_owned())),
    }
}

fn parse_color_notes(items: &Vec<RawValue>) -> (r: Result<Vec<ColorNote>, AnyverParseError>)
    ensures
        match r {
            Ok(ts) => spec_color_notes_seq(items@) == Ok::<Seq<ColorNote>, ParseErrorView>(ts@),
            Err(e) => spec_color_notes_seq(items@) == Err::<Seq<ColorNote>, ParseErrorView>(e@),
        },
{
    let mut out: Vec<ColorNote> = Vec::new();
    let n = items.len();
    proof {
        assert(items@.take(0) =~= Seq::<RawValue>::empty());
    }
    for i in 0..n
        invariant
            n == items@.len(),
            spec_color_notes_seq(items@.take(i as int)) == Ok::<Seq<ColorNote>, ParseErrorView>(out@),
    {
        proof {
            assert(items@.take(i + 1).drop_last() =~= items@.take(i as int));
        }
        match ColorNote::from_raw(&items[i]) {
            Ok(t) => out.push(t),
            Err(e) => {
                proof {
                    assert(items@.take(i + 1).last() == items@[i as int]);
                    assert(spec_color_notes_seq(items@.take(i + 1)) == Err::<Seq<ColorNote>, ParseErrorView>(e@));
                    lemma_color_notes_seq_err(items@, i + 1);
                }
                return Err(e);
            },
        }
    }
    proof {
        assert(items@.take(n as int) =~= items@);
    }
    Ok(out)
}

fn parse_bomb_notes(items: &Vec<RawValue>) -> (r: Result<Vec<BombNote>, AnyverParseError>)
    ensures
        match r {
            Ok(ts) => spec_bomb_notes_seq(items@) == Ok::<Seq<BombNote>, ParseErrorView>(ts@),
            Err(e) => spec_bomb_notes_seq(items@) == Err::<Seq<BombNote>, ParseErrorView>(e@),
        },
{
    let mut out: Vec<BombNote> = Vec::new();
    let n = items.len();
    proof {
        assert(items@.take(0) =~= Seq::<RawValue>::empty());
    }
    for i in 0..n
        invariant
            n == items@.len(),
            spec_bomb_notes_seq(items@.take(i as int)) == Ok::<Seq<BombNote>, ParseErrorView>(out@),
    {
        proof {
            assert(items@.take(i + 1).drop_last() =~= items@.take(i as int));
        }
        match BombNote::from_raw(&items[i]) {
            Ok(t) => out.push(t),
            Err(e) => {
                proof {
                    assert(items@.take(i + 1).last() == items@[i as int]);
                    assert(spec_bomb_notes_seq(items@.take(i + 1)) == Err::<Seq<BombNote>, ParseErrorView>(e@));
                    lemma_bomb_notes_seq_err(items@, i + 1);
                }
                return Err(e);
            },
        }
    }
    proof {
        assert(items@.take(n as int) =~= items@);
    }
    Ok(out)
}

fn parse_obstacles(items: &Vec<RawValue>) -> (r: Result<Vec<Obstacle>, AnyverParseError>)
    ensures
        match r {
            Ok(ts) => spec_obstacles_seq(items@) == Ok::<Seq<Obstacle>, ParseErrorView>(ts@),
            Err(e) => spec_obstacles_seq(items@) == Err::<Seq<Obstacle>, ParseErrorView>(e@),
        },
{
    let mut out: Vec<Obstacle> = Vec::new();
    let n = items.len();
    proof {
        assert(items@.take(0) =~= Seq::<RawValue>::empty());
    }
    for i in 0..n
        invariant
            n == items@.len(),
            spec_obstacles_seq(items@.take(i as int)) == Ok::<Seq<Obstacle>, ParseErrorView>(out@),
    {
        proof {
            assert(items@.take(i + 1).drop_last() =~= items@.take(i as int));
        }
        match Obstacle::from_raw(&items[i]) {
            Ok(t) => out.push(t),
            Err(e) => {
                proof {
                    assert(items@.take(i + 1).last() == items@[i as int]);
                    assert(spec_obstacles_seq(items@.take(i + 1)) == Err::<Seq<Obstacle>, ParseErrorView>(e@));
                    lemma_obstacles_seq_err(items@, i + 1);
                }
                return Err(e);
            },
        }
    }
    proof {
        assert(items@.take(n as int) =~= items@);
    }
    Ok(out)
}

fn parse_sliders(items: &Vec<RawValue>) -> (r: Result<Vec<BurstSlider>, AnyverParseError>)
    ensures
        match r {
            Ok(ts) => spec_sliders_seq(items@) == Ok::<Seq<BurstSlider>, ParseErrorView>(ts@),
            Err(e) => spec_sliders_seq(items@) == Err::<Seq<BurstSlider>, ParseErrorView>(e@),
        },
{
    let mut out: Vec<BurstSlider> = Vec::new();
    let n = items.len();
    proof {
        assert(items@.take(0) =~= Seq::<RawValue>::empty());
    }
    for i in 0..n
        invariant
            n == items@.len(),
            spec_sliders_seq(items@.take(i as int)) == Ok::<Seq<BurstSlider>, ParseErrorView>(out@),
    {
        proof {
            assert(items@.take(i + 1).drop_last() =~= items@.take(i as int));
        }
        match BurstSlider::from_raw(&items[i]) {
            Ok(t) => out.push(t),
            Err(e) => {
                proof {
                    assert(items@.take(i + 1).last() == items@[i as int]);
                    assert(spec_sliders_seq(items@.take(i + 1)) == Err::<Seq<BurstSlider>, ParseErrorView>(e@));
                    lemma_sliders_seq_err(items@, i + 1);
                }
                return Err(e);
            },
        }
    }
    proof {
        assert(items@.take(n as int) =~= items@);
    }
    Ok(out)
}

fn parse_bpm_events(items: &Vec<RawValue>) -> (r: Result<Vec<BpmEvent>, AnyverParseError>)
    ensures
        match r {
            Ok(ts) => spec_events_seq(items@) == Ok::<Seq<BpmEvent>, ParseErrorView>(ts@),
            Err(e) => spec_events_seq(items@) == Err::<Seq<BpmEvent>, ParseErrorView>(e@),
        },
{
    let mut out: Vec<BpmEvent> = Vec::new();
    let n = items.len();
    proof {
        assert(items@.take(0) =~= Seq::<RawValue>::empty());
    }
    for i in 0..n
        invariant
            n == items@.len(),
            spec_events_seq(items@.take(i as int)) == Ok::<Seq<BpmEvent>, ParseErrorView>(out@),
    {
        proof {
            assert(items@.take(i + 1).drop_last() =~= items@.take(i as int));
        }
        match BpmEvent::from_raw(&items[i]) {
            Ok(t) => out.push(t),
            Err(e) => {
                proof {
                    assert(items@.take(i + 1).last() == items@[i as int]);
                    assert(spec_events_seq(items@.take(i + 1)) == Err::<Seq<BpmEvent>, ParseErrorView>(e@));
                    lemma_events_seq_err(items@, i + 1);
                }
                return Err(e);
            },
        }
    }
    proof {
        assert(items@.take(n as int) =~= items@);
    }
    Ok(out)
}

impl Beatmap {
    /// What adapting a whole document of this dialect yields.
    pub open spec fn spec_from_raw(doc: RawValue) -> Result<BeatmapView, ParseErrorView> {
        match spec_get_str(doc, "version"@) {
            None => Err(ParseErrorView::ExpectedType("version"@)),
            Some(version) => match spec_get_arr(doc, "colorNotes"@) {
                None => Err(ParseErrorView::ExpectedType("colorNotes"@)),
                Some(raw_notes) => match spec_color_notes_seq(raw_notes) {
                    Err(e) => Err(e),
                    Ok(color_notes) => match spec_get_arr(doc, "bombNotes"@) {
                        None => Err(ParseErrorView::ExpectedType("bombNotes"@)),
                        Some(raw_bombs) => match spec_bomb_notes_seq(raw_bombs) {
                            Err(e) => Err(e),
                            Ok(bomb_notes) => match spec_get_arr(doc, "obstacles"@) {
                                None => Err(ParseErrorView::ExpectedType("obstacles"@)),
                                Some(raw_obstacles) => match spec_obstacles_seq(raw_obstacles) {
                                    Err(e) => Err(e),
                                    Ok(obstacles) => match spec_get_arr(doc, "burstSliders"@) {
                                        None => Err(ParseErrorView::ExpectedType("burstSliders"@)),
                                        Some(raw_sliders) => match spec_sliders_seq(raw_sliders) {
                                            Err(e) => Err(e),
                                            Ok(burst_sliders) => match spec_get_arr(
                                                doc,
                                                "bpmEvents"@,
                                            ) {
                                                None => Err(
                                                    ParseErrorView::ExpectedType("bpmEvents"@),
                                                ),
                                                Some(raw_events) => match spec_events_seq(
                                                    raw_events,
                                                ) {
                                                    Err(e) => Err(e),
                                                    Ok(bpm_events) => Self::spec_with_fakes(
                                                        doc,
                                                        BeatmapView {
                                                            version,
                                                            color_notes,
                                                            bomb_notes,
                                                            obstacles,
                                                            burst_sliders,
                                                            bpm_events,
                                                            fake_color_notes: Option::None,
                                                            fake_bomb_notes: Option::None,
                                                            fake_obstacles: Option::None,
                                                            fake_burst_sliders: Option::None,
                                                        },
                                                    ),
                                                },
                                            },
                                        },
                                    },
                                },
                            },
                        },
                    },
                },
            },
        }
    }

    /// Fill the four optional "fake" collections of a partial view.
    pub open spec fn spec_with_fakes(doc: RawValue, base: BeatmapView) -> Result<
        BeatmapView,
        ParseErrorView,
    > {
        match spec_opt_notes(doc, "fakeColorNotes"@) {
            Err(e) => Err(e),
            Ok(fake_color_notes) => match spec_opt_notes(doc, "fakeBombNotes"@) {
                Err(e) => Err(e),
                Ok(fake_bomb_notes) => match spec_opt_notes(doc, "fakeObstacles"@) {
                    Err(e) => Err(e),
                    Ok(fake_obstacles) => match spec_opt_notes(doc, "fakeBurstSliders"@) {
                        Err(e) => Err(e),
                        Ok(fake_burst_sliders) => Ok(
                            BeatmapView {
                                fake_color_notes,
                                fake_bomb_notes,
                                fake_obstacles,
                                fake_burst_sliders,
                                ..base
                            },
                        ),
                    },
                },
            },
        }
    }

    /// Adapt a whole decoded document of this dialect.
    pub fn from_raw(doc: &RawValue) -> (r: Result<Beatmap, AnyverParseError>)
        ensures
            match r {
                Ok(b) => Self::spec_from_raw(*doc) == Ok::<BeatmapView, ParseErrorView>(b@),
                Err(e) => Self::spec_from_raw(*doc) == Err::<BeatmapView, ParseErrorView>(e@),
            },
    {
        let version = match get_str(doc, "version") {
            Ok(s) => s,
            Err(e) => return Err(e),
        };
        let raw_notes = match get_arr(doc, "colorNotes") {
            Ok(a) => a,
            Err(e) => return Err(e),
        };
        let color_notes = match parse_color_notes(raw_notes) {
            Ok(ns) => ns,
            Err(e) => return Err(e),
        };
        let raw_bombs = match get_arr(doc, "bombNotes") {
            Ok(a) => a,
            Err(e) => return Err(e),
        };
        let bomb_notes = match parse_bomb_notes(raw_bombs) {
            Ok(ns) => ns,
            Err(e) => return Err(e),
        };
        let raw_obstacles = match get_arr(doc, "obstacles") {
            Ok(a) => a,
            Err(e) => return Err(e),
        };
        let obstacles = match parse_obstacles(raw_obstacles) {
            Ok(os) => os,
            Err(e) => return Err(e),
        };
        let raw_sliders = match get_arr(doc, "burstSliders") {
            Ok(a) => a,
            Err(e) => return Err(e),
        };
        let burst_sliders = match parse_sliders(raw_sliders) {
            Ok(ss) => ss,
            Err(e) => return Err(e),
        };
        let raw_events = match get_arr(doc, "bpmEvents") {
            Ok(a) => a,
            Err(e) => return Err(e),
        };
        let bpm_events = match parse_bpm_events(raw_events) {
            Ok(es) => es,
            Err(e) => return Err(e),
        };
        let fake_color_notes = match parse_opt_notes(doc, "fakeColorNotes") {
            Ok(v) => v,
            Err(e) => return Err(e),
        };
        let fake_bomb_notes = match parse_opt_notes(doc, "fakeBombNotes") {
            Ok(v) => v,
            Err(e) => return Err(e),
        };
        let fake_obstacles = match parse_opt_notes(doc, "fakeObstacles") {
            Ok(v) => v,
            Err(e) => return Err(e),
        };
        let fake_burst_sliders = match parse_opt_notes(doc, "fakeBurstSliders") {
            Ok(v) => v,
            Err(e) => return Err(e),
        };
        Ok(
            Beatmap {
                version,
                color_notes,
                bomb_notes,
                obstacles,
                burst_sliders,
                bpm_events,
                fake_color_notes,
                fake_bomb_notes,
                fake_obstacles,
                fake_burst_sliders,
            },
        )
    }
}

} // verus!
