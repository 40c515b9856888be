//! The older beatmap dialect: underscore-prefixed field names, a
//! shared note record typed by an enumeration, packed wall geometry.

use vstd::prelude::*;

use crate::beatmap::util::spec_precision;
use crate::beatmap::util::deserialize_precision;
use crate::beatmap::{
    AnyverParseError, ParseErrorView, get_arr, get_beats, get_code, get_int, get_str, opt_num,
    spec_get_arr, spec_get_beats, spec_get_code, spec_get_int, spec_get_str, spec_opt_num,
};
use crate::raw::RawValue;

verus! {

/// What a shared note record is: a colored tap target or a bomb.
#[derive(Debug, Clone, Copy, PartialEq, Eq, Hash, Structural)]
pub enum NoteType {
    Red,
    Blue,
    Bomb,
}

impl NoteType {
    /// The note type a raw code names, if any.  The codes are fixed by
    /// the dialect: 0 red, 1 blue, 3 bomb.
    pub open spec fn spec_from_code(v: u32) -> Option<NoteType> {
        if v == 0 {
            Some(NoteType::Red)
        } else if v == 1 {
            Some(NoteType::Blue)
        } else if v == 3 {
            Some(NoteType::Bomb)
        } else {
            None
        }
    }

    pub fn from_code(v: u32) -> (r: Option<NoteType>)
        ensures
            r == Self::spec_from_code(v),
    {
        if v == 0 {
            Some(NoteType::Red)
        } else if v == 1 {
            Some(NoteType::Blue)
        } else if v == 3 {
            Some(NoteType::Bomb)
        } else {
            None
        }
    }
}

/// A cut direction: eight compass points or "any".
#[derive(Debug, Clone, Copy, PartialEq, Eq, Hash, Structural)]
pub enum NoteDirection {
    Up,
    Down,
    Left,
    Right,
    UpLeft,
    UpRight,
    DownLeft,
    DownRight,
    Any,
}

impl NoteDirection {
    /// The direction a raw code names, if any.  Codes 0 through 8 are
    /// the nominal domain; [1000, 1360] approximates a continuous
    /// rotation by 45-degree arcs, each bucketed to the nearest
    /// compass point.  Anything else is outside every known domain.
    pub open spec fn spec_from_code(v: u32) -> Option<NoteDirection> {
        if v == 0 {
            Some(NoteDirection::Up)
        } else if v == 1 {
            Some(NoteDirection::Down)
        } else if v == 2 {
            Some(NoteDirection::Left)
        } else if v == 3 {
            Some(NoteDirection::Right)
        } else if v == 4 {
            Some(NoteDirection::UpLeft)
        } else if v == 5 {
            Some(NoteDirection::UpRight)
        } else if v == 6 {
            Some(NoteDirection::DownLeft)
        } else if v == 7 {
            Some(NoteDirection::DownRight)
        } else if v == 8 {
            Some(NoteDirection::Any)
        } else if 1000 <= v < 1023 {
            Some(NoteDirection::Down)
        } else if 1023 <= v < 1068 {
            Some(NoteDirection::DownLeft)
        } else if 1068 <= v < 1113 {
            Some(NoteDirection::Left)
        } else if 1113 <= v < 1158 {
            Some(NoteDirection::UpLeft)
        } else if 1158 <= v < 1203 {
            Some(NoteDirection::Up)
        } else if 1203 <= v < 1248 {
            Some(NoteDirection::UpRight)
        } else if 1248 <= v < 1293 {
            Some(NoteDirection::Right)
        } else if 1293 <= v < 1338 {
            Some(NoteDirection::DownRight)
        } else if 1338 <= v <= 1360 {
            Some(NoteDirection::Down)
        } else {
            None
        }
    }

    pub fn from_code(v: u32) -> (r: Option<NoteDirection>)
        ensures
            r == Self::spec_from_code(v),
    {
        if v == 0 {
            Some(NoteDirection::Up)
        } else if v == 1 {
            Some(NoteDirection::Down)
        } else if v == 2 {
            Some(NoteDirection::Left)
        } else if v == 3 {
            Some(NoteDirection::Right)
        } else if v == 4 {
            Some(NoteDirection::UpLeft)
        } else if v == 5 {
            Some(NoteDirection::UpRight)
        } else if v == 6 {
            Some(NoteDirection::DownLeft)
        } else if v == 7 {
            Some(NoteDirection::DownRight)
        } else if v == 8 {
            Some(NoteDirection::Any)
        } else if 1000 <= v && v < 1023 {
            Some(NoteDirection::Down)
        } else if 1023 <= v && v < 1068 {
            Some(NoteDirection::DownLeft)
        } else if 1068 <= v && v < 1113 {
            Some(NoteDirection::Left)
        } else if 1113 <= v && v < 1158 {
            Some(NoteDirection::UpLeft)
        } else if 1158 <= v && v < 1203 {
            Some(NoteDirection::Up)
        } else if 1203 <= v && v < 1248 {
            Some(NoteDirection::UpRight)
        } else if 1248 <= v && v < 1293 {
            Some(NoteDirection::Right)
        } else if 1293 <= v && v < 1338 {
            Some(NoteDirection::DownRight)
        } else if 1338 <= v && v <= 1360 {
            Some(NoteDirection::Down)
        } else {
            None
        }
    }
}

/// A shared note record: a tap target or a bomb, by `note_type`.
/// Beats and grid positions are in millionths of a unit.
#[derive(Debug, Clone, Copy, PartialEq, Eq)]
pub struct Note {
    pub beat: u64,
    pub x: i64,
    pub y: i64,
    pub note_type: NoteType,
    pub direction: NoteDirection,
    pub angle_offset: Option<i64>,
}

/// A wall record; its vertical geometry is packed into `wall_type`.
#[derive(Debug, Clone, Copy, PartialEq, Eq)]
pub struct Obstacle {
    pub beat: u64,
    pub wall_type: u32,
    pub x: i64,
    pub duration: u64,
    pub width: i64,
}

/// A tempo-change event: at `beat`, the tempo becomes `bpm`
/// (millionths of one beat per minute).
#[derive(Debug, Clone, Copy, PartialEq, Eq)]
pub struct BpmEvent {
    pub beat: u64,
    pub bpm: u64,
}

/// A fully adapted document of this dialect.
#[derive(Debug, Clone)]
pub struct Beatmap {
    pub version: String,
    pub notes: Vec<Note>,
    pub obstacles: Vec<Obstacle>,
    pub bpm_events: Vec<BpmEvent>,
}

/// Mathematical image of a [`Beatmap`].
pub struct BeatmapView {
    pub version: Seq<char>,
    pub notes: Seq<Note>,
    pub obstacles: Seq<Obstacle>,
    pub bpm_events: Seq<BpmEvent>,
}

impl View for Beatmap {
    type V = BeatmapView;

    open spec fn view(&self) -> BeatmapView {
        BeatmapView {
            version: self.version@,
            notes: self.notes@,
            obstacles: self.obstacles@,
            bpm_events: self.bpm_events@,
        }
    }
}

impl Note {
    /// What adapting one entry of the note collection yields.
    pub open spec fn spec_from_raw(v: RawValue) -> Result<Note, ParseErrorView> {
        match spec_get_beats(v, "_time"@) {
            None => Err(ParseErrorView::ExpectedType("_time"@)),
            Some(beat) => match spec_get_int(v, "_lineIndex"@) {
                None => Err(ParseErrorView::ExpectedType("_lineIndex"@)),
                Some(xi) => match spec_get_int(v, "_lineLayer"@) {
                    None => Err(ParseErrorView::ExpectedType("_lineLayer"@)),
                    Some(yi) => match spec_get_code(v, "_type"@) {
                        None => Err(ParseErrorView::ExpectedType("_type"@)),
                        Some(tc) => match NoteType::spec_from_code(tc) {
                            None => Err(ParseErrorView::ExpectedType("_type"@)),
                            Some(note_type) => match spec_get_code(v, "_cutDirection"@) {
                                None => Err(ParseErrorView::ExpectedType("_cutDirection"@)),
                                Some(dc) => match NoteDirection::spec_from_code(dc) {
                                    None => Err(ParseErrorView::BadDirection(dc)),
                                    Some(direction) => match spec_opt_num(v, "_angleOffset"@) {
                                        None => Err(ParseErrorView::ExpectedType("_angleOffset"@)),
                                        Some(angle_offset) => Ok(
                                            Note {
                                                beat,
                                                x: spec_precision(xi as int) as i64,
                                                y: spec_precision(yi as int) as i64,
                                                note_type,
                                                direction,
                                                angle_offset,
                                            },
                                        ),
                                    },
                                },
                            },
                        },
                    },
                },
            },
        }
    }

    /// Adapt one entry of the note collection.
    pub fn from_raw(v: &RawValue) -> (r: Result<Note, AnyverParseError>)
        ensures
            match r {
                Ok(n) => Self::spec_from_raw(*v) == Ok::<Note, ParseErrorView>(n),
                Err(e) => Self::spec_from_raw(*v) == Err::<Note, ParseErrorView>(e@),
            },
    {
        let beat = match get_beats(v, "_time") {
            Ok(b) => b,
            Err(e) => return Err(e),
        };
        let xi = match get_int(v, "_lineIndex") {
            Ok(x) => x,
            Err(e) => return Err(e),
        };
        let yi = match get_int(v, "_lineLayer") {
            Ok(y) => y,
            Err(e) => return Err(e),
        };
        let tc = match get_code(v, "_type") {
            Ok(t) => t,
            Err(e) => return Err(e),
        };
        let note_type = match NoteType::from_code(tc) {
            Some(t) => t,
            None => return Err(AnyverParseError::ExpectedType("_type".to_owned())),
        };
        let dc = match get_code(v, "_cutDirection") {
            Ok(d) => d,
            Err(e) => return Err(e),
        };
        let direction = match NoteDirection::from_code(dc) {
            Some(d) => d,
            None => return Err(AnyverParseError::BadDirection(dc)),
        };
        let angle_offset = match opt_num(v, "_angleOffset") {
            Ok(a) => a,
            Err(e) => return Err(e),
        };
        Ok(
            Note {
                beat,
                x: deserialize_precision(xi),
                y: deserialize_precision(yi),
                note_type,
                direction,
                angle_offset,
            },
        )
    }
}

impl Obstacle {
    /// What adapting one entry of the wall collection yields.
    pub open spec fn spec_from_raw(v: RawValue) -> Result<Obstacle, ParseErrorView> {
        match spec_get_beats(v, "_time"@) {
            None => Err(ParseErrorView::ExpectedType("_time"@)),
            Some(beat) => match spec_get_code(v, "_type"@) {
                None => Err(ParseErrorView::ExpectedType("_type"@)),
                Some(wall_type) => match spec_get_int(v, "_lineIndex"@) {
                    None => Err(ParseErrorView::ExpectedType("_lineIndex"@)),
                    Some(xi) => match spec_get_beats(v, "_duration"@) {
                        None => Err(ParseErrorView::ExpectedType("_duration"@)),
                        Some(duration) => match spec_get_int(v, "_width"@) {
                            None => Err(ParseErrorView::ExpectedType("_width"@)),
                            Some(wi) => Ok(
                                Obstacle {
                                    beat,
                                    wall_type,
                                    x: spec_precision(xi as int) as i64,
                                    duration,
                                    width: spec_precision(wi as int) as i64,
                                },
                            ),
                        },
                    },
                },
            },
        }
    }

    /// Adapt one entry of the wall collection.
    pub fn from_raw(v: &RawValue) -> (r: Result<Obstacle, AnyverParseError>)
        ensures
            match r {
                Ok(o) => Self::spec_from_raw(*v) == Ok::<Obstacle, ParseErrorView>(o),
                Err(e) => Self::spec_from_raw(*v) == Err::<Obstacle, ParseErrorView>(e@),
            },
    {
        let beat = match get_beats(v, "_time") {
            Ok(b) => b,
            Err(e) => return Err(e),
        };
        let wall_type = match get_code(v, "_type") {
            Ok(t) => t,
            Err(e) => return Err(e),
        };
        let xi = match get_int(v, "_lineIndex") {
            Ok(x) => x,
            Err(e) => return Err(e),
        };
        let duration = match get_beats(v, "_duration") {
            Ok(d) => d,
            Err(e) => return Err(e),
        };
        let wi = match get_int(v, "_width") {
            Ok(w) => w,
            Err(e) => return Err(e),
        };
        Ok(
            Obstacle {
                beat,
                wall_type,
                x: deserialize_precision(xi),
                duration,
                width: deserialize_precision(wi),
            },
        )
    }
}

impl BpmEvent {
    /// What adapting one tempo-change event yields.  "b" is the beat
    /// the change takes effect at; "m" is the new tempo, which must
    /// not be zero.
    pub open spec fn spec_from_raw(v: RawValue) -> Result<BpmEvent, ParseErrorView> {
        match spec_get_beats(v, "b"@) {
            None => Err(ParseErrorView::ExpectedType("b"@)),
            Some(beat) => match spec_get_beats(v, "m"@) {
                None => Err(ParseErrorView::ExpectedType("m"@)),
                Some(bpm) => Ok(BpmEvent { beat, bpm }),
            },
        }
    }

    /// Adapt one tempo-change event.
    pub fn from_raw(v: &RawValue) -> (r: Result<BpmEvent, AnyverParseError>)
        ensures
            match r {
                Ok(n) => Self::spec_from_raw(*v) == Ok::<BpmEvent, ParseErrorView>(n),
                Err(e) => Self::spec_from_raw(*v) == Err::<BpmEvent, ParseErrorView>(e@),
            },
    {
        let beat = match get_beats(v, "b") {
            Ok(b) => b,
            Err(e) => return Err(e),
        };
        let bpm = match get_beats(v, "m") {
            Ok(m) => m,
            Err(e) => return Err(e),
        };
        Ok(BpmEvent { beat, bpm })
    }
}

/// What adapting a whole collection yields: the adapted entries in
/// order, or the error of the first entry that does not adapt.
pub open spec fn spec_parse_seq<T>(
    items: Seq<RawValue>,
    f: spec_fn(RawValue) -> Result<T, ParseErrorView>,
) -> Result<Seq<T>, ParseErrorView>
    decreases items.len(),
{
    if items.len() == 0 {
        Ok(Seq::empty())
    } else {
        match spec_parse_seq(items.drop_last(), f) {
            Err(e) => Err(e),
            Ok(s) => match f(items.last()) {
                Err(e) => Err(e),
                Ok(t) => Ok(s.push(t)),
            },
        }
    }
}

/// What adapting the note collection yields.
pub open spec fn spec_notes_seq(items: Seq<RawValue>) -> Result<Seq<Note>, ParseErrorView> {
    spec_parse_seq(items, |v| Note::spec_from_raw(v))
}

/// What adapting the wall collection yields.
pub open spec fn spec_obstacles_seq(items: Seq<RawValue>) -> Result<
    Seq<Obstacle>,
    ParseErrorView,
> {
    spec_parse_seq(items, |v| Obstacle::spec_from_raw(v))
}

/// What adapting the tempo-change collection yields.
pub open spec fn spec_events_seq(items: Seq<RawValue>) -> Result<Seq<BpmEvent>, ParseErrorView> {
    spec_parse_seq(items, |v| BpmEvent::spec_from_raw(v))
}

/// Once a prefix of the note collection fails to adapt, the whole
/// collection fails with that same error.
pub proof fn lemma_notes_seq_err(items: Seq<RawValue>, k: int)
    requires
        0 <= k <= items.len(),
        spec_notes_seq(items.take(k)) is Err,
    ensures
        spec_notes_seq(items) == spec_notes_seq(items.take(k)),
    decreases items.len() - k,
{
    if k < items.len() {
        assert(items.take(k + 1).drop_last() =~= items.take(k));
        lemma_notes_seq_err(items, k + 1);
    } else {
        assert(items.take(k) =~= items);
    }
}

/// Once a prefix of the wall collection fails to adapt, the whole
/// collection fails with that same error.
pub proof fn lemma_obstacles_seq_err(items: Seq<RawValue>, k: int)
    requires
        0 <= k <= items.len(),
        spec_obstacles_seq(items.take(k)) is Err,
    ensures
        spec_obstacles_seq(items) == spec_obstacles_seq(items.take(k)),
    decreases items.len() - k,
{
    if k < items.len() {
        assert(items.take(k + 1).drop_last() =~= items.take(k));
        lemma_obstacles_seq_err(items, k + 1);
    } else {
        assert(items.take(k) =~= items);
    }
}

/// Once a prefix of the tempo-change collection fails to adapt, the
/// whole collection fails with that same error.
pub proof fn lemma_events_seq_err(items: Seq<RawValue>, k: int)
    requires
        0 <= k <= items.len(),
        spec_events_seq(items.take(k)) is Err,
    ensures
        spec_events_seq(items) == spec_events_seq(items.take(k)),
    decreases items.len() - k,
{
    if k < items.len() {
        assert(items.take(k + 1).drop_last() =~= items.take(k));
        lemma_events_seq_err(items, k + 1);
    } else {
        assert(items.take(k) =~= items);
    }
}

impl Beatmap {
    /// What adapting a whole document of this dialect yields.
    pub open spec fn spec_from_raw(doc: RawValue) -> Result<BeatmapView, ParseErrorView> {
        match spec_get_str(doc, "_version"@) {
            None => Err(ParseErrorView::ExpectedType("_version"@)),
            Some(version) => match spec_get_arr(doc, "_notes"@) {
                None => Err(ParseErrorView::ExpectedType("_notes"@)),
                Some(raw_notes) => match spec_notes_seq(raw_notes) {
                    Err(e) => Err(e),
                    Ok(notes) => match spec_get_arr(doc, "_obstacles"@) {
                        None => Err(ParseErrorView::ExpectedType("_obstacles"@)),
                        Some(raw_obstacles) => match spec_obstacles_seq(raw_obstacles) {
                            Err(e) => Err(e),
                            Ok(obstacles) => match Self::spec_raw_events(doc) {
                                Err(e) => Err(e),
                                Ok(raw_events) => match spec_events_seq(raw_events) {
                                    Err(e) => Err(e),
                                    Ok(bpm_events) => Ok(
                                        BeatmapView { version, notes, obstacles, bpm_events },
                                    ),
                                },
                            },
                        },
                    },
                },
            },
        }
    }

    /// The raw tempo-change collection: absent means empty, present
    /// means it must be an array.
    pub open spec fn spec_raw_events(doc: RawValue) -> Result<Seq<RawValue>, ParseErrorView> {
        match doc.spec_get("_bpmEvents"@) {
            Option::None => Ok(Seq::empty()),
            Some(RawValue::Arr(items)) => Ok(items@),
            Some(_) => Err(ParseErrorView::ExpectedType("_bpmEvents"@)),
        }
    }

    /// Adapt a whole decoded document of this dialect.
    pub fn from_raw(doc: &RawValue) -> (r: Result<Beatmap, AnyverParseError>)
        ensures
            match r {
                Ok(b) => Self::spec_from_raw(*doc) == Ok::<BeatmapView, ParseErrorView>(b@),
                Err(e) => Self::spec_from_raw(*doc) == Err::<BeatmapView, ParseErrorView>(e@),
            },
    {
        let version = match get_str(doc, "_version") {
            Ok(s) => s,
            Err(e) => return Err(e),
        };
        let raw_notes = match get_arr(doc, "_notes") {
            Ok(a) => a,
            Err(e) => return Err(e),
        };
        let notes = match Self::parse_notes(raw_notes) {
            Ok(ns) => ns,
            Err(e) => return Err(e),
        };
        let raw_obstacles = match get_arr(doc, "_obstacles") {
            Ok(a) => a,
            Err(e) => return Err(e),
        };
        let obstacles = match Self::parse_obstacles(raw_obstacles) {
            Ok(os) => os,
            Err(e) => return Err(e),
        };
        let bpm_events = match doc.get("_bpmEvents") {
            Option::None => Vec::new(),
            Some(RawValue::Arr(items)) => match Self::parse_bpm_events(items) {
                Ok(es) => es,
                Err(e) => return Err(e),
            },
            Some(_) => return Err(AnyverParseError::ExpectedType("_bpmEvents".to_owned())),
        };
        Ok(Beatmap { version, notes, obstacles, bpm_events })
    }

    fn parse_notes(items: &Vec<RawValue>) -> (r: Result<Vec<Note>, AnyverParseError>)
        ensures
            match r {
                Ok(ns) => spec_notes_seq(items@)
                    == Ok::<Seq<Note>, ParseErrorView>(ns@),
                Err(e) => spec_notes_seq(items@)
                    == Err::<Seq<Note>, ParseErrorView>(e@),
            },
    {
        let mut out: Vec<Note> = Vec::new();
        let n = items.len();
        proof {
            assert(items@.take(0) =~= Seq::<RawValue>::empty());
        }
        for i in 0..n
            invariant
                n == items@.len(),
                spec_notes_seq(items@.take(i as int)) == Ok::<Seq<Note>, ParseErrorView>(out@),
        {
            proof {
                assert(items@.take(i + 1).drop_last() =~= items@.take(i as int));
            }
            match Note::from_raw(&items[i]) {
                Ok(note) => out.push(note),
                Err(e) => {
                    proof {
                        assert(items@.take(i + 1).last() == items@[i as int]);
                        assert(spec_notes_seq(items@.take(i + 1)) == Err::<
                            Seq<Note>,
                            ParseErrorView,
                        >(e@));
                        lemma_notes_seq_err(items@, i + 1);
                    }
                    return Err(e);
                },
            }
        }
        proof {
            assert(items@.take(n as int) =~= items@);
        }
        Ok(out)
    }

    fn parse_obstacles(items: &Vec<RawValue>) -> (r: Result<Vec<Obstacle>, AnyverParseError>)
        ensures
            match r {
                Ok(os) => spec_obstacles_seq(items@)
                    == Ok::<Seq<Obstacle>, ParseErrorView>(os@),
                Err(e) => spec_obstacles_seq(items@)
                    == Err::<Seq<Obstacle>, ParseErrorView>(e@),
            },
    {
        let mut out: Vec<Obstacle> = Vec::new();
        let n = items.len();
        proof {
            assert(items@.take(0) =~= Seq::<RawValue>::empty());
        }
        for i in 0..n
            invariant
                n == items@.len(),
                spec_obstacles_seq(items@.take(i as int)) == Ok::<Seq<Obstacle>, ParseErrorView>(out@),
        {
            proof {
                assert(items@.take(i + 1).drop_last() =~= items@.take(i as int));
            }
            match Obstacle::from_raw(&items[i]) {
                Ok(obstacle) => out.push(obstacle),
                Err(e) => {
                    proof {
                        assert(items@.take(i + 1).last() == items@[i as int]);
                        assert(spec_obstacles_seq(items@.take(i + 1)) == Err::<
                            Seq<Obstacle>,
                            ParseErrorView,
                        >(e@));
                        lemma_obstacles_seq_err(items@, i + 1);
                    }
                    return Err(e);
                },
            }
        }
        proof {
            assert(items@.take(n as int) =~= items@);
        }
        Ok(out)
    }

    fn parse_bpm_events(items: &Vec<RawValue>) -> (r: Result<Vec<BpmEvent>, AnyverParseError>)
        ensures
            match r {
                Ok(es) => spec_events_seq(items@)
                    == Ok::<Seq<BpmEvent>, ParseErrorView>(es@),
                Err(e) => spec_events_seq(items@)
                    == Err::<Seq<BpmEvent>, ParseErrorView>(e@),
            },
    {
        let mut out: Vec<BpmEvent> = Vec::new();
        let n = items.len();
        proof {
            assert(items@.take(0) =~= Seq::<RawValue>::empty());
        }
        for i in 0..n
            invariant
                n == items@.len(),
                spec_events_seq(items@.take(i as int)) == Ok::<Seq<BpmEvent>, ParseErrorView>(out@),
        {
            proof {
                assert(items@.take(i + 1).drop_last() =~= items@.take(i as int));
            }
            match BpmEvent::from_raw(&items[i]) {
                Ok(event) => out.push(event),
                Err(e) => {
                    proof {
                        assert(items@.take(i + 1).last() == items@[i as int]);
                        assert(spec_events_seq(items@.take(i + 1)) == Err::<
                            Seq<BpmEvent>,
                            ParseErrorView,
                        >(e@));
                        lemma_events_seq_err(items@, i + 1);
                    }
                    return Err(e);
                },
            }
        }
        proof {
            assert(items@.take(n as int) =~= items@);
        }
        Ok(out)
    }
}

} // verus!
