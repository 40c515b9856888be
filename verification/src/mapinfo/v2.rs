//! The metadata document schema: underscore-prefixed fields, nested
//! difficulty sets.

use vstd::prelude::*;

use crate::beatmap::v2::spec_parse_seq;
use crate::beatmap::{
    AnyverParseError, ParseErrorView, get_arr, get_beats, get_code, get_num, get_str,
    spec_get_arr, spec_get_beats, spec_get_code, spec_get_num, spec_get_str,
};
use crate::raw::RawValue;

verus! {

/// The numeric rank a difficulty entry declares.
#[derive(Debug, Clone, Copy, PartialEq, Eq, Hash, Structural)]
pub enum DifficultyRank {
    Unknown,
    Easy,
    Normal,
    Hard,
    Expert,
    ExpertPlus,
}

impl DifficultyRank {
    /// The rank a raw code names, if any: the dialect assigns the
    /// odd codes 1 through 9, with 0 reserved for "unknown".
    pub open spec fn spec_from_code(v: u32) -> Option<DifficultyRank> {
        if v == 0 {
            Some(DifficultyRank::Unknown)
        } else if v == 1 {
            Some(DifficultyRank::Easy)
        } else if v == 3 {
            Some(DifficultyRank::Normal)
        } else if v == 5 {
            Some(DifficultyRank::Hard)
        } else if v == 7 {
            Some(DifficultyRank::Expert)
        } else if v == 9 {
            Some(DifficultyRank::ExpertPlus)
        } else {
            None
        }
    }

    pub fn from_code(v: u32) -> (r: Option<DifficultyRank>)
        ensures
            r == Self::spec_from_code(v),
    {
        if v == 0 {
            Some(DifficultyRank::Unknown)
        } else if v == 1 {
            Some(DifficultyRank::Easy)
        } else if v == 3 {
            Some(DifficultyRank::Normal)
        } else if v == 5 {
            Some(DifficultyRank::Hard)
        } else if v == 7 {
            Some(DifficultyRank::Expert)
        } else if v == 9 {
            Some(DifficultyRank::ExpertPlus)
        } else {
            None
        }
    }
}

/// One per-difficulty entry of a difficulty set.
#[derive(Debug, Clone)]
pub struct Beatmap {
    pub difficulty: String,
    pub difficulty_rank: DifficultyRank,
    pub filename: String,
    pub njs: i64,
    pub njs_offset: i64,
}

/// Mathematical image of a difficulty entry.
pub struct BeatmapView {
    pub difficulty: Seq<char>,
    pub difficulty_rank: DifficultyRank,
    pub filename: Seq<char>,
    pub njs: i64,
    pub njs_offset: i64,
}

impl View for Beatmap {
    type V = BeatmapView;

    open spec fn view(&self) -> BeatmapView {
        BeatmapView {
            difficulty: self.difficulty@,
            difficulty_rank: self.difficulty_rank,
            filename: self.filename@,
            njs: self.njs,
            njs_offset: self.njs_offset,
        }
    }
}

/// A set of difficulty entries sharing one characteristic.
#[derive(Debug, Clone)]
pub struct BeatmapSet {
    pub characteristic: String,
    pub beatmaps: Vec<Beatmap>,
}

/// Mathematical image of a difficulty set.
pub struct BeatmapSetView {
    pub characteristic: Seq<char>,
    pub beatmaps: Seq<BeatmapView>,
}

impl View for BeatmapSet {
    type V = BeatmapSetView;

    open spec fn view(&self) -> BeatmapSetView {
        BeatmapSetView {
            characteristic: self.characteristic@,
            beatmaps: self.beatmaps@.map_values(|b: Beatmap| b@),
        }
    }
}

/// A fully adapted metadata document.
#[derive(Debug, Clone)]
pub struct MapInfo {
    pub version: String,
    pub song_name: String,
    pub song_sub_name: String,
    pub song_author_name: String,
    pub level_author_name: String,
    pub bpm: u64,
    pub shuffle: i64,
    pub shuffle_period: i64,
    pub preview_start_time: i64,
    pub preview_duration: i64,
    pub song_filename: String,
    pub cover_image_filename: String,
    pub environment_name: String,
    pub song_time_offset: i64,
    pub beatmap_sets: Vec<BeatmapSet>,
}

/// Mathematical image of a [`MapInfo`].
pub struct MapInfoView {
    pub version: Seq<char>,
    pub song_name: Seq<char>,
    pub song_sub_name: Seq<char>,
    pub song_author_name: Seq<char>,
    pub level_author_name: Seq<char>,
    pub bpm: u64,
    pub shuffle: i64,
    pub shuffle_period: i64,
    pub preview_start_time: i64,
    pub preview_duration: i64,
    pub song_filename: Seq<char>,
    pub cover_image_filename: Seq<char>,
    pub environment_name: Seq<char>,
    pub song_time_offset: i64,
    pub beatmap_sets: Seq<BeatmapSetView>,
}

impl View for MapInfo {
    type V = MapInfoView;

    open spec fn view(&self) -> MapInfoView {
        MapInfoView {
            version: self.version@,
            song_name: self.song_name@,
            song_sub_name: self.song_sub_name@,
            song_author_name: self.song_author_name@,
            level_author_name: self.level_author_name@,
            bpm: self.bpm,
            shuffle: self.shuffle,
            shuffle_period: self.shuffle_period,
            preview_start_time: self.preview_start_time,
            preview_duration: self.preview_duration,
            song_filename: self.song_filename@,
            cover_image_filename: self.cover_image_filename@,
            environment_name: self.environment_name@,
            song_time_offset: self.song_time_offset,
            beatmap_sets: self.beatmap_sets@.map_values(|s: BeatmapSet| s@),
        }
    }
}

impl Beatmap {
    /// What adapting one difficulty entry yields.
    pub open spec fn spec_from_raw(v: RawValue) -> Result<BeatmapView, ParseErrorView> {
        match spec_get_str(v, "_difficulty"@) {
            None => Err(ParseErrorView::ExpectedType("_difficulty"@)),
            Some(difficulty) => match spec_get_code(v, "_difficultyRank"@) {
                None => Err(ParseErrorView::ExpectedType("_difficultyRank"@)),
                Some(rc) => match DifficultyRank::spec_from_code(rc) {
                    None => Err(ParseErrorView::ExpectedType("_difficultyRank"@)),
                    Some(difficulty_rank) => match spec_get_str(v, "_beatmapFilename"@) {
                        None => Err(ParseErrorView::ExpectedType("_beatmapFilename"@)),
                        Some(filename) => match spec_get_num(v, "_noteJumpMovementSpeed"@) {
                            None => Err(ParseErrorView::ExpectedType("_noteJumpMovementSpeed"@)),
                            Some(njs) => match spec_get_num(v, "_noteJumpStartBeatOffset"@) {
                                None => Err(
                                    ParseErrorView::ExpectedType("_noteJumpStartBeatOffset"@),
                                ),
                                Some(njs_offset) => Ok(
                                    BeatmapView {
                                        difficulty,
                                        difficulty_rank,
                                        filename,
                                        njs,
                                        njs_offset,
                                    },
                                ),
                            },
                        },
                    },
                },
            },
        }
    }

    /// Adapt one difficulty entry.
    pub fn from_raw(v: &RawValue) -> (r: Result<Beatmap, AnyverParseError>)
        ensures
            match r {
                Ok(b) => Self::spec_from_raw(*v) == Ok::<BeatmapView, ParseErrorView>(b@),
                Err(e) => Self::spec_from_raw(*v) == Err::<BeatmapView, ParseErrorView>(e@),
            },
    {
        let difficulty = match get_str(v, "_difficulty") {
            Ok(s) => s,
            Err(e) => return Err(e),
        };
        let rc = match get_code(v, "_difficultyRank") {
            Ok(c) => c,
            Err(e) => return Err(e),
        };
        let difficulty_rank = match DifficultyRank::from_code(rc) {
            Some(d) => d,
            None => return Err(AnyverParseError::ExpectedType("_difficultyRank".to_owned())),
        };
        let filename = match get_str(v, "_beatmapFilename") {
            Ok(s) => s,
            Err(e) => return Err(e),
        };
        let njs = match get_num(v, "_noteJumpMovementSpeed") {
            Ok(x) => x,
            Err(e) => return Err(e),
        };
        let njs_offset = match get_num(v, "_noteJumpStartBeatOffset") {
            Ok(x) => x,
            Err(e) => return Err(e),
        };
        Ok(Beatmap { difficulty, difficulty_rank, filename, njs, njs_offset })
    }
}

/// What adapting a list of difficulty entries yields.
pub open spec fn spec_entries_seq(items: Seq<RawValue>) -> Result<
    Seq<BeatmapView>,
    ParseErrorView,
> {
    spec_parse_seq(items, |v| Beatmap::spec_from_raw(v))
}

/// Once a prefix of the entry list fails to adapt, the whole list
/// fails with that same error.
pub proof fn lemma_entries_seq_err(items: Seq<RawValue>, k: int)
    requires
        0 <= k <= items.len(),
        spec_entries_seq(items.take(k)) is Err,
    ensures
        spec_entries_seq(items) == spec_entries_seq(items.take(k)),
    decreases items.len() - k,
{
    if k < items.len() {
        assert(items.take(k + 1).drop_last() =~= items.take(k));
        lemma_entries_seq_err(items, k + 1);
    } else {
        assert(items.take(k) =~= items);
    }
}

fn parse_entries(items: &Vec<RawValue>) -> (r: Result<Vec<Beatmap>, AnyverParseError>)
    ensures
        match r {
            Ok(bs) => spec_entries_seq(items@) == Ok::<Seq<BeatmapView>, ParseErrorView>(
                bs@.map_values(|b: Beatmap| b@),
            ),
            Err(e) => spec_entries_seq(items@) == Err::<Seq<BeatmapView>, ParseErrorView>(e@),
        },
{
    let mut out: Vec<Beatmap> = Vec::new();
    let n = items.len();
    proof {
        assert(items@.take(0) =~= Seq::<RawValue>::empty());
        assert(out@.map_values(|b: Beatmap| b@) =~= Seq::<BeatmapView>::empty());
    }
    for i in 0..n
        invariant
            n == items@.len(),
            spec_entries_seq(items@.take(i as int)) == Ok::<Seq<BeatmapView>, ParseErrorView>(
                out@.map_values(|b: Beatmap| b@),
            ),
    {
        proof {
            assert(items@.take(i + 1).drop_last() =~= items@.take(i as int));
            assert(items@.take(i + 1).last() == items@[i as int]);
        }
        let ghost old_out = out@;
        match Beatmap::from_raw(&items[i]) {
            Ok(b) => {
                let ghost bv = b@;
                out.push(b);
                proof {
                    assert(out@.map_values(|b: Beatmap| b@) =~= old_out.map_values(
                        |b: Beatmap| b@,
                    ).push(bv));
                }
            },
            Err(e) => {
                proof {
                    assert(spec_entries_seq(items@.take(i + 1)) == Err::<
                        Seq<BeatmapView>,
                        ParseErrorView,
                    >(e@));
                    lemma_entries_seq_err(items@, i + 1);
                }
                return Err(e);
            },
        }
    }
    proof {
        assert(items@.take(n as int) =~= items@);
    }
    Ok(out)
}

impl BeatmapSet {
    /// What adapting one difficulty set yields.
    pub open spec fn spec_from_raw(v: RawValue) -> Result<BeatmapSetView, ParseErrorView> {
        match spec_get_str(v, "_beatmapCharacteristicName"@) {
            None => Err(ParseErrorView::ExpectedType("_beatmapCharacteristicName"@)),
            Some(characteristic) => match spec_get_arr(v, "_difficultyBeatmaps"@) {
                None => Err(ParseErrorView::ExpectedType("_difficultyBeatmaps"@)),
                Some(raw_entries) => match spec_entries_seq(raw_entries) {
                    Err(e) => Err(e),
                    Ok(beatmaps) => Ok(BeatmapSetView { characteristic, beatmaps }),
                },
            },
        }
    }

    /// Adapt one difficulty set.
    pub fn from_raw(v: &RawValue) -> (r: Result<BeatmapSet, AnyverParseError>)
        ensures
            match r {
                Ok(s) => Self::spec_from_raw(*v) == Ok::<BeatmapSetView, ParseErrorView>(s@),
                Err(e) => Self::spec_from_raw(*v) == Err::<BeatmapSetView, ParseErrorView>(e@),
            },
    {
        let characteristic = match get_str(v, "_beatmapCharacteristicName") {
            Ok(s) => s,
            Err(e) => return Err(e),
        };
        let raw_entries = match get_arr(v, "_difficultyBeatmaps") {
            Ok(a) => a,
            Err(e) => return Err(e),
        };
        let beatmaps = match parse_entries(raw_entries) {
            Ok(bs) => bs,
            Err(e) => return Err(e),
        };
        Ok(BeatmapSet { characteristic, beatmaps })
    }
}

/// What adapting the difficulty-set list yields.
pub open spec fn spec_sets_seq(items: Seq<RawValue>) -> Result<
    Seq<BeatmapSetView>,
    ParseErrorView,
> {
    spec_parse_seq(items, |v| BeatmapSet::spec_from_raw(v))
}

/// Once a prefix of the set list fails to adapt, the whole list fails
/// with that same error.
pub proof fn lemma_sets_seq_err(items: Seq<RawValue>, k: int)
    requires
        0 <= k <= items.len(),
        spec_sets_seq(items.take(k)) is Err,
    ensures
        spec_sets_seq(items) == spec_sets_seq(items.take(k)),
    decreases items.len() - k,
{
    if k < items.len() {
        assert(items.take(k + 1).drop_last() =~= items.take(k));
        lemma_sets_seq_err(items, k + 1);
    } else {
        assert(items.take(k) =~= items);
    }
}

fn parse_sets(items: &Vec<RawValue>) -> (r: Result<Vec<BeatmapSet>, AnyverParseError>)
    ensures
        match r {
            Ok(ss) => spec_sets_seq(items@) == Ok::<Seq<BeatmapSetView>, ParseErrorView>(
                ss@.map_values(|s: BeatmapSet| s@),
            ),
            Err(e) => spec_sets_seq(items@) == Err::<Seq<BeatmapSetView>, ParseErrorView>(e@),
        },
{
    let mut out: Vec<BeatmapSet> = Vec::new();
    let n = items.len();
    proof {
        assert(items@.take(0) =~= Seq::<RawValue>::empty());
        assert(out@.map_values(|s: BeatmapSet| s@) =~= Seq::<BeatmapSetView>::empty());
    }
    for i in 0..n
        invariant
            n == items@.len(),
            spec_sets_seq(items@.take(i as int)) == Ok::<Seq<BeatmapSetView>, ParseErrorView>(
                out@.map_values(|s: BeatmapSet| s@),
            ),
    {
        proof {
            assert(items@.take(i + 1).drop_last() =~= items@.take(i as int));
            assert(items@.take(i + 1).last() == items@[i as int]);
        }
        let ghost old_out = out@;
        match BeatmapSet::from_raw(&items[i]) {
            Ok(s) => {
                let ghost sv = s@;
                out.push(s);
                proof {
                    assert(out@.map_values(|s: BeatmapSet| s@) =~= old_out.map_values(
                        |s: BeatmapSet| s@,
                    ).push(sv));
                }
            },
            Err(e) => {
                proof {
                    assert(spec_sets_seq(items@.take(i + 1)) == Err::<
                        Seq<BeatmapSetView>,
                        ParseErrorView,
                    >(e@));
                    lemma_sets_seq_err(items@, i + 1);
                }
                return Err(e);
            },
        }
    }
    proof {
        assert(items@.take(n as int) =~= items@);
    }
    Ok(out)
}

impl MapInfo {
    /// What adapting a whole metadata document yields.
    pub open spec fn spec_from_raw(doc: RawValue) -> Result<MapInfoView, ParseErrorView> {
        match Self::spec_strings(doc) {
            Err(e) => Err(e),
            Ok(m) => match Self::spec_numbers(doc) {
                Err(e) => Err(e),
                Ok(nums) => match spec_get_arr(doc, "_difficultyBeatmapSets"@) {
                    None => Err(ParseErrorView::ExpectedType("_difficultyBeatmapSets"@)),
                    Some(raw_sets) => match spec_sets_seq(raw_sets) {
                        Err(e) => Err(e),
                        Ok(beatmap_sets) => Ok(
                            MapInfoView {
                                bpm: nums.0,
                                shuffle: nums.1,
                                shuffle_period: nums.2,
                                preview_start_time: nums.3,
                                preview_duration: nums.4,
                                song_time_offset: nums.5,
                                beatmap_sets,
                                ..m
                            },
                        ),
                    },
                },
            },
        }
    }

    /// The string fields of a metadata document, with every numeric
    /// field of the result left at zero and the set list empty.
    pub open spec fn spec_strings(doc: RawValue) -> Result<MapInfoView, ParseErrorView> {
        match spec_get_str(doc, "_version"@) {
            None => Err(ParseErrorView::ExpectedType("_version"@)),
            Some(version) => match spec_get_str(doc, "_songName"@) {
                None => Err(ParseErrorView::ExpectedType("_songName"@)),
                Some(song_name) => match spec_get_str(doc, "_songSubName"@) {
                    None => Err(ParseErrorView::ExpectedType("_songSubName"@)),
                    Some(song_sub_name) => match spec_get_str(doc, "_songAuthorName"@) {
                        None => Err(ParseErrorView::ExpectedType("_songAuthorName"@)),
                        Some(song_author_name) => match spec_get_str(doc, "_levelAuthorName"@) {
                            None => Err(ParseErrorView::ExpectedType("_levelAuthorName"@)),
                            Some(level_author_name) => match spec_get_str(doc, "_songFilename"@) {
                                None => Err(ParseErrorView::ExpectedType("_songFilename"@)),
                                Some(song_filename) => match spec_get_str(
                                    doc,
                                    "_coverImageFilename"@,
                                ) {
                                    None => Err(
                                        ParseErrorView::ExpectedType("_coverImageFilename"@),
                                    ),
                                    Some(cover_image_filename) => match spec_get_str(
                                        doc,
                                        "_environmentName"@,
                                    ) {
                                        None => Err(
                                            ParseErrorView::ExpectedType("_environmentName"@),
                                        ),
                                        Some(environment_name) => Ok(
                                            MapInfoView {
                                                version,
                                                song_name,
                                                song_sub_name,
                                                song_author_name,
                                                level_author_name,
                                                bpm: 0,
                                                shuffle: 0,
                                                shuffle_period: 0,
                                                preview_start_time: 0,
                                                preview_duration: 0,
                                                song_filename,
                                                cover_image_filename,
                                                environment_name,
                                                song_time_offset: 0,
                                                beatmap_sets: Seq::empty(),
                                            },
                                        ),
                                    },
                                },
                            },
                        },
                    },
                },
            },
        }
    }

    /// The numeric fields of a metadata document: tempo, shuffle,
    /// shuffle period, preview start, preview duration, time offset.
    pub open spec fn spec_numbers(doc: RawValue) -> Result<
        (u64, i64, i64, i64, i64, i64),
        ParseErrorView,
    > {
        match spec_get_beats(doc, "_beatsPerMinute"@) {
            None => Err(ParseErrorView::ExpectedType("_beatsPerMinute"@)),
            Some(bpm) => match spec_get_num(doc, "_shuffle"@) {
                None => Err(ParseErrorView::ExpectedType("_shuffle"@)),
                Some(shuffle) => match spec_get_num(doc, "_shufflePeriod"@) {
                    None => Err(ParseErrorView::ExpectedType("_shufflePeriod"@)),
                    Some(shuffle_period) => match spec_get_num(doc, "_previewStartTime"@) {
                        None => Err(ParseErrorView::ExpectedType("_previewStartTime"@)),
                        Some(preview_start_time) => match spec_get_num(doc, "_previewDuration"@) {
                            None => Err(ParseErrorView::ExpectedType("_previewDuration"@)),
                            Some(preview_duration) => match spec_get_num(doc, "_songTimeOffset"@) {
                                None => Err(ParseErrorView::ExpectedType("_songTimeOffset"@)),
                                Some(song_time_offset) => Ok(
                                    (
                                        bpm,
                                        shuffle,
                                        shuffle_period,
                                        preview_start_time,
                                        preview_duration,
                                        song_time_offset,
                                    ),
                                ),
                            },
                        },
                    },
                },
            },
        }
    }

    /// Adapt a whole decoded metadata document.
    pub fn from_raw(doc: &RawValue) -> (r: Result<MapInfo, AnyverParseError>)
        ensures
            match r {
                Ok(m) => Self::spec_from_raw(*doc) == Ok::<MapInfoView, ParseErrorView>(m@),
                Err(e) => Self::spec_from_raw(*doc) == Err::<MapInfoView, ParseErrorView>(e@),
            },
    {
        let version = match get_str(doc, "_version") {
            Ok(s) => s,
            Err(e) => return Err(e),
        };
        let song_name = match get_str(doc, "_songName") {
            Ok(s) => s,
            Err(e) => return Err(e),
        };
        let song_sub_name = match get_str(doc, "_songSubName") {
            Ok(s) => s,
            Err(e) => return Err(e),
        };
        let song_author_name = match get_str(doc, "_songAuthorName") {
            Ok(s) => s,
            Err(e) => return Err(e),
        };
        let level_author_name = match get_str(doc, "_levelAuthorName") {
            Ok(s) => s,
            Err(e) => return Err(e),
        };
        let song_filename = match get_str(doc, "_songFilename") {
            Ok(s) => s,
            Err(e) => return Err(e),
        };
        let cover_image_filename = match get_str(doc, "_coverImageFilename") {
            Ok(s) => s,
            Err(e) => return Err(e),
        };
        let environment_name = match get_str(doc, "_environmentName") {
            Ok(s) => s,
            Err(e) => return Err(e),
        };
        let bpm = match get_beats(doc, "_beatsPerMinute") {
            Ok(b) => b,
            Err(e) => return Err(e),
        };
        let shuffle = match get_num(doc, "_shuffle") {
            Ok(x) => x,
            Err(e) => return Err(e),
        };
        let shuffle_period = match get_num(doc, "_shufflePeriod") {
            Ok(x) => x,
            Err(e) => return Err(e),
        };
        let preview_start_time = match get_num(doc, "_previewStartTime") {
            Ok(x) => x,
            Err(e) => return Err(e),
        };
        let preview_duration = match get_num(doc, "_previewDuration") {
            Ok(x) => x,
            Err(e) => return Err(e),
        };
        let song_time_offset = match get_num(doc, "_songTimeOffset") {
            Ok(x) => x,
            Err(e) => return Err(e),
        };
        let raw_sets = match get_arr(doc, "_difficultyBeatmapSets") {
            Ok(a) => a,
            Err(e) => return Err(e),
        };
        let beatmap_sets = match parse_sets(raw_sets) {
            Ok(ss) => ss,
            Err(e) => return Err(e),
        };
        Ok(
            MapInfo {
                version,
                song_name,
                song_sub_name,
                song_author_name,
                level_author_name,
                bpm,
                shuffle,
                shuffle_period,
                preview_start_time,
                preview_duration,
                song_filename,
                cover_image_filename,
                environment_name,
                song_time_offset,
                beatmap_sets,
            },
        )
    }
}

} // verus!
