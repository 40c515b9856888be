//! Version dispatch over the supported beatmap dialects, and the
//! field accessors the dialect adapters share.

use vstd::arithmetic::div_mod::lemma_fundamental_div_mod_converse;
use vstd::prelude::*;
use vstd::string::StrSliceExecFns;

use crate::raw::RawValue;

pub mod standard;
pub mod util;
pub mod v2;
pub mod v3;

verus! {

/// A parsed document of whichever dialect the version marker named.
#[derive(Debug, Clone)]
pub enum AnyverBeatmap {
    V2(v2::Beatmap),
    V3(v3::Beatmap),
}

/// Mathematical image of an [`AnyverBeatmap`].
pub enum AnyverBeatmapView {
    V2(v2::BeatmapView),
    V3(v3::BeatmapView),
}

impl View for AnyverBeatmap {
    type V = AnyverBeatmapView;

    open spec fn view(&self) -> AnyverBeatmapView {
        match self {
            AnyverBeatmap::V2(b) => AnyverBeatmapView::V2(b@),
            AnyverBeatmap::V3(b) => AnyverBeatmapView::V3(b@),
        }
    }
}

/// Whether a version marker starts with a major version digit and a
/// dot.
pub open spec fn spec_has_prefix(s: Seq<char>, major: char) -> bool {
    s.len() >= 2 && s[0] == major && s[1] == '.'
}

fn has_prefix(s: &String, major: char) -> (r: bool)
    ensures
        r == spec_has_prefix(s@, major),
{
    let st = s.as_str();
    if st.unicode_len() < 2 {
        return false;
    }
    if st.get_char(0) != major {
        return false;
    }
    st.get_char(1) == '.'
}

impl AnyverBeatmap {
    /// What dispatching and adapting a decoded document yields.
    ///
    /// An older-dialect marker ("_version") starting with the older
    /// major version routes to the older adapter; a newer-dialect
    /// marker ("version") starting with the newer major version
    /// routes to the newer adapter.  A marker with any other major
    /// version is an unsupported version carrying the marker text;
    /// no recognized marker at all is an unsupported version
    /// carrying "unknown".
    pub open spec fn spec_from_raw(doc: RawValue) -> Result<AnyverBeatmapView, ParseErrorView> {
        match doc.spec_get("_version"@) {
            Some(RawValue::Str(s)) => if spec_has_prefix(s@, '2') {
                match v2::Beatmap::spec_from_raw(doc) {
                    Ok(b) => Ok(AnyverBeatmapView::V2(b)),
                    Err(e) => Err(e),
                }
            } else {
                Err(ParseErrorView::UnsupportedVersion(s@))
            },
            Some(_) => Err(ParseErrorView::ExpectedType("_version"@)),
            Option::None => match doc.spec_get("version"@) {
                Some(RawValue::Str(s)) => if spec_has_prefix(s@, '3') {
                    match v3::Beatmap::spec_from_raw(doc) {
                        Ok(b) => Ok(AnyverBeatmapView::V3(b)),
                        Err(e) => Err(e),
                    }
                } else {
                    Err(ParseErrorView::UnsupportedVersion(s@))
                },
                Some(_) => Err(ParseErrorView::ExpectedType("version"@)),
                Option::None => Err(ParseErrorView::UnsupportedVersion("unknown"@)),
            },
        }
    }

    /// Inspect a decoded document for a version marker, select the
    /// dialect it names, and adapt the document through that
    /// dialect's decoder.
    pub fn from_raw(doc: &RawValue) -> (r: Result<AnyverBeatmap, AnyverParseError>)
        ensures
            match r {
                Ok(b) => Self::spec_from_raw(*doc) == Ok::<AnyverBeatmapView, ParseErrorView>(b@),
                Err(e) => Self::spec_from_raw(*doc) == Err::<
                    AnyverBeatmapView,
                    ParseErrorView,
                >(e@),
            },
    {
        match doc.get("_version") {
            Some(RawValue::Str(s)) => if has_prefix(s, '2') {
                match v2::Beatmap::from_raw(doc) {
                    Ok(b) => Ok(AnyverBeatmap::V2(b)),
                    Err(e) => Err(e),
                }
            } else {
                Err(AnyverParseError::UnsupportedVersion(s.clone()))
            },
            Some(_) => Err(AnyverParseError::ExpectedType("_version".to_owned())),
            Option::None => match doc.get("version") {
                Some(RawValue::Str(s)) => if has_prefix(s, '3') {
                    match v3::Beatmap::from_raw(doc) {
                        Ok(b) => Ok(AnyverBeatmap::V3(b)),
                        Err(e) => Err(e),
                    }
                } else {
                    Err(AnyverParseError::UnsupportedVersion(s.clone()))
                },
                Some(_) => Err(AnyverParseError::ExpectedType("version".to_owned())),
                Option::None => Err(
                    AnyverParseError::UnsupportedVersion("unknown".to_owned()),
                ),
            },
        }
    }
}

/// Mathematical image of an [`AnyverParseError`], with strings as
/// character sequences.
pub enum ParseErrorView {
    /// A required field is absent or has the wrong shape; carries the
    /// field name.
    ExpectedType(Seq<char>),
    /// The document's version marker names no supported dialect;
    /// carries the marker text (or "unknown").
    UnsupportedVersion(Seq<char>),
    /// A direction field holds a value outside every known domain.
    BadDirection(u32),
    /// A tempo, declared or event-carried, is zero.
    ZeroTempo,
    /// Tempo-change events whose beats decrease.
    UnorderedTempoEvents,
}

/// Everything that can go wrong while adapting a decoded document.
#[derive(Debug, Clone, PartialEq, Eq)]
pub enum AnyverParseError {
    /// A required field is absent or has the wrong shape; carries the
    /// field name.
    ExpectedType(String),
    /// The document's version marker names no supported dialect;
    /// carries the marker text (or "unknown").
    UnsupportedVersion(String),
    /// A direction field holds a value outside every known domain.
    BadDirection(u32),
    /// A tempo, declared or event-carried, is zero.
    ZeroTempo,
    /// Tempo-change events whose beats decrease.
    UnorderedTempoEvents,
}

impl View for AnyverParseError {
    type V = ParseErrorView;

    open spec fn view(&self) -> ParseErrorView {
        match self {
            AnyverParseError::ExpectedType(f) => ParseErrorView::ExpectedType(f@),
            AnyverParseError::UnsupportedVersion(s) => ParseErrorView::UnsupportedVersion(s@),
            AnyverParseError::BadDirection(v) => ParseErrorView::BadDirection(*v),
            AnyverParseError::ZeroTempo => ParseErrorView::ZeroTempo,
            AnyverParseError::UnorderedTempoEvents => ParseErrorView::UnorderedTempoEvents,
        }
    }
}

/// The whole-unit value of a fixed-point number, when it is whole.
pub fn micros_whole(n: i64) -> (r: Option<i64>)
    ensures
        match r {
            Some(w) => n as int % 1_000_000 == 0 && w == n as int / 1_000_000,
            None => n as int % 1_000_000 != 0,
        },
{
    if n >= 0 {
        let u = n as u64;
        if u % 1_000_000 == 0 {
            Some((u / 1_000_000) as i64)
        } else {
            None
        }
    } else if n == i64::MIN {
        proof {
            lemma_fundamental_div_mod_converse(
                i64::MIN as int,
                1_000_000,
                -9223372036855,
                224192,
            );
        }
        None
    } else {
        let u = (-n) as u64;
        let q = u / 1_000_000;
        let rem = u % 1_000_000;
        if rem == 0 {
            proof {
                lemma_fundamental_div_mod_converse(n as int, 1_000_000, -(q as int), 0);
            }
            Some(-(q as i64))
        } else {
            proof {
                lemma_fundamental_div_mod_converse(
                    n as int,
                    1_000_000,
                    -(q as int) - 1,
                    1_000_000 - rem as int,
                );
            }
            None
        }
    }
}

/// A required number field, in millionths.
pub open spec fn spec_get_num(doc: RawValue, key: Seq<char>) -> Option<i64> {
    match doc.spec_get(key) {
        Some(RawValue::Num(n)) => Some(n),
        _ => None,
    }
}

pub fn get_num(doc: &RawValue, key: &str) -> (r: Result<i64, AnyverParseError>)
    ensures
        match r {
            Ok(n) => spec_get_num(*doc, key@) == Some(n),
            Err(e) => spec_get_num(*doc, key@) is None && e@ == ParseErrorView::ExpectedType(
                key@,
            ),
        },
{
    match doc.get(key) {
        Some(RawValue::Num(n)) => Ok(*n),
        _ => Err(AnyverParseError::ExpectedType(key.to_owned())),
    }
}

/// A required non-negative number field (a beat, a span of beats,
/// or a tempo), in millionths.  Beats are relative to the map's
/// start and tempos are magnitudes, so the model keeps them
/// unsigned; a negative value in a document is reported as a
/// field-shape error.  The unified model's invariants and the
/// timeline's monotonicity rest on this choice.
pub open spec fn spec_get_beats(doc: RawValue, key: Seq<char>) -> Option<u64> {
    match spec_get_num(doc, key) {
        Some(n) => if n >= 0 {
            Some(n as u64)
        } else {
            None
        },
        None => None,
    }
}

pub fn get_beats(doc: &RawValue, key: &str) -> (r: Result<u64, AnyverParseError>)
    ensures
        match r {
            Ok(n) => spec_get_beats(*doc, key@) == Some(n),
            Err(e) => spec_get_beats(*doc, key@) is None && e@ == ParseErrorView::ExpectedType(
                key@,
            ),
        },
{
    match get_num(doc, key) {
        Ok(n) => if n >= 0 {
            Ok(n as u64)
        } else {
            Err(AnyverParseError::ExpectedType(key.to_owned()))
        },
        Err(e) => Err(e),
    }
}

/// A required whole-number field within the 32-bit signed range, as a
/// whole count of units.
pub open spec fn spec_get_int(doc: RawValue, key: Seq<char>) -> Option<i32> {
    match spec_get_num(doc, key) {
        Some(n) => if n as int % 1_000_000 == 0 && i32::MIN <= n as int / 1_000_000 <= i32::MAX {
            Some((n as int / 1_000_000) as i32)
        } else {
            None
        },
        None => None,
    }
}

pub fn get_int(doc: &RawValue, key: &str) -> (r: Result<i32, AnyverParseError>)
    ensures
        match r {
            Ok(n) => spec_get_int(*doc, key@) == Some(n),
            Err(e) => spec_get_int(*doc, key@) is None && e@ == ParseErrorView::ExpectedType(
                key@,
            ),
        },
{
    match get_num(doc, key) {
        Ok(n) => match micros_whole(n) {
            Some(w) => if i32::MIN as i64 <= w && w <= i32::MAX as i64 {
                Ok(w as i32)
            } else {
                Err(AnyverParseError::ExpectedType(key.to_owned()))
            },
            None => Err(AnyverParseError::ExpectedType(key.to_owned())),
        },
        Err(e) => Err(e),
    }
}

/// A required whole-number field within the 32-bit unsigned range, as
/// a whole count of units: an enumeration or packed code.
pub open spec fn spec_get_code(doc: RawValue, key: Seq<char>) -> Option<u32> {
    match spec_get_num(doc, key) {
        Some(n) => if n as int % 1_000_000 == 0 && 0 <= n as int / 1_000_000 <= u32::MAX {
            Some((n as int / 1_000_000) as u32)
        } else {
            None
        },
        None => None,
    }
}

pub fn get_code(doc: &RawValue, key: &str) -> (r: Result<u32, AnyverParseError>)
    ensures
        match r {
            Ok(n) => spec_get_code(*doc, key@) == Some(n),
            Err(e) => spec_get_code(*doc, key@) is None && e@ == ParseErrorView::ExpectedType(
                key@,
            ),
        },
{
    match get_num(doc, key) {
        Ok(n) => match micros_whole(n) {
            Some(w) => if 0 <= w && w <= u32::MAX as i64 {
                Ok(w as u32)
            } else {
                Err(AnyverParseError::ExpectedType(key.to_owned()))
            },
            None => Err(AnyverParseError::ExpectedType(key.to_owned())),
        },
        Err(e) => Err(e),
    }
}

/// A required string field.
pub open spec fn spec_get_str(doc: RawValue, key: Seq<char>) -> Option<Seq<char>> {
    match doc.spec_get(key) {
        Some(RawValue::Str(s)) => Some(s@),
        _ => None,
    }
}

pub fn get_str(doc: &RawValue, key: &str) -> (r: Result<String, AnyverParseError>)
    ensures
        match r {
            Ok(s) => spec_get_str(*doc, key@) == Some(s@),
            Err(e) => spec_get_str(*doc, key@) is None && e@ == ParseErrorView::ExpectedType(
                key@,
            ),
        },
{
    match doc.get(key) {
        Some(RawValue::Str(s)) => Ok(s.clone()),
        _ => Err(AnyverParseError::ExpectedType(key.to_owned())),
    }
}

/// An optional number field: absent or null means "not given".
pub open spec fn spec_opt_num(doc: RawValue, key: Seq<char>) -> Option<Option<i64>> {
    match doc.spec_get(key) {
        Option::None => Some(Option::<i64>::None),
        Some(RawValue::Null) => Some(Option::<i64>::None),
        Some(RawValue::Num(n)) => Some(Some(n)),
        Some(_) => None,
    }
}

pub fn opt_num(doc: &RawValue, key: &str) -> (r: Result<Option<i64>, AnyverParseError>)
    ensures
        match r {
            Ok(n) => spec_opt_num(*doc, key@) == Some(n),
            Err(e) => spec_opt_num(*doc, key@) is None && e@ == ParseErrorView::ExpectedType(
                key@,
            ),
        },
{
    match doc.get(key) {
        Option::None => Ok(Option::None),
        Some(RawValue::Null) => Ok(Option::None),
        Some(RawValue::Num(n)) => Ok(Some(*n)),
        Some(_) => Err(AnyverParseError::ExpectedType(key.to_owned())),
    }
}

/// A required array field.
pub open spec fn spec_get_arr(doc: RawValue, key: Seq<char>) -> Option<Seq<RawValue>> {
    match doc.spec_get(key) {
        Some(RawValue::Arr(items)) => Some(items@),
        _ => None,
    }
}

pub fn get_arr<'a>(doc: &'a RawValue, key: &str) -> (r: Result<&'a Vec<RawValue>, AnyverParseError>)
    ensures
        match r {
            Ok(items) => spec_get_arr(*doc, key@) == Some(items@),
            Err(e) => spec_get_arr(*doc, key@) is None && e@ == ParseErrorView::ExpectedType(
                key@,
            ),
        },
{
    match doc.get(key) {
        Some(RawValue::Arr(items)) => Ok(items),
        _ => Err(AnyverParseError::ExpectedType(key.to_owned())),
    }
}

} // verus!
