//! The assembled map: characteristics, difficulties, song and audio
//! metadata, the map's content identity, and the normalized
//! per-difficulty beatmaps.

use vstd::prelude::*;
use vstd::string::StringExecFns;

use crate::beatmap::standard::{events_valid, norm_events, normalizes_to, spec_new_issue};
use crate::beatmap::{AnyverBeatmap, AnyverParseError};
use crate::mapinfo::v2;

verus! {

/// The named play-mode variant a difficulty belongs to.
#[derive(Debug, Clone, PartialEq, Eq, Hash)]
pub enum BeatmapCharacteristic {
    Standard,
    NoArrows,
    OneSaber,
    Degree360,
    Degree90,
    Legacy,
    Other(String),
}

/// The characteristic a well-known name denotes, if any.
pub open spec fn spec_known_characteristic(s: Seq<char>) -> Option<BeatmapCharacteristic> {
    if s == "Standard"@ {
        Some(BeatmapCharacteristic::Standard)
    } else if s == "NoArrows"@ {
        Some(BeatmapCharacteristic::NoArrows)
    } else if s == "OneSaber"@ {
        Some(BeatmapCharacteristic::OneSaber)
    } else if s == "360Degree"@ {
        Some(BeatmapCharacteristic::Degree360)
    } else if s == "90Degree"@ {
        Some(BeatmapCharacteristic::Degree90)
    } else if s == "Legacy"@ {
        Some(BeatmapCharacteristic::Legacy)
    } else {
        None
    }
}

/// Whether two text fragments hold the same characters.
fn str_eq(a: &str, b: &str) -> (r: bool)
    ensures
        r == (a@ == b@),
{
    let owned_a: String = a.to_owned();
    let owned_b: String = b.to_owned();
    owned_a == owned_b
}

impl BeatmapCharacteristic {
    /// The characteristic a name denotes; an unrecognized name is
    /// kept as itself.  Total: every name has a meaning.
    pub fn from_name(s: &str) -> (r: BeatmapCharacteristic)
        ensures
            match spec_known_characteristic(s@) {
                Some(c) => r == c,
                None => r matches BeatmapCharacteristic::Other(o) && o@ == s@,
            },
    {
        if str_eq(s, "Standard") {
            BeatmapCharacteristic::Standard
        } else if str_eq(s, "NoArrows") {
            BeatmapCharacteristic::NoArrows
        } else if str_eq(s, "OneSaber") {
            BeatmapCharacteristic::OneSaber
        } else if str_eq(s, "360Degree") {
            BeatmapCharacteristic::Degree360
        } else if str_eq(s, "90Degree") {
            BeatmapCharacteristic::Degree90
        } else if str_eq(s, "Legacy") {
            BeatmapCharacteristic::Legacy
        } else {
            BeatmapCharacteristic::Other(s.to_owned())
        }
    }

    /// The name of this characteristic, inverse to `from_name` on
    /// the well-known values.
    pub fn name(&self) -> (r: String)
        ensures
            match self {
                BeatmapCharacteristic::Standard => r@ == "Standard"@,
                BeatmapCharacteristic::NoArrows => r@ == "NoArrows"@,
                BeatmapCharacteristic::OneSaber => r@ == "OneSaber"@,
                BeatmapCharacteristic::Degree360 => r@ == "360Degree"@,
                BeatmapCharacteristic::Degree90 => r@ == "90Degree"@,
                BeatmapCharacteristic::Legacy => r@ == "Legacy"@,
                BeatmapCharacteristic::Other(o) => r@ == o@,
            },
    {
        match self {
            BeatmapCharacteristic::Standard => "Standard".to_owned(),
            BeatmapCharacteristic::NoArrows => "NoArrows".to_owned(),
            BeatmapCharacteristic::OneSaber => "OneSaber".to_owned(),
            BeatmapCharacteristic::Degree360 => "360Degree".to_owned(),
            BeatmapCharacteristic::Degree90 => "90Degree".to_owned(),
            BeatmapCharacteristic::Legacy => "Legacy".to_owned(),
            BeatmapCharacteristic::Other(o) => o.clone(),
        }
    }
}

/// A difficulty tier.
#[derive(Debug, Clone, Copy, PartialEq, Eq, PartialOrd, Ord, Structural)]
pub enum Difficulty {
    Easy,
    Normal,
    Hard,
    Expert,
    ExpertPlus,
}

/// The difficulty a textual name denotes, if any.
pub open spec fn spec_difficulty_of_name(s: Seq<char>) -> Option<Difficulty> {
    if s == "Easy"@ {
        Some(Difficulty::Easy)
    } else if s == "Normal"@ {
        Some(Difficulty::Normal)
    } else if s == "Hard"@ {
        Some(Difficulty::Hard)
    } else if s == "Expert"@ {
        Some(Difficulty::Expert)
    } else if s == "Expert+"@ || s == "ExpertPlus"@ {
        Some(Difficulty::ExpertPlus)
    } else {
        None
    }
}

impl Difficulty {
    /// The numeric rank of this difficulty: the dialects assign the
    /// odd codes 1 through 9.
    pub open spec fn spec_rank(self) -> u8 {
        match self {
            Difficulty::Easy => 1,
            Difficulty::Normal => 3,
            Difficulty::Hard => 5,
            Difficulty::Expert => 7,
            Difficulty::ExpertPlus => 9,
        }
    }

    pub fn rank(&self) -> (r: u8)
        ensures
            r == self.spec_rank(),
    {
        match self {
            Difficulty::Easy => 1,
            Difficulty::Normal => 3,
            Difficulty::Hard => 5,
            Difficulty::Expert => 7,
            Difficulty::ExpertPlus => 9,
        }
    }

    /// The difficulty a numeric rank names, if any.
    pub open spec fn spec_from_rank(rank: u8) -> Option<Difficulty> {
        if rank == 1 {
            Some(Difficulty::Easy)
        } else if rank == 3 {
            Some(Difficulty::Normal)
        } else if rank == 5 {
            Some(Difficulty::Hard)
        } else if rank == 7 {
            Some(Difficulty::Expert)
        } else if rank == 9 {
            Some(Difficulty::ExpertPlus)
        } else {
            None
        }
    }

    pub fn from_rank(rank: u8) -> (r: Option<Difficulty>)
        ensures
            r == Self::spec_from_rank(rank),
    {
        if rank == 1 {
            Some(Difficulty::Easy)
        } else if rank == 3 {
            Some(Difficulty::Normal)
        } else if rank == 5 {
            Some(Difficulty::Hard)
        } else if rank == 7 {
            Some(Difficulty::Expert)
        } else if rank == 9 {
            Some(Difficulty::ExpertPlus)
        } else {
            None
        }
    }

    /// Reading a difficulty's own rank back yields that difficulty.
    pub proof fn lemma_rank_roundtrip(d: Difficulty)
        ensures
            Self::spec_from_rank(d.spec_rank()) == Some(d),
    {
    }

    /// The difficulty a textual name denotes; an unrecognized name is
    /// reported back as the error.
    pub fn from_name(s: &str) -> (r: Result<Difficulty, String>)
        ensures
            match r {
                Ok(d) => spec_difficulty_of_name(s@) == Some(d),
                Err(o) => spec_difficulty_of_name(s@) is None && o@ == s@,
            },
    {
        if str_eq(s, "Easy") {
            Ok(Difficulty::Easy)
        } else if str_eq(s, "Normal") {
            Ok(Difficulty::Normal)
        } else if str_eq(s, "Hard") {
            Ok(Difficulty::Hard)
        } else if str_eq(s, "Expert") {
            Ok(Difficulty::Expert)
        } else if str_eq(s, "Expert+") {
            Ok(Difficulty::ExpertPlus)
        } else if str_eq(s, "ExpertPlus") {
            Ok(Difficulty::ExpertPlus)
        } else {
            Err(s.to_owned())
        }
    }

    /// The name of this difficulty, inverse to `from_name`.
    pub fn name(&self) -> (r: String)
        ensures
            spec_difficulty_of_name(r@) == Some(*self),
    {
        proof {
            reveal_strlit("Easy");
            reveal_strlit("Normal");
            reveal_strlit("Hard");
            reveal_strlit("Expert");
            reveal_strlit("Expert+");
            reveal_strlit("ExpertPlus");
            assert("Normal"@ != "Easy"@) by {
                assert("Normal"@.len() != "Easy"@.len());
            }
            assert("Hard"@ != "Easy"@) by {
                assert("Hard"@[0] != "Easy"@[0]);
            }
            assert("Hard"@ != "Normal"@) by {
                assert("Hard"@.len() != "Normal"@.len());
            }
            assert("Expert"@ != "Easy"@) by {
                assert("Expert"@.len() != "Easy"@.len());
            }
            assert("Expert"@ != "Normal"@) by {
                assert("Expert"@[0] != "Normal"@[0]);
            }
            assert("Expert"@ != "Hard"@) by {
                assert("Expert"@.len() != "Hard"@.len());
            }
            assert("ExpertPlus"@ != "Easy"@) by {
                assert("ExpertPlus"@.len() != "Easy"@.len());
            }
            assert("ExpertPlus"@ != "Normal"@) by {
                assert("ExpertPlus"@.len() != "Normal"@.len());
            }
            assert("ExpertPlus"@ != "Hard"@) by {
                assert("ExpertPlus"@.len() != "Hard"@.len());
            }
            assert("ExpertPlus"@ != "Expert"@) by {
                assert("ExpertPlus"@.len() != "Expert"@.len());
            }
            assert("ExpertPlus"@ != "Expert+"@) by {
                assert("ExpertPlus"@.len() != "Expert+"@.len());
            }
        }
        match self {
            Difficulty::Easy => {
                let r = "Easy".to_owned();
                proof {
                    assert(spec_difficulty_of_name(r@) == Some(Difficulty::Easy));
                }
                r
            },
            Difficulty::Normal => {
                let r = "Normal".to_owned();
                proof {
                    assert(spec_difficulty_of_name(r@) == Some(Difficulty::Normal));
                }
                r
            },
            Difficulty::Hard => {
                let r = "Hard".to_owned();
                proof {
                    assert(spec_difficulty_of_name(r@) == Some(Difficulty::Hard));
                }
                r
            },
            Difficulty::Expert => {
                let r = "Expert".to_owned();
                proof {
                    assert(spec_difficulty_of_name(r@) == Some(Difficulty::Expert));
                }
                r
            },
            Difficulty::ExpertPlus => {
                let r = "ExpertPlus".to_owned();
                proof {
                    assert(spec_difficulty_of_name(r@) == Some(Difficulty::ExpertPlus));
                }
                r
            },
        }
    }
}

/// Song-level metadata.
#[derive(Debug, Clone)]
pub struct SongMeta {
    pub title: String,
    pub subtitle: Option<String>,
    pub author: String,
    pub cover_image_path: String,
}

/// Audio-level metadata; the tempo is in millionths of one beat per
/// minute.
#[derive(Debug, Clone)]
pub struct AudioMeta {
    pub bpm: u64,
    pub song_time_offset: i64,
    pub audio_path: String,
}

/// One normalized difficulty of a map.
#[derive(Debug, Clone)]
pub struct Beatmap {
    pub difficulty: Difficulty,
    pub characteristic: BeatmapCharacteristic,
    pub map: crate::beatmap::standard::Beatmap,
    pub njs: i64,
    pub njs_offset: i64,
}

/// Everything that can go wrong while assembling a map.
#[derive(Debug)]
pub enum MapReadError {
    /// The metadata document does not adapt.
    InfoParseError(AnyverParseError),
    /// A per-difficulty document does not adapt or normalize.
    MapParseError(AnyverParseError),
    /// No metadata document among the listed names.
    MissingInfoDat,
    /// A difficulty entry names no known difficulty; carries the
    /// offending name.
    BadDifficulty(String),
}

/// A whole assembled map.
#[derive(Debug)]
pub struct MapInfo {
    pub hash: String,
    pub song: SongMeta,
    pub audio: AudioMeta,
    pub maps: Vec<Beatmap>,
}

/// A byte folded to lower case when it is an upper-case ASCII letter.
pub open spec fn spec_ascii_lower(b: u8) -> u8 {
    if 65 <= b <= 90 {
        (b + 32) as u8
    } else {
        b
    }
}

fn ascii_lower(b: u8) -> (r: u8)
    ensures
        r == spec_ascii_lower(b),
{
    if 65 <= b && b <= 90 {
        b + 32
    } else {
        b
    }
}

/// Whether a name is the metadata document's, compared without
/// regard to ASCII case: its encoding, lower-cased, reads
/// "info.dat".
pub open spec fn spec_is_info_name(s: Seq<char>) -> bool {
    let bs = vstd::utf8::encode_utf8(s);
    &&& bs.len() == 8
    &&& spec_ascii_lower(bs[0]) == 105
    &&& spec_ascii_lower(bs[1]) == 110
    &&& spec_ascii_lower(bs[2]) == 102
    &&& spec_ascii_lower(bs[3]) == 111
    &&& spec_ascii_lower(bs[4]) == 46
    &&& spec_ascii_lower(bs[5]) == 100
    &&& spec_ascii_lower(bs[6]) == 97
    &&& spec_ascii_lower(bs[7]) == 116
}

fn is_info_name(s: &String) -> (r: bool)
    ensures
        r == spec_is_info_name(s@),
{
    let bs = s.as_str().as_bytes();
    if bs.len() != 8 {
        return false;
    }
    ascii_lower(bs[0]) == 105 && ascii_lower(bs[1]) == 110 && ascii_lower(bs[2]) == 102
        && ascii_lower(bs[3]) == 111 && ascii_lower(bs[4]) == 46 && ascii_lower(bs[5]) == 100
        && ascii_lower(bs[6]) == 97 && ascii_lower(bs[7]) == 116
}

/// The position of the first name that is the metadata document's,
/// compared without regard to ASCII case.
pub fn find_info(names: &Vec<String>) -> (r: Option<usize>)
    ensures
        match r {
            Some(i) => {
                &&& i < names@.len()
                &&& spec_is_info_name(names@[i as int]@)
                &&& forall|j: int| 0 <= j < i ==> !spec_is_info_name((#[trigger] names@[j])@)
            },
            None => forall|j: int|
                0 <= j < names@.len() ==> !spec_is_info_name((#[trigger] names@[j])@),
        },
{
    let n = names.len();
    for i in 0..n
        invariant
            n == names@.len(),
            forall|j: int| 0 <= j < i ==> !spec_is_info_name((#[trigger] names@[j])@),
    {
        if is_info_name(&names[i]) {
            return Some(i);
        }
    }
    None
}

/// The digest that the content hash relies on: what feeding exactly
/// these bytes to the hash accumulator yields.
pub uninterp spec fn sha1_of(bytes: Seq<u8>) -> Seq<u8>;

/// Relies on sha1_smol's `Sha1`: the 20-byte digest of the fed
/// bytes, a function of those bytes alone.
#[verifier::external_body]
fn sha1_digest(bytes: &Vec<u8>) -> (r: Vec<u8>)
    ensures
        r@ == sha1_of(bytes@),
        r@.len() == 20,
{
    let mut hasher = sha1_smol::Sha1::new();
    hasher.update(bytes.as_slice());
    hasher.digest().bytes().to_vec()
}

/// The upper-case hexadecimal digit of a value below sixteen.
pub open spec fn spec_hex_digit(d: u8) -> char {
    if d == 0 {
        '0'
    } else if d == 1 {
        '1'
    } else if d == 2 {
        '2'
    } else if d == 3 {
        '3'
    } else if d == 4 {
        '4'
    } else if d == 5 {
        '5'
    } else if d == 6 {
        '6'
    } else if d == 7 {
        '7'
    } else if d == 8 {
        '8'
    } else if d == 9 {
        '9'
    } else if d == 10 {
        'A'
    } else if d == 11 {
        'B'
    } else if d == 12 {
        'C'
    } else if d == 13 {
        'D'
    } else if d == 14 {
        'E'
    } else {
        'F'
    }
}

/// The upper-case hexadecimal encoding of a byte sequence: two
/// digits for each byte, in order.
pub open spec fn spec_hex_upper(bs: Seq<u8>) -> Seq<char>
    decreases bs.len(),
{
    if bs.len() == 0 {
        Seq::empty()
    } else {
        spec_hex_upper(bs.drop_last()) + seq![
            spec_hex_digit((bs.last() / 16) as u8),
            spec_hex_digit((bs.last() % 16) as u8),
        ]
    }
}

fn hex_digit_str(d: u8) -> (r: &'static str)
    requires
        d < 16,
    ensures
        r@ =~= seq![spec_hex_digit(d)],
{
    proof {
        reveal_strlit("0");
        reveal_strlit("1");
        reveal_strlit("2");
        reveal_strlit("3");
        reveal_strlit("4");
        reveal_strlit("5");
        reveal_strlit("6");
        reveal_strlit("7");
        reveal_strlit("8");
        reveal_strlit("9");
        reveal_strlit("A");
        reveal_strlit("B");
        reveal_strlit("C");
        reveal_strlit("D");
        reveal_strlit("E");
        reveal_strlit("F");
    }
    if d == 0 {
        "0"
    } else if d == 1 {
        "1"
    } else if d == 2 {
        "2"
    } else if d == 3 {
        "3"
    } else if d == 4 {
        "4"
    } else if d == 5 {
        "5"
    } else if d == 6 {
        "6"
    } else if d == 7 {
        "7"
    } else if d == 8 {
        "8"
    } else if d == 9 {
        "9"
    } else if d == 10 {
        "A"
    } else if d == 11 {
        "B"
    } else if d == 12 {
        "C"
    } else if d == 13 {
        "D"
    } else if d == 14 {
        "E"
    } else {
        "F"
    }
}

/// Encode bytes as upper-case hexadecimal text.
pub fn to_hex_upper(bytes: &Vec<u8>) -> (r: String)
    ensures
        r@ == spec_hex_upper(bytes@),
{
    let mut out = String::new();
    let n = bytes.len();
    proof {
        assert(bytes@.take(0) =~= Seq::<u8>::empty());
    }
    for i in 0..n
        invariant
            n == bytes@.len(),
            out@ == spec_hex_upper(bytes@.take(i as int)),
    {
        proof {
            assert(bytes@.take(i + 1).drop_last() =~= bytes@.take(i as int));
            assert(bytes@.take(i + 1).last() == bytes@[i as int]);
        }
        let b = bytes[i];
        out.append(hex_digit_str(b / 16));
        out.append(hex_digit_str(b % 16));
        proof {
            assert(out@ =~= spec_hex_upper(bytes@.take(i + 1)));
        }
    }
    proof {
        assert(bytes@.take(n as int) =~= bytes@);
    }
    out
}

/// The bytes of the given parts, one after another in order.
pub open spec fn spec_flatten(parts: Seq<Vec<u8>>) -> Seq<u8>
    decreases parts.len(),
{
    if parts.len() == 0 {
        Seq::empty()
    } else {
        spec_flatten(parts.drop_last()) + parts.last()@
    }
}

fn append_bytes(dst: &mut Vec<u8>, src: &Vec<u8>)
    ensures
        final(dst)@ == old(dst)@ + src@,
{
    let n = src.len();
    proof {
        assert(old(dst)@ + src@.take(0) =~= old(dst)@);
    }
    for j in 0..n
        invariant
            n == src@.len(),
            dst@ == old(dst)@ + src@.take(j as int),
    {
        dst.push(src[j]);
        proof {
            assert(old(dst)@ + src@.take(j + 1) =~= (old(dst)@ + src@.take(j as int)).push(
                src@[j as int],
            ));
        }
    }
    proof {
        assert(old(dst)@ + src@.take(n as int) =~= old(dst)@ + src@);
    }
}

fn concat_parts(parts: &Vec<Vec<u8>>) -> (r: Vec<u8>)
    ensures
        r@ == spec_flatten(parts@),
{
    let mut buf: Vec<u8> = Vec::new();
    let n = parts.len();
    proof {
        assert(parts@.take(0) =~= Seq::<Vec<u8>>::empty());
    }
    for i in 0..n
        invariant
            n == parts@.len(),
            buf@ == spec_flatten(parts@.take(i as int)),
    {
        proof {
            assert(parts@.take(i + 1).drop_last() =~= parts@.take(i as int));
            assert(parts@.take(i + 1).last() == parts@[i as int]);
        }
        append_bytes(&mut buf, &parts[i]);
    }
    proof {
        assert(parts@.take(n as int) =~= parts@);
    }
    buf
}

/// The map's content identity: the digest of the metadata document's
/// bytes followed by each per-difficulty document's bytes, in
/// file-declared order, rendered as upper-case hexadecimal text.
pub fn content_hash(parts: &Vec<Vec<u8>>) -> (r: String)
    ensures
        r@ == spec_hex_upper(sha1_of(spec_flatten(parts@))),
{
    let buf = concat_parts(parts);
    let digest = sha1_digest(&buf);
    to_hex_upper(&digest)
}

impl Beatmap {
    /// Assemble one normalized difficulty from its metadata entry,
    /// its characteristic name, its dialect-tagged document, and the
    /// map's declared tempo.
    ///
    /// A document that does not normalize is reported as a map parse
    /// error; an entry whose difficulty name is unknown is reported
    /// as a bad difficulty carrying that name.
    pub fn from_entry(
        characteristic: &String,
        entry: &v2::Beatmap,
        doc: AnyverBeatmap,
        bpm: u64,
    ) -> (r: Result<Beatmap, MapReadError>)
        ensures
            match r {
                Ok(m) => {
                    &&& events_valid(bpm, norm_events(doc@))
                    &&& normalizes_to(doc@, bpm, m.map)
                    &&& spec_difficulty_of_name(entry@.difficulty) == Some(m.difficulty)
                    &&& match spec_known_characteristic(characteristic@) {
                        Some(c) => m.characteristic == c,
                        None => m.characteristic matches BeatmapCharacteristic::Other(o) && o@
                            == characteristic@,
                    }
                    &&& m.njs == entry@.njs
                    &&& m.njs_offset == entry@.njs_offset
                },
                Err(e) => match e {
                    MapReadError::MapParseError(pe) => spec_new_issue(bpm, norm_events(doc@))
                        == Some(pe@),
                    MapReadError::BadDifficulty(o) => {
                        &&& events_valid(bpm, norm_events(doc@))
                        &&& spec_difficulty_of_name(entry@.difficulty) is None
                        &&& o@ == entry@.difficulty
                    },
                    _ => false,
                },
            },
    {
        let map = match crate::beatmap::standard::Beatmap::from_any(doc, bpm) {
            Ok(m) => m,
            Err(e) => return Err(MapReadError::MapParseError(e)),
        };
        let difficulty = match Difficulty::from_name(entry.difficulty.as_str()) {
            Ok(d) => d,
            Err(o) => return Err(MapReadError::BadDifficulty(o)),
        };
        Ok(
            Beatmap {
                difficulty,
                characteristic: BeatmapCharacteristic::from_name(characteristic.as_str()),
                map,
                njs: entry.njs,
                njs_offset: entry.njs_offset,
            },
        )
    }
}

impl MapInfo {
    /// Assemble the map from its content hash, its adapted metadata
    /// document, and its normalized difficulties.  An empty subtitle
    /// field means the song has none.
    pub fn assemble(hash: String, info: v2::MapInfo, maps: Vec<Beatmap>) -> (r: MapInfo)
        ensures
            r.hash@ == hash@,
            r.song.title@ == info@.song_name,
            info@.song_sub_name.len() == 0 ==> r.song.subtitle is None,
            info@.song_sub_name.len() > 0 ==> (r.song.subtitle matches Some(s) && s@
                == info@.song_sub_name),
            r.song.author@ == info@.song_author_name,
            r.song.cover_image_path@ == info@.cover_image_filename,
            r.audio.bpm == info@.bpm,
            r.audio.song_time_offset == info@.song_time_offset,
            r.audio.audio_path@ == info@.song_filename,
            r.maps == maps,
    {
        let subtitle = if info.song_sub_name.as_str().is_empty() {
            Option::None
        } else {
            Some(info.song_sub_name)
        };
        MapInfo {
            hash,
            song: SongMeta {
                title: info.song_name,
                subtitle,
                author: info.song_author_name,
                cover_image_path: info.cover_image_filename,
            },
            audio: AudioMeta {
                bpm: info.bpm,
                song_time_offset: info.song_time_offset,
                audio_path: info.song_filename,
            },
            maps,
        }
    }
}

} // verus!
