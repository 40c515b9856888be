//! The fixed-layout binary replay codec: a sequential little-endian
//! byte reader and writer with length-prefixed strings.
//!
//! Floating-point fields of the wire format are carried as their raw
//! 32-bit patterns, so that reading and writing are exact inverses.

use vstd::prelude::*;
use vstd::string::{StrSliceExecFns, StringExecFns};
use vstd::utf8::{decode_utf8, encode_utf8, valid_utf8};

verus! {

/// Everything that can go wrong while reading a replay.
#[derive(Debug, Clone, Copy, PartialEq, Eq, Structural)]
pub enum ParseError {
    /// The buffer ended before the field did, or a length prefix was
    /// negative.
    UnexpectedEof,
    /// A length-prefixed string is not valid UTF-8.
    Utf8Error,
    /// A magic number or section marker is not the expected one.
    BadHeader,
}

/// The raw bit pattern of one 32-bit floating-point wire field.
#[derive(Debug, Clone, Copy, PartialEq, Eq, Hash, Structural)]
pub struct RawF32 {
    pub bits: u32,
}

/// A position sample, each component a raw 32-bit pattern.
#[derive(Debug, Clone, Copy, PartialEq, Eq, Hash, Structural)]
pub struct Vec3 {
    pub x: RawF32,
    pub y: RawF32,
    pub z: RawF32,
}

/// A rotation sample, each component a raw 32-bit pattern.
#[derive(Debug, Clone, Copy, PartialEq, Eq, Hash, Structural)]
pub struct Quat {
    pub x: RawF32,
    pub y: RawF32,
    pub z: RawF32,
    pub w: RawF32,
}

/// The little-endian encoding of a 32-bit value.
#[verifier::opaque]
pub open spec fn spec_u32_le(x: u32) -> Seq<u8> {
    seq![
        (x % 256) as u8,
        ((x / 256) % 256) as u8,
        ((x / 65536) % 256) as u8,
        ((x / 16777216) % 256) as u8,
    ]
}

/// The 32-bit value four little-endian bytes hold.
pub open spec fn spec_u32_at(b: Seq<u8>, p: int) -> u32 {
    (b[p] + b[p + 1] * 256 + b[p + 2] * 65536 + b[p + 3] * 16777216) as u32
}

/// Reading back the little-endian encoding of a value yields that
/// value.
pub proof fn lemma_u32_le_at(b: Seq<u8>, p: int, x: u32)
    requires
        0 <= p,
        p + 4 <= b.len(),
        b.subrange(p, p + 4) == spec_u32_le(x),
    ensures
        spec_u32_at(b, p) == x,
{
    reveal(spec_u32_le);
    assert(b[p] == spec_u32_le(x)[0]);
    assert(b[p + 1] == spec_u32_le(x)[1]);
    assert(b[p + 2] == spec_u32_le(x)[2]);
    assert(b[p + 3] == spec_u32_le(x)[3]);
    assert(x % 256 + ((x / 256) % 256) * 256 + ((x / 65536) % 256) * 65536 + ((x / 16777216)
        % 256) * 16777216 == x) by (bit_vector);
}

/// The little-endian encoding is one-to-one.
pub proof fn lemma_u32_le_injective(x1: u32, x2: u32)
    requires
        spec_u32_le(x1) == spec_u32_le(x2),
    ensures
        x1 == x2,
{
    reveal(spec_u32_le);
    let b = spec_u32_le(x1);
    assert(b.subrange(0, 4) =~= spec_u32_le(x1));
    assert(b.subrange(0, 4) =~= spec_u32_le(x2));
    lemma_u32_le_at(b, 0, x1);
    lemma_u32_le_at(b, 0, x2);
}

/// A consumed range splits at any intermediate cursor position.
pub proof fn lemma_subrange_chain(b: Seq<u8>, p0: int, p1: int, p2: int)
    requires
        0 <= p0 <= p1 <= p2 <= b.len(),
    ensures
        b.subrange(p0, p2) == b.subrange(p0, p1) + b.subrange(p1, p2),
{
    assert(b.subrange(p0, p2) =~= b.subrange(p0, p1) + b.subrange(p1, p2));
}

/// A concatenation lying in a buffer splits into its two parts.
pub proof fn lemma_concat_peel(b: Seq<u8>, p: int, x: Seq<u8>, y: Seq<u8>)
    requires
        0 <= p,
        p + x.len() + y.len() <= b.len(),
        b.subrange(p, p + x.len() + y.len()) == x + y,
    ensures
        b.subrange(p, p + x.len()) == x,
        b.subrange(p + x.len(), p + x.len() + y.len()) == y,
{
    assert(b.subrange(p, p + x.len()) =~= x);
    assert forall|j: int| 0 <= j < y.len() implies b.subrange(
        p + x.len(),
        p + x.len() + y.len(),
    )[j] == y[j] by {
        assert((x + y)[x.len() + j] == y[j]);
        assert(b.subrange(p, p + x.len() + y.len())[x.len() + j] == b[p + x.len() + j]);
    }
    assert(b.subrange(p + x.len(), p + x.len() + y.len()) =~= y);
}

/// Read one byte and advance.
pub fn read_byte(b: &Vec<u8>, pos: &mut usize) -> (r: Result<u8, ParseError>)
    ensures
        match r {
            Ok(x) => {
                &&& *old(pos) + 1 <= b@.len()
                &&& x == b@[*old(pos) as int]
                &&& *final(pos) == *old(pos) + 1
            },
            Err(e) => {
                &&& *old(pos) + 1 > b@.len()
                &&& *final(pos) == *old(pos)
                &&& e == ParseError::UnexpectedEof
            },
        },
{
    if *pos < b.len() {
        let x = b[*pos];
        *pos = *pos + 1;
        Ok(x)
    } else {
        Err(ParseError::UnexpectedEof)
    }
}

/// Read one byte as a truth value (any nonzero byte is true) and
/// advance.
pub fn read_bool(b: &Vec<u8>, pos: &mut usize) -> (r: Result<bool, ParseError>)
    ensures
        match r {
            Ok(x) => {
                &&& *old(pos) + 1 <= b@.len()
                &&& x == (b@[*old(pos) as int] != 0)
                &&& *final(pos) == *old(pos) + 1
            },
            Err(e) => {
                &&& *old(pos) + 1 > b@.len()
                &&& *final(pos) == *old(pos)
                &&& e == ParseError::UnexpectedEof
            },
        },
{
    match read_byte(b, pos) {
        Ok(x) => Ok(x != 0),
        Err(e) => Err(e),
    }
}

/// Read a little-endian 32-bit value and advance.
pub fn read_u32(b: &Vec<u8>, pos: &mut usize) -> (r: Result<u32, ParseError>)
    ensures
        match r {
            Ok(x) => {
                &&& *old(pos) + 4 <= b@.len()
                &&& x == spec_u32_at(b@, *old(pos) as int)
                &&& b@.subrange(*old(pos) as int, *old(pos) + 4) == spec_u32_le(x)
                &&& *final(pos) == *old(pos) + 4
            },
            Err(e) => {
                &&& *old(pos) + 4 > b@.len()
                &&& *final(pos) == *old(pos)
                &&& e == ParseError::UnexpectedEof
            },
        },
{
    let p = *pos;
    if b.len() < 4 || p > b.len() - 4 {
        return Err(ParseError::UnexpectedEof);
    }
    let b0 = b[p];
    let b1 = b[p + 1];
    let b2 = b[p + 2];
    let b3 = b[p + 3];
    let x = (b0 as u32) + (b1 as u32) * 256 + (b2 as u32) * 65536 + (b3 as u32) * 16777216;
    *pos = p + 4;
    proof {
        reveal(spec_u32_le);
        let xv = x;
        let b0v = b0;
        let b1v = b1;
        let b2v = b2;
        let b3v = b3;
        assert(xv % 256 == b0v && (xv / 256) % 256 == b1v && (xv / 65536) % 256 == b2v && (xv
            / 16777216) % 256 == b3v) by (bit_vector)
            requires
                xv == (b0v as u32) + (b1v as u32) * 256 + (b2v as u32) * 65536 + (b3v as u32)
                    * 16777216,
        ;
        assert(b@.subrange(p as int, p + 4) =~= spec_u32_le(x));
    }
    Ok(x)
}

/// Read a little-endian signed 32-bit value and advance.
pub fn read_i32(b: &Vec<u8>, pos: &mut usize) -> (r: Result<i32, ParseError>)
    ensures
        match r {
            Ok(x) => {
                &&& *old(pos) + 4 <= b@.len()
                &&& x as u32 == spec_u32_at(b@, *old(pos) as int)
                &&& b@.subrange(*old(pos) as int, *old(pos) + 4) == spec_u32_le(x as u32)
                &&& *final(pos) == *old(pos) + 4
            },
            Err(e) => {
                &&& *old(pos) + 4 > b@.len()
                &&& *final(pos) == *old(pos)
                &&& e == ParseError::UnexpectedEof
            },
        },
{
    match read_u32(b, pos) {
        Ok(x) => {
            let r = x as i32;
            proof {
                let xv = x;
                assert((xv as i32) as u32 == xv) by (bit_vector);
            }
            Ok(r)
        },
        Err(e) => Err(e),
    }
}

/// Read a raw 32-bit floating-point pattern and advance.
pub fn read_f32(b: &Vec<u8>, pos: &mut usize) -> (r: Result<RawF32, ParseError>)
    ensures
        match r {
            Ok(x) => {
                &&& *old(pos) + 4 <= b@.len()
                &&& b@.subrange(*old(pos) as int, *old(pos) + 4) == spec_u32_le(x.bits)
                &&& *final(pos) == *old(pos) + 4
            },
            Err(e) => {
                &&& *old(pos) + 4 > b@.len()
                &&& *final(pos) == *old(pos)
                &&& e == ParseError::UnexpectedEof
            },
        },
{
    match read_u32(b, pos) {
        Ok(x) => Ok(RawF32 { bits: x }),
        Err(e) => Err(e),
    }
}

/// Append the little-endian encoding of a 32-bit value.
pub fn write_u32(out: &mut Vec<u8>, x: u32)
    ensures
        final(out)@ == old(out)@ + spec_u32_le(x),
{
    let b0 = (x % 256) as u8;
    let b1 = ((x / 256) % 256) as u8;
    let b2 = ((x / 65536) % 256) as u8;
    let b3 = ((x / 16777216) % 256) as u8;
    out.push(b0);
    out.push(b1);
    out.push(b2);
    out.push(b3);
    proof {
        reveal(spec_u32_le);
        assert(out@ =~= old(out)@ + spec_u32_le(x));
    }
}


/// Copy a range of bytes out of a buffer.
fn copy_range(b: &Vec<u8>, start: usize, end: usize) -> (r: Vec<u8>)
    requires
        start <= end <= b@.len(),
    ensures
        r@ == b@.subrange(start as int, end as int),
{
    let mut out: Vec<u8> = Vec::new();
    let mut i = start;
    proof {
        assert(out@ =~= b@.subrange(start as int, start as int));
    }
    while i < end
        invariant
            start <= i <= end <= b@.len(),
            out@ == b@.subrange(start as int, i as int),
        decreases end - i,
    {
        out.push(b[i]);
        proof {
            assert(out@ =~= b@.subrange(start as int, i + 1));
        }
        i = i + 1;
    }
    out
}

/// Relies on String::from_utf8: it succeeds exactly on valid UTF-8,
/// and the returned string is backed by exactly the given bytes.
#[verifier::external_body]
fn bytes_to_string(v: Vec<u8>) -> (r: Option<String>)
    ensures
        match r {
            Some(s) => valid_utf8(v@) && encode_utf8(s@) == v@ && s@ == decode_utf8(v@),
            None => !valid_utf8(v@),
        },
{
    String::from_utf8(v).ok()
}

/// Append a borrowed byte fragment.
fn append_slice(out: &mut Vec<u8>, src: &[u8])
    ensures
        final(out)@ == old(out)@ + src@,
{
    let n = src.len();
    proof {
        assert(out@ =~= old(out)@ + src@.take(0));
    }
    for j in 0..n
        invariant
            n == src@.len(),
            out@ == old(out)@ + src@.take(j as int),
    {
        out.push(src[j]);
        proof {
            assert(old(out)@ + src@.take(j + 1) =~= (old(out)@ + src@.take(j as int)).push(
                src@[j as int],
            ));
        }
    }
    proof {
        assert(src@.take(n as int) =~= src@);
    }
}

/// The wire form of a length-prefixed string: the byte length as a
/// little-endian 32-bit value, then the bytes.
#[verifier::opaque]
pub open spec fn spec_str_bytes(s: Seq<char>) -> Seq<u8> {
    spec_u32_le(encode_utf8(s).len() as u32) + encode_utf8(s)
}

/// Where the length-prefixed string starting at `p` ends: the four
/// prefix bytes plus the payload length they declare.
pub open spec fn spec_str_end(b: Seq<u8>, p: int) -> int {
    p + 4 + spec_u32_at(b, p)
}

/// Whether a well-formed length-prefixed string starts at `p`: a
/// readable prefix whose sign bit is clear, a payload that fits the
/// buffer, and valid UTF-8 in the payload.
pub open spec fn spec_str_at_ok(b: Seq<u8>, p: int) -> bool {
    &&& 0 <= p
    &&& p + 4 <= b.len()
    &&& spec_u32_at(b, p) < 0x80000000
    &&& spec_str_end(b, p) <= b.len()
    &&& valid_utf8(b.subrange(p + 4, spec_str_end(b, p)))
}

/// Read a length-prefixed string and advance.  Succeeds exactly when
/// a well-formed string starts at the cursor; the cursor does not
/// move on failure.
pub fn read_str(b: &Vec<u8>, pos: &mut usize) -> (r: Result<String, ParseError>)
    ensures
        match r {
            Ok(s) => {
                &&& spec_str_at_ok(b@, *old(pos) as int)
                &&& encode_utf8(s@).len() < 0x80000000
                &&& *final(pos) == *old(pos) + 4 + encode_utf8(s@).len()
                &&& *final(pos) == spec_str_end(b@, *old(pos) as int)
                &&& *final(pos) <= b@.len()
                &&& b@.subrange(*old(pos) as int, *final(pos) as int) == spec_str_bytes(s@)
            },
            Err(e) => {
                &&& *final(pos) == *old(pos)
                &&& !spec_str_at_ok(b@, *old(pos) as int)
                &&& if *old(pos) + 4 <= b@.len() && spec_u32_at(b@, *old(pos) as int)
                    < 0x80000000 && spec_str_end(b@, *old(pos) as int) <= b@.len() {
                    e == ParseError::Utf8Error
                } else {
                    e == ParseError::UnexpectedEof
                }
            },
        },
{
    let mut p = *pos;
    let n = match read_i32(b, &mut p) {
        Ok(n) => n,
        Err(e) => {
            return Err(e);
        },
    };
    if n < 0 {
        proof {
            let nv = n;
            assert(nv as u32 >= 0x80000000u32) by (bit_vector)
                requires
                    nv < 0,
            ;
        }
        return Err(ParseError::UnexpectedEof);
    }
    let len = n as usize;
    if b.len() - p < len {
        return Err(ParseError::UnexpectedEof);
    }
    let raw = copy_range(b, p, p + len);
    let s = match bytes_to_string(raw) {
        Some(s) => s,
        None => {
            return Err(ParseError::Utf8Error);
        },
    };
    proof {
        reveal(spec_str_bytes);
        lemma_subrange_chain(b@, *old(pos) as int, p as int, p + len);
        assert(spec_u32_le(encode_utf8(s@).len() as u32) == spec_u32_le(n as u32)) by {
            let nv = n;
            assert(nv as u32 == (nv as usize) as u32) by (bit_vector)
                requires
                    nv >= 0,
            ;
        }
    }
    *pos = p + len;
    Ok(s)
}

/// Every written string wire form is recognized where it lies: if
/// the bytes of `spec_str_bytes(s)` sit at `p` inside a buffer, a
/// well-formed string starts at `p` and ends with them.
pub proof fn lemma_str_wire_parses(b: Seq<u8>, p: int, s: Seq<char>)
    requires
        0 <= p,
        encode_utf8(s).len() < 0x80000000,
        p + 4 + encode_utf8(s).len() <= b.len(),
        b.subrange(p, p + 4 + encode_utf8(s).len()) == spec_str_bytes(s),
    ensures
        spec_str_at_ok(b, p),
        spec_str_end(b, p) == p + 4 + encode_utf8(s).len(),
{
    reveal(spec_str_bytes);
    reveal(spec_u32_le);
    broadcast use vstd::utf8::encode_utf8_valid_utf8;

    let bytes = encode_utf8(s);
    let whole = b.subrange(p, p + 4 + bytes.len());
    assert(b.subrange(p, p + 4) =~= whole.subrange(0, 4));
    assert(whole.subrange(0, 4) =~= spec_u32_le(bytes.len() as u32));
    lemma_u32_le_at(b, p, bytes.len() as u32);
    assert(b.subrange(p + 4, p + 4 + bytes.len()) =~= whole.subrange(4, 4 + bytes.len() as int));
    assert(whole.subrange(4, 4 + bytes.len() as int) =~= bytes);
}

/// A string wire form is four prefix bytes plus its payload.
pub proof fn lemma_str_bytes_len(s: Seq<char>)
    ensures
        spec_str_bytes(s).len() == 4 + encode_utf8(s).len(),
{
    reveal(spec_str_bytes);
    reveal(spec_u32_le);
}

/// Two equal concatenations whose first parts have the same length
/// agree part by part.
pub proof fn lemma_concat_split_eq(a1: Seq<u8>, b1: Seq<u8>, a2: Seq<u8>, b2: Seq<u8>)
    requires
        a1.len() == a2.len(),
        a1 + b1 == a2 + b2,
    ensures
        a1 == a2,
        b1 == b2,
{
    assert forall|t: int| 0 <= t < a1.len() implies a1[t] == a2[t] by {
        assert((a1 + b1)[t] == a1[t]);
        assert((a2 + b2)[t] == a2[t]);
    }
    assert(a1 =~= a2);
    assert((a1 + b1).len() == a1.len() + b1.len());
    assert((a2 + b2).len() == a2.len() + b2.len());
    assert(b1.len() == b2.len());
    assert forall|t: int| 0 <= t < b1.len() implies b1[t] == b2[t] by {
        assert((a1 + b1)[a1.len() + t] == b1[t]);
        assert((a2 + b2)[a2.len() + t] == b2[t]);
    }
    assert(b1 =~= b2);
}

/// A string wire form is self-delimiting: when two of them start two
/// equal byte sequences, the strings and the remainders agree.
pub proof fn lemma_str_bytes_prefix(s1: Seq<char>, s2: Seq<char>, x: Seq<u8>, y: Seq<u8>)
    requires
        encode_utf8(s1).len() < 0x80000000,
        encode_utf8(s2).len() < 0x80000000,
        spec_str_bytes(s1) + x == spec_str_bytes(s2) + y,
    ensures
        s1 == s2,
        x == y,
{
    reveal(spec_str_bytes);
    let w = spec_str_bytes(s1) + x;
    assert(w == (spec_u32_le(encode_utf8(s1).len() as u32) + encode_utf8(s1)) + x);
    assert((spec_u32_le(encode_utf8(s1).len() as u32) + encode_utf8(s1)) + x == spec_u32_le(
        encode_utf8(s1).len() as u32,
    ) + (encode_utf8(s1) + x)) by {
        assert((spec_u32_le(encode_utf8(s1).len() as u32) + encode_utf8(s1)) + x =~= spec_u32_le(
            encode_utf8(s1).len() as u32,
        ) + (encode_utf8(s1) + x));
    }
    assert((spec_u32_le(encode_utf8(s2).len() as u32) + encode_utf8(s2)) + y == spec_u32_le(
        encode_utf8(s2).len() as u32,
    ) + (encode_utf8(s2) + y)) by {
        assert((spec_u32_le(encode_utf8(s2).len() as u32) + encode_utf8(s2)) + y =~= spec_u32_le(
            encode_utf8(s2).len() as u32,
        ) + (encode_utf8(s2) + y));
    }
    assert(spec_u32_le(encode_utf8(s1).len() as u32).len() == 4 && spec_u32_le(
        encode_utf8(s2).len() as u32,
    ).len() == 4) by {
        reveal(spec_u32_le);
    }
    lemma_concat_split_eq(
        spec_u32_le(encode_utf8(s1).len() as u32),
        encode_utf8(s1) + x,
        spec_u32_le(encode_utf8(s2).len() as u32),
        encode_utf8(s2) + y,
    );
    lemma_u32_le_injective(encode_utf8(s1).len() as u32, encode_utf8(s2).len() as u32);
    assert(encode_utf8(s1).len() == encode_utf8(s2).len());
    lemma_concat_split_eq(encode_utf8(s1), x, encode_utf8(s2), y);
    broadcast use vstd::utf8::encode_utf8_decode_utf8;

    assert(decode_utf8(encode_utf8(s1)) == decode_utf8(encode_utf8(s2)));
}

/// A string wire form determines the string: reading back a written
/// string loses nothing.
pub proof fn lemma_str_bytes_injective(s1: Seq<char>, s2: Seq<char>)
    requires
        spec_str_bytes(s1) == spec_str_bytes(s2),
    ensures
        s1 == s2,
{
    reveal(spec_str_bytes);
    reveal(spec_u32_le);
    broadcast use vstd::utf8::encode_utf8_decode_utf8;

    let w = spec_str_bytes(s1);
    assert(w.subrange(4, w.len() as int) =~= encode_utf8(s1));
    assert(w.subrange(4, w.len() as int) =~= encode_utf8(s2));
    assert(decode_utf8(encode_utf8(s1)) == decode_utf8(encode_utf8(s2)));
}

/// Append a length-prefixed string.
pub fn write_str(out: &mut Vec<u8>, s: &str)
    requires
        encode_utf8(s@).len() < 0x80000000,
    ensures
        final(out)@ == old(out)@ + spec_str_bytes(s@),
{
    let n = s.len();
    write_u32(out, n as u32);
    append_slice(out, s.as_bytes());
    proof {
        reveal(spec_str_bytes);
        assert(out@ =~= old(out)@ + spec_str_bytes(s@));
    }
}

/// Whether no modifier of a list contains the comma that separates
/// modifiers on the wire.  Only such lists survive a write-and-read
/// round trip unchanged: the comma-join is one-to-one on them
/// (`lemma_join_mods_injective`).
pub open spec fn spec_comma_free(ms: Seq<String>) -> bool {
    forall|i: int| 0 <= i < ms.len() ==> !(#[trigger] ms[i])@.contains(',')
}

/// A modifier list as the single text field it is stored in: the
/// modifiers joined by commas.
#[verifier::opaque]
pub open spec fn spec_join_mods(ms: Seq<String>) -> Seq<char>
    decreases ms.len(),
{
    if ms.len() == 0 {
        Seq::empty()
    } else if ms.len() == 1 {
        ms[0]@
    } else {
        spec_join_mods(ms.drop_last()) + seq![','] + ms.last()@
    }
}

/// Split a modifier text on commas.  Empty text means no modifiers
/// at all; otherwise every comma separates two entries.  Total.
fn split_modifiers(s: &str) -> (r: Vec<String>)
    ensures
        spec_join_mods(r@) == s@,
        spec_comma_free(r@),
        s@.len() == 0 ==> r@.len() == 0,
        s@.len() > 0 ==> r@.len() > 0,
{
    let n = s.unicode_len();
    if n == 0 {
        let ms: Vec<String> = Vec::new();
        proof {
            reveal(spec_join_mods);
            assert(spec_join_mods(ms@) =~= s@);
        }
        return ms;
    }
    let mut ms: Vec<String> = Vec::new();
    let mut start: usize = 0;
    for i in 0..n
        invariant
            n == s@.len(),
            start <= i <= n,
            ms@.len() == 0 ==> start == 0,
            ms@.len() > 0 ==> spec_join_mods(ms@) + seq![','] == s@.subrange(0, start as int),
            spec_comma_free(ms@),
            forall|j: int| start <= j < i ==> s@[j] != ',',
    {
        if s.get_char(i) == ',' {
            let ghost old_ms = ms@;
            let piece = s.substring_char(start, i).to_owned();
            proof {
                assert(!piece@.contains(',')) by {
                    if piece@.contains(',') {
                        let k = choose|k: int| 0 <= k < piece@.len() && piece@[k] == ',';
                        assert(s@[start + k] == ',');
                    }
                }
            }
            let ghost pushed = piece@;
            ms.push(piece);
            proof {
                reveal(spec_join_mods);
                assert(ms@.drop_last() =~= old_ms);
                assert forall|j: int| 0 <= j < ms@.len() implies !(#[trigger] ms@[j])@.contains(
                    ',',
                ) by {
                    if j < ms@.len() - 1 {
                        assert(ms@[j] == old_ms[j]);
                    }
                }
                if old_ms.len() == 0 {
                    assert(spec_join_mods(ms@) == s@.subrange(0, i as int));
                } else {
                    assert(spec_join_mods(ms@) == spec_join_mods(old_ms) + seq![',']
                        + s@.subrange(start as int, i as int));
                }
                assert(spec_join_mods(ms@) + seq![','] =~= s@.subrange(0, i + 1));
            }
            start = i + 1;
        }
    }
    let ghost old_ms = ms@;
    let piece = s.substring_char(start, n).to_owned();
    proof {
        assert(!piece@.contains(',')) by {
            if piece@.contains(',') {
                let k = choose|k: int| 0 <= k < piece@.len() && piece@[k] == ',';
                assert(s@[start + k] == ',');
            }
        }
    }
    ms.push(piece);
    proof {
        reveal(spec_join_mods);
        assert(ms@.drop_last() =~= old_ms);
        assert forall|j: int| 0 <= j < ms@.len() implies !(#[trigger] ms@[j])@.contains(',') by {
            if j < ms@.len() - 1 {
                assert(ms@[j] == old_ms[j]);
            }
        }
        if old_ms.len() == 0 {
            assert(spec_join_mods(ms@) == s@.subrange(0, n as int));
        } else {
            assert(spec_join_mods(ms@) == spec_join_mods(old_ms) + seq![',']
                + s@.subrange(start as int, n as int));
        }
        assert(spec_join_mods(ms@) =~= s@);
    }
    ms
}

/// Join modifiers with commas into the single text field they are
/// stored in.
fn join_modifiers(ms: &Vec<String>) -> (r: String)
    ensures
        r@ == spec_join_mods(ms@),
{
    let mut out = String::new();
    let n = ms.len();
    proof {
        reveal(spec_join_mods);
        assert(out@ =~= spec_join_mods(ms@.take(0)));
    }
    for i in 0..n
        invariant
            n == ms@.len(),
            out@ == spec_join_mods(ms@.take(i as int)),
    {
        proof {
            reveal(spec_join_mods);
            assert(ms@.take(i + 1).drop_last() =~= ms@.take(i as int));
            assert(ms@.take(i + 1).last() == ms@[i as int]);
        }
        if i > 0 {
            out.append(",");
            proof {
                reveal_strlit(",");
                assert(","@ =~= seq![',']);
            }
        }
        out.append(ms[i].as_str());
        proof {
            reveal(spec_join_mods);
            if i == 0 {
                assert(out@ =~= spec_join_mods(ms@.take(1)));
            } else {
                assert(out@ =~= spec_join_mods(ms@.take(i + 1)));
            }
        }
    }
    proof {
        assert(ms@.take(n as int) =~= ms@);
    }
    out
}

/// The comma-join is one-to-one on comma-free modifier lists: two
/// such lists with the same join, empty together or not, agree
/// element by element.  With this, a parsed header's modifier list
/// is pinned by its wire form whenever the written list was
/// comma-free.
pub proof fn lemma_join_mods_injective(ms1: Seq<String>, ms2: Seq<String>)
    requires
        spec_comma_free(ms1),
        spec_comma_free(ms2),
        spec_join_mods(ms1) == spec_join_mods(ms2),
        ms1.len() == 0 <==> ms2.len() == 0,
    ensures
        ms1.len() == ms2.len(),
        forall|i: int| 0 <= i < ms1.len() ==> (#[trigger] ms1[i])@ == ms2[i]@,
    decreases ms1.len() + ms2.len(),
{
    reveal(spec_join_mods);
    let j = spec_join_mods(ms1);
    if ms1.len() == 0 {
    } else if ms1.len() == 1 && ms2.len() == 1 {
        assert(ms1[0]@ == ms2[0]@);
    } else if ms1.len() == 1 {
        let d2 = ms2.drop_last();
        let k = spec_join_mods(d2).len() as int;
        assert(j == spec_join_mods(d2) + seq![','] + ms2.last()@);
        assert(j[k] == ',');
        assert(ms1[0]@[k] == ',');
        assert(ms1[0]@.contains(','));
        assert(false);
    } else if ms2.len() == 1 {
        let d1 = ms1.drop_last();
        let k = spec_join_mods(d1).len() as int;
        assert(j == spec_join_mods(d1) + seq![','] + ms1.last()@);
        assert(j[k] == ',');
        assert(ms2[0]@[k] == ',');
        assert(ms2[0]@.contains(','));
        assert(false);
    } else {
        let d1 = ms1.drop_last();
        let l1 = ms1.last()@;
        let d2 = ms2.drop_last();
        let l2 = ms2.last()@;
        let k1 = spec_join_mods(d1).len() as int;
        let k2 = spec_join_mods(d2).len() as int;
        assert(j == spec_join_mods(d1) + seq![','] + l1);
        assert(j == spec_join_mods(d2) + seq![','] + l2);
        if k1 < k2 {
            assert(j[k2] == ',');
            assert(l1[k2 - k1 - 1] == ',');
            assert(l1.contains(','));
            assert(ms1[ms1.len() - 1] == ms1.last());
            assert(false);
        } else if k2 < k1 {
            assert(j[k1] == ',');
            assert(l2[k1 - k2 - 1] == ',');
            assert(l2.contains(','));
            assert(ms2[ms2.len() - 1] == ms2.last());
            assert(false);
        } else {
            assert(l1.len() == l2.len());
            assert forall|t: int| 0 <= t < l1.len() implies l1[t] == l2[t] by {
                assert(j[k1 + 1 + t] == l1[t]);
                assert(j[k2 + 1 + t] == l2[t]);
            }
            assert(l1 =~= l2);
            assert forall|t: int| 0 <= t < k1 implies spec_join_mods(d1)[t] == spec_join_mods(
                d2,
            )[t] by {
                assert(j[t] == spec_join_mods(d1)[t]);
                assert(j[t] == spec_join_mods(d2)[t]);
            }
            assert(spec_join_mods(d1) =~= spec_join_mods(d2));
            assert forall|i: int| 0 <= i < d1.len() implies !(#[trigger] d1[i])@.contains(
                ',',
            ) by {
                assert(d1[i] == ms1[i]);
            }
            assert forall|i: int| 0 <= i < d2.len() implies !(#[trigger] d2[i])@.contains(
                ',',
            ) by {
                assert(d2[i] == ms2[i]);
            }
            lemma_join_mods_injective(d1, d2);
            assert forall|i: int| 0 <= i < ms1.len() implies (#[trigger] ms1[i])@ == ms2[i]@ by {
                if i < ms1.len() - 1 {
                    assert(ms1[i] == d1[i]);
                    assert(ms2[i] == d2[i]);
                    assert(d1[i]@ == d2[i]@);
                } else {
                    assert(ms1[i] == ms1.last());
                    assert(ms2[i] == ms2.last());
                }
            }
        }
    }
}

/// The thirteen leading text fields of a replay header, in wire
/// order.
pub struct InfoStrings {
    pub version: String,
    pub game_version: String,
    pub timestamp: String,
    pub player_id: String,
    pub player_name: String,
    pub platform: String,
    pub tracking_system: String,
    pub hmd: String,
    pub controller: String,
    pub song_hash: String,
    pub song_name: String,
    pub mapper: String,
    pub difficulty: String,
}

/// The wire form of the leading text fields.
#[verifier::opaque]
pub open spec fn spec_info_strings_bytes(h: InfoStrings) -> Seq<u8> {
    spec_str_bytes(h.version@) + spec_str_bytes(h.game_version@) + spec_str_bytes(h.timestamp@)
        + spec_str_bytes(h.player_id@) + spec_str_bytes(h.player_name@) + spec_str_bytes(
        h.platform@,
    ) + spec_str_bytes(h.tracking_system@) + spec_str_bytes(h.hmd@) + spec_str_bytes(
        h.controller@,
    ) + spec_str_bytes(h.song_hash@) + spec_str_bytes(h.song_name@) + spec_str_bytes(h.mapper@)
        + spec_str_bytes(h.difficulty@)
}

/// Every leading text field fits its 32-bit wire length prefix.
pub open spec fn spec_info_strings_ok(h: InfoStrings) -> bool {
    &&& encode_utf8(h.version@).len() < 0x80000000
    &&& encode_utf8(h.game_version@).len() < 0x80000000
    &&& encode_utf8(h.timestamp@).len() < 0x80000000
    &&& encode_utf8(h.player_id@).len() < 0x80000000
    &&& encode_utf8(h.player_name@).len() < 0x80000000
    &&& encode_utf8(h.platform@).len() < 0x80000000
    &&& encode_utf8(h.tracking_system@).len() < 0x80000000
    &&& encode_utf8(h.hmd@).len() < 0x80000000
    &&& encode_utf8(h.controller@).len() < 0x80000000
    &&& encode_utf8(h.song_hash@).len() < 0x80000000
    &&& encode_utf8(h.song_name@).len() < 0x80000000
    &&& encode_utf8(h.mapper@).len() < 0x80000000
    &&& encode_utf8(h.difficulty@).len() < 0x80000000
}

/// Where `k` consecutive length-prefixed strings starting at `p`
/// end, when all of them are well-formed; nothing otherwise.
pub open spec fn spec_strs_end(b: Seq<u8>, p: int, k: nat) -> Option<int>
    decreases k,
{
    if k == 0 {
        Some(p)
    } else if spec_str_at_ok(b, p) {
        spec_strs_end(b, spec_str_end(b, p), (k - 1) as nat)
    } else {
        None
    }
}

#[verifier::rlimit(100)]
#[verifier::spinoff_prover]
fn read_info_strings(b: &Vec<u8>, pos: &mut usize) -> (r: Result<InfoStrings, ParseError>)
    ensures
        match r {
            Ok(h) => {
                &&& *old(pos) <= *final(pos) <= b@.len()
                &&& b@.subrange(*old(pos) as int, *final(pos) as int)
                    == spec_info_strings_bytes(h)
                &&& spec_info_strings_ok(h)
                &&& spec_strs_end(b@, *old(pos) as int, 13) == Some(*final(pos) as int)
            },
            Err(e) => {
                &&& *final(pos) == *old(pos)
                &&& spec_strs_end(b@, *old(pos) as int, 13) is None
            },
        },
{
    let ghost start = *old(pos) as int;
    let mut p = *pos;
    let ghost mut acc: Seq<u8> = Seq::empty();
    proof {
        if start <= b@.len() {
            assert(b@.subrange(start, p as int) =~= acc);
        }
    }
    let ghost p0 = p as int;
    let version = match read_str(b, &mut p) {
        Ok(s) => s,
        Err(e) => {
            proof {
                assert(spec_strs_end(b@, p0, 13) is None);
                assert(spec_strs_end(b@, start, 13) is None);
            }
            return Err(e);
        },
    };
    proof {
        lemma_subrange_chain(b@, start, p0, p as int);
        acc = acc + spec_str_bytes(version@);
        assert(b@.subrange(start, p as int) == acc);
        assert(spec_strs_end(b@, p0, 13) == spec_strs_end(b@, p as int, 12));
        assert(spec_strs_end(b@, start, 13) == spec_strs_end(b@, p as int, 12));
    }
    let ghost p0 = p as int;
    let game_version = match read_str(b, &mut p) {
        Ok(s) => s,
        Err(e) => {
            proof {
                assert(spec_strs_end(b@, p0, 12) is None);
                assert(spec_strs_end(b@, start, 13) is None);
            }
            return Err(e);
        },
    };
    proof {
        lemma_subrange_chain(b@, start, p0, p as int);
        acc = acc + spec_str_bytes(game_version@);
        assert(b@.subrange(start, p as int) == acc);
        assert(spec_strs_end(b@, p0, 12) == spec_strs_end(b@, p as int, 11));
        assert(spec_strs_end(b@, start, 13) == spec_strs_end(b@, p as int, 11));
    }
    let ghost p0 = p as int;
    let timestamp = match read_str(b, &mut p) {
        Ok(s) => s,
        Err(e) => {
            proof {
                assert(spec_strs_end(b@, p0, 11) is None);
                assert(spec_strs_end(b@, start, 13) is None);
            }
            return Err(e);
        },
    };
    proof {
        lemma_subrange_chain(b@, start, p0, p as int);
        acc = acc + spec_str_bytes(timestamp@);
        assert(b@.subrange(start, p as int) == acc);
        assert(spec_strs_end(b@, p0, 11) == spec_strs_end(b@, p as int, 10));
        assert(spec_strs_end(b@, start, 13) == spec_strs_end(b@, p as int, 10));
    }
    let ghost p0 = p as int;
    let player_id = match read_str(b, &mut p) {
        Ok(s) => s,
        Err(e) => {
            proof {
                assert(spec_strs_end(b@, p0, 10) is None);
                assert(spec_strs_end(b@, start, 13) is None);
            }
            return Err(e);
        },
    };
    proof {
        lemma_subrange_chain(b@, start, p0, p as int);
        acc = acc + spec_str_bytes(player_id@);
        assert(b@.subrange(start, p as int) == acc);
        assert(spec_strs_end(b@, p0, 10) == spec_strs_end(b@, p as int, 9));
        assert(spec_strs_end(b@, start, 13) == spec_strs_end(b@, p as int, 9));
    }
    let ghost p0 = p as int;
    let player_name = match read_str(b, &mut p) {
        Ok(s) => s,
        Err(e) => {
            proof {
                assert(spec_strs_end(b@, p0, 9) is None);
                assert(spec_strs_end(b@, start, 13) is None);
            }
            return Err(e);
        },
    };
    proof {
        lemma_subrange_chain(b@, start, p0, p as int);
        acc = acc + spec_str_bytes(player_name@);
        assert(b@.subrange(start, p as int) == acc);
        assert(spec_strs_end(b@, p0, 9) == spec_strs_end(b@, p as int, 8));
        assert(spec_strs_end(b@, start, 13) == spec_strs_end(b@, p as int, 8));
    }
    let ghost p0 = p as int;
    let platform = match read_str(b, &mut p) {
        Ok(s) => s,
        Err(e) => {
            proof {
                assert(spec_strs_end(b@, p0, 8) is None);
                assert(spec_strs_end(b@, start, 13) is None);
            }
            return Err(e);
        },
    };
    proof {
        lemma_subrange_chain(b@, start, p0, p as int);
        acc = acc + spec_str_bytes(platform@);
        assert(b@.subrange(start, p as int) == acc);
        assert(spec_strs_end(b@, p0, 8) == spec_strs_end(b@, p as int, 7));
        assert(spec_strs_end(b@, start, 13) == spec_strs_end(b@, p as int, 7));
    }
    let ghost p0 = p as int;
    let tracking_system = match read_str(b, &mut p) {
        Ok(s) => s,
        Err(e) => {
            proof {
                assert(spec_strs_end(b@, p0, 7) is None);
                assert(spec_strs_end(b@, start, 13) is None);
            }
            return Err(e);
        },
    };
    proof {
        lemma_subrange_chain(b@, start, p0, p as int);
        acc = acc + spec_str_bytes(tracking_system@);
        assert(b@.subrange(start, p as int) == acc);
        assert(spec_strs_end(b@, p0, 7) == spec_strs_end(b@, p as int, 6));
        assert(spec_strs_end(b@, start, 13) == spec_strs_end(b@, p as int, 6));
    }
    let ghost p0 = p as int;
    let hmd = match read_str(b, &mut p) {
        Ok(s) => s,
        Err(e) => {
            proof {
                assert(spec_strs_end(b@, p0, 6) is None);
                assert(spec_strs_end(b@, start, 13) is None);
            }
            return Err(e);
        },
    };
    proof {
        lemma_subrange_chain(b@, start, p0, p as int);
        acc = acc + spec_str_bytes(hmd@);
        assert(b@.subrange(start, p as int) == acc);
        assert(spec_strs_end(b@, p0, 6) == spec_strs_end(b@, p as int, 5));
        assert(spec_strs_end(b@, start, 13) == spec_strs_end(b@, p as int, 5));
    }
    let ghost p0 = p as int;
    let controller = match read_str(b, &mut p) {
        Ok(s) => s,
        Err(e) => {
            proof {
                assert(spec_strs_end(b@, p0, 5) is None);
                assert(spec_strs_end(b@, start, 13) is None);
            }
            return Err(e);
        },
    };
    proof {
        lemma_subrange_chain(b@, start, p0, p as int);
        acc = acc + spec_str_bytes(controller@);
        assert(b@.subrange(start, p as int) == acc);
        assert(spec_strs_end(b@, p0, 5) == spec_strs_end(b@, p as int, 4));
        assert(spec_strs_end(b@, start, 13) == spec_strs_end(b@, p as int, 4));
    }
    let ghost p0 = p as int;
    let song_hash = match read_str(b, &mut p) {
        Ok(s) => s,
        Err(e) => {
            proof {
                assert(spec_strs_end(b@, p0, 4) is None);
                assert(spec_strs_end(b@, start, 13) is None);
            }
            return Err(e);
        },
    };
    proof {
        lemma_subrange_chain(b@, start, p0, p as int);
        acc = acc + spec_str_bytes(song_hash@);
        assert(b@.subrange(start, p as int) == acc);
        assert(spec_strs_end(b@, p0, 4) == spec_strs_end(b@, p as int, 3));
        assert(spec_strs_end(b@, start, 13) == spec_strs_end(b@, p as int, 3));
    }
    let ghost p0 = p as int;
    let song_name = match read_str(b, &mut p) {
        Ok(s) => s,
        Err(e) => {
            proof {
                assert(spec_strs_end(b@, p0, 3) is None);
                assert(spec_strs_end(b@, start, 13) is None);
            }
            return Err(e);
        },
    };
    proof {
        lemma_subrange_chain(b@, start, p0, p as int);
        acc = acc + spec_str_bytes(song_name@);
        assert(b@.subrange(start, p as int) == acc);
        assert(spec_strs_end(b@, p0, 3) == spec_strs_end(b@, p as int, 2));
        assert(spec_strs_end(b@, start, 13) == spec_strs_end(b@, p as int, 2));
    }
    let ghost p0 = p as int;
    let mapper = match read_str(b, &mut p) {
        Ok(s) => s,
        Err(e) => {
            proof {
                assert(spec_strs_end(b@, p0, 2) is None);
                assert(spec_strs_end(b@, start, 13) is None);
            }
            return Err(e);
        },
    };
    proof {
        lemma_subrange_chain(b@, start, p0, p as int);
        acc = acc + spec_str_bytes(mapper@);
        assert(b@.subrange(start, p as int) == acc);
        assert(spec_strs_end(b@, p0, 2) == spec_strs_end(b@, p as int, 1));
        assert(spec_strs_end(b@, start, 13) == spec_strs_end(b@, p as int, 1));
    }
    let ghost p0 = p as int;
    let difficulty = match read_str(b, &mut p) {
        Ok(s) => s,
        Err(e) => {
            proof {
                assert(spec_strs_end(b@, p0, 1) is None);
                assert(spec_strs_end(b@, start, 13) is None);
            }
            return Err(e);
        },
    };
    proof {
        lemma_subrange_chain(b@, start, p0, p as int);
        acc = acc + spec_str_bytes(difficulty@);
        assert(b@.subrange(start, p as int) == acc);
        assert(spec_strs_end(b@, p0, 1) == spec_strs_end(b@, p as int, 0));
        assert(spec_strs_end(b@, start, 13) == spec_strs_end(b@, p as int, 0));
    }
    let h = InfoStrings { version, game_version, timestamp, player_id, player_name, platform, tracking_system, hmd, controller, song_hash, song_name, mapper, difficulty };
    proof {
        reveal(spec_info_strings_bytes);
        assert(acc == spec_info_strings_bytes(h));
        assert(spec_strs_end(b@, start, 13) == Some(p as int));
    }
    *pos = p;
    Ok(h)
}

/// The thirteen leading text fields of a written header are
/// recognized where they lie.
#[verifier::rlimit(100)]
#[verifier::spinoff_prover]
pub proof fn lemma_info_strings_wire_parses(b: Seq<u8>, p: int, h: InfoStrings)
    requires
        0 <= p,
        spec_info_strings_ok(h),
        p + spec_info_strings_bytes(h).len() <= b.len(),
        b.subrange(p, p + spec_info_strings_bytes(h).len()) == spec_info_strings_bytes(h),
    ensures
        spec_strs_end(b, p, 13) == Some(p + spec_info_strings_bytes(h).len()),
{
    reveal(spec_info_strings_bytes);
    let s1 = spec_str_bytes(h.version@);
    lemma_str_bytes_len(h.version@);
    let s2 = spec_str_bytes(h.game_version@);
    lemma_str_bytes_len(h.game_version@);
    let s3 = spec_str_bytes(h.timestamp@);
    lemma_str_bytes_len(h.timestamp@);
    let s4 = spec_str_bytes(h.player_id@);
    lemma_str_bytes_len(h.player_id@);
    let s5 = spec_str_bytes(h.player_name@);
    lemma_str_bytes_len(h.player_name@);
    let s6 = spec_str_bytes(h.platform@);
    lemma_str_bytes_len(h.platform@);
    let s7 = spec_str_bytes(h.tracking_system@);
    lemma_str_bytes_len(h.tracking_system@);
    let s8 = spec_str_bytes(h.hmd@);
    lemma_str_bytes_len(h.hmd@);
    let s9 = spec_str_bytes(h.controller@);
    lemma_str_bytes_len(h.controller@);
    let s10 = spec_str_bytes(h.song_hash@);
    lemma_str_bytes_len(h.song_hash@);
    let s11 = spec_str_bytes(h.song_name@);
    lemma_str_bytes_len(h.song_name@);
    let s12 = spec_str_bytes(h.mapper@);
    lemma_str_bytes_len(h.mapper@);
    let s13 = spec_str_bytes(h.difficulty@);
    lemma_str_bytes_len(h.difficulty@);
    let pre1 = s1;
    let pre2 = pre1 + s2;
    let pre3 = pre2 + s3;
    let pre4 = pre3 + s4;
    let pre5 = pre4 + s5;
    let pre6 = pre5 + s6;
    let pre7 = pre6 + s7;
    let pre8 = pre7 + s8;
    let pre9 = pre8 + s9;
    let pre10 = pre9 + s10;
    let pre11 = pre10 + s11;
    let pre12 = pre11 + s12;
    let pre13 = pre12 + s13;
    assert(spec_info_strings_bytes(h) == pre13);
    let o0 = p;
    let o1 = o0 + s1.len();
    let o2 = o1 + s2.len();
    let o3 = o2 + s3.len();
    let o4 = o3 + s4.len();
    let o5 = o4 + s5.len();
    let o6 = o5 + s6.len();
    let o7 = o6 + s7.len();
    let o8 = o7 + s8.len();
    let o9 = o8 + s9.len();
    let o10 = o9 + s10.len();
    let o11 = o10 + s11.len();
    let o12 = o11 + s12.len();
    let o13 = o12 + s13.len();
    assert(b.subrange(o0, o13) == pre13);
    lemma_concat_peel(b, o0, pre12, s13);
    lemma_concat_peel(b, o0, pre11, s12);
    lemma_concat_peel(b, o0, pre10, s11);
    lemma_concat_peel(b, o0, pre9, s10);
    lemma_concat_peel(b, o0, pre8, s9);
    lemma_concat_peel(b, o0, pre7, s8);
    lemma_concat_peel(b, o0, pre6, s7);
    lemma_concat_peel(b, o0, pre5, s6);
    lemma_concat_peel(b, o0, pre4, s5);
    lemma_concat_peel(b, o0, pre3, s4);
    lemma_concat_peel(b, o0, pre2, s3);
    lemma_concat_peel(b, o0, pre1, s2);
    lemma_str_wire_parses(b, o0, h.version@);
    assert(spec_strs_end(b, o0, 13) == spec_strs_end(b, o1, 12));
    lemma_str_wire_parses(b, o1, h.game_version@);
    assert(spec_strs_end(b, o1, 12) == spec_strs_end(b, o2, 11));
    lemma_str_wire_parses(b, o2, h.timestamp@);
    assert(spec_strs_end(b, o2, 11) == spec_strs_end(b, o3, 10));
    lemma_str_wire_parses(b, o3, h.player_id@);
    assert(spec_strs_end(b, o3, 10) == spec_strs_end(b, o4, 9));
    lemma_str_wire_parses(b, o4, h.player_name@);
    assert(spec_strs_end(b, o4, 9) == spec_strs_end(b, o5, 8));
    lemma_str_wire_parses(b, o5, h.platform@);
    assert(spec_strs_end(b, o5, 8) == spec_strs_end(b, o6, 7));
    lemma_str_wire_parses(b, o6, h.tracking_system@);
    assert(spec_strs_end(b, o6, 7) == spec_strs_end(b, o7, 6));
    lemma_str_wire_parses(b, o7, h.hmd@);
    assert(spec_strs_end(b, o7, 6) == spec_strs_end(b, o8, 5));
    lemma_str_wire_parses(b, o8, h.controller@);
    assert(spec_strs_end(b, o8, 5) == spec_strs_end(b, o9, 4));
    lemma_str_wire_parses(b, o9, h.song_hash@);
    assert(spec_strs_end(b, o9, 4) == spec_strs_end(b, o10, 3));
    lemma_str_wire_parses(b, o10, h.song_name@);
    assert(spec_strs_end(b, o10, 3) == spec_strs_end(b, o11, 2));
    lemma_str_wire_parses(b, o11, h.mapper@);
    assert(spec_strs_end(b, o11, 2) == spec_strs_end(b, o12, 1));
    lemma_str_wire_parses(b, o12, h.difficulty@);
    assert(spec_strs_end(b, o12, 1) == spec_strs_end(b, o13, 0));
    assert(spec_strs_end(b, o13, 0) == Some(o13));
}

#[verifier::rlimit(100)]
fn write_info_strings(w: &mut Vec<u8>, info: &ReplayInfo)
    requires
        spec_info_strings_ok(
            InfoStrings {
            version: info.version,
            game_version: info.game_version,
            timestamp: info.timestamp,
            player_id: info.player_id,
            player_name: info.player_name,
            platform: info.platform,
            tracking_system: info.tracking_system,
            hmd: info.hmd,
            controller: info.controller,
            song_hash: info.song_hash,
            song_name: info.song_name,
            mapper: info.mapper,
            difficulty: info.difficulty,
        },
        ),
    ensures
        final(w)@ == old(w)@ + spec_info_strings_bytes(
            InfoStrings {
            version: info.version,
            game_version: info.game_version,
            timestamp: info.timestamp,
            player_id: info.player_id,
            player_name: info.player_name,
            platform: info.platform,
            tracking_system: info.tracking_system,
            hmd: info.hmd,
            controller: info.controller,
            song_hash: info.song_hash,
            song_name: info.song_name,
            mapper: info.mapper,
            difficulty: info.difficulty,
        },
        ),
{
    let ghost mut acc: Seq<u8> = Seq::empty();
    proof {
        assert(w@ =~= old(w)@ + acc);
    }
    write_str(w, info.version.as_str());
    proof {
        assert((old(w)@ + acc) + spec_str_bytes(info.version@) =~= old(w)@ + (acc + spec_str_bytes(
            info.version@,
        )));
        acc = acc + spec_str_bytes(info.version@);
        assert(w@ == old(w)@ + acc);
    }
    write_str(w, info.game_version.as_str());
    proof {
        assert((old(w)@ + acc) + spec_str_bytes(info.game_version@) =~= old(w)@ + (acc + spec_str_bytes(
            info.game_version@,
        )));
        acc = acc + spec_str_bytes(info.game_version@);
        assert(w@ == old(w)@ + acc);
    }
    write_str(w, info.timestamp.as_str());
    proof {
        assert((old(w)@ + acc) + spec_str_bytes(info.timestamp@) =~= old(w)@ + (acc + spec_str_bytes(
            info.timestamp@,
        )));
        acc = acc + spec_str_bytes(info.timestamp@);
        assert(w@ == old(w)@ + acc);
    }
    write_str(w, info.player_id.as_str());
    proof {
        assert((old(w)@ + acc) + spec_str_bytes(info.player_id@) =~= old(w)@ + (acc + spec_str_bytes(
            info.player_id@,
        )));
        acc = acc + spec_str_bytes(info.player_id@);
        assert(w@ == old(w)@ + acc);
    }
    write_str(w, info.player_name.as_str());
    proof {
        assert((old(w)@ + acc) + spec_str_bytes(info.player_name@) =~= old(w)@ + (acc + spec_str_bytes(
            info.player_name@,
        )));
        acc = acc + spec_str_bytes(info.player_name@);
        assert(w@ == old(w)@ + acc);
    }
    write_str(w, info.platform.as_str());
    proof {
        assert((old(w)@ + acc) + spec_str_bytes(info.platform@) =~= old(w)@ + (acc + spec_str_bytes(
            info.platform@,
        )));
        acc = acc + spec_str_bytes(info.platform@);
        assert(w@ == old(w)@ + acc);
    }
    write_str(w, info.tracking_system.as_str());
    proof {
        assert((old(w)@ + acc) + spec_str_bytes(info.tracking_system@) =~= old(w)@ + (acc + spec_str_bytes(
            info.tracking_system@,
        )));
        acc = acc + spec_str_bytes(info.tracking_system@);
        assert(w@ == old(w)@ + acc);
    }
    write_str(w, info.hmd.as_str());
    proof {
        assert((old(w)@ + acc) + spec_str_bytes(info.hmd@) =~= old(w)@ + (acc + spec_str_bytes(
            info.hmd@,
        )));
        acc = acc + spec_str_bytes(info.hmd@);
        assert(w@ == old(w)@ + acc);
    }
    write_str(w, info.controller.as_str());
    proof {
        assert((old(w)@ + acc) + spec_str_bytes(info.controller@) =~= old(w)@ + (acc + spec_str_bytes(
            info.controller@,
        )));
        acc = acc + spec_str_bytes(info.controller@);
        assert(w@ == old(w)@ + acc);
    }
    write_str(w, info.song_hash.as_str());
    proof {
        assert((old(w)@ + acc) + spec_str_bytes(info.song_hash@) =~= old(w)@ + (acc + spec_str_bytes(
            info.song_hash@,
        )));
        acc = acc + spec_str_bytes(info.song_hash@);
        assert(w@ == old(w)@ + acc);
    }
    write_str(w, info.song_name.as_str());
    proof {
        assert((old(w)@ + acc) + spec_str_bytes(info.song_name@) =~= old(w)@ + (acc + spec_str_bytes(
            info.song_name@,
        )));
        acc = acc + spec_str_bytes(info.song_name@);
        assert(w@ == old(w)@ + acc);
    }
    write_str(w, info.mapper.as_str());
    proof {
        assert((old(w)@ + acc) + spec_str_bytes(info.mapper@) =~= old(w)@ + (acc + spec_str_bytes(
            info.mapper@,
        )));
        acc = acc + spec_str_bytes(info.mapper@);
        assert(w@ == old(w)@ + acc);
    }
    write_str(w, info.difficulty.as_str());
    proof {
        assert((old(w)@ + acc) + spec_str_bytes(info.difficulty@) =~= old(w)@ + (acc + spec_str_bytes(
            info.difficulty@,
        )));
        acc = acc + spec_str_bytes(info.difficulty@);
        assert(w@ == old(w)@ + acc);
    }
    proof {
        reveal(spec_info_strings_bytes);
        assert(acc == spec_info_strings_bytes(
            InfoStrings {
            version: info.version,
            game_version: info.game_version,
            timestamp: info.timestamp,
            player_id: info.player_id,
            player_name: info.player_name,
            platform: info.platform,
            tracking_system: info.tracking_system,
            hmd: info.hmd,
            controller: info.controller,
            song_hash: info.song_hash,
            song_name: info.song_name,
            mapper: info.mapper,
            difficulty: info.difficulty,
        },
        ));
    }
}

/// The header metadata of one replay.
#[derive(Debug, Clone, PartialEq, Eq)]
pub struct ReplayInfo {
    pub version: String,
    pub game_version: String,
    pub timestamp: String,
    pub player_id: String,
    pub player_name: String,
    pub platform: String,
    pub tracking_system: String,
    pub hmd: String,
    pub controller: String,
    pub song_hash: String,
    pub song_name: String,
    pub mapper: String,
    pub difficulty: String,
    pub score: i32,
    pub mode: String,
    pub environment: String,
    pub modifiers: Vec<String>,
    pub jump_distance: RawF32,
    pub left_handed: bool,
    pub height: RawF32,
    pub start_time: RawF32,
    pub fail_time: RawF32,
    pub speed: RawF32,
}

/// The trailing fields of a replay header, in wire order.
pub struct InfoTail {
    pub score: i32,
    pub mode: String,
    pub environment: String,
    pub modifiers: Vec<String>,
    pub jump_distance: RawF32,
    pub left_handed: bool,
    pub height: RawF32,
    pub start_time: RawF32,
    pub fail_time: RawF32,
    pub speed: RawF32,
}

/// The wire form of the trailing fields, with the truth-value byte
/// given explicitly (reading accepts any nonzero byte as true).
#[verifier::opaque]
pub open spec fn spec_info_tail_bytes(t: InfoTail, lh: u8) -> Seq<u8> {
    spec_u32_le(t.score as u32) + spec_str_bytes(t.mode@) + spec_str_bytes(t.environment@)
        + spec_str_bytes(spec_join_mods(t.modifiers@))
        + spec_u32_le(t.jump_distance.bits) + seq![lh] + spec_u32_le(t.height.bits)
        + spec_u32_le(t.start_time.bits) + spec_u32_le(t.fail_time.bits) + spec_u32_le(
        t.speed.bits,
    )
}

/// Every variable-length trailing field fits its 32-bit wire length
/// prefix.
pub open spec fn spec_info_tail_ok(t: InfoTail) -> bool {
    &&& encode_utf8(t.mode@).len() < 0x80000000
    &&& encode_utf8(t.environment@).len() < 0x80000000
    &&& encode_utf8(spec_join_mods(t.modifiers@)).len() < 0x80000000
}

/// Where the trailing fields of a header starting at `p` end, when
/// they are well-formed: a 32-bit score, three text fields, then 21
/// fixed bytes.
pub open spec fn spec_info_tail_end(b: Seq<u8>, p: int) -> Option<int> {
    if 0 <= p && p + 4 <= b.len() {
        match spec_strs_end(b, p + 4, 3) {
            Some(q) => if q + 21 <= b.len() {
                Some(q + 21)
            } else {
                None
            },
            None => None,
        }
    } else {
        None
    }
}

#[verifier::rlimit(100)]
#[verifier::spinoff_prover]
fn read_info_tail(b: &Vec<u8>, pos: &mut usize) -> (r: Result<(InfoTail, Ghost<u8>), ParseError>)
    ensures
        match r {
            Ok(t) => {
                &&& *old(pos) <= *final(pos) <= b@.len()
                &&& (t.1@ != 0) == t.0.left_handed
                &&& b@.subrange(*old(pos) as int, *final(pos) as int) == spec_info_tail_bytes(
                    t.0,
                    t.1@,
                )
                &&& spec_info_tail_ok(t.0)
                &&& spec_comma_free(t.0.modifiers@)
                &&& (t.0.modifiers@.len() == 0 <==> spec_join_mods(t.0.modifiers@).len() == 0)
                &&& spec_info_tail_end(b@, *old(pos) as int) == Some(*final(pos) as int)
            },
            Err(e) => {
                &&& *final(pos) == *old(pos)
                &&& spec_info_tail_end(b@, *old(pos) as int) is None
            },
        },
{
    let ghost start = *old(pos) as int;
    let mut p = *pos;
    let ghost mut acc: Seq<u8> = Seq::empty();
    proof {
        if start <= b@.len() {
            assert(b@.subrange(start, p as int) =~= acc);
        }
    }
    let score = match read_i32(b, &mut p) {
        Ok(x) => x,
        Err(e) => return Err(e),
    };
    proof {
        acc = acc + spec_u32_le(score as u32);
        assert(b@.subrange(start, p as int) == acc);
    }
    let ghost p0 = p as int;
    let mode = match read_str(b, &mut p) {
        Ok(s) => s,
        Err(e) => {
            proof {
                assert(spec_strs_end(b@, start + 4, 3) is None);
            }
            return Err(e);
        },
    };
    proof {
        lemma_subrange_chain(b@, start, p0, p as int);
        acc = acc + spec_str_bytes(mode@);
        assert(b@.subrange(start, p as int) == acc);
        assert(spec_strs_end(b@, start + 4, 3) == spec_strs_end(b@, p as int, 2));
    }
    let ghost p0 = p as int;
    let environment = match read_str(b, &mut p) {
        Ok(s) => s,
        Err(e) => {
            proof {
                assert(spec_strs_end(b@, p0, 2) is None);
                assert(spec_strs_end(b@, start + 4, 3) is None);
            }
            return Err(e);
        },
    };
    proof {
        lemma_subrange_chain(b@, start, p0, p as int);
        acc = acc + spec_str_bytes(environment@);
        assert(b@.subrange(start, p as int) == acc);
        assert(spec_strs_end(b@, p0, 2) == spec_strs_end(b@, p as int, 1));
        assert(spec_strs_end(b@, start + 4, 3) == spec_strs_end(b@, p as int, 1));
    }
    let ghost p0 = p as int;
    let raw_mods = match read_str(b, &mut p) {
        Ok(s) => s,
        Err(e) => {
            proof {
                assert(spec_strs_end(b@, p0, 1) is None);
                assert(spec_strs_end(b@, start + 4, 3) is None);
            }
            return Err(e);
        },
    };
    let modifiers = split_modifiers(raw_mods.as_str());
    let ghost q2 = p as int;
    proof {
        lemma_subrange_chain(b@, start, p0, p as int);
        assert(spec_str_bytes(raw_mods@) == spec_str_bytes(spec_join_mods(modifiers@)));
        acc = acc + spec_str_bytes(spec_join_mods(modifiers@));
        assert(b@.subrange(start, p as int) == acc);
        assert(spec_strs_end(b@, p0, 1) == spec_strs_end(b@, p as int, 0));
        assert(spec_strs_end(b@, start + 4, 3) == Some(q2));
    }
    let ghost p0 = p as int;
    let jump_distance = match read_f32(b, &mut p) {
        Ok(x) => x,
        Err(e) => return Err(e),
    };
    proof {
        lemma_subrange_chain(b@, start, p0, p as int);
        acc = acc + spec_u32_le(jump_distance.bits);
        assert(b@.subrange(start, p as int) == acc);
    }
    let ghost lh_pos = p as int;
    let ghost p0 = p as int;
    let left_handed = match read_bool(b, &mut p) {
        Ok(x) => x,
        Err(e) => return Err(e),
    };
    proof {
        lemma_subrange_chain(b@, start, p0, p as int);
        assert(b@.subrange(p0, p as int) =~= seq![b@[lh_pos]]);
        acc = acc + seq![b@[lh_pos]];
        assert(b@.subrange(start, p as int) == acc);
    }
    let ghost p0 = p as int;
    let height = match read_f32(b, &mut p) {
        Ok(x) => x,
        Err(e) => return Err(e),
    };
    proof {
        lemma_subrange_chain(b@, start, p0, p as int);
        acc = acc + spec_u32_le(height.bits);
        assert(b@.subrange(start, p as int) == acc);
    }
    let ghost p0 = p as int;
    let start_time = match read_f32(b, &mut p) {
        Ok(x) => x,
        Err(e) => return Err(e),
    };
    proof {
        lemma_subrange_chain(b@, start, p0, p as int);
        acc = acc + spec_u32_le(start_time.bits);
        assert(b@.subrange(start, p as int) == acc);
    }
    let ghost p0 = p as int;
    let fail_time = match read_f32(b, &mut p) {
        Ok(x) => x,
        Err(e) => return Err(e),
    };
    proof {
        lemma_subrange_chain(b@, start, p0, p as int);
        acc = acc + spec_u32_le(fail_time.bits);
        assert(b@.subrange(start, p as int) == acc);
    }
    let ghost p0 = p as int;
    let speed = match read_f32(b, &mut p) {
        Ok(x) => x,
        Err(e) => return Err(e),
    };
    proof {
        lemma_subrange_chain(b@, start, p0, p as int);
        acc = acc + spec_u32_le(speed.bits);
        assert(b@.subrange(start, p as int) == acc);
    }
    let t = InfoTail {
        score,
        mode,
        environment,
        modifiers,
        jump_distance,
        left_handed,
        height,
        start_time,
        fail_time,
        speed,
    };
    proof {
        reveal(spec_info_tail_bytes);
        let lh = b@[lh_pos];
        assert(acc == spec_info_tail_bytes(t, lh));
        assert((lh != 0) == t.left_handed && b@.subrange(start, p as int)
            == spec_info_tail_bytes(t, lh));
        assert(p as int == q2 + 21);
        assert(spec_info_tail_end(b@, start) == Some(p as int));
    }
    *pos = p;
    Ok((t, Ghost(b@[lh_pos])))
}

#[verifier::rlimit(100)]
fn write_info_tail(w: &mut Vec<u8>, info: &ReplayInfo)
    requires
        spec_info_tail_ok(
            InfoTail {
            score: info.score,
            mode: info.mode,
            environment: info.environment,
            modifiers: info.modifiers,
            jump_distance: info.jump_distance,
            left_handed: info.left_handed,
            height: info.height,
            start_time: info.start_time,
            fail_time: info.fail_time,
            speed: info.speed,
        },
        ),
    ensures
        final(w)@ == old(w)@ + spec_info_tail_bytes(
            InfoTail {
            score: info.score,
            mode: info.mode,
            environment: info.environment,
            modifiers: info.modifiers,
            jump_distance: info.jump_distance,
            left_handed: info.left_handed,
            height: info.height,
            start_time: info.start_time,
            fail_time: info.fail_time,
            speed: info.speed,
        },
            if info.left_handed {
                1u8
            } else {
                0u8
            },
        ),
{
    let ghost mut acc: Seq<u8> = Seq::empty();
    proof {
        assert(w@ =~= old(w)@ + acc);
    }
    write_u32(w, info.score as u32);
    proof {
        assert((old(w)@ + acc) + spec_u32_le(info.score as u32) =~= old(w)@ + (acc + spec_u32_le(
            info.score as u32,
        )));
        acc = acc + spec_u32_le(info.score as u32);
        assert(w@ == old(w)@ + acc);
    }
    write_str(w, info.mode.as_str());
    proof {
        assert((old(w)@ + acc) + spec_str_bytes(info.mode@) =~= old(w)@ + (acc + spec_str_bytes(
            info.mode@,
        )));
        acc = acc + spec_str_bytes(info.mode@);
        assert(w@ == old(w)@ + acc);
    }
    write_str(w, info.environment.as_str());
    proof {
        assert((old(w)@ + acc) + spec_str_bytes(info.environment@) =~= old(w)@ + (acc
            + spec_str_bytes(info.environment@)));
        acc = acc + spec_str_bytes(info.environment@);
        assert(w@ == old(w)@ + acc);
    }
    let mods = join_modifiers(&info.modifiers);
    write_str(w, mods.as_str());
    proof {
        assert((old(w)@ + acc) + spec_str_bytes(spec_join_mods(info.modifiers@)) =~= old(w)@ + (acc
            + spec_str_bytes(spec_join_mods(info.modifiers@))));
        acc = acc + spec_str_bytes(spec_join_mods(info.modifiers@));
        assert(w@ == old(w)@ + acc);
    }
    write_u32(w, info.jump_distance.bits);
    proof {
        assert((old(w)@ + acc) + spec_u32_le(info.jump_distance.bits) =~= old(w)@ + (acc
            + spec_u32_le(info.jump_distance.bits)));
        acc = acc + spec_u32_le(info.jump_distance.bits);
        assert(w@ == old(w)@ + acc);
    }
    let lh_byte: u8 = if info.left_handed {
        1
    } else {
        0
    };
    w.push(lh_byte);
    proof {
        assert(w@ =~= old(w)@ + (acc + seq![lh_byte]));
        acc = acc + seq![lh_byte];
        assert(w@ == old(w)@ + acc);
    }
    write_u32(w, info.height.bits);
    proof {
        assert((old(w)@ + acc) + spec_u32_le(info.height.bits) =~= old(w)@ + (acc + spec_u32_le(
            info.height.bits,
        )));
        acc = acc + spec_u32_le(info.height.bits);
        assert(w@ == old(w)@ + acc);
    }
    write_u32(w, info.start_time.bits);
    proof {
        assert((old(w)@ + acc) + spec_u32_le(info.start_time.bits) =~= old(w)@ + (acc + spec_u32_le(
            info.start_time.bits,
        )));
        acc = acc + spec_u32_le(info.start_time.bits);
        assert(w@ == old(w)@ + acc);
    }
    write_u32(w, info.fail_time.bits);
    proof {
        assert((old(w)@ + acc) + spec_u32_le(info.fail_time.bits) =~= old(w)@ + (acc + spec_u32_le(
            info.fail_time.bits,
        )));
        acc = acc + spec_u32_le(info.fail_time.bits);
        assert(w@ == old(w)@ + acc);
    }
    write_u32(w, info.speed.bits);
    proof {
        assert((old(w)@ + acc) + spec_u32_le(info.speed.bits) =~= old(w)@ + (acc + spec_u32_le(
            info.speed.bits,
        )));
        acc = acc + spec_u32_le(info.speed.bits);
        assert(w@ == old(w)@ + acc);
        reveal(spec_info_tail_bytes);
        assert(acc == spec_info_tail_bytes(
            InfoTail {
            score: info.score,
            mode: info.mode,
            environment: info.environment,
            modifiers: info.modifiers,
            jump_distance: info.jump_distance,
            left_handed: info.left_handed,
            height: info.height,
            start_time: info.start_time,
            fail_time: info.fail_time,
            speed: info.speed,
        },
            lh_byte,
        ));
    }
}

/// The trailing fields of a written header are recognized where
/// they lie.
#[verifier::rlimit(100)]
#[verifier::spinoff_prover]
pub proof fn lemma_info_tail_wire_parses(b: Seq<u8>, p: int, t: InfoTail, lh: u8)
    requires
        0 <= p,
        spec_info_tail_ok(t),
        p + spec_info_tail_bytes(t, lh).len() <= b.len(),
        b.subrange(p, p + spec_info_tail_bytes(t, lh).len()) == spec_info_tail_bytes(t, lh),
    ensures
        spec_info_tail_end(b, p) == Some(p + spec_info_tail_bytes(t, lh).len()),
{
    reveal(spec_info_tail_bytes);
    reveal(spec_u32_le);
    let s1 = spec_u32_le(t.score as u32);
    let s2 = spec_str_bytes(t.mode@);
    let s3 = spec_str_bytes(t.environment@);
    let s4 = spec_str_bytes(spec_join_mods(t.modifiers@));
    let s5 = spec_u32_le(t.jump_distance.bits);
    let s6 = seq![lh];
    let s7 = spec_u32_le(t.height.bits);
    let s8 = spec_u32_le(t.start_time.bits);
    let s9 = spec_u32_le(t.fail_time.bits);
    let s10 = spec_u32_le(t.speed.bits);
    lemma_str_bytes_len(t.mode@);
    lemma_str_bytes_len(t.environment@);
    lemma_str_bytes_len(spec_join_mods(t.modifiers@));
    let pre1 = s1;
    let pre2 = pre1 + s2;
    let pre3 = pre2 + s3;
    let pre4 = pre3 + s4;
    let pre5 = pre4 + s5;
    let pre6 = pre5 + s6;
    let pre7 = pre6 + s7;
    let pre8 = pre7 + s8;
    let pre9 = pre8 + s9;
    let pre10 = pre9 + s10;
    assert(spec_info_tail_bytes(t, lh) == pre10);
    let o0 = p;
    let o1 = o0 + s1.len();
    let o2 = o1 + s2.len();
    let o3 = o2 + s3.len();
    let o4 = o3 + s4.len();
    assert(b.subrange(o0, p + pre10.len() as int) == pre10);
    lemma_concat_peel(b, o0, pre9, s10);
    lemma_concat_peel(b, o0, pre8, s9);
    lemma_concat_peel(b, o0, pre7, s8);
    lemma_concat_peel(b, o0, pre6, s7);
    lemma_concat_peel(b, o0, pre5, s6);
    lemma_concat_peel(b, o0, pre4, s5);
    lemma_concat_peel(b, o0, pre3, s4);
    lemma_concat_peel(b, o0, pre2, s3);
    lemma_concat_peel(b, o0, pre1, s2);
    lemma_str_wire_parses(b, o1, t.mode@);
    lemma_str_wire_parses(b, o2, t.environment@);
    lemma_str_wire_parses(b, o3, spec_join_mods(t.modifiers@));
    assert(spec_strs_end(b, o1, 3) == spec_strs_end(b, o2, 2));
    assert(spec_strs_end(b, o2, 2) == spec_strs_end(b, o3, 1));
    assert(spec_strs_end(b, o3, 1) == spec_strs_end(b, o4, 0));
    assert(spec_strs_end(b, o1, 3) == Some(o4));
    assert(p + spec_info_tail_bytes(t, lh).len() == o4 + 21);
}

/// A tail wire form determines the trailing fields: the score, the
/// text fields, the raw floating-point patterns and the truth-value
/// byte agree between two tails with the same wire form, and the
/// modifier lists agree element by element whenever both are
/// comma-free and empty exactly when their joins are empty.
#[verifier::rlimit(100)]
#[verifier::spinoff_prover]
pub proof fn lemma_info_tail_bytes_determined(t1: InfoTail, lh1: u8, t2: InfoTail, lh2: u8)
    requires
        spec_info_tail_ok(t1),
        spec_info_tail_ok(t2),
        spec_comma_free(t1.modifiers@),
        spec_comma_free(t2.modifiers@),
        t1.modifiers@.len() == 0 <==> spec_join_mods(t1.modifiers@).len() == 0,
        t2.modifiers@.len() == 0 <==> spec_join_mods(t2.modifiers@).len() == 0,
        spec_info_tail_bytes(t1, lh1) == spec_info_tail_bytes(t2, lh2),
    ensures
        t1.score == t2.score,
        t1.mode@ == t2.mode@,
        t1.environment@ == t2.environment@,
        t1.modifiers@.len() == t2.modifiers@.len(),
        forall|i: int|
            0 <= i < t1.modifiers@.len() ==> (#[trigger] t1.modifiers@[i])@
                == t2.modifiers@[i]@,
        t1.jump_distance == t2.jump_distance,
        lh1 == lh2,
        t1.height == t2.height,
        t1.start_time == t2.start_time,
        t1.fail_time == t2.fail_time,
        t1.speed == t2.speed,
{
    reveal(spec_info_tail_bytes);
    reveal(spec_u32_le);
    let w = spec_info_tail_bytes(t1, lh1);
    let s1a = spec_u32_le(t1.score as u32);
    let s1b = spec_u32_le(t2.score as u32);
    let s2a = spec_str_bytes(t1.mode@);
    let s2b = spec_str_bytes(t2.mode@);
    let s3a = spec_str_bytes(t1.environment@);
    let s3b = spec_str_bytes(t2.environment@);
    let s4a = spec_str_bytes(spec_join_mods(t1.modifiers@));
    let s4b = spec_str_bytes(spec_join_mods(t2.modifiers@));
    let s5a = spec_u32_le(t1.jump_distance.bits);
    let s5b = spec_u32_le(t2.jump_distance.bits);
    let s6a = seq![lh1];
    let s6b = seq![lh2];
    let s7a = spec_u32_le(t1.height.bits);
    let s7b = spec_u32_le(t2.height.bits);
    let s8a = spec_u32_le(t1.start_time.bits);
    let s8b = spec_u32_le(t2.start_time.bits);
    let s9a = spec_u32_le(t1.fail_time.bits);
    let s9b = spec_u32_le(t2.fail_time.bits);
    let s10a = spec_u32_le(t1.speed.bits);
    let s10b = spec_u32_le(t2.speed.bits);
    let pre1a = s1a;
    let pre1b = s1b;
    let pre2a = pre1a + s2a;
    let pre2b = pre1b + s2b;
    let pre3a = pre2a + s3a;
    let pre3b = pre2b + s3b;
    let pre4a = pre3a + s4a;
    let pre4b = pre3b + s4b;
    let pre5a = pre4a + s5a;
    let pre5b = pre4b + s5b;
    let pre6a = pre5a + s6a;
    let pre6b = pre5b + s6b;
    let pre7a = pre6a + s7a;
    let pre7b = pre6b + s7b;
    let pre8a = pre7a + s8a;
    let pre8b = pre7b + s8b;
    let pre9a = pre8a + s9a;
    let pre9b = pre8b + s9b;
    let pre10a = pre9a + s10a;
    let pre10b = pre9b + s10b;
    assert(w == pre10a);
    assert(w == pre10b);
    assert(w.subrange(0, w.len() as int) =~= w);
    lemma_concat_peel(w, 0, pre9a, s10a);
    lemma_concat_peel(w, 0, pre9b, s10b);
    lemma_concat_peel(w, 0, pre8a, s9a);
    lemma_concat_peel(w, 0, pre8b, s9b);
    lemma_concat_peel(w, 0, pre7a, s8a);
    lemma_concat_peel(w, 0, pre7b, s8b);
    lemma_concat_peel(w, 0, pre6a, s7a);
    lemma_concat_peel(w, 0, pre6b, s7b);
    lemma_concat_peel(w, 0, pre5a, s6a);
    lemma_concat_peel(w, 0, pre5b, s6b);
    lemma_concat_peel(w, 0, pre4a, s5a);
    lemma_concat_peel(w, 0, pre4b, s5b);
    lemma_concat_peel(w, 0, pre3a, s4a);
    lemma_concat_peel(w, 0, pre3b, s4b);
    lemma_concat_peel(w, 0, pre2a, s3a);
    lemma_concat_peel(w, 0, pre2b, s3b);
    lemma_concat_peel(w, 0, pre1a, s2a);
    lemma_concat_peel(w, 0, pre1b, s2b);
    let oa1 = s1a.len() as int;
    let ob1 = s1b.len() as int;
    let oa2 = oa1 + s2a.len();
    let ob2 = ob1 + s2b.len();
    let oa3 = oa2 + s3a.len();
    let ob3 = ob2 + s3b.len();
    let oa4 = oa3 + s4a.len();
    let ob4 = ob3 + s4b.len();
    let oa5 = oa4 + s5a.len();
    let ob5 = ob4 + s5b.len();
    let oa6 = oa5 + s6a.len();
    let ob6 = ob5 + s6b.len();
    let oa7 = oa6 + s7a.len();
    let ob7 = ob6 + s7b.len();
    let oa8 = oa7 + s8a.len();
    let ob8 = ob7 + s8b.len();
    let oa9 = oa8 + s9a.len();
    let ob9 = ob8 + s9b.len();
    let oa10 = oa9 + s10a.len();
    let ob10 = ob9 + s10b.len();
    assert(w.subrange(0, 4) == s1a);
    assert(w.subrange(0, 4) == s1b);
    lemma_u32_le_injective(t1.score as u32, t2.score as u32);
    assert(t1.score == t2.score) by {
        let x1 = t1.score;
        let x2 = t2.score;
        assert(x1 == x2) by (bit_vector)
            requires
                x1 as u32 == x2 as u32,
        ;
    }
    lemma_str_bytes_len(t1.mode@);
    lemma_str_bytes_len(t2.mode@);
    lemma_str_bytes_len(t1.environment@);
    lemma_str_bytes_len(t2.environment@);
    lemma_str_bytes_len(spec_join_mods(t1.modifiers@));
    lemma_str_bytes_len(spec_join_mods(t2.modifiers@));
    lemma_subrange_chain(w, 4, oa2, w.len() as int);
    lemma_subrange_chain(w, 4, ob2, w.len() as int);
    lemma_str_bytes_prefix(
        t1.mode@,
        t2.mode@,
        w.subrange(oa2, w.len() as int),
        w.subrange(ob2, w.len() as int),
    );
    assert(oa2 == ob2);
    lemma_subrange_chain(w, oa2, oa3, w.len() as int);
    lemma_subrange_chain(w, ob2, ob3, w.len() as int);
    lemma_str_bytes_prefix(
        t1.environment@,
        t2.environment@,
        w.subrange(oa3, w.len() as int),
        w.subrange(ob3, w.len() as int),
    );
    assert(oa3 == ob3);
    lemma_subrange_chain(w, oa3, oa4, w.len() as int);
    lemma_subrange_chain(w, ob3, ob4, w.len() as int);
    lemma_str_bytes_prefix(
        spec_join_mods(t1.modifiers@),
        spec_join_mods(t2.modifiers@),
        w.subrange(oa4, w.len() as int),
        w.subrange(ob4, w.len() as int),
    );
    assert(oa4 == ob4);
    lemma_join_mods_injective(t1.modifiers@, t2.modifiers@);
    assert(w.subrange(oa4, oa5) == s5a);
    assert(w.subrange(ob4, ob5) == s5b);
    lemma_u32_le_injective(t1.jump_distance.bits, t2.jump_distance.bits);
    assert(oa5 == ob5);
    assert(w.subrange(oa5, oa6) == s6a);
    assert(w.subrange(ob5, ob6) == s6b);
    assert(lh1 == lh2) by {
        assert(s6a[0] == lh1 && s6b[0] == lh2);
    }
    assert(oa6 == ob6);
    assert(w.subrange(oa6, oa7) == s7a);
    assert(w.subrange(ob6, ob7) == s7b);
    lemma_u32_le_injective(t1.height.bits, t2.height.bits);
    assert(oa7 == ob7);
    assert(w.subrange(oa7, oa8) == s8a);
    assert(w.subrange(ob7, ob8) == s8b);
    lemma_u32_le_injective(t1.start_time.bits, t2.start_time.bits);
    assert(oa8 == ob8);
    assert(w.subrange(oa8, oa9) == s9a);
    assert(w.subrange(ob8, ob9) == s9b);
    lemma_u32_le_injective(t1.fail_time.bits, t2.fail_time.bits);
    assert(oa9 == ob9);
    assert(w.subrange(oa9, oa10) == s10a);
    assert(w.subrange(ob9, ob10) == s10b);
    lemma_u32_le_injective(t1.speed.bits, t2.speed.bits);
}

/// Every variable-length field of this header fits its 32-bit wire
/// length prefix.
pub open spec fn spec_info_lengths_ok(info: ReplayInfo) -> bool {
    &&& spec_info_strings_ok(
        InfoStrings {
            version: info.version,
            game_version: info.game_version,
            timestamp: info.timestamp,
            player_id: info.player_id,
            player_name: info.player_name,
            platform: info.platform,
            tracking_system: info.tracking_system,
            hmd: info.hmd,
            controller: info.controller,
            song_hash: info.song_hash,
            song_name: info.song_name,
            mapper: info.mapper,
            difficulty: info.difficulty,
        },
    )
    &&& spec_info_tail_ok(
        InfoTail {
            score: info.score,
            mode: info.mode,
            environment: info.environment,
            modifiers: info.modifiers,
            jump_distance: info.jump_distance,
            left_handed: info.left_handed,
            height: info.height,
            start_time: info.start_time,
            fail_time: info.fail_time,
            speed: info.speed,
        },
    )
}

/// The wire form of a header, with the truth-value byte given
/// explicitly (reading accepts any nonzero byte as true).
pub open spec fn spec_info_bytes_with(info: ReplayInfo, lh: u8) -> Seq<u8> {
    seq![0u8] + spec_info_strings_bytes(
        InfoStrings {
            version: info.version,
            game_version: info.game_version,
            timestamp: info.timestamp,
            player_id: info.player_id,
            player_name: info.player_name,
            platform: info.platform,
            tracking_system: info.tracking_system,
            hmd: info.hmd,
            controller: info.controller,
            song_hash: info.song_hash,
            song_name: info.song_name,
            mapper: info.mapper,
            difficulty: info.difficulty,
        },
    ) + spec_info_tail_bytes(
        InfoTail {
            score: info.score,
            mode: info.mode,
            environment: info.environment,
            modifiers: info.modifiers,
            jump_distance: info.jump_distance,
            left_handed: info.left_handed,
            height: info.height,
            start_time: info.start_time,
            fail_time: info.fail_time,
            speed: info.speed,
        },
        lh,
    )
}

/// Where a whole header starting at `p` ends, when it is
/// well-formed: a zero marker byte, thirteen text fields, and the
/// trailing fields.
pub open spec fn spec_info_end(b: Seq<u8>, p: int) -> Option<int> {
    if 0 <= p && p + 1 <= b.len() && b[p] == 0 {
        match spec_strs_end(b, p + 1, 13) {
            Some(q) => spec_info_tail_end(b, q),
            None => None,
        }
    } else {
        None
    }
}

/// A written header is recognized where it lies: the recognizer
/// accepts every header wire form, so reading back what was written
/// cannot fail.
pub proof fn lemma_info_wire_parses(b: Seq<u8>, p: int, info: ReplayInfo, lh: u8)
    requires
        0 <= p,
        spec_info_lengths_ok(info),
        p + spec_info_bytes_with(info, lh).len() <= b.len(),
        b.subrange(p, p + spec_info_bytes_with(info, lh).len()) == spec_info_bytes_with(info, lh),
    ensures
        spec_info_end(b, p) == Some(p + spec_info_bytes_with(info, lh).len()),
{
    let h = InfoStrings {
        version: info.version,
        game_version: info.game_version,
        timestamp: info.timestamp,
        player_id: info.player_id,
        player_name: info.player_name,
        platform: info.platform,
        tracking_system: info.tracking_system,
        hmd: info.hmd,
        controller: info.controller,
        song_hash: info.song_hash,
        song_name: info.song_name,
        mapper: info.mapper,
        difficulty: info.difficulty,
    };
    let t = InfoTail {
        score: info.score,
        mode: info.mode,
        environment: info.environment,
        modifiers: info.modifiers,
        jump_distance: info.jump_distance,
        left_handed: info.left_handed,
        height: info.height,
        start_time: info.start_time,
        fail_time: info.fail_time,
        speed: info.speed,
    };
    let s1 = seq![0u8];
    let s2 = spec_info_strings_bytes(h);
    let s3 = spec_info_tail_bytes(t, lh);
    let pre1 = s1;
    let pre2 = pre1 + s2;
    let pre3 = pre2 + s3;
    assert(spec_info_bytes_with(info, lh) == pre3);
    let o0 = p;
    assert(b.subrange(o0, p + pre3.len() as int) == pre3);
    lemma_concat_peel(b, o0, pre2, s3);
    lemma_concat_peel(b, o0, pre1, s2);
    assert(b[p] == 0) by {
        assert(b.subrange(o0, o0 + 1)[0] == b[p]);
    }
    lemma_info_strings_wire_parses(b, p + 1, h);
    lemma_info_tail_wire_parses(b, p + 1 + s2.len(), t, lh);
}

/// The wire form of a run of length-prefixed strings, first string
/// first.
pub open spec fn spec_strs_bytes_list(vs: Seq<Seq<char>>) -> Seq<u8>
    decreases vs.len(),
{
    if vs.len() == 0 {
        Seq::empty()
    } else {
        spec_str_bytes(vs[0]) + spec_strs_bytes_list(vs.drop_first())
    }
}

/// A run of length-prefixed strings is self-delimiting: when two
/// equally long runs start two equal byte sequences, the strings and
/// the remainders agree.
pub proof fn lemma_strs_list_prefix(vs1: Seq<Seq<char>>, vs2: Seq<Seq<char>>, x: Seq<u8>, y: Seq<u8>)
    requires
        vs1.len() == vs2.len(),
        forall|i: int| 0 <= i < vs1.len() ==> encode_utf8(#[trigger] vs1[i]).len() < 0x80000000,
        forall|i: int| 0 <= i < vs2.len() ==> encode_utf8(#[trigger] vs2[i]).len() < 0x80000000,
        spec_strs_bytes_list(vs1) + x == spec_strs_bytes_list(vs2) + y,
    ensures
        forall|i: int| 0 <= i < vs1.len() ==> #[trigger] vs1[i] == vs2[i],
        x == y,
    decreases vs1.len(),
{
    if vs1.len() == 0 {
        assert(spec_strs_bytes_list(vs1) + x =~= x);
        assert(spec_strs_bytes_list(vs2) + y =~= y);
    } else {
        let r1 = spec_strs_bytes_list(vs1.drop_first());
        let r2 = spec_strs_bytes_list(vs2.drop_first());
        assert((spec_str_bytes(vs1[0]) + r1) + x =~= spec_str_bytes(vs1[0]) + (r1 + x));
        assert((spec_str_bytes(vs2[0]) + r2) + y =~= spec_str_bytes(vs2[0]) + (r2 + y));
        lemma_str_bytes_prefix(vs1[0], vs2[0], r1 + x, r2 + y);
        assert forall|i: int| 0 <= i < vs1.drop_first().len() implies encode_utf8(
            #[trigger] vs1.drop_first()[i],
        ).len() < 0x80000000 by {
            assert(vs1.drop_first()[i] == vs1[i + 1]);
        }
        assert forall|i: int| 0 <= i < vs2.drop_first().len() implies encode_utf8(
            #[trigger] vs2.drop_first()[i],
        ).len() < 0x80000000 by {
            assert(vs2.drop_first()[i] == vs2[i + 1]);
        }
        lemma_strs_list_prefix(vs1.drop_first(), vs2.drop_first(), x, y);
        assert forall|i: int| 0 <= i < vs1.len() implies #[trigger] vs1[i] == vs2[i] by {
            if i > 0 {
                assert(vs1.drop_first()[i - 1] == vs1[i]);
                assert(vs2.drop_first()[i - 1] == vs2[i]);
            }
        }
    }
}

/// The thirteen leading text fields of a header, seen as one run of
/// length-prefixed strings.
#[verifier::rlimit(100)]
#[verifier::spinoff_prover]
pub proof fn lemma_info_strings_as_list(h: InfoStrings)
    ensures
        spec_info_strings_bytes(h) == spec_strs_bytes_list(
            seq![
                h.version@,
                h.game_version@,
                h.timestamp@,
                h.player_id@,
                h.player_name@,
                h.platform@,
                h.tracking_system@,
                h.hmd@,
                h.controller@,
                h.song_hash@,
                h.song_name@,
                h.mapper@,
                h.difficulty@,
            ],
        ),
{
    reveal(spec_info_strings_bytes);
    reveal_with_fuel(spec_strs_bytes_list, 2);
    let vs = seq![
        h.version@,
        h.game_version@,
        h.timestamp@,
        h.player_id@,
        h.player_name@,
        h.platform@,
        h.tracking_system@,
        h.hmd@,
        h.controller@,
        h.song_hash@,
        h.song_name@,
        h.mapper@,
        h.difficulty@,
    ];
    let a1 = spec_str_bytes(h.version@);
    let a2 = spec_str_bytes(h.game_version@);
    let a3 = spec_str_bytes(h.timestamp@);
    let a4 = spec_str_bytes(h.player_id@);
    let a5 = spec_str_bytes(h.player_name@);
    let a6 = spec_str_bytes(h.platform@);
    let a7 = spec_str_bytes(h.tracking_system@);
    let a8 = spec_str_bytes(h.hmd@);
    let a9 = spec_str_bytes(h.controller@);
    let a10 = spec_str_bytes(h.song_hash@);
    let a11 = spec_str_bytes(h.song_name@);
    let a12 = spec_str_bytes(h.mapper@);
    let a13 = spec_str_bytes(h.difficulty@);
    let suffix1 = seq![h.difficulty@];
    let suffix2 = seq![h.mapper@, h.difficulty@];
    let suffix3 = seq![h.song_name@, h.mapper@, h.difficulty@];
    let suffix4 = seq![h.song_hash@, h.song_name@, h.mapper@, h.difficulty@];
    let suffix5 = seq![h.controller@, h.song_hash@, h.song_name@, h.mapper@, h.difficulty@];
    let suffix6 = seq![h.hmd@, h.controller@, h.song_hash@, h.song_name@, h.mapper@, h.difficulty@];
    let suffix7 = seq![h.tracking_system@, h.hmd@, h.controller@, h.song_hash@, h.song_name@, h.mapper@, h.difficulty@];
    let suffix8 = seq![h.platform@, h.tracking_system@, h.hmd@, h.controller@, h.song_hash@, h.song_name@, h.mapper@, h.difficulty@];
    let suffix9 = seq![h.player_name@, h.platform@, h.tracking_system@, h.hmd@, h.controller@, h.song_hash@, h.song_name@, h.mapper@, h.difficulty@];
    let suffix10 = seq![h.player_id@, h.player_name@, h.platform@, h.tracking_system@, h.hmd@, h.controller@, h.song_hash@, h.song_name@, h.mapper@, h.difficulty@];
    let suffix11 = seq![h.timestamp@, h.player_id@, h.player_name@, h.platform@, h.tracking_system@, h.hmd@, h.controller@, h.song_hash@, h.song_name@, h.mapper@, h.difficulty@];
    let suffix12 = seq![h.game_version@, h.timestamp@, h.player_id@, h.player_name@, h.platform@, h.tracking_system@, h.hmd@, h.controller@, h.song_hash@, h.song_name@, h.mapper@, h.difficulty@];
    let suffix13 = seq![h.version@, h.game_version@, h.timestamp@, h.player_id@, h.player_name@, h.platform@, h.tracking_system@, h.hmd@, h.controller@, h.song_hash@, h.song_name@, h.mapper@, h.difficulty@];
    let r13 = a13;
    let r12 = a12 + r13;
    let r11 = a11 + r12;
    let r10 = a10 + r11;
    let r9 = a9 + r10;
    let r8 = a8 + r9;
    let r7 = a7 + r8;
    let r6 = a6 + r7;
    let r5 = a5 + r6;
    let r4 = a4 + r5;
    let r3 = a3 + r4;
    let r2 = a2 + r3;
    let r1 = a1 + r2;
    assert(suffix1.drop_first() =~= Seq::<Seq<char>>::empty());
    assert(suffix1[0] == h.difficulty@);
    assert(spec_strs_bytes_list(suffix1.drop_first()) =~= Seq::<u8>::empty());
    assert(spec_strs_bytes_list(suffix1) =~= r13);
    assert(suffix2.drop_first() =~= suffix1);
    assert(spec_strs_bytes_list(suffix2) == a12 + spec_strs_bytes_list(suffix1));
    assert(suffix3.drop_first() =~= suffix2);
    assert(spec_strs_bytes_list(suffix3) == a11 + spec_strs_bytes_list(suffix2));
    assert(suffix4.drop_first() =~= suffix3);
    assert(spec_strs_bytes_list(suffix4) == a10 + spec_strs_bytes_list(suffix3));
    assert(suffix5.drop_first() =~= suffix4);
    assert(spec_strs_bytes_list(suffix5) == a9 + spec_strs_bytes_list(suffix4));
    assert(suffix6.drop_first() =~= suffix5);
    assert(spec_strs_bytes_list(suffix6) == a8 + spec_strs_bytes_list(suffix5));
    assert(suffix7.drop_first() =~= suffix6);
    assert(spec_strs_bytes_list(suffix7) == a7 + spec_strs_bytes_list(suffix6));
    assert(suffix8.drop_first() =~= suffix7);
    assert(spec_strs_bytes_list(suffix8) == a6 + spec_strs_bytes_list(suffix7));
    assert(suffix9.drop_first() =~= suffix8);
    assert(spec_strs_bytes_list(suffix9) == a5 + spec_strs_bytes_list(suffix8));
    assert(suffix10.drop_first() =~= suffix9);
    assert(spec_strs_bytes_list(suffix10) == a4 + spec_strs_bytes_list(suffix9));
    assert(suffix11.drop_first() =~= suffix10);
    assert(spec_strs_bytes_list(suffix11) == a3 + spec_strs_bytes_list(suffix10));
    assert(suffix12.drop_first() =~= suffix11);
    assert(spec_strs_bytes_list(suffix12) == a2 + spec_strs_bytes_list(suffix11));
    assert(suffix13.drop_first() =~= suffix12);
    assert(spec_strs_bytes_list(suffix13) == a1 + spec_strs_bytes_list(suffix12));
    assert(vs =~= suffix13);
    let l1 = a1;
    let l2 = l1 + a2;
    let l3 = l2 + a3;
    let l4 = l3 + a4;
    let l5 = l4 + a5;
    let l6 = l5 + a6;
    let l7 = l6 + a7;
    let l8 = l7 + a8;
    let l9 = l8 + a9;
    let l10 = l9 + a10;
    let l11 = l10 + a11;
    let l12 = l11 + a12;
    let l13 = l12 + a13;
    assert(spec_info_strings_bytes(h) == l13);
    assert(l13 =~= l12 + r13);
    assert(l12 + r13 =~= l11 + r12);
    assert(l11 + r12 =~= l10 + r11);
    assert(l10 + r11 =~= l9 + r10);
    assert(l9 + r10 =~= l8 + r9);
    assert(l8 + r9 =~= l7 + r8);
    assert(l7 + r8 =~= l6 + r7);
    assert(l6 + r7 =~= l5 + r6);
    assert(l5 + r6 =~= l4 + r5);
    assert(l4 + r5 =~= l3 + r4);
    assert(l3 + r4 =~= l2 + r3);
    assert(l2 + r3 =~= l1 + r2);
    assert(l1 + r2 =~= r1);
    assert(spec_strs_bytes_list(suffix13) == r1);
}

/// A header wire form determines the header: every text field, the
/// score, the raw floating-point patterns and the truth-value byte
/// agree between two headers with the same wire form, and the
/// modifier lists agree element by element whenever both are
/// comma-free and empty exactly when their joins are empty.  This is
/// the faithfulness half of the write-and-read round trip.
#[verifier::rlimit(100)]
#[verifier::spinoff_prover]
pub proof fn lemma_info_bytes_determined(info1: ReplayInfo, lh1: u8, info2: ReplayInfo, lh2: u8)
    requires
        spec_info_lengths_ok(info1),
        spec_info_lengths_ok(info2),
        spec_comma_free(info1.modifiers@),
        spec_comma_free(info2.modifiers@),
        info1.modifiers@.len() == 0 <==> spec_join_mods(info1.modifiers@).len() == 0,
        info2.modifiers@.len() == 0 <==> spec_join_mods(info2.modifiers@).len() == 0,
        spec_info_bytes_with(info1, lh1) == spec_info_bytes_with(info2, lh2),
    ensures
        info1.version@ == info2.version@,
        info1.game_version@ == info2.game_version@,
        info1.timestamp@ == info2.timestamp@,
        info1.player_id@ == info2.player_id@,
        info1.player_name@ == info2.player_name@,
        info1.platform@ == info2.platform@,
        info1.tracking_system@ == info2.tracking_system@,
        info1.hmd@ == info2.hmd@,
        info1.controller@ == info2.controller@,
        info1.song_hash@ == info2.song_hash@,
        info1.song_name@ == info2.song_name@,
        info1.mapper@ == info2.mapper@,
        info1.difficulty@ == info2.difficulty@,
        info1.score == info2.score,
        info1.mode@ == info2.mode@,
        info1.environment@ == info2.environment@,
        info1.modifiers@.len() == info2.modifiers@.len(),
        forall|i: int|
            0 <= i < info1.modifiers@.len() ==> (#[trigger] info1.modifiers@[i])@
                == info2.modifiers@[i]@,
        info1.jump_distance == info2.jump_distance,
        lh1 == lh2,
        info1.height == info2.height,
        info1.start_time == info2.start_time,
        info1.fail_time == info2.fail_time,
        info1.speed == info2.speed,
{
    let ha = InfoStrings {
        version: info1.version,
        game_version: info1.game_version,
        timestamp: info1.timestamp,
        player_id: info1.player_id,
        player_name: info1.player_name,
        platform: info1.platform,
        tracking_system: info1.tracking_system,
        hmd: info1.hmd,
        controller: info1.controller,
        song_hash: info1.song_hash,
        song_name: info1.song_name,
        mapper: info1.mapper,
        difficulty: info1.difficulty,
    };
    let hb = InfoStrings {
        version: info2.version,
        game_version: info2.game_version,
        timestamp: info2.timestamp,
        player_id: info2.player_id,
        player_name: info2.player_name,
        platform: info2.platform,
        tracking_system: info2.tracking_system,
        hmd: info2.hmd,
        controller: info2.controller,
        song_hash: info2.song_hash,
        song_name: info2.song_name,
        mapper: info2.mapper,
        difficulty: info2.difficulty,
    };
    let ta = InfoTail {
        score: info1.score,
        mode: info1.mode,
        environment: info1.environment,
        modifiers: info1.modifiers,
        jump_distance: info1.jump_distance,
        left_handed: info1.left_handed,
        height: info1.height,
        start_time: info1.start_time,
        fail_time: info1.fail_time,
        speed: info1.speed,
    };
    let tb = InfoTail {
        score: info2.score,
        mode: info2.mode,
        environment: info2.environment,
        modifiers: info2.modifiers,
        jump_distance: info2.jump_distance,
        left_handed: info2.left_handed,
        height: info2.height,
        start_time: info2.start_time,
        fail_time: info2.fail_time,
        speed: info2.speed,
    };
    let s0 = seq![0u8];
    let tail_a = spec_info_tail_bytes(ta, lh1);
    let tail_b = spec_info_tail_bytes(tb, lh2);
    assert((s0 + spec_info_strings_bytes(ha)) + tail_a =~= s0 + (spec_info_strings_bytes(ha)
        + tail_a));
    assert((s0 + spec_info_strings_bytes(hb)) + tail_b =~= s0 + (spec_info_strings_bytes(hb)
        + tail_b));
    lemma_concat_split_eq(
        s0,
        spec_info_strings_bytes(ha) + tail_a,
        s0,
        spec_info_strings_bytes(hb) + tail_b,
    );
    lemma_info_strings_as_list(ha);
    lemma_info_strings_as_list(hb);
    let vsa = seq![
        ha.version@,
        ha.game_version@,
        ha.timestamp@,
        ha.player_id@,
        ha.player_name@,
        ha.platform@,
        ha.tracking_system@,
        ha.hmd@,
        ha.controller@,
        ha.song_hash@,
        ha.song_name@,
        ha.mapper@,
        ha.difficulty@,
    ];
    let vsb = seq![
        hb.version@,
        hb.game_version@,
        hb.timestamp@,
        hb.player_id@,
        hb.player_name@,
        hb.platform@,
        hb.tracking_system@,
        hb.hmd@,
        hb.controller@,
        hb.song_hash@,
        hb.song_name@,
        hb.mapper@,
        hb.difficulty@,
    ];
    assert(spec_strs_bytes_list(vsa) + tail_a == spec_strs_bytes_list(vsb) + tail_b);
    assert forall|i: int| 0 <= i < vsa.len() implies encode_utf8(#[trigger] vsa[i]).len()
        < 0x80000000 by {
        if i == 0 {
            assert(vsa[0] == ha.version@);
        }
        if i == 1 {
            assert(vsa[1] == ha.game_version@);
        }
        if i == 2 {
            assert(vsa[2] == ha.timestamp@);
        }
        if i == 3 {
            assert(vsa[3] == ha.player_id@);
        }
        if i == 4 {
            assert(vsa[4] == ha.player_name@);
        }
        if i == 5 {
            assert(vsa[5] == ha.platform@);
        }
        if i == 6 {
            assert(vsa[6] == ha.tracking_system@);
        }
        if i == 7 {
            assert(vsa[7] == ha.hmd@);
        }
        if i == 8 {
            assert(vsa[8] == ha.controller@);
        }
        if i == 9 {
            assert(vsa[9] == ha.song_hash@);
        }
        if i == 10 {
            assert(vsa[10] == ha.song_name@);
        }
        if i == 11 {
            assert(vsa[11] == ha.mapper@);
        }
        if i == 12 {
            assert(vsa[12] == ha.difficulty@);
        }
    }
    assert forall|i: int| 0 <= i < vsb.len() implies encode_utf8(#[trigger] vsb[i]).len()
        < 0x80000000 by {
        if i == 0 {
            assert(vsb[0] == hb.version@);
        }
        if i == 1 {
            assert(vsb[1] == hb.game_version@);
        }
        if i == 2 {
            assert(vsb[2] == hb.timestamp@);
        }
        if i == 3 {
            assert(vsb[3] == hb.player_id@);
        }
        if i == 4 {
            assert(vsb[4] == hb.player_name@);
        }
        if i == 5 {
            assert(vsb[5] == hb.platform@);
        }
        if i == 6 {
            assert(vsb[6] == hb.tracking_system@);
        }
        if i == 7 {
            assert(vsb[7] == hb.hmd@);
        }
        if i == 8 {
            assert(vsb[8] == hb.controller@);
        }
        if i == 9 {
            assert(vsb[9] == hb.song_hash@);
        }
        if i == 10 {
            assert(vsb[10] == hb.song_name@);
        }
        if i == 11 {
            assert(vsb[11] == hb.mapper@);
        }
        if i == 12 {
            assert(vsb[12] == hb.difficulty@);
        }
    }
    lemma_strs_list_prefix(vsa, vsb, tail_a, tail_b);
    assert(vsa[0] == vsb[0]);
    assert(vsa[1] == vsb[1]);
    assert(vsa[2] == vsb[2]);
    assert(vsa[3] == vsb[3]);
    assert(vsa[4] == vsb[4]);
    assert(vsa[5] == vsb[5]);
    assert(vsa[6] == vsb[6]);
    assert(vsa[7] == vsb[7]);
    assert(vsa[8] == vsb[8]);
    assert(vsa[9] == vsb[9]);
    assert(vsa[10] == vsb[10]);
    assert(vsa[11] == vsb[11]);
    assert(vsa[12] == vsb[12]);
    lemma_info_tail_bytes_determined(ta, lh1, tb, lh2);
}

impl ReplayInfo {
    /// Read a header from the cursor.  Succeeds exactly when a
    /// well-formed header starts there (`spec_info_end`); the
    /// consumed bytes are then one wire form of the result, and the
    /// cursor does not move on failure.
    #[verifier::rlimit(100)]
    #[verifier::spinoff_prover]
    pub fn from_reader(b: &Vec<u8>, pos: &mut usize) -> (r: Result<ReplayInfo, ParseError>)
        ensures
            match r {
                Ok(info) => {
                    &&& *old(pos) <= *final(pos) <= b@.len()
                    &&& exists|lh: u8|
                        (lh != 0) == info.left_handed && b@.subrange(
                            *old(pos) as int,
                            *final(pos) as int,
                        ) == #[trigger] spec_info_bytes_with(info, lh)
                    &&& spec_info_lengths_ok(info)
                    &&& spec_comma_free(info.modifiers@)
                    &&& (info.modifiers@.len() == 0 <==> spec_join_mods(info.modifiers@).len()
                        == 0)
                    &&& spec_info_end(b@, *old(pos) as int) == Some(*final(pos) as int)
                },
                Err(e) => {
                    &&& *final(pos) == *old(pos)
                    &&& spec_info_end(b@, *old(pos) as int) is None
                },
            },
    {
        let ghost start = *old(pos) as int;
        let mut p = *pos;
        let marker = match read_byte(b, &mut p) {
            Ok(x) => x,
            Err(e) => return Err(e),
        };
        if marker != 0 {
            return Err(ParseError::BadHeader);
        }
        let ghost p1 = p as int;
        let h = match read_info_strings(b, &mut p) {
            Ok(h) => h,
            Err(e) => return Err(e),
        };
        let ghost p2 = p as int;
        let (t, lh_g) = match read_info_tail(b, &mut p) {
            Ok(t) => t,
            Err(e) => return Err(e),
        };
        let ghost p3 = p as int;
        let info = ReplayInfo {
            version: h.version,
            game_version: h.game_version,
            timestamp: h.timestamp,
            player_id: h.player_id,
            player_name: h.player_name,
            platform: h.platform,
            tracking_system: h.tracking_system,
            hmd: h.hmd,
            controller: h.controller,
            song_hash: h.song_hash,
            song_name: h.song_name,
            mapper: h.mapper,
            difficulty: h.difficulty,
            score: t.score,
            mode: t.mode,
            environment: t.environment,
            modifiers: t.modifiers,
            jump_distance: t.jump_distance,
            left_handed: t.left_handed,
            height: t.height,
            start_time: t.start_time,
            fail_time: t.fail_time,
            speed: t.speed,
        };
        proof {
            let lh = lh_g@;
            assert(InfoStrings {
                version: info.version,
                game_version: info.game_version,
                timestamp: info.timestamp,
                player_id: info.player_id,
                player_name: info.player_name,
                platform: info.platform,
                tracking_system: info.tracking_system,
                hmd: info.hmd,
                controller: info.controller,
                song_hash: info.song_hash,
                song_name: info.song_name,
                mapper: info.mapper,
                difficulty: info.difficulty,
            } == h);
            assert(InfoTail {
                score: info.score,
                mode: info.mode,
                environment: info.environment,
                modifiers: info.modifiers,
                jump_distance: info.jump_distance,
                left_handed: info.left_handed,
                height: info.height,
                start_time: info.start_time,
                fail_time: info.fail_time,
                speed: info.speed,
            } == t);
            lemma_subrange_chain(b@, start, p1, p2);
            lemma_subrange_chain(b@, start, p2, p3);
            assert(b@.subrange(start, p1) =~= seq![0u8]);
            assert(b@.subrange(start, p3) == (seq![0u8] + spec_info_strings_bytes(h))
                + spec_info_tail_bytes(t, lh));
            assert((seq![0u8] + spec_info_strings_bytes(h)) + spec_info_tail_bytes(t, lh)
                =~= seq![0u8] + spec_info_strings_bytes(h) + spec_info_tail_bytes(t, lh));
            assert(b@.subrange(start, p3) == spec_info_bytes_with(info, lh));
            assert((lh != 0) == info.left_handed);
            assert(b@[start] == 0);
            assert(spec_info_end(b@, start) == Some(p3));
            assert(exists|lhw: u8|
                (lhw != 0) == info.left_handed && b@.subrange(start, p3)
                    == #[trigger] spec_info_bytes_with(info, lhw));
        }
        *pos = p;
        Ok(info)
    }

    /// Whether two replays were recorded on the same map: same song
    /// hash, same mode, same difficulty.
    pub fn is_same_map(&self, other: &ReplayInfo) -> (r: bool)
        ensures
            r == (self.song_hash@ == other.song_hash@ && self.mode@ == other.mode@
                && self.difficulty@ == other.difficulty@),
    {
        self.song_hash == other.song_hash && self.mode == other.mode && self.difficulty
            == other.difficulty
    }

    /// Append this header's wire form.
    pub fn serialize_to_writer(&self, w: &mut Vec<u8>)
        requires
            spec_info_lengths_ok(*self),
        ensures
            final(w)@ == old(w)@ + spec_info_bytes_with(
                *self,
                if self.left_handed {
                    1u8
                } else {
                    0u8
                },
            ),
    {
        w.push(0);
        write_info_strings(w, self);
        write_info_tail(w, self);
        proof {
            let lh: u8 = if self.left_handed {
                1u8
            } else {
                0u8
            };
            assert(w@ =~= old(w)@ + spec_info_bytes_with(*self, lh));
        }
    }

    /// This header's wire form as a fresh byte vector.
    pub fn serialize_to_vector(&self) -> (r: Vec<u8>)
        requires
            spec_info_lengths_ok(*self),
        ensures
            r@ == spec_info_bytes_with(
                *self,
                if self.left_handed {
                    1u8
                } else {
                    0u8
                },
            ),
    {
        let mut out: Vec<u8> = Vec::new();
        self.serialize_to_writer(&mut out);
        proof {
            assert(Seq::<u8>::empty() + spec_info_bytes_with(
                *self,
                if self.left_handed {
                    1u8
                } else {
                    0u8
                },
            ) =~= spec_info_bytes_with(
                *self,
                if self.left_handed {
                    1u8
                } else {
                    0u8
                },
            ));
        }
        out
    }
}


/// The wire form of a position sample.
#[verifier::opaque]
pub open spec fn spec_vec3_bytes(v: Vec3) -> Seq<u8> {
    spec_u32_le(v.x.bits) + spec_u32_le(v.y.bits) + spec_u32_le(v.z.bits)
}

/// The wire form of a rotation sample.
#[verifier::opaque]
pub open spec fn spec_quat_bytes(q: Quat) -> Seq<u8> {
    spec_u32_le(q.x.bits) + spec_u32_le(q.y.bits) + spec_u32_le(q.z.bits) + spec_u32_le(q.w.bits)
}

fn read_vec3(b: &Vec<u8>, pos: &mut usize) -> (r: Result<Vec3, ParseError>)
    ensures
        match r {
            Ok(v) => {
                &&& *old(pos) + 12 <= b@.len()
                &&& b@.subrange(*old(pos) as int, *old(pos) + 12) == spec_vec3_bytes(v)
                &&& *final(pos) == *old(pos) + 12
            },
            Err(e) => {
                &&& *old(pos) + 12 > b@.len()
                &&& *final(pos) == *old(pos)
                &&& e == ParseError::UnexpectedEof
            },
        },
{
    let ghost start = *old(pos) as int;
    let mut p = *pos;
    let x = match read_f32(b, &mut p) {
        Ok(x) => x,
        Err(e) => return Err(e),
    };
    let y = match read_f32(b, &mut p) {
        Ok(x) => x,
        Err(e) => return Err(e),
    };
    let z = match read_f32(b, &mut p) {
        Ok(x) => x,
        Err(e) => return Err(e),
    };
    let v = Vec3 { x, y, z };
    proof {
        reveal(spec_vec3_bytes);
        lemma_subrange_chain(b@, start, start + 4, start + 8);
        lemma_subrange_chain(b@, start, start + 8, start + 12);
        assert(b@.subrange(start, start + 12) == spec_vec3_bytes(v));
    }
    *pos = p;
    Ok(v)
}

fn read_quat(b: &Vec<u8>, pos: &mut usize) -> (r: Result<Quat, ParseError>)
    ensures
        match r {
            Ok(q) => {
                &&& *old(pos) + 16 <= b@.len()
                &&& b@.subrange(*old(pos) as int, *old(pos) + 16) == spec_quat_bytes(q)
                &&& *final(pos) == *old(pos) + 16
            },
            Err(e) => {
                &&& *old(pos) + 16 > b@.len()
                &&& *final(pos) == *old(pos)
                &&& e == ParseError::UnexpectedEof
            },
        },
{
    let ghost start = *old(pos) as int;
    let mut p = *pos;
    let x = match read_f32(b, &mut p) {
        Ok(x) => x,
        Err(e) => return Err(e),
    };
    let y = match read_f32(b, &mut p) {
        Ok(x) => x,
        Err(e) => return Err(e),
    };
    let z = match read_f32(b, &mut p) {
        Ok(x) => x,
        Err(e) => return Err(e),
    };
    let w = match read_f32(b, &mut p) {
        Ok(x) => x,
        Err(e) => return Err(e),
    };
    let q = Quat { x, y, z, w };
    proof {
        reveal(spec_quat_bytes);
        lemma_subrange_chain(b@, start, start + 4, start + 8);
        lemma_subrange_chain(b@, start, start + 8, start + 12);
        lemma_subrange_chain(b@, start, start + 12, start + 16);
        assert(b@.subrange(start, start + 16) == spec_quat_bytes(q));
    }
    *pos = p;
    Ok(q)
}

fn write_vec3(w: &mut Vec<u8>, v: &Vec3)
    ensures
        final(w)@ == old(w)@ + spec_vec3_bytes(*v),
{
    write_u32(w, v.x.bits);
    write_u32(w, v.y.bits);
    write_u32(w, v.z.bits);
    proof {
        reveal(spec_vec3_bytes);
        assert(w@ =~= old(w)@ + spec_vec3_bytes(*v));
    }
}

fn write_quat(w: &mut Vec<u8>, q: &Quat)
    ensures
        final(w)@ == old(w)@ + spec_quat_bytes(*q),
{
    write_u32(w, q.x.bits);
    write_u32(w, q.y.bits);
    write_u32(w, q.z.bits);
    write_u32(w, q.w.bits);
    proof {
        reveal(spec_quat_bytes);
        assert(w@ =~= old(w)@ + spec_quat_bytes(*q));
    }
}

/// One motion sample of a replay: a timestamp, a frame rate, and the
/// head and hand poses, all as raw wire values.
#[derive(Debug, Clone, Copy, PartialEq, Eq)]
pub struct ReplayFrame {
    pub time: RawF32,
    pub fps: i32,
    pub head: (Vec3, Quat),
    pub left_hand: (Vec3, Quat),
    pub right_hand: (Vec3, Quat),
}

/// The wire form of one motion sample: 92 bytes.
#[verifier::opaque]
pub open spec fn spec_frame_bytes(f: ReplayFrame) -> Seq<u8> {
    spec_u32_le(f.time.bits) + spec_u32_le(f.fps as u32) + spec_vec3_bytes(f.head.0)
        + spec_quat_bytes(f.head.1) + spec_vec3_bytes(f.left_hand.0) + spec_quat_bytes(
        f.left_hand.1,
    ) + spec_vec3_bytes(f.right_hand.0) + spec_quat_bytes(f.right_hand.1)
}

/// A position sample's wire form determines the sample.
pub proof fn lemma_vec3_bytes_injective(v1: Vec3, v2: Vec3)
    requires
        spec_vec3_bytes(v1) == spec_vec3_bytes(v2),
    ensures
        v1 == v2,
{
    reveal(spec_vec3_bytes);
    reveal(spec_u32_le);
    let c = spec_vec3_bytes(v1);
    assert(c.subrange(0, 4) =~= spec_u32_le(v1.x.bits));
    assert(c.subrange(0, 4) =~= spec_u32_le(v2.x.bits));
    assert(c.subrange(4, 8) =~= spec_u32_le(v1.y.bits));
    assert(c.subrange(4, 8) =~= spec_u32_le(v2.y.bits));
    assert(c.subrange(8, 12) =~= spec_u32_le(v1.z.bits));
    assert(c.subrange(8, 12) =~= spec_u32_le(v2.z.bits));
    lemma_u32_le_injective(v1.x.bits, v2.x.bits);
    lemma_u32_le_injective(v1.y.bits, v2.y.bits);
    lemma_u32_le_injective(v1.z.bits, v2.z.bits);
}

/// A rotation sample's wire form determines the sample.
pub proof fn lemma_quat_bytes_injective(q1: Quat, q2: Quat)
    requires
        spec_quat_bytes(q1) == spec_quat_bytes(q2),
    ensures
        q1 == q2,
{
    reveal(spec_quat_bytes);
    reveal(spec_u32_le);
    let c = spec_quat_bytes(q1);
    assert(c.subrange(0, 4) =~= spec_u32_le(q1.x.bits));
    assert(c.subrange(0, 4) =~= spec_u32_le(q2.x.bits));
    assert(c.subrange(4, 8) =~= spec_u32_le(q1.y.bits));
    assert(c.subrange(4, 8) =~= spec_u32_le(q2.y.bits));
    assert(c.subrange(8, 12) =~= spec_u32_le(q1.z.bits));
    assert(c.subrange(8, 12) =~= spec_u32_le(q2.z.bits));
    assert(c.subrange(12, 16) =~= spec_u32_le(q1.w.bits));
    assert(c.subrange(12, 16) =~= spec_u32_le(q2.w.bits));
    lemma_u32_le_injective(q1.x.bits, q2.x.bits);
    lemma_u32_le_injective(q1.y.bits, q2.y.bits);
    lemma_u32_le_injective(q1.z.bits, q2.z.bits);
    lemma_u32_le_injective(q1.w.bits, q2.w.bits);
}

/// Two motion samples with the same wire form are the same sample:
/// writing a sample and reading it back loses nothing.
#[verifier::rlimit(100)]
#[verifier::spinoff_prover]
pub proof fn lemma_frame_bytes_injective(f1: ReplayFrame, f2: ReplayFrame)
    requires
        spec_frame_bytes(f1) == spec_frame_bytes(f2),
    ensures
        f1 == f2,
{
    reveal(spec_frame_bytes);
    reveal(spec_vec3_bytes);
    reveal(spec_quat_bytes);
    reveal(spec_u32_le);
    let c = spec_frame_bytes(f1);
    assert(c.subrange(0, 4) =~= spec_u32_le(f1.time.bits));
    assert(c.subrange(0, 4) =~= spec_u32_le(f2.time.bits));
    assert(c.subrange(4, 8) =~= spec_u32_le(f1.fps as u32));
    assert(c.subrange(4, 8) =~= spec_u32_le(f2.fps as u32));
    assert(c.subrange(8, 20) =~= spec_vec3_bytes(f1.head.0));
    assert(c.subrange(8, 20) =~= spec_vec3_bytes(f2.head.0));
    assert(c.subrange(20, 36) =~= spec_quat_bytes(f1.head.1));
    assert(c.subrange(20, 36) =~= spec_quat_bytes(f2.head.1));
    assert(c.subrange(36, 48) =~= spec_vec3_bytes(f1.left_hand.0));
    assert(c.subrange(36, 48) =~= spec_vec3_bytes(f2.left_hand.0));
    assert(c.subrange(48, 64) =~= spec_quat_bytes(f1.left_hand.1));
    assert(c.subrange(48, 64) =~= spec_quat_bytes(f2.left_hand.1));
    assert(c.subrange(64, 76) =~= spec_vec3_bytes(f1.right_hand.0));
    assert(c.subrange(64, 76) =~= spec_vec3_bytes(f2.right_hand.0));
    assert(c.subrange(76, 92) =~= spec_quat_bytes(f1.right_hand.1));
    assert(c.subrange(76, 92) =~= spec_quat_bytes(f2.right_hand.1));
    lemma_u32_le_injective(f1.time.bits, f2.time.bits);
    lemma_u32_le_injective(f1.fps as u32, f2.fps as u32);
    lemma_vec3_bytes_injective(f1.head.0, f2.head.0);
    lemma_quat_bytes_injective(f1.head.1, f2.head.1);
    lemma_vec3_bytes_injective(f1.left_hand.0, f2.left_hand.0);
    lemma_quat_bytes_injective(f1.left_hand.1, f2.left_hand.1);
    lemma_vec3_bytes_injective(f1.right_hand.0, f2.right_hand.0);
    lemma_quat_bytes_injective(f1.right_hand.1, f2.right_hand.1);
    let fps1 = f1.fps;
    let fps2 = f2.fps;
    assert(fps1 == fps2) by (bit_vector)
        requires
            fps1 as u32 == fps2 as u32,
    ;
}

impl ReplayFrame {
    /// Read one motion sample from the cursor.  Succeeds exactly
    /// when 92 bytes remain; the consumed bytes are then the
    /// sample's wire form, and the cursor does not move on failure.
    pub fn from_reader(b: &Vec<u8>, pos: &mut usize) -> (r: Result<ReplayFrame, ParseError>)
        ensures
            match r {
                Ok(f) => {
                    &&& *old(pos) + 92 <= b@.len()
                    &&& b@.subrange(*old(pos) as int, *old(pos) + 92) == spec_frame_bytes(f)
                    &&& *final(pos) == *old(pos) + 92
                },
                Err(e) => {
                    &&& *old(pos) + 92 > b@.len()
                    &&& *final(pos) == *old(pos)
                    &&& e == ParseError::UnexpectedEof
                },
            },
    {
        let ghost start = *old(pos) as int;
        let mut p = *pos;
        let time = match read_f32(b, &mut p) {
            Ok(x) => x,
            Err(e) => return Err(e),
        };
        let fps = match read_i32(b, &mut p) {
            Ok(x) => x,
            Err(e) => return Err(e),
        };
        let head_pos = match read_vec3(b, &mut p) {
            Ok(v) => v,
            Err(e) => return Err(e),
        };
        let head_rot = match read_quat(b, &mut p) {
            Ok(q) => q,
            Err(e) => return Err(e),
        };
        let left_pos = match read_vec3(b, &mut p) {
            Ok(v) => v,
            Err(e) => return Err(e),
        };
        let left_rot = match read_quat(b, &mut p) {
            Ok(q) => q,
            Err(e) => return Err(e),
        };
        let right_pos = match read_vec3(b, &mut p) {
            Ok(v) => v,
            Err(e) => return Err(e),
        };
        let right_rot = match read_quat(b, &mut p) {
            Ok(q) => q,
            Err(e) => return Err(e),
        };
        let f = ReplayFrame {
            time,
            fps,
            head: (head_pos, head_rot),
            left_hand: (left_pos, left_rot),
            right_hand: (right_pos, right_rot),
        };
        proof {
            reveal(spec_frame_bytes);
            lemma_subrange_chain(b@, start, start + 4, start + 8);
            lemma_subrange_chain(b@, start, start + 8, start + 20);
            lemma_subrange_chain(b@, start, start + 20, start + 36);
            lemma_subrange_chain(b@, start, start + 36, start + 48);
            lemma_subrange_chain(b@, start, start + 48, start + 64);
            lemma_subrange_chain(b@, start, start + 64, start + 76);
            lemma_subrange_chain(b@, start, start + 76, start + 92);
            assert(b@.subrange(start, start + 92) == spec_frame_bytes(f));
        }
        *pos = p;
        Ok(f)
    }

    /// Append this sample's wire form.
    pub fn serialize_to_writer(&self, w: &mut Vec<u8>)
        ensures
            final(w)@ == old(w)@ + spec_frame_bytes(*self),
    {
        write_u32(w, self.time.bits);
        write_u32(w, self.fps as u32);
        write_vec3(w, &self.head.0);
        write_quat(w, &self.head.1);
        write_vec3(w, &self.left_hand.0);
        write_quat(w, &self.left_hand.1);
        write_vec3(w, &self.right_hand.0);
        write_quat(w, &self.right_hand.1);
        proof {
            reveal(spec_frame_bytes);
            assert(w@ =~= old(w)@ + spec_frame_bytes(*self));
        }
    }

    /// This sample's wire form as a fresh byte vector.
    pub fn serialize_to_vector(&self) -> (r: Vec<u8>)
        ensures
            r@ == spec_frame_bytes(*self),
    {
        let mut out: Vec<u8> = Vec::new();
        self.serialize_to_writer(&mut out);
        proof {
            assert(Seq::<u8>::empty() + spec_frame_bytes(*self) =~= spec_frame_bytes(*self));
        }
        out
    }
}

/// The wire form of a frame sequence, one sample after another.
#[verifier::opaque]
pub open spec fn spec_frames_bytes(fs: Seq<ReplayFrame>) -> Seq<u8>
    decreases fs.len(),
{
    if fs.len() == 0 {
        Seq::empty()
    } else {
        spec_frames_bytes(fs.drop_last()) + spec_frame_bytes(fs.last())
    }
}

/// A motion sample's wire form is always 92 bytes long.
pub proof fn lemma_frame_bytes_len(f: ReplayFrame)
    ensures
        spec_frame_bytes(f).len() == 92,
{
    reveal(spec_frame_bytes);
    reveal(spec_vec3_bytes);
    reveal(spec_quat_bytes);
    reveal(spec_u32_le);
}

/// A frame sequence's wire form is 92 bytes per sample.
pub proof fn lemma_frames_bytes_len(fs: Seq<ReplayFrame>)
    ensures
        spec_frames_bytes(fs).len() == 92 * fs.len(),
    decreases fs.len(),
{
    reveal(spec_frames_bytes);
    if fs.len() > 0 {
        lemma_frames_bytes_len(fs.drop_last());
        lemma_frame_bytes_len(fs.last());
    }
}

/// A whole replay: its header and its motion samples.
#[derive(Debug, Clone, PartialEq, Eq)]
pub struct Replay {
    pub info: ReplayInfo,
    pub frames: Vec<ReplayFrame>,
}

/// The wire form of a whole replay, with the header's truth-value
/// byte given explicitly: a magic number, a header section, then a
/// counted frame section.
pub open spec fn spec_replay_bytes_with(rep: Replay, lh: u8) -> Seq<u8> {
    spec_u32_le(0x442d3d69) + seq![1u8] + spec_info_bytes_with(rep.info, lh) + seq![1u8]
        + spec_u32_le(rep.frames@.len() as u32) + spec_frames_bytes(rep.frames@)
}

/// Where a whole replay starting at `p` ends, when it is
/// well-formed: the magic number, a one marker, a header, another
/// one marker, a non-negative frame count, and that many 92-byte
/// samples.
pub open spec fn spec_replay_end(b: Seq<u8>, p: int) -> Option<int> {
    if 0 <= p && p + 5 <= b.len() && spec_u32_at(b, p) == 0x442d3d69 && b[p + 4] == 1 {
        match spec_info_end(b, p + 5) {
            Some(q) => if q + 5 <= b.len() && b[q] == 1 && spec_u32_at(b, q + 1) < 0x80000000
                && q + 5 + 92 * spec_u32_at(b, q + 1) <= b.len() {
                Some(q + 5 + 92 * spec_u32_at(b, q + 1))
            } else {
                None
            },
            None => None,
        }
    } else {
        None
    }
}

/// A written replay is recognized where it lies: the recognizer
/// accepts every replay wire form, so reading back what was written
/// cannot fail.
#[verifier::rlimit(100)]
#[verifier::spinoff_prover]
pub proof fn lemma_replay_wire_parses(b: Seq<u8>, p: int, rep: Replay, lh: u8)
    requires
        0 <= p,
        spec_info_lengths_ok(rep.info),
        rep.frames@.len() < 0x80000000,
        p + spec_replay_bytes_with(rep, lh).len() <= b.len(),
        b.subrange(p, p + spec_replay_bytes_with(rep, lh).len()) == spec_replay_bytes_with(
            rep,
            lh,
        ),
    ensures
        spec_replay_end(b, p) == Some(p + spec_replay_bytes_with(rep, lh).len()),
{
    reveal(spec_u32_le);
    let count = rep.frames@.len() as int;
    let s1 = spec_u32_le(0x442d3d69);
    let s2 = seq![1u8];
    let s3 = spec_info_bytes_with(rep.info, lh);
    let s4 = seq![1u8];
    let s5 = spec_u32_le(rep.frames@.len() as u32);
    let s6 = spec_frames_bytes(rep.frames@);
    lemma_frames_bytes_len(rep.frames@);
    let pre1 = s1;
    let pre2 = pre1 + s2;
    let pre3 = pre2 + s3;
    let pre4 = pre3 + s4;
    let pre5 = pre4 + s5;
    let pre6 = pre5 + s6;
    assert(spec_replay_bytes_with(rep, lh) == pre6);
    let o0 = p;
    assert(b.subrange(o0, p + pre6.len() as int) == pre6);
    lemma_concat_peel(b, o0, pre5, s6);
    lemma_concat_peel(b, o0, pre4, s5);
    lemma_concat_peel(b, o0, pre3, s4);
    lemma_concat_peel(b, o0, pre2, s3);
    lemma_concat_peel(b, o0, pre1, s2);
    lemma_u32_le_at(b, p, 0x442d3d69);
    assert(b[p + 4] == 1) by {
        assert(b.subrange(p + 4, p + 5)[0] == b[p + 4]);
    }
    lemma_info_wire_parses(b, p + 5, rep.info, lh);
    let q = p + 5 + s3.len();
    assert(b[q] == 1) by {
        assert(b.subrange(q, q + 1)[0] == b[q]);
    }
    lemma_u32_le_at(b, q + 1, rep.frames@.len() as u32);
    assert(spec_u32_at(b, q + 1) == count);
    assert(q + 5 + 92 * spec_u32_at(b, q + 1) == p + spec_replay_bytes_with(rep, lh).len());
}

impl Replay {
    /// Read a whole replay from the cursor.  Succeeds exactly when a
    /// well-formed replay starts there (`spec_replay_end`); the
    /// consumed bytes are then one wire form of the result, and the
    /// cursor does not move on failure.
    #[verifier::rlimit(100)]
    #[verifier::spinoff_prover]
    pub fn from_reader(b: &Vec<u8>, pos: &mut usize) -> (r: Result<Replay, ParseError>)
        ensures
            match r {
                Ok(rep) => {
                    &&& *old(pos) <= *final(pos) <= b@.len()
                    &&& rep.frames@.len() < 0x80000000
                    &&& spec_info_lengths_ok(rep.info)
                    &&& spec_comma_free(rep.info.modifiers@)
                    &&& (rep.info.modifiers@.len() == 0 <==> spec_join_mods(
                        rep.info.modifiers@,
                    ).len() == 0)
                    &&& exists|lh: u8|
                        (lh != 0) == rep.info.left_handed && b@.subrange(
                            *old(pos) as int,
                            *final(pos) as int,
                        ) == #[trigger] spec_replay_bytes_with(rep, lh)
                    &&& spec_replay_end(b@, *old(pos) as int) == Some(*final(pos) as int)
                },
                Err(e) => {
                    &&& *final(pos) == *old(pos)
                    &&& spec_replay_end(b@, *old(pos) as int) is None
                },
            },
    {
        let ghost start = *old(pos) as int;
        let mut p = *pos;
        let magic = match read_i32(b, &mut p) {
            Ok(x) => x,
            Err(e) => return Err(e),
        };
        if magic != 0x442d3d69 {
            proof {
                let mv = magic;
                assert(mv as u32 != 0x442d3d69u32) by (bit_vector)
                    requires
                        mv != 0x442d3d69i32,
                ;
            }
            return Err(ParseError::BadHeader);
        }
        let m1 = match read_byte(b, &mut p) {
            Ok(x) => x,
            Err(e) => return Err(e),
        };
        if m1 != 1 {
            return Err(ParseError::BadHeader);
        }
        let ghost p1 = p as int;
        proof {
            lemma_subrange_chain(b@, start, start + 4, p1);
            assert(b@.subrange(start + 4, p1) =~= seq![1u8]);
            let mv = magic;
            assert(mv as u32 == 0x442d3d69u32) by (bit_vector)
                requires
                    mv == 0x442d3d69i32,
            ;
            assert(spec_u32_at(b@, start) == 0x442d3d69u32);
            assert(b@[start + 4] == 1u8);
        }
        let info = match ReplayInfo::from_reader(b, &mut p) {
            Ok(i) => i,
            Err(e) => return Err(e),
        };
        let ghost p2 = p as int;
        let m2 = match read_byte(b, &mut p) {
            Ok(x) => x,
            Err(e) => return Err(e),
        };
        if m2 != 1 {
            return Err(ParseError::BadHeader);
        }
        let n = match read_i32(b, &mut p) {
            Ok(x) => x,
            Err(e) => return Err(e),
        };
        if n < 0 {
            proof {
                let nv = n;
                assert(nv as u32 >= 0x80000000u32) by (bit_vector)
                    requires
                        nv < 0,
                ;
            }
            return Err(ParseError::UnexpectedEof);
        }
        let ghost p3 = p as int;
        proof {
            lemma_subrange_chain(b@, p2, p2 + 1, p3);
            assert(b@.subrange(p2, p2 + 1) =~= seq![1u8]);
            let nv = n;
            assert(nv as u32 == (nv as usize) as u32 && (nv as u32) < 0x80000000u32) by (bit_vector)
                requires
                    nv >= 0,
            ;
            assert(spec_u32_at(b@, p2 + 1) == n as u32);
            assert(b@[p2] == 1u8);
        }
        let count = n as usize;
        let mut frames: Vec<ReplayFrame> = Vec::new();
        let mut i: usize = 0;
        proof {
            reveal(spec_frames_bytes);
            assert(b@.subrange(p3, p as int) =~= spec_frames_bytes(frames@));
        }
        while i < count
            invariant
                start == *old(pos) as int,
                count < 0x80000000,
                0 <= i <= count,
                0 <= start <= p3 <= p as int <= b@.len(),
                frames@.len() == i,
                p as int == p3 + 92 * i,
                b@.subrange(p3, p as int) == spec_frames_bytes(frames@),
                count == spec_u32_at(b@, p3 - 4),
                start + 5 <= p3 - 5,
                spec_u32_at(b@, start) == 0x442d3d69,
                b@[start + 4] == 1,
                spec_info_end(b@, start + 5) == Some(p3 - 5),
                b@[p3 - 5] == 1,
            decreases count - i,
        {
            let ghost q0 = p as int;
            let frame = match ReplayFrame::from_reader(b, &mut p) {
                Ok(f) => f,
                Err(e) => {
                    proof {
                        let q = p3 - 5;
                        vstd::arithmetic::mul::lemma_mul_inequality(
                            i + 1,
                            count as int,
                            92,
                        );
                        assert(q + 5 + 92 * spec_u32_at(b@, q + 1) > b@.len());
                        assert(spec_replay_end(b@, start) is None);
                    }
                    return Err(e);
                },
            };
            let ghost prev = frames@;
            frames.push(frame);
            proof {
                reveal(spec_frames_bytes);
                lemma_subrange_chain(b@, p3, q0, p as int);
                assert(frames@.drop_last() =~= prev);
                assert(frames@.last() == frame);
                assert(spec_frames_bytes(frames@) == spec_frames_bytes(prev) + spec_frame_bytes(
                    frame,
                ));
            }
            i = i + 1;
        }
        let rep = Replay { info, frames };
        proof {
            let lh = choose|lh: u8|
                (lh != 0) == info.left_handed && b@.subrange(p1, p2) == spec_info_bytes_with(
                    info,
                    lh,
                );
            lemma_subrange_chain(b@, start, p1, p2);
            lemma_subrange_chain(b@, start, p2, p2 + 1);
            lemma_subrange_chain(b@, start, p2 + 1, p3);
            lemma_subrange_chain(b@, start, p3, p as int);
            assert(b@.subrange(start, start + 4) == spec_u32_le(0x442d3d69u32)) by {
                let nv = magic;
                assert(nv as u32 == 0x442d3d69u32) by (bit_vector)
                    requires
                        nv == 0x442d3d69i32,
                ;
            }
            let cv = n;
            assert(cv as u32 == (cv as usize) as u32) by (bit_vector)
                requires
                    cv >= 0,
            ;
            assert(b@.subrange(start, p as int) =~= spec_replay_bytes_with(rep, lh));
            assert((lh != 0) == rep.info.left_handed);
            assert(spec_replay_end(b@, start) == Some(p as int));
        }
        *pos = p;
        Ok(rep)
    }

    /// Read a whole replay from a byte buffer.  Succeeds exactly
    /// when a well-formed replay starts at the buffer's beginning
    /// (`spec_replay_end`); bytes after the replay are ignored.
    pub fn from_bytes(bytes: &Vec<u8>) -> (r: Result<Replay, ParseError>)
        ensures
            match r {
                Ok(rep) => {
                    &&& rep.frames@.len() < 0x80000000
                    &&& spec_info_lengths_ok(rep.info)
                    &&& spec_comma_free(rep.info.modifiers@)
                    &&& (rep.info.modifiers@.len() == 0 <==> spec_join_mods(
                        rep.info.modifiers@,
                    ).len() == 0)
                    &&& exists|lh: u8|
                        (lh != 0) == rep.info.left_handed && bytes@.subrange(
                            0,
                            spec_replay_bytes_with(rep, lh).len() as int,
                        ) == #[trigger] spec_replay_bytes_with(rep, lh)
                },
                Err(e) => spec_replay_end(bytes@, 0) is None,
            },
    {
        let mut pos: usize = 0;
        let r = Self::from_reader(bytes, &mut pos);
        proof {
            if r is Ok {
                let rep = r->Ok_0;
                let lh = choose|lh: u8|
                    (lh != 0) == rep.info.left_handed && bytes@.subrange(0, pos as int)
                        == #[trigger] spec_replay_bytes_with(rep, lh);
                assert(bytes@.subrange(0, spec_replay_bytes_with(rep, lh).len() as int)
                    == spec_replay_bytes_with(rep, lh));
            }
        }
        r
    }

    /// Append this replay's wire form.
    pub fn serialize_to_writer(&self, w: &mut Vec<u8>)
        requires
            spec_info_lengths_ok(self.info),
            self.frames@.len() < 0x80000000,
        ensures
            final(w)@ == old(w)@ + spec_replay_bytes_with(
                *self,
                if self.info.left_handed {
                    1u8
                } else {
                    0u8
                },
            ),
    {
        write_u32(w, 0x442d3d69);
        w.push(1);
        self.info.serialize_to_writer(w);
        w.push(1);
        write_u32(w, self.frames.len() as u32);
        let ghost mid = w@;
        let n = self.frames.len();
        proof {
            reveal(spec_frames_bytes);
            assert(spec_frames_bytes(self.frames@.take(0)) =~= Seq::<u8>::empty());
            assert(w@ =~= mid + spec_frames_bytes(self.frames@.take(0)));
        }
        for i in 0..n
            invariant
                n == self.frames@.len(),
                w@ == mid + spec_frames_bytes(self.frames@.take(i as int)),
        {
            self.frames[i].serialize_to_writer(w);
            proof {
                reveal(spec_frames_bytes);
                assert(self.frames@.take(i + 1).drop_last() =~= self.frames@.take(i as int));
                assert(self.frames@.take(i + 1).last() == self.frames@[i as int]);
                assert((mid + spec_frames_bytes(self.frames@.take(i as int))) + spec_frame_bytes(
                    self.frames@[i as int],
                ) =~= mid + spec_frames_bytes(self.frames@.take(i + 1)));
            }
        }
        proof {
            assert(self.frames@.take(n as int) =~= self.frames@);
            assert(w@ =~= old(w)@ + spec_replay_bytes_with(
                *self,
                if self.info.left_handed {
                    1u8
                } else {
                    0u8
                },
            ));
        }
    }

    /// This replay's wire form as a fresh byte vector.
    pub fn serialize_to_bytes(&self) -> (r: Vec<u8>)
        requires
            spec_info_lengths_ok(self.info),
            self.frames@.len() < 0x80000000,
        ensures
            r@ == spec_replay_bytes_with(
                *self,
                if self.info.left_handed {
                    1u8
                } else {
                    0u8
                },
            ),
    {
        let mut out: Vec<u8> = Vec::new();
        self.serialize_to_writer(&mut out);
        proof {
            assert(Seq::<u8>::empty() + spec_replay_bytes_with(
                *self,
                if self.info.left_handed {
                    1u8
                } else {
                    0u8
                },
            ) =~= spec_replay_bytes_with(
                *self,
                if self.info.left_handed {
                    1u8
                } else {
                    0u8
                },
            ));
        }
        out
    }
}

} // verus!
