//! The byte-level encoding shared by commands and persisted records:
//! fixed-width little-endian integers, a single byte for booleans, and
//! length-prefixed UTF-8 strings and string sequences.

use vstd::prelude::*;
use vstd::slice::{slice_subrange, slice_to_vec};
use vstd::utf8::{decode_utf8, encode_utf8, valid_utf8};

verus! {

// ---------------------------------------------------------------------------
// Little-endian integers
// ---------------------------------------------------------------------------

/// The four little-endian bytes of a 32-bit integer.
pub open spec fn spec_le32(x: u32) -> Seq<u8> {
    seq![
        (x & 0xff) as u8,
        ((x >> 8) & 0xff) as u8,
        ((x >> 16) & 0xff) as u8,
        ((x >> 24) & 0xff) as u8,
    ]
}

/// The eight little-endian bytes of a 64-bit integer.
pub open spec fn spec_le64(x: u64) -> Seq<u8> {
    seq![
        (x & 0xff) as u8,
        ((x >> 8) & 0xff) as u8,
        ((x >> 16) & 0xff) as u8,
        ((x >> 24) & 0xff) as u8,
        ((x >> 32) & 0xff) as u8,
        ((x >> 40) & 0xff) as u8,
        ((x >> 48) & 0xff) as u8,
        ((x >> 56) & 0xff) as u8,
    ]
}

/// The value of four little-endian bytes.
pub open spec fn spec_le32_value(b: Seq<u8>) -> u32
    recommends
        b.len() == 4,
{
    (b[0] as u32) | ((b[1] as u32) << 8) | ((b[2] as u32) << 16) | ((b[3] as u32) << 24)
}

/// The value of eight little-endian bytes.
pub open spec fn spec_le64_value(b: Seq<u8>) -> u64
    recommends
        b.len() == 8,
{
    (b[0] as u64) | ((b[1] as u64) << 8) | ((b[2] as u64) << 16) | ((b[3] as u64) << 24)
        | ((b[4] as u64) << 32) | ((b[5] as u64) << 40) | ((b[6] as u64) << 48)
        | ((b[7] as u64) << 56)
}

pub proof fn lemma_le32_roundtrip(x: u32)
    ensures
        spec_le32(x).len() == 4,
        spec_le32_value(spec_le32(x)) == x,
{
    assert(((x & 0xff) as u8 as u32) | ((((x >> 8) & 0xff) as u8 as u32) << 8)
        | ((((x >> 16) & 0xff) as u8 as u32) << 16) | ((((x >> 24) & 0xff) as u8 as u32) << 24)
        == x) by (bit_vector);
}

pub proof fn lemma_le64_roundtrip(x: u64)
    ensures
        spec_le64(x).len() == 8,
        spec_le64_value(spec_le64(x)) == x,
{
    assert(((x & 0xff) as u8 as u64) | ((((x >> 8) & 0xff) as u8 as u64) << 8)
        | ((((x >> 16) & 0xff) as u8 as u64) << 16) | ((((x >> 24) & 0xff) as u8 as u64) << 24)
        | ((((x >> 32) & 0xff) as u8 as u64) << 32) | ((((x >> 40) & 0xff) as u8 as u64) << 40)
        | ((((x >> 48) & 0xff) as u8 as u64) << 48) | ((((x >> 56) & 0xff) as u8 as u64) << 56)
        == x) by (bit_vector);
}

// ---------------------------------------------------------------------------
// Encoders: specification level
// ---------------------------------------------------------------------------

/// A boolean as one byte, `1` for true and `0` for false.
pub open spec fn spec_encode_bool(b: bool) -> Seq<u8> {
    seq![if b { 1u8 } else { 0u8 }]
}

/// A string as a 4-byte little-endian byte count followed by its UTF-8 bytes.
pub open spec fn spec_encode_string(s: Seq<char>) -> Seq<u8> {
    spec_le32(encode_utf8(s).len() as u32) + encode_utf8(s)
}

/// The concatenated encodings of a sequence of strings, without a count.
pub open spec fn spec_encode_strings(v: Seq<Seq<char>>) -> Seq<u8>
    decreases v.len(),
{
    if v.len() == 0 {
        Seq::empty()
    } else {
        spec_encode_string(v[0]) + spec_encode_strings(v.drop_first())
    }
}

/// A string sequence as a 4-byte little-endian count followed by each element.
pub open spec fn spec_encode_string_vec(v: Seq<Seq<char>>) -> Seq<u8> {
    spec_le32(v.len() as u32) + spec_encode_strings(v)
}

/// A string is encodable when its byte count fits the 4-byte length prefix.
pub open spec fn string_encodable(s: Seq<char>) -> bool {
    encode_utf8(s).len() <= u32::MAX
}

/// A string sequence is encodable when the count and every element fit.
pub open spec fn strings_encodable(v: Seq<Seq<char>>) -> bool {
    &&& v.len() <= u32::MAX
    &&& forall|i: int| 0 <= i < v.len() ==> string_encodable(#[trigger] v[i])
}

// ---------------------------------------------------------------------------
// Decoders: specification level.  Each reads a prefix of the buffer and
// reports the value together with the number of bytes consumed; `None`
// means the buffer is malformed (truncated, overrun, or invalid text).
// ---------------------------------------------------------------------------

pub open spec fn spec_read_u32(b: Seq<u8>) -> Option<(u32, int)> {
    if b.len() >= 4 {
        Some((spec_le32_value(b.take(4)), 4int))
    } else {
        None
    }
}

pub open spec fn spec_read_u64(b: Seq<u8>) -> Option<(u64, int)> {
    if b.len() >= 8 {
        Some((spec_le64_value(b.take(8)), 8int))
    } else {
        None
    }
}

pub open spec fn spec_read_bool(b: Seq<u8>) -> Option<(bool, int)> {
    if b.len() >= 1 && (b[0] == 0 || b[0] == 1) {
        Some((b[0] == 1, 1int))
    } else {
        None
    }
}

pub open spec fn spec_read_string(b: Seq<u8>) -> Option<(Seq<char>, int)> {
    match spec_read_u32(b) {
        Some(p) => {
            let n = p.0 as int;
            if b.len() >= 4 + n && valid_utf8(b.subrange(4, 4 + n)) {
                Some((decode_utf8(b.subrange(4, 4 + n)), 4 + n))
            } else {
                None
            }
        },
        None => None,
    }
}

/// Reads exactly `n` consecutive strings.
pub open spec fn spec_read_strings(b: Seq<u8>, n: nat) -> Option<(Seq<Seq<char>>, int)>
    decreases n,
{
    if n == 0 {
        Some((Seq::empty(), 0int))
    } else {
        match spec_read_string(b) {
            Some(p) => match spec_read_strings(b.skip(p.1), (n - 1) as nat) {
                Some(q) => Some((seq![p.0] + q.0, p.1 + q.1)),
                None => None,
            },
            None => None,
        }
    }
}

pub open spec fn spec_read_string_vec(b: Seq<u8>) -> Option<(Seq<Seq<char>>, int)> {
    match spec_read_u32(b) {
        Some(p) => match spec_read_strings(b.skip(4), p.0 as nat) {
            Some(q) => Some((q.0, 4 + q.1)),
            None => None,
        },
        None => None,
    }
}

// ---------------------------------------------------------------------------
// Round trips: decoding an encoding, with any suffix, yields the value back.
// ---------------------------------------------------------------------------

pub proof fn lemma_read_u32_of_encode(x: u32, t: Seq<u8>)
    ensures
        spec_read_u32(spec_le32(x) + t) == Some((x, 4int)),
{
    lemma_le32_roundtrip(x);
    assert((spec_le32(x) + t).take(4) =~= spec_le32(x));
}

pub proof fn lemma_read_u64_of_encode(x: u64, t: Seq<u8>)
    ensures
        spec_read_u64(spec_le64(x) + t) == Some((x, 8int)),
{
    lemma_le64_roundtrip(x);
    assert((spec_le64(x) + t).take(8) =~= spec_le64(x));
}

pub proof fn lemma_read_bool_of_encode(v: bool, t: Seq<u8>)
    ensures
        spec_read_bool(spec_encode_bool(v) + t) == Some((v, 1int)),
{
}

pub proof fn lemma_read_string_of_encode(s: Seq<char>, t: Seq<u8>)
    requires
        string_encodable(s),
    ensures
        spec_read_string(spec_encode_string(s) + t) == Some((s, 4 + encode_utf8(s).len() as int)),
{
    broadcast use vstd::utf8::encode_utf8_valid_utf8;
    broadcast use vstd::utf8::encode_utf8_decode_utf8;

    let bytes = encode_utf8(s);
    let n = bytes.len() as u32;
    let whole = spec_encode_string(s) + t;
    lemma_le32_roundtrip(n);
    assert(whole.take(4) =~= spec_le32(n));
    assert(whole.subrange(4, 4 + n as int) =~= bytes);
}

pub proof fn lemma_read_strings_of_encode(v: Seq<Seq<char>>, t: Seq<u8>)
    requires
        forall|i: int| 0 <= i < v.len() ==> string_encodable(#[trigger] v[i]),
    ensures
        spec_read_strings(spec_encode_strings(v) + t, v.len()) == Some(
            (v, spec_encode_strings(v).len() as int),
        ),
    decreases v.len(),
{
    if v.len() == 0 {
        assert(v =~= Seq::<Seq<char>>::empty());
    } else {
        let s = v[0];
        let rest = v.drop_first();
        let whole = spec_encode_strings(v) + t;
        assert(whole =~= spec_encode_string(s) + (spec_encode_strings(rest) + t));
        lemma_read_string_of_encode(s, spec_encode_strings(rest) + t);
        let used = 4 + encode_utf8(s).len() as int;
        assert(whole.skip(used) =~= spec_encode_strings(rest) + t);
        lemma_read_strings_of_encode(rest, t);
        assert(seq![s] + rest =~= v);
    }
}

pub proof fn lemma_read_string_vec_of_encode(v: Seq<Seq<char>>, t: Seq<u8>)
    requires
        strings_encodable(v),
    ensures
        spec_read_string_vec(spec_encode_string_vec(v) + t) == Some(
            (v, spec_encode_string_vec(v).len() as int),
        ),
{
    let n = v.len() as u32;
    let whole = spec_encode_string_vec(v) + t;
    assert(whole =~= spec_le32(n) + (spec_encode_strings(v) + t));
    lemma_read_u32_of_encode(n, spec_encode_strings(v) + t);
    assert(whole.take(4) =~= spec_le32(n));
    assert(whole.skip(4) =~= spec_encode_strings(v) + t);
    lemma_read_strings_of_encode(v, t);
}

/// Appending one more string extends the concatenated encoding on the right.
pub proof fn lemma_encode_strings_push(v: Seq<Seq<char>>, s: Seq<char>)
    ensures
        spec_encode_strings(v.push(s)) == spec_encode_strings(v) + spec_encode_string(s),
    decreases v.len(),
{
    if v.len() == 0 {
        let p = v.push(s);
        assert(p[0] == s);
        assert(p.drop_first() =~= Seq::<Seq<char>>::empty());
        assert(spec_encode_strings(p.drop_first()) =~= Seq::<u8>::empty());
        assert(spec_encode_strings(p) =~= spec_encode_string(s) + Seq::<u8>::empty());
        assert(spec_encode_string(s) + Seq::<u8>::empty() =~= spec_encode_string(s));
        assert(spec_encode_strings(v) + spec_encode_string(s) =~= spec_encode_string(s));
    } else {
        assert(v.push(s).drop_first() =~= v.drop_first().push(s));
        lemma_encode_strings_push(v.drop_first(), s);
        assert(spec_encode_strings(v.push(s)) == spec_encode_string(v[0]) + (spec_encode_strings(
            v.drop_first(),
        ) + spec_encode_string(s)));
        assert(spec_encode_string(v[0]) + (spec_encode_strings(v.drop_first())
            + spec_encode_string(s)) =~= (spec_encode_string(v[0]) + spec_encode_strings(
            v.drop_first(),
        )) + spec_encode_string(s));
    }
}

// ---------------------------------------------------------------------------
// Every decoded value can be encoded again: its pieces fit their prefixes.
// ---------------------------------------------------------------------------

pub proof fn lemma_read_string_encodable(b: Seq<u8>)
    ensures
        spec_read_string(b) matches Some(p) ==> string_encodable(p.0) && encode_utf8(p.0).len()
            == p.1 - 4,
{
    if spec_read_string(b) is Some {
        let p = spec_read_string(b).unwrap();
        vstd::utf8::decode_utf8_encode_utf8(b.subrange(4, p.1));
    }
}

// ---------------------------------------------------------------------------
// Encoders: executable level
// ---------------------------------------------------------------------------

pub fn write_u32(out: &mut Vec<u8>, x: u32)
    ensures
        final(out)@ == old(out)@ + spec_le32(x),
{
    proof {
        assert(x & 0xff < 256 && (x >> 8) & 0xff < 256 && (x >> 16) & 0xff < 256 && (x >> 24)
            & 0xff < 256) by (bit_vector);
    }
    out.push((x & 0xff) as u8);
    out.push(((x >> 8) & 0xff) as u8);
    out.push(((x >> 16) & 0xff) as u8);
    out.push(((x >> 24) & 0xff) as u8);
    proof {
        assert(out@ =~= old(out)@ + spec_le32(x));
    }
}

pub fn write_u64(out: &mut Vec<u8>, x: u64)
    ensures
        final(out)@ == old(out)@ + spec_le64(x),
{
    proof {
        assert(x & 0xff < 256 && (x >> 8) & 0xff < 256 && (x >> 16) & 0xff < 256 && (x >> 24)
            & 0xff < 256 && (x >> 32) & 0xff < 256 && (x >> 40) & 0xff < 256 && (x >> 48) & 0xff
            < 256 && (x >> 56) & 0xff < 256) by (bit_vector);
    }
    out.push((x & 0xff) as u8);
    out.push(((x >> 8) & 0xff) as u8);
    out.push(((x >> 16) & 0xff) as u8);
    out.push(((x >> 24) & 0xff) as u8);
    out.push(((x >> 32) & 0xff) as u8);
    out.push(((x >> 40) & 0xff) as u8);
    out.push(((x >> 48) & 0xff) as u8);
    out.push(((x >> 56) & 0xff) as u8);
    proof {
        assert(out@ =~= old(out)@ + spec_le64(x));
    }
}

pub fn write_bool(out: &mut Vec<u8>, b: bool)
    ensures
        final(out)@ == old(out)@ + spec_encode_bool(b),
{
    out.push(if b {
        1u8
    } else {
        0u8
    });
    proof {
        assert(out@ =~= old(out)@ + spec_encode_bool(b));
    }
}

pub fn write_string(out: &mut Vec<u8>, s: &str)
    requires
        string_encodable(s@),
    ensures
        final(out)@ == old(out)@ + spec_encode_string(s@),
{
    let n = s.len();
    write_u32(out, n as u32);
    let mut bytes = s.as_bytes_vec();
    out.append(&mut bytes);
    proof {
        assert(out@ =~= old(out)@ + spec_encode_string(s@));
    }
}

pub fn write_string_vec(out: &mut Vec<u8>, v: &Vec<String>)
    requires
        strings_encodable(v.deep_view()),
    ensures
        final(out)@ == old(out)@ + spec_encode_string_vec(v.deep_view()),
{
    write_u32(out, v.len() as u32);
    let n = v.len();
    let mut i: usize = 0;
    while i < n
        invariant
            n == v@.len(),
            i <= n,
            strings_encodable(v.deep_view()),
            out@ == old(out)@ + spec_le32(n as u32) + spec_encode_strings(v.deep_view().take(
                i as int,
            )),
        decreases n - i,
    {
        proof {
            assert(v.deep_view()[i as int] == v@[i as int]@);
            lemma_encode_strings_push(v.deep_view().take(i as int), v.deep_view()[i as int]);
            assert(v.deep_view().take(i as int).push(v.deep_view()[i as int]) =~= v.deep_view()
                .take(i + 1));
        }
        write_string(out, v[i].as_str());
        i = i + 1;
    }
    proof {
        assert(v.deep_view().take(n as int) =~= v.deep_view());
        assert(out@ =~= old(out)@ + spec_encode_string_vec(v.deep_view()));
    }
}

// ---------------------------------------------------------------------------
// Decoders: executable level.  Each takes the buffer and a cursor and
// returns the value with the new cursor, mirroring the spec decoders on
// the part of the buffer from the cursor on.
// ---------------------------------------------------------------------------

pub fn read_u32(input: &[u8], pos: usize) -> (r: Option<(u32, usize)>)
    requires
        pos <= input@.len(),
    ensures
        match r {
            Some(p) => p.1 == pos + 4 && p.1 <= input@.len() && spec_read_u32(
                input@.skip(pos as int),
            ) == Some((p.0, 4int)),
            None => spec_read_u32(input@.skip(pos as int)) is None,
        },
{
    if input.len() - pos >= 4 {
        let b0 = input[pos];
        let b1 = input[pos + 1];
        let b2 = input[pos + 2];
        let b3 = input[pos + 3];
        let v = (b0 as u32) | ((b1 as u32) << 8u32) | ((b2 as u32) << 16u32) | ((b3 as u32)
            << 24u32);
        proof {
            let s = input@.skip(pos as int);
            assert(s.take(4)[0] == b0 && s.take(4)[1] == b1 && s.take(4)[2] == b2 && s.take(4)[3]
                == b3);
        }
        Some((v, pos + 4))
    } else {
        None
    }
}

pub fn read_u64(input: &[u8], pos: usize) -> (r: Option<(u64, usize)>)
    requires
        pos <= input@.len(),
    ensures
        match r {
            Some(p) => p.1 == pos + 8 && p.1 <= input@.len() && spec_read_u64(
                input@.skip(pos as int),
            ) == Some((p.0, 8int)),
            None => spec_read_u64(input@.skip(pos as int)) is None,
        },
{
    if input.len() - pos >= 8 {
        let b0 = input[pos];
        let b1 = input[pos + 1];
        let b2 = input[pos + 2];
        let b3 = input[pos + 3];
        let b4 = input[pos + 4];
        let b5 = input[pos + 5];
        let b6 = input[pos + 6];
        let b7 = input[pos + 7];
        let v = (b0 as u64) | ((b1 as u64) << 8u64) | ((b2 as u64) << 16u64) | ((b3 as u64)
            << 24u64) | ((b4 as u64) << 32u64) | ((b5 as u64) << 40u64) | ((b6 as u64) << 48u64)
            | ((b7 as u64) << 56u64);
        proof {
            let s = input@.skip(pos as int);
            assert(s.take(8)[0] == b0 && s.take(8)[1] == b1 && s.take(8)[2] == b2 && s.take(8)[3]
                == b3 && s.take(8)[4] == b4 && s.take(8)[5] == b5 && s.take(8)[6] == b6 && s.take(
                8,
            )[7] == b7);
        }
        Some((v, pos + 8))
    } else {
        None
    }
}

pub fn read_bool(input: &[u8], pos: usize) -> (r: Option<(bool, usize)>)
    requires
        pos <= input@.len(),
    ensures
        match r {
            Some(p) => p.1 == pos + 1 && p.1 <= input@.len() && spec_read_bool(
                input@.skip(pos as int),
            ) == Some((p.0, 1int)),
            None => spec_read_bool(input@.skip(pos as int)) is None,
        },
{
    if input.len() - pos >= 1 {
        let b = input[pos];
        if b == 0 {
            Some((false, pos + 1))
        } else if b == 1 {
            Some((true, pos + 1))
        } else {
            None
        }
    } else {
        None
    }
}

/// Relies on `String::from_utf8`: it succeeds exactly on valid UTF-8 input
/// and yields the characters those bytes encode.
#[verifier::external_body]
fn string_from_utf8(bytes: Vec<u8>) -> (r: Option<String>)
    ensures
        r is Some <==> valid_utf8(bytes@),
        r matches Some(s) ==> s@ == decode_utf8(bytes@),
{
    match String::from_utf8(bytes) {
        Ok(s) => Some(s),
        Err(_) => None,
    }
}

pub fn read_string(input: &[u8], pos: usize) -> (r: Option<(String, usize)>)
    requires
        pos <= input@.len(),
    ensures
        match r {
            Some(p) => pos < p.1 <= input@.len() && spec_read_string(input@.skip(pos as int))
                == Some((p.0@, p.1 - pos as int)),
            None => spec_read_string(input@.skip(pos as int)) is None,
        },
{
    match read_u32(input, pos) {
        Some(p) => {
            let n = p.0;
            let pos2 = p.1;
            if n as usize <= input.len() - pos2 {
                let end = pos2 + n as usize;
                let bytes = slice_to_vec(slice_subrange(input, pos2, end));
                proof {
                    let s = input@.skip(pos as int);
                    assert(s.subrange(4, 4 + n as int) =~= input@.subrange(
                        pos2 as int,
                        end as int,
                    ));
                }
                match string_from_utf8(bytes) {
                    Some(text) => Some((text, end)),
                    None => None,
                }
            } else {
                None
            }
        },
        None => None,
    }
}

/// Continues a partial multi-string parse: what the whole parse yields once
/// `acc` has been read using `delta` bytes and `r` describes the remainder.
pub open spec fn spec_strings_continue(
    acc: Seq<Seq<char>>,
    delta: int,
    r: Option<(Seq<Seq<char>>, int)>,
) -> Option<(Seq<Seq<char>>, int)> {
    match r {
        Some(p) => Some((acc + p.0, delta + p.1)),
        None => None,
    }
}

pub fn read_string_vec(input: &[u8], pos: usize) -> (r: Option<(Vec<String>, usize)>)
    requires
        pos <= input@.len(),
    ensures
        match r {
            Some(p) => pos < p.1 <= input@.len() && spec_read_string_vec(input@.skip(pos as int))
                == Some((p.0.deep_view(), p.1 - pos as int)),
            None => spec_read_string_vec(input@.skip(pos as int)) is None,
        },
{
    match read_u32(input, pos) {
        Some(p) => {
            let n = p.0;
            let pos2 = p.1;
            let mut acc: Vec<String> = Vec::new();
            let mut cur: usize = pos2;
            let mut i: u32 = 0;
            let ghost whole = spec_read_strings(input@.skip(pos2 as int), n as nat);
            proof {
                assert(input@.skip(pos as int).skip(4) =~= input@.skip(pos2 as int));
            }
            while i < n
                invariant
                    pos2 == pos + 4,
                    pos2 <= cur <= input@.len(),
                    spec_read_u32(input@.skip(pos as int)) == Some((n, 4int)),
                    i <= n,
                    acc.deep_view().len() == i as int,
                    whole == spec_read_strings(input@.skip(pos2 as int), n as nat),
                    whole == spec_strings_continue(
                        acc.deep_view(),
                        cur - pos2,
                        spec_read_strings(input@.skip(cur as int), (n - i) as nat),
                    ),
                decreases n - i,
            {
                match read_string(input, cur) {
                    Some(q) => {
                        proof {
                            let tail = input@.skip(cur as int);
                            let used = q.1 - cur as int;
                            assert(tail.skip(used) =~= input@.skip(q.1 as int));
                            let rest = spec_read_strings(
                                input@.skip(q.1 as int),
                                (n - i - 1) as nat,
                            );
                            assert(spec_read_strings(tail, (n - i) as nat)
                                == spec_strings_continue(seq![q.0@], used, rest));
                            assert(acc.deep_view().push(q.0@) =~= acc.deep_view() + seq![q.0@]);
                            if rest is Some {
                                assert(acc.deep_view() + (seq![q.0@] + rest.unwrap().0)
                                    =~= (acc.deep_view() + seq![q.0@]) + rest.unwrap().0);
                            }
                        }
                        acc.push(q.0);
                        cur = q.1;
                        i = i + 1;
                    },
                    None => {
                        proof {
                            assert(input@.skip(pos as int).skip(4) =~= input@.skip(pos2 as int));
                        }
                        return None;
                    },
                }
            }
            proof {
                assert(input@.skip(pos as int).skip(4) =~= input@.skip(pos2 as int));
                assert(spec_read_strings(input@.skip(cur as int), 0nat) == Some(
                    (Seq::<Seq<char>>::empty(), 0int),
                ));
                assert(acc.deep_view() + Seq::<Seq<char>>::empty() =~= acc.deep_view());
            }
            Some((acc, cur))
        },
        None => None,
    }
}

} // verus!
