//! Field encodings inside a frame and their readers. A reader takes the field at
//! the front of some bytes and hands back the value and the bytes after it.

use crate::codec::{
    lemma_var_int_len, lemma_var_int_round_trip, read_var_int, spec_read_var_int,
    var_int_bytes, var_int_len, MQTTCodecError, VarIntRead, MAX_FIELD_LEN, MAX_VAR_INT,
};
use vstd::prelude::*;
use vstd::utf8::*;

verus! {

broadcast use {encode_utf8_valid_utf8, encode_utf8_decode_utf8};

pub open spec fn u16_bytes(v: u16) -> Seq<u8> {
    seq![(v / 256) as u8, (v % 256) as u8]
}

pub open spec fn u32_bytes(v: u32) -> Seq<u8> {
    seq![(v / 16777216) as u8, ((v / 65536) % 256) as u8, ((v / 256) % 256) as u8, (v % 256) as u8]
}

/// Binary data: a two-byte big-endian length, then the bytes.
pub open spec fn binary_field(b: Seq<u8>) -> Seq<u8> {
    u16_bytes(b.len() as u16) + b
}

/// A UTF-8 string: its encoding as binary data.
pub open spec fn utf8_field(c: Seq<char>) -> Seq<u8> {
    binary_field(encode_utf8(c))
}

/// Whether a string fits in a string field.
pub open spec fn fits_field(c: Seq<char>) -> bool {
    encode_utf8(c).len() <= MAX_FIELD_LEN
}

pub open spec fn rest_of(s: Seq<u8>, n: int) -> Seq<u8> {
    s.subrange(n, s.len() as int)
}

pub open spec fn spec_take_u8(s: Seq<u8>) -> Option<(u8, Seq<u8>)> {
    if s.len() >= 1 {
        Some((s[0], rest_of(s, 1)))
    } else {
        None
    }
}

pub open spec fn spec_take_u16(s: Seq<u8>) -> Option<(u16, Seq<u8>)> {
    if s.len() >= 2 {
        Some(((s[0] * 256 + s[1]) as u16, rest_of(s, 2)))
    } else {
        None
    }
}

pub open spec fn spec_take_u32(s: Seq<u8>) -> Option<(u32, Seq<u8>)> {
    if s.len() >= 4 {
        Some(((s[0] * 16777216 + s[1] * 65536 + s[2] * 256 + s[3]) as u32, rest_of(s, 4)))
    } else {
        None
    }
}

pub open spec fn spec_take_var_int(s: Seq<u8>) -> Option<(u32, Seq<u8>)> {
    match spec_read_var_int(s) {
        VarIntRead::Value(v, n) => Some((v, rest_of(s, n as int))),
        _ => None,
    }
}

pub open spec fn spec_take_binary(s: Seq<u8>) -> Option<(Seq<u8>, Seq<u8>)> {
    match spec_take_u16(s) {
        Some((n, r)) => if r.len() >= n {
            Some((r.subrange(0, n as int), rest_of(r, n as int)))
        } else {
            None
        },
        None => None,
    }
}

pub open spec fn spec_take_utf8(s: Seq<u8>) -> Option<(Seq<char>, Seq<u8>)> {
    match spec_take_binary(s) {
        Some((b, r)) => if valid_utf8(b) {
            Some((decode_utf8(b), r))
        } else {
            None
        },
        None => None,
    }
}

pub proof fn lemma_u8_round_trip(v: u8, rest: Seq<u8>)
    ensures
        spec_take_u8(seq![v] + rest) == Some((v, rest)),
{
    assert(rest_of(seq![v] + rest, 1) =~= rest);
}

pub proof fn lemma_u16_round_trip(v: u16, rest: Seq<u8>)
    ensures
        spec_take_u16(u16_bytes(v) + rest) == Some((v, rest)),
{
    assert(rest_of(u16_bytes(v) + rest, 2) =~= rest);
}

pub proof fn lemma_u32_round_trip(v: u32, rest: Seq<u8>)
    ensures
        spec_take_u32(u32_bytes(v) + rest) == Some((v, rest)),
{
    assert(rest_of(u32_bytes(v) + rest, 4) =~= rest);
}

pub proof fn lemma_var_int_take(v: u32, rest: Seq<u8>)
    requires
        v <= MAX_VAR_INT,
    ensures
        spec_take_var_int(var_int_bytes(v as nat) + rest) == Some((v, rest)),
{
    lemma_var_int_round_trip(v as nat, rest);
    lemma_var_int_len(v as nat);
    assert(rest_of(var_int_bytes(v as nat) + rest, var_int_len(v as nat) as int) =~= rest);
}

pub proof fn lemma_binary_round_trip(b: Seq<u8>, rest: Seq<u8>)
    requires
        b.len() <= MAX_FIELD_LEN,
    ensures
        spec_take_binary(binary_field(b) + rest) == Some((b, rest)),
{
    let s = binary_field(b) + rest;
    assert(s =~= u16_bytes(b.len() as u16) + (b + rest));
    lemma_u16_round_trip(b.len() as u16, b + rest);
    assert((b + rest).subrange(0, b.len() as int) =~= b);
    assert(rest_of(b + rest, b.len() as int) =~= rest);
}

pub proof fn lemma_utf8_round_trip(c: Seq<char>, rest: Seq<u8>)
    requires
        fits_field(c),
    ensures
        spec_take_utf8(utf8_field(c) + rest) == Some((c, rest)),
{
    lemma_binary_round_trip(encode_utf8(c), rest);
}

// ---------------------------------------------------------------------------
// Writers
// ---------------------------------------------------------------------------

pub fn push_u16(out: &mut Vec<u8>, v: u16)
    ensures
        final(out)@ == old(out)@ + u16_bytes(v),
{
    out.push((v / 256) as u8);
    out.push((v % 256) as u8);
    assert(out@ =~= old(out)@ + u16_bytes(v));
}

pub fn push_u32(out: &mut Vec<u8>, v: u32)
    ensures
        final(out)@ == old(out)@ + u32_bytes(v),
{
    out.push((v / 16777216) as u8);
    out.push(((v / 65536) % 256) as u8);
    out.push(((v / 256) % 256) as u8);
    out.push((v % 256) as u8);
    assert(out@ =~= old(out)@ + u32_bytes(v));
}

/// Appends the bytes of `src` to `out`.
pub fn push_bytes(out: &mut Vec<u8>, src: &[u8])
    ensures
        final(out)@ == old(out)@ + src@,
{
    let ghost start = out@;
    let mut i: usize = 0;
    while i < src.len()
        invariant
            i <= src@.len(),
            out@ == start + src@.subrange(0, i as int),
        decreases src@.len() - i,
    {
        out.push(src[i]);
        i = i + 1;
        assert(out@ =~= start + src@.subrange(0, i as int));
    }
    assert(src@.subrange(0, i as int) =~= src@);
}

/// A vector holding the bytes of `src`.
pub fn bytes_to_vec(src: &[u8]) -> (r: Vec<u8>)
    ensures
        r@ == src@,
{
    let mut v: Vec<u8> = Vec::new();
    push_bytes(&mut v, src);
    assert(v@ =~= src@);
    v
}

/// Appends `src` as binary data; data longer than 65,535 bytes is an error.
pub fn encode_binary_data(src: &[u8], dest: &mut Vec<u8>) -> (r: Result<(), MQTTCodecError>)
    ensures
        r is Ok <==> src@.len() <= MAX_FIELD_LEN,
        r is Ok ==> final(dest)@ == old(dest)@ + binary_field(src@),
{
    let len = src.len();
    if len > MAX_FIELD_LEN {
        return Err(MQTTCodecError::new("binary data exceeds max length"));
    }
    push_u16(dest, len as u16);
    push_bytes(dest, src);
    assert(dest@ =~= old(dest)@ + binary_field(src@));
    Ok(())
}

/// Appends `src` as a UTF-8 string; strings longer than 65,535 bytes are an error.
pub fn encode_utf8_string(src: &str, dest: &mut Vec<u8>) -> (r: Result<(), MQTTCodecError>)
    ensures
        r is Ok <==> fits_field(src@),
        r is Ok ==> final(dest)@ == old(dest)@ + utf8_field(src@),
{
    let bytes = src.as_bytes();
    if bytes.len() > MAX_FIELD_LEN {
        return Err(MQTTCodecError::new("string exceeds max length"));
    }
    encode_binary_data(bytes, dest)
}

// ---------------------------------------------------------------------------
// Readers
// ---------------------------------------------------------------------------

pub fn take_u8(s: &[u8]) -> (r: Option<(u8, &[u8])>)
    ensures
        match r {
            Some((v, rest)) => spec_take_u8(s@) == Some((v, rest@)),
            None => spec_take_u8(s@) is None,
        },
{
    if s.len() < 1 {
        return None;
    }
    Some((s[0], &s[1..s.len()]))
}

pub fn take_u16(s: &[u8]) -> (r: Option<(u16, &[u8])>)
    ensures
        match r {
            Some((v, rest)) => spec_take_u16(s@) == Some((v, rest@)),
            None => spec_take_u16(s@) is None,
        },
{
    if s.len() < 2 {
        return None;
    }
    let v: u16 = (s[0] as u16) * 256 + (s[1] as u16);
    Some((v, &s[2..s.len()]))
}

pub fn take_u32(s: &[u8]) -> (r: Option<(u32, &[u8])>)
    ensures
        match r {
            Some((v, rest)) => spec_take_u32(s@) == Some((v, rest@)),
            None => spec_take_u32(s@) is None,
        },
{
    if s.len() < 4 {
        return None;
    }
    let v: u32 = (s[0] as u32) * 16777216 + (s[1] as u32) * 65536 + (s[2] as u32) * 256
        + (s[3] as u32);
    Some((v, &s[4..s.len()]))
}

pub fn take_var_int(s: &[u8]) -> (r: Option<(u32, &[u8])>)
    ensures
        match r {
            Some((v, rest)) => spec_take_var_int(s@) == Some((v, rest@)),
            None => spec_take_var_int(s@) is None,
        },
{
    match read_var_int(s) {
        VarIntRead::Value(v, n) => Some((v, &s[n..s.len()])),
        _ => None,
    }
}

pub fn take_binary(s: &[u8]) -> (r: Option<(&[u8], &[u8])>)
    ensures
        match r {
            Some((b, rest)) => spec_take_binary(s@) == Some((b@, rest@)),
            None => spec_take_binary(s@) is None,
        },
{
    match take_u16(s) {
        Some((n, r)) => {
            let n = n as usize;
            if r.len() < n {
                return None;
            }
            Some((&r[0..n], &r[n..r.len()]))
        },
        None => None,
    }
}

/// Relies on `std::str::from_utf8`: it succeeds exactly on valid UTF-8, and the
/// string it gives has those bytes.
#[verifier::external_body]
fn str_from_utf8(v: &[u8]) -> (r: Option<&str>)
    ensures
        r is Some <==> valid_utf8(v@),
        r is Some ==> encode_utf8(r->Some_0@) == v@,
{
    std::str::from_utf8(v).ok()
}

pub fn take_utf8(s: &[u8]) -> (r: Option<(String, &[u8])>)
    ensures
        match r {
            Some((c, rest)) => spec_take_utf8(s@) == Some((c@, rest@)),
            None => spec_take_utf8(s@) is None,
        },
{
    match take_binary(s) {
        Some((b, rest)) => match str_from_utf8(b) {
            Some(text) => {
                proof {
                    encode_utf8_decode_utf8(text@);
                }
                Some((text.to_owned(), rest))
            },
            None => None,
        },
        None => None,
    }
}

} // verus!
