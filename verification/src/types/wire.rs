//! Primitive fields of the wire format: fixed-width little-endian integers,
//! one-byte booleans and option tags, and byte strings behind a 64-bit
//! length. Each field has a spec encoder, a spec parser that returns the value
//! with the unread rest, and executable counterparts of both.

use vstd::bytes::*;
use vstd::prelude::*;
use vstd::slice::*;
use vstd::string::*;
use vstd::utf8::*;

verus! {

pub open spec fn enc_u32(x: u32) -> Seq<u8> {
    spec_u32_to_le_bytes(x)
}

pub open spec fn enc_u64(x: u64) -> Seq<u8> {
    spec_u64_to_le_bytes(x)
}

pub open spec fn enc_bool(b: bool) -> Seq<u8> {
    seq![if b { 1u8 } else { 0u8 }]
}

pub open spec fn enc_opt_u64(o: Option<u64>) -> Seq<u8> {
    match o {
        None => seq![0u8],
        Some(v) => seq![1u8] + enc_u64(v),
    }
}

/// A byte string: its length as a 64-bit integer, then the bytes.
pub open spec fn enc_bytes(b: Seq<u8>) -> Seq<u8> {
    enc_u64(b.len() as u64) + b
}

/// A text: the byte string of its UTF-8 form.
pub open spec fn enc_str(s: Seq<char>) -> Seq<u8> {
    enc_bytes(encode_utf8(s))
}

pub open spec fn dec_u32(b: Seq<u8>) -> Option<(u32, Seq<u8>)> {
    if b.len() >= 4 {
        Some((spec_u32_from_le_bytes(b.subrange(0, 4)), b.skip(4)))
    } else {
        None
    }
}

pub open spec fn dec_u64(b: Seq<u8>) -> Option<(u64, Seq<u8>)> {
    if b.len() >= 8 {
        Some((spec_u64_from_le_bytes(b.subrange(0, 8)), b.skip(8)))
    } else {
        None
    }
}

/// Only the bytes 0 and 1 are booleans.
pub open spec fn dec_bool(b: Seq<u8>) -> Option<(bool, Seq<u8>)> {
    if b.len() >= 1 && b[0] <= 1 {
        Some((b[0] == 1, b.skip(1)))
    } else {
        None
    }
}

/// Tag 0 is `None`, tag 1 is followed by the value, any other tag is refused.
pub open spec fn dec_opt_u64(b: Seq<u8>) -> Option<(Option<u64>, Seq<u8>)> {
    if b.len() >= 1 && b[0] == 0 {
        Some((None, b.skip(1)))
    } else if b.len() >= 1 && b[0] == 1 {
        match dec_u64(b.skip(1)) {
            Some((v, rest)) => Some((Some(v), rest)),
            None => None,
        }
    } else {
        None
    }
}

/// A byte string is refused when fewer bytes follow than its length announces.
pub open spec fn dec_bytes(b: Seq<u8>) -> Option<(Seq<u8>, Seq<u8>)> {
    match dec_u64(b) {
        Some((n, rest)) => if n <= rest.len() {
            Some((rest.subrange(0, n as int), rest.skip(n as int)))
        } else {
            None
        },
        None => None,
    }
}

/// A text is refused when its bytes are not UTF-8.
pub open spec fn dec_str(b: Seq<u8>) -> Option<(Seq<char>, Seq<u8>)> {
    match dec_bytes(b) {
        Some((raw, rest)) => if valid_utf8(raw) {
            Some((decode_utf8(raw), rest))
        } else {
            None
        },
        None => None,
    }
}

pub proof fn lemma_u32_round_trip(x: u32, rest: Seq<u8>)
    ensures
        enc_u32(x).len() == 4,
        dec_u32(enc_u32(x) + rest) == Some((x, rest)),
{
    lemma_auto_spec_u32_to_from_le_bytes();
    let b = enc_u32(x) + rest;
    assert(b.subrange(0, 4) =~= enc_u32(x));
    assert(b.skip(4) =~= rest);
}

pub proof fn lemma_u64_round_trip(x: u64, rest: Seq<u8>)
    ensures
        enc_u64(x).len() == 8,
        dec_u64(enc_u64(x) + rest) == Some((x, rest)),
{
    lemma_auto_spec_u64_to_from_le_bytes();
    let b = enc_u64(x) + rest;
    assert(b.subrange(0, 8) =~= enc_u64(x));
    assert(b.skip(8) =~= rest);
}

pub proof fn lemma_bool_round_trip(x: bool, rest: Seq<u8>)
    ensures
        dec_bool(enc_bool(x) + rest) == Some((x, rest)),
{
    let b = enc_bool(x) + rest;
    assert(b.skip(1) =~= rest);
}

pub proof fn lemma_opt_u64_round_trip(x: Option<u64>, rest: Seq<u8>)
    ensures
        dec_opt_u64(enc_opt_u64(x) + rest) == Some((x, rest)),
{
    let b = enc_opt_u64(x) + rest;
    match x {
        None => {
            assert(b.skip(1) =~= rest);
        },
        Some(v) => {
            assert(b.skip(1) =~= enc_u64(v) + rest);
            lemma_u64_round_trip(v, rest);
        },
    }
}

pub proof fn lemma_bytes_round_trip(x: Seq<u8>, rest: Seq<u8>)
    requires
        x.len() <= u64::MAX,
    ensures
        dec_bytes(enc_bytes(x) + rest) == Some((x, rest)),
{
    let n = x.len() as u64;
    lemma_u64_round_trip(n, x + rest);
    assert(enc_bytes(x) + rest =~= enc_u64(n) + (x + rest));
    assert((x + rest).subrange(0, n as int) =~= x);
    assert((x + rest).skip(n as int) =~= rest);
}

pub proof fn lemma_str_round_trip(x: Seq<char>, rest: Seq<u8>)
    requires
        encode_utf8(x).len() <= u64::MAX,
    ensures
        dec_str(enc_str(x) + rest) == Some((x, rest)),
{
    lemma_bytes_round_trip(encode_utf8(x), rest);
    encode_utf8_valid_utf8(x);
    encode_utf8_decode_utf8(x);
}

/// Appends `src` to `out`.
pub fn put_slice(out: &mut Vec<u8>, src: &[u8])
    ensures
        final(out)@ == old(out)@ + src@,
{
    let mut i: usize = 0;
    while i < src.len()
        invariant
            i <= src@.len(),
            out@ == old(out)@ + src@.subrange(0, i as int),
        decreases src@.len() - i,
    {
        out.push(src[i]);
        i += 1;
        assert(out@ =~= old(out)@ + src@.subrange(0, i as int));
    }
    assert(src@.subrange(0, i as int) =~= src@);
}

pub fn put_u32(out: &mut Vec<u8>, x: u32)
    ensures
        final(out)@ == old(out)@ + enc_u32(x),
{
    let b = u32_to_le_bytes(x);
    put_slice(out, b.as_slice());
}

pub fn put_u64(out: &mut Vec<u8>, x: u64)
    ensures
        final(out)@ == old(out)@ + enc_u64(x),
{
    let b = u64_to_le_bytes(x);
    put_slice(out, b.as_slice());
}

pub fn put_bool(out: &mut Vec<u8>, x: bool)
    ensures
        final(out)@ == old(out)@ + enc_bool(x),
{
    out.push(if x { 1u8 } else { 0u8 });
    assert(out@ =~= old(out)@ + enc_bool(x));
}

pub fn put_opt_u64(out: &mut Vec<u8>, x: Option<u64>)
    ensures
        final(out)@ == old(out)@ + enc_opt_u64(x),
{
    match x {
        None => {
            out.push(0u8);
            assert(out@ =~= old(out)@ + enc_opt_u64(x));
        },
        Some(v) => {
            out.push(1u8);
            put_u64(out, v);
            assert(out@ =~= old(out)@ + enc_opt_u64(x));
        },
    }
}

pub fn put_bytes(out: &mut Vec<u8>, x: &[u8])
    ensures
        final(out)@ == old(out)@ + enc_bytes(x@),
        x@.len() <= u64::MAX,
{
    put_u64(out, x.len() as u64);
    put_slice(out, x);
    assert(out@ =~= old(out)@ + enc_bytes(x@));
}

/// `String::from_utf8` of std, with the error dropped: the text that `bytes`
/// spells when they are well-formed UTF-8, and nothing otherwise.
#[verifier::external_body]
fn string_from_utf8(bytes: Vec<u8>) -> (r: Option<String>)
    ensures
        r is Some <==> valid_utf8(bytes@),
        r is Some ==> r->Some_0@ == decode_utf8(bytes@),
{
    String::from_utf8(bytes).ok()
}

/// What a reader at `pos` in `input` still has before it.
pub open spec fn unread(input: Seq<u8>, pos: usize) -> Seq<u8> {
    input.skip(pos as int)
}

pub fn take_u32(input: &[u8], pos: usize) -> (r: Option<(u32, usize)>)
    requires
        pos <= input@.len(),
    ensures
        match r {
            Some((v, next)) => pos <= next <= input@.len() && dec_u32(unread(input@, pos)) == Some(
                (v, unread(input@, next)),
            ),
            None => dec_u32(unread(input@, pos)) is None,
        },
{
    if input.len() - pos < 4 {
        return None;
    }
    let v = u32_from_le_bytes(slice_subrange(input, pos, pos + 4));
    proof {
        assert(unread(input@, pos).subrange(0, 4) =~= input@.subrange(pos as int, pos + 4));
        assert(unread(input@, pos).skip(4) =~= unread(input@, (pos + 4) as usize));
    }
    Some((v, pos + 4))
}

pub fn take_u64(input: &[u8], pos: usize) -> (r: Option<(u64, usize)>)
    requires
        pos <= input@.len(),
    ensures
        match r {
            Some((v, next)) => pos <= next <= input@.len() && dec_u64(unread(input@, pos)) == Some(
                (v, unread(input@, next)),
            ),
            None => dec_u64(unread(input@, pos)) is None,
        },
{
    if input.len() - pos < 8 {
        return None;
    }
    let v = u64_from_le_bytes(slice_subrange(input, pos, pos + 8));
    proof {
        assert(unread(input@, pos).subrange(0, 8) =~= input@.subrange(pos as int, pos + 8));
        assert(unread(input@, pos).skip(8) =~= unread(input@, (pos + 8) as usize));
    }
    Some((v, pos + 8))
}

pub fn take_bool(input: &[u8], pos: usize) -> (r: Option<(bool, usize)>)
    requires
        pos <= input@.len(),
    ensures
        match r {
            Some((v, next)) => pos <= next <= input@.len() && dec_bool(unread(input@, pos)) == Some(
                (v, unread(input@, next)),
            ),
            None => dec_bool(unread(input@, pos)) is None,
        },
{
    if input.len() - pos < 1 {
        return None;
    }
    let b = input[pos];
    if b > 1 {
        return None;
    }
    proof {
        assert(unread(input@, pos).skip(1) =~= unread(input@, (pos + 1) as usize));
    }
    Some((b == 1, pos + 1))
}

pub fn take_opt_u64(input: &[u8], pos: usize) -> (r: Option<(Option<u64>, usize)>)
    requires
        pos <= input@.len(),
    ensures
        match r {
            Some((v, next)) => pos <= next <= input@.len() && dec_opt_u64(unread(input@, pos))
                == Some((v, unread(input@, next))),
            None => dec_opt_u64(unread(input@, pos)) is None,
        },
{
    if input.len() - pos < 1 {
        return None;
    }
    let tag = input[pos];
    proof {
        assert(unread(input@, pos).skip(1) =~= unread(input@, (pos + 1) as usize));
    }
    if tag == 0 {
        Some((None, pos + 1))
    } else if tag == 1 {
        match take_u64(input, pos + 1) {
            Some((v, next)) => Some((Some(v), next)),
            None => None,
        }
    } else {
        None
    }
}

pub fn take_bytes(input: &[u8], pos: usize) -> (r: Option<(Vec<u8>, usize)>)
    requires
        pos <= input@.len(),
    ensures
        match r {
            Some((v, next)) => pos <= next <= input@.len() && dec_bytes(unread(input@, pos))
                == Some((v@, unread(input@, next))),
            None => dec_bytes(unread(input@, pos)) is None,
        },
{
    let (n, start) = match take_u64(input, pos) {
        Some(p) => p,
        None => { return None; },
    };
    if n > (input.len() - start) as u64 {
        return None;
    }
    let len = n as usize;
    let mut v: Vec<u8> = Vec::new();
    put_slice(&mut v, slice_subrange(input, start, start + len));
    proof {
        let rest = unread(input@, start);
        assert(rest.subrange(0, n as int) =~= input@.subrange(start as int, start + len));
        assert(v@ =~= rest.subrange(0, n as int));
        assert(rest.skip(n as int) =~= unread(input@, (start + len) as usize));
    }
    Some((v, start + len))
}

pub fn take_str(input: &[u8], pos: usize) -> (r: Option<(String, usize)>)
    requires
        pos <= input@.len(),
    ensures
        match r {
            Some((v, next)) => pos <= next <= input@.len() && dec_str(unread(input@, pos)) == Some(
                (v@, unread(input@, next)),
            ),
            None => dec_str(unread(input@, pos)) is None,
        },
{
    let (raw, next) = match take_bytes(input, pos) {
        Some(p) => p,
        None => { return None; },
    };
    match string_from_utf8(raw) {
        Some(s) => Some((s, next)),
        None => None,
    }
}

} // verus!
