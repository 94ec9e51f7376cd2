//! The binary snapshot of a catalogue: how a catalogue is written into bytes
//! and read back, and the proof that reading gives back what was written.
//!
//! Integers are written low byte first. A number that may be absent is one
//! byte, 0 or 1, and then the number where it is there. A text is its length
//! in bytes and then its UTF-8 bytes. A star is its fields in their order; a
//! catalogue is the number of its stars and then the stars.

use crate::decimal::Decimal;
use crate::sim_data::{star_views, text_view, Star, StarView};
use vstd::prelude::*;
use vstd::slice::{slice_subrange, slice_to_vec};
use vstd::utf8::{
    decode_utf8, encode_utf8, encode_utf8_decode_utf8, encode_utf8_valid_utf8, valid_utf8,
};

verus! {

/// The four bytes of an unsigned integer of 32 bits, low byte first.
#[verifier::opaque]
pub open spec fn u32_bytes(x: u32) -> Seq<u8> {
    seq![
        (x as int % 256) as u8,
        (x as int / 256 % 256) as u8,
        (x as int / 65_536 % 256) as u8,
        (x as int / 16_777_216) as u8,
    ]
}

/// The eight bytes of an unsigned integer of 64 bits, low byte first: its
/// low half, then its high half.
pub open spec fn u64_bytes(x: u64) -> Seq<u8> {
    u32_bytes((x as int % 4_294_967_296) as u32) + u32_bytes((x as int / 4_294_967_296) as u32)
}

/// The bytes of a signed integer of 32 bits: those of the unsigned integer
/// that is equal to it modulo 2^32.
pub open spec fn i32_bytes(x: i32) -> Seq<u8> {
    u32_bytes(
        (if x < 0 {
            x + 0x1_0000_0000
        } else {
            x as int
        }) as u32,
    )
}

/// The bytes of a signed integer of 64 bits: those of the unsigned integer
/// that is equal to it modulo 2^64.
pub open spec fn i64_bytes(x: i64) -> Seq<u8> {
    u64_bytes(
        (if x < 0 {
            x + 0x1_0000_0000_0000_0000
        } else {
            x as int
        }) as u64,
    )
}

/// The nine bytes of a decimal: its mantissa, then its scale.
pub open spec fn decimal_bytes(d: Decimal) -> Seq<u8> {
    i64_bytes(d.mantissa) + seq![d.scale]
}

/// The bytes of a text: the length of its UTF-8 form, then that form.
pub open spec fn text_bytes(t: Seq<char>) -> Seq<u8> {
    u64_bytes(encode_utf8(t).len() as u64) + encode_utf8(t)
}

/// The bytes of an unsigned integer that may be absent.
pub open spec fn opt_u32_bytes(o: Option<u32>) -> Seq<u8> {
    match o {
        Some(x) => seq![1u8] + u32_bytes(x),
        None => seq![0u8],
    }
}

/// The bytes of a decimal that may be absent.
pub open spec fn opt_decimal_bytes(o: Option<Decimal>) -> Seq<u8> {
    match o {
        Some(d) => seq![1u8] + decimal_bytes(d),
        None => seq![0u8],
    }
}

/// The bytes of a text that may be absent.
pub open spec fn opt_text_bytes(o: Option<Seq<char>>) -> Seq<u8> {
    match o {
        Some(t) => seq![1u8] + text_bytes(t),
        None => seq![0u8],
    }
}

/// Whether the length of a text, where it is there, can be written: it is
/// so of every text that memory can hold.
pub open spec fn text_fits(o: Option<Seq<char>>) -> bool {
    o matches Some(t) ==> encode_utf8(t).len() <= u64::MAX
}

/// The unsigned integer of 32 bits at the head of `s`, and what follows it.
#[verifier::opaque]
pub open spec fn take_u32(s: Seq<u8>) -> Option<(u32, Seq<u8>)> {
    if s.len() >= 4 {
        Some(((s[0] + 256 * s[1] + 65_536 * s[2] + 16_777_216 * s[3]) as u32, s.skip(4)))
    } else {
        None
    }
}

/// The unsigned integer of 64 bits at the head of `s`, and what follows it.
pub open spec fn take_u64(s: Seq<u8>) -> Option<(u64, Seq<u8>)> {
    match take_u32(s) {
        Some((low, rest)) => match take_u32(rest) {
            Some((high, rest)) => Some(((low + 4_294_967_296 * high) as u64, rest)),
            None => None,
        },
        None => None,
    }
}

/// The signed integer of 32 bits at the head of `s`, and what follows it.
pub open spec fn take_i32(s: Seq<u8>) -> Option<(i32, Seq<u8>)> {
    match take_u32(s) {
        Some((u, rest)) => Some(
            (
                (if u >= 0x8000_0000 {
                    u - 0x1_0000_0000
                } else {
                    u as int
                }) as i32,
                rest,
            ),
        ),
        None => None,
    }
}

/// The signed integer of 64 bits at the head of `s`, and what follows it.
pub open spec fn take_i64(s: Seq<u8>) -> Option<(i64, Seq<u8>)> {
    match take_u64(s) {
        Some((u, rest)) => Some(
            (
                (if u >= 0x8000_0000_0000_0000 {
                    u - 0x1_0000_0000_0000_0000
                } else {
                    u as int
                }) as i64,
                rest,
            ),
        ),
        None => None,
    }
}

/// The decimal at the head of `s`, and what follows it.
pub open spec fn take_decimal(s: Seq<u8>) -> Option<(Decimal, Seq<u8>)> {
    match take_i64(s) {
        Some((mantissa, rest)) => if rest.len() >= 1 {
            Some((Decimal { mantissa, scale: rest[0] }, rest.skip(1)))
        } else {
            None
        },
        None => None,
    }
}

/// The text at the head of `s`, and what follows it. There is none where
/// the length passes the bytes that are left, or where the bytes are not
/// UTF-8.
pub open spec fn take_text(s: Seq<u8>) -> Option<(Seq<char>, Seq<u8>)> {
    match take_u64(s) {
        Some((n, rest)) => if n <= rest.len() && valid_utf8(rest.take(n as int)) {
            Some((decode_utf8(rest.take(n as int)), rest.skip(n as int)))
        } else {
            None
        },
        None => None,
    }
}

/// The unsigned integer that may be absent at the head of `s`, and what
/// follows it.
pub open spec fn take_opt_u32(s: Seq<u8>) -> Option<(Option<u32>, Seq<u8>)> {
    if s.len() == 0 {
        None
    } else if s[0] == 0 {
        Some((None, s.skip(1)))
    } else if s[0] == 1 {
        match take_u32(s.skip(1)) {
            Some((x, rest)) => Some((Some(x), rest)),
            None => None,
        }
    } else {
        None
    }
}

/// The decimal that may be absent at the head of `s`, and what follows it.
pub open spec fn take_opt_decimal(s: Seq<u8>) -> Option<(Option<Decimal>, Seq<u8>)> {
    if s.len() == 0 {
        None
    } else if s[0] == 0 {
        Some((None, s.skip(1)))
    } else if s[0] == 1 {
        match take_decimal(s.skip(1)) {
            Some((x, rest)) => Some((Some(x), rest)),
            None => None,
        }
    } else {
        None
    }
}

/// The text that may be absent at the head of `s`, and what follows it.
pub open spec fn take_opt_text(s: Seq<u8>) -> Option<(Option<Seq<char>>, Seq<u8>)> {
    if s.len() == 0 {
        None
    } else if s[0] == 0 {
        Some((None, s.skip(1)))
    } else if s[0] == 1 {
        match take_text(s.skip(1)) {
            Some((x, rest)) => Some((Some(x), rest)),
            None => None,
        }
    } else {
        None
    }
}

/// Joining three runs of bytes gives the same bytes however they are
/// grouped.
pub proof fn lemma_concat_assoc(a: Seq<u8>, b: Seq<u8>, c: Seq<u8>)
    ensures
        (a + b) + c == a + (b + c),
{
    assert((a + b) + c =~= a + (b + c));
}

/// An unsigned integer of 32 bits is read back as it was written.
pub proof fn lemma_take_u32(x: u32, rest: Seq<u8>)
    ensures
        take_u32(u32_bytes(x) + rest) == Some((x, rest)),
{
    reveal(u32_bytes);
    reveal(take_u32);
    let s = u32_bytes(x) + rest;
    assert(s.skip(4) =~= rest);
}

/// An unsigned integer of 64 bits is read back as it was written.
pub proof fn lemma_take_u64(x: u64, rest: Seq<u8>)
    ensures
        take_u64(u64_bytes(x) + rest) == Some((x, rest)),
{
    let low = (x as int % 4_294_967_296) as u32;
    let high = (x as int / 4_294_967_296) as u32;
    let tail = u32_bytes(high) + rest;
    assert(u64_bytes(x) + rest =~= u32_bytes(low) + tail);
    lemma_take_u32(low, tail);
    lemma_take_u32(high, rest);
}

/// A signed integer of 32 bits is read back as it was written.
pub proof fn lemma_take_i32(x: i32, rest: Seq<u8>)
    ensures
        take_i32(i32_bytes(x) + rest) == Some((x, rest)),
{
    let u = (if x < 0 {
        x + 0x1_0000_0000
    } else {
        x as int
    }) as u32;
    lemma_take_u32(u, rest);
}

/// A signed integer of 64 bits is read back as it was written.
pub proof fn lemma_take_i64(x: i64, rest: Seq<u8>)
    ensures
        take_i64(i64_bytes(x) + rest) == Some((x, rest)),
{
    let u = (if x < 0 {
        x + 0x1_0000_0000_0000_0000
    } else {
        x as int
    }) as u64;
    lemma_take_u64(u, rest);
}

/// A decimal is read back as it was written.
pub proof fn lemma_take_decimal(d: Decimal, rest: Seq<u8>)
    ensures
        take_decimal(decimal_bytes(d) + rest) == Some((d, rest)),
{
    let tail = seq![d.scale] + rest;
    assert(decimal_bytes(d) + rest =~= i64_bytes(d.mantissa) + tail);
    lemma_take_i64(d.mantissa, tail);
    assert(tail.skip(1) =~= rest);
}

/// A text is read back as it was written.
pub proof fn lemma_take_text(t: Seq<char>, rest: Seq<u8>)
    requires
        encode_utf8(t).len() <= u64::MAX,
    ensures
        take_text(text_bytes(t) + rest) == Some((t, rest)),
{
    let body = encode_utf8(t);
    let tail = body + rest;
    assert(text_bytes(t) + rest =~= u64_bytes(body.len() as u64) + tail);
    lemma_take_u64(body.len() as u64, tail);
    assert(tail.take(body.len() as int) =~= body);
    assert(tail.skip(body.len() as int) =~= rest);
    encode_utf8_valid_utf8(t);
    encode_utf8_decode_utf8(t);
}

/// An unsigned integer that may be absent is read back as it was written.
pub proof fn lemma_take_opt_u32(o: Option<u32>, rest: Seq<u8>)
    ensures
        take_opt_u32(opt_u32_bytes(o) + rest) == Some((o, rest)),
{
    let s = opt_u32_bytes(o) + rest;
    match o {
        Some(x) => {
            assert(s.skip(1) =~= u32_bytes(x) + rest);
            lemma_take_u32(x, rest);
        },
        None => {
            assert(s.skip(1) =~= rest);
        },
    }
}

/// A decimal that may be absent is read back as it was written.
pub proof fn lemma_take_opt_decimal(o: Option<Decimal>, rest: Seq<u8>)
    ensures
        take_opt_decimal(opt_decimal_bytes(o) + rest) == Some((o, rest)),
{
    let s = opt_decimal_bytes(o) + rest;
    match o {
        Some(x) => {
            assert(s.skip(1) =~= decimal_bytes(x) + rest);
            lemma_take_decimal(x, rest);
        },
        None => {
            assert(s.skip(1) =~= rest);
        },
    }
}

/// A text that may be absent is read back as it was written.
pub proof fn lemma_take_opt_text(o: Option<Seq<char>>, rest: Seq<u8>)
    requires
        text_fits(o),
    ensures
        take_opt_text(opt_text_bytes(o) + rest) == Some((o, rest)),
{
    let s = opt_text_bytes(o) + rest;
    match o {
        Some(x) => {
            assert(s.skip(1) =~= text_bytes(x) + rest);
            lemma_take_text(x, rest);
        },
        None => {
            assert(s.skip(1) =~= rest);
        },
    }
}

/// Writes an unsigned integer of 32 bits.
fn write_u32(out: &mut Vec<u8>, x: u32)
    ensures
        final(out)@ == old(out)@ + u32_bytes(x),
{
    out.push((x % 256) as u8);
    out.push((x / 256 % 256) as u8);
    out.push((x / 65_536 % 256) as u8);
    out.push((x / 16_777_216) as u8);
    proof {
        reveal(u32_bytes);
    }
    assert(out@ =~= old(out)@ + u32_bytes(x));
}

/// Writes an unsigned integer of 64 bits.
fn write_u64(out: &mut Vec<u8>, x: u64)
    ensures
        final(out)@ == old(out)@ + u64_bytes(x),
{
    write_u32(out, (x % 4_294_967_296) as u32);
    write_u32(out, (x / 4_294_967_296) as u32);
    assert(out@ =~= old(out)@ + u64_bytes(x));
}

/// Writes a signed integer of 32 bits.
fn write_i32(out: &mut Vec<u8>, x: i32)
    ensures
        final(out)@ == old(out)@ + i32_bytes(x),
{
    let u: u32 = if x < 0 {
        (x as i64 + 0x1_0000_0000) as u32
    } else {
        x as u32
    };
    write_u32(out, u);
}

/// Writes a decimal.
fn write_decimal(out: &mut Vec<u8>, d: &Decimal)
    ensures
        final(out)@ == old(out)@ + decimal_bytes(*d),
{
    let u: u64 = if d.mantissa < 0 {
        (d.mantissa as i128 + 0x1_0000_0000_0000_0000) as u64
    } else {
        d.mantissa as u64
    };
    write_u64(out, u);
    out.push(d.scale);
    assert(out@ =~= old(out)@ + decimal_bytes(*d));
}

/// Writes a text.
fn write_text(out: &mut Vec<u8>, t: &String)
    ensures
        final(out)@ == old(out)@ + text_bytes(t@),
        encode_utf8(t@).len() <= u64::MAX,
{
    let bytes = t.as_str().as_bytes();
    let n = bytes.len();
    write_u64(out, n as u64);
    let ghost headed = out@;
    let mut i: usize = 0;
    while i < n
        invariant
            i <= n == bytes@.len(),
            out@ == headed + bytes@.take(i as int),
        decreases n - i,
    {
        out.push(bytes[i]);
        i = i + 1;
        assert(out@ =~= headed + bytes@.take(i as int));
    }
    assert(bytes@.take(n as int) =~= bytes@);
    assert(out@ =~= old(out)@ + text_bytes(t@));
}

/// Writes an unsigned integer that may be absent.
fn write_opt_u32(out: &mut Vec<u8>, o: &Option<u32>)
    ensures
        final(out)@ == old(out)@ + opt_u32_bytes(*o),
{
    match o {
        Some(x) => {
            out.push(1);
            write_u32(out, *x);
        },
        None => {
            out.push(0);
        },
    }
    assert(out@ =~= old(out)@ + opt_u32_bytes(*o));
}

/// Writes a decimal that may be absent.
fn write_opt_decimal(out: &mut Vec<u8>, o: &Option<Decimal>)
    ensures
        final(out)@ == old(out)@ + opt_decimal_bytes(*o),
{
    match o {
        Some(d) => {
            out.push(1);
            write_decimal(out, d);
        },
        None => {
            out.push(0);
        },
    }
    assert(out@ =~= old(out)@ + opt_decimal_bytes(*o));
}

/// Writes a text that may be absent.
fn write_opt_text(out: &mut Vec<u8>, o: &Option<String>)
    ensures
        final(out)@ == old(out)@ + opt_text_bytes(text_view(*o)),
        text_fits(text_view(*o)),
{
    match o {
        Some(t) => {
            out.push(1);
            write_text(out, t);
        },
        None => {
            out.push(0);
        },
    }
    assert(out@ =~= old(out)@ + opt_text_bytes(text_view(*o)));
}

/// The text that `bytes` hold in UTF-8, where they hold one.
///
/// Calls `String::from_utf8` of std. std documents that it returns the
/// string made of these very bytes when they are valid UTF-8, and an error
/// when they are not.
#[verifier::external_body]
fn string_from_utf8(bytes: Vec<u8>) -> (r: Option<String>)
    ensures
        r is Some <==> valid_utf8(bytes@),
        r matches Some(s) ==> encode_utf8(s@) == bytes@,
{
    String::from_utf8(bytes).ok()
}

/// Reads an unsigned integer of 32 bits at `pos`.
fn read_u32(bytes: &[u8], pos: usize) -> (r: Option<(u32, usize)>)
    requires
        pos <= bytes@.len(),
    ensures
        match r {
            Some((x, next)) => pos <= next <= bytes@.len() && take_u32(bytes@.skip(pos as int))
                == Some((x, bytes@.skip(next as int))),
            None => take_u32(bytes@.skip(pos as int)) is None,
        },
{
    if bytes.len() - pos < 4 {
        proof {
            reveal(take_u32);
        }
        return None;
    }
    let b0 = bytes[pos] as u32;
    let b1 = bytes[pos + 1] as u32;
    let b2 = bytes[pos + 2] as u32;
    let b3 = bytes[pos + 3] as u32;
    proof {
        reveal(take_u32);
    }
    assert(bytes@.skip(pos as int).skip(4) =~= bytes@.skip(pos + 4));
    Some((b0 + 256 * b1 + 65_536 * b2 + 16_777_216 * b3, pos + 4))
}

/// Reads an unsigned integer of 64 bits at `pos`.
fn read_u64(bytes: &[u8], pos: usize) -> (r: Option<(u64, usize)>)
    requires
        pos <= bytes@.len(),
    ensures
        match r {
            Some((x, next)) => pos <= next <= bytes@.len() && take_u64(bytes@.skip(pos as int))
                == Some((x, bytes@.skip(next as int))),
            None => take_u64(bytes@.skip(pos as int)) is None,
        },
{
    match read_u32(bytes, pos) {
        Some((low, middle)) => match read_u32(bytes, middle) {
            Some((high, next)) => Some((low as u64 + 4_294_967_296 * (high as u64), next)),
            None => None,
        },
        None => None,
    }
}

/// Reads a signed integer of 32 bits at `pos`.
fn read_i32(bytes: &[u8], pos: usize) -> (r: Option<(i32, usize)>)
    requires
        pos <= bytes@.len(),
    ensures
        match r {
            Some((x, next)) => pos <= next <= bytes@.len() && take_i32(bytes@.skip(pos as int))
                == Some((x, bytes@.skip(next as int))),
            None => take_i32(bytes@.skip(pos as int)) is None,
        },
{
    match read_u32(bytes, pos) {
        Some((u, next)) => {
            let x: i32 = if u >= 0x8000_0000 {
                (u as i64 - 0x1_0000_0000) as i32
            } else {
                u as i32
            };
            Some((x, next))
        },
        None => None,
    }
}

/// Reads a decimal at `pos`.
fn read_decimal(bytes: &[u8], pos: usize) -> (r: Option<(Decimal, usize)>)
    requires
        pos <= bytes@.len(),
    ensures
        match r {
            Some((x, next)) => pos <= next <= bytes@.len() && take_decimal(
                bytes@.skip(pos as int),
            ) == Some((x, bytes@.skip(next as int))),
            None => take_decimal(bytes@.skip(pos as int)) is None,
        },
{
    match read_u64(bytes, pos) {
        Some((u, next)) => {
            let mantissa: i64 = if u >= 0x8000_0000_0000_0000 {
                (u as i128 - 0x1_0000_0000_0000_0000) as i64
            } else {
                u as i64
            };
            if next >= bytes.len() {
                return None;
            }
            let scale = bytes[next];
            assert(bytes@.skip(next as int).skip(1) =~= bytes@.skip(next + 1));
            Some((Decimal { mantissa, scale }, next + 1))
        },
        None => None,
    }
}

/// Reads a text at `pos`.
fn read_text(bytes: &[u8], pos: usize) -> (r: Option<(String, usize)>)
    requires
        pos <= bytes@.len(),
    ensures
        match r {
            Some((x, next)) => pos <= next <= bytes@.len() && take_text(bytes@.skip(pos as int))
                == Some((x@, bytes@.skip(next as int))),
            None => take_text(bytes@.skip(pos as int)) is None,
        },
{
    match read_u64(bytes, pos) {
        Some((n, next)) => {
            if n > (bytes.len() - next) as u64 {
                return None;
            }
            let end: usize = next + n as usize;
            let chunk = slice_to_vec(slice_subrange(bytes, next, end));
            proof {
                assert(bytes@.skip(next as int).take(n as int) =~= chunk@);
                assert(bytes@.skip(next as int).skip(n as int) =~= bytes@.skip(end as int));
            }
            match string_from_utf8(chunk) {
                Some(text) => {
                    proof {
                        encode_utf8_decode_utf8(text@);
                    }
                    Some((text, end))
                },
                None => None,
            }
        },
        None => None,
    }
}

/// Reads an unsigned integer that may be absent at `pos`.
fn read_opt_u32(bytes: &[u8], pos: usize) -> (r: Option<(Option<u32>, usize)>)
    requires
        pos <= bytes@.len(),
    ensures
        match r {
            Some((x, next)) => pos <= next <= bytes@.len() && take_opt_u32(
                bytes@.skip(pos as int),
            ) == Some((x, bytes@.skip(next as int))),
            None => take_opt_u32(bytes@.skip(pos as int)) is None,
        },
{
    if pos >= bytes.len() {
        return None;
    }
    let tag = bytes[pos];
    assert(bytes@.skip(pos as int).skip(1) =~= bytes@.skip(pos + 1));
    if tag == 0 {
        Some((None, pos + 1))
    } else if tag == 1 {
        match read_u32(bytes, pos + 1) {
            Some((x, next)) => Some((Some(x), next)),
            None => None,
        }
    } else {
        None
    }
}

/// Reads a decimal that may be absent at `pos`.
fn read_opt_decimal(bytes: &[u8], pos: usize) -> (r: Option<(Option<Decimal>, usize)>)
    requires
        pos <= bytes@.len(),
    ensures
        match r {
            Some((x, next)) => pos <= next <= bytes@.len() && take_opt_decimal(
                bytes@.skip(pos as int),
            ) == Some((x, bytes@.skip(next as int))),
            None => take_opt_decimal(bytes@.skip(pos as int)) is None,
        },
{
    if pos >= bytes.len() {
        return None;
    }
    let tag = bytes[pos];
    assert(bytes@.skip(pos as int).skip(1) =~= bytes@.skip(pos + 1));
    if tag == 0 {
        Some((None, pos + 1))
    } else if tag == 1 {
        match read_decimal(bytes, pos + 1) {
            Some((x, next)) => Some((Some(x), next)),
            None => None,
        }
    } else {
        None
    }
}

/// Reads a text that may be absent at `pos`.
fn read_opt_text(bytes: &[u8], pos: usize) -> (r: Option<(Option<String>, usize)>)
    requires
        pos <= bytes@.len(),
    ensures
        match r {
            Some((x, next)) => pos <= next <= bytes@.len() && take_opt_text(
                bytes@.skip(pos as int),
            ) == Some((text_view(x), bytes@.skip(next as int))),
            None => take_opt_text(bytes@.skip(pos as int)) is None,
        },
{
    if pos >= bytes.len() {
        return None;
    }
    let tag = bytes[pos];
    assert(bytes@.skip(pos as int).skip(1) =~= bytes@.skip(pos + 1));
    if tag == 0 {
        Some((None, pos + 1))
    } else if tag == 1 {
        match read_text(bytes, pos + 1) {
            Some((x, next)) => Some((Some(x), next)),
            None => None,
        }
    } else {
        None
    }
}

/// The bytes of the numbers and names by which a star is known.
#[verifier::opaque]
pub open spec fn identity_bytes(v: StarView) -> Seq<u8> {
    u32_bytes(v.id)
        + opt_u32_bytes(v.hipparcos)
        + opt_u32_bytes(v.henry_draper)
        + opt_u32_bytes(v.harvard_revised)
        + opt_u32_bytes(v.gliese)
        + opt_text_bytes(v.bayer_flamsteed)
        + opt_text_bytes(v.common_name)
}

/// The fields of `identity_bytes` at the head of `s`, and what follows them.
#[verifier::opaque]
pub open spec fn take_identity(s: Seq<u8>) -> Option<
    (
        (
            u32,
            Option<u32>,
            Option<u32>,
            Option<u32>,
            Option<u32>,
            Option<Seq<char>>,
            Option<Seq<char>>,
        ),
        Seq<u8>,
    ),
> {
    match take_u32(s) {
        Some((id, s)) => match take_opt_u32(s) {
            Some((hipparcos, s)) => match take_opt_u32(s) {
                Some((henry_draper, s)) => match take_opt_u32(s) {
                    Some((harvard_revised, s)) => match take_opt_u32(s) {
                        Some((gliese, s)) => match take_opt_text(s) {
                            Some((bayer_flamsteed, s)) => match take_opt_text(s) {
                                Some((common_name, s)) => Some(
                                    (
                                        (
                                            id,
                                            hipparcos,
                                            henry_draper,
                                            harvard_revised,
                                            gliese,
                                            bayer_flamsteed,
                                            common_name,
                                        ),
                                        s,
                                    ),
                                ),
                                None => None,
                            },
                            None => None,
                        },
                        None => None,
                    },
                    None => None,
                },
                None => None,
            },
            None => None,
        },
        None => None,
    }
}

/// The fields of `identity_bytes` are read back as they were written.
pub proof fn lemma_take_identity(v: StarView, rest: Seq<u8>)
    requires
        text_fits(v.bayer_flamsteed),
        text_fits(v.common_name),
    ensures
        take_identity(identity_bytes(v) + rest) == Some(
            (
                (
                    v.id,
                    v.hipparcos,
                    v.henry_draper,
                    v.harvard_revised,
                    v.gliese,
                    v.bayer_flamsteed,
                    v.common_name,
                ),
                rest,
            ),
        ),
{
    reveal(identity_bytes);
    reveal(take_identity);
    let id = u32_bytes(v.id);
    let hipparcos = opt_u32_bytes(v.hipparcos);
    let henry_draper = opt_u32_bytes(v.henry_draper);
    let harvard_revised = opt_u32_bytes(v.harvard_revised);
    let gliese = opt_u32_bytes(v.gliese);
    let bayer_flamsteed = opt_text_bytes(v.bayer_flamsteed);
    let common_name = opt_text_bytes(v.common_name);
    let after_common_name = rest;
    lemma_take_opt_text(v.common_name, after_common_name);
    let after_bayer_flamsteed = common_name + after_common_name;
    lemma_take_opt_text(v.bayer_flamsteed, after_bayer_flamsteed);
    let after_gliese = bayer_flamsteed + after_bayer_flamsteed;
    lemma_take_opt_u32(v.gliese, after_gliese);
    let after_harvard_revised = gliese + after_gliese;
    lemma_take_opt_u32(v.harvard_revised, after_harvard_revised);
    let after_henry_draper = harvard_revised + after_harvard_revised;
    lemma_take_opt_u32(v.henry_draper, after_henry_draper);
    let after_hipparcos = henry_draper + after_henry_draper;
    lemma_take_opt_u32(v.hipparcos, after_hipparcos);
    let after_id = hipparcos + after_hipparcos;
    lemma_take_u32(v.id, after_id);
    lemma_concat_assoc(
        id + hipparcos + henry_draper + harvard_revised + gliese + bayer_flamsteed,
        common_name,
        after_common_name,
    );
    lemma_concat_assoc(
        id + hipparcos + henry_draper + harvard_revised + gliese,
        bayer_flamsteed,
        after_bayer_flamsteed,
    );
    lemma_concat_assoc(id + hipparcos + henry_draper + harvard_revised, gliese, after_gliese);
    lemma_concat_assoc(id + hipparcos + henry_draper, harvard_revised, after_harvard_revised);
    lemma_concat_assoc(id + hipparcos, henry_draper, after_henry_draper);
    lemma_concat_assoc(id, hipparcos, after_hipparcos);
}

/// Writes the numbers and names by which a star is known.
fn write_identity(out: &mut Vec<u8>, star: &Star)
    ensures
        final(out)@ == old(out)@ + identity_bytes(star@),
        text_fits(star@.bayer_flamsteed),
        text_fits(star@.common_name),
{
    write_u32(out, star.id);
    write_opt_u32(out, &star.hipparcos);
    write_opt_u32(out, &star.henry_draper);
    write_opt_u32(out, &star.harvard_revised);
    write_opt_u32(out, &star.gliese);
    write_opt_text(out, &star.bayer_flamsteed);
    write_opt_text(out, &star.common_name);
    proof {
        reveal(identity_bytes);
    }
    assert(out@ =~= old(out)@ + identity_bytes(star@));
}

/// Reads the numbers and names by which a star is known, at `pos`.
fn read_identity(bytes: &[u8], pos: usize) -> (r: Option<
    (
        (u32, Option<u32>, Option<u32>, Option<u32>, Option<u32>, Option<String>, Option<String>),
        usize,
    ),
>)
    requires
        pos <= bytes@.len(),
    ensures
        match r {
            Some((t, next)) => pos <= next <= bytes@.len() && take_identity(
                bytes@.skip(pos as int),
            ) == Some(
                (
                    (t.0, t.1, t.2, t.3, t.4, text_view(t.5), text_view(t.6)),
                    bytes@.skip(next as int),
                ),
            ),
            None => take_identity(bytes@.skip(pos as int)) is None,
        },
{
    proof {
        reveal(take_identity);
    }
    let (id, pos) = match read_u32(bytes, pos) {
        Some(found) => found,
        None => {
            return None;
        },
    };
    let (hipparcos, pos) = match read_opt_u32(bytes, pos) {
        Some(found) => found,
        None => {
            return None;
        },
    };
    let (henry_draper, pos) = match read_opt_u32(bytes, pos) {
        Some(found) => found,
        None => {
            return None;
        },
    };
    let (harvard_revised, pos) = match read_opt_u32(bytes, pos) {
        Some(found) => found,
        None => {
            return None;
        },
    };
    let (gliese, pos) = match read_opt_u32(bytes, pos) {
        Some(found) => found,
        None => {
            return None;
        },
    };
    let (bayer_flamsteed, pos) = match read_opt_text(bytes, pos) {
        Some(found) => found,
        None => {
            return None;
        },
    };
    let (common_name, pos) = match read_opt_text(bytes, pos) {
        Some(found) => found,
        None => {
            return None;
        },
    };
    Some(
        (
            (id, hipparcos, henry_draper, harvard_revised, gliese, bayer_flamsteed, common_name),
            pos,
        ),
    )
}

/// The bytes of where a star stands in the sky, how far, and how it moves across the sky.
#[verifier::opaque]
pub open spec fn position_bytes(v: StarView) -> Seq<u8> {
    decimal_bytes(v.ra)
        + decimal_bytes(v.dec)
        + decimal_bytes(v.distance)
        + opt_decimal_bytes(v.pmra)
        + opt_decimal_bytes(v.pmdec)
}

/// The fields of `position_bytes` at the head of `s`, and what follows them.
#[verifier::opaque]
pub open spec fn take_position(s: Seq<u8>) -> Option<
    (
        (Decimal, Decimal, Decimal, Option<Decimal>, Option<Decimal>),
        Seq<u8>,
    ),
> {
    match take_decimal(s) {
        Some((ra, s)) => match take_decimal(s) {
            Some((dec, s)) => match take_decimal(s) {
                Some((distance, s)) => match take_opt_decimal(s) {
                    Some((pmra, s)) => match take_opt_decimal(s) {
                        Some((pmdec, s)) => Some(((ra, dec, distance, pmra, pmdec), s)),
                        None => None,
                    },
                    None => None,
                },
                None => None,
            },
            None => None,
        },
        None => None,
    }
}

/// The fields of `position_bytes` are read back as they were written.
pub proof fn lemma_take_position(v: StarView, rest: Seq<u8>)
    ensures
        take_position(position_bytes(v) + rest) == Some(
            (
                (v.ra, v.dec, v.distance, v.pmra, v.pmdec),
                rest,
            ),
        ),
{
    reveal(position_bytes);
    reveal(take_position);
    let ra = decimal_bytes(v.ra);
    let dec = decimal_bytes(v.dec);
    let distance = decimal_bytes(v.distance);
    let pmra = opt_decimal_bytes(v.pmra);
    let pmdec = opt_decimal_bytes(v.pmdec);
    let after_pmdec = rest;
    lemma_take_opt_decimal(v.pmdec, after_pmdec);
    let after_pmra = pmdec + after_pmdec;
    lemma_take_opt_decimal(v.pmra, after_pmra);
    let after_distance = pmra + after_pmra;
    lemma_take_decimal(v.distance, after_distance);
    let after_dec = distance + after_distance;
    lemma_take_decimal(v.dec, after_dec);
    let after_ra = dec + after_dec;
    lemma_take_decimal(v.ra, after_ra);
    lemma_concat_assoc(ra + dec + distance + pmra, pmdec, after_pmdec);
    lemma_concat_assoc(ra + dec + distance, pmra, after_pmra);
    lemma_concat_assoc(ra + dec, distance, after_distance);
    lemma_concat_assoc(ra, dec, after_dec);
}

/// Writes where a star stands in the sky, how far, and how it moves across the sky.
fn write_position(out: &mut Vec<u8>, star: &Star)
    ensures
        final(out)@ == old(out)@ + position_bytes(star@),
{
    write_decimal(out, &star.ra);
    write_decimal(out, &star.dec);
    write_decimal(out, &star.distance);
    write_opt_decimal(out, &star.pmra);
    write_opt_decimal(out, &star.pmdec);
    proof {
        reveal(position_bytes);
    }
    assert(out@ =~= old(out)@ + position_bytes(star@));
}

/// Reads where a star stands in the sky, how far, and how it moves across the sky, at `pos`.
fn read_position(bytes: &[u8], pos: usize) -> (r: Option<
    (
        (Decimal, Decimal, Decimal, Option<Decimal>, Option<Decimal>),
        usize,
    ),
>)
    requires
        pos <= bytes@.len(),
    ensures
        match r {
            Some((t, next)) => pos <= next <= bytes@.len() && take_position(
                bytes@.skip(pos as int),
            ) == Some(
                (
                    (t.0, t.1, t.2, t.3, t.4),
                    bytes@.skip(next as int),
                ),
            ),
            None => take_position(bytes@.skip(pos as int)) is None,
        },
{
    proof {
        reveal(take_position);
    }
    let (ra, pos) = match read_decimal(bytes, pos) {
        Some(found) => found,
        None => {
            return None;
        },
    };
    let (dec, pos) = match read_decimal(bytes, pos) {
        Some(found) => found,
        None => {
            return None;
        },
    };
    let (distance, pos) = match read_decimal(bytes, pos) {
        Some(found) => found,
        None => {
            return None;
        },
    };
    let (pmra, pos) = match read_opt_decimal(bytes, pos) {
        Some(found) => found,
        None => {
            return None;
        },
    };
    let (pmdec, pos) = match read_opt_decimal(bytes, pos) {
        Some(found) => found,
        None => {
            return None;
        },
    };
    Some(
        (
            (ra, dec, distance, pmra, pmdec),
            pos,
        ),
    )
}

/// The bytes of the light of a star as it is measured.
#[verifier::opaque]
pub open spec fn photometry_bytes(v: StarView) -> Seq<u8> {
    opt_decimal_bytes(v.radial_velocity)
        + decimal_bytes(v.magnitude)
        + decimal_bytes(v.abs_magnitude)
        + opt_text_bytes(v.spectral_type)
        + opt_decimal_bytes(v.color_index)
}

/// The fields of `photometry_bytes` at the head of `s`, and what follows them.
#[verifier::opaque]
pub open spec fn take_photometry(s: Seq<u8>) -> Option<
    (
        (Option<Decimal>, Decimal, Decimal, Option<Seq<char>>, Option<Decimal>),
        Seq<u8>,
    ),
> {
    match take_opt_decimal(s) {
        Some((radial_velocity, s)) => match take_decimal(s) {
            Some((magnitude, s)) => match take_decimal(s) {
                Some((abs_magnitude, s)) => match take_opt_text(s) {
                    Some((spectral_type, s)) => match take_opt_decimal(s) {
                        Some((color_index, s)) => Some(
                            (
                                (
                                    radial_velocity,
                                    magnitude,
                                    abs_magnitude,
                                    spectral_type,
                                    color_index,
                                ),
                                s,
                            ),
                        ),
                        None => None,
                    },
                    None => None,
                },
                None => None,
            },
            None => None,
        },
        None => None,
    }
}

/// The fields of `photometry_bytes` are read back as they were written.
pub proof fn lemma_take_photometry(v: StarView, rest: Seq<u8>)
    requires
        text_fits(v.spectral_type),
    ensures
        take_photometry(photometry_bytes(v) + rest) == Some(
            (
                (v.radial_velocity, v.magnitude, v.abs_magnitude, v.spectral_type, v.color_index),
                rest,
            ),
        ),
{
    reveal(photometry_bytes);
    reveal(take_photometry);
    let radial_velocity = opt_decimal_bytes(v.radial_velocity);
    let magnitude = decimal_bytes(v.magnitude);
    let abs_magnitude = decimal_bytes(v.abs_magnitude);
    let spectral_type = opt_text_bytes(v.spectral_type);
    let color_index = opt_decimal_bytes(v.color_index);
    let after_color_index = rest;
    lemma_take_opt_decimal(v.color_index, after_color_index);
    let after_spectral_type = color_index + after_color_index;
    lemma_take_opt_text(v.spectral_type, after_spectral_type);
    let after_abs_magnitude = spectral_type + after_spectral_type;
    lemma_take_decimal(v.abs_magnitude, after_abs_magnitude);
    let after_magnitude = abs_magnitude + after_abs_magnitude;
    lemma_take_decimal(v.magnitude, after_magnitude);
    let after_radial_velocity = magnitude + after_magnitude;
    lemma_take_opt_decimal(v.radial_velocity, after_radial_velocity);
    lemma_concat_assoc(
        radial_velocity + magnitude + abs_magnitude + spectral_type,
        color_index,
        after_color_index,
    );
    lemma_concat_assoc(
        radial_velocity + magnitude + abs_magnitude,
        spectral_type,
        after_spectral_type,
    );
    lemma_concat_assoc(radial_velocity + magnitude, abs_magnitude, after_abs_magnitude);
    lemma_concat_assoc(radial_velocity, magnitude, after_magnitude);
}

/// Writes the light of a star as it is measured.
fn write_photometry(out: &mut Vec<u8>, star: &Star)
    ensures
        final(out)@ == old(out)@ + photometry_bytes(star@),
        text_fits(star@.spectral_type),
{
    write_opt_decimal(out, &star.radial_velocity);
    write_decimal(out, &star.magnitude);
    write_decimal(out, &star.abs_magnitude);
    write_opt_text(out, &star.spectral_type);
    write_opt_decimal(out, &star.color_index);
    proof {
        reveal(photometry_bytes);
    }
    assert(out@ =~= old(out)@ + photometry_bytes(star@));
}

/// Reads the light of a star as it is measured, at `pos`.
fn read_photometry(bytes: &[u8], pos: usize) -> (r: Option<
    (
        (Option<Decimal>, Decimal, Decimal, Option<String>, Option<Decimal>),
        usize,
    ),
>)
    requires
        pos <= bytes@.len(),
    ensures
        match r {
            Some((t, next)) => pos <= next <= bytes@.len() && take_photometry(
                bytes@.skip(pos as int),
            ) == Some(
                (
                    (t.0, t.1, t.2, text_view(t.3), t.4),
                    bytes@.skip(next as int),
                ),
            ),
            None => take_photometry(bytes@.skip(pos as int)) is None,
        },
{
    proof {
        reveal(take_photometry);
    }
    let (radial_velocity, pos) = match read_opt_decimal(bytes, pos) {
        Some(found) => found,
        None => {
            return None;
        },
    };
    let (magnitude, pos) = match read_decimal(bytes, pos) {
        Some(found) => found,
        None => {
            return None;
        },
    };
    let (abs_magnitude, pos) = match read_decimal(bytes, pos) {
        Some(found) => found,
        None => {
            return None;
        },
    };
    let (spectral_type, pos) = match read_opt_text(bytes, pos) {
        Some(found) => found,
        None => {
            return None;
        },
    };
    let (color_index, pos) = match read_opt_decimal(bytes, pos) {
        Some(found) => found,
        None => {
            return None;
        },
    };
    Some(
        (
            (radial_velocity, magnitude, abs_magnitude, spectral_type, color_index),
            pos,
        ),
    )
}

/// The bytes of where a star stands in space, and how it moves there.
#[verifier::opaque]
pub open spec fn motion_bytes(v: StarView) -> Seq<u8> {
    decimal_bytes(v.x)
        + decimal_bytes(v.y)
        + decimal_bytes(v.z)
        + decimal_bytes(v.vx)
        + decimal_bytes(v.vy)
        + decimal_bytes(v.vz)
}

/// The fields of `motion_bytes` at the head of `s`, and what follows them.
#[verifier::opaque]
pub open spec fn take_motion(s: Seq<u8>) -> Option<
    (
        (Decimal, Decimal, Decimal, Decimal, Decimal, Decimal),
        Seq<u8>,
    ),
> {
    match take_decimal(s) {
        Some((x, s)) => match take_decimal(s) {
            Some((y, s)) => match take_decimal(s) {
                Some((z, s)) => match take_decimal(s) {
                    Some((vx, s)) => match take_decimal(s) {
                        Some((vy, s)) => match take_decimal(s) {
                            Some((vz, s)) => Some(((x, y, z, vx, vy, vz), s)),
                            None => None,
                        },
                        None => None,
                    },
                    None => None,
                },
                None => None,
            },
            None => None,
        },
        None => None,
    }
}

/// The fields of `motion_bytes` are read back as they were written.
pub proof fn lemma_take_motion(v: StarView, rest: Seq<u8>)
    ensures
        take_motion(motion_bytes(v) + rest) == Some(
            (
                (v.x, v.y, v.z, v.vx, v.vy, v.vz),
                rest,
            ),
        ),
{
    reveal(motion_bytes);
    reveal(take_motion);
    let x = decimal_bytes(v.x);
    let y = decimal_bytes(v.y);
    let z = decimal_bytes(v.z);
    let vx = decimal_bytes(v.vx);
    let vy = decimal_bytes(v.vy);
    let vz = decimal_bytes(v.vz);
    let after_vz = rest;
    lemma_take_decimal(v.vz, after_vz);
    let after_vy = vz + after_vz;
    lemma_take_decimal(v.vy, after_vy);
    let after_vx = vy + after_vy;
    lemma_take_decimal(v.vx, after_vx);
    let after_z = vx + after_vx;
    lemma_take_decimal(v.z, after_z);
    let after_y = z + after_z;
    lemma_take_decimal(v.y, after_y);
    let after_x = y + after_y;
    lemma_take_decimal(v.x, after_x);
    lemma_concat_assoc(x + y + z + vx + vy, vz, after_vz);
    lemma_concat_assoc(x + y + z + vx, vy, after_vy);
    lemma_concat_assoc(x + y + z, vx, after_vx);
    lemma_concat_assoc(x + y, z, after_z);
    lemma_concat_assoc(x, y, after_y);
}

/// Writes where a star stands in space, and how it moves there.
fn write_motion(out: &mut Vec<u8>, star: &Star)
    ensures
        final(out)@ == old(out)@ + motion_bytes(star@),
{
    write_decimal(out, &star.x);
    write_decimal(out, &star.y);
    write_decimal(out, &star.z);
    write_decimal(out, &star.vx);
    write_decimal(out, &star.vy);
    write_decimal(out, &star.vz);
    proof {
        reveal(motion_bytes);
    }
    assert(out@ =~= old(out)@ + motion_bytes(star@));
}

/// Reads where a star stands in space, and how it moves there, at `pos`.
fn read_motion(bytes: &[u8], pos: usize) -> (r: Option<
    (
        (Decimal, Decimal, Decimal, Decimal, Decimal, Decimal),
        usize,
    ),
>)
    requires
        pos <= bytes@.len(),
    ensures
        match r {
            Some((t, next)) => pos <= next <= bytes@.len() && take_motion(
                bytes@.skip(pos as int),
            ) == Some(
                (
                    (t.0, t.1, t.2, t.3, t.4, t.5),
                    bytes@.skip(next as int),
                ),
            ),
            None => take_motion(bytes@.skip(pos as int)) is None,
        },
{
    proof {
        reveal(take_motion);
    }
    let (x, pos) = match read_decimal(bytes, pos) {
        Some(found) => found,
        None => {
            return None;
        },
    };
    let (y, pos) = match read_decimal(bytes, pos) {
        Some(found) => found,
        None => {
            return None;
        },
    };
    let (z, pos) = match read_decimal(bytes, pos) {
        Some(found) => found,
        None => {
            return None;
        },
    };
    let (vx, pos) = match read_decimal(bytes, pos) {
        Some(found) => found,
        None => {
            return None;
        },
    };
    let (vy, pos) = match read_decimal(bytes, pos) {
        Some(found) => found,
        None => {
            return None;
        },
    };
    let (vz, pos) = match read_decimal(bytes, pos) {
        Some(found) => found,
        None => {
            return None;
        },
    };
    Some(
        (
            (x, y, z, vx, vy, vz),
            pos,
        ),
    )
}

/// The bytes of the position and proper motion of a star in radians.
#[verifier::opaque]
pub open spec fn angles_bytes(v: StarView) -> Seq<u8> {
    decimal_bytes(v.rarad)
        + decimal_bytes(v.decrad)
        + opt_decimal_bytes(v.pmrarad)
        + opt_decimal_bytes(v.pmdecrad)
}

/// The fields of `angles_bytes` at the head of `s`, and what follows them.
#[verifier::opaque]
pub open spec fn take_angles(s: Seq<u8>) -> Option<
    (
        (Decimal, Decimal, Option<Decimal>, Option<Decimal>),
        Seq<u8>,
    ),
> {
    match take_decimal(s) {
        Some((rarad, s)) => match take_decimal(s) {
            Some((decrad, s)) => match take_opt_decimal(s) {
                Some((pmrarad, s)) => match take_opt_decimal(s) {
                    Some((pmdecrad, s)) => Some(((rarad, decrad, pmrarad, pmdecrad), s)),
                    None => None,
                },
                None => None,
            },
            None => None,
        },
        None => None,
    }
}

/// The fields of `angles_bytes` are read back as they were written.
pub proof fn lemma_take_angles(v: StarView, rest: Seq<u8>)
    ensures
        take_angles(angles_bytes(v) + rest) == Some(
            (
                (v.rarad, v.decrad, v.pmrarad, v.pmdecrad),
                rest,
            ),
        ),
{
    reveal(angles_bytes);
    reveal(take_angles);
    let rarad = decimal_bytes(v.rarad);
    let decrad = decimal_bytes(v.decrad);
    let pmrarad = opt_decimal_bytes(v.pmrarad);
    let pmdecrad = opt_decimal_bytes(v.pmdecrad);
    let after_pmdecrad = rest;
    lemma_take_opt_decimal(v.pmdecrad, after_pmdecrad);
    let after_pmrarad = pmdecrad + after_pmdecrad;
    lemma_take_opt_decimal(v.pmrarad, after_pmrarad);
    let after_decrad = pmrarad + after_pmrarad;
    lemma_take_decimal(v.decrad, after_decrad);
    let after_rarad = decrad + after_decrad;
    lemma_take_decimal(v.rarad, after_rarad);
    lemma_concat_assoc(rarad + decrad + pmrarad, pmdecrad, after_pmdecrad);
    lemma_concat_assoc(rarad + decrad, pmrarad, after_pmrarad);
    lemma_concat_assoc(rarad, decrad, after_decrad);
}

/// Writes the position and proper motion of a star in radians.
fn write_angles(out: &mut Vec<u8>, star: &Star)
    ensures
        final(out)@ == old(out)@ + angles_bytes(star@),
{
    write_decimal(out, &star.rarad);
    write_decimal(out, &star.decrad);
    write_opt_decimal(out, &star.pmrarad);
    write_opt_decimal(out, &star.pmdecrad);
    proof {
        reveal(angles_bytes);
    }
    assert(out@ =~= old(out)@ + angles_bytes(star@));
}

/// Reads the position and proper motion of a star in radians, at `pos`.
fn read_angles(bytes: &[u8], pos: usize) -> (r: Option<
    (
        (Decimal, Decimal, Option<Decimal>, Option<Decimal>),
        usize,
    ),
>)
    requires
        pos <= bytes@.len(),
    ensures
        match r {
            Some((t, next)) => pos <= next <= bytes@.len() && take_angles(
                bytes@.skip(pos as int),
            ) == Some(
                (
                    (t.0, t.1, t.2, t.3),
                    bytes@.skip(next as int),
                ),
            ),
            None => take_angles(bytes@.skip(pos as int)) is None,
        },
{
    proof {
        reveal(take_angles);
    }
    let (rarad, pos) = match read_decimal(bytes, pos) {
        Some(found) => found,
        None => {
            return None;
        },
    };
    let (decrad, pos) = match read_decimal(bytes, pos) {
        Some(found) => found,
        None => {
            return None;
        },
    };
    let (pmrarad, pos) = match read_opt_decimal(bytes, pos) {
        Some(found) => found,
        None => {
            return None;
        },
    };
    let (pmdecrad, pos) = match read_opt_decimal(bytes, pos) {
        Some(found) => found,
        None => {
            return None;
        },
    };
    Some(
        (
            (rarad, decrad, pmrarad, pmdecrad),
            pos,
        ),
    )
}

/// The bytes of the constellation of a star and the system it belongs to.
#[verifier::opaque]
pub open spec fn system_bytes(v: StarView) -> Seq<u8> {
    opt_text_bytes(v.bayer)
        + opt_u32_bytes(v.flam)
        + opt_text_bytes(v.constellation)
        + i32_bytes(v.companion_id)
        + i32_bytes(v.primary_star_id)
        + opt_text_bytes(v.multistar_catalog_id)
}

/// The fields of `system_bytes` at the head of `s`, and what follows them.
#[verifier::opaque]
pub open spec fn take_system(s: Seq<u8>) -> Option<
    (
        (Option<Seq<char>>, Option<u32>, Option<Seq<char>>, i32, i32, Option<Seq<char>>),
        Seq<u8>,
    ),
> {
    match take_opt_text(s) {
        Some((bayer, s)) => match take_opt_u32(s) {
            Some((flam, s)) => match take_opt_text(s) {
                Some((constellation, s)) => match take_i32(s) {
                    Some((companion_id, s)) => match take_i32(s) {
                        Some((primary_star_id, s)) => match take_opt_text(s) {
                            Some((multistar_catalog_id, s)) => Some(
                                (
                                    (
                                        bayer,
                                        flam,
                                        constellation,
                                        companion_id,
                                        primary_star_id,
                                        multistar_catalog_id,
                                    ),
                                    s,
                                ),
                            ),
                            None => None,
                        },
                        None => None,
                    },
                    None => None,
                },
                None => None,
            },
            None => None,
        },
        None => None,
    }
}

/// The fields of `system_bytes` are read back as they were written.
pub proof fn lemma_take_system(v: StarView, rest: Seq<u8>)
    requires
        text_fits(v.bayer),
        text_fits(v.constellation),
        text_fits(v.multistar_catalog_id),
    ensures
        take_system(system_bytes(v) + rest) == Some(
            (
                (
                    v.bayer,
                    v.flam,
                    v.constellation,
                    v.companion_id,
                    v.primary_star_id,
                    v.multistar_catalog_id,
                ),
                rest,
            ),
        ),
{
    reveal(system_bytes);
    reveal(take_system);
    let bayer = opt_text_bytes(v.bayer);
    let flam = opt_u32_bytes(v.flam);
    let constellation = opt_text_bytes(v.constellation);
    let companion_id = i32_bytes(v.companion_id);
    let primary_star_id = i32_bytes(v.primary_star_id);
    let multistar_catalog_id = opt_text_bytes(v.multistar_catalog_id);
    let after_multistar_catalog_id = rest;
    lemma_take_opt_text(v.multistar_catalog_id, after_multistar_catalog_id);
    let after_primary_star_id = multistar_catalog_id + after_multistar_catalog_id;
    lemma_take_i32(v.primary_star_id, after_primary_star_id);
    let after_companion_id = primary_star_id + after_primary_star_id;
    lemma_take_i32(v.companion_id, after_companion_id);
    let after_constellation = companion_id + after_companion_id;
    lemma_take_opt_text(v.constellation, after_constellation);
    let after_flam = constellation + after_constellation;
    lemma_take_opt_u32(v.flam, after_flam);
    let after_bayer = flam + after_flam;
    lemma_take_opt_text(v.bayer, after_bayer);
    lemma_concat_assoc(
        bayer + flam + constellation + companion_id + primary_star_id,
        multistar_catalog_id,
        after_multistar_catalog_id,
    );
    lemma_concat_assoc(
        bayer + flam + constellation + companion_id,
        primary_star_id,
        after_primary_star_id,
    );
    lemma_concat_assoc(bayer + flam + constellation, companion_id, after_companion_id);
    lemma_concat_assoc(bayer + flam, constellation, after_constellation);
    lemma_concat_assoc(bayer, flam, after_flam);
}

/// Writes the constellation of a star and the system it belongs to.
fn write_system(out: &mut Vec<u8>, star: &Star)
    ensures
        final(out)@ == old(out)@ + system_bytes(star@),
        text_fits(star@.bayer),
        text_fits(star@.constellation),
        text_fits(star@.multistar_catalog_id),
{
    write_opt_text(out, &star.bayer);
    write_opt_u32(out, &star.flam);
    write_opt_text(out, &star.constellation);
    write_i32(out, star.companion_id);
    write_i32(out, star.primary_star_id);
    write_opt_text(out, &star.multistar_catalog_id);
    proof {
        reveal(system_bytes);
    }
    assert(out@ =~= old(out)@ + system_bytes(star@));
}

/// Reads the constellation of a star and the system it belongs to, at `pos`.
fn read_system(bytes: &[u8], pos: usize) -> (r: Option<
    (
        (Option<String>, Option<u32>, Option<String>, i32, i32, Option<String>),
        usize,
    ),
>)
    requires
        pos <= bytes@.len(),
    ensures
        match r {
            Some((t, next)) => pos <= next <= bytes@.len() && take_system(
                bytes@.skip(pos as int),
            ) == Some(
                (
                    (text_view(t.0), t.1, text_view(t.2), t.3, t.4, text_view(t.5)),
                    bytes@.skip(next as int),
                ),
            ),
            None => take_system(bytes@.skip(pos as int)) is None,
        },
{
    proof {
        reveal(take_system);
    }
    let (bayer, pos) = match read_opt_text(bytes, pos) {
        Some(found) => found,
        None => {
            return None;
        },
    };
    let (flam, pos) = match read_opt_u32(bytes, pos) {
        Some(found) => found,
        None => {
            return None;
        },
    };
    let (constellation, pos) = match read_opt_text(bytes, pos) {
        Some(found) => found,
        None => {
            return None;
        },
    };
    let (companion_id, pos) = match read_i32(bytes, pos) {
        Some(found) => found,
        None => {
            return None;
        },
    };
    let (primary_star_id, pos) = match read_i32(bytes, pos) {
        Some(found) => found,
        None => {
            return None;
        },
    };
    let (multistar_catalog_id, pos) = match read_opt_text(bytes, pos) {
        Some(found) => found,
        None => {
            return None;
        },
    };
    Some(
        (
            (bayer, flam, constellation, companion_id, primary_star_id, multistar_catalog_id),
            pos,
        ),
    )
}

/// The bytes of the luminosity of a star and how it varies.
#[verifier::opaque]
pub open spec fn light_bytes(v: StarView) -> Seq<u8> {
    decimal_bytes(v.lum)
        + opt_text_bytes(v.var)
        + opt_decimal_bytes(v.var_min)
        + opt_decimal_bytes(v.var_max)
}

/// The fields of `light_bytes` at the head of `s`, and what follows them.
#[verifier::opaque]
pub open spec fn take_light(s: Seq<u8>) -> Option<
    (
        (Decimal, Option<Seq<char>>, Option<Decimal>, Option<Decimal>),
        Seq<u8>,
    ),
> {
    match take_decimal(s) {
        Some((lum, s)) => match take_opt_text(s) {
            Some((var, s)) => match take_opt_decimal(s) {
                Some((var_min, s)) => match take_opt_decimal(s) {
                    Some((var_max, s)) => Some(((lum, var, var_min, var_max), s)),
                    None => None,
                },
                None => None,
            },
            None => None,
        },
        None => None,
    }
}

/// The fields of `light_bytes` are read back as they were written.
pub proof fn lemma_take_light(v: StarView, rest: Seq<u8>)
    requires
        text_fits(v.var),
    ensures
        take_light(light_bytes(v) + rest) == Some(
            (
                (v.lum, v.var, v.var_min, v.var_max),
                rest,
            ),
        ),
{
    reveal(light_bytes);
    reveal(take_light);
    let lum = decimal_bytes(v.lum);
    let var = opt_text_bytes(v.var);
    let var_min = opt_decimal_bytes(v.var_min);
    let var_max = opt_decimal_bytes(v.var_max);
    let after_var_max = rest;
    lemma_take_opt_decimal(v.var_max, after_var_max);
    let after_var_min = var_max + after_var_max;
    lemma_take_opt_decimal(v.var_min, after_var_min);
    let after_var = var_min + after_var_min;
    lemma_take_opt_text(v.var, after_var);
    let after_lum = var + after_var;
    lemma_take_decimal(v.lum, after_lum);
    lemma_concat_assoc(lum + var + var_min, var_max, after_var_max);
    lemma_concat_assoc(lum + var, var_min, after_var_min);
    lemma_concat_assoc(lum, var, after_var);
}

/// Writes the luminosity of a star and how it varies.
fn write_light(out: &mut Vec<u8>, star: &Star)
    ensures
        final(out)@ == old(out)@ + light_bytes(star@),
        text_fits(star@.var),
{
    write_decimal(out, &star.lum);
    write_opt_text(out, &star.var);
    write_opt_decimal(out, &star.var_min);
    write_opt_decimal(out, &star.var_max);
    proof {
        reveal(light_bytes);
    }
    assert(out@ =~= old(out)@ + light_bytes(star@));
}

/// Reads the luminosity of a star and how it varies, at `pos`.
fn read_light(bytes: &[u8], pos: usize) -> (r: Option<
    (
        (Decimal, Option<String>, Option<Decimal>, Option<Decimal>),
        usize,
    ),
>)
    requires
        pos <= bytes@.len(),
    ensures
        match r {
            Some((t, next)) => pos <= next <= bytes@.len() && take_light(
                bytes@.skip(pos as int),
            ) == Some(
                (
                    (t.0, text_view(t.1), t.2, t.3),
                    bytes@.skip(next as int),
                ),
            ),
            None => take_light(bytes@.skip(pos as int)) is None,
        },
{
    proof {
        reveal(take_light);
    }
    let (lum, pos) = match read_decimal(bytes, pos) {
        Some(found) => found,
        None => {
            return None;
        },
    };
    let (var, pos) = match read_opt_text(bytes, pos) {
        Some(found) => found,
        None => {
            return None;
        },
    };
    let (var_min, pos) = match read_opt_decimal(bytes, pos) {
        Some(found) => found,
        None => {
            return None;
        },
    };
    let (var_max, pos) = match read_opt_decimal(bytes, pos) {
        Some(found) => found,
        None => {
            return None;
        },
    };
    Some(
        (
            (lum, var, var_min, var_max),
            pos,
        ),
    )
}

impl StarView {
    /// Whether the length of every text of the star can be written: it is so
    /// of every star that memory can hold.
    pub open spec fn texts_fit(self) -> bool {
        &&& text_fits(self.bayer_flamsteed)
        &&& text_fits(self.common_name)
        &&& text_fits(self.spectral_type)
        &&& text_fits(self.bayer)
        &&& text_fits(self.constellation)
        &&& text_fits(self.multistar_catalog_id)
        &&& text_fits(self.var)
    }
}

/// The bytes of a star: its fields in their order.
#[verifier::opaque]
pub open spec fn star_bytes(v: StarView) -> Seq<u8> {
    identity_bytes(v)
        + position_bytes(v)
        + photometry_bytes(v)
        + motion_bytes(v)
        + angles_bytes(v)
        + system_bytes(v)
        + light_bytes(v)
}

/// The star at the head of `s`, and what follows it.
#[verifier::opaque]
pub open spec fn take_star(s: Seq<u8>) -> Option<(StarView, Seq<u8>)> {
    match take_identity(s) {
        Some((identity, s)) => match take_position(s) {
            Some((position, s)) => match take_photometry(s) {
                Some((photometry, s)) => match take_motion(s) {
                    Some((motion, s)) => match take_angles(s) {
                        Some((angles, s)) => match take_system(s) {
                            Some((system, s)) => match take_light(s) {
                                Some((light, s)) => Some(
                                    (
                                        StarView {
                                            id: identity.0,
                                            hipparcos: identity.1,
                                            henry_draper: identity.2,
                                            harvard_revised: identity.3,
                                            gliese: identity.4,
                                            bayer_flamsteed: identity.5,
                                            common_name: identity.6,
                                            ra: position.0,
                                            dec: position.1,
                                            distance: position.2,
                                            pmra: position.3,
                                            pmdec: position.4,
                                            radial_velocity: photometry.0,
                                            magnitude: photometry.1,
                                            abs_magnitude: photometry.2,
                                            spectral_type: photometry.3,
                                            color_index: photometry.4,
                                            x: motion.0,
                                            y: motion.1,
                                            z: motion.2,
                                            vx: motion.3,
                                            vy: motion.4,
                                            vz: motion.5,
                                            rarad: angles.0,
                                            decrad: angles.1,
                                            pmrarad: angles.2,
                                            pmdecrad: angles.3,
                                            bayer: system.0,
                                            flam: system.1,
                                            constellation: system.2,
                                            companion_id: system.3,
                                            primary_star_id: system.4,
                                            multistar_catalog_id: system.5,
                                            lum: light.0,
                                            var: light.1,
                                            var_min: light.2,
                                            var_max: light.3,
                                        },
                                        s,
                                    ),
                                ),
                                None => None,
                            },
                            None => None,
                        },
                        None => None,
                    },
                    None => None,
                },
                None => None,
            },
            None => None,
        },
        None => None,
    }
}

/// A star is read back as it was written.
pub proof fn lemma_take_star(v: StarView, rest: Seq<u8>)
    requires
        v.texts_fit(),
    ensures
        take_star(star_bytes(v) + rest) == Some((v, rest)),
{
    reveal(star_bytes);
    reveal(take_star);
    let identity = identity_bytes(v);
    let position = position_bytes(v);
    let photometry = photometry_bytes(v);
    let motion = motion_bytes(v);
    let angles = angles_bytes(v);
    let system = system_bytes(v);
    let light = light_bytes(v);
    let after_light = rest;
    lemma_take_light(v, after_light);
    let after_system = light + after_light;
    lemma_take_system(v, after_system);
    let after_angles = system + after_system;
    lemma_take_angles(v, after_angles);
    let after_motion = angles + after_angles;
    lemma_take_motion(v, after_motion);
    let after_photometry = motion + after_motion;
    lemma_take_photometry(v, after_photometry);
    let after_position = photometry + after_photometry;
    lemma_take_position(v, after_position);
    let after_identity = position + after_position;
    lemma_take_identity(v, after_identity);
    lemma_concat_assoc(
        identity + position + photometry + motion + angles + system,
        light,
        after_light,
    );
    lemma_concat_assoc(identity + position + photometry + motion + angles, system, after_system);
    lemma_concat_assoc(identity + position + photometry + motion, angles, after_angles);
    lemma_concat_assoc(identity + position + photometry, motion, after_motion);
    lemma_concat_assoc(identity + position, photometry, after_photometry);
    lemma_concat_assoc(identity, position, after_position);
}

/// Writes a star.
fn write_star(out: &mut Vec<u8>, star: &Star)
    ensures
        final(out)@ == old(out)@ + star_bytes(star@),
        star@.texts_fit(),
{
    write_identity(out, star);
    write_position(out, star);
    write_photometry(out, star);
    write_motion(out, star);
    write_angles(out, star);
    write_system(out, star);
    write_light(out, star);
    proof {
        reveal(star_bytes);
    }
    assert(out@ =~= old(out)@ + star_bytes(star@));
}

/// Reads a star at `pos`.
fn read_star(bytes: &[u8], pos: usize) -> (r: Option<(Star, usize)>)
    requires
        pos <= bytes@.len(),
    ensures
        match r {
            Some((star, next)) => pos <= next <= bytes@.len() && take_star(bytes@.skip(pos as int))
                == Some((star@, bytes@.skip(next as int))),
            None => take_star(bytes@.skip(pos as int)) is None,
        },
{
    proof {
        reveal(take_star);
    }
    let (identity, pos) = match read_identity(bytes, pos) {
        Some(found) => found,
        None => {
            return None;
        },
    };
    let (position, pos) = match read_position(bytes, pos) {
        Some(found) => found,
        None => {
            return None;
        },
    };
    let (photometry, pos) = match read_photometry(bytes, pos) {
        Some(found) => found,
        None => {
            return None;
        },
    };
    let (motion, pos) = match read_motion(bytes, pos) {
        Some(found) => found,
        None => {
            return None;
        },
    };
    let (angles, pos) = match read_angles(bytes, pos) {
        Some(found) => found,
        None => {
            return None;
        },
    };
    let (system, pos) = match read_system(bytes, pos) {
        Some(found) => found,
        None => {
            return None;
        },
    };
    let (light, pos) = match read_light(bytes, pos) {
        Some(found) => found,
        None => {
            return None;
        },
    };
    let (
        id,
        hipparcos,
        henry_draper,
        harvard_revised,
        gliese,
        bayer_flamsteed,
        common_name,
    ) = identity;
    let (ra, dec, distance, pmra, pmdec) = position;
    let (radial_velocity, magnitude, abs_magnitude, spectral_type, color_index) = photometry;
    let (x, y, z, vx, vy, vz) = motion;
    let (rarad, decrad, pmrarad, pmdecrad) = angles;
    let (bayer, flam, constellation, companion_id, primary_star_id, multistar_catalog_id) = system;
    let (lum, var, var_min, var_max) = light;
    Some((
        Star {
            id,
            hipparcos,
            henry_draper,
            harvard_revised,
            gliese,
            bayer_flamsteed,
            common_name,
            ra,
            dec,
            distance,
            pmra,
            pmdec,
            radial_velocity,
            magnitude,
            abs_magnitude,
            spectral_type,
            color_index,
            x,
            y,
            z,
            vx,
            vy,
            vz,
            rarad,
            decrad,
            pmrarad,
            pmdecrad,
            bayer,
            flam,
            constellation,
            companion_id,
            primary_star_id,
            multistar_catalog_id,
            lum,
            var,
            var_min,
            var_max,
        },
        pos,
    ))
}

/// The bytes of some stars, one after the other.
pub open spec fn stars_bytes(stars: Seq<StarView>) -> Seq<u8>
    decreases stars.len(),
{
    if stars.len() == 0 {
        Seq::empty()
    } else {
        stars_bytes(stars.drop_last()) + star_bytes(stars.last())
    }
}

/// The snapshot of a catalogue: the number of its stars, then the stars.
pub open spec fn catalog_bytes(stars: Seq<StarView>) -> Seq<u8> {
    u64_bytes(stars.len() as u64) + stars_bytes(stars)
}

/// The `n` stars at the head of `s`, and what follows them.
pub open spec fn take_stars(n: nat, s: Seq<u8>) -> Option<(Seq<StarView>, Seq<u8>)>
    decreases n,
{
    if n == 0 {
        Some((Seq::empty(), s))
    } else {
        match take_star(s) {
            Some((first, rest)) => match take_stars((n - 1) as nat, rest) {
                Some((others, rest)) => Some((seq![first] + others, rest)),
                None => None,
            },
            None => None,
        }
    }
}

/// The catalogue that a snapshot holds. It holds none where a field cannot
/// be read, where the bytes end before the last star does, or where bytes
/// are left after it.
pub open spec fn read_catalog(s: Seq<u8>) -> Option<Seq<StarView>> {
    match take_u64(s) {
        Some((n, rest)) => match take_stars(n as nat, rest) {
            Some((stars, rest)) => if rest.len() == 0 {
                Some(stars)
            } else {
                None
            },
            None => None,
        },
        None => None,
    }
}

/// Whether a catalogue can be written: the number of its stars and the
/// lengths of their texts can. It is so of every catalogue that memory can
/// hold.
pub open spec fn catalog_fits(stars: Seq<StarView>) -> bool {
    &&& stars.len() <= u64::MAX
    &&& forall|i: int| 0 <= i < stars.len() ==> (#[trigger] stars[i]).texts_fit()
}

/// `found` with the stars `done` put before its stars.
pub open spec fn after_stars(
    done: Seq<StarView>,
    found: Option<(Seq<StarView>, Seq<u8>)>,
) -> Option<(Seq<StarView>, Seq<u8>)> {
    match found {
        Some((stars, rest)) => Some((done + stars, rest)),
        None => None,
    }
}

/// The bytes of some stars are those of the first, then those of the others.
proof fn lemma_stars_bytes_front(stars: Seq<StarView>)
    requires
        stars.len() > 0,
    ensures
        stars_bytes(stars) == star_bytes(stars[0]) + stars_bytes(stars.drop_first()),
    decreases stars.len(),
{
    let first = star_bytes(stars[0]);
    let last = star_bytes(stars.last());
    if stars.len() == 1 {
        assert(stars.drop_last().len() == 0);
        assert(stars.drop_first().len() == 0);
        assert(stars_bytes(stars.drop_last()) == Seq::<u8>::empty());
        assert(stars_bytes(stars.drop_first()) == Seq::<u8>::empty());
        lemma_concat_empty(first);
    } else {
        let inner = stars.drop_last().drop_first();
        assert(stars.drop_first().drop_last() =~= inner);
        assert(stars.drop_last()[0] == stars[0]);
        assert(stars.drop_first().last() == stars.last());
        lemma_stars_bytes_front(stars.drop_last());
        lemma_concat_assoc(first, stars_bytes(inner), last);
    }
}

/// Joining a run of bytes with no bytes, before or after, leaves the run.
proof fn lemma_concat_empty(a: Seq<u8>)
    ensures
        Seq::<u8>::empty() + a == a,
        a + Seq::<u8>::empty() == a,
{
    assert(Seq::<u8>::empty() + a =~= a);
    assert(a + Seq::<u8>::empty() =~= a);
}

/// Stars are read back as they were written.
pub proof fn lemma_take_stars(stars: Seq<StarView>, rest: Seq<u8>)
    requires
        forall|i: int| 0 <= i < stars.len() ==> (#[trigger] stars[i]).texts_fit(),
    ensures
        take_stars(stars.len(), stars_bytes(stars) + rest) == Some((stars, rest)),
    decreases stars.len(),
{
    if stars.len() == 0 {
        lemma_concat_empty(rest);
        assert(stars =~= Seq::<StarView>::empty());
    } else {
        let others = stars.drop_first();
        let tail = stars_bytes(others) + rest;
        lemma_stars_bytes_front(stars);
        lemma_concat_assoc(star_bytes(stars[0]), stars_bytes(others), rest);
        assert(stars[0].texts_fit());
        lemma_take_star(stars[0], tail);
        assert forall|i: int| 0 <= i < others.len() implies (#[trigger] others[i]).texts_fit() by {
            assert(others[i] == stars[i + 1]);
        }
        lemma_take_stars(others, rest);
        assert(seq![stars[0]] + others =~= stars);
    }
}

/// Reading the snapshot of a catalogue gives back the catalogue, field for
/// field.
pub proof fn lemma_round_trip(stars: Seq<StarView>)
    requires
        catalog_fits(stars),
    ensures
        read_catalog(catalog_bytes(stars)) == Some(stars),
{
    let body = stars_bytes(stars);
    lemma_take_u64(stars.len() as u64, body);
    lemma_concat_empty(body);
    lemma_take_stars(stars, Seq::empty());
}

/// Writes the snapshot of a catalogue.
pub fn encode_catalog(stars: &Vec<Star>) -> (out: Vec<u8>)
    ensures
        out@ == catalog_bytes(star_views(stars@)),
        catalog_fits(star_views(stars@)),
{
    let ghost views = star_views(stars@);
    let n = stars.len();
    let mut out: Vec<u8> = Vec::new();
    write_u64(&mut out, n as u64);
    let ghost header = u64_bytes(n as u64);
    proof {
        lemma_concat_empty(header);
        assert(views.take(0) =~= Seq::<StarView>::empty());
    }
    let mut i: usize = 0;
    while i < n
        invariant
            i <= n == stars@.len(),
            views == star_views(stars@),
            header == u64_bytes(n as u64),
            out@ == header + stars_bytes(views.take(i as int)),
            forall|j: int| 0 <= j < i ==> (#[trigger] views[j]).texts_fit(),
        decreases n - i,
    {
        let ghost before = out@;
        write_star(&mut out, &stars[i]);
        proof {
            let done = views.take(i as int);
            let more = views.take(i + 1);
            assert(more.drop_last() =~= done);
            assert(more.last() == stars@[i as int]@);
            lemma_concat_assoc(header, stars_bytes(done), star_bytes(more.last()));
        }
        i = i + 1;
    }
    proof {
        assert(views.take(n as int) =~= views);
    }
    out
}

/// Reads a snapshot. `None` where the bytes hold no catalogue.
pub fn decode_catalog(bytes: &[u8]) -> (r: Option<Vec<Star>>)
    ensures
        match r {
            Some(stars) => read_catalog(bytes@) == Some(star_views(stars@)),
            None => read_catalog(bytes@) is None,
        },
{
    assert(bytes@.skip(0) =~= bytes@);
    let (n, start) = match read_u64(bytes, 0) {
        Some(found) => found,
        None => {
            return None;
        },
    };
    let mut stars: Vec<Star> = Vec::new();
    let mut pos: usize = start;
    let mut i: u64 = 0;
    proof {
        let found = take_stars(n as nat, bytes@.skip(start as int));
        match found {
            Some((views, rest)) => {
                assert(Seq::<StarView>::empty() + views =~= views);
            },
            None => {},
        }
        assert(star_views(stars@) =~= Seq::<StarView>::empty());
    }
    while i < n
        invariant
            i <= n,
            pos <= bytes@.len(),
            take_u64(bytes@) == Some((n, bytes@.skip(start as int))),
            take_stars(n as nat, bytes@.skip(start as int)) == after_stars(
                star_views(stars@),
                take_stars((n - i) as nat, bytes@.skip(pos as int)),
            ),
        decreases n - i,
    {
        let ghost done = star_views(stars@);
        let (star, next) = match read_star(bytes, pos) {
            Some(found) => found,
            None => {
                return None;
            },
        };
        proof {
            let later = take_stars((n - i - 1) as nat, bytes@.skip(next as int));
            match later {
                Some((views, rest)) => {
                    assert(done + (seq![star@] + views) =~= done.push(star@) + views);
                },
                None => {},
            }
            assert(star_views(stars@.push(star)) =~= done.push(star@));
        }
        stars.push(star);
        pos = next;
        i = i + 1;
    }
    proof {
        assert(star_views(stars@) + Seq::<StarView>::empty() =~= star_views(stars@));
    }
    if pos == bytes.len() {
        Some(stars)
    } else {
        None
    }
}

} // verus!
