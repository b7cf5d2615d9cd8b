//! Fixed-width little-endian fields and length-prefixed strings: the pieces
//! every record of the container is made of.
use vstd::prelude::*;
use vstd::bytes::*;
use vstd::utf8::*;
use byteorder::{ByteOrder, LittleEndian};
use crate::error::Error;

verus! {

broadcast use vstd::utf8::encode_utf8_valid_utf8, vstd::utf8::encode_utf8_decode_utf8;

/// The eight bytes of `v`, least significant first.
pub open spec fn u64_field(v: u64) -> Seq<u8> {
    spec_u64_to_le_bytes(v)
}

/// The four bytes of `v`, least significant first.
pub open spec fn u32_field(v: u32) -> Seq<u8> {
    spec_u32_to_le_bytes(v)
}

/// The `u64` stored at `p`, least significant byte first.
pub open spec fn u64_at(d: Seq<u8>, p: int) -> u64 {
    spec_u64_from_le_bytes(d.subrange(p, p + 8))
}

/// The `u32` stored at `p`, least significant byte first.
pub open spec fn u32_at(d: Seq<u8>, p: int) -> u32 {
    spec_u32_from_le_bytes(d.subrange(p, p + 4))
}

/// A string on the wire: its UTF-8 byte length as a `u64`, then the bytes.
pub open spec fn str_field(s: Seq<char>) -> Seq<u8> {
    u64_field(encode_utf8(s).len() as u64) + encode_utf8(s)
}

/// A string that can be written: its UTF-8 length fits in a `u64`.
pub open spec fn str_fits(s: Seq<char>) -> bool {
    encode_utf8(s).len() <= u64::MAX
}

/// The outcome of an executable read agrees with the outcome that the
/// specification gives: the same value, seen through its view, or the same error.
pub open spec fn same_outcome<T: View>(
    r: core::result::Result<T, Error>,
    s: core::result::Result<T::V, Error>,
) -> bool {
    match (r, s) {
        (Ok(a), Ok(b)) => a@ == b,
        (Err(e), Err(f)) => e == f,
        _ => false,
    }
}

/// UTF-8 takes at most four bytes a character.
pub proof fn lemma_utf8_len(s: Seq<char>)
    ensures
        encode_utf8(s).len() <= 4 * s.len(),
    decreases s.len(),
{
    if s.len() > 0 {
        lemma_utf8_len(s.drop_first());
    }
}

/// Reading a `u64` at `p`: its value and the position after it, or
/// `EndOfFile` (with every remaining byte taken) when fewer than eight remain.
pub open spec fn parse_u64(d: Seq<u8>, p: int) -> (core::result::Result<u64, Error>, int) {
    if p + 8 <= d.len() {
        (Ok(spec_u64_from_le_bytes(d.subrange(p, p + 8))), p + 8)
    } else {
        (Err(Error::EndOfFile), d.len() as int)
    }
}

/// Reading a `u32` at `p`, as [`parse_u64`] does for eight bytes.
pub open spec fn parse_u32(d: Seq<u8>, p: int) -> (core::result::Result<u32, Error>, int) {
    if p + 4 <= d.len() {
        (Ok(spec_u32_from_le_bytes(d.subrange(p, p + 4))), p + 4)
    } else {
        (Err(Error::EndOfFile), d.len() as int)
    }
}

/// Reading a length-prefixed string at `p`. A length that runs past the end
/// is `EndOfFile`; bytes that are not UTF-8 are `InvalidText`, with the
/// bytes consumed.
pub open spec fn parse_str(d: Seq<u8>, p: int) -> (core::result::Result<Seq<char>, Error>, int) {
    let (n, q) = parse_u64(d, p);
    match n {
        Err(e) => (Err(e), q),
        Ok(n) => if q + n <= d.len() {
            let b = d.subrange(q, q + n);
            if valid_utf8(b) {
                (Ok(decode_utf8(b)), q + n)
            } else {
                (Err(Error::InvalidText), q + n)
            }
        } else {
            (Err(Error::EndOfFile), d.len() as int)
        },
    }
}

/// A `u64` field is read back as the value it was written from.
pub proof fn lemma_u64_round_trip(v: u64, pre: Seq<u8>, tail: Seq<u8>)
    ensures
        u64_field(v).len() == 8,
        parse_u64(pre + u64_field(v) + tail, pre.len() as int) == (
        Ok::<u64, Error>(v), pre.len() + 8int),
{
    lemma_auto_spec_u64_to_from_le_bytes();
    let d = pre + u64_field(v) + tail;
    assert(d.subrange(pre.len() as int, pre.len() + 8int) =~= u64_field(v));
}

/// A `u32` field is read back as the value it was written from.
pub proof fn lemma_u32_round_trip(v: u32, pre: Seq<u8>, tail: Seq<u8>)
    ensures
        u32_field(v).len() == 4,
        parse_u32(pre + u32_field(v) + tail, pre.len() as int) == (
        Ok::<u32, Error>(v), pre.len() + 4int),
{
    lemma_auto_spec_u32_to_from_le_bytes();
    let d = pre + u32_field(v) + tail;
    assert(d.subrange(pre.len() as int, pre.len() + 4int) =~= u32_field(v));
}

/// A string field is read back as the string it was written from.
pub proof fn lemma_str_round_trip(s: Seq<char>, pre: Seq<u8>, tail: Seq<u8>)
    requires
        str_fits(s),
    ensures
        str_field(s).len() == 8 + encode_utf8(s).len(),
        parse_str(pre + str_field(s) + tail, pre.len() as int) == (
        Ok::<Seq<char>, Error>(s), pre.len() + str_field(s).len() as int),
{
    let b = encode_utf8(s);
    let d = pre + str_field(s) + tail;
    assert(d =~= pre + u64_field(b.len() as u64) + (b + tail));
    lemma_u64_round_trip(b.len() as u64, pre, b + tail);
    let q = pre.len() + 8int;
    assert(d.subrange(q, q + b.len() as int) =~= b);
}

/// Relies on byteorder's `LittleEndian::read_u64`: the eight bytes at `at`,
/// least significant first (it panics on fewer than eight, which `requires`
/// rules out).
#[verifier::external_body]
fn le_read_u64(data: &[u8], at: usize) -> (r: u64)
    requires
        at + 8 <= data@.len(),
    ensures
        r == spec_u64_from_le_bytes(data@.subrange(at as int, at + 8)),
{
    LittleEndian::read_u64(&data[at..])
}

/// Relies on byteorder's `LittleEndian::read_u32`: the four bytes at `at`,
/// least significant first.
#[verifier::external_body]
fn le_read_u32(data: &[u8], at: usize) -> (r: u32)
    requires
        at + 4 <= data@.len(),
    ensures
        r == spec_u32_from_le_bytes(data@.subrange(at as int, at + 4)),
{
    LittleEndian::read_u32(&data[at..])
}

/// Relies on byteorder's `LittleEndian::write_u64`: `v` as eight bytes,
/// least significant first.
#[verifier::external_body]
fn le_write_u64(v: u64) -> (r: [u8; 8])
    ensures
        r@ == spec_u64_to_le_bytes(v),
{
    let mut b = [0u8; 8];
    LittleEndian::write_u64(&mut b, v);
    b
}

/// Relies on byteorder's `LittleEndian::write_u32`: `v` as four bytes,
/// least significant first.
#[verifier::external_body]
fn le_write_u32(v: u32) -> (r: [u8; 4])
    ensures
        r@ == spec_u32_to_le_bytes(v),
{
    let mut b = [0u8; 4];
    LittleEndian::write_u32(&mut b, v);
    b
}

/// Relies on `String::from_utf8`: it succeeds exactly on valid UTF-8, and
/// the string then holds those bytes.
#[verifier::external_body]
pub(crate) fn utf8_to_string(bytes: Vec<u8>) -> (r: Option<String>)
    ensures
        r.is_some() == valid_utf8(bytes@),
        r matches Some(s) ==> encode_utf8(s@) == bytes@,
{
    String::from_utf8(bytes).ok()
}

/// Reads the `u64` at `pos`; see [`parse_u64`].
pub fn read_u64(data: &[u8], pos: usize) -> (r: (core::result::Result<u64, Error>, usize))
    requires
        pos <= data@.len(),
    ensures
        (r.0, r.1 as int) == parse_u64(data@, pos as int),
{
    if data.len() - pos >= 8 {
        (Ok(le_read_u64(data, pos)), pos + 8)
    } else {
        (Err(Error::EndOfFile), data.len())
    }
}

/// Reads the `u32` at `pos`; see [`parse_u32`].
pub fn read_u32(data: &[u8], pos: usize) -> (r: (core::result::Result<u32, Error>, usize))
    requires
        pos <= data@.len(),
    ensures
        (r.0, r.1 as int) == parse_u32(data@, pos as int),
{
    if data.len() - pos >= 4 {
        (Ok(le_read_u32(data, pos)), pos + 4)
    } else {
        (Err(Error::EndOfFile), data.len())
    }
}

/// Reads the length-prefixed string at `pos`; see [`parse_str`].
pub fn read_str(data: &[u8], pos: usize) -> (r: (core::result::Result<String, Error>, usize))
    requires
        pos <= data@.len(),
    ensures
        r.1 as int == parse_str(data@, pos as int).1,
        same_outcome(r.0, parse_str(data@, pos as int).0),
{
    let (n, q) = read_u64(data, pos);
    let n = match n {
        Err(e) => return (Err(e), q),
        Ok(n) => n,
    };
    if ((data.len() - q) as u64) < n {
        return (Err(Error::EndOfFile), data.len());
    }
    let end = q + n as usize;
    let mut bytes: Vec<u8> = Vec::new();
    let mut i: usize = q;
    while i < end
        invariant
            q <= i <= end <= data@.len(),
            bytes@ == data@.subrange(q as int, i as int),
        decreases end - i,
    {
        bytes.push(data[i]);
        i = i + 1;
        assert(bytes@ =~= data@.subrange(q as int, i as int));
    }
    match utf8_to_string(bytes) {
        Some(s) => {
            proof {
                vstd::utf8::decode_utf8_encode_utf8(data@.subrange(q as int, end as int));
            }
            (Ok(s), end)
        },
        None => (Err(Error::InvalidText), end),
    }
}

/// Appends the bytes of `b` to `sink`.
pub fn write_bytes(sink: &mut Vec<u8>, b: &[u8])
    ensures
        final(sink)@ == old(sink)@ + b@,
{
    let mut i: usize = 0;
    while i < b.len()
        invariant
            i <= b@.len(),
            sink@ == old(sink)@ + b@.subrange(0, i as int),
        decreases b@.len() - i,
    {
        sink.push(b[i]);
        i = i + 1;
        assert(sink@ =~= old(sink)@ + b@.subrange(0, i as int));
    }
    assert(b@.subrange(0, b@.len() as int) =~= b@);
}

/// Overwrites the bytes of `sink` from `at` on with `b`; the length of
/// `sink` is unchanged.
pub fn overwrite(sink: &mut Vec<u8>, at: usize, b: &[u8])
    requires
        at + b@.len() <= old(sink)@.len(),
    ensures
        final(sink)@ == old(sink)@.subrange(0, at as int) + b@ + old(sink)@.subrange(
            at + b@.len(),
            old(sink)@.len() as int,
        ),
{
    let ghost s0 = sink@;
    let n: usize = sink.len();
    let mut i: usize = 0;
    while i < b.len()
        invariant
            i <= b@.len(),
            s0.len() == n,
            at + b@.len() <= s0.len(),
            sink@.len() == s0.len(),
            sink@ == s0.subrange(0, at as int) + b@.subrange(0, i as int) + s0.subrange(
                at + i,
                s0.len() as int,
            ),
        decreases b@.len() - i,
    {
        sink[at + i] = b[i];
        i = i + 1;
        assert(sink@ =~= s0.subrange(0, at as int) + b@.subrange(0, i as int) + s0.subrange(
            at + i,
            s0.len() as int,
        ));
    }
    assert(b@.subrange(0, b@.len() as int) =~= b@);
}

/// Appends `v` as a `u64` field.
pub fn write_u64(sink: &mut Vec<u8>, v: u64)
    ensures
        final(sink)@ == old(sink)@ + u64_field(v),
{
    let b = le_write_u64(v);
    write_bytes(sink, &b);
}

/// Appends `v` as a `u32` field.
pub fn write_u32(sink: &mut Vec<u8>, v: u32)
    ensures
        final(sink)@ == old(sink)@ + u32_field(v),
{
    let b = le_write_u32(v);
    write_bytes(sink, &b);
}

/// Appends `s` as a length-prefixed string.
pub fn write_str(sink: &mut Vec<u8>, s: &str)
    ensures
        final(sink)@ == old(sink)@ + str_field(s@),
{
    let b = s.as_bytes();
    write_u64(sink, b.len() as u64);
    write_bytes(sink, b);
    assert(sink@ =~= old(sink)@ + str_field(s@));
}

} // verus!
