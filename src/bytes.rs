//! Fixed-width little-endian integers and UTF-8 text, as they appear on the
//! wire and in the log.

use vstd::prelude::*;
use vstd::utf8::{decode_utf8, encode_utf8, valid_utf8};
use byteorder::{ByteOrder, LittleEndian};

verus! {

/// Width in bytes of every integer field of the wire format.
pub const UINT_BYTES: usize = 8;

/// The eight bytes of `n`, least significant first.
pub open spec fn le_bytes(n: u64) -> Seq<u8> {
    seq![
        n as u8,
        (n >> 8u64) as u8,
        (n >> 16u64) as u8,
        (n >> 24u64) as u8,
        (n >> 32u64) as u8,
        (n >> 40u64) as u8,
        (n >> 48u64) as u8,
        (n >> 56u64) as u8,
    ]
}

/// The integer whose little-endian bytes are the first eight of `b`.
pub open spec fn le_value(b: Seq<u8>) -> u64
    recommends
        b.len() >= 8,
{
    (b[0] as u64) | ((b[1] as u64) << 8u64) | ((b[2] as u64) << 16u64) | ((b[3] as u64) << 24u64)
        | ((b[4] as u64) << 32u64) | ((b[5] as u64) << 40u64) | ((b[6] as u64) << 48u64)
        | ((b[7] as u64) << 56u64)
}

/// Reading back the bytes of an integer gives the integer.
pub proof fn lemma_le_round_trip(n: u64)
    ensures
        le_value(le_bytes(n)) == n,
{
    let b = le_bytes(n);
    assert(((n as u8) as u64) | ((((n >> 8u64) as u8) as u64) << 8u64) | ((((n >> 16u64) as u8)
        as u64) << 16u64) | ((((n >> 24u64) as u8) as u64) << 24u64) | ((((n >> 32u64) as u8)
        as u64) << 32u64) | ((((n >> 40u64) as u8) as u64) << 40u64) | ((((n >> 48u64) as u8)
        as u64) << 48u64) | ((((n >> 56u64) as u8) as u64) << 56u64) == n) by (bit_vector);
}

/// Reading an integer only looks at the first eight bytes.
pub proof fn lemma_le_value_prefix(a: Seq<u8>, b: Seq<u8>)
    requires
        a.len() >= 8,
        b.len() >= 8,
        a.subrange(0, 8) == b.subrange(0, 8),
    ensures
        le_value(a) == le_value(b),
{
    assert forall|i: int| 0 <= i < 8 implies a[i] == b[i] by {
        assert(a[i] == a.subrange(0, 8)[i]);
        assert(b[i] == b.subrange(0, 8)[i]);
    }
}

/// What `String::from_utf8_lossy` makes of bytes that are not valid UTF-8.
pub uninterp spec fn lossy_text(b: Seq<u8>) -> Seq<char>;

/// The text that a byte string is read as: valid UTF-8 is decoded, anything
/// else is repaired with replacement characters.
pub open spec fn text_of(b: Seq<u8>) -> Seq<char> {
    if valid_utf8(b) {
        decode_utf8(b)
    } else {
        lossy_text(b)
    }
}

/// Relies on byteorder's `LittleEndian::write_u64`, which stores `n` as eight
/// bytes, least significant first.
#[verifier::external_body]
fn le_encode(n: u64) -> (r: Vec<u8>)
    ensures
        r@ == le_bytes(n),
{
    let mut buf = vec![0u8; 8];
    LittleEndian::write_u64(&mut buf, n);
    buf
}

/// Relies on byteorder's `LittleEndian::read_u64`, which reads the first eight
/// bytes of `b` least significant first (it panics on fewer).
#[verifier::external_body]
pub(crate) fn le_decode(b: &[u8]) -> (r: u64)
    requires
        b@.len() >= 8,
    ensures
        r == le_value(b@),
{
    LittleEndian::read_u64(b)
}

/// Relies on `String::from_utf8_lossy`: valid UTF-8 comes back as the text it
/// encodes; other bytes get replacement characters, depending on the bytes alone.
#[verifier::external_body]
fn utf8_lossy(b: &[u8]) -> (r: String)
    ensures
        valid_utf8(b@) ==> r@ == decode_utf8(b@),
        !valid_utf8(b@) ==> r@ == lossy_text(b@),
{
    String::from_utf8_lossy(b).into_owned()
}

/// The eight little-endian bytes of `n`.
pub fn write_usize(n: usize) -> (r: Vec<u8>)
    ensures
        r@ == le_bytes(n as u64),
{
    le_encode(n as u64)
}

/// The UTF-8 bytes of `s`.
pub fn write_string(s: String) -> (r: Vec<u8>)
    ensures
        r@ == encode_utf8(s@),
{
    vstd::slice::slice_to_vec(s.as_str().as_bytes())
}

/// The integer held little-endian in the first eight bytes of `data`.
pub fn read_usize(data: &[u8]) -> (r: usize)
    requires
        data@.len() >= 8,
    ensures
        r == le_value(data@) as usize,
{
    le_decode(data) as usize
}

/// The text held in `data`, read as UTF-8 with invalid sequences replaced.
pub fn read_string(data: &[u8]) -> (r: String)
    ensures
        r@ == text_of(data@),
{
    utf8_lossy(data)
}

} // verus!
