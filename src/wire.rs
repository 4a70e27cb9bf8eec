use vstd::prelude::*;
use vstd::utf8::{valid_utf8, decode_utf8, encode_utf8};
use crate::RegistryError;

verus! {

/// Little-endian value of eight bytes.
pub open spec fn le_u64(b: Seq<u8>) -> u64
    recommends
        b.len() >= 8,
{
    (b[0] as u64) | (b[1] as u64) << 8 | (b[2] as u64) << 16 | (b[3] as u64) << 24 | (b[4] as u64)
        << 32 | (b[5] as u64) << 40 | (b[6] as u64) << 48 | (b[7] as u64) << 56
}

/// A text field of an instruction: one length byte, then that many bytes of UTF-8.
/// Yields the text and what follows it.
pub open spec fn text_field(b: Seq<u8>) -> Option<(Seq<char>, Seq<u8>)> {
    if b.len() >= 1 && b[0] as int + 1 <= b.len() && valid_utf8(b.subrange(1, b[0] as int + 1)) {
        Some((decode_utf8(b.subrange(1, b[0] as int + 1)), b.subrange(b[0] as int + 1, b.len() as int)))
    } else {
        None
    }
}

/// An integer field of an instruction: eight little-endian bytes.
pub open spec fn u64_field(b: Seq<u8>) -> Option<(u64, Seq<u8>)> {
    if b.len() >= 8 {
        Some((le_u64(b), b.subrange(8, b.len() as int)))
    } else {
        None
    }
}

/// A flag field of an instruction: one byte, 0 or 1.
pub open spec fn bool_field(b: Seq<u8>) -> Option<(bool, Seq<u8>)> {
    if b.len() >= 1 && (b[0] == 0 || b[0] == 1) {
        Some((b[0] == 1, b.subrange(1, b.len() as int)))
    } else {
        None
    }
}

/// Relies on std::str::from_utf8: it succeeds exactly on valid UTF-8 and then
/// views the same bytes as text.
#[verifier::external_body]
pub(crate) fn text_from_utf8(b: &[u8]) -> (r: Option<&str>)
    ensures
        r is Some <==> valid_utf8(b@),
        r matches Some(s) ==> s@ == decode_utf8(b@) && encode_utf8(s@) == b@,
{
    std::str::from_utf8(b).ok()
}

/// Splits a text field off the front of `bytes`.
pub fn read_string(bytes: &[u8]) -> (r: Result<(String, &[u8]), RegistryError>)
    ensures
        match text_field(bytes@) {
            Some((t, rest)) => r matches Ok((s, q)) && s@ == t && q@ == rest,
            None => r == Err::<(String, &[u8]), RegistryError>(RegistryError::Decode),
        },
        r matches Ok((s, q)) ==> encode_utf8(s@).len() < 256,
{
    if bytes.len() == 0 {
        return Err(RegistryError::Decode);
    }
    let n = bytes[0] as usize;
    if n >= bytes.len() {
        return Err(RegistryError::Decode);
    }
    let body = slice_range(bytes, 1, n + 1);
    let rest = slice_range(bytes, n + 1, bytes.len());
    match text_from_utf8(body) {
        Some(s) => Ok((s.to_owned(), rest)),
        None => Err(RegistryError::Decode),
    }
}

/// Splits an eight-byte little-endian integer off the front of `bytes`.
pub fn read_u64(bytes: &[u8]) -> (r: Result<(u64, &[u8]), RegistryError>)
    ensures
        match u64_field(bytes@) {
            Some((v, rest)) => r matches Ok((x, q)) && x == v && q@ == rest,
            None => r == Err::<(u64, &[u8]), RegistryError>(RegistryError::Decode),
        },
{
    if bytes.len() < 8 {
        return Err(RegistryError::Decode);
    }
    let v = (bytes[0] as u64) | (bytes[1] as u64) << 8 | (bytes[2] as u64) << 16 | (bytes[3] as u64)
        << 24 | (bytes[4] as u64) << 32 | (bytes[5] as u64) << 40 | (bytes[6] as u64) << 48 | (
    bytes[7] as u64) << 56;
    Ok((v, slice_range(bytes, 8, bytes.len())))
}

/// Splits a one-byte flag off the front of `bytes`.
pub fn read_bool(bytes: &[u8]) -> (r: Result<(bool, &[u8]), RegistryError>)
    ensures
        match bool_field(bytes@) {
            Some((v, rest)) => r matches Ok((x, q)) && x == v && q@ == rest,
            None => r == Err::<(bool, &[u8]), RegistryError>(RegistryError::Decode),
        },
{
    if bytes.len() == 0 {
        return Err(RegistryError::Decode);
    }
    let v = if bytes[0] == 0 {
        false
    } else if bytes[0] == 1 {
        true
    } else {
        return Err(RegistryError::Decode);
    };
    Ok((v, slice_range(bytes, 1, bytes.len())))
}

/// The bytes of `b` from `lo` up to `hi`.
pub(crate) fn slice_range(b: &[u8], lo: usize, hi: usize) -> (r: &[u8])
    requires
        lo <= hi <= b@.len(),
    ensures
        r@ == b@.subrange(lo as int, hi as int),
{
    &b[lo..hi]
}

} // verus!
