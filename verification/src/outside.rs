//! What the library takes from the standard library on trust.
//!
//! Each item here states what a function of the standard library does, as its documentation has
//! it. Nothing proves these statements; all else in the library is proved from them.
use std::collections::hash_map::DefaultHasher;
use std::hash::Hash;

use vstd::endian::{endianness, Endian};
use vstd::prelude::*;
use vstd::utf8::{decode_utf8, valid_utf8};

verus! {

/// Trusted: `String::push` appends exactly the given character at the end of the string.
pub assume_specification[ String::push ](s: &mut String, ch: char)
    ensures
        final(s)@ == old(s)@.push(ch),
;

/// Trusted: `String::from_utf8` decodes bytes that are valid UTF-8 to the text that they encode,
/// and gives an error for all others.
#[verifier::external_body]
pub(crate) fn string_from_utf8(bytes: Vec<u8>) -> (r: Option<String>)
    ensures
        r is Some <==> valid_utf8(bytes@),
        r matches Some(s) ==> s@ == decode_utf8(bytes@),
{
    String::from_utf8(bytes).ok()
}

/// The text that `String::from_utf8_lossy` makes of some bytes.
pub uninterp spec fn lossy_text(bytes: Seq<u8>) -> Seq<char>;

/// Trusted: `String::from_utf8_lossy` makes a text of any bytes, always the same of the same bytes,
/// and of valid UTF-8 the text that it encodes. Which replacement characters stand for bytes that
/// are not valid is left unsaid.
#[verifier::external_body]
pub(crate) fn string_from_utf8_lossy(bytes: &[u8]) -> (r: String)
    ensures
        r@ == lossy_text(bytes@),
        valid_utf8(bytes@) ==> r@ == decode_utf8(bytes@),
{
    String::from_utf8_lossy(bytes).into_owned()
}

/// The number that four bytes stand for in the given byte order.
pub open spec fn u32_of(b: Seq<u8>, order: Endian) -> u32 {
    match order {
        Endian::Little => (b[0] + 0x100 * b[1] + 0x1_0000 * b[2] + 0x100_0000 * b[3]) as u32,
        Endian::Big => (b[3] + 0x100 * b[2] + 0x1_0000 * b[1] + 0x100_0000 * b[0]) as u32,
    }
}

/// Trusted: `u32::from_ne_bytes` reads a number from its memory representation, in the byte order
/// of the machine.
#[verifier::external_body]
pub(crate) fn u32_from_ne_bytes(bytes: [u8; 4]) -> (r: u32)
    ensures
        r == u32_of(bytes@, endianness()),
{
    u32::from_ne_bytes(bytes)
}

/// What a slice of bytes feeds to a hasher, as a sequence of writes, on a machine with words of the
/// given size and the given byte order.
pub uninterp spec fn fed_by_slice(data: Seq<u8>, word_bits: int, little_endian: bool) -> Seq<
    Seq<u8>,
>;

/// Trusted: `<[u8] as Hash>::hash` feeds a slice to a hasher: it adds writes to those that the
/// hasher has received, and which ones follows from the bytes alone, given the machine's word size
/// and byte order. Which writes these are is left unsaid: the standard library does not promise it.
#[verifier::external_body]
pub(crate) fn hash_slice(data: &[u8], hasher: &mut DefaultHasher)
    ensures
        final(hasher)@ == old(hasher)@ + fed_by_slice(
            data@,
            usize::BITS as int,
            endianness() is Little,
        ),
{
    data.hash(hasher);
}

/// What a 64-bit number feeds to a hasher, as a sequence of writes, on a machine of the given byte
/// order.
pub uninterp spec fn fed_by_u64(n: u64, little_endian: bool) -> Seq<Seq<u8>>;

/// Trusted: `<u64 as Hash>::hash` feeds a number to a hasher: it adds writes to those that the
/// hasher has received, and which ones follows from the number alone, given the machine's byte
/// order. Which writes these are is left unsaid: the standard library does not promise it.
#[verifier::external_body]
pub(crate) fn hash_u64(n: u64, hasher: &mut DefaultHasher)
    ensures
        final(hasher)@ == old(hasher)@ + fed_by_u64(n, endianness() is Little),
{
    n.hash(hasher);
}

}
