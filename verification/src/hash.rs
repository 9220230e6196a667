//! The name under which an entry is kept: a hash of its bytes.
use std::collections::hash_map::DefaultHasher;
use std::hash::Hasher;

use vstd::endian::endianness;
use vstd::prelude::*;
use vstd::std_specs::hash::DefaultHasherAdditionalSpecFns;

use crate::outside::{fed_by_slice, fed_by_u64, hash_slice, hash_u64};
use crate::text::{hex, hex_digit, push_hex};

verus! {

/// What the second pass feeds to its hasher first, so that it differs from the first pass.
pub const SECOND_PASS_SEED: u64 = 0x9e37_79b9_7f4a_7c15;

/// What the bytes themselves feed to a hasher on this machine.
pub open spec fn fed_by_bytes(data: Seq<u8>) -> Seq<Seq<u8>> {
    fed_by_slice(data, usize::BITS as int, endianness() is Little)
}

/// The first 64 bits of the hash.
pub open spec fn first_pass(data: Seq<u8>) -> u64 {
    DefaultHasher::spec_finish(fed_by_bytes(data))
}

/// The last 64 bits of the hash.
pub open spec fn second_pass(data: Seq<u8>) -> u64 {
    DefaultHasher::spec_finish(
        fed_by_u64(SECOND_PASS_SEED, endianness() is Little) + fed_by_bytes(data),
    )
}

/// The 32 hexadecimal digits of two 64-bit numbers.
pub open spec fn digest_of(a: u64, b: u64) -> Seq<char> {
    hex(a as nat, 16) + hex(b as nat, 16)
}

/// The hash of some bytes: 128 bits from two passes over them.
pub open spec fn hash_of(data: Seq<u8>) -> Seq<char> {
    digest_of(first_pass(data), second_pass(data))
}

/// The 32 hexadecimal digits of two 64-bit numbers.
pub fn digest(a: u64, b: u64) -> (r: String)
    ensures
        r@ == digest_of(a, b),
{
    let mut out = String::new();
    push_hex(&mut out, a, 16);
    push_hex(&mut out, b, 16);
    assert(out@ =~= digest_of(a, b));
    out
}

/// The hash of some bytes: 128 bits from two passes over them.
pub fn hash_bytes(data: &[u8]) -> (r: String)
    ensures
        r@ == hash_of(data@),
{
    let mut h1 = DefaultHasher::new();
    hash_slice(data, &mut h1);
    assert(h1@ =~= fed_by_bytes(data@));
    let a = h1.finish();
    let mut h2 = DefaultHasher::new();
    hash_u64(SECOND_PASS_SEED, &mut h2);
    hash_slice(data, &mut h2);
    assert(h2@ =~= fed_by_u64(SECOND_PASS_SEED, endianness() is Little) + fed_by_bytes(data@));
    let b = h2.finish();
    digest(a, b)
}

// ---------------------------------------------------------------------------------------------
// Laws
// ---------------------------------------------------------------------------------------------

/// Whether a character is a lower-case hexadecimal digit.
pub open spec fn is_hex_digit(c: char) -> bool {
    '0' <= c <= '9' || 'a' <= c <= 'f'
}

/// Hexadecimal text has the width that was asked for and holds hexadecimal digits.
proof fn lemma_hex(n: nat, width: nat)
    ensures
        hex(n, width).len() == width,
        forall|i: int| 0 <= i < width ==> is_hex_digit(#[trigger] hex(n, width)[i]),
    decreases width,
{
    if width > 0 {
        lemma_hex(n / 16, (width - 1) as nat);
        let s = hex(n, width);
        assert(is_hex_digit(hex_digit((n % 16) as int)));
        assert forall|i: int| 0 <= i < width implies is_hex_digit(#[trigger] s[i]) by {
            if i < width - 1 {
                assert(s[i] == hex(n / 16, (width - 1) as nat)[i]);
            }
        }
    }
}

/// A hash is 32 hexadecimal digits, whatever the bytes.
pub proof fn law_hash_is_hexadecimal(data: Seq<u8>)
    ensures
        hash_of(data).len() == 32,
        forall|i: int| 0 <= i < 32 ==> is_hex_digit(#[trigger] hash_of(data)[i]),
{
    let a = first_pass(data) as nat;
    let b = second_pass(data) as nat;
    lemma_hex(a, 16);
    lemma_hex(b, 16);
    assert forall|i: int| 0 <= i < 32 implies is_hex_digit(#[trigger] hash_of(data)[i]) by {
        if i < 16 {
            assert(hash_of(data)[i] == hex(a, 16)[i]);
        } else {
            assert(hash_of(data)[i] == hex(b, 16)[i - 16]);
        }
    }
}

/// The number that hexadecimal digits write.
pub open spec fn hex_value(s: Seq<char>) -> int
    decreases s.len(),
{
    if s.len() == 0 {
        0
    } else {
        16 * hex_value(s.drop_last()) + (if s.last() <= '9' {
            s.last() as int - '0' as int
        } else {
            10 + s.last() as int - 'a' as int
        })
    }
}

/// The number of values that fit in so many hexadecimal digits.
spec fn values_of_width(width: nat) -> nat
    decreases width,
{
    if width == 0 {
        1
    } else {
        16 * values_of_width((width - 1) as nat)
    }
}

/// The digits of a number that fits write that number.
proof fn lemma_hex_value(n: nat, width: nat)
    requires
        n < values_of_width(width),
    ensures
        hex_value(hex(n, width)) == n,
    decreases width,
{
    if width > 0 {
        let s = hex(n, width);
        lemma_hex_value(n / 16, (width - 1) as nat);
        assert(s.drop_last() =~= hex(n / 16, (width - 1) as nat));
        assert(s.last() == hex_digit((n % 16) as int));
    } else {
        assert(hex(n, width) =~= seq![]);
    }
}

/// The hash is made of all the bytes: its first sixteen digits write what a hasher gives that was
/// fed the bytes, and its last sixteen what one gives that was fed a number first, and then the
/// bytes.
pub proof fn law_hash_is_of_all_bytes(data: Seq<u8>)
    ensures
        hex_value(hash_of(data).take(16)) == DefaultHasher::spec_finish(
            fed_by_slice(data, usize::BITS as int, endianness() is Little),
        ),
        hex_value(hash_of(data).skip(16)) == DefaultHasher::spec_finish(
            fed_by_u64(0x9e37_79b9_7f4a_7c15, endianness() is Little) + fed_by_slice(
                data,
                usize::BITS as int,
                endianness() is Little,
            ),
        ),
{
    let a = first_pass(data) as nat;
    let b = second_pass(data) as nat;
    reveal_with_fuel(values_of_width, 17);
    assert(values_of_width(16) == 0x1_0000_0000_0000_0000);
    lemma_hex_value(a, 16);
    lemma_hex_value(b, 16);
    lemma_hex(a, 16);
    lemma_hex(b, 16);
    assert(hash_of(data).take(16) =~= hex(a, 16));
    assert(hash_of(data).skip(16) =~= hex(b, 16));
}

}
