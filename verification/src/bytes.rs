//! Integers as sequences of bytes.

use crate::ir::Endianness;
use vstd::arithmetic::power2::pow2;
use vstd::prelude::*;

verus! {

/// The integer whose bytes, the least significant one first, are `bytes`.
pub open spec fn from_le(bytes: Seq<u8>) -> nat
    decreases bytes.len(),
{
    if bytes.len() == 0 {
        0
    } else {
        bytes[0] as nat + 256 * from_le(bytes.skip(1))
    }
}

/// The low `n` bytes of `x`, the least significant one first.
pub open spec fn to_le(x: nat, n: nat) -> Seq<u8>
    decreases n,
{
    if n == 0 {
        seq![]
    } else {
        seq![(x % 256) as u8] + to_le(x / 256, (n - 1) as nat)
    }
}

/// The integer whose bytes in memory, in the given order, are `bytes`.
pub open spec fn decode(endianness: Endianness, bytes: Seq<u8>) -> nat {
    match endianness {
        Endianness::Little => from_le(bytes),
        Endianness::Big => from_le(bytes.reverse()),
    }
}

/// The `n` bytes of `x` in memory, in the given order.
pub open spec fn encode(endianness: Endianness, x: nat, n: nat) -> Seq<u8> {
    match endianness {
        Endianness::Little => to_le(x, n),
        Endianness::Big => to_le(x, n).reverse(),
    }
}

/// The integer whose `n` bytes are those of `x` in the opposite order.
pub open spec fn swapped(x: nat, n: nat) -> nat {
    from_le(to_le(x, n).reverse())
}

/// `n` bytes.
pub proof fn lemma_to_le_len(x: nat, n: nat)
    ensures
        to_le(x, n).len() == n,
    decreases n,
{
    if n > 0 {
        lemma_to_le_len(x / 256, (n - 1) as nat);
    }
}

/// `n` bytes hold less than the `n`th power of 256.
pub proof fn lemma_from_le_bound(bytes: Seq<u8>)
    ensures
        from_le(bytes) < pow2(8 * bytes.len()),
    decreases bytes.len(),
{
    vstd::arithmetic::power2::lemma2_to64();
    if bytes.len() > 0 {
        let n = (bytes.len() - 1) as nat;
        lemma_from_le_bound(bytes.skip(1));
        vstd::arithmetic::power2::lemma_pow2_adds(8, 8 * n);
    }
}

/// An integer is what its bytes say.
pub proof fn lemma_from_to_le(x: nat, n: nat)
    requires
        x < pow2(8 * n),
    ensures
        from_le(to_le(x, n)) == x,
    decreases n,
{
    vstd::arithmetic::power2::lemma2_to64();
    if n > 0 {
        let m = (n - 1) as nat;
        vstd::arithmetic::power2::lemma_pow2_adds(8, 8 * m);
        lemma_from_to_le(x / 256, m);
        assert(to_le(x, n).skip(1) =~= to_le(x / 256, m));
    }
}

/// The bytes of the integer that has these bytes.
pub proof fn lemma_to_from_le(bytes: Seq<u8>)
    ensures
        to_le(from_le(bytes), bytes.len()) == bytes,
    decreases bytes.len(),
{
    if bytes.len() > 0 {
        let rest = bytes.skip(1);
        lemma_to_from_le(rest);
        let x = from_le(bytes);
        assert(x % 256 == bytes[0] as nat && x / 256 == from_le(rest));
        assert(seq![bytes[0]] + rest =~= bytes);
    }
}

/// Swapping the bytes of an integer twice gives it back.
pub proof fn lemma_swapped_twice(x: nat, n: nat)
    requires
        x < pow2(8 * n),
    ensures
        swapped(swapped(x, n), n) == x,
        swapped(x, n) < pow2(8 * n),
{
    let bytes = to_le(x, n);
    lemma_to_le_len(x, n);
    lemma_to_from_le(bytes.reverse());
    lemma_from_le_bound(bytes.reverse());
    assert(bytes.reverse().reverse() =~= bytes);
    lemma_from_to_le(x, n);
}

/// What is written in a byte order is read back in the same byte order.
pub proof fn lemma_decode_encode(endianness: Endianness, x: nat, n: nat)
    requires
        x < pow2(8 * n),
    ensures
        decode(endianness, encode(endianness, x, n)) == x,
        encode(endianness, x, n).len() == n,
{
    lemma_to_le_len(x, n);
    lemma_from_to_le(x, n);
    assert(to_le(x, n).reverse().reverse() =~= to_le(x, n));
}

/// The bytes of an integer of 16 bits, each moved to its place in the opposite order.
pub open spec fn moved16(x: u128) -> u128 {
    ((x >> 8) & 0xff) | (((x << 8) & 0xffff) & 0xff00)
}

/// The bytes of an integer of 32 bits, each moved to its place in the opposite order.
pub open spec fn moved32(x: u128) -> u128 {
    (((x >> 24) & 0xff) | ((x >> 8) & 0xff00)) | ((((x << 8) & 0xffff_ffff) & 0xff_0000) | (((x
        << 24) & 0xffff_ffff) & 0xff00_0000))
}

/// The bytes of an integer of 64 bits, each moved to its place in the opposite order.
pub open spec fn moved64(x: u128) -> u128 {
    let a = (x >> 56) & 0xff;
    let b = (x >> 40) & 0xff00;
    let c = (x >> 24) & 0xff_0000;
    let d = (x >> 8) & 0xff00_0000;
    let e = ((x << 8) & 0xffff_ffff_ffff_ffff) & 0xff_0000_0000;
    let f = ((x << 24) & 0xffff_ffff_ffff_ffff) & 0xff00_0000_0000;
    let g = ((x << 40) & 0xffff_ffff_ffff_ffff) & 0xff_0000_0000_0000;
    let h = ((x << 56) & 0xffff_ffff_ffff_ffff) & 0xff00_0000_0000_0000;
    ((a | b) | (c | d)) | ((e | f) | (g | h))
}

/// The byte of `x` from bit `s` on.
spec fn byte_from(x: u128, s: u128) -> u128 {
    (x >> s) & 0xff
}

/// A byte is a remainder, and what is above it is a quotient.
proof fn lemma_byte_from(x: u128, s: u128)
    requires
        s <= 56,
    ensures
        byte_from(x, s) == (x >> s) % 256,
        byte_from(x, s) < 256,
        x >> ((s + 8) as u128) == (x >> s) / 256,
{
    let y = x >> s;
    let t = (s + 8) as u128;
    assert(y & 0xff == y % 256 && y & 0xff < 256) by (bit_vector);
    assert(x >> t == y / 256) by (bit_vector)
        requires
            s <= 56,
            t == s + 8,
            y == x >> s,
    ;
}

/// Moving the bytes of an integer of 16 bits puts them in the opposite order.
pub proof fn lemma_swapped16(x: u128)
    requires
        x <= 0xffff,
    ensures
        moved16(x) == swapped(x as nat, 2),
{
    let b0 = byte_from(x, 0);
    let b1 = byte_from(x, 8);
    lemma_byte_from(x, 0);
    lemma_byte_from(x, 8);
    assert(x >> 0 == x && moved16(x) == byte_from(x, 8) + 0x100 * byte_from(x, 0)) by (bit_vector)
        requires
            x <= 0xffff,
    ;
    reveal_with_fuel(to_le, 3);
    reveal_with_fuel(from_le, 3);
    let bytes = to_le(x as nat, 2);
    assert(bytes =~= seq![b0 as u8, b1 as u8]);
    assert(bytes.reverse() =~= seq![b1 as u8, b0 as u8]);
    assert(bytes.reverse().skip(1) =~= seq![b0 as u8]);
}

/// Moving the bytes of an integer of 32 bits puts them in the opposite order.
pub proof fn lemma_swapped32(x: u128)
    requires
        x <= 0xffff_ffff,
    ensures
        moved32(x) == swapped(x as nat, 4),
{
    let b0 = byte_from(x, 0);
    let b1 = byte_from(x, 8);
    let b2 = byte_from(x, 16);
    let b3 = byte_from(x, 24);
    lemma_byte_from(x, 0);
    lemma_byte_from(x, 8);
    lemma_byte_from(x, 16);
    lemma_byte_from(x, 24);
    assert(x >> 0 == x && moved32(x) == byte_from(x, 24) + 0x100 * byte_from(x, 16) + 0x1_0000
        * byte_from(x, 8) + 0x100_0000 * byte_from(x, 0)) by (bit_vector)
        requires
            x <= 0xffff_ffff,
    ;
    reveal_with_fuel(to_le, 5);
    reveal_with_fuel(from_le, 5);
    let bytes = to_le(x as nat, 4);
    assert(bytes =~= seq![b0 as u8, b1 as u8, b2 as u8, b3 as u8]);
    let rev = bytes.reverse();
    assert(rev =~= seq![b3 as u8, b2 as u8, b1 as u8, b0 as u8]);
    assert(rev.skip(1) =~= seq![b2 as u8, b1 as u8, b0 as u8]);
    assert(rev.skip(1).skip(1) =~= seq![b1 as u8, b0 as u8]);
    assert(rev.skip(1).skip(1).skip(1) =~= seq![b0 as u8]);
}

/// Moving the bytes of an integer of 64 bits puts them in the opposite order.
pub proof fn lemma_swapped64(x: u128)
    requires
        x <= 0xffff_ffff_ffff_ffff,
    ensures
        moved64(x) == swapped(x as nat, 8),
{
    let b0 = byte_from(x, 0);
    let b1 = byte_from(x, 8);
    let b2 = byte_from(x, 16);
    let b3 = byte_from(x, 24);
    let b4 = byte_from(x, 32);
    let b5 = byte_from(x, 40);
    let b6 = byte_from(x, 48);
    let b7 = byte_from(x, 56);
    lemma_byte_from(x, 0);
    lemma_byte_from(x, 8);
    lemma_byte_from(x, 16);
    lemma_byte_from(x, 24);
    lemma_byte_from(x, 32);
    lemma_byte_from(x, 40);
    lemma_byte_from(x, 48);
    lemma_byte_from(x, 56);
    assert(x >> 0 == x && moved64(x) == byte_from(x, 56) + 0x100 * byte_from(x, 48) + 0x1_0000
        * byte_from(x, 40) + 0x100_0000 * byte_from(x, 32) + 0x1_0000_0000 * byte_from(x, 24)
        + 0x100_0000_0000 * byte_from(x, 16) + 0x1_0000_0000_0000 * byte_from(x, 8)
        + 0x100_0000_0000_0000 * byte_from(x, 0)) by (bit_vector)
        requires
            x <= 0xffff_ffff_ffff_ffff,
    ;
    reveal_with_fuel(to_le, 9);
    reveal_with_fuel(from_le, 9);
    let bytes = to_le(x as nat, 8);
    assert(bytes =~= seq![b0, b1, b2, b3, b4, b5, b6, b7].map_values(|b: u128| b as u8));
    let r0 = bytes.reverse();
    assert(r0 =~= seq![b7, b6, b5, b4, b3, b2, b1, b0].map_values(|b: u128| b as u8));
    let r1 = r0.skip(1);
    assert(r1 =~= seq![b6, b5, b4, b3, b2, b1, b0].map_values(|b: u128| b as u8));
    let r2 = r1.skip(1);
    assert(r2 =~= seq![b5, b4, b3, b2, b1, b0].map_values(|b: u128| b as u8));
    let r3 = r2.skip(1);
    assert(r3 =~= seq![b4, b3, b2, b1, b0].map_values(|b: u128| b as u8));
    let r4 = r3.skip(1);
    assert(r4 =~= seq![b3, b2, b1, b0].map_values(|b: u128| b as u8));
    let r5 = r4.skip(1);
    assert(r5 =~= seq![b2, b1, b0].map_values(|b: u128| b as u8));
    let r6 = r5.skip(1);
    assert(r6 =~= seq![b1, b0].map_values(|b: u128| b as u8));
    let r7 = r6.skip(1);
    assert(r7 =~= seq![b0].map_values(|b: u128| b as u8));
}

} // verus!
