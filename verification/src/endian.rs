//! Unsigned 32-bit numbers as four bytes, most significant byte first.

use vstd::prelude::*;

verus! {

/// The four bytes of `x`, most significant first.
pub open spec fn be32(x: u32) -> Seq<u8> {
    seq![
        (x / 0x100_0000) as u8,
        ((x / 0x1_0000) % 0x100) as u8,
        ((x / 0x100) % 0x100) as u8,
        (x % 0x100) as u8,
    ]
}

/// The number whose four bytes, most significant first, are `s`.
pub open spec fn from_be32(s: Seq<u8>) -> u32
    recommends
        s.len() == 4,
{
    (s[0] * 0x100_0000 + s[1] * 0x1_0000 + s[2] * 0x100 + s[3]) as u32
}

/// Reading the four bytes of a number gives the number back.
pub proof fn lemma_from_be32_of_be32(x: u32)
    ensures
        be32(x).len() == 4,
        from_be32(be32(x)) == x,
{
}

/// Writing the number read from four bytes gives the bytes back.
pub proof fn lemma_be32_of_from_be32(s: Seq<u8>)
    requires
        s.len() == 4,
    ensures
        be32(from_be32(s)) == s,
{
    let v = from_be32(s);
    lemma_digits(s[0] as u32, s[1] as u32, s[2] as u32, s[3] as u32);
    assert(be32(v) =~= s);
}

proof fn lemma_digits(b0: u32, b1: u32, b2: u32, b3: u32)
    by (bit_vector)
    requires
        b0 < 0x100,
        b1 < 0x100,
        b2 < 0x100,
        b3 < 0x100,
    ensures
        b0 * 0x100_0000 + b1 * 0x1_0000 + b2 * 0x100 + b3 <= 0xffff_ffff,
        (b0 * 0x100_0000 + b1 * 0x1_0000 + b2 * 0x100 + b3) / 0x100_0000 == b0,
        ((b0 * 0x100_0000 + b1 * 0x1_0000 + b2 * 0x100 + b3) / 0x1_0000) % 0x100 == b1,
        ((b0 * 0x100_0000 + b1 * 0x1_0000 + b2 * 0x100 + b3) / 0x100) % 0x100 == b2,
        (b0 * 0x100_0000 + b1 * 0x1_0000 + b2 * 0x100 + b3) % 0x100 == b3,
{
}

/// The four bytes of `x`, most significant first.
pub fn to_be_bytes(x: u32) -> (r: [u8; 4])
    ensures
        r@ == be32(x),
{
    let r: [u8; 4] = [
        (x / 0x100_0000) as u8,
        ((x / 0x1_0000) % 0x100) as u8,
        ((x / 0x100) % 0x100) as u8,
        (x % 0x100) as u8,
    ];
    assert(r@ =~= be32(x));
    r
}

/// The number whose four bytes, most significant first, are `b`.
pub fn from_be_bytes(b: [u8; 4]) -> (r: u32)
    ensures
        r == from_be32(b@),
{
    (b[0] as u32) * 0x100_0000 + (b[1] as u32) * 0x1_0000 + (b[2] as u32) * 0x100 + (b[3] as u32)
}

} // verus!
