//! The fixed-width integers of the container: how bytes are read as numbers,
//! and the bytes that stand for a number.

use vstd::prelude::*;

verus! {

/// The unsigned number that the two bytes of `s` from `at` on hold, least
/// significant byte first.
pub open spec fn le_u16(s: Seq<u8>, at: int) -> int {
    s[at] as int + 256 * (s[at + 1] as int)
}

/// The unsigned number that the four bytes of `s` from `at` on hold, least
/// significant byte first.
pub open spec fn le_u32(s: Seq<u8>, at: int) -> int {
    s[at] as int + 256 * (s[at + 1] as int) + 65536 * (s[at + 2] as int) + 16777216 * (s[at
        + 3] as int)
}

/// The number that a 32-bit pattern stands for in two's complement.
pub open spec fn signed32(u: int) -> int {
    if u < 0x8000_0000 {
        u
    } else {
        u - 0x1_0000_0000
    }
}

/// The signed number that the four bytes of `s` from `at` on hold.
pub open spec fn le_i32(s: Seq<u8>, at: int) -> int {
    signed32(le_u32(s, at))
}

/// The two bytes that hold `n`, for `0 <= n < 65536`.
pub open spec fn u16_bytes(n: int) -> Seq<u8> {
    seq![(n % 256) as u8, (n / 256) as u8]
}

/// The four bytes that hold `n`, for `0 <= n < 4294967296`.
pub open spec fn u32_bytes(n: int) -> Seq<u8> {
    seq![
        (n % 256) as u8,
        (n / 256 % 256) as u8,
        (n / 65536 % 256) as u8,
        (n / 16777216) as u8,
    ]
}

/// The 32-bit pattern of a signed number in two's complement.
pub open spec fn unsigned32(v: int) -> int {
    if v < 0 {
        v + 0x1_0000_0000
    } else {
        v
    }
}

/// The four bytes that hold the signed number `v`.
pub open spec fn i32_bytes(v: int) -> Seq<u8> {
    u32_bytes(unsigned32(v))
}

/// Whether `s` holds `part` from `at` on.
pub open spec fn holds_at(s: Seq<u8>, at: int, part: Seq<u8>) -> bool {
    &&& 0 <= at
    &&& at + part.len() <= s.len()
    &&& s.subrange(at, at + part.len()) == part
}

/// Reading back the bytes of a 16-bit number gives the number.
pub proof fn lemma_u16_round_trip(s: Seq<u8>, at: int, n: int)
    requires
        0 <= n < 65536,
        holds_at(s, at, u16_bytes(n)),
    ensures
        le_u16(s, at) == n,
{
    let part = s.subrange(at, at + 2);
    assert(part[0] == s[at] && part[1] == s[at + 1]);
}

/// Reading back the bytes of a 32-bit number gives the number.
pub proof fn lemma_u32_round_trip(s: Seq<u8>, at: int, n: int)
    requires
        0 <= n < 0x1_0000_0000,
        holds_at(s, at, u32_bytes(n)),
    ensures
        le_u32(s, at) == n,
{
    let part = s.subrange(at, at + 4);
    assert(part[0] == s[at] && part[1] == s[at + 1] && part[2] == s[at + 2] && part[3] == s[at
        + 3]);
}

/// Reading back the bytes of a signed 32-bit number gives the number.
pub proof fn lemma_i32_round_trip(s: Seq<u8>, at: int, v: int)
    requires
        -0x8000_0000 <= v < 0x8000_0000,
        holds_at(s, at, i32_bytes(v)),
    ensures
        le_i32(s, at) == v,
{
    lemma_u32_round_trip(s, at, unsigned32(v));
}

} // verus!
