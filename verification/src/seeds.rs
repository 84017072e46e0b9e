//! Seeds of the per-cell random draws behind value noise and film grain.

use vstd::prelude::*;

verus! {

/// The 32-bit two's complement pattern of `v`, read as unsigned.
pub open spec fn bits32(v: i32) -> int {
    if v < 0 {
        v + 0x1_0000_0000
    } else {
        v as int
    }
}

/// Seed of the lattice point `(x, y)` of value noise: the seed times the
/// 64-bit golden-ratio constant, plus the bit patterns of `x` in the low half
/// and of `y` in the high half, all modulo 2^64.
pub open spec fn lattice_seed_spec(seed: u64, x: i32, y: i32) -> u64 {
    ((seed * 0x9E37_79B9_7F4A_7C15 + bits32(x) + bits32(y) * 0x1_0000_0000) % 0x1_0000_0000_0000_0000) as u64
}

proof fn lemma_bits32(v: i32)
    ensures
        (v as u32) as int == bits32(v),
{
    assert((v as u32) as int == if v < 0 { v + 0x1_0000_0000 } else { v as int }) by (bit_vector);
}

/// Seed of the random draw at lattice point `(x, y)` of value noise.
pub fn lattice_seed(seed: u64, x: i32, y: i32) -> (s: u64)
    ensures
        s == lattice_seed_spec(seed, x, y),
{
    let xb = x as u32 as u64;
    let yb = y as u32 as u64;
    proof {
        lemma_bits32(x);
        lemma_bits32(y);
        assert(yb < 0x1_0000_0000 ==> yb << 32u32 == yb * 0x1_0000_0000) by (bit_vector);
    }
    let a = seed.wrapping_mul(0x9E37_79B9_7F4A_7C15);
    let b = a.wrapping_add(xb);
    let hi = yb.wrapping_shl(32);
    let s = b.wrapping_add(hi);
    proof {
        let m: int = 0x1_0000_0000_0000_0000;
        assert(hi == yb * 0x1_0000_0000);
        assert(a as int == (seed * 0x9E37_79B9_7F4A_7C15) % m);
        assert(b as int == (a + xb) % m);
        assert(s as int == (b + hi) % m);
        vstd::arithmetic::div_mod::lemma_add_mod_noop(seed * 0x9E37_79B9_7F4A_7C15, xb as int, m);
        vstd::arithmetic::div_mod::lemma_mod_twice(seed * 0x9E37_79B9_7F4A_7C15 + xb, m);
        vstd::arithmetic::div_mod::lemma_add_mod_noop(seed * 0x9E37_79B9_7F4A_7C15 + xb, hi as int, m);
        vstd::arithmetic::div_mod::lemma_mod_twice(hi as int, m);
    }
    s
}

/// The 64-bit two's complement pattern of `v`, read as unsigned.
pub open spec fn bits64(v: i32) -> int {
    if v < 0 {
        v + 0x1_0000_0000_0000_0000
    } else {
        v as int
    }
}

/// Seed of the grain drawn at pixel `(x, y)` of frame `frame_index`: the seed,
/// the frame index and the sign-extended coordinates summed modulo 2^64, then
/// shifted sixteen bits up (bits beyond 64 dropped).
pub open spec fn grain_seed_spec(seed: u64, frame_index: u32, x: i32, y: i32) -> u64 {
    let m: int = 0x1_0000_0000_0000_0000;
    ((((seed + frame_index + bits64(x) + bits64(y)) % m) * 0x1_0000) % m) as u64
}

/// Seed of the grain drawn at pixel `(x, y)` of frame `frame_index`.
pub fn grain_seed(seed: u64, frame_index: u32, x: i32, y: i32) -> (s: u64)
    ensures
        s == grain_seed_spec(seed, frame_index, x, y),
{
    let xb = x as u64;
    let yb = y as u64;
    proof {
        assert((x as u64) as int == if x < 0 { x + 0x1_0000_0000_0000_0000 } else { x as int }) by (bit_vector);
        assert((y as u64) as int == if y < 0 { y + 0x1_0000_0000_0000_0000 } else { y as int }) by (bit_vector);
    }
    let a = seed.wrapping_add(frame_index as u64);
    let b = a.wrapping_add(xb);
    let c = b.wrapping_add(yb);
    let s = c.wrapping_shl(16);
    proof {
        let m: int = 0x1_0000_0000_0000_0000;
        assert((c << 16u32) as int == (c as int * 0x1_0000) % 0x1_0000_0000_0000_0000) by (bit_vector);
        assert(a as int == (seed + frame_index) % m);
        assert(b as int == (a + xb) % m);
        assert(c as int == (b + yb) % m);
        vstd::arithmetic::div_mod::lemma_add_mod_noop(seed + frame_index, xb as int, m);
        vstd::arithmetic::div_mod::lemma_mod_twice(xb as int, m);
        vstd::arithmetic::div_mod::lemma_add_mod_noop(seed + frame_index + xb, yb as int, m);
        vstd::arithmetic::div_mod::lemma_mod_twice(yb as int, m);
        vstd::arithmetic::div_mod::lemma_mod_twice(seed + frame_index + xb, m);
    }
    s
}

} // verus!
