//! Little-endian integers inside byte buffers.
//!
//! The journal structures that the volume hands back (and the request that
//! asks for them) are laid out in little-endian byte order.

use vstd::prelude::*;

verus! {

/// The unsigned value of the two bytes at `at`, least significant first.
pub open spec fn le_u16(b: Seq<u8>, at: int) -> nat {
    (b[at] + 256 * b[at + 1]) as nat
}

/// The unsigned value of the four bytes at `at`, least significant first.
pub open spec fn le_u32(b: Seq<u8>, at: int) -> nat {
    le_u16(b, at) + 65536 * le_u16(b, at + 2)
}

/// The unsigned value of the eight bytes at `at`, least significant first.
pub open spec fn le_u64(b: Seq<u8>, at: int) -> nat {
    le_u32(b, at) + 4294967296 * le_u32(b, at + 4)
}

/// The two's-complement value of the eight bytes at `at`, least significant first.
pub open spec fn le_i64(b: Seq<u8>, at: int) -> int {
    let u = le_u64(b, at);
    if u < 0x8000_0000_0000_0000 {
        u as int
    } else {
        u - 0x1_0000_0000_0000_0000
    }
}

/// The eight bytes of `x`, least significant first.
pub open spec fn le_bytes_u64(x: u64) -> Seq<u8> {
    seq![
        (x % 0x100) as u8,
        ((x / 0x100) % 0x100) as u8,
        ((x / 0x1_0000) % 0x100) as u8,
        ((x / 0x100_0000) % 0x100) as u8,
        ((x / 0x1_0000_0000) % 0x100) as u8,
        ((x / 0x100_0000_0000) % 0x100) as u8,
        ((x / 0x1_0000_0000_0000) % 0x100) as u8,
        ((x / 0x100_0000_0000_0000) % 0x100) as u8,
    ]
}

/// The four bytes of `x`, least significant first.
pub open spec fn le_bytes_u32(x: u32) -> Seq<u8> {
    seq![
        (x % 0x100) as u8,
        ((x / 0x100) % 0x100) as u8,
        ((x / 0x1_0000) % 0x100) as u8,
        ((x / 0x100_0000) % 0x100) as u8,
    ]
}

/// The 64-bit two's-complement pattern of `x`, as an unsigned number.
pub open spec fn twos_complement_u64(x: i64) -> u64 {
    if x >= 0 {
        x as u64
    } else {
        (x + 0x1_0000_0000_0000_0000) as u64
    }
}

pub fn read_u16_le(buf: &[u8], at: usize) -> (r: u16)
    requires
        at + 2 <= buf@.len(),
    ensures
        r == le_u16(buf@, at as int),
{
    buf[at] as u16 + (buf[at + 1] as u16) * 256
}

pub fn read_u32_le(buf: &[u8], at: usize) -> (r: u32)
    requires
        at + 4 <= buf@.len(),
    ensures
        r == le_u32(buf@, at as int),
{
    let _n = buf.len();
    let lo = read_u16_le(buf, at);
    let hi = read_u16_le(buf, at + 2);
    lo as u32 + (hi as u32) * 65536
}

pub fn read_u64_le(buf: &[u8], at: usize) -> (r: u64)
    requires
        at + 8 <= buf@.len(),
    ensures
        r == le_u64(buf@, at as int),
{
    let _n = buf.len();
    let lo = read_u32_le(buf, at);
    let hi = read_u32_le(buf, at + 4);
    lo as u64 + (hi as u64) * 4294967296
}

pub fn read_i64_le(buf: &[u8], at: usize) -> (r: i64)
    requires
        at + 8 <= buf@.len(),
    ensures
        r == le_i64(buf@, at as int),
{
    let u = read_u64_le(buf, at);
    if u < 0x8000_0000_0000_0000 {
        u as i64
    } else {
        let below: u64 = u - 0x8000_0000_0000_0000;
        (below as i64) + i64::MIN
    }
}

/// Appends the eight little-endian bytes of `x`.
pub fn push_u64_le(v: &mut Vec<u8>, x: u64)
    ensures
        final(v)@ == old(v)@ + le_bytes_u64(x),
{
    let mut rest: u64 = x;
    let mut k: usize = 0;
    let ghost start = v@;
    proof {
        lemma_pow256_values();
    }
    while k < 8
        invariant
            k <= 8,
            v@ == start + le_bytes_u64(x).take(k as int),
            rest == (x as nat) / pow256(k as nat),
        decreases 8 - k,
    {
        proof {
            lemma_byte_of(x, k as nat);
        }
        v.push((rest % 256) as u8);
        assert(v@ =~= start + le_bytes_u64(x).take(k + 1));
        rest = rest / 256;
        proof {
            lemma_pow256_step(x, k as nat);
        }
        k = k + 1;
    }
    assert(le_bytes_u64(x).take(8) =~= le_bytes_u64(x));
}

/// Appends the four little-endian bytes of `x`.
pub fn push_u32_le(v: &mut Vec<u8>, x: u32)
    ensures
        final(v)@ == old(v)@ + le_bytes_u32(x),
{
    v.push((x % 0x100) as u8);
    v.push(((x / 0x100) % 0x100) as u8);
    v.push(((x / 0x1_0000) % 0x100) as u8);
    v.push(((x / 0x100_0000) % 0x100) as u8);
    assert(final(v)@ =~= old(v)@ + le_bytes_u32(x));
}

/// Appends the eight little-endian bytes of the two's-complement pattern of `x`.
pub fn push_i64_le(v: &mut Vec<u8>, x: i64)
    ensures
        final(v)@ == old(v)@ + le_bytes_u64(twos_complement_u64(x)),
{
    let u: u64 = if x >= 0 {
        x as u64
    } else {
        let shifted: i64 = x - i64::MIN;
        (shifted as u64) + 0x8000_0000_0000_0000
    };
    push_u64_le(v, u);
}

pub open spec fn pow256(k: nat) -> nat
    decreases k,
{
    if k == 0 {
        1
    } else {
        256 * pow256((k - 1) as nat)
    }
}

proof fn lemma_pow256_values()
    ensures
        pow256(0) == 1,
        pow256(1) == 0x100,
        pow256(2) == 0x1_0000,
        pow256(3) == 0x100_0000,
        pow256(4) == 0x1_0000_0000,
        pow256(5) == 0x100_0000_0000,
        pow256(6) == 0x1_0000_0000_0000,
        pow256(7) == 0x100_0000_0000_0000,
        pow256(8) == 0x1_0000_0000_0000_0000,
{
    reveal_with_fuel(pow256, 9);
}

proof fn lemma_byte_of(x: u64, k: nat)
    requires
        k < 8,
    ensures
        (((x as nat) / pow256(k)) % 256) as u8 == le_bytes_u64(x)[k as int],
{
    lemma_pow256_values();
    let b = le_bytes_u64(x);
    if k == 0 {
        assert(b[0] == (x % 0x100) as u8);
    } else if k == 1 {
        assert(b[1] == ((x / 0x100) % 0x100) as u8);
    } else if k == 2 {
        assert(b[2] == ((x / 0x1_0000) % 0x100) as u8);
    } else if k == 3 {
        assert(b[3] == ((x / 0x100_0000) % 0x100) as u8);
    } else if k == 4 {
        assert(b[4] == ((x / 0x1_0000_0000) % 0x100) as u8);
    } else if k == 5 {
        assert(b[5] == ((x / 0x100_0000_0000) % 0x100) as u8);
    } else if k == 6 {
        assert(b[6] == ((x / 0x1_0000_0000_0000) % 0x100) as u8);
    } else {
        assert(b[7] == ((x / 0x100_0000_0000_0000) % 0x100) as u8);
    }
}

proof fn lemma_pow256_step(x: u64, k: nat)
    requires
        k < 8,
    ensures
        ((x as nat) / pow256(k)) / 256 == (x as nat) / pow256(k + 1),
{
    lemma_pow256_values();
    assert(pow256(k + 1) == pow256(k) * 256);
    vstd::arithmetic::div_mod::lemma_div_denominator(x as int, pow256(k) as int, 256);
}

/// Reading back the eight bytes of `x` gives `x`.
pub proof fn lemma_le_u64_roundtrip(x: u64)
    ensures
        le_u64(le_bytes_u64(x), 0) == x,
{
    lemma_pow256_values();
    let y0 = x as nat;
    let y1 = y0 / 0x100;
    let y2 = y1 / 0x100;
    let y3 = y2 / 0x100;
    let y4 = y3 / 0x100;
    let y5 = y4 / 0x100;
    let y6 = y5 / 0x100;
    let y7 = y6 / 0x100;
    let y8 = y7 / 0x100;
    lemma_pow256_step(x, 0);
    lemma_pow256_step(x, 1);
    lemma_pow256_step(x, 2);
    lemma_pow256_step(x, 3);
    lemma_pow256_step(x, 4);
    lemma_pow256_step(x, 5);
    lemma_pow256_step(x, 6);
    lemma_pow256_step(x, 7);
    assert(y8 == 0) by {
        vstd::arithmetic::div_mod::lemma_basic_div(x as int, 0x1_0000_0000_0000_0000);
    }
    vstd::arithmetic::div_mod::lemma_fundamental_div_mod(y0 as int, 0x100);
    vstd::arithmetic::div_mod::lemma_fundamental_div_mod(y1 as int, 0x100);
    vstd::arithmetic::div_mod::lemma_fundamental_div_mod(y2 as int, 0x100);
    vstd::arithmetic::div_mod::lemma_fundamental_div_mod(y3 as int, 0x100);
    vstd::arithmetic::div_mod::lemma_fundamental_div_mod(y4 as int, 0x100);
    vstd::arithmetic::div_mod::lemma_fundamental_div_mod(y5 as int, 0x100);
    vstd::arithmetic::div_mod::lemma_fundamental_div_mod(y6 as int, 0x100);
    vstd::arithmetic::div_mod::lemma_fundamental_div_mod(y7 as int, 0x100);
    let b = le_bytes_u64(x);
    assert(b[0] == y0 % 0x100);
    assert(b[1] == y1 % 0x100);
    assert(b[2] == y2 % 0x100);
    assert(b[3] == y3 % 0x100);
    assert(b[4] == y4 % 0x100);
    assert(b[5] == y5 % 0x100);
    assert(b[6] == y6 % 0x100);
    assert(b[7] == y7 % 0x100);
}

/// Reading eight bytes that are those of `x` gives `x`, wherever they stand.
pub proof fn lemma_le_u64_at(x: u64, b: Seq<u8>, at: int)
    requires
        0 <= at,
        at + 8 <= b.len(),
        b.subrange(at, at + 8) == le_bytes_u64(x),
    ensures
        le_u64(b, at) == x,
{
    lemma_le_u64_roundtrip(x);
    let s = le_bytes_u64(x);
    assert(b[at] == s[0] && b[at + 1] == s[1] && b[at + 2] == s[2] && b[at + 3] == s[3]);
    assert(b[at + 4] == s[4] && b[at + 5] == s[5] && b[at + 6] == s[6] && b[at + 7] == s[7]);
}

} // verus!
