//! Morton (Z-order) codes: the bits of `x` go to the even positions of the
//! code and the bits of `y` to the odd positions.

use vstd::prelude::*;
use vstd::arithmetic::power2::*;

verus! {

/// The Morton code of `(x, y)`: bit `i` of `x` becomes bit `2i` of the code
/// and bit `i` of `y` becomes bit `2i + 1`.
pub open spec fn interleave(x: nat, y: nat) -> nat
    decreases x + y,
{
    if x == 0 && y == 0 {
        0
    } else {
        (x % 2) + 2 * (y % 2) + 4 * interleave(x / 2, y / 2)
    }
}

/// The number made of the even bits of `z` (bit `2i` of `z` becomes bit `i`).
pub open spec fn even_bits(z: nat) -> nat
    decreases z,
{
    if z == 0 {
        0
    } else {
        z % 2 + 2 * even_bits(z / 4)
    }
}

spec fn spread_bv(n: u64) -> u64 {
    let n0 = n & 0x00000000ffffffffu64;
    let n1 = (n0 | (n0 << 16u64)) & 0x0000ffff0000ffffu64;
    let n2 = (n1 | (n1 << 8u64)) & 0x00ff00ff00ff00ffu64;
    let n3 = (n2 | (n2 << 4u64)) & 0x0f0f0f0f0f0f0f0fu64;
    let n4 = (n3 | (n3 << 2u64)) & 0x3333333333333333u64;
    (n4 | (n4 << 1u64)) & 0x5555555555555555u64
}

/// Spreads the 32 bits of `n` to the even bit positions of a 64-bit word.
fn spread_bits(n: u32) -> (r: u64)
    ensures
        r == spread_bv(n as u64),
{
    let mut n: u64 = n as u64;
    n &= 0x00000000ffffffff;
    n = (n | (n << 16)) & 0x0000ffff0000ffff;
    n = (n | (n << 8)) & 0x00ff00ff00ff00ff;
    n = (n | (n << 4)) & 0x0f0f0f0f0f0f0f0f;
    n = (n | (n << 2)) & 0x3333333333333333;
    n = (n | (n << 1)) & 0x5555555555555555;
    n
}

spec fn encode_bv(x: u64, y: u64) -> u64 {
    spread_bv(x) | (spread_bv(y) << 1u64)
}

proof fn lemma_encode_step(x: u64, y: u64)
    requires
        x <= u32::MAX,
        y <= u32::MAX,
    ensures
        encode_bv(x, y) & 3 == (x & 1) + 2 * (y & 1),
        encode_bv(x, y) >> 2u64 == encode_bv(x >> 1u64, y >> 1u64),
{
    assert(encode_bv(x, y) & 3 == (x & 1) + 2 * (y & 1)) by (bit_vector)
        requires x <= 0xffffffffu64, y <= 0xffffffffu64;
    assert(encode_bv(x, y) >> 2u64 == encode_bv(x >> 1u64, y >> 1u64)) by (bit_vector)
        requires x <= 0xffffffffu64, y <= 0xffffffffu64;
}

proof fn lemma_encode_is_interleave(x: u64, y: u64)
    requires
        x <= u32::MAX,
        y <= u32::MAX,
    ensures
        encode_bv(x, y) as nat == interleave(x as nat, y as nat),
    decreases x + y,
{
    lemma_encode_step(x, y);
    if x == 0 && y == 0 {
        assert(encode_bv(0, 0) == 0) by (bit_vector);
    } else {
        assert(x >> 1u64 == x / 2) by (bit_vector);
        assert(y >> 1u64 == y / 2) by (bit_vector);
        assert(x & 1 == x % 2) by (bit_vector);
        assert(y & 1 == y % 2) by (bit_vector);
        let e = encode_bv(x, y);
        assert(e == 4 * (e >> 2u64) + (e & 3)) by (bit_vector)
            requires e == encode_bv(x, y);
        lemma_encode_is_interleave(x >> 1u64, y >> 1u64);
    }
}


spec fn compact_bv(n: u64) -> u64 {
    let n0 = n & 0x5555555555555555u64;
    let n1 = (n0 | (n0 >> 1u64)) & 0x3333333333333333u64;
    let n2 = (n1 | (n1 >> 2u64)) & 0x0f0f0f0f0f0f0f0fu64;
    let n3 = (n2 | (n2 >> 4u64)) & 0x00ff00ff00ff00ffu64;
    let n4 = (n3 | (n3 >> 8u64)) & 0x0000ffff0000ffffu64;
    (n4 | (n4 >> 16u64)) & 0x00000000ffffffffu64
}

proof fn lemma_compact_step(n: u64)
    ensures
        compact_bv(n) & 1 == n & 1,
        compact_bv(n) >> 1u64 == compact_bv(n >> 2u64),
        compact_bv(n) <= u32::MAX,
        compact_bv(0) == 0,
{
    assert(compact_bv(n) & 1 == n & 1) by (bit_vector);
    assert(compact_bv(n) >> 1u64 == compact_bv(n >> 2u64)) by (bit_vector);
    assert(compact_bv(n) <= 0xffffffffu64) by (bit_vector);
    assert(compact_bv(0) == 0) by (bit_vector);
}

proof fn lemma_compact_is_even_bits(n: u64)
    ensures
        compact_bv(n) as nat == even_bits(n as nat),
    decreases n,
{
    lemma_compact_step(n);
    if n != 0 {
        assert(n >> 2u64 == n / 4) by (bit_vector);
        assert(n & 1 == n % 2) by (bit_vector);
        let c = compact_bv(n);
        assert(c == 2 * (c >> 1u64) + (c & 1)) by (bit_vector)
            requires c == compact_bv(n);
        lemma_compact_is_even_bits(n >> 2u64);
    }
}

/// Gathers the even bits of `n` into a 32-bit word.
fn compact_bits(n: u64) -> (r: u32)
    ensures
        r as nat == even_bits(n as nat),
{
    let mut m: u64 = n & 0x5555555555555555;
    m = (m | (m >> 1)) & 0x3333333333333333;
    m = (m | (m >> 2)) & 0x0f0f0f0f0f0f0f0f;
    m = (m | (m >> 4)) & 0x00ff00ff00ff00ff;
    m = (m | (m >> 8)) & 0x0000ffff0000ffff;
    m = (m | (m >> 16)) & 0x00000000ffffffff;
    proof {
        lemma_compact_step(n);
        lemma_compact_is_even_bits(n);
    }
    m as u32
}

/// The Morton code of `(x, y)`.
pub fn z_order_encode(x: u32, y: u32) -> (r: usize)
    requires
        interleave(x as nat, y as nat) <= usize::MAX,
    ensures
        r as nat == interleave(x as nat, y as nat),
{
    proof {
        lemma_encode_is_interleave(x as u64, y as u64);
    }
    (spread_bits(x) | (spread_bits(y) << 1)) as usize
}

/// The coordinates `(x, y)` whose Morton code is `z`.
pub fn z_order_decode(z: usize) -> (r: (u32, u32))
    ensures
        r.0 as nat == even_bits(z as nat),
        r.1 as nat == even_bits(z as nat / 2),
{
    let zz: u64 = z as u64;
    proof {
        assert(zz >> 1u64 == zz / 2) by (bit_vector);
    }
    (compact_bits(zz), compact_bits(zz >> 1))
}


/// Decoding a Morton code gives back the coordinates it was made from:
/// `z_order_decode(z_order_encode(x, y)) == (x, y)`.
pub proof fn lemma_decode_inverts_encode(x: nat, y: nat)
    ensures
        even_bits(interleave(x, y)) == x,
        even_bits(interleave(x, y) / 2) == y,
    decreases x + y,
{
    if x == 0 && y == 0 {
        assert(even_bits(0) == 0);
    } else {
        let w = interleave(x / 2, y / 2);
        let z = interleave(x, y);
        lemma_decode_inverts_encode(x / 2, y / 2);
        assert(z == (x % 2) + 2 * (y % 2) + 4 * w);
        assert(z / 4 == w);
        assert(z % 2 == x % 2);
        let h = z / 2;
        assert(h == (y % 2) + 2 * w);
        assert(h % 2 == y % 2);
        assert(h / 4 == w / 2);
        if z == 0 {
            assert(x % 2 == 0 && y % 2 == 0 && w == 0);
        } else {
            assert(even_bits(z) == z % 2 + 2 * even_bits(z / 4));
        }
        if h == 0 {
            assert(y % 2 == 0 && w == 0);
            assert(even_bits(w / 2) == even_bits(0));
        } else {
            assert(even_bits(h) == h % 2 + 2 * even_bits(h / 4));
        }
    }
}

/// Encoding the coordinates decoded from a Morton code gives back the code:
/// `z_order_encode(z_order_decode(z)) == z`.
pub proof fn lemma_encode_inverts_decode(z: nat)
    ensures
        interleave(even_bits(z), even_bits(z / 2)) == z,
    decreases z,
{
    if z != 0 {
        let q = z / 4;
        let r = z % 4;
        assert(z == 4 * q + r);
        lemma_encode_inverts_decode(q);
        let h = z / 2;
        assert(h == 2 * q + r / 2);
        assert(h % 2 == r / 2);
        assert(h / 4 == q / 2);
        let a = even_bits(z);
        let b = even_bits(h);
        assert(a == r % 2 + 2 * even_bits(q));
        if h == 0 {
            assert(b == 0);
            assert(q == 0 && r == 1);
            assert(a == 1);
            assert(interleave(1, 0) == 1 + 2 * 0 + 4 * interleave(0, 0));
        } else {
            assert(b == r / 2 + 2 * even_bits(q / 2));
            assert(a / 2 == even_bits(q));
            assert(b / 2 == even_bits(q / 2));
            assert(a % 2 == r % 2);
            assert(b % 2 == r / 2);
            assert(interleave(a, b) == (a % 2) + 2 * (b % 2) + 4 * interleave(a / 2, b / 2));
        }
    }
}

/// Coordinates below `2^k` have a Morton code below `4^k`, and a code below
/// `4^k` decodes to coordinates below `2^k`.
pub proof fn lemma_interleave_bound(x: nat, y: nat, k: nat)
    ensures
        x < pow2(k) && y < pow2(k) <==> interleave(x, y) < pow2(2 * k),
    decreases k,
{
    if k == 0 {
        lemma2_to64();
        if x != 0 || y != 0 {
            assert(interleave(x, y) >= 1) by {
                if x % 2 == 0 && y % 2 == 0 {
                    lemma_interleave_positive(x, y);
                }
            }
        }
    } else {
        lemma_interleave_bound(x / 2, y / 2, (k - 1) as nat);
        lemma_pow2_unfold(k);
        lemma_pow2_unfold(2 * k);
        lemma_pow2_unfold((2 * k - 1) as nat);
        assert((2 * k - 1 - 1) as nat == (2 * (k - 1)) as nat);
        assert(x < pow2(k) <==> x / 2 < pow2((k - 1) as nat));
        assert(y < pow2(k) <==> y / 2 < pow2((k - 1) as nat));
        if x == 0 && y == 0 {
            assert(interleave(0, 0) == 0);
        } else {
            let w = interleave(x / 2, y / 2);
            assert(interleave(x, y) == (x % 2) + 2 * (y % 2) + 4 * w);
        }
    }
}

proof fn lemma_interleave_positive(x: nat, y: nat)
    requires
        x != 0 || y != 0,
    ensures
        interleave(x, y) >= 1,
    decreases x + y,
{
    if x % 2 == 0 && y % 2 == 0 {
        lemma_interleave_positive(x / 2, y / 2);
    }
}

/// Different coordinates have different Morton codes.
pub proof fn lemma_interleave_injective(x1: nat, y1: nat, x2: nat, y2: nat)
    ensures
        (x1, y1) != (x2, y2) ==> interleave(x1, y1) != interleave(x2, y2),
{
    lemma_decode_inverts_encode(x1, y1);
    lemma_decode_inverts_encode(x2, y2);
}

/// Morton codes are monotone in each coordinate: moving right or up never
/// lowers the code.
pub proof fn lemma_interleave_monotone(x1: nat, y1: nat, x2: nat, y2: nat)
    requires
        x1 <= x2,
        y1 <= y2,
    ensures
        interleave(x1, y1) <= interleave(x2, y2),
    decreases x2 + y2,
{
    if x1 == 0 && y1 == 0 {
    } else {
        let i1 = interleave(x1 / 2, y1 / 2);
        let i2 = interleave(x2 / 2, y2 / 2);
        lemma_interleave_monotone(x1 / 2, y1 / 2, x2 / 2, y2 / 2);
        assert(interleave(x1, y1) == (x1 % 2) + 2 * (y1 % 2) + 4 * i1);
        assert(interleave(x2, y2) == (x2 % 2) + 2 * (y2 % 2) + 4 * i2);
        if i1 == i2 {
            lemma_interleave_injective(x1 / 2, y1 / 2, x2 / 2, y2 / 2);
            assert(x1 / 2 == x2 / 2 && y1 / 2 == y2 / 2);
            assert(x1 % 2 <= x2 % 2);
            assert(y1 % 2 <= y2 % 2);
        }
    }
}

} // verus!
