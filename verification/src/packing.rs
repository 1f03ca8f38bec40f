//! The bit packer: transforms a canvas into the printer's native byte
//! stream. Bit `k` of the stream (MSB-first within each byte) carries
//! column `k / H`, row `H - 1 - (k % H)` of the canvas — columns in
//! ascending order, rows within a column bottom-to-top. A sample is ink
//! (bit 1) exactly when its intensity is below 128. Padding bits after
//! the last real bit of the final byte are zero.

use vstd::prelude::*;
use vstd::arithmetic::div_mod::{
    lemma_fundamental_div_mod,
    lemma_fundamental_div_mod_converse,
    lemma_mod_pos_bound,
};
use vstd::arithmetic::mul::lemma_mul_inequality;
use crate::canvas::{Canvas, lemma_grid_index};

verus! {

/// The binarization of one intensity sample: 1 ("ink") exactly when the
/// intensity is below 128, else 0.
pub open spec fn ink_bit(v: u8) -> int {
    if v < 128 {
        1
    } else {
        0
    }
}

/// The position in the packed bit stream that carries column `x`,
/// row `y` of a canvas of height `h`.
pub open spec fn bit_index(x: int, y: int, h: int) -> int {
    x * h + (h - 1 - y)
}

/// Bit `k` of the packed stream of a `w x h` sample grid `d`:
/// the binarized sample of column `k / h`, row `h - 1 - (k % h)`;
/// positions past the end of the stream are zero padding.
pub open spec fn stream_bit(d: Seq<u8>, w: int, h: int, k: int) -> int {
    if 0 <= k < w * h {
        ink_bit(d[(h - 1 - (k % h)) * w + k / h])
    } else {
        0
    }
}

/// The value of bit position `j` within a byte, MSB-first: `2^(7-j)`.
pub open spec fn bit_weight(j: int) -> int {
    if j <= 0 {
        128
    } else if j == 1 {
        64
    } else if j == 2 {
        32
    } else if j == 3 {
        16
    } else if j == 4 {
        8
    } else if j == 5 {
        4
    } else if j == 6 {
        2
    } else {
        1
    }
}

/// The value of a byte holding the first `p` stream bits starting at
/// stream position `base`, packed MSB-first.
pub open spec fn byte_prefix(d: Seq<u8>, w: int, h: int, base: int, p: int) -> int
    decreases p,
{
    if p <= 0 {
        0
    } else {
        byte_prefix(d, w, h, base, p - 1) + stream_bit(d, w, h, base + p - 1) * bit_weight(p - 1)
    }
}

/// Byte `i` of the packed stream: the eight stream bits starting at
/// position `8 * i`, MSB-first.
pub open spec fn packed_byte(d: Seq<u8>, w: int, h: int, i: int) -> int {
    byte_prefix(d, w, h, 8 * i, 8)
}

/// The length in bytes of the packed stream of a `w x h` canvas.
pub open spec fn packed_len(w: int, h: int) -> int {
    (w * h + 7) / 8
}

/// Bit `k` read back from a packed byte sequence, MSB-first.
pub open spec fn extract_bit(bytes: Seq<u8>, k: int) -> int {
    (bytes[k / 8] as int / bit_weight(k % 8)) % 2
}

/// A stream bit is 0 or 1.
proof fn lemma_stream_bit_is_bit(d: Seq<u8>, w: int, h: int, k: int)
    ensures
        0 <= stream_bit(d, w, h, k) <= 1,
{
}

/// A partial byte is bounded so that the next bit still fits: for
/// `p < 8` the prefix leaves room for twice the next weight.
proof fn lemma_byte_prefix_bound(d: Seq<u8>, w: int, h: int, base: int, p: int)
    requires
        0 <= p <= 8,
    ensures
        0 <= byte_prefix(d, w, h, base, p),
        p < 8 ==> byte_prefix(d, w, h, base, p) + 2 * bit_weight(p) <= 256,
        byte_prefix(d, w, h, base, p) <= 255,
    decreases p,
{
    if p > 0 {
        lemma_byte_prefix_bound(d, w, h, base, p - 1);
        lemma_stream_bit_is_bit(d, w, h, base + p - 1);
    }
}

/// Stream positions at or past the end of the stream contribute nothing:
/// a byte whose tail bits all lie past the end equals its real prefix.
proof fn lemma_byte_prefix_pad(d: Seq<u8>, w: int, h: int, base: int, p0: int, p: int)
    requires
        0 <= p0 <= p,
        base + p0 >= w * h,
    ensures
        byte_prefix(d, w, h, base, p) == byte_prefix(d, w, h, base, p0),
    decreases p - p0,
{
    if p > p0 {
        lemma_byte_prefix_pad(d, w, h, base, p0, p - 1);
        assert(stream_bit(d, w, h, base + p - 1) == 0);
    }
}

/// A stream position `k` of a `w x h` stream addresses a valid column
/// and row: `k / h` lies in `[0, w)` and `k % h` in `[0, h)`.
proof fn lemma_stream_xy(k: int, w: int, h: int)
    requires
        0 <= k < w * h,
        w >= 1,
        h >= 1,
    ensures
        0 <= k / h < w,
        0 <= k % h < h,
{
    lemma_fundamental_div_mod(k, h);
    lemma_mod_pos_bound(k, h);
    if k / h < 0 {
        lemma_mul_inequality(k / h, -1, h);
        assert(false);
    }
    if k / h >= w {
        lemma_mul_inequality(w, k / h, h);
        assert(h * (k / h) == (k / h) * h) by (nonlinear_arith);
        assert(false);
    }
}

/// A stream position `k` of a `w x h` stream lands in byte `k / 8`,
/// which exists in a packed stream of `packed_len(w, h)` bytes.
proof fn lemma_stream_byte_pos(k: int, w: int, h: int)
    requires
        0 <= k < w * h,
    ensures
        0 <= k / 8 < packed_len(w, h),
        0 <= k % 8 < 8,
        k == 8 * (k / 8) + k % 8,
{
    lemma_fundamental_div_mod(k, 8);
    lemma_mod_pos_bound(k, 8);
    let q = (w * h - 1) / 8;
    let r = (w * h - 1) % 8;
    lemma_fundamental_div_mod(w * h - 1, 8);
    lemma_mod_pos_bound(w * h - 1, 8);
    lemma_fundamental_div_mod_converse(w * h + 7, 8, q + 1, r);
    if k / 8 < 0 {
        lemma_mul_inequality(k / 8, -1, 8);
        assert(8 * (k / 8) == (k / 8) * 8);
        assert(false);
    }
    if k / 8 > q {
        lemma_mul_inequality(q + 1, k / 8, 8);
        assert(8 * (k / 8) == (k / 8) * 8);
        assert((q + 1) * 8 == 8 * q + r + 8 - r);
        assert(8 * q + r == w * h - 1);
        assert(false);
    }
}

/// The eight MSB-first bits summed into a byte are read back by
/// division and parity: bit `j` of `b0*128 + ... + b7*1` is `bj`.
proof fn lemma_byte_bits(b: u8, b0: u8, b1: u8, b2: u8, b3: u8, b4: u8, b5: u8, b6: u8, b7: u8)
    requires
        b0 <= 1,
        b1 <= 1,
        b2 <= 1,
        b3 <= 1,
        b4 <= 1,
        b5 <= 1,
        b6 <= 1,
        b7 <= 1,
        b == b0 * 128 + b1 * 64 + b2 * 32 + b3 * 16 + b4 * 8 + b5 * 4 + b6 * 2 + b7,
    ensures
        b as int / 128 % 2 == b0,
        b as int / 64 % 2 == b1,
        b as int / 32 % 2 == b2,
        b as int / 16 % 2 == b3,
        b as int / 8 % 2 == b4,
        b as int / 4 % 2 == b5,
        b as int / 2 % 2 == b6,
        b as int / 1 % 2 == b7,
{
    assert(b / 128 % 2 == b0 && b / 64 % 2 == b1 && b / 32 % 2 == b2 && b / 16 % 2 == b3
        && b / 8 % 2 == b4 && b / 4 % 2 == b5 && b / 2 % 2 == b6 && b / 1 % 2 == b7)
        by (bit_vector)
        requires
            b0 <= 1,
            b1 <= 1,
            b2 <= 1,
            b3 <= 1,
            b4 <= 1,
            b5 <= 1,
            b6 <= 1,
            b7 <= 1,
            b == b0 * 128 + b1 * 64 + b2 * 32 + b3 * 16 + b4 * 8 + b5 * 4 + b6 * 2 + b7,
    ;
}

/// The eight bits packed into byte `i` of the stream are read back one
/// by one: extracting bit position `8*i + j` from a correctly packed
/// byte yields stream bit `8*i + j`.
proof fn lemma_packed_byte_extract(d: Seq<u8>, w: int, h: int, b: u8, i: int, j: int)
    requires
        b as int == packed_byte(d, w, h, i),
        0 <= j < 8,
    ensures
        (b as int / bit_weight(j)) % 2 == stream_bit(d, w, h, 8 * i + j),
{
    reveal_with_fuel(byte_prefix, 9);
    let base = 8 * i;
    lemma_stream_bit_is_bit(d, w, h, base + 0);
    lemma_stream_bit_is_bit(d, w, h, base + 1);
    lemma_stream_bit_is_bit(d, w, h, base + 2);
    lemma_stream_bit_is_bit(d, w, h, base + 3);
    lemma_stream_bit_is_bit(d, w, h, base + 4);
    lemma_stream_bit_is_bit(d, w, h, base + 5);
    lemma_stream_bit_is_bit(d, w, h, base + 6);
    lemma_stream_bit_is_bit(d, w, h, base + 7);
    let b0 = stream_bit(d, w, h, base + 0) as u8;
    let b1 = stream_bit(d, w, h, base + 1) as u8;
    let b2 = stream_bit(d, w, h, base + 2) as u8;
    let b3 = stream_bit(d, w, h, base + 3) as u8;
    let b4 = stream_bit(d, w, h, base + 4) as u8;
    let b5 = stream_bit(d, w, h, base + 5) as u8;
    let b6 = stream_bit(d, w, h, base + 6) as u8;
    let b7 = stream_bit(d, w, h, base + 7) as u8;
    assert(b == b0 * 128 + b1 * 64 + b2 * 32 + b3 * 16 + b4 * 8 + b5 * 4 + b6 * 2 + b7);
    lemma_byte_bits(b, b0, b1, b2, b3, b4, b5, b6, b7);
}

/// The exec-side weight of a bit position.
fn weight_of(bit_pos: u8) -> (r: u8)
    requires
        bit_pos < 8,
    ensures
        r as int == bit_weight(bit_pos as int),
{
    if bit_pos == 0 {
        128
    } else if bit_pos == 1 {
        64
    } else if bit_pos == 2 {
        32
    } else if bit_pos == 3 {
        16
    } else if bit_pos == 4 {
        8
    } else if bit_pos == 5 {
        4
    } else if bit_pos == 6 {
        2
    } else {
        1
    }
}

/// Packs a canvas into the printer's byte stream: byte `i` holds stream
/// bits `8*i .. 8*i+8`, MSB-first, where stream bit `k` is the binarized
/// sample (intensity < 128 means ink) of column `k / H`, row
/// `H - 1 - (k % H)`. The final byte, if incomplete, is padded with
/// zero bits after the last real bit.
pub fn pack_bitmap(c: &Canvas) -> (r: Vec<u8>)
    requires
        c.wf(),
    ensures
        r@.len() == packed_len(c.width as int, c.height as int),
        forall|i: int| 0 <= i < r@.len()
            ==> r@[i] as int == packed_byte(c.data@, c.width as int, c.height as int, i),
{
    let ghost d = c.data@;
    let ghost w = c.width as int;
    let ghost h = c.height as int;
    let w_u: usize = c.width as usize;
    let h_u: usize = c.height as usize;
    let total: usize = c.data.len();
    let mut packed: Vec<u8> = Vec::new();
    let mut current: u8 = 0;
    let mut bit_pos: u8 = 0;
    let mut k: usize = 0;
    while k < total
        invariant
            c.wf(),
            d == c.data@,
            w == c.width as int,
            h == c.height as int,
            w_u as int == w,
            h_u as int == h,
            total as int == w * h,
            k <= total,
            bit_pos as int == k as int % 8,
            packed@.len() == k as int / 8,
            forall|i: int| 0 <= i < packed@.len() ==> packed@[i] as int == packed_byte(d, w, h, i),
            current as int == byte_prefix(d, w, h, 8 * (k as int / 8), bit_pos as int),
        decreases total - k,
    {
        proof {
            lemma_mod_pos_bound(k as int, 8);
            lemma_stream_xy(k as int, w, h);
        }
        let x: usize = k / h_u;
        let rem: usize = k % h_u;
        let yrd: usize = h_u - 1 - rem;
        proof {
            lemma_grid_index(x as int, yrd as int, w, h);
        }
        let _len: usize = c.data.len();
        let v: u8 = c.data[yrd * w_u + x];
        let bit: u8 = if v < 128 {
            1
        } else {
            0
        };
        let weight: u8 = weight_of(bit_pos);
        let ghost q = k as int / 8;
        proof {
            lemma_byte_prefix_bound(d, w, h, 8 * q, bit_pos as int);
        }
        current = current + bit * weight;
        proof {
            lemma_fundamental_div_mod(k as int, 8);
            assert(stream_bit(d, w, h, k as int) == bit);
            assert(current as int == byte_prefix(d, w, h, 8 * q, bit_pos as int + 1));
        }
        if bit_pos == 7 {
            packed.push(current);
            current = 0;
            bit_pos = 0;
            proof {
                lemma_fundamental_div_mod_converse(k as int + 1, 8, q + 1, 0);
                assert(packed@[q] as int == packed_byte(d, w, h, q));
            }
        } else {
            bit_pos = bit_pos + 1;
            proof {
                lemma_fundamental_div_mod_converse(k as int + 1, 8, q, bit_pos as int);
            }
        }
        k = k + 1;
    }
    let ghost q = total as int / 8;
    proof {
        lemma_fundamental_div_mod(total as int, 8);
        lemma_mod_pos_bound(total as int, 8);
    }
    if bit_pos != 0 {
        proof {
            lemma_byte_prefix_pad(d, w, h, 8 * q, bit_pos as int, 8);
            lemma_fundamental_div_mod_converse(w * h + 7, 8, q + 1, bit_pos as int - 1);
        }
        packed.push(current);
        proof {
            assert(packed@[q] as int == packed_byte(d, w, h, q));
        }
    } else {
        proof {
            lemma_fundamental_div_mod_converse(w * h + 7, 8, q, 7);
        }
    }
    packed
}

/// Unpacks a packed byte stream back into a row-major black/white grid:
/// entry `y * W + x` of the result is stream bit `bit_index(x, y, H)`,
/// read MSB-first out of the bytes (1 = ink, 0 = background).
pub fn unpack_bitmap(bytes: &Vec<u8>, width: u32, height: u32) -> (r: Vec<u8>)
    requires
        width >= 1,
        height >= 1,
        width as int * height as int <= usize::MAX,
        bytes@.len() == packed_len(width as int, height as int),
    ensures
        r@.len() == width as int * height as int,
        forall|x: int, y: int| 0 <= x < width && 0 <= y < height
            ==> r@[y * width as int + x] as int == extract_bit(bytes@, bit_index(x, y, height as int)),
{
    let ghost w = width as int;
    let ghost h = height as int;
    let w_u: usize = width as usize;
    let h_u: usize = height as usize;
    let total: usize = w_u * h_u;
    let mut r: Vec<u8> = Vec::new();
    let mut p: usize = 0;
    while p < total
        invariant
            w == width as int,
            h == height as int,
            w_u as int == w,
            h_u as int == h,
            w >= 1,
            h >= 1,
            total as int == w * h,
            bytes@.len() == packed_len(w, h),
            p <= total,
            r@.len() == p as int,
            forall|pp: int| 0 <= pp < p
                ==> r@[pp] as int == extract_bit(bytes@, bit_index(pp % w, pp / w, h)),
        decreases total - p,
    {
        proof {
            lemma_stream_xy(p as int, h, w);
        }
        let x: usize = p % w_u;
        let y: usize = p / w_u;
        let ghost k = bit_index(x as int, y as int, h);
        proof {
            lemma_grid_index(h - 1 - (y as int), x as int, h, w);
            assert(0 <= k < h * w);
            assert(h * w == w * h) by (nonlinear_arith);
            lemma_stream_byte_pos(k, w, h);
        }
        let kx: usize = x * h_u + (h_u - 1 - y);
        let byte_i: usize = kx / 8;
        let jp: usize = kx % 8;
        let b: u8 = bytes[byte_i];
        let weight: u8 = weight_of(jp as u8);
        let value: u8 = (b / weight) % 2;
        r.push(value);
        proof {
            assert(value as int == extract_bit(bytes@, k));
            assert(p as int % w == x as int && p as int / w == y as int);
            assert(r@[p as int] as int == extract_bit(bytes@, bit_index(p as int % w, p as int / w, h)));
        }
        p = p + 1;
    }
    proof {
        assert forall|x: int, y: int| 0 <= x < w && 0 <= y < h
            implies r@[y * w + x] as int == extract_bit(bytes@, bit_index(x, y, h)) by {
            lemma_grid_index(x, y, w, h);
            let pp = y * w + x;
            lemma_fundamental_div_mod_converse(pp, w, y, x);
        }
    }
    r
}

/// PACKING ROUND-TRIP: for any canvas grid, re-deriving the black/white
/// grid from the packed bytes reproduces the binarized grid exactly —
/// the bit at stream position `bit_index(x, y, h)` of the packed stream
/// equals the binarization of the sample at column `x`, row `y`.
pub proof fn lemma_packing_round_trip(d: Seq<u8>, w: int, h: int, bytes: Seq<u8>, x: int, y: int)
    requires
        w >= 1,
        h >= 1,
        d.len() == w * h,
        bytes.len() == packed_len(w, h),
        forall|i: int| 0 <= i < bytes.len() ==> bytes[i] as int == packed_byte(d, w, h, i),
        0 <= x < w,
        0 <= y < h,
    ensures
        extract_bit(bytes, bit_index(x, y, h)) == ink_bit(d[y * w + x]),
{
    let k = bit_index(x, y, h);
    lemma_grid_index(h - 1 - y, x, h, w);
    assert(h * w == w * h) by (nonlinear_arith);
    assert(0 <= k < w * h);
    lemma_fundamental_div_mod_converse(k, h, x, h - 1 - y);
    assert(k / h == x && k % h == h - 1 - y);
    assert(stream_bit(d, w, h, k) == ink_bit(d[y * w + x]));
    lemma_stream_byte_pos(k, w, h);
    let i = k / 8;
    let j = k % 8;
    lemma_packed_byte_extract(d, w, h, bytes[i], i, j);
}

/// THRESHOLD MONOTONICITY: intensity 0 always packs to ink (bit 1),
/// intensity 255 always packs to background (bit 0), and the cutover is
/// exactly at 128: a sample is ink if and only if its intensity is
/// below 128.
pub proof fn lemma_threshold(v: u8)
    ensures
        ink_bit(v) == 1 <==> v < 128,
        ink_bit(v) == 0 <==> v >= 128,
        ink_bit(0) == 1,
        ink_bit(255) == 0,
{
}

} // verus!
