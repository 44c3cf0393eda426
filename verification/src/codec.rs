//! The format codec: little-endian byte units, the signed integer sample
//! encodings (8, 16 and 24 bit), and the exact integer construction of IEEE
//! 754 single-precision bit patterns for the widening reads and the rounded,
//! saturating narrowing writes.
//!
//! Every integer sample scales linearly so that the most negative value maps
//! to -1.0 and the most positive to just under 1.0; for samples of `b` bits
//! the denominator is `pow2(b - 1)`. All of it is plain integer arithmetic:
//! the widening direction is exact (small integers divided by a power of two
//! are representable in single precision), and the narrowing direction
//! rounds half away from zero and saturates at the format extremes.
use vstd::prelude::*;

use vstd::arithmetic::div_mod::lemma_fundamental_div_mod_converse;
use vstd::arithmetic::power2::{
    lemma2_to64, lemma_pow2_adds, lemma_pow2_pos, lemma_pow2_strictly_increases,
    lemma_pow2_unfold, pow2,
};

verus! {

/// The little-endian value of the `w` bytes of `data` starting at `off`.
pub open spec fn spec_unit_at(data: Seq<u8>, off: int, w: nat) -> nat
    decreases w,
{
    if w == 0 {
        0
    } else {
        (data[off] + 256 * spec_unit_at(data, off + 1, (w - 1) as nat)) as nat
    }
}

/// Byte `j` of the little-endian encoding of `v`.
pub open spec fn unit_byte(v: nat, j: nat) -> u8 {
    ((v / pow2(8 * j)) % 256) as u8
}

/// The `w`-byte little-endian encoding of `v`.
pub open spec fn unit_bytes(v: nat, w: nat) -> Seq<u8> {
    Seq::new(w, |j: int| unit_byte(v, j as nat))
}

/// A unit value below `pow2(8 * w)` reads back from its own encoding:
/// wherever the `w` bytes starting at `off` equal `unit_bytes(v, w)`, the
/// little-endian value there is `v`.
pub proof fn lemma_unit_round_trip(data: Seq<u8>, off: int, v: nat, w: nat)
    requires
        v < pow2(8 * w),
        forall|j: int| 0 <= j < w ==> data[off + j] == unit_bytes(v, w)[j],
    ensures
        spec_unit_at(data, off, w) == v,
    decreases w,
{
    lemma2_to64();
    if w == 0 {
        assert(pow2(0) == 1);
    } else {
        let v1 = v / 256;
        assert(data[off + 0] == unit_bytes(v, w)[0]);
        assert(pow2(8 * 0) == 1);
        assert(v / 1 == v);
        assert(data[off] == unit_byte(v, 0));
        assert(unit_byte(v, 0) == v % 256);
        assert forall|j: int| 0 <= j < w - 1 implies #[trigger] data[off + 1 + j] == unit_bytes(
            v1,
            (w - 1) as nat,
        )[j] by {
            assert(data[off + (j + 1)] == unit_bytes(v, w)[j + 1]);
            assert(unit_bytes(v, w)[j + 1] == unit_byte(v, (j + 1) as nat));
            lemma_div_div_pow(v, j as nat);
        }
        assert(8 * w == 8 * (w - 1) + 8);
        lemma_pow2_adds((8 * (w - 1)) as nat, 8);
        assert(pow2(8) == 256);
        assert(v < pow2((8 * (w - 1)) as nat) * 256);
        assert(v1 < pow2((8 * (w - 1)) as nat)) by {
            if v1 >= pow2((8 * (w - 1)) as nat) {
                vstd::arithmetic::div_mod::lemma_fundamental_div_mod(v as int, 256);
                vstd::arithmetic::mul::lemma_mul_inequality(
                    pow2((8 * (w - 1)) as nat) as int,
                    v1 as int,
                    256,
                );
            }
        }
        lemma_unit_round_trip(data, off + 1, v1, (w - 1) as nat);
        vstd::arithmetic::div_mod::lemma_fundamental_div_mod(v as int, 256);
    }
}

/// Dividing first by 256 and then by `pow2(8 * j)` is dividing by
/// `pow2(8 * (j + 1))`.
proof fn lemma_div_div_pow(v: nat, j: nat)
    ensures
        (v / 256) / pow2(8 * j) == v / pow2(8 * (j + 1)),
{
    lemma2_to64();
    assert(pow2(8) == 256);
    lemma_pow2_pos(8 * j);
    assert(8 * (j + 1) == 8 + 8 * j);
    lemma_pow2_adds(8, 8 * j);
    vstd::arithmetic::div_mod::lemma_div_denominator(v as int, 256, pow2(8 * j) as int);
}

/// Every little-endian value of `w` bytes lies below `pow2(8 * w)`.
pub proof fn lemma_unit_at_bound(data: Seq<u8>, off: int, w: nat)
    requires
        forall|j: int| 0 <= j < w ==> 0 <= #[trigger] data[off + j] < 256,
    ensures
        spec_unit_at(data, off, w) < pow2(8 * w),
    decreases w,
{
    lemma2_to64();
    if w == 0 {
    } else {
        assert(data[off + 0] < 256);
        assert forall|j: int| 0 <= j < w - 1 implies 0 <= #[trigger] data[off + 1 + j]
            < 256 by {
            assert(data[off + (j + 1)] < 256);
        }
        lemma_unit_at_bound(data, off + 1, (w - 1) as nat);
        assert(8 * w == 8 * (w - 1) + 8);
        lemma_pow2_adds((8 * (w - 1)) as nat, 8);
    }
}

/// Reads the `w`-byte little-endian unit of `data` at `off`.
pub fn read_unit(data: &Vec<u8>, off: usize, w: usize) -> (v: u32)
    requires
        off + w <= data@.len(),
        w <= 4,
    ensures
        v as nat == spec_unit_at(data@, off as int, w as nat),
        v < pow2(8 * w as nat),
{
    proof {
        lemma2_to64();
    }
    let n = data.len();
    let mut v: u32 = 0;
    let mut i: usize = 0;
    while i < w
        invariant
            i <= w <= 4,
            off + w <= n,
            n == data@.len(),
            v as nat == spec_unit_at(data@, (off + w - i) as int, i as nat),
            v < pow2(8 * i as nat),
        decreases w - i,
    {
        proof {
            lemma2_to64();
            lemma_pow2_adds(8 * i as nat, 8);
        }
        let b = data[off + (w - 1 - i)];
        v = v * 256 + b as u32;
        i = i + 1;
    }
    v
}

/// Writes `v` as the `w`-byte little-endian unit of `data` at `off`,
/// leaving every other byte unchanged.
pub fn write_unit(data: &mut Vec<u8>, off: usize, w: usize, v: u32)
    requires
        off + w <= old(data)@.len(),
        w <= 4,
        v < pow2(8 * w as nat),
    ensures
        final(data)@.len() == old(data)@.len(),
        forall|j: int|
            0 <= j < w ==> #[trigger] final(data)@[off + j] == unit_byte(v as nat, j as nat),
        forall|j: int|
            0 <= j < old(data)@.len() && !(off <= j < off + w) ==> #[trigger] final(data)@[j]
                == old(data)@[j],
{
    proof {
        lemma2_to64();
        assert(pow2(0) == 1);
        assert(v as nat / 1 == v as nat);
    }
    let n = data.len();
    let mut i: usize = 0;
    let mut cur: u32 = v;
    while i < w
        invariant
            i <= w <= 4,
            off + w <= n,
            n == old(data)@.len(),
            data@.len() == old(data)@.len(),
            cur as nat == v as nat / pow2(8 * i as nat),
            forall|j: int|
                0 <= j < i ==> #[trigger] data@[off + j] == unit_byte(v as nat, j as nat),
            forall|j: int|
                0 <= j < old(data)@.len() && !(off <= j < off + i) ==> #[trigger] data@[j]
                    == old(data)@[j],
        decreases w - i,
    {
        proof {
            lemma2_to64();
            lemma_pow2_pos(8 * i as nat);
            lemma_pow2_adds(8 * i as nat, 8);
            vstd::arithmetic::div_mod::lemma_div_denominator(
                v as int,
                pow2(8 * i as nat) as int,
                256,
            );
        }
        data.set(off + i, (cur % 256) as u8);
        cur = cur / 256;
        i = i + 1;
    }
}

/// The signed reading of an unsigned value of modulus `m`: values at or
/// above `m / 2` wrap to negatives.
pub open spec fn as_signed(v: nat, m: nat) -> int {
    if v < m / 2 {
        v as int
    } else {
        v - m
    }
}

/// The unsigned (two's-complement) form of a signed value under modulus `m`.
pub open spec fn to_unsigned(x: int, m: nat) -> nat {
    if x >= 0 {
        x as nat
    } else {
        (x + m) as nat
    }
}

/// Reads a 16-bit unit as a signed sample.
pub fn i16_of_unit(u: u32) -> (v: i16)
    requires
        u < 0x10000,
    ensures
        v as int == as_signed(u as nat, 0x10000),
{
    if u >= 0x8000 {
        (u as i32 - 0x10000) as i16
    } else {
        u as i16
    }
}

/// The two's-complement 16-bit unit of a signed sample.
pub fn unit_of_i16(v: i16) -> (u: u32)
    ensures
        u == to_unsigned(v as int, 0x10000),
        u < 0x10000,
        as_signed(u as nat, 0x10000) == v as int,
{
    if v < 0 {
        (v as i32 + 0x10000) as u32
    } else {
        v as u32
    }
}

/// Reads an 8-bit unit as a signed sample.
pub fn i8_of_unit(u: u32) -> (v: i8)
    requires
        u < 0x100,
    ensures
        v as int == as_signed(u as nat, 0x100),
{
    if u >= 0x80 {
        (u as i32 - 0x100) as i8
    } else {
        u as i8
    }
}

/// The two's-complement 8-bit unit of a signed sample.
pub fn unit_of_i8(v: i8) -> (u: u32)
    ensures
        u == to_unsigned(v as int, 0x100),
        u < 0x100,
        as_signed(u as nat, 0x100) == v as int,
{
    if v < 0 {
        (v as i32 + 0x100) as u32
    } else {
        v as u32
    }
}

/// Reads a 24-bit unit as a signed sample, sign-extended into an `i32`.
pub fn i24_of_unit(u: u32) -> (v: i32)
    requires
        u < 0x1000000,
    ensures
        v as int == as_signed(u as nat, 0x1000000),
        -0x800000 <= v < 0x800000,
{
    if u >= 0x800000 {
        u as i32 - 0x1000000
    } else {
        u as i32
    }
}

/// The two's-complement 24-bit unit of a signed sample.
pub fn unit_of_i24(v: i32) -> (u: u32)
    requires
        -0x800000 <= v < 0x800000,
    ensures
        u == to_unsigned(v as int, 0x1000000),
        u < 0x1000000,
        as_signed(u as nat, 0x1000000) == v as int,
{
    if v < 0 {
        (v + 0x1000000) as u32
    } else {
        v as u32
    }
}

/// The position of the highest set bit: `pow2(floor_log2(m)) <= m` for
/// `m >= 1`.
pub open spec fn floor_log2(m: nat) -> nat
    decreases m,
{
    if m < 2 {
        0
    } else {
        1 + floor_log2(m / 2)
    }
}

/// `m` lies between `pow2(floor_log2(m))` inclusive and twice that bound.
pub proof fn lemma_floor_log2(m: nat)
    requires
        m >= 1,
    ensures
        pow2(floor_log2(m)) <= m < pow2(floor_log2(m) + 1),
    decreases m,
{
    lemma2_to64();
    if m < 2 {
    } else {
        lemma_floor_log2(m / 2);
        let p = floor_log2(m / 2);
        lemma_pow2_unfold(p + 1);
        lemma_pow2_unfold(p + 2);
    }
}

/// The IEEE 754 single-precision bit pattern of the exact rational
/// `v / pow2(d)`, for `0 < |v| <= pow2(d)` and `d <= 23`. Writing
/// `p = floor_log2(|v|)`, the pattern has sign `v < 0`, biased exponent
/// `127 + p - d`, and mantissa `|v| * pow2(23 - p) - pow2(23)`; such a value
/// is always normal and exactly representable, so no rounding is involved.
pub open spec fn spec_f32_bits_of_int(v: int, d: nat) -> int {
    if v == 0 {
        0
    } else {
        let neg: int = if v < 0 {
            1
        } else {
            0
        };
        let mag = (if v < 0 {
            -v
        } else {
            v
        }) as nat;
        let p = floor_log2(mag);
        neg * 0x80000000 + (127 + p - d) * 0x800000 + (mag * pow2((23 - p) as nat) - pow2(23))
    }
}

/// Computes `pow2(e)` for exponents that fit a `u32`.
pub fn pow2_u32(e: u32) -> (r: u32)
    requires
        e <= 31,
    ensures
        r == pow2(e as nat),
{
    let mut r: u32 = 1;
    let mut i: u32 = 0;
    proof {
        lemma2_to64();
    }
    while i < e
        invariant
            i <= e <= 31,
            r == pow2(i as nat),
        decreases e - i,
    {
        proof {
            lemma_pow2_unfold(i as nat + 1);
            if i as nat + 1 < 32 {
                lemma_pow2_strictly_increases(i as nat + 1, 32);
            }
            lemma2_to64();
        }
        r = r * 2;
        i = i + 1;
    }
    r
}

/// The exact single-precision bit pattern of `v / pow2(d)`: the widening
/// direction of the codec, used when an integer file is read as float.
pub fn widen_to_f32_bits(v: i32, d: u32) -> (r: u32)
    requires
        1 <= d <= 23,
        -(pow2(d as nat) as int) <= v <= pow2(d as nat),
    ensures
        r as int == spec_f32_bits_of_int(v as int, d as nat),
{
    proof {
        lemma2_to64();
    }
    if v == 0 {
        return 0;
    }
    let neg: u32 = if v < 0 {
        1
    } else {
        0
    };
    let mag: u32 = if v < 0 {
        (-v) as u32
    } else {
        v as u32
    };
    let ghost gmag = mag as nat;
    proof {
        lemma_floor_log2_small(gmag);
    }
    let mut m: u32 = mag;
    let mut p: u32 = 0;
    while m >= 2
        invariant
            m >= 1,
            floor_log2(gmag) == p + floor_log2(m as nat),
            m <= gmag,
            p + floor_log2(m as nat) <= 31,
        decreases m,
    {
        proof {
            assert(floor_log2(m as nat) == 1 + floor_log2((m / 2) as nat));
        }
        m = m / 2;
        p = p + 1;
    }
    proof {
        assert(floor_log2(gmag) == p);
        lemma_floor_log2(gmag);
        if p > d {
            lemma_pow2_strictly_increases(d as nat, p as nat);
        }
        lemma2_to64();
    }
    let scale = pow2_u32(23 - p);
    proof {
        let a = pow2(p as nat) as int;
        lemma_pow2_adds(p as nat, (23 - p) as nat);
        lemma_pow2_unfold(p as nat + 1);
        lemma_pow2_pos((23 - p) as nat);
        lemma2_to64();
        assert(0x800000 <= mag * scale < 0x1000000) by (nonlinear_arith)
            requires
                a <= mag < 2 * a,
                scale >= 1,
                a * scale == 0x800000,
        ;
    }
    let mant: u32 = mag * scale - 0x800000;
    let exp: u32 = 127 + p - d;
    neg * 0x80000000 + exp * 0x800000 + mant
}

/// `floor_log2` never exceeds the bit count of its argument.
proof fn lemma_floor_log2_small(m: nat)
    requires
        m >= 1,
        m < 0x100000000,
    ensures
        floor_log2(m) <= 31,
{
    lemma_floor_log2(m);
    lemma2_to64();
    if floor_log2(m) > 31 {
        if floor_log2(m) > 32 {
            lemma_pow2_strictly_increases(32, floor_log2(m));
        }
    }
}

/// The rounded, saturating integer scaling of a single-precision bit
/// pattern: the narrowing direction of the codec, used when float samples
/// are written into an integer file. The real value is multiplied by
/// `pow2(d)`, rounded half away from zero, and saturated into
/// `[-pow2(d), pow2(d) - 1]`; zero and the subnormals round to zero, and
/// infinities (and NaN payloads) saturate by their sign bit.
pub open spec fn spec_int_of_f32_bits(bits: u32, d: nat) -> int {
    let neg = bits / 0x80000000 >= 1;
    let e = ((bits / 0x800000) % 256) as nat;
    let m = (bits % 0x800000) as nat;
    if e == 0 {
        0
    } else {
        let mag: nat = if e + d >= 158 {
            pow2(31)
        } else if e + d >= 150 {
            (0x800000 + m) * pow2((e + d - 150) as nat)
        } else if e + d <= 125 {
            0
        } else {
            ((0x800000 + m) + pow2((149 - e - d) as nat)) / pow2((150 - e - d) as nat)
        };
        let lim = pow2(d);
        if neg {
            if mag > lim {
                -(lim as int)
            } else {
                -(mag as int)
            }
        } else {
            if mag > lim - 1 {
                lim - 1
            } else {
                mag as int
            }
        }
    }
}

/// Scales a single-precision bit pattern to the signed integer range of
/// denominator `pow2(d)`, rounding half away from zero and saturating at
/// the format extremes.
pub fn narrow_from_f32_bits(bits: u32, d: u32) -> (r: i32)
    requires
        1 <= d <= 23,
    ensures
        r as int == spec_int_of_f32_bits(bits, d as nat),
        -(pow2(d as nat) as int) <= r as int <= pow2(d as nat) - 1,
{
    proof {
        lemma2_to64();
    }
    let neg = bits / 0x80000000 >= 1;
    let e = (bits / 0x800000) % 256;
    let m = bits % 0x800000;
    let lim: u32 = pow2_u32(d);
    proof {
        if d < 31 {
            lemma_pow2_strictly_increases(d as nat, 31);
        }
    }
    if e == 0 {
        return 0;
    }
    let mag: u32 = if e + d >= 158 {
        0x80000000
    } else if e + d >= 150 {
        let scale = pow2_u32(e + d - 150);
        proof {
            lemma2_to64();
            if ((e + d - 150) as nat) < 7 {
                lemma_pow2_strictly_increases((e + d - 150) as nat, 7);
            }
            vstd::arithmetic::mul::lemma_mul_inequality(
                (0x800000 + m) as int,
                0xffffff,
                scale as int,
            );
            vstd::arithmetic::mul::lemma_mul_inequality(scale as int, 0x80, 0xffffff);
        }
        (0x800000 + m) * scale
    } else if e + d <= 125 {
        0
    } else {
        let half = pow2_u32(149 - e - d);
        let div = pow2_u32(150 - e - d);
        proof {
            lemma2_to64();
            lemma_pow2_pos((150 - e - d) as nat);
            if ((149 - e - d) as nat) < 23 {
                lemma_pow2_strictly_increases((149 - e - d) as nat, 23);
            }
        }
        ((0x800000 + m) + half) / div
    };
    proof {
        assert(mag as nat == (if (e + d) as nat >= 158 {
            pow2(31)
        } else if (e + d) as nat >= 150 {
            (0x800000 + m as nat) * pow2(((e + d) as nat - 150) as nat)
        } else if (e + d) as nat <= 125 {
            0
        } else {
            ((0x800000 + m as nat) + pow2((149 - e - d) as nat)) / pow2((150 - e - d) as nat)
        }));
    }
    if neg {
        if mag > lim {
            -(lim as i32)
        } else {
            -(mag as i32)
        }
    } else {
        if mag > lim - 1 {
            (lim - 1) as i32
        } else {
            mag as i32
        }
    }
}

/// The round trip through the float codec is exact: a signed sample within
/// the representable range of its format, widened to its single-precision
/// bit pattern and narrowed back with the rounding, saturating scaling,
/// comes back unchanged.
pub proof fn lemma_widen_narrow_inverse(v: int, d: nat)
    requires
        1 <= d <= 23,
        -(pow2(d) as int) <= v <= pow2(d) - 1,
    ensures
        spec_int_of_f32_bits(spec_f32_bits_of_int(v, d) as u32, d) == v,
{
    lemma2_to64();
    if v == 0 {
        assert(spec_int_of_f32_bits(0, d) == 0);
    } else {
        let neg: int = if v < 0 {
            1
        } else {
            0
        };
        let mag = (if v < 0 {
            -v
        } else {
            v
        }) as nat;
        let p = floor_log2(mag);
        lemma_floor_log2(mag);
        if p > d {
            lemma_pow2_strictly_increases(d, p);
        }
        let exp = 127 + p - d;
        let mant = mag * pow2((23 - p) as nat) - pow2(23);
        lemma_pow2_adds(p, (23 - p) as nat);
        lemma_pow2_unfold(p + 1);
        lemma_pow2_pos((23 - p) as nat);
        let a = pow2(p) as int;
        let s = pow2((23 - p) as nat) as int;
        assert(0x800000 <= mag * s < 0x1000000) by (nonlinear_arith)
            requires
                a <= mag < 2 * a,
                s >= 1,
                a * s == 0x800000,
        ;
        assert(0 <= mant < 0x800000);
        let bits = neg * 0x80000000 + exp * 0x800000 + mant;
        assert(bits == spec_f32_bits_of_int(v, d));
        assert(0 <= bits < 0x100000000);
        let ubits = bits as u32;
        lemma_fundamental_div_mod_converse(ubits as int, 0x80000000, neg, exp * 0x800000 + mant);
        assert(ubits / 0x80000000 == neg);
        lemma_fundamental_div_mod_converse(ubits as int, 0x800000, neg * 256 + exp, mant);
        assert(ubits as int / 0x800000 == neg * 256 + exp);
        lemma_fundamental_div_mod_converse(neg * 256 + exp, 256, neg, exp);
        assert((ubits / 0x800000) % 256 == exp);
        assert(ubits % 0x800000 == mant);
        let e = exp as nat;
        assert(e >= 104);
        assert(e + d == 127 + p);
        let lim = pow2(d);
        if p == 23 {
            assert(d == 23) by {
                if d < 23 {
                    lemma_pow2_strictly_increases(d, 23);
                }
            }
            assert(v < 0);
            assert(e + d == 150);
            let m_r = (0x800000 + mant) * pow2((e + d - 150) as nat);
            assert(pow2(0) == 1);
            assert(pow2((23 - p) as nat) == 1);
            assert(mant == mag - 0x800000) by {
                vstd::arithmetic::mul::lemma_mul_basics(mag as int);
            }
            assert(m_r == mag) by {
                vstd::arithmetic::mul::lemma_mul_basics(0x800000 + mant);
            }
            assert(mag == lim);
            assert(spec_int_of_f32_bits(ubits, d) == -(lim as int));
        } else {
            assert(p < 23);
            assert(127 <= e + d < 150);
            assert(e + d > 125);
            let tp = (150 - e - d) as nat;
            assert(tp == 23 - p);
            assert(tp >= 1);
            let mm = 0x800000 + mant;
            assert(mm == mag * pow2(tp));
            lemma_pow2_unfold(tp);
            lemma_pow2_pos((tp - 1) as nat);
            lemma_fundamental_div_mod_converse(
                (mm + pow2((tp - 1) as nat)) as int,
                pow2(tp) as int,
                mag as int,
                pow2((tp - 1) as nat) as int,
            );
            let m_r = (mm + pow2((149 - e - d) as nat)) as int / pow2(tp) as int;
            assert(m_r == mag);
            assert(mag <= lim);
            if v < 0 {
                assert(spec_int_of_f32_bits(ubits, d) == -(mag as int));
            } else {
                assert(mag <= lim - 1);
                assert(spec_int_of_f32_bits(ubits, d) == mag as int);
            }
        }
    }
}

} // verus!
