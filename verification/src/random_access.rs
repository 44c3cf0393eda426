//! The random-access engine: byte-offset addressing of (frame, channel
//! slot) pairs over an in-memory file image, one multi-channel frame per
//! read or write. Writes seek by offset, may extend the data with
//! zero-filled gaps, and never depend on a sequential cursor.
use vstd::prelude::*;

use vstd::arithmetic::div_mod::{lemma_fundamental_div_mod, lemma_fundamental_div_mod_converse};
use vstd::arithmetic::mul::lemma_mul_inequality;
use vstd::arithmetic::power2::{lemma2_to64, pow2};

use crate::channels::{
    covers_mask, spec_from_dense, spec_to_dense, to_dense, from_dense, SamplesByChannel,
};
use crate::codec::{
    as_signed, i16_of_unit, i24_of_unit, i8_of_unit, narrow_from_f32_bits, read_unit,
    spec_f32_bits_of_int, spec_int_of_f32_bits, spec_unit_at, to_unsigned, unit_byte,
    unit_of_i16, unit_of_i24, unit_of_i8, widen_to_f32_bits, write_unit,
    lemma_unit_round_trip, lemma_unit_at_bound,
};
use crate::header::{spec_active_count, SampleFormat, WavHeader, CHANNEL_COUNT};
use crate::WavError;

verus! {

/// How many whole frames a data chunk of `len` bytes holds.
pub open spec fn spec_frame_count(h: WavHeader, len: nat) -> nat {
    len / h.spec_frame_width()
}

/// The raw unit value of dense slot `s` of frame `frame`.
pub open spec fn slot_unit(h: WavHeader, data: Seq<u8>, frame: int, s: int) -> nat {
    spec_unit_at(
        data,
        frame * h.spec_frame_width() + s * h.sample_format.spec_unit_width(),
        h.sample_format.spec_unit_width(),
    )
}

/// The dense sequence of raw units of frame `frame`.
pub open spec fn spec_dense_units(h: WavHeader, data: Seq<u8>, frame: int) -> Seq<u32> {
    Seq::new(spec_active_count(h.channels@), |s: int| slot_unit(h, data, frame, s) as u32)
}

/// The single-precision bit pattern a raw unit of format `fmt` widens to.
pub open spec fn spec_unit_to_f32(fmt: SampleFormat, u: nat) -> int {
    match fmt {
        SampleFormat::Int8 => spec_f32_bits_of_int(as_signed(u, 0x100), 7),
        SampleFormat::Int16 => spec_f32_bits_of_int(as_signed(u, 0x10000), 15),
        SampleFormat::Int24 => spec_f32_bits_of_int(as_signed(u, 0x1000000), 23),
        SampleFormat::Float => u as int,
    }
}

/// The raw unit of format `fmt` that a single-precision bit pattern
/// narrows to, rounding half away from zero and saturating.
pub open spec fn spec_f32_to_unit(fmt: SampleFormat, bits: u32) -> nat {
    match fmt {
        SampleFormat::Int8 => to_unsigned(spec_int_of_f32_bits(bits, 7), 0x100),
        SampleFormat::Int16 => to_unsigned(spec_int_of_f32_bits(bits, 15), 0x10000),
        SampleFormat::Int24 => to_unsigned(spec_int_of_f32_bits(bits, 23), 0x1000000),
        SampleFormat::Float => bits as nat,
    }
}

/// The sparse record the f32 view reads out of frame `frame`: the widened
/// bit pattern at every active channel, nothing at the others.
pub open spec fn spec_read_frame_f32(h: WavHeader, data: Seq<u8>, frame: int) -> Seq<
    Option<u32>,
> {
    spec_from_dense(
        Seq::new(
            spec_active_count(h.channels@),
            |s: int| spec_unit_to_f32(h.sample_format, slot_unit(h, data, frame, s)) as u32,
        ),
        h.channels@,
    )
}

/// `data` zero-extended to at least `target` bytes.
pub open spec fn spec_padded(data: Seq<u8>, target: nat) -> Seq<u8> {
    if data.len() >= target {
        data
    } else {
        data + Seq::new((target - data.len()) as nat, |j: int| 0u8)
    }
}

/// The image after writing dense units `units` as frame `frame`: the data,
/// zero-extended to cover the frame, with the frame's bytes replaced by the
/// little-endian encodings of the units and every other byte unchanged.
pub open spec fn spec_written(h: WavHeader, data: Seq<u8>, frame: int, units: Seq<u32>) -> Seq<
    u8,
> {
    let fw = h.spec_frame_width() as int;
    let uw = h.sample_format.spec_unit_width() as int;
    let padded = spec_padded(data, ((frame + 1) * fw) as nat);
    Seq::new(
        padded.len(),
        |j: int|
            if frame * fw <= j < (frame + 1) * fw {
                unit_byte(units[(j - frame * fw) / uw] as nat, ((j - frame * fw) % uw) as nat)
            } else {
                padded[j]
            },
    )
}

/// The view invariant every engine keeps: a well-formed header, data that
/// is a whole number of frames, and sizes that still fit the container's
/// `u32` fields.
pub open spec fn spec_engine_wf(h: WavHeader, data: Seq<u8>) -> bool {
    &&& h.wf()
    &&& data.len() % h.spec_frame_width() == 0
    &&& data.len() + 68 <= u32::MAX
    &&& h.sample_rate * h.spec_frame_width() <= u32::MAX
}

/// A frame below the frame count lies wholly inside the data.
pub proof fn lemma_frame_in_bounds(h: WavHeader, len: nat, frame: int)
    requires
        h.spec_frame_width() >= 1,
        0 <= frame < spec_frame_count(h, len),
    ensures
        (frame + 1) * h.spec_frame_width() <= len,
        frame * h.spec_frame_width() >= 0,
    decreases 0nat,
{
    let fw = h.spec_frame_width() as int;
    lemma_fundamental_div_mod(len as int, fw);
    lemma_mul_inequality(frame + 1, (len as int) / fw, fw);
    vstd::arithmetic::mul::lemma_mul_is_commutative((len as int) / fw, fw);
    vstd::arithmetic::mul::lemma_mul_nonnegative(frame as int, fw);
}

/// Reads the dense raw units of frame `frame`.
pub(crate) fn read_dense_units(h: &WavHeader, data: &Vec<u8>, frame: usize) -> (r: Vec<u32>)
    requires
        h.wf(),
        data@.len() % h.spec_frame_width() == 0,
        (frame as int) < spec_frame_count(*h, data@.len()),
    ensures
        r@ == spec_dense_units(*h, data@, frame as int),
        forall|s: int|
            0 <= s < r@.len() ==> #[trigger] r@[s]
                < pow2(8 * h.sample_format.spec_unit_width()),
{
    proof {
        lemma2_to64();
    }
    let uw = h.sample_format.unit_width();
    let fw = h.frame_width();
    let n = h.channels.active_count();
    let dn = data.len();
    proof {
        lemma_frame_in_bounds(*h, data@.len(), frame as int);
        assert(fw == n * uw);
        lemma_mul_inequality(frame as int, frame as int + 1, fw as int);
        vstd::arithmetic::mul::lemma_mul_nonnegative(frame as int, fw as int);
    }
    let base = frame * fw;
    let mut out: Vec<u32> = Vec::new();
    let mut s: usize = 0;
    while s < n
        invariant
            s <= n,
            uw == h.sample_format.spec_unit_width(),
            fw == h.spec_frame_width(),
            n == spec_active_count(h.channels@),
            fw == n * uw,
            1 <= uw <= 4,
            base == frame * fw,
            0 <= base,
            (frame + 1) * fw <= dn,
            dn == data@.len(),
            out@.len() == s,
            forall|k: int|
                0 <= k < s ==> #[trigger] out@[k] == slot_unit(*h, data@, frame as int, k)
                    && out@[k] < pow2(8 * h.sample_format.spec_unit_width()),
        decreases n - s,
    {
        proof {
            lemma_mul_inequality(s as int + 1, n as int, uw as int);
            vstd::arithmetic::mul::lemma_mul_nonnegative(s as int, uw as int);
            assert((s as int + 1) * (uw as int) == s as int * uw as int + uw) by (nonlinear_arith);
            assert((frame as int) * (fw as int) + (n as int) * (uw as int) == (frame as int
                + 1) * (fw as int)) by (nonlinear_arith)
                requires
                    fw == n * uw,
            ;
        }
        let u = read_unit(data, base + s * uw, uw);
        out.push(u);
        s = s + 1;
    }
    proof {
        assert(out@ =~= spec_dense_units(*h, data@, frame as int));
    }
    out
}

/// Writes dense units as frame `frame` over data that already covers it.
pub(crate) fn write_dense_units(h: &WavHeader, data: &mut Vec<u8>, frame: usize, units: &Vec<u32>)
    requires
        h.wf(),
        (frame + 1) * h.spec_frame_width() <= old(data)@.len(),
        units@.len() == spec_active_count(h.channels@),
        forall|s: int|
            0 <= s < units@.len() ==> #[trigger] units@[s]
                < pow2(8 * h.sample_format.spec_unit_width()),
    ensures
        final(data)@.len() == old(data)@.len(),
        forall|j: int|
            0 <= j < old(data)@.len() && !(frame * h.spec_frame_width() <= j < (frame + 1)
                * h.spec_frame_width()) ==> #[trigger] final(data)@[j] == old(data)@[j],
        forall|j: int|
            frame * h.spec_frame_width() <= j < (frame + 1) * h.spec_frame_width()
                ==> #[trigger] final(data)@[j] == unit_byte(
                units@[(j - frame * h.spec_frame_width()) / (
                h.sample_format.spec_unit_width() as int)] as nat,
                ((j - frame * h.spec_frame_width()) % (
                h.sample_format.spec_unit_width() as int)) as nat,
            ),
{
    proof {
        lemma2_to64();
    }
    let uw = h.sample_format.unit_width();
    let fw = h.frame_width();
    let n = h.channels.active_count();
    let dn = data.len();
    proof {
        assert(fw == n * uw);
        vstd::arithmetic::mul::lemma_mul_nonnegative(frame as int, fw as int);
        lemma_mul_inequality(frame as int, frame as int + 1, fw as int);
    }
    let base = frame * fw;
    let mut s: usize = 0;
    while s < n
        invariant
            s <= n,
            uw == h.sample_format.spec_unit_width(),
            fw == h.spec_frame_width(),
            n == spec_active_count(h.channels@),
            fw == n * uw,
            1 <= uw <= 4,
            base == frame * fw,
            base >= 0,
            (frame + 1) * fw <= dn,
            dn == data@.len(),
            data@.len() == old(data)@.len(),
            units@.len() == n,
            forall|k: int|
                0 <= k < units@.len() ==> #[trigger] units@[k] < pow2(
                    8 * h.sample_format.spec_unit_width(),
                ),
            forall|j: int|
                0 <= j < old(data)@.len() && !(base <= j < base + s * uw)
                    ==> #[trigger] data@[j] == old(data)@[j],
            forall|k: int, t: int|
                0 <= k < s && 0 <= t < uw ==> #[trigger] data@[base + k * uw + t]
                    == unit_byte(units@[k] as nat, t as nat),
        decreases n - s,
    {
        proof {
            lemma_mul_inequality(s as int + 1, n as int, uw as int);
            vstd::arithmetic::mul::lemma_mul_nonnegative(s as int, uw as int);
            assert((s as int + 1) * (uw as int) == s as int * uw as int + uw) by (nonlinear_arith);
            assert((frame as int) * (fw as int) + (n as int) * (uw as int) == (frame as int
                + 1) * (fw as int)) by (nonlinear_arith)
                requires
                    fw == n * uw,
            ;
        }
        write_unit(data, base + s * uw, uw, units[s]);
        proof {
            assert forall|k: int, t: int| 0 <= k < s + 1 && 0 <= t < uw implies #[trigger] data@[
                base + k * uw + t
            ] == unit_byte(units@[k] as nat, t as nat) by {
                if k < s {
                    lemma_mul_inequality(k + 1, s as int, uw as int);
                    vstd::arithmetic::mul::lemma_mul_is_distributive_add_other_way(
                        uw as int,
                        k,
                        1,
                    );
                    assert(base + k * uw + t < base + s * uw);
                } else {
                    assert(data@[base + s * uw + t] == unit_byte(units@[s as int] as nat, t as nat));
                }
            }
        }
        s = s + 1;
    }
    proof {
        assert((frame as int + 1) * (fw as int) == base + fw) by (nonlinear_arith)
            requires
                base == (frame as int) * (fw as int),
        ;
        assert forall|j: int|
            base <= j < base + fw implies #[trigger] data@[j] == unit_byte(
            units@[(j - base) / (uw as int)] as nat,
            ((j - base) % (uw as int)) as nat,
        ) by {
            let d = j - base;
            let k = d / (uw as int);
            let t = d % (uw as int);
            lemma_fundamental_div_mod(d, uw as int);
            vstd::arithmetic::div_mod::lemma_div_pos_is_pos(d, uw as int);
            assert(0 <= t < uw);
            assert(k < n) by (nonlinear_arith)
                requires
                    d == k * uw + t,
                    0 <= d < fw,
                    fw == n * uw,
                    0 <= t < uw,
                    k >= 0,
            ;
            assert(data@[base + k * (uw as int) + t] == unit_byte(
                units@[k] as nat,
                t as nat,
            ));
            assert(j == base + k * (uw as int) + t);
        }
    }
}

/// Zero-extends the data so that it covers frames `0 .. frame + 1`, adding
/// only whole zero frames.
pub(crate) fn extend_for_frame(h: &WavHeader, data: &mut Vec<u8>, frame: usize)
    requires
        h.wf(),
        old(data)@.len() % h.spec_frame_width() == 0,
        (frame + 1) * h.spec_frame_width() <= u32::MAX - 68,
    ensures
        final(data)@ == spec_padded(old(data)@, ((frame + 1) * h.spec_frame_width()) as nat),
        final(data)@.len() % h.spec_frame_width() == 0,
        final(data)@.len() >= (frame + 1) * h.spec_frame_width(),
        final(data)@.len() == old(data)@.len() || final(data)@.len() == (frame + 1)
            * h.spec_frame_width(),
{
    let fw = h.frame_width();
    proof {
        vstd::arithmetic::mul::lemma_mul_nonnegative(frame as int + 1, fw as int);
        assert((frame as int + 1) * (fw as int) >= frame as int + 1) by (nonlinear_arith)
            requires
                fw >= 1,
                frame as int >= 0,
        ;
    }
    let target = (frame + 1) * fw;
    let ghost orig = data@;
    if data.len() >= target {
        proof {
            assert(spec_padded(orig, target as nat) == orig);
        }
        return ;
    }
    let mut i = data.len();
    while i < target
        invariant
            i == data@.len(),
            i <= target,
            data@ =~= orig + Seq::new((i - orig.len()) as nat, |j: int| 0u8),
            orig.len() <= i,
        decreases target - i,
    {
        data.push(0u8);
        proof {
            assert(data@ =~= orig + Seq::new((i + 1 - orig.len()) as nat, |j: int| 0u8));
        }
        i = i + 1;
    }
    proof {
        assert(data@ == spec_padded(orig, target as nat));
        assert(target as int % (fw as int) == 0) by {
            lemma_fundamental_div_mod_converse(
                (frame + 1) as int * fw as int,
                fw as int,
                frame as int + 1,
                0,
            );
        }
    }
}


/// Widens a raw unit of format `fmt` to its single-precision bit pattern.
pub fn unit_to_f32(fmt: SampleFormat, u: u32) -> (r: u32)
    requires
        u < pow2(8 * fmt.spec_unit_width()),
    ensures
        r as int == spec_unit_to_f32(fmt, u as nat),
{
    proof {
        lemma2_to64();
    }
    match fmt {
        SampleFormat::Int8 => {
            let v = i8_of_unit(u);
            widen_to_f32_bits(v as i32, 7)
        },
        SampleFormat::Int16 => {
            let v = i16_of_unit(u);
            widen_to_f32_bits(v as i32, 15)
        },
        SampleFormat::Int24 => {
            let v = i24_of_unit(u);
            widen_to_f32_bits(v, 23)
        },
        SampleFormat::Float => u,
    }
}

/// Narrows a single-precision bit pattern to a raw unit of format `fmt`,
/// rounding half away from zero and saturating at the format extremes.
pub fn f32_to_unit(fmt: SampleFormat, bits: u32) -> (r: u32)
    ensures
        r as nat == spec_f32_to_unit(fmt, bits),
        r < pow2(8 * fmt.spec_unit_width()),
{
    proof {
        lemma2_to64();
    }
    match fmt {
        SampleFormat::Int8 => {
            let v = narrow_from_f32_bits(bits, 7);
            unit_of_i8(v as i8)
        },
        SampleFormat::Int16 => {
            let v = narrow_from_f32_bits(bits, 15);
            unit_of_i16(v as i16)
        },
        SampleFormat::Int24 => {
            let v = narrow_from_f32_bits(bits, 23);
            unit_of_i24(v)
        },
        SampleFormat::Float => bits,
    }
}

/// Reads frame `frame` through the f32 view: every active channel carries
/// the widened bit pattern of its raw unit.
pub(crate) fn read_frame_f32(h: &WavHeader, data: &Vec<u8>, frame: usize) -> (r:
    SamplesByChannel<u32>)
    requires
        h.wf(),
        data@.len() % h.spec_frame_width() == 0,
        (frame as int) < spec_frame_count(*h, data@.len()),
    ensures
        r@ == spec_read_frame_f32(*h, data@, frame as int),
{
    let units = read_dense_units(h, data, frame);
    let fmt = h.sample_format;
    let mut conv: Vec<u32> = Vec::new();
    let mut s: usize = 0;
    while s < units.len()
        invariant
            s <= units@.len(),
            fmt == h.sample_format,
            units@ == spec_dense_units(*h, data@, frame as int),
            forall|k: int|
                0 <= k < units@.len() ==> #[trigger] units@[k] < pow2(
                    8 * h.sample_format.spec_unit_width(),
                ),
            conv@.len() == s,
            forall|k: int|
                0 <= k < s ==> #[trigger] conv@[k] as int == spec_unit_to_f32(
                    h.sample_format,
                    units@[k] as nat,
                ),
        decreases units@.len() - s,
    {
        let c = unit_to_f32(fmt, units[s]);
        conv.push(c);
        s = s + 1;
    }
    proof {
        lemma2_to64();
        let uw = h.sample_format.spec_unit_width();
        assert forall|k: int| 0 <= k < conv@.len() implies slot_unit(*h, data@, frame as int, k)
            < 0x100000000 by {
            lemma_unit_at_bound(
                data@,
                (frame as int) * (h.spec_frame_width() as int) + k * (uw as int),
                uw,
            );
            if 8 * uw < 32 {
                vstd::arithmetic::power2::lemma_pow2_strictly_increases(8 * uw, 32);
            }
        }
        assert(conv@ =~= Seq::new(
            spec_active_count(h.channels@),
            |k: int| spec_unit_to_f32(h.sample_format, slot_unit(*h, data@, frame as int, k)) as u32,
        ));
    }
    from_dense(&conv, &h.channels)
}


/// The frame round trip of the random-access engine: the dense units read
/// back out of a frame that was just written are exactly the units that
/// were written, whatever the image held before.
pub proof fn lemma_write_read_frame(h: WavHeader, data: Seq<u8>, frame: int, units: Seq<u32>)
    requires
        h.wf(),
        frame >= 0,
        units.len() == spec_active_count(h.channels@),
        forall|k: int|
            0 <= k < units.len() ==> #[trigger] units[k] < pow2(
                8 * h.sample_format.spec_unit_width(),
            ),
    ensures
        spec_dense_units(h, spec_written(h, data, frame, units), frame) =~= units,
{
    lemma2_to64();
    let fw = h.spec_frame_width() as int;
    let uw = h.sample_format.spec_unit_width() as int;
    let w = spec_written(h, data, frame, units);
    let base = frame * fw;
    vstd::arithmetic::mul::lemma_mul_nonnegative(frame, fw);
    assert((frame + 1) * fw == base + fw) by (nonlinear_arith)
        requires
            base == frame * fw,
    ;
    assert(fw == units.len() * uw);
    assert(w.len() >= base + fw);
    assert forall|s: int| 0 <= s < units.len() implies #[trigger] slot_unit(h, w, frame, s)
        == units[s] by {
        vstd::arithmetic::mul::lemma_mul_nonnegative(s, uw);
        vstd::arithmetic::mul::lemma_mul_inequality(s + 1, units.len() as int, uw);
        assert forall|j: int| 0 <= j < uw implies #[trigger] w[base + s * uw + j]
            == crate::codec::unit_bytes(units[s] as nat, uw as nat)[j] by {
            let d = s * uw + j;
            vstd::arithmetic::div_mod::lemma_fundamental_div_mod_converse(d, uw, s, j);
            assert((s + 1) * uw == s * uw + uw) by (nonlinear_arith);
            assert(base <= base + d < base + fw);
            assert(w[base + d] == unit_byte(units[d / uw] as nat, (d % uw) as nat));
        }
        lemma_unit_round_trip(w, base + s * uw, units[s] as nat, uw as nat);
    }
}

} // verus!
