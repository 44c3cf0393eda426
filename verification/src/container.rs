//! The RIFF/WAVE container: byte-level parsing and serialization of the
//! header (RIFF magic, format chunk, data chunk) around the raw sample data.
//!
//! Serialization is canonical: mono and stereo masks use the plain 16-byte
//! format chunk (codec tag 1 for PCM, 3 for IEEE float, 44 header bytes in
//! all); every other mask uses the extensible layout (tag 0xFFFE, a 40-byte
//! format chunk carrying the channel mask and the sub-format identifier, 68
//! header bytes in all). Parsing accepts both layouts, maps a plain header's
//! channel count to the conventional masks (1 maps to front left, 2 to front
//! left and right), validates every field the way the error type spells
//! out, and ignores the RIFF size field and trailing bytes after the data
//! chunk, which many writers fill loosely.
use vstd::prelude::*;

use vstd::arithmetic::div_mod::{
    lemma_div_denominator, lemma_fundamental_div_mod_converse,
};
use vstd::arithmetic::power2::{lemma2_to64, lemma_pow2_adds, lemma_pow2_pos, pow2};

use crate::codec::{spec_unit_at, unit_byte, lemma_unit_round_trip, read_unit, unit_bytes};
use crate::header::{
    count_active_prefix, spec_active_count, Channels, SampleFormat, WavHeader, CHANNEL_COUNT,
};
use crate::{FormatFault, WavError};

verus! {

/// The channel mask meaning "one channel, front left", the conventional
/// reading of a plain mono header.
pub open spec fn mono_channels() -> Channels {
    Channels {
        front_left: true,
        front_right: false,
        front_center: false,
        low_frequency: false,
        back_left: false,
        back_right: false,
        front_left_of_center: false,
        front_right_of_center: false,
        back_center: false,
        side_left: false,
        side_right: false,
        top_center: false,
        top_front_left: false,
        top_front_center: false,
        top_front_right: false,
        top_back_left: false,
        top_back_center: false,
        top_back_right: false,
    }
}

/// The channel mask meaning "front left and front right", the conventional
/// reading of a plain stereo header.
pub open spec fn stereo_channels() -> Channels {
    Channels { front_right: true, ..mono_channels() }
}

/// Builds the mono mask.
pub fn make_mono_channels() -> (r: Channels)
    ensures
        r == mono_channels(),
{
    let mut r = Channels::none();
    r.front_left = true;
    r
}

/// Builds the stereo mask.
pub fn make_stereo_channels() -> (r: Channels)
    ensures
        r == stereo_channels(),
{
    let mut r = make_mono_channels();
    r.front_right = true;
    r
}

/// Whether a header serializes with the plain 16-byte format chunk.
pub open spec fn spec_is_plain(h: WavHeader) -> bool {
    h.channels == mono_channels() || h.channels == stereo_channels()
}

/// The codec tag of a sample format: 1 for the integer encodings (PCM),
/// 3 for IEEE float.
pub open spec fn spec_tag(f: SampleFormat) -> nat {
    match f {
        SampleFormat::Float => 3,
        _ => 1,
    }
}

/// The sample format a codec tag and bit depth declare, if the pair is
/// consistent.
pub open spec fn spec_format_of(tag: nat, bits: nat) -> Option<SampleFormat> {
    if tag == 1 {
        if bits == 8 {
            Some(SampleFormat::Int8)
        } else if bits == 16 {
            Some(SampleFormat::Int16)
        } else if bits == 24 {
            Some(SampleFormat::Int24)
        } else {
            None
        }
    } else if tag == 3 {
        if bits == 32 {
            Some(SampleFormat::Float)
        } else {
            None
        }
    } else {
        None
    }
}

/// The channel-mask word of a mask, reading flags `j` and above as base-2
/// digits from bit `j` upward.
pub open spec fn mask_val(mask: Seq<bool>, j: int) -> nat
    decreases CHANNEL_COUNT - j,
{
    if j < 0 || j >= CHANNEL_COUNT {
        0
    } else {
        ((if mask[j] {
            1nat
        } else {
            0nat
        }) + 2 * mask_val(mask, j + 1)) as nat
    }
}

/// A mask word stays below `pow2(CHANNEL_COUNT - j)`.
pub proof fn lemma_mask_val_bound(mask: Seq<bool>, j: int)
    ensures
        mask_val(mask, j) < pow2((if 0 <= j <= CHANNEL_COUNT {
            (CHANNEL_COUNT - j) as nat
        } else {
            0nat
        }) + 0),
    decreases CHANNEL_COUNT - j,
{
    lemma2_to64();
    if j < 0 || j >= CHANNEL_COUNT {
        assert(pow2(0) == 1);
    } else {
        lemma_mask_val_bound(mask, j + 1);
        vstd::arithmetic::power2::lemma_pow2_unfold((CHANNEL_COUNT - j) as nat);
    }
}

/// Digit `k` of a mask word built from flags `j` upward is flag `k`.
pub proof fn lemma_mask_val_digit(mask: Seq<bool>, j: int, k: int)
    requires
        0 <= j <= k < CHANNEL_COUNT,
    ensures
        (mask_val(mask, j) / pow2((k - j) as nat)) % 2 == (if mask[k] {
            1nat
        } else {
            0nat
        }),
    decreases k - j,
{
    lemma2_to64();
    let b: nat = if mask[j] {
        1
    } else {
        0
    };
    let rest = mask_val(mask, j + 1);
    lemma_fundamental_div_mod_converse((b + 2 * rest) as int, 2, rest as int, b as int);
    if k == j {
        assert(pow2(0) == 1);
        assert(mask_val(mask, j) / 1 == mask_val(mask, j));
        assert(mask_val(mask, j) % 2 == b);
    } else {
        lemma_pow2_pos((k - j - 1) as nat);
        lemma_pow2_adds(1, (k - j - 1) as nat);
        assert(pow2(1) == 2);
        lemma_div_denominator(mask_val(mask, j) as int, 2, pow2((k - j - 1) as nat) as int);
        assert(mask_val(mask, j) / 2 == rest);
        lemma_mask_val_digit(mask, j + 1, k);
    }
}

/// The mask struct whose flags are the eighteen low bits of a mask word,
/// each digit written with its literal power-of-two divisor.
pub open spec fn channels_struct_of_mask(mv: nat) -> Channels {
    Channels {
        front_left: (mv / 0x1) % 2 == 1,
        front_right: (mv / 0x2) % 2 == 1,
        front_center: (mv / 0x4) % 2 == 1,
        low_frequency: (mv / 0x8) % 2 == 1,
        back_left: (mv / 0x10) % 2 == 1,
        back_right: (mv / 0x20) % 2 == 1,
        front_left_of_center: (mv / 0x40) % 2 == 1,
        front_right_of_center: (mv / 0x80) % 2 == 1,
        back_center: (mv / 0x100) % 2 == 1,
        side_left: (mv / 0x200) % 2 == 1,
        side_right: (mv / 0x400) % 2 == 1,
        top_center: (mv / 0x800) % 2 == 1,
        top_front_left: (mv / 0x1000) % 2 == 1,
        top_front_center: (mv / 0x2000) % 2 == 1,
        top_front_right: (mv / 0x4000) % 2 == 1,
        top_back_left: (mv / 0x8000) % 2 == 1,
        top_back_center: (mv / 0x10000) % 2 == 1,
        top_back_right: (mv / 0x20000) % 2 == 1,
    }
}

/// Builds the mask whose flags are the eighteen low bits of a mask word.
pub fn channels_of_mask(mv: u32) -> (r: Channels)
    ensures
        r == channels_struct_of_mask(mv as nat),
{
    Channels {
        front_left: (mv / 0x1) % 2 == 1,
        front_right: (mv / 0x2) % 2 == 1,
        front_center: (mv / 0x4) % 2 == 1,
        low_frequency: (mv / 0x8) % 2 == 1,
        back_left: (mv / 0x10) % 2 == 1,
        back_right: (mv / 0x20) % 2 == 1,
        front_left_of_center: (mv / 0x40) % 2 == 1,
        front_right_of_center: (mv / 0x80) % 2 == 1,
        back_center: (mv / 0x100) % 2 == 1,
        side_left: (mv / 0x200) % 2 == 1,
        side_right: (mv / 0x400) % 2 == 1,
        top_center: (mv / 0x800) % 2 == 1,
        top_front_left: (mv / 0x1000) % 2 == 1,
        top_front_center: (mv / 0x2000) % 2 == 1,
        top_front_right: (mv / 0x4000) % 2 == 1,
        top_back_left: (mv / 0x8000) % 2 == 1,
        top_back_center: (mv / 0x10000) % 2 == 1,
        top_back_right: (mv / 0x20000) % 2 == 1,
    }
}

/// The channel-mask word of a mask.
pub fn mask_of_channels(c: &Channels) -> (r: u32)
    ensures
        r as nat == mask_val(c@, 0),
{
    proof {
        lemma2_to64();
    }
    let mut r: u32 = 0;
    let mut j: usize = CHANNEL_COUNT;
    while j > 0
        invariant
            j <= CHANNEL_COUNT,
            r as nat == mask_val(c@, j as int),
            r < 0x40000,
        decreases j,
    {
        proof {
            lemma_mask_val_bound(c@, j as int - 1);
            vstd::arithmetic::power2::lemma_pow2_strictly_increases(
                (CHANNEL_COUNT - (j - 1)) as nat,
                19,
            );
            lemma2_to64();
        }
        j = j - 1;
        r = 2 * r + (if c.get(j) {
            1
        } else {
            0
        });
    }
    r
}

/// One byte of the four-character chunk and form magics.
pub open spec fn magic_byte(which: int, i: int) -> u8 {
    if which == 0 {
        // "RIFF"
        if i == 0 {
            0x52
        } else if i == 1 {
            0x49
        } else {
            0x46
        }
    } else if which == 1 {
        // "WAVE"
        if i == 0 {
            0x57
        } else if i == 1 {
            0x41
        } else if i == 2 {
            0x56
        } else {
            0x45
        }
    } else if which == 2 {
        // "fmt "
        if i == 0 {
            0x66
        } else if i == 1 {
            0x6d
        } else if i == 2 {
            0x74
        } else {
            0x20
        }
    } else {
        // "data"
        if i == 0 {
            0x64
        } else if i == 1 {
            0x61
        } else if i == 2 {
            0x74
        } else {
            0x61
        }
    }
}

/// The fourteen bytes that follow the sub-format tag in the extensible
/// format GUID (fixed for both PCM and IEEE float).
pub open spec fn guid_tail_byte(i: int) -> u8 {
    if i == 4 {
        0x10
    } else if i == 6 {
        0x80
    } else if i == 9 {
        0xAA
    } else if i == 11 {
        0x38
    } else if i == 12 {
        0x9B
    } else if i == 13 {
        0x71
    } else {
        0x00
    }
}

/// How many bytes the serialized header of `h` occupies.
pub open spec fn spec_header_len(h: WavHeader) -> nat {
    if spec_is_plain(h) {
        44
    } else {
        68
    }
}

/// Byte `i` of the canonical serialized header of `h` over a data chunk of
/// `dl` bytes.
pub open spec fn spec_header_byte(h: WavHeader, dl: nat, i: int) -> u8 {
    let fw = h.spec_frame_width();
    let nch = spec_active_count(h.channels@);
    let bits = h.sample_format.spec_bits_per_sample();
    let rate = h.sample_rate as nat;
    if spec_is_plain(h) {
        if i < 4 {
            magic_byte(0, i)
        } else if i < 8 {
            unit_byte((36 + dl) as nat, (i - 4) as nat)
        } else if i < 12 {
            magic_byte(1, i - 8)
        } else if i < 16 {
            magic_byte(2, i - 12)
        } else if i < 20 {
            unit_byte(16, (i - 16) as nat)
        } else if i < 22 {
            unit_byte(spec_tag(h.sample_format), (i - 20) as nat)
        } else if i < 24 {
            unit_byte(nch, (i - 22) as nat)
        } else if i < 28 {
            unit_byte(rate, (i - 24) as nat)
        } else if i < 32 {
            unit_byte(rate * fw, (i - 28) as nat)
        } else if i < 34 {
            unit_byte(fw, (i - 32) as nat)
        } else if i < 36 {
            unit_byte(bits, (i - 34) as nat)
        } else if i < 40 {
            magic_byte(3, i - 36)
        } else {
            unit_byte(dl, (i - 40) as nat)
        }
    } else {
        if i < 4 {
            magic_byte(0, i)
        } else if i < 8 {
            unit_byte((60 + dl) as nat, (i - 4) as nat)
        } else if i < 12 {
            magic_byte(1, i - 8)
        } else if i < 16 {
            magic_byte(2, i - 12)
        } else if i < 20 {
            unit_byte(40, (i - 16) as nat)
        } else if i < 22 {
            unit_byte(0xFFFE, (i - 20) as nat)
        } else if i < 24 {
            unit_byte(nch, (i - 22) as nat)
        } else if i < 28 {
            unit_byte(rate, (i - 24) as nat)
        } else if i < 32 {
            unit_byte(rate * fw, (i - 28) as nat)
        } else if i < 34 {
            unit_byte(fw, (i - 32) as nat)
        } else if i < 36 {
            unit_byte(bits, (i - 34) as nat)
        } else if i < 38 {
            unit_byte(22, (i - 36) as nat)
        } else if i < 40 {
            unit_byte(bits, (i - 38) as nat)
        } else if i < 44 {
            unit_byte(mask_val(h.channels@, 0), (i - 40) as nat)
        } else if i < 46 {
            unit_byte(spec_tag(h.sample_format), (i - 44) as nat)
        } else if i < 60 {
            guid_tail_byte(i - 46)
        } else if i < 64 {
            magic_byte(3, i - 60)
        } else {
            unit_byte(dl, (i - 64) as nat)
        }
    }
}

/// The canonical serialized header of `h` over a data chunk of `dl` bytes.
pub open spec fn spec_header_bytes(h: WavHeader, dl: nat) -> Seq<u8> {
    Seq::new(spec_header_len(h), |i: int| spec_header_byte(h, dl, i))
}

/// The complete canonical file image of header `h` and sample data `data`.
pub open spec fn spec_wav_bytes(h: WavHeader, data: Seq<u8>) -> Seq<u8> {
    spec_header_bytes(h, data.len()) + data
}

/// Whether a header's derived fields fit the `u32` slots of the container:
/// the byte rate and the data length (plus the header) must be expressible.
pub open spec fn spec_fits_u32(h: WavHeader, dl: nat) -> bool {
    &&& h.sample_rate * h.spec_frame_width() <= u32::MAX
    &&& dl + 68 <= u32::MAX
}


/// The four-character magic sequence `which` (0 RIFF, 1 WAVE, 2 "fmt ",
/// 3 data).
pub open spec fn magic_seq(which: int) -> Seq<u8> {
    Seq::new(4, |i: int| magic_byte(which, i))
}

/// The fourteen fixed GUID tail bytes of the extensible format chunk.
pub open spec fn guid_tail_seq() -> Seq<u8> {
    Seq::new(14, |i: int| guid_tail_byte(i))
}

/// What validating the frame geometry and the data chunk means, for a
/// header already read: the byte rate and block align must match the
/// header, the data chunk must carry its magic at `base`, its declared
/// length must lie inside the file and be a whole number of frames.
pub open spec fn spec_parse_tail(b: Seq<u8>, h: WavHeader, base: int) -> (Result<
    (WavHeader, Seq<u8>),
    FormatFault,
>) {
    let fw = h.spec_frame_width();
    let brate = spec_unit_at(b, 28, 4);
    let align = spec_unit_at(b, 32, 2);
    let dl = spec_unit_at(b, base + 4, 4);
    if brate != h.sample_rate * fw || align != fw {
        Err(FormatFault::BadFrameGeometry)
    } else if b.subrange(base, base + 4) != magic_seq(3) {
        Err(FormatFault::BadDataMagic)
    } else if b.len() < base + 8 + dl {
        Err(FormatFault::Truncated)
    } else if dl % fw != 0 {
        Err(FormatFault::MisalignedDataLength)
    } else {
        Ok((h, b.subrange(base + 8, base + 8 + dl as int)))
    }
}

/// What parsing a plain-format file means, once the codec tag is known to
/// be 1 or 3, the format chunk size 16, and the file at least 44 bytes.
pub open spec fn spec_parse_plain(b: Seq<u8>) -> (Result<(WavHeader, Seq<u8>), FormatFault>) {
    let tag = spec_unit_at(b, 20, 2);
    let nch = spec_unit_at(b, 22, 2);
    let rate = spec_unit_at(b, 24, 4);
    let bits = spec_unit_at(b, 34, 2);
    if spec_format_of(tag, bits) is None {
        Err(FormatFault::BadBitsPerSample)
    } else if nch == 0 {
        Err(FormatFault::ZeroChannels)
    } else if nch > 2 {
        Err(FormatFault::UnsupportedChannelCount)
    } else if rate == 0 {
        Err(FormatFault::ZeroSampleRate)
    } else {
        let h = WavHeader {
            sample_format: spec_format_of(tag, bits)->Some_0,
            channels: if nch == 1 {
                mono_channels()
            } else {
                stereo_channels()
            },
            sample_rate: rate as u32,
        };
        spec_parse_tail(b, h, 36)
    }
}

/// What parsing an extensible-format file means, once the codec tag is
/// known to be 0xFFFE, the format chunk size 40, and the file at least 68
/// bytes.
pub open spec fn spec_parse_ext(b: Seq<u8>) -> (Result<(WavHeader, Seq<u8>), FormatFault>) {
    let nch = spec_unit_at(b, 22, 2);
    let rate = spec_unit_at(b, 24, 4);
    let bits = spec_unit_at(b, 34, 2);
    let cb = spec_unit_at(b, 36, 2);
    let vbits = spec_unit_at(b, 38, 2);
    let mv = spec_unit_at(b, 40, 4);
    let sub = spec_unit_at(b, 44, 2);
    if cb != 22 {
        Err(FormatFault::BadFmtSize)
    } else if sub != 1 && sub != 3 {
        Err(FormatFault::BadSubFormat)
    } else if b.subrange(46, 60) != guid_tail_seq() {
        Err(FormatFault::BadSubFormat)
    } else if spec_format_of(sub, bits) is None {
        Err(FormatFault::BadBitsPerSample)
    } else if vbits != bits {
        Err(FormatFault::BadBitsPerSample)
    } else {
        let ch = channels_struct_of_mask(mv);
        let count = spec_active_count(ch@);
        if count == 0 {
            Err(FormatFault::ZeroChannels)
        } else if nch != count {
            Err(FormatFault::ChannelCountMismatch)
        } else if rate == 0 {
            Err(FormatFault::ZeroSampleRate)
        } else {
            let h = WavHeader {
                sample_format: spec_format_of(sub, bits)->Some_0,
                channels: ch,
                sample_rate: rate as u32,
            };
            spec_parse_tail(b, h, 60)
        }
    }
}

/// What parsing a WAV file image means: the header the bytes declare and
/// the raw data-chunk bytes, or the first fault found. The RIFF size field
/// and any bytes after the data chunk are tolerated without inspection.
pub open spec fn spec_parse_wav(b: Seq<u8>) -> (Result<(WavHeader, Seq<u8>), FormatFault>) {
    if b.len() < 22 {
        Err(FormatFault::Truncated)
    } else if b.subrange(0, 4) != magic_seq(0) {
        Err(FormatFault::BadRiffMagic)
    } else if b.subrange(8, 12) != magic_seq(1) {
        Err(FormatFault::BadWaveMagic)
    } else if b.subrange(12, 16) != magic_seq(2) {
        Err(FormatFault::BadFmtMagic)
    } else {
        let fs = spec_unit_at(b, 16, 4);
        let tag = spec_unit_at(b, 20, 2);
        if tag == 1 || tag == 3 {
            if fs != 16 {
                Err(FormatFault::BadFmtSize)
            } else if b.len() < 44 {
                Err(FormatFault::Truncated)
            } else {
                spec_parse_plain(b)
            }
        } else if tag == 0xFFFE {
            if fs != 40 {
                Err(FormatFault::BadFmtSize)
            } else if b.len() < 68 {
                Err(FormatFault::Truncated)
            } else {
                spec_parse_ext(b)
            }
        } else {
            Err(FormatFault::BadCodecTag)
        }
    }
}


/// Whether the four bytes of `b` at `off` are exactly `m0..m3`.
fn eq4(b: &Vec<u8>, off: usize, m0: u8, m1: u8, m2: u8, m3: u8) -> (r: bool)
    requires
        off + 4 <= b@.len(),
    ensures
        r == (b@.subrange(off as int, off as int + 4) == seq![m0, m1, m2, m3]),
{
    let n = b.len();
    let r = b[off] == m0 && b[off + 1] == m1 && b[off + 2] == m2 && b[off + 3] == m3;
    proof {
        let s = b@.subrange(off as int, off as int + 4);
        let t = seq![m0, m1, m2, m3];
        assert(s.len() == 4 && t.len() == 4);
        assert(t[0] == m0 && t[1] == m1 && t[2] == m2 && t[3] == m3);
        assert(s[0] == b@[off as int] && s[1] == b@[off as int + 1] && s[2] == b@[
            off as int + 2
        ] && s[3] == b@[off as int + 3]);
        if r {
            assert(s =~= t);
        } else {
            if s == t {
                assert(false);
            }
        }
    }
    r
}

/// Whether the fourteen bytes of `b` at 46 are the fixed GUID tail.
fn eq_guid(b: &Vec<u8>) -> (r: bool)
    requires
        b@.len() >= 60,
    ensures
        r == (b@.subrange(46, 60) == guid_tail_seq()),
{
    let r = b[46] == 0 && b[47] == 0 && b[48] == 0 && b[49] == 0 && b[50] == 0x10 && b[51]
        == 0 && b[52] == 0x80 && b[53] == 0 && b[54] == 0 && b[55] == 0xAA && b[56] == 0
        && b[57] == 0x38 && b[58] == 0x9B && b[59] == 0x71;
    proof {
        let s = b@.subrange(46, 60);
        let t = guid_tail_seq();
        assert(s.len() == 14 && t.len() == 14);
        assert forall|k: int| 0 <= k < 14 implies s[k] == b@[46 + k] by {}
        if r {
            assert(s =~= t);
        } else {
            if s == t {
                assert(b@[46] == t[0] && b@[47] == t[1] && b@[48] == t[2]
                    && b@[49] == t[3] && b@[50] == t[4] && b@[51] == t[5]
                    && b@[52] == t[6] && b@[53] == t[7] && b@[54] == t[8]
                    && b@[55] == t[9] && b@[56] == t[10] && b@[57] == t[11]
                    && b@[58] == t[12] && b@[59] == t[13]);
                assert(false);
            }
        }
    }
    r
}

/// Copies `len` bytes of `b` starting at `start` into a fresh vector.
pub fn copy_range(b: &Vec<u8>, start: usize, len: usize) -> (r: Vec<u8>)
    requires
        start + len <= b@.len(),
    ensures
        r@ == b@.subrange(start as int, start as int + len as int),
{
    let n = b.len();
    let mut out: Vec<u8> = Vec::new();
    let mut i: usize = 0;
    while i < len
        invariant
            i <= len,
            start + len <= n,
            n == b@.len(),
            out@.len() == i,
            forall|k: int| 0 <= k < i ==> out@[k] == b@[start + k],
        decreases len - i,
    {
        out.push(b[start + i]);
        i = i + 1;
    }
    proof {
        assert(out@ =~= b@.subrange(start as int, start as int + len as int));
    }
    out
}

/// The sample format a codec tag and bit depth declare, if consistent.
pub fn format_of(tag: u32, bits: u32) -> (r: Option<SampleFormat>)
    ensures
        r == spec_format_of(tag as nat, bits as nat),
{
    if tag == 1 {
        if bits == 8 {
            Some(SampleFormat::Int8)
        } else if bits == 16 {
            Some(SampleFormat::Int16)
        } else if bits == 24 {
            Some(SampleFormat::Int24)
        } else {
            None
        }
    } else if tag == 3 {
        if bits == 32 {
            Some(SampleFormat::Float)
        } else {
            None
        }
    } else {
        None
    }
}

/// The conventional masks hold one and two channels.
pub proof fn lemma_mono_stereo_counts()
    ensures
        spec_active_count(mono_channels()@) == 1,
        spec_active_count(stereo_channels()@) == 2,
{
    reveal_with_fuel(count_active_prefix, 20);
}


/// Validates the frame geometry and the data chunk for a header already
/// read, and copies the data out.
#[verifier::spinoff_prover]
#[verifier::rlimit(100)]
fn parse_tail_at(bytes: &Vec<u8>, h: WavHeader, base: usize) -> (r: Result<
    (WavHeader, Vec<u8>),
    WavError,
>)
    requires
        h.wf(),
        base == 36 || base == 60,
        bytes@.len() >= base + 8,
    ensures
        (r is Ok) == (spec_parse_tail(bytes@, h, base as int) is Ok),
        (r matches Ok(p) ==> spec_parse_tail(bytes@, h, base as int) == Ok::<
            (WavHeader, Seq<u8>),
            FormatFault,
        >((p.0, p.1@))),
        (r matches Err(e) ==> spec_parse_tail(bytes@, h, base as int) matches Err(f) && e
            == WavError::Format(f)),
        (r matches Ok(p) ==> p.0 == h && p.1@.len() % p.0.spec_frame_width() == 0),
{
    proof {
        lemma2_to64();
        assert(magic_seq(3) =~= seq![0x64u8, 0x61u8, 0x74u8, 0x61u8]);
    }
    let n = bytes.len();
    let rate = h.sample_rate;
    let brate = read_unit(bytes, 28, 4);
    let align = read_unit(bytes, 32, 2);
    let fw = h.frame_width();
    proof {
        assert((rate as int) * (fw as int) <= 0xFFFFFFFF * 72) by (nonlinear_arith)
            requires
                rate <= 0xFFFFFFFF,
                0 <= fw <= 72,
        ;
    }
    if (brate as u64) != (rate as u64) * (fw as u64) || (align as usize) != fw {
        return Err(WavError::Format(FormatFault::BadFrameGeometry));
    }
    if !eq4(bytes, base, 0x64, 0x61, 0x74, 0x61) {
        return Err(WavError::Format(FormatFault::BadDataMagic));
    }
    let dl = read_unit(bytes, base + 4, 4);
    if (n as u64) < (base as u64) + 8u64 + (dl as u64) {
        return Err(WavError::Format(FormatFault::Truncated));
    }
    if (dl as usize) % fw != 0 {
        return Err(WavError::Format(FormatFault::MisalignedDataLength));
    }
    let data = copy_range(bytes, base + 8, dl as usize);
    Ok((h, data))
}

/// Parses the body of a plain-format file, the codec tag known to be PCM
/// or IEEE float and the image at least 44 bytes long.
#[verifier::spinoff_prover]
#[verifier::rlimit(100)]
fn parse_plain_at(bytes: &Vec<u8>) -> (r: Result<(WavHeader, Vec<u8>), WavError>)
    requires
        bytes@.len() >= 44,
        (spec_unit_at(bytes@, 20, 2) == 1 || spec_unit_at(bytes@, 20, 2) == 3),
    ensures
        (r is Ok) == (spec_parse_plain(bytes@) is Ok),
        (r matches Ok(p) ==> spec_parse_plain(bytes@) == Ok::<(WavHeader, Seq<u8>), FormatFault>(
            (p.0, p.1@),
        )),
        (r matches Err(e) ==> spec_parse_plain(bytes@) matches Err(f) && e == WavError::Format(
            f,
        )),
        (r matches Ok(p) ==> p.0.wf() && p.1@.len() % p.0.spec_frame_width() == 0),
{
    proof {
        lemma2_to64();
        lemma_mono_stereo_counts();
        assert(magic_seq(3) =~= seq![0x64u8, 0x61u8, 0x74u8, 0x61u8]);
    }
    let tag = read_unit(bytes, 20, 2);
    let nch = read_unit(bytes, 22, 2);
    let rate = read_unit(bytes, 24, 4);
    let bits = read_unit(bytes, 34, 2);
    let fmt = match format_of(tag, bits) {
        Some(f) => f,
        None => {
            return Err(WavError::Format(FormatFault::BadBitsPerSample));
        },
    };
    if nch == 0 {
        return Err(WavError::Format(FormatFault::ZeroChannels));
    }
    if nch > 2 {
        return Err(WavError::Format(FormatFault::UnsupportedChannelCount));
    }
    if rate == 0 {
        return Err(WavError::Format(FormatFault::ZeroSampleRate));
    }
    let channels = if nch == 1 {
        make_mono_channels()
    } else {
        make_stereo_channels()
    };
    let h = WavHeader { sample_format: fmt, channels, sample_rate: rate };
    proof {
        lemma_mono_stereo_counts();
    }
    parse_tail_at(bytes, h, 36)
}

/// Parses the body of an extensible-format file, the codec tag known to be
/// extensible and the image at least 68 bytes long.
#[verifier::spinoff_prover]
#[verifier::rlimit(100)]
fn parse_ext_at(bytes: &Vec<u8>) -> (r: Result<(WavHeader, Vec<u8>), WavError>)
    requires
        bytes@.len() >= 68,
    ensures
        (r is Ok) == (spec_parse_ext(bytes@) is Ok),
        (r matches Ok(p) ==> spec_parse_ext(bytes@) == Ok::<(WavHeader, Seq<u8>), FormatFault>(
            (p.0, p.1@),
        )),
        (r matches Err(e) ==> spec_parse_ext(bytes@) matches Err(f) && e == WavError::Format(
            f,
        )),
        (r matches Ok(p) ==> p.0.wf() && p.1@.len() % p.0.spec_frame_width() == 0),
{
    proof {
        lemma2_to64();
        assert(magic_seq(3) =~= seq![0x64u8, 0x61u8, 0x74u8, 0x61u8]);
    }
    let nch = read_unit(bytes, 22, 2);
    let rate = read_unit(bytes, 24, 4);
    let bits = read_unit(bytes, 34, 2);
    let cb = read_unit(bytes, 36, 2);
    let vbits = read_unit(bytes, 38, 2);
    let mv = read_unit(bytes, 40, 4);
    let sub = read_unit(bytes, 44, 2);
    if cb != 22 {
        return Err(WavError::Format(FormatFault::BadFmtSize));
    }
    if sub != 1 && sub != 3 {
        return Err(WavError::Format(FormatFault::BadSubFormat));
    }
    if !eq_guid(bytes) {
        return Err(WavError::Format(FormatFault::BadSubFormat));
    }
    let fmt = match format_of(sub, bits) {
        Some(f) => f,
        None => {
            return Err(WavError::Format(FormatFault::BadBitsPerSample));
        },
    };
    if vbits != bits {
        return Err(WavError::Format(FormatFault::BadBitsPerSample));
    }
    let channels = channels_of_mask(mv);
    let count = channels.active_count();
    if count == 0 {
        return Err(WavError::Format(FormatFault::ZeroChannels));
    }
    if (nch as usize) != count {
        return Err(WavError::Format(FormatFault::ChannelCountMismatch));
    }
    if rate == 0 {
        return Err(WavError::Format(FormatFault::ZeroSampleRate));
    }
    let h = WavHeader { sample_format: fmt, channels, sample_rate: rate };
    parse_tail_at(bytes, h, 60)
}

/// Parses a WAV file image into its header and raw data-chunk bytes,
/// validating every container field; the result is exactly what
/// `spec_parse_wav` says of the bytes.
#[verifier::spinoff_prover]
#[verifier::rlimit(100)]
pub fn parse_wav(bytes: &Vec<u8>) -> (r: Result<(WavHeader, Vec<u8>), WavError>)
    ensures
        (r is Ok) == (spec_parse_wav(bytes@) is Ok),
        (r matches Ok(p) ==> spec_parse_wav(bytes@) == Ok::<(WavHeader, Seq<u8>), FormatFault>(
            (p.0, p.1@),
        )),
        (r matches Err(e) ==> spec_parse_wav(bytes@) matches Err(f) && e == WavError::Format(
            f,
        )),
        (r matches Ok(p) ==> p.0.wf() && p.1@.len() % p.0.spec_frame_width() == 0),
{
    proof {
        lemma2_to64();
        assert(magic_seq(0) =~= seq![0x52u8, 0x49u8, 0x46u8, 0x46u8]);
        assert(magic_seq(1) =~= seq![0x57u8, 0x41u8, 0x56u8, 0x45u8]);
        assert(magic_seq(2) =~= seq![0x66u8, 0x6du8, 0x74u8, 0x20u8]);
    }
    let n = bytes.len();
    if n < 22 {
        return Err(WavError::Format(FormatFault::Truncated));
    }
    if !eq4(bytes, 0, 0x52, 0x49, 0x46, 0x46) {
        return Err(WavError::Format(FormatFault::BadRiffMagic));
    }
    if !eq4(bytes, 8, 0x57, 0x41, 0x56, 0x45) {
        return Err(WavError::Format(FormatFault::BadWaveMagic));
    }
    if !eq4(bytes, 12, 0x66, 0x6d, 0x74, 0x20) {
        return Err(WavError::Format(FormatFault::BadFmtMagic));
    }
    let fs = read_unit(bytes, 16, 4);
    let tag = read_unit(bytes, 20, 2);
    if tag == 1 || tag == 3 {
        if fs != 16 {
            return Err(WavError::Format(FormatFault::BadFmtSize));
        }
        if n < 44 {
            return Err(WavError::Format(FormatFault::Truncated));
        }
        parse_plain_at(bytes)
    } else if tag == 0xFFFE {
        if fs != 40 {
            return Err(WavError::Format(FormatFault::BadFmtSize));
        }
        if n < 68 {
            return Err(WavError::Format(FormatFault::Truncated));
        }
        parse_ext_at(bytes)
    } else {
        Err(WavError::Format(FormatFault::BadCodecTag))
    }
}

/// One byte of a four-character magic.
fn magic4(which: usize, i: usize) -> (r: u8)
    requires
        which <= 3,
        i <= 3,
    ensures
        r == magic_byte(which as int, i as int),
{
    match which {
        0 => if i == 0 { 0x52 } else if i == 1 { 0x49 } else { 0x46 },
        1 => if i == 0 { 0x57 } else if i == 1 { 0x41 } else if i == 2 { 0x56 } else { 0x45 },
        2 => if i == 0 { 0x66 } else if i == 1 { 0x6d } else if i == 2 { 0x74 } else { 0x20 },
        _ => if i == 0 { 0x64 } else if i == 1 { 0x61 } else if i == 2 { 0x74 } else { 0x61 },
    }
}

/// One byte of the fixed GUID tail.
fn guid_tail_at(i: usize) -> (r: u8)
    requires
        i < 14,
    ensures
        r == guid_tail_byte(i as int),
{
    if i == 4 {
        0x10
    } else if i == 6 {
        0x80
    } else if i == 9 {
        0xAA
    } else if i == 11 {
        0x38
    } else if i == 12 {
        0x9B
    } else if i == 13 {
        0x71
    } else {
        0x00
    }
}

/// One byte of a little-endian `u32` unit.
fn ub(v: u32, j: usize) -> (r: u8)
    requires
        j <= 3,
    ensures
        r == unit_byte(v as nat, j as nat),
{
    proof {
        lemma2_to64();
        assert(pow2(0) == 1);
        assert(v as nat / 1 == v as nat);
    }
    match j {
        0 => (v % 256) as u8,
        1 => ((v / 0x100) % 256) as u8,
        2 => ((v / 0x10000) % 256) as u8,
        _ => ((v / 0x1000000) % 256) as u8,
    }
}

/// Byte `i` of the canonical serialized header.
fn header_byte_at(h: &WavHeader, dl: u32, i: usize) -> (r: u8)
    requires
        h.wf(),
        spec_fits_u32(*h, dl as nat),
        i < spec_header_len(*h),
    ensures
        r == spec_header_byte(*h, dl as nat, i as int),
{
    let mono = make_mono_channels();
    let stereo = make_stereo_channels();
    let plain = h.channels == mono || h.channels == stereo;
    let fw = h.frame_width() as u32;
    let nch = h.channels.active_count() as u32;
    let bits = h.sample_format.bits_per_sample() as u32;
    let rate = h.sample_rate;
    let tag: u32 = match h.sample_format {
        SampleFormat::Float => 3,
        _ => 1,
    };
    let brate = rate * fw;
    if plain {
        if i < 4 {
            magic4(0, i)
        } else if i < 8 {
            ub(36 + dl, i - 4)
        } else if i < 12 {
            magic4(1, i - 8)
        } else if i < 16 {
            magic4(2, i - 12)
        } else if i < 20 {
            ub(16, i - 16)
        } else if i < 22 {
            ub(tag, i - 20)
        } else if i < 24 {
            ub(nch, i - 22)
        } else if i < 28 {
            ub(rate, i - 24)
        } else if i < 32 {
            ub(brate, i - 28)
        } else if i < 34 {
            ub(fw, i - 32)
        } else if i < 36 {
            ub(bits, i - 34)
        } else if i < 40 {
            magic4(3, i - 36)
        } else {
            ub(dl, i - 40)
        }
    } else {
        if i < 4 {
            magic4(0, i)
        } else if i < 8 {
            ub(60 + dl, i - 4)
        } else if i < 12 {
            magic4(1, i - 8)
        } else if i < 16 {
            magic4(2, i - 12)
        } else if i < 20 {
            ub(40, i - 16)
        } else if i < 22 {
            ub(0xFFFE, i - 20)
        } else if i < 24 {
            ub(nch, i - 22)
        } else if i < 28 {
            ub(rate, i - 24)
        } else if i < 32 {
            ub(brate, i - 28)
        } else if i < 34 {
            ub(fw, i - 32)
        } else if i < 36 {
            ub(bits, i - 34)
        } else if i < 38 {
            ub(22, i - 36)
        } else if i < 40 {
            ub(bits, i - 38)
        } else if i < 44 {
            ub(mask_of_channels(&h.channels), i - 40)
        } else if i < 46 {
            ub(tag, i - 44)
        } else if i < 60 {
            guid_tail_at(i - 46)
        } else if i < 64 {
            magic4(3, i - 60)
        } else {
            ub(dl, i - 64)
        }
    }
}

/// Serializes the canonical header of `h` over a data chunk of `dl` bytes.
pub fn header_bytes(h: &WavHeader, dl: u32) -> (r: Vec<u8>)
    requires
        h.wf(),
        spec_fits_u32(*h, dl as nat),
    ensures
        r@ == spec_header_bytes(*h, dl as nat),
{
    let mono = make_mono_channels();
    let stereo = make_stereo_channels();
    let hl: usize = if h.channels == mono || h.channels == stereo {
        44
    } else {
        68
    };
    let mut out: Vec<u8> = Vec::new();
    let mut i: usize = 0;
    while i < hl
        invariant
            i <= hl,
            hl == spec_header_len(*h),
            h.wf(),
            spec_fits_u32(*h, dl as nat),
            out@.len() == i,
            forall|k: int| 0 <= k < i ==> out@[k] == spec_header_byte(*h, dl as nat, k),
        decreases hl - i,
    {
        let b = header_byte_at(h, dl, i);
        out.push(b);
        i = i + 1;
    }
    proof {
        assert(out@ =~= spec_header_bytes(*h, dl as nat));
    }
    out
}

/// Serializes the complete canonical file image of `h` over data `data`.
pub fn wav_bytes(h: &WavHeader, data: &Vec<u8>) -> (r: Vec<u8>)
    requires
        h.wf(),
        spec_fits_u32(*h, data@.len()),
    ensures
        r@ == spec_wav_bytes(*h, data@),
{
    let mut out = header_bytes(h, data.len() as u32);
    let mut i: usize = 0;
    let ghost hdr = out@;
    while i < data.len()
        invariant
            i <= data@.len(),
            out@.len() == hdr.len() + i,
            out@ =~= hdr + data@.subrange(0, i as int),
        decreases data@.len() - i,
    {
        out.push(data[i]);
        proof {
            assert(out@ =~= hdr + data@.subrange(0, i + 1));
        }
        i = i + 1;
    }
    proof {
        assert(data@.subrange(0, data@.len() as int) =~= data@);
        assert(out@ =~= spec_wav_bytes(*h, data@));
    }
    out
}


/// Reads every serialized field back inside the proof of the round trip.
#[verifier::spinoff_prover]
#[verifier::rlimit(100)]
proof fn lemma_round_trip_fields(h: WavHeader, data: Seq<u8>)
    requires
        h.wf(),
        spec_fits_u32(h, data.len()),
    ensures
        ({
            let b = spec_wav_bytes(h, data);
            let dl = data.len();
            let fw = h.spec_frame_width();
            let nch = spec_active_count(h.channels@);
            let bits = h.sample_format.spec_bits_per_sample();
            let rate = h.sample_rate as nat;
            let tag = spec_tag(h.sample_format);
            &&& 1 <= fw <= 72
            &&& 1 <= nch <= 18
            &&& b.len() == spec_header_len(h) + dl
            &&& b.subrange(0, 4) == magic_seq(0)
            &&& b.subrange(8, 12) == magic_seq(1)
            &&& b.subrange(12, 16) == magic_seq(2)
            &&& spec_unit_at(b, 22, 2) == nch
            &&& spec_unit_at(b, 24, 4) == rate
            &&& spec_unit_at(b, 28, 4) == rate * fw
            &&& spec_unit_at(b, 32, 2) == fw
            &&& spec_unit_at(b, 34, 2) == bits
            &&& (spec_is_plain(h) ==> spec_unit_at(b, 16, 4) == 16)
            &&& (spec_is_plain(h) ==> spec_unit_at(b, 20, 2) == tag)
            &&& (spec_is_plain(h) ==> b.subrange(36, 40) == magic_seq(3))
            &&& (spec_is_plain(h) ==> spec_unit_at(b, 40, 4) == dl)
            &&& (spec_is_plain(h) ==> b.subrange(44, 44 + dl as int) == data)
            &&& (!spec_is_plain(h) ==> spec_unit_at(b, 16, 4) == 40)
            &&& (!spec_is_plain(h) ==> spec_unit_at(b, 20, 2) == 0xFFFE)
            &&& (!spec_is_plain(h) ==> spec_unit_at(b, 36, 2) == 22)
            &&& (!spec_is_plain(h) ==> spec_unit_at(b, 38, 2) == bits)
            &&& (!spec_is_plain(h) ==> spec_unit_at(b, 40, 4) == mask_val(h.channels@, 0))
            &&& (!spec_is_plain(h) ==> spec_unit_at(b, 44, 2) == tag)
            &&& (!spec_is_plain(h) ==> b.subrange(46, 60) == guid_tail_seq())
            &&& (!spec_is_plain(h) ==> b.subrange(60, 64) == magic_seq(3))
            &&& (!spec_is_plain(h) ==> spec_unit_at(b, 64, 4) == dl)
            &&& (!spec_is_plain(h) ==> b.subrange(68, 68 + dl as int) == data)
        }),
{
    lemma2_to64();
    crate::header::lemma_count_le_len(h.channels@, CHANNEL_COUNT as int);
    let hb = spec_header_bytes(h, data.len());
    let b = spec_wav_bytes(h, data);
    let dl = data.len();
    let hl = spec_header_len(h);
    let fw = h.spec_frame_width();
    let nch = spec_active_count(h.channels@);
    let bits = h.sample_format.spec_bits_per_sample();
    let rate = h.sample_rate as nat;
    let tag = spec_tag(h.sample_format);
    let uw = h.sample_format.spec_unit_width();
    assert(1 <= uw <= 4);
    assert(1 <= fw <= 72) by (nonlinear_arith)
        requires
            fw == nch * uw,
            1 <= nch <= 18,
            1 <= uw <= 4,
    ;
    assert(b.len() == hl + dl);
    assert forall|k: int| 0 <= k < hl implies #[trigger] b[k] == spec_header_byte(
        h,
        dl,
        k,
    ) by {
        assert(b[k] == hb[k]);
    }
    assert forall|k: int| 0 <= k < dl implies #[trigger] b[hl + k] == data[k] by {}
    assert(b.subrange(0, 4) =~= magic_seq(0));
    assert(b.subrange(8, 12) =~= magic_seq(1));
    assert(b.subrange(12, 16) =~= magic_seq(2));
    lemma_mask_val_bound(h.channels@, 0);
    if spec_is_plain(h) {
        lemma_unit_round_trip(b, 16, 16, 4);
        lemma_unit_round_trip(b, 20, tag, 2);
        lemma_unit_round_trip(b, 22, nch, 2);
        lemma_unit_round_trip(b, 24, rate, 4);
        lemma_unit_round_trip(b, 28, rate * fw, 4);
        lemma_unit_round_trip(b, 32, fw, 2);
        lemma_unit_round_trip(b, 34, bits, 2);
        lemma_unit_round_trip(b, 40, dl, 4);
        assert(b.subrange(36, 40) =~= magic_seq(3));
        assert forall|k: int| 0 <= k < dl implies #[trigger] b.subrange(44, 44 + dl as int)[k]
            == data[k] by {
            assert(b[44 + k] == data[k]);
        }
        assert(b.subrange(44, 44 + dl as int) =~= data);
    } else {
        lemma_unit_round_trip(b, 16, 40, 4);
        lemma_unit_round_trip(b, 20, 0xFFFE, 2);
        lemma_unit_round_trip(b, 22, nch, 2);
        lemma_unit_round_trip(b, 24, rate, 4);
        lemma_unit_round_trip(b, 28, rate * fw, 4);
        lemma_unit_round_trip(b, 32, fw, 2);
        lemma_unit_round_trip(b, 34, bits, 2);
        lemma_unit_round_trip(b, 36, 22, 2);
        lemma_unit_round_trip(b, 38, bits, 2);
        lemma_unit_round_trip(b, 40, mask_val(h.channels@, 0), 4);
        lemma_unit_round_trip(b, 44, tag, 2);
        lemma_unit_round_trip(b, 64, dl, 4);
        assert(b.subrange(46, 60) =~= guid_tail_seq());
        assert(b.subrange(60, 64) =~= magic_seq(3));
        assert forall|k: int| 0 <= k < dl implies #[trigger] b.subrange(68, 68 + dl as int)[k]
            == data[k] by {
            assert(b[68 + k] == data[k]);
        }
        assert(b.subrange(68, 68 + dl as int) =~= data);
    }
}

/// The plain-layout half of the container round trip.
#[verifier::spinoff_prover]
#[verifier::rlimit(100)]
proof fn lemma_container_round_trip_plain(h: WavHeader, data: Seq<u8>)
    requires
        h.wf(),
        spec_fits_u32(h, data.len()),
        data.len() % h.spec_frame_width() == 0,
        spec_is_plain(h),
    ensures
        spec_parse_wav(spec_wav_bytes(h, data)) == Ok::<(WavHeader, Seq<u8>), FormatFault>(
            (h, data),
        ),
{
    lemma2_to64();
    lemma_mono_stereo_counts();
    lemma_round_trip_fields(h, data);
    let b = spec_wav_bytes(h, data);
    let dl = data.len();
    let fw = h.spec_frame_width();
    let nch = spec_active_count(h.channels@);
    let bits = h.sample_format.spec_bits_per_sample();
    let rate = h.sample_rate as nat;
    let tag = spec_tag(h.sample_format);
    assert(spec_format_of(tag, bits) == Some(h.sample_format));
    assert(rate as u32 == h.sample_rate);
    assert(b.len() >= 44 + dl);
    assert(tag == 1 || tag == 3);
    if h.channels == mono_channels() {
        assert(nch == 1);
    } else {
        assert(nch == 2);
    }
    let hp = WavHeader {
        sample_format: spec_format_of(tag, bits)->Some_0,
        channels: if nch == 1 {
            mono_channels()
        } else {
            stereo_channels()
        },
        sample_rate: rate as u32,
    };
    assert(hp == h);
    assert(spec_parse_plain(b) == Ok::<(WavHeader, Seq<u8>), FormatFault>((h, data)));
}

/// Each view element of a mask is the field at that canonical position.
#[verifier::spinoff_prover]
#[verifier::rlimit(100)]
proof fn lemma_channels_view_fields(c: Channels)
    ensures
        c@[0] == c.front_left,
        c@[1] == c.front_right,
        c@[2] == c.front_center,
        c@[3] == c.low_frequency,
        c@[4] == c.back_left,
        c@[5] == c.back_right,
        c@[6] == c.front_left_of_center,
        c@[7] == c.front_right_of_center,
        c@[8] == c.back_center,
        c@[9] == c.side_left,
        c@[10] == c.side_right,
        c@[11] == c.top_center,
        c@[12] == c.top_front_left,
        c@[13] == c.top_front_center,
        c@[14] == c.top_front_right,
        c@[15] == c.top_back_left,
        c@[16] == c.top_back_center,
        c@[17] == c.top_back_right,
{
}

/// The channel-mask round trip: rebuilding a mask struct from its own
/// mask word gives it back.
#[verifier::spinoff_prover]
#[verifier::rlimit(100)]
pub proof fn lemma_channels_mask_inverse(c: Channels)
    ensures
        channels_struct_of_mask(mask_val(c@, 0)) == c,
{
    lemma2_to64();
    let mv = mask_val(c@, 0);
    lemma_mask_val_digit(c@, 0, 0);
    lemma_mask_val_digit(c@, 0, 1);
    lemma_mask_val_digit(c@, 0, 2);
    lemma_mask_val_digit(c@, 0, 3);
    lemma_mask_val_digit(c@, 0, 4);
    lemma_mask_val_digit(c@, 0, 5);
    lemma_mask_val_digit(c@, 0, 6);
    lemma_mask_val_digit(c@, 0, 7);
    lemma_mask_val_digit(c@, 0, 8);
    lemma_mask_val_digit(c@, 0, 9);
    lemma_mask_val_digit(c@, 0, 10);
    lemma_mask_val_digit(c@, 0, 11);
    lemma_mask_val_digit(c@, 0, 12);
    lemma_mask_val_digit(c@, 0, 13);
    lemma_mask_val_digit(c@, 0, 14);
    lemma_mask_val_digit(c@, 0, 15);
    lemma_mask_val_digit(c@, 0, 16);
    lemma_mask_val_digit(c@, 0, 17);
    lemma_channels_view_fields(c);
}

/// The extensible-layout half of the container round trip.
#[verifier::spinoff_prover]
#[verifier::rlimit(100)]
proof fn lemma_container_round_trip_ext(h: WavHeader, data: Seq<u8>)
    requires
        h.wf(),
        spec_fits_u32(h, data.len()),
        data.len() % h.spec_frame_width() == 0,
        !spec_is_plain(h),
    ensures
        spec_parse_wav(spec_wav_bytes(h, data)) == Ok::<(WavHeader, Seq<u8>), FormatFault>(
            (h, data),
        ),
{
    lemma2_to64();
    lemma_mono_stereo_counts();
    lemma_round_trip_fields(h, data);
    let b = spec_wav_bytes(h, data);
    let dl = data.len();
    let fw = h.spec_frame_width();
    let nch = spec_active_count(h.channels@);
    let bits = h.sample_format.spec_bits_per_sample();
    let rate = h.sample_rate as nat;
    let tag = spec_tag(h.sample_format);
    assert(spec_format_of(tag, bits) == Some(h.sample_format));
    assert(rate as u32 == h.sample_rate);
    assert(b.len() >= 68 + dl);
    let mv = mask_val(h.channels@, 0);
    lemma_channels_mask_inverse(h.channels);
    let ch = channels_struct_of_mask(mv);
    assert(ch == h.channels);
    assert(spec_active_count(ch@) == nch);
    let hp = WavHeader {
        sample_format: spec_format_of(tag, bits)->Some_0,
        channels: ch,
        sample_rate: rate as u32,
    };
    assert(hp == h);
    assert(spec_parse_ext(b) == Ok::<(WavHeader, Seq<u8>), FormatFault>((h, data)));
}

/// The container round trip: parsing the canonical serialization of a
/// well-formed header over frame-aligned data recovers exactly that header
/// and that data.
pub proof fn lemma_container_round_trip(h: WavHeader, data: Seq<u8>)
    requires
        h.wf(),
        spec_fits_u32(h, data.len()),
        data.len() % h.spec_frame_width() == 0,
    ensures
        spec_parse_wav(spec_wav_bytes(h, data)) == Ok::<(WavHeader, Seq<u8>), FormatFault>(
            (h, data),
        ),
{
    if spec_is_plain(h) {
        lemma_container_round_trip_plain(h, data);
    } else {
        lemma_container_round_trip_ext(h, data);
    }
}

} // verus!
