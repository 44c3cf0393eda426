//! Open/create orchestration and the typed sample views. A handle owns the
//! validated header and the in-memory file image; requesting a view moves
//! the handle into the view, so the random-access and streaming disciplines
//! can never share one file cursor. View requests obey the widen-only rule:
//! the f32 view is granted over every on-disk format, an integer view only
//! over exactly its own format.
use vstd::prelude::*;

use vstd::arithmetic::power2::pow2;

use crate::channels::{covers_mask, spec_to_dense, to_dense, SamplesByChannel};
use crate::codec::{as_signed, i16_of_unit, i24_of_unit, i8_of_unit, lemma_unit_at_bound};
use crate::container::{parse_wav, spec_parse_wav, spec_wav_bytes, wav_bytes};
use crate::header::{spec_active_count, Channels, SampleFormat, WavHeader};
use crate::channels::spec_from_dense;
use crate::random_access::{
    extend_for_frame, f32_to_unit, read_dense_units, read_frame_f32, slot_unit,
    spec_engine_wf, spec_f32_to_unit, spec_frame_count, spec_read_frame_f32,
    spec_written, write_dense_units,
};
use crate::{FormatFault, WavError};

verus! {

/// The in-memory numeric representation a caller asks a view for.
#[derive(Clone, Copy, Debug, PartialEq, Eq, Structural)]
pub enum SampleType {
    Int8,
    Int16,
    Int24,
    Float32,
}

impl SampleType {
    /// The bit width of the requested representation.
    pub open spec fn spec_bits(self) -> nat {
        match self {
            SampleType::Int8 => 8,
            SampleType::Int16 => 16,
            SampleType::Int24 => 24,
            SampleType::Float32 => 32,
        }
    }
}

/// Which view requests are granted: the float view over every format, an
/// integer view only over exactly its own on-disk format.
pub open spec fn conversion_allowed(disk: SampleFormat, req: SampleType) -> bool {
    match req {
        SampleType::Float32 => true,
        SampleType::Int8 => disk == SampleFormat::Int8,
        SampleType::Int16 => disk == SampleFormat::Int16,
        SampleType::Int24 => disk == SampleFormat::Int24,
    }
}

/// The widen-only law: a view is granted only when the requested
/// representation can losslessly hold the on-disk format — the float view,
/// or the identical integer width — and never when the requested width or
/// kind falls below the on-disk one. In particular a float file never
/// yields an integer view, and no integer file yields a narrower or wider
/// integer view than its own.
pub proof fn lemma_widen_only(disk: SampleFormat, req: SampleType)
    ensures
        conversion_allowed(disk, req) ==> req == SampleType::Float32 || (disk
            != SampleFormat::Float && req.spec_bits() == disk.spec_bits_per_sample()),
        !(req == SampleType::Float32 || (disk != SampleFormat::Float && req.spec_bits()
            >= disk.spec_bits_per_sample())) ==> !conversion_allowed(disk, req),
        disk == SampleFormat::Float && req != SampleType::Float32 ==> !conversion_allowed(
            disk,
            req,
        ),
{
}

/// An open WAV file: the validated header and the raw data-chunk bytes.
/// At most one reader or writer view can ever be drawn from it, because
/// each view request consumes the handle.
pub struct OpenWav {
    header: WavHeader,
    data: Vec<u8>,
}

/// A random-access reader handing out single-precision bit patterns,
/// widened exactly from whatever the on-disk format stores.
pub struct RandomAccessF32Reader {
    header: WavHeader,
    data: Vec<u8>,
}

/// A random-access reader handing out native integer samples, sign
/// extended into `i32`, for a file whose on-disk format is an integer one.
pub struct RandomAccessIntReader {
    header: WavHeader,
    data: Vec<u8>,
}

/// A random-access writer taking single-precision bit patterns and storing
/// them in the on-disk format, rounded and saturated where it is narrower.
pub struct RandomAccessF32Writer {
    header: WavHeader,
    data: Vec<u8>,
}

/// A sequential reader over the same image: each call yields the next
/// frame as single-precision bit patterns until the frames run out.
pub struct StreamF32Reader {
    header: WavHeader,
    data: Vec<u8>,
    pos: usize,
}

impl OpenWav {
    /// The validated header.
    pub closed spec fn spec_header(self) -> WavHeader {
        self.header
    }

    /// The raw data-chunk bytes.
    pub closed spec fn spec_data(self) -> Seq<u8> {
        self.data@
    }

    /// The handle invariant.
    pub open spec fn wf(self) -> bool {
        spec_engine_wf(self.spec_header(), self.spec_data())
    }

    /// Parses a file image and hands back a handle over it. Fails with the
    /// first container fault the bytes show, and with `Truncated` when the
    /// data chunk is too large for the container's size fields.
    pub fn open_for_read(bytes: &Vec<u8>) -> (r: Result<OpenWav, WavError>)
        ensures
            (r matches Ok(w) ==> spec_parse_wav(bytes@) matches Ok(p) && w.spec_header()
                == p.0 && w.spec_data() == p.1 && w.wf()),
            (r is Ok) == (spec_parse_wav(bytes@) matches Ok(p) && p.1.len() + 68
                <= u32::MAX),
            (r matches Err(e) ==> (spec_parse_wav(bytes@) matches Err(f) && e
                == WavError::Format(f)) || e == WavError::Format(FormatFault::Truncated)),
    {
        let (header, data) = match parse_wav(bytes) {
            Ok(p) => p,
            Err(e) => {
                return Err(e);
            },
        };
        if data.len() > (0xFFFFFFFFu64 - 68) as usize {
            return Err(WavError::Format(FormatFault::Truncated));
        }
        proof {
            lemma_unit_at_bound(bytes@, 28, 4);
            vstd::arithmetic::power2::lemma2_to64();
        }
        Ok(OpenWav { header, data })
    }

    /// Validates a caller-built header and hands back a handle over an
    /// empty data chunk.
    pub fn open_for_write(header: WavHeader) -> (r: Result<OpenWav, WavError>)
        ensures
            (r is Ok) == (header.wf() && header.sample_rate * header.spec_frame_width()
                <= u32::MAX),
            (r matches Ok(w) ==> w.spec_header() == header && w.spec_data() == Seq::<
                u8,
            >::empty() && w.wf()),
            (r matches Err(e) ==> e == WavError::Format(FormatFault::ZeroChannels) || e
                == WavError::Format(FormatFault::ZeroSampleRate) || e == WavError::Format(
                FormatFault::BadFrameGeometry,
            )),
    {
        if !header.channels.any_active() {
            return Err(WavError::Format(FormatFault::ZeroChannels));
        }
        if header.sample_rate == 0 {
            return Err(WavError::Format(FormatFault::ZeroSampleRate));
        }
        let fw = header.frame_width();
        proof {
            assert((header.sample_rate as int) * (fw as int) <= 0xFFFFFFFF * 72)
                by (nonlinear_arith)
                requires
                    header.sample_rate <= 0xFFFFFFFF,
                    0 <= fw <= 72,
            ;
        }
        if (header.sample_rate as u64) * (fw as u64) > 0xFFFFFFFFu64 {
            return Err(WavError::Format(FormatFault::BadFrameGeometry));
        }
        let data: Vec<u8> = Vec::new();
        proof {
            assert(data@ =~= Seq::<u8>::empty());
        }
        Ok(OpenWav { header, data })
    }

    /// The channel mask of the open file.
    pub fn channels(&self) -> (r: Channels)
        ensures
            r == self.spec_header().channels,
    {
        self.header.channels
    }

    /// The on-disk sample format of the open file.
    pub fn sample_format(&self) -> (r: SampleFormat)
        ensures
            r == self.spec_header().sample_format,
    {
        self.header.sample_format
    }

    /// The sample rate of the open file.
    pub fn sample_rate(&self) -> (r: u32)
        ensures
            r == self.spec_header().sample_rate,
    {
        self.header.sample_rate
    }

    /// Bits per on-disk sample.
    pub fn bits_per_sample(&self) -> (r: u16)
        ensures
            r == self.spec_header().sample_format.spec_bits_per_sample(),
    {
        self.header.sample_format.bits_per_sample()
    }

    /// How many channels the mask marks active.
    pub fn num_channels(&self) -> (r: usize)
        ensures
            r == spec_active_count(self.spec_header().channels@),
    {
        self.header.channels.active_count()
    }

    /// How many whole frames the data chunk holds.
    pub fn total_frame_count(&self) -> (r: usize)
        requires
            self.wf(),
        ensures
            r == spec_frame_count(self.spec_header(), self.spec_data().len()),
    {
        self.data.len() / self.header.frame_width()
    }

    /// The f32 random-access reader view: granted over every on-disk
    /// format, per the widen-only rule.
    pub fn get_random_access_f32_reader(self) -> (r: Result<RandomAccessF32Reader, WavError>)
        requires
            self.wf(),
        ensures
            r matches Ok(v) && v.spec_header() == self.spec_header() && v.spec_data()
                == self.spec_data() && v.wf(),
    {
        Ok(RandomAccessF32Reader { header: self.header, data: self.data })
    }

    /// The f32 random-access writer view: granted over every on-disk
    /// format, per the widen-only rule.
    pub fn get_random_access_f32_writer(self) -> (r: Result<RandomAccessF32Writer, WavError>)
        requires
            self.wf(),
        ensures
            r matches Ok(v) && v.spec_header() == self.spec_header() && v.spec_data()
                == self.spec_data() && v.wf(),
    {
        Ok(RandomAccessF32Writer { header: self.header, data: self.data })
    }

    /// The f32 streaming reader view, its cursor at the first frame.
    pub fn get_stream_f32_reader(self) -> (r: Result<StreamF32Reader, WavError>)
        requires
            self.wf(),
        ensures
            r matches Ok(v) && v.spec_header() == self.spec_header() && v.spec_data()
                == self.spec_data() && v.spec_pos() == 0 && v.wf(),
    {
        Ok(StreamF32Reader { header: self.header, data: self.data, pos: 0 })
    }

    /// The native 8-bit reader view: granted only over an 8-bit file.
    pub fn get_random_access_i8_reader(self) -> (r: Result<RandomAccessIntReader, WavError>)
        requires
            self.wf(),
        ensures
            (r is Ok) == conversion_allowed(self.spec_header().sample_format, SampleType::Int8),
            (r matches Ok(v) ==> v.spec_header() == self.spec_header() && v.spec_data()
                == self.spec_data() && v.wf()),
            (r matches Err(e) ==> e == WavError::UnsupportedConversion),
    {
        if !matches!(self.header.sample_format, SampleFormat::Int8) {
            return Err(WavError::UnsupportedConversion);
        }
        Ok(RandomAccessIntReader { header: self.header, data: self.data })
    }

    /// The native 16-bit reader view: granted only over a 16-bit file.
    pub fn get_random_access_i16_reader(self) -> (r: Result<RandomAccessIntReader, WavError>)
        requires
            self.wf(),
        ensures
            (r is Ok) == conversion_allowed(self.spec_header().sample_format, SampleType::Int16),
            (r matches Ok(v) ==> v.spec_header() == self.spec_header() && v.spec_data()
                == self.spec_data() && v.wf()),
            (r matches Err(e) ==> e == WavError::UnsupportedConversion),
    {
        if !matches!(self.header.sample_format, SampleFormat::Int16) {
            return Err(WavError::UnsupportedConversion);
        }
        Ok(RandomAccessIntReader { header: self.header, data: self.data })
    }

    /// The native 24-bit reader view: granted only over a 24-bit file.
    pub fn get_random_access_i24_reader(self) -> (r: Result<RandomAccessIntReader, WavError>)
        requires
            self.wf(),
        ensures
            (r is Ok) == conversion_allowed(self.spec_header().sample_format, SampleType::Int24),
            (r matches Ok(v) ==> v.spec_header() == self.spec_header() && v.spec_data()
                == self.spec_data() && v.wf()),
            (r matches Err(e) ==> e == WavError::UnsupportedConversion),
    {
        if !matches!(self.header.sample_format, SampleFormat::Int24) {
            return Err(WavError::UnsupportedConversion);
        }
        Ok(RandomAccessIntReader { header: self.header, data: self.data })
    }
}


/// The sparse record an integer view reads out of frame `frame`: the
/// sign-extended native sample at every active channel.
pub open spec fn spec_read_frame_int(h: WavHeader, data: Seq<u8>, frame: int) -> Seq<
    Option<i32>,
> {
    spec_from_dense(
        Seq::new(
            spec_active_count(h.channels@),
            |s: int|
                as_signed(
                    slot_unit(h, data, frame, s),
                    pow2(8 * h.sample_format.spec_unit_width()),
                ) as i32,
        ),
        h.channels@,
    )
}

/// The dense raw units that writing the sparse f32 record `s` stores: each
/// active channel's bit pattern, narrowed to the on-disk format.
pub open spec fn spec_frame_units_f32(h: WavHeader, s: Seq<Option<u32>>) -> Seq<u32> {
    Seq::new(
        spec_active_count(h.channels@),
        |k: int| spec_f32_to_unit(h.sample_format, spec_to_dense(s, h.channels@)[k]) as u32,
    )
}

impl RandomAccessF32Reader {
    /// The header this view was opened over.
    pub closed spec fn spec_header(self) -> WavHeader {
        self.header
    }

    /// The raw data-chunk bytes.
    pub closed spec fn spec_data(self) -> Seq<u8> {
        self.data@
    }

    /// The view invariant.
    pub open spec fn wf(self) -> bool {
        spec_engine_wf(self.spec_header(), self.spec_data())
    }

    /// How many whole frames the data chunk holds.
    pub fn total_frame_count(&self) -> (r: usize)
        requires
            self.wf(),
        ensures
            r == spec_frame_count(self.spec_header(), self.spec_data().len()),
    {
        self.data.len() / self.header.frame_width()
    }

    /// Reads one frame by index: every active channel carries the widened
    /// bit pattern of its stored sample, every other channel is absent.
    /// Fails with `OutOfRange` exactly when the index is at or beyond the
    /// frame count.
    pub fn read_sample(&self, frame: usize) -> (r: Result<SamplesByChannel<u32>, WavError>)
        requires
            self.wf(),
        ensures
            (r is Ok) == ((frame as int) < spec_frame_count(
                self.spec_header(),
                self.spec_data().len(),
            )),
            (r matches Ok(s) ==> s@ == spec_read_frame_f32(
                self.spec_header(),
                self.spec_data(),
                frame as int,
            )),
            (r matches Err(e) ==> e == WavError::OutOfRange),
    {
        let fw = self.header.frame_width();
        if frame >= self.data.len() / fw {
            return Err(WavError::OutOfRange);
        }
        Ok(read_frame_f32(&self.header, &self.data, frame))
    }
}

impl RandomAccessIntReader {
    /// The header this view was opened over.
    pub closed spec fn spec_header(self) -> WavHeader {
        self.header
    }

    /// The raw data-chunk bytes.
    pub closed spec fn spec_data(self) -> Seq<u8> {
        self.data@
    }

    /// The view invariant.
    pub open spec fn wf(self) -> bool {
        spec_engine_wf(self.spec_header(), self.spec_data())
    }

    /// How many whole frames the data chunk holds.
    pub fn total_frame_count(&self) -> (r: usize)
        requires
            self.wf(),
        ensures
            r == spec_frame_count(self.spec_header(), self.spec_data().len()),
    {
        self.data.len() / self.header.frame_width()
    }

    /// Reads one frame by index: every active channel carries its native
    /// sample, sign extended into `i32`, every other channel is absent.
    /// Fails with `OutOfRange` exactly when the index is at or beyond the
    /// frame count.
    pub fn read_sample(&self, frame: usize) -> (r: Result<SamplesByChannel<i32>, WavError>)
        requires
            self.wf(),
            self.spec_header().sample_format != SampleFormat::Float,
        ensures
            (r is Ok) == ((frame as int) < spec_frame_count(
                self.spec_header(),
                self.spec_data().len(),
            )),
            (r matches Ok(s) ==> s@ == spec_read_frame_int(
                self.spec_header(),
                self.spec_data(),
                frame as int,
            )),
            (r matches Err(e) ==> e == WavError::OutOfRange),
    {
        proof {
            vstd::arithmetic::power2::lemma2_to64();
        }
        let fw = self.header.frame_width();
        if frame >= self.data.len() / fw {
            return Err(WavError::OutOfRange);
        }
        let units = read_dense_units(&self.header, &self.data, frame);
        let fmt = self.header.sample_format;
        let mut conv: Vec<i32> = Vec::new();
        let mut s: usize = 0;
        while s < units.len()
            invariant
                s <= units@.len(),
                fmt == self.header.sample_format,
                fmt != SampleFormat::Float,
                units@ == crate::random_access::spec_dense_units(
                    self.header,
                    self.data@,
                    frame as int,
                ),
                forall|k: int|
                    0 <= k < units@.len() ==> #[trigger] units@[k] < pow2(
                        8 * self.header.sample_format.spec_unit_width(),
                    ),
                conv@.len() == s,
                forall|k: int|
                    0 <= k < s ==> #[trigger] conv@[k] as int == as_signed(
                        units@[k] as nat,
                        pow2(8 * self.header.sample_format.spec_unit_width()),
                    ),
            decreases units@.len() - s,
        {
            proof {
                vstd::arithmetic::power2::lemma2_to64();
            }
            let c: i32 = match fmt {
                SampleFormat::Int8 => i8_of_unit(units[s]) as i32,
                SampleFormat::Int16 => i16_of_unit(units[s]) as i32,
                _ => i24_of_unit(units[s]),
            };
            conv.push(c);
            s = s + 1;
        }
        proof {
            vstd::arithmetic::power2::lemma2_to64();
            let uw = self.header.sample_format.spec_unit_width();
            assert forall|k: int| 0 <= k < conv@.len() implies slot_unit(
                self.header,
                self.data@,
                frame as int,
                k,
            ) < pow2(8 * uw) by {
                lemma_unit_at_bound(
                    self.data@,
                    (frame as int) * (self.header.spec_frame_width() as int) + k * (uw as int),
                    uw,
                );
            }
            assert(conv@ =~= Seq::new(
                spec_active_count(self.header.channels@),
                |k: int|
                    as_signed(
                        slot_unit(self.header, self.data@, frame as int, k),
                        pow2(8 * self.header.sample_format.spec_unit_width()),
                    ) as i32,
            ));
        }
        Ok(crate::channels::from_dense(&conv, &self.header.channels))
    }
}

impl RandomAccessF32Writer {
    /// The header this view was opened over.
    pub closed spec fn spec_header(self) -> WavHeader {
        self.header
    }

    /// The raw data-chunk bytes.
    pub closed spec fn spec_data(self) -> Seq<u8> {
        self.data@
    }

    /// The view invariant.
    pub open spec fn wf(self) -> bool {
        spec_engine_wf(self.spec_header(), self.spec_data())
    }

    /// How many whole frames the data chunk holds.
    pub fn total_frame_count(&self) -> (r: usize)
        requires
            self.wf(),
        ensures
            r == spec_frame_count(self.spec_header(), self.spec_data().len()),
    {
        self.data.len() / self.header.frame_width()
    }

    /// Writes one frame at an arbitrary index, narrowing each channel's bit
    /// pattern to the on-disk format. The data is zero-extended with whole
    /// silent frames wherever the index lies beyond the current end. Fails
    /// with `MissingChannel`, leaving the image untouched, exactly when
    /// some active channel carries no value; values at inactive channels
    /// are ignored.
    pub fn write_samples(&mut self, frame: usize, s: &SamplesByChannel<u32>) -> (r: Result<
        (),
        WavError,
    >)
        requires
            old(self).wf(),
            (frame + 1) * old(self).spec_header().spec_frame_width() <= u32::MAX - 68,
        ensures
            final(self).spec_header() == old(self).spec_header(),
            final(self).wf(),
            (r is Ok) == covers_mask(s@, old(self).spec_header().channels@),
            (r matches Ok(u) ==> final(self).spec_data() == spec_written(
                old(self).spec_header(),
                old(self).spec_data(),
                frame as int,
                spec_frame_units_f32(old(self).spec_header(), s@),
            )),
            (r is Err ==> final(self).spec_data() == old(self).spec_data() && r == Err::<
                (),
                WavError,
            >(WavError::MissingChannel)),
    {
        let h = self.header;
        let dense = match to_dense(s, &h.channels) {
            Ok(d) => d,
            Err(_) => {
                return Err(WavError::MissingChannel);
            },
        };
        let fmt = h.sample_format;
        let mut units: Vec<u32> = Vec::new();
        let mut k: usize = 0;
        while k < dense.len()
            invariant
                k <= dense@.len(),
                fmt == h.sample_format,
                dense@ == spec_to_dense(s@, h.channels@),
                units@.len() == k,
                forall|j: int|
                    0 <= j < k ==> #[trigger] units@[j] as nat == spec_f32_to_unit(
                        h.sample_format,
                        dense@[j],
                    ) && units@[j] < pow2(8 * h.sample_format.spec_unit_width()),
            decreases dense@.len() - k,
        {
            let u = f32_to_unit(fmt, dense[k]);
            units.push(u);
            k = k + 1;
        }
        proof {
            crate::channels::lemma_dense_prefix_full(s@, h.channels@);
            crate::channels::lemma_dense_prefix_len(
                s@,
                h.channels@,
                crate::header::CHANNEL_COUNT as int,
            );
            assert(units@ =~= spec_frame_units_f32(h, s@));
        }
        let ghost orig = self.data@;
        extend_for_frame(&h, &mut self.data, frame);
        write_dense_units(&h, &mut self.data, frame, &units);
        proof {
            let fw = h.spec_frame_width() as int;
            let padded = crate::random_access::spec_padded(
                orig,
                ((frame + 1) * fw) as nat,
            );
            assert(self.data@ =~= spec_written(h, orig, frame as int, units@));
        }
        Ok(())
    }

    /// The complete file image of the current state: the canonical header
    /// over the data written so far, ready to be persisted as one WAV
    /// file. Flushing mutates nothing, so flushing twice in a row without
    /// an intervening write yields byte-identical images.
    pub fn flush(&self) -> (r: Vec<u8>)
        requires
            self.wf(),
        ensures
            r@ == spec_wav_bytes(self.spec_header(), self.spec_data()),
    {
        proof {
            vstd::arithmetic::power2::lemma2_to64();
        }
        wav_bytes(&self.header, &self.data)
    }
}

/// The flush-idempotence law: two flushes of one writer state, with no
/// write between them, produce byte-identical file images.
pub proof fn lemma_flush_idempotent(w: RandomAccessF32Writer, first: Seq<u8>, second: Seq<u8>)
    requires
        first == spec_wav_bytes(w.spec_header(), w.spec_data()),
        second == spec_wav_bytes(w.spec_header(), w.spec_data()),
    ensures
        first == second,
{
}

impl StreamF32Reader {
    /// The header this view was opened over.
    pub closed spec fn spec_header(self) -> WavHeader {
        self.header
    }

    /// The raw data-chunk bytes.
    pub closed spec fn spec_data(self) -> Seq<u8> {
        self.data@
    }

    /// The sequential cursor: the index of the next frame to yield.
    pub closed spec fn spec_pos(self) -> nat {
        self.pos as nat
    }

    /// The view invariant.
    pub open spec fn wf(self) -> bool {
        spec_engine_wf(self.spec_header(), self.spec_data())
    }

    /// How many whole frames the data chunk holds.
    pub fn total_frame_count(&self) -> (r: usize)
        requires
            self.wf(),
        ensures
            r == spec_frame_count(self.spec_header(), self.spec_data().len()),
    {
        self.data.len() / self.header.frame_width()
    }

    /// Yields the next frame and advances the cursor by exactly one frame;
    /// once the cursor reaches the frame count, yields nothing and leaves
    /// the cursor where it is. Running out of frames is not an error.
    pub fn next_frame(&mut self) -> (r: Option<SamplesByChannel<u32>>)
        requires
            old(self).wf(),
        ensures
            final(self).spec_header() == old(self).spec_header(),
            final(self).spec_data() == old(self).spec_data(),
            final(self).wf(),
            (old(self).spec_pos() < spec_frame_count(
                old(self).spec_header(),
                old(self).spec_data().len(),
            ) ==> (r matches Some(s) && s@ == spec_read_frame_f32(
                old(self).spec_header(),
                old(self).spec_data(),
                old(self).spec_pos() as int,
            ) && final(self).spec_pos() == old(self).spec_pos() + 1)),
            (old(self).spec_pos() >= spec_frame_count(
                old(self).spec_header(),
                old(self).spec_data().len(),
            ) ==> r is None && final(self).spec_pos() == old(self).spec_pos()),
    {
        let fw = self.header.frame_width();
        let count = self.data.len() / fw;
        if self.pos < count {
            let rec = read_frame_f32(&self.header, &self.data, self.pos);
            self.pos = self.pos + 1;
            Some(rec)
        } else {
            None
        }
    }
}

} // verus!
