//! An engine for uncompressed WAV audio: parsing and serializing the
//! RIFF/fmt/data container, converting between on-disk sample encodings and
//! in-memory numeric values, mapping channel bitmasks to interleaved slots,
//! and random-access as well as streaming reads and writes over an in-memory
//! file image.
//!
//! Float samples are carried as their IEEE 754 bit patterns (`u32`); callers
//! that want `f32` values reinterpret the bits at the boundary.
use vstd::prelude::*;

pub mod channels;
pub mod codec;
pub mod container;
pub mod random_access;
pub mod header;
pub mod open_wav;

verus! {

/// Which header or container field failed validation.
#[derive(Clone, Copy, Debug, PartialEq, Eq, Structural)]
pub enum FormatFault {
    /// The file does not begin with "RIFF".
    BadRiffMagic,
    /// The form type after the RIFF size is not "WAVE".
    BadWaveMagic,
    /// The chunk after "WAVE" is not "fmt ".
    BadFmtMagic,
    /// The chunk after the format chunk is not "data".
    BadDataMagic,
    /// The file ends before a complete field.
    Truncated,
    /// The declared format-chunk size does not match its codec tag.
    BadFmtSize,
    /// The codec tag is not PCM, IEEE float, or extensible.
    BadCodecTag,
    /// The declared channel count is zero.
    ZeroChannels,
    /// The declared channel count disagrees with the channel mask.
    ChannelCountMismatch,
    /// A plain PCM/float header declares more than two channels.
    UnsupportedChannelCount,
    /// The declared sample rate is zero.
    ZeroSampleRate,
    /// Bits per sample disagree with the codec tag.
    BadBitsPerSample,
    /// Byte rate or block align disagree with the other fields.
    BadFrameGeometry,
    /// An extensible header carries an unknown sub-format identifier.
    BadSubFormat,
    /// The data-chunk length is not a whole number of frames.
    MisalignedDataLength,
}

/// Every failure the engine can report.
#[derive(Clone, Copy, Debug, PartialEq, Eq, Structural)]
pub enum WavError {
    /// Malformed or inconsistent header/container, found at parse time.
    Format(FormatFault),
    /// The requested in-memory representation cannot losslessly represent
    /// the on-disk format.
    UnsupportedConversion,
    /// A random-access index at or beyond the frame count.
    OutOfRange,
    /// A write omitted a value for a channel the mask marks active.
    MissingChannel,
    /// Underlying storage failure, reported by the caller's I/O layer.
    Io,
}

} // verus!
