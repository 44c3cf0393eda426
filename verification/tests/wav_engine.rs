use wavio::channels::{from_dense, to_dense, SamplesByChannel};
use wavio::container::parse_wav;
use wavio::header::{Channels, SampleFormat, WavHeader};
use wavio::open_wav::OpenWav;
use wavio::random_access::{f32_to_unit, unit_to_f32};
use wavio::{FormatFault, WavError};

fn mono() -> Channels {
    let mut c = Channels::none();
    c.front_left = true;
    c
}

fn stereo() -> Channels {
    let mut c = mono();
    c.front_right = true;
    c
}

fn only_front_left(bits: u32) -> SamplesByChannel<u32> {
    let mut s = SamplesByChannel::none();
    s.front_left = Some(bits);
    s
}

#[test]
fn float_mono_write_then_random_read() {
    let header = WavHeader {
        sample_format: SampleFormat::Float,
        channels: mono(),
        sample_rate: 8000,
    };
    let wav = OpenWav::open_for_write(header).unwrap();
    let mut writer = wav.get_random_access_f32_writer().unwrap();
    let values = [0.0f32, 0.5, -0.5, 1.0];
    for (i, v) in values.iter().enumerate() {
        writer.write_samples(i, &only_front_left(v.to_bits())).unwrap();
    }
    let image = writer.flush();
    let reopened = OpenWav::open_for_read(&image).unwrap();
    assert_eq!(reopened.total_frame_count(), 4);
    let reader = reopened.get_random_access_f32_reader().unwrap();
    let frame = reader.read_sample(2).unwrap();
    assert_eq!(frame.front_left, Some((-0.5f32).to_bits()));
    assert_eq!(frame.front_right, None);
}

#[test]
fn float_mono_stream_read_yields_sequence_then_stops() {
    let header = WavHeader {
        sample_format: SampleFormat::Float,
        channels: mono(),
        sample_rate: 8000,
    };
    let wav = OpenWav::open_for_write(header).unwrap();
    let mut writer = wav.get_random_access_f32_writer().unwrap();
    let values = [0.0f32, 0.5, -0.5, 1.0];
    for (i, v) in values.iter().enumerate() {
        writer.write_samples(i, &only_front_left(v.to_bits())).unwrap();
    }
    let image = writer.flush();
    let mut stream = OpenWav::open_for_read(&image)
        .unwrap()
        .get_stream_f32_reader()
        .unwrap();
    let mut seen = Vec::new();
    while let Some(frame) = stream.next_frame() {
        seen.push(f32::from_bits(frame.front_left.unwrap()));
    }
    assert_eq!(seen, vec![0.0f32, 0.5, -0.5, 1.0]);
    assert!(stream.next_frame().is_none());
}

#[test]
fn int16_stereo_saturating_disk_bytes() {
    let header = WavHeader {
        sample_format: SampleFormat::Int16,
        channels: stereo(),
        sample_rate: 44100,
    };
    let wav = OpenWav::open_for_write(header).unwrap();
    let mut writer = wav.get_random_access_f32_writer().unwrap();
    let mut s = SamplesByChannel::none();
    s.front_left = Some(1.0f32.to_bits());
    s.front_right = Some((-1.0f32).to_bits());
    writer.write_samples(0, &s).unwrap();
    let image = writer.flush();
    // plain stereo header is 44 bytes; the frame follows, front left first
    assert_eq!(&image[44..48], &[0xFF, 0x7F, 0x00, 0x80]);
}

#[test]
fn read_sample_boundary() {
    let header = WavHeader {
        sample_format: SampleFormat::Float,
        channels: mono(),
        sample_rate: 8000,
    };
    let wav = OpenWav::open_for_write(header).unwrap();
    let mut writer = wav.get_random_access_f32_writer().unwrap();
    for i in 0..3 {
        writer.write_samples(i, &only_front_left(0)).unwrap();
    }
    let image = writer.flush();
    let reader = OpenWav::open_for_read(&image)
        .unwrap()
        .get_random_access_f32_reader()
        .unwrap();
    let total = reader.total_frame_count();
    assert_eq!(total, 3);
    assert!(reader.read_sample(total - 1).is_ok());
    assert_eq!(reader.read_sample(total), Err(WavError::OutOfRange));
}

#[test]
fn widen_only_view_requests() {
    let mk = |fmt: SampleFormat| WavHeader {
        sample_format: fmt,
        channels: mono(),
        sample_rate: 8000,
    };
    // the float view is granted over every on-disk format
    for fmt in [
        SampleFormat::Int8,
        SampleFormat::Int16,
        SampleFormat::Int24,
        SampleFormat::Float,
    ] {
        let wav = OpenWav::open_for_write(mk(fmt)).unwrap();
        assert!(wav.get_random_access_f32_reader().is_ok());
    }
    // an integer view is granted only over exactly its own format
    let wav = OpenWav::open_for_write(mk(SampleFormat::Int16)).unwrap();
    assert!(wav.get_random_access_i16_reader().is_ok());
    let wav = OpenWav::open_for_write(mk(SampleFormat::Int16)).unwrap();
    assert_eq!(
        wav.get_random_access_i8_reader().err(),
        Some(WavError::UnsupportedConversion)
    );
    let wav = OpenWav::open_for_write(mk(SampleFormat::Int8)).unwrap();
    assert_eq!(
        wav.get_random_access_i16_reader().err(),
        Some(WavError::UnsupportedConversion)
    );
    // a float file never yields an integer view
    let wav = OpenWav::open_for_write(mk(SampleFormat::Float)).unwrap();
    assert_eq!(
        wav.get_random_access_i24_reader().err(),
        Some(WavError::UnsupportedConversion)
    );
}

#[test]
fn flush_twice_is_byte_identical() {
    let header = WavHeader {
        sample_format: SampleFormat::Int8,
        channels: mono(),
        sample_rate: 22050,
    };
    let wav = OpenWav::open_for_write(header).unwrap();
    let mut writer = wav.get_random_access_f32_writer().unwrap();
    writer.write_samples(0, &only_front_left(0.25f32.to_bits())).unwrap();
    let first = writer.flush();
    let second = writer.flush();
    assert_eq!(first, second);
}

#[test]
fn from_dense_populates_only_masked_channels() {
    let mask = stereo();
    let dense = vec![7u32, 9u32];
    let s = from_dense(&dense, &mask);
    assert_eq!(s.front_left, Some(7));
    assert_eq!(s.front_right, Some(9));
    assert_eq!(s.front_center, None);
    assert_eq!(s.low_frequency, None);
    assert_eq!(s.top_back_right, None);
}

#[test]
fn to_dense_rejects_missing_active_channel() {
    let mask = stereo();
    let mut s = SamplesByChannel::none();
    s.front_left = Some(1u32);
    assert_eq!(to_dense(&s, &mask), Err(WavError::MissingChannel));
    s.front_right = Some(2u32);
    assert_eq!(to_dense(&s, &mask), Ok(vec![1u32, 2u32]));
}

#[test]
fn native_int_reader_round_trip() {
    let header = WavHeader {
        sample_format: SampleFormat::Int16,
        channels: mono(),
        sample_rate: 44100,
    };
    let wav = OpenWav::open_for_write(header).unwrap();
    let mut writer = wav.get_random_access_f32_writer().unwrap();
    // 0.5 scales to exactly 16384 in a 16-bit file
    writer.write_samples(0, &only_front_left(0.5f32.to_bits())).unwrap();
    let image = writer.flush();
    let reader = OpenWav::open_for_read(&image)
        .unwrap()
        .get_random_access_i16_reader()
        .unwrap();
    let frame = reader.read_sample(0).unwrap();
    assert_eq!(frame.front_left, Some(16384));
}

#[test]
fn widening_matches_hardware_float_conversion() {
    for v in [-128i32, -1, 0, 1, 64, 127] {
        let unit = if v < 0 { (v + 0x100) as u32 } else { v as u32 };
        let expect = (v as f32 / 128.0).to_bits();
        assert_eq!(unit_to_f32(SampleFormat::Int8, unit), expect);
    }
    for v in [-32768i32, -12345, -1, 0, 1, 16384, 32767] {
        let unit = if v < 0 { (v + 0x10000) as u32 } else { v as u32 };
        let expect = (v as f32 / 32768.0).to_bits();
        assert_eq!(unit_to_f32(SampleFormat::Int16, unit), expect);
    }
    for v in [-0x800000i32, -99991, -1, 0, 1, 424242, 0x7FFFFF] {
        let unit = if v < 0 { (v + 0x1000000) as u32 } else { v as u32 };
        let expect = (v as f32 / 8388608.0).to_bits();
        assert_eq!(unit_to_f32(SampleFormat::Int24, unit), expect);
    }
}

#[test]
fn narrowing_rounds_and_saturates() {
    // the format extremes saturate
    assert_eq!(f32_to_unit(SampleFormat::Int16, 1.0f32.to_bits()), 32767);
    assert_eq!(f32_to_unit(SampleFormat::Int16, (-1.0f32).to_bits()), 0x8000);
    assert_eq!(f32_to_unit(SampleFormat::Int16, 2.5f32.to_bits()), 32767);
    assert_eq!(f32_to_unit(SampleFormat::Int16, (-3.0f32).to_bits()), 0x8000);
    // representable values come back exactly
    assert_eq!(f32_to_unit(SampleFormat::Int16, 0.5f32.to_bits()), 16384);
    assert_eq!(f32_to_unit(SampleFormat::Int8, (-0.5f32).to_bits()), (0x100 - 64) as u32);
    // zero and subnormals collapse to zero
    assert_eq!(f32_to_unit(SampleFormat::Int24, 0.0f32.to_bits()), 0);
    assert_eq!(f32_to_unit(SampleFormat::Int24, f32::MIN_POSITIVE.to_bits() >> 1), 0);
}

#[test]
fn multichannel_header_survives_serialization() {
    let mut channels = stereo();
    channels.low_frequency = true;
    channels.top_back_right = true;
    let header = WavHeader {
        sample_format: SampleFormat::Int24,
        channels,
        sample_rate: 48000,
    };
    let wav = OpenWav::open_for_write(header).unwrap();
    let mut writer = wav.get_random_access_f32_writer().unwrap();
    let mut s = SamplesByChannel::none();
    s.front_left = Some(0.25f32.to_bits());
    s.front_right = Some((-0.25f32).to_bits());
    s.low_frequency = Some(0.0f32.to_bits());
    s.top_back_right = Some((-1.0f32).to_bits());
    writer.write_samples(0, &s).unwrap();
    let image = writer.flush();
    let reopened = OpenWav::open_for_read(&image).unwrap();
    assert_eq!(reopened.sample_format(), SampleFormat::Int24);
    assert_eq!(reopened.sample_rate(), 48000);
    assert_eq!(reopened.num_channels(), 4);
    assert_eq!(reopened.channels(), channels);
    let reader = reopened.get_random_access_f32_reader().unwrap();
    let frame = reader.read_sample(0).unwrap();
    assert_eq!(frame.front_left, Some(0.25f32.to_bits()));
    assert_eq!(frame.front_right, Some((-0.25f32).to_bits()));
    assert_eq!(frame.low_frequency, Some(0.0f32.to_bits()));
    assert_eq!(frame.top_back_right, Some((-1.0f32).to_bits()));
    assert_eq!(frame.front_center, None);
}

#[test]
fn sparse_write_zero_fills_gaps() {
    let header = WavHeader {
        sample_format: SampleFormat::Float,
        channels: mono(),
        sample_rate: 8000,
    };
    let wav = OpenWav::open_for_write(header).unwrap();
    let mut writer = wav.get_random_access_f32_writer().unwrap();
    writer.write_samples(2, &only_front_left(1.0f32.to_bits())).unwrap();
    assert_eq!(writer.total_frame_count(), 3);
    let image = writer.flush();
    let reader = OpenWav::open_for_read(&image)
        .unwrap()
        .get_random_access_f32_reader()
        .unwrap();
    assert_eq!(reader.read_sample(0).unwrap().front_left, Some(0));
    assert_eq!(reader.read_sample(1).unwrap().front_left, Some(0));
    assert_eq!(
        reader.read_sample(2).unwrap().front_left,
        Some(1.0f32.to_bits())
    );
}

#[test]
fn parse_rejects_malformed_containers() {
    assert_eq!(
        parse_wav(&vec![0u8; 10]),
        Err(WavError::Format(FormatFault::Truncated))
    );
    let mut bad_magic = vec![0u8; 44];
    bad_magic[0] = b'X';
    assert_eq!(
        parse_wav(&bad_magic),
        Err(WavError::Format(FormatFault::BadRiffMagic))
    );
    // a well-formed image, then corrupted one field at a time
    let header = WavHeader {
        sample_format: SampleFormat::Int16,
        channels: mono(),
        sample_rate: 44100,
    };
    let wav = OpenWav::open_for_write(header).unwrap();
    let mut writer = wav.get_random_access_f32_writer().unwrap();
    writer.write_samples(0, &only_front_left(0)).unwrap();
    let good = writer.flush();
    assert!(parse_wav(&good).is_ok());
    let mut zero_rate = good.clone();
    zero_rate[24] = 0;
    zero_rate[25] = 0;
    zero_rate[26] = 0;
    zero_rate[27] = 0;
    assert_eq!(
        parse_wav(&zero_rate),
        Err(WavError::Format(FormatFault::ZeroSampleRate))
    );
    let mut bad_align = good.clone();
    bad_align[32] = 7;
    assert_eq!(
        parse_wav(&bad_align),
        Err(WavError::Format(FormatFault::BadFrameGeometry))
    );
    let mut bad_tag = good.clone();
    bad_tag[20] = 9;
    assert_eq!(
        parse_wav(&bad_tag),
        Err(WavError::Format(FormatFault::BadCodecTag))
    );
}

#[test]
fn open_for_write_validates_header() {
    let no_channels = WavHeader {
        sample_format: SampleFormat::Float,
        channels: Channels::none(),
        sample_rate: 8000,
    };
    assert!(matches!(
        OpenWav::open_for_write(no_channels),
        Err(WavError::Format(FormatFault::ZeroChannels))
    ));
    let zero_rate = WavHeader {
        sample_format: SampleFormat::Float,
        channels: mono(),
        sample_rate: 0,
    };
    assert!(matches!(
        OpenWav::open_for_write(zero_rate),
        Err(WavError::Format(FormatFault::ZeroSampleRate))
    ));
}
