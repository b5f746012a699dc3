//! Writer tests: the finalized header's patched size fields, the pad byte,
//! format validation, and range checking of written samples.

use hound::{Error, WavSpec, WavWriter};

fn u32_at(v: &[u8], pos: usize) -> u32 {
    u32::from_le_bytes([v[pos], v[pos + 1], v[pos + 2], v[pos + 3]])
}

fn u16_at(v: &[u8], pos: usize) -> u16 {
    u16::from_le_bytes([v[pos], v[pos + 1]])
}

#[test]
fn finalize_patches_sizes_for_even_data() {
    // Five 16-bit samples: the data chunk holds 10 bytes and needs no pad.
    let spec = WavSpec { channels: 1, sample_rate: 8000, bits_per_sample: 16 };
    let mut writer = WavWriter::new(spec).unwrap();
    for s in [1_i16, 2, 3, 4, 5] {
        writer.write_sample(s).unwrap();
    }
    let v = writer.finalize();
    assert_eq!(v.len(), 54);
    assert_eq!(u32_at(&v, 40), 10);
    assert_eq!(u32_at(&v, 4), 46);
}

#[test]
fn finalize_pads_odd_data_with_one_byte() {
    // Three 8-bit samples: the data chunk holds 3 bytes, so one pad byte
    // follows it, counted in the RIFF size but not in the data size.
    let spec = WavSpec { channels: 1, sample_rate: 8000, bits_per_sample: 8 };
    let mut writer = WavWriter::new(spec).unwrap();
    for s in [-1_i8, 0, 1] {
        writer.write_sample(s).unwrap();
    }
    let v = writer.finalize();
    assert_eq!(v.len(), 48);
    assert_eq!(u32_at(&v, 40), 3);
    assert_eq!(u32_at(&v, 4), 40);
    assert_eq!(v[47], 0);
}

#[test]
fn header_holds_the_format_fields() {
    let spec = WavSpec { channels: 2, sample_rate: 44100, bits_per_sample: 24 };
    let writer = WavWriter::new(spec).unwrap();
    assert_eq!(spec, writer.wav_spec());
    let v = writer.finalize();
    assert_eq!(&v[0..4], b"RIFF");
    assert_eq!(&v[8..12], b"WAVE");
    assert_eq!(&v[12..16], b"fmt ");
    assert_eq!(u32_at(&v, 16), 16);
    assert_eq!(u16_at(&v, 20), 1);
    assert_eq!(u16_at(&v, 22), 2);
    assert_eq!(u32_at(&v, 24), 44100);
    assert_eq!(u32_at(&v, 28), 44100 * 6);
    assert_eq!(u16_at(&v, 32), 6);
    assert_eq!(u16_at(&v, 34), 24);
    assert_eq!(&v[36..40], b"data");
    assert_eq!(u32_at(&v, 40), 0);
}

#[test]
fn rejects_format_with_zero_channels() {
    let spec = WavSpec { channels: 0, sample_rate: 8000, bits_per_sample: 16 };
    assert!(matches!(WavWriter::new(spec), Err(Error::Unsupported)));
}

#[test]
fn rejects_format_with_zero_sample_rate() {
    let spec = WavSpec { channels: 1, sample_rate: 0, bits_per_sample: 16 };
    assert!(matches!(WavWriter::new(spec), Err(Error::Unsupported)));
}

#[test]
fn rejects_format_with_unsupported_bit_depth() {
    let zero = WavSpec { channels: 1, sample_rate: 8000, bits_per_sample: 0 };
    assert!(matches!(WavWriter::new(zero), Err(Error::Unsupported)));
    let wide = WavSpec { channels: 1, sample_rate: 8000, bits_per_sample: 33 };
    assert!(matches!(WavWriter::new(wide), Err(Error::Unsupported)));
}

#[test]
fn rejects_format_whose_byte_rate_overflows_its_field() {
    // 65535 channels of 32-bit samples at 44.1 kHz: the block align fits no
    // u16 field, so the format cannot be written.
    let spec = WavSpec { channels: 65535, sample_rate: 44100, bits_per_sample: 32 };
    assert!(matches!(WavWriter::new(spec), Err(Error::Unsupported)));
}

#[test]
fn rejects_sample_outside_the_bit_depth() {
    let spec = WavSpec { channels: 1, sample_rate: 8000, bits_per_sample: 8 };
    let mut writer = WavWriter::new(spec).unwrap();
    assert_eq!(writer.write_sample(300_i16), Err(Error::TooWide));
    assert_eq!(writer.write_sample(-129_i16), Err(Error::TooWide));
    writer.write_sample(127_i16).unwrap();
    writer.write_sample(-128_i16).unwrap();
    let v = writer.finalize();
    assert_eq!(u32_at(&v, 40), 2);
}

#[test]
fn abandoned_writer_leaves_placeholder_sizes() {
    // A writer discarded without finalize leaves a zero-length data chunk
    // header even though sample bytes were appended.
    let spec = WavSpec { channels: 1, sample_rate: 8000, bits_per_sample: 16 };
    let mut writer = WavWriter::new(spec).unwrap();
    writer.write_sample(7_i16).unwrap();
    writer.write_sample(8_i16).unwrap();
    let v = writer.abandon();
    assert_eq!(v.len(), 48);
    assert_eq!(u32_at(&v, 4), 0);
    assert_eq!(u32_at(&v, 40), 0);
    assert_eq!(u16_at(&v, 44), 7);
    assert_eq!(u16_at(&v, 46), 8);
}

#[test]
fn twenty_four_bit_samples_occupy_three_bytes() {
    let spec = WavSpec { channels: 1, sample_rate: 8000, bits_per_sample: 24 };
    let mut writer = WavWriter::new(spec).unwrap();
    writer.write_sample(-1_i32).unwrap();
    writer.write_sample(1_i32).unwrap();
    let v = writer.finalize();
    assert_eq!(u32_at(&v, 40), 6);
    assert_eq!(&v[44..50], &[0xff, 0xff, 0xff, 1, 0, 0]);
}
