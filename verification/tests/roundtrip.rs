//! Round-trip tests: writing samples and reading the finalized stream back
//! reproduces the format and the exact sample sequence.

use hound::{Sample, WavReader, WavSpec, WavWriter};

fn round_trip<S: Sample + PartialEq + core::fmt::Debug>(spec: WavSpec, samples: &[S]) {
    let mut writer = WavWriter::new(spec).unwrap();
    for &s in samples {
        writer.write_sample(s).unwrap();
    }
    let buffer = writer.finalize();
    let mut reader = WavReader::new(buffer).unwrap();
    assert_eq!(spec, reader.wav_spec());
    assert_eq!(samples.len(), reader.num_samples());
    for &expected in samples {
        let got: S = reader.next_sample().unwrap().unwrap();
        assert_eq!(expected, got);
    }
    assert!(reader.next_sample::<S>().is_none());
}

#[test]
fn write_read_is_lossless() {
    let write_spec = WavSpec {
        channels: 2,
        sample_rate: 44100,
        bits_per_sample: 16,
    };

    let mut writer = WavWriter::new(write_spec).unwrap();
    for s in -1024_i16..1024 {
        writer.write_sample(s).unwrap();
    }
    let buffer = writer.finalize();

    let mut reader = WavReader::new(buffer).unwrap();
    assert_eq!(write_spec, reader.wav_spec());
    for expected in -1024_i16..1024 {
        let read: i16 = reader.next_sample().unwrap().unwrap();
        assert_eq!(expected, read);
    }
}

#[test]
fn round_trip_mono_8_bit() {
    let spec = WavSpec { channels: 1, sample_rate: 8000, bits_per_sample: 8 };
    round_trip::<i8>(spec, &[-128, -1, 0, 1, 127]);
}

#[test]
fn round_trip_stereo_16_bit() {
    let spec = WavSpec { channels: 2, sample_rate: 44100, bits_per_sample: 16 };
    round_trip::<i16>(spec, &[-32768, -257, -1, 0, 1, 256, 32767, 12345]);
}

#[test]
fn round_trip_mono_24_bit() {
    let spec = WavSpec { channels: 1, sample_rate: 48000, bits_per_sample: 24 };
    round_trip::<i32>(spec, &[-8388608, -65537, -1, 0, 1, 65536, 8388607]);
}

#[test]
fn round_trip_mono_32_bit() {
    let spec = WavSpec { channels: 1, sample_rate: 96000, bits_per_sample: 32 };
    round_trip::<i32>(spec, &[i32::MIN, -1, 0, 1, i32::MAX, 123456789, -987654321]);
}

#[test]
fn boundary_values_survive_each_depth() {
    round_trip::<i8>(
        WavSpec { channels: 1, sample_rate: 100, bits_per_sample: 8 },
        &[i8::MIN, i8::MAX],
    );
    round_trip::<i16>(
        WavSpec { channels: 1, sample_rate: 100, bits_per_sample: 16 },
        &[i16::MIN, i16::MAX],
    );
    round_trip::<i32>(
        WavSpec { channels: 1, sample_rate: 100, bits_per_sample: 24 },
        &[-8388608, 8388607],
    );
    round_trip::<i32>(
        WavSpec { channels: 1, sample_rate: 100, bits_per_sample: 32 },
        &[i32::MIN, i32::MAX],
    );
}

#[test]
fn narrow_samples_read_into_wider_types() {
    let spec = WavSpec { channels: 1, sample_rate: 8000, bits_per_sample: 16 };
    let mut writer = WavWriter::new(spec).unwrap();
    writer.write_sample(-32768_i16).unwrap();
    writer.write_sample(32767_i16).unwrap();
    let buffer = writer.finalize();
    let mut reader = WavReader::new(buffer).unwrap();
    let a: i32 = reader.next_sample().unwrap().unwrap();
    let b: i32 = reader.next_sample().unwrap().unwrap();
    assert_eq!(a, -32768);
    assert_eq!(b, 32767);
}

#[test]
fn twelve_bit_samples_round_trip_in_two_bytes() {
    let spec = WavSpec { channels: 1, sample_rate: 8000, bits_per_sample: 12 };
    round_trip::<i16>(spec, &[-2048, -1, 0, 1, 2047]);
}
