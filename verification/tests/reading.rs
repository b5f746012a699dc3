//! Reader tests: header validation, chunk skipping, error classification,
//! and the sample sequence's end-of-stream behaviour.

use hound::{Error, WavReader, WavSpec, WavWriter};

fn push_u16(out: &mut Vec<u8>, x: u16) {
    out.extend_from_slice(&x.to_le_bytes());
}

fn push_u32(out: &mut Vec<u8>, x: u32) {
    out.extend_from_slice(&x.to_le_bytes());
}

/// A well-formed header for 16-bit mono PCM, followed by `data` of the given
/// declared size and payload.
fn simple_wav(format_code: u16, bits: u16, data_declared: u32, payload: &[u8]) -> Vec<u8> {
    let mut v = Vec::new();
    v.extend_from_slice(b"RIFF");
    push_u32(&mut v, 36 + payload.len() as u32);
    v.extend_from_slice(b"WAVE");
    v.extend_from_slice(b"fmt ");
    push_u32(&mut v, 16);
    push_u16(&mut v, format_code);
    push_u16(&mut v, 1);
    push_u32(&mut v, 8000);
    push_u32(&mut v, 16000);
    push_u16(&mut v, 2);
    push_u16(&mut v, bits);
    v.extend_from_slice(b"data");
    push_u32(&mut v, data_declared);
    v.extend_from_slice(payload);
    v
}

#[test]
fn rejects_stream_without_riff_tag() {
    let mut v = simple_wav(1, 16, 4, &[0, 0, 0, 0]);
    v[0] = b'X';
    let r = WavReader::new(v);
    assert!(matches!(r, Err(Error::FormatError(_))));
}

#[test]
fn rejects_stream_without_wave_tag() {
    let mut v = simple_wav(1, 16, 4, &[0, 0, 0, 0]);
    v[8] = b'X';
    let r = WavReader::new(v);
    assert!(matches!(r, Err(Error::FormatError(_))));
}

#[test]
fn rejects_truncated_header() {
    let r = WavReader::new(b"RIFF\x00\x00".to_vec());
    assert!(matches!(r, Err(Error::FormatError(_))));
}

#[test]
fn rejects_non_pcm_format_code() {
    let v = simple_wav(3, 16, 4, &[0, 0, 0, 0]);
    let r = WavReader::new(v);
    assert!(matches!(r, Err(Error::Unsupported)));
}

#[test]
fn rejects_unsupported_bit_depth() {
    let v = simple_wav(1, 33, 4, &[0, 0, 0, 0]);
    let r = WavReader::new(v);
    assert!(matches!(r, Err(Error::Unsupported)));
}

#[test]
fn rejects_zero_channels() {
    let mut v = simple_wav(1, 16, 4, &[0, 0, 0, 0]);
    // The channel count field sits at offset 22.
    v[22] = 0;
    v[23] = 0;
    let r = WavReader::new(v);
    assert!(matches!(r, Err(Error::FormatError(_))));
}

#[test]
fn rejects_data_chunk_before_fmt_chunk() {
    let mut v = Vec::new();
    v.extend_from_slice(b"RIFF");
    push_u32(&mut v, 12);
    v.extend_from_slice(b"WAVE");
    v.extend_from_slice(b"data");
    push_u32(&mut v, 0);
    let r = WavReader::new(v);
    assert!(matches!(r, Err(Error::FormatError(_))));
}

#[test]
fn rejects_stream_without_data_chunk() {
    let mut v = Vec::new();
    v.extend_from_slice(b"RIFF");
    push_u32(&mut v, 28);
    v.extend_from_slice(b"WAVE");
    v.extend_from_slice(b"fmt ");
    push_u32(&mut v, 16);
    push_u16(&mut v, 1);
    push_u16(&mut v, 1);
    push_u32(&mut v, 8000);
    push_u32(&mut v, 16000);
    push_u16(&mut v, 2);
    push_u16(&mut v, 16);
    let r = WavReader::new(v);
    assert!(matches!(r, Err(Error::FormatError(_))));
}

#[test]
fn skips_unknown_chunk_with_pad_byte() {
    // A junk chunk of odd size 3 is followed by one pad byte that the reader
    // must skip to find the fmt and data chunks.
    let mut v = Vec::new();
    v.extend_from_slice(b"RIFF");
    push_u32(&mut v, 0);
    v.extend_from_slice(b"WAVE");
    v.extend_from_slice(b"junk");
    push_u32(&mut v, 3);
    v.extend_from_slice(&[9, 9, 9, 0]);
    v.extend_from_slice(b"fmt ");
    push_u32(&mut v, 16);
    push_u16(&mut v, 1);
    push_u16(&mut v, 1);
    push_u32(&mut v, 8000);
    push_u32(&mut v, 16000);
    push_u16(&mut v, 2);
    push_u16(&mut v, 16);
    v.extend_from_slice(b"data");
    push_u32(&mut v, 2);
    push_u16(&mut v, 513);
    let mut reader = WavReader::new(v).unwrap();
    assert_eq!(
        WavSpec { channels: 1, sample_rate: 8000, bits_per_sample: 16 },
        reader.wav_spec()
    );
    let got: i16 = reader.next_sample().unwrap().unwrap();
    assert_eq!(513, got);
    assert!(reader.next_sample::<i16>().is_none());
}

#[test]
fn too_wide_fails_every_element() {
    let spec = WavSpec { channels: 1, sample_rate: 8000, bits_per_sample: 16 };
    let mut writer = WavWriter::new(spec).unwrap();
    for s in [100_i16, 200, 300, 400] {
        writer.write_sample(s).unwrap();
    }
    let buffer = writer.finalize();
    let mut reader = WavReader::new(buffer).unwrap();
    for _ in 0..4 {
        let r: Option<Result<i8, Error>> = reader.next_sample();
        assert_eq!(r, Some(Err(Error::TooWide)));
    }
    assert!(reader.next_sample::<i8>().is_none());
}

#[test]
fn declared_data_longer_than_stream_is_malformed() {
    // The data chunk declares 8 bytes but the stream holds only 2.
    let v = simple_wav(1, 16, 8, &[1, 0]);
    let mut reader = WavReader::new(v).unwrap();
    let first: Option<Result<i16, Error>> = reader.next_sample();
    assert_eq!(first, Some(Ok(1)));
    let second: Option<Result<i16, Error>> = reader.next_sample();
    assert!(matches!(second, Some(Err(Error::FormatError(_)))));
    assert!(reader.next_sample::<i16>().is_none());
}

#[test]
fn data_chunk_ending_inside_a_sample_is_malformed() {
    // Three declared bytes hold one whole 16-bit sample and half of another.
    let v = simple_wav(1, 16, 3, &[1, 0, 7, 0]);
    let mut reader = WavReader::new(v).unwrap();
    let first: Option<Result<i16, Error>> = reader.next_sample();
    assert_eq!(first, Some(Ok(1)));
    let second: Option<Result<i16, Error>> = reader.next_sample();
    assert!(matches!(second, Some(Err(Error::FormatError(_)))));
    assert!(reader.next_sample::<i16>().is_none());
}

#[test]
fn trailing_garbage_beyond_declared_data_is_ignored() {
    let v = simple_wav(1, 16, 2, &[42, 0, 99, 99, 99, 99]);
    let mut reader = WavReader::new(v).unwrap();
    let got: i16 = reader.next_sample().unwrap().unwrap();
    assert_eq!(42, got);
    assert!(reader.next_sample::<i16>().is_none());
}

#[test]
fn eight_bit_samples_are_biased_by_128() {
    // An 8-bit PCM byte of 0 decodes to -128, 128 to 0, and 255 to 127.
    let v = simple_wav(1, 8, 3, &[0, 128, 255]);
    let mut reader = WavReader::new(v).unwrap();
    let a: i8 = reader.next_sample().unwrap().unwrap();
    let b: i8 = reader.next_sample().unwrap().unwrap();
    let c: i8 = reader.next_sample().unwrap().unwrap();
    assert_eq!((a, b, c), (-128, 0, 127));
}

#[test]
fn error_descriptions_name_the_failure() {
    assert_eq!(
        Error::Unsupported.description(),
        "the wave format of the file is not supported"
    );
    assert_eq!(
        Error::TooWide.description(),
        "the sample has more bits than the data type of the sample iterator"
    );
    assert_eq!(Error::FormatError("no RIFF tag").description(), "no RIFF tag");
    assert_eq!(
        Error::IoError.description(),
        "an I/O error occurred in the underlying stream"
    );
}
