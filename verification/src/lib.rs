//! A WAV (RIFF/WAVE) encoding and decoding library.
//!
//! The library works on in-memory byte streams: [`WavReader`] decodes a byte
//! vector into a typed sequence of PCM samples with known format metadata,
//! and [`WavWriter`] encodes samples into a correctly structured WAV byte
//! vector, patching the size fields of the header when it is finalized.

use vstd::prelude::*;

pub mod bytes_le;
pub mod codec;
pub mod format;
pub mod read;
pub mod write;

pub use read::WavReader;
pub use write::WavWriter;

use crate::codec::{
    bytes_per_sample, decode_sample, decoded_sample, encode_sample, encoded_sample, in_range,
    lemma_decoded_sample_bounds, valid_bits,
};
use vstd::arithmetic::power2::lemma2_to64;

verus! {

/// Specifies properties of the audio data.
#[derive(Clone, Copy, Debug, PartialEq, Eq, Structural)]
pub struct WavSpec {
    /// The number of channels.
    pub channels: u16,
    /// The number of samples per second.
    ///
    /// A common value is 44100, this is 44.1 kHz which is used for CD audio.
    pub sample_rate: u32,
    /// The number of bits per sample.
    ///
    /// A common value is 16 bits per sample, which is used for CD audio.
    pub bits_per_sample: u16,
}

/// The error type for operations on `WavReader` and `WavWriter`.
#[derive(Clone, Copy, Debug, PartialEq, Eq)]
pub enum Error {
    /// An I/O error occurred in the underlying byte stream.
    ///
    /// The library itself computes on in-memory bytes and never produces this
    /// variant; the embedding I/O layer uses it to report stream failures.
    IoError,
    /// Ill-formed WAVE data was encountered.
    FormatError(&'static str),
    /// The sample has more bits than the data type of the sample iterator,
    /// or a written sample does not fit the stated bits per sample.
    TooWide,
    /// The format is not supported.
    Unsupported,
}

impl Error {
    /// A short description of the error.
    pub fn description(&self) -> (s: &'static str)
        ensures
            (match self {
                Error::IoError => s@ == "an I/O error occurred in the underlying stream"@,
                Error::FormatError(reason) => s@ == reason@,
                Error::TooWide => s@
                    == "the sample has more bits than the data type of the sample iterator"@,
                Error::Unsupported => s@ == "the wave format of the file is not supported"@,
            }),
    {
        match self {
            Error::IoError => "an I/O error occurred in the underlying stream",
            Error::FormatError(reason) => reason,
            Error::TooWide => "the sample has more bits than the data type of the sample iterator",
            Error::Unsupported => "the wave format of the file is not supported",
        }
    }
}

/// A type that can be used to represent audio samples.
pub trait Sample: Sized + Copy {
    /// The number of bits this native type can hold.
    spec fn width() -> u16;

    /// The sample value as a mathematical integer.
    spec fn as_int(self) -> int;

    /// Two samples with the same integer value are the same sample.
    proof fn lemma_as_int_injective(a: Self, b: Self)
        requires
            a.as_int() == b.as_int(),
        ensures
            a == b,
    ;

    /// Writes the audio sample to the WAVE data chunk at `bits` bits per
    /// sample, or rejects a value outside the bit depth's range as
    /// [`Error::TooWide`].
    fn write(self, out: &mut Vec<u8>, bits: u16) -> (r: Result<(), Error>)
        requires
            valid_bits(bits),
        ensures
            in_range(self.as_int(), bits) ==> r is Ok && final(out)@ == old(out)@
                + encoded_sample(self.as_int(), bits),
            !in_range(self.as_int(), bits) ==> r == Err::<(), Error>(Error::TooWide)
                && final(out)@ == old(out)@,
    ;

    /// Reads the audio sample stored at `pos` in the WAVE data chunk, or
    /// rejects a bit depth wider than this type as [`Error::TooWide`].
    fn read(data: &Vec<u8>, pos: usize, bits: u16) -> (r: Result<Self, Error>)
        requires
            valid_bits(bits),
            pos + bytes_per_sample(bits) <= data@.len(),
        ensures
            bits <= Self::width() ==> (r matches Ok(s) && s.as_int() == decoded_sample(
                data@.subrange(pos as int, pos as int + bytes_per_sample(bits)),
                bits,
            )),
            bits > Self::width() ==> r == Err::<Self, Error>(Error::TooWide),
    ;
}

impl Sample for i8 {
    open spec fn width() -> u16 {
        8
    }

    open spec fn as_int(self) -> int {
        self as int
    }

    proof fn lemma_as_int_injective(a: i8, b: i8) {
    }

    fn write(self, out: &mut Vec<u8>, bits: u16) -> (r: Result<(), Error>) {
        encode_sample(out, self as i32, bits)
    }

    fn read(data: &Vec<u8>, pos: usize, bits: u16) -> (r: Result<i8, Error>) {
        if bits > 8 {
            Err(Error::TooWide)
        } else {
            let v = decode_sample(data, pos, bits);
            proof {
                lemma_decoded_sample_bounds(
                    data@.subrange(pos as int, pos as int + bytes_per_sample(bits)),
                    bits,
                );
                assert(vstd::arithmetic::power2::pow2(7) == 128) by {
                    lemma2_to64();
                }
            }
            Ok(v as i8)
        }
    }
}

impl Sample for i16 {
    open spec fn width() -> u16 {
        16
    }

    open spec fn as_int(self) -> int {
        self as int
    }

    proof fn lemma_as_int_injective(a: i16, b: i16) {
    }

    fn write(self, out: &mut Vec<u8>, bits: u16) -> (r: Result<(), Error>) {
        encode_sample(out, self as i32, bits)
    }

    fn read(data: &Vec<u8>, pos: usize, bits: u16) -> (r: Result<i16, Error>) {
        if bits > 16 {
            Err(Error::TooWide)
        } else {
            let v = decode_sample(data, pos, bits);
            proof {
                lemma_decoded_sample_bounds(
                    data@.subrange(pos as int, pos as int + bytes_per_sample(bits)),
                    bits,
                );
                assert(vstd::arithmetic::power2::pow2(7) == 128 && vstd::arithmetic::power2::pow2(
                    15,
                ) == 32768) by {
                    lemma2_to64();
                }
            }
            Ok(v as i16)
        }
    }
}

impl Sample for i32 {
    open spec fn width() -> u16 {
        32
    }

    open spec fn as_int(self) -> int {
        self as int
    }

    proof fn lemma_as_int_injective(a: i32, b: i32) {
    }

    fn write(self, out: &mut Vec<u8>, bits: u16) -> (r: Result<(), Error>) {
        encode_sample(out, self, bits)
    }

    fn read(data: &Vec<u8>, pos: usize, bits: u16) -> (r: Result<i32, Error>) {
        let v = decode_sample(data, pos, bits);
        Ok(v)
    }
}

} // verus!
