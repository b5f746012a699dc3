//! The WAV writer: emits a provisional header at once, streams encoded
//! samples as a pure append, and patches the two size fields on finalize.

use crate::bytes_le::{lemma_le_bytes_len, push_u16, push_u32, set_u32};
use crate::codec::{bytes_per, bytes_per_sample, in_range};
use crate::format::{
    encoded_samples, header_bytes, lemma_encoded_samples_len, lemma_encoded_samples_push,
    lemma_header_fields, wav_file_bytes, writable_spec,
};
use crate::{Error, Sample, WavSpec};
use vstd::prelude::*;

verus! {

broadcast use lemma_le_bytes_len;

/// The most data bytes a writer accepts: the RIFF size field must still hold
/// `36 + data + pad` as a `u32`.
pub const MAX_DATA_BYTES: u32 = 4294967258;

/// The abstract state of a writer: its format and the sample values written
/// so far, in order.
pub struct WriterView {
    /// The format the writer was created with.
    pub fmt: WavSpec,
    /// The values of the samples written so far.
    pub samples: Seq<int>,
}

/// Encodes samples into an in-memory WAV byte stream.
///
/// Construction writes a provisional header whose two size fields are
/// placeholders; [`WavWriter::finalize`] patches them once the total length
/// is known. A writer that is discarded without `finalize` leaves a stream
/// with a zero-length data chunk header even though sample bytes follow it —
/// a caller contract violation, not a codec defect.
pub struct WavWriter {
    buffer: Vec<u8>,
    fmt: WavSpec,
    data_bytes_written: u32,
    samples: Ghost<Seq<int>>,
}

impl View for WavWriter {
    type V = WriterView;

    closed spec fn view(&self) -> WriterView {
        WriterView { fmt: self.fmt, samples: self.samples@ }
    }
}

impl WavWriter {
    /// A well-formed writer: a writable format, every sample written so far
    /// in the bit depth's range, and a buffer that holds the provisional
    /// header followed by the encoded samples.
    pub closed spec fn wf(&self) -> bool {
        &&& writable_spec(self.fmt)
        &&& (forall|i: int|
            0 <= i < self.samples@.len() ==> in_range(
                #[trigger] self.samples@[i],
                self.fmt.bits_per_sample,
            ))
        &&& self.data_bytes_written as int == self.samples@.len() * bytes_per_sample(
            self.fmt.bits_per_sample,
        )
        &&& self.data_bytes_written <= MAX_DATA_BYTES
        &&& self.buffer@ == header_bytes(self.fmt, 0, 0) + encoded_samples(
            self.samples@,
            self.fmt.bits_per_sample,
        )
    }

    /// Creates a writer for the given format and writes the provisional
    /// header. A format with no channels, a zero sample rate, an unsupported
    /// bit depth, or derived header fields too large for their on-disk width
    /// is rejected as [`Error::Unsupported`].
    pub fn new(fmt: WavSpec) -> (r: Result<WavWriter, Error>)
        ensures
            writable_spec(fmt) <==> r is Ok,
            (r matches Ok(w) ==> w.wf() && w@.fmt == fmt && w@.samples == Seq::<int>::empty()),
            !writable_spec(fmt) ==> r == Err::<WavWriter, Error>(Error::Unsupported),
    {
        if fmt.channels == 0 || fmt.sample_rate == 0 || fmt.bits_per_sample == 0
            || fmt.bits_per_sample > 32 {
            return Err(Error::Unsupported);
        }
        let bps = bytes_per(fmt.bits_per_sample);
        proof {
            assert(fmt.channels as int * bps as int <= 65535 * 4) by (nonlinear_arith)
                requires
                    fmt.channels <= 65535,
                    bps <= 4,
            ;
        }
        let ba_wide: u32 = (fmt.channels as u32) * (bps as u32);
        if ba_wide > 65535 {
            return Err(Error::Unsupported);
        }
        let ba: u16 = ba_wide as u16;
        proof {
            assert(fmt.sample_rate as int * ba as int <= 4294967295 * 65535) by (nonlinear_arith)
                requires
                    fmt.sample_rate <= 4294967295,
                    ba <= 65535,
            ;
        }
        let br_wide: u64 = (fmt.sample_rate as u64) * (ba as u64);
        if br_wide > 4294967295u64 {
            return Err(Error::Unsupported);
        }
        let br: u32 = br_wide as u32;
        let mut buffer: Vec<u8> = Vec::new();
        buffer.push(0x52);
        buffer.push(0x49);
        buffer.push(0x46);
        buffer.push(0x46);
        push_u32(&mut buffer, 0);
        buffer.push(0x57);
        buffer.push(0x41);
        buffer.push(0x56);
        buffer.push(0x45);
        buffer.push(0x66);
        buffer.push(0x6d);
        buffer.push(0x74);
        buffer.push(0x20);
        push_u32(&mut buffer, 16);
        push_u16(&mut buffer, 1);
        push_u16(&mut buffer, fmt.channels);
        push_u32(&mut buffer, fmt.sample_rate);
        push_u32(&mut buffer, br);
        push_u16(&mut buffer, ba);
        push_u16(&mut buffer, fmt.bits_per_sample);
        buffer.push(0x64);
        buffer.push(0x61);
        buffer.push(0x74);
        buffer.push(0x61);
        push_u32(&mut buffer, 0);
        proof {
            assert(encoded_samples(Seq::<int>::empty(), fmt.bits_per_sample) == Seq::<u8>::empty());
            assert(buffer@ =~= header_bytes(fmt, 0, 0) + encoded_samples(
                Seq::<int>::empty(),
                fmt.bits_per_sample,
            ));
        }
        let w = WavWriter { buffer, fmt, data_bytes_written: 0, samples: Ghost(Seq::empty()) };
        proof {
            assert(writable_spec(w.fmt));
            assert(w.samples@ == Seq::<int>::empty());
            assert(w.samples@.len() == 0);
            assert(w.samples@.len() * bytes_per_sample(w.fmt.bits_per_sample) == 0);
            assert(w.buffer@ == header_bytes(w.fmt, 0, 0) + encoded_samples(
                w.samples@,
                w.fmt.bits_per_sample,
            ));
            assert(w.wf());
        }
        Ok(w)
    }

    /// The format this writer was created with.
    pub fn wav_spec(&self) -> (s: WavSpec)
        ensures
            s == self@.fmt,
    {
        self.fmt
    }

    /// Encodes one sample and appends it to the data chunk.
    ///
    /// A value outside the representable range of the bit depth is rejected
    /// as [`Error::TooWide`]; a sample that would push the data chunk past
    /// what its size field can hold is rejected as [`Error::FormatError`].
    /// In both cases the stream is unchanged.
    pub fn write_sample<S: Sample>(&mut self, sample: S) -> (r: Result<(), Error>)
        requires
            old(self).wf(),
        ensures
            final(self).wf(),
            final(self)@.fmt == old(self)@.fmt,
            ({
                let b = old(self)@;
                let bps = bytes_per_sample(b.fmt.bits_per_sample);
                if b.samples.len() * bps + bps > MAX_DATA_BYTES {
                    (r matches Err(e) && e matches Error::FormatError(_)) && final(self)@
                        == old(self)@
                } else if !in_range(sample.as_int(), b.fmt.bits_per_sample) {
                    r == Err::<(), Error>(Error::TooWide) && final(self)@ == old(self)@
                } else {
                    r is Ok && final(self)@.samples == b.samples.push(sample.as_int())
                }
            }),
    {
        let bits = self.fmt.bits_per_sample;
        let bps = bytes_per(bits) as u32;
        if self.data_bytes_written > MAX_DATA_BYTES - bps {
            return Err(Error::FormatError("data chunk full"));
        }
        let r = sample.write(&mut self.buffer, bits);
        match r {
            Err(e) => Err(e),
            Ok(_) => {
                self.data_bytes_written = self.data_bytes_written + bps;
                proof {
                    lemma_encoded_samples_push(
                        self.samples@,
                        sample.as_int(),
                        bits,
                    );
                }
                self.samples = Ghost(self.samples@.push(sample.as_int()));
                proof {
                    let vs = old(self).samples@;
                    assert((vs.len() + 1) * bps == vs.len() * bps + bps) by (nonlinear_arith);
                    assert(self.buffer@ =~= header_bytes(self.fmt, 0, 0) + encoded_samples(
                        self.samples@,
                        bits,
                    ));
                }
                Ok(())
            },
        }
    }

    /// Discards the writer without finalizing and hands back the bytes as
    /// they stand: the provisional header, whose RIFF and data size fields
    /// still hold the placeholder zero, followed by the sample bytes already
    /// appended. Dropping a writer this way leaves a structurally invalid —
    /// but not corrupt — stream; callers that want a valid file must call
    /// [`WavWriter::finalize`] instead.
    pub fn abandon(self) -> (out: Vec<u8>)
        requires
            self.wf(),
        ensures
            out@ == header_bytes(self@.fmt, 0, 0) + encoded_samples(
                self@.samples,
                self@.fmt.bits_per_sample,
            ),
    {
        self.buffer
    }

    /// Finalizes the stream and hands back the finished WAV bytes: appends
    /// the pad byte if the data chunk length is odd, then patches the RIFF
    /// and data chunk sizes into the header.
    pub fn finalize(self) -> (out: Vec<u8>)
        requires
            self.wf(),
        ensures
            out@ == wav_file_bytes(self@.fmt, self@.samples),
    {
        let WavWriter { mut buffer, fmt, data_bytes_written, samples } = self;
        let ghost es = encoded_samples(samples@, fmt.bits_per_sample);
        proof {
            lemma_encoded_samples_len(samples@, fmt.bits_per_sample);
            lemma_header_fields(fmt, 0, 0);
            assert(header_bytes(fmt, 0, 0).len() == 44);
        }
        let data_size = data_bytes_written;
        let pad: u32 = data_size % 2;
        let riff_size = 36 + data_size + pad;
        if pad == 1 {
            buffer.push(0);
        }
        let ghost padded = if es.len() % 2 == 1 { es.push(0u8) } else { es };
        proof {
            lemma_header_fields(fmt, riff_size as int, data_size as int);
            assert(buffer@ =~= header_bytes(fmt, 0, 0) + padded);
        }
        set_u32(&mut buffer, 4, riff_size);
        set_u32(&mut buffer, 40, data_size);
        proof {
            assert(buffer@ =~= header_bytes(fmt, riff_size as int, data_size as int) + padded);
            assert(riff_size as int == 36 + padded.len());
            assert(data_size as int == es.len());
            assert(buffer@ =~= wav_file_bytes(fmt, samples@));
        }
        buffer
    }
}

} // verus!
