//! The WAV reader: validates the RIFF and WAVE headers, scans sub-chunks for
//! `fmt ` and `data`, and exposes the data chunk as a lazy, single-pass
//! sequence of decoded samples.

use crate::bytes_le::{lemma_le_value_bound, read_u16, read_u32, tag_eq};
use crate::codec::{bytes_per, bytes_per_sample, decoded_sample, in_range};
use crate::format::{
    lemma_write_read_round_trip, parse_chunks, parse_fmt_fields, parse_wav, valid_spec,
    wav_file_bytes, writable_spec, ParseResult,
};
use crate::{Error, Sample, WavSpec};
use vstd::arithmetic::div_mod::lemma_div_pos_is_pos;
use vstd::prelude::*;

verus! {

/// The abstract state of a reader.
pub struct ReaderView {
    /// The whole byte stream the reader was opened on.
    pub bytes: Seq<u8>,
    /// The format parsed from the `fmt ` chunk.
    pub fmt: WavSpec,
    /// Where the data chunk's payload starts.
    pub data_start: int,
    /// The byte count the data chunk declares.
    pub data_len: int,
    /// How many samples have been pulled so far.
    pub samples_read: int,
    /// Whether a malformed-data error has stopped the sample sequence.
    pub failed: bool,
}

/// How many whole samples the data chunk declares.
pub open spec fn total_samples(v: ReaderView) -> int {
    v.data_len / bytes_per_sample(v.fmt.bits_per_sample)
}

/// Whether the bytes of the `i`-th sample lie within the stream.
pub open spec fn sample_available(v: ReaderView, i: int) -> bool {
    v.data_start + (i + 1) * bytes_per_sample(v.fmt.bits_per_sample) <= v.bytes.len()
}

/// The value of the `i`-th sample of the data chunk.
pub open spec fn sample_at(v: ReaderView, i: int) -> int {
    let bps = bytes_per_sample(v.fmt.bits_per_sample);
    decoded_sample(
        v.bytes.subrange(v.data_start + i * bps, v.data_start + (i + 1) * bps),
        v.fmt.bits_per_sample,
    )
}

/// Decodes samples from an in-memory WAV byte stream.
pub struct WavReader {
    data: Vec<u8>,
    fmt: WavSpec,
    data_start: usize,
    data_len: usize,
    samples_read: usize,
    failed: bool,
}

impl View for WavReader {
    type V = ReaderView;

    closed spec fn view(&self) -> ReaderView {
        ReaderView {
            bytes: self.data@,
            fmt: self.fmt,
            data_start: self.data_start as int,
            data_len: self.data_len as int,
            samples_read: self.samples_read as int,
            failed: self.failed,
        }
    }
}

impl WavReader {
    /// A well-formed reader: its fields are what parsing its stream yields,
    /// and it has not read past the declared end of the data chunk.
    pub closed spec fn wf(&self) -> bool {
        &&& parse_wav(self.data@) == (ParseResult::Parsed {
            fmt: self.fmt,
            data_start: self.data_start as int,
            data_len: self.data_len as int,
        })
        &&& valid_spec(self.fmt)
        &&& self.data_start <= self.data@.len()
        &&& self.data_len < 4294967296
        &&& self.samples_read <= total_samples(self@)
    }

    /// Opens a WAV byte stream: validates the `RIFF` and `WAVE` tags, parses
    /// the `fmt ` chunk, and locates the `data` chunk, skipping unknown
    /// chunks. Ill-formed streams are rejected as [`Error::FormatError`], a
    /// non-PCM format code or unsupported bit depth as [`Error::Unsupported`],
    /// before any sample is decoded.
    pub fn new(data: Vec<u8>) -> (r: Result<WavReader, Error>)
        ensures
            (parse_wav(data@) matches ParseResult::Parsed { .. }) <==> r is Ok,
            (r matches Ok(w) ==> w.wf() && w@.bytes == data@ && w@.samples_read == 0 && !w@.failed
                && parse_wav(data@) == (ParseResult::Parsed {
                fmt: w@.fmt,
                data_start: w@.data_start,
                data_len: w@.data_len,
            })),
            parse_wav(data@) == ParseResult::Malformed ==> (r matches Err(e) && e matches Error::FormatError(_)),
            parse_wav(data@) == ParseResult::Unsupported ==> r == Err::<WavReader, Error>(
                Error::Unsupported,
            ),
    {
        let len = data.len();
        if len < 12 {
            return Err(Error::FormatError("stream too short for a RIFF header"));
        }
        if !tag_eq(&data, 0, 0x52, 0x49, 0x46, 0x46) {
            return Err(Error::FormatError("no RIFF tag"));
        }
        if !tag_eq(&data, 8, 0x57, 0x41, 0x56, 0x45) {
            return Err(Error::FormatError("no WAVE tag"));
        }
        let mut pos: usize = 12;
        let mut fmt_opt: Option<WavSpec> = None;
        loop
            invariant
                12 <= pos <= len,
                len == data@.len(),
                parse_chunks(data@, pos as int, fmt_opt) == parse_wav(data@),
                (fmt_opt matches Some(s) ==> valid_spec(s)),
            decreases data@.len() - pos,
        {
            if len - pos < 8 {
                return Err(Error::FormatError("missing data chunk"));
            }
            let size = read_u32(&data, pos + 4);
            if tag_eq(&data, pos, 0x64, 0x61, 0x74, 0x61) {
                match fmt_opt {
                    Some(s) => {
                        let w = WavReader {
                            data,
                            fmt: s,
                            data_start: pos + 8,
                            data_len: size as usize,
                            samples_read: 0,
                            failed: false,
                        };
                        proof {
                            lemma_div_pos_is_pos(
                                w.data_len as int,
                                bytes_per_sample(s.bits_per_sample),
                            );
                        }
                        return Ok(w);
                    },
                    None => {
                        return Err(Error::FormatError("data chunk before fmt chunk"));
                    },
                }
            }
            let rem: usize = len - pos - 8;
            let pad: u64 = (size % 2) as u64;
            let is_fmt = tag_eq(&data, pos, 0x66, 0x6d, 0x74, 0x20);
            if is_fmt && fmt_opt.is_none() {
                if size < 16 || size as u64 + pad > rem as u64 {
                    return Err(Error::FormatError("bad fmt chunk"));
                }
                let format_code = read_u16(&data, pos + 8);
                proof {
                    let bytes = data@;
                    let p = pos as int;
                    let body = bytes.subrange(p + 8, p + 24);
                    assert(body.subrange(0, 2) =~= bytes.subrange(p + 8, p + 10));
                    assert(body.subrange(2, 4) =~= bytes.subrange(p + 10, p + 12));
                    assert(body.subrange(4, 8) =~= bytes.subrange(p + 12, p + 16));
                    assert(body.subrange(14, 16) =~= bytes.subrange(p + 22, p + 24));
                    lemma_le_value_bound(body.subrange(2, 4));
                    lemma_le_value_bound(body.subrange(4, 8));
                    lemma_le_value_bound(body.subrange(14, 16));
                }
                if format_code != 1 {
                    return Err(Error::Unsupported);
                }
                let channels = read_u16(&data, pos + 10);
                let sample_rate = read_u32(&data, pos + 12);
                let bits = read_u16(&data, pos + 22);
                if channels == 0 {
                    return Err(Error::FormatError("a zero channel count"));
                }
                if sample_rate == 0 {
                    return Err(Error::FormatError("a zero sample rate"));
                }
                if bits == 0 || bits > 32 {
                    return Err(Error::Unsupported);
                }
                let s = WavSpec { channels, sample_rate, bits_per_sample: bits };
                proof {
                    assert(s == parse_fmt_fields(data@.subrange(pos as int + 8, pos as int + 24)));
                }
                fmt_opt = Some(s);
                pos = pos + 8 + (size as usize) + (pad as usize);
            } else {
                if size as u64 + pad > rem as u64 {
                    return Err(Error::FormatError("truncated chunk"));
                }
                pos = pos + 8 + (size as usize) + (pad as usize);
            }
        }
    }

    /// The format of the stream, available as soon as the reader is open.
    pub fn wav_spec(&self) -> (s: WavSpec)
        ensures
            s == self@.fmt,
    {
        self.fmt
    }

    /// How many whole samples the data chunk declares.
    pub fn num_samples(&self) -> (n: usize)
        requires
            self.wf(),
        ensures
            n as int == total_samples(self@),
    {
        let bps = bytes_per(self.fmt.bits_per_sample) as usize;
        self.data_len / bps
    }

    /// Pulls the next sample of the data chunk, decoded at the stream's bit
    /// depth into the caller's sample type.
    ///
    /// Yields `None` once every declared sample has been pulled. A data chunk
    /// that ends inside a sample — whether by its declared size or by the
    /// stream itself being short — yields one [`Error::FormatError`] element
    /// and then stops. A bit depth wider than the caller's type fails the
    /// element with [`Error::TooWide`].
    pub fn next_sample<S: Sample>(&mut self) -> (r: Option<Result<S, Error>>)
        requires
            old(self).wf(),
        ensures
            final(self).wf(),
            final(self)@.bytes == old(self)@.bytes,
            final(self)@.fmt == old(self)@.fmt,
            final(self)@.data_start == old(self)@.data_start,
            final(self)@.data_len == old(self)@.data_len,
            ({
                let b = old(self)@;
                let bps = bytes_per_sample(b.fmt.bits_per_sample);
                if b.failed {
                    r is None && final(self)@ == b
                } else if b.samples_read >= total_samples(b) {
                    if b.data_len % bps == 0 {
                        r is None && final(self)@ == b
                    } else {
                        (r matches Some(Err(e)) && e matches Error::FormatError(_))
                            && final(self)@ == (ReaderView { failed: true, ..b })
                    }
                } else if !sample_available(b, b.samples_read) {
                    (r matches Some(Err(e)) && e matches Error::FormatError(_)) && final(self)@
                        == (ReaderView { failed: true, ..b })
                } else if b.fmt.bits_per_sample > S::width() {
                    r == Some(Err::<S, Error>(Error::TooWide)) && final(self)@ == (ReaderView {
                        samples_read: b.samples_read + 1,
                        ..b
                    })
                } else {
                    (r matches Some(Ok(s)) && s.as_int() == sample_at(b, b.samples_read))
                        && final(self)@ == (ReaderView { samples_read: b.samples_read + 1, ..b })
                }
            }),
    {
        if self.failed {
            return None;
        }
        let bits = self.fmt.bits_per_sample;
        let bps = bytes_per(bits) as usize;
        let total = self.data_len / bps;
        if self.samples_read >= total {
            if self.data_len % bps != 0 {
                self.failed = true;
                return Some(Err(Error::FormatError("data chunk ends inside a sample")));
            }
            return None;
        }
        let len = self.data.len();
        let avail: usize = len - self.data_start;
        proof {
            assert((self.samples_read + 1) * bps <= total * bps && total * bps <= self.data_len
                && (self.samples_read + 1) * bps == self.samples_read * bps + bps)
                by (nonlinear_arith)
                requires
                    0 <= self.samples_read,
                    self.samples_read < total,
                    bps >= 1,
                    total == self.data_len as int / bps as int,
            ;
        }
        let need: u64 = (self.samples_read as u64 + 1) * (bps as u64);
        if need > avail as u64 {
            self.failed = true;
            return Some(Err(Error::FormatError("stream ends inside a sample")));
        }
        let start: usize = self.data_start + self.samples_read * bps;
        let r = S::read(&self.data, start, bits);
        self.samples_read = self.samples_read + 1;
        match r {
            Ok(s) => Some(Ok(s)),
            Err(e) => Some(Err(e)),
        }
    }
}


/// Round trip at the reader's interface: a reader opened on the finalized
/// stream that holds the sample values `vs` sees the written format, declares
/// exactly `vs.len()` samples, and its `i`-th sample is `vs[i]`.
pub proof fn lemma_reader_sees_written_samples(s: WavSpec, vs: Seq<int>, v: ReaderView)
    requires
        writable_spec(s),
        forall|i: int| 0 <= i < vs.len() ==> in_range(#[trigger] vs[i], s.bits_per_sample),
        vs.len() * bytes_per_sample(s.bits_per_sample) < 4294967296,
        v.bytes == wav_file_bytes(s, vs),
        v.fmt == s,
        v.data_start == 44,
        v.data_len == vs.len() * bytes_per_sample(s.bits_per_sample),
    ensures
        parse_wav(v.bytes) == (ParseResult::Parsed {
            fmt: v.fmt,
            data_start: v.data_start,
            data_len: v.data_len,
        }),
        total_samples(v) == vs.len(),
        forall|i: int| 0 <= i < vs.len() ==> #[trigger] sample_available(v, i),
        forall|i: int| 0 <= i < vs.len() ==> #[trigger] sample_at(v, i) == vs[i],
{
    let bps = bytes_per_sample(s.bits_per_sample);
    lemma_write_read_round_trip(s, vs);
    crate::format::lemma_encoded_samples_len(vs, s.bits_per_sample);
    let data = crate::format::encoded_samples(vs, s.bits_per_sample);
    let padded = if data.len() % 2 == 1 {
        data.push(0u8)
    } else {
        data
    };
    crate::format::lemma_header_fields(s, 36 + padded.len() as int, data.len() as int);
    assert(v.bytes.len() == 44 + padded.len());
    assert forall|i: int|
        0 <= i < vs.len() implies #[trigger] sample_available(v, i) && sample_at(v, i)
        == vs[i] by {
        assert(0 <= i * bps && (i + 1) * bps <= vs.len() * bps) by (nonlinear_arith)
            requires
                0 <= i < vs.len(),
                bps > 0,
        ;
        assert(v.bytes.len() >= 44 + vs.len() * bps);
        assert(decoded_sample(
            v.bytes.subrange(44 + i * bps, 44 + (i + 1) * bps),
            s.bits_per_sample,
        ) == vs[i]);
        assert(v.bytes.subrange(v.data_start + i * bps, v.data_start + (i + 1) * bps)
            == v.bytes.subrange(44 + i * bps, 44 + (i + 1) * bps));
    }
}

} // verus!
