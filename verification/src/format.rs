//! The byte layout of a WAV file: the 44-byte header, the encoded sample
//! stream, and the mathematical parser that recognises RIFF sub-chunks.

use crate::bytes_le::{
    le_bytes, le_value, lemma_le_bytes_len, lemma_le_round_trip, lemma_le_value_bound,
};
use crate::codec::{
    bytes_per_sample, decoded_sample, encoded_sample, in_range, lemma_codec_round_trip, valid_bits,
};
use crate::WavSpec;
use vstd::arithmetic::div_mod::lemma_div_by_multiple;
use vstd::arithmetic::power2::{lemma2_to64, pow2};
use vstd::prelude::*;

verus! {

broadcast use lemma_le_bytes_len;

/// The `RIFF` chunk tag.
pub open spec fn riff_tag() -> Seq<u8> {
    seq![0x52u8, 0x49u8, 0x46u8, 0x46u8]
}

/// The `WAVE` form tag.
pub open spec fn wave_tag() -> Seq<u8> {
    seq![0x57u8, 0x41u8, 0x56u8, 0x45u8]
}

/// The `fmt ` chunk tag.
pub open spec fn fmt_tag() -> Seq<u8> {
    seq![0x66u8, 0x6du8, 0x74u8, 0x20u8]
}

/// The `data` chunk tag.
pub open spec fn data_tag() -> Seq<u8> {
    seq![0x64u8, 0x61u8, 0x74u8, 0x61u8]
}

/// Bytes per frame: one sample for each channel.
pub open spec fn block_align(s: WavSpec) -> int {
    s.channels * bytes_per_sample(s.bits_per_sample)
}

/// Bytes per second of audio.
pub open spec fn byte_rate(s: WavSpec) -> int {
    s.sample_rate * block_align(s)
}

/// A format descriptor the library accepts: at least one channel, a positive
/// sample rate, and a supported bit depth.
pub open spec fn valid_spec(s: WavSpec) -> bool {
    s.channels > 0 && s.sample_rate > 0 && valid_bits(s.bits_per_sample)
}

/// A format descriptor whose derived header fields fit their on-disk width,
/// so a writer can produce it.
pub open spec fn writable_spec(s: WavSpec) -> bool {
    valid_spec(s) && block_align(s) <= u16::MAX && byte_rate(s) <= u32::MAX
}

/// The 44-byte WAV header with the given RIFF and data chunk sizes.
pub open spec fn header_bytes(s: WavSpec, riff_size: int, data_size: int) -> Seq<u8> {
    riff_tag() + le_bytes(riff_size, 4) + wave_tag() + fmt_tag() + le_bytes(16, 4) + le_bytes(1, 2)
        + le_bytes(s.channels as int, 2) + le_bytes(s.sample_rate as int, 4) + le_bytes(
        byte_rate(s),
        4,
    ) + le_bytes(block_align(s), 2) + le_bytes(s.bits_per_sample as int, 2) + data_tag()
        + le_bytes(data_size, 4)
}

/// The encoded bytes of a sequence of sample values.
pub open spec fn encoded_samples(vs: Seq<int>, bits: u16) -> Seq<u8>
    decreases vs.len(),
{
    if vs.len() == 0 {
        Seq::empty()
    } else {
        encoded_sample(vs[0], bits) + encoded_samples(vs.subrange(1, vs.len() as int), bits)
    }
}

/// The complete finalized WAV file holding the sample values `vs`: header
/// with correct sizes, encoded samples, and a pad byte if the data chunk
/// length is odd.
pub open spec fn wav_file_bytes(s: WavSpec, vs: Seq<int>) -> Seq<u8> {
    let data = encoded_samples(vs, s.bits_per_sample);
    let padded = if data.len() % 2 == 1 {
        data.push(0u8)
    } else {
        data
    };
    header_bytes(s, 36 + padded.len() as int, data.len() as int) + padded
}

/// What scanning a WAV byte stream yields.
pub enum ParseResult {
    /// A valid stream: the format descriptor, and where the data chunk's
    /// payload starts and how many bytes it declares.
    Parsed { fmt: WavSpec, data_start: int, data_len: int },
    /// Ill-formed WAVE data.
    Malformed,
    /// A wave format this library does not support.
    Unsupported,
}

/// The format descriptor stored in a 16-byte `fmt ` chunk body.
pub open spec fn parse_fmt_fields(b: Seq<u8>) -> WavSpec
    recommends
        b.len() == 16,
{
    WavSpec {
        channels: le_value(b.subrange(2, 4)) as u16,
        sample_rate: le_value(b.subrange(4, 8)) as u32,
        bits_per_sample: le_value(b.subrange(14, 16)) as u16,
    }
}

/// Scans the sub-chunks of a RIFF stream from `pos`: skips unknown chunks
/// (and their pad byte when their size is odd), parses the `fmt ` chunk, and
/// stops at the `data` chunk, which must come after `fmt `.
pub open spec fn parse_chunks(bytes: Seq<u8>, pos: int, fmt: Option<WavSpec>) -> ParseResult
    decreases bytes.len() - pos,
    via parse_chunks_decreases
{
    if pos < 0 || pos + 8 > bytes.len() {
        ParseResult::Malformed
    } else {
        let tag = bytes.subrange(pos, pos + 4);
        let size = le_value(bytes.subrange(pos + 4, pos + 8));
        let next = pos + 8 + size + (size % 2);
        if tag == data_tag() {
            match fmt {
                Some(s) => ParseResult::Parsed { fmt: s, data_start: pos + 8, data_len: size },
                None => ParseResult::Malformed,
            }
        } else if tag == fmt_tag() && fmt is None {
            if size < 16 || next > bytes.len() {
                ParseResult::Malformed
            } else {
                let body = bytes.subrange(pos + 8, pos + 24);
                if le_value(body.subrange(0, 2)) != 1 {
                    ParseResult::Unsupported
                } else {
                    let s = parse_fmt_fields(body);
                    if s.channels == 0 || s.sample_rate == 0 {
                        ParseResult::Malformed
                    } else if !valid_bits(s.bits_per_sample) {
                        ParseResult::Unsupported
                    } else {
                        parse_chunks(bytes, next, Some(s))
                    }
                }
            }
        } else {
            if next > bytes.len() {
                ParseResult::Malformed
            } else {
                parse_chunks(bytes, next, fmt)
            }
        }
    }
}

#[via_fn]
proof fn parse_chunks_decreases(bytes: Seq<u8>, pos: int, fmt: Option<WavSpec>) {
    if 0 <= pos && pos + 8 <= bytes.len() {
        lemma_le_value_bound(bytes.subrange(pos + 4, pos + 8));
    }
}

/// Parses a WAV byte stream: the outer `RIFF` header (its size field is
/// advisory and ignored), the `WAVE` form tag, then the sub-chunks.
pub open spec fn parse_wav(bytes: Seq<u8>) -> ParseResult {
    if bytes.len() < 12 {
        ParseResult::Malformed
    } else if bytes.subrange(0, 4) != riff_tag() || bytes.subrange(8, 12) != wave_tag() {
        ParseResult::Malformed
    } else {
        parse_chunks(bytes, 12, None)
    }
}

/// The fields of the header, read back from its bytes.
pub proof fn lemma_header_fields(s: WavSpec, riff_size: int, data_size: int)
    ensures
        ({
            let h = header_bytes(s, riff_size, data_size);
            &&& h.len() == 44
            &&& h.subrange(0, 4) == riff_tag()
            &&& h.subrange(4, 8) == le_bytes(riff_size, 4)
            &&& h.subrange(8, 12) == wave_tag()
            &&& h.subrange(12, 16) == fmt_tag()
            &&& h.subrange(16, 20) == le_bytes(16, 4)
            &&& h.subrange(20, 22) == le_bytes(1, 2)
            &&& h.subrange(22, 24) == le_bytes(s.channels as int, 2)
            &&& h.subrange(24, 28) == le_bytes(s.sample_rate as int, 4)
            &&& h.subrange(28, 32) == le_bytes(byte_rate(s), 4)
            &&& h.subrange(32, 34) == le_bytes(block_align(s), 2)
            &&& h.subrange(34, 36) == le_bytes(s.bits_per_sample as int, 2)
            &&& h.subrange(36, 40) == data_tag()
            &&& h.subrange(40, 44) == le_bytes(data_size, 4)
        }),
{
    let h = header_bytes(s, riff_size, data_size);
    assert(h.subrange(0, 4) =~= riff_tag());
    assert(h.subrange(4, 8) =~= le_bytes(riff_size, 4));
    assert(h.subrange(8, 12) =~= wave_tag());
    assert(h.subrange(12, 16) =~= fmt_tag());
    assert(h.subrange(16, 20) =~= le_bytes(16, 4));
    assert(h.subrange(20, 22) =~= le_bytes(1, 2));
    assert(h.subrange(22, 24) =~= le_bytes(s.channels as int, 2));
    assert(h.subrange(24, 28) =~= le_bytes(s.sample_rate as int, 4));
    assert(h.subrange(28, 32) =~= le_bytes(byte_rate(s), 4));
    assert(h.subrange(32, 34) =~= le_bytes(block_align(s), 2));
    assert(h.subrange(34, 36) =~= le_bytes(s.bits_per_sample as int, 2));
    assert(h.subrange(36, 40) =~= data_tag());
    assert(h.subrange(40, 44) =~= le_bytes(data_size, 4));
}

/// The encoded bytes of `vs` occupy `vs.len()` samples' worth of bytes.
pub proof fn lemma_encoded_samples_len(vs: Seq<int>, bits: u16)
    requires
        valid_bits(bits),
        forall|i: int| 0 <= i < vs.len() ==> in_range(#[trigger] vs[i], bits),
    ensures
        encoded_samples(vs, bits).len() == vs.len() * bytes_per_sample(bits),
    decreases vs.len(),
{
    if vs.len() > 0 {
        let rest = vs.subrange(1, vs.len() as int);
        lemma_codec_round_trip(vs[0], bits);
        lemma_encoded_samples_len(rest, bits);
        assert(vs.len() * bytes_per_sample(bits) == bytes_per_sample(bits) + rest.len()
            * bytes_per_sample(bits)) by (nonlinear_arith)
            requires
                rest.len() == vs.len() - 1,
        ;
    }
}

/// Appending one sample value appends its encoding.
pub proof fn lemma_encoded_samples_push(vs: Seq<int>, v: int, bits: u16)
    ensures
        encoded_samples(vs.push(v), bits) == encoded_samples(vs, bits) + encoded_sample(v, bits),
    decreases vs.len(),
{
    let w = vs.push(v);
    if vs.len() == 0 {
        assert(w.subrange(1, w.len() as int) =~= Seq::<int>::empty());
        assert(encoded_samples(Seq::<int>::empty(), bits) == Seq::<u8>::empty());
        assert(w[0] == v);
        assert(encoded_samples(w, bits) == encoded_sample(v, bits) + Seq::<u8>::empty());
        assert(encoded_samples(w, bits) =~= encoded_sample(v, bits));
        assert(encoded_samples(vs, bits) + encoded_sample(v, bits) =~= encoded_sample(v, bits));
    } else {
        let rest = vs.subrange(1, vs.len() as int);
        assert(w.subrange(1, w.len() as int) =~= rest.push(v));
        lemma_encoded_samples_push(rest, v, bits);
        assert(encoded_samples(w, bits) =~= encoded_samples(vs, bits) + encoded_sample(v, bits));
    }
}

/// The bytes of the `i`-th sample within the encoded stream.
pub proof fn lemma_encoded_samples_index(vs: Seq<int>, bits: u16, i: int)
    requires
        valid_bits(bits),
        forall|k: int| 0 <= k < vs.len() ==> in_range(#[trigger] vs[k], bits),
        0 <= i < vs.len(),
    ensures
        encoded_samples(vs, bits).subrange(
            i * bytes_per_sample(bits),
            (i + 1) * bytes_per_sample(bits),
        ) == encoded_sample(vs[i], bits),
    decreases i,
{
    let bps = bytes_per_sample(bits);
    let e = encoded_samples(vs, bits);
    let rest = vs.subrange(1, vs.len() as int);
    lemma_codec_round_trip(vs[0], bits);
    lemma_encoded_samples_len(vs, bits);
    lemma_encoded_samples_len(rest, bits);
    assert(0 <= i * bps && (i + 1) * bps <= vs.len() * bps) by (nonlinear_arith)
        requires
            0 <= i < vs.len(),
            bps > 0,
    ;
    if i == 0 {
        assert(e.subrange(0, bps) =~= encoded_sample(vs[0], bits));
    } else {
        lemma_encoded_samples_index(rest, bits, i - 1);
        assert((i - 1) * bps == i * bps - bps && i * bps == (i + 1) * bps - bps && bps <= i * bps
            && i * bps <= rest.len() * bps) by (nonlinear_arith)
            requires
                1 <= i < vs.len(),
                rest.len() == vs.len() - 1,
                bps > 0,
        ;
        assert(rest[i - 1] == vs[i]);
        assert(e.subrange(i * bps, (i + 1) * bps) =~= encoded_samples(rest, bits).subrange(
            (i - 1) * bps,
            i * bps,
        ));
    }
}


/// Finalize correctness: in the finalized stream for `n` samples of `b`
/// bytes each, the patched data size field holds `n * b` and the patched
/// RIFF size field holds `36 + n * b`, plus one for the pad byte if `n * b`
/// is odd.
pub proof fn lemma_finalized_sizes(s: WavSpec, vs: Seq<int>)
    requires
        valid_bits(s.bits_per_sample),
        forall|i: int| 0 <= i < vs.len() ==> in_range(#[trigger] vs[i], s.bits_per_sample),
    ensures
        ({
            let bytes = wav_file_bytes(s, vs);
            let dlen = vs.len() * bytes_per_sample(s.bits_per_sample);
            let plen = dlen + (if dlen % 2 == 1 { 1int } else { 0int });
            &&& bytes.len() == 44 + plen
            &&& bytes.subrange(40, 44) == le_bytes(dlen, 4)
            &&& bytes.subrange(4, 8) == le_bytes(36 + plen, 4)
        }),
{
    let bits = s.bits_per_sample;
    let data = encoded_samples(vs, bits);
    lemma_encoded_samples_len(vs, bits);
    let dlen = data.len() as int;
    let padded = if data.len() % 2 == 1 { data.push(0u8) } else { data };
    let riff = 36 + padded.len() as int;
    let h = header_bytes(s, riff, dlen);
    lemma_header_fields(s, riff, dlen);
    let bytes = wav_file_bytes(s, vs);
    assert(bytes.subrange(40, 44) =~= h.subrange(40, 44));
    assert(bytes.subrange(4, 8) =~= h.subrange(4, 8));
}

/// Round trip: the finalized stream that holds any representable sample
/// values parses back to the same format descriptor and a data chunk of
/// exactly those samples, in order.
pub proof fn lemma_write_read_round_trip(s: WavSpec, vs: Seq<int>)
    requires
        writable_spec(s),
        forall|i: int| 0 <= i < vs.len() ==> in_range(#[trigger] vs[i], s.bits_per_sample),
        vs.len() * bytes_per_sample(s.bits_per_sample) < 4294967296,
    ensures
        ({
            let bytes = wav_file_bytes(s, vs);
            let bps = bytes_per_sample(s.bits_per_sample);
            &&& parse_wav(bytes) == (ParseResult::Parsed {
                fmt: s,
                data_start: 44,
                data_len: vs.len() * bps,
            })
            &&& (vs.len() * bps) / bps == vs.len()
            &&& forall|i: int|
                0 <= i < vs.len() ==> decoded_sample(
                    #[trigger] bytes.subrange(44 + i * bps, 44 + (i + 1) * bps),
                    s.bits_per_sample,
                ) == vs[i]
        }),
{
    let bits = s.bits_per_sample;
    let bps = bytes_per_sample(bits);
    let data = encoded_samples(vs, bits);
    lemma_encoded_samples_len(vs, bits);
    let dlen = data.len() as int;
    let padded = if data.len() % 2 == 1 { data.push(0u8) } else { data };
    let riff = 36 + padded.len() as int;
    let h = header_bytes(s, riff, dlen);
    lemma_header_fields(s, riff, dlen);
    let bytes = wav_file_bytes(s, vs);
    assert(bytes == h + padded);
    assert(bytes.len() == 44 + padded.len());
    assert(pow2(16) == 65536 && pow2(32) == 4294967296) by {
        lemma2_to64();
    }
    // The outer RIFF and WAVE tags.
    assert(bytes.subrange(0, 4) =~= h.subrange(0, 4));
    assert(bytes.subrange(8, 12) =~= h.subrange(8, 12));
    assert(parse_wav(bytes) == parse_chunks(bytes, 12, None));
    // The fmt chunk at offset 12 parses back to the format descriptor.
    assert(bytes.subrange(12, 16) =~= h.subrange(12, 16));
    assert(bytes.subrange(16, 20) =~= h.subrange(16, 20));
    assert(fmt_tag()[0] != data_tag()[0]);
    assert(fmt_tag() != data_tag());
    lemma_le_round_trip(16, 4);
    let body = bytes.subrange(20, 36);
    assert(body.subrange(0, 2) =~= h.subrange(20, 22));
    assert(body.subrange(2, 4) =~= h.subrange(22, 24));
    assert(body.subrange(4, 8) =~= h.subrange(24, 28));
    assert(body.subrange(14, 16) =~= h.subrange(34, 36));
    lemma_le_round_trip(1, 2);
    lemma_le_round_trip(s.channels as int, 2);
    lemma_le_round_trip(s.sample_rate as int, 4);
    lemma_le_round_trip(bits as int, 2);
    assert(parse_fmt_fields(body) == s);
    assert(parse_chunks(bytes, 12, None) == parse_chunks(bytes, 36, Some(s)));
    // The data chunk at offset 36 declares exactly the encoded bytes.
    assert(bytes.subrange(36, 40) =~= h.subrange(36, 40));
    assert(bytes.subrange(40, 44) =~= h.subrange(40, 44));
    lemma_le_round_trip(dlen, 4);
    assert(parse_chunks(bytes, 36, Some(s)) == (ParseResult::Parsed {
        fmt: s,
        data_start: 44,
        data_len: dlen,
    }));
    lemma_div_by_multiple(vs.len() as int, bps);
    // Each sample's bytes decode back to the value that was written.
    assert forall|i: int| 0 <= i < vs.len() implies decoded_sample(
        #[trigger] bytes.subrange(44 + i * bps, 44 + (i + 1) * bps),
        bits,
    ) == vs[i] by {
        lemma_encoded_samples_index(vs, bits, i);
        lemma_codec_round_trip(vs[i], bits);
        assert(0 <= i * bps && (i + 1) * bps <= dlen && i * bps + bps == (i + 1) * bps)
            by (nonlinear_arith)
            requires
                0 <= i < vs.len(),
                bps > 0,
                dlen == vs.len() * bps,
        ;
        assert(bytes.subrange(44 + i * bps, 44 + (i + 1) * bps) =~= data.subrange(
            i * bps,
            (i + 1) * bps,
        ));
    }
}

} // verus!
