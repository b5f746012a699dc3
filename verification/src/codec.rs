//! The sample codec: pure mappings between a numeric sample and its
//! little-endian on-disk byte representation, keyed by bits per sample.
//!
//! Samples of at most 8 bits are stored as one unsigned byte biased by 128,
//! the convention used by 8-bit PCM. Wider samples are stored as two, three
//! or four little-endian bytes in two's complement.

use crate::bytes_le::{
    le_bytes, le_value, lemma_le_bytes_2, lemma_le_bytes_3, lemma_le_bytes_4, lemma_le_bytes_len,
    lemma_le_round_trip, lemma_le_value_bound, read_u16, read_u24, read_u32,
};
use crate::Error;
use vstd::arithmetic::div_mod::{lemma_fundamental_div_mod, lemma_mod_bound};
use vstd::arithmetic::power2::{lemma2_to64, lemma_pow2_adds, lemma_pow2_strictly_increases, pow2};
use vstd::prelude::*;

verus! {

/// The bit depths the codec supports: one to 32 bits per sample.
pub open spec fn valid_bits(bits: u16) -> bool {
    1 <= bits <= 32
}

/// How many bytes one sample of `bits` bits occupies on disk.
pub open spec fn bytes_per_sample(bits: u16) -> int {
    (bits + 7) as int / 8
}

/// Executable form of [`bytes_per_sample`].
pub fn bytes_per(bits: u16) -> (n: u16)
    requires
        valid_bits(bits),
    ensures
        n as int == bytes_per_sample(bits),
        1 <= n <= 4,
{
    (bits + 7) / 8
}

/// The smallest value representable at `bits` bits per sample.
pub open spec fn sample_min(bits: u16) -> int {
    -(pow2((bits - 1) as nat) as int)
}

/// The largest value representable at `bits` bits per sample.
pub open spec fn sample_max(bits: u16) -> int {
    pow2((bits - 1) as nat) - 1
}

/// Whether `v` is representable at `bits` bits per sample.
pub open spec fn in_range(v: int, bits: u16) -> bool {
    sample_min(bits) <= v <= sample_max(bits)
}

/// The on-disk bytes of the sample value `v` at `bits` bits per sample.
pub open spec fn encoded_sample(v: int, bits: u16) -> Seq<u8>
    recommends
        valid_bits(bits),
        in_range(v, bits),
{
    if bits <= 8 {
        seq![(v + 128) as u8]
    } else {
        let n = bytes_per_sample(bits) as nat;
        le_bytes(if v >= 0 { v } else { v + pow2(8 * n) }, n)
    }
}

/// The sample value denoted by the on-disk bytes `s` at `bits` bits per
/// sample: biased for one byte, sign-extended two's complement otherwise.
pub open spec fn decoded_sample(s: Seq<u8>, bits: u16) -> int
    recommends
        valid_bits(bits),
        s.len() == bytes_per_sample(bits),
{
    if bits <= 8 {
        s[0] - 128
    } else {
        let n = bytes_per_sample(bits) as nat;
        let u = le_value(s);
        if u < pow2((8 * n - 1) as nat) {
            u
        } else {
            u - pow2(8 * n)
        }
    }
}

/// A sample of `bits` bits fits in the bytes that hold it: `bits` is at most
/// eight times [`bytes_per_sample`], and the representable range grows with
/// the bit depth.
proof fn lemma_bits_fit(bits: u16)
    requires
        valid_bits(bits),
    ensures
        bits <= 8 * bytes_per_sample(bits),
        pow2((bits - 1) as nat) <= pow2((8 * bytes_per_sample(bits) - 1) as nat),
        pow2((8 * bytes_per_sample(bits) - 1) as nat) * 2 == pow2((8 * bytes_per_sample(
            bits,
        )) as nat),
{
    let n = bytes_per_sample(bits);
    lemma_fundamental_div_mod(bits + 7, 8);
    lemma_mod_bound(bits + 7, 8);
    let e1 = (bits - 1) as nat;
    let e2 = (8 * n - 1) as nat;
    if e1 < e2 {
        lemma_pow2_strictly_increases(e1, e2);
    }
    lemma_pow2_adds((8 * n - 1) as nat, 1);
    assert(pow2(1) == 2) by {
        lemma2_to64();
    }
}

/// Encoding a representable value and decoding the bytes again yields the
/// value; the encoding occupies exactly [`bytes_per_sample`] bytes.
pub proof fn lemma_codec_round_trip(v: int, bits: u16)
    requires
        valid_bits(bits),
        in_range(v, bits),
    ensures
        encoded_sample(v, bits).len() == bytes_per_sample(bits),
        decoded_sample(encoded_sample(v, bits), bits) == v,
{
    broadcast use lemma_le_bytes_len;

    lemma_bits_fit(bits);
    if bits <= 8 {
        assert(pow2((bits - 1) as nat) <= 128) by {
            let e1 = (bits - 1) as nat;
            if e1 < 7 {
                lemma_pow2_strictly_increases(e1, 7);
            }
            lemma2_to64();
        }
        let s = encoded_sample(v, bits);
        assert(s[0] == (v + 128) as u8);
    } else {
        let n = bytes_per_sample(bits) as nat;
        let half = pow2((8 * n - 1) as nat) as int;
        let full = pow2(8 * n) as int;
        let u = if v >= 0 { v } else { v + full };
        assert(pow2((bits - 1) as nat) <= half);
        assert(half * 2 == full);
        assert(0 <= u < full);
        lemma_le_round_trip(u, n);
    }
}

/// The decoded value of `n` bytes lies within the signed `8 * n`-bit range.
pub proof fn lemma_decoded_sample_bounds(s: Seq<u8>, bits: u16)
    requires
        valid_bits(bits),
        s.len() == bytes_per_sample(bits),
    ensures
        -(pow2((8 * s.len() - 1) as nat) as int) <= decoded_sample(s, bits) < pow2(
            (8 * s.len() - 1) as nat,
        ),
{
    lemma_bits_fit(bits);
    if bits <= 8 {
        assert(pow2(7) == 128) by {
            lemma2_to64();
        }
    } else {
        lemma_le_value_bound(s);
    }
}

/// Encodes one sample value at `bits` bits per sample and appends its bytes.
///
/// A value outside the representable range of the bit depth is rejected with
/// [`Error::TooWide`] and the output is left unchanged.
pub fn encode_sample(out: &mut Vec<u8>, v: i32, bits: u16) -> (r: Result<(), Error>)
    requires
        valid_bits(bits),
    ensures
        in_range(v as int, bits) ==> r is Ok && final(out)@ == old(out)@ + encoded_sample(
            v as int,
            bits,
        ),
        !in_range(v as int, bits) ==> r == Err::<(), Error>(Error::TooWide) && final(out)@ == old(
            out,
        )@,
{
    let half: u32 = pow2_exec(bits - 1);
    if bits < 32 && ((v as i64) < -(half as i64) || (v as i64) > (half as i64) - 1) {
        return Err(Error::TooWide);
    }
    proof {
        if bits == 32 {
            assert(pow2(31) == 0x80000000) by {
                lemma2_to64();
            }
        }
        lemma_bits_fit(bits);
    }
    if bits <= 8 {
        proof {
            assert(pow2((bits - 1) as nat) <= 128) by {
                let e1 = (bits - 1) as nat;
                if e1 < 7 {
                    lemma_pow2_strictly_increases(e1, 7);
                }
                lemma2_to64();
            }
        }
        out.push((v + 128) as u8);
        proof {
            assert(out@ =~= old(out)@ + encoded_sample(v as int, bits));
        }
    } else {
        let n = bytes_per(bits);
        proof {
            assert(pow2(16) == 65536 && pow2(24) == 16777216 && pow2(32) == 4294967296) by {
                lemma2_to64();
            }
        }
        let u: u32 = if v >= 0 {
            v as u32
        } else if n == 2 {
            ((v as i64) + 65536) as u32
        } else if n == 3 {
            ((v as i64) + 16777216) as u32
        } else {
            ((v as i64) + 4294967296i64) as u32
        };
        let ghost uv = if v >= 0 { v as int } else { v + pow2(8 * n as nat) };
        assert(u == uv);
        if n == 2 {
            out.push((u % 256) as u8);
            out.push((u / 256) as u8);
            proof {
                lemma_le_bytes_2(uv);
                assert((uv / 256) % 256 == uv / 256);
                assert(out@ =~= old(out)@ + encoded_sample(v as int, bits));
            }
        } else if n == 3 {
            out.push((u % 256) as u8);
            out.push(((u / 256) % 256) as u8);
            out.push((u / 65536) as u8);
            proof {
                lemma_le_bytes_3(uv);
                assert((uv / 65536) % 256 == uv / 65536);
                assert(out@ =~= old(out)@ + encoded_sample(v as int, bits));
            }
        } else {
            out.push((u % 256) as u8);
            out.push(((u / 256) % 256) as u8);
            out.push(((u / 65536) % 256) as u8);
            out.push((u / 16777216) as u8);
            proof {
                lemma_le_bytes_4(uv);
                assert((uv / 16777216) % 256 == uv / 16777216);
                assert(out@ =~= old(out)@ + encoded_sample(v as int, bits));
            }
        }
    }
    Ok(())
}

/// Decodes the sample stored at `pos` at `bits` bits per sample.
pub fn decode_sample(data: &Vec<u8>, pos: usize, bits: u16) -> (v: i32)
    requires
        valid_bits(bits),
        pos + bytes_per_sample(bits) <= data@.len(),
    ensures
        v as int == decoded_sample(
            data@.subrange(pos as int, pos as int + bytes_per_sample(bits)),
            bits,
        ),
{
    proof {
        assert(pow2(15) == 32768 && pow2(16) == 65536 && pow2(23) == 8388608 && pow2(24)
            == 16777216 && pow2(31) == 2147483648 && pow2(32) == 4294967296) by {
            lemma2_to64();
        }
    }
    if bits <= 8 {
        assert(pos < data.len());
        data[pos] as i32 - 128
    } else {
        let n = bytes_per(bits);
        if n == 2 {
            let u = read_u16(data, pos);
            if u < 32768 {
                u as i32
            } else {
                u as i32 - 65536
            }
        } else if n == 3 {
            let u = read_u24(data, pos);
            if u < 8388608 {
                u as i32
            } else {
                (u as i64 - 16777216) as i32
            }
        } else {
            let u = read_u32(data, pos);
            proof {
                lemma_le_value_bound(data@.subrange(pos as int, pos as int + 4));
            }
            if u < 2147483648 {
                u as i32
            } else {
                ((u as i64) - 4294967296i64) as i32
            }
        }
    }
}

/// Computes `pow2(e)` for exponents below 32.
fn pow2_exec(e: u16) -> (m: u32)
    requires
        e <= 31,
    ensures
        m as int == pow2(e as nat),
{
    proof {
        assert(pow2(0) == 1) by {
            lemma2_to64();
        }
    }
    let mut m: u32 = 1;
    let mut i: u16 = 0;
    while i < e
        invariant
            i <= e <= 31,
            m as int == pow2(i as nat),
        decreases e - i,
    {
        proof {
            lemma_pow2_adds(i as nat, 1);
            assert(pow2(1) == 2) by {
                lemma2_to64();
            }
            if (i as nat) < 30 {
                lemma_pow2_strictly_increases(i as nat, 30);
            }
            assert(pow2(30) == 0x40000000) by {
                lemma2_to64();
            }
        }
        m = m * 2;
        i = i + 1;
    }
    m
}

} // verus!
