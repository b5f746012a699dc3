//! Little-endian byte sequences: the mathematical model of multi-byte fields
//! in a RIFF stream, and verified readers and writers for them.

use vstd::arithmetic::div_mod::{
    lemma_div_denominator,
    lemma_fundamental_div_mod, lemma_multiply_divide_lt,
};
use vstd::arithmetic::power2::{lemma2_to64, lemma_pow2_adds, pow2};
use vstd::prelude::*;

verus! {

/// The unsigned integer that a little-endian byte sequence denotes.
pub open spec fn le_value(s: Seq<u8>) -> int
    decreases s.len(),
{
    if s.len() == 0 {
        0
    } else {
        s[0] + 256 * le_value(s.subrange(1, s.len() as int))
    }
}

/// The `n` little-endian bytes of the unsigned integer `u`.
pub open spec fn le_bytes(u: int, n: nat) -> Seq<u8>
    decreases n,
{
    if n == 0 {
        Seq::empty()
    } else {
        seq![(u % 256) as u8] + le_bytes(u / 256, (n - 1) as nat)
    }
}

pub broadcast proof fn lemma_le_bytes_len(u: int, n: nat)
    ensures
        #[trigger] le_bytes(u, n).len() == n,
    decreases n,
{
    if n > 0 {
        lemma_le_bytes_len(u / 256, (n - 1) as nat);
    }
}

/// A little-endian byte sequence of length `n` denotes a value below `pow2(8 * n)`.
pub proof fn lemma_le_value_bound(s: Seq<u8>)
    ensures
        0 <= le_value(s) < pow2(8 * s.len()),
    decreases s.len(),
{
    if s.len() == 0 {
        assert(pow2(0) == 1) by {
            lemma2_to64();
        }
    } else {
        let rest = s.subrange(1, s.len() as int);
        lemma_le_value_bound(rest);
        lemma_pow2_adds(8, 8 * rest.len());
        assert(pow2(8) == 256) by {
            lemma2_to64();
        }
    }
}

/// Writing `n` bytes of a value below `pow2(8 * n)` and reading them back
/// yields the value again.
pub proof fn lemma_le_round_trip(u: int, n: nat)
    requires
        0 <= u < pow2(8 * n),
    ensures
        le_value(le_bytes(u, n)) == u,
    decreases n,
{
    broadcast use lemma_le_bytes_len;

    if n == 0 {
        assert(pow2(0) == 1) by {
            lemma2_to64();
        }
    } else {
        let s = le_bytes(u, n);
        let rest = le_bytes(u / 256, (n - 1) as nat);
        assert(s.subrange(1, s.len() as int) =~= rest);
        assert(pow2(8) == 256) by {
            lemma2_to64();
        }
        lemma_pow2_adds(8, 8 * ((n - 1) as nat));
        assert(u / 256 < pow2(8 * (n - 1) as nat)) by {
            lemma_multiply_divide_lt(u, 256, pow2(8 * (n - 1) as nat) as int);
        }
        lemma_le_round_trip(u / 256, (n - 1) as nat);
        lemma_fundamental_div_mod(u, 256);
    }
}

/// The two little-endian bytes of a value, written out.
pub proof fn lemma_le_bytes_2(u: int)
    requires
        0 <= u,
    ensures
        le_bytes(u, 2) =~= seq![(u % 256) as u8, ((u / 256) % 256) as u8],
{
    assert(le_bytes(u / 256 / 256, 0) =~= Seq::<u8>::empty());
    assert(le_bytes(u / 256, 1) =~= seq![((u / 256) % 256) as u8]);
}

/// The three little-endian bytes of a value, written out.
pub proof fn lemma_le_bytes_3(u: int)
    requires
        0 <= u,
    ensures
        le_bytes(u, 3) =~= seq![
            (u % 256) as u8,
            ((u / 256) % 256) as u8,
            ((u / 65536) % 256) as u8,
        ],
{
    lemma_div_denominator(u, 256, 256);
    assert(le_bytes(u / 256 / 256 / 256, 0) =~= Seq::<u8>::empty());
    assert(le_bytes(u / 256 / 256, 1) =~= seq![((u / 65536) % 256) as u8]);
    assert(le_bytes(u / 256, 2) =~= seq![
        ((u / 256) % 256) as u8,
        ((u / 65536) % 256) as u8,
    ]);
}

/// The four little-endian bytes of a value, written out.
pub proof fn lemma_le_bytes_4(u: int)
    requires
        0 <= u,
    ensures
        le_bytes(u, 4) =~= seq![
            (u % 256) as u8,
            ((u / 256) % 256) as u8,
            ((u / 65536) % 256) as u8,
            ((u / 16777216) % 256) as u8,
        ],
{
    lemma_div_denominator(u, 256, 256);
    lemma_div_denominator(u, 65536, 256);
    assert(le_bytes(u / 256 / 256 / 256 / 256, 0) =~= Seq::<u8>::empty());
    assert(le_bytes(u / 256 / 256 / 256, 1) =~= seq![((u / 16777216) % 256) as u8]);
    assert(le_bytes(u / 256 / 256, 2) =~= seq![
        ((u / 65536) % 256) as u8,
        ((u / 16777216) % 256) as u8,
    ]);
    assert(le_bytes(u / 256, 3) =~= seq![
        ((u / 256) % 256) as u8,
        ((u / 65536) % 256) as u8,
        ((u / 16777216) % 256) as u8,
    ]);
}

/// The value of a two-byte sequence, written out.
pub proof fn lemma_le_value_2(s: Seq<u8>)
    requires
        s.len() == 2,
    ensures
        le_value(s) == s[0] + 256 * s[1],
{
    let s1 = s.subrange(1, 2);
    assert(s1[0] == s[1]);
    assert(s1.subrange(1, 1) =~= Seq::<u8>::empty());
    assert(le_value(s1.subrange(1, 1)) == 0);
    assert(le_value(s1) == s1[0] + 256 * le_value(s1.subrange(1, 1)));
    assert(s.subrange(1, s.len() as int) == s1);
}

/// The value of a three-byte sequence, written out.
pub proof fn lemma_le_value_3(s: Seq<u8>)
    requires
        s.len() == 3,
    ensures
        le_value(s) == s[0] + 256 * s[1] + 65536 * s[2],
{
    let s1 = s.subrange(1, 3);
    assert(s1[0] == s[1]);
    lemma_le_value_2(s1);
    assert(s1[1] == s[2]);
}

/// The value of a four-byte sequence, written out.
pub proof fn lemma_le_value_4(s: Seq<u8>)
    requires
        s.len() == 4,
    ensures
        le_value(s) == s[0] + 256 * s[1] + 65536 * s[2] + 16777216 * s[3],
{
    let s1 = s.subrange(1, 4);
    assert(s1[0] == s[1]);
    lemma_le_value_3(s1);
    assert(s1[1] == s[2] && s1[2] == s[3]);
}

/// Reads the little-endian `u16` at `pos`.
pub fn read_u16(data: &Vec<u8>, pos: usize) -> (x: u16)
    requires
        pos + 2 <= data@.len(),
    ensures
        x as int == le_value(data@.subrange(pos as int, pos as int + 2)),
{
    assert(pos + 2 <= data.len());
    let b0 = data[pos];
    let b1 = data[pos + 1];
    proof {
        let s = data@.subrange(pos as int, pos as int + 2);
        lemma_le_value_2(s);
        assert(s[0] == b0 && s[1] == b1);
    }
    b0 as u16 + 256 * (b1 as u16)
}

/// Reads the little-endian three-byte value at `pos`.
pub fn read_u24(data: &Vec<u8>, pos: usize) -> (x: u32)
    requires
        pos + 3 <= data@.len(),
    ensures
        x as int == le_value(data@.subrange(pos as int, pos as int + 3)),
        x < 16777216,
{
    assert(pos + 3 <= data.len());
    let b0 = data[pos];
    let b1 = data[pos + 1];
    let b2 = data[pos + 2];
    proof {
        let s = data@.subrange(pos as int, pos as int + 3);
        lemma_le_value_3(s);
        assert(s[0] == b0 && s[1] == b1 && s[2] == b2);
    }
    b0 as u32 + 256 * (b1 as u32) + 65536 * (b2 as u32)
}

/// Reads the little-endian `u32` at `pos`.
pub fn read_u32(data: &Vec<u8>, pos: usize) -> (x: u32)
    requires
        pos + 4 <= data@.len(),
    ensures
        x as int == le_value(data@.subrange(pos as int, pos as int + 4)),
{
    assert(pos + 4 <= data.len());
    let b0 = data[pos];
    let b1 = data[pos + 1];
    let b2 = data[pos + 2];
    let b3 = data[pos + 3];
    proof {
        let s = data@.subrange(pos as int, pos as int + 4);
        lemma_le_value_4(s);
        assert(s[0] == b0 && s[1] == b1 && s[2] == b2 && s[3] == b3);
    }
    b0 as u32 + 256 * (b1 as u32) + 65536 * (b2 as u32) + 16777216 * (b3 as u32)
}

/// Appends a `u16` as two little-endian bytes.
pub fn push_u16(out: &mut Vec<u8>, x: u16)
    ensures
        final(out)@ == old(out)@ + le_bytes(x as int, 2),
{
    out.push((x % 256) as u8);
    out.push((x / 256) as u8);
    proof {
        lemma_le_bytes_2(x as int);
        assert(out@ =~= old(out)@ + le_bytes(x as int, 2));
    }
}

/// Appends a `u32` as four little-endian bytes.
pub fn push_u32(out: &mut Vec<u8>, x: u32)
    ensures
        final(out)@ == old(out)@ + le_bytes(x as int, 4),
{
    out.push((x % 256) as u8);
    out.push(((x / 256) % 256) as u8);
    out.push(((x / 65536) % 256) as u8);
    out.push((x / 16777216) as u8);
    proof {
        lemma_le_bytes_4(x as int);
        assert(out@ =~= old(out)@ + le_bytes(x as int, 4));
    }
}

/// Overwrites the four bytes at `pos` with a `u32` in little-endian order.
pub fn set_u32(out: &mut Vec<u8>, pos: usize, x: u32)
    requires
        pos + 4 <= old(out)@.len(),
    ensures
        final(out)@ == old(out)@.subrange(0, pos as int) + le_bytes(x as int, 4)
            + old(out)@.subrange(pos as int + 4, old(out)@.len() as int),
{
    assert(pos + 4 <= old(out).len());
    out[pos] = (x % 256) as u8;
    out[pos + 1] = ((x / 256) % 256) as u8;
    out[pos + 2] = ((x / 65536) % 256) as u8;
    out[pos + 3] = (x / 16777216) as u8;
    proof {
        lemma_le_bytes_4(x as int);
        assert(out@ =~= old(out)@.subrange(0, pos as int) + le_bytes(x as int, 4)
            + old(out)@.subrange(pos as int + 4, old(out)@.len() as int));
    }
}

/// Compares the four bytes at `pos` with a chunk tag.
pub fn tag_eq(data: &Vec<u8>, pos: usize, t0: u8, t1: u8, t2: u8, t3: u8) -> (b: bool)
    requires
        pos + 4 <= data@.len(),
    ensures
        b == (data@.subrange(pos as int, pos as int + 4) == seq![t0, t1, t2, t3]),
{
    assert(pos + 4 <= data.len());
    let b = data[pos] == t0 && data[pos + 1] == t1 && data[pos + 2] == t2 && data[pos + 3] == t3;
    proof {
        let s = data@.subrange(pos as int, pos as int + 4);
        assert(s[0] == data@[pos as int] && s[1] == data@[pos as int + 1] && s[2] == data@[pos
            as int + 2] && s[3] == data@[pos as int + 3]);
        if b {
            assert(s =~= seq![t0, t1, t2, t3]);
        }
    }
    b
}

} // verus!
