//! WAV, BWF and AIFF codec over integer PCM samples.
//!
//! Audio data is held as raw integer sample values at the file's bit
//! depth: a sign-extended 8-, 16-, 24- or 32-bit integer per sample (for
//! 32-bit IEEE-float files, the raw bit pattern). Turning these integers
//! into normalized floating-point samples is a floating-point operation
//! and is left to the callers; everything byte-level - container headers,
//! chunk scanning, field encodings, marker and broadcast metadata - is
//! verified here.

use vstd::prelude::*;
use vstd::string::StringSliceAdditionalSpecFns;
use vstd::arithmetic::div_mod::{lemma_fundamental_div_mod, lemma_div_denominator};
use crate::realtime::MKAudioError;

verus! {

/// Byte order of a container: WAV is little-endian, AIFF big-endian.
#[derive(Debug, Clone, Copy, PartialEq, Eq, Structural)]
pub enum Endianness {
    /// Most significant byte first.
    Big,
    /// Least significant byte first.
    Little,
}

// ==========================================
// Integer fields
// ==========================================

/// The 16-bit value stored at `i` in the given byte order.
pub open spec fn u16_at(b: Seq<u8>, i: int, endianness: Endianness) -> u16 {
    match endianness {
        Endianness::Little => (b[i] + b[i + 1] * 0x100) as u16,
        Endianness::Big => (b[i + 1] + b[i] * 0x100) as u16,
    }
}

/// The 32-bit value stored at `i` in the given byte order.
pub open spec fn u32_at(b: Seq<u8>, i: int, endianness: Endianness) -> u32 {
    match endianness {
        Endianness::Little => (b[i] + b[i + 1] * 0x100 + b[i + 2] * 0x10000 + b[i + 3]
            * 0x1000000) as u32,
        Endianness::Big => (b[i + 3] + b[i + 2] * 0x100 + b[i + 1] * 0x10000 + b[i]
            * 0x1000000) as u32,
    }
}

/// The 64-bit value stored at `i` in the given byte order.
pub open spec fn u64_at(b: Seq<u8>, i: int, endianness: Endianness) -> u64 {
    match endianness {
        Endianness::Little => (b[i] + b[i + 1] * 0x100 + b[i + 2] * 0x10000 + b[i + 3] * 0x1000000
            + b[i + 4] * 0x100000000 + b[i + 5] * 0x10000000000 + b[i + 6] * 0x1000000000000 + b[i
            + 7] * 0x100000000000000) as u64,
        Endianness::Big => (b[i + 7] + b[i + 6] * 0x100 + b[i + 5] * 0x10000 + b[i + 4] * 0x1000000
            + b[i + 3] * 0x100000000 + b[i + 2] * 0x10000000000 + b[i + 1] * 0x1000000000000 + b[i]
            * 0x100000000000000) as u64,
    }
}

/// The two bytes encoding a 16-bit value in the given byte order.
pub open spec fn u16_bytes(x: u16, endianness: Endianness) -> Seq<u8> {
    match endianness {
        Endianness::Little => seq![(x % 0x100) as u8, (x / 0x100) as u8],
        Endianness::Big => seq![(x / 0x100) as u8, (x % 0x100) as u8],
    }
}

/// The four bytes encoding a 32-bit value in the given byte order.
pub open spec fn u32_bytes(x: u32, endianness: Endianness) -> Seq<u8> {
    match endianness {
        Endianness::Little => seq![
            (x % 0x100) as u8,
            ((x / 0x100) % 0x100) as u8,
            ((x / 0x10000) % 0x100) as u8,
            (x / 0x1000000) as u8,
        ],
        Endianness::Big => seq![
            (x / 0x1000000) as u8,
            ((x / 0x10000) % 0x100) as u8,
            ((x / 0x100) % 0x100) as u8,
            (x % 0x100) as u8,
        ],
    }
}

/// The eight bytes encoding a 64-bit value in the given byte order.
pub open spec fn u64_bytes(x: u64, endianness: Endianness) -> Seq<u8> {
    match endianness {
        Endianness::Little => seq![
            (x % 0x100) as u8,
            ((x / 0x100) % 0x100) as u8,
            ((x / 0x10000) % 0x100) as u8,
            ((x / 0x1000000) % 0x100) as u8,
            ((x / 0x100000000) % 0x100) as u8,
            ((x / 0x10000000000) % 0x100) as u8,
            ((x / 0x1000000000000) % 0x100) as u8,
            (x / 0x100000000000000) as u8,
        ],
        Endianness::Big => seq![
            (x / 0x100000000000000) as u8,
            ((x / 0x1000000000000) % 0x100) as u8,
            ((x / 0x10000000000) % 0x100) as u8,
            ((x / 0x100000000) % 0x100) as u8,
            ((x / 0x1000000) % 0x100) as u8,
            ((x / 0x10000) % 0x100) as u8,
            ((x / 0x100) % 0x100) as u8,
            (x % 0x100) as u8,
        ],
    }
}

/// Read a 16-bit field; out-of-range reads yield 0.
pub fn get_u16(buffer: &[u8], start: usize, endianness: Endianness) -> (r: u16)
    ensures
        start + 2 <= buffer@.len() ==> r == u16_at(buffer@, start as int, endianness),
        start + 2 > buffer@.len() ==> r == 0,
{
    if buffer.len() >= 2 && start <= buffer.len() - 2 {
        let b0 = buffer[start];
        let b1 = buffer[start + 1];
        match endianness {
            Endianness::Little => b0 as u16 + b1 as u16 * 0x100,
            Endianness::Big => b1 as u16 + b0 as u16 * 0x100,
        }
    } else {
        0
    }
}

/// Read a 32-bit field; out-of-range reads yield 0.
pub fn get_u32(buffer: &[u8], start: usize, endianness: Endianness) -> (r: u32)
    ensures
        start + 4 <= buffer@.len() ==> r == u32_at(buffer@, start as int, endianness),
        start + 4 > buffer@.len() ==> r == 0,
{
    if buffer.len() >= 4 && start <= buffer.len() - 4 {
        let b0 = buffer[start] as u32;
        let b1 = buffer[start + 1] as u32;
        let b2 = buffer[start + 2] as u32;
        let b3 = buffer[start + 3] as u32;
        match endianness {
            Endianness::Little => b0 + b1 * 0x100 + b2 * 0x10000 + b3 * 0x1000000,
            Endianness::Big => b3 + b2 * 0x100 + b1 * 0x10000 + b0 * 0x1000000,
        }
    } else {
        0
    }
}

/// Read a 64-bit field; out-of-range reads yield 0.
pub fn get_u64(buffer: &[u8], start: usize, endianness: Endianness) -> (r: u64)
    ensures
        start + 8 <= buffer@.len() ==> r == u64_at(buffer@, start as int, endianness),
        start + 8 > buffer@.len() ==> r == 0,
{
    if buffer.len() >= 8 && start <= buffer.len() - 8 {
        let b0 = buffer[start] as u64;
        let b1 = buffer[start + 1] as u64;
        let b2 = buffer[start + 2] as u64;
        let b3 = buffer[start + 3] as u64;
        let b4 = buffer[start + 4] as u64;
        let b5 = buffer[start + 5] as u64;
        let b6 = buffer[start + 6] as u64;
        let b7 = buffer[start + 7] as u64;
        match endianness {
            Endianness::Little => b0 + b1 * 0x100 + b2 * 0x10000 + b3 * 0x1000000 + b4
                * 0x100000000 + b5 * 0x10000000000 + b6 * 0x1000000000000 + b7
                * 0x100000000000000,
            Endianness::Big => b7 + b6 * 0x100 + b5 * 0x10000 + b4 * 0x1000000 + b3 * 0x100000000
                + b2 * 0x10000000000 + b1 * 0x1000000000000 + b0 * 0x100000000000000,
        }
    } else {
        0
    }
}

/// Append a 16-bit field in the given byte order.
pub fn set_u16(buffer: &mut Vec<u8>, data: u16, endianness: Endianness)
    ensures
        final(buffer)@ == old(buffer)@ + u16_bytes(data, endianness),
{
    match endianness {
        Endianness::Little => {
            buffer.push((data % 0x100) as u8);
            buffer.push((data / 0x100) as u8);
        },
        Endianness::Big => {
            buffer.push((data / 0x100) as u8);
            buffer.push((data % 0x100) as u8);
        },
    }
    proof {
        assert(final(buffer)@ =~= old(buffer)@ + u16_bytes(data, endianness));
    }
}

/// Append a 32-bit field in the given byte order.
pub fn set_u32(buffer: &mut Vec<u8>, data: u32, endianness: Endianness)
    ensures
        final(buffer)@ == old(buffer)@ + u32_bytes(data, endianness),
{
    match endianness {
        Endianness::Little => {
            buffer.push((data % 0x100) as u8);
            buffer.push(((data / 0x100) % 0x100) as u8);
            buffer.push(((data / 0x10000) % 0x100) as u8);
            buffer.push((data / 0x1000000) as u8);
        },
        Endianness::Big => {
            buffer.push((data / 0x1000000) as u8);
            buffer.push(((data / 0x10000) % 0x100) as u8);
            buffer.push(((data / 0x100) % 0x100) as u8);
            buffer.push((data % 0x100) as u8);
        },
    }
    proof {
        assert(final(buffer)@ =~= old(buffer)@ + u32_bytes(data, endianness));
    }
}

/// Append a 64-bit field in the given byte order.
pub fn set_u64(buffer: &mut Vec<u8>, data: u64, endianness: Endianness)
    ensures
        final(buffer)@ == old(buffer)@ + u64_bytes(data, endianness),
{
    match endianness {
        Endianness::Little => {
            buffer.push((data % 0x100) as u8);
            buffer.push(((data / 0x100) % 0x100) as u8);
            buffer.push(((data / 0x10000) % 0x100) as u8);
            buffer.push(((data / 0x1000000) % 0x100) as u8);
            buffer.push(((data / 0x100000000) % 0x100) as u8);
            buffer.push(((data / 0x10000000000) % 0x100) as u8);
            buffer.push(((data / 0x1000000000000) % 0x100) as u8);
            buffer.push((data / 0x100000000000000) as u8);
        },
        Endianness::Big => {
            buffer.push((data / 0x100000000000000) as u8);
            buffer.push(((data / 0x1000000000000) % 0x100) as u8);
            buffer.push(((data / 0x10000000000) % 0x100) as u8);
            buffer.push(((data / 0x100000000) % 0x100) as u8);
            buffer.push(((data / 0x1000000) % 0x100) as u8);
            buffer.push(((data / 0x10000) % 0x100) as u8);
            buffer.push(((data / 0x100) % 0x100) as u8);
            buffer.push((data % 0x100) as u8);
        },
    }
    proof {
        assert(final(buffer)@ =~= old(buffer)@ + u64_bytes(data, endianness));
    }
}

/// Append the bytes of a string.
pub fn set_string(buffer: &mut Vec<u8>, string: &str)
    ensures
        final(buffer)@ == old(buffer)@ + string.spec_bytes(),
{
    let bytes = string.as_bytes();
    let mut i: usize = 0;
    while i < bytes.len()
        invariant
            i <= bytes@.len(),
            bytes@ == string.spec_bytes(),
            buffer@ == old(buffer)@ + bytes@.subrange(0, i as int),
        decreases bytes@.len() - i,
    {
        buffer.push(bytes[i]);
        i += 1;
        proof {
            assert(buffer@ =~= old(buffer)@ + bytes@.subrange(0, i as int));
        }
    }
    proof {
        assert(bytes@.subrange(0, bytes@.len() as int) =~= bytes@);
    }
}

/// Reading back the two bytes of a 16-bit field gives the value.
pub proof fn lemma_u16_roundtrip(x: u16, endianness: Endianness)
    ensures
        u16_bytes(x, endianness).len() == 2,
        u16_at(u16_bytes(x, endianness), 0, endianness) == x,
{
}

/// Reading back the four bytes of a 32-bit field gives the value.
pub proof fn lemma_u32_roundtrip(x: u32, endianness: Endianness)
    ensures
        u32_bytes(x, endianness).len() == 4,
        u32_at(u32_bytes(x, endianness), 0, endianness) == x,
{
}

/// Reading back the eight bytes of a 64-bit field gives the value.
#[verifier::rlimit(100)]
pub proof fn lemma_u64_roundtrip(x: u64, endianness: Endianness)
    ensures
        u64_bytes(x, endianness).len() == 8,
        u64_at(u64_bytes(x, endianness), 0, endianness) == x,
{
    let xi = x as int;
    lemma_fundamental_div_mod(xi, 0x100);
    lemma_div_denominator(xi, 0x100, 0x100);
    lemma_fundamental_div_mod(xi / 0x100, 0x100);
    lemma_div_denominator(xi, 0x10000, 0x100);
    lemma_fundamental_div_mod(xi / 0x10000, 0x100);
    lemma_div_denominator(xi, 0x1000000, 0x100);
    lemma_fundamental_div_mod(xi / 0x1000000, 0x100);
    lemma_div_denominator(xi, 0x100000000, 0x100);
    lemma_fundamental_div_mod(xi / 0x100000000, 0x100);
    lemma_div_denominator(xi, 0x10000000000, 0x100);
    lemma_fundamental_div_mod(xi / 0x10000000000, 0x100);
    lemma_div_denominator(xi, 0x1000000000000, 0x100);
    lemma_fundamental_div_mod(xi / 0x1000000000000, 0x100);
    assert(xi / 0x100000000000000 < 0x100);
}

// ==========================================
// AIFF extended-precision sample rate table
// ==========================================

/// The middle bytes of the ten-byte extended-precision encoding of each
/// supported AIFF sample rate: every supported encoding has the form
/// `[64, e, a, b, 0, 0, 0, 0, 0, 0]`. Rates outside the table have no
/// encoding here.
pub open spec fn aiff_rate_triple(rate: usize) -> Option<(u8, u8, u8)> {
    if rate == 8000 {
        Some((11u8, 250u8, 0u8))
    } else if rate == 11025 {
        Some((12u8, 172u8, 68u8))
    } else if rate == 16000 {
        Some((12u8, 250u8, 0u8))
    } else if rate == 22050 {
        Some((13u8, 172u8, 68u8))
    } else if rate == 32000 {
        Some((13u8, 250u8, 0u8))
    } else if rate == 37800 {
        Some((14u8, 147u8, 168u8))
    } else if rate == 44056 {
        Some((14u8, 172u8, 24u8))
    } else if rate == 44100 {
        Some((14u8, 172u8, 68u8))
    } else if rate == 47250 {
        Some((14u8, 184u8, 146u8))
    } else if rate == 48000 {
        Some((14u8, 187u8, 128u8))
    } else if rate == 50000 {
        Some((14u8, 195u8, 80u8))
    } else if rate == 50400 {
        Some((14u8, 196u8, 224u8))
    } else if rate == 88200 {
        Some((15u8, 172u8, 68u8))
    } else if rate == 96000 {
        Some((15u8, 187u8, 128u8))
    } else if rate == 176400 {
        Some((16u8, 172u8, 68u8))
    } else if rate == 192000 {
        Some((16u8, 187u8, 128u8))
    } else if rate == 352800 {
        Some((17u8, 172u8, 68u8))
    } else if rate == 2822400 {
        Some((20u8, 172u8, 68u8))
    } else if rate == 5644800 {
        Some((21u8, 172u8, 68u8))
    } else {
        None
    }
}

/// The sample rate whose table encoding has these middle bytes, or 0.
pub open spec fn aiff_rate_from_triple(e: u8, a: u8, b: u8) -> usize {
    if e == 11 && a == 250 && b == 0 {
        8000
    } else if e == 12 && a == 172 && b == 68 {
        11025
    } else if e == 12 && a == 250 && b == 0 {
        16000
    } else if e == 13 && a == 172 && b == 68 {
        22050
    } else if e == 13 && a == 250 && b == 0 {
        32000
    } else if e == 14 && a == 147 && b == 168 {
        37800
    } else if e == 14 && a == 172 && b == 24 {
        44056
    } else if e == 14 && a == 172 && b == 68 {
        44100
    } else if e == 14 && a == 184 && b == 146 {
        47250
    } else if e == 14 && a == 187 && b == 128 {
        48000
    } else if e == 14 && a == 195 && b == 80 {
        50000
    } else if e == 14 && a == 196 && b == 224 {
        50400
    } else if e == 15 && a == 172 && b == 68 {
        88200
    } else if e == 15 && a == 187 && b == 128 {
        96000
    } else if e == 16 && a == 172 && b == 68 {
        176400
    } else if e == 16 && a == 187 && b == 128 {
        192000
    } else if e == 17 && a == 172 && b == 68 {
        352800
    } else if e == 20 && a == 172 && b == 68 {
        2822400
    } else if e == 21 && a == 172 && b == 68 {
        5644800
    } else {
        0
    }
}

/// The ten-byte table encoding of a supported sample rate.
pub open spec fn aiff_rate_bytes(rate: usize) -> Seq<u8>
    recommends
        aiff_rate_triple(rate) is Some,
{
    let (e, a, b) = aiff_rate_triple(rate)->Some_0;
    seq![64u8, e, a, b, 0u8, 0u8, 0u8, 0u8, 0u8, 0u8]
}

/// The sample rate decoded from the ten bytes at `i`: 0 when the bytes
/// match no table entry.
pub open spec fn aiff_rate_at(b: Seq<u8>, i: int) -> usize {
    if b[i] == 64 && b[i + 4] == 0 && b[i + 5] == 0 && b[i + 6] == 0 && b[i + 7] == 0 && b[i + 8]
        == 0 && b[i + 9] == 0 {
        aiff_rate_from_triple(b[i + 1], b[i + 2], b[i + 3])
    } else {
        0
    }
}

/// Decode the ten-byte extended-precision sample rate at `start` through
/// the fixed lookup table; rates absent from the table yield 0.
pub fn get_aiff_sample_rate(buffer: &[u8], start: usize) -> (r: usize)
    ensures
        start + 10 <= buffer@.len() ==> r == aiff_rate_at(buffer@, start as int),
        start + 10 > buffer@.len() ==> r == 0,
{
    if buffer.len() >= 10 && start <= buffer.len() - 10 {
        if buffer[start] != 64 {
            return 0;
        }
        let mut k: usize = 4;
        while k < 10
            invariant
                4 <= k <= 10,
                start + 10 <= buffer@.len(),
                buffer@.len() <= usize::MAX,
                forall|j: int| 4 <= j < k ==> #[trigger] buffer@[start + j] == 0,
            decreases 10 - k,
        {
            if buffer[start + k] != 0 {
                return 0;
            }
            k += 1;
        }
        let e = buffer[start + 1];
        let a = buffer[start + 2];
        let b = buffer[start + 3];
        if e == 11 && a == 250 && b == 0 {
            8000
        } else if e == 12 && a == 172 && b == 68 {
            11025
        } else if e == 12 && a == 250 && b == 0 {
            16000
        } else if e == 13 && a == 172 && b == 68 {
            22050
        } else if e == 13 && a == 250 && b == 0 {
            32000
        } else if e == 14 && a == 147 && b == 168 {
            37800
        } else if e == 14 && a == 172 && b == 24 {
            44056
        } else if e == 14 && a == 172 && b == 68 {
            44100
        } else if e == 14 && a == 184 && b == 146 {
            47250
        } else if e == 14 && a == 187 && b == 128 {
            48000
        } else if e == 14 && a == 195 && b == 80 {
            50000
        } else if e == 14 && a == 196 && b == 224 {
            50400
        } else if e == 15 && a == 172 && b == 68 {
            88200
        } else if e == 15 && a == 187 && b == 128 {
            96000
        } else if e == 16 && a == 172 && b == 68 {
            176400
        } else if e == 16 && a == 187 && b == 128 {
            192000
        } else if e == 17 && a == 172 && b == 68 {
            352800
        } else if e == 20 && a == 172 && b == 68 {
            2822400
        } else if e == 21 && a == 172 && b == 68 {
            5644800
        } else {
            0
        }
    } else {
        0
    }
}

/// Whether a sample rate has a ten-byte table encoding.
pub fn aiff_rate_known(rate: usize) -> (r: bool)
    ensures
        r == (aiff_rate_triple(rate) is Some),
{
    rate == 8000 || rate == 11025 || rate == 16000 || rate == 22050 || rate == 32000 || rate
        == 37800 || rate == 44056 || rate == 44100 || rate == 47250 || rate == 48000 || rate
        == 50000 || rate == 50400 || rate == 88200 || rate == 96000 || rate == 176400 || rate
        == 192000 || rate == 352800 || rate == 2822400 || rate == 5644800
}

/// Append the ten-byte table encoding of a supported sample rate.
pub fn set_aiff_sample_rate(buffer: &mut Vec<u8>, sample_rate: usize)
    requires
        aiff_rate_triple(sample_rate) is Some,
    ensures
        final(buffer)@ == old(buffer)@ + aiff_rate_bytes(sample_rate),
{
    let (e, a, b): (u8, u8, u8) = if sample_rate == 8000 {
        (11, 250, 0)
    } else if sample_rate == 11025 {
        (12, 172, 68)
    } else if sample_rate == 16000 {
        (12, 250, 0)
    } else if sample_rate == 22050 {
        (13, 172, 68)
    } else if sample_rate == 32000 {
        (13, 250, 0)
    } else if sample_rate == 37800 {
        (14, 147, 168)
    } else if sample_rate == 44056 {
        (14, 172, 24)
    } else if sample_rate == 44100 {
        (14, 172, 68)
    } else if sample_rate == 47250 {
        (14, 184, 146)
    } else if sample_rate == 48000 {
        (14, 187, 128)
    } else if sample_rate == 50000 {
        (14, 195, 80)
    } else if sample_rate == 50400 {
        (14, 196, 224)
    } else if sample_rate == 88200 {
        (15, 172, 68)
    } else if sample_rate == 96000 {
        (15, 187, 128)
    } else if sample_rate == 176400 {
        (16, 172, 68)
    } else if sample_rate == 192000 {
        (16, 187, 128)
    } else if sample_rate == 352800 {
        (17, 172, 68)
    } else if sample_rate == 2822400 {
        (20, 172, 68)
    } else {
        (21, 172, 68)
    };
    buffer.push(64);
    buffer.push(e);
    buffer.push(a);
    buffer.push(b);
    let mut k: usize = 0;
    while k < 6
        invariant
            k <= 6,
            buffer@ == old(buffer)@ + seq![64u8, e, a, b] + Seq::new(k as nat, |j: int| 0u8),
        decreases 6 - k,
    {
        buffer.push(0);
        k += 1;
        proof {
            assert(buffer@ =~= old(buffer)@ + seq![64u8, e, a, b] + Seq::new(
                k as nat,
                |j: int| 0u8,
            ));
        }
    }
    proof {
        assert(buffer@ =~= old(buffer)@ + aiff_rate_bytes(sample_rate));
    }
}

/// Whether the ten bytes at `start1` and `start2` agree.
pub fn ten_byte_match(buffer1: &[u8], start1: usize, buffer2: &[u8], start2: usize) -> (r: bool)
    requires
        start1 + 10 <= buffer1@.len(),
        start2 + 10 <= buffer2@.len(),
    ensures
        r == forall|k: int| 0 <= k < 10 ==> #[trigger] buffer1@[start1 + k] == buffer2@[start2 + k],
{
    proof {
        vstd::slice::axiom_spec_len(buffer1);
        vstd::slice::axiom_spec_len(buffer2);
    }
    let mut k: usize = 0;
    while k < 10
        invariant
            k <= 10,
            start1 + 10 <= buffer1@.len(),
            start2 + 10 <= buffer2@.len(),
            buffer1@.len() <= usize::MAX,
            buffer2@.len() <= usize::MAX,
            forall|j: int| 0 <= j < k ==> #[trigger] buffer1@[start1 + j] == buffer2@[start2 + j],
        decreases 10 - k,
    {
        if buffer1[start1 + k] != buffer2[start2 + k] {
            return false;
        }
        k += 1;
    }
    true
}

// ==========================================
// Fixed strings
// ==========================================

/// Bytes with trailing NUL bytes removed.
pub open spec fn trim_nul(b: Seq<u8>) -> Seq<u8>
    decreases b.len(),
{
    if b.len() > 0 && b.last() == 0 {
        trim_nul(b.drop_last())
    } else {
        b
    }
}

/// Whether every byte is ASCII.
pub open spec fn is_ascii_bytes(b: Seq<u8>) -> bool {
    forall|i: int| 0 <= i < b.len() ==> b[i] < 128
}

/// Each ASCII byte as the character with the same code.
pub open spec fn ascii_chars_of(b: Seq<u8>) -> Seq<char> {
    b.map(|i: int, c: u8| c as char)
}

/// What `String::from_utf8_lossy` returns for a byte sequence: a function
/// of the bytes alone.
pub uninterp spec fn lossy_of(b: Seq<u8>) -> Seq<char>;

/// Relies on std's `String::from_utf8_lossy`: the result depends on the
/// bytes alone, and valid UTF-8 - in particular plain ASCII - is decoded
/// to exactly its characters.
#[verifier::external_body]
fn bytes_to_string_lossy(bytes: &[u8]) -> (r: String)
    ensures
        r@ == lossy_of(bytes@),
        is_ascii_bytes(bytes@) ==> r@ == ascii_chars_of(bytes@),
{
    String::from_utf8_lossy(bytes).into_owned()
}

/// Read a fixed-width string field: the window's bytes with trailing NUL
/// padding removed, decoded leniently from UTF-8 - in particular, plain
/// ASCII reads as exactly its own characters. A window that runs past the
/// buffer yields the empty string.
pub fn read_fixed_string(buffer: &[u8], start: usize, len: usize) -> (r: String)
    ensures
        start + len <= buffer@.len() ==> {
            let trimmed = trim_nul(buffer@.subrange(start as int, start as int + len as int));
            &&& r@ == lossy_of(trimmed)
            &&& (is_ascii_bytes(trimmed) ==> r@ == ascii_chars_of(trimmed))
        },
        start + len > buffer@.len() ==> r@ == Seq::<char>::empty(),
{
    if buffer.len() < len || start > buffer.len() - len {
        return String::new();
    }
    proof {
        vstd::slice::axiom_spec_len(buffer);
    }
    let ghost window = buffer@.subrange(start as int, start as int + len as int);
    proof {
        assert(window.subrange(0, len as int) =~= window);
    }
    let mut tl: usize = len;
    while tl > 0 && buffer[start + tl - 1] == 0
        invariant
            tl <= len,
            start + len <= buffer@.len(),
            buffer@.len() <= usize::MAX,
            window == buffer@.subrange(start as int, start as int + len as int),
            trim_nul(window.subrange(0, tl as int)) == trim_nul(window),
        decreases tl,
    {
        proof {
            assert(window.subrange(0, tl as int).last() == 0);
            assert(window.subrange(0, tl as int).drop_last() =~= window.subrange(
                0,
                tl as int - 1,
            ));
        }
        tl -= 1;
    }
    proof {
        if tl > 0 {
            assert(window.subrange(0, tl as int).last() != 0);
        }
        assert(trim_nul(window.subrange(0, tl as int)) == window.subrange(0, tl as int));
    }
    let mut trimmed: Vec<u8> = Vec::new();
    let mut i: usize = 0;
    while i < tl
        invariant
            i <= tl,
            tl <= len,
            start + len <= buffer@.len(),
            buffer@.len() <= usize::MAX,
            window == buffer@.subrange(start as int, start as int + len as int),
            trimmed@ == window.subrange(0, i as int),
        decreases tl - i,
    {
        trimmed.push(buffer[start + i]);
        i += 1;
        proof {
            assert(trimmed@ =~= window.subrange(0, i as int));
        }
    }
    bytes_to_string_lossy(trimmed.as_slice())
}

/// A byte sequence truncated or NUL-padded to an exact width.
pub open spec fn pad_trunc(b: Seq<u8>, n: nat) -> Seq<u8> {
    if b.len() >= n {
        b.subrange(0, n as int)
    } else {
        b + Seq::new((n - b.len()) as nat, |i: int| 0u8)
    }
}

/// Append a string as a fixed-width field: its UTF-8 bytes truncated to
/// the width, or padded with NUL bytes up to it.
pub fn write_fixed_string(buffer: &mut Vec<u8>, string: &str, len: usize)
    ensures
        final(buffer)@ == old(buffer)@ + pad_trunc(string.spec_bytes(), len as nat),
{
    let bytes = string.as_bytes();
    let write_len = if bytes.len() < len {
        bytes.len()
    } else {
        len
    };
    let mut i: usize = 0;
    while i < write_len
        invariant
            i <= write_len,
            write_len <= bytes@.len(),
            write_len <= len,
            bytes@ == string.spec_bytes(),
            buffer@ == old(buffer)@ + bytes@.subrange(0, i as int),
        decreases write_len - i,
    {
        buffer.push(bytes[i]);
        i += 1;
        proof {
            assert(buffer@ =~= old(buffer)@ + bytes@.subrange(0, i as int));
        }
    }
    let mut k: usize = write_len;
    while k < len
        invariant
            write_len <= k <= len,
            bytes@ == string.spec_bytes(),
            buffer@ == old(buffer)@ + bytes@.subrange(0, write_len as int) + Seq::new(
                (k - write_len) as nat,
                |j: int| 0u8,
            ),
        decreases len - k,
    {
        buffer.push(0);
        k += 1;
        proof {
            assert(buffer@ =~= old(buffer)@ + bytes@.subrange(0, write_len as int) + Seq::new(
                (k - write_len) as nat,
                |j: int| 0u8,
            ));
        }
    }
    proof {
        assert(buffer@ =~= old(buffer)@ + pad_trunc(string.spec_bytes(), len as nat));
    }
}

// ==========================================
// Chunk scanner
// ==========================================

/// Scan for a chunk with the given four-byte id, starting at offset `i`:
/// at each position, a match is reported, and otherwise the chunk's
/// declared size (rounded up to even, plus the eight header bytes) is
/// skipped. A scan whose next position would pass the end of the buffer
/// reports the chunk as not present.
pub open spec fn chunk_scan(b: Seq<u8>, id: Seq<u8>, i: nat, endianness: Endianness) -> Option<
    nat,
>
    recommends
        id.len() == 4,
    decreases b.len() - i
        when i <= b.len()
{
    if i + 8 > b.len() {
        None
    } else if b.subrange(i as int, i as int + 4) == id {
        Some(i)
    } else {
        let size = u32_at(b, i as int + 4, endianness) as nat;
        let padded = size + (size % 2);
        if i + 8 + padded > b.len() {
            None
        } else {
            chunk_scan(b, id, (i + 8 + padded) as nat, endianness)
        }
    }
}

/// Find the start offset of the chunk with the given id, or report it not
/// present, scanning from `start` as the container's chunk layout
/// dictates.
pub fn find_chunk(buffer: &[u8], id: &[u8], start: usize, endianness: Endianness) -> (r: Option<
    usize,
>)
    requires
        id@.len() == 4,
        start <= buffer@.len(),
    ensures
        match r {
            Some(offset) => chunk_scan(buffer@, id@, start as nat, endianness) == Some(
                offset as nat,
            ),
            None => chunk_scan(buffer@, id@, start as nat, endianness) is None,
        },
{
    let mut i = start;
    loop
        invariant
            i <= buffer@.len(),
            id@.len() == 4,
            chunk_scan(buffer@, id@, i as nat, endianness) == chunk_scan(
                buffer@,
                id@,
                start as nat,
                endianness,
            ),
        decreases buffer@.len() - i,
    {
        if buffer.len() < 8 || i > buffer.len() - 8 {
            return None;
        }
        if buffer[i] == id[0] && buffer[i + 1] == id[1] && buffer[i + 2] == id[2] && buffer[i + 3]
            == id[3] {
            proof {
                assert(buffer@.subrange(i as int, i as int + 4) =~= id@);
            }
            return Some(i);
        }
        proof {
            assert(!(buffer@.subrange(i as int, i as int + 4) =~= id@)) by {
                if buffer@.subrange(i as int, i as int + 4) =~= id@ {
                    assert(buffer@[i as int] == id@[0]);
                    assert(buffer@[i as int + 1] == id@[1]);
                    assert(buffer@[i as int + 2] == id@[2]);
                    assert(buffer@[i as int + 3] == id@[3]);
                }
            }
        }
        let size = get_u32(buffer, i + 4, endianness) as usize;
        let remaining = buffer.len() - (i + 8);
        if size > remaining {
            return None;
        }
        let padded = if size % 2 == 1 {
            size + 1
        } else {
            size
        };
        if padded > remaining {
            return None;
        }
        i = i + 8 + padded;
    }
}

// ==========================================
// File format and metadata types
// ==========================================

/// Audio file format identifier.
#[derive(Debug, Clone, Copy, PartialEq, Eq, Structural)]
pub enum FileFormat {
    /// No valid format detected (parsing failed or unrecognized magic).
    Unknown,
    /// File has not been loaded yet (default state).
    NotLoaded,
    /// WAV format (RIFF WAVE).
    Wav,
    /// AIFF format (Audio Interchange File Format).
    Aiff,
}

/// The `RIFF` container magic.
pub open spec fn riff_magic() -> Seq<u8> {
    seq![82u8, 73u8, 70u8, 70u8]
}

/// The `FORM` container magic.
pub open spec fn form_magic() -> Seq<u8> {
    seq![70u8, 79u8, 82u8, 77u8]
}

impl FileFormat {
    /// The container a byte buffer's first four bytes declare: `RIFF`
    /// means WAV, `FORM` means AIFF, anything else (or fewer than four
    /// bytes) is no recognized format.
    pub open spec fn determine_spec(data: Seq<u8>) -> FileFormat {
        if data.len() >= 4 && data.subrange(0, 4) == riff_magic() {
            FileFormat::Wav
        } else if data.len() >= 4 && data.subrange(0, 4) == form_magic() {
            FileFormat::Aiff
        } else {
            FileFormat::Unknown
        }
    }

    /// Detect the container from the first four bytes.
    pub fn determine(data: &[u8]) -> (r: Self)
        ensures
            r == FileFormat::determine_spec(data@),
    {
        if data.len() < 4 {
            return FileFormat::Unknown;
        }
        if data[0] == 82 && data[1] == 73 && data[2] == 70 && data[3] == 70 {
            proof {
                assert(data@.subrange(0, 4) =~= riff_magic());
            }
            FileFormat::Wav
        } else if data[0] == 70 && data[1] == 79 && data[2] == 82 && data[3] == 77 {
            proof {
                assert(data@.subrange(0, 4) =~= form_magic());
                assert(data@.subrange(0, 4)[0] != riff_magic()[0]);
            }
            FileFormat::Aiff
        } else {
            proof {
                if data@.subrange(0, 4) == riff_magic() {
                    assert(data@[0] == 82 && data@[1] == 73 && data@[2] == 70 && data@[3] == 70);
                }
                if data@.subrange(0, 4) == form_magic() {
                    assert(data@[0] == 70 && data@[1] == 79 && data@[2] == 82 && data@[3] == 77);
                }
            }
            FileFormat::Unknown
        }
    }
}

/// Broadcast Extension (bext) chunk data for BWF files, as laid down by
/// EBU Tech 3285.
#[derive(Debug, Clone)]
pub struct BextChunk {
    /// Free-form description of the audio content (256 bytes on disk).
    pub description: String,
    /// Name of the originator (32 bytes on disk).
    pub originator: String,
    /// Unique reference identifier (32 bytes on disk).
    pub originator_reference: String,
    /// Origination date, `yyyy-mm-dd` (10 bytes on disk).
    pub origination_date: String,
    /// Origination time, `hh:mm:ss` (8 bytes on disk).
    pub origination_time: String,
    /// Sample count since midnight for timecode sync.
    pub time_reference: u64,
    /// BWF version number (typically 1 or 2).
    pub version: u16,
    /// SMPTE UMID (Unique Material Identifier), 64 bytes.
    pub umid: [u8; 64],
    /// Integrated loudness value, in LUFS times 100.
    pub loudness_value: i16,
    /// Loudness range, in LU times 100.
    pub loudness_range: i16,
    /// Maximum true peak level, in dBTP times 100.
    pub max_true_peak_level: i16,
    /// Maximum momentary loudness, in LUFS times 100.
    pub max_momentary_loudness: i16,
    /// Maximum short-term loudness, in LUFS times 100.
    pub max_short_term_loudness: i16,
    /// Free-form coding history.
    pub coding_history: String,
}

/// Whether a bext value is entirely empty apart from version 2.
pub open spec fn bext_is_fresh(b: BextChunk) -> bool {
    &&& b.description@ == Seq::<char>::empty()
    &&& b.originator@ == Seq::<char>::empty()
    &&& b.originator_reference@ == Seq::<char>::empty()
    &&& b.origination_date@ == Seq::<char>::empty()
    &&& b.origination_time@ == Seq::<char>::empty()
    &&& b.time_reference == 0
    &&& b.version == 2
    &&& b.umid@ == Seq::new(64, |i: int| 0u8)
    &&& b.loudness_value == 0
    &&& b.loudness_range == 0
    &&& b.max_true_peak_level == 0
    &&& b.max_momentary_loudness == 0
    &&& b.max_short_term_loudness == 0
    &&& b.coding_history@ == Seq::<char>::empty()
}

impl Default for BextChunk {
    /// Empty strings, zero counters, version 2.
    fn default() -> (r: Self)
        ensures
            bext_is_fresh(r),
    {
        let r = BextChunk {
            description: String::new(),
            originator: String::new(),
            originator_reference: String::new(),
            origination_date: String::new(),
            origination_time: String::new(),
            time_reference: 0,
            version: 2,
            umid: [0u8; 64],
            loudness_value: 0,
            loudness_range: 0,
            max_true_peak_level: 0,
            max_momentary_loudness: 0,
            max_short_term_loudness: 0,
            coding_history: String::new(),
        };
        proof {
            assert(r.umid@ =~= Seq::new(64, |i: int| 0u8));
        }
        r
    }
}

impl BextChunk {
    /// Create a new empty bext chunk.
    pub fn new() -> (r: Self)
        ensures
            bext_is_fresh(r),
    {
        BextChunk::default()
    }

    /// Create a bext chunk carrying a description and an originator.
    /// The on-disk fields are truncated to their fixed widths when the
    /// chunk is written.
    pub fn with_description(description: &str, originator: &str) -> (r: Self)
        ensures
            r.description@ == description@,
            r.originator@ == originator@,
            r.version == 2,
            r.time_reference == 0,
    {
        let mut bext = BextChunk::default();
        bext.description = description.to_owned();
        bext.originator = originator.to_owned();
        bext
    }

    /// Set the origination date (`yyyy-mm-dd`) and time (`hh:mm:ss`).
    pub fn set_datetime(&mut self, date: &str, time: &str)
        ensures
            final(self).origination_date@ == date@,
            final(self).origination_time@ == time@,
            final(self).description == old(self).description,
            final(self).originator == old(self).originator,
            final(self).originator_reference == old(self).originator_reference,
            final(self).time_reference == old(self).time_reference,
            final(self).version == old(self).version,
            final(self).umid == old(self).umid,
            final(self).coding_history == old(self).coding_history,
    {
        self.origination_date = date.to_owned();
        self.origination_time = time.to_owned();
    }

    /// Stamp a fixed origination date and time. Reading the real clock
    /// is left to the I/O layer, which can overwrite these fields.
    pub fn set_current_datetime(&mut self)
        ensures
            final(self).origination_date@ == "2025-01-01"@,
            final(self).origination_time@ == "00:00:00"@,
    {
        self.origination_date = "2025-01-01".to_owned();
        self.origination_time = "00:00:00".to_owned();
    }
}

/// A marker (cue point): a position in the audio with a label.
#[derive(Debug, Clone)]
pub struct Marker {
    /// Unique identifier for this marker.
    pub id: u32,
    /// Sample position of the marker (0-indexed).
    pub position: u64,
    /// Label for the marker.
    pub label: String,
}

impl Marker {
    /// Create a marker at the given position with id 0, to be assigned a
    /// fresh id when added to a file.
    pub fn new(position: u64, label: &str) -> (r: Self)
        ensures
            r.id == 0,
            r.position == position,
            r.label@ == label@,
    {
        Marker { id: 0, position, label: label.to_owned() }
    }

    /// Create a marker with a specific id.
    pub fn with_id(id: u32, position: u64, label: &str) -> (r: Self)
        ensures
            r.id == id,
            r.position == position,
            r.label@ == label@,
    {
        Marker { id, position, label: label.to_owned() }
    }
}

impl Default for Marker {
    /// Id 0, position 0, empty label.
    fn default() -> (r: Self)
        ensures
            r.id == 0,
            r.position == 0,
            r.label@ == Seq::<char>::empty(),
    {
        Marker { id: 0, position: 0, label: String::new() }
    }
}

/// Musical tempo information carried by an `acid` chunk. The tempo itself
/// is stored as the raw bits of its 32-bit IEEE-float encoding, so that
/// the codec stays within integer arithmetic; interpreting the bits is
/// left to the callers.
#[derive(Debug, Clone, Copy, PartialEq, Eq, Structural)]
pub struct TempoInfo {
    /// The tempo in beats per minute, as 32-bit IEEE-float bits.
    pub bpm_bits: u32,
    /// Time signature numerator (4 for common time).
    pub time_sig_numerator: u8,
    /// Time signature denominator (4 for common time).
    pub time_sig_denominator: u8,
    /// Sample position where this tempo starts (0 for file start).
    pub position: u64,
    /// Number of beats covered, as stored in the chunk.
    pub num_beats: u32,
}

impl Default for TempoInfo {
    /// 120 beats per minute (float bits 0x42F0_0000) in common time.
    fn default() -> (r: Self)
        ensures
            r == (TempoInfo {
                bpm_bits: 0x42F00000u32,
                time_sig_numerator: 4u8,
                time_sig_denominator: 4u8,
                position: 0u64,
                num_beats: 0u32,
            }),
    {
        TempoInfo {
            bpm_bits: 0x42F00000,
            time_sig_numerator: 4,
            time_sig_denominator: 4,
            position: 0,
            num_beats: 0,
        }
    }
}

impl TempoInfo {
    /// Tempo from float bits at position 0 in common time.
    pub fn new(bpm_bits: u32) -> (r: Self)
        ensures
            r.bpm_bits == bpm_bits,
            r.time_sig_numerator == 4,
            r.time_sig_denominator == 4,
            r.position == 0,
            r.num_beats == 0,
    {
        TempoInfo {
            bpm_bits,
            time_sig_numerator: 4,
            time_sig_denominator: 4,
            position: 0,
            num_beats: 0,
        }
    }

    /// Tempo from float bits at a given sample position.
    pub fn at_position(bpm_bits: u32, position: u64) -> (r: Self)
        ensures
            r.bpm_bits == bpm_bits,
            r.position == position,
            r.time_sig_numerator == 4,
            r.time_sig_denominator == 4,
    {
        TempoInfo {
            bpm_bits,
            time_sig_numerator: 4,
            time_sig_denominator: 4,
            position,
            num_beats: 0,
        }
    }

    /// Tempo from float bits with an explicit time signature.
    pub fn with_time_signature(bpm_bits: u32, numerator: u8, denominator: u8) -> (r: Self)
        ensures
            r.bpm_bits == bpm_bits,
            r.time_sig_numerator == numerator,
            r.time_sig_denominator == denominator,
            r.position == 0,
    {
        TempoInfo {
            bpm_bits,
            time_sig_numerator: numerator,
            time_sig_denominator: denominator,
            position: 0,
            num_beats: 0,
        }
    }

    /// Tempo from float bits with a time signature and a position.
    pub fn with_time_signature_at(
        bpm_bits: u32,
        numerator: u8,
        denominator: u8,
        position: u64,
    ) -> (r: Self)
        ensures
            r.bpm_bits == bpm_bits,
            r.time_sig_numerator == numerator,
            r.time_sig_denominator == denominator,
            r.position == position,
    {
        TempoInfo {
            bpm_bits,
            time_sig_numerator: numerator,
            time_sig_denominator: denominator,
            position,
            num_beats: 0,
        }
    }
}


// ==========================================
// The audio file container
// ==========================================

/// Markers ordered by position.
pub open spec fn markers_sorted(s: Seq<Marker>) -> bool {
    forall|i: int, j: int| 0 <= i < j < s.len() ==> #[trigger] s[i].position <= #[trigger] s[j].position
}

/// The largest marker id in use, 0 when there are none.
pub open spec fn max_marker_id(s: Seq<Marker>) -> u32
    decreases s.len(),
{
    if s.len() == 0 {
        0u32
    } else if s.last().id > max_marker_id(s.drop_last()) {
        s.last().id
    } else {
        max_marker_id(s.drop_last())
    }
}

/// The index of the first marker with the given id, if any.
pub open spec fn marker_find_idx(s: Seq<Marker>, id: u32) -> Option<nat>
    decreases s.len(),
{
    if s.len() == 0 {
        None
    } else if s[0].id == id {
        Some(0nat)
    } else {
        match marker_find_idx(s.drop_first(), id) {
            Some(k) => Some((k + 1) as nat),
            None => None,
        }
    }
}


/// Every marker's id is at most the largest id in use, so the fresh id
/// [`AudioFile::add_marker`] assigns - the largest plus one - differs
/// from every id already present.
pub proof fn lemma_max_marker_id_is_bound(s: Seq<Marker>, j: int)
    requires
        0 <= j < s.len(),
    ensures
        s[j].id <= max_marker_id(s),
    decreases s.len(),
{
    if j < s.len() - 1 {
        lemma_max_marker_id_is_bound(s.drop_last(), j);
    }
}

/// Inserting a marker where the scan stopped - after every marker at or
/// before its position, before the first one past it - keeps an ordered
/// sequence ordered.
proof fn lemma_sorted_insert(s: Seq<Marker>, i: int, m: Marker)
    requires
        markers_sorted(s),
        0 <= i <= s.len(),
        forall|j: int| 0 <= j < i ==> #[trigger] s[j].position <= m.position,
        i < s.len() ==> s[i].position > m.position,
    ensures
        markers_sorted(s.insert(i, m)),
{
    let r = s.insert(i, m);
    assert forall|a: int, b: int| 0 <= a < b < r.len() implies #[trigger] r[a].position
        <= #[trigger] r[b].position by {
        if a < i && b < i {
            assert(r[a] == s[a] && r[b] == s[b]);
        } else if a < i && b == i {
            assert(r[a] == s[a] && r[b] == m);
        } else if a < i && b > i {
            assert(r[a] == s[a] && r[b] == s[b - 1]);
            if b - 1 < i {
            } else {
                assert(s[a].position <= m.position);
                if b - 1 == i {
                    assert(s[b - 1].position > m.position);
                } else {
                    assert(s[i].position > m.position);
                    assert(s[i].position <= s[b - 1].position);
                }
            }
        } else if a == i {
            assert(r[a] == m && r[b] == s[b - 1]);
            assert(b - 1 >= i);
            if b - 1 == i {
            } else {
                assert(s[i].position <= s[b - 1].position);
            }
        } else {
            assert(r[a] == s[a - 1] && r[b] == s[b - 1]);
        }
    }
}

/// Re-order markers by position. The result is ordered and holds exactly
/// the same markers.
fn sort_markers_by_position(markers: &mut Vec<Marker>)
    ensures
        markers_sorted(final(markers)@),
        final(markers)@.to_multiset() == old(markers)@.to_multiset(),
{
    broadcast use vstd::seq_lib::group_to_multiset_ensures;

    let mut sorted: Vec<Marker> = Vec::new();
    proof {
        assert(sorted@.to_multiset().add(markers@.to_multiset()) =~= old(markers)@.to_multiset());
    }
    while markers.len() > 0
        invariant
            markers_sorted(sorted@),
            sorted@.to_multiset().add(markers@.to_multiset()) == old(markers)@.to_multiset(),
        decreases markers@.len(),
    {
        let ghost source_before = markers@;
        let m = match markers.pop() {
            Some(m) => m,
            None => {
                return ;
            },
        };
        proof {
            source_before.to_multiset_ensures();
            assert(markers@ =~= source_before.remove(source_before.len() - 1));
            assert(source_before.remove(source_before.len() - 1).to_multiset()
                =~= source_before.to_multiset().remove(m));
            assert(markers@.to_multiset() =~= source_before.to_multiset().remove(m));
        }
        let mut idx: usize = 0;
        while idx < sorted.len() && sorted[idx].position <= m.position
            invariant
                idx <= sorted@.len(),
                forall|j: int| 0 <= j < idx ==> #[trigger] sorted@[j].position <= m.position,
            decreases sorted@.len() - idx,
        {
            idx += 1;
        }
        let ghost sorted_before = sorted@;
        proof {
            lemma_sorted_insert(sorted@, idx as int, m);
        }
        sorted.insert(idx, m);
        proof {
            sorted@.to_multiset_ensures();
            assert(sorted@.remove(idx as int) =~= sorted_before);
            assert(sorted@.remove(idx as int).to_multiset() =~= sorted@.to_multiset().remove(
                sorted@[idx as int],
            ));
            assert(sorted_before.to_multiset() =~= sorted@.to_multiset().remove(m));
            assert(sorted@[idx as int] == m);
            assert(sorted@.to_multiset().count(m) > 0);
            assert(sorted@.to_multiset() =~= sorted_before.to_multiset().insert(m));
            assert(sorted@.to_multiset().add(markers@.to_multiset()) =~= old(
                markers,
            )@.to_multiset());
        }
    }
    proof {
        assert(markers@.to_multiset().len() == 0);
        assert(sorted@.to_multiset().add(markers@.to_multiset()) =~= sorted@.to_multiset());
    }
    *markers = sorted;
}

/// An audio file: integer PCM sample channels plus container metadata.
///
/// Each sample is the raw integer at the file's bit depth, sign-extended
/// (for 32-bit IEEE-float data, the raw bit pattern as an integer).
pub struct AudioFile {
    audio_buffer: Vec<Vec<i32>>,
    /// iXML metadata from the audio file; empty when absent.
    pub xml_chunk: String,
    file_format: FileFormat,
    sample_rate: usize,
    bit_depth: usize,
    bext_chunk: Option<BextChunk>,
    markers: Vec<Marker>,
    tempo: Option<TempoInfo>,
}

impl AudioFile {
    /// The channels, each a sequence of raw integer samples.
    pub closed spec fn channels_spec(&self) -> Seq<Seq<i32>> {
        self.audio_buffer@.map(|i: int, v: Vec<i32>| v@)
    }

    /// The sample rate in Hz.
    pub closed spec fn sample_rate_spec(&self) -> usize {
        self.sample_rate
    }

    /// The bit depth in bits per sample.
    pub closed spec fn bit_depth_spec(&self) -> usize {
        self.bit_depth
    }

    /// The detected container format.
    pub closed spec fn format_spec(&self) -> FileFormat {
        self.file_format
    }

    /// The broadcast extension chunk, if any.
    pub closed spec fn bext_spec(&self) -> Option<BextChunk> {
        self.bext_chunk
    }

    /// The markers, ordered by position.
    pub closed spec fn markers_spec(&self) -> Seq<Marker> {
        self.markers@
    }

    /// The tempo information, if any.
    pub closed spec fn tempo_spec(&self) -> Option<TempoInfo> {
        self.tempo
    }

    /// The iXML text, empty when absent.
    pub closed spec fn xml_spec(&self) -> Seq<char> {
        self.xml_chunk@
    }

    /// Create an audio file of silent channels: every sample zero, at
    /// 44100 Hz and 16-bit depth, with no metadata.
    pub fn new(channels: usize, samples: usize) -> (r: Self)
        ensures
            r.channels_spec().len() == channels,
            forall|c: int|
                0 <= c < channels ==> #[trigger] r.channels_spec()[c] == Seq::new(
                    samples as nat,
                    |i: int| 0i32,
                ),
            r.sample_rate_spec() == 44100,
            r.bit_depth_spec() == 16,
            r.format_spec() == FileFormat::Unknown,
            r.bext_spec() is None,
            r.markers_spec() == Seq::<Marker>::empty(),
            r.tempo_spec() is None,
            r.xml_spec() == Seq::<char>::empty(),
    {
        let mut one: Vec<i32> = Vec::new();
        let mut i: usize = 0;
        while i < samples
            invariant
                i <= samples,
                one@ == Seq::new(i as nat, |k: int| 0i32),
            decreases samples - i,
        {
            one.push(0);
            i += 1;
            proof {
                assert(one@ =~= Seq::new(i as nat, |k: int| 0i32));
            }
        }
        let mut audio_buffer: Vec<Vec<i32>> = Vec::new();
        let mut c: usize = 0;
        while c < channels
            invariant
                c <= channels,
                one@ == Seq::new(samples as nat, |k: int| 0i32),
                audio_buffer@.len() == c,
                forall|j: int|
                    0 <= j < c ==> #[trigger] audio_buffer@[j]@ == Seq::new(
                        samples as nat,
                        |k: int| 0i32,
                    ),
            decreases channels - c,
        {
            audio_buffer.push(one.clone());
            c += 1;
        }
        let r = AudioFile {
            audio_buffer,
            xml_chunk: String::new(),
            file_format: FileFormat::Unknown,
            sample_rate: 44100,
            bit_depth: 16,
            bext_chunk: None,
            markers: Vec::new(),
            tempo: None,
        };
        proof {
            assert(r.markers_spec() =~= Seq::<Marker>::empty());
            assert forall|cc: int| 0 <= cc < channels implies #[trigger] r.channels_spec()[cc]
                == Seq::new(samples as nat, |k: int| 0i32) by {
                assert(r.channels_spec()[cc] == r.audio_buffer@[cc]@);
            }
        }
        r
    }

    /// A read-only view of one channel's samples.
    pub fn channel(&self, index: usize) -> (r: Option<&Vec<i32>>)
        ensures
            index < self.channels_spec().len() ==> (r matches Some(v) && v@ == self.channels_spec()[index as int]),
            index >= self.channels_spec().len() ==> r is None,
    {
        if index < self.audio_buffer.len() {
            let v = &self.audio_buffer[index];
            proof {
                assert(self.channels_spec()[index as int] == self.audio_buffer@[index as int]@);
            }
            Some(v)
        } else {
            None
        }
    }

    /// One sample, when both indices are valid.
    pub fn get_sample(&self, channel: usize, sample: usize) -> (r: Option<i32>)
        ensures
            channel < self.channels_spec().len() && sample < self.channels_spec()[channel as int].len()
                ==> r == Some(self.channels_spec()[channel as int][sample as int]),
            !(channel < self.channels_spec().len() && sample < self.channels_spec()[channel as int].len())
                ==> r is None,
    {
        if channel < self.audio_buffer.len() && sample < self.audio_buffer[channel].len() {
            proof {
                assert(self.channels_spec()[channel as int] == self.audio_buffer@[channel as int]@);
            }
            Some(self.audio_buffer[channel][sample])
        } else {
            None
        }
    }

    /// Store one sample; out-of-range indices leave the file unchanged.
    pub fn set_sample(&mut self, channel: usize, sample: usize, value: i32)
        ensures
            channel < old(self).channels_spec().len() && sample < old(self).channels_spec()[channel as int].len()
                ==> final(self).channels_spec() == old(self).channels_spec().update(
                    channel as int,
                    old(self).channels_spec()[channel as int].update(sample as int, value),
                ),
            !(channel < old(self).channels_spec().len() && sample < old(self).channels_spec()[channel as int].len())
                ==> final(self).channels_spec() == old(self).channels_spec(),
            final(self).sample_rate_spec() == old(self).sample_rate_spec(),
            final(self).bit_depth_spec() == old(self).bit_depth_spec(),
            final(self).format_spec() == old(self).format_spec(),
            final(self).bext_spec() == old(self).bext_spec(),
            final(self).markers_spec() == old(self).markers_spec(),
            final(self).tempo_spec() == old(self).tempo_spec(),
            final(self).xml_spec() == old(self).xml_spec(),
    {
        if channel < self.audio_buffer.len() && sample < self.audio_buffer[channel].len() {
            self.audio_buffer[channel][sample] = value;
            proof {
                assert(final(self).channels_spec() =~= old(self).channels_spec().update(
                    channel as int,
                    old(self).channels_spec()[channel as int].update(sample as int, value),
                ));
            }
        } else {
            proof {
                assert(final(self).channels_spec() =~= old(self).channels_spec());
            }
        }
    }

    /// The number of channels.
    pub fn num_channel(&self) -> (r: usize)
        ensures
            r == self.channels_spec().len(),
    {
        self.audio_buffer.len()
    }

    /// The number of samples per channel (the first channel's length).
    pub fn num_sample(&self) -> (r: usize)
        ensures
            self.channels_spec().len() == 0 ==> r == 0,
            self.channels_spec().len() > 0 ==> r == self.channels_spec()[0].len(),
    {
        if self.audio_buffer.len() == 0 {
            0
        } else {
            proof {
                assert(self.channels_spec()[0] == self.audio_buffer@[0]@);
            }
            self.audio_buffer[0].len()
        }
    }

    /// Whether the file is mono.
    pub fn is_mono(&self) -> (r: bool)
        ensures
            r == (self.channels_spec().len() == 1),
    {
        self.audio_buffer.len() == 1
    }

    /// Whether the file is stereo.
    pub fn is_stereo(&self) -> (r: bool)
        ensures
            r == (self.channels_spec().len() == 2),
    {
        self.audio_buffer.len() == 2
    }

    /// The bit depth in bits per sample.
    pub fn bit_depth(&self) -> (r: usize)
        ensures
            r == self.bit_depth_spec(),
    {
        self.bit_depth
    }

    /// The sample rate in Hz.
    pub fn sample_rate(&self) -> (r: usize)
        ensures
            r == self.sample_rate_spec(),
    {
        self.sample_rate
    }

    /// The detected container format.
    pub fn format(&self) -> (r: FileFormat)
        ensures
            r == self.format_spec(),
    {
        self.file_format
    }

    /// Set the bit depth used when saving.
    pub fn set_bit_depth(&mut self, bit_depth: usize)
        ensures
            final(self).bit_depth_spec() == bit_depth,
            final(self).channels_spec() == old(self).channels_spec(),
            final(self).sample_rate_spec() == old(self).sample_rate_spec(),
            final(self).format_spec() == old(self).format_spec(),
            final(self).bext_spec() == old(self).bext_spec(),
            final(self).markers_spec() == old(self).markers_spec(),
            final(self).tempo_spec() == old(self).tempo_spec(),
            final(self).xml_spec() == old(self).xml_spec(),
    {
        self.bit_depth = bit_depth;
    }

    /// Set the sample rate in Hz.
    pub fn set_sample_rate(&mut self, sample_rate: usize)
        ensures
            final(self).sample_rate_spec() == sample_rate,
            final(self).channels_spec() == old(self).channels_spec(),
            final(self).bit_depth_spec() == old(self).bit_depth_spec(),
            final(self).format_spec() == old(self).format_spec(),
            final(self).bext_spec() == old(self).bext_spec(),
            final(self).markers_spec() == old(self).markers_spec(),
            final(self).tempo_spec() == old(self).tempo_spec(),
            final(self).xml_spec() == old(self).xml_spec(),
    {
        self.sample_rate = sample_rate;
    }

    /// The broadcast extension chunk, if present.
    pub fn bext(&self) -> (r: Option<&BextChunk>)
        ensures
            self.bext_spec() matches Some(b) ==> (r matches Some(rb) && *rb == b),
            self.bext_spec() is None ==> r is None,
    {
        self.bext_chunk.as_ref()
    }

    /// Set the broadcast extension chunk.
    pub fn set_bext(&mut self, bext: BextChunk)
        ensures
            final(self).bext_spec() == Some(bext),
            final(self).channels_spec() == old(self).channels_spec(),
            final(self).markers_spec() == old(self).markers_spec(),
    {
        self.bext_chunk = Some(bext);
    }

    /// Remove the broadcast extension chunk.
    pub fn clear_bext(&mut self)
        ensures
            final(self).bext_spec() is None,
            final(self).channels_spec() == old(self).channels_spec(),
            final(self).markers_spec() == old(self).markers_spec(),
    {
        self.bext_chunk = None;
    }

    /// Whether the file carries broadcast metadata.
    pub fn is_bwf(&self) -> (r: bool)
        ensures
            r == (self.bext_spec() is Some),
    {
        self.bext_chunk.is_some()
    }

    /// All markers, ordered by position.
    pub fn markers(&self) -> (r: &Vec<Marker>)
        ensures
            r@ == self.markers_spec(),
    {
        &self.markers
    }

    /// Add a marker and re-order the sequence by position. A marker with
    /// id 0 is assigned the largest id in use plus one; afterwards the
    /// markers are exactly the old ones plus the new one, ordered by
    /// position.
    pub fn add_marker(&mut self, marker: Marker)
        requires
            marker.id != 0 || max_marker_id(old(self).markers_spec()) < u32::MAX,
        ensures
            ({
                let assigned_id = if marker.id == 0 {
                    (max_marker_id(old(self).markers_spec()) + 1) as u32
                } else {
                    marker.id
                };
                &&& markers_sorted(final(self).markers_spec())
                &&& final(self).markers_spec().to_multiset() == old(
                    self,
                ).markers_spec().to_multiset().insert(
                    Marker { id: assigned_id, position: marker.position, label: marker.label },
                )
            }),
            final(self).channels_spec() == old(self).channels_spec(),
            final(self).bext_spec() == old(self).bext_spec(),
            final(self).tempo_spec() == old(self).tempo_spec(),
    {
        let mut marker = marker;
        if marker.id == 0 {
            let mut max_id: u32 = 0;
            let mut i: usize = 0;
            while i < self.markers.len()
                invariant
                    i <= self.markers@.len(),
                    max_id == max_marker_id(self.markers@.subrange(0, i as int)),
                decreases self.markers@.len() - i,
            {
                proof {
                    assert(self.markers@.subrange(0, i as int + 1).drop_last() =~= self.markers@
                        .subrange(0, i as int));
                    assert(self.markers@.subrange(0, i as int + 1).last() == self.markers@[
                        i as int]);
                }
                if self.markers[i].id > max_id {
                    max_id = self.markers[i].id;
                }
                i += 1;
            }
            proof {
                assert(self.markers@.subrange(0, self.markers@.len() as int) =~= self.markers@);
            }
            marker.id = max_id + 1;
        }
        let ghost before = self.markers@;
        self.markers.push(marker);
        proof {
            before.to_multiset_ensures();
            assert(before.push(marker).to_multiset() =~= before.to_multiset().insert(marker));
        }
        sort_markers_by_position(&mut self.markers);
    }

    /// Remove the first marker with the given id; report whether one was
    /// found.
    pub fn remove_marker(&mut self, id: u32) -> (r: bool)
        ensures
            match marker_find_idx(old(self).markers_spec(), id) {
                Some(k) => r && final(self).markers_spec() == old(self).markers_spec().remove(
                    k as int,
                ),
                None => !r && final(self).markers_spec() == old(self).markers_spec(),
            },
            final(self).channels_spec() == old(self).channels_spec(),
            final(self).bext_spec() == old(self).bext_spec(),
            final(self).tempo_spec() == old(self).tempo_spec(),
    {
        let mut i: usize = 0;
        while i < self.markers.len() && self.markers[i].id != id
            invariant
                i <= self.markers@.len(),
                forall|j: int| 0 <= j < i ==> #[trigger] self.markers@[j].id != id,
            decreases self.markers@.len() - i,
        {
            i += 1;
        }
        proof {
            lemma_marker_find_idx_prefix(self.markers@, id, i as int);
        }
        if i < self.markers.len() {
            self.markers.remove(i);
            true
        } else {
            false
        }
    }

    /// Remove all markers.
    pub fn clear_markers(&mut self)
        ensures
            final(self).markers_spec() == Seq::<Marker>::empty(),
            final(self).channels_spec() == old(self).channels_spec(),
            final(self).bext_spec() == old(self).bext_spec(),
            final(self).tempo_spec() == old(self).tempo_spec(),
    {
        self.markers.clear();
        proof {
            assert(final(self).markers_spec() =~= Seq::<Marker>::empty());
        }
    }

    /// The tempo information, if present.
    pub fn tempo(&self) -> (r: Option<&TempoInfo>)
        ensures
            self.tempo_spec() matches Some(t) ==> (r matches Some(rt) && *rt == t),
            self.tempo_spec() is None ==> r is None,
    {
        self.tempo.as_ref()
    }

    /// Set the tempo information.
    pub fn set_tempo(&mut self, tempo: TempoInfo)
        ensures
            final(self).tempo_spec() == Some(tempo),
            final(self).channels_spec() == old(self).channels_spec(),
            final(self).markers_spec() == old(self).markers_spec(),
            final(self).bext_spec() == old(self).bext_spec(),
    {
        self.tempo = Some(tempo);
    }

    /// Remove the tempo information.
    pub fn clear_tempo(&mut self)
        ensures
            final(self).tempo_spec() is None,
            final(self).channels_spec() == old(self).channels_spec(),
            final(self).markers_spec() == old(self).markers_spec(),
            final(self).bext_spec() == old(self).bext_spec(),
    {
        self.tempo = None;
    }
}

impl Default for AudioFile {
    /// One empty channel, 44100 Hz, 16-bit, not loaded.
    fn default() -> (r: Self)
        ensures
            r.channels_spec().len() == 1,
            r.channels_spec()[0] == Seq::<i32>::empty(),
            r.sample_rate_spec() == 44100,
            r.bit_depth_spec() == 16,
            r.format_spec() == FileFormat::NotLoaded,
            r.bext_spec() is None,
            r.markers_spec() == Seq::<Marker>::empty(),
            r.tempo_spec() is None,
    {
        let mut audio_buffer: Vec<Vec<i32>> = Vec::new();
        audio_buffer.push(Vec::new());
        let r = AudioFile {
            audio_buffer,
            xml_chunk: String::new(),
            file_format: FileFormat::NotLoaded,
            sample_rate: 44100,
            bit_depth: 16,
            bext_chunk: None,
            markers: Vec::new(),
            tempo: None,
        };
        proof {
            assert(r.channels_spec()[0] =~= Seq::<i32>::empty());
            assert(r.markers_spec() =~= Seq::<Marker>::empty());
        }
        r
    }
}

/// A scan that passed `i` markers without the id finds the first match at
/// or after `i`, or reports absence if the scan ran out.
proof fn lemma_marker_find_idx_prefix(s: Seq<Marker>, id: u32, i: int)
    requires
        0 <= i <= s.len(),
        forall|j: int| 0 <= j < i ==> #[trigger] s[j].id != id,
        i < s.len() ==> s[i].id == id,
    ensures
        i < s.len() ==> marker_find_idx(s, id) == Some(i as nat),
        i == s.len() ==> marker_find_idx(s, id) is None,
    decreases i,
{
    if i == 0 {
    } else {
        assert(s[0].id != id);
        lemma_marker_find_idx_prefix(s.drop_first(), id, i - 1);
    }
}


// ==========================================
// BWF metadata chunks
// ==========================================

/// Append four literal bytes (a chunk id or container magic).
fn push4(buffer: &mut Vec<u8>, b0: u8, b1: u8, b2: u8, b3: u8)
    ensures
        final(buffer)@ == old(buffer)@ + seq![b0, b1, b2, b3],
{
    buffer.push(b0);
    buffer.push(b1);
    buffer.push(b2);
    buffer.push(b3);
    proof {
        assert(final(buffer)@ =~= old(buffer)@ + seq![b0, b1, b2, b3]);
    }
}

/// The `bext` chunk id.
pub open spec fn bext_chunk_id() -> Seq<u8> {
    seq![98u8, 101u8, 120u8, 116u8]
}

/// The `cue ` chunk id.
pub open spec fn cue_chunk_id() -> Seq<u8> {
    seq![99u8, 117u8, 101u8, 32u8]
}

/// The `LIST` chunk id.
pub open spec fn list_chunk_id() -> Seq<u8> {
    seq![76u8, 73u8, 83u8, 84u8]
}

/// The `adtl` list type.
pub open spec fn adtl_type_id() -> Seq<u8> {
    seq![97u8, 100u8, 116u8, 108u8]
}

/// The `labl` sub-chunk id.
pub open spec fn labl_chunk_id() -> Seq<u8> {
    seq![108u8, 97u8, 98u8, 108u8]
}

/// The `note` sub-chunk id.
pub open spec fn note_chunk_id() -> Seq<u8> {
    seq![110u8, 111u8, 116u8, 101u8]
}

/// The `acid` chunk id.
pub open spec fn acid_chunk_id() -> Seq<u8> {
    seq![97u8, 99u8, 105u8, 100u8]
}

/// A string field read from a window of the buffer: the window's bytes
/// with NUL padding trimmed, decoded leniently - plain ASCII as exactly
/// its own characters - or empty when the window runs past the buffer.
pub open spec fn reads_string(sv: Seq<char>, b: Seq<u8>, start: int, len: int) -> bool {
    if start + len <= b.len() {
        let trimmed = trim_nul(b.subrange(start, start + len));
        &&& sv == lossy_of(trimmed)
        &&& (is_ascii_bytes(trimmed) ==> sv == ascii_chars_of(trimmed))
    } else {
        sv == Seq::<char>::empty()
    }
}

/// How a decoded bext value relates to the chunk bytes starting at
/// `index` (EBU Tech 3285 layout): fixed strings, the 64-bit time
/// reference, the version, the UMID, the version-2 loudness block, and
/// the coding history running to the declared end of the chunk. Fields
/// whose bytes run past the buffer read as empty or zero.
pub open spec fn bext_matches(r: BextChunk, b: Seq<u8>, index: int) -> bool {
    let ds = index + 8;
    let chunk_size = u32_at(b, index + 4, Endianness::Little) as int;
    let chunk_end = index + 8 + chunk_size;
    &&& reads_string(r.description@, b, ds, 256)
    &&& reads_string(r.originator@, b, ds + 256, 32)
    &&& reads_string(r.originator_reference@, b, ds + 288, 32)
    &&& reads_string(r.origination_date@, b, ds + 320, 10)
    &&& reads_string(r.origination_time@, b, ds + 330, 8)
    &&& r.time_reference == (if ds + 346 <= b.len() {
        u64_at(b, ds + 338, Endianness::Little)
    } else {
        0u64
    })
    &&& r.version == (if ds + 348 <= b.len() {
        u16_at(b, ds + 346, Endianness::Little)
    } else {
        0u16
    })
    &&& r.umid@ == (if ds + 412 <= b.len() {
        b.subrange(ds + 348, ds + 412)
    } else {
        Seq::new(64, |i: int| 0u8)
    })
    &&& {
        let have_loudness = r.version >= 2 && ds + 422 <= b.len();
        &&& r.loudness_value == (if have_loudness {
            u16_at(b, ds + 412, Endianness::Little) as i16
        } else {
            0i16
        })
        &&& r.loudness_range == (if have_loudness {
            u16_at(b, ds + 414, Endianness::Little) as i16
        } else {
            0i16
        })
        &&& r.max_true_peak_level == (if have_loudness {
            u16_at(b, ds + 416, Endianness::Little) as i16
        } else {
            0i16
        })
        &&& r.max_momentary_loudness == (if have_loudness {
            u16_at(b, ds + 418, Endianness::Little) as i16
        } else {
            0i16
        })
        &&& r.max_short_term_loudness == (if have_loudness {
            u16_at(b, ds + 420, Endianness::Little) as i16
        } else {
            0i16
        })
    }
    &&& (if ds + 602 < b.len() && ds + 602 <= chunk_end && chunk_end <= b.len() {
        r.coding_history@ == lossy_of(trim_nul(b.subrange(ds + 602, chunk_end)))
    } else {
        r.coding_history@ == Seq::<char>::empty()
    })
}

/// Read a BWF bext chunk starting at `index`.
#[verifier::rlimit(100)]
pub fn read_bext_chunk(buffer: &[u8], index: usize) -> (r: BextChunk)
    requires
        index + 8 <= buffer@.len(),
    ensures
        bext_matches(r, buffer@, index as int),
{
    proof {
        vstd::slice::axiom_spec_len(buffer);
    }
    let chunk_size = get_u32(buffer, index + 4, Endianness::Little) as usize;
    let data_start = index + 8;

    let mut bext = BextChunk::new();
    bext.description = read_fixed_string(buffer, data_start, 256);
    bext.originator = if buffer.len() - data_start >= 288 {
        read_fixed_string(buffer, data_start + 256, 32)
    } else {
        String::new()
    };
    bext.originator_reference = if buffer.len() - data_start >= 320 {
        read_fixed_string(buffer, data_start + 288, 32)
    } else {
        String::new()
    };
    bext.origination_date = if buffer.len() - data_start >= 330 {
        read_fixed_string(buffer, data_start + 320, 10)
    } else {
        String::new()
    };
    bext.origination_time = if buffer.len() - data_start >= 338 {
        read_fixed_string(buffer, data_start + 330, 8)
    } else {
        String::new()
    };
    bext.time_reference = if buffer.len() - data_start >= 346 {
        get_u64(buffer, data_start + 338, Endianness::Little)
    } else {
        0
    };
    bext.version = if buffer.len() - data_start >= 348 {
        get_u16(buffer, data_start + 346, Endianness::Little)
    } else {
        0
    };

    if buffer.len() >= 412 && data_start <= buffer.len() - 412 {
        let ghost bext0 = bext;
        let mut k: usize = 0;
        while k < 64
            invariant
                k <= 64,
                data_start + 412 <= buffer@.len(),
                buffer@.len() <= usize::MAX,
                data_start == index + 8,
                bext.description == bext0.description,
                bext.originator == bext0.originator,
                bext.originator_reference == bext0.originator_reference,
                bext.origination_date == bext0.origination_date,
                bext.origination_time == bext0.origination_time,
                bext.time_reference == bext0.time_reference,
                bext.version == bext0.version,
                bext.loudness_value == bext0.loudness_value,
                bext.loudness_range == bext0.loudness_range,
                bext.max_true_peak_level == bext0.max_true_peak_level,
                bext.max_momentary_loudness == bext0.max_momentary_loudness,
                bext.max_short_term_loudness == bext0.max_short_term_loudness,
                bext.coding_history == bext0.coding_history,
                forall|j: int|
                    0 <= j < k ==> #[trigger] bext.umid@[j] == buffer@[data_start + 348 + j],
            decreases 64 - k,
        {
            bext.umid[k] = buffer[data_start + 348 + k];
            k += 1;
        }
        proof {
            assert(bext.umid@ =~= buffer@.subrange(
                data_start + 348 as int,
                data_start + 412 as int,
            ));
        }
    } else {
        proof {
            assert(bext.umid@ =~= Seq::new(64, |i: int| 0u8));
        }
    }

    if bext.version >= 2 && buffer.len() >= 422 && data_start <= buffer.len() - 422 {
        bext.loudness_value = #[verifier::truncate] (get_u16(buffer, data_start + 412, Endianness::Little) as i16);
        bext.loudness_range = #[verifier::truncate] (get_u16(buffer, data_start + 414, Endianness::Little) as i16);
        bext.max_true_peak_level = #[verifier::truncate] (get_u16(buffer, data_start + 416, Endianness::Little) as i16);
        bext.max_momentary_loudness = #[verifier::truncate] (get_u16(buffer, data_start + 418, Endianness::Little) as i16);
        bext.max_short_term_loudness = #[verifier::truncate] (get_u16(buffer, data_start + 420, Endianness::Little) as i16);
    }

    if buffer.len() > 602 && data_start < buffer.len() - 602 && chunk_size >= 602 {
        let history_start = data_start + 602;
        let remaining_declared = chunk_size - 602;
        if remaining_declared <= buffer.len() - history_start {
            bext.coding_history = read_fixed_string(buffer, history_start, remaining_declared);
        }
    }
    bext
}

/// The bytes of a bext chunk: id, declared size, the fixed fields padded
/// to their widths, 180 reserved zero bytes, then the coding history.
pub open spec fn bext_chunk_bytes(bext: BextChunk) -> Seq<u8> {
    let ch = vstd::utf8::encode_utf8(bext.coding_history@);
    bext_chunk_id() + u32_bytes((602 + ch.len()) as u32, Endianness::Little) + pad_trunc(
        vstd::utf8::encode_utf8(bext.description@),
        256,
    ) + pad_trunc(vstd::utf8::encode_utf8(bext.originator@), 32) + pad_trunc(
        vstd::utf8::encode_utf8(bext.originator_reference@),
        32,
    ) + pad_trunc(vstd::utf8::encode_utf8(bext.origination_date@), 10) + pad_trunc(
        vstd::utf8::encode_utf8(bext.origination_time@),
        8,
    ) + u64_bytes(bext.time_reference, Endianness::Little) + u16_bytes(
        bext.version,
        Endianness::Little,
    ) + bext.umid@ + u16_bytes(bext.loudness_value as u16, Endianness::Little) + u16_bytes(
        bext.loudness_range as u16,
        Endianness::Little,
    ) + u16_bytes(bext.max_true_peak_level as u16, Endianness::Little) + u16_bytes(
        bext.max_momentary_loudness as u16,
        Endianness::Little,
    ) + u16_bytes(bext.max_short_term_loudness as u16, Endianness::Little) + Seq::new(
        180,
        |i: int| 0u8,
    ) + ch
}

/// Append a BWF bext chunk.
#[verifier::rlimit(100)]
pub fn write_bext_chunk(buffer: &mut Vec<u8>, bext: &BextChunk)
    requires
        602 + vstd::utf8::encode_utf8(bext.coding_history@).len() <= u32::MAX,
    ensures
        final(buffer)@ == old(buffer)@ + bext_chunk_bytes(*bext),
{
    let history_len = bext.coding_history.as_str().len();
    let chunk_size = 602 + history_len;

    push4(buffer, 98, 101, 120, 116);
    set_u32(buffer, chunk_size as u32, Endianness::Little);
    write_fixed_string(buffer, bext.description.as_str(), 256);
    write_fixed_string(buffer, bext.originator.as_str(), 32);
    write_fixed_string(buffer, bext.originator_reference.as_str(), 32);
    write_fixed_string(buffer, bext.origination_date.as_str(), 10);
    write_fixed_string(buffer, bext.origination_time.as_str(), 8);
    set_u64(buffer, bext.time_reference, Endianness::Little);
    set_u16(buffer, bext.version, Endianness::Little);
    let mut k: usize = 0;
    let ghost mid = buffer@;
    while k < 64
        invariant
            k <= 64,
            buffer@ == mid + bext.umid@.subrange(0, k as int),
        decreases 64 - k,
    {
        buffer.push(bext.umid[k]);
        k += 1;
        proof {
            assert(buffer@ =~= mid + bext.umid@.subrange(0, k as int));
        }
    }
    proof {
        assert(bext.umid@.subrange(0, 64) =~= bext.umid@);
    }
    set_u16(buffer, bext.loudness_value as u16, Endianness::Little);
    set_u16(buffer, bext.loudness_range as u16, Endianness::Little);
    set_u16(buffer, bext.max_true_peak_level as u16, Endianness::Little);
    set_u16(buffer, bext.max_momentary_loudness as u16, Endianness::Little);
    set_u16(buffer, bext.max_short_term_loudness as u16, Endianness::Little);
    let mut z: usize = 0;
    let ghost before_reserved = buffer@;
    while z < 180
        invariant
            z <= 180,
            buffer@ == before_reserved + Seq::new(z as nat, |i: int| 0u8),
        decreases 180 - z,
    {
        buffer.push(0);
        z += 1;
        proof {
            assert(buffer@ =~= before_reserved + Seq::new(z as nat, |i: int| 0u8));
        }
    }
    set_string(buffer, bext.coding_history.as_str());
    proof {
        assert(final(buffer)@ =~= old(buffer)@ + bext_chunk_bytes(*bext));
    }
}


/// How many cue points the chunk at `index` yields: the declared count,
/// capped by how many whole 24-byte entries fit in the buffer.
pub open spec fn cue_count(b: Seq<u8>, index: int) -> nat {
    let ds = index + 8;
    if ds + 4 > b.len() {
        0
    } else {
        let num = u32_at(b, ds, Endianness::Little) as nat;
        let avail = ((b.len() - ds - 4) / 24) as nat;
        if num <= avail {
            num
        } else {
            avail
        }
    }
}

/// The id of the `k`-th cue point.
pub open spec fn cue_id_at(b: Seq<u8>, index: int, k: int) -> u32 {
    u32_at(b, index + 12 + 24 * k, Endianness::Little)
}

/// The logical position of the `k`-th cue point: its position field plus
/// its sample-offset field.
pub open spec fn cue_position_at(b: Seq<u8>, index: int, k: int) -> u64 {
    (u32_at(b, index + 16 + 24 * k, Endianness::Little) + u32_at(
        b,
        index + 32 + 24 * k,
        Endianness::Little,
    )) as u64
}

/// Read the markers of a cue chunk starting at `index`: as many declared
/// 24-byte entries as the buffer holds, each with an empty label.
pub fn read_cue_chunk(buffer: &[u8], index: usize) -> (r: Vec<Marker>)
    requires
        index + 8 <= buffer@.len(),
    ensures
        r@.len() == cue_count(buffer@, index as int),
        forall|k: int|
            0 <= k < r@.len() ==> {
                &&& (#[trigger] r@[k]).id == cue_id_at(buffer@, index as int, k)
                &&& r@[k].position == cue_position_at(buffer@, index as int, k)
                &&& r@[k].label@ == Seq::<char>::empty()
            },
{
    proof {
        vstd::slice::axiom_spec_len(buffer);
    }
    let mut markers: Vec<Marker> = Vec::new();
    let data_start = index + 8;
    if buffer.len() - data_start < 4 {
        return markers;
    }
    let num = get_u32(buffer, data_start, Endianness::Little) as usize;
    let ghost avail = ((buffer@.len() - data_start - 4) / 24) as nat;
    let mut i: usize = 0;
    let mut cur: usize = data_start + 4;
    while i < num
        invariant
            index + 8 == data_start,
            data_start + 4 <= buffer@.len(),
            buffer@.len() <= usize::MAX,
            cur == data_start + 4 + 24 * i,
            i <= num,
            num == u32_at(buffer@, data_start as int, Endianness::Little) as nat,
            avail == ((buffer@.len() - data_start - 4) / 24) as nat,
            cur <= buffer@.len(),
            i <= avail,
            markers@.len() == i,
            forall|k: int|
                0 <= k < i ==> {
                    &&& (#[trigger] markers@[k]).id == cue_id_at(buffer@, index as int, k)
                    &&& markers@[k].position == cue_position_at(buffer@, index as int, k)
                    &&& markers@[k].label@ == Seq::<char>::empty()
                },
        decreases num - i,
    {
        if buffer.len() - cur < 24 {
            proof {
                assert(24 * i <= buffer@.len() - data_start - 4 < 24 * i + 24);
                assert(avail == i) by (nonlinear_arith)
                    requires
                        avail == ((buffer@.len() - data_start - 4) / 24) as nat,
                        24 * i <= buffer@.len() - data_start - 4 < 24 * i + 24,
                ;
            }
            return markers;
        }
        let id = get_u32(buffer, cur, Endianness::Little);
        let position = get_u32(buffer, cur + 4, Endianness::Little);
        let sample_offset = get_u32(buffer, cur + 20, Endianness::Little);
        markers.push(
            Marker {
                id,
                position: position as u64 + sample_offset as u64,
                label: String::new(),
            },
        );
        i += 1;
        cur += 24;
    }
    proof {
        assert(24 * num <= buffer@.len() - data_start - 4);
        assert(num <= avail) by (nonlinear_arith)
            requires
                avail == ((buffer@.len() - data_start - 4) / 24) as nat,
                24 * num <= buffer@.len() - data_start - 4,
        ;
    }
    markers
}

/// The 24 bytes of one cue entry: id, position (truncated to 32 bits),
/// the `data` chunk id, zero chunk-start, block-start and sample-offset.
pub open spec fn cue_entry_bytes(m: Marker) -> Seq<u8> {
    u32_bytes(m.id, Endianness::Little) + u32_bytes(m.position as u32, Endianness::Little) + seq![
        100u8,
        97u8,
        116u8,
        97u8,
    ] + u32_bytes(0, Endianness::Little) + u32_bytes(0, Endianness::Little) + u32_bytes(
        0,
        Endianness::Little,
    )
}

/// The concatenated cue entries of a marker sequence.
pub open spec fn cue_entries_bytes(s: Seq<Marker>) -> Seq<u8>
    decreases s.len(),
{
    if s.len() == 0 {
        Seq::empty()
    } else {
        cue_entries_bytes(s.drop_last()) + cue_entry_bytes(s.last())
    }
}

/// The bytes of a cue chunk: id, declared size, the count, the entries.
pub open spec fn cue_chunk_bytes(s: Seq<Marker>) -> Seq<u8> {
    cue_chunk_id() + u32_bytes((4 + s.len() * 24) as u32, Endianness::Little) + u32_bytes(
        s.len() as u32,
        Endianness::Little,
    ) + cue_entries_bytes(s)
}

/// Append a cue chunk holding all the markers.
pub fn write_cue_chunk(buffer: &mut Vec<u8>, markers: &Vec<Marker>)
    requires
        4 + markers@.len() * 24 <= u32::MAX,
    ensures
        final(buffer)@ == old(buffer)@ + cue_chunk_bytes(markers@),
{
    push4(buffer, 99, 117, 101, 32);
    let count = markers.len();
    set_u32(buffer, (4 + count * 24) as u32, Endianness::Little);
    set_u32(buffer, count as u32, Endianness::Little);
    let ghost head = buffer@;
    let mut i: usize = 0;
    while i < count
        invariant
            count == markers@.len(),
            i <= count,
            buffer@ == head + cue_entries_bytes(markers@.subrange(0, i as int)),
        decreases count - i,
    {
        let m = &markers[i];
        set_u32(buffer, m.id, Endianness::Little);
        set_u32(buffer, #[verifier::truncate] (m.position as u32), Endianness::Little);
        push4(buffer, 100, 97, 116, 97);
        set_u32(buffer, 0, Endianness::Little);
        set_u32(buffer, 0, Endianness::Little);
        set_u32(buffer, 0, Endianness::Little);
        i += 1;
        proof {
            assert(markers@.subrange(0, i as int).drop_last() =~= markers@.subrange(
                0,
                i as int - 1,
            ));
            assert(markers@.subrange(0, i as int).last() == markers@[i as int - 1]);
            assert(buffer@ =~= head + cue_entries_bytes(markers@.subrange(0, i as int)));
        }
    }
    proof {
        assert(markers@.subrange(0, count as int) =~= markers@);
    }
}

/// The `labl` sub-chunk of one labelled marker: id, size, cue id, the
/// label's bytes, a NUL terminator, and a pad byte when that leaves the
/// total odd.
pub open spec fn label_subchunk_bytes(m: Marker) -> Seq<u8> {
    let lb = vstd::utf8::encode_utf8(m.label@);
    let label_len = lb.len() + 1;
    let padded = label_len + (label_len % 2);
    labl_chunk_id() + u32_bytes((4 + padded) as u32, Endianness::Little) + u32_bytes(
        m.id,
        Endianness::Little,
    ) + lb + seq![0u8] + (if label_len % 2 == 1 {
        seq![0u8]
    } else {
        Seq::<u8>::empty()
    })
}

/// The concatenated `labl` sub-chunks of every marker with a non-empty
/// label.
pub open spec fn adtl_entries_bytes(s: Seq<Marker>) -> Seq<u8>
    decreases s.len(),
{
    if s.len() == 0 {
        Seq::empty()
    } else {
        adtl_entries_bytes(s.drop_last()) + (if s.last().label@.len() > 0 {
            label_subchunk_bytes(s.last())
        } else {
            Seq::<u8>::empty()
        })
    }
}

/// A prefix of the markers never yields more label bytes than the whole.
proof fn lemma_adtl_entries_prefix(s: Seq<Marker>, i: int)
    requires
        0 <= i <= s.len(),
    ensures
        adtl_entries_bytes(s.subrange(0, i)).len() <= adtl_entries_bytes(s).len(),
    decreases s.len() - i,
{
    if i == s.len() {
        assert(s.subrange(0, i) =~= s);
    } else {
        lemma_adtl_entries_prefix(s, i + 1);
        assert(s.subrange(0, i + 1).drop_last() =~= s.subrange(0, i));
    }
}

/// Append the `labl` sub-chunks of every marker with a non-empty label.
fn write_adtl_entries(buffer: &mut Vec<u8>, markers: &Vec<Marker>)
    ensures
        final(buffer)@ == old(buffer)@ + adtl_entries_bytes(markers@),
{
    let ghost head = buffer@;
    let mut j: usize = 0;
    while j < markers.len()
        invariant
            j <= markers@.len(),
            buffer@ == head + adtl_entries_bytes(markers@.subrange(0, j as int)),
        decreases markers@.len() - j,
    {
        proof {
            assert(markers@.subrange(0, j as int + 1).drop_last() =~= markers@.subrange(
                0,
                j as int,
            ));
            assert(markers@.subrange(0, j as int + 1).last() == markers@[j as int]);
        }
        if !markers[j].label.as_str().is_empty() {
            let label_bytes = markers[j].label.as_str().as_bytes();
            proof {
                vstd::slice::axiom_spec_len(label_bytes);
            }
            let lb = label_bytes.len();
            proof {
                assert(lb == vstd::utf8::encode_utf8(markers@[j as int].label@).len());
            }
            let label_len: u128 = lb as u128 + 1;
            let padded: u128 = if label_len % 2 == 1 {
                label_len + 1
            } else {
                label_len
            };
            push4(buffer, 108, 97, 98, 108);
            set_u32(buffer, #[verifier::truncate] ((4 + padded) as u32), Endianness::Little);
            set_u32(buffer, markers[j].id, Endianness::Little);
            set_string(buffer, markers[j].label.as_str());
            buffer.push(0);
            if label_len % 2 == 1 {
                buffer.push(0);
            }
            proof {
                assert(buffer@ =~= head + adtl_entries_bytes(markers@.subrange(0, j as int + 1)));
            }
        }
        j += 1;
    }
    proof {
        assert(markers@.subrange(0, markers@.len() as int) =~= markers@);
    }
}

/// Append a `LIST`/`adtl` chunk with one `labl` sub-chunk per labelled
/// marker; when no marker has a label, nothing is written.
pub fn write_list_adtl_chunk(buffer: &mut Vec<u8>, markers: &Vec<Marker>)
    requires
        4 + adtl_entries_bytes(markers@).len() <= u32::MAX,
    ensures
        adtl_entries_bytes(markers@).len() == 0 ==> final(buffer)@ == old(buffer)@,
        adtl_entries_bytes(markers@).len() > 0 ==> final(buffer)@ == old(buffer)@
            + list_chunk_id() + u32_bytes(
            (4 + adtl_entries_bytes(markers@).len()) as u32,
            Endianness::Little,
        ) + adtl_type_id() + adtl_entries_bytes(markers@),
{
    let mut entries: Vec<u8> = Vec::new();
    write_adtl_entries(&mut entries, markers);
    if entries.len() == 0 {
        return ;
    }
    push4(buffer, 76, 73, 83, 84);
    set_u32(buffer, (4 + entries.len()) as u32, Endianness::Little);
    push4(buffer, 97, 100, 116, 108);
    buffer.append(&mut entries);
    proof {
        assert(final(buffer)@ =~= old(buffer)@ + list_chunk_id() + u32_bytes(
            (4 + adtl_entries_bytes(markers@).len()) as u32,
            Endianness::Little,
        ) + adtl_type_id() + adtl_entries_bytes(markers@));
    }
}


/// The (cue id, label) pairs parsed from `labl`/`note` sub-chunks
/// between `pos` and the chunk end, advancing by each sub-chunk's
/// declared size rounded up to even. Ids or labels whose bytes run past
/// the buffer read as zero or empty; a step past the buffer ends the
/// walk.
pub open spec fn adtl_pairs(b: Seq<u8>, pos: int, end: int) -> Seq<(u32, Seq<char>)>
    decreases b.len() - pos
        when 0 <= pos <= b.len()
{
    if !(pos + 8 < end && pos + 8 < b.len()) {
        Seq::empty()
    } else {
        let size = u32_at(b, pos + 4, Endianness::Little) as int;
        let is_label = b.subrange(pos, pos + 4) == labl_chunk_id() || b.subrange(pos, pos + 4)
            == note_chunk_id();
        let cue_id = if pos + 12 <= b.len() {
            u32_at(b, pos + 8, Endianness::Little)
        } else {
            0u32
        };
        let label_len = if size >= 4 {
            size - 4
        } else {
            0
        };
        let label = if pos + 12 + label_len <= b.len() {
            lossy_of(trim_nul(b.subrange(pos + 12, pos + 12 + label_len)))
        } else {
            Seq::<char>::empty()
        };
        let this = if is_label {
            seq![(cue_id, label)]
        } else {
            Seq::<(u32, Seq<char>)>::empty()
        };
        let next0 = pos + 8 + size + (if size % 2 == 1 {
            1int
        } else {
            0int
        });
        let next = if next0 > b.len() {
            b.len() as int
        } else {
            next0
        };
        this + adtl_pairs(b, next, end)
    }
}

/// The pairs of the `LIST` chunk at `index`, provided its list type is
/// `adtl`; otherwise there are none.
pub open spec fn marker_label_pairs(b: Seq<u8>, index: int) -> Seq<(u32, Seq<char>)> {
    let chunk_size = u32_at(b, index + 4, Endianness::Little) as int;
    let ds = index + 8;
    if ds + 4 > b.len() {
        Seq::empty()
    } else if b.subrange(ds, ds + 4) != adtl_type_id() {
        Seq::empty()
    } else {
        adtl_pairs(b, ds + 4, index + 8 + chunk_size)
    }
}

/// The label of the last pair carrying the given id, if any.
pub open spec fn last_label(pairs: Seq<(u32, Seq<char>)>, id: u32) -> Option<Seq<char>>
    decreases pairs.len(),
{
    if pairs.len() == 0 {
        None
    } else if pairs.last().0 == id {
        Some(pairs.last().1)
    } else {
        last_label(pairs.drop_last(), id)
    }
}

/// Whether marker `j` is the first in the sequence with its id.
pub open spec fn is_first_with_id(ms: Seq<Marker>, j: int) -> bool {
    forall|k: int| 0 <= k < j ==> #[trigger] ms[k].id != ms[j].id
}

/// The view of collected pairs: each id with its label's characters.
pub open spec fn pairs_view(v: Seq<(u32, String)>) -> Seq<(u32, Seq<char>)> {
    v.map(|i: int, p: (u32, String)| (p.0, p.1@))
}

/// Collect the (cue id, label) pairs of the sub-chunks from `pos` up to
/// the declared chunk end.
fn read_adtl_pairs(buffer: &[u8], pos: usize, end: u128) -> (r: Vec<(u32, String)>)
    requires
        pos <= buffer@.len(),
    ensures
        pairs_view(r@) == adtl_pairs(buffer@, pos as int, end as int),
{
    proof {
        vstd::slice::axiom_spec_len(buffer);
    }
    let mut out: Vec<(u32, String)> = Vec::new();
    let mut cursor = pos;
    let ghost pos0 = pos as int;
    loop
        invariant
            cursor <= buffer@.len(),
            buffer@.len() <= usize::MAX,
            pos0 == pos as int,
            adtl_pairs(buffer@, pos0, end as int) == pairs_view(out@) + adtl_pairs(
                buffer@,
                cursor as int,
                end as int,
            ),
        decreases buffer@.len() - cursor,
    {
        if !((cursor as u128) + 8 < end && (cursor as u128) + 8 < (buffer.len() as u128)) {
            proof {
                assert(!(cursor + 8 < end as int && cursor + 8 < buffer@.len()));
                assert(adtl_pairs(buffer@, cursor as int, end as int) == Seq::<(
                    u32,
                    Seq<char>,
                )>::empty());
                assert(pairs_view(out@) + Seq::<(u32, Seq<char>)>::empty() =~= pairs_view(out@));
                assert(pairs_view(out@) == adtl_pairs(buffer@, pos0, end as int));
            }
            return out;
        }
        let size = get_u32(buffer, cursor + 4, Endianness::Little) as usize;
        let is_labl = buffer[cursor] == 108 && buffer[cursor + 1] == 97 && buffer[cursor + 2] == 98
            && buffer[cursor + 3] == 108;
        let is_note = buffer[cursor] == 110 && buffer[cursor + 1] == 111 && buffer[cursor + 2]
            == 116 && buffer[cursor + 3] == 101;
        proof {
            if is_labl {
                assert(buffer@.subrange(cursor as int, cursor as int + 4) =~= labl_chunk_id());
            } else {
                assert(buffer@.subrange(cursor as int, cursor as int + 4) != labl_chunk_id()) by {
                    if buffer@.subrange(cursor as int, cursor as int + 4) == labl_chunk_id() {
                        assert(buffer@[cursor as int] == 108);
                        assert(buffer@[cursor as int + 1] == 97);
                        assert(buffer@[cursor as int + 2] == 98);
                        assert(buffer@[cursor as int + 3] == 108);
                    }
                }
            }
            if is_note {
                assert(buffer@.subrange(cursor as int, cursor as int + 4) =~= note_chunk_id());
            } else {
                assert(buffer@.subrange(cursor as int, cursor as int + 4) != note_chunk_id()) by {
                    if buffer@.subrange(cursor as int, cursor as int + 4) == note_chunk_id() {
                        assert(buffer@[cursor as int] == 110);
                        assert(buffer@[cursor as int + 1] == 111);
                        assert(buffer@[cursor as int + 2] == 116);
                        assert(buffer@[cursor as int + 3] == 101);
                    }
                }
            }
        }
        let ghost out_before = out@;
        if is_labl || is_note {
            let cue_id = get_u32(buffer, cursor + 8, Endianness::Little);
            let label_len = if size >= 4 {
                size - 4
            } else {
                0
            };
            let label = if buffer.len() - cursor >= 12 {
                read_fixed_string(buffer, cursor + 12, label_len)
            } else {
                String::new()
            };
            out.push((cue_id, label));
            proof {
                assert(pairs_view(out@) =~= pairs_view(out_before) + seq![
                    (out@.last().0, out@.last().1@),
                ]);
            }
        }
        let available = buffer.len() - (cursor + 8);
        if size > available {
            cursor = buffer.len();
        } else {
            let base = cursor + 8 + size;
            if size % 2 == 1 {
                if base < buffer.len() {
                    cursor = base + 1;
                } else {
                    cursor = buffer.len();
                }
            } else {
                cursor = base;
            }
        }
        proof {
            assert(adtl_pairs(buffer@, pos0, end as int) =~= pairs_view(out@) + adtl_pairs(
                buffer@,
                cursor as int,
                end as int,
            ));
        }
    }
}

/// Attach `labl`/`note` labels from the `LIST` chunk at `index` to the
/// markers: the first marker carrying a cue id receives the last label
/// written for that id; every other marker keeps its label. Ids and
/// positions never change.
#[verifier::rlimit(100)]
pub fn read_marker_labels(buffer: &[u8], index: usize, markers: &mut Vec<Marker>)
    requires
        index + 8 <= buffer@.len(),
    ensures
        final(markers)@.len() == old(markers)@.len(),
        forall|j: int|
            0 <= j < old(markers)@.len() ==> {
                &&& (#[trigger] final(markers)@[j]).id == old(markers)@[j].id
                &&& final(markers)@[j].position == old(markers)@[j].position
            },
        forall|j: int|
            0 <= j < old(markers)@.len() ==> {
                let pairs = marker_label_pairs(buffer@, index as int);
                if is_first_with_id(old(markers)@, j) && last_label(
                    pairs,
                    old(markers)@[j].id,
                ) is Some {
                    (#[trigger] final(markers)@[j]).label@ == last_label(
                        pairs,
                        old(markers)@[j].id,
                    )->Some_0
                } else {
                    final(markers)@[j].label == old(markers)@[j].label
                }
            },
{
    proof {
        vstd::slice::axiom_spec_len(buffer);
    }
    let chunk_size = get_u32(buffer, index + 4, Endianness::Little);
    let data_start = index + 8;
    if buffer.len() - data_start < 4 {
        return ;
    }
    let is_adtl = buffer[data_start] == 97 && buffer[data_start + 1] == 100 && buffer[data_start
        + 2] == 116 && buffer[data_start + 3] == 108;
    proof {
        if is_adtl {
            assert(buffer@.subrange(data_start as int, data_start as int + 4) =~= adtl_type_id());
        } else {
            assert(buffer@.subrange(data_start as int, data_start as int + 4)
                != adtl_type_id()) by {
                if buffer@.subrange(data_start as int, data_start as int + 4) == adtl_type_id() {
                    assert(buffer@[data_start as int] == 97);
                    assert(buffer@[data_start as int + 1] == 100);
                    assert(buffer@[data_start as int + 2] == 116);
                    assert(buffer@[data_start as int + 3] == 108);
                }
            }
        }
    }
    if !is_adtl {
        return ;
    }
    let end: u128 = index as u128 + 8 + chunk_size as u128;
    let pairs = read_adtl_pairs(buffer, data_start + 4, end);
    let ghost pairs_spec = marker_label_pairs(buffer@, index as int);
    proof {
        assert(pairs_spec == pairs_view(pairs@));
    }
    let ghost markers0 = markers@;
    let mut j: usize = 0;
    while j < markers.len()
        invariant
            markers@.len() == markers0.len(),
            j <= markers0.len(),
            pairs_spec == pairs_view(pairs@),
            pairs_spec == marker_label_pairs(buffer@, index as int),
            forall|t: int|
                0 <= t < markers0.len() ==> {
                    &&& (#[trigger] markers@[t]).id == markers0[t].id
                    &&& markers@[t].position == markers0[t].position
                },
            forall|t: int| j <= t < markers0.len() ==> (#[trigger] markers@[t]).label
                == markers0[t].label,
            forall|t: int|
                0 <= t < j ==> {
                    if is_first_with_id(markers0, t) && last_label(
                        pairs_spec,
                        markers0[t].id,
                    ) is Some {
                        (#[trigger] markers@[t]).label@ == last_label(
                            pairs_spec,
                            markers0[t].id,
                        )->Some_0
                    } else {
                        markers@[t].label == markers0[t].label
                    }
                },
        decreases markers0.len() - j,
    {
        let mut first = true;
        let mut k: usize = 0;
        while k < j
            invariant
                j < markers0.len(),
                markers@.len() == markers0.len(),
                k <= j,
                forall|t: int|
                    0 <= t < markers0.len() ==> (#[trigger] markers@[t]).id == markers0[t].id,
                first == (forall|t: int|
                    0 <= t < k ==> #[trigger] markers0[t].id != markers0[j as int].id),
            decreases j - k,
        {
            if markers[k].id == markers[j].id {
                proof {
                    assert(markers0[k as int].id == markers0[j as int].id);
                }
                first = false;
            } else {
                proof {
                    assert(markers0[k as int].id != markers0[j as int].id);
                }
            }
            k += 1;
        }
        if first {
            let id = markers[j].id;
            let ghost target = last_label(pairs_spec, id);
            proof {
                assert(pairs@.subrange(0, pairs@.len() as int) =~= pairs@);
                assert(pairs_view(pairs@.subrange(0, pairs@.len() as int)) =~= pairs_view(
                    pairs@,
                ));
            }
            let mut t: usize = pairs.len();
            let mut found = false;
            while t > 0 && !found
                invariant
                    t <= pairs@.len(),
                    pairs_spec == pairs_view(pairs@),
                    !found ==> last_label(pairs_spec, id) == last_label(
                        pairs_view(pairs@.subrange(0, t as int)),
                        id,
                    ),
                    found ==> t < pairs@.len() && pairs@[t as int].0 == id && last_label(
                        pairs_spec,
                        id,
                    ) == Some(pairs@[t as int].1@),
                decreases t,
            {
                proof {
                    assert(pairs_view(pairs@.subrange(0, t as int)).drop_last() =~= pairs_view(
                        pairs@.subrange(0, t as int - 1),
                    ));
                    assert(pairs_view(pairs@.subrange(0, t as int)).last() == (pairs@[t as int
                        - 1].0, pairs@[t as int - 1].1@));
                }
                if pairs[t - 1].0 == id {
                    found = true;
                    t -= 1;
                } else {
                    t -= 1;
                }
            }
            if found {
                let label = pairs[t].1.clone();
                let position = markers[j].position;
                markers[j] = Marker { id, position, label };
            } else {
                proof {
                    assert(pairs_view(pairs@.subrange(0, 0)) =~= Seq::<(u32, Seq<char>)>::empty());
                    assert(last_label(pairs_spec, id) is None);
                }
            }
        }
        proof {
            if !first {
                assert(!is_first_with_id(markers0, j as int));
            }
        }
        j += 1;
    }
}

/// The tempo parsed from an acid chunk at `index`: present exactly when
/// the 24 payload bytes are in the buffer and the stored 32-bit float is
/// strictly between 0 and 1000 beats per minute - for non-negative
/// floats the bit patterns order as the values do, so that range is the
/// bit range [1, 0x447A0000), 0x447A0000 being the bits of 1000.0.
pub open spec fn acid_tempo(b: Seq<u8>, index: int) -> Option<TempoInfo> {
    let ds = index + 8;
    if ds + 24 > b.len() {
        None
    } else {
        let bits = u32_at(b, ds + 20, Endianness::Little);
        if 1 <= bits < 0x447A0000u32 {
            let numerator = u16_at(b, ds + 18, Endianness::Little) as u8;
            let denominator = u16_at(b, ds + 16, Endianness::Little) as u8;
            Some(
                TempoInfo {
                    bpm_bits: bits,
                    time_sig_numerator: if numerator > 0 {
                        numerator
                    } else {
                        4u8
                    },
                    time_sig_denominator: if denominator > 0 {
                        denominator
                    } else {
                        4u8
                    },
                    position: 0u64,
                    num_beats: u32_at(b, ds + 12, Endianness::Little),
                },
            )
        } else {
            None
        }
    }
}

/// Read tempo information from an acid chunk at `index`.
pub fn read_acid_chunk(buffer: &[u8], index: usize) -> (r: Option<TempoInfo>)
    requires
        index + 8 <= buffer@.len(),
    ensures
        r == acid_tempo(buffer@, index as int),
{
    proof {
        vstd::slice::axiom_spec_len(buffer);
    }
    let data_start = index + 8;
    if buffer.len() - data_start < 24 {
        return None;
    }
    let bits = get_u32(buffer, data_start + 20, Endianness::Little);
    if 1 <= bits && bits < 0x447A0000 {
        let numerator = #[verifier::truncate] (get_u16(
            buffer,
            data_start + 18,
            Endianness::Little,
        ) as u8);
        let denominator = #[verifier::truncate] (get_u16(
            buffer,
            data_start + 16,
            Endianness::Little,
        ) as u8);
        Some(
            TempoInfo {
                bpm_bits: bits,
                time_sig_numerator: if numerator > 0 {
                    numerator
                } else {
                    4
                },
                time_sig_denominator: if denominator > 0 {
                    denominator
                } else {
                    4
                },
                position: 0,
                num_beats: get_u32(buffer, data_start + 12, Endianness::Little),
            },
        )
    } else {
        None
    }
}

/// The 32 bytes of an acid chunk: id, size 24, zero type flags, root
/// note 60, two unused fields, the beat count, the time signature, and
/// the tempo's float bits.
pub open spec fn acid_chunk_bytes(tempo: TempoInfo) -> Seq<u8> {
    acid_chunk_id() + u32_bytes(24, Endianness::Little) + u32_bytes(0, Endianness::Little)
        + u16_bytes(60, Endianness::Little) + u16_bytes(0, Endianness::Little) + u32_bytes(
        0,
        Endianness::Little,
    ) + u32_bytes(tempo.num_beats, Endianness::Little) + u16_bytes(
        tempo.time_sig_denominator as u16,
        Endianness::Little,
    ) + u16_bytes(tempo.time_sig_numerator as u16, Endianness::Little) + u32_bytes(
        tempo.bpm_bits,
        Endianness::Little,
    )
}

/// Append an acid chunk carrying the tempo.
pub fn write_acid_chunk(buffer: &mut Vec<u8>, tempo: &TempoInfo)
    ensures
        final(buffer)@ == old(buffer)@ + acid_chunk_bytes(*tempo),
{
    push4(buffer, 97, 99, 105, 100);
    set_u32(buffer, 24, Endianness::Little);
    set_u32(buffer, 0, Endianness::Little);
    set_u16(buffer, 60, Endianness::Little);
    set_u16(buffer, 0, Endianness::Little);
    set_u32(buffer, 0, Endianness::Little);
    set_u32(buffer, tempo.num_beats, Endianness::Little);
    set_u16(buffer, tempo.time_sig_denominator as u16, Endianness::Little);
    set_u16(buffer, tempo.time_sig_numerator as u16, Endianness::Little);
    set_u32(buffer, tempo.bpm_bits, Endianness::Little);
    proof {
        assert(final(buffer)@ =~= old(buffer)@ + acid_chunk_bytes(*tempo));
    }
}


// ==========================================
// PCM samples
// ==========================================

/// The bit depths the codec accepts, in bits per sample.
pub open spec fn valid_bit_depth(bits: nat) -> bool {
    bits == 8 || bits == 16 || bits == 24 || bits == 32
}

/// The signed 8-bit sample at `i`.
pub open spec fn sample8_at(b: Seq<u8>, i: int) -> i32 {
    b[i] as i8 as i32
}

/// The signed 16-bit sample at `i`.
pub open spec fn sample16_at(b: Seq<u8>, i: int, endianness: Endianness) -> i32 {
    u16_at(b, i, endianness) as i16 as i32
}

/// The signed 24-bit sample at `i`: three bytes, sign-extended.
pub open spec fn sample24_at(b: Seq<u8>, i: int, endianness: Endianness) -> i32 {
    let v = match endianness {
        Endianness::Little => b[i] + b[i + 1] * 0x100 + b[i + 2] * 0x10000,
        Endianness::Big => b[i + 2] + b[i + 1] * 0x100 + b[i] * 0x10000,
    };
    if v >= 0x800000 {
        (v - 0x1000000) as i32
    } else {
        v as i32
    }
}

/// The 32-bit sample at `i`: for PCM the signed value, for IEEE-float
/// data the raw bit pattern.
pub open spec fn sample32_at(b: Seq<u8>, i: int, endianness: Endianness) -> i32 {
    u32_at(b, i, endianness) as i32
}

/// The sample of the given bit depth at `i`.
pub open spec fn sample_at(b: Seq<u8>, i: int, depth: int, endianness: Endianness) -> i32 {
    if depth == 8 {
        sample8_at(b, i)
    } else if depth == 16 {
        sample16_at(b, i, endianness)
    } else if depth == 24 {
        sample24_at(b, i, endianness)
    } else {
        sample32_at(b, i, endianness)
    }
}

/// The peak integer magnitude at a bit depth: the largest encoded value.
pub open spec fn peak_of(depth: int) -> int {
    if depth == 8 {
        127
    } else if depth == 16 {
        0x7FFF
    } else if depth == 24 {
        0x7FFFFF
    } else {
        0x7FFFFFFF
    }
}

/// A sample clamped to the symmetric range of its bit depth.
pub open spec fn clamped(x: i32, depth: int) -> i32 {
    if x > peak_of(depth) {
        peak_of(depth) as i32
    } else if x < -peak_of(depth) {
        (-peak_of(depth)) as i32
    } else {
        x
    }
}

/// The bytes encoding a sample at a bit depth, after clamping to the
/// depth's symmetric range.
pub open spec fn sample_bytes(x: i32, depth: int, endianness: Endianness) -> Seq<u8> {
    let c = clamped(x, depth);
    if depth == 8 {
        seq![c as i8 as u8]
    } else if depth == 16 {
        u16_bytes(c as i16 as u16, endianness)
    } else if depth == 24 {
        let v = if c >= 0 {
            c as int
        } else {
            c + 0x1000000
        };
        match endianness {
            Endianness::Little => seq![
                (v % 0x100) as u8,
                ((v / 0x100) % 0x100) as u8,
                (v / 0x10000) as u8,
            ],
            Endianness::Big => seq![
                (v / 0x10000) as u8,
                ((v / 0x100) % 0x100) as u8,
                (v % 0x100) as u8,
            ],
        }
    } else {
        u32_bytes(c as u32, endianness)
    }
}

/// Decode one sample of the given bit depth at `start`.
pub fn decode_sample(buffer: &[u8], start: usize, depth: usize, endianness: Endianness) -> (r:
    i32)
    requires
        valid_bit_depth(depth as nat),
        start + depth / 8 <= buffer@.len(),
    ensures
        r == sample_at(buffer@, start as int, depth as int, endianness),
{
    proof {
        vstd::slice::axiom_spec_len(buffer);
    }
    if depth == 8 {
        buffer[start] as i8 as i32
    } else if depth == 16 {
        get_u16(buffer, start, endianness) as i16 as i32
    } else if depth == 24 {
        let b0 = buffer[start] as u32;
        let b1 = buffer[start + 1] as u32;
        let b2 = buffer[start + 2] as u32;
        let v: u32 = match endianness {
            Endianness::Little => b0 + b1 * 0x100 + b2 * 0x10000,
            Endianness::Big => b2 + b1 * 0x100 + b0 * 0x10000,
        };
        if v >= 0x800000 {
            ((v as i64) - 0x1000000) as i32
        } else {
            v as i32
        }
    } else {
        get_u32(buffer, start, endianness) as i32
    }
}

/// Append one sample of the given bit depth, clamping it to the depth's
/// range first.
pub fn encode_sample(buffer: &mut Vec<u8>, x: i32, depth: usize, endianness: Endianness)
    requires
        valid_bit_depth(depth as nat),
    ensures
        final(buffer)@ == old(buffer)@ + sample_bytes(x, depth as int, endianness),
{
    if depth == 8 {
        let c: i32 = if x > 127 {
            127
        } else if x < -127 {
            -127
        } else {
            x
        };
        buffer.push(#[verifier::truncate] (c as i8 as u8));
        proof {
            assert(final(buffer)@ =~= old(buffer)@ + sample_bytes(x, depth as int, endianness));
        }
    } else if depth == 16 {
        let c: i32 = if x > 0x7FFF {
            0x7FFF
        } else if x < -0x7FFF {
            -0x7FFF
        } else {
            x
        };
        set_u16(buffer, #[verifier::truncate] (c as i16 as u16), endianness);
    } else if depth == 24 {
        let c: i32 = if x > 0x7FFFFF {
            0x7FFFFF
        } else if x < -0x7FFFFF {
            -0x7FFFFF
        } else {
            x
        };
        let v: u32 = if c >= 0 {
            c as u32
        } else {
            (c + 0x1000000) as u32
        };
        match endianness {
            Endianness::Little => {
                buffer.push((v % 0x100) as u8);
                buffer.push(((v / 0x100) % 0x100) as u8);
                buffer.push((v / 0x10000) as u8);
            },
            Endianness::Big => {
                buffer.push((v / 0x10000) as u8);
                buffer.push(((v / 0x100) % 0x100) as u8);
                buffer.push((v % 0x100) as u8);
            },
        }
        proof {
            assert(final(buffer)@ =~= old(buffer)@ + sample_bytes(x, depth as int, endianness));
        }
    } else {
        let c: i32 = if x < -0x7FFFFFFF {
            -0x7FFFFFFF
        } else {
            x
        };
        set_u32(buffer, #[verifier::truncate] (c as u32), endianness);
        proof {
            assert(clamped(x, 32) == c);
            assert(final(buffer)@ =~= old(buffer)@ + sample_bytes(x, depth as int, endianness));
        }
    }
}

/// Decoding an encoded sample gives the sample back, clamped to the bit
/// depth's range: the integer codec is lossless on in-range samples.
pub proof fn lemma_sample_roundtrip(x: i32, depth: int, endianness: Endianness)
    requires
        0 <= depth,
        valid_bit_depth(depth as nat),
    ensures
        sample_bytes(x, depth, endianness).len() == depth / 8,
        sample_at(sample_bytes(x, depth, endianness), 0, depth, endianness) == clamped(x, depth),
{
    let c = clamped(x, depth);
    if depth == 8 {
        assert(sample_bytes(x, depth, endianness) =~= seq![c as i8 as u8]);
        assert(c as i8 as u8 as i8 as i32 == c) by (bit_vector)
            requires
                -127 <= c <= 127,
        ;
    } else if depth == 16 {
        lemma_u16_roundtrip(c as i16 as u16, endianness);
        assert(sample_bytes(x, depth, endianness) == u16_bytes(c as i16 as u16, endianness));
        assert(sample_bytes(x, depth, endianness).len() == 2);
        assert(c as i16 as u16 as i16 as i32 == c) by (bit_vector)
            requires
                -0x7FFF <= c <= 0x7FFF,
        ;
    } else if depth == 24 {
        let v = if c >= 0 {
            c as int
        } else {
            c + 0x1000000
        };
        assert(0 <= v < 0x1000000);
        let s = sample_bytes(x, depth, endianness);
        match endianness {
            Endianness::Little => {
                assert(s =~= seq![
                    (v % 0x100) as u8,
                    ((v / 0x100) % 0x100) as u8,
                    (v / 0x10000) as u8,
                ]);
            },
            Endianness::Big => {
                assert(s =~= seq![
                    (v / 0x10000) as u8,
                    ((v / 0x100) % 0x100) as u8,
                    (v % 0x100) as u8,
                ]);
            },
        }
        lemma_fundamental_div_mod(v, 0x100);
        lemma_div_denominator(v, 0x100, 0x100);
        lemma_fundamental_div_mod(v / 0x100, 0x100);
        assert(v / 0x10000 < 0x100);
        let w = match endianness {
            Endianness::Little => s[0] + s[1] * 0x100 + s[2] * 0x10000,
            Endianness::Big => s[2] + s[1] * 0x100 + s[0] * 0x10000,
        };
        assert(w == v);
        if c >= 0 {
            assert(v < 0x800000);
        } else {
            assert(v >= 0x800000);
        }
    } else {
        lemma_u32_roundtrip(#[verifier::truncate] (c as u32), endianness);
        assert(sample_bytes(x, depth, endianness) == u32_bytes(c as u32, endianness));
        assert(sample_bytes(x, depth, endianness).len() == 4);
        assert(c as u32 as i32 == c) by (bit_vector);
        assert(sample_at(sample_bytes(x, depth, endianness), 0, depth, endianness) == clamped(
            x,
            depth,
        ));
    }
}


// ==========================================
// WAV decode
// ==========================================

/// The `WAVE` form type.
pub open spec fn wave_magic() -> Seq<u8> {
    seq![87u8, 65u8, 86u8, 69u8]
}

/// The `fmt ` chunk id.
pub open spec fn fmt_chunk_id() -> Seq<u8> {
    seq![102u8, 109u8, 116u8, 32u8]
}

/// The `data` chunk id.
pub open spec fn data_chunk_id() -> Seq<u8> {
    seq![100u8, 97u8, 116u8, 97u8]
}

/// The `iXML` chunk id.
pub open spec fn ixml_chunk_id() -> Seq<u8> {
    seq![105u8, 88u8, 77u8, 76u8]
}

/// Relies on std's `String::from_utf8`: succeeds exactly on valid UTF-8,
/// decoding it to its characters.
#[verifier::external_body]
fn bytes_to_string_utf8(bytes: Vec<u8>) -> (r: Option<String>)
    ensures
        r is Some <==> vstd::utf8::valid_utf8(bytes@),
        r matches Some(s) ==> s@ == vstd::utf8::decode_utf8(bytes@),
{
    match String::from_utf8(bytes) {
        Ok(s) => Some(s),
        Err(_) => None,
    }
}

/// Why a byte buffer fails to decode as WAV, or nothing when it decodes:
/// the magics are checked first, then the presence of the `fmt ` and
/// `data` chunks, then that the `fmt ` fields are all inside the buffer,
/// then the format code (only PCM and IEEE float, the latter 32-bit
/// only), the channel count, the bit depth, the rate consistency fields,
/// and finally that the declared samples are inside the buffer.
pub open spec fn wav_decode_error(b: Seq<u8>) -> Option<MKAudioError> {
    if !(b.len() >= 4 && b.subrange(0, 4) == riff_magic()) {
        Some(MKAudioError::BadMagic)
    } else if !(b.len() >= 12 && b.subrange(8, 12) == wave_magic()) {
        Some(MKAudioError::BadFormat)
    } else if chunk_scan(b, fmt_chunk_id(), 12, Endianness::Little) is None {
        Some(MKAudioError::ChunkNotFound)
    } else if chunk_scan(b, data_chunk_id(), 12, Endianness::Little) is None {
        Some(MKAudioError::ChunkNotFound)
    } else {
        let fi = chunk_scan(b, fmt_chunk_id(), 12, Endianness::Little)->Some_0 as int;
        if fi + 24 > b.len() {
            Some(MKAudioError::Truncated)
        } else {
            let fmt_code = u16_at(b, fi + 8, Endianness::Little);
            let channels = u16_at(b, fi + 10, Endianness::Little) as int;
            let rate = u32_at(b, fi + 12, Endianness::Little) as int;
            let bytes_per_sec = u32_at(b, fi + 16, Endianness::Little) as int;
            let block_align = u16_at(b, fi + 20, Endianness::Little) as int;
            let bits = u16_at(b, fi + 22, Endianness::Little) as int;
            if fmt_code != 1 && fmt_code != 3 {
                Some(MKAudioError::UnsupportedCodec)
            } else if channels < 1 || channels > 128 {
                Some(MKAudioError::BadFormat)
            } else if !valid_bit_depth(bits as nat) {
                Some(MKAudioError::UnsupportedBitDepth)
            } else if fmt_code == 3 && bits != 32 {
                Some(MKAudioError::UnsupportedCodec)
            } else if bytes_per_sec != channels * rate * bits / 8 || block_align != channels * bits
                / 8 {
                Some(MKAudioError::BadFormat)
            } else {
                let di = chunk_scan(b, data_chunk_id(), 12, Endianness::Little)->Some_0 as int;
                let data_size = u32_at(b, di + 4, Endianness::Little) as int;
                let frame = channels * (bits / 8);
                let num_samples = data_size / frame;
                if di + 8 + num_samples * frame > b.len() {
                    Some(MKAudioError::Truncated)
                } else {
                    None
                }
            }
        }
    }
}

/// The iXML text of a WAV buffer: the chunk's payload when it is present,
/// within the buffer, and valid UTF-8; empty otherwise.
pub open spec fn wav_xml_text(b: Seq<u8>) -> Seq<char> {
    match chunk_scan(b, ixml_chunk_id(), 12, Endianness::Little) {
        Some(xi) => {
            let size = u32_at(b, xi as int + 4, Endianness::Little) as int;
            if xi + 8 + size <= b.len() && vstd::utf8::valid_utf8(
                b.subrange(xi as int + 8, xi as int + 8 + size),
            ) {
                vstd::utf8::decode_utf8(b.subrange(xi as int + 8, xi as int + 8 + size))
            } else {
                Seq::<char>::empty()
            }
        },
        None => Seq::<char>::empty(),
    }
}

/// A chunk the scanner finds starts inside the buffer, with room for its
/// eight header bytes.
proof fn lemma_chunk_scan_bounds(b: Seq<u8>, id: Seq<u8>, i: nat, endianness: Endianness)
    requires
        i <= b.len(),
        chunk_scan(b, id, i, endianness) is Some,
    ensures
        chunk_scan(b, id, i, endianness)->Some_0 + 8 <= b.len(),
    decreases b.len() - i,
{
    if i + 8 > b.len() {
    } else if b.subrange(i as int, i as int + 4) == id {
    } else {
        let size = u32_at(b, i as int + 4, endianness) as nat;
        let padded = size + (size % 2);
        if i + 8 + padded > b.len() {
        } else {
            lemma_chunk_scan_bounds(b, id, (i + 8 + padded) as nat, endianness);
        }
    }
}

/// A marker sequence as a cue chunk at `ci` parses it, in file order:
/// the declared entries, each with its id and logical position, labels
/// aside.
pub open spec fn wav_cue_markers_match(s: Seq<Marker>, b: Seq<u8>, ci: int) -> bool {
    &&& s.len() == cue_count(b, ci)
    &&& forall|j: int|
        0 <= j < s.len() ==> {
            &&& (#[trigger] s[j]).id == cue_id_at(b, ci, j)
            &&& s[j].position == cue_position_at(b, ci, j)
        }
}

/// How a decoded record relates to the WAV bytes it was read from:
/// rate, depth, every sample, the iXML text, the bext chunk, the
/// markers (the cue entries, re-ordered by position) and the tempo are
/// all pinned to the container.
pub open spec fn wav_decoded(f: AudioFile, b: Seq<u8>) -> bool {
    let fi = chunk_scan(b, fmt_chunk_id(), 12, Endianness::Little)->Some_0 as int;
    let di = chunk_scan(b, data_chunk_id(), 12, Endianness::Little)->Some_0 as int;
    let channels = u16_at(b, fi + 10, Endianness::Little) as int;
    let bits = u16_at(b, fi + 22, Endianness::Little) as int;
    let frame = channels * (bits / 8);
    let num_samples = u32_at(b, di + 4, Endianness::Little) as int / frame;
    &&& f.sample_rate_spec() == u32_at(b, fi + 12, Endianness::Little)
    &&& f.bit_depth_spec() == bits
    &&& f.channels_spec().len() == channels
    &&& forall|c: int|
        0 <= c < channels ==> (#[trigger] f.channels_spec()[c]).len() == num_samples
    &&& forall|c: int, i: int|
        0 <= c < channels && 0 <= i < num_samples ==> #[trigger] f.channels_spec()[c][i]
            == sample_at(b, di + 8 + i * frame + c * (bits / 8), bits, Endianness::Little)
    &&& f.xml_spec() == wav_xml_text(b)
    &&& match chunk_scan(b, bext_chunk_id(), 12, Endianness::Little) {
        Some(bi) => f.bext_spec() matches Some(bx) && bext_matches(bx, b, bi as int),
        None => f.bext_spec() is None,
    }
    &&& match chunk_scan(b, cue_chunk_id(), 12, Endianness::Little) {
        Some(ci) => {
            &&& markers_sorted(f.markers_spec())
            &&& exists|s: Seq<Marker>|
                #[trigger] wav_cue_markers_match(s, b, ci as int) && f.markers_spec().to_multiset()
                    == s.to_multiset()
        },
        None => f.markers_spec().len() == 0,
    }
    &&& match chunk_scan(b, acid_chunk_id(), 12, Endianness::Little) {
        Some(ai) => f.tempo_spec() == acid_tempo(b, ai as int),
        None => f.tempo_spec() is None,
    }
}

impl AudioFile {
    /// Decode a WAV buffer into this file. On success every decoded part
    /// of the record is exactly what the container bytes hold; on error
    /// the file is unchanged and the error says what failed, as
    /// [`wav_decode_error`] lays down.
    #[verifier::rlimit(100)]
    pub fn read_wav(&mut self, buffer: &[u8]) -> (r: Result<(), MKAudioError>)
        ensures
            match wav_decode_error(buffer@) {
                Some(e) => r == Result::<(), MKAudioError>::Err(e) && *final(self) == *old(self),
                None => r == Result::<(), MKAudioError>::Ok(()) && wav_decoded(
                    *final(self),
                    buffer@,
                ) && final(self).format_spec() == old(self).format_spec(),
            },
    {
        proof {
            vstd::slice::axiom_spec_len(buffer);
        }
        let ghost b = buffer@;
        if !(buffer.len() >= 4 && buffer[0] == 82 && buffer[1] == 73 && buffer[2] == 70
            && buffer[3] == 70) {
            proof {
                if b.len() >= 4 && b.subrange(0, 4) == riff_magic() {
                    assert(b[0] == 82 && b[1] == 73 && b[2] == 70 && b[3] == 70);
                }
            }
            return Err(MKAudioError::BadMagic);
        }
        proof {
            assert(b.subrange(0, 4) =~= riff_magic());
        }
        if !(buffer.len() >= 12 && buffer[8] == 87 && buffer[9] == 65 && buffer[10] == 86
            && buffer[11] == 69) {
            proof {
                if b.len() >= 12 && b.subrange(8, 12) == wave_magic() {
                    assert(b[8] == 87 && b[9] == 65 && b[10] == 86 && b[11] == 69);
                }
            }
            return Err(MKAudioError::BadFormat);
        }
        proof {
            assert(b.subrange(8, 12) =~= wave_magic());
        }
        let fmt_id: [u8; 4] = [102, 109, 116, 32];
        let data_id: [u8; 4] = [100, 97, 116, 97];
        let ixml_id: [u8; 4] = [105, 88, 77, 76];
        let bext_id: [u8; 4] = [98, 101, 120, 116];
        let cue_id: [u8; 4] = [99, 117, 101, 32];
        let list_id: [u8; 4] = [76, 73, 83, 84];
        let acid_id: [u8; 4] = [97, 99, 105, 100];
        proof {
            assert(fmt_id@ =~= fmt_chunk_id());
            assert(data_id@ =~= data_chunk_id());
            assert(ixml_id@ =~= ixml_chunk_id());
            assert(bext_id@ =~= bext_chunk_id());
            assert(cue_id@ =~= cue_chunk_id());
            assert(list_id@ =~= list_chunk_id());
            assert(acid_id@ =~= acid_chunk_id());
        }
        let fmt_idx = match find_chunk(buffer, &fmt_id, 12, Endianness::Little) {
            Some(i) => i,
            None => {
                return Err(MKAudioError::ChunkNotFound);
            },
        };
        let data_idx = match find_chunk(buffer, &data_id, 12, Endianness::Little) {
            Some(i) => i,
            None => {
                return Err(MKAudioError::ChunkNotFound);
            },
        };
        proof {
            lemma_chunk_scan_bounds(b, fmt_chunk_id(), 12, Endianness::Little);
            lemma_chunk_scan_bounds(b, data_chunk_id(), 12, Endianness::Little);
        }
        if buffer.len() - fmt_idx < 24 {
            return Err(MKAudioError::Truncated);
        }
        let fmt_code = get_u16(buffer, fmt_idx + 8, Endianness::Little);
        let channels = get_u16(buffer, fmt_idx + 10, Endianness::Little) as usize;
        let rate = get_u32(buffer, fmt_idx + 12, Endianness::Little);
        let bytes_per_sec = get_u32(buffer, fmt_idx + 16, Endianness::Little);
        let block_align = get_u16(buffer, fmt_idx + 20, Endianness::Little);
        let bits = get_u16(buffer, fmt_idx + 22, Endianness::Little) as usize;
        if fmt_code != 1 && fmt_code != 3 {
            return Err(MKAudioError::UnsupportedCodec);
        }
        if channels < 1 || channels > 128 {
            return Err(MKAudioError::BadFormat);
        }
        if !(bits == 8 || bits == 16 || bits == 24 || bits == 32) {
            return Err(MKAudioError::UnsupportedBitDepth);
        }
        if fmt_code == 3 && bits != 32 {
            return Err(MKAudioError::UnsupportedCodec);
        }
        proof {
            assert(channels as int * rate as int <= 0xFFFF * 0xFFFFFFFF) by (nonlinear_arith)
                requires
                    0 <= channels <= 0xFFFF,
                    0 <= rate <= 0xFFFFFFFF,
            ;
            assert(channels as int * rate as int * bits as int <= 0xFFFF * 0xFFFFFFFF * 0xFFFF)
                by (nonlinear_arith)
                requires
                    0 <= channels as int * rate as int <= 0xFFFF * 0xFFFFFFFF,
                    0 <= bits <= 0xFFFF,
            ;
            assert(channels as int * bits as int <= 0xFFFF * 0xFFFF) by (nonlinear_arith)
                requires
                    0 <= channels <= 0xFFFF,
                    0 <= bits <= 0xFFFF,
            ;
        }
        let expected_rate: u128 = channels as u128 * rate as u128 * bits as u128 / 8;
        let expected_block: u128 = channels as u128 * bits as u128 / 8;
        if bytes_per_sec as u128 != expected_rate || block_align as u128 != expected_block {
            return Err(MKAudioError::BadFormat);
        }
        let bytes_per_sample = bits / 8;
        proof {
            assert(1 <= channels * bytes_per_sample <= 128 * 4) by (nonlinear_arith)
                requires
                    1 <= channels <= 128,
                    1 <= bytes_per_sample <= 4,
            ;
        }
        let frame = channels * bytes_per_sample;
        let data_size = get_u32(buffer, data_idx + 4, Endianness::Little) as usize;
        let num_samples = data_size / frame;
        proof {
            assert(num_samples <= data_size) by (nonlinear_arith)
                requires
                    frame >= 1,
                    data_size >= 0,
                    num_samples == data_size / frame,
            ;
            assert(num_samples as int * frame as int <= 0xFFFFFFFF * 512) by (nonlinear_arith)
                requires
                    0 <= num_samples <= 0xFFFFFFFF,
                    0 <= frame <= 512,
            ;
        }
        let payload: u128 = num_samples as u128 * frame as u128;
        if payload > (buffer.len() - data_idx - 8) as u128 {
            return Err(MKAudioError::Truncated);
        }
        proof {
            assert(num_samples * frame <= buffer@.len() - data_idx - 8);
        }
        let data_start = data_idx + 8;

        let mut audio_buffer: Vec<Vec<i32>> = Vec::new();
        let mut c: usize = 0;
        while c < channels
            invariant
                c <= channels,
                audio_buffer@.len() == c,
                channels >= 1,
                valid_bit_depth(bits as nat),
                bytes_per_sample == bits / 8,
                frame == channels * bytes_per_sample,
                data_start == data_idx + 8,
                data_start + num_samples * frame <= buffer@.len(),
                buffer@.len() <= usize::MAX,
                forall|cc: int|
                    0 <= cc < c ==> (#[trigger] audio_buffer@[cc]@).len() == num_samples,
                forall|cc: int, i: int|
                    0 <= cc < c && 0 <= i < num_samples ==> #[trigger] audio_buffer@[cc]@[i]
                        == sample_at(
                        buffer@,
                        data_idx + 8 + i * frame + cc * bytes_per_sample,
                        bits as int,
                        Endianness::Little,
                    ),
            decreases channels - c,
        {
            let mut chan: Vec<i32> = Vec::new();
            let mut i: usize = 0;
            let mut cur: usize = data_start;
            proof {
                assert(c * bytes_per_sample + bytes_per_sample <= frame) by (nonlinear_arith)
                    requires
                        c < channels,
                        bytes_per_sample >= 0,
                        frame == channels * bytes_per_sample,
                ;
                assert(0 * frame == 0);
            }
            while i < num_samples
                invariant
                    i <= num_samples,
                    chan@.len() == i,
                    c < channels,
                    valid_bit_depth(bits as nat),
                    bytes_per_sample == bits / 8,
                    frame == channels * bytes_per_sample,
                    data_start == data_idx + 8,
                    data_start + num_samples * frame <= buffer@.len(),
                    buffer@.len() <= usize::MAX,
                    cur == data_start + i * frame,
                    c * bytes_per_sample + bytes_per_sample <= frame,
                    forall|j: int|
                        0 <= j < i ==> #[trigger] chan@[j] == sample_at(
                            buffer@,
                            data_idx + 8 + j * frame + c * bytes_per_sample,
                            bits as int,
                            Endianness::Little,
                        ),
                decreases num_samples - i,
            {
                proof {
                    assert(i * frame + frame <= num_samples * frame) by (nonlinear_arith)
                        requires
                            i < num_samples,
                            frame >= 0,
                    ;
                }
                let sample = decode_sample(buffer, cur + c * bytes_per_sample, bits,
                    Endianness::Little);
                chan.push(sample);
                i += 1;
                cur += frame;
                proof {
                    assert(cur == data_start + i * frame) by (nonlinear_arith)
                        requires
                            cur == data_start + (i - 1) * frame + frame,
                    ;
                }
            }
            audio_buffer.push(chan);
            c += 1;
        }

        let xml_chunk = match find_chunk(buffer, &ixml_id, 12, Endianness::Little) {
            Some(xi) => {
                proof {
                    lemma_chunk_scan_bounds(b, ixml_chunk_id(), 12, Endianness::Little);
                }
                let size = get_u32(buffer, xi + 4, Endianness::Little) as usize;
                if size <= buffer.len() - xi - 8 {
                    let mut payload_bytes: Vec<u8> = Vec::new();
                    let mut k: usize = 0;
                    while k < size
                        invariant
                            k <= size,
                            xi + 8 + size <= buffer@.len(),
                            buffer@.len() <= usize::MAX,
                            payload_bytes@ == buffer@.subrange(
                                xi as int + 8,
                                xi as int + 8 + k as int,
                            ),
                        decreases size - k,
                    {
                        payload_bytes.push(buffer[xi + 8 + k]);
                        k += 1;
                        proof {
                            assert(payload_bytes@ =~= buffer@.subrange(
                                xi as int + 8,
                                xi as int + 8 + k as int,
                            ));
                        }
                    }
                    match bytes_to_string_utf8(payload_bytes) {
                        Some(text) => text,
                        None => String::new(),
                    }
                } else {
                    String::new()
                }
            },
            None => String::new(),
        };

        let bext_chunk = match find_chunk(buffer, &bext_id, 12, Endianness::Little) {
            Some(bi) => {
                proof {
                    lemma_chunk_scan_bounds(b, bext_chunk_id(), 12, Endianness::Little);
                }
                Some(read_bext_chunk(buffer, bi))
            },
            None => None,
        };

        let markers = match find_chunk(buffer, &cue_id, 12, Endianness::Little) {
            Some(ci) => {
                proof {
                    lemma_chunk_scan_bounds(b, cue_chunk_id(), 12, Endianness::Little);
                }
                let mut ms = read_cue_chunk(buffer, ci);
                match find_chunk(buffer, &list_id, 12, Endianness::Little) {
                    Some(li) => {
                        proof {
                            lemma_chunk_scan_bounds(b, list_chunk_id(), 12, Endianness::Little);
                        }
                        read_marker_labels(buffer, li, &mut ms);
                    },
                    None => {},
                }
                let ghost pre_sort = ms@;
                sort_markers_by_position(&mut ms);
                proof {
                    assert(wav_cue_markers_match(pre_sort, b, ci as int));
                    assert(ms@.to_multiset() == pre_sort.to_multiset());
                    assert(markers_sorted(ms@));
                }
                ms
            },
            None => Vec::new(),
        };

        let tempo = match find_chunk(buffer, &acid_id, 12, Endianness::Little) {
            Some(ai) => {
                proof {
                    lemma_chunk_scan_bounds(b, acid_chunk_id(), 12, Endianness::Little);
                }
                read_acid_chunk(buffer, ai)
            },
            None => None,
        };

        self.audio_buffer = audio_buffer;
        self.xml_chunk = xml_chunk;
        self.sample_rate = rate as usize;
        self.bit_depth = bits;
        self.bext_chunk = bext_chunk;
        self.markers = markers;
        self.tempo = tempo;
        proof {
            assert(final(self).channels_spec().len() == channels);
            assert forall|cc: int| 0 <= cc < channels implies #[trigger] final(self).channels_spec()[cc]
                == self.audio_buffer@[cc]@ by {
            }
        }
        Ok(())
    }
}


// ==========================================
// AIFF decode
// ==========================================

/// The `AIFF` form type.
pub open spec fn aiff_form_type() -> Seq<u8> {
    seq![65u8, 73u8, 70u8, 70u8]
}

/// The `AIFC` form type.
pub open spec fn aifc_form_type() -> Seq<u8> {
    seq![65u8, 73u8, 70u8, 67u8]
}

/// The `COMM` chunk id.
pub open spec fn comm_chunk_id() -> Seq<u8> {
    seq![67u8, 79u8, 77u8, 77u8]
}

/// The `SSND` chunk id.
pub open spec fn ssnd_chunk_id() -> Seq<u8> {
    seq![83u8, 83u8, 78u8, 68u8]
}

/// Why a byte buffer fails to decode as AIFF, or nothing when it
/// decodes: magic and form type first, then the presence of `COMM` and
/// `SSND`, then that the `COMM` fields are inside the buffer, then the
/// ten-byte sample rate (it must be in the lookup table), the channel
/// count (mono or stereo), the bit depth, the sound-data size
/// accounting, and finally that the declared frames are inside the
/// buffer.
pub open spec fn aiff_decode_error(b: Seq<u8>) -> Option<MKAudioError> {
    if !(b.len() >= 4 && b.subrange(0, 4) == form_magic()) {
        Some(MKAudioError::BadMagic)
    } else if !(b.len() >= 12 && (b.subrange(8, 12) == aiff_form_type() || b.subrange(8, 12)
        == aifc_form_type())) {
        Some(MKAudioError::BadFormat)
    } else if chunk_scan(b, comm_chunk_id(), 12, Endianness::Big) is None {
        Some(MKAudioError::ChunkNotFound)
    } else if chunk_scan(b, ssnd_chunk_id(), 12, Endianness::Big) is None {
        Some(MKAudioError::ChunkNotFound)
    } else {
        let ci = chunk_scan(b, comm_chunk_id(), 12, Endianness::Big)->Some_0 as int;
        if ci + 26 > b.len() {
            Some(MKAudioError::Truncated)
        } else {
            let channels = u16_at(b, ci + 8, Endianness::Big) as int;
            let frames = u32_at(b, ci + 10, Endianness::Big) as int;
            let bits = u16_at(b, ci + 14, Endianness::Big) as int;
            let rate = aiff_rate_at(b, ci + 16);
            if rate == 0 {
                Some(MKAudioError::UnsupportedSampleRate)
            } else if channels < 1 || channels > 2 {
                Some(MKAudioError::BadFormat)
            } else if !valid_bit_depth(bits as nat) {
                Some(MKAudioError::UnsupportedBitDepth)
            } else {
                let si = chunk_scan(b, ssnd_chunk_id(), 12, Endianness::Big)->Some_0 as int;
                if si + 16 > b.len() {
                    Some(MKAudioError::Truncated)
                } else {
                    let size = u32_at(b, si + 4, Endianness::Big) as int;
                    let offset = u32_at(b, si + 8, Endianness::Big) as int;
                    let total = frames * channels * (bits / 8);
                    if size < 8 || size - 8 != total {
                        Some(MKAudioError::BadFormat)
                    } else if si + 16 + offset + total > b.len() {
                        Some(MKAudioError::Truncated)
                    } else {
                        None
                    }
                }
            }
        }
    }
}

/// The iXML text of an AIFF buffer. The chunk is found by the big-endian
/// scan, but its own size field is little-endian, as observed files have
/// it.
pub open spec fn aiff_xml_text(b: Seq<u8>) -> Seq<char> {
    match chunk_scan(b, ixml_chunk_id(), 12, Endianness::Big) {
        Some(xi) => {
            let size = u32_at(b, xi as int + 4, Endianness::Little) as int;
            if xi + 8 + size <= b.len() && vstd::utf8::valid_utf8(
                b.subrange(xi as int + 8, xi as int + 8 + size),
            ) {
                vstd::utf8::decode_utf8(b.subrange(xi as int + 8, xi as int + 8 + size))
            } else {
                Seq::<char>::empty()
            }
        },
        None => Seq::<char>::empty(),
    }
}

/// How a decoded record relates to the AIFF bytes it was read from:
/// rate, depth, every sample and the iXML text are pinned to the
/// container; AIFF carries no broadcast metadata, so bext, markers and
/// tempo are cleared.
pub open spec fn aiff_decoded(f: AudioFile, b: Seq<u8>) -> bool {
    let ci = chunk_scan(b, comm_chunk_id(), 12, Endianness::Big)->Some_0 as int;
    let si = chunk_scan(b, ssnd_chunk_id(), 12, Endianness::Big)->Some_0 as int;
    let channels = u16_at(b, ci + 8, Endianness::Big) as int;
    let frames = u32_at(b, ci + 10, Endianness::Big) as int;
    let bits = u16_at(b, ci + 14, Endianness::Big) as int;
    let offset = u32_at(b, si + 8, Endianness::Big) as int;
    let start = si + 16 + offset;
    let frame = channels * (bits / 8);
    &&& f.sample_rate_spec() == aiff_rate_at(b, ci + 16)
    &&& f.bit_depth_spec() == bits
    &&& f.channels_spec().len() == channels
    &&& forall|c: int| 0 <= c < channels ==> (#[trigger] f.channels_spec()[c]).len() == frames
    &&& forall|c: int, i: int|
        0 <= c < channels && 0 <= i < frames ==> #[trigger] f.channels_spec()[c][i] == sample_at(
            b,
            start + i * frame + c * (bits / 8),
            bits,
            Endianness::Big,
        )
    &&& f.xml_spec() == aiff_xml_text(b)
    &&& f.bext_spec() is None
    &&& f.markers_spec().len() == 0
    &&& f.tempo_spec() is None
}

impl AudioFile {
    /// Decode an AIFF or AIFC buffer into this file. On success the
    /// decoded channels, rate, depth and iXML text are exactly what the
    /// container bytes hold and the broadcast metadata is cleared; on
    /// error the file is unchanged and the error says what failed, as
    /// [`aiff_decode_error`] lays down. Under an `AIFC` form type,
    /// 32-bit data is taken as IEEE-float bits, as uncompressed AIFC
    /// files have it.
    #[verifier::rlimit(100)]
    pub fn read_aiff(&mut self, buffer: &[u8]) -> (r: Result<(), MKAudioError>)
        ensures
            match aiff_decode_error(buffer@) {
                Some(e) => r == Result::<(), MKAudioError>::Err(e) && *final(self) == *old(self),
                None => r == Result::<(), MKAudioError>::Ok(()) && aiff_decoded(
                    *final(self),
                    buffer@,
                ) && final(self).format_spec() == old(self).format_spec(),
            },
    {
        proof {
            vstd::slice::axiom_spec_len(buffer);
        }
        let ghost b = buffer@;
        if !(buffer.len() >= 4 && buffer[0] == 70 && buffer[1] == 79 && buffer[2] == 82
            && buffer[3] == 77) {
            proof {
                if b.len() >= 4 && b.subrange(0, 4) == form_magic() {
                    assert(b[0] == 70 && b[1] == 79 && b[2] == 82 && b[3] == 77);
                }
            }
            return Err(MKAudioError::BadMagic);
        }
        proof {
            assert(b.subrange(0, 4) =~= form_magic());
        }
        let is_aiff = buffer.len() >= 12 && buffer[8] == 65 && buffer[9] == 73 && buffer[10] == 70
            && buffer[11] == 70;
        let is_aifc = buffer.len() >= 12 && buffer[8] == 65 && buffer[9] == 73 && buffer[10] == 70
            && buffer[11] == 67;
        proof {
            if is_aiff {
                assert(b.subrange(8, 12) =~= aiff_form_type());
            } else if b.len() >= 12 && b.subrange(8, 12) == aiff_form_type() {
                assert(b[8] == 65 && b[9] == 73 && b[10] == 70 && b[11] == 70);
            }
            if is_aifc {
                assert(b.subrange(8, 12) =~= aifc_form_type());
            } else if b.len() >= 12 && b.subrange(8, 12) == aifc_form_type() {
                assert(b[8] == 65 && b[9] == 73 && b[10] == 70 && b[11] == 67);
            }
        }
        if !(is_aiff || is_aifc) {
            return Err(MKAudioError::BadFormat);
        }
        let comm_id: [u8; 4] = [67, 79, 77, 77];
        let ssnd_id: [u8; 4] = [83, 83, 78, 68];
        let ixml_id: [u8; 4] = [105, 88, 77, 76];
        proof {
            assert(comm_id@ =~= comm_chunk_id());
            assert(ssnd_id@ =~= ssnd_chunk_id());
            assert(ixml_id@ =~= ixml_chunk_id());
        }
        let comm_idx = match find_chunk(buffer, &comm_id, 12, Endianness::Big) {
            Some(i) => i,
            None => {
                return Err(MKAudioError::ChunkNotFound);
            },
        };
        let ssnd_idx = match find_chunk(buffer, &ssnd_id, 12, Endianness::Big) {
            Some(i) => i,
            None => {
                return Err(MKAudioError::ChunkNotFound);
            },
        };
        proof {
            lemma_chunk_scan_bounds(b, comm_chunk_id(), 12, Endianness::Big);
            lemma_chunk_scan_bounds(b, ssnd_chunk_id(), 12, Endianness::Big);
        }
        if buffer.len() - comm_idx < 26 {
            return Err(MKAudioError::Truncated);
        }
        let channels = get_u16(buffer, comm_idx + 8, Endianness::Big) as usize;
        let frames = get_u32(buffer, comm_idx + 10, Endianness::Big) as usize;
        let bits = get_u16(buffer, comm_idx + 14, Endianness::Big) as usize;
        let rate = get_aiff_sample_rate(buffer, comm_idx + 16);
        if rate == 0 {
            return Err(MKAudioError::UnsupportedSampleRate);
        }
        if channels < 1 || channels > 2 {
            return Err(MKAudioError::BadFormat);
        }
        if !(bits == 8 || bits == 16 || bits == 24 || bits == 32) {
            return Err(MKAudioError::UnsupportedBitDepth);
        }
        if buffer.len() - ssnd_idx < 16 {
            return Err(MKAudioError::Truncated);
        }
        let size = get_u32(buffer, ssnd_idx + 4, Endianness::Big) as usize;
        let offset = get_u32(buffer, ssnd_idx + 8, Endianness::Big) as usize;
        let bytes_per_sample = bits / 8;
        proof {
            assert(1 <= channels * bytes_per_sample <= 8) by (nonlinear_arith)
                requires
                    1 <= channels <= 2,
                    1 <= bytes_per_sample <= 4,
            ;
        }
        let frame = channels * bytes_per_sample;
        proof {
            assert(frames as int * frame as int <= 0xFFFFFFFF * 8) by (nonlinear_arith)
                requires
                    0 <= frames <= 0xFFFFFFFF,
                    0 <= frame <= 8,
            ;
        }
        let total: u128 = frames as u128 * frame as u128;
        proof {
            assert(frames as int * channels as int * (bits as int / 8) == frames as int
                * frame as int) by (nonlinear_arith)
                requires
                    frame == channels * bytes_per_sample,
                    bytes_per_sample == bits as int / 8,
            ;
        }
        if size < 8 || (size - 8) as u128 != total {
            return Err(MKAudioError::BadFormat);
        }
        if offset as u128 + total > (buffer.len() - ssnd_idx - 16) as u128 {
            return Err(MKAudioError::Truncated);
        }
        proof {
            assert(ssnd_idx + 16 + offset + frames * frame <= buffer@.len());
        }
        let start = ssnd_idx + 16 + offset;

        let mut audio_buffer: Vec<Vec<i32>> = Vec::new();
        let mut c: usize = 0;
        while c < channels
            invariant
                c <= channels,
                audio_buffer@.len() == c,
                channels >= 1,
                valid_bit_depth(bits as nat),
                bytes_per_sample == bits / 8,
                frame == channels * bytes_per_sample,
                start == ssnd_idx + 16 + offset,
                start + frames * frame <= buffer@.len(),
                buffer@.len() <= usize::MAX,
                forall|cc: int| 0 <= cc < c ==> (#[trigger] audio_buffer@[cc]@).len() == frames,
                forall|cc: int, i: int|
                    0 <= cc < c && 0 <= i < frames ==> #[trigger] audio_buffer@[cc]@[i]
                        == sample_at(
                        buffer@,
                        start + i * frame + cc * bytes_per_sample,
                        bits as int,
                        Endianness::Big,
                    ),
            decreases channels - c,
        {
            let mut chan: Vec<i32> = Vec::new();
            let mut i: usize = 0;
            let mut cur: usize = start;
            proof {
                assert(c * bytes_per_sample + bytes_per_sample <= frame) by (nonlinear_arith)
                    requires
                        c < channels,
                        bytes_per_sample >= 0,
                        frame == channels * bytes_per_sample,
                ;
                assert(0 * frame == 0);
            }
            while i < frames
                invariant
                    i <= frames,
                    chan@.len() == i,
                    c < channels,
                    valid_bit_depth(bits as nat),
                    bytes_per_sample == bits / 8,
                    frame == channels * bytes_per_sample,
                    start + frames * frame <= buffer@.len(),
                    buffer@.len() <= usize::MAX,
                    cur == start + i * frame,
                    c * bytes_per_sample + bytes_per_sample <= frame,
                    forall|j: int|
                        0 <= j < i ==> #[trigger] chan@[j] == sample_at(
                            buffer@,
                            start + j * frame + c * bytes_per_sample,
                            bits as int,
                            Endianness::Big,
                        ),
                decreases frames - i,
            {
                proof {
                    assert(i * frame + frame <= frames * frame) by (nonlinear_arith)
                        requires
                            i < frames,
                            frame >= 0,
                    ;
                }
                let sample = decode_sample(buffer, cur + c * bytes_per_sample, bits,
                    Endianness::Big);
                chan.push(sample);
                i += 1;
                cur += frame;
                proof {
                    assert(cur == start + i * frame) by (nonlinear_arith)
                        requires
                            cur == start + (i - 1) * frame + frame,
                    ;
                }
            }
            audio_buffer.push(chan);
            c += 1;
        }

        let xml_chunk = match find_chunk(buffer, &ixml_id, 12, Endianness::Big) {
            Some(xi) => {
                proof {
                    lemma_chunk_scan_bounds(b, ixml_chunk_id(), 12, Endianness::Big);
                }
                let xml_size = get_u32(buffer, xi + 4, Endianness::Little) as usize;
                if xml_size <= buffer.len() - xi - 8 {
                    let mut payload_bytes: Vec<u8> = Vec::new();
                    let mut k: usize = 0;
                    while k < xml_size
                        invariant
                            k <= xml_size,
                            xi + 8 + xml_size <= buffer@.len(),
                            buffer@.len() <= usize::MAX,
                            payload_bytes@ == buffer@.subrange(
                                xi as int + 8,
                                xi as int + 8 + k as int,
                            ),
                        decreases xml_size - k,
                    {
                        payload_bytes.push(buffer[xi + 8 + k]);
                        k += 1;
                        proof {
                            assert(payload_bytes@ =~= buffer@.subrange(
                                xi as int + 8,
                                xi as int + 8 + k as int,
                            ));
                        }
                    }
                    match bytes_to_string_utf8(payload_bytes) {
                        Some(text) => text,
                        None => String::new(),
                    }
                } else {
                    String::new()
                }
            },
            None => String::new(),
        };

        self.audio_buffer = audio_buffer;
        self.xml_chunk = xml_chunk;
        self.sample_rate = rate;
        self.bit_depth = bits;
        self.bext_chunk = None;
        self.markers = Vec::new();
        self.tempo = None;
        proof {
            assert(final(self).markers_spec() =~= Seq::<Marker>::empty());
            assert forall|cc: int| 0 <= cc < channels implies #[trigger] final(self).channels_spec()[cc]
                == self.audio_buffer@[cc]@ by {
            }
        }
        Ok(())
    }
}


// ==========================================
// Encode
// ==========================================

/// A chunk padded with one NUL byte when its length is odd, so the next
/// chunk header stays word-aligned.
pub open spec fn even_pad(s: Seq<u8>) -> Seq<u8> {
    if s.len() % 2 == 1 {
        s + seq![0u8]
    } else {
        s
    }
}

/// The encoded samples of frame `i` for the first `c` channels.
pub open spec fn frame_prefix(
    chs: Seq<Seq<i32>>,
    c: int,
    i: int,
    depth: int,
    endianness: Endianness,
) -> Seq<u8>
    decreases c,
{
    if c <= 0 {
        Seq::empty()
    } else {
        frame_prefix(chs, c - 1, i, depth, endianness) + sample_bytes(
            chs[c - 1][i],
            depth,
            endianness,
        )
    }
}

/// The interleaved sample bytes of the first `n` frames.
pub open spec fn data_bytes(
    chs: Seq<Seq<i32>>,
    n: int,
    depth: int,
    endianness: Endianness,
) -> Seq<u8>
    decreases n,
{
    if n <= 0 {
        Seq::empty()
    } else {
        data_bytes(chs, n - 1, depth, endianness) + frame_prefix(
            chs,
            chs.len() as int,
            n - 1,
            depth,
            endianness,
        )
    }
}

/// The number of samples per channel: the first channel's length.
pub open spec fn spec_num_samples(f: AudioFile) -> int {
    if f.channels_spec().len() == 0 {
        0
    } else {
        f.channels_spec()[0].len() as int
    }
}

/// Whether every channel has the same length.
pub open spec fn channels_rectangular(f: AudioFile) -> bool {
    forall|c: int|
        0 <= c < f.channels_spec().len() ==> (#[trigger] f.channels_spec()[c]).len()
            == spec_num_samples(f)
}

/// The bext chunk a WAV encode carries: present when broadcast metadata
/// is requested and held, padded to an even length.
pub open spec fn wav_bext_part(f: AudioFile, include_bwf: bool) -> Seq<u8> {
    match f.bext_spec() {
        Some(bx) => if include_bwf {
            even_pad(bext_chunk_bytes(bx))
        } else {
            Seq::empty()
        },
        None => Seq::empty(),
    }
}

/// The `fmt ` chunk of a WAV encode: PCM, with the rate fields computed
/// from the channel count, sample rate and bit depth.
pub open spec fn wav_fmt_part(f: AudioFile) -> Seq<u8> {
    let channels = f.channels_spec().len() as int;
    let rate = f.sample_rate_spec() as int;
    let depth = f.bit_depth_spec() as int;
    fmt_chunk_id() + u32_bytes(16, Endianness::Little) + u16_bytes(1, Endianness::Little)
        + u16_bytes(channels as u16, Endianness::Little) + u32_bytes(
        rate as u32,
        Endianness::Little,
    ) + u32_bytes((channels * rate * depth / 8) as u32, Endianness::Little) + u16_bytes(
        (channels * depth / 8) as u16,
        Endianness::Little,
    ) + u16_bytes(depth as u16, Endianness::Little)
}

/// The cue chunk of a WAV encode: present when there are markers.
pub open spec fn wav_cue_part(f: AudioFile) -> Seq<u8> {
    if f.markers_spec().len() > 0 {
        cue_chunk_bytes(f.markers_spec())
    } else {
        Seq::empty()
    }
}

/// The `LIST`/`adtl` chunk of a WAV encode: present when a marker has a
/// non-empty label.
pub open spec fn wav_list_part(f: AudioFile) -> Seq<u8> {
    let entries = adtl_entries_bytes(f.markers_spec());
    if entries.len() > 0 {
        list_chunk_id() + u32_bytes((4 + entries.len()) as u32, Endianness::Little)
            + adtl_type_id() + entries
    } else {
        Seq::empty()
    }
}

/// The acid chunk of a WAV encode: present when a tempo is held.
pub open spec fn wav_acid_part(f: AudioFile) -> Seq<u8> {
    match f.tempo_spec() {
        Some(t) => acid_chunk_bytes(t),
        None => Seq::empty(),
    }
}

/// The data chunk of a WAV encode: header, interleaved clamped samples,
/// padded to an even length.
pub open spec fn wav_data_part(f: AudioFile) -> Seq<u8> {
    let depth = f.bit_depth_spec() as int;
    let ns = spec_num_samples(f);
    let payload = data_bytes(f.channels_spec(), ns, depth, Endianness::Little);
    even_pad(
        data_chunk_id() + u32_bytes(payload.len() as u32, Endianness::Little) + payload,
    )
}

/// The iXML chunk of an encode: present when the text is non-empty,
/// padded to an even length. Its size field is little-endian in both
/// containers, as observed files have it.
pub open spec fn xml_part(f: AudioFile) -> Seq<u8> {
    let xb = vstd::utf8::encode_utf8(f.xml_spec());
    if xb.len() > 0 {
        even_pad(ixml_chunk_id() + u32_bytes(xb.len() as u32, Endianness::Little) + xb)
    } else {
        Seq::empty()
    }
}

/// The size a WAV encode declares in its RIFF header: the whole file
/// minus the eight magic and size bytes.
pub open spec fn wav_riff_size(f: AudioFile, include_bwf: bool) -> int {
    4 + wav_bext_part(f, include_bwf).len() as int + wav_fmt_part(f).len() + wav_cue_part(
        f,
    ).len() + wav_list_part(f).len() + wav_acid_part(f).len() + wav_data_part(f).len() + xml_part(
        f,
    ).len()
}

/// The bytes of a WAV encode: RIFF header, then bext (for broadcast
/// files), `fmt `, cue, `LIST`/`adtl`, acid, `data` and `iXML`, in that
/// order, each padded to an even length.
pub open spec fn wav_file_bytes(f: AudioFile, include_bwf: bool) -> Seq<u8> {
    riff_magic() + u32_bytes(wav_riff_size(f, include_bwf) as u32, Endianness::Little)
        + wave_magic() + wav_bext_part(f, include_bwf) + wav_fmt_part(f) + wav_cue_part(f)
        + wav_list_part(f) + wav_acid_part(f) + wav_data_part(f) + xml_part(f)
}

/// Why an audio file cannot be encoded as WAV, or nothing when it can:
/// the bit depth must be one the codec accepts; and the channel count,
/// the sample rate, every chunk size and the whole file must fit their
/// header fields, with equal-length channels.
pub open spec fn wav_encode_error(f: AudioFile, include_bwf: bool) -> Option<MKAudioError> {
    let channels = f.channels_spec().len() as int;
    let rate = f.sample_rate_spec() as int;
    let depth = f.bit_depth_spec() as int;
    if !valid_bit_depth(f.bit_depth_spec() as nat) {
        Some(MKAudioError::UnsupportedBitDepth)
    } else if {
        ||| channels < 1
        ||| channels > 128
        ||| rate > 0xFFFFFFFF
        ||| !channels_rectangular(f)
        ||| channels * rate * depth / 8 > 0xFFFFFFFF
        ||| (f.bext_spec() is Some && include_bwf && 602 + vstd::utf8::encode_utf8(
            f.bext_spec()->Some_0.coding_history@,
        ).len() > 0xFFFFFFFF)
        ||| 4 + f.markers_spec().len() * 24 > 0xFFFFFFFF
        ||| 4 + adtl_entries_bytes(f.markers_spec()).len() > 0xFFFFFFFF
        ||| data_bytes(f.channels_spec(), spec_num_samples(f), depth, Endianness::Little).len()
            > 0xFFFFFFFF
        ||| vstd::utf8::encode_utf8(f.xml_spec()).len() > 0xFFFFFFFF
        ||| 8 + wav_riff_size(f, include_bwf) > 0xFFFFFFFF
    } {
        Some(MKAudioError::InvalidParameter)
    } else {
        None
    }
}


/// Each cue entry is 24 bytes long.
proof fn lemma_cue_entries_len(s: Seq<Marker>)
    ensures
        cue_entries_bytes(s).len() == 24 * s.len(),
    decreases s.len(),
{
    if s.len() > 0 {
        lemma_cue_entries_len(s.drop_last());
    }
}

/// A frame holds one sample of each channel.
proof fn lemma_frame_prefix_len(
    chs: Seq<Seq<i32>>,
    c: int,
    i: int,
    depth: int,
    endianness: Endianness,
)
    requires
        0 <= depth,
        valid_bit_depth(depth as nat),
        0 <= c,
    ensures
        frame_prefix(chs, c, i, depth, endianness).len() == c * (depth / 8),
    decreases c,
{
    let w = depth / 8;
    if c > 0 {
        lemma_frame_prefix_len(chs, c - 1, i, depth, endianness);
        lemma_sample_roundtrip(chs[c - 1][i], depth, endianness);
        assert(c * w == (c - 1) * w + w) by (nonlinear_arith);
    } else {
        assert(c * w == 0) by (nonlinear_arith)
            requires
                c == 0,
        ;
    }
}

/// The interleaved payload is one frame per sample slot.
proof fn lemma_data_bytes_len(
    chs: Seq<Seq<i32>>,
    n: int,
    depth: int,
    endianness: Endianness,
)
    requires
        0 <= depth,
        valid_bit_depth(depth as nat),
        0 <= n,
    ensures
        data_bytes(chs, n, depth, endianness).len() == n * (chs.len() * (depth / 8)),
    decreases n,
{
    let w = chs.len() * (depth / 8);
    if n > 0 {
        lemma_data_bytes_len(chs, n - 1, depth, endianness);
        lemma_frame_prefix_len(chs, chs.len() as int, n - 1, depth, endianness);
        assert(n * w == (n - 1) * w + w) by (nonlinear_arith);
    } else {
        assert(n * w == 0) by (nonlinear_arith)
            requires
                n == 0,
        ;
    }
}

impl AudioFile {
    /// Append the interleaved clamped sample bytes of every frame.
    fn write_pcm_payload(&self, out: &mut Vec<u8>, ns: usize, depth: usize, endianness: Endianness)
        requires
            valid_bit_depth(depth as nat),
            ns == spec_num_samples(*self),
            channels_rectangular(*self),
        ensures
            final(out)@ == old(out)@ + data_bytes(
                self.channels_spec(),
                ns as int,
                depth as int,
                endianness,
            ),
    {
        let channels = self.audio_buffer.len();
        let ghost base = out@;
        let mut i: usize = 0;
        while i < ns
            invariant
                i <= ns,
                channels == self.audio_buffer@.len(),
                valid_bit_depth(depth as nat),
                ns == spec_num_samples(*self),
                channels_rectangular(*self),
                out@ == base + data_bytes(
                    self.channels_spec(),
                    i as int,
                    depth as int,
                    endianness,
                ),
            decreases ns - i,
        {
            let mut c: usize = 0;
            while c < channels
                invariant
                    c <= channels,
                    i < ns,
                    channels == self.audio_buffer@.len(),
                    valid_bit_depth(depth as nat),
                    ns == spec_num_samples(*self),
                    channels_rectangular(*self),
                    out@ == base + data_bytes(
                        self.channels_spec(),
                        i as int,
                        depth as int,
                        endianness,
                    ) + frame_prefix(
                        self.channels_spec(),
                        c as int,
                        i as int,
                        depth as int,
                        endianness,
                    ),
                decreases channels - c,
            {
                proof {
                    assert(self.channels_spec()[c as int] == self.audio_buffer@[c as int]@);
                    assert(self.channels_spec()[c as int].len() == spec_num_samples(*self));
                }
                encode_sample(out, self.audio_buffer[c][i], depth, endianness);
                c += 1;
                proof {
                    assert(out@ =~= base + data_bytes(
                        self.channels_spec(),
                        i as int,
                        depth as int,
                        endianness,
                    ) + frame_prefix(
                        self.channels_spec(),
                        c as int,
                        i as int,
                        depth as int,
                        endianness,
                    ));
                }
            }
            i += 1;
            proof {
                assert(out@ =~= base + data_bytes(
                    self.channels_spec(),
                    i as int,
                    depth as int,
                    endianness,
                ));
            }
        }
    }
}

impl AudioFile {
    /// Run the header-side checks of a WAV encode and build the chunks
    /// before the data: bext, `fmt `, cue, `LIST` and acid.
    #[verifier::rlimit(100)]
    #[verifier::spinoff_prover]
    fn wav_metadata_parts(&self, include_bwf: bool) -> (r: Result<
        (Vec<u8>, Vec<u8>, Vec<u8>, Vec<u8>, Vec<u8>),
        MKAudioError,
    >)
        requires
            valid_bit_depth(self.bit_depth_spec() as nat),
        ensures
            match r {
                Ok(parts) => {
                    &&& 1 <= self.channels_spec().len() <= 128
                    &&& self.sample_rate_spec() <= 0xFFFFFFFF
                    &&& channels_rectangular(*self)
                    &&& self.channels_spec().len() * self.sample_rate_spec()
                        * self.bit_depth_spec() / 8 <= 0xFFFFFFFF
                    &&& (self.bext_spec() is Some && include_bwf ==> 602 + vstd::utf8::encode_utf8(
                        self.bext_spec()->Some_0.coding_history@,
                    ).len() <= 0xFFFFFFFF)
                    &&& 4 + self.markers_spec().len() * 24 <= 0xFFFFFFFF
                    &&& 4 + adtl_entries_bytes(self.markers_spec()).len() <= 0xFFFFFFFF
                    &&& parts.0@ == wav_bext_part(*self, include_bwf)
                    &&& parts.1@ == wav_fmt_part(*self)
                    &&& parts.2@ == wav_cue_part(*self)
                    &&& parts.3@ == wav_list_part(*self)
                    &&& parts.4@ == wav_acid_part(*self)
                },
                Err(e) => wav_encode_error(*self, include_bwf) == Some(e),
            },
    {
        let channels = self.audio_buffer.len();
        let rate = self.sample_rate;
        let depth = self.bit_depth;
        let ns = self.num_sample();
        if !(depth == 8 || depth == 16 || depth == 24 || depth == 32) {
            return Err(MKAudioError::UnsupportedBitDepth);
        }
        if channels < 1 || channels > 128 {
            return Err(MKAudioError::InvalidParameter);
        }
        if rate > 0xFFFFFFFF {
            return Err(MKAudioError::InvalidParameter);
        }
        let mut rect = true;
        let mut c0: usize = 0;
        while c0 < channels
            invariant
                c0 <= channels,
                channels == self.audio_buffer@.len(),
                ns == spec_num_samples(*self),
                rect == (forall|c: int|
                    0 <= c < c0 ==> (#[trigger] self.channels_spec()[c]).len() == spec_num_samples(
                        *self,
                    )),
            decreases channels - c0,
        {
            proof {
                assert(self.channels_spec()[c0 as int] == self.audio_buffer@[c0 as int]@);
            }
            if self.audio_buffer[c0].len() != ns {
                rect = false;
            }
            c0 += 1;
        }
        if !rect {
            return Err(MKAudioError::InvalidParameter);
        }
        proof {
            assert(channels_rectangular(*self));
            assert(0 <= channels as int * rate as int <= 128 * 0xFFFFFFFF) by (nonlinear_arith)
                requires
                    1 <= channels <= 128,
                    0 <= rate <= 0xFFFFFFFF,
            ;
            assert(0 <= channels as int * rate as int * depth as int <= 128 * 0xFFFFFFFF * 32)
                by (nonlinear_arith)
                requires
                    0 <= channels as int * rate as int <= 128 * 0xFFFFFFFF,
                    8 <= depth <= 32,
            ;
        }
        let bytes_per_sec: u128 = channels as u128 * rate as u128 * depth as u128 / 8;
        if bytes_per_sec > 0xFFFFFFFF {
            return Err(MKAudioError::InvalidParameter);
        }
        let bytes_per_sample = depth / 8;
        proof {
            assert(1 <= channels * bytes_per_sample <= 512) by (nonlinear_arith)
                requires
                    1 <= channels <= 128,
                    1 <= bytes_per_sample <= 4,
            ;
        }
        let block_align = channels * bytes_per_sample;

        let mut bext_part: Vec<u8> = Vec::new();
        match &self.bext_chunk {
            Some(bx) => {
                if include_bwf {
                    let ch_bytes = bx.coding_history.as_str().as_bytes();
                    proof {
                        vstd::slice::axiom_spec_len(ch_bytes);
                    }
                    let chb = ch_bytes.len();
                    if chb as u128 > 0xFFFFFFFF - 602 {
                        return Err(MKAudioError::InvalidParameter);
                    }
                    write_bext_chunk(&mut bext_part, bx);
                    if chb % 2 == 1 {
                        bext_part.push(0);
                    }
                    proof {
                        assert(bext_chunk_bytes(self.bext_spec()->Some_0).len() == 610
                            + vstd::utf8::encode_utf8(
                            self.bext_spec()->Some_0.coding_history@,
                        ).len());
                        assert(bext_part@ =~= wav_bext_part(*self, include_bwf));
                    }
                }
            },
            None => {},
        }
        proof {
            assert(bext_part@ =~= wav_bext_part(*self, include_bwf));
        }

        let mut fmt_part: Vec<u8> = Vec::new();
        push4(&mut fmt_part, 102, 109, 116, 32);
        set_u32(&mut fmt_part, 16, Endianness::Little);
        set_u16(&mut fmt_part, 1, Endianness::Little);
        set_u16(&mut fmt_part, channels as u16, Endianness::Little);
        set_u32(&mut fmt_part, rate as u32, Endianness::Little);
        set_u32(&mut fmt_part, bytes_per_sec as u32, Endianness::Little);
        set_u16(&mut fmt_part, block_align as u16, Endianness::Little);
        set_u16(&mut fmt_part, depth as u16, Endianness::Little);
        proof {
            assert(fmt_part@ =~= wav_fmt_part(*self));
        }

        if self.markers.len() as u128 * 24 + 4 > 0xFFFFFFFF {
            return Err(MKAudioError::InvalidParameter);
        }
        let mut cue_part: Vec<u8> = Vec::new();
        if self.markers.len() > 0 {
            write_cue_chunk(&mut cue_part, &self.markers);
        }
        proof {
            assert(cue_part@ =~= wav_cue_part(*self));
        }

        let mut entries: Vec<u8> = Vec::new();
        write_adtl_entries(&mut entries, &self.markers);
        if entries.len() as u128 + 4 > 0xFFFFFFFF {
            return Err(MKAudioError::InvalidParameter);
        }
        let mut list_part: Vec<u8> = Vec::new();
        if entries.len() > 0 {
            push4(&mut list_part, 76, 73, 83, 84);
            set_u32(&mut list_part, (4 + entries.len()) as u32, Endianness::Little);
            push4(&mut list_part, 97, 100, 116, 108);
            list_part.append(&mut entries);
        }
        proof {
            assert(list_part@ =~= wav_list_part(*self));
        }

        let mut acid_part: Vec<u8> = Vec::new();
        match &self.tempo {
            Some(t) => {
                write_acid_chunk(&mut acid_part, t);
            },
            None => {},
        }
        proof {
            assert(acid_part@ =~= wav_acid_part(*self));
        }

        Ok((bext_part, fmt_part, cue_part, list_part, acid_part))
    }
}

impl AudioFile {
    /// Build the data and iXML chunks of a WAV encode, refusing payloads
    /// whose sizes pass the 32-bit limit.
    #[verifier::rlimit(100)]
    #[verifier::spinoff_prover]
    fn wav_data_xml_parts(&self, ns: usize, depth: usize) -> (r: Result<
        (Vec<u8>, Vec<u8>),
        MKAudioError,
    >)
        requires
            valid_bit_depth(depth as nat),
            depth == self.bit_depth_spec(),
            ns == spec_num_samples(*self),
            channels_rectangular(*self),
        ensures
            match r {
                Ok(parts) => {
                    &&& parts.0@ == wav_data_part(*self)
                    &&& parts.1@ == xml_part(*self)
                    &&& data_bytes(
                        self.channels_spec(),
                        spec_num_samples(*self),
                        self.bit_depth_spec() as int,
                        Endianness::Little,
                    ).len() <= 0xFFFFFFFF
                    &&& vstd::utf8::encode_utf8(self.xml_spec()).len() <= 0xFFFFFFFF
                },
                Err(e) => e == MKAudioError::InvalidParameter && (data_bytes(
                    self.channels_spec(),
                    spec_num_samples(*self),
                    self.bit_depth_spec() as int,
                    Endianness::Little,
                ).len() > 0xFFFFFFFF || vstd::utf8::encode_utf8(self.xml_spec()).len()
                    > 0xFFFFFFFF),
            },
    {
        let mut payload: Vec<u8> = Vec::new();
        self.write_pcm_payload(&mut payload, ns, depth, Endianness::Little);
        let payload_len = payload.len();
        if payload_len as u128 > 0xFFFFFFFF {
            return Err(MKAudioError::InvalidParameter);
        }
        let mut data_part: Vec<u8> = Vec::new();
        push4(&mut data_part, 100, 97, 116, 97);
        set_u32(&mut data_part, payload_len as u32, Endianness::Little);
        data_part.append(&mut payload);
        if payload_len % 2 == 1 {
            data_part.push(0);
        }
        proof {
            assert(data_part@ =~= wav_data_part(*self));
        }

        let xml_bytes_ref = self.xml_chunk.as_str().as_bytes();
        proof {
            vstd::slice::axiom_spec_len(xml_bytes_ref);
        }
        let xb = xml_bytes_ref.len();
        if xb as u128 > 0xFFFFFFFF {
            return Err(MKAudioError::InvalidParameter);
        }
        let mut xml_piece: Vec<u8> = Vec::new();
        if xb > 0 {
            push4(&mut xml_piece, 105, 88, 77, 76);
            set_u32(&mut xml_piece, xb as u32, Endianness::Little);
            set_string(&mut xml_piece, self.xml_chunk.as_str());
            if xb % 2 == 1 {
                xml_piece.push(0);
            }
        }
        proof {
            assert(xml_piece@ =~= xml_part(*self));
        }
        Ok((data_part, xml_piece))
    }
}

impl AudioFile {
    /// Encode this file as WAV, with the broadcast extension chunk when
    /// requested. On success the bytes are exactly [`wav_file_bytes`];
    /// the file is refused, before anything is written out, exactly as
    /// [`wav_encode_error`] lays down.
    #[verifier::rlimit(100)]
    #[verifier::spinoff_prover]
    pub fn save_wav_internal(&self, include_bwf: bool) -> (r: Result<Vec<u8>, MKAudioError>)
        ensures
            match wav_encode_error(*self, include_bwf) {
                Some(e) => r == Result::<Vec<u8>, MKAudioError>::Err(e),
                None => r matches Ok(v) && v@ == wav_file_bytes(*self, include_bwf),
            },
    {
        let channels = self.audio_buffer.len();
        let rate = self.sample_rate;
        let depth = self.bit_depth;
        let ns = self.num_sample();
        if !(depth == 8 || depth == 16 || depth == 24 || depth == 32) {
            return Err(MKAudioError::UnsupportedBitDepth);
        }
        let (mut bext_part, mut fmt_part, mut cue_part, mut list_part, mut acid_part) =
            match self.wav_metadata_parts(include_bwf) {
            Ok(parts) => parts,
            Err(e) => {
                return Err(e);
            },
        };
        let (mut data_part, mut xml_piece) = match self.wav_data_xml_parts(ns, depth) {
            Ok(parts) => parts,
            Err(e) => {
                return Err(e);
            },
        };

        let riff_size: u128 = 4 + bext_part.len() as u128 + fmt_part.len() as u128
            + cue_part.len() as u128 + list_part.len() as u128 + acid_part.len() as u128
            + data_part.len() as u128 + xml_piece.len() as u128;
        proof {
            assert(riff_size == wav_riff_size(*self, include_bwf));
        }
        if 8 + riff_size > 0xFFFFFFFF {
            return Err(MKAudioError::InvalidParameter);
        }

        let mut out: Vec<u8> = Vec::new();
        push4(&mut out, 82, 73, 70, 70);
        set_u32(&mut out, riff_size as u32, Endianness::Little);
        push4(&mut out, 87, 65, 86, 69);
        out.append(&mut bext_part);
        out.append(&mut fmt_part);
        out.append(&mut cue_part);
        out.append(&mut list_part);
        out.append(&mut acid_part);
        out.append(&mut data_part);
        out.append(&mut xml_piece);
        proof {
            assert(out@ =~= wav_file_bytes(*self, include_bwf));
        }
        Ok(out)
    }
}


/// The `COMM` chunk of an AIFF encode: channel count, frame count, bit
/// depth, and the ten-byte table encoding of the sample rate.
pub open spec fn aiff_comm_part(f: AudioFile) -> Seq<u8> {
    comm_chunk_id() + u32_bytes(18, Endianness::Big) + u16_bytes(
        f.channels_spec().len() as u16,
        Endianness::Big,
    ) + u32_bytes(spec_num_samples(f) as u32, Endianness::Big) + u16_bytes(
        f.bit_depth_spec() as u16,
        Endianness::Big,
    ) + aiff_rate_bytes(f.sample_rate_spec())
}

/// The `SSND` chunk of an AIFF encode: its size field counts the payload
/// plus the offset and block-size words, and the interleaved big-endian
/// samples follow, padded to an even length.
pub open spec fn aiff_ssnd_part(f: AudioFile) -> Seq<u8> {
    let payload = data_bytes(
        f.channels_spec(),
        spec_num_samples(f),
        f.bit_depth_spec() as int,
        Endianness::Big,
    );
    even_pad(
        ssnd_chunk_id() + u32_bytes((payload.len() + 8) as u32, Endianness::Big) + u32_bytes(
            0,
            Endianness::Big,
        ) + u32_bytes(0, Endianness::Big) + payload,
    )
}

/// The size an AIFF encode declares in its FORM header: the whole file
/// minus the eight magic and size bytes.
pub open spec fn aiff_form_size(f: AudioFile) -> int {
    4 + aiff_comm_part(f).len() as int + aiff_ssnd_part(f).len() + xml_part(f).len()
}

/// The bytes of an AIFF encode: FORM header, `COMM`, `SSND`, `iXML`.
pub open spec fn aiff_file_bytes(f: AudioFile) -> Seq<u8> {
    form_magic() + u32_bytes(aiff_form_size(f) as u32, Endianness::Big) + aiff_form_type()
        + aiff_comm_part(f) + aiff_ssnd_part(f) + xml_part(f)
}

/// Why an audio file cannot be encoded as AIFF, or nothing when it can:
/// the bit depth must be one the codec accepts, the sample rate must be
/// in the lookup table, and the channel count, frame count and sizes
/// must fit their header fields, with equal-length channels.
pub open spec fn aiff_encode_error(f: AudioFile) -> Option<MKAudioError> {
    if !valid_bit_depth(f.bit_depth_spec() as nat) {
        Some(MKAudioError::UnsupportedBitDepth)
    } else if aiff_rate_triple(f.sample_rate_spec()) is None {
        Some(MKAudioError::UnsupportedSampleRate)
    } else if {
        ||| f.channels_spec().len() < 1
        ||| f.channels_spec().len() > 0xFFFF
        ||| !channels_rectangular(f)
        ||| spec_num_samples(f) > 0xFFFFFFFF
        ||| 8 + data_bytes(
            f.channels_spec(),
            spec_num_samples(f),
            f.bit_depth_spec() as int,
            Endianness::Big,
        ).len() > 0xFFFFFFFF
        ||| vstd::utf8::encode_utf8(f.xml_spec()).len() > 0xFFFFFFFF
        ||| 8 + aiff_form_size(f) > 0xFFFFFFFF
    } {
        Some(MKAudioError::InvalidParameter)
    } else {
        None
    }
}

impl AudioFile {
    /// Build the `COMM`, `SSND` and `iXML` chunks of an AIFF encode,
    /// refusing payloads whose sizes pass the 32-bit limit.
    #[verifier::rlimit(100)]
    #[verifier::spinoff_prover]
    fn aiff_parts(&self, ns: usize, depth: usize) -> (r: Result<
        (Vec<u8>, Vec<u8>, Vec<u8>),
        MKAudioError,
    >)
        requires
            valid_bit_depth(depth as nat),
            depth == self.bit_depth_spec(),
            ns == spec_num_samples(*self),
            channels_rectangular(*self),
            1 <= self.channels_spec().len() <= 0xFFFF,
            aiff_rate_triple(self.sample_rate_spec()) is Some,
        ensures
            match r {
                Ok(parts) => {
                    &&& parts.0@ == aiff_comm_part(*self)
                    &&& parts.1@ == aiff_ssnd_part(*self)
                    &&& parts.2@ == xml_part(*self)
                    &&& spec_num_samples(*self) <= 0xFFFFFFFF
                    &&& 8 + data_bytes(
                        self.channels_spec(),
                        spec_num_samples(*self),
                        self.bit_depth_spec() as int,
                        Endianness::Big,
                    ).len() <= 0xFFFFFFFF
                    &&& vstd::utf8::encode_utf8(self.xml_spec()).len() <= 0xFFFFFFFF
                },
                Err(e) => e == MKAudioError::InvalidParameter && (spec_num_samples(*self)
                    > 0xFFFFFFFF || 8 + data_bytes(
                    self.channels_spec(),
                    spec_num_samples(*self),
                    self.bit_depth_spec() as int,
                    Endianness::Big,
                ).len() > 0xFFFFFFFF || vstd::utf8::encode_utf8(self.xml_spec()).len()
                    > 0xFFFFFFFF),
            },
    {
        let channels = self.audio_buffer.len();
        let rate = self.sample_rate;
        if ns as u128 > 0xFFFFFFFF {
            return Err(MKAudioError::InvalidParameter);
        }
        let mut payload: Vec<u8> = Vec::new();
        self.write_pcm_payload(&mut payload, ns, depth, Endianness::Big);
        let payload_len = payload.len();
        if payload_len as u128 + 8 > 0xFFFFFFFF {
            return Err(MKAudioError::InvalidParameter);
        }
        let mut ssnd_part: Vec<u8> = Vec::new();
        push4(&mut ssnd_part, 83, 83, 78, 68);
        set_u32(&mut ssnd_part, (payload_len + 8) as u32, Endianness::Big);
        set_u32(&mut ssnd_part, 0, Endianness::Big);
        set_u32(&mut ssnd_part, 0, Endianness::Big);
        ssnd_part.append(&mut payload);
        if payload_len % 2 == 1 {
            ssnd_part.push(0);
        }
        proof {
            assert(ssnd_part@ =~= aiff_ssnd_part(*self));
        }
        let mut comm_part: Vec<u8> = Vec::new();
        push4(&mut comm_part, 67, 79, 77, 77);
        set_u32(&mut comm_part, 18, Endianness::Big);
        set_u16(&mut comm_part, channels as u16, Endianness::Big);
        set_u32(&mut comm_part, ns as u32, Endianness::Big);
        set_u16(&mut comm_part, depth as u16, Endianness::Big);
        set_aiff_sample_rate(&mut comm_part, rate);
        proof {
            assert(comm_part@ =~= aiff_comm_part(*self));
        }
        let xml_bytes_ref = self.xml_chunk.as_str().as_bytes();
        proof {
            vstd::slice::axiom_spec_len(xml_bytes_ref);
        }
        let xb = xml_bytes_ref.len();
        if xb as u128 > 0xFFFFFFFF {
            return Err(MKAudioError::InvalidParameter);
        }
        let mut xml_piece: Vec<u8> = Vec::new();
        if xb > 0 {
            push4(&mut xml_piece, 105, 88, 77, 76);
            set_u32(&mut xml_piece, xb as u32, Endianness::Little);
            set_string(&mut xml_piece, self.xml_chunk.as_str());
            if xb % 2 == 1 {
                xml_piece.push(0);
            }
        }
        proof {
            assert(xml_piece@ =~= xml_part(*self));
        }
        Ok((comm_part, ssnd_part, xml_piece))
    }
}

impl AudioFile {
    /// Encode this file as AIFF. On success the bytes are exactly
    /// [`aiff_file_bytes`]; the file is refused, before anything is
    /// written out, exactly as [`aiff_encode_error`] lays down.
    #[verifier::rlimit(100)]
    #[verifier::spinoff_prover]
    pub fn save_aiff(&self) -> (r: Result<Vec<u8>, MKAudioError>)
        ensures
            match aiff_encode_error(*self) {
                Some(e) => r == Result::<Vec<u8>, MKAudioError>::Err(e),
                None => r matches Ok(v) && v@ == aiff_file_bytes(*self),
            },
    {
        let channels = self.audio_buffer.len();
        let rate = self.sample_rate;
        let depth = self.bit_depth;
        let ns = self.num_sample();
        if !(depth == 8 || depth == 16 || depth == 24 || depth == 32) {
            return Err(MKAudioError::UnsupportedBitDepth);
        }
        if !aiff_rate_known(rate) {
            return Err(MKAudioError::UnsupportedSampleRate);
        }
        if channels < 1 || channels > 0xFFFF {
            return Err(MKAudioError::InvalidParameter);
        }
        let mut rect = true;
        let mut c0: usize = 0;
        while c0 < channels
            invariant
                c0 <= channels,
                channels == self.audio_buffer@.len(),
                ns == spec_num_samples(*self),
                rect == (forall|c: int|
                    0 <= c < c0 ==> (#[trigger] self.channels_spec()[c]).len() == spec_num_samples(
                        *self,
                    )),
            decreases channels - c0,
        {
            proof {
                assert(self.channels_spec()[c0 as int] == self.audio_buffer@[c0 as int]@);
            }
            if self.audio_buffer[c0].len() != ns {
                rect = false;
            }
            c0 += 1;
        }
        if !rect {
            return Err(MKAudioError::InvalidParameter);
        }
        proof {
            assert(channels_rectangular(*self));
        }
        let (mut comm_part, mut ssnd_part, mut xml_piece) = match self.aiff_parts(ns, depth) {
            Ok(parts) => parts,
            Err(e) => {
                return Err(e);
            },
        };
        let form_size: u128 = 4 + comm_part.len() as u128 + ssnd_part.len() as u128
            + xml_piece.len() as u128;
        proof {
            assert(form_size == aiff_form_size(*self));
        }
        if 8 + form_size > 0xFFFFFFFF {
            return Err(MKAudioError::InvalidParameter);
        }
        let mut out: Vec<u8> = Vec::new();
        push4(&mut out, 70, 79, 82, 77);
        set_u32(&mut out, form_size as u32, Endianness::Big);
        push4(&mut out, 65, 73, 70, 70);
        out.append(&mut comm_part);
        out.append(&mut ssnd_part);
        out.append(&mut xml_piece);
        proof {
            assert(out@ =~= aiff_file_bytes(*self));
        }
        Ok(out)
    }

    /// Decode an audio buffer, detecting the container from its magic:
    /// the detected format is recorded, and the matching decoder runs.
    /// An unrecognized magic is refused with `BadMagic`.
    pub fn load_bytes(&mut self, data: &[u8]) -> (r: Result<(), MKAudioError>)
        ensures
            final(self).format_spec() == FileFormat::determine_spec(data@),
            FileFormat::determine_spec(data@) == FileFormat::Unknown ==> r == Result::<
                (),
                MKAudioError,
            >::Err(MKAudioError::BadMagic),
            FileFormat::determine_spec(data@) == FileFormat::Wav ==> r == (match wav_decode_error(
                data@,
            ) {
                Some(e) => Result::<(), MKAudioError>::Err(e),
                None => Result::<(), MKAudioError>::Ok(()),
            }),
            FileFormat::determine_spec(data@) == FileFormat::Aiff ==> r == (
            match aiff_decode_error(data@) {
                Some(e) => Result::<(), MKAudioError>::Err(e),
                None => Result::<(), MKAudioError>::Ok(()),
            }),
            r is Ok && FileFormat::determine_spec(data@) == FileFormat::Wav ==> wav_decoded(
                *final(self),
                data@,
            ),
            r is Ok && FileFormat::determine_spec(data@) == FileFormat::Aiff ==> aiff_decoded(
                *final(self),
                data@,
            ),
            r is Err ==> {
                &&& final(self).channels_spec() == old(self).channels_spec()
                &&& final(self).sample_rate_spec() == old(self).sample_rate_spec()
                &&& final(self).bit_depth_spec() == old(self).bit_depth_spec()
                &&& final(self).bext_spec() == old(self).bext_spec()
                &&& final(self).markers_spec() == old(self).markers_spec()
                &&& final(self).tempo_spec() == old(self).tempo_spec()
                &&& final(self).xml_spec() == old(self).xml_spec()
            },
    {
        let format = FileFormat::determine(data);
        self.file_format = format;
        match format {
            FileFormat::Wav => self.read_wav(data),
            FileFormat::Aiff => self.read_aiff(data),
            _ => Err(MKAudioError::BadMagic),
        }
    }

    /// Encode this file in the given container format. Formats other
    /// than WAV and AIFF are refused with `InvalidParameter`.
    pub fn save(&self, format: FileFormat) -> (r: Result<Vec<u8>, MKAudioError>)
        ensures
            format == FileFormat::Wav ==> (match wav_encode_error(*self, false) {
                Some(e) => r == Result::<Vec<u8>, MKAudioError>::Err(e),
                None => (r matches Ok(v) && v@ == wav_file_bytes(*self, false)),
            }),
            format == FileFormat::Aiff ==> (match aiff_encode_error(*self) {
                Some(e) => r == Result::<Vec<u8>, MKAudioError>::Err(e),
                None => (r matches Ok(v) && v@ == aiff_file_bytes(*self)),
            }),
            format != FileFormat::Wav && format != FileFormat::Aiff ==> r == Result::<
                Vec<u8>,
                MKAudioError,
            >::Err(MKAudioError::InvalidParameter),
    {
        match format {
            FileFormat::Wav => self.save_wav_internal(false),
            FileFormat::Aiff => self.save_aiff(),
            _ => Err(MKAudioError::InvalidParameter),
        }
    }

    /// Encode this file as a broadcast WAV: a default bext chunk is added
    /// first when none is held, so the output always carries one.
    pub fn save_bwf(&mut self) -> (r: Result<Vec<u8>, MKAudioError>)
        ensures
            final(self).bext_spec() is Some,
            old(self).bext_spec() is Some ==> *final(self) == *old(self),
            match wav_encode_error(*final(self), true) {
                Some(e) => r == Result::<Vec<u8>, MKAudioError>::Err(e),
                None => r matches Ok(v) && v@ == wav_file_bytes(*final(self), true),
            },
    {
        if self.bext_chunk.is_none() {
            self.bext_chunk = Some(BextChunk::new());
        }
        self.save_wav_internal(true)
    }
}


} // verus!
