//! Samples of 16 bits and their bytes, low byte first.

use vstd::prelude::*;

verus! {

/// The sample that two bytes stand for.
pub open spec fn sample_of(lo: u8, hi: u8) -> i16 {
    let u = lo + 256 * hi;
    (if u < 32768 {
        u
    } else {
        u - 65536
    }) as i16
}

/// The low byte of a sample.
pub open spec fn low_byte(s: i16) -> u8 {
    ((s as int) % 256) as u8
}

/// The high byte of a sample.
pub open spec fn high_byte(s: i16) -> u8 {
    (((s as int) % 65536) / 256) as u8
}

/// The samples that a row of bytes stands for; an odd byte at the end is dropped.
pub open spec fn samples_of(bytes: Seq<u8>) -> Seq<i16> {
    Seq::new(bytes.len() / 2, |i: int| sample_of(bytes[2 * i], bytes[2 * i + 1]))
}

/// The bytes of a row of samples.
pub open spec fn bytes_of(samples: Seq<i16>) -> Seq<u8> {
    Seq::new(
        samples.len() * 2,
        |i: int|
            if i % 2 == 0 {
                low_byte(samples[i / 2])
            } else {
                high_byte(samples[i / 2])
            },
    )
}

/// Reads samples from their bytes.
pub fn samples_from_pcm(pcm: &[u8]) -> (out: Vec<i16>)
    ensures
        out@ == samples_of(pcm@),
{
    let n: usize = pcm.len() / 2;
    let mut out: Vec<i16> = Vec::new();
    let mut i: usize = 0;
    while i < n
        invariant
            i <= n,
            n == pcm@.len() / 2,
            pcm@.len() <= usize::MAX,
            out@ == samples_of(pcm@).take(i as int),
        decreases n - i,
    {
        let u: i32 = pcm[2 * i] as i32 + 256 * pcm[2 * i + 1] as i32;
        let s: i16 = if u < 32768 {
            u as i16
        } else {
            (u - 65536) as i16
        };
        out.push(s);
        i += 1;
        assert(out@ =~= samples_of(pcm@).take(i as int));
    }
    assert(samples_of(pcm@).take(i as int) == samples_of(pcm@));
    out
}

/// Writes samples as bytes.
pub fn pcm_from_samples(samples: &[i16]) -> (out: Vec<u8>)
    ensures
        out@ == bytes_of(samples@),
{
    let mut out: Vec<u8> = Vec::new();
    let mut i: usize = 0;
    while i < samples.len()
        invariant
            i <= samples@.len(),
            out@ == bytes_of(samples@.take(i as int)),
        decreases samples@.len() - i,
    {
        let s: i16 = samples[i];
        let u: i32 = if s < 0 {
            s as i32 + 65536
        } else {
            s as i32
        };
        assert((s as int) % 256 == u % 256 && (s as int) % 65536 == u);
        let ghost before = out@;
        out.push((u % 256) as u8);
        out.push((u / 256) as u8);
        i += 1;
        assert(out@ =~= bytes_of(samples@.take(i as int)));
    }
    assert(samples@.take(i as int) == samples@);
    out
}

/// What is read of written samples is the samples.
pub proof fn law_samples_round_trip(samples: Seq<i16>)
    ensures
        samples_of(bytes_of(samples)) == samples,
{
    let b = bytes_of(samples);
    assert forall|i: int| 0 <= i < samples.len() implies #[trigger] samples_of(b)[i]
        == samples[i] by {
        let s = samples[i] as int;
        assert((2 * i) % 2 == 0 && (2 * i) / 2 == i);
        assert((2 * i + 1) % 2 == 1 && (2 * i + 1) / 2 == i);
        assert(b[2 * i] == low_byte(samples[i]));
        assert(b[2 * i + 1] == high_byte(samples[i]));
        assert(s % 256 + 256 * ((s % 65536) / 256) == s % 65536);
    }
    assert(samples_of(b) =~= samples);
}

/// What is written of samples that were read is the bytes, where their number is even.
pub proof fn law_bytes_round_trip(bytes: Seq<u8>)
    requires
        bytes.len() % 2 == 0,
    ensures
        bytes_of(samples_of(bytes)) == bytes,
{
    let s = samples_of(bytes);
    assert forall|i: int| 0 <= i < bytes.len() implies #[trigger] bytes_of(s)[i] == bytes[i] by {
        let k = i / 2;
        let lo = bytes[2 * k];
        let hi = bytes[2 * k + 1];
        assert(s[k] == sample_of(lo, hi));
        let u = lo + 256 * hi;
        assert((s[k] as int) % 65536 == u);
        assert((s[k] as int) % 256 == lo);
    }
    assert(bytes_of(s) =~= bytes);
}

/// Batches written one after the other are the bytes of all their samples.
pub proof fn law_batches_append(a: Seq<i16>, b: Seq<i16>)
    ensures
        bytes_of(a) + bytes_of(b) == bytes_of(a + b),
{
    assert(bytes_of(a) + bytes_of(b) =~= bytes_of(a + b));
}

/// The value of a sample: its low byte and 256 times its high byte make the 16-bit number whose
/// sign bit counts as minus 32768.
pub proof fn law_sample_value(lo: u8, hi: u8)
    ensures
        (sample_of(lo, hi) + 65536) % 65536 == lo + 256 * hi,
        hi < 128 ==> sample_of(lo, hi) >= 0,
        hi >= 128 ==> sample_of(lo, hi) < 0,
{
}

/// The bytes of a sample, low byte first, make its value.
pub proof fn law_byte_order(samples: Seq<i16>, i: int)
    requires
        0 <= i < samples.len(),
    ensures
        bytes_of(samples).len() == 2 * samples.len(),
        bytes_of(samples)[2 * i] + 256 * bytes_of(samples)[2 * i + 1] == (samples[i] + 65536)
            % 65536,
{
    let s = samples[i] as int;
    assert((2 * i) / 2 == i && (2 * i) % 2 == 0 && (2 * i + 1) / 2 == i && (2 * i + 1) % 2 == 1);
    assert(low_byte(samples[i]) == s % 256);
    assert(high_byte(samples[i]) == (s % 65536) / 256);
    assert(s % 256 == (s % 65536) % 256);
}

/// Two bytes make one sample, in order; an odd byte at the end makes none.
pub proof fn law_sample_order(bytes: Seq<u8>, i: int)
    requires
        0 <= i,
        2 * i + 1 < bytes.len(),
    ensures
        samples_of(bytes).len() == bytes.len() / 2,
        (samples_of(bytes)[i] + 65536) % 65536 == bytes[2 * i] + 256 * bytes[2 * i + 1],
{
    law_sample_value(bytes[2 * i], bytes[2 * i + 1]);
}

} // verus!
