//! Recording to a WAV file: 16-bit PCM.

use crate::pcm;
use vstd::prelude::*;

verus! {

/// A 32-bit number in four bytes, low byte first.
pub open spec fn le4(n: int) -> Seq<u8> {
    seq![
        (n % 256) as u8,
        (n / 256 % 256) as u8,
        (n / 65536 % 256) as u8,
        (n / 16777216 % 256) as u8,
    ]
}

/// A 16-bit number in two bytes, low byte first.
pub open spec fn le2(n: int) -> Seq<u8> {
    seq![(n % 256) as u8, (n / 256 % 256) as u8]
}

/// The bytes of the header: the sizes of the file and of the data, and the format, which is
/// 16-bit PCM.
#[verifier::opaque]
pub open spec fn header_bytes(sample_rate: u32, channels: u16, data_len: u32) -> Seq<u8> {
    seq![0x52u8, 0x49, 0x46, 0x46] + le4(36 + data_len) + seq![0x57u8, 0x41, 0x56, 0x45] + seq![
        0x66u8,
        0x6D,
        0x74,
        0x20,
    ] + le4(16) + le2(1) + le2(channels as int) + le4(sample_rate as int) + le4(
        sample_rate * channels * 2,
    ) + le2(channels * 2) + le2(16) + seq![0x64u8, 0x61, 0x74, 0x61] + le4(data_len as int)
}

fn put2(h: &mut [u8; 44], at: usize, n: u16)
    requires
        at + 2 <= 44,
    ensures
        final(h)@ == old(h)@.update(at as int, le2(n as int)[0]).update(at + 1, le2(n as int)[1]),
{
    h[at] = (n % 256) as u8;
    h[at + 1] = (n / 256) as u8;
}

fn put4(h: &mut [u8; 44], at: usize, n: u32)
    requires
        at + 4 <= 44,
    ensures
        final(h)@ == old(h)@.update(at as int, le4(n as int)[0]).update(
            at + 1,
            le4(n as int)[1],
        ).update(at + 2, le4(n as int)[2]).update(at + 3, le4(n as int)[3]),
{
    h[at] = (n % 256) as u8;
    h[at + 1] = (n / 256 % 256) as u8;
    h[at + 2] = (n / 65536 % 256) as u8;
    h[at + 3] = (n / 16777216 % 256) as u8;
}

fn put_tag(h: &mut [u8; 44], at: usize, tag: [u8; 4])
    requires
        at + 4 <= 44,
    ensures
        final(h)@ == old(h)@.update(at as int, tag@[0]).update(at + 1, tag@[1]).update(
            at + 2,
            tag@[2],
        ).update(at + 3, tag@[3]),
{
    h[at] = tag[0];
    h[at + 1] = tag[1];
    h[at + 2] = tag[2];
    h[at + 3] = tag[3];
}

/// Builds the header of a file with `data_len` bytes of samples.
pub fn wav_header(sample_rate: u32, channels: u16, data_len: u32) -> (h: [u8; 44])
    requires
        sample_rate * channels * 2 <= u32::MAX,
        channels * 2 <= u16::MAX,
        36 + data_len <= u32::MAX,
    ensures
        h@ == header_bytes(sample_rate, channels, data_len),
{
    assert(sample_rate * channels <= u32::MAX) by (nonlinear_arith)
        requires
            sample_rate * channels * 2 <= u32::MAX,
    ;
    let byte_rate: u32 = sample_rate * channels as u32 * 2;
    let block_align: u16 = channels * 2;
    let mut h: [u8; 44] = [0u8; 44];
    put_tag(&mut h, 0, [0x52, 0x49, 0x46, 0x46]);
    put4(&mut h, 4, 36 + data_len);
    put_tag(&mut h, 8, [0x57, 0x41, 0x56, 0x45]);
    put_tag(&mut h, 12, [0x66, 0x6D, 0x74, 0x20]);
    put4(&mut h, 16, 16);
    put2(&mut h, 20, 1);
    put2(&mut h, 22, channels);
    put4(&mut h, 24, sample_rate);
    put4(&mut h, 28, byte_rate);
    put2(&mut h, 32, block_align);
    put2(&mut h, 34, 16);
    put_tag(&mut h, 36, [0x64, 0x61, 0x74, 0x61]);
    put4(&mut h, 40, data_len);
    reveal(header_bytes);
    assert(h@ =~= header_bytes(sample_rate, channels, data_len));
    h
}

/// A recording: how many bytes of samples have been written.
pub struct WavWriter {
    pub data_len: u32,
}

impl WavWriter {
    /// Starts a recording, and gives the header that holds its place until the length is known.
    pub fn new(sample_rate: u32, channels: u16) -> (r: (WavWriter, [u8; 44]))
        requires
            sample_rate * channels * 2 <= u32::MAX,
            channels * 2 <= u16::MAX,
        ensures
            r.0.data_len == 0,
            r.1@ == header_bytes(sample_rate, channels, 0),
    {
        (WavWriter { data_len: 0 }, wav_header(sample_rate, channels, 0))
    }

    /// Whether `n` more samples fit into the file.
    pub fn has_room(&self, n: usize) -> (r: bool)
        ensures
            r == (36 + self.data_len + 2 * n <= u32::MAX),
    {
        self.data_len <= u32::MAX - 36 && n <= ((u32::MAX - 36 - self.data_len) / 2) as usize
    }

    /// The bytes to append for a batch of samples.
    pub fn write_samples(&mut self, samples: &[i16]) -> (out: Vec<u8>)
        requires
            36 + old(self).data_len + 2 * samples@.len() <= u32::MAX,
        ensures
            out@ == pcm::bytes_of(samples@),
            final(self).data_len == old(self).data_len + out@.len(),
    {
        let out = pcm::pcm_from_samples(samples);
        self.data_len = self.data_len + 2 * samples.len() as u32;
        out
    }

    /// The header that goes to the start of the finished file.
    pub fn close(&self) -> (h: [u8; 44])
        requires
            36 + self.data_len <= u32::MAX,
        ensures
            h@ == header_bytes(crate::SAMPLE_RATE, 1, self.data_len),
            h@ == header_bytes(16000, 1, self.data_len),
    {
        wav_header(crate::SAMPLE_RATE, 1, self.data_len)
    }
}

/// The 32-bit number in four bytes, low byte first.
pub open spec fn from_le4(b: Seq<u8>) -> int {
    b[0] + 256 * b[1] + 65536 * b[2] + 16777216 * b[3]
}

proof fn lemma_le4_reads_back(n: int)
    requires
        0 <= n <= u32::MAX,
    ensures
        from_le4(le4(n)) == n,
{
    let a = n / 256;
    let b = n / 65536;
    let c = n / 16777216;
    assert(b == a / 256 && c == b / 256 && c < 256);
}

/// The parts of the header one after the other.
proof fn lemma_header_parts(sample_rate: u32, channels: u16, data_len: u32)
    ensures
        ({
            let h = header_bytes(sample_rate, channels, data_len);
            &&& h.len() == 44
            &&& h.subrange(4, 8) == le4(36 + data_len)
            &&& h.subrange(22, 24) == le2(channels as int)
            &&& h.subrange(24, 28) == le4(sample_rate as int)
            &&& h.subrange(40, 44) == le4(data_len as int)
        }),
{
    reveal(header_bytes);
    let h = header_bytes(sample_rate, channels, data_len);
    assert(h.subrange(24, 28) =~= le4(sample_rate as int));
    assert(h.subrange(40, 44) =~= le4(data_len as int));
    assert(h.subrange(4, 8) =~= le4(36 + data_len));
    assert(h.subrange(22, 24) =~= le2(channels as int));
}

proof fn lemma_parts_read_back(h: Seq<u8>, sample_rate: int, channels: int, data_len: int)
    requires
        h.len() == 44,
        0 <= sample_rate <= u32::MAX,
        0 <= channels <= u16::MAX,
        0 <= data_len <= u32::MAX - 36,
        h.subrange(4, 8) == le4(36 + data_len),
        h.subrange(22, 24) == le2(channels),
        h.subrange(24, 28) == le4(sample_rate),
        h.subrange(40, 44) == le4(data_len),
    ensures
        from_le4(h.subrange(4, 8)) == 36 + data_len,
        h[22] + 256 * h[23] == channels,
        from_le4(h.subrange(24, 28)) == sample_rate,
        from_le4(h.subrange(40, 44)) == data_len,
{
    assert(from_le4(h.subrange(4, 8)) == 36 + data_len) by {
        lemma_le4_reads_back(36 + data_len);
    }
    assert(from_le4(h.subrange(24, 28)) == sample_rate) by {
        lemma_le4_reads_back(sample_rate);
    }
    assert(from_le4(h.subrange(40, 44)) == data_len) by {
        lemma_le4_reads_back(data_len);
    }
    assert(h[22] == h.subrange(22, 24)[0] && h[23] == h.subrange(22, 24)[1]);
    assert(channels / 256 < 256);
}

/// The header has 44 bytes and gives back the sample rate, the number of channels and the
/// length of the data that went into it.
pub proof fn law_header_reads_back(sample_rate: u32, channels: u16, data_len: u32)
    requires
        sample_rate * channels * 2 <= u32::MAX,
        channels * 2 <= u16::MAX,
        36 + data_len <= u32::MAX,
    ensures
        ({
            let h = header_bytes(sample_rate, channels, data_len);
            &&& h.len() == 44
            &&& from_le4(h.subrange(4, 8)) == 36 + data_len
            &&& h[22] + 256 * h[23] == channels
            &&& from_le4(h.subrange(24, 28)) == sample_rate
            &&& from_le4(h.subrange(40, 44)) == data_len
        }),
{
    lemma_header_parts(sample_rate, channels, data_len);
    lemma_parts_read_back(
        header_bytes(sample_rate, channels, data_len),
        sample_rate as int,
        channels as int,
        data_len as int,
    );
}

/// The header says what follows it: a RIFF file that holds WAVE data, in the format PCM with 16
/// bits per sample, with the bytes per second and per frame that belong to the rate and channels.
pub proof fn law_header_format(sample_rate: u32, channels: u16, data_len: u32)
    requires
        sample_rate * channels * 2 <= u32::MAX,
        channels * 2 <= u16::MAX,
        36 + data_len <= u32::MAX,
    ensures
        ({
            let h = header_bytes(sample_rate, channels, data_len);
            &&& h[0] == 0x52 && h[1] == 0x49 && h[2] == 0x46 && h[3] == 0x46
            &&& h[8] == 0x57 && h[9] == 0x41 && h[10] == 0x56 && h[11] == 0x45
            &&& h[12] == 0x66 && h[13] == 0x6D && h[14] == 0x74 && h[15] == 0x20
            &&& h[16] == 16 && h[17] == 0 && h[18] == 0 && h[19] == 0
            &&& h[20] == 1 && h[21] == 0
            &&& h[34] == 16 && h[35] == 0
            &&& h[36] == 0x64 && h[37] == 0x61 && h[38] == 0x74 && h[39] == 0x61
        }),
{
    reveal(header_bytes);
}

/// The bytes per second and per frame in the header belong to the rate and the channels: two bytes
/// for each sample.
pub proof fn law_header_rates(sample_rate: u32, channels: u16, data_len: u32)
    requires
        sample_rate * channels * 2 <= u32::MAX,
        channels * 2 <= u16::MAX,
    ensures
        ({
            let h = header_bytes(sample_rate, channels, data_len);
            &&& from_le4(h.subrange(28, 32)) == sample_rate * channels * 2
            &&& h[32] + 256 * h[33] == channels * 2
        }),
{
    let h = header_bytes(sample_rate, channels, data_len);
    let rate = sample_rate * channels * 2;
    let align = channels * 2;
    lemma_rate_parts(sample_rate, channels, data_len);
    assert(rate >= 0) by (nonlinear_arith)
        requires
            rate == sample_rate * channels * 2,
            sample_rate >= 0,
            channels >= 0,
    ;
    lemma_le4_reads_back(rate);
    assert(h[32] == h.subrange(32, 34)[0] && h[33] == h.subrange(32, 34)[1]);
    assert(align / 256 < 256);
}

/// The parts of the header that follow from rate and channels.
#[verifier::spinoff_prover]
proof fn lemma_rate_parts(sample_rate: u32, channels: u16, data_len: u32)
    ensures
        ({
            let h = header_bytes(sample_rate, channels, data_len);
            &&& h.len() == 44
            &&& h.subrange(28, 32) == le4(sample_rate * channels * 2)
            &&& h.subrange(32, 34) == le2(channels * 2)
        }),
{
    reveal(header_bytes);
    let h = header_bytes(sample_rate, channels, data_len);
    assert(h.subrange(28, 32) =~= le4(sample_rate * channels * 2));
    assert(h.subrange(32, 34) =~= le2(channels * 2));
}

} // verus!
