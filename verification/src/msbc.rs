//! mSBC: frames of 57 bytes that decode to 240 bytes of 16 kHz mono PCM. The codec itself is the
//! SBC library; this module prepares what goes into it and judges what comes out.

use vstd::prelude::*;

verus! {

/// What the codec gave for one frame.
pub struct Decoded {
    /// How many bytes it consumed, negative where it refused the frame.
    pub rc: i64,
    /// How many bytes of PCM it wrote.
    pub written: usize,
    /// The buffer it wrote into.
    pub out: Vec<u8>,
}

/// The sizes of a decoder: bytes of PCM and of mSBC per frame.
pub struct MsbcDecoder {
    pub codesize: usize,
    pub framelen: usize,
}

/// The frame that is handed to the codec: the payload, cut or padded with zeros to one frame, in
/// a buffer of 64 bytes.
pub open spec fn frame_of(payload: Seq<u8>, framelen: int) -> Seq<u8> {
    Seq::new(
        64,
        |i: int|
            if i < framelen && i < payload.len() {
                payload[i]
            } else {
                0u8
            },
    )
}

/// The PCM that a decoded frame yields: all of the output, where the codec took the frame and
/// filled a whole frame of PCM.
pub open spec fn pcm_of(d: Decoded, codesize: int) -> Option<Seq<u8>> {
    if d.rc >= 0 && d.written > 0 && d.written >= codesize {
        Some(d.out@)
    } else {
        None
    }
}

impl MsbcDecoder {
    /// A decoder from the result of initialising the codec and the sizes it reports.
    pub fn new(rc: i32, codesize: usize, framelen: usize) -> (r: Result<MsbcDecoder, i32>)
        ensures
            rc != 0 ==> r == Err::<MsbcDecoder, i32>(rc),
            rc == 0 ==> r == Ok::<MsbcDecoder, i32>(MsbcDecoder { codesize, framelen }),
    {
        if rc != 0 {
            Err(rc)
        } else {
            Ok(MsbcDecoder { codesize, framelen })
        }
    }

    /// The codec is linked in, so that it is always there.
    pub fn available() -> (r: bool)
        ensures
            r,
    {
        true
    }

    /// A frame fits into the buffer that is handed to the codec.
    pub open spec fn wf(self) -> bool {
        0 < self.framelen <= 64
    }

    /// The frame to decode, or `None` where there is no payload.
    pub fn frame_input(&self, payload: &[u8]) -> (r: Option<[u8; 64]>)
        requires
            self.wf(),
        ensures
            r is None == (payload@.len() == 0),
            r matches Some(f) ==> f@ == frame_of(payload@, self.framelen as int),
    {
        if payload.len() == 0 {
            return None;
        }
        let mut frame: [u8; 64] = [0u8; 64];
        let len: usize = if payload.len() < self.framelen {
            payload.len()
        } else {
            self.framelen
        };
        let mut i: usize = 0;
        while i < len
            invariant
                i <= len <= 64,
                len <= payload@.len(),
                frame@.len() == 64,
                forall|j: int| 0 <= j < 64 ==> frame@[j] == (if j < i {
                    payload@[j]
                } else {
                    0
                }),
            decreases len - i,
        {
            frame[i] = payload[i];
            i += 1;
        }
        assert(frame@ =~= frame_of(payload@, self.framelen as int));
        Some(frame)
    }

    /// The PCM of one frame, from what the codec gave for it; `None` where the payload is
    /// empty, where the codec refused the frame, and where it did not fill one frame of PCM.
    pub fn decode_frame(&self, payload: &[u8], decoded: Decoded) -> (r: Option<Vec<u8>>)
        requires
            decoded.out@.len() == self.codesize,
        ensures
            r is Some == (payload@.len() > 0 && pcm_of(decoded, self.codesize as int) is Some),
            r matches Some(v) ==> Some(v@) == pcm_of(decoded, self.codesize as int) && v@.len()
                == self.codesize,
            r matches Some(v) ==> forall|i: int|
                0 <= i < self.codesize ==> v@[i] == #[trigger] decoded.out@[i],
    {
        if payload.len() == 0 || decoded.rc < 0 || decoded.written == 0 {
            return None;
        }
        let mut out = decoded.out;
        out.truncate(decoded.written);
        if out.len() == self.codesize {
            assert(out@ =~= decoded.out@);
            Some(out)
        } else {
            None
        }
    }

    /// Cuts a row of bytes into frames; the last one may be short.
    pub fn split_frames(&self, frames: &[u8]) -> (out: Vec<Vec<u8>>)
        requires
            self.wf(),
        ensures
            out@.len() == (frames@.len() + self.framelen - 1) / self.framelen as int,
            forall|i: int|
                0 <= i < out@.len() ==> (#[trigger] out@[i])@ == chunk(
                    frames@,
                    self.framelen as int,
                    i,
                ),
    {
        let n: usize = self.framelen;
        let len: usize = frames.len();
        let mut out: Vec<Vec<u8>> = Vec::new();
        let mut from: usize = 0;
        assert(0 * n == 0);
        while from < len
            invariant
                0 < n <= 64,
                n == self.framelen,
                len == frames@.len(),
                from <= len,
                from == out@.len() * n || (from == len && (out@.len() - 1) * n < len <= out@.len()
                    * n),
                forall|i: int|
                    0 <= i < out@.len() ==> (#[trigger] out@[i])@ == chunk(frames@, n as int, i),
            decreases len - from,
        {
            let ghost k = out@.len();
            let to: usize = if len - from < n {
                len
            } else {
                from + n
            };
            let mut piece: Vec<u8> = Vec::new();
            let mut i: usize = from;
            while i < to
                invariant
                    from <= i <= to <= frames@.len(),
                    piece@ == frames@.subrange(from as int, i as int),
                decreases to - i,
            {
                piece.push(frames[i]);
                i += 1;
                assert(piece@ =~= frames@.subrange(from as int, i as int));
            }
            assert(from == k * n);
            out.push(piece);
            from = to;
            assert((k + 1) * n == k * n + n) by (nonlinear_arith);
        }
        proof {
            lemma_count(len as int, n as int, out@.len() as int);
        }
        out
    }

    /// Puts the PCM of a row of frames together; frames without PCM are left out.
    pub fn decode_all(&self, results: &Vec<Option<Vec<u8>>>) -> (out: Vec<u8>)
        ensures
            out@ == gathered(results@),
    {
        let mut out: Vec<u8> = Vec::new();
        let mut i: usize = 0;
        while i < results.len()
            invariant
                i <= results@.len(),
                out@ == gathered(results@.take(i as int)),
            decreases results@.len() - i,
        {
            assert(results@.take(i + 1).drop_last() == results@.take(i as int));
            match &results[i] {
                Some(p) => {
                    let ghost before = out@;
                    let mut j: usize = 0;
                    while j < p.len()
                        invariant
                            j <= p@.len(),
                            out@ == before + p@.take(j as int),
                        decreases p@.len() - j,
                    {
                        out.push(p[j]);
                        j += 1;
                        assert(out@ =~= before + p@.take(j as int));
                    }
                    assert(p@.take(j as int) == p@);
                },
                None => {},
            }
            i += 1;
        }
        assert(results@.take(i as int) == results@);
        out
    }
}

proof fn lemma_count(len: int, n: int, k: int)
    requires
        n > 0,
        k >= 0,
        len >= 0,
        len == k * n || (k - 1) * n < len <= k * n,
    ensures
        k == (len + n - 1) / n,
{
    assert(k == (len + n - 1) / n) by (nonlinear_arith)
        requires
            n > 0,
            k >= 0,
            len >= 0,
            len == k * n || (k - 1) * n < len <= k * n,
    ;
}

/// The `i`-th piece of `n` bytes; the last one ends with the row.
pub open spec fn chunk(s: Seq<u8>, n: int, i: int) -> Seq<u8> {
    s.subrange(
        i * n,
        if i * n + n <= s.len() {
            i * n + n
        } else {
            s.len() as int
        },
    )
}

/// The PCM of the frames that have some, in order.
pub open spec fn gathered(results: Seq<Option<Vec<u8>>>) -> Seq<u8>
    decreases results.len(),
{
    if results.len() == 0 {
        Seq::empty()
    } else {
        gathered(results.drop_last()) + (match results.last() {
            Some(p) => p@,
            None => Seq::empty(),
        })
    }
}

/// Where every frame yields one frame of PCM, the whole has that many frames of PCM.
pub proof fn law_full_decode_length(results: Seq<Option<Vec<u8>>>, codesize: nat)
    requires
        forall|i: int|
            0 <= i < results.len() ==> ((#[trigger] results[i]) matches Some(p) && p@.len()
                == codesize),
    ensures
        gathered(results).len() == results.len() * codesize,
    decreases results.len(),
{
    if results.len() > 0 {
        law_full_decode_length(results.drop_last(), codesize);
        assert(results.last() == results[results.len() - 1]);
        assert((results.len() - 1) * codesize + codesize == results.len() * codesize)
            by (nonlinear_arith);
    }
}

/// The pieces put together again are the row that was cut.
pub proof fn law_chunks_cover(s: Seq<u8>, n: int, k: nat)
    requires
        n > 0,
        k <= (s.len() + n - 1) / n,
    ensures
        joined_chunks(s, n, k) == s.take(
            if k * n <= s.len() {
                k * n
            } else {
                s.len() as int
            },
        ),
    decreases k,
{
    if k > 0 {
        law_chunks_cover(s, n, (k - 1) as nat);
        assert((k - 1) * n <= s.len() && k * n == (k - 1) * n + n) by (nonlinear_arith)
            requires
                n > 0,
                k <= (s.len() + n - 1) / n,
                k > 0,
        ;
        assert((k - 1) * n >= 0) by (nonlinear_arith)
            requires
                n > 0,
                k > 0,
        ;
        assert(joined_chunks(s, n, k) =~= s.take(
            if k * n <= s.len() {
                k * n
            } else {
                s.len() as int
            },
        ));
    } else {
        assert(0 * n == 0);
        assert(joined_chunks(s, n, k) =~= s.take(0));
    }
}

/// The first `k` pieces, one after the other.
pub open spec fn joined_chunks(s: Seq<u8>, n: int, k: nat) -> Seq<u8>
    decreases k,
{
    if k == 0 {
        Seq::empty()
    } else {
        joined_chunks(s, n, (k - 1) as nat) + chunk(s, n, k - 1)
    }
}

/// Where the codec takes the frame and writes at least a frame of PCM, every byte that it wrote
/// comes out at its place; otherwise nothing does.
pub proof fn law_decoded_bytes_kept(d: Decoded, codesize: int)
    requires
        d.out@.len() == codesize,
        codesize > 0,
    ensures
        d.rc >= 0 && d.written >= codesize ==> (pcm_of(d, codesize) matches Some(v) && v.len()
            == codesize && (forall|i: int| 0 <= i < codesize ==> v[i] == #[trigger] d.out@[i])),
        d.rc < 0 ==> pcm_of(d, codesize) is None,
        d.written < codesize ==> pcm_of(d, codesize) is None,
        d.written == 0 ==> pcm_of(d, codesize) is None,
{
}

/// The frame for the codec holds the payload byte by byte from its start on, as much of it as one
/// frame takes, and zeros behind that.
pub proof fn law_frame_bytes(payload: Seq<u8>, framelen: int, i: int)
    requires
        0 < framelen <= 64,
        0 <= i < 64,
    ensures
        frame_of(payload, framelen).len() == 64,
        i < framelen && i < payload.len() ==> frame_of(payload, framelen)[i] == payload[i],
        i >= framelen || i >= payload.len() ==> frame_of(payload, framelen)[i] == 0,
{
}

/// The PCM of two rows of frames is that of the first and then that of the second.
pub proof fn law_gathered_in_order(a: Seq<Option<Vec<u8>>>, b: Seq<Option<Vec<u8>>>)
    ensures
        gathered(a + b) == gathered(a) + gathered(b),
    decreases b.len(),
{
    if b.len() == 0 {
        assert(a + b =~= a);
        assert(gathered(a) + gathered(b) =~= gathered(a));
    } else {
        law_gathered_in_order(a, b.drop_last());
        assert((a + b).drop_last() =~= a + b.drop_last());
        assert((a + b).last() == b.last());
        assert(gathered(a + b) =~= gathered(a) + gathered(b));
    }
}

/// One frame gives its own PCM, and a frame without PCM gives none.
pub proof fn law_gathered_one(p: Vec<u8>)
    ensures
        gathered(seq![Some(p)]) == p@,
        gathered(seq![None::<Vec<u8>>]) == Seq::<u8>::empty(),
        gathered(Seq::empty()) == Seq::<u8>::empty(),
{
    reveal_with_fuel(gathered, 2);
    assert(seq![Some(p)].drop_last() =~= Seq::<Option<Vec<u8>>>::empty());
    assert(seq![None::<Vec<u8>>].drop_last() =~= Seq::<Option<Vec<u8>>>::empty());
    assert(gathered(seq![Some(p)]) =~= p@);
    assert(gathered(seq![None::<Vec<u8>>]) =~= Seq::<u8>::empty());
}

/// Every byte of a row stands in the piece and at the place that division gives.
pub proof fn law_chunk_bytes(s: Seq<u8>, n: int, j: int)
    requires
        n > 0,
        0 <= j < s.len(),
    ensures
        j % n < chunk(s, n, j / n).len() <= n,
        chunk(s, n, j / n)[j % n] == s[j],
{
    assert((j / n) * n + j % n == j && 0 <= j % n < n && (j / n) * n >= 0) by (nonlinear_arith)
        requires
            n > 0,
            0 <= j,
    ;
}

} // verus!
