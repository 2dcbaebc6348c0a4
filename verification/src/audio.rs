//! The queue between the decoder and the sound card, and the choice of the sound card.
//!
//! Decoded samples wait in a queue until a callback of the sound card asks for them. Where it
//! asks for more than there are, it plays silence; where samples come faster than they are
//! played, the queue takes no more than about two seconds of them.

use crate::text;
use std::collections::VecDeque;
use vstd::prelude::*;

verus! {

/// The most samples that wait, about two seconds.
pub const MAX_QUEUE: usize = 32000;

/// The frames in a buffer of the sound card: 20 ms at 48 kHz.
pub const BUFFER_FRAMES: u32 = 960;

/// What stands for the name of a device that gives none.
pub const UNNAMED_DEVICE: &'static str = "<未知设备>";

/// Samples on their way to a sound card.
pub struct AudioOutput {
    pub queue: VecDeque<i16>,
    pub device_name: String,
    pub callback_count: usize,
}

/// The queue after samples came in: as many as there is room for.
pub open spec fn queued(queue: Seq<i16>, samples: Seq<i16>) -> Seq<i16> {
    if queue.len() + samples.len() <= MAX_QUEUE {
        queue + samples
    } else if queue.len() >= MAX_QUEUE {
        queue
    } else {
        queue + samples.take(MAX_QUEUE - queue.len())
    }
}

impl AudioOutput {
    /// An output to the named device, with nothing queued.
    pub fn new(device_name: Option<&str>) -> (r: AudioOutput)
        ensures
            r.queue@ == Seq::<i16>::empty(),
            r.callback_count == 0,
            r.device_name@ == (match device_name {
                Some(n) => n@,
                None => UNNAMED_DEVICE@,
            }),
    {
        AudioOutput {
            queue: VecDeque::new(),
            device_name: text::owned(
                match device_name {
                    Some(n) => n,
                    None => UNNAMED_DEVICE,
                },
            ),
            callback_count: 0,
        }
    }

    /// Queues decoded samples; what there is no room for is dropped.
    pub fn push_pcm(&mut self, samples: &[i16])
        ensures
            final(self).queue@ == queued(old(self).queue@, samples@),
            final(self).device_name == old(self).device_name,
            final(self).callback_count == old(self).callback_count,
    {
        let mut i: usize = 0;
        let len: usize = samples.len();
        assert(samples@.take(0) =~= Seq::<i16>::empty());
        assert(self.queue@ =~= queued(old(self).queue@, samples@.take(0)));
        while i < len
            invariant
                i <= len,
                len == samples@.len(),
                self.queue@ == queued(old(self).queue@, samples@.take(i as int)),
                self.device_name == old(self).device_name,
                self.callback_count == old(self).callback_count,
            decreases len - i,
        {
            if self.queue.len() < MAX_QUEUE {
                self.queue.push_back(samples[i]);
            }
            i += 1;
            assert(self.queue@ =~= queued(old(self).queue@, samples@.take(i as int)));
        }
        assert(samples@.take(len as int) =~= samples@);
    }

    /// The next sample to play; none where the queue is empty.
    pub fn next_sample(&mut self) -> (r: Option<i16>)
        ensures
            old(self).queue@.len() == 0 ==> r is None && *final(self) == *old(self),
            old(self).queue@.len() > 0 ==> r == Some(old(self).queue@[0]) && final(self).queue@
                == old(self).queue@.drop_first(),
            final(self).device_name == old(self).device_name,
            final(self).callback_count == old(self).callback_count,
    {
        if self.queue.len() == 0 {
            return None;
        }
        let r = self.queue.pop_front();
        assert(self.queue@ =~= old(self).queue@.drop_first());
        r
    }

    /// Counts a callback of the sound card. The count starts over where it is full.
    pub fn count_callback(&mut self)
        ensures
            final(self).callback_count == (if old(self).callback_count == usize::MAX {
                0
            } else {
                old(self).callback_count + 1
            }),
            final(self).queue == old(self).queue,
            final(self).device_name == old(self).device_name,
    {
        if self.callback_count == usize::MAX {
            self.callback_count = 0;
        } else {
            self.callback_count = self.callback_count + 1;
        }
    }

    /// The name of the device that is played on.
    pub fn device_name(&self) -> (r: &str)
        ensures
            r@ == self.device_name@,
    {
        self.device_name.as_str()
    }

    /// The number of samples that wait, and of callbacks so far.
    pub fn diagnostics(&self) -> (r: (usize, usize))
        ensures
            r.0 == self.queue@.len(),
            r.1 == self.callback_count,
    {
        (self.queue.len(), self.callback_count)
    }
}

/// A device of which the name holds the wanted one, whatever the case of its letters.
pub open spec fn name_fits(name: Option<String>, wanted: Seq<char>) -> bool {
    name matches Some(n) && text::occurs(text::lowered(n@), text::lowered(wanted))
}

/// Picks the first device that fits; a device that gives no name fits nothing.
pub fn pick_output(names: &Vec<Option<String>>, wanted: &str) -> (r: Option<usize>)
    ensures
        match r {
            Some(i) => {
                &&& i < names@.len()
                &&& name_fits(names@[i as int], wanted@)
                &&& forall|j: int| 0 <= j < i ==> !name_fits(#[trigger] names@[j], wanted@)
            },
            None => forall|j: int|
                0 <= j < names@.len() ==> !name_fits(#[trigger] names@[j], wanted@),
        },
{
    let lower = text::ascii_lower(wanted);
    let mut i: usize = 0;
    while i < names.len()
        invariant
            i <= names@.len(),
            lower@ == text::lowered(wanted@),
            forall|j: int| 0 <= j < i ==> !name_fits(#[trigger] names@[j], wanted@),
        decreases names@.len() - i,
    {
        if let Some(n) = &names[i] {
            let name = text::ascii_lower(n.as_str());
            if text::contains(name.as_slice(), lower.as_slice()) {
                return Some(i);
            }
        }
        i += 1;
    }
    None
}

/// What is said where no device fits.
pub fn missing_device_text(wanted: &str) -> (out: String)
    ensures
        out@ == "找不到输出设备 '"@ + wanted@ + "' (用 --list 查看可用设备)"@,
{
    let mut out = text::owned("找不到输出设备 '");
    out.append(wanted);
    out.append("' (用 --list 查看可用设备)");
    out
}

/// The device that a mode plays on: the default one to listen, else the virtual sound card.
pub fn wanted_device<'a>(mode: &str, cable_device: &'a str) -> (r: Option<&'a str>)
    ensures
        r == (if mode@ == "play"@ {
            None
        } else {
            Some(cable_device)
        }),
{
    if text::same(mode, "play") {
        None
    } else {
        Some(cable_device)
    }
}

/// How a stream is opened.
#[derive(Debug, Clone, Copy, PartialEq, Eq, Structural)]
pub struct StreamPlan {
    pub channels: u16,
    pub sample_rate: u32,
    pub buffer_frames: u32,
    /// Samples are floats; else 16-bit integers.
    pub float: bool,
}

/// Opens a stream as the device has it by default, with a buffer of a fixed size: a larger one
/// falls silent for long, a smaller one is not served by some devices.
pub fn stream_plan(channels: u16, sample_rate: u32, float: bool) -> (r: StreamPlan)
    ensures
        r == (StreamPlan { channels, sample_rate, buffer_frames: BUFFER_FRAMES, float }),
        r.buffer_frames == 960,
{
    StreamPlan { channels, sample_rate, buffer_frames: BUFFER_FRAMES, float }
}

/// The whole frames in a buffer.
pub fn frames_in(len: usize, channels: usize) -> (r: usize)
    requires
        channels > 0,
    ensures
        r * channels <= len < (r + 1) * channels,
{
    let r: usize = len / channels;
    assert(r * channels <= len < (r + 1) * channels) by (nonlinear_arith)
        requires
            r == len / channels,
            channels > 0,
    ;
    r
}

/// Every sample once for each channel, frame by frame.
pub open spec fn spread_out<T>(mono: Seq<T>, channels: nat) -> Seq<T>
    decreases mono.len(),
{
    if mono.len() == 0 {
        Seq::empty()
    } else {
        spread_out(mono.drop_last(), channels) + Seq::new(channels, |c: int| mono.last())
    }
}

/// Gives every sample to all channels.
pub fn spread<T: Copy>(mono: &[T], channels: usize) -> (out: Vec<T>)
    ensures
        out@ == spread_out(mono@, channels as nat),
{
    let mut out: Vec<T> = Vec::new();
    let mut i: usize = 0;
    let len: usize = mono.len();
    assert(mono@.take(0) =~= Seq::<T>::empty());
    while i < len
        invariant
            i <= len,
            len == mono@.len(),
            out@ == spread_out(mono@.take(i as int), channels as nat),
        decreases len - i,
    {
        let s = mono[i];
        let ghost before = out@;
        let mut c: usize = 0;
        while c < channels
            invariant
                c <= channels,
                out@ == before + Seq::new(c as nat, |k: int| s),
            decreases channels - c,
        {
            out.push(s);
            c += 1;
            assert(out@ =~= before + Seq::new(c as nat, |k: int| s));
        }
        i += 1;
        assert(mono@.take(i as int).drop_last() =~= mono@.take(i - 1));
        assert(out@ =~= spread_out(mono@.take(i as int), channels as nat));
    }
    assert(mono@.take(len as int) =~= mono@);
    out
}

/// The queue never holds more than its limit.
pub proof fn law_queue_bounded(queue: Seq<i16>, samples: Seq<i16>)
    requires
        queue.len() <= MAX_QUEUE,
    ensures
        queued(queue, samples).len() <= MAX_QUEUE,
{
}

/// What is queued stays in order: what waited before comes first, then what came in, from its
/// start; a full queue drops what is newest.
pub proof fn law_queue_in_order(queue: Seq<i16>, samples: Seq<i16>)
    ensures
        queue.is_prefix_of(queued(queue, samples)),
        queued(queue, samples).is_prefix_of(queue + samples),
        queue.len() + samples.len() <= MAX_QUEUE ==> queued(queue, samples) == queue + samples,
{
}

/// Two batches in a row are as good as one.
pub proof fn law_batches_join(queue: Seq<i16>, a: Seq<i16>, b: Seq<i16>)
    ensures
        queued(queued(queue, a), b) == queued(queue, a + b),
{
    assert(queued(queued(queue, a), b) =~= queued(queue, a + b));
}

/// In a spread buffer, channel `c` of frame `i` is sample `i`.
pub proof fn law_spread_channels<T>(mono: Seq<T>, channels: nat, i: int, c: int)
    requires
        0 <= i < mono.len(),
        0 <= c < channels,
    ensures
        spread_out(mono, channels).len() == mono.len() * channels,
        spread_out(mono, channels)[i * channels + c] == mono[i],
    decreases mono.len(),
{
    let front = mono.drop_last();
    let n = front.len() as int;
    lemma_spread_len(mono, channels);
    lemma_spread_len(front, channels);
    if i < front.len() {
        law_spread_channels(front, channels, i, c);
        assert(0 <= i * channels + c < n * channels) by (nonlinear_arith)
            requires
                0 <= i < n,
                0 <= c < channels,
        ;
        assert(front[i] == mono[i]);
    } else {
        assert(spread_out(mono, channels)[n * channels + c] == mono.last());
    }
}

/// The length of a spread buffer.
proof fn lemma_spread_len<T>(mono: Seq<T>, channels: nat)
    ensures
        spread_out(mono, channels).len() == mono.len() * channels,
    decreases mono.len(),
{
    if mono.len() > 0 {
        lemma_spread_len(mono.drop_last(), channels);
        let n = mono.drop_last().len();
        assert(n * channels + channels == (n + 1) * channels) by (nonlinear_arith);
    } else {
        assert(0 * channels == 0) by (nonlinear_arith);
    }
}

/// A queue with room takes every sample; a full one stays at 32000. Each sample that waits is found
/// by its place among those that waited before and those that came.
pub proof fn law_queue_fills(queue: Seq<i16>, samples: Seq<i16>, i: int)
    requires
        queue.len() <= 32000,
    ensures
        queue.len() + samples.len() <= 32000 ==> queued(queue, samples).len() == queue.len()
            + samples.len(),
        queue.len() + samples.len() > 32000 ==> queued(queue, samples).len() == 32000,
        0 <= i < queue.len() ==> queued(queue, samples)[i] == queue[i],
        0 <= i < samples.len() && queue.len() + i < 32000 ==> queued(queue, samples)[queue.len()
            + i] == samples[i],
{
}

/// A device is found by any part of its name, whatever the case of the letters, and by nothing
/// else. One without a name is never found.
pub proof fn law_found_by_part(
    name: String,
    before: Seq<char>,
    part: Seq<char>,
    behind: Seq<char>,
    wanted: Seq<char>,
)
    ensures
        name@ == before + part + behind && text::lowered(part) == text::lowered(wanted)
            ==> name_fits(Some(name), wanted),
        name_fits(Some(name), wanted) ==> exists|a: int|
            #![trigger name@.subrange(a, a + wanted.len())]
            0 <= a && a + wanted.len() <= name@.len() && text::lowered(
                name@.subrange(a, a + wanted.len()),
            ) == text::lowered(wanted),
        !name_fits(None, wanted),
{
    let low = text::lowered(name@);
    let want = text::lowered(wanted);
    if name@ == before + part + behind && text::lowered(part) == want {
        assert(low =~= text::lowered(before) + want + text::lowered(behind)) by {
            assert forall|i: int| 0 <= i < low.len() implies low[i] == (text::lowered(before)
                + text::lowered(part) + text::lowered(behind))[i] by {}
        }
        text::law_occurs_between(text::lowered(before), want, text::lowered(behind));
    }
    if name_fits(Some(name), wanted) {
        let a = choose|a: int| text::stands_at(low, want, a);
        let piece = name@.subrange(a, a + wanted.len());
        assert forall|i: int| 0 <= i < wanted.len() implies text::lowered(piece)[i] == want[i] by {
            assert(low[a + i] == low.subrange(a, a + want.len())[i]);
        }
        assert(text::lowered(piece) =~= want);
    }
}

} // verus!
