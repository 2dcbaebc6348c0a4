//! The main loop: audio packets in, PCM and key strokes out, with reconnection and switching
//! between links.
//!
//! The loop is a machine. [`Bridge::request`] says what to do next; the program does it and
//! hands the outcome to [`Bridge::run`], which says what else to do on the way.
//!
//! - A link counts as there only where it takes the activation handshake: the system keeps
//!   listing a mouse whose cable has been pulled.
//! - Every 1.5 seconds the links are probed: a cable that has been plugged in takes over, one
//!   that has been pulled gives way to the receiver, and with neither the bridge waits.
//! - The decoder keeps state from frame to frame, so that every new link gets a new one.

use crate::config::Config;
use crate::hid::{AjazzDevice, Connected, LinkKind};
use crate::hotkey::{Backend, HotKey, HotkeyError, Stroke};
use crate::{config, hid, hotkey, pcm, text};
use std::collections::HashSet;
use vstd::prelude::*;

verus! {

/// How often the links are probed, in nanoseconds.
pub const PROBE_INTERVAL: u64 = 1_500_000_000;

/// How often the counters are reported, in nanoseconds.
pub const REPORT_INTERVAL: u64 = 1_000_000_000;

/// What is said where no mouse is found at the start.
pub const NO_MOUSE: &'static str = "未找到鼠标音频 HID 接口 (usage_page=0xFFAA)。请确认鼠标已连接(无线接收器或数据线)。";

/// The two voice keys of the mouse.
#[derive(Debug, Clone, Copy, PartialEq, Eq, Structural)]
pub enum VoiceKey {
    Forward,
    Backward,
}

/// What a connection is made for.
#[derive(Debug, Clone, Copy, PartialEq, Eq, Structural)]
pub enum Why {
    /// The bridge starts.
    Start,
    /// No link took the handshake.
    Lost,
    /// Another link is there.
    Switch,
    /// Reading failed.
    ReadError,
}

/// What the bridge waits for.
#[derive(Debug, Clone, Copy, PartialEq, Eq, Structural)]
pub enum Phase {
    Fresh,
    Connecting(Why),
    Opening(Why),
    Polling,
    Probing,
    Reading,
    LateDecoder,
    Decoding,
    Rebuilding,
    /// The end of a round; the flag says whether it brought an audio packet.
    Settling(bool),
    Done,
    Failed,
}

/// What the program has to do next, and which event it then hands in.
#[derive(Debug, Clone, Copy, PartialEq, Eq, Structural)]
pub enum Request {
    /// Nothing: hand in [`Event::Start`].
    Start,
    /// Close the link in use and look for another: [`Event::Linked`].
    Connect,
    /// Make a new decoder: [`Event::Decoder`].
    OpenDecoder,
    /// Look at the clock and at the stop flag: [`Event::Poll`].
    Poll,
    /// Find the link that is really there: [`Event::Live`].
    Probe,
    /// Read from the audio interface: [`Event::Packet`] or [`Event::ReadFailed`].
    Read,
    /// Decode [`Bridge::frame`]: [`Event::Decoded`].
    Decode,
    /// Look at the clock and at the audio output: [`Event::Clock`].
    Settle,
    /// The bridge was stopped.
    Stop,
    /// The bridge found no mouse at its start.
    Fail,
}

/// What has happened.
pub enum Event {
    Start,
    Linked(Option<Connected>),
    Decoder(bool),
    Poll { now: u64, stop: bool },
    Live(Option<AjazzDevice>),
    Packet { n: usize, buf: [u8; 64] },
    ReadFailed,
    Decoded(Option<Vec<u8>>),
    Clock { now: u64, queue: usize, callbacks: usize },
}

/// What is told to the user.
#[derive(Debug, Clone, Copy, PartialEq, Eq, Structural)]
pub enum Notice {
    HotkeyFailed(VoiceKey, HotkeyError),
    Connected(LinkKind),
    Disconnected,
    Reconnected(LinkKind),
    Switching(LinkKind),
    Switched(LinkKind),
    SwitchFailed,
    DecoderFailed,
    VoiceDetected,
    DecoderStartFailed,
    DecoderRebuilt,
    DecoderRebuildFailed,
    HotkeyEngaged(VoiceKey),
    /// Whether the forward and the backward key give voice.
    AiKeys(bool, bool),
    LinkLost,
    VoiceEnded,
    AutoEnter,
    Processed(u64),
    Stopped,
}

/// The counters.
#[derive(Debug, Clone, Copy, PartialEq, Eq, Structural)]
pub struct Stats {
    pub packets: u64,
    pub decoded: u64,
    pub failed: u64,
    /// Samples that wait for the sound card.
    pub queue: usize,
    /// Callbacks of the sound card since the last report, and in all.
    pub callbacks_since: usize,
    pub callbacks: usize,
    /// Nanoseconds since the last audio packet.
    pub idle: u64,
}

/// What the program has to do on the way, in order.
#[derive(Debug, Clone, Copy, PartialEq, Eq, Structural)]
pub enum Effect {
    Log(Notice),
    Report(Stats),
    /// Inject a key stroke.
    Key(Backend, Stroke),
    /// Wait so many milliseconds.
    Pause(u64),
    /// Turn AI voice on or off through the control interface.
    SetAi(bool),
}

/// What the bridge was set up with.
#[derive(Debug, Clone, Copy, PartialEq, Eq, Structural)]
pub struct Settings {
    /// Which voice keys give voice.
    pub ai_fwd: bool,
    pub ai_bwd: bool,
    pub auto_enter: bool,
    pub ctrl_enter: bool,
    pub auto_enter_delay: u64,
    pub typeless_fwd: bool,
    pub typeless_bwd: bool,
    pub debug: bool,
}

/// Counters, times and flags of the loop. Times are nanoseconds since its start.
#[derive(Debug, Clone, Copy, PartialEq, Eq, Structural)]
pub struct Core {
    pub phase: Phase,
    /// Whether there is a decoder.
    pub decoder: bool,
    /// The voice key that was pressed last.
    pub active: VoiceKey,
    /// The voice key whose hotkey the running voice has engaged.
    pub engaged: Option<VoiceKey>,
    pub n_pkts: u64,
    pub n_dec_ok: u64,
    pub n_dec_fail: u64,
    /// Frames in a row that did not decode.
    pub fail_streak: u32,
    pub last_audio: u64,
    pub last_probe: u64,
    pub voice_ended_at: Option<u64>,
    pub auto_enter_sent: bool,
    pub last_count_log: u64,
    pub last_cb_total: usize,
}

/// The bridge.
pub struct Bridge {
    pub core: Core,
    pub settings: Settings,
    /// The last audio packet.
    pub packet: [u8; 64],
    pub link: Option<Connected>,
    /// The path that the connection under way leaves out.
    pub excluded: Option<String>,
    pub forward: Option<HotKey>,
    pub backward: Option<HotKey>,
    pub forward_name: Option<String>,
    pub backward_name: Option<String>,
    pub wired: HashSet<u16>,
    pub wireless: HashSet<u16>,
}

/// Strokes as effects.
pub open spec fn keys(backend: Backend, strokes: Seq<Stroke>) -> Seq<Effect> {
    Seq::new(strokes.len(), |i: int| Effect::Key(backend, strokes[i]))
}

/// How far `now` lies behind `then`; no time where it lies before it.
pub open spec fn since(now: u64, then: u64) -> u64 {
    if now >= then {
        (now - then) as u64
    } else {
        0
    }
}

/// A hotkey that has been let go.
pub open spec fn lifted(h: Option<HotKey>) -> Option<HotKey> {
    match h {
        Some(k) => Some(HotKey { down: false, ..k }),
        None => None,
    }
}

/// A hotkey that is held.
pub open spec fn held(h: Option<HotKey>) -> Option<HotKey> {
    match h {
        Some(k) => Some(HotKey { down: true, ..k }),
        None => None,
    }
}

/// The strokes that let a hotkey go.
pub open spec fn letting_go(h: Option<HotKey>) -> Seq<Effect> {
    match h {
        Some(k) => keys(k.backend, k.release_strokes()),
        None => Seq::empty(),
    }
}

/// A tap: the keys down, a pause, the keys up.
pub open spec fn tapping(h: HotKey) -> Seq<Effect> {
    keys(h.backend, hotkey::down_strokes(h.scans@)) + seq![Effect::Pause(hotkey::TAP_PAUSE_MS)]
        + keys(h.backend, hotkey::up_strokes(h.scans@))
}

/// An audio packet: a whole report with the audio report id and the length of one frame.
pub open spec fn is_audio_packet(n: usize, buf: [u8; 64]) -> bool {
    n == 64 && buf@[0] == crate::REPORT_ID && buf@[2] == crate::AUDIO_PAYLOAD_LEN
}

/// The phase decides what is asked for.
pub open spec fn request_of(p: Phase) -> Request {
    match p {
        Phase::Fresh => Request::Start,
        Phase::Connecting(_) => Request::Connect,
        Phase::Opening(_) => Request::OpenDecoder,
        Phase::Polling => Request::Poll,
        Phase::Probing => Request::Probe,
        Phase::Reading => Request::Read,
        Phase::LateDecoder => Request::OpenDecoder,
        Phase::Decoding => Request::Decode,
        Phase::Rebuilding => Request::OpenDecoder,
        Phase::Settling(_) => Request::Settle,
        Phase::Done => Request::Stop,
        Phase::Failed => Request::Fail,
    }
}

impl Bridge {
    /// The hotkey of a voice key.
    pub open spec fn binding(self, k: VoiceKey) -> Option<HotKey> {
        match k {
            VoiceKey::Forward => self.forward,
            VoiceKey::Backward => self.backward,
        }
    }

    /// Whether a voice key taps its hotkey instead of holding it.
    pub open spec fn taps(self, k: VoiceKey) -> bool {
        match k {
            VoiceKey::Forward => self.settings.typeless_fwd,
            VoiceKey::Backward => self.settings.typeless_bwd,
        }
    }

    /// Whether AI voice is switched on: a voice key gives voice.
    pub open spec fn ai(self) -> bool {
        self.settings.ai_fwd || self.settings.ai_bwd
    }

    /// The bridge with another hotkey for a voice key.
    pub open spec fn with_binding(self, k: VoiceKey, h: Option<HotKey>) -> Bridge {
        match k {
            VoiceKey::Forward => Bridge { forward: h, ..self },
            VoiceKey::Backward => Bridge { backward: h, ..self },
        }
    }

    /// The bridge in another phase.
    pub open spec fn in_phase(self, phase: Phase) -> Bridge {
        Bridge { core: Core { phase, ..self.core }, ..self }
    }

    /// What ends the use of a voice key's hotkey: one that an engaged key taps is tapped once
    /// more, any other is let go.
    pub open spec fn ending(self, k: VoiceKey) -> Seq<Effect> {
        match self.binding(k) {
            None => Seq::empty(),
            Some(h) => if self.core.engaged == Some(k) && self.taps(k) {
                tapping(h)
            } else {
                keys(h.backend, h.release_strokes())
            },
        }
    }

    /// The bridge without its link: hotkeys let go, no decoder.
    pub open spec fn unlinked(self) -> Bridge {
        Bridge {
            core: Core { decoder: false, engaged: None, ..self.core },
            link: None,
            forward: lifted(self.forward),
            backward: lifted(self.backward),
            ..self
        }
    }

    /// What ends the use of both hotkeys.
    pub open spec fn unlinking(self) -> Seq<Effect> {
        self.ending(VoiceKey::Forward) + self.ending(VoiceKey::Backward)
    }

    /// AI voice is switched off, where it can be, and both hotkeys are let go.
    pub open spec fn closing(self) -> Seq<Effect> {
        (if self.link is Some && self.link->0.control {
            seq![Effect::SetAi(false)]
        } else {
            Seq::empty()
        }) + self.unlinking()
    }

    /// The bridge on its way to a new link, which may leave out the path of the old one.
    pub open spec fn reconnecting(self, why: Why, leave_out: bool) -> Bridge {
        Bridge {
            excluded: if leave_out && self.link is Some {
                Some(self.link->0.path)
            } else {
                None
            },
            ..self.unlinked().in_phase(Phase::Connecting(why))
        }
    }

    /// The kind of the link in use.
    pub open spec fn kind(self) -> LinkKind {
        match self.link {
            Some(c) => hid::link_of(c.product_string@, self.wired@, self.wireless@, c.pid),
            None => LinkKind::Unknown,
        }
    }

    /// What a failed connection leads to. At the start it ends the bridge, and what was switched
    /// on is switched off.
    pub open spec fn on_failure(self, why: Why) -> (Bridge, Seq<Effect>) {
        match why {
            Why::Start => (self.unlinked().in_phase(Phase::Failed), self.closing()),
            Why::Lost => (self.in_phase(Phase::Polling), seq![Effect::Pause(500)]),
            Why::Switch => (
                self.in_phase(Phase::Polling),
                seq![Effect::Log(Notice::SwitchFailed), Effect::Pause(300)],
            ),
            Why::ReadError => (self.in_phase(Phase::Polling), seq![Effect::Pause(500)]),
        }
    }

    /// What a connection leads to. One that was lost is read from at once; otherwise the loop
    /// starts over.
    pub open spec fn on_success(self, why: Why) -> (Bridge, Seq<Effect>) {
        match why {
            Why::Start => (
                self.in_phase(Phase::Polling),
                seq![Effect::Log(Notice::Connected(self.kind()))],
            ),
            Why::Lost => (
                self.in_phase(Phase::Reading),
                seq![Effect::Log(Notice::Reconnected(self.kind()))],
            ),
            Why::Switch => (
                self.in_phase(Phase::Polling),
                seq![Effect::Log(Notice::Switched(self.kind()))],
            ),
            Why::ReadError => (
                self.in_phase(Phase::Polling),
                seq![Effect::Log(Notice::Reconnected(self.kind()))],
            ),
        }
    }

    /// A link was found, or not.
    pub open spec fn on_linked(self, why: Why, c: Option<Connected>) -> (Bridge, Seq<Effect>) {
        match c {
            Some(link) => (
                Bridge { link: Some(link), ..self }.in_phase(Phase::Opening(why)),
                if !link.control {
                    Seq::empty()
                } else if !self.settings.debug {
                    seq![Effect::SetAi(self.ai())]
                } else {
                    seq![
                        Effect::SetAi(self.ai()),
                        Effect::Log(Notice::AiKeys(self.settings.ai_fwd, self.settings.ai_bwd)),
                    ]
                },
            ),
            None => self.on_failure(why),
        }
    }

    /// A decoder was made for a new link, or not.
    pub open spec fn on_opened(self, why: Why, ok: bool) -> (Bridge, Seq<Effect>) {
        if ok {
            Bridge { core: Core { decoder: true, ..self.core }, ..self }.on_success(why)
        } else {
            let (b, e) = self.on_failure(why);
            (b, seq![Effect::Log(Notice::DecoderFailed)] + e)
        }
    }

    /// A decoder was made for the packet at hand, or not.
    pub open spec fn on_late_decoder(self, ok: bool) -> (Bridge, Seq<Effect>) {
        if ok {
            (
                Bridge {
                    core: Core {
                        decoder: true,
                        phase: Phase::Decoding,
                        ..self.core
                    },
                    ..self
                },
                seq![Effect::Log(Notice::VoiceDetected)],
            )
        } else {
            (
                self.in_phase(Phase::Settling(true)),
                seq![Effect::Log(Notice::DecoderStartFailed)],
            )
        }
    }

    /// A round starts: the bridge stops, probes, reads, or waits for a link.
    pub open spec fn on_poll(self, now: u64, stop: bool) -> (Bridge, Seq<Effect>) {
        if stop {
            (
                self.unlinked().in_phase(Phase::Done),
                self.closing() + (if self.core.n_pkts > 0 {
                    seq![Effect::Log(Notice::Processed(self.core.n_pkts))]
                } else {
                    Seq::empty()
                }) + seq![Effect::Log(Notice::Stopped)],
            )
        } else if since(now, self.core.last_probe) >= PROBE_INTERVAL {
            (
                Bridge {
                    core: Core { last_probe: now, phase: Phase::Probing, ..self.core },
                    ..self
                },
                Seq::empty(),
            )
        } else if self.link is Some {
            (self.in_phase(Phase::Reading), Seq::empty())
        } else {
            (self.in_phase(Phase::Polling), seq![Effect::Pause(200)])
        }
    }

    /// The links were probed.
    pub open spec fn on_live(self, live: Option<AjazzDevice>) -> (Bridge, Seq<Effect>) {
        match live {
            None => (
                self.reconnecting(Why::Lost, false),
                (if self.link is Some {
                    seq![Effect::Log(Notice::Disconnected)]
                } else {
                    Seq::empty()
                }) + self.unlinking(),
            ),
            Some(d) => if self.link is Some && self.link->0.path@ == d.path@ {
                (self.in_phase(Phase::Reading), Seq::empty())
            } else {
                (
                    self.reconnecting(Why::Switch, false),
                    seq![
                        Effect::Log(
                            Notice::Switching(hid::device_kind(d, self.wired@, self.wireless@)),
                        ),
                    ] + self.unlinking(),
                )
            },
        }
    }

    /// A report was read.
    pub open spec fn on_packet(self, n: usize, buf: [u8; 64]) -> Bridge {
        if is_audio_packet(n, buf) {
            Bridge { packet: buf, ..self }.in_phase(
                if self.core.decoder {
                    Phase::Decoding
                } else {
                    Phase::LateDecoder
                },
            )
        } else {
            self.in_phase(Phase::Settling(false))
        }
    }

    /// A frame was decoded, or not. The second failure in a row asks for a new decoder.
    pub open spec fn on_decoded(self, ok: bool) -> Bridge {
        if ok {
            Bridge {
                core: Core {
                    n_dec_ok: (self.core.n_dec_ok + 1) as u64,
                    fail_streak: 0,
                    phase: Phase::Settling(true),
                    ..self.core
                },
                ..self
            }
        } else if self.core.fail_streak + 1 >= 2 {
            Bridge {
                core: Core {
                    n_dec_fail: (self.core.n_dec_fail + 1) as u64,
                    fail_streak: 0,
                    phase: Phase::Rebuilding,
                    ..self.core
                },
                ..self
            }
        } else {
            Bridge {
                core: Core {
                    n_dec_fail: (self.core.n_dec_fail + 1) as u64,
                    fail_streak: (self.core.fail_streak + 1) as u32,
                    phase: Phase::Settling(true),
                    ..self.core
                },
                ..self
            }
        }
    }

    /// The voice key that a packet belongs to: the one that is engaged, else the one that was
    /// pressed last.
    pub open spec fn speaking(self) -> VoiceKey {
        match self.core.engaged {
            Some(k) => k,
            None => self.core.active,
        }
    }

    /// A packet is counted, and its voice key's hotkey, if it has one, is held or tapped. A
    /// hotkey that is tapped is tapped once, when the voice starts.
    pub open spec fn heard(self, now: u64) -> (Bridge, Seq<Effect>) {
        let k = self.speaking();
        let b = Bridge {
            core: Core {
                n_pkts: (self.core.n_pkts + 1) as u64,
                last_audio: now,
                auto_enter_sent: false,
                voice_ended_at: None,
                engaged: if self.binding(k) is Some {
                    Some(k)
                } else {
                    self.core.engaged
                },
                ..self.core
            },
            ..self
        };
        match self.binding(k) {
            None => (b, Seq::empty()),
            Some(h) => {
                let log = if self.core.engaged is None {
                    seq![Effect::Log(Notice::HotkeyEngaged(k))]
                } else {
                    Seq::empty()
                };
                if !self.taps(k) {
                    (b.with_binding(k, held(Some(h))), log + keys(h.backend, h.press_strokes()))
                } else if self.core.engaged is None {
                    (b.with_binding(k, lifted(Some(h))), log + tapping(h))
                } else {
                    (b, log)
                }
            },
        }
    }

    /// Once a second the counters are due; they are told only where they are wanted.
    pub open spec fn reported(self, now: u64, queue: usize, callbacks: usize) -> (
        Bridge,
        Seq<Effect>,
    ) {
        if since(now, self.core.last_count_log) >= REPORT_INTERVAL {
            if self.settings.debug && self.core.n_pkts > 0 {
                (
                    Bridge {
                        core: Core { last_count_log: now, last_cb_total: callbacks, ..self.core },
                        ..self
                    },
                    seq![
                        Effect::Report(
                            Stats {
                                packets: self.core.n_pkts,
                                decoded: self.core.n_dec_ok,
                                failed: self.core.n_dec_fail,
                                queue,
                                callbacks_since: if callbacks >= self.core.last_cb_total {
                                    (callbacks - self.core.last_cb_total) as usize
                                } else {
                                    0
                                },
                                callbacks,
                                idle: since(now, self.core.last_audio),
                            },
                        ),
                    ],
                )
            } else {
                (
                    Bridge { core: Core { last_count_log: now, ..self.core }, ..self },
                    Seq::empty(),
                )
            }
        } else {
            (self, Seq::empty())
        }
    }

    /// The audio has been gone long enough for the voice key to count as let go.
    pub open spec fn silent(self, now: u64) -> bool {
        self.core.engaged is Some && since(now, self.core.last_audio) > crate::HOTKEY_IDLE_TIMEOUT
    }

    /// Where the voice key counts as let go, its hotkey is let go, or tapped once more, and the
    /// time of the automatic Enter starts.
    pub open spec fn hushed(self, now: u64) -> (Bridge, Seq<Effect>) {
        if !self.silent(now) {
            (self, Seq::empty())
        } else {
            let k = self.core.engaged->0;
            let arm = self.settings.auto_enter && self.core.voice_ended_at is None;
            let b = Bridge {
                core: Core {
                    engaged: None,
                    voice_ended_at: if arm {
                        Some(now)
                    } else {
                        self.core.voice_ended_at
                    },
                    ..self.core
                },
                ..self
            };
            (
                b.with_binding(k, lifted(self.binding(k))),
                self.ending(k) + (if arm && self.settings.debug {
                    seq![Effect::Log(Notice::VoiceEnded)]
                } else {
                    Seq::empty()
                }),
            )
        }
    }

    /// The automatic Enter is due.
    pub open spec fn enter_due(self, now: u64) -> bool {
        &&& self.settings.auto_enter
        &&& !self.core.auto_enter_sent
        &&& self.core.voice_ended_at is Some
        &&& since(now, self.core.voice_ended_at->0) >= self.settings.auto_enter_delay
    }

    /// Where the automatic Enter is due, it is pressed.
    pub open spec fn entered(self, now: u64) -> (Bridge, Seq<Effect>) {
        if self.enter_due(now) {
            (
                Bridge { core: Core { auto_enter_sent: true, ..self.core }, ..self },
                keys(
                    Backend::SendInput,
                    if self.settings.ctrl_enter {
                        hotkey::ctrl_enter_strokes()
                    } else {
                        hotkey::enter_strokes()
                    },
                ) + (if self.settings.debug {
                    seq![Effect::Log(Notice::AutoEnter)]
                } else {
                    Seq::empty()
                }),
            )
        } else {
            (self, Seq::empty())
        }
    }

    /// A round ends.
    #[verifier::opaque]
    pub open spec fn on_clock(self, audio: bool, now: u64, queue: usize, callbacks: usize) -> (
        Bridge,
        Seq<Effect>,
    ) {
        let (b1, e1) = if audio {
            self.heard(now)
        } else {
            (self, Seq::empty())
        };
        let (b2, e2) = b1.reported(now, queue, callbacks);
        let (b3, e3) = b2.hushed(now);
        let (b4, e4) = b3.entered(now);
        (b4.in_phase(Phase::Polling), e1 + e2 + e3 + e4)
    }

    /// What an event does: the bridge after it, and the effects. An event that does not answer
    /// the request changes nothing.
    pub open spec fn after(self, ev: Event) -> (Bridge, Seq<Effect>) {
        match (self.core.phase, ev) {
            (Phase::Fresh, Event::Start) => (
                self.reconnecting(Why::Start, false),
                self.unlinking(),
            ),
            (Phase::Connecting(why), Event::Linked(c)) => self.on_linked(why, c),
            (Phase::Opening(why), Event::Decoder(ok)) => self.on_opened(why, ok),
            (Phase::LateDecoder, Event::Decoder(ok)) => self.on_late_decoder(ok),
            (Phase::Rebuilding, Event::Decoder(ok)) => (
                self.in_phase(Phase::Settling(true)),
                seq![
                    Effect::Log(
                        if ok {
                            Notice::DecoderRebuilt
                        } else {
                            Notice::DecoderRebuildFailed
                        },
                    ),
                ],
            ),
            (Phase::Polling, Event::Poll { now, stop }) => self.on_poll(now, stop),
            (Phase::Probing, Event::Live(live)) => self.on_live(live),
            (Phase::Reading, Event::Packet { n, buf }) => (self.on_packet(n, buf), Seq::empty()),
            (Phase::Reading, Event::ReadFailed) => (
                self.reconnecting(Why::ReadError, true),
                seq![Effect::Log(Notice::LinkLost)] + self.unlinking(),
            ),
            (Phase::Decoding, Event::Decoded(p)) => (self.on_decoded(p is Some), Seq::empty()),
            (Phase::Settling(audio), Event::Clock { now, queue, callbacks }) => self.on_clock(
                audio,
                now,
                queue,
                callbacks,
            ),
            _ => (self, Seq::empty()),
        }
    }

    /// The samples that an event brings for the audio output.
    pub open spec fn samples_after(self, ev: Event) -> Seq<i16> {
        match (self.core.phase, ev) {
            (Phase::Decoding, Event::Decoded(Some(p))) => pcm::samples_of(p@),
            _ => Seq::empty(),
        }
    }

    /// The counters can go on counting.
    pub open spec fn can_count(self) -> bool {
        &&& self.core.n_pkts < u64::MAX
        &&& self.core.n_dec_ok < u64::MAX
        &&& self.core.n_dec_fail < u64::MAX
    }

    /// A hotkey is down only while its voice key is engaged and holds it.
    pub open spec fn key_wf(self, k: VoiceKey) -> bool {
        &&& self.core.engaged == Some(k) ==> self.binding(k) is Some
        &&& (self.binding(k) matches Some(h) ==> h.down == (self.core.engaged == Some(k)
            && !self.taps(k)))
    }

    /// What holds of a bridge at all times.
    pub open spec fn wf(self) -> bool {
        &&& self.key_wf(VoiceKey::Forward)
        &&& self.key_wf(VoiceKey::Backward)
        &&& self.core.fail_streak < 2
        &&& self.core.voice_ended_at is Some ==> self.core.engaged is None
            && self.settings.auto_enter
        &&& match self.core.phase {
            Phase::Fresh | Phase::Connecting(_) | Phase::Done | Phase::Failed => self.link is None
                && !self.core.decoder && self.core.engaged is None,
            Phase::Opening(_) => self.link is Some && !self.core.decoder && self.core.engaged
                is None,
            Phase::Reading | Phase::Settling(_) => self.link is Some,
            Phase::LateDecoder => self.link is Some && !self.core.decoder,
            Phase::Decoding | Phase::Rebuilding => self.link is Some && self.core.decoder,
            Phase::Polling | Phase::Probing => true,
        }
    }
}

/// Appends strokes as effects.
fn push_keys(effects: &mut Vec<Effect>, backend: Backend, strokes: &Vec<Stroke>)
    ensures
        final(effects)@ == old(effects)@ + keys(backend, strokes@),
{
    let ghost before = effects@;
    let mut i: usize = 0;
    assert(effects@ =~= before + keys(backend, strokes@).take(0));
    while i < strokes.len()
        invariant
            i <= strokes.len(),
            effects@ == before + keys(backend, strokes@).take(i as int),
        decreases strokes.len() - i,
    {
        effects.push(Effect::Key(backend, strokes[i]));
        i += 1;
        assert(effects@ =~= before + keys(backend, strokes@).take(i as int));
    }
    assert(keys(backend, strokes@).take(i as int) =~= keys(backend, strokes@));
}

/// Lets a hotkey go.
fn let_go(h: &mut Option<HotKey>, effects: &mut Vec<Effect>)
    ensures
        *final(h) == lifted(*old(h)),
        final(effects)@ == old(effects)@ + letting_go(*old(h)),
{
    match h.take() {
        Some(mut k) => {
            let strokes = k.release();
            push_keys(effects, k.backend, &strokes);
            *h = Some(k);
        },
        None => {
            assert(effects@ =~= effects@ + letting_go(None));
        },
    }
}

/// Holds a hotkey.
fn hold(h: &mut Option<HotKey>, effects: &mut Vec<Effect>)
    requires
        (*old(h)) is Some,
    ensures
        *final(h) == held(*old(h)),
        final(effects)@ == old(effects)@ + keys((*old(h))->0.backend, (*old(h))->0.press_strokes()),
{
    if let Some(mut k) = h.take() {
        let strokes = k.press();
        push_keys(effects, k.backend, &strokes);
        *h = Some(k);
    }
}

/// Taps a hotkey.
fn tap(h: &mut Option<HotKey>, effects: &mut Vec<Effect>)
    requires
        (*old(h)) is Some,
    ensures
        *final(h) == lifted(*old(h)),
        final(effects)@ == old(effects)@ + tapping((*old(h))->0),
{
    if let Some(mut k) = h.take() {
        let (press, lift) = k.tap();
        push_keys(effects, k.backend, &press);
        effects.push(Effect::Pause(hotkey::TAP_PAUSE_MS));
        push_keys(effects, k.backend, &lift);
        *h = Some(k);
    }
    assert(effects@ =~= old(effects)@ + tapping((*old(h))->0));
}

/// A copy of a link's path.
fn path_of(link: &Option<Connected>) -> (r: Option<String>)
    ensures
        r == (match *link {
            Some(c) => Some(c.path),
            None => None,
        }),
{
    match link {
        Some(c) => Some(c.path.clone()),
        None => None,
    }
}

/// The end of a round keeps what holds of a bridge.
proof fn lemma_clock_keeps(b: Bridge, audio: bool, now: u64, queue: usize, callbacks: usize)
    requires
        b.wf(),
    ensures
        b.on_clock(audio, now, queue, callbacks).0.wf(),
{
    reveal(Bridge::on_clock);
    let b1 = if audio {
        b.heard(now).0
    } else {
        b
    };
    assert(b1.in_phase(Phase::Polling).wf());
    let b2 = b1.reported(now, queue, callbacks).0;
    assert(b2.in_phase(Phase::Polling).wf());
    let b3 = b2.hushed(now).0;
    assert(b3.in_phase(Phase::Polling).wf());
}

/// Asking for another link keeps what holds of a bridge.
proof fn lemma_reconnecting_keeps(b: Bridge, why: Why, leave_out: bool)
    requires
        b.wf(),
    ensures
        b.reconnecting(why, leave_out).wf(),
{
}

/// The outcome of a search for a link keeps what holds of a bridge.
proof fn lemma_linked_keeps(b: Bridge, why: Why, c: Option<Connected>)
    requires
        b.wf(),
        b.core.phase == Phase::Connecting(why),
    ensures
        b.on_linked(why, c).0.wf(),
{
}

/// The outcome of the first decoder of a link keeps what holds of a bridge.
proof fn lemma_opened_keeps(b: Bridge, why: Why, ok: bool)
    requires
        b.wf(),
        b.core.phase == Phase::Opening(why),
    ensures
        b.on_opened(why, ok).0.wf(),
{
}

/// The start of a round keeps what holds of a bridge.
proof fn lemma_poll_keeps(b: Bridge, now: u64, stop: bool)
    requires
        b.wf(),
    ensures
        b.on_poll(now, stop).0.wf(),
{
}

/// Whatever happens, what holds of a bridge at all times goes on holding.
pub proof fn law_invariant_kept(b: Bridge, ev: Event)
    requires
        b.wf(),
    ensures
        b.after(ev).0.wf(),
{
    match (b.core.phase, ev) {
        (Phase::Fresh, Event::Start) => {
            lemma_reconnecting_keeps(b, Why::Start, false);
        },
        (Phase::Connecting(why), Event::Linked(c)) => {
            lemma_linked_keeps(b, why, c);
        },
        (Phase::Opening(why), Event::Decoder(ok)) => {
            lemma_opened_keeps(b, why, ok);
        },
        (Phase::Polling, Event::Poll { now, stop }) => {
            lemma_poll_keeps(b, now, stop);
        },
        (Phase::Probing, Event::Live(live)) => {
            lemma_reconnecting_keeps(b, Why::Lost, false);
            lemma_reconnecting_keeps(b, Why::Switch, false);
        },
        (Phase::Reading, Event::ReadFailed) => {
            lemma_reconnecting_keeps(b, Why::ReadError, true);
        },
        (Phase::Settling(audio), Event::Clock { now, queue, callbacks }) => {
            lemma_clock_keeps(b, audio, now, queue, callbacks);
        },
        _ => {},
    }
}

/// A hotkey can be set up: it binds a known name, and its driver is ready.
pub open spec fn can_bind(name: Option<String>, driver: Seq<char>, interception_ready: bool) -> bool {
    &&& config::is_bound(name)
    &&& hotkey::scans_of(name->0@) is Some
    &&& hotkey::backend_of(driver) == Backend::SendInput || interception_ready
}

/// Why a hotkey cannot be set up: its name is not known, or else its driver is not ready.
pub open spec fn bind_error(name: Option<String>) -> HotkeyError {
    if hotkey::scans_of(name->0@) is None {
        HotkeyError::UnknownName
    } else {
        HotkeyError::DriverUnavailable
    }
}

/// What is set up for a hotkey name.
pub open spec fn binds(
    h: Option<HotKey>,
    name: Option<String>,
    driver: Seq<char>,
    interception_ready: bool,
) -> bool {
    &&& h is Some == can_bind(name, driver, interception_ready)
    &&& (h matches Some(k) ==> hotkey::scans_of(name->0@) == Some(k.scans@) && !k.down && k.backend
        == hotkey::backend_of(driver))
}

/// Sets up the hotkey of a voice key, where it has one.
fn bind(
    name: &Option<String>,
    driver: &str,
    interception_ready: bool,
    key: VoiceKey,
    effects: &mut Vec<Effect>,
) -> (r: (Option<HotKey>, Option<String>))
    ensures
        binds(r.0, *name, driver@, interception_ready),
        r.1 == (if r.0 is Some {
            *name
        } else {
            None
        }),
        final(effects)@ == (if config::is_bound(*name) && r.0 is None {
            old(effects)@.push(
                Effect::Log(Notice::HotkeyFailed(key, bind_error(*name))),
            )
        } else {
            old(effects)@
        }),
{
    if !Config::hotkey_bound(name) {
        return (None, None);
    }
    match name {
        Some(n) => match HotKey::new(n.as_str(), driver, interception_ready) {
            Ok(h) => (Some(h), Some(n.clone())),
            Err(e) => {
                effects.push(Effect::Log(Notice::HotkeyFailed(key, e)));
                (None, None)
            },
        },
        None => (None, None),
    }
}

/// The state of a loop that has not started.
pub open spec fn fresh_core() -> Core {
    Core {
        phase: Phase::Fresh,
        decoder: false,
        active: VoiceKey::Forward,
        engaged: None,
        n_pkts: 0,
        n_dec_ok: 0,
        n_dec_fail: 0,
        fail_streak: 0,
        last_audio: 0,
        last_probe: 0,
        voice_ended_at: None,
        auto_enter_sent: false,
        last_count_log: 0,
        last_cb_total: 0,
    }
}

/// What a bridge takes over from the settings.
pub open spec fn settings_of(c: Config, debug: bool) -> Settings {
    Settings {
        ai_fwd: config::is_bound(c.hotkey_forward) || c.ai_fwd,
        ai_bwd: config::is_bound(c.hotkey_backward) || c.ai_bwd,
        auto_enter: c.auto_enter,
        ctrl_enter: c.auto_enter_mode@ == "ctrl_enter"@,
        auto_enter_delay: c.auto_enter_delay,
        typeless_fwd: c.typeless_fwd,
        typeless_bwd: c.typeless_bwd,
        debug,
    }
}

/// What is told of hotkeys that could not be set up.
pub open spec fn binding_failures(c: Config, interception_ready: bool) -> Seq<Effect> {
    (if config::is_bound(c.hotkey_forward) && !can_bind(
        c.hotkey_forward,
        c.driver@,
        interception_ready,
    ) {
        seq![Effect::Log(Notice::HotkeyFailed(VoiceKey::Forward, bind_error(c.hotkey_forward)))]
    } else {
        Seq::empty()
    }) + (if config::is_bound(c.hotkey_backward) && !can_bind(
        c.hotkey_backward,
        c.driver@,
        interception_ready,
    ) {
        seq![Effect::Log(Notice::HotkeyFailed(VoiceKey::Backward, bind_error(c.hotkey_backward)))]
    } else {
        Seq::empty()
    })
}

/// What is said of a switch.
pub open spec fn switch_text(on: bool) -> Seq<char> {
    if on {
        "开"@
    } else {
        "关"@
    }
}

/// What is said of a switch.
fn switch_word(on: bool) -> (r: &'static str)
    ensures
        r@ == switch_text(on),
{
    if on {
        "开"
    } else {
        "关"
    }
}

/// The text of a notice. `key` is the name of the hotkey that it speaks of, `detail` the reason
/// of a failure.
pub open spec fn notice_text(n: Notice, key: Seq<char>, detail: Seq<char>) -> Seq<char> {
    match n {
        Notice::HotkeyFailed(_, HotkeyError::UnknownName) => "热键初始化失败 (将不联动): "@
            + hotkey::unknown_name(key),
        Notice::HotkeyFailed(_, HotkeyError::DriverUnavailable) => "热键初始化失败 (将不联动): "@
            + detail,
        Notice::Connected(k) => "已连接鼠标音频接口 ("@ + hid::link_label(k) + "模式), 等待语音键..."@,
        Notice::Disconnected => "鼠标已断开, 等待重新连接..."@,
        Notice::Reconnected(k) => "已重新连接 ("@ + hid::link_label(k) + "模式)。"@,
        Notice::Switching(k) => "检测到链路变化, 切换到"@ + hid::link_label(k) + "模式..."@,
        Notice::Switched(k) => "已切换至"@ + hid::link_label(k) + "模式。"@,
        Notice::SwitchFailed => "切换失败, 继续重试..."@,
        Notice::DecoderFailed => "sbc 解码器初始化失败: "@ + detail,
        Notice::VoiceDetected => "检测到语音输入, 已启动音频解码。"@,
        Notice::DecoderStartFailed => "解码器启动失败: "@ + detail,
        Notice::DecoderRebuilt => "解码器重建以恢复 mSBC 帧同步"@,
        Notice::DecoderRebuildFailed => "解码器重建失败: "@ + detail,
        Notice::HotkeyEngaged(_) => "联动热键已激活: 按住 "@ + key,
        Notice::AiKeys(fwd, bwd) => "AI 键配置: 前进="@ + switch_text(fwd) + " 后退="@ + switch_text(
            bwd,
        ),
        Notice::LinkLost => "鼠标连接中断, 尝试重新连接..."@,
        Notice::VoiceEnded => "语音结束, "@ + detail + "秒后自动按 "@ + key,
        Notice::AutoEnter => "自动回车: "@ + key,
        Notice::Processed(n) => "已处理 "@ + text::decimal(n as nat) + " 个语音包。"@,
        Notice::Stopped => "桥接已正常停止。"@,
    }
}

/// The text of the counters; `idle` is the time since the last audio packet in seconds.
pub fn stats_text(s: Stats, idle: &str) -> (out: String)
    ensures
        out@ == "语音包="@ + text::decimal(s.packets as nat) + " 解码OK="@ + text::decimal(
            s.decoded as nat,
        ) + " 解码失败="@ + text::decimal(s.failed as nat) + " 队列≈"@ + text::decimal(
            s.queue as nat,
        ) + " 回调+"@ + text::decimal(s.callbacks_since as nat) + "次/秒 累计"@ + text::decimal(
            s.callbacks as nat,
        ) + "次 最近音频"@ + idle@ + "s前"@,
{
    let mut out = text::owned("语音包=");
    text::push_decimal(&mut out, s.packets);
    out.append(" 解码OK=");
    text::push_decimal(&mut out, s.decoded);
    out.append(" 解码失败=");
    text::push_decimal(&mut out, s.failed);
    out.append(" 队列≈");
    text::push_decimal(&mut out, s.queue as u64);
    out.append(" 回调+");
    text::push_decimal(&mut out, s.callbacks_since as u64);
    out.append("次/秒 累计");
    text::push_decimal(&mut out, s.callbacks as u64);
    out.append("次 最近音频");
    out.append(idle);
    out.append("s前");
    out
}

/// A text made of three parts.
fn three(a: &str, b: &str, c: &str) -> (out: String)
    ensures
        out@ == a@ + b@ + c@,
{
    let mut out = text::owned(a);
    out.append(b);
    out.append(c);
    out
}

/// A text made of two parts.
fn two(a: &str, b: &str) -> (out: String)
    ensures
        out@ == a@ + b@,
{
    let mut out = text::owned(a);
    out.append(b);
    out
}

/// The text of a notice. `key` is the name of the hotkey or of the Enter mode that it speaks of,
/// `detail` the reason of a failure, or the delay in seconds of an automatic Enter.
pub fn render_notice(n: Notice, key: &str, detail: &str) -> (out: String)
    ensures
        out@ == notice_text(n, key@, detail@),
{
    match n {
        Notice::HotkeyFailed(_, HotkeyError::UnknownName) => {
            let reason = hotkey::unknown_name_text(key);
            two("热键初始化失败 (将不联动): ", reason.as_str())
        },
        Notice::HotkeyFailed(_, HotkeyError::DriverUnavailable) => two(
            "热键初始化失败 (将不联动): ",
            detail,
        ),
        Notice::Connected(k) => three(
            "已连接鼠标音频接口 (",
            hid::kind_label(k),
            "模式), 等待语音键...",
        ),
        Notice::Disconnected => text::owned("鼠标已断开, 等待重新连接..."),
        Notice::Reconnected(k) => three("已重新连接 (", hid::kind_label(k), "模式)。"),
        Notice::Switching(k) => three("检测到链路变化, 切换到", hid::kind_label(k), "模式..."),
        Notice::Switched(k) => three("已切换至", hid::kind_label(k), "模式。"),
        Notice::SwitchFailed => text::owned("切换失败, 继续重试..."),
        Notice::DecoderFailed => two("sbc 解码器初始化失败: ", detail),
        Notice::VoiceDetected => text::owned("检测到语音输入, 已启动音频解码。"),
        Notice::DecoderStartFailed => two("解码器启动失败: ", detail),
        Notice::DecoderRebuilt => text::owned("解码器重建以恢复 mSBC 帧同步"),
        Notice::DecoderRebuildFailed => two("解码器重建失败: ", detail),
        Notice::HotkeyEngaged(_) => two("联动热键已激活: 按住 ", key),
        Notice::AiKeys(fwd, bwd) => {
            let mut out = three("AI 键配置: 前进=", switch_word(fwd), " 后退=");
            out.append(switch_word(bwd));
            out
        },
        Notice::LinkLost => text::owned("鼠标连接中断, 尝试重新连接..."),
        Notice::VoiceEnded => {
            let mut out = three("语音结束, ", detail, "秒后自动按 ");
            out.append(key);
            out
        },
        Notice::AutoEnter => two("自动回车: ", key),
        Notice::Processed(n) => {
            let mut out = text::owned("已处理 ");
            text::push_decimal(&mut out, n);
            out.append(" 个语音包。");
            out
        },
        Notice::Stopped => text::owned("桥接已正常停止。"),
    }
}

impl Bridge {
    /// Sets a bridge up: its hotkeys by the settings, nothing connected. `interception_ready`
    /// says whether the Interception driver could be opened. A hotkey that cannot be set up is
    /// told of and left out.
    pub fn new(config: &Config, interception_ready: bool, debug: bool) -> (r: (Bridge, Vec<Effect>))
        ensures
            r.0.wf(),
            r.0.core == fresh_core(),
            r.0.settings == settings_of(*config, debug),
            r.0.link is None,
            r.0.excluded is None,
            binds(r.0.forward, config.hotkey_forward, config.driver@, interception_ready),
            binds(r.0.backward, config.hotkey_backward, config.driver@, interception_ready),
            r.0.forward_name == (if r.0.forward is Some {
                config.hotkey_forward
            } else {
                None
            }),
            r.0.backward_name == (if r.0.backward is Some {
                config.hotkey_backward
            } else {
                None
            }),
            forall|pid: u16| #[trigger]
                r.0.wired@.contains(pid) == config::writes_pid(config.wired_pids@, pid),
            forall|pid: u16| #[trigger]
                r.0.wireless@.contains(pid) == config::writes_pid(config.wireless_pids@, pid),
            r.1@ == binding_failures(*config, interception_ready),
    {
        let mut effects: Vec<Effect> = Vec::new();
        let driver = config.driver.as_str();
        let (forward, forward_name) = bind(
            &config.hotkey_forward,
            driver,
            interception_ready,
            VoiceKey::Forward,
            &mut effects,
        );
        let (backward, backward_name) = bind(
            &config.hotkey_backward,
            driver,
            interception_ready,
            VoiceKey::Backward,
            &mut effects,
        );
        let settings = Settings {
            ai_fwd: config.ai_forward_enabled(),
            ai_bwd: config.ai_backward_enabled(),
            auto_enter: config.auto_enter,
            ctrl_enter: text::same(config.auto_enter_mode.as_str(), "ctrl_enter"),
            auto_enter_delay: config.auto_enter_delay,
            typeless_fwd: config.typeless_fwd,
            typeless_bwd: config.typeless_bwd,
            debug,
        };
        let core = Core {
            phase: Phase::Fresh,
            decoder: false,
            active: VoiceKey::Forward,
            engaged: None,
            n_pkts: 0,
            n_dec_ok: 0,
            n_dec_fail: 0,
            fail_streak: 0,
            last_audio: 0,
            last_probe: 0,
            voice_ended_at: None,
            auto_enter_sent: false,
            last_count_log: 0,
            last_cb_total: 0,
        };
        let b = Bridge {
            core,
            settings,
            packet: [0u8; 64],
            link: None,
            excluded: None,
            forward,
            backward,
            forward_name,
            backward_name,
            wired: config.wired_pids(),
            wireless: config.wireless_pids(),
        };
        assert(effects@ =~= binding_failures(*config, interception_ready));
        (b, effects)
    }

    /// The name of the hotkey of a voice key; empty where it has none.
    pub fn key_name(&self, k: VoiceKey) -> (r: &str)
        ensures
            r@ == (match k {
                VoiceKey::Forward => match self.forward_name {
                    Some(n) => n@,
                    None => ""@,
                },
                VoiceKey::Backward => match self.backward_name {
                    Some(n) => n@,
                    None => ""@,
                },
            }),
    {
        let name = match k {
            VoiceKey::Forward => &self.forward_name,
            VoiceKey::Backward => &self.backward_name,
        };
        match name {
            Some(n) => n.as_str(),
            None => "",
        }
    }

    /// Closes the link: lets the hotkeys go and forgets the decoder.
    fn disconnect(&mut self, effects: &mut Vec<Effect>)
        ensures
            *final(self) == old(self).unlinked(),
            final(effects)@ == old(effects)@ + old(self).unlinking(),
    {
        self.end_key(VoiceKey::Forward, effects);
        self.end_key(VoiceKey::Backward, effects);
        self.core.engaged = None;
        self.core.decoder = false;
        self.link = None;
        assert(effects@ =~= old(effects)@ + old(self).unlinking());
    }

    /// Switches AI voice off and closes the link.
    fn shut(&mut self, effects: &mut Vec<Effect>)
        ensures
            *final(self) == old(self).unlinked(),
            final(effects)@ == old(effects)@ + old(self).closing(),
    {
        let control = match &self.link {
            Some(c) => c.control,
            None => false,
        };
        if control {
            effects.push(Effect::SetAi(false));
        }
        self.disconnect(effects);
        assert(effects@ =~= old(effects)@ + old(self).closing());
    }

    /// Ends the bridge wherever it stands: AI voice is switched off and no key stays held. A
    /// bridge that has ended already has nothing left to do.
    pub fn close(&mut self) -> (out: Vec<Effect>)
        requires
            old(self).wf(),
        ensures
            final(self).wf(),
            *final(self) == old(self).unlinked().in_phase(Phase::Done),
            out@ == old(self).closing(),
    {
        let mut out: Vec<Effect> = Vec::new();
        let ghost none = out@;
        self.shut(&mut out);
        self.core.phase = Phase::Done;
        assert(none + old(self).closing() =~= old(self).closing());
        out
    }

    /// Closes the link and asks for another.
    fn connect(&mut self, why: Why, leave_out: bool, effects: &mut Vec<Effect>)
        ensures
            *final(self) == old(self).reconnecting(why, leave_out),
            final(effects)@ == old(effects)@ + old(self).unlinking(),
    {
        let excluded = if leave_out {
            path_of(&self.link)
        } else {
            None
        };
        self.disconnect(effects);
        self.excluded = excluded;
        self.core.phase = Phase::Connecting(why);
    }

    /// The kind of the link in use.
    pub fn link_kind(&self) -> (r: LinkKind)
        ensures
            r == self.kind(),
    {
        match &self.link {
            Some(c) => hid::link_kind(
                c.product_string.as_str(),
                &self.wired,
                &self.wireless,
                c.pid,
            ),
            None => LinkKind::Unknown,
        }
    }

    /// The label of the link in use.
    pub fn mode_label(&self) -> (r: &'static str)
        ensures
            r@ == hid::link_label(self.kind()),
    {
        hid::kind_label(self.link_kind())
    }

    /// What a failed connection leads to.
    fn fail_connection(&mut self, why: Why, effects: &mut Vec<Effect>)
        ensures
            *final(self) == old(self).on_failure(why).0,
            final(effects)@ == old(effects)@ + old(self).on_failure(why).1,
    {
        match why {
            Why::Start => {
                self.shut(effects);
                self.core.phase = Phase::Failed;
            },
            Why::Lost => {
                effects.push(Effect::Pause(500));
                self.core.phase = Phase::Polling;
            },
            Why::Switch => {
                effects.push(Effect::Log(Notice::SwitchFailed));
                effects.push(Effect::Pause(300));
                self.core.phase = Phase::Polling;
            },
            Why::ReadError => {
                effects.push(Effect::Pause(500));
                self.core.phase = Phase::Polling;
            },
        }
        assert(effects@ =~= old(effects)@ + old(self).on_failure(why).1);
    }

    /// What a connection leads to.
    fn finish_connection(&mut self, why: Why, effects: &mut Vec<Effect>)
        ensures
            *final(self) == old(self).on_success(why).0,
            final(effects)@ == old(effects)@ + old(self).on_success(why).1,
    {
        let kind = self.link_kind();
        match why {
            Why::Start => {
                effects.push(Effect::Log(Notice::Connected(kind)));
                self.core.phase = Phase::Polling;
            },
            Why::Lost => {
                effects.push(Effect::Log(Notice::Reconnected(kind)));
                self.core.phase = Phase::Reading;
            },
            Why::Switch => {
                effects.push(Effect::Log(Notice::Switched(kind)));
                self.core.phase = Phase::Polling;
            },
            Why::ReadError => {
                effects.push(Effect::Log(Notice::Reconnected(kind)));
                self.core.phase = Phase::Polling;
            },
        }
        assert(effects@ =~= old(effects)@ + old(self).on_success(why).1);
    }

    /// A link was found, or not.
    fn take_link(&mut self, why: Why, c: Option<Connected>, effects: &mut Vec<Effect>)
        ensures
            *final(self) == old(self).on_linked(why, c).0,
            final(effects)@ == old(effects)@ + old(self).on_linked(why, c).1,
    {
        match c {
            Some(link) => {
                if link.control {
                    effects.push(Effect::SetAi(self.settings.ai_fwd || self.settings.ai_bwd));
                    if self.settings.debug {
                        effects.push(
                            Effect::Log(Notice::AiKeys(self.settings.ai_fwd, self.settings.ai_bwd)),
                        );
                    }
                }
                self.link = Some(link);
                self.core.phase = Phase::Opening(why);
                assert(effects@ =~= old(effects)@ + old(self).on_linked(why, c).1);
            },
            None => self.fail_connection(why, effects),
        }
    }

    /// A decoder was made for a new link, or not.
    fn take_first_decoder(&mut self, why: Why, ok: bool, effects: &mut Vec<Effect>)
        ensures
            *final(self) == old(self).on_opened(why, ok).0,
            final(effects)@ == old(effects)@ + old(self).on_opened(why, ok).1,
    {
        if ok {
            self.core.decoder = true;
            self.finish_connection(why, effects);
        } else {
            effects.push(Effect::Log(Notice::DecoderFailed));
            self.fail_connection(why, effects);
            assert(effects@ =~= old(effects)@ + old(self).on_opened(why, ok).1);
        }
    }

    /// A round starts.
    fn poll(&mut self, now: u64, stop: bool, effects: &mut Vec<Effect>)
        ensures
            *final(self) == old(self).on_poll(now, stop).0,
            final(effects)@ == old(effects)@ + old(self).on_poll(now, stop).1,
    {
        if stop {
            self.shut(effects);
            if self.core.n_pkts > 0 {
                effects.push(Effect::Log(Notice::Processed(self.core.n_pkts)));
            }
            effects.push(Effect::Log(Notice::Stopped));
            self.core.phase = Phase::Done;
        } else if now.saturating_sub(self.core.last_probe) >= PROBE_INTERVAL {
            self.core.last_probe = now;
            self.core.phase = Phase::Probing;
        } else if self.link.is_some() {
            self.core.phase = Phase::Reading;
        } else {
            effects.push(Effect::Pause(200));
            self.core.phase = Phase::Polling;
        }
        assert(effects@ =~= old(effects)@ + old(self).on_poll(now, stop).1);
    }

    /// The links were probed.
    fn take_live(&mut self, live: Option<AjazzDevice>, effects: &mut Vec<Effect>)
        ensures
            *final(self) == old(self).on_live(live).0,
            final(effects)@ == old(effects)@ + old(self).on_live(live).1,
    {
        match &live {
            None => {
                if self.link.is_some() {
                    effects.push(Effect::Log(Notice::Disconnected));
                }
                self.connect(Why::Lost, false, effects);
            },
            Some(d) => {
                let same = match &self.link {
                    Some(c) => text::same(c.path.as_str(), d.path.as_str()),
                    None => false,
                };
                if same {
                    self.core.phase = Phase::Reading;
                } else {
                    let kind = hid::link_kind(
                        d.product_string.as_str(),
                        &self.wired,
                        &self.wireless,
                        d.product_id,
                    );
                    effects.push(Effect::Log(Notice::Switching(kind)));
                    self.connect(Why::Switch, false, effects);
                }
            },
        }
        assert(effects@ =~= old(effects)@ + old(self).on_live(live).1);
    }

    /// A report was read.
    fn take_packet(&mut self, n: usize, buf: [u8; 64])
        ensures
            *final(self) == old(self).on_packet(n, buf),
    {
        if n == 64 && buf[0] == crate::REPORT_ID && buf[2] == crate::AUDIO_PAYLOAD_LEN {
            self.packet = buf;
            self.core.phase = if self.core.decoder {
                Phase::Decoding
            } else {
                Phase::LateDecoder
            };
        } else {
            self.core.phase = Phase::Settling(false);
        }
    }

    /// A frame was decoded, or not.
    fn count_frame(&mut self, ok: bool)
        requires
            old(self).can_count(),
            old(self).core.fail_streak < 2,
        ensures
            *final(self) == old(self).on_decoded(ok),
    {
        if ok {
            self.core.n_dec_ok += 1;
            self.core.fail_streak = 0;
            self.core.phase = Phase::Settling(true);
        } else {
            self.core.n_dec_fail += 1;
            self.core.fail_streak += 1;
            if self.core.fail_streak >= 2 {
                self.core.fail_streak = 0;
                self.core.phase = Phase::Rebuilding;
            } else {
                self.core.phase = Phase::Settling(true);
            }
        }
    }

    /// Whether a voice key has a hotkey.
    fn has_binding(&self, k: VoiceKey) -> (r: bool)
        ensures
            r == (self.binding(k) is Some),
    {
        match k {
            VoiceKey::Forward => self.forward.is_some(),
            VoiceKey::Backward => self.backward.is_some(),
        }
    }

    /// Whether a voice key taps its hotkey.
    fn is_tapping(&self, k: VoiceKey) -> (r: bool)
        ensures
            r == self.taps(k),
    {
        match k {
            VoiceKey::Forward => self.settings.typeless_fwd,
            VoiceKey::Backward => self.settings.typeless_bwd,
        }
    }

    /// Holds the hotkey of a voice key.
    fn hold_key(&mut self, k: VoiceKey, effects: &mut Vec<Effect>)
        requires
            old(self).binding(k) is Some,
        ensures
            *final(self) == old(self).with_binding(k, held(old(self).binding(k))),
            final(effects)@ == old(effects)@ + keys(
                old(self).binding(k)->0.backend,
                old(self).binding(k)->0.press_strokes(),
            ),
    {
        match k {
            VoiceKey::Forward => hold(&mut self.forward, effects),
            VoiceKey::Backward => hold(&mut self.backward, effects),
        }
    }

    /// Taps the hotkey of a voice key.
    fn tap_key(&mut self, k: VoiceKey, effects: &mut Vec<Effect>)
        requires
            old(self).binding(k) is Some,
        ensures
            *final(self) == old(self).with_binding(k, lifted(old(self).binding(k))),
            final(effects)@ == old(effects)@ + tapping(old(self).binding(k)->0),
    {
        match k {
            VoiceKey::Forward => tap(&mut self.forward, effects),
            VoiceKey::Backward => tap(&mut self.backward, effects),
        }
    }

    /// Lets the hotkey of a voice key go.
    fn let_key_go(&mut self, k: VoiceKey, effects: &mut Vec<Effect>)
        ensures
            *final(self) == old(self).with_binding(k, lifted(old(self).binding(k))),
            final(effects)@ == old(effects)@ + letting_go(old(self).binding(k)),
    {
        match k {
            VoiceKey::Forward => let_go(&mut self.forward, effects),
            VoiceKey::Backward => let_go(&mut self.backward, effects),
        }
    }

    /// Ends the use of a voice key's hotkey.
    fn end_key(&mut self, k: VoiceKey, effects: &mut Vec<Effect>)
        ensures
            *final(self) == old(self).with_binding(k, lifted(old(self).binding(k))),
            final(effects)@ == old(effects)@ + old(self).ending(k),
    {
        let engaged = match self.core.engaged {
            Some(e) => e == k,
            None => false,
        };
        if engaged && self.is_tapping(k) && self.has_binding(k) {
            self.tap_key(k, effects);
        } else {
            self.let_key_go(k, effects);
            assert(effects@ =~= old(effects)@ + old(self).ending(k));
        }
    }

    /// An audio packet has come.
    fn hear(&mut self, now: u64, effects: &mut Vec<Effect>)
        requires
            old(self).can_count(),
        ensures
            *final(self) == old(self).heard(now).0,
            final(effects)@ == old(effects)@ + old(self).heard(now).1,
    {
        self.core.n_pkts += 1;
        self.core.last_audio = now;
        self.core.auto_enter_sent = false;
        self.core.voice_ended_at = None;
        let (k, fresh) = match self.core.engaged {
            Some(k) => (k, false),
            None => (self.core.active, true),
        };
        if self.has_binding(k) {
            if fresh {
                effects.push(Effect::Log(Notice::HotkeyEngaged(k)));
            }
            self.core.engaged = Some(k);
            if !self.is_tapping(k) {
                self.hold_key(k, effects);
            } else if fresh {
                self.tap_key(k, effects);
            }
        }
        assert(effects@ =~= old(effects)@ + old(self).heard(now).1);
    }

    /// Tells the counters where they are due and wanted.
    fn report(&mut self, now: u64, queue: usize, callbacks: usize, effects: &mut Vec<Effect>)
        ensures
            *final(self) == old(self).reported(now, queue, callbacks).0,
            final(effects)@ == old(effects)@ + old(self).reported(now, queue, callbacks).1,
    {
        if now.saturating_sub(self.core.last_count_log) >= REPORT_INTERVAL {
            self.core.last_count_log = now;
            if self.settings.debug && self.core.n_pkts > 0 {
                effects.push(
                    Effect::Report(
                        Stats {
                            packets: self.core.n_pkts,
                            decoded: self.core.n_dec_ok,
                            failed: self.core.n_dec_fail,
                            queue,
                            callbacks_since: callbacks.saturating_sub(self.core.last_cb_total),
                            callbacks,
                            idle: now.saturating_sub(self.core.last_audio),
                        },
                    ),
                );
                self.core.last_cb_total = callbacks;
            }
        }
        assert(effects@ =~= old(effects)@ + old(self).reported(now, queue, callbacks).1);
    }

    /// Ends the voice where the audio has been gone long enough.
    fn hush(&mut self, now: u64, effects: &mut Vec<Effect>)
        ensures
            *final(self) == old(self).hushed(now).0,
            final(effects)@ == old(effects)@ + old(self).hushed(now).1,
    {
        if let Some(k) = self.core.engaged {
            if now.saturating_sub(self.core.last_audio) > crate::HOTKEY_IDLE_TIMEOUT {
                self.end_key(k, effects);
                self.core.engaged = None;
                if self.settings.auto_enter && self.core.voice_ended_at.is_none() {
                    self.core.voice_ended_at = Some(now);
                    if self.settings.debug {
                        effects.push(Effect::Log(Notice::VoiceEnded));
                    }
                }
            }
        }
        assert(effects@ =~= old(effects)@ + old(self).hushed(now).1);
    }

    /// Presses Enter where it is due.
    fn enter(&mut self, now: u64, effects: &mut Vec<Effect>)
        ensures
            *final(self) == old(self).entered(now).0,
            final(effects)@ == old(effects)@ + old(self).entered(now).1,
    {
        if self.settings.auto_enter && !self.core.auto_enter_sent {
            if let Some(end) = self.core.voice_ended_at {
                if now.saturating_sub(end) >= self.settings.auto_enter_delay {
                    self.core.auto_enter_sent = true;
                    let strokes = if self.settings.ctrl_enter {
                        hotkey::inject_ctrl_enter()
                    } else {
                        hotkey::inject_enter()
                    };
                    push_keys(effects, Backend::SendInput, &strokes);
                    if self.settings.debug {
                        effects.push(Effect::Log(Notice::AutoEnter));
                    }
                }
            }
        }
        assert(effects@ =~= old(effects)@ + old(self).entered(now).1);
    }

    /// A round ends.
    fn settle(
        &mut self,
        audio: bool,
        now: u64,
        queue: usize,
        callbacks: usize,
        effects: &mut Vec<Effect>,
    )
        requires
            old(self).can_count(),
            old(self).wf(),
        ensures
            *final(self) == old(self).on_clock(audio, now, queue, callbacks).0,
            final(effects)@ == old(effects)@ + old(self).on_clock(audio, now, queue, callbacks).1,
    {
        reveal(Bridge::on_clock);
        if audio {
            self.hear(now, effects);
        }
        self.report(now, queue, callbacks, effects);
        self.hush(now, effects);
        self.enter(now, effects);
        self.core.phase = Phase::Polling;
        assert(effects@ =~= old(effects)@ + old(self).on_clock(audio, now, queue, callbacks).1);
    }

    /// What the program has to do next.
    pub fn request(&self) -> (r: Request)
        ensures
            r == request_of(self.core.phase),
    {
        match self.core.phase {
            Phase::Fresh => Request::Start,
            Phase::Connecting(_) => Request::Connect,
            Phase::Opening(_) => Request::OpenDecoder,
            Phase::Polling => Request::Poll,
            Phase::Probing => Request::Probe,
            Phase::Reading => Request::Read,
            Phase::LateDecoder => Request::OpenDecoder,
            Phase::Decoding => Request::Decode,
            Phase::Rebuilding => Request::OpenDecoder,
            Phase::Settling(_) => Request::Settle,
            Phase::Done => Request::Stop,
            Phase::Failed => Request::Fail,
        }
    }

    /// Whether the counters can go on counting, as [`Bridge::run`] needs it.
    pub fn has_room(&self) -> (r: bool)
        ensures
            r == self.can_count(),
    {
        self.core.n_pkts < u64::MAX && self.core.n_dec_ok < u64::MAX && self.core.n_dec_fail
            < u64::MAX
    }

    /// One step of the main loop: takes what has happened and gives what to do, and the samples
    /// for the audio output. An event that does not answer the request does nothing.
    pub fn run(&mut self, ev: Event) -> (r: (Vec<Effect>, Vec<i16>))
        requires
            old(self).wf(),
            old(self).can_count(),
        ensures
            final(self).wf(),
            *final(self) == old(self).after(ev).0,
            r.0@ == old(self).after(ev).1,
            r.1@ == old(self).samples_after(ev),
    {
        let mut effects: Vec<Effect> = Vec::new();
        let mut samples: Vec<i16> = Vec::new();
        proof {
            law_invariant_kept(*self, ev);
        }
        let ghost none = effects@;
        match (self.core.phase, ev) {
            (Phase::Fresh, Event::Start) => self.connect(Why::Start, false, &mut effects),
            (Phase::Connecting(why), Event::Linked(c)) => self.take_link(why, c, &mut effects),
            (Phase::Opening(why), Event::Decoder(ok)) => self.take_first_decoder(
                why,
                ok,
                &mut effects,
            ),
            (Phase::LateDecoder, Event::Decoder(ok)) => {
                if ok {
                    self.core.decoder = true;
                    effects.push(Effect::Log(Notice::VoiceDetected));
                    self.core.phase = Phase::Decoding;
                } else {
                    effects.push(Effect::Log(Notice::DecoderStartFailed));
                    self.core.phase = Phase::Settling(true);
                }
            },
            (Phase::Rebuilding, Event::Decoder(ok)) => {
                effects.push(
                    Effect::Log(
                        if ok {
                            Notice::DecoderRebuilt
                        } else {
                            Notice::DecoderRebuildFailed
                        },
                    ),
                );
                self.core.phase = Phase::Settling(true);
            },
            (Phase::Polling, Event::Poll { now, stop }) => self.poll(now, stop, &mut effects),
            (Phase::Probing, Event::Live(live)) => self.take_live(live, &mut effects),
            (Phase::Reading, Event::Packet { n, buf }) => self.take_packet(n, buf),
            (Phase::Reading, Event::ReadFailed) => {
                effects.push(Effect::Log(Notice::LinkLost));
                self.connect(Why::ReadError, true, &mut effects);
            },
            (Phase::Decoding, Event::Decoded(p)) => {
                match &p {
                    Some(pcm_bytes) => {
                        samples = pcm::samples_from_pcm(pcm_bytes.as_slice());
                        self.count_frame(true);
                    },
                    None => self.count_frame(false),
                }
            },
            (Phase::Settling(audio), Event::Clock { now, queue, callbacks }) => self.settle(
                audio,
                now,
                queue,
                callbacks,
                &mut effects,
            ),
            _ => {},
        }
        assert(none + old(self).after(ev).1 =~= old(self).after(ev).1);
        assert(effects@ =~= old(self).after(ev).1);
        (effects, samples)
    }

    /// The frame of the last audio packet.
    pub fn frame(&self) -> (out: Vec<u8>)
        ensures
            out@ == self.packet@.subrange(3, 60),
            out@.len() == 57,
            forall|i: int| 0 <= i < 57 ==> #[trigger] out@[i] == self.packet@[3 + i],
    {
        let mut out: Vec<u8> = Vec::new();
        let mut i: usize = 3;
        assert(out@ =~= self.packet@.subrange(3, 3));
        while i < 60
            invariant
                3 <= i <= 60,
                out@ == self.packet@.subrange(3, i as int),
            decreases 60 - i,
        {
            out.push(self.packet[i]);
            i += 1;
            assert(out@ =~= self.packet@.subrange(3, i as int));
        }
        out
    }

    /// The path that the connection under way leaves out.
    pub fn excluded_path(&self) -> (r: Option<&str>)
        ensures
            hid::opt_view(r) == (match self.excluded {
                Some(p) => Some(p@),
                None => None,
            }),
    {
        match &self.excluded {
            Some(p) => Some(p.as_str()),
            None => None,
        }
    }

    /// Takes a report of the control interface: a key report says which voice key was pressed,
    /// a status report gives the battery level and the charging flag.
    pub fn on_control(&mut self, buf: &[u8]) -> (r: Option<(u8, bool)>)
        ensures
            r == hid::battery_of(buf@),
            *final(self) == (Bridge {
                core: Core {
                    active: match hid::key_report_of(buf@) {
                        Some(hid::KeyReport::Forward) => VoiceKey::Forward,
                        Some(hid::KeyReport::Backward) => VoiceKey::Backward,
                        _ => old(self).core.active,
                    },
                    ..old(self).core
                },
                ..*old(self)
            }),
            old(self).wf() ==> final(self).wf(),
    {
        match hid::parse_key(buf) {
            Some(hid::KeyReport::Forward) => {
                self.core.active = VoiceKey::Forward;
            },
            Some(hid::KeyReport::Backward) => {
                self.core.active = VoiceKey::Backward;
            },
            _ => {},
        }
        hid::parse_battery(buf)
    }
}

/// The key strokes among effects.
pub open spec fn strokes(effects: Seq<Effect>) -> Seq<Stroke>
    decreases effects.len(),
{
    if effects.len() == 0 {
        Seq::empty()
    } else {
        strokes(effects.drop_last()) + (match effects.last() {
            Effect::Key(_, s) => seq![s],
            _ => Seq::empty(),
        })
    }
}

/// The strokes of effects in a row.
proof fn lemma_strokes_concat(a: Seq<Effect>, b: Seq<Effect>)
    ensures
        strokes(a + b) == strokes(a) + strokes(b),
    decreases b.len(),
{
    if b.len() == 0 {
        assert(a + b =~= a);
        assert(strokes(a) + strokes(b) =~= strokes(a));
    } else {
        assert((a + b).drop_last() =~= a + b.drop_last());
        lemma_strokes_concat(a, b.drop_last());
        assert(strokes(a + b) =~= strokes(a) + strokes(b));
    }
}

/// The strokes that were made effects.
proof fn lemma_strokes_of_keys(backend: Backend, s: Seq<Stroke>)
    ensures
        strokes(keys(backend, s)) == s,
    decreases s.len(),
{
    if s.len() > 0 {
        assert(keys(backend, s).drop_last() =~= keys(backend, s.drop_last()));
        lemma_strokes_of_keys(backend, s.drop_last());
    }
    assert(strokes(keys(backend, s)) =~= s);
}

/// An effect that is no key has no stroke.
proof fn lemma_strokes_of_other(e: Effect)
    requires
        !(e is Key),
    ensures
        strokes(seq![e]) == Seq::<Stroke>::empty(),
{
    reveal_with_fuel(strokes, 2);
    assert(seq![e].drop_last() =~= Seq::<Effect>::empty());
    assert(strokes(seq![e]) =~= Seq::<Stroke>::empty());
}

/// The strokes of a tap.
proof fn lemma_strokes_of_tap(h: HotKey)
    ensures
        strokes(tapping(h)) == hotkey::down_strokes(h.scans@) + hotkey::up_strokes(h.scans@),
{
    let down = keys(h.backend, hotkey::down_strokes(h.scans@));
    let up = keys(h.backend, hotkey::up_strokes(h.scans@));
    let pause = seq![Effect::Pause(hotkey::TAP_PAUSE_MS)];
    lemma_strokes_concat(down + pause, up);
    lemma_strokes_concat(down, pause);
    lemma_strokes_of_other(Effect::Pause(hotkey::TAP_PAUSE_MS));
    lemma_strokes_of_keys(h.backend, hotkey::down_strokes(h.scans@));
    lemma_strokes_of_keys(h.backend, hotkey::up_strokes(h.scans@));
    assert(strokes(tapping(h)) =~= hotkey::down_strokes(h.scans@) + hotkey::up_strokes(h.scans@));
}

/// The keys that a hotkey holds.
pub open spec fn keys_of(h: Option<HotKey>) -> Set<(u8, bool)> {
    match h {
        Some(k) => if k.down {
            k.scans@.to_set()
        } else {
            Set::empty()
        },
        None => Set::empty(),
    }
}

impl Bridge {
    /// The keys that the bridge holds.
    pub open spec fn held_keys(self) -> Set<(u8, bool)> {
        keys_of(self.forward).union(keys_of(self.backward))
    }
}

/// The strokes that end the use of a hotkey leave none of its keys held, and no other key that
/// was not held before.
proof fn lemma_ending(b: Bridge, k: VoiceKey, held: Set<(u8, bool)>)
    requires
        b.wf(),
        held == Set::<(u8, bool)>::empty() || held == keys_of(b.binding(k)),
    ensures
        hotkey::after(held, strokes(b.ending(k))) == Set::<(u8, bool)>::empty(),
{
    let none = Set::<(u8, bool)>::empty();
    match b.binding(k) {
        None => {},
        Some(h) => {
            if b.core.engaged == Some(k) && b.taps(k) {
                lemma_strokes_of_tap(h);
                assert(held =~= none);
                hotkey::law_press_release_balanced(held, h.scans@);
            } else {
                lemma_strokes_of_keys(h.backend, h.release_strokes());
                hotkey::law_release_frees_all(held, h.scans@);
                assert(h.down ==> held.difference(h.scans@.to_set()) =~= none);
            }
        },
    }
}

/// A hotkey that holds no key and is not tapped brings no stroke.
proof fn lemma_ending_idle(b: Bridge, k: VoiceKey)
    requires
        b.wf(),
        b.core.engaged != Some(k),
    ensures
        strokes(b.ending(k)) == Seq::<Stroke>::empty(),
        keys_of(b.binding(k)) == Set::<(u8, bool)>::empty(),
{
    if let Some(h) = b.binding(k) {
        lemma_strokes_of_keys(h.backend, h.release_strokes());
    }
}

/// Closing a link leaves no key held.
proof fn lemma_unlinking_frees(b: Bridge)
    requires
        b.wf(),
    ensures
        hotkey::after(b.held_keys(), strokes(b.unlinking())) == Set::<(u8, bool)>::empty(),
        b.unlinked().held_keys() == Set::<(u8, bool)>::empty(),
{
    let none = Set::<(u8, bool)>::empty();
    assert(b.unlinked().held_keys() =~= none);
    let (f, w) = (VoiceKey::Forward, VoiceKey::Backward);
    lemma_strokes_concat(b.ending(f), b.ending(w));
    hotkey::lemma_after_concat(b.held_keys(), strokes(b.ending(f)), strokes(b.ending(w)));
    if b.core.engaged == Some(f) {
        lemma_ending_idle(b, w);
        assert(b.held_keys() =~= keys_of(b.forward));
        lemma_ending(b, f, b.held_keys());
    } else {
        lemma_ending_idle(b, f);
        assert(b.held_keys() =~= keys_of(b.backward));
        lemma_ending(b, w, b.held_keys());
    }
}

/// Effects that are no keys have no strokes.
proof fn lemma_strokes_of_others(effects: Seq<Effect>)
    requires
        forall|i: int| 0 <= i < effects.len() ==> !(#[trigger] effects[i] is Key),
    ensures
        strokes(effects) == Seq::<Stroke>::empty(),
    decreases effects.len(),
{
    if effects.len() > 0 {
        assert forall|i: int| 0 <= i < effects.drop_last().len() implies !(
        #[trigger] effects.drop_last()[i] is Key) by {
            assert(effects[i] == effects.drop_last()[i]);
        }
        lemma_strokes_of_others(effects.drop_last());
        assert(!(effects[effects.len() - 1] is Key));
        assert(strokes(effects) =~= Seq::<Stroke>::empty());
    }
}

/// A packet holds its hotkey's keys, or none.
proof fn lemma_heard_tracked(b: Bridge, now: u64)
    requires
        b.wf(),
    ensures
        hotkey::after(b.held_keys(), strokes(b.heard(now).1)) == b.heard(now).0.held_keys(),
{
    let none = Set::<(u8, bool)>::empty();
    let k = b.speaking();
    let (c, e) = b.heard(now);
    match b.binding(k) {
        None => {
            assert(c.held_keys() =~= b.held_keys());
        },
        Some(h) => {
            let log = if b.core.engaged is None {
                seq![Effect::Log(Notice::HotkeyEngaged(k))]
            } else {
                Seq::empty()
            };
            lemma_strokes_of_others(log);
            if !b.taps(k) {
                lemma_strokes_concat(log, keys(h.backend, h.press_strokes()));
                lemma_strokes_of_keys(h.backend, h.press_strokes());
                assert(strokes(e) =~= h.press_strokes());
                if h.down {
                    assert(c.held_keys() =~= b.held_keys());
                } else {
                    hotkey::law_press_holds_all(b.held_keys(), h.scans@);
                    assert(b.held_keys() =~= none);
                    assert(none.union(h.scans@.to_set()) =~= h.scans@.to_set());
                    assert(c.held_keys() =~= h.scans@.to_set());
                }
            } else if b.core.engaged is None {
                lemma_strokes_concat(log, tapping(h));
                lemma_strokes_of_tap(h);
                assert(strokes(e) =~= hotkey::down_strokes(h.scans@) + hotkey::up_strokes(
                    h.scans@,
                ));
                assert(b.held_keys() =~= none);
                hotkey::law_press_release_balanced(b.held_keys(), h.scans@);
                assert(c.held_keys() =~= none);
            } else {
                assert(c.held_keys() =~= b.held_keys());
            }
        },
    }
}

/// The end of a voice leaves no key held.
proof fn lemma_hushed_tracked(b: Bridge, now: u64)
    requires
        b.wf(),
    ensures
        hotkey::after(b.held_keys(), strokes(b.hushed(now).1)) == b.hushed(now).0.held_keys(),
{
    let none = Set::<(u8, bool)>::empty();
    let (c, e) = b.hushed(now);
    if b.silent(now) {
        let k = b.core.engaged->0;
        let h = b.binding(k)->0;
        let arm = b.settings.auto_enter && b.core.voice_ended_at is None;
        let log = if arm && b.settings.debug {
            seq![Effect::Log(Notice::VoiceEnded)]
        } else {
            Seq::empty()
        };
        lemma_strokes_of_others(log);
        assert(c.held_keys() =~= none);
        if b.taps(k) {
            lemma_strokes_concat(tapping(h), log);
            lemma_strokes_of_tap(h);
            assert(strokes(e) =~= hotkey::down_strokes(h.scans@) + hotkey::up_strokes(h.scans@));
            assert(b.held_keys() =~= none);
            hotkey::law_press_release_balanced(b.held_keys(), h.scans@);
        } else {
            lemma_strokes_concat(keys(h.backend, h.release_strokes()), log);
            lemma_strokes_of_keys(h.backend, h.release_strokes());
            assert(strokes(e) =~= h.release_strokes());
            assert(b.held_keys() =~= h.scans@.to_set());
            hotkey::law_release_frees_all(b.held_keys(), h.scans@);
            assert(b.held_keys().difference(h.scans@.to_set()) =~= none);
        }
    }
}

/// The automatic Enter leaves no key held.
proof fn lemma_entered_tracked(b: Bridge, now: u64)
    requires
        b.wf(),
    ensures
        hotkey::after(b.held_keys(), strokes(b.entered(now).1)) == b.entered(now).0.held_keys(),
{
    let none = Set::<(u8, bool)>::empty();
    let (c, e) = b.entered(now);
    if b.enter_due(now) {
        let s = if b.settings.ctrl_enter {
            hotkey::ctrl_enter_strokes()
        } else {
            hotkey::enter_strokes()
        };
        let log = if b.settings.debug {
            seq![Effect::Log(Notice::AutoEnter)]
        } else {
            Seq::empty()
        };
        lemma_strokes_of_others(log);
        lemma_strokes_concat(keys(Backend::SendInput, s), log);
        lemma_strokes_of_keys(Backend::SendInput, s);
        assert(strokes(e) =~= s);
        assert(b.held_keys() =~= none);
        hotkey::law_enter_leaves_nothing(none);
        assert(none.remove((0x1Cu8, false)) =~= none);
        assert(none.remove((0x1Du8, false)) =~= none);
        assert(c.held_keys() =~= none);
    }
}

/// The end of a round holds the keys of its hotkey, or none.
proof fn lemma_clock_tracked(b: Bridge, audio: bool, now: u64, queue: usize, callbacks: usize)
    requires
        b.wf(),
    ensures
        ({
            let (c, e) = b.on_clock(audio, now, queue, callbacks);
            hotkey::after(b.held_keys(), strokes(e)) == c.held_keys()
        }),
{
    reveal(Bridge::on_clock);
    let (b1, e1) = if audio {
        b.heard(now)
    } else {
        (b, Seq::empty())
    };
    let (b2, e2) = b1.reported(now, queue, callbacks);
    let (b3, e3) = b2.hushed(now);
    let (b4, e4) = b3.entered(now);
    if audio {
        lemma_heard_tracked(b, now);
    }
    lemma_strokes_of_others(e2);
    assert(b2.held_keys() == b1.held_keys());
    assert(b1.in_phase(Phase::Polling).wf());
    let c2 = b2.in_phase(Phase::Polling);
    assert(c2.wf());
    lemma_hushed_tracked(c2, now);
    assert(c2.hushed(now).0.held_keys() == b3.held_keys());
    assert(c2.hushed(now).1 == e3);
    let c3 = b3.in_phase(Phase::Polling);
    assert(c3.wf());
    lemma_entered_tracked(c3, now);
    assert(c3.entered(now).0.held_keys() == b4.held_keys());
    assert(c3.entered(now).1 == e4);
    lemma_strokes_concat(e1 + e2 + e3, e4);
    lemma_strokes_concat(e1 + e2, e3);
    lemma_strokes_concat(e1, e2);
    let h = b.held_keys();
    hotkey::lemma_after_concat(h, strokes(e1) + strokes(e2) + strokes(e3), strokes(e4));
    hotkey::lemma_after_concat(h, strokes(e1) + strokes(e2), strokes(e3));
    hotkey::lemma_after_concat(h, strokes(e1), strokes(e2));
}

/// The keys that the strokes of a step leave held are those that the bridge holds after it.
pub proof fn law_keys_tracked(b: Bridge, ev: Event)
    requires
        b.wf(),
    ensures
        hotkey::after(b.held_keys(), strokes(b.after(ev).1)) == b.after(ev).0.held_keys(),
{
    let (c, e) = b.after(ev);
    match (b.core.phase, ev) {
        (Phase::Fresh, Event::Start) => {
            lemma_unlinking_frees(b);
        },
        (Phase::Connecting(why), Event::Linked(None)) => {
            lemma_failure_tracked(b, why);
        },
        (Phase::Opening(why), Event::Decoder(false)) => {
            let log = seq![Effect::Log(Notice::DecoderFailed)];
            lemma_strokes_of_others(log);
            lemma_strokes_concat(log, b.on_failure(why).1);
            assert(strokes(e) =~= strokes(b.on_failure(why).1));
            lemma_failure_tracked(b, why);
        },
        (Phase::Polling, Event::Poll { now, stop }) => {
            if stop {
                lemma_stop_tracked(b, now);
            } else {
                lemma_strokes_of_others(e);
                assert(c.held_keys() =~= b.held_keys());
            }
        },
        (Phase::Probing, Event::Live(live)) => {
            lemma_unlinking_frees(b);
            let log = e.take(e.len() - b.unlinking().len());
            if c.core.phase == Phase::Reading {
                lemma_strokes_of_others(e);
            } else {
                assert(e =~= log + b.unlinking());
                lemma_strokes_of_others(log);
                lemma_strokes_concat(log, b.unlinking());
                assert(strokes(e) =~= strokes(b.unlinking()));
            }
        },
        (Phase::Reading, Event::ReadFailed) => {
            lemma_unlinking_frees(b);
            let log = seq![Effect::Log(Notice::LinkLost)];
            lemma_strokes_of_others(log);
            lemma_strokes_concat(log, b.unlinking());
            assert(strokes(e) =~= strokes(b.unlinking()));
        },
        (Phase::Settling(audio), Event::Clock { now, queue, callbacks }) => {
            lemma_clock_tracked(b, audio, now, queue, callbacks);
        },
        _ => {
            lemma_strokes_of_others(e);
            assert(c.held_keys() =~= b.held_keys());
        },
    }
}

/// Closing leaves no key held.
proof fn lemma_closing_frees(b: Bridge)
    requires
        b.wf(),
    ensures
        hotkey::after(b.held_keys(), strokes(b.closing())) == Set::<(u8, bool)>::empty(),
        b.unlinked().held_keys() == Set::<(u8, bool)>::empty(),
{
    let ai = if b.link is Some && b.link->0.control {
        seq![Effect::SetAi(false)]
    } else {
        Seq::empty()
    };
    lemma_strokes_of_others(ai);
    lemma_strokes_concat(ai, b.unlinking());
    assert(strokes(b.closing()) =~= strokes(b.unlinking()));
    lemma_unlinking_frees(b);
}

/// A stop leaves no key held.
proof fn lemma_stop_tracked(b: Bridge, now: u64)
    requires
        b.wf(),
    ensures
        hotkey::after(b.held_keys(), strokes(b.on_poll(now, true).1)) == b.on_poll(
            now,
            true,
        ).0.held_keys(),
{
    let count = if b.core.n_pkts > 0 {
        seq![Effect::Log(Notice::Processed(b.core.n_pkts))]
    } else {
        Seq::empty()
    };
    let last = seq![Effect::Log(Notice::Stopped)];
    lemma_strokes_of_others(count);
    lemma_strokes_of_others(last);
    lemma_strokes_concat(b.closing() + count, last);
    lemma_strokes_concat(b.closing(), count);
    assert(strokes(b.on_poll(now, true).1) =~= strokes(b.closing()));
    lemma_closing_frees(b);
}

/// A failed connection leaves held what was held.
proof fn lemma_failure_tracked(b: Bridge, why: Why)
    requires
        b.wf(),
        b.core.engaged is None,
    ensures
        hotkey::after(b.held_keys(), strokes(b.on_failure(why).1)) == b.on_failure(
            why,
        ).0.held_keys(),
{
    if why == Why::Start {
        lemma_closing_frees(b);
    } else {
        lemma_strokes_of_others(b.on_failure(why).1);
        assert(b.on_failure(why).0.held_keys() =~= b.held_keys());
    }
}

impl Bridge {
    /// The bridge after a run of events.
    pub open spec fn ran(self, events: Seq<Event>) -> Bridge
        decreases events.len(),
    {
        if events.len() == 0 {
            self
        } else {
            self.ran(events.drop_last()).after(events.last()).0
        }
    }

    /// The key strokes of a run of events.
    pub open spec fn injected(self, events: Seq<Event>) -> Seq<Stroke>
        decreases events.len(),
    {
        if events.len() == 0 {
            Seq::empty()
        } else {
            self.injected(events.drop_last()) + strokes(
                self.ran(events.drop_last()).after(events.last()).1,
            )
        }
    }

    /// No voice key has a hotkey.
    pub open spec fn voice_only(self) -> bool {
        &&& self.forward is None
        &&& self.backward is None
        &&& self.core.voice_ended_at is None
    }

    /// The event presses the automatic Enter.
    pub open spec fn enters(self, ev: Event) -> bool {
        match (self.core.phase, ev) {
            (Phase::Settling(audio), Event::Clock { now, queue, callbacks }) => {
                let b = if audio {
                    self.heard(now).0
                } else {
                    self
                };
                b.reported(now, queue, callbacks).0.hushed(now).0.enter_due(now)
            },
            _ => false,
        }
    }

    /// The number of automatic Enters in a run of events.
    pub open spec fn enter_count(self, events: Seq<Event>) -> nat
        decreases events.len(),
    {
        if events.len() == 0 {
            0
        } else {
            self.enter_count(events.drop_last()) + if self.ran(events.drop_last()).enters(
                events.last(),
            ) {
                1nat
            } else {
                0nat
            }
        }
    }

    /// No event of a run brings an audio packet to its end.
    pub open spec fn no_audio(self, events: Seq<Event>) -> bool {
        forall|i: int|
            0 <= i < events.len() ==> #[trigger] self.ran(events.take(i)).core.phase
                != Phase::Settling(true)
    }
}

/// No key sticks. After any run of events of a bridge that held no key, exactly the keys are
/// held that the bridge holds, and none once it has stopped or is on its way to another link.
pub proof fn law_no_stuck_key(b: Bridge, events: Seq<Event>)
    requires
        b.wf(),
        b.core.engaged is None,
    ensures
        b.ran(events).wf(),
        hotkey::after(Set::empty(), b.injected(events)) == b.ran(events).held_keys(),
        b.ran(events).core.engaged is None ==> hotkey::after(Set::empty(), b.injected(events))
            == Set::<(u8, bool)>::empty(),
        match b.ran(events).core.phase {
            Phase::Done | Phase::Failed | Phase::Connecting(_) | Phase::Opening(_) => b.ran(
                events,
            ).core.engaged is None,
            _ => true,
        },
    decreases events.len(),
{
    let none = Set::<(u8, bool)>::empty();
    if events.len() == 0 {
        assert(b.held_keys() =~= none);
    } else {
        let front = events.drop_last();
        law_no_stuck_key(b, front);
        let mid = b.ran(front);
        law_invariant_kept(mid, events.last());
        law_keys_tracked(mid, events.last());
        hotkey::lemma_after_concat(none, b.injected(front), strokes(mid.after(events.last()).1));
    }
    let end = b.ran(events);
    if end.core.engaged is None {
        assert(end.held_keys() =~= none);
    }
}

/// A step of a bridge without hotkeys injects no key.
proof fn lemma_voice_only_step(b: Bridge, ev: Event)
    requires
        b.wf(),
        b.voice_only(),
    ensures
        b.after(ev).0.voice_only(),
        strokes(b.after(ev).1) == Seq::<Stroke>::empty(),
{
    let e = b.after(ev).1;
    if let (Phase::Settling(audio), Event::Clock { now, queue, callbacks }) = (b.core.phase, ev) {
        reveal(Bridge::on_clock);
    }
    lemma_strokes_of_others(e);
}

/// Voice alone injects nothing: a bridge without hotkeys never presses a key, not even the
/// automatic Enter.
pub proof fn law_voice_only_injects_nothing(b: Bridge, events: Seq<Event>)
    requires
        b.wf(),
        b.voice_only(),
    ensures
        b.ran(events).wf(),
        b.ran(events).voice_only(),
        b.injected(events) == Seq::<Stroke>::empty(),
    decreases events.len(),
{
    if events.len() > 0 {
        let front = events.drop_last();
        law_voice_only_injects_nothing(b, front);
        law_invariant_kept(b.ran(front), events.last());
        lemma_voice_only_step(b.ran(front), events.last());
        assert(b.injected(events) =~= Seq::<Stroke>::empty());
    }
}

/// The automatic Enter is pressed only where it is switched on, once the voice has ended and
/// the delay is over, and never while a hotkey is engaged.
pub proof fn law_enter_waits(b: Bridge, ev: Event)
    requires
        b.wf(),
        b.enters(ev),
    ensures
        b.settings.auto_enter,
        b.after(ev).0.core.engaged is None,
        b.after(ev).0.core.auto_enter_sent,
        ev matches Event::Clock { now, .. } && b.after(ev).0.core.voice_ended_at matches Some(end)
            && since(now, end) >= b.settings.auto_enter_delay,
{
    reveal(Bridge::on_clock);
    law_invariant_kept(b, ev);
}

/// A step without audio keeps the mark of an Enter that was pressed.
proof fn lemma_enter_step(b: Bridge, ev: Event)
    requires
        b.wf(),
        b.core.phase != Phase::Settling(true),
    ensures
        b.core.auto_enter_sent ==> b.after(ev).0.core.auto_enter_sent && !b.enters(ev),
        b.enters(ev) ==> b.after(ev).0.core.auto_enter_sent,
{
    reveal(Bridge::on_clock);
}

/// One voice gives at most one automatic Enter: until the next audio packet there is no second.
pub proof fn law_enter_once(b: Bridge, events: Seq<Event>)
    requires
        b.wf(),
        b.no_audio(events),
    ensures
        b.ran(events).wf(),
        b.enter_count(events) <= 1,
        b.core.auto_enter_sent ==> b.enter_count(events) == 0,
        b.core.auto_enter_sent || b.enter_count(events) == 1 ==> b.ran(
            events,
        ).core.auto_enter_sent,
    decreases events.len(),
{
    if events.len() > 0 {
        let front = events.drop_last();
        assert forall|i: int| 0 <= i < front.len() implies #[trigger] b.ran(
            front.take(i),
        ).core.phase != Phase::Settling(true) by {
            assert(front.take(i) =~= events.take(i));
        }
        law_enter_once(b, front);
        assert(events.take(events.len() - 1) =~= front);
        law_invariant_kept(b.ran(front), events.last());
        lemma_enter_step(b.ran(front), events.last());
    }
}

/// A bridge that has started never gives up: it waits for the mouse until it is stopped.
pub proof fn law_never_gives_up(b: Bridge, ev: Event)
    requires
        b.wf(),
        b.started(),
    ensures
        b.after(ev).0.started(),
{
    reveal(Bridge::on_clock);
}

impl Bridge {
    /// The first connection has been made.
    pub open spec fn started(self) -> bool {
        match self.core.phase {
            Phase::Fresh | Phase::Failed => false,
            Phase::Connecting(why) | Phase::Opening(why) => why != Why::Start,
            _ => true,
        }
    }

    /// A packet that has been decoded or given up, and is not counted yet.
    pub open spec fn pending(self) -> int {
        if self.core.phase == Phase::Settling(true) || self.core.phase == Phase::Rebuilding {
            1
        } else {
            0
        }
    }

    /// Every frame that was decoded, or was not, came in a packet.
    pub open spec fn counts_agree(self) -> bool {
        self.core.n_dec_ok + self.core.n_dec_fail <= self.core.n_pkts + self.pending()
    }
}

/// The end of a round counts its packet and no frame.
proof fn lemma_clock_counts(b: Bridge, audio: bool, now: u64, queue: usize, callbacks: usize)
    requires
        b.can_count(),
    ensures
        ({
            let c = b.on_clock(audio, now, queue, callbacks).0;
            &&& c.core.phase == Phase::Polling
            &&& c.core.n_pkts == b.core.n_pkts + if audio {
                1int
            } else {
                0int
            }
            &&& c.core.n_dec_ok == b.core.n_dec_ok
            &&& c.core.n_dec_fail == b.core.n_dec_fail
        }),
{
    reveal(Bridge::on_clock);
}

/// Connecting counts nothing.
proof fn lemma_connecting_counts(b: Bridge, why: Why, c: Option<Connected>, ok: bool)
    requires
        b.counts_agree(),
        b.core.phase is Connecting || b.core.phase is Opening,
    ensures
        b.on_linked(why, c).0.counts_agree(),
        b.on_opened(why, ok).0.counts_agree(),
        b.on_linked(why, c).0.core.n_pkts == b.core.n_pkts,
        b.on_opened(why, ok).0.core.n_pkts == b.core.n_pkts,
        b.on_linked(why, c).0.core.n_dec_ok == b.core.n_dec_ok,
        b.on_opened(why, ok).0.core.n_dec_ok == b.core.n_dec_ok,
        b.on_linked(why, c).0.core.n_dec_fail == b.core.n_dec_fail,
        b.on_opened(why, ok).0.core.n_dec_fail == b.core.n_dec_fail,
{
}

/// The counters never tell of more frames than packets: what was decoded and what was not are
/// together at most the packets, that under way included.
pub proof fn law_counts_agree(b: Bridge, ev: Event)
    requires
        b.wf(),
        b.can_count(),
        b.counts_agree(),
    ensures
        b.after(ev).0.counts_agree(),
        b.after(ev).0.core.n_pkts >= b.core.n_pkts,
        b.after(ev).0.core.n_dec_ok >= b.core.n_dec_ok,
        b.after(ev).0.core.n_dec_fail >= b.core.n_dec_fail,
{
    match (b.core.phase, ev) {
        (Phase::Settling(audio), Event::Clock { now, queue, callbacks }) => {
            lemma_clock_counts(b, audio, now, queue, callbacks);
        },
        (Phase::Connecting(why), Event::Linked(c)) => {
            lemma_connecting_counts(b, why, c, true);
        },
        (Phase::Opening(why), Event::Decoder(ok)) => {
            lemma_connecting_counts(b, why, None, ok);
        },
        (Phase::Polling, Event::Poll { now, stop }) => {
            assert(b.on_poll(now, stop).0.counts_agree());
        },
        (Phase::Probing, Event::Live(live)) => {
            assert(b.on_live(live).0.counts_agree());
        },
        _ => {},
    }
}

/// Two frames in a row that do not decode ask for a new decoder; one does not.
pub proof fn law_two_failures_rebuild(b: Bridge)
    requires
        b.wf(),
        b.core.phase == Phase::Decoding,
    ensures
        ({
            let c = b.after(Event::Decoded(None)).0;
            if b.core.fail_streak == 1 {
                request_of(c.core.phase) == Request::OpenDecoder && c.core.fail_streak == 0
            } else {
                c.core.phase == Phase::Settling(true) && c.core.fail_streak == 1
            }
        }),
{
}

/// A new link never meets an old decoder: where a link is found, the next request is for a new
/// decoder, and frames are decoded only after one was made.
pub proof fn law_new_link_new_decoder(b: Bridge, c: Connected)
    requires
        b.wf(),
        b.core.phase is Connecting,
    ensures
        ({
            let linked = b.after(Event::Linked(Some(c))).0;
            &&& linked.link == Some(c)
            &&& !linked.core.decoder
            &&& request_of(linked.core.phase) == Request::OpenDecoder
            &&& linked.after(Event::Decoder(true)).0.core.decoder
            &&& !linked.after(Event::Decoder(false)).0.core.decoder
        }),
{
}

/// A link that comes up takes over: where the probe finds another link than the one in use, the
/// bridge lets its keys go and connects anew; where it finds the same, it reads on; where it
/// finds none, it lets its keys go and looks for one.
pub proof fn law_probe_decides(b: Bridge, live: Option<AjazzDevice>)
    requires
        b.wf(),
        b.core.phase == Phase::Probing,
    ensures
        ({
            let c = b.after(Event::Live(live)).0;
            match live {
                Some(d) => if b.link is Some && b.link->0.path@ == d.path@ {
                    request_of(c.core.phase) == Request::Read && c.link == b.link
                } else {
                    request_of(c.core.phase) == Request::Connect && c.link is None
                        && c.core.engaged is None
                },
                None => request_of(c.core.phase) == Request::Connect && c.link is None
                    && c.core.engaged is None,
            }
        }),
{
}

/// The links are probed as soon as the interval is over, and not before.
pub proof fn law_probe_interval(b: Bridge, now: u64)
    requires
        b.core.phase == Phase::Polling,
    ensures
        request_of(b.after(Event::Poll { now, stop: false }).0.core.phase) == Request::Probe
            <==> now >= b.core.last_probe + PROBE_INTERVAL,
{
}

impl Bridge {
    /// The bridge has ended: it was stopped, or found no mouse at its start.
    pub open spec fn ended(self) -> bool {
        self.core.phase == Phase::Done || self.core.phase == Phase::Failed
    }
}

/// A stop is obeyed, and the last word is that the bridge has stopped; just before it the audio
/// packets are told of, where there were any.
pub proof fn law_stop_obeyed(b: Bridge, now: u64)
    requires
        b.wf(),
        b.core.phase == Phase::Polling,
    ensures
        ({
            let (c, e) = b.after(Event::Poll { now, stop: true });
            &&& request_of(c.core.phase) == Request::Stop
            &&& c.ended()
            &&& e.last() == Effect::Log(Notice::Stopped)
            &&& b.core.n_pkts > 0 ==> e.len() >= 2 && e[e.len() - 2] == Effect::Log(
                Notice::Processed(b.core.n_pkts),
            )
        }),
{
}

/// Whichever way the bridge ends, a link that it has is closed properly: AI voice is switched
/// off where there is a control interface, nothing switches it on, no key stays held, and no
/// link or decoder is left.
pub proof fn law_end_is_clean(b: Bridge, ev: Event)
    requires
        b.wf(),
        !b.ended(),
        b.after(ev).0.ended(),
    ensures
        ({
            let (c, e) = b.after(ev);
            &&& (b.link matches Some(l) && l.control ==> e.contains(Effect::SetAi(false)))
            &&& !e.contains(Effect::SetAi(true))
            &&& c.link is None
            &&& !c.core.decoder
            &&& c.held_keys() == Set::<(u8, bool)>::empty()
        }),
{
    let (c, e) = b.after(ev);
    lemma_closing_ai(b);
    law_invariant_kept(b, ev);
    assert(c.held_keys() =~= Set::<(u8, bool)>::empty());
    match (b.core.phase, ev) {
        (Phase::Connecting(why), Event::Linked(found)) => {
            assert(e == b.closing());
        },
        (Phase::Opening(why), Event::Decoder(ok)) => {
            let log = seq![Effect::Log(Notice::DecoderFailed)];
            assert(e == log + b.closing());
            lemma_ai_kept(log, b.closing(), Seq::empty());
            assert(e =~= log + b.closing() + Seq::<Effect>::empty());
        },
        (Phase::Polling, Event::Poll { now, stop }) => {
            assert(stop);
            let tail = e.skip(b.closing().len() as int);
            assert(e =~= Seq::<Effect>::empty() + b.closing() + tail);
            lemma_ai_kept(Seq::empty(), b.closing(), tail);
        },
        (Phase::Settling(audio), Event::Clock { now, queue, callbacks }) => {
            lemma_clock_polls(b, audio, now, queue, callbacks);
        },
        _ => {},
    }
}

/// The end of a round leads to the next.
proof fn lemma_clock_polls(b: Bridge, audio: bool, now: u64, queue: usize, callbacks: usize)
    ensures
        b.on_clock(audio, now, queue, callbacks).0.core.phase == Phase::Polling,
{
    reveal(Bridge::on_clock);
}

/// Closing switches AI voice off where it can, and never on.
proof fn lemma_closing_ai(b: Bridge)
    ensures
        !b.closing().contains(Effect::SetAi(true)),
        b.link matches Some(l) && l.control ==> b.closing().contains(Effect::SetAi(false)),
{
    let (f, w) = (VoiceKey::Forward, VoiceKey::Backward);
    assert forall|i: int| 0 <= i < b.ending(f).len() implies b.ending(f)[i]
        != Effect::SetAi(true) by {}
    assert forall|i: int| 0 <= i < b.ending(w).len() implies b.ending(w)[i]
        != Effect::SetAi(true) by {}
    assert forall|i: int| 0 <= i < b.unlinking().len() implies b.unlinking()[i]
        != Effect::SetAi(true) by {}
    if b.link is Some && b.link->0.control {
        assert(b.closing()[0] == Effect::SetAi(false));
    }
}

/// Notices round effects change nothing about AI voice.
proof fn lemma_ai_kept(a: Seq<Effect>, m: Seq<Effect>, z: Seq<Effect>)
    requires
        forall|i: int| 0 <= i < a.len() ==> #[trigger] a[i] is Log,
        forall|i: int| 0 <= i < z.len() ==> #[trigger] z[i] is Log,
    ensures
        forall|on: bool|
            #![trigger m.contains(Effect::SetAi(on))]
            #![trigger (a + m + z).contains(Effect::SetAi(on))]
            (a + m + z).contains(Effect::SetAi(on)) == m.contains(Effect::SetAi(on)),
{
    let all = a + m + z;
    assert forall|on: bool| all.contains(Effect::SetAi(on)) == m.contains(Effect::SetAi(on)) by {
        let x = Effect::SetAi(on);
        if m.contains(x) {
            let i = choose|i: int| 0 <= i < m.len() && m[i] == x;
            assert(all[a.len() + i] == x);
        }
        if all.contains(x) {
            let i = choose|i: int| 0 <= i < all.len() && all[i] == x;
            if i < a.len() {
                assert(a[i] == x);
            } else if i < a.len() + m.len() {
                assert(m[i - a.len()] == x);
            } else {
                assert(z[i - a.len() - m.len()] == x);
            }
        }
    }
}

/// Ending a bridge wherever it stands leaves no key held, and ending one that has ended does
/// nothing.
pub proof fn law_close_frees(b: Bridge)
    requires
        b.wf(),
    ensures
        hotkey::after(b.held_keys(), strokes(b.closing())) == Set::<(u8, bool)>::empty(),
        b.unlinked().in_phase(Phase::Done).held_keys() == Set::<(u8, bool)>::empty(),
        b.link matches Some(l) && l.control ==> b.closing().contains(Effect::SetAi(false)),
        b.ended() ==> b.closing() == Seq::<Effect>::empty(),
{
    lemma_closing_frees(b);
    assert(b.unlinked().in_phase(Phase::Done).held_keys() =~= Set::<(u8, bool)>::empty());
    if b.link is Some && b.link->0.control {
        assert(b.closing()[0] == Effect::SetAi(false));
    }
    if b.ended() {
        assert(b.closing() =~= Seq::<Effect>::empty());
    }
}

/// A hotkey that is held is held as long as there is audio: the round of a packet leaves exactly
/// its keys held.
pub proof fn law_held_while_speaking(b: Bridge, now: u64, queue: usize, callbacks: usize)
    requires
        b.wf(),
        b.core.phase == Phase::Settling(true),
        b.binding(b.speaking()) is Some,
        !b.taps(b.speaking()),
    ensures
        ({
            let c = b.after(Event::Clock { now, queue, callbacks }).0;
            &&& c.core.engaged == Some(b.speaking())
            &&& c.held_keys() == b.binding(b.speaking())->0.scans@.to_set()
        }),
{
    reveal(Bridge::on_clock);
    let c = b.after(Event::Clock { now, queue, callbacks }).0;
    law_invariant_kept(b, Event::Clock { now, queue, callbacks });
    assert(c.held_keys() =~= b.binding(b.speaking())->0.scans@.to_set());
}

/// A round without audio lets the hotkey go if and only if the audio has been gone for longer
/// than the timeout; then no key stays held.
pub proof fn law_let_go_when_silent(b: Bridge, now: u64, queue: usize, callbacks: usize)
    requires
        b.wf(),
        b.core.phase == Phase::Settling(false),
    ensures
        ({
            let c = b.after(Event::Clock { now, queue, callbacks }).0;
            if since(now, b.core.last_audio) > crate::HOTKEY_IDLE_TIMEOUT {
                c.core.engaged is None && c.held_keys() == Set::<(u8, bool)>::empty()
            } else {
                c.core.engaged == b.core.engaged && c.held_keys() == b.held_keys()
            }
        }),
{
    reveal(Bridge::on_clock);
    let c = b.after(Event::Clock { now, queue, callbacks }).0;
    law_invariant_kept(b, Event::Clock { now, queue, callbacks });
    if c.core.engaged is None {
        assert(c.held_keys() =~= Set::<(u8, bool)>::empty());
    }
    assert(!(since(now, b.core.last_audio) > crate::HOTKEY_IDLE_TIMEOUT) ==> c.held_keys()
        =~= b.held_keys());
}

/// A hotkey that is tapped is tapped once when the voice starts, and not again while it lasts.
pub proof fn law_tapped_once_at_start(b: Bridge, now: u64, queue: usize, callbacks: usize)
    requires
        b.wf(),
        b.core.phase == Phase::Settling(true),
        b.binding(b.speaking()) is Some,
        b.taps(b.speaking()),
    ensures
        ({
            let h = b.binding(b.speaking())->0;
            strokes(b.after(Event::Clock { now, queue, callbacks }).1) == (if b.core.engaged
                is None {
                hotkey::down_strokes(h.scans@) + hotkey::up_strokes(h.scans@)
            } else {
                Seq::empty()
            })
        }),
{
    reveal(Bridge::on_clock);
    let k = b.speaking();
    let h = b.binding(k)->0;
    let (b1, e1) = b.heard(now);
    let (b2, e2) = b1.reported(now, queue, callbacks);
    let (b3, e3) = b2.hushed(now);
    let (b4, e4) = b3.entered(now);
    assert(e3 =~= Seq::<Effect>::empty());
    assert(e4 =~= Seq::<Effect>::empty());
    assert(e1 + e2 + e3 + e4 =~= e1 + e2);
    lemma_strokes_concat(e1, e2);
    lemma_strokes_of_others(e2);
    let log = if b.core.engaged is None {
        seq![Effect::Log(Notice::HotkeyEngaged(k))]
    } else {
        Seq::empty()
    };
    lemma_strokes_of_others(log);
    if b.core.engaged is None {
        lemma_strokes_concat(log, tapping(h));
        lemma_strokes_of_tap(h);
        assert(strokes(e1) =~= hotkey::down_strokes(h.scans@) + hotkey::up_strokes(h.scans@));
    } else {
        assert(e1 == log);
    }
    assert(strokes(e1 + e2) =~= strokes(e1));
}

/// What ends a voice by silence injects: a tap, and the automatic Enter where it is due at once.
proof fn lemma_tapped_at_silence(b: Bridge, now: u64, queue: usize, callbacks: usize)
    requires
        b.wf(),
        b.core.phase == Phase::Settling(false),
        b.silent(now),
        b.taps(b.core.engaged->0),
    ensures
        strokes(b.after(Event::Clock { now, queue, callbacks }).1) == b.last_tap() + b.enter_keys(
            Event::Clock { now, queue, callbacks },
        ),
{
    reveal(Bridge::on_clock);
    let k = b.core.engaged->0;
    let h = b.binding(k)->0;
    let none = Seq::<Effect>::empty();
    let (b2, e2) = b.reported(now, queue, callbacks);
    let (b3, e3) = b2.hushed(now);
    let (b4, e4) = b3.entered(now);
    let tap = hotkey::down_strokes(h.scans@) + hotkey::up_strokes(h.scans@);
    assert(none + e2 + e3 + e4 =~= e2 + (e3 + e4));
    lemma_strokes_concat(e2, e3 + e4);
    lemma_strokes_of_others(e2);
    lemma_strokes_concat(e3, e4);
    let arm = b2.settings.auto_enter && b2.core.voice_ended_at is None;
    let log = if arm && b2.settings.debug {
        seq![Effect::Log(Notice::VoiceEnded)]
    } else {
        Seq::empty()
    };
    lemma_strokes_of_others(log);
    lemma_strokes_concat(tapping(h), log);
    lemma_strokes_of_tap(h);
    assert(strokes(e3) =~= tap);
    if b3.enter_due(now) {
        let s = if b.settings.ctrl_enter {
            hotkey::ctrl_enter_strokes()
        } else {
            hotkey::enter_strokes()
        };
        let enter_log = if b.settings.debug {
            seq![Effect::Log(Notice::AutoEnter)]
        } else {
            Seq::empty()
        };
        lemma_strokes_of_others(enter_log);
        lemma_strokes_concat(keys(Backend::SendInput, s), enter_log);
        lemma_strokes_of_keys(Backend::SendInput, s);
        assert(strokes(e4) =~= s);
    } else {
        assert(strokes(e4) =~= Seq::<Stroke>::empty());
    }
    assert(strokes(e2 + (e3 + e4)) =~= tap + strokes(e4));
}

impl Bridge {
    /// The strokes of a tap of the engaged key's hotkey.
    pub open spec fn last_tap(self) -> Seq<Stroke> {
        let scans = self.binding(self.core.engaged->0)->0.scans@;
        hotkey::down_strokes(scans) + hotkey::up_strokes(scans)
    }

    /// The strokes of the automatic Enter where the event presses it.
    pub open spec fn enter_keys(self, ev: Event) -> Seq<Stroke> {
        if !self.enters(ev) {
            Seq::empty()
        } else if self.settings.ctrl_enter {
            hotkey::ctrl_enter_strokes()
        } else {
            hotkey::enter_strokes()
        }
    }
}

/// Closing a link taps the hotkey of an engaged key that taps, and brings no other stroke.
proof fn lemma_unlinking_taps(b: Bridge)
    requires
        b.wf(),
        b.core.engaged is Some,
        b.taps(b.core.engaged->0),
    ensures
        strokes(b.unlinking()) == b.last_tap(),
        strokes(b.closing()) == b.last_tap(),
{
    let (f, w) = (VoiceKey::Forward, VoiceKey::Backward);
    let k = b.core.engaged->0;
    lemma_strokes_concat(b.ending(f), b.ending(w));
    lemma_strokes_of_tap(b.binding(k)->0);
    if k == f {
        lemma_ending_idle(b, w);
    } else {
        lemma_ending_idle(b, f);
    }
    assert(strokes(b.unlinking()) =~= b.last_tap());
    let ai = if b.link is Some && b.link->0.control {
        seq![Effect::SetAi(false)]
    } else {
        Seq::empty()
    };
    lemma_strokes_of_others(ai);
    lemma_strokes_concat(ai, b.unlinking());
    assert(strokes(b.closing()) =~= b.last_tap());
}

/// A hotkey that is tapped is tapped once more when the voice ends, whatever ends it: silence, a
/// failed read, another link, no link, or a stop.
pub proof fn law_tapped_once_at_end(b: Bridge, ev: Event)
    requires
        b.wf(),
        b.core.engaged is Some,
        b.taps(b.core.engaged->0),
        b.after(ev).0.core.engaged is None,
    ensures
        strokes(b.after(ev).1) == b.last_tap() + b.enter_keys(ev),
{
    let e = b.after(ev).1;
    lemma_unlinking_taps(b);
    assert(b.last_tap() + Seq::<Stroke>::empty() =~= b.last_tap());
    match (b.core.phase, ev) {
        (Phase::Polling, Event::Poll { now, stop }) => {
            let count = if b.core.n_pkts > 0 {
                seq![Effect::Log(Notice::Processed(b.core.n_pkts))]
            } else {
                Seq::empty()
            };
            let last = seq![Effect::Log(Notice::Stopped)];
            lemma_strokes_of_others(count);
            lemma_strokes_of_others(last);
            lemma_strokes_concat(b.closing() + count, last);
            lemma_strokes_concat(b.closing(), count);
            assert(strokes(e) =~= b.last_tap());
        },
        (Phase::Probing, Event::Live(live)) => {
            let log = e.take(e.len() - b.unlinking().len());
            assert(e =~= log + b.unlinking());
            lemma_strokes_of_others(log);
            lemma_strokes_concat(log, b.unlinking());
            assert(strokes(e) =~= b.last_tap());
        },
        (Phase::Reading, Event::ReadFailed) => {
            let log = seq![Effect::Log(Notice::LinkLost)];
            lemma_strokes_of_others(log);
            lemma_strokes_concat(log, b.unlinking());
            assert(strokes(e) =~= b.last_tap());
        },
        (Phase::Settling(audio), Event::Clock { now, queue, callbacks }) => {
            reveal(Bridge::on_clock);
            assert(!audio);
            assert(b.silent(now));
            lemma_tapped_at_silence(b, now, queue, callbacks);
        },
        _ => {},
    }
}

/// A frame that decodes to 240 bytes of PCM brings 120 samples, and they reach the output as
/// they are; no other event brings any.
pub proof fn law_frame_samples(b: Bridge, ev: Event)
    ensures
        match (b.core.phase, ev) {
            (Phase::Decoding, Event::Decoded(Some(p))) => p@.len() == 240 ==> b.samples_after(
                ev,
            ).len() == 120 && pcm::bytes_of(b.samples_after(ev)) == p@,
            _ => b.samples_after(ev).len() == 0,
        },
{
    if let Event::Decoded(Some(p)) = ev {
        if p@.len() == 240 {
            pcm::law_bytes_round_trip(p@);
        }
    }
}

/// A key going down or up.
pub open spec fn key(scan: (u8, bool), keyup: bool) -> Stroke {
    Stroke { scancode: scan.0, extended: scan.1, keyup }
}

/// All keys going down, the first one first.
pub open spec fn all_down(scans: Seq<(u8, bool)>) -> Seq<Stroke> {
    Seq::new(scans.len(), |i: int| key(scans[i], false))
}

/// All keys going up, the last one first.
pub open spec fn all_up(scans: Seq<(u8, bool)>) -> Seq<Stroke> {
    Seq::new(scans.len(), |i: int| key(scans[scans.len() - 1 - i], true))
}

/// What the program asks for in each phase.
pub proof fn law_requests(p: Phase)
    ensures
        request_of(p) == Request::Start <==> p == Phase::Fresh,
        request_of(p) == Request::Connect <==> p is Connecting,
        request_of(p) == Request::OpenDecoder <==> p is Opening || p == Phase::LateDecoder || p
            == Phase::Rebuilding,
        request_of(p) == Request::Poll <==> p == Phase::Polling,
        request_of(p) == Request::Probe <==> p == Phase::Probing,
        request_of(p) == Request::Read <==> p == Phase::Reading,
        request_of(p) == Request::Decode <==> p == Phase::Decoding,
        request_of(p) == Request::Settle <==> p is Settling,
        request_of(p) == Request::Stop <==> p == Phase::Done,
        request_of(p) == Request::Fail <==> p == Phase::Failed,
{
}

/// An event that was not asked for changes nothing and does nothing.
pub proof fn law_stray_events(b: Bridge, ev: Event)
    requires
        match ev {
            Event::Start => b.core.phase != Phase::Fresh,
            Event::Linked(_) => !(b.core.phase is Connecting),
            Event::Decoder(_) => !(b.core.phase is Opening) && b.core.phase != Phase::LateDecoder
                && b.core.phase != Phase::Rebuilding,
            Event::Poll { .. } => b.core.phase != Phase::Polling,
            Event::Live(_) => b.core.phase != Phase::Probing,
            Event::Packet { .. } => b.core.phase != Phase::Reading,
            Event::ReadFailed => b.core.phase != Phase::Reading,
            Event::Decoded(_) => b.core.phase != Phase::Decoding,
            Event::Clock { .. } => !(b.core.phase is Settling),
        },
    ensures
        b.after(ev).0 == b,
        b.after(ev).1 == Seq::<Effect>::empty(),
        b.samples_after(ev) == Seq::<i16>::empty(),
{
}

/// The frame of the packet just read is the one that is decoded. A report is an audio packet
/// exactly where all 64 bytes came, the first is 0xB1 and the third 0x39; then the next frame to
/// decode, at once or once there is a decoder, is bytes 3 to 59 of that very report. Nothing
/// else about the bridge changes.
pub proof fn law_packet_reaches_decoder(b: Bridge, n: usize, buf: [u8; 64])
    requires
        b.core.phase == Phase::Reading,
    ensures
        ({
            let audio = n == 64 && buf@[0] == 0xB1 && buf@[2] == 0x39;
            let c = b.after(Event::Packet { n, buf }).0;
            let d = c.after(Event::Decoder(true)).0;
            &&& audio && b.core.decoder ==> c.core.phase == Phase::Decoding
            &&& audio && !b.core.decoder ==> c.core.phase == Phase::LateDecoder && d.core.phase
                == Phase::Decoding
            &&& !audio ==> c.core.phase == Phase::Settling(false)
            &&& audio ==> forall|i: int|
                0 <= i < 57 ==> #[trigger] c.packet@.subrange(3, 60)[i] == buf@[3 + i]
                    && d.packet@.subrange(3, 60)[i] == buf@[3 + i]
            &&& c == (Bridge {
                core: Core { phase: c.core.phase, ..b.core },
                packet: if audio {
                    buf
                } else {
                    b.packet
                },
                ..b
            })
            &&& b.after(Event::Packet { n, buf }).1 == Seq::<Effect>::empty()
        }),
{
}

/// A frame that was decoded is counted, and its samples go out as its bytes give them, low byte
/// first; one that was not is counted as failed and brings no samples.
pub proof fn law_decoded_frame(b: Bridge, pcm_bytes: Option<Vec<u8>>)
    requires
        b.wf(),
        b.can_count(),
        b.core.phase == Phase::Decoding,
    ensures
        ({
            let ev = Event::Decoded(pcm_bytes);
            let c = b.after(ev).0;
            let out = b.samples_after(ev);
            &&& b.after(ev).1 == Seq::<Effect>::empty()
            &&& c == (Bridge { core: c.core, ..b })
            &&& match pcm_bytes {
                Some(p) => {
                    &&& c.core == (Core {
                        n_dec_ok: (b.core.n_dec_ok + 1) as u64,
                        fail_streak: 0,
                        phase: Phase::Settling(true),
                        ..b.core
                    })
                    &&& out.len() == p@.len() / 2
                    &&& forall|i: int|
                        0 <= i < out.len() ==> (#[trigger] out[i] + 65536) % 65536 == p@[2 * i]
                            + 256 * p@[2 * i + 1]
                },
                None => {
                    &&& out.len() == 0
                    &&& c.core.n_dec_fail == b.core.n_dec_fail + 1
                    &&& c.core.n_dec_ok == b.core.n_dec_ok
                    &&& c.core.n_pkts == b.core.n_pkts
                    &&& (b.core.fail_streak == 0 ==> c.core.phase == Phase::Settling(true)
                        && c.core.fail_streak == 1)
                    &&& (b.core.fail_streak == 1 ==> c.core.phase == Phase::Rebuilding
                        && c.core.fail_streak == 0)
                    &&& c.core == (Core {
                        n_dec_fail: c.core.n_dec_fail,
                        fail_streak: c.core.fail_streak,
                        phase: c.core.phase,
                        ..b.core
                    })
                },
            }
        }),
{
    if let Some(p) = pcm_bytes {
        let out = b.samples_after(Event::Decoded(pcm_bytes));
        assert forall|i: int| 0 <= i < out.len() implies (#[trigger] out[i] + 65536) % 65536
            == p@[2 * i] + 256 * p@[2 * i + 1] by {
            pcm::law_sample_value(p@[2 * i], p@[2 * i + 1]);
        }
    }
}

/// What the outcome of a decoder leads to, apart from the first one of a link.
pub proof fn law_later_decoders(b: Bridge, ok: bool)
    requires
        b.core.phase == Phase::LateDecoder || b.core.phase == Phase::Rebuilding,
    ensures
        ({
            let (c, e) = b.after(Event::Decoder(ok));
            if b.core.phase == Phase::LateDecoder {
                &&& c == (Bridge {
                    core: Core { decoder: ok || b.core.decoder, phase: c.core.phase, ..b.core },
                    ..b
                })
                &&& c.core.phase == (if ok {
                    Phase::Decoding
                } else {
                    Phase::Settling(true)
                })
                &&& e == seq![
                    Effect::Log(
                        if ok {
                            Notice::VoiceDetected
                        } else {
                            Notice::DecoderStartFailed
                        },
                    ),
                ]
            } else {
                &&& c == (Bridge {
                    core: Core { phase: Phase::Settling(true), ..b.core },
                    ..b
                })
                &&& e == seq![
                    Effect::Log(
                        if ok {
                            Notice::DecoderRebuilt
                        } else {
                            Notice::DecoderRebuildFailed
                        },
                    ),
                ]
            }
        }),
{
}

/// AI voice is switched when a link comes up, and on exactly where one of the two voice keys
/// gives voice: a link with a control interface is told so first, one without is told nothing.
pub proof fn law_ai_at_link(b: Bridge, c: Connected)
    requires
        b.core.phase is Connecting,
    ensures
        ({
            let e = b.after(Event::Linked(Some(c))).1;
            &&& c.control ==> e.len() > 0 && e[0] == Effect::SetAi(
                b.settings.ai_fwd || b.settings.ai_bwd,
            )
            &&& forall|i: int| 1 <= i < e.len() ==> !(#[trigger] e[i] is SetAi)
            &&& !c.control ==> e.len() == 0
            &&& c.control && b.settings.debug ==> e.len() == 2 && e[1] == Effect::Log(
                Notice::AiKeys(b.settings.ai_fwd, b.settings.ai_bwd),
            )
            &&& c.control && !b.settings.debug ==> e.len() == 1
            &&& b.after(Event::Linked(Some(c))).0.link == Some(c)
        }),
{
}

/// AI voice is switched on only for a link that comes up, and only where a voice key gives voice.
pub proof fn law_ai_on_only_at_link(b: Bridge, ev: Event)
    requires
        b.wf(),
        b.after(ev).1.contains(Effect::SetAi(true)),
    ensures
        b.core.phase is Connecting,
        ev matches Event::Linked(Some(c)) && c.control,
        b.settings.ai_fwd || b.settings.ai_bwd,
{
    let (c, e) = b.after(ev);
    lemma_closing_ai(b);
    let x = Effect::SetAi(true);
    let i = choose|i: int| 0 <= i < e.len() && e[i] == x;
    match (b.core.phase, ev) {
        (Phase::Settling(audio), Event::Clock { now, queue, callbacks }) => {
            lemma_clock_no_ai(b, audio, now, queue, callbacks);
        },
        (Phase::Fresh, Event::Start) => {
            lemma_unlinking_no_ai(b);
            assert(b.unlinking()[i] == x);
        },
        (Phase::Polling, Event::Poll { now, stop }) => {
            if i < b.closing().len() {
                assert(b.closing()[i] == x);
            }
        },
        (Phase::Probing, Event::Live(live)) => {
            lemma_unlinking_no_ai(b);
            let skip = e.len() - b.unlinking().len();
            if i >= skip {
                assert(b.unlinking()[i - skip] == x);
            }
        },
        (Phase::Reading, Event::ReadFailed) => {
            lemma_unlinking_no_ai(b);
            if i >= 1 {
                assert(b.unlinking()[i - 1] == x);
            }
        },
        (Phase::Connecting(why), Event::Linked(None)) => {
            if why == Why::Start {
                assert(b.closing()[i] == x);
            }
        },
        (Phase::Opening(why), Event::Decoder(ok)) => {
            if !ok && why == Why::Start && i >= 1 {
                assert(b.closing()[i - 1] == x);
            }
        },
        _ => {},
    }
}

/// Ending the use of hotkeys says nothing of AI voice.
proof fn lemma_unlinking_no_ai(b: Bridge)
    ensures
        forall|i: int| 0 <= i < b.unlinking().len() ==> !(#[trigger] b.unlinking()[i] is SetAi),
{
    let (f, w) = (VoiceKey::Forward, VoiceKey::Backward);
    lemma_ending_no_ai(b, f);
    lemma_ending_no_ai(b, w);
}

/// Ending the use of a hotkey says nothing of AI voice.
proof fn lemma_ending_no_ai(b: Bridge, k: VoiceKey)
    ensures
        forall|i: int| 0 <= i < b.ending(k).len() ==> !(#[trigger] b.ending(k)[i] is SetAi),
{
}

/// The end of a round says nothing of AI voice.
proof fn lemma_clock_no_ai(b: Bridge, audio: bool, now: u64, queue: usize, callbacks: usize)
    ensures
        ({
            let e = b.on_clock(audio, now, queue, callbacks).1;
            forall|i: int| 0 <= i < e.len() ==> !(#[trigger] e[i] is SetAi)
        }),
{
    reveal(Bridge::on_clock);
    let (b1, e1) = if audio {
        b.heard(now)
    } else {
        (b, Seq::empty())
    };
    let (b2, e2) = b1.reported(now, queue, callbacks);
    let (b3, e3) = b2.hushed(now);
    let (b4, e4) = b3.entered(now);
    assert(forall|i: int| 0 <= i < e1.len() ==> !(#[trigger] e1[i] is SetAi));
    assert(forall|i: int| 0 <= i < e2.len() ==> !(#[trigger] e2[i] is SetAi));
    if b2.silent(now) {
        lemma_ending_no_ai(b2, b2.core.engaged->0);
    }
    assert(forall|i: int| 0 <= i < e3.len() ==> !(#[trigger] e3[i] is SetAi));
    assert(forall|i: int| 0 <= i < e4.len() ==> !(#[trigger] e4[i] is SetAi));
}

/// The end of a round counts its packet where there was one, and takes its time; it leaves alone
/// everything that a round is not about.
pub proof fn law_round_counts(b: Bridge, audio: bool, now: u64, queue: usize, callbacks: usize)
    requires
        b.wf(),
        b.can_count(),
        b.core.phase == Phase::Settling(audio),
    ensures
        ({
            let c = b.after(Event::Clock { now, queue, callbacks }).0;
            &&& c.core.phase == Phase::Polling
            &&& c.core.n_pkts == b.core.n_pkts + if audio {
                1int
            } else {
                0int
            }
            &&& c.core.last_audio == if audio {
                now
            } else {
                b.core.last_audio
            }
            &&& audio ==> c.core.voice_ended_at is None && !c.core.auto_enter_sent
            &&& c.core.decoder == b.core.decoder
            &&& c.core.active == b.core.active
            &&& c.core.n_dec_ok == b.core.n_dec_ok
            &&& c.core.n_dec_fail == b.core.n_dec_fail
            &&& c.core.fail_streak == b.core.fail_streak
            &&& c.core.last_probe == b.core.last_probe
            &&& c.settings == b.settings
            &&& c.packet == b.packet
            &&& c.link == b.link
            &&& c.excluded == b.excluded
            &&& c.forward_name == b.forward_name
            &&& c.backward_name == b.backward_name
            &&& c.wired == b.wired
            &&& c.wireless == b.wireless
        }),
{
    reveal(Bridge::on_clock);
}

/// Once a second the counters are due. They are told where the debug log is on and there was a
/// packet, with the callbacks since the last time, and never sooner.
pub proof fn law_counters_told(b: Bridge, now: u64, queue: usize, callbacks: usize)
    requires
        b.wf(),
        b.core.phase == Phase::Settling(false),
    ensures
        ({
            let (c, e) = b.after(Event::Clock { now, queue, callbacks });
            let due = now >= b.core.last_count_log + 1_000_000_000;
            let told = due && b.settings.debug && b.core.n_pkts > 0;
            &&& c.core.last_count_log == if due {
                now
            } else {
                b.core.last_count_log
            }
            &&& c.core.last_cb_total == if told {
                callbacks
            } else {
                b.core.last_cb_total
            }
            &&& told ==> e.len() > 0 && (e[0] matches Effect::Report(s) && {
                &&& s.packets == b.core.n_pkts
                &&& s.decoded == b.core.n_dec_ok
                &&& s.failed == b.core.n_dec_fail
                &&& s.queue == queue
                &&& s.callbacks == callbacks
                &&& callbacks >= b.core.last_cb_total ==> s.callbacks_since == callbacks
                    - b.core.last_cb_total
                &&& callbacks < b.core.last_cb_total ==> s.callbacks_since == 0
                &&& now >= b.core.last_audio ==> s.idle == now - b.core.last_audio
                &&& now < b.core.last_audio ==> s.idle == 0
            })
            &&& !told ==> forall|i: int| 0 <= i < e.len() ==> !(#[trigger] e[i] is Report)
        }),
{
    reveal(Bridge::on_clock);
    let (b2, e2) = b.reported(now, queue, callbacks);
    let (b3, e3) = b2.hushed(now);
    let (b4, e4) = b3.entered(now);
    assert(Seq::<Effect>::empty() + e2 + e3 + e4 =~= e2 + e3 + e4);
    assert(forall|i: int| 0 <= i < e3.len() ==> !(#[trigger] e3[i] is Report));
    assert(forall|i: int| 0 <= i < e4.len() ==> !(#[trigger] e4[i] is Report));
    let told = e2.len() > 0;
    let e = e2 + e3 + e4;
    if told {
        assert(e[0] == e2[0]);
    } else {
        assert(e =~= e3 + e4);
    }
}

/// The end of a voice: a round without audio ends it exactly where the last packet is more than
/// 600 ms old. Then, where the automatic Enter is on, its time starts now, whatever the debug
/// log; a round that does not end a voice leaves that time alone.
pub proof fn law_voice_end_noted(b: Bridge, now: u64, queue: usize, callbacks: usize)
    requires
        b.wf(),
        b.core.phase == Phase::Settling(false),
    ensures
        ({
            let c = b.after(Event::Clock { now, queue, callbacks }).0;
            let over = b.core.engaged is Some && now > b.core.last_audio + 600_000_000;
            &&& over ==> c.core.engaged is None
            &&& over && b.settings.auto_enter ==> c.core.voice_ended_at == Some(now)
            &&& over && !b.settings.auto_enter ==> c.core.voice_ended_at is None
            &&& !over ==> c.core.engaged == b.core.engaged && c.core.voice_ended_at
                == b.core.voice_ended_at && c.forward == b.forward && c.backward == b.backward
        }),
{
    reveal(Bridge::on_clock);
}

/// The automatic Enter comes: in a round without audio, where no hotkey is engaged, Enter or
/// Ctrl+Enter, as configured, is pressed and released exactly where it is switched on, was not
/// sent yet, and the delay since the end of the voice is over. Else no key is pressed.
pub proof fn law_enter_comes(b: Bridge, now: u64, queue: usize, callbacks: usize)
    requires
        b.wf(),
        b.core.phase == Phase::Settling(false),
        b.core.engaged is None,
    ensures
        ({
            let (c, e) = b.after(Event::Clock { now, queue, callbacks });
            let due = b.settings.auto_enter && !b.core.auto_enter_sent && (
            b.core.voice_ended_at matches Some(end) && if now >= end {
                now - end >= b.settings.auto_enter_delay
            } else {
                b.settings.auto_enter_delay == 0
            });
            let enter = (0x1Cu8, false);
            let ctrl = (0x1Du8, false);
            &&& c.core.auto_enter_sent == (b.core.auto_enter_sent || due)
            &&& !due ==> strokes(e) == Seq::<Stroke>::empty()
            &&& due && !b.settings.ctrl_enter ==> strokes(e) == seq![
                key(enter, false),
                key(enter, true),
            ]
            &&& due && b.settings.ctrl_enter ==> strokes(e) == seq![
                key(ctrl, false),
                key(enter, false),
                key(enter, true),
                key(ctrl, true),
            ]
        }),
{
    reveal(Bridge::on_clock);
    let (b2, e2) = b.reported(now, queue, callbacks);
    let (b3, e3) = b2.hushed(now);
    let (b4, e4) = b3.entered(now);
    assert(e3 =~= Seq::<Effect>::empty());
    assert(Seq::<Effect>::empty() + e2 + e3 + e4 =~= e2 + e4);
    lemma_strokes_concat(e2, e4);
    lemma_strokes_of_others(e2);
    lemma_entered_strokes(b3, now);
    assert(strokes(e2) + strokes(e4) =~= strokes(e4));
}

/// The strokes of the automatic Enter.
proof fn lemma_entered_strokes(b: Bridge, now: u64)
    ensures
        strokes(b.entered(now).1) == (if !b.enter_due(now) {
            Seq::empty()
        } else if b.settings.ctrl_enter {
            hotkey::ctrl_enter_strokes()
        } else {
            hotkey::enter_strokes()
        }),
        hotkey::enter_strokes() == seq![key((0x1C, false), false), key((0x1C, false), true)],
        hotkey::ctrl_enter_strokes() == seq![
            key((0x1D, false), false),
            key((0x1C, false), false),
            key((0x1C, false), true),
            key((0x1D, false), true),
        ],
{
    let e = b.entered(now).1;
    if b.enter_due(now) {
        let s = if b.settings.ctrl_enter {
            hotkey::ctrl_enter_strokes()
        } else {
            hotkey::enter_strokes()
        };
        let log = if b.settings.debug {
            seq![Effect::Log(Notice::AutoEnter)]
        } else {
            Seq::empty()
        };
        lemma_strokes_of_others(log);
        lemma_strokes_concat(keys(Backend::SendInput, s), log);
        lemma_strokes_of_keys(Backend::SendInput, s);
        assert(strokes(e) =~= s);
    }
    assert(hotkey::enter_strokes() =~= seq![
        key((0x1C, false), false),
        key((0x1C, false), true),
    ]);
    assert(hotkey::ctrl_enter_strokes() =~= seq![
        key((0x1D, false), false),
        key((0x1C, false), false),
        key((0x1C, false), true),
        key((0x1D, false), true),
    ]);
}

/// Speech works the hotkey of the voice key that is engaged, or else of the one that was pressed
/// last. A hotkey that is held goes down once, key by key, and stays down; one that is tapped
/// goes down and up once when the voice starts. Without a hotkey nothing is pressed, and the
/// other key's hotkey is left alone.
pub proof fn law_speech_works_hotkey(b: Bridge, now: u64, queue: usize, callbacks: usize)
    requires
        b.wf(),
        b.core.phase == Phase::Settling(true),
    ensures
        ({
            let (c, e) = b.after(Event::Clock { now, queue, callbacks });
            let k = match b.core.engaged {
                Some(k) => k,
                None => b.core.active,
            };
            let fwd = k == VoiceKey::Forward;
            let own = if fwd {
                b.forward
            } else {
                b.backward
            };
            let tap = if fwd {
                b.settings.typeless_fwd
            } else {
                b.settings.typeless_bwd
            };
            let own_after = if fwd {
                c.forward
            } else {
                c.backward
            };
            &&& (if fwd {
                c.backward == b.backward
            } else {
                c.forward == b.forward
            })
            &&& match own {
                None => c.core.engaged is None && own_after is None && strokes(e) == Seq::<
                    Stroke,
                >::empty(),
                Some(h) => {
                    &&& c.core.engaged == Some(k)
                    &&& own_after matches Some(g) && g.scans == h.scans && g.backend == h.backend
                        && g.down == !tap
                    &&& !tap && !h.down ==> strokes(e) == all_down(h.scans@)
                    &&& !tap && h.down ==> strokes(e) == Seq::<Stroke>::empty()
                    &&& tap && b.core.engaged is None ==> strokes(e) == all_down(h.scans@) + all_up(
                        h.scans@,
                    )
                    &&& tap && b.core.engaged is Some ==> strokes(e) == Seq::<Stroke>::empty()
                },
            }
        }),
{
    reveal(Bridge::on_clock);
    let (b1, e1) = b.heard(now);
    let (b2, e2) = b1.reported(now, queue, callbacks);
    let (b3, e3) = b2.hushed(now);
    let (b4, e4) = b3.entered(now);
    assert(e3 =~= Seq::<Effect>::empty());
    assert(e4 =~= Seq::<Effect>::empty());
    assert(e1 + e2 + e3 + e4 =~= e1 + e2);
    lemma_strokes_concat(e1, e2);
    lemma_strokes_of_others(e2);
    assert(strokes(e1) + strokes(e2) =~= strokes(e1));
    lemma_heard_strokes(b, now);
}

/// The strokes of a packet.
proof fn lemma_heard_strokes(b: Bridge, now: u64)
    requires
        b.wf(),
    ensures
        ({
            let k = b.speaking();
            let s = strokes(b.heard(now).1);
            match b.binding(k) {
                None => s == Seq::<Stroke>::empty(),
                Some(h) => s == (if !b.taps(k) {
                    if h.down {
                        Seq::empty()
                    } else {
                        all_down(h.scans@)
                    }
                } else if b.core.engaged is None {
                    all_down(h.scans@) + all_up(h.scans@)
                } else {
                    Seq::empty()
                }),
            }
        }),
{
    let k = b.speaking();
    let e = b.heard(now).1;
    if let Some(h) = b.binding(k) {
        let log = if b.core.engaged is None {
            seq![Effect::Log(Notice::HotkeyEngaged(k))]
        } else {
            Seq::empty()
        };
        lemma_strokes_of_others(log);
        assert(hotkey::down_strokes(h.scans@) =~= all_down(h.scans@));
        assert(hotkey::up_strokes(h.scans@) =~= all_up(h.scans@));
        if !b.taps(k) {
            lemma_strokes_concat(log, keys(h.backend, h.press_strokes()));
            lemma_strokes_of_keys(h.backend, h.press_strokes());
            assert(strokes(e) =~= h.press_strokes());
        } else if b.core.engaged is None {
            lemma_strokes_concat(log, tapping(h));
            lemma_strokes_of_tap(h);
            assert(strokes(e) =~= all_down(h.scans@) + all_up(h.scans@));
        } else {
            assert(e == log);
        }
    }
}

/// The end of a voice by silence works its hotkey: one that was held goes up, key by key in
/// reverse, one that is tapped goes down and up once more. The automatic Enter follows at once
/// only where it has no delay.
pub proof fn law_silence_works_hotkey(b: Bridge, now: u64, queue: usize, callbacks: usize)
    requires
        b.wf(),
        b.core.phase == Phase::Settling(false),
        b.core.engaged is Some,
        now > b.core.last_audio + 600_000_000,
    ensures
        ({
            let (c, e) = b.after(Event::Clock { now, queue, callbacks });
            let fwd = b.core.engaged == Some(VoiceKey::Forward);
            let h = (if fwd {
                b.forward
            } else {
                b.backward
            })->0;
            let tap = if fwd {
                b.settings.typeless_fwd
            } else {
                b.settings.typeless_bwd
            };
            let end = if tap {
                all_down(h.scans@) + all_up(h.scans@)
            } else {
                all_up(h.scans@)
            };
            let at_once = b.settings.auto_enter && b.settings.auto_enter_delay == 0
                && !b.core.auto_enter_sent;
            &&& !at_once ==> strokes(e) == end
            &&& at_once && !b.settings.ctrl_enter ==> strokes(e) == end + seq![
                key((0x1C, false), false),
                key((0x1C, false), true),
            ]
            &&& at_once && b.settings.ctrl_enter ==> strokes(e) == end + seq![
                key((0x1D, false), false),
                key((0x1C, false), false),
                key((0x1C, false), true),
                key((0x1D, false), true),
            ]
            &&& c.core.auto_enter_sent == (b.core.auto_enter_sent || at_once)
        }),
{
    let k = b.core.engaged->0;
    let b3 = b.reported(now, queue, callbacks).0.hushed(now).0;
    lemma_silence(b, now, queue, callbacks);
    lemma_ending_strokes(b, k);
    lemma_entered_strokes(b3, now);
    let s = strokes(b.ending(k));
    assert(s + Seq::<Stroke>::empty() =~= s);
}

/// What a round that ends a voice injects: the end of its hotkey's use, and the automatic Enter
/// where it has no delay.
proof fn lemma_silence(b: Bridge, now: u64, queue: usize, callbacks: usize)
    requires
        b.wf(),
        b.core.phase == Phase::Settling(false),
        b.core.engaged is Some,
        now > b.core.last_audio + 600_000_000,
    ensures
        ({
            let (c, e) = b.after(Event::Clock { now, queue, callbacks });
            let b3 = b.reported(now, queue, callbacks).0.hushed(now).0;
            &&& strokes(e) == strokes(b.ending(b.core.engaged->0)) + strokes(b3.entered(now).1)
            &&& b3.settings == b.settings
            &&& b3.enter_due(now) == (b.settings.auto_enter && b.settings.auto_enter_delay == 0
                && !b.core.auto_enter_sent)
            &&& c.core.auto_enter_sent == (b.core.auto_enter_sent || b3.enter_due(now))
        }),
{
    lemma_quiet_parts(b, now, queue, callbacks);
    let (b2, e2) = b.reported(now, queue, callbacks);
    let (b3, e3) = b2.hushed(now);
    let e4 = b3.entered(now).1;
    lemma_hush_strokes(b2, now);
    lemma_strokes_concat(e2, e3 + e4);
    lemma_strokes_of_others(e2);
    lemma_strokes_concat(e3, e4);
    assert(strokes(e2 + (e3 + e4)) =~= strokes(e3) + strokes(e4));
}

/// The parts of a round that ends a voice.
#[verifier::spinoff_prover]
proof fn lemma_quiet_parts(b: Bridge, now: u64, queue: usize, callbacks: usize)
    requires
        b.wf(),
        b.core.phase == Phase::Settling(false),
        b.core.engaged is Some,
        now > b.core.last_audio + 600_000_000,
    ensures
        ({
            let (c, e) = b.after(Event::Clock { now, queue, callbacks });
            let (b2, e2) = b.reported(now, queue, callbacks);
            let (b3, e3) = b2.hushed(now);
            let (b4, e4) = b3.entered(now);
            &&& e == e2 + (e3 + e4)
            &&& b2.silent(now)
            &&& b2.core.engaged == b.core.engaged
            &&& b2.ending(b.core.engaged->0) == b.ending(b.core.engaged->0)
            &&& forall|i: int| 0 <= i < e2.len() ==> !(#[trigger] e2[i] is Key)
            &&& b3.settings == b.settings
            &&& b3.enter_due(now) == (b.settings.auto_enter && b.settings.auto_enter_delay == 0
                && !b.core.auto_enter_sent)
            &&& c.core.auto_enter_sent == (b.core.auto_enter_sent || b3.enter_due(now))
        }),
{
    reveal(Bridge::on_clock);
    let (b2, e2) = b.reported(now, queue, callbacks);
    let (b3, e3) = b2.hushed(now);
    let e4 = b3.entered(now).1;
    assert(Seq::<Effect>::empty() + e2 + e3 + e4 =~= e2 + (e3 + e4));
}

/// The strokes of a voice that ends.
#[verifier::spinoff_prover]
proof fn lemma_hush_strokes(b: Bridge, now: u64)
    requires
        b.core.engaged is Some,
        b.silent(now),
    ensures
        strokes(b.hushed(now).1) == strokes(b.ending(b.core.engaged->0)),
{
    let k = b.core.engaged->0;
    let e = b.hushed(now).1;
    let log = e.skip(b.ending(k).len() as int);
    assert(e =~= b.ending(k) + log);
    lemma_strokes_of_others(log);
    lemma_strokes_concat(b.ending(k), log);
    assert(strokes(e) =~= strokes(b.ending(k)));
}

/// The strokes that end the use of a hotkey.
proof fn lemma_ending_strokes(b: Bridge, k: VoiceKey)
    requires
        b.wf(),
    ensures
        ({
            let s = strokes(b.ending(k));
            match b.binding(k) {
                None => s == Seq::<Stroke>::empty(),
                Some(h) => s == (if b.core.engaged != Some(k) {
                    Seq::empty()
                } else if b.taps(k) {
                    all_down(h.scans@) + all_up(h.scans@)
                } else {
                    all_up(h.scans@)
                }),
            }
        }),
{
    if let Some(h) = b.binding(k) {
        assert(hotkey::down_strokes(h.scans@) =~= all_down(h.scans@));
        assert(hotkey::up_strokes(h.scans@) =~= all_up(h.scans@));
        lemma_strokes_of_keys(h.backend, h.release_strokes());
        lemma_strokes_of_tap(h);
    }
}

/// A cut voice ends as one by silence does: where a bridge loses its link, the hotkey of the
/// engaged key goes up, or is tapped once more; where none is engaged, no key moves.
pub proof fn law_cut_works_hotkey(b: Bridge)
    requires
        b.wf(),
    ensures
        ({
            let s = strokes(b.unlinking());
            &&& strokes(b.closing()) == s
            &&& b.core.engaged is None ==> s == Seq::<Stroke>::empty()
            &&& b.core.engaged == Some(VoiceKey::Forward) ==> s == (if b.settings.typeless_fwd {
                all_down(b.forward->0.scans@) + all_up(b.forward->0.scans@)
            } else {
                all_up(b.forward->0.scans@)
            })
            &&& b.core.engaged == Some(VoiceKey::Backward) ==> s == (if b.settings.typeless_bwd {
                all_down(b.backward->0.scans@) + all_up(b.backward->0.scans@)
            } else {
                all_up(b.backward->0.scans@)
            })
        }),
{
    let (f, w) = (VoiceKey::Forward, VoiceKey::Backward);
    lemma_strokes_concat(b.ending(f), b.ending(w));
    lemma_ending_strokes(b, f);
    lemma_ending_strokes(b, w);
    let ai = if b.link is Some && b.link->0.control {
        seq![Effect::SetAi(false)]
    } else {
        Seq::empty()
    };
    lemma_strokes_of_others(ai);
    lemma_strokes_concat(ai, b.unlinking());
    assert(strokes(b.closing()) =~= strokes(b.unlinking()));
    if b.core.engaged == Some(f) {
        assert(strokes(b.unlinking()) =~= strokes(b.ending(f)));
    } else {
        assert(strokes(b.unlinking()) =~= strokes(b.ending(w)));
    }
}

/// What speech does, stroke by stroke: a voice that starts is told of, then its hotkey goes down
/// through its own driver; one that is tapped goes up again after a pause of 30 ms. Nothing but
/// the counters can follow.
pub proof fn law_speech_effects(b: Bridge, now: u64, queue: usize, callbacks: usize)
    requires
        b.wf(),
        b.core.phase == Phase::Settling(true),
    ensures
        ({
            let e = b.after(Event::Clock { now, queue, callbacks }).1;
            let fresh = b.core.engaged is None;
            let k = if fresh {
                b.core.active
            } else {
                b.core.engaged->0
            };
            let own = if k == VoiceKey::Forward {
                b.forward
            } else {
                b.backward
            };
            let tap = if k == VoiceKey::Forward {
                b.settings.typeless_fwd
            } else {
                b.settings.typeless_bwd
            };
            own matches Some(h) ==> {
                let n = h.scans@.len() as int;
                &&& fresh ==> e.len() > n && e[0] == Effect::Log(Notice::HotkeyEngaged(k))
                &&& fresh ==> forall|i: int|
                    0 <= i < n ==> #[trigger] e[1 + i] == Effect::Key(
                        h.backend,
                        key(h.scans@[i], false),
                    )
                &&& fresh && !tap ==> e.len() <= n + 2
                &&& fresh && tap ==> 2 * n + 2 <= e.len() <= 2 * n + 3 && e[n + 1]
                    == Effect::Pause(30) && forall|i: int|
                    0 <= i < n ==> #[trigger] e[n + 2 + i] == Effect::Key(
                        h.backend,
                        key(h.scans@[n - 1 - i], true),
                    )
                &&& !fresh ==> e.len() <= 1
            }
        }),
{
    reveal(Bridge::on_clock);
    let (b1, e1) = b.heard(now);
    let (b2, e2) = b1.reported(now, queue, callbacks);
    let (b3, e3) = b2.hushed(now);
    let (b4, e4) = b3.entered(now);
    assert(e3 =~= Seq::<Effect>::empty());
    assert(e4 =~= Seq::<Effect>::empty());
    let e = e1 + e2 + e3 + e4;
    assert(e =~= e1 + e2);
    let k = b.speaking();
    if let Some(h) = b.binding(k) {
        if b.core.engaged is None {
            if b.taps(k) {
                let t = tapping(h);
                law_tap_shape(h);
                assert(e1 =~= seq![Effect::Log(Notice::HotkeyEngaged(k))] + t);
                let n = h.scans@.len() as int;
                assert forall|i: int| 0 <= i < n implies #[trigger] e[1 + i] == Effect::Key(
                    h.backend,
                    key(h.scans@[i], false),
                ) by {
                    assert(e[1 + i] == t[i]);
                }
                assert(e[n + 1] == t[n]);
                assert forall|i: int| 0 <= i < n implies #[trigger] e[n + 2 + i] == Effect::Key(
                    h.backend,
                    key(h.scans@[n - 1 - i], true),
                ) by {
                    assert(e[n + 2 + i] == t[n + 1 + i]);
                }
            } else {
                let d = keys(h.backend, hotkey::down_strokes(h.scans@));
                assert(e1 =~= seq![Effect::Log(Notice::HotkeyEngaged(k))] + d);
                let n = h.scans@.len() as int;
                assert forall|i: int| 0 <= i < n implies #[trigger] e[1 + i] == Effect::Key(
                    h.backend,
                    key(h.scans@[i], false),
                ) by {
                    assert(e[1 + i] == d[i]);
                }
            }
        } else {
            assert(e1 =~= Seq::<Effect>::empty());
        }
    }
}

/// A tap, stroke by stroke: all keys down, a pause of 30 ms, all keys up in reverse, through the
/// hotkey's own driver.
pub proof fn law_tap_shape(h: HotKey)
    ensures
        ({
            let n = h.scans@.len() as int;
            let t = tapping(h);
            &&& t.len() == 2 * n + 1
            &&& t[n] == Effect::Pause(30)
            &&& forall|i: int|
                0 <= i < n ==> #[trigger] t[i] == Effect::Key(h.backend, key(h.scans@[i], false))
            &&& forall|i: int|
                0 <= i < n ==> #[trigger] t[n + 1 + i] == Effect::Key(
                    h.backend,
                    key(h.scans@[n - 1 - i], true),
                )
        }),
{
}

/// The strokes that end a voice go through its hotkey's own driver; the automatic Enter goes
/// through the system's.
pub proof fn law_strokes_take_their_driver(b: Bridge, now: u64, queue: usize, callbacks: usize)
    requires
        b.wf(),
        b.core.phase == Phase::Settling(false),
    ensures
        ({
            let e = b.after(Event::Clock { now, queue, callbacks }).1;
            forall|i: int|
                0 <= i < e.len() ==> (#[trigger] e[i] matches Effect::Key(driver, s) ==> {
                    let enter = s.scancode == 0x1C || s.scancode == 0x1D && !s.extended;
                    match b.core.engaged {
                        None => driver == Backend::SendInput,
                        Some(VoiceKey::Forward) => driver == b.forward->0.backend || (driver
                            == Backend::SendInput && enter && b.settings.auto_enter_delay == 0),
                        Some(VoiceKey::Backward) => driver == b.backward->0.backend || (driver
                            == Backend::SendInput && enter && b.settings.auto_enter_delay == 0),
                    }
                })
        }),
{
    reveal(Bridge::on_clock);
    let (b2, e2) = b.reported(now, queue, callbacks);
    let (b3, e3) = b2.hushed(now);
    let (b4, e4) = b3.entered(now);
    let e = Seq::<Effect>::empty() + e2 + e3 + e4;
    assert(e =~= e2 + e3 + e4);
    lemma_entered_strokes(b3, now);
    assert(forall|i: int| 0 <= i < e2.len() ==> !(#[trigger] e2[i] is Key));
    if b.core.engaged is Some {
        let k = b.core.engaged->0;
        lemma_ending_driver(b2, k);
        assert(b2.binding(k) == b.binding(k));
    }
    assert forall|i: int| 0 <= i < e4.len() implies (#[trigger] e4[i] matches Effect::Key(
        driver,
        s,
    ) ==> driver == Backend::SendInput && (s.scancode == 0x1C || s.scancode == 0x1D && !s.extended)
        && (b.core.engaged is Some ==> b.settings.auto_enter_delay == 0)) by {}
    assert forall|i: int| 0 <= i < e.len() implies (#[trigger] e[i] matches Effect::Key(
        driver,
        s,
    ) ==> {
        let enter = s.scancode == 0x1C || s.scancode == 0x1D && !s.extended;
        match b.core.engaged {
            None => driver == Backend::SendInput,
            Some(VoiceKey::Forward) => driver == b.forward->0.backend || (driver
                == Backend::SendInput && enter && b.settings.auto_enter_delay == 0),
            Some(VoiceKey::Backward) => driver == b.backward->0.backend || (driver
                == Backend::SendInput && enter && b.settings.auto_enter_delay == 0),
        }
    }) by {
        if i < e2.len() {
            assert(e[i] == e2[i]);
        } else if i < e2.len() + e3.len() {
            assert(e[i] == e3[i - e2.len()]);
        } else {
            assert(e[i] == e4[i - e2.len() - e3.len()]);
        }
    }
}

/// Ending the use of a hotkey takes its own driver.
proof fn lemma_ending_driver(b: Bridge, k: VoiceKey)
    ensures
        forall|i: int|
            0 <= i < b.ending(k).len() ==> (#[trigger] b.ending(k)[i] matches Effect::Key(d, _)
                ==> d == b.binding(k)->0.backend),
        b.binding(k) is None ==> b.ending(k).len() == 0,
{
}

/// The debug log changes nothing but what is told: two bridges that differ in it alone inject
/// the same strokes, hand out the same samples, switch AI voice alike, and differ in nothing
/// else afterwards than in the callbacks at the last report.
pub proof fn law_debug_only_tells(b: Bridge, d: Bridge, ev: Event)
    requires
        b.wf(),
        d == (Bridge { settings: Settings { debug: d.settings.debug, ..b.settings }, ..b }),
    ensures
        strokes(d.after(ev).1) == strokes(b.after(ev).1),
        d.samples_after(ev) == b.samples_after(ev),
        d.after(ev).0 == (Bridge {
            core: Core {
                last_cb_total: d.after(ev).0.core.last_cb_total,
                ..b.after(ev).0.core
            },
            settings: d.settings,
            ..b.after(ev).0
        }),
{
    match (b.core.phase, ev) {
        (Phase::Settling(audio), Event::Clock { now, queue, callbacks }) => {
            reveal(twins);
            lemma_debug_clock(b, d, audio, now, queue, callbacks);
        },
        (Phase::Connecting(why), Event::Linked(Some(c))) => {
            lemma_strokes_of_others(b.after(ev).1);
            lemma_strokes_of_others(d.after(ev).1);
        },
        (Phase::Connecting(why), Event::Linked(None)) => {
            lemma_debug_unlinking(b, d);
            assert(d.after(ev).1 == b.after(ev).1);
        },
        (Phase::Opening(why), Event::Decoder(ok)) => {
            lemma_debug_unlinking(b, d);
            assert(d.after(ev).1 == b.after(ev).1);
        },
        (Phase::Polling, Event::Poll { now, stop }) => {
            lemma_debug_unlinking(b, d);
            assert(d.after(ev).1 == b.after(ev).1);
        },
        (Phase::Probing, Event::Live(live)) => {
            lemma_debug_unlinking(b, d);
            assert(d.after(ev).1 == b.after(ev).1);
        },
        (Phase::Reading, Event::ReadFailed) => {
            lemma_debug_unlinking(b, d);
            assert(d.after(ev).1 == b.after(ev).1);
        },
        (Phase::Fresh, Event::Start) => {
            lemma_debug_unlinking(b, d);
        },
        _ => {},
    }
}

/// The debug log does not matter to what closes a link.
proof fn lemma_debug_unlinking(b: Bridge, d: Bridge)
    requires
        d == (Bridge { settings: Settings { debug: d.settings.debug, ..b.settings }, ..b }),
    ensures
        d.unlinking() == b.unlinking(),
        d.closing() == b.closing(),
{
    let (f, w) = (VoiceKey::Forward, VoiceKey::Backward);
    assert(d.ending(f) == b.ending(f));
    assert(d.ending(w) == b.ending(w));
}

/// The bridge that `d` has to be where it differs from `b` in the debug log alone.
#[verifier::opaque]
spec fn twins(b: Bridge, d: Bridge) -> bool {
    d == (Bridge {
        core: Core { last_cb_total: d.core.last_cb_total, ..b.core },
        settings: Settings { debug: d.settings.debug, ..b.settings },
        ..b
    })
}

proof fn lemma_debug_heard(b: Bridge, d: Bridge, now: u64)
    requires
        twins(b, d),
    ensures
        twins(b.heard(now).0, d.heard(now).0),
        d.heard(now).0.settings == d.settings,
        d.heard(now).1 == b.heard(now).1,
{
    reveal(twins);
    assert(d.speaking() == b.speaking());
    assert(d.binding(b.speaking()) == b.binding(b.speaking()));
    assert(d.taps(b.speaking()) == b.taps(b.speaking()));
}

proof fn lemma_debug_reported(b: Bridge, d: Bridge, now: u64, queue: usize, callbacks: usize)
    requires
        twins(b, d),
    ensures
        twins(b.reported(now, queue, callbacks).0, d.reported(now, queue, callbacks).0),
        strokes(b.reported(now, queue, callbacks).1) == Seq::<Stroke>::empty(),
        strokes(d.reported(now, queue, callbacks).1) == Seq::<Stroke>::empty(),
        d.reported(now, queue, callbacks).0.settings == d.settings,
{
    reveal(twins);
    lemma_strokes_of_others(b.reported(now, queue, callbacks).1);
    lemma_strokes_of_others(d.reported(now, queue, callbacks).1);
}

proof fn lemma_debug_hushed(b: Bridge, d: Bridge, now: u64)
    requires
        twins(b, d),
    ensures
        twins(b.hushed(now).0, d.hushed(now).0),
        d.hushed(now).0.settings == d.settings,
        strokes(d.hushed(now).1) == strokes(b.hushed(now).1),
{
    reveal(twins);
    assert(d.silent(now) == b.silent(now));
    if b.silent(now) {
        let k = b.core.engaged->0;
        assert(d.binding(k) == b.binding(k));
        assert(d.ending(k) == b.ending(k));
        let n = b.ending(k).len() as int;
        let x = b.hushed(now).1.skip(n);
        let y = d.hushed(now).1.skip(n);
        assert(b.hushed(now).1 =~= b.ending(k) + x);
        assert(d.hushed(now).1 =~= b.ending(k) + y);
        lemma_strokes_of_others(x);
        lemma_strokes_of_others(y);
        lemma_strokes_concat(b.ending(k), x);
        lemma_strokes_concat(b.ending(k), y);
    }
}

proof fn lemma_debug_entered(b: Bridge, d: Bridge, now: u64)
    requires
        twins(b, d),
    ensures
        twins(b.entered(now).0, d.entered(now).0),
        d.entered(now).0.settings == d.settings,
        strokes(d.entered(now).1) == strokes(b.entered(now).1),
{
    reveal(twins);
    assert(d.enter_due(now) == b.enter_due(now));
    lemma_entered_strokes(b, now);
    lemma_entered_strokes(d, now);
}

proof fn lemma_debug_clock(
    b: Bridge,
    d: Bridge,
    audio: bool,
    now: u64,
    queue: usize,
    callbacks: usize,
)
    requires
        twins(b, d),
    ensures
        ({
            let (x, e) = b.on_clock(audio, now, queue, callbacks);
            let (y, f) = d.on_clock(audio, now, queue, callbacks);
            twins(x, y) && strokes(e) == strokes(f) && y.settings == d.settings
        }),
{
    reveal(Bridge::on_clock);
    let (b1, e1) = if audio {
        b.heard(now)
    } else {
        (b, Seq::empty())
    };
    let (d1, f1) = if audio {
        d.heard(now)
    } else {
        (d, Seq::empty())
    };
    if audio {
        lemma_debug_heard(b, d, now);
    }
    let (b2, e2) = b1.reported(now, queue, callbacks);
    let (d2, f2) = d1.reported(now, queue, callbacks);
    lemma_debug_reported(b1, d1, now, queue, callbacks);
    let (b3, e3) = b2.hushed(now);
    let (d3, f3) = d2.hushed(now);
    lemma_debug_hushed(b2, d2, now);
    let (b4, e4) = b3.entered(now);
    let (d4, f4) = d3.entered(now);
    lemma_debug_entered(b3, d3, now);
    assert(twins(b4.in_phase(Phase::Polling), d4.in_phase(Phase::Polling))) by {
        reveal(twins);
    }
    lemma_strokes_concat(e1 + e2 + e3, e4);
    lemma_strokes_concat(e1 + e2, e3);
    lemma_strokes_concat(e1, e2);
    lemma_strokes_concat(f1 + f2 + f3, f4);
    lemma_strokes_concat(f1 + f2, f3);
    lemma_strokes_concat(f1, f2);
}

/// How a round starts: a stop ends the bridge; else the links are probed once 1.5 s have passed
/// since the last time; else a link is read from, and without one the bridge waits 200 ms.
pub proof fn law_round_starts(b: Bridge, now: u64)
    requires
        b.core.phase == Phase::Polling,
    ensures
        ({
            let (c, e) = b.after(Event::Poll { now, stop: false });
            let probe = now >= b.core.last_probe + 1_500_000_000;
            &&& c == (Bridge {
                core: Core {
                    phase: if probe {
                        Phase::Probing
                    } else if b.link is Some {
                        Phase::Reading
                    } else {
                        Phase::Polling
                    },
                    last_probe: if probe {
                        now
                    } else {
                        b.core.last_probe
                    },
                    ..b.core
                },
                ..b
            })
            &&& e == (if !probe && b.link is None {
                seq![Effect::Pause(200)]
            } else {
                Seq::empty()
            })
        }),
{
}

/// What leads to another link: the start, a link that answers to another path than the one in
/// use, no link that answers, and a failed read. Only a failed read leaves the path of the old
/// link out of the search. Hotkeys are let go, and neither link nor decoder is left.
pub proof fn law_search_starts(b: Bridge, ev: Event)
    requires
        b.wf(),
        !(b.core.phase is Connecting),
        b.after(ev).0.core.phase is Connecting,
    ensures
        ({
            let (c, e) = b.after(ev);
            &&& c.link is None
            &&& !c.core.decoder
            &&& c.core.engaged is None
            &&& (c.forward matches Some(h) ==> !h.down)
            &&& (c.backward matches Some(h) ==> !h.down)
            &&& (c.forward is Some == b.forward is Some)
            &&& (c.backward is Some == b.backward is Some)
            &&& c.core == (Core {
                phase: c.core.phase,
                decoder: false,
                engaged: None,
                ..b.core
            })
            &&& match ev {
                Event::Start => b.core.phase == Phase::Fresh && c.core.phase == Phase::Connecting(
                    Why::Start,
                ) && c.excluded is None,
                Event::Live(None) => {
                    &&& b.core.phase == Phase::Probing
                    &&& c.core.phase == Phase::Connecting(Why::Lost)
                    &&& c.excluded is None
                    &&& b.link is Some ==> e.len() > 0 && e[0] == Effect::Log(Notice::Disconnected)
                    &&& b.link is None ==> forall|i: int|
                        0 <= i < e.len() ==> !(#[trigger] e[i] is Log)
                },
                Event::Live(Some(d)) => {
                    &&& b.core.phase == Phase::Probing
                    &&& (b.link matches Some(l) ==> l.path@ != d.path@)
                    &&& c.core.phase == Phase::Connecting(Why::Switch)
                    &&& c.excluded is None
                    &&& e.len() > 0
                    &&& e[0] == Effect::Log(
                        Notice::Switching(
                            hid::link_of(d.product_string@, b.wired@, b.wireless@, d.product_id),
                        ),
                    )
                },
                Event::ReadFailed => {
                    &&& b.core.phase == Phase::Reading
                    &&& c.core.phase == Phase::Connecting(Why::ReadError)
                    &&& c.excluded == Some(b.link->0.path)
                    &&& e.len() > 0
                    &&& e[0] == Effect::Log(Notice::LinkLost)
                },
                _ => false,
            }
        }),
{
    let (c, e) = b.after(ev);
    if let (Phase::Settling(audio), Event::Clock { now, queue, callbacks }) = (b.core.phase, ev) {
        lemma_clock_polls(b, audio, now, queue, callbacks);
    }
    if let (Phase::Probing, Event::Live(None)) = (b.core.phase, ev) {
        if b.link is None {
            assert(e =~= b.unlinking());
            lemma_unlinking_no_log(b);
        }
    }
}

/// Ending the use of hotkeys tells nothing.
proof fn lemma_unlinking_no_log(b: Bridge)
    ensures
        forall|i: int| 0 <= i < b.unlinking().len() ==> !(#[trigger] b.unlinking()[i] is Log),
{
    let (f, w) = (VoiceKey::Forward, VoiceKey::Backward);
    assert(forall|i: int| 0 <= i < b.ending(f).len() ==> !(#[trigger] b.ending(f)[i] is Log));
    assert(forall|i: int| 0 <= i < b.ending(w).len() ==> !(#[trigger] b.ending(w)[i] is Log));
}

/// A search starts whenever it has to: where the probe finds no link or another one, where a read
/// fails, and at the start; where the probe finds the link in use, it is read on.
pub proof fn law_search_owed(b: Bridge, live: Option<AjazzDevice>)
    ensures
        b.core.phase == Phase::Fresh ==> b.after(Event::Start).0.core.phase is Connecting,
        b.core.phase == Phase::Reading ==> b.after(Event::ReadFailed).0.core.phase is Connecting,
        b.core.phase == Phase::Probing ==> ({
            let (c, e) = b.after(Event::Live(live));
            if live is Some && b.link is Some && b.link->0.path@ == live->0.path@ {
                c == (Bridge { core: Core { phase: Phase::Reading, ..b.core }, ..b }) && e
                    == Seq::<Effect>::empty()
            } else {
                c.core.phase is Connecting
            }
        }),
{
}

/// How a search ends. A link that is found gets a decoder first. With it the bridge goes on: it
/// tells of the link by its kind, and reads at once only where the mouse had been lost. Where
/// there is no link or no decoder, the bridge fails at its start and tries again later else,
/// after 300 ms for a switch, which is told of, and 500 ms else.
pub proof fn law_search_ends(b: Bridge, why: Why, found: Option<Connected>, ok: bool)
    requires
        b.wf(),
    ensures
        b.core.phase == Phase::Connecting(why) ==> ({
            let (c, e) = b.after(Event::Linked(found));
            match found {
                Some(l) => c == (Bridge {
                    core: Core { phase: Phase::Opening(why), ..b.core },
                    link: Some(l),
                    ..b
                }),
                None => if why == Why::Start {
                    c.core.phase == Phase::Failed && c.link is None && e == Seq::<Effect>::empty()
                } else {
                    c == (Bridge { core: Core { phase: Phase::Polling, ..b.core }, ..b }) && e
                        == if why == Why::Switch {
                        seq![Effect::Log(Notice::SwitchFailed), Effect::Pause(300)]
                    } else {
                        seq![Effect::Pause(500)]
                    }
                },
            }
        }),
        b.core.phase == Phase::Opening(why) ==> ({
            let (c, e) = b.after(Event::Decoder(ok));
            let l = b.link->0;
            let kind = hid::link_of(l.product_string@, b.wired@, b.wireless@, l.pid);
            if ok {
                &&& c == (Bridge {
                    core: Core {
                        phase: if why == Why::Lost {
                            Phase::Reading
                        } else {
                            Phase::Polling
                        },
                        decoder: true,
                        ..b.core
                    },
                    ..b
                })
                &&& e.len() == 1
                &&& e[0] == Effect::Log(
                    if why == Why::Start {
                        Notice::Connected(kind)
                    } else if why == Why::Switch {
                        Notice::Switched(kind)
                    } else {
                        Notice::Reconnected(kind)
                    },
                )
            } else {
                &&& e.len() >= 1
                &&& e[0] == Effect::Log(Notice::DecoderFailed)
                &&& !c.core.decoder
                &&& why == Why::Start ==> c.core.phase == Phase::Failed && c.link is None && e.len()
                    == if l.control {
                    2int
                } else {
                    1
                }
                &&& why != Why::Start ==> c == (Bridge {
                    core: Core { phase: Phase::Polling, ..b.core },
                    ..b
                }) && e.skip(1) == if why == Why::Switch {
                    seq![Effect::Log(Notice::SwitchFailed), Effect::Pause(300)]
                } else {
                    seq![Effect::Pause(500)]
                }
            }
        }),
{
    let (f, w) = (VoiceKey::Forward, VoiceKey::Backward);
    if b.core.engaged is None {
        assert(b.ending(f) =~= Seq::<Effect>::empty());
        assert(b.ending(w) =~= Seq::<Effect>::empty());
        assert(b.unlinking() =~= Seq::<Effect>::empty());
    }
    if b.core.phase == Phase::Connecting(why) && found is None && why == Why::Start {
        assert(b.closing() =~= Seq::<Effect>::empty());
    }
    if b.core.phase == Phase::Opening(why) && !ok && why != Why::Start {
        let e = b.after(Event::Decoder(ok)).1;
        assert(e.skip(1) =~= b.on_failure(why).1);
    }
}

/// A bridge that has not started holds nothing and has counted nothing; the forward key counts
/// as pressed last.
pub proof fn law_fresh(b: Bridge)
    requires
        b.core == fresh_core(),
    ensures
        b.core.phase == Phase::Fresh,
        b.core.active == VoiceKey::Forward,
        b.core.engaged is None,
        b.core.voice_ended_at is None,
        !b.core.decoder && !b.core.auto_enter_sent,
        b.core.n_pkts == 0 && b.core.n_dec_ok == 0 && b.core.n_dec_fail == 0,
        b.core.fail_streak == 0,
        b.core.last_audio == 0 && b.core.last_probe == 0,
        b.core.last_count_log == 0 && b.core.last_cb_total == 0,
{
}

/// What a bridge takes over from the settings: a key gives voice where it has a hotkey other than
/// "无" or its voice switch is on, and Ctrl+Enter is pressed exactly for `ctrl_enter`.
pub proof fn law_settings_taken(c: Config, debug: bool)
    ensures
        ({
            let s = settings_of(c, debug);
            &&& s.ai_fwd == (c.ai_fwd || (c.hotkey_forward matches Some(n) && n@ != "无"@))
            &&& s.ai_bwd == (c.ai_bwd || (c.hotkey_backward matches Some(n) && n@ != "无"@))
            &&& s.auto_enter == c.auto_enter
            &&& s.ctrl_enter <==> c.auto_enter_mode@ == "ctrl_enter"@
            &&& s.auto_enter_delay == c.auto_enter_delay
            &&& s.typeless_fwd == c.typeless_fwd
            &&& s.typeless_bwd == c.typeless_bwd
            &&& s.debug == debug
        }),
{
}

/// Which hotkeys can be set up, and what is told of the others: one needs a name other than "无"
/// that names keys, and the Interception driver only where that is asked for.
pub proof fn law_binding(c: Config, ready: bool)
    ensures
        ({
            let needs = c.driver@ == "interception"@;
            let fwd = c.hotkey_forward matches Some(n) && n@ != "无"@;
            let bwd = c.hotkey_backward matches Some(n) && n@ != "无"@;
            let fwd_ok = fwd && hotkey::scans_of(c.hotkey_forward->0@) is Some && (!needs || ready);
            let bwd_ok = bwd && hotkey::scans_of(c.hotkey_backward->0@) is Some && (!needs
                || ready);
            let told = binding_failures(c, ready);
            &&& can_bind(c.hotkey_forward, c.driver@, ready) == fwd_ok
            &&& can_bind(c.hotkey_backward, c.driver@, ready) == bwd_ok
            &&& told.len() == (if fwd && !fwd_ok {
                1int
            } else {
                0
            }) + (if bwd && !bwd_ok {
                1int
            } else {
                0
            })
            &&& fwd && !fwd_ok ==> told[0] == Effect::Log(
                Notice::HotkeyFailed(
                    VoiceKey::Forward,
                    if hotkey::scans_of(c.hotkey_forward->0@) is None {
                        HotkeyError::UnknownName
                    } else {
                        HotkeyError::DriverUnavailable
                    },
                ),
            )
            &&& bwd && !bwd_ok ==> told.last() == Effect::Log(
                Notice::HotkeyFailed(
                    VoiceKey::Backward,
                    if hotkey::scans_of(c.hotkey_backward->0@) is None {
                        HotkeyError::UnknownName
                    } else {
                        HotkeyError::DriverUnavailable
                    },
                ),
            )
        }),
{
}

/// A hotkey that is set up is that of its own name: its keys are those that the name stands for,
/// in order, none is down, and its driver is the one asked for.
pub proof fn law_bound_hotkey(h: HotKey, name: Option<String>, driver: Seq<char>, ready: bool)
    requires
        binds(Some(h), name, driver, ready),
    ensures
        name matches Some(n) && n@ != "无"@ && hotkey::scans_of(n@) == Some(h.scans@),
        !h.down,
        h.backend == Backend::Interception <==> driver == "interception"@,
{
}

/// Whatever happens, the hotkeys stay those that were set up, with the same keys and drivers, and
/// so do the settings and the configured product ids.
#[verifier::spinoff_prover]
#[verifier::rlimit(40)]
pub proof fn law_set_up_stays(b: Bridge, ev: Event)
    requires
        b.wf(),
        b.can_count(),
    ensures
        ({
            let c = b.after(ev).0;
            &&& c.settings == b.settings
            &&& c.wired == b.wired
            &&& c.wireless == b.wireless
            &&& c.forward_name == b.forward_name
            &&& c.backward_name == b.backward_name
            &&& c.core.active == b.core.active
            &&& (c.forward is Some) == (b.forward is Some)
            &&& (c.backward is Some) == (b.backward is Some)
            &&& b.forward matches Some(h) ==> c.forward->0.scans == h.scans
                && c.forward->0.backend == h.backend
            &&& b.backward matches Some(h) ==> c.backward->0.scans == h.scans
                && c.backward->0.backend == h.backend
        }),
{
    if let (Phase::Settling(audio), Event::Clock { now, queue, callbacks }) = (b.core.phase, ev) {
        lemma_clock_set_up(b, audio, now, queue, callbacks);
    }
}

#[verifier::spinoff_prover]
proof fn lemma_clock_set_up(b: Bridge, audio: bool, now: u64, queue: usize, callbacks: usize)
    ensures
        ({
            let c = b.on_clock(audio, now, queue, callbacks).0;
            &&& c.settings == b.settings
            &&& c.wired == b.wired
            &&& c.wireless == b.wireless
            &&& c.forward_name == b.forward_name
            &&& c.backward_name == b.backward_name
            &&& c.core.active == b.core.active
            &&& (c.forward is Some) == (b.forward is Some)
            &&& (c.backward is Some) == (b.backward is Some)
            &&& b.forward matches Some(h) ==> c.forward->0.scans == h.scans
                && c.forward->0.backend == h.backend
            &&& b.backward matches Some(h) ==> c.backward->0.scans == h.scans
                && c.backward->0.backend == h.backend
        }),
{
    reveal(Bridge::on_clock);
}

/// A stop changes nothing but that it closes the link: the counters stay for those who ask.
pub proof fn law_stop_keeps_counters(b: Bridge, now: u64)
    requires
        b.core.phase == Phase::Polling,
    ensures
        ({
            let c = b.after(Event::Poll { now, stop: true }).0;
            c.core == (Core { phase: Phase::Done, decoder: false, engaged: None, ..b.core })
        }),
{
}

/// What notices say: the names, numbers and kinds that they are about stand in them.
pub proof fn law_notice_words(k: LinkKind, v: VoiceKey, n: u64, key: Seq<char>, detail: Seq<char>)
    ensures
        notice_text(Notice::Processed(n), key, detail) == "已处理 "@ + text::decimal(n as nat)
            + " 个语音包。"@,
        notice_text(Notice::HotkeyEngaged(v), key, detail) == "联动热键已激活: 按住 "@ + key,
        notice_text(Notice::AutoEnter, key, detail) == "自动回车: "@ + key,
        notice_text(Notice::VoiceEnded, key, detail) == "语音结束, "@ + detail + "秒后自动按 "@ + key,
        notice_text(Notice::Connected(k), key, detail) == "已连接鼠标音频接口 ("@ + kind_word(k)
            + "模式), 等待语音键..."@,
        notice_text(Notice::Reconnected(k), key, detail) == "已重新连接 ("@ + kind_word(k)
            + "模式)。"@,
        notice_text(Notice::Switching(k), key, detail) == "检测到链路变化, 切换到"@ + kind_word(k)
            + "模式..."@,
        notice_text(Notice::Switched(k), key, detail) == "已切换至"@ + kind_word(k) + "模式。"@,
        notice_text(Notice::HotkeyFailed(v, HotkeyError::DriverUnavailable), key, detail)
            == "热键初始化失败 (将不联动): "@ + detail,
        notice_text(Notice::DecoderFailed, key, detail) == "sbc 解码器初始化失败: "@ + detail,
        notice_text(Notice::DecoderStartFailed, key, detail) == "解码器启动失败: "@ + detail,
        notice_text(Notice::DecoderRebuildFailed, key, detail) == "解码器重建失败: "@ + detail,
{
}

/// What a kind of link is called.
pub open spec fn kind_word(k: LinkKind) -> Seq<char> {
    if k == LinkKind::Wired {
        "有线"@
    } else if k == LinkKind::Wireless {
        "无线"@
    } else {
        "未知"@
    }
}

/// The kind of the link in use goes by its own product string and product id; without a link it is
/// unknown.
pub proof fn law_kind(b: Bridge)
    ensures
        b.link matches Some(c) ==> b.kind() == hid::link_of(
            c.product_string@,
            b.wired@,
            b.wireless@,
            c.pid,
        ),
        b.link is None ==> b.kind() == LinkKind::Unknown,
{
}

/// A bridge that ends switches AI voice off first, where it has a control interface, and one that
/// changes its link does not touch it.
pub proof fn law_ai_off_first(b: Bridge)
    requires
        b.wf(),
    ensures
        b.link matches Some(l) && l.control ==> b.closing().len() > 0 && b.closing()[0]
            == Effect::SetAi(false),
        forall|i: int| 0 <= i < b.unlinking().len() ==> !(#[trigger] b.unlinking()[i] is SetAi),
        !(b.link matches Some(l) && l.control) ==> b.closing() == b.unlinking(),
        (b.link matches Some(l) && l.control) ==> b.closing() == seq![Effect::SetAi(false)]
            + b.unlinking(),
{
    if !(b.link matches Some(l) && l.control) {
        assert(b.closing() =~= b.unlinking());
    }
}

/// What the other notices say.
pub proof fn law_fixed_notices(v: VoiceKey, fwd: bool, bwd: bool, key: Seq<char>, detail: Seq<char>)
    ensures
        notice_text(Notice::Disconnected, key, detail) == "鼠标已断开, 等待重新连接..."@,
        notice_text(Notice::SwitchFailed, key, detail) == "切换失败, 继续重试..."@,
        notice_text(Notice::VoiceDetected, key, detail) == "检测到语音输入, 已启动音频解码。"@,
        notice_text(Notice::DecoderRebuilt, key, detail) == "解码器重建以恢复 mSBC 帧同步"@,
        notice_text(Notice::LinkLost, key, detail) == "鼠标连接中断, 尝试重新连接..."@,
        notice_text(Notice::Stopped, key, detail) == "桥接已正常停止。"@,
        notice_text(Notice::HotkeyFailed(v, HotkeyError::UnknownName), key, detail)
            == "热键初始化失败 (将不联动): "@ + hotkey::unknown_name(key),
        notice_text(Notice::AiKeys(fwd, bwd), key, detail) == "AI 键配置: 前进="@ + (if fwd {
            "开"@
        } else {
            "关"@
        }) + " 后退="@ + (if bwd {
            "开"@
        } else {
            "关"@
        }),
{
}

} // verus!
