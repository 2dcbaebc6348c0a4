//! The exchanges that open a link. Each is a small machine: it says what to do next, the program
//! does it and hands back how it went.

use crate::hid::{
    build_arm_seq, find_command_paths, priority_order, AjazzDevice, HidInterface,
};
use crate::hid;
use crate::text;
use std::collections::HashSet;
use vstd::prelude::*;

verus! {

/// Where the activation handshake stands.
#[derive(Debug, Clone, Copy, PartialEq, Eq, Structural)]
pub enum ArmStage {
    /// The current path has to be opened.
    Opening,
    /// The current packet has to be written.
    Writing,
    /// The reply to the current packet has to be read.
    Reading,
    /// The whole sequence went through on the current path.
    Armed,
    /// No path is left.
    Failed,
}

/// How a step of the activation handshake went.
#[derive(Debug, Clone, Copy, PartialEq, Eq, Structural)]
pub enum ArmEvent {
    /// Whether the path could be opened.
    Opened(bool),
    /// How many bytes of the packet were written; none where the write failed.
    Wrote(usize),
    /// How many bytes of the reply were read: 0 where the read timed out, none where it failed.
    Replied(Option<usize>),
}

/// A read that brought a reply. One that failed did not, nor one that timed out.
pub open spec fn answered(read: Option<usize>) -> bool {
    read matches Some(n) && n > 0
}

/// The state of the activation handshake over `paths` candidate paths.
#[derive(Debug, Clone, Copy, PartialEq, Eq, Structural)]
pub struct ArmState {
    pub paths: usize,
    pub path: usize,
    pub packet: usize,
    pub stage: ArmStage,
}

impl ArmState {
    /// The state in which nothing has been tried.
    pub open spec fn start(paths: usize) -> ArmState {
        ArmState {
            paths,
            path: 0,
            packet: 0,
            stage: if paths == 0 {
                ArmStage::Failed
            } else {
                ArmStage::Opening
            },
        }
    }

    /// The current path is one of the candidates and the current packet one of the eight.
    pub open spec fn wf(self) -> bool {
        &&& self.stage != ArmStage::Failed ==> self.path < self.paths
        &&& self.packet < 8
    }

    /// The current path is given up.
    pub open spec fn next_path(self) -> ArmState {
        if self.path + 1 < self.paths {
            ArmState { path: (self.path + 1) as usize, packet: 0, stage: ArmStage::Opening, ..self }
        } else {
            ArmState { packet: 0, stage: ArmStage::Failed, ..self }
        }
    }

    /// The state after an event. A path that cannot be opened, a packet that is not written
    /// whole and a reply that fails or does not come in time each give the path up; the reply to the last
    /// packet completes the handshake. An event that does not belong to the stage changes
    /// nothing.
    pub open spec fn after(self, ev: ArmEvent) -> ArmState {
        match (self.stage, ev) {
            (ArmStage::Opening, ArmEvent::Opened(ok)) => if ok {
                ArmState { packet: 0, stage: ArmStage::Writing, ..self }
            } else {
                self.next_path()
            },
            (ArmStage::Writing, ArmEvent::Wrote(n)) => if n == 64 {
                ArmState { stage: ArmStage::Reading, ..self }
            } else {
                self.next_path()
            },
            (ArmStage::Reading, ArmEvent::Replied(read)) => if !answered(read) {
                self.next_path()
            } else if self.packet + 1 < 8 {
                ArmState { packet: (self.packet + 1) as usize, stage: ArmStage::Writing, ..self }
            } else {
                ArmState { stage: ArmStage::Armed, ..self }
            },
            _ => self,
        }
    }
}

/// The activation handshake: each candidate path in turn is opened and sent the activation
/// sequence, until one takes it whole.
pub struct ArmSession {
    pub paths: Vec<String>,
    pub state: ArmState,
}

/// Starts the handshake for an audio link.
pub fn arm_mouse(list: &Vec<HidInterface>, audio_pid: Option<u16>) -> (r: ArmSession)
    ensures
        r.wf(),
        text::texts(r.paths@) == hid::command_paths(list@, audio_pid),
        r.state == ArmState::start(r.paths@.len() as usize),
{
    let paths = find_command_paths(list, audio_pid);
    let n: usize = paths.len();
    let stage = if n == 0 {
        ArmStage::Failed
    } else {
        ArmStage::Opening
    };
    ArmSession { paths, state: ArmState { paths: n, path: 0, packet: 0, stage } }
}

impl ArmSession {
    /// The state speaks of these paths.
    pub open spec fn wf(self) -> bool {
        self.state.wf() && self.state.paths == self.paths@.len()
    }

    /// Where the handshake stands.
    pub fn stage(&self) -> (r: ArmStage)
        ensures
            r == self.state.stage,
    {
        self.state.stage
    }

    /// The path in use.
    pub fn path(&self) -> (r: &str)
        requires
            self.wf(),
            self.state.stage != ArmStage::Failed,
        ensures
            r@ == self.paths@[self.state.path as int]@,
    {
        self.paths[self.state.path].as_str()
    }

    /// The packet to write.
    pub fn packet(&self) -> (r: [u8; 64])
        requires
            self.wf(),
        ensures
            r@ == hid::arm_seq()[self.state.packet as int],
    {
        let seq = build_arm_seq();
        assert(seq@.len() == hid::report_bytes(seq@).len());
        assert(hid::report_bytes(seq@)[self.state.packet as int]
            == seq@[self.state.packet as int]@);
        seq[self.state.packet]
    }

    fn give_up_path(&mut self)
        requires
            old(self).wf(),
            old(self).state.stage != ArmStage::Failed,
        ensures
            final(self).wf(),
            final(self).paths == old(self).paths,
            final(self).state == old(self).state.next_path(),
    {
        self.state.packet = 0;
        if self.state.path + 1 < self.state.paths {
            self.state.path = self.state.path + 1;
            self.state.stage = ArmStage::Opening;
        } else {
            self.state.stage = ArmStage::Failed;
        }
    }

    /// Takes note of how a step went.
    pub fn step(&mut self, ev: ArmEvent)
        requires
            old(self).wf(),
        ensures
            final(self).wf(),
            final(self).paths == old(self).paths,
            final(self).state == old(self).state.after(ev),
    {
        match (self.state.stage, ev) {
            (ArmStage::Opening, ArmEvent::Opened(ok)) => {
                if ok {
                    self.state.packet = 0;
                    self.state.stage = ArmStage::Writing;
                } else {
                    self.give_up_path();
                }
            },
            (ArmStage::Writing, ArmEvent::Wrote(n)) => {
                if hid::fully_written(n) {
                    self.state.stage = ArmStage::Reading;
                } else {
                    self.give_up_path();
                }
            },
            (ArmStage::Reading, ArmEvent::Replied(read)) => {
                let ok = match read {
                    Some(n) => n > 0,
                    None => false,
                };
                if !ok {
                    self.give_up_path();
                } else if self.state.packet + 1 < 8 {
                    self.state.packet = self.state.packet + 1;
                    self.state.stage = ArmStage::Writing;
                } else {
                    self.state.stage = ArmStage::Armed;
                }
            },
            _ => {},
        }
    }
}

/// The state after a row of events.
pub open spec fn armed_by(s: ArmState, events: Seq<ArmEvent>) -> ArmState
    decreases events.len(),
{
    if events.len() == 0 {
        s
    } else {
        armed_by(s, events.drop_last()).after(events.last())
    }
}

/// Packet `i` was written whole, and a reply came.
pub open spec fn round_clean(events: Seq<ArmEvent>, i: int) -> bool {
    &&& events[1 + 2 * i] == ArmEvent::Wrote(64)
    &&& events[2 + 2 * i] matches ArmEvent::Replied(read) && answered(read)
}

/// The events of a path that is opened and takes the first `k` packets whole, with a reply to
/// each.
pub open spec fn is_clean(events: Seq<ArmEvent>, k: nat) -> bool {
    &&& events.len() == 1 + 2 * k
    &&& events[0] == ArmEvent::Opened(true)
    &&& forall|i: int| 0 <= i < k ==> #[trigger] round_clean(events, i)
}

/// Such events stand at the end.
pub open spec fn ends_clean(events: Seq<ArmEvent>, k: nat) -> bool {
    1 + 2 * k <= events.len() && is_clean(events.skip(events.len() - (1 + 2 * k)), k)
}

/// One more packet that is taken whole and answered.
proof fn lemma_ends_clean_next(events: Seq<ArmEvent>, k: nat)
    requires
        events.len() >= 2,
        ends_clean(events.drop_last().drop_last(), k),
        events[events.len() - 2] == ArmEvent::Wrote(64),
        events.last() matches ArmEvent::Replied(read) && answered(read),
    ensures
        ends_clean(events, k + 1),
{
    let front = events.drop_last().drop_last();
    let old_tail = front.skip(front.len() - (1 + 2 * k));
    let tail = events.skip(events.len() - (1 + 2 * (k + 1)));
    assert(tail[0] == old_tail[0]);
    assert forall|i: int| 0 <= i < k + 1 implies #[trigger] round_clean(tail, i) by {
        if i < k {
            assert(round_clean(old_tail, i));
            assert(tail[1 + 2 * i] == old_tail[1 + 2 * i]);
            assert(tail[2 + 2 * i] == old_tail[2 + 2 * i]);
        } else {
            assert(tail[1 + 2 * i] == events[events.len() - 2]);
            assert(tail[2 + 2 * i] == events.last());
        }
    }
}

/// A path that opens and takes all eight packets whole, with a reply to each, is armed.
pub proof fn law_clean_handshake_arms(s: ArmState, events: Seq<ArmEvent>)
    requires
        s.wf(),
        s.stage == ArmStage::Opening,
        is_clean(events, 8),
    ensures
        armed_by(s, events).stage == ArmStage::Armed,
        armed_by(s, events).path == s.path,
{
    lemma_clean_rounds(s, events, 8);
}

proof fn lemma_clean_rounds(s: ArmState, events: Seq<ArmEvent>, k: nat)
    requires
        s.wf(),
        s.stage == ArmStage::Opening,
        k <= 8,
        is_clean(events, k),
    ensures
        armed_by(s, events) == (if k < 8 {
            ArmState { packet: k as usize, stage: ArmStage::Writing, ..s }
        } else {
            ArmState { packet: 7, stage: ArmStage::Armed, ..s }
        }),
    decreases k,
{
    if k == 0 {
        reveal_with_fuel(armed_by, 2);
        assert(events.drop_last() =~= Seq::<ArmEvent>::empty());
    } else {
        let mid = events.drop_last();
        let prev = mid.drop_last();
        assert(round_clean(events, k - 1));
        assert forall|i: int| 0 <= i < k - 1 implies #[trigger] round_clean(prev, i) by {
            assert(round_clean(events, i));
        }
        lemma_clean_rounds(s, prev, (k - 1) as nat);
        assert(mid.last() == ArmEvent::Wrote(64));
        assert(armed_by(s, mid) == armed_by(s, prev).after(ArmEvent::Wrote(64)));
        assert(armed_by(s, events) == armed_by(s, mid).after(events.last()));
    }
}

/// A packet without a reply gives the path up, whether the read failed or timed out; on the last
/// path the handshake has then failed.
pub proof fn law_unanswered_fails(s: ArmState, read: Option<usize>)
    requires
        s.wf(),
        s.stage == ArmStage::Reading,
        !answered(read),
    ensures
        s.after(ArmEvent::Replied(read)) == s.next_path(),
        s.path + 1 == s.paths ==> s.after(ArmEvent::Replied(read)).stage == ArmStage::Failed,
{
}

/// What a state says of the events that led to it.
pub open spec fn explains(s: ArmState, events: Seq<ArmEvent>) -> bool {
    match s.stage {
        ArmStage::Writing => ends_clean(events, s.packet as nat),
        ArmStage::Reading => events.len() > 0 && events.last() == ArmEvent::Wrote(64)
            && ends_clean(events.drop_last(), s.packet as nat),
        ArmStage::Armed => ends_clean(events, 8),
        _ => true,
    }
}

/// Events that belong to the stage they meet: no event comes after the handshake has ended.
pub open spec fn belong(s: ArmState, events: Seq<ArmEvent>) -> bool
    decreases events.len(),
{
    events.len() > 0 ==> {
        &&& belong(s, events.drop_last())
        &&& match (armed_by(s, events.drop_last()).stage, events.last()) {
            (ArmStage::Opening, ArmEvent::Opened(_)) => true,
            (ArmStage::Writing, ArmEvent::Wrote(_)) => true,
            (ArmStage::Reading, ArmEvent::Replied(_)) => true,
            _ => false,
        }
    }
}

/// A mouse counts as armed only where the last thing that happened is one path that opened and
/// took all eight packets whole, with a reply to each.
pub proof fn law_armed_only_by_clean_handshake(paths: usize, events: Seq<ArmEvent>)
    requires
        belong(ArmState::start(paths), events),
    ensures
        armed_by(ArmState::start(paths), events).wf(),
        explains(armed_by(ArmState::start(paths), events), events),
        armed_by(ArmState::start(paths), events).stage == ArmStage::Armed ==> ends_clean(
            events,
            8,
        ),
    decreases events.len(),
{
    let s0 = ArmState::start(paths);
    if events.len() > 0 {
        let prev = events.drop_last();
        let ev = events.last();
        law_armed_only_by_clean_handshake(paths, prev);
        let s = armed_by(s0, prev);
        let t = armed_by(s0, events);
        assert(t == s.after(ev));
        match (s.stage, ev) {
            (ArmStage::Opening, ArmEvent::Opened(ok)) => {
                if ok {
                    assert(events.skip(events.len() - 1)[0] == ev);
                    assert(ends_clean(events, 0));
                }
            },
            (ArmStage::Reading, ArmEvent::Replied(read)) => {
                if answered(read) {
                    assert(prev.last() == events[events.len() - 2]);
                    lemma_ends_clean_next(events, s.packet as nat);
                }
            },
            _ => {},
        }
    }
}

/// Where the search for an audio link stands.
#[derive(Debug, Clone, Copy, PartialEq, Eq, Structural)]
pub enum ConnectStage {
    /// The current candidate has to be armed.
    Arming,
    /// The audio interface of the current candidate has to be opened.
    Opening,
    /// The current candidate is connected.
    Connected,
    /// No candidate is left.
    Failed,
}

/// How a step of the search went.
#[derive(Debug, Clone, Copy, PartialEq, Eq, Structural)]
pub enum ConnectEvent {
    /// Whether the candidate took the activation handshake.
    Armed(bool),
    /// Whether the audio interface could be opened.
    Opened(bool),
}

/// The state of the search over `count` candidates.
#[derive(Debug, Clone, Copy, PartialEq, Eq, Structural)]
pub struct ConnectState {
    pub count: usize,
    pub at: usize,
    pub stage: ConnectStage,
}

impl ConnectState {
    /// The state in which nothing has been tried.
    pub open spec fn start(count: usize) -> ConnectState {
        ConnectState {
            count,
            at: 0,
            stage: if count == 0 {
                ConnectStage::Failed
            } else {
                ConnectStage::Arming
            },
        }
    }

    /// The current candidate is one of them; none is left where the search has failed.
    pub open spec fn wf(self) -> bool {
        if self.stage == ConnectStage::Failed {
            self.at == self.count
        } else {
            self.at < self.count
        }
    }

    /// The current candidate is given up.
    pub open spec fn next(self) -> ConnectState {
        ConnectState {
            at: (self.at + 1) as usize,
            stage: if self.at + 1 < self.count {
                ConnectStage::Arming
            } else {
                ConnectStage::Failed
            },
            ..self
        }
    }

    /// Whether an event gives the current candidate up.
    pub open spec fn gives_up(self, ev: ConnectEvent) -> bool {
        match (self.stage, ev) {
            (ConnectStage::Arming, ConnectEvent::Armed(ok)) => !ok,
            (ConnectStage::Opening, ConnectEvent::Opened(ok)) => !ok,
            _ => false,
        }
    }

    /// The state after an event. An event that does not belong to the stage changes nothing.
    pub open spec fn after(self, ev: ConnectEvent) -> ConnectState {
        if self.gives_up(ev) {
            self.next()
        } else {
            match (self.stage, ev) {
                (ConnectStage::Arming, ConnectEvent::Armed(_)) => ConnectState {
                    stage: ConnectStage::Opening,
                    ..self
                },
                (ConnectStage::Opening, ConnectEvent::Opened(_)) => ConnectState {
                    stage: ConnectStage::Connected,
                    ..self
                },
                _ => self,
            }
        }
    }
}

/// The search for an audio link: each candidate in turn is armed and its audio interface
/// opened, until one goes through.
pub struct ConnectSession {
    pub candidates: Vec<AjazzDevice>,
    pub tried: Vec<String>,
    pub state: ConnectState,
}

/// What is noted of a candidate that is given up.
pub open spec fn tried_line(d: AjazzDevice, ev: ConnectEvent) -> Seq<char> {
    match ev {
        ConnectEvent::Armed(_) => "PID="@ + text::hex4(d.product_id) + " ("@ + d.product_string@
            + ") 命令通道握手失败"@,
        ConnectEvent::Opened(_) => "PID="@ + text::hex4(d.product_id) + " 音频接口打开失败"@,
    }
}

/// Starts the search for an audio link.
pub fn connect_audio(
    list: &Vec<HidInterface>,
    wired_pids: &HashSet<u16>,
    wireless_pids: &HashSet<u16>,
    exclude_path: Option<&str>,
) -> (r: ConnectSession)
    ensures
        r.wf(),
        r.candidates@ == hid::by_priority(
            hid::audio_links(list@),
            wired_pids@,
            wireless_pids@,
            hid::opt_view(exclude_path),
        ),
        r.tried@.len() == 0,
        r.state == ConnectState::start(r.candidates@.len() as usize),
{
    let candidates = priority_order(list, wired_pids, wireless_pids, exclude_path);
    let count: usize = candidates.len();
    let stage = if count == 0 {
        ConnectStage::Failed
    } else {
        ConnectStage::Arming
    };
    ConnectSession { candidates, tried: Vec::new(), state: ConnectState { count, at: 0, stage } }
}

impl ConnectSession {
    /// The state speaks of these candidates, and each one given up has its note.
    pub open spec fn wf(self) -> bool {
        &&& self.state.wf()
        &&& self.state.count == self.candidates@.len()
        &&& self.tried@.len() == self.state.at
    }

    /// Where the search stands.
    pub fn stage(&self) -> (r: ConnectStage)
        ensures
            r == self.state.stage,
    {
        self.state.stage
    }

    /// The candidate in question.
    pub fn candidate(&self) -> (r: &AjazzDevice)
        requires
            self.wf(),
            self.state.stage != ConnectStage::Failed,
        ensures
            *r == self.candidates@[self.state.at as int],
    {
        &self.candidates[self.state.at]
    }

    /// Takes note of how a step went.
    pub fn step(&mut self, ev: ConnectEvent)
        requires
            old(self).wf(),
        ensures
            final(self).wf(),
            final(self).candidates == old(self).candidates,
            final(self).state == old(self).state.after(ev),
            text::texts(final(self).tried@) == (if old(self).state.gives_up(ev) {
                text::texts(old(self).tried@).push(
                    tried_line(old(self).candidates@[old(self).state.at as int], ev),
                )
            } else {
                text::texts(old(self).tried@)
            }),
    {
        let lost = match (self.state.stage, ev) {
            (ConnectStage::Arming, ConnectEvent::Armed(ok)) => !ok,
            (ConnectStage::Opening, ConnectEvent::Opened(ok)) => !ok,
            _ => false,
        };
        if lost {
            let d = &self.candidates[self.state.at];
            let mut line = text::owned("PID=");
            text::push_hex4(&mut line, d.product_id);
            match ev {
                ConnectEvent::Armed(_) => {
                    line.append(" (");
                    line.append(d.product_string.as_str());
                    line.append(") 命令通道握手失败");
                },
                ConnectEvent::Opened(_) => {
                    line.append(" 音频接口打开失败");
                },
            }
            assert(line@ =~= tried_line(self.candidates@[self.state.at as int], ev));
            let ghost noted = text::texts(self.tried@);
            self.tried.push(line);
            assert(text::texts(self.tried@) =~= noted.push(line@));
            self.state.at = self.state.at + 1;
            self.state.stage = if self.state.at < self.state.count {
                ConnectStage::Arming
            } else {
                ConnectStage::Failed
            };
        } else {
            match (self.state.stage, ev) {
                (ConnectStage::Arming, ConnectEvent::Armed(_)) => {
                    self.state.stage = ConnectStage::Opening;
                },
                (ConnectStage::Opening, ConnectEvent::Opened(_)) => {
                    self.state.stage = ConnectStage::Connected;
                },
                _ => {},
            }
        }
    }

    /// What is logged where no candidate went through.
    pub fn failure_text(&self) -> (out: String)
        ensures
            out@ == (if self.candidates@.len() == 0 {
                "未找到鼠标音频 HID 接口 (usage_page=0xFFAA)。请确认鼠标已连接(无线接收器或数据线)。"@
            } else {
                "找到鼠标音频接口但无法建立连接。诊断: "@ + text::joined(
                    text::texts(self.tried@),
                    "; "@,
                )
            }),
    {
        if self.candidates.len() == 0 {
            text::owned(
                "未找到鼠标音频 HID 接口 (usage_page=0xFFAA)。请确认鼠标已连接(无线接收器或数据线)。",
            )
        } else {
            let mut out = text::owned("找到鼠标音频接口但无法建立连接。诊断: ");
            out.append(text::join(&self.tried, "; ").as_str());
            out
        }
    }

    /// The link that the search ended with, and whether it has a control interface.
    pub fn connected(&self, control: &ControlSession) -> (r: hid::Connected)
        requires
            self.wf(),
            self.state.stage == ConnectStage::Connected,
        ensures
            ({
                let d = self.candidates@[self.state.at as int];
                r == hid::Connected {
                    path: d.path,
                    pid: d.product_id,
                    product_string: d.product_string,
                    control: control.found,
                }
            }),
    {
        let d = &self.candidates[self.state.at];
        hid::Connected {
            path: d.path.clone(),
            pid: d.product_id,
            product_string: d.product_string.clone(),
            control: control.found,
        }
    }
}

/// The state after each candidate in turn was armed and opened, or not.
pub open spec fn searched(s: ConnectState, outcomes: Seq<(bool, bool)>) -> ConnectState
    decreases outcomes.len(),
{
    if outcomes.len() == 0 {
        s
    } else {
        let (armed, opened) = outcomes.last();
        searched(s, outcomes.drop_last()).after(ConnectEvent::Armed(armed)).after(
            ConnectEvent::Opened(opened),
        )
    }
}

/// The search ends with the first candidate that is armed and opened; it fails where all have
/// been tried and none was.
pub proof fn law_first_good_candidate(count: usize, outcomes: Seq<(bool, bool)>, i: int)
    requires
        outcomes.len() <= count,
        0 <= i <= outcomes.len(),
        forall|j: int| 0 <= j < i ==> #[trigger] outcomes[j] != (true, true),
        i < outcomes.len() ==> outcomes[i] == (true, true),
    ensures
        searched(ConnectState::start(count), outcomes).wf(),
        searched(ConnectState::start(count), outcomes).at == i,
        searched(ConnectState::start(count), outcomes).stage == (if i < outcomes.len() {
            ConnectStage::Connected
        } else if i == count {
            ConnectStage::Failed
        } else {
            ConnectStage::Arming
        }),
        searched(ConnectState::start(count), outcomes).count == count,
    decreases outcomes.len(),
{
    if outcomes.len() > 0 {
        let prev = outcomes.drop_last();
        let j = if i < outcomes.len() {
            i
        } else {
            i - 1
        };
        assert forall|k: int| 0 <= k < j implies #[trigger] prev[k] != (true, true) by {
            assert(outcomes[k] != (true, true));
        }
        law_first_good_candidate(count, prev, j);
        assert(i == outcomes.len() ==> outcomes[i - 1] != (true, true));
    }
}

/// The search for the link that is really there: the first candidate that takes the activation
/// handshake.
pub struct LiveSession {
    pub candidates: Vec<AjazzDevice>,
    pub at: usize,
    pub found: bool,
}

/// Starts the search for the link that is really there.
pub fn live_link(
    list: &Vec<HidInterface>,
    wired_pids: &HashSet<u16>,
    wireless_pids: &HashSet<u16>,
) -> (r: LiveSession)
    ensures
        r.wf(),
        r.candidates@ == hid::by_priority(
            hid::audio_links(list@),
            wired_pids@,
            wireless_pids@,
            None,
        ),
        r.at == 0,
        !r.found,
{
    LiveSession {
        candidates: priority_order(list, wired_pids, wireless_pids, None),
        at: 0,
        found: false,
    }
}

impl LiveSession {
    /// The current candidate, if the search has one, is one of them.
    pub open spec fn wf(self) -> bool {
        self.at <= self.candidates@.len() && (self.found ==> self.at < self.candidates@.len())
    }

    /// The search after the current candidate took the handshake, or did not.
    pub open spec fn stepped(self, armed: bool) -> LiveSession {
        LiveSession {
            at: if armed {
                self.at
            } else {
                (self.at + 1) as usize
            },
            found: armed,
            ..self
        }
    }

    /// The search after several candidates took the handshake, or did not.
    pub open spec fn walked(self, outcomes: Seq<bool>) -> LiveSession
        decreases outcomes.len(),
    {
        if outcomes.len() == 0 {
            self
        } else {
            self.walked(outcomes.drop_last()).stepped(outcomes.last())
        }
    }

    /// The next candidate to arm; none where the search has ended.
    pub fn pending(&self) -> (r: Option<&AjazzDevice>)
        requires
            self.wf(),
        ensures
            r == (if !self.found && self.at < self.candidates@.len() {
                Some(&self.candidates@[self.at as int])
            } else {
                None
            }),
    {
        if !self.found && self.at < self.candidates.len() {
            Some(&self.candidates[self.at])
        } else {
            None
        }
    }

    /// Takes note of whether the current candidate took the handshake.
    pub fn step(&mut self, armed: bool)
        requires
            old(self).wf(),
            !old(self).found,
            old(self).at < old(self).candidates@.len(),
        ensures
            final(self).wf(),
            *final(self) == old(self).stepped(armed),
    {
        let count: usize = self.candidates.len();
        if armed {
            self.found = true;
        } else if self.at < count {
            self.at = self.at + 1;
        }
    }

    /// The link that was found.
    pub fn result(&self) -> (r: Option<&AjazzDevice>)
        requires
            self.wf(),
        ensures
            r == (if self.found {
                Some(&self.candidates@[self.at as int])
            } else {
                None
            }),
    {
        if self.found {
            Some(&self.candidates[self.at])
        } else {
            None
        }
    }
}

/// The link that is really there is the first candidate that takes the handshake: where the
/// first ones do not and the next one does, it is that one; where none does, there is none.
pub proof fn law_first_live_link(s: LiveSession, failed: nat)
    requires
        s.wf(),
        s.at == 0,
        !s.found,
        failed <= s.candidates@.len() <= usize::MAX,
    ensures
        ({
            let mid = s.walked(Seq::new(failed, |i: int| false));
            &&& mid.wf()
            &&& !mid.found
            &&& mid.at == failed
            &&& mid.candidates == s.candidates
            &&& failed < s.candidates@.len() ==> {
                let end = s.walked(Seq::new(failed, |i: int| false).push(true));
                end.wf() && end.found && end.at == failed && end.candidates == s.candidates
            }
        }),
    decreases failed,
{
    let misses = Seq::new(failed, |i: int| false);
    if failed > 0 {
        law_first_live_link(s, (failed - 1) as nat);
        assert(misses.drop_last() =~= Seq::new((failed - 1) as nat, |i: int| false));
    }
    assert(misses.push(true).drop_last() =~= misses);
}

/// The search for the control interface of a mouse: the first of its paths that can be opened.
pub struct ControlSession {
    pub paths: Vec<String>,
    pub at: usize,
    pub found: bool,
}

/// Starts the search for the control interface of a mouse.
pub fn open_control(list: &Vec<HidInterface>, pid: u16) -> (r: ControlSession)
    ensures
        r.wf(),
        text::texts(r.paths@) == hid::paths_of(list@, hid::Pick::Control(pid)),
        r.at == 0,
        !r.found,
{
    ControlSession { paths: hid::control_paths(list, pid), at: 0, found: false }
}

impl ControlSession {
    /// The current path, if the search has one, is one of them.
    pub open spec fn wf(self) -> bool {
        self.at <= self.paths@.len() && (self.found ==> self.at < self.paths@.len())
    }

    /// The search goes on.
    pub open spec fn searching(self) -> bool {
        !self.found && self.at < self.paths@.len()
    }

    /// The search after the current path was opened, or was not. One that has ended stays as it
    /// is.
    pub open spec fn stepped(self, opened: bool) -> ControlSession {
        if !self.searching() {
            self
        } else if opened {
            ControlSession { found: true, ..self }
        } else {
            ControlSession { at: (self.at + 1) as usize, ..self }
        }
    }

    /// The search after several paths were opened, or were not.
    pub open spec fn walked(self, outcomes: Seq<bool>) -> ControlSession
        decreases outcomes.len(),
    {
        if outcomes.len() == 0 {
            self
        } else {
            self.walked(outcomes.drop_last()).stepped(outcomes.last())
        }
    }

    /// The next path to open; none where the search has ended.
    pub fn pending(&self) -> (r: Option<&str>)
        requires
            self.wf(),
        ensures
            hid::opt_view(r) == (if self.searching() {
                Some(self.paths@[self.at as int]@)
            } else {
                None
            }),
    {
        if !self.found && self.at < self.paths.len() {
            Some(self.paths[self.at].as_str())
        } else {
            None
        }
    }

    /// Takes note of whether the current path could be opened.
    pub fn step(&mut self, opened: bool)
        requires
            old(self).wf(),
        ensures
            final(self).wf(),
            *final(self) == old(self).stepped(opened),
    {
        let count: usize = self.paths.len();
        if !self.found && self.at < count {
            if opened {
                self.found = true;
            } else {
                self.at = self.at + 1;
            }
        }
    }

    /// The path of the control interface that was opened.
    pub fn result(&self) -> (r: Option<&str>)
        requires
            self.wf(),
        ensures
            hid::opt_view(r) == (if self.found {
                Some(self.paths@[self.at as int]@)
            } else {
                None
            }),
    {
        if self.found {
            Some(self.paths[self.at].as_str())
        } else {
            None
        }
    }
}

/// The control interface is the first of its paths that can be opened: where the first ones
/// cannot and the next one can, it is that one, whatever comes after; where none can, there is
/// none.
pub proof fn law_first_control(s: ControlSession, outcomes: Seq<bool>, i: int)
    requires
        s.wf(),
        s.at == 0,
        !s.found,
        s.paths@.len() <= usize::MAX,
        outcomes.len() <= s.paths@.len(),
        0 <= i <= outcomes.len(),
        forall|j: int| 0 <= j < i ==> !#[trigger] outcomes[j],
        i < outcomes.len() ==> outcomes[i],
    ensures
        s.walked(outcomes).wf(),
        s.walked(outcomes).paths == s.paths,
        s.walked(outcomes).at == i,
        s.walked(outcomes).found == (i < outcomes.len()),
    decreases outcomes.len(),
{
    if outcomes.len() > 0 {
        let prev = outcomes.drop_last();
        let j = if i < outcomes.len() {
            i
        } else {
            i - 1
        };
        assert forall|k: int| 0 <= k < j implies !#[trigger] prev[k] by {
            assert(!outcomes[k]);
        }
        law_first_control(s, prev, j);
        assert(i == outcomes.len() ==> !outcomes[i - 1]);
    }
}

/// A reply is a read that brought at least one byte.
pub proof fn law_answers(n: usize)
    ensures
        answered(Some(n)) <==> n > 0,
        !answered(None),
{
}

/// The handshake starts by opening the first path; without a path it has failed.
pub proof fn law_arming_starts(paths: usize)
    ensures
        paths > 0 ==> ArmState::start(paths) == (ArmState {
            paths,
            path: 0,
            packet: 0,
            stage: ArmStage::Opening,
        }),
        ArmState::start(0).stage == ArmStage::Failed,
{
}

/// Any step that goes wrong leads to the opening of the next path, where the sequence starts from
/// its first packet; on the last path it is the end.
pub proof fn law_wrong_step(s: ArmState, n: usize)
    requires
        s.wf(),
    ensures
        ({
            let opened = s.after(ArmEvent::Opened(false));
            let wrote = s.after(ArmEvent::Wrote(n));
            let silent = s.after(ArmEvent::Replied(Some(0)));
            let failed = s.after(ArmEvent::Replied(None));
            let more = s.path + 1 < s.paths;
            &&& s.stage == ArmStage::Opening && more ==> opened.stage == ArmStage::Opening
                && opened.path == s.path + 1 && opened.packet == 0
            &&& s.stage == ArmStage::Opening && !more ==> opened.stage == ArmStage::Failed
            &&& s.stage == ArmStage::Writing && n != 64 && more ==> wrote.stage
                == ArmStage::Opening && wrote.path == s.path + 1 && wrote.packet == 0
            &&& s.stage == ArmStage::Writing && n != 64 && !more ==> wrote.stage
                == ArmStage::Failed
            &&& s.stage == ArmStage::Reading && more ==> silent.stage == ArmStage::Opening
                && silent.path == s.path + 1 && silent.packet == 0
            &&& s.stage == ArmStage::Reading && !more ==> silent.stage == ArmStage::Failed
            &&& s.stage == ArmStage::Reading ==> failed == silent
        }),
{
}

/// A step that goes right stays on the path: a path that opens is written to, a packet that is
/// written whole is waited on, and a reply brings the next packet, or the end after the eighth.
pub proof fn law_right_step(s: ArmState, n: usize)
    requires
        s.wf(),
        n > 0,
    ensures
        s.stage == ArmStage::Opening ==> s.after(ArmEvent::Opened(true)) == (ArmState {
            packet: 0,
            stage: ArmStage::Writing,
            ..s
        }),
        s.stage == ArmStage::Writing ==> s.after(ArmEvent::Wrote(64)) == (ArmState {
            stage: ArmStage::Reading,
            ..s
        }),
        s.stage == ArmStage::Reading && s.packet < 7 ==> s.after(ArmEvent::Replied(Some(n)))
            == (ArmState { packet: (s.packet + 1) as usize, stage: ArmStage::Writing, ..s }),
        s.stage == ArmStage::Reading && s.packet == 7 ==> s.after(
            ArmEvent::Replied(Some(n)),
        ).stage == ArmStage::Armed,
{
}

/// What does not belong to the stage changes nothing, and an ended handshake stays as it is.
pub proof fn law_stray_step(s: ArmState, ev: ArmEvent)
    ensures
        s.stage == ArmStage::Armed || s.stage == ArmStage::Failed ==> s.after(ev) == s,
        ev is Opened && s.stage != ArmStage::Opening ==> s.after(ev) == s,
        ev is Wrote && s.stage != ArmStage::Writing ==> s.after(ev) == s,
        ev is Replied && s.stage != ArmStage::Reading ==> s.after(ev) == s,
        s.after(ev).paths == s.paths,
{
}

/// The search arms a candidate before it opens it, takes the next one where either goes wrong, and
/// does not move for anything else.
pub proof fn law_search_steps(s: ConnectState, ok: bool)
    requires
        s.wf(),
    ensures
        ({
            let armed = s.after(ConnectEvent::Armed(ok));
            let opened = s.after(ConnectEvent::Opened(ok));
            let arming = s.stage == ConnectStage::Arming;
            let opening = s.stage == ConnectStage::Opening;
            &&& arming && ok ==> armed == (ConnectState { stage: ConnectStage::Opening, ..s })
            &&& opening && ok ==> opened == (ConnectState { stage: ConnectStage::Connected, ..s })
            &&& arming && !ok ==> armed.at == s.at + 1 && armed.count == s.count
            &&& arming && !ok && s.at + 1 < s.count ==> armed.stage == ConnectStage::Arming
            &&& arming && !ok && s.at + 1 >= s.count ==> armed.stage == ConnectStage::Failed
            &&& opening && !ok ==> opened.at == s.at + 1 && opened.count == s.count
            &&& opening && !ok && s.at + 1 < s.count ==> opened.stage == ConnectStage::Arming
            &&& opening && !ok && s.at + 1 >= s.count ==> opened.stage == ConnectStage::Failed
            &&& !arming ==> armed == s
            &&& !opening ==> opened == s
            &&& s.gives_up(ConnectEvent::Armed(ok)) <==> arming && !ok
            &&& s.gives_up(ConnectEvent::Opened(ok)) <==> opening && !ok
        }),
{
}

/// What is noted of a candidate tells its product id, and whether the handshake or the opening of
/// its audio interface went wrong.
pub proof fn law_tried_lines(d: AjazzDevice, ok: bool)
    ensures
        tried_line(d, ConnectEvent::Armed(ok)) == "PID="@ + text::hex4(d.product_id) + " ("@
            + d.product_string@ + ") 命令通道握手失败"@,
        tried_line(d, ConnectEvent::Opened(ok)) == "PID="@ + text::hex4(d.product_id)
            + " 音频接口打开失败"@,
{
}

} // verus!
