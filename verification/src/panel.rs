//! The state of the window: what it shows, what its controls mean for the settings, its log, and
//! its battery reminders.

use crate::config::Config;
use crate::hid::HidInterface;
use crate::{config, devices, hid, hotkey, text};
use vstd::prelude::*;

verus! {

/// The item for a voice key that gives neither voice nor a hotkey.
pub const NO_HOTKEY: &'static str = "无";

/// The item for a voice key that gives voice and no hotkey.
pub const VOICE_ONLY: &'static str = "仅语音(无热键)";

/// The most lines that the log holds, and how many stay where it overflows.
pub const MAX_LINES: usize = 1000;

pub const KEPT_LINES: usize = 800;

/// The longest delay of the automatic Enter, in nanoseconds.
pub const MAX_DELAY: u64 = 10_000_000_000;

/// The item that stands for a hotkey and a voice switch.
pub open spec fn item_of(name: Option<String>, ai: bool) -> Seq<char> {
    if config::is_bound(name) {
        name->0@
    } else if ai {
        VOICE_ONLY@
    } else {
        NO_HOTKEY@
    }
}

/// The item that stands for a hotkey and a voice switch.
pub fn hotkey_item(name: &Option<String>, ai: bool) -> (out: String)
    ensures
        out@ == item_of(*name, ai),
{
    if Config::hotkey_bound(name) {
        match name {
            Some(n) => n.clone(),
            None => text::owned(NO_HOTKEY),
        }
    } else if ai {
        text::owned(VOICE_ONLY)
    } else {
        text::owned(NO_HOTKEY)
    }
}

/// The hotkey that an item stands for.
pub open spec fn hotkey_of(sel: Seq<char>) -> Option<Seq<char>> {
    if sel == NO_HOTKEY@ || sel == VOICE_ONLY@ {
        None
    } else {
        Some(sel)
    }
}

/// A name by its characters.
pub open spec fn name_view(name: Option<String>) -> Option<Seq<char>> {
    match name {
        Some(n) => Some(n@),
        None => None,
    }
}

/// The hotkey and the voice switch that an item stands for.
pub fn split_hotkey_sel(sel: &str) -> (r: (Option<String>, bool))
    ensures
        name_view(r.0) == hotkey_of(sel@),
        r.1 == (sel@ == VOICE_ONLY@),
{
    if text::same(sel, VOICE_ONLY) {
        (None, true)
    } else if text::same(sel, NO_HOTKEY) {
        proof {
            lemma_items_differ();
        }
        (None, false)
    } else {
        (Some(text::owned(sel)), false)
    }
}

/// The two special items differ.
proof fn lemma_items_differ()
    ensures
        NO_HOTKEY@ != VOICE_ONLY@,
{
    reveal_strlit("无");
    reveal_strlit("仅语音(无热键)");
    assert(NO_HOTKEY@.len() != VOICE_ONLY@.len());
}

/// The items of the hotkey lists: none, voice alone, and the hotkeys.
pub open spec fn all_items() -> Seq<Seq<char>> {
    seq![NO_HOTKEY@, VOICE_ONLY@] + Seq::new(12, |i: int| hotkey::HOTKEY_NAMES@[i]@)
}

/// The items of the hotkey lists.
pub fn hotkey_items() -> (out: Vec<String>)
    ensures
        text::texts(out@) == all_items(),
{
    let mut out: Vec<String> = Vec::new();
    out.push(text::owned(NO_HOTKEY));
    out.push(text::owned(VOICE_ONLY));
    let mut i: usize = 0;
    assert(text::texts(out@) =~= all_items().take(2));
    while i < 12
        invariant
            i <= 12,
            text::texts(out@) == all_items().take(2 + i),
        decreases 12 - i,
    {
        let ghost before = text::texts(out@);
        out.push(text::owned(hotkey::HOTKEY_NAMES[i]));
        assert(text::texts(out@) =~= before.push(hotkey::HOTKEY_NAMES@[i as int]@));
        assert(all_items()[2 + i] == hotkey::HOTKEY_NAMES@[i as int]@);
        i += 1;
        assert(text::texts(out@) =~= all_items().take(2 + i));
    }
    assert(all_items().take(2 + i) =~= all_items());
    out
}

/// The place of the first item that is wanted; the first place where none is.
pub open spec fn place_of(items: Seq<Seq<char>>, want: Seq<char>) -> int
    decreases items.len(),
{
    if items.len() == 0 {
        0
    } else {
        let before = place_of(items.drop_last(), want);
        if items.drop_last().contains(want) || items.last() != want {
            before
        } else {
            items.len() - 1
        }
    }
}

/// What a place is.
pub proof fn law_place(items: Seq<Seq<char>>, want: Seq<char>)
    ensures
        ({
            let p = place_of(items, want);
            &&& items.len() > 0 ==> 0 <= p < items.len()
            &&& items.contains(want) ==> 0 <= p < items.len() && items[p] == want && forall|j: int|
                0 <= j < p ==> #[trigger] items[j] != want
            &&& !items.contains(want) ==> p == 0
        }),
    decreases items.len(),
{
    if items.len() > 0 {
        let front = items.drop_last();
        law_place(front, want);
        if items.contains(want) && !front.contains(want) {
            let j = choose|j: int| 0 <= j < items.len() && items[j] == want;
            assert(j < front.len() ==> front[j] == want);
            assert(items.last() == want);
            assert forall|j: int| 0 <= j < items.len() - 1 implies #[trigger] items[j] != want by {
                assert(front[j] == items[j]);
            }
        }
        if front.contains(want) {
            let j = choose|j: int| 0 <= j < front.len() && front[j] == want;
            assert(items[j] == want);
            let p = place_of(front, want);
            assert(items[p] == front[p]);
            assert forall|j: int| 0 <= j < p implies #[trigger] items[j] != want by {
                assert(front[j] == items[j]);
            }
        }
        if !items.contains(want) {
            assert(items[items.len() - 1] != want);
            assert(!front.contains(want)) by {
                if front.contains(want) {
                    let j = choose|j: int| 0 <= j < front.len() && front[j] == want;
                    assert(items[j] == want);
                }
            }
        }
    }
}

/// The place of the first item that is wanted; the first place where none is.
pub fn index_of(items: &Vec<String>, want: &str) -> (r: usize)
    ensures
        r == place_of(text::texts(items@), want@),
{
    let ghost all = text::texts(items@);
    proof {
        law_place(all, want@);
    }
    let mut i: usize = 0;
    while i < items.len()
        invariant
            i <= items.len(),
            all == text::texts(items@),
            forall|j: int| 0 <= j < i ==> #[trigger] all[j] != want@,
        decreases items.len() - i,
    {
        if text::same(items[i].as_str(), want) {
            proof {
                law_place(all, want@);
                assert(all[i as int] == want@);
                assert(all.contains(want@));
            }
            return i;
        }
        assert(all[i as int] != want@);
        i += 1;
    }
    assert(!all.contains(want@));
    0
}

/// The devices to choose from: those that the system lists, or the usual one where it lists
/// none, and the configured one where it is not among them.
pub open spec fn cable_choices(listed: Seq<Seq<char>>, configured: Seq<char>) -> Seq<Seq<char>> {
    let base = if listed.len() == 0 {
        seq!["CABLE Input"@]
    } else {
        listed
    };
    if configured.len() == 0 || base.contains(configured) {
        base
    } else {
        base.push(configured)
    }
}

/// Whether a list holds a text.
fn holds(items: &Vec<String>, want: &str) -> (r: bool)
    ensures
        r == text::texts(items@).contains(want@),
{
    let mut i: usize = 0;
    let ghost all = text::texts(items@);
    while i < items.len()
        invariant
            i <= items.len(),
            all == text::texts(items@),
            forall|j: int| 0 <= j < i ==> #[trigger] all[j] != want@,
        decreases items.len() - i,
    {
        if text::same(items[i].as_str(), want) {
            assert(all[i as int] == want@);
            return true;
        }
        assert(all[i as int] != want@);
        i += 1;
    }
    false
}

/// The devices to choose from.
pub fn cable_items(listed: Vec<String>, configured: &str) -> (out: Vec<String>)
    ensures
        text::texts(out@) == cable_choices(text::texts(listed@), configured@),
{
    let mut out = listed;
    if out.len() == 0 {
        out.push(text::owned("CABLE Input"));
        assert(text::texts(out@) =~= seq!["CABLE Input"@]);
    }
    let ghost base = text::texts(out@);
    if !text::same(configured, "") && !holds(&out, configured) {
        out.push(text::owned(configured));
        assert(text::texts(out@) =~= base.push(configured@));
    }
    proof {
        reveal_strlit("");
        assert(configured@.len() == 0 ==> configured@ =~= ""@);
        assert(text::texts(listed@).len() == listed@.len());
    }
    out
}

/// A log that forgets its oldest lines where it grows too long.
pub struct LogBook {
    pub lines: Vec<String>,
}

/// The log after another line.
pub open spec fn logged(lines: Seq<Seq<char>>, line: Seq<char>) -> Seq<Seq<char>> {
    let all = lines.push(line);
    if all.len() > MAX_LINES {
        all.skip(all.len() - KEPT_LINES)
    } else {
        all
    }
}

impl LogBook {
    /// An empty log.
    pub fn new() -> (r: LogBook)
        ensures
            r.lines@.len() == 0,
    {
        LogBook { lines: Vec::new() }
    }

    /// The lines of the log.
    pub open spec fn view(&self) -> Seq<Seq<char>> {
        text::texts(self.lines@)
    }

    /// Adds a line.
    pub fn append(&mut self, line: &str)
        ensures
            final(self)@ == logged(old(self)@, line@),
    {
        let ghost before = self@;
        self.lines.push(text::owned(line));
        assert(self@ =~= before.push(line@));
        if self.lines.len() > MAX_LINES {
            let from: usize = self.lines.len() - KEPT_LINES;
            let kept = self.lines.split_off(from);
            self.lines = kept;
            assert(self@ =~= before.push(line@).skip(before.len() + 1 - KEPT_LINES));
        }
    }

    /// The whole log as one text.
    pub fn text(&self) -> (out: String)
        ensures
            out@ == text::joined(self@, "\r\n"@),
    {
        text::join(&self.lines, "\r\n")
    }
}

/// The log never holds more than its limit, and its last line is the newest.
pub proof fn law_log_bounded(lines: Seq<Seq<char>>, line: Seq<char>)
    requires
        lines.len() <= MAX_LINES,
    ensures
        0 < logged(lines, line).len() <= MAX_LINES,
        logged(lines, line).last() == line,
        logged(lines, line).is_suffix_of(lines.push(line)),
{
}

/// Which battery reminders have been given.
#[derive(Debug, Clone, Copy, PartialEq, Eq, Structural)]
pub struct BatteryWatch {
    pub low_notified: bool,
    pub full_notified: bool,
}

/// A battery reminder.
#[derive(Debug, Clone, Copy, PartialEq, Eq, Structural)]
pub enum Reminder {
    Low(u8),
    Full,
}

impl BatteryWatch {
    /// The battery has become low: at most 10 %, and not told of yet.
    pub open spec fn tells_low(self, pct: u8) -> bool {
        pct <= 10 && !self.low_notified
    }

    /// The battery has become full on the charger, and this was not told of yet.
    pub open spec fn tells_full(self, pct: u8, charging: bool) -> bool {
        charging && pct >= 100 && !self.full_notified
    }

    /// The watch after a report. Above 10 % it can tell of a low battery again, off the charger
    /// and not full of a full one.
    pub open spec fn after(self, pct: u8, charging: bool) -> BatteryWatch {
        BatteryWatch {
            low_notified: pct <= 10,
            full_notified: if charging && pct >= 100 {
                true
            } else if !charging && pct < 100 {
                false
            } else {
                self.full_notified
            },
        }
    }

    /// The reminders of a report.
    pub open spec fn reminders(self, pct: u8, charging: bool) -> Seq<Reminder> {
        (if self.tells_low(pct) {
            seq![Reminder::Low(pct)]
        } else {
            Seq::empty()
        }) + (if self.tells_full(pct, charging) {
            seq![Reminder::Full]
        } else {
            Seq::empty()
        })
    }

    /// A watch that has told of nothing.
    pub fn new() -> (r: BatteryWatch)
        ensures
            !r.low_notified,
            !r.full_notified,
    {
        BatteryWatch { low_notified: false, full_notified: false }
    }

    /// Takes a report and gives the reminders.
    pub fn on_battery_update(&mut self, pct: u8, charging: bool) -> (out: Vec<Reminder>)
        ensures
            *final(self) == old(self).after(pct, charging),
            out@ == old(self).reminders(pct, charging),
    {
        let mut out: Vec<Reminder> = Vec::new();
        if pct <= 10 && !self.low_notified {
            self.low_notified = true;
            out.push(Reminder::Low(pct));
        } else if pct > 10 {
            self.low_notified = false;
        }
        if charging && pct >= 100 && !self.full_notified {
            self.full_notified = true;
            out.push(Reminder::Full);
        } else if !charging && pct < 100 {
            self.full_notified = false;
        }
        assert(out@ =~= old(self).reminders(pct, charging));
        out
    }
}

/// Each reminder is given once: while the battery stays low, or stays full on the charger, a
/// second report brings no second reminder; and once it has recovered, the next one does.
pub proof fn law_reminded_once(w: BatteryWatch, pct: u8, charging: bool, pct2: u8, charging2: bool)
    ensures
        pct <= 10 ==> !w.after(pct, charging).tells_low(pct2),
        pct > 10 ==> w.after(pct, charging).tells_low(pct2) == (pct2 <= 10),
        charging && pct >= 100 ==> !w.after(pct, charging).tells_full(pct2, charging2),
        !charging && pct < 100 ==> w.after(pct, charging).tells_full(pct2, charging2) == (charging2
            && pct2 >= 100),
{
}

/// What the log says of a reminder.
pub open spec fn reminder_line(r: Reminder) -> Seq<char> {
    match r {
        Reminder::Low(pct) => "低电量提醒: "@ + text::decimal(pct as nat) + "%"@,
        Reminder::Full => "充电完成提醒: 电池已充满"@,
    }
}

/// What the log says of a reminder.
pub fn reminder_log(r: Reminder) -> (out: String)
    ensures
        out@ == reminder_line(r),
{
    match r {
        Reminder::Low(pct) => {
            let mut out = text::owned("低电量提醒: ");
            text::push_decimal(&mut out, pct as u64);
            out.append("%");
            out
        },
        Reminder::Full => text::owned("充电完成提醒: 电池已充满"),
    }
}

/// The title of a reminder.
pub fn reminder_title(r: Reminder) -> (out: &'static str)
    ensures
        out@ == (match r {
            Reminder::Low(_) => "鼠标电量不足"@,
            Reminder::Full => "鼠标已充满"@,
        }),
{
    match r {
        Reminder::Low(_) => "鼠标电量不足",
        Reminder::Full => "鼠标已充满",
    }
}

/// The text of a reminder.
pub fn reminder_body(r: Reminder) -> (out: String)
    ensures
        out@ == (match r {
            Reminder::Low(pct) => "电量仅剩 "@ + text::decimal(pct as nat) + "%，请及时充电。"@,
            Reminder::Full => "电池已充满，可以拔掉充电线。"@,
        }),
{
    match r {
        Reminder::Low(pct) => {
            let mut out = text::owned("电量仅剩 ");
            text::push_decimal(&mut out, pct as u64);
            out.append("%，请及时充电。");
            out
        },
        Reminder::Full => text::owned("电池已充满，可以拔掉充电线。"),
    }
}

/// What the window shows of the battery.
pub fn battery_text(pct: u8, charging: bool) -> (out: String)
    ensures
        out@ == "电量: "@ + text::decimal(pct as nat) + (if charging {
            "% 充电中"@
        } else {
            "%"@
        }),
{
    let mut out = text::owned("电量: ");
    text::push_decimal(&mut out, pct as u64);
    if charging {
        out.append("% 充电中");
    } else {
        out.append("%");
    }
    out
}

/// What the bridge tells the window.
pub enum Msg {
    Log(String),
    Running(bool),
    Battery(u8, bool),
}

/// What the window has to show.
#[derive(Debug, Clone, Copy, PartialEq, Eq, Structural)]
pub enum Action {
    /// The battery level and whether it is charging; see [`battery_text`].
    Battery(u8, bool),
    /// A balloon at the tray icon.
    Balloon(Reminder),
    /// Whether the bridge runs; see [`status_text`].
    RunState(bool),
}

/// The state of the window.
pub struct AppState {
    pub mode_play: bool,
    pub cable_device: String,
    /// Selected items of the hotkey lists.
    pub hotkey_fwd: String,
    pub hotkey_bwd: String,
    pub driver: String,
    /// Product ids that were configured by hand; the window keeps them and does not show them.
    pub wired_pids: Vec<String>,
    pub wireless_pids: Vec<String>,
    pub autostart_on: bool,
    pub minimize_to_tray: bool,
    pub auto_start_service: bool,
    pub debug_log: bool,
    pub running: bool,
    pub log: LogBook,
    pub hotkey_items: Vec<String>,
    pub driver_items: Vec<String>,
    pub auto_enter: bool,
    pub auto_enter_mode: String,
    /// In nanoseconds.
    pub auto_enter_delay: u64,
    pub typeless_fwd: bool,
    pub typeless_bwd: bool,
    /// The window is to go to the tray.
    pub pending_hide: bool,
    /// The program was started with the system.
    pub autostart_launch: bool,
    pub battery: BatteryWatch,
}

/// The state before any settings are read.
pub open spec fn is_initial(s: AppState) -> bool {
    &&& s.mode_play
    &&& s.cable_device@ == "CABLE Input"@
    &&& s.hotkey_fwd@ == NO_HOTKEY@
    &&& s.hotkey_bwd@ == NO_HOTKEY@
    &&& s.driver@ == "sendinput"@
    &&& s.wired_pids@.len() == 0
    &&& s.wireless_pids@.len() == 0
    &&& !s.autostart_on
    &&& !s.minimize_to_tray
    &&& !s.auto_start_service
    &&& !s.debug_log
    &&& !s.running
    &&& s.log@.len() == 0
    &&& s.hotkey_items@.len() == 0
    &&& s.driver_items@.len() == 0
    &&& !s.auto_enter
    &&& s.auto_enter_mode@ == "enter"@
    &&& s.auto_enter_delay == 500_000_000
    &&& !s.typeless_fwd
    &&& !s.typeless_bwd
    &&& !s.pending_hide
    &&& !s.autostart_launch
    &&& !s.battery.low_notified
    &&& !s.battery.full_notified
}

impl Default for AppState {
    /// The state before any settings are read.
    fn default() -> (s: Self)
        ensures
            is_initial(s),
    {
        AppState {
            mode_play: true,
            cable_device: text::owned("CABLE Input"),
            hotkey_fwd: text::owned(NO_HOTKEY),
            hotkey_bwd: text::owned(NO_HOTKEY),
            driver: text::owned("sendinput"),
            wired_pids: Vec::new(),
            wireless_pids: Vec::new(),
            autostart_on: false,
            minimize_to_tray: false,
            auto_start_service: false,
            debug_log: false,
            running: false,
            log: LogBook::new(),
            hotkey_items: Vec::new(),
            driver_items: Vec::new(),
            auto_enter: false,
            auto_enter_mode: text::owned("enter"),
            auto_enter_delay: 500_000_000,
            typeless_fwd: false,
            typeless_bwd: false,
            pending_hide: false,
            autostart_launch: false,
            battery: BatteryWatch::new(),
        }
    }
}

/// The settings that a state shows are those of `c`.
pub open spec fn shows(s: AppState, c: Config) -> bool {
    &&& s.mode_play == (c.mode@ == "play"@)
    &&& s.cable_device@ == c.cable_device@
    &&& s.hotkey_fwd@ == item_of(c.hotkey_forward, c.ai_fwd)
    &&& s.hotkey_bwd@ == item_of(c.hotkey_backward, c.ai_bwd)
    &&& s.driver@ == c.driver@
    &&& text::texts(s.wired_pids@) == text::texts(c.wired_pids@)
    &&& text::texts(s.wireless_pids@) == text::texts(c.wireless_pids@)
    &&& s.autostart_on == c.autostart
    &&& s.minimize_to_tray == c.minimize_to_tray
    &&& s.auto_start_service == c.auto_start_service
    &&& s.auto_enter == c.auto_enter
    &&& s.auto_enter_mode@ == c.auto_enter_mode@
    &&& s.auto_enter_delay == c.auto_enter_delay
    &&& s.typeless_fwd == c.typeless_fwd
    &&& s.typeless_bwd == c.typeless_bwd
}

/// The items of the driver list.
pub open spec fn all_drivers() -> Seq<Seq<char>> {
    seq!["sendinput"@, "interception"@]
}

/// What the controls are set to when the window is built.
#[derive(Debug, Clone, Copy, PartialEq, Eq, Structural)]
pub struct Controls {
    pub fwd: usize,
    pub bwd: usize,
    pub driver: usize,
    pub cable: usize,
    pub mode: ModeControls,
    /// The place of the Enter mode.
    pub enter_mode: usize,
    /// Whether the tray icon is shown.
    pub tray: bool,
    /// Whether the bridge is started.
    pub start: bool,
}

/// What is selected in the lists of the window.
pub struct Selection {
    pub fwd: Option<usize>,
    pub bwd: Option<usize>,
    pub driver: Option<usize>,
    pub cable: Option<String>,
}

/// The item at a place of a list; a fallback where there is none.
pub open spec fn item_at(items: Seq<Seq<char>>, at: Option<usize>, fallback: Seq<char>) -> Seq<char> {
    match at {
        Some(i) => if i < items.len() {
            items[i as int]
        } else {
            fallback
        },
        None => fallback,
    }
}

/// The item at a place of a list; a fallback where there is none.
fn selected(items: &Vec<String>, at: Option<usize>, fallback: &str) -> (out: String)
    ensures
        out@ == item_at(text::texts(items@), at, fallback@),
{
    match at {
        Some(i) => {
            if i < items.len() {
                items[i].clone()
            } else {
                text::owned(fallback)
            }
        },
        None => text::owned(fallback),
    }
}

/// A copy of a list of texts.
fn copy_of(list: &Vec<String>) -> (out: Vec<String>)
    ensures
        text::texts(out@) == text::texts(list@),
{
    let mut out: Vec<String> = Vec::new();
    let mut i: usize = 0;
    assert(text::texts(out@) =~= text::texts(list@).take(0));
    while i < list.len()
        invariant
            i <= list@.len(),
            text::texts(out@) == text::texts(list@).take(i as int),
        decreases list@.len() - i,
    {
        let ghost before = text::texts(out@);
        out.push(list[i].clone());
        i += 1;
        assert(text::texts(out@) =~= before.push(list@[i - 1]@));
        assert(text::texts(out@) =~= text::texts(list@).take(i as int));
    }
    assert(text::texts(list@).take(i as int) =~= text::texts(list@));
    out
}

/// What closing the window does.
#[derive(Debug, Clone, Copy, PartialEq, Eq, Structural)]
pub enum CloseAction {
    /// The window goes to the tray.
    Hide,
    /// The program ends.
    Exit,
}

/// The status that the window shows.
pub fn status_text(running: bool) -> (r: &'static str)
    ensures
        r@ == (if running {
            "● 运行中"@
        } else {
            "● 已停止"@
        }),
{
    if running {
        "● 运行中"
    } else {
        "● 已停止"
    }
}

/// The hint for an output mode.
pub fn mode_hint(play: bool) -> (r: &'static str)
    ensures
        r@ == (if play {
            "提示: 扬声器试听直接经扬声器/耳机播放, 用于确认鼠标确实在出声。"@
        } else {
            "提示: 虚拟麦克风把声音送入 VB-CABLE 输入;\r\n在其他软件把 'CABLE Output' 选为麦克风, 或开启该设备监听才能听到。"@
        }),
{
    if play {
        "提示: 扬声器试听直接经扬声器/耳机播放, 用于确认鼠标确实在出声。"
    } else {
        "提示: 虚拟麦克风把声音送入 VB-CABLE 输入;\r\n在其他软件把 'CABLE Output' 选为麦克风, 或开启该设备监听才能听到。"
    }
}

/// What the controls of the output mode show.
#[derive(Debug, Clone, Copy, PartialEq, Eq, Structural)]
pub struct ModeControls {
    /// Which of the two buttons is checked.
    pub play_checked: bool,
    pub cable_checked: bool,
    /// Whether a device can be chosen.
    pub cable_enabled: bool,
}

/// What the controls of the output mode show: exactly one button is checked, and a device can be
/// chosen for the virtual microphone alone.
pub open spec fn mode_shown(play: bool) -> ModeControls {
    ModeControls { play_checked: play, cable_checked: !play, cable_enabled: !play }
}

/// What the controls of the output mode show.
pub fn mode_controls(play: bool) -> (r: ModeControls)
    ensures
        r == mode_shown(play),
{
    ModeControls { play_checked: play, cable_checked: !play, cable_enabled: !play }
}

/// The line that tells of a start.
pub open spec fn start_line(c: Config) -> Seq<char> {
    "已启动: 模式="@ + c.mode@ + " 前进="@ + (match c.hotkey_forward {
        Some(n) => n@,
        None => NO_HOTKEY@,
    }) + " 后退="@ + (match c.hotkey_backward {
        Some(n) => n@,
        None => NO_HOTKEY@,
    }) + " 驱动="@ + c.driver@
}

impl AppState {
    /// Takes over the settings before the window is built. The window goes to the tray where
    /// the program was started with the system or the settings ask for it.
    pub fn pre_build(&mut self, c: &Config, autostart: bool)
        ensures
            shows(*final(self), *c),
            text::texts(final(self).hotkey_items@) == all_items(),
            text::texts(final(self).driver_items@) == all_drivers(),
            final(self).autostart_launch == autostart,
            final(self).pending_hide == (autostart || c.minimize_to_tray || old(
                self,
            ).pending_hide),
            final(self).debug_log == old(self).debug_log,
            final(self).running == old(self).running,
            final(self).log == old(self).log,
            final(self).battery == old(self).battery,
    {
        self.mode_play = text::same(c.mode.as_str(), "play");
        self.cable_device = c.cable_device.clone();
        self.hotkey_fwd = hotkey_item(&c.hotkey_forward, c.ai_fwd);
        self.hotkey_bwd = hotkey_item(&c.hotkey_backward, c.ai_bwd);
        self.driver = c.driver.clone();
        self.wired_pids = copy_of(&c.wired_pids);
        self.wireless_pids = copy_of(&c.wireless_pids);
        self.autostart_on = c.autostart;
        self.minimize_to_tray = c.minimize_to_tray;
        self.auto_start_service = c.auto_start_service;
        self.auto_enter = c.auto_enter;
        self.auto_enter_mode = c.auto_enter_mode.clone();
        self.auto_enter_delay = c.auto_enter_delay;
        self.typeless_fwd = c.typeless_fwd;
        self.typeless_bwd = c.typeless_bwd;
        self.hotkey_items = hotkey_items();
        let mut drivers: Vec<String> = Vec::new();
        drivers.push(text::owned("sendinput"));
        drivers.push(text::owned("interception"));
        assert(text::texts(drivers@) =~= all_drivers());
        self.driver_items = drivers;
        self.autostart_launch = autostart;
        if autostart || self.minimize_to_tray {
            self.pending_hide = true;
        }
    }

    /// What the controls are set to when the window is built, where `cables` are the devices to
    /// choose from. Going to the tray and starting the bridge are independent of each other.
    pub fn post_build(&self, cables: &Vec<String>) -> (r: Controls)
        ensures
            r.fwd == place_of(text::texts(self.hotkey_items@), self.hotkey_fwd@),
            r.bwd == place_of(text::texts(self.hotkey_items@), self.hotkey_bwd@),
            r.driver == place_of(text::texts(self.driver_items@), self.driver@),
            r.cable == place_of(text::texts(cables@), self.cable_device@),
            r.mode == mode_shown(self.mode_play),
            r.enter_mode == (if self.auto_enter_mode@ == "ctrl_enter"@ {
                1int
            } else {
                0int
            }),
            r.tray == self.pending_hide,
            r.start == (self.autostart_launch || self.auto_start_service),
    {
        Controls {
            fwd: index_of(&self.hotkey_items, self.hotkey_fwd.as_str()),
            bwd: index_of(&self.hotkey_items, self.hotkey_bwd.as_str()),
            driver: index_of(&self.driver_items, self.driver.as_str()),
            cable: index_of(cables, self.cable_device.as_str()),
            mode: mode_controls(self.mode_play),
            enter_mode: if text::same(self.auto_enter_mode.as_str(), "ctrl_enter") {
                1
            } else {
                0
            },
            tray: self.pending_hide,
            start: self.autostart_launch || self.auto_start_service,
        }
    }

    /// What closing the window does: while the bridge runs, the window goes to the tray.
    pub fn on_close(&self) -> (r: CloseAction)
        ensures
            r == (if self.running {
                CloseAction::Hide
            } else {
                CloseAction::Exit
            }),
    {
        if self.running {
            CloseAction::Hide
        } else {
            CloseAction::Exit
        }
    }

    /// Chooses the output mode, and gives what its controls show, whatever they showed before.
    pub fn set_mode(&mut self, play: bool) -> (r: ModeControls)
        ensures
            *final(self) == (AppState { mode_play: play, ..*old(self) }),
            r == mode_shown(play),
    {
        self.mode_play = play;
        mode_controls(play)
    }

    /// Adds a line to the log.
    pub fn append_log(&mut self, line: &str)
        ensures
            final(self).log@ == logged(old(self).log@, line@),
            *final(self) == (AppState { log: final(self).log, ..*old(self) }),
    {
        self.log.append(line);
    }

    /// The program was set to start with the system, or not to.
    pub fn on_autostart_change(&mut self, on: bool)
        ensures
            final(self).log@ == logged(
                old(self).log@,
                if on {
                    "开机自启: 已开启"@
                } else {
                    "开机自启: 已关闭"@
                },
            ),
            *final(self) == (AppState { log: final(self).log, autostart_on: on, ..*old(self) }),
    {
        self.autostart_on = on;
        self.log.append(
            if on {
                "开机自启: 已开启"
            } else {
                "开机自启: 已关闭"
            },
        );
    }

    /// The debug log was switched on or off.
    pub fn on_debug_change(&mut self, on: bool)
        ensures
            final(self).log@ == logged(
                old(self).log@,
                if on {
                    "调试日志已开启 (每秒输出语音包/解码/队列/回调统计数据)"@
                } else {
                    "调试日志已关闭"@
                },
            ),
            *final(self) == (AppState { log: final(self).log, debug_log: on, ..*old(self) }),
    {
        self.debug_log = on;
        self.log.append(
            if on {
                "调试日志已开启 (每秒输出语音包/解码/队列/回调统计数据)"
            } else {
                "调试日志已关闭"
            },
        );
    }

    /// Takes over the settings of the check boxes, of the Enter mode and of the delay. `delay`
    /// is none where no number was written; it is cut at [`MAX_DELAY`].
    pub fn on_persist_setting(
        &mut self,
        minimize: bool,
        service: bool,
        auto_enter: bool,
        mode: Option<&str>,
        delay: Option<u64>,
        typeless_fwd: bool,
        typeless_bwd: bool,
    )
        ensures
            final(self).auto_enter_mode@ == (if hid::opt_view(mode) == Some("Ctrl+Enter"@) {
                "ctrl_enter"@
            } else {
                "enter"@
            }),
            final(self).auto_enter_delay == (match delay {
                Some(d) => if d > MAX_DELAY {
                    MAX_DELAY
                } else {
                    d
                },
                None => old(self).auto_enter_delay,
            }),
            delay matches Some(d) ==> final(self).auto_enter_delay == (if d <= 10_000_000_000 {
                d
            } else {
                10_000_000_000
            }),
            *final(self) == (AppState {
                minimize_to_tray: minimize,
                auto_start_service: service,
                auto_enter,
                auto_enter_mode: final(self).auto_enter_mode,
                auto_enter_delay: final(self).auto_enter_delay,
                typeless_fwd,
                typeless_bwd,
                ..*old(self)
            }),
    {
        self.minimize_to_tray = minimize;
        self.auto_start_service = service;
        self.auto_enter = auto_enter;
        let ctrl = match mode {
            Some(m) => text::same(m, "Ctrl+Enter"),
            None => false,
        };
        self.auto_enter_mode = text::owned(
            if ctrl {
                "ctrl_enter"
            } else {
                "enter"
            },
        );
        if let Some(d) = delay {
            self.auto_enter_delay = if d > MAX_DELAY {
                MAX_DELAY
            } else {
                d
            };
        }
        self.typeless_fwd = typeless_fwd;
        self.typeless_bwd = typeless_bwd;
    }

    /// Whether the window has to go to the tray now; it does so once.
    pub fn take_hide(&mut self) -> (r: bool)
        ensures
            r == old(self).pending_hide,
            *final(self) == (AppState { pending_hide: false, ..*old(self) }),
    {
        let r = self.pending_hide;
        self.pending_hide = false;
        r
    }

    /// The settings that the window gives for what is selected in its lists.
    pub open spec fn gives(self, sel: Selection, c: Config) -> bool {
        let fwd = item_at(text::texts(self.hotkey_items@), sel.fwd, NO_HOTKEY@);
        let bwd = item_at(text::texts(self.hotkey_items@), sel.bwd, NO_HOTKEY@);
        &&& c.mode@ == (if self.mode_play {
            "play"@
        } else {
            "cable"@
        })
        &&& c.cable_device@ == (match sel.cable {
            Some(d) => d@,
            None => self.cable_device@,
        })
        &&& name_view(c.hotkey_forward) == hotkey_of(fwd)
        &&& c.ai_fwd == (fwd == VOICE_ONLY@)
        &&& name_view(c.hotkey_backward) == hotkey_of(bwd)
        &&& c.ai_bwd == (bwd == VOICE_ONLY@)
        &&& c.driver@ == item_at(text::texts(self.driver_items@), sel.driver, "sendinput"@)
        &&& c.minimize_to_tray == self.minimize_to_tray
        &&& c.auto_start_service == self.auto_start_service
        &&& text::texts(c.wired_pids@) == text::texts(self.wired_pids@)
        &&& text::texts(c.wireless_pids@) == text::texts(self.wireless_pids@)
        &&& c.autostart == self.autostart_on
        &&& c.auto_enter == self.auto_enter
        &&& c.auto_enter_mode@ == self.auto_enter_mode@
        &&& c.auto_enter_delay == self.auto_enter_delay
        &&& c.typeless_fwd == self.typeless_fwd
        &&& c.typeless_bwd == self.typeless_bwd
    }

    /// The settings that the window shows. An item that is missing counts as none, a driver
    /// that is missing as the first one.
    pub fn current_config(&self, sel: &Selection) -> (c: Config)
        ensures
            self.gives(*sel, c),
    {
        let fwd = selected(&self.hotkey_items, sel.fwd, NO_HOTKEY);
        let bwd = selected(&self.hotkey_items, sel.bwd, NO_HOTKEY);
        let (hotkey_forward, ai_fwd) = split_hotkey_sel(fwd.as_str());
        let (hotkey_backward, ai_bwd) = split_hotkey_sel(bwd.as_str());
        Config {
            mode: text::owned(
                if self.mode_play {
                    "play"
                } else {
                    "cable"
                },
            ),
            cable_device: match &sel.cable {
                Some(d) => d.clone(),
                None => self.cable_device.clone(),
            },
            hotkey_forward,
            hotkey_backward,
            ai_fwd,
            ai_bwd,
            driver: selected(&self.driver_items, sel.driver, "sendinput"),
            minimize_to_tray: self.minimize_to_tray,
            auto_start_service: self.auto_start_service,
            wired_pids: copy_of(&self.wired_pids),
            wireless_pids: copy_of(&self.wireless_pids),
            autostart: self.autostart_on,
            auto_enter: self.auto_enter,
            auto_enter_mode: self.auto_enter_mode.clone(),
            auto_enter_delay: self.auto_enter_delay,
            typeless_fwd: self.typeless_fwd,
            typeless_bwd: self.typeless_bwd,
        }
    }

    /// Marks the bridge as running and tells of its start. Gives false, and does nothing, where
    /// it runs already.
    pub fn start_bridge(&mut self, c: &Config) -> (r: bool)
        ensures
            r == !old(self).running,
            old(self).running ==> *final(self) == *old(self),
            !old(self).running ==> final(self).log@ == logged(old(self).log@, start_line(*c))
                && *final(self) == (AppState {
                log: final(self).log,
                running: true,
                ..*old(self)
            }),
    {
        if self.running {
            return false;
        }
        self.running = true;
        let mut line = text::owned("已启动: 模式=");
        line.append(c.mode.as_str());
        line.append(" 前进=");
        line.append(
            match &c.hotkey_forward {
                Some(n) => n.as_str(),
                None => NO_HOTKEY,
            },
        );
        line.append(" 后退=");
        line.append(
            match &c.hotkey_backward {
                Some(n) => n.as_str(),
                None => NO_HOTKEY,
            },
        );
        line.append(" 驱动=");
        line.append(c.driver.as_str());
        self.log.append(line.as_str());
        true
    }

    /// Marks the bridge as stopped, once it has ended, and forgets the battery reminders.
    pub fn stop_bridge(&mut self)
        ensures
            final(self).log@ == logged(old(self).log@, "桥接已停止。"@),
            *final(self) == (AppState {
                log: final(self).log,
                running: false,
                battery: (BatteryWatch { low_notified: false, full_notified: false }),
                ..*old(self)
            }),
    {
        self.running = false;
        self.battery = BatteryWatch::new();
        self.log.append("桥接已停止。");
    }
}

/// The log after the reminders of a report.
pub open spec fn log_reminders(lines: Seq<Seq<char>>, rs: Seq<Reminder>) -> Seq<Seq<char>>
    decreases rs.len(),
{
    if rs.len() == 0 {
        lines
    } else {
        logged(log_reminders(lines, rs.drop_last()), reminder_line(rs.last()))
    }
}

/// The watch after messages.
pub open spec fn watch_after(w: BatteryWatch, msgs: Seq<Msg>) -> BatteryWatch
    decreases msgs.len(),
{
    if msgs.len() == 0 {
        w
    } else {
        let before = watch_after(w, msgs.drop_last());
        match msgs.last() {
            Msg::Battery(pct, charging) => before.after(pct, charging),
            _ => before,
        }
    }
}

/// The log after messages.
pub open spec fn log_after(lines: Seq<Seq<char>>, w: BatteryWatch, msgs: Seq<Msg>) -> Seq<Seq<char>>
    decreases msgs.len(),
{
    if msgs.len() == 0 {
        lines
    } else {
        let before = log_after(lines, w, msgs.drop_last());
        match msgs.last() {
            Msg::Log(line) => logged(before, line@),
            Msg::Running(_) => before,
            Msg::Battery(pct, charging) => log_reminders(
                before,
                watch_after(w, msgs.drop_last()).reminders(pct, charging),
            ),
        }
    }
}

/// Balloons for reminders.
pub open spec fn balloons(rs: Seq<Reminder>) -> Seq<Action> {
    Seq::new(rs.len(), |i: int| Action::Balloon(rs[i]))
}

/// What is shown for messages, but for whether the bridge runs.
pub open spec fn shown_for(w: BatteryWatch, msgs: Seq<Msg>) -> Seq<Action>
    decreases msgs.len(),
{
    if msgs.len() == 0 {
        Seq::empty()
    } else {
        let before = shown_for(w, msgs.drop_last());
        match msgs.last() {
            Msg::Battery(pct, charging) => before.push(Action::Battery(pct, charging)) + balloons(
                watch_after(w, msgs.drop_last()).reminders(pct, charging),
            ),
            _ => before,
        }
    }
}

/// What messages say last of whether the bridge runs.
pub open spec fn running_of(msgs: Seq<Msg>) -> Option<bool>
    decreases msgs.len(),
{
    if msgs.len() == 0 {
        None
    } else {
        match msgs.last() {
            Msg::Running(r) => Some(r),
            _ => running_of(msgs.drop_last()),
        }
    }
}

impl AppState {
    /// Takes a battery report.
    fn take_battery(&mut self, pct: u8, charging: bool, actions: &mut Vec<Action>)
        ensures
            *final(self) == (AppState {
                log: final(self).log,
                battery: old(self).battery.after(pct, charging),
                ..*old(self)
            }),
            final(self).log@ == log_reminders(
                old(self).log@,
                old(self).battery.reminders(pct, charging),
            ),
            final(actions)@ == old(actions)@.push(Action::Battery(pct, charging)) + balloons(
                old(self).battery.reminders(pct, charging),
            ),
    {
        actions.push(Action::Battery(pct, charging));
        let ghost start = actions@;
        let rs = self.battery.on_battery_update(pct, charging);
        let ghost s0 = *self;
        let mut i: usize = 0;
        assert(rs@.take(0) =~= Seq::<Reminder>::empty());
        assert(actions@ =~= start + balloons(rs@.take(0)));
        while i < rs.len()
            invariant
                i <= rs@.len(),
                self.log@ == log_reminders(s0.log@, rs@.take(i as int)),
                *self == (AppState { log: self.log, ..s0 }),
                actions@ == start + balloons(rs@.take(i as int)),
            decreases rs@.len() - i,
        {
            let r = rs[i];
            let line = reminder_log(r);
            self.log.append(line.as_str());
            actions.push(Action::Balloon(r));
            i += 1;
            assert(rs@.take(i as int).drop_last() =~= rs@.take(i - 1));
            assert(actions@ =~= start + balloons(rs@.take(i as int)));
        }
        assert(rs@.take(i as int) =~= rs@);
    }

    /// Takes one message, and gives whether the bridge runs where it says so.
    fn take_msg(&mut self, m: &Msg, actions: &mut Vec<Action>) -> (r: Option<bool>)
        ensures
            *final(self) == (AppState {
                log: final(self).log,
                battery: final(self).battery,
                ..*old(self)
            }),
            match *m {
                Msg::Log(line) => {
                    &&& final(self).log@ == logged(old(self).log@, line@)
                    &&& final(self).battery == old(self).battery
                    &&& final(actions)@ == old(actions)@
                    &&& r is None
                },
                Msg::Running(on) => {
                    &&& *final(self) == *old(self)
                    &&& final(actions)@ == old(actions)@
                    &&& r == Some(on)
                },
                Msg::Battery(pct, charging) => {
                    let rs = old(self).battery.reminders(pct, charging);
                    &&& final(self).log@ == log_reminders(old(self).log@, rs)
                    &&& final(self).battery == old(self).battery.after(pct, charging)
                    &&& final(actions)@ == old(actions)@.push(Action::Battery(pct, charging))
                        + balloons(rs)
                    &&& r is None
                },
            },
    {
        match m {
            Msg::Log(line) => {
                self.log.append(line.as_str());
                None
            },
            Msg::Running(on) => Some(*on),
            Msg::Battery(pct, charging) => {
                self.take_battery(*pct, *charging, actions);
                None
            },
        }
    }

    /// Takes messages in turn, and gives whether the bridge runs where they say so.
    fn take_all(&mut self, msgs: &Vec<Msg>, out: &mut Vec<Action>) -> (r: Option<bool>)
        requires
            old(out)@.len() == 0,
        ensures
            r == running_of(msgs@),
            final(self).battery == watch_after(old(self).battery, msgs@),
            final(self).log@ == log_after(old(self).log@, old(self).battery, msgs@),
            final(out)@ == shown_for(old(self).battery, msgs@),
            *final(self) == (AppState {
                log: final(self).log,
                battery: final(self).battery,
                ..*old(self)
            }),
    {
        let mut changed: Option<bool> = None;
        let mut i: usize = 0;
        let ghost s0 = *self;
        assert(msgs@.take(0) =~= Seq::<Msg>::empty());
        while i < msgs.len()
            invariant
                i <= msgs@.len(),
                changed == running_of(msgs@.take(i as int)),
                self.battery == watch_after(s0.battery, msgs@.take(i as int)),
                self.log@ == log_after(s0.log@, s0.battery, msgs@.take(i as int)),
                out@ == shown_for(s0.battery, msgs@.take(i as int)),
                *self == (AppState { log: self.log, battery: self.battery, ..s0 }),
            decreases msgs@.len() - i,
        {
            assert(msgs@.take(i + 1).drop_last() =~= msgs@.take(i as int));
            if let Some(r) = self.take_msg(&msgs[i], out) {
                changed = Some(r);
            }
            i += 1;
        }
        assert(msgs@.take(i as int) =~= msgs@);
        changed
    }

    /// Takes what the bridge has told since the last time, and gives what to show. Where the
    /// bridge has ended by itself, the log says so.
    pub fn on_tick(&mut self, msgs: &Vec<Msg>) -> (out: Vec<Action>)
        ensures
            final(self).battery == watch_after(old(self).battery, msgs@),
            final(self).running == (match running_of(msgs@) {
                Some(r) => r,
                None => old(self).running,
            }),
            ({
                let told = log_after(old(self).log@, old(self).battery, msgs@);
                final(self).log@ == (if running_of(msgs@) == Some(false) && old(self).running {
                    logged(told, "桥接已停止。"@)
                } else {
                    told
                })
            }),
            ({
                let told = shown_for(old(self).battery, msgs@);
                out@ == (match running_of(msgs@) {
                    Some(r) => told.push(Action::RunState(r)),
                    None => told,
                })
            }),
            *final(self) == (AppState {
                log: final(self).log,
                battery: final(self).battery,
                running: final(self).running,
                ..*old(self)
            }),
    {
        let mut out: Vec<Action> = Vec::new();
        let changed = self.take_all(msgs, &mut out);
        if let Some(r) = changed {
            let was_running = self.running;
            self.running = r;
            if !r && was_running {
                self.log.append("桥接已停止。");
            }
            out.push(Action::RunState(r));
        }
        out
    }
}

/// The product ids of the mice that are there, each once and in ascending order.
pub open spec fn is_found(pids: Seq<u16>, list: Seq<HidInterface>) -> bool {
    &&& forall|i: int, j: int| 0 <= i < j < pids.len() ==> pids[i] < pids[j]
    &&& forall|p: u16| #[trigger] pids.contains(p) <==> has_pid(list, p)
}

/// An interface of a supported mouse with this product id is listed.
pub open spec fn has_pid(list: Seq<HidInterface>, p: u16) -> bool {
    exists|i: int| 0 <= i < list.len() && hid::is_ours(#[trigger] list[i]) && list[i].pid == p
}

/// There is only one such list.
pub proof fn law_found_unique(a: Seq<u16>, b: Seq<u16>, list: Seq<HidInterface>)
    requires
        is_found(a, list),
        is_found(b, list),
    ensures
        a == b,
{
    lemma_found_prefix(a, b, list, a.len() as int);
    lemma_found_prefix(b, a, list, b.len() as int);
    assert(a =~= b);
}

/// The first places agree.
proof fn lemma_found_prefix(a: Seq<u16>, b: Seq<u16>, list: Seq<HidInterface>, n: int)
    requires
        is_found(a, list),
        is_found(b, list),
        0 <= n <= a.len(),
    ensures
        n <= b.len(),
        forall|i: int| 0 <= i < n ==> #[trigger] a[i] == b[i],
    decreases n,
{
    if n > 0 {
        lemma_found_prefix(a, b, list, n - 1);
        let p = a[n - 1];
        assert(a.contains(p));
        assert(has_pid(list, p));
        assert(b.contains(p));
        let k = choose|k: int| 0 <= k < b.len() && b[k] == p;
        if k < n - 1 {
            assert(a[k] == b[k]);
            assert(a[k] < a[n - 1]);
        }
        if k > n - 1 {
            let q = b[n - 1];
            assert(q < p);
            assert(b.contains(q));
            assert(has_pid(list, q));
            assert(a.contains(q));
            let m = choose|m: int| 0 <= m < a.len() && a[m] == q;
            if m < n - 1 {
                assert(b[m] == a[m]);
                assert(b[m] < b[n - 1]);
            } else if m > n - 1 {
                assert(a[n - 1] < a[m]);
            }
        }
    }
}

/// Where a product id goes in an ascending list: the number of smaller ones.
fn slot(pids: &Vec<u16>, p: u16) -> (r: usize)
    requires
        forall|i: int, j: int| 0 <= i < j < pids@.len() ==> pids@[i] < pids@[j],
    ensures
        r <= pids@.len(),
        forall|i: int| 0 <= i < r ==> #[trigger] pids@[i] < p,
        forall|i: int| r <= i < pids@.len() ==> #[trigger] pids@[i] >= p,
{
    let mut i: usize = 0;
    while i < pids.len()
        invariant
            i <= pids@.len(),
            forall|i: int, j: int| 0 <= i < j < pids@.len() ==> pids@[i] < pids@[j],
            forall|k: int| 0 <= k < i ==> #[trigger] pids@[k] < p,
        decreases pids@.len() - i,
    {
        if pids[i] >= p {
            return i;
        }
        i += 1;
    }
    i
}

/// The product ids of the mice that are there.
pub fn found_pids(list: &Vec<HidInterface>) -> (out: Vec<u16>)
    ensures
        is_found(out@, list@),
{
    let mut out: Vec<u16> = Vec::new();
    let mut n: usize = 0;
    while n < list.len()
        invariant
            n <= list@.len(),
            is_found(out@, list@.take(n as int)),
        decreases list@.len() - n,
    {
        let ghost before = list@.take(n as int);
        let ghost after = list@.take(n + 1);
        assert(forall|i: int| 0 <= i < n ==> before[i] == #[trigger] after[i]);
        let h = &list[n];
        assert(after[n as int] == list@[n as int]);
        if h.vid == crate::VID && devices::is_supported(h.pid) {
            let p = h.pid;
            let at: usize = slot(&out, p);
            let ghost old_out = out@;
            if at == out.len() || out[at] != p {
                out.insert(at, p);
                assert(out@ =~= old_out.insert(at as int, p));
            }
            assert forall|q: u16| #[trigger] out@.contains(q) <==> old_out.contains(q) || q == p by {
                if out@.contains(q) {
                    let i = choose|i: int| 0 <= i < out@.len() && out@[i] == q;
                    if out@ != old_out {
                        if i < at {
                            assert(old_out[i] == q);
                        } else if i > at {
                            assert(old_out[i - 1] == q);
                        }
                    }
                }
                if old_out.contains(q) {
                    let i = choose|i: int| 0 <= i < old_out.len() && old_out[i] == q;
                    if out@ != old_out {
                        if i < at {
                            assert(out@[i] == q);
                        } else {
                            assert(out@[i + 1] == q);
                        }
                    }
                }
                assert(out@[at as int] == p);
            }
            assert forall|q: u16| #[trigger] out@.contains(q) <==> has_pid(after, q) by {
                assert(out@.contains(q) <==> old_out.contains(q) || q == p);
                assert(old_out.contains(q) <==> has_pid(before, q));
                lemma_has_pid_step(before, after, q);
            }
            assert forall|i: int, j: int| 0 <= i < j < out@.len() implies out@[i] < out@[j] by {
                if out@ != old_out {
                    if j < at {
                        assert(old_out[i] < old_out[j]);
                    } else if i > at {
                        assert(old_out[i - 1] < old_out[j - 1]);
                    } else if i < at && j > at {
                        assert(old_out[i] < old_out[j - 1]);
                    } else if i == at {
                        assert(old_out[j - 1] >= p);
                        assert(old_out[at as int] != p);
                        if j - 1 > at {
                            assert(old_out[at as int] < old_out[j - 1]);
                        }
                    } else {
                        assert(old_out[i] < p);
                    }
                }
            }
        } else {
            assert forall|q: u16| #[trigger] out@.contains(q) <==> has_pid(after, q) by {
                assert(out@.contains(q) <==> has_pid(before, q));
                lemma_has_pid_step(before, after, q);
            }
        }
        n += 1;
    }
    assert(list@.take(n as int) =~= list@);
    out
}

/// One more interface adds its product id where it is of a supported mouse.
proof fn lemma_has_pid_step(before: Seq<HidInterface>, after: Seq<HidInterface>, q: u16)
    requires
        after.len() == before.len() + 1,
        forall|i: int| 0 <= i < before.len() ==> before[i] == #[trigger] after[i],
    ensures
        has_pid(after, q) <==> has_pid(before, q) || (hid::is_ours(after.last()) && after.last().pid
            == q),
{
    if has_pid(before, q) {
        let i = choose|i: int|
            0 <= i < before.len() && hid::is_ours(#[trigger] before[i]) && before[i].pid == q;
        assert(after[i] == before[i]);
    }
    if has_pid(after, q) {
        let i = choose|i: int|
            0 <= i < after.len() && hid::is_ours(#[trigger] after[i]) && after[i].pid == q;
        if i < before.len() {
            assert(before[i] == after[i]);
        }
    }
    if hid::is_ours(after.last()) && after.last().pid == q {
        assert(after[before.len() as int] == after.last());
    }
}

/// What is shown of a product id.
pub open spec fn pid_text(pid: u16) -> Seq<char> {
    if devices::records_of(pid).len() > 0 {
        devices::description(devices::records_of(pid))
    } else {
        ""@
    }
}

/// What is shown of a product id, with the id.
pub open spec fn pid_line(pid: u16) -> Seq<char> {
    pid_text(pid) + "  PID=0x"@ + text::hex4(pid)
}

/// The mice by name.
pub open spec fn pid_texts(pids: Seq<u16>) -> Seq<Seq<char>> {
    Seq::new(pids.len(), |i: int| pid_text(pids[i]))
}

/// The mice by name and product id.
pub open spec fn pid_lines(pids: Seq<u16>) -> Seq<Seq<char>> {
    Seq::new(pids.len(), |i: int| pid_line(pids[i]))
}

/// Which supported mice are there: a status, and a line for each. `list` is none where the
/// interfaces could not be listed.
pub fn detect_mouse(list: Option<&Vec<HidInterface>>) -> (r: (String, Vec<String>))
    ensures
        match list {
            None => r.0@ == "检测失败 (HID 初始化错误)"@ && r.1@.len() == 0,
            Some(l) => exists|pids: Seq<u16>| #[trigger]
                is_found(pids, l@) && r.0@ == (if pids.len() == 0 {
                    "未检测到 (AJ200 系列)"@
                } else {
                    text::joined(pid_texts(pids), " / "@)
                }) && text::texts(r.1@) == pid_lines(pids),
        },
{
    let list = match list {
        None => return (text::owned("检测失败 (HID 初始化错误)"), Vec::new()),
        Some(l) => l,
    };
    let pids = found_pids(list);
    let mut names: Vec<String> = Vec::new();
    let mut info: Vec<String> = Vec::new();
    if pids.len() == 0 {
        assert(text::texts(info@) =~= pid_lines(pids@));
        return (text::owned("未检测到 (AJ200 系列)"), info);
    }
    let mut i: usize = 0;
    assert(text::texts(names@) =~= pid_texts(pids@).take(0));
    assert(text::texts(info@) =~= pid_lines(pids@).take(0));
    while i < pids.len()
        invariant
            i <= pids@.len(),
            text::texts(names@) == pid_texts(pids@).take(i as int),
            text::texts(info@) == pid_lines(pids@).take(i as int),
        decreases pids@.len() - i,
    {
        let pid = pids[i];
        let desc = match devices::describe_pid(pid) {
            Some(d) => d,
            None => text::owned(""),
        };
        let mut line = desc.clone();
        line.append("  PID=0x");
        text::push_hex4(&mut line, pid);
        let ghost before = text::texts(names@);
        let ghost before_info = text::texts(info@);
        names.push(desc);
        info.push(line);
        i += 1;
        assert(text::texts(names@) =~= before.push(pid_text(pid)));
        assert(text::texts(names@) =~= pid_texts(pids@).take(i as int));
        assert(text::texts(info@) =~= before_info.push(pid_line(pid)));
        assert(text::texts(info@) =~= pid_lines(pids@).take(i as int));
    }
    assert(pid_texts(pids@).take(i as int) =~= pid_texts(pids@));
    assert(pid_lines(pids@).take(i as int) =~= pid_lines(pids@));
    (text::join(&names, " / "), info)
}

/// A device name holds the word that the virtual sound card has in its.
pub open spec fn is_cable(name: Option<String>) -> bool {
    name matches Some(n) && text::occurs(n@, "CABLE"@)
}

/// Whether the virtual sound card is there.
pub fn cable_found(names: &Vec<Option<String>>) -> (r: bool)
    ensures
        r == exists|i: int| 0 <= i < names@.len() && is_cable(#[trigger] names@[i]),
{
    let word = text::chars_of("CABLE");
    let mut i: usize = 0;
    while i < names.len()
        invariant
            i <= names@.len(),
            word@ == "CABLE"@,
            forall|j: int| 0 <= j < i ==> !is_cable(#[trigger] names@[j]),
        decreases names@.len() - i,
    {
        if let Some(n) = &names[i] {
            let chars = text::chars_of(n.as_str());
            if text::contains(chars.as_slice(), word.as_slice()) {
                return true;
            }
        }
        i += 1;
    }
    false
}

/// The state of the Interception driver.
pub open spec fn interception_state(driver: bool, dll: bool) -> Seq<char> {
    if driver && dll {
        "已安装"@
    } else if driver {
        "缺 DLL"@
    } else if dll {
        "缺驱动"@
    } else {
        "未安装"@
    }
}

/// The state of the Interception driver, which takes a driver in the system and a library.
pub fn interception_status(driver: bool, dll: bool) -> (r: &'static str)
    ensures
        r@ == interception_state(driver, dll),
{
    if driver && dll {
        "已安装"
    } else if driver {
        "缺 DLL"
    } else if dll {
        "缺驱动"
    } else {
        "未安装"
    }
}

/// Lines, each with its end.
pub open spec fn ended(lines: Seq<Seq<char>>) -> Seq<char>
    decreases lines.len(),
{
    if lines.len() == 0 {
        Seq::empty()
    } else {
        ended(lines.drop_last()) + lines.last() + "\r\n"@
    }
}

/// What the program needs, and what of it is there.
pub open spec fn deps_lines(
    mouse: Seq<char>,
    info: Seq<Seq<char>>,
    cable: bool,
    driver: bool,
    dll: bool,
) -> Seq<Seq<char>> {
    seq![
        "鼠标: "@ + mouse,
        "VB-CABLE: "@ + (if cable {
            "已安装"@
        } else {
            "未检测到"@
        }),
        "Interception: "@ + interception_state(driver, dll),
    ] + (if info.len() == 0 {
        Seq::empty()
    } else {
        seq![""@] + info
    })
}

/// Appends a line with its end.
fn push_line(out: &mut String, a: &str, b: &str)
    ensures
        final(out)@ == old(out)@ + (a@ + b@) + "\r\n"@,
{
    out.append(a);
    out.append(b);
    out.append("\r\n");
    assert(out@ =~= old(out)@ + (a@ + b@) + "\r\n"@);
}

/// Lines with their ends, one more.
proof fn lemma_ended_push(lines: Seq<Seq<char>>, line: Seq<char>)
    ensures
        ended(lines.push(line)) == ended(lines) + line + "\r\n"@,
{
    assert(lines.push(line).drop_last() =~= lines);
}

/// The text of the dependency check.
pub fn deps_text(mouse: &str, info: &Vec<String>, cable: bool, driver: bool, dll: bool) -> (out:
    String)
    ensures
        out@ == ended(deps_lines(mouse@, text::texts(info@), cable, driver, dll)),
{
    let mut out = String::new();
    let ghost all = deps_lines(mouse@, text::texts(info@), cable, driver, dll);
    let ghost none = Seq::<Seq<char>>::empty();
    push_line(&mut out, "鼠标: ", mouse);
    push_line(
        &mut out,
        "VB-CABLE: ",
        if cable {
            "已安装"
        } else {
            "未检测到"
        },
    );
    push_line(&mut out, "Interception: ", interception_status(driver, dll));
    proof {
        lemma_ended_push(none, all[0]);
        lemma_ended_push(none.push(all[0]), all[1]);
        lemma_ended_push(none.push(all[0]).push(all[1]), all[2]);
        assert(none.push(all[0]).push(all[1]).push(all[2]) =~= all.take(3));
        assert(out@ =~= ended(all.take(3)));
    }
    if info.len() > 0 {
        push_line(&mut out, "", "");
        proof {
            reveal_strlit("");
            assert(""@ + ""@ =~= ""@);
            lemma_ended_push(all.take(3), ""@);
            assert(all.take(3).push(""@) =~= all.take(4));
        }
        let mut i: usize = 0;
        while i < info.len()
            invariant
                i <= info@.len(),
                info@.len() > 0,
                all == deps_lines(mouse@, text::texts(info@), cable, driver, dll),
                out@ == ended(all.take(4 + i)),
            decreases info@.len() - i,
        {
            let ghost before = out@;
            push_line(&mut out, info[i].as_str(), "");
            proof {
                reveal_strlit("");
                assert(info@[i as int]@ + ""@ =~= info@[i as int]@);
                assert(all[4 + i] == info@[i as int]@);
                lemma_ended_push(all.take(4 + i), all[4 + i]);
                assert(all.take(4 + i).push(all[4 + i]) =~= all.take(4 + i + 1));
            }
            i += 1;
        }
        assert(all.take(4 + i) =~= all);
    } else {
        assert(all.take(3) =~= all);
    }
    out
}

/// A device by its place in the system's list.
pub open spec fn place_line(i: nat, name: Seq<char>) -> Seq<char> {
    "  ["@ + text::decimal(i) + "] "@ + name
}

/// The devices with a name, each by its place.
pub open spec fn place_lines(names: Seq<Option<String>>) -> Seq<Seq<char>>
    decreases names.len(),
{
    if names.len() == 0 {
        Seq::empty()
    } else {
        let before = place_lines(names.drop_last());
        match names.last() {
            Some(n) => before.push(place_line((names.len() - 1) as nat, n@)),
            None => before,
        }
    }
}

/// The lines that list the output devices.
pub fn list_devices(names: &Vec<Option<String>>) -> (out: Vec<String>)
    ensures
        text::texts(out@) == seq!["可用输出设备:"@] + place_lines(names@),
{
    let mut out: Vec<String> = Vec::new();
    out.push(text::owned("可用输出设备:"));
    let ghost head = seq!["可用输出设备:"@];
    assert(names@.take(0) =~= Seq::<Option<String>>::empty());
    assert(text::texts(out@) =~= head + place_lines(names@.take(0)));
    let mut i: usize = 0;
    while i < names.len()
        invariant
            i <= names@.len(),
            text::texts(out@) == head + place_lines(names@.take(i as int)),
        decreases names@.len() - i,
    {
        assert(names@.take(i + 1).drop_last() =~= names@.take(i as int));
        let ghost before = text::texts(out@);
        if let Some(n) = &names[i] {
            let mut line = text::owned("  [");
            text::push_decimal(&mut line, i as u64);
            line.append("] ");
            line.append(n.as_str());
            out.push(line);
            assert(text::texts(out@) =~= before.push(place_line(i as nat, n@)));
        }
        i += 1;
        assert(text::texts(out@) =~= head + place_lines(names@.take(i as int)));
    }
    assert(names@.take(i as int) =~= names@);
    out
}

/// The hotkeys that can be chosen are no special items.
pub proof fn law_hotkeys_are_plain(name: Seq<char>)
    requires
        hotkey::listed(name),
    ensures
        name != NO_HOTKEY@,
        name != VOICE_ONLY@,
        all_items().contains(name),
{
    reveal_strlit("无");
    reveal_strlit("仅语音(无热键)");
    reveal_strlit("L_alt");
    reveal_strlit("R_alt");
    reveal_strlit("R_ctrl");
    reveal_strlit("R_shift");
    reveal_strlit("f9");
    reveal_strlit("f10");
    reveal_strlit("space");
    reveal_strlit("grave");
    reveal_strlit("capslock");
    reveal_strlit("R_alt+space");
    reveal_strlit("R_alt+R_shift");
    reveal_strlit("R_alt+R_ctrl");
    let i = choose|i: int| 0 <= i < 12 && (#[trigger] hotkey::HOTKEY_NAMES@[i])@ == name;
    assert(name[0] == 'L' || name[0] == 'R' || name[0] == 'f' || name[0] == 's' || name[0] == 'g'
        || name[0] == 'c');
    assert(NO_HOTKEY@[0] == '无');
    assert(VOICE_ONLY@[0] == '仅');
    assert(all_items()[2 + i] == name);
}

/// Nothing is lost on the way through the window: settings that it takes over and gives back with
/// what it selected itself are the same, where the mode, the hotkeys and the driver are among
/// those to choose from and the device is left as it is.
pub proof fn law_settings_kept(s: AppState, given: Config, sel: Selection, saved: Config)
    requires
        shows(s, given),
        text::texts(s.hotkey_items@) == all_items(),
        text::texts(s.driver_items@) == all_drivers(),
        given.mode@ == "play"@ || given.mode@ == "cable"@,
        config::is_bound(given.hotkey_forward) ==> hotkey::listed(given.hotkey_forward->0@),
        config::is_bound(given.hotkey_backward) ==> hotkey::listed(given.hotkey_backward->0@),
        all_drivers().contains(given.driver@),
        sel.fwd == Some(place_of(all_items(), s.hotkey_fwd@) as usize),
        sel.bwd == Some(place_of(all_items(), s.hotkey_bwd@) as usize),
        sel.driver == Some(place_of(all_drivers(), s.driver@) as usize),
        sel.cable is None,
        s.gives(sel, saved),
    ensures
        saved.mode@ == given.mode@,
        saved.cable_device@ == given.cable_device@,
        config::is_bound(saved.hotkey_forward) == config::is_bound(given.hotkey_forward),
        config::is_bound(given.hotkey_forward) ==> saved.hotkey_forward->0@
            == given.hotkey_forward->0@,
        config::is_bound(saved.hotkey_backward) == config::is_bound(given.hotkey_backward),
        config::is_bound(given.hotkey_backward) ==> saved.hotkey_backward->0@
            == given.hotkey_backward->0@,
        (config::is_bound(saved.hotkey_forward) || saved.ai_fwd) == (config::is_bound(
            given.hotkey_forward,
        ) || given.ai_fwd),
        (config::is_bound(saved.hotkey_backward) || saved.ai_bwd) == (config::is_bound(
            given.hotkey_backward,
        ) || given.ai_bwd),
        saved.driver@ == given.driver@,
        text::texts(saved.wired_pids@) == text::texts(given.wired_pids@),
        text::texts(saved.wireless_pids@) == text::texts(given.wireless_pids@),
        saved.minimize_to_tray == given.minimize_to_tray,
        saved.auto_start_service == given.auto_start_service,
        saved.autostart == given.autostart,
        saved.auto_enter == given.auto_enter,
        saved.auto_enter_mode@ == given.auto_enter_mode@,
        saved.auto_enter_delay == given.auto_enter_delay,
        saved.typeless_fwd == given.typeless_fwd,
        saved.typeless_bwd == given.typeless_bwd,
{
    law_selection_round_trip(given.hotkey_forward, given.ai_fwd);
    law_selection_round_trip(given.hotkey_backward, given.ai_bwd);
    law_place(all_drivers(), given.driver@);
    lemma_items_differ();
}

/// What is chosen is what is saved: the item that stands for a hotkey and a voice switch stands
/// for that hotkey, and for that switch where there is no hotkey.
pub proof fn law_item_round_trip(name: Option<String>, ai: bool)
    requires
        name matches Some(n) ==> n@ != VOICE_ONLY@,
    ensures
        hotkey_of(item_of(name, ai)) == (if config::is_bound(name) {
            Some(name->0@)
        } else {
            None
        }),
        (item_of(name, ai) == VOICE_ONLY@) == (!config::is_bound(name) && ai),
{
    lemma_items_differ();
}

/// What the window shows of a hotkey is what it saves: a hotkey that can be chosen, or none,
/// selected in the list where the window selects it, gives the same hotkey back, and gives voice
/// if and only if it did before.
pub proof fn law_selection_round_trip(name: Option<String>, ai: bool)
    requires
        config::is_bound(name) ==> hotkey::listed(name->0@),
    ensures
        ({
            let shown = item_of(name, ai);
            let at = place_of(all_items(), shown);
            let saved = item_at(all_items(), Some(at as usize), NO_HOTKEY@);
            &&& saved == shown
            &&& hotkey_of(saved) == (if config::is_bound(name) {
                Some(name->0@)
            } else {
                None
            })
            &&& (hotkey_of(saved) is Some || saved == VOICE_ONLY@) == (config::is_bound(name) || ai)
        }),
{
    let shown = item_of(name, ai);
    lemma_items_differ();
    assert(all_items()[0] == NO_HOTKEY@);
    assert(all_items()[1] == VOICE_ONLY@);
    if config::is_bound(name) {
        law_hotkeys_are_plain(name->0@);
    }
    assert(all_items().contains(shown));
    law_place(all_items(), shown);
}

/// A hotkey that binds a key is shown by its name; a voice key without one as "仅语音(无热键)" where
/// it gives voice, else as "无". Those two items stand for no hotkey, every other for itself.
pub proof fn law_items_shown(name: Option<String>, ai: bool, sel: Seq<char>)
    ensures
        (name matches Some(n) && n@ != "无"@) ==> item_of(name, ai) == name->0@,
        name is None && ai ==> item_of(name, ai) == "仅语音(无热键)"@,
        name is None && !ai ==> item_of(name, ai) == "无"@,
        (name matches Some(n) && n@ == "无"@) ==> item_of(name, ai) == item_of(None, ai),
        hotkey_of("无"@) is None,
        hotkey_of("仅语音(无热键)"@) is None,
        sel != "无"@ && sel != "仅语音(无热键)"@ ==> hotkey_of(sel) == Some(sel),
{
}

/// The hotkey lists start with "无" and "仅语音(无热键)" and then hold the twelve hotkeys.
pub proof fn law_all_items(i: int)
    requires
        0 <= i < 12,
    ensures
        all_items().len() == 14,
        all_items()[0] == "无"@,
        all_items()[1] == "仅语音(无热键)"@,
        all_items()[i + 2] == hotkey::HOTKEY_NAMES@[i]@,
        all_items()[2] == "L_alt"@,
        all_items()[3] == "R_alt"@,
        all_drivers().len() == 2,
        all_drivers()[0] == "sendinput"@,
        all_drivers()[1] == "interception"@,
{
    assert(hotkey::HOTKEY_NAMES@[0]@ == "L_alt"@);
    assert(hotkey::HOTKEY_NAMES@[1]@ == "R_alt"@);
}

/// Every device that the system lists can be chosen, in its order, and so can the configured one;
/// "CABLE Input" stands in where the system lists none, and nothing else can be chosen.
pub proof fn law_cable_choices(listed: Seq<Seq<char>>, configured: Seq<char>, name: Seq<char>)
    ensures
        listed.is_prefix_of(cable_choices(listed, configured)),
        configured.len() > 0 ==> cable_choices(listed, configured).contains(configured),
        listed.len() == 0 ==> cable_choices(listed, configured)[0] == "CABLE Input"@,
        cable_choices(listed, configured).contains(name) ==> listed.contains(name) || (name
            == configured && configured.len() > 0) || (listed.len() == 0 && name
            == "CABLE Input"@),
        listed.len() > 0 && listed.contains(configured) ==> cable_choices(listed, configured)
            == listed,
        cable_choices(listed, configured).len() > 0,
{
    let base = if listed.len() == 0 {
        seq!["CABLE Input"@]
    } else {
        listed
    };
    let all = cable_choices(listed, configured);
    if configured.len() > 0 && !base.contains(configured) {
        assert(all[base.len() as int] == configured);
    }
    if all.contains(name) {
        let i = choose|i: int| 0 <= i < all.len() && all[i] == name;
        if i < base.len() {
            assert(base[i] == name);
        }
    }
}

/// A log of fewer than 1000 lines takes another behind all that it holds. One of 1000 keeps the
/// newest 800, the new one among them.
pub proof fn law_log_lines(lines: Seq<Seq<char>>, line: Seq<char>, i: int)
    ensures
        lines.len() < 1000 ==> logged(lines, line) == lines.push(line),
        lines.len() >= 1000 ==> logged(lines, line).len() == 800,
        lines.len() >= 1000 && 0 <= i < 799 ==> logged(lines, line)[i] == lines[lines.len() - 799
            + i],
        lines.len() >= 1000 ==> logged(lines, line)[799] == line,
{
}

/// A report of at most 10 % brings a reminder with that level where none was given, and one of a
/// full battery on the charger another; nothing else does, and the low battery is told of first.
pub proof fn law_reminders(w: BatteryWatch, pct: u8, charging: bool)
    ensures
        pct <= 10 && !w.low_notified ==> w.reminders(pct, charging) == seq![Reminder::Low(pct)],
        pct >= 100 && charging && !w.full_notified ==> w.reminders(pct, charging) == seq![
            Reminder::Full,
        ],
        (pct > 10 || w.low_notified) && (pct < 100 || !charging || w.full_notified)
            ==> w.reminders(pct, charging).len() == 0,
{
    if pct <= 10 && !w.low_notified {
        assert(w.reminders(pct, charging) =~= seq![Reminder::Low(pct)]);
    }
    if pct >= 100 && charging && !w.full_notified {
        assert(w.reminders(pct, charging) =~= seq![Reminder::Full]);
    }
}

/// What was told is remembered: of a low battery until a report above 10 %, of a full one until a
/// report below 100 % off the charger.
pub proof fn law_reminders_remembered(w: BatteryWatch, pct: u8, charging: bool)
    ensures
        w.after(pct, charging).low_notified <==> pct <= 10,
        charging && pct >= 100 ==> w.after(pct, charging).full_notified,
        !charging && pct < 100 ==> !w.after(pct, charging).full_notified,
        charging != (pct >= 100) ==> w.after(pct, charging).full_notified == w.full_notified,
{
}

/// What the log says of reminders.
pub proof fn law_reminder_lines(pct: u8)
    ensures
        reminder_line(Reminder::Low(pct)) == "低电量提醒: "@ + text::decimal(pct as nat) + "%"@,
        reminder_line(Reminder::Full) == "充电完成提醒: 电池已充满"@,
{
}

/// Before any settings are read the window shows the speaker, no hotkeys and nothing running.
pub proof fn law_initial_state(s: AppState)
    requires
        is_initial(s),
    ensures
        s.mode_play && !s.running && !s.pending_hide && !s.autostart_launch && !s.debug_log,
        s.cable_device@ == "CABLE Input"@,
        s.hotkey_fwd@ == "无"@ && s.hotkey_bwd@ == "无"@,
        s.driver@ == "sendinput"@,
        s.auto_enter_mode@ == "enter"@,
        s.auto_enter_delay == 500_000_000,
        !(s.auto_enter || s.typeless_fwd || s.typeless_bwd || s.autostart_on || s.minimize_to_tray
            || s.auto_start_service),
        s.log@.len() == 0,
        s.wired_pids@.len() == 0 && s.wireless_pids@.len() == 0,
        s.battery == (BatteryWatch { low_notified: false, full_notified: false }),
{
}

/// The window shows each setting by itself: the forward key's hotkey for the forward key, the
/// backward key's for the backward key, and so on.
pub proof fn law_settings_shown(s: AppState, c: Config)
    requires
        shows(s, c),
    ensures
        s.mode_play <==> c.mode@ == "play"@,
        s.cable_device@ == c.cable_device@,
        config::is_bound(c.hotkey_forward) ==> s.hotkey_fwd@ == c.hotkey_forward->0@,
        config::is_bound(c.hotkey_backward) ==> s.hotkey_bwd@ == c.hotkey_backward->0@,
        !config::is_bound(c.hotkey_forward) ==> s.hotkey_fwd@ == (if c.ai_fwd {
            "仅语音(无热键)"@
        } else {
            "无"@
        }),
        !config::is_bound(c.hotkey_backward) ==> s.hotkey_bwd@ == (if c.ai_bwd {
            "仅语音(无热键)"@
        } else {
            "无"@
        }),
        s.driver@ == c.driver@,
        text::texts(s.wired_pids@) == text::texts(c.wired_pids@),
        text::texts(s.wireless_pids@) == text::texts(c.wireless_pids@),
        s.autostart_on == c.autostart,
        s.minimize_to_tray == c.minimize_to_tray,
        s.auto_start_service == c.auto_start_service,
        s.auto_enter == c.auto_enter,
        s.auto_enter_mode@ == c.auto_enter_mode@,
        s.auto_enter_delay == c.auto_enter_delay,
        s.typeless_fwd == c.typeless_fwd,
        s.typeless_bwd == c.typeless_bwd,
{
}

/// The window gives each setting by itself: what is selected for the forward key goes to the
/// forward key, what is selected for the backward key to the backward key, and so on.
pub proof fn law_settings_given(s: AppState, sel: Selection, c: Config)
    requires
        s.gives(sel, c),
    ensures
        s.mode_play ==> c.mode@ == "play"@,
        !s.mode_play ==> c.mode@ == "cable"@,
        sel.cable matches Some(d) ==> c.cable_device@ == d@,
        sel.cable is None ==> c.cable_device@ == s.cable_device@,
        (sel.fwd matches Some(i) && i < s.hotkey_items@.len() && s.hotkey_items@[i as int]@ != "无"@
            && s.hotkey_items@[i as int]@ != "仅语音(无热键)"@) ==> c.hotkey_forward is Some
            && c.hotkey_forward->0@ == s.hotkey_items@[sel.fwd->0 as int]@ && !c.ai_fwd,
        (sel.bwd matches Some(i) && i < s.hotkey_items@.len() && s.hotkey_items@[i as int]@ != "无"@
            && s.hotkey_items@[i as int]@ != "仅语音(无热键)"@) ==> c.hotkey_backward is Some
            && c.hotkey_backward->0@ == s.hotkey_items@[sel.bwd->0 as int]@ && !c.ai_bwd,
        (sel.fwd matches Some(i) && i < s.hotkey_items@.len() && s.hotkey_items@[i as int]@
            == "仅语音(无热键)"@) ==> c.hotkey_forward is None && c.ai_fwd,
        (sel.bwd matches Some(i) && i < s.hotkey_items@.len() && s.hotkey_items@[i as int]@
            == "仅语音(无热键)"@) ==> c.hotkey_backward is None && c.ai_bwd,
        sel.fwd is None ==> c.hotkey_forward is None && !c.ai_fwd,
        sel.bwd is None ==> c.hotkey_backward is None && !c.ai_bwd,
        (sel.driver matches Some(i) && i < s.driver_items@.len()) ==> c.driver@
            == s.driver_items@[sel.driver->0 as int]@,
        sel.driver is None ==> c.driver@ == "sendinput"@,
        text::texts(c.wired_pids@) == text::texts(s.wired_pids@),
        text::texts(c.wireless_pids@) == text::texts(s.wireless_pids@),
        c.autostart == s.autostart_on,
        c.minimize_to_tray == s.minimize_to_tray,
        c.auto_start_service == s.auto_start_service,
        c.auto_enter == s.auto_enter,
        c.auto_enter_mode@ == s.auto_enter_mode@,
        c.auto_enter_delay == s.auto_enter_delay,
        c.typeless_fwd == s.typeless_fwd,
        c.typeless_bwd == s.typeless_bwd,
{
    lemma_items_differ();
}

/// A place of the list gives the item that stands there; any other place gives the fallback.
pub proof fn law_item_at(items: Seq<Seq<char>>, i: usize, fallback: Seq<char>)
    ensures
        i < items.len() ==> item_at(items, Some(i), fallback) == items[i as int],
        i >= items.len() ==> item_at(items, Some(i), fallback) == fallback,
        item_at(items, None, fallback) == fallback,
{
}

/// Of the two buttons of the output mode the one that was chosen is checked and the other is not;
/// a device can be chosen only for the virtual microphone.
pub proof fn law_mode_shown(play: bool)
    ensures
        mode_shown(play).play_checked <==> play,
        mode_shown(play).cable_checked <==> !play,
        mode_shown(play).cable_enabled <==> !play,
{
}

/// The line of a start names mode, both hotkeys and driver; "无" stands for a missing hotkey.
pub proof fn law_start_line(c: Config)
    ensures
        (c.hotkey_forward is Some && c.hotkey_backward is Some) ==> start_line(c) == "已启动: 模式="@
            + c.mode@ + " 前进="@ + c.hotkey_forward->0@ + " 后退="@ + c.hotkey_backward->0@
            + " 驱动="@ + c.driver@,
        (c.hotkey_forward is Some && c.hotkey_backward is None) ==> start_line(c) == "已启动: 模式="@
            + c.mode@ + " 前进="@ + c.hotkey_forward->0@ + " 后退="@ + "无"@ + " 驱动="@
            + c.driver@,
        (c.hotkey_forward is None && c.hotkey_backward is Some) ==> start_line(c) == "已启动: 模式="@
            + c.mode@ + " 前进="@ + "无"@ + " 后退="@ + c.hotkey_backward->0@ + " 驱动="@
            + c.driver@,
        (c.hotkey_forward is None && c.hotkey_backward is None) ==> start_line(c) == "已启动: 模式="@
            + c.mode@ + " 前进="@ + "无"@ + " 后退="@ + "无"@ + " 驱动="@ + c.driver@,
{
}

/// Messages count one after the other: a line is logged and shows nothing, a battery report goes to
/// the watch and is shown, and whether the bridge runs is what was said last.
pub proof fn law_one_more_message(
    lines: Seq<Seq<char>>,
    w: BatteryWatch,
    msgs: Seq<Msg>,
    line: String,
    pct: u8,
    charging: bool,
    r: bool,
)
    ensures
        log_after(lines, w, Seq::empty()) == lines,
        shown_for(w, Seq::empty()).len() == 0,
        running_of(Seq::empty()) is None,
        watch_after(w, Seq::empty()) == w,
        log_after(lines, w, msgs.push(Msg::Log(line))) == logged(log_after(lines, w, msgs), line@),
        shown_for(w, msgs.push(Msg::Log(line))) == shown_for(w, msgs),
        running_of(msgs.push(Msg::Log(line))) == running_of(msgs),
        watch_after(w, msgs.push(Msg::Log(line))) == watch_after(w, msgs),
        log_after(lines, w, msgs.push(Msg::Running(r))) == log_after(lines, w, msgs),
        shown_for(w, msgs.push(Msg::Running(r))) == shown_for(w, msgs),
        running_of(msgs.push(Msg::Running(r))) == Some(r),
        watch_after(w, msgs.push(Msg::Running(r))) == watch_after(w, msgs),
        running_of(msgs.push(Msg::Battery(pct, charging))) == running_of(msgs),
        watch_after(w, msgs.push(Msg::Battery(pct, charging))) == watch_after(w, msgs).after(
            pct,
            charging,
        ),
{
    let a = msgs.push(Msg::Log(line));
    let b = msgs.push(Msg::Running(r));
    let c = msgs.push(Msg::Battery(pct, charging));
    assert(a.drop_last() =~= msgs && a.last() == Msg::Log(line));
    assert(b.drop_last() =~= msgs && b.last() == Msg::Running(r));
    assert(c.drop_last() =~= msgs && c.last() == Msg::Battery(pct, charging));
}

/// A battery report is shown, and where it is the first low one a balloon with its level and a line
/// of the log follow; where it is the first full one, a balloon and a line of that.
pub proof fn law_battery_message(
    lines: Seq<Seq<char>>,
    w: BatteryWatch,
    msgs: Seq<Msg>,
    pct: u8,
    charging: bool,
)
    ensures
        ({
            let all = msgs.push(Msg::Battery(pct, charging));
            let before = watch_after(w, msgs);
            let shown = shown_for(w, msgs).push(Action::Battery(pct, charging));
            let log = log_after(lines, w, msgs);
            let low = pct <= 10 && !before.low_notified;
            let full = pct >= 100 && charging && !before.full_notified;
            &&& low ==> shown_for(w, all) == shown.push(Action::Balloon(Reminder::Low(pct)))
            &&& low ==> log_after(lines, w, all) == logged(
                log,
                "低电量提醒: "@ + text::decimal(pct as nat) + "%"@,
            )
            &&& full ==> shown_for(w, all) == shown.push(Action::Balloon(Reminder::Full))
            &&& full ==> log_after(lines, w, all) == logged(log, "充电完成提醒: 电池已充满"@)
            &&& !low && !full ==> shown_for(w, all) == shown && log_after(lines, w, all) == log
        }),
{
    let all = msgs.push(Msg::Battery(pct, charging));
    let before = watch_after(w, msgs);
    let rs = before.reminders(pct, charging);
    let shown = shown_for(w, msgs).push(Action::Battery(pct, charging));
    assert(all.drop_last() =~= msgs && all.last() == Msg::Battery(pct, charging));
    law_reminders(before, pct, charging);
    reveal_with_fuel(log_reminders, 2);
    if rs.len() == 1 {
        assert(rs.drop_last() =~= Seq::<Reminder>::empty());
        assert(rs.last() == rs[0]);
        assert(balloons(rs) =~= seq![Action::Balloon(rs[0])]);
        assert(shown + balloons(rs) =~= shown.push(Action::Balloon(rs[0])));
    } else {
        assert(rs.len() == 0);
        assert(shown + balloons(rs) =~= shown);
    }
}

/// A product id is there exactly where some interface with the vendor id of the mouse has it and it
/// is supported.
pub proof fn law_mouse_there(list: Seq<HidInterface>, h: HidInterface, p: u16)
    ensures
        !has_pid(Seq::empty(), p),
        has_pid(list.push(h), p) <==> has_pid(list, p) || (h.vid == 0x363C && devices::supported(p)
            && h.pid == p),
{
    let more = list.push(h);
    if has_pid(list, p) {
        let i = choose|i: int|
            0 <= i < list.len() && hid::is_ours(#[trigger] list[i]) && list[i].pid == p;
        assert(more[i] == list[i]);
    }
    if h.vid == 0x363C && devices::supported(p) && h.pid == p {
        assert(more[list.len() as int] == h);
    }
    if has_pid(more, p) {
        let i = choose|i: int|
            0 <= i < more.len() && hid::is_ours(#[trigger] more[i]) && more[i].pid == p;
        if i < list.len() {
            assert(list[i] == more[i]);
        }
    }
}

/// The mice that are there are told in ascending order of their product ids, each once.
pub proof fn law_found_sorted(pids: Seq<u16>, list: Seq<HidInterface>, i: int, j: int)
    requires
        is_found(pids, list),
        0 <= i < j < pids.len(),
    ensures
        pids[i] < pids[j],
        has_pid(list, pids[i]),
        forall|p: u16| #[trigger] has_pid(list, p) ==> pids.contains(p),
{
    assert(pids.contains(pids[i]));
}

/// A supported mouse is shown by its description, and with its product id in four digits.
pub proof fn law_pid_shown(pid: u16)
    ensures
        devices::supported(pid) ==> pid_text(pid) == devices::description(devices::records_of(pid)),
        !devices::supported(pid) ==> pid_text(pid) == ""@,
        pid_line(pid) == pid_text(pid) + "  PID=0x"@ + text::hex4(pid),
{
    devices::law_described_iff_supported(pid);
}

/// The lists of mice name each mouse in its place.
pub proof fn law_pids_shown(pids: Seq<u16>, i: int)
    requires
        0 <= i < pids.len(),
    ensures
        pid_texts(pids).len() == pids.len() && pid_texts(pids)[i] == pid_text(pids[i]),
        pid_lines(pids).len() == pids.len() && pid_lines(pids)[i] == pid_line(pids[i]),
{
}

/// The virtual sound card is known by "CABLE" in its name, in capitals.
pub proof fn law_cable_name(name: String, before: Seq<char>, behind: Seq<char>)
    ensures
        name@ == before + "CABLE"@ + behind ==> is_cable(Some(name)),
        !text::occurs(name@, "CABLE"@) ==> !is_cable(Some(name)),
        !is_cable(None),
{
    text::law_occurs_between(before, "CABLE"@, behind);
}

/// What is said of the Interception driver, which is there only with both its parts.
pub proof fn law_interception_states()
    ensures
        interception_state(true, true) == "已安装"@,
        interception_state(true, false) == "缺 DLL"@,
        interception_state(false, true) == "缺驱动"@,
        interception_state(false, false) == "未安装"@,
{
}

/// Each line is followed by its end.
pub proof fn law_lines_ended(lines: Seq<Seq<char>>, line: Seq<char>)
    ensures
        ended(Seq::empty()).len() == 0,
        ended(lines.push(line)) == ended(lines) + line + "\r\n"@,
{
    lemma_ended_push(lines, line);
}

/// What the program needs is told in this order: mouse, virtual sound card, Interception; the mice
/// follow behind an empty line, where there are any.
pub proof fn law_deps(mouse: Seq<char>, info: Seq<Seq<char>>, driver: bool, dll: bool, i: int)
    ensures
        ({
            let with = deps_lines(mouse, info, true, driver, dll);
            let without = deps_lines(mouse, info, false, driver, dll);
            &&& with[0] == "鼠标: "@ + mouse && without[0] == with[0]
            &&& with[1] == "VB-CABLE: "@ + "已安装"@
            &&& without[1] == "VB-CABLE: "@ + "未检测到"@
            &&& with[2] == "Interception: "@ + interception_state(driver, dll)
            &&& without[2] == with[2]
            &&& info.len() == 0 ==> with.len() == 3 && without.len() == 3
            &&& info.len() > 0 ==> with.len() == 4 + info.len() && without.len() == with.len()
            &&& info.len() > 0 ==> with[3] == ""@ && without[3] == ""@
            &&& 0 <= i < info.len() ==> with[4 + i] == info[i] && without[4 + i] == info[i]
        }),
{
}

/// The list of devices leaves out those without a name, and gives the others by their place among
/// all.
pub proof fn law_places(names: Seq<Option<String>>, name: String)
    ensures
        place_lines(Seq::empty()).len() == 0,
        place_lines(names.push(None)) == place_lines(names),
        place_lines(names.push(Some(name))) == place_lines(names).push(
            "  ["@ + text::decimal(names.len()) + "] "@ + name@,
        ),
{
    assert(names.push(None).drop_last() =~= names);
    assert(names.push(Some(name)).drop_last() =~= names);
}

} // verus!
