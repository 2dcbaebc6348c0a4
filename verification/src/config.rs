//! Settings, as the configuration file holds them.

use crate::text;
use std::collections::HashSet;
use vstd::prelude::*;

verus! {

broadcast use vstd::std_specs::hash::group_hash_axioms;

/// The name of the configuration file, which lies beside the program.
pub const CONFIG_FILE: &'static str = "mousemic_gui.json";

/// The name under which the program is registered to start with the system.
pub const AUTOSTART_NAME: &'static str = "MouseMic";

/// The settings.
pub struct Config {
    /// Output: `play` for the speaker, `cable` for the virtual microphone.
    pub mode: String,
    /// The name of the virtual sound card's input.
    pub cable_device: String,
    /// The hotkey of the forward key; `None` or "无" for none.
    pub hotkey_forward: Option<String>,
    /// The hotkey of the backward key; `None` or "无" for none.
    pub hotkey_backward: Option<String>,
    /// Whether the forward key gives voice even without a hotkey.
    pub ai_fwd: bool,
    /// Whether the backward key gives voice even without a hotkey.
    pub ai_bwd: bool,
    /// How strokes are injected: `sendinput` or `interception`.
    pub driver: String,
    /// Whether the window starts in the tray.
    pub minimize_to_tray: bool,
    /// Whether the bridge starts with the window.
    pub auto_start_service: bool,
    /// Product ids that count as wired where the product string does not tell.
    pub wired_pids: Vec<String>,
    /// Product ids that count as wireless where the product string does not tell.
    pub wireless_pids: Vec<String>,
    /// Whether the program starts with the system; this is not kept in the file.
    pub autostart: bool,
    /// Whether Enter is pressed after the voice has ended.
    pub auto_enter: bool,
    /// `enter` or `ctrl_enter`.
    pub auto_enter_mode: String,
    /// How long after the end of the voice Enter is pressed, in nanoseconds.
    pub auto_enter_delay: u64,
    /// Whether the forward key taps its hotkey at the start and at the end of the voice instead
    /// of holding it.
    pub typeless_fwd: bool,
    /// The same for the backward key.
    pub typeless_bwd: bool,
}

/// The product id that a text writes: hexadecimal after `0x`, else decimal, else hexadecimal.
pub open spec fn pid_value(s: Seq<char>) -> Option<u16> {
    let t = text::trimmed(s);
    if t.len() >= 2 && t[0] == '0' && (t[1] == 'x' || t[1] == 'X') {
        text::u16_value(t.skip(2), 16)
    } else {
        match text::u16_value(t, 10) {
            Some(v) => Some(v),
            None => text::u16_value(t, 16),
        }
    }
}

/// The text at some position writes this product id.
pub open spec fn writes_pid(list: Seq<String>, pid: u16) -> bool {
    exists|i: int| 0 <= i < list.len() && pid_value((#[trigger] list[i])@) == Some(pid)
}

/// Reads a product id.
pub fn read_pid(s: &str) -> (r: Option<u16>)
    ensures
        r == pid_value(s@),
{
    let t = text::trim(text::chars_of(s).as_slice());
    if t.len() >= 2 && t[0] == '0' && (t[1] == 'x' || t[1] == 'X') {
        let hex = vstd::slice::slice_subrange(t.as_slice(), 2, t.len());
        assert(hex@ =~= t@.skip(2));
        text::parse_u16(hex, 16)
    } else {
        match text::parse_u16(t.as_slice(), 10) {
            Some(v) => Some(v),
            None => text::parse_u16(t.as_slice(), 16),
        }
    }
}

/// A hotkey name that binds a key: there is one, and it is not "无".
pub open spec fn is_bound(name: Option<String>) -> bool {
    name matches Some(n) && n@ != "无"@
}

impl Default for Config {
    /// The settings of a fresh installation.
    fn default() -> (c: Self)
        ensures
            is_default(c),
    {
        Config {
            mode: text::owned("cable"),
            cable_device: text::owned("CABLE Input"),
            hotkey_forward: Some(text::owned("R_alt")),
            hotkey_backward: None,
            ai_fwd: false,
            ai_bwd: false,
            driver: text::owned("sendinput"),
            minimize_to_tray: false,
            auto_start_service: false,
            wired_pids: Vec::new(),
            wireless_pids: Vec::new(),
            autostart: false,
            auto_enter: false,
            auto_enter_mode: text::owned("enter"),
            auto_enter_delay: 500_000_000,
            typeless_fwd: false,
            typeless_bwd: false,
        }
    }
}

/// The settings of a fresh installation.
pub open spec fn is_default(c: Config) -> bool {
    &&& c.mode@ == "cable"@
    &&& c.cable_device@ == "CABLE Input"@
    &&& c.hotkey_forward matches Some(n) && n@ == "R_alt"@
    &&& c.hotkey_backward is None
    &&& !c.ai_fwd
    &&& !c.ai_bwd
    &&& c.driver@ == "sendinput"@
    &&& !c.minimize_to_tray
    &&& !c.auto_start_service
    &&& c.wired_pids@.len() == 0
    &&& c.wireless_pids@.len() == 0
    &&& !c.autostart
    &&& !c.auto_enter
    &&& c.auto_enter_mode@ == "enter"@
    &&& c.auto_enter_delay == 500_000_000
    &&& !c.typeless_fwd
    &&& !c.typeless_bwd
}

impl Config {
    /// The product ids that a list of texts writes; texts that write none are left out.
    pub fn coerce_pids(list: &[String]) -> (out: HashSet<u16>)
        ensures
            forall|pid: u16| #[trigger] out@.contains(pid) == writes_pid(list@, pid),
    {
        let mut out: HashSet<u16> = HashSet::new();
        let mut i: usize = 0;
        while i < list.len()
            invariant
                i <= list@.len(),
                forall|pid: u16| #[trigger]
                    out@.contains(pid) == writes_pid(list@.take(i as int), pid),
            decreases list@.len() - i,
        {
            let ghost before = out@;
            let v = read_pid(list[i].as_str());
            match v {
                Some(pid) => {
                    out.insert(pid);
                },
                None => {},
            }
            i += 1;
            assert forall|pid: u16| #[trigger]
                out@.contains(pid) == writes_pid(list@.take(i as int), pid) by {
                let old_list = list@.take(i - 1);
                let new_list = list@.take(i as int);
                assert(new_list[i - 1] == list@[i - 1]);
                if writes_pid(old_list, pid) {
                    let j = choose|j: int|
                        0 <= j < old_list.len() && pid_value((#[trigger] old_list[j])@) == Some(
                            pid,
                        );
                    assert(new_list[j] == old_list[j]);
                }
                if writes_pid(new_list, pid) {
                    let j = choose|j: int|
                        0 <= j < new_list.len() && pid_value((#[trigger] new_list[j])@) == Some(
                            pid,
                        );
                    if j < i - 1 {
                        assert(old_list[j] == new_list[j]);
                    }
                }
                assert(before.contains(pid) == writes_pid(old_list, pid));
            }
        }
        assert(list@.take(i as int) == list@);
        out
    }

    /// The configured wired product ids.
    pub fn wired_pids(&self) -> (out: HashSet<u16>)
        ensures
            forall|pid: u16| #[trigger]
                out@.contains(pid) == writes_pid(self.wired_pids@, pid),
    {
        Config::coerce_pids(self.wired_pids.as_slice())
    }

    /// The configured wireless product ids.
    pub fn wireless_pids(&self) -> (out: HashSet<u16>)
        ensures
            forall|pid: u16| #[trigger]
                out@.contains(pid) == writes_pid(self.wireless_pids@, pid),
    {
        Config::coerce_pids(self.wireless_pids.as_slice())
    }

    /// Whether a hotkey name binds a key.
    pub fn hotkey_bound(name: &Option<String>) -> (r: bool)
        ensures
            r == is_bound(*name),
    {
        match name {
            Some(n) => !text::same(n.as_str(), "无"),
            None => false,
        }
    }

    /// Whether the forward key gives voice: it has a hotkey, or voice alone is switched on.
    pub fn ai_forward_enabled(&self) -> (r: bool)
        ensures
            r == (is_bound(self.hotkey_forward) || self.ai_fwd),
    {
        Config::hotkey_bound(&self.hotkey_forward) || self.ai_fwd
    }

    /// Whether the backward key gives voice: it has a hotkey, or voice alone is switched on.
    pub fn ai_backward_enabled(&self) -> (r: bool)
        ensures
            r == (is_bound(self.hotkey_backward) || self.ai_bwd),
    {
        Config::hotkey_bound(&self.hotkey_backward) || self.ai_bwd
    }

    /// Whether the Interception driver is opened: it is asked for, and a voice key has a hotkey.
    pub fn wants_interception(&self) -> (r: bool)
        ensures
            r == (self.driver@ == "interception"@ && (is_bound(self.hotkey_forward) || is_bound(
                self.hotkey_backward,
            ))),
    {
        text::same(self.driver.as_str(), "interception") && (Config::hotkey_bound(
            &self.hotkey_forward,
        ) || Config::hotkey_bound(&self.hotkey_backward))
    }

    /// The settings in force: those of the file, or the default ones where there is no file or
    /// it cannot be read, with the start-up state of the system.
    pub fn load(file: Option<Config>, autostart: bool) -> (c: Config)
        ensures
            file matches Some(f) ==> c == f.with_autostart(autostart),
            file is None ==> is_default(c.with_autostart(false)) && c.autostart == autostart,
    {
        let mut c = match file {
            Some(f) => f,
            None => Config::default(),
        };
        c.autostart = autostart;
        c
    }

    /// The settings to write, with the start-up state of the system, which is not written with
    /// them: the system keeps it.
    pub fn save(self, autostart: bool) -> (c: Config)
        ensures
            c == self.with_autostart(autostart),
    {
        let mut c = self;
        c.autostart = autostart;
        c
    }

    /// The settings with another start-up state.
    pub open spec fn with_autostart(self, autostart: bool) -> Config {
        Config { autostart, ..self }
    }
}

/// The command that is registered to start with the system: the program in quotation marks,
/// with its start-up flag.
pub fn autostart_command(exe: &str) -> (out: String)
    ensures
        out@ == "\""@ + exe@ + "\" --autostart"@,
{
    let mut out = text::owned("\"");
    out.append(exe);
    out.append("\" --autostart");
    out
}

/// What is saved is what the next start loads, with the start-up state that the system then has.
pub proof fn law_save_then_load(c: Config, saved: bool, autostart: bool)
    ensures
        c.with_autostart(saved).with_autostart(autostart) == c.with_autostart(autostart),
        c.with_autostart(saved).with_autostart(c.autostart) == c,
{
}

/// A text without the prefix `0x` that is a decimal number is never read as hexadecimal.
pub proof fn law_decimal_first(s: Seq<char>)
    requires
        !(text::trimmed(s).len() >= 2 && text::trimmed(s)[0] == '0' && (text::trimmed(s)[1] == 'x'
            || text::trimmed(s)[1] == 'X')),
        text::u16_value(text::trimmed(s), 10) is Some,
    ensures
        pid_value(s) == text::u16_value(text::trimmed(s), 10),
{
}

/// Every product id can be written in decimal, or in hexadecimal behind `0x` or `0X`, with white
/// space round it, and is read as that product id.
pub proof fn law_pid_reads_back(a: Seq<char>, b: Seq<char>, pid: u16)
    requires
        text::all_space(a),
        text::all_space(b),
    ensures
        pid_value(a + text::decimal(pid as nat) + b) == Some(pid),
        pid_value(a + (seq!['0', 'x'] + text::hex4(pid)) + b) == Some(pid),
        pid_value(a + (seq!['0', 'X'] + text::hex4(pid)) + b) == Some(pid),
{
    let d = text::decimal(pid as nat);
    text::law_decimal_reads_back(pid as nat);
    text::law_white_space(d[0]);
    text::law_white_space(d.last());
    assert(48 <= d[d.len() - 1] as u32 <= 57);
    text::law_trim_undoes_blanks(a, d, b);
    text::law_u16_value(d, 10);
    assert(d.len() > 1 ==> 48 <= d[1] as u32 <= 57);
    lemma_hex_pid(a, b, pid, 'x');
    lemma_hex_pid(a, b, pid, 'X');
}

proof fn lemma_hex_pid(a: Seq<char>, b: Seq<char>, pid: u16, x: char)
    requires
        text::all_space(a),
        text::all_space(b),
        x == 'x' || x == 'X',
    ensures
        pid_value(a + (seq!['0', x] + text::hex4(pid)) + b) == Some(pid),
{
    let h = text::hex4(pid);
    let t = seq!['0', x] + h;
    text::law_hex4_reads_back(pid);
    text::law_digit_char((pid / 4096) as nat);
    text::law_digit_char((pid % 16) as nat);
    text::law_white_space('0');
    text::law_white_space(t.last());
    text::law_trim_undoes_blanks(a, t, b);
    assert(t.skip(2) =~= h);
    text::law_u16_value(h, 16);
}

/// Four hexadecimal digits that are no decimal number are read as hexadecimal without a prefix.
pub proof fn law_bare_hex_pid(pid: u16)
    requires
        text::digits_value(text::hex4(pid), 10) is None,
    ensures
        pid_value(text::hex4(pid)) == Some(pid),
{
    let h = text::hex4(pid);
    let none = Seq::<char>::empty();
    text::law_hex4_reads_back(pid);
    text::law_digit_char((pid / 4096) as nat);
    text::law_digit_char((pid / 256 % 16) as nat);
    text::law_digit_char((pid % 16) as nat);
    text::law_white_space(h[0]);
    text::law_white_space(h.last());
    text::law_trim_undoes_blanks(none, h, none);
    assert(none + h + none =~= h);
    text::law_u16_value(h, 10);
    text::law_u16_value(h, 16);
}

/// A list of texts writes the product ids of its texts, each and no other.
pub proof fn law_list_writes(list: Seq<String>, s: String, pid: u16)
    ensures
        !writes_pid(Seq::empty(), pid),
        writes_pid(list.push(s), pid) <==> writes_pid(list, pid) || pid_value(s@) == Some(pid),
{
    let more = list.push(s);
    if writes_pid(list, pid) {
        let i = choose|i: int| 0 <= i < list.len() && pid_value((#[trigger] list[i])@) == Some(pid);
        assert(more[i] == list[i]);
    }
    if pid_value(s@) == Some(pid) {
        assert(more[list.len() as int] == s);
    }
    if writes_pid(more, pid) {
        let i = choose|i: int| 0 <= i < more.len() && pid_value((#[trigger] more[i])@) == Some(pid);
        if i < list.len() {
            assert(list[i] == more[i]);
        }
    }
}

/// Every name but "无" binds a key; no name binds none.
pub proof fn law_bound_names(n: String)
    ensures
        is_bound(Some(n)) <==> n@ != "无"@,
        !is_bound(None),
{
}

/// A fresh installation sends the voice to the virtual microphone, holds the right Alt key for the
/// forward key, gives the backward key nothing to do, and switches everything else off.
pub proof fn law_fresh_installation(c: Config)
    requires
        is_default(c),
    ensures
        c.mode@ == "cable"@,
        c.cable_device@ == "CABLE Input"@,
        is_bound(c.hotkey_forward) && c.hotkey_forward->0@ == "R_alt"@,
        !is_bound(c.hotkey_backward),
        c.driver@ == "sendinput"@,
        c.auto_enter_mode@ == "enter"@,
        c.auto_enter_delay == 500_000_000,
        forall|pid: u16| !#[trigger] writes_pid(c.wired_pids@, pid),
        forall|pid: u16| !#[trigger] writes_pid(c.wireless_pids@, pid),
        !(c.ai_fwd || c.ai_bwd || c.typeless_fwd || c.typeless_bwd || c.auto_enter || c.autostart
            || c.auto_start_service || c.minimize_to_tray),
{
    reveal_strlit("R_alt");
    reveal_strlit("无");
    assert("R_alt"@.len() != "无"@.len());
}

/// The start-up state is all that is changed by it.
pub proof fn law_autostart_alone(c: Config, autostart: bool)
    ensures
        c.with_autostart(autostart).autostart == autostart,
        c.with_autostart(autostart) == (Config { autostart, ..c }),
{
}

} // verus!
