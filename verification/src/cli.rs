//! The command line: which of its jobs the program does, and with which settings.

use crate::config::Config;
use crate::{config, hotkey, text};
use vstd::prelude::*;

verus! {

/// What is said where another instance runs.
pub const ALREADY_RUNNING: &'static str = "mousemic 已在运行中, 已尝试激活已有窗口。";

/// What is said of the default output device.
pub const DEFAULT_SPEAKERS: &'static str = "(系统默认扬声器)";

/// The command line, taken apart.
pub struct Cli {
    pub list: bool,
    pub list_hid: bool,
    pub play: bool,
    pub cable: Option<String>,
    pub file: Option<String>,
    pub hotkey: Option<String>,
    pub driver: String,
    pub autostart: bool,
}

/// A job of the program.
#[derive(Debug, Clone, Copy, PartialEq, Eq, Structural)]
pub enum Job {
    /// List the output devices.
    List,
    /// List the HID interfaces.
    ListHid,
    /// Run the bridge without a window.
    Headless,
    /// Open the window; the flag says whether the program was started with the system.
    Gui(bool),
}

/// Where the audio goes without a window.
#[derive(Debug, Clone, Copy, PartialEq, Eq, Structural)]
pub enum Sink {
    Speakers,
    Cable,
    File,
}

/// The first of the sinks that is asked for.
pub open spec fn sink_of(c: Cli) -> Option<Sink> {
    if c.play {
        Some(Sink::Speakers)
    } else if c.cable is Some {
        Some(Sink::Cable)
    } else if c.file is Some {
        Some(Sink::File)
    } else {
        None
    }
}

/// What a hotkey on the command line is told by.
pub open spec fn hotkey_line(c: Cli) -> Seq<Seq<char>> {
    match c.hotkey {
        Some(h) => seq!["联动热键: "@ + h@ + " ["@ + c.driver@ + "]"@],
        None => Seq::empty(),
    }
}

/// The lines that a run without a window starts with.
pub open spec fn intro_lines(c: Cli) -> Seq<Seq<char>> {
    match sink_of(c) {
        Some(Sink::Speakers) => seq!["输出设备: "@ + DEFAULT_SPEAKERS@] + hotkey_line(c) + seq![
            "按住鼠标语音键开始说话, Ctrl+C 退出。"@,
        ],
        Some(Sink::Cable) => seq!["输出设备: "@ + c.cable->0@] + hotkey_line(c) + seq![
            "按住鼠标语音键开始说话, Ctrl+C 退出。"@,
        ],
        Some(Sink::File) => seq!["录音到: "@ + c.file->0@] + hotkey_line(c) + seq![
            "按住鼠标语音键开始说话, Ctrl+C 结束。"@,
        ],
        None => Seq::empty(),
    }
}

/// The settings of a bridge that is run from the command line. One hotkey serves both voice
/// keys; without one both give voice alone.
pub open spec fn is_cli_config(
    c: Config,
    mode: Seq<char>,
    cable_device: Seq<char>,
    hotkey: Option<String>,
    driver: Seq<char>,
) -> bool {
    &&& c.mode@ == mode
    &&& c.cable_device@ == cable_device
    &&& c.hotkey_forward == hotkey
    &&& c.hotkey_backward == hotkey
    &&& c.ai_fwd == (hotkey is None)
    &&& c.ai_bwd == (hotkey is None)
    &&& c.driver@ == driver
    &&& exists|d: Config| #[trigger]
        config::is_default(d) && c == (Config {
            mode: c.mode,
            cable_device: c.cable_device,
            hotkey_forward: c.hotkey_forward,
            hotkey_backward: c.hotkey_backward,
            ai_fwd: c.ai_fwd,
            ai_bwd: c.ai_bwd,
            driver: c.driver,
            ..d
        })
}

/// A copy of a name.
fn copy_of(name: &Option<String>) -> (r: Option<String>)
    ensures
        r == *name,
{
    match name {
        Some(n) => Some(n.clone()),
        None => None,
    }
}

/// The settings of a bridge that is run from the command line.
pub fn bridge_config(mode: &str, cable_device: &str, hotkey: &Option<String>, driver: &str) -> (c:
    Config)
    ensures
        is_cli_config(c, mode@, cable_device@, *hotkey, driver@),
{
    let d = Config::default();
    let ghost d0 = d;
    let mut c = d;
    c.mode = text::owned(mode);
    c.cable_device = text::owned(cable_device);
    c.hotkey_forward = copy_of(hotkey);
    c.hotkey_backward = copy_of(hotkey);
    c.ai_fwd = hotkey.is_none();
    c.ai_bwd = hotkey.is_none();
    c.driver = text::owned(driver);
    assert(config::is_default(d0));
    c
}

impl Cli {
    /// Which job the command line asks for: lists come first, then a run without a window, and
    /// the window where nothing else is asked for.
    pub fn job(&self) -> (r: Job)
        ensures
            r == (if self.list {
                Job::List
            } else if self.list_hid {
                Job::ListHid
            } else if sink_of(*self) is Some {
                Job::Headless
            } else {
                Job::Gui(self.autostart)
            }),
    {
        if self.list {
            Job::List
        } else if self.list_hid {
            Job::ListHid
        } else if self.sink().is_some() {
            Job::Headless
        } else {
            Job::Gui(self.autostart)
        }
    }

    /// Where the audio goes without a window: to the speakers before a sound card, to a sound
    /// card before a file.
    pub fn sink(&self) -> (r: Option<Sink>)
        ensures
            r == sink_of(*self),
    {
        if self.play {
            Some(Sink::Speakers)
        } else if self.cable.is_some() {
            Some(Sink::Cable)
        } else if self.file.is_some() {
            Some(Sink::File)
        } else {
            None
        }
    }

    /// Refuses a hotkey that cannot be chosen.
    pub fn check_hotkey(&self) -> (r: Result<(), String>)
        ensures
            r is Ok == (self.hotkey matches Some(h) ==> hotkey::listed(h@)),
            r matches Err(e) ==> e@ == hotkey::unknown_name(self.hotkey->0@),
    {
        match &self.hotkey {
            Some(h) => {
                if hotkey::is_listed(h.as_str()) {
                    Ok(())
                } else {
                    Err(hotkey::unknown_name_text(h.as_str()))
                }
            },
            None => Ok(()),
        }
    }

    /// Whether a run without a window may start, and where its audio goes. It may not where
    /// another instance runs, and then not with a hotkey that cannot be chosen.
    pub fn start_headless(&self, first: bool) -> (r: Result<Option<Sink>, String>)
        ensures
            match r {
                Ok(s) => first && (self.hotkey matches Some(h) ==> hotkey::listed(h@)) && s
                    == sink_of(*self),
                Err(e) => if !first {
                    e@ == ALREADY_RUNNING@
                } else {
                    self.hotkey matches Some(h) && !hotkey::listed(h@) && e@
                        == hotkey::unknown_name(h@)
                },
            },
    {
        if !first {
            return Err(text::owned(ALREADY_RUNNING));
        }
        match self.check_hotkey() {
            Ok(_) => Ok(self.sink()),
            Err(e) => Err(e),
        }
    }

    /// The device to play on; none for the default one.
    pub fn device(&self) -> (r: Option<&str>)
        ensures
            r is Some == (!self.play && self.cable is Some),
            r matches Some(n) ==> n@ == self.cable->0@,
    {
        if self.play {
            None
        } else {
            match &self.cable {
                Some(n) => Some(n.as_str()),
                None => None,
            }
        }
    }

    /// The settings of the bridge for a run without a window.
    pub fn config(&self) -> (c: Config)
        ensures
            is_cli_config(
                c,
                (match sink_of(*self) {
                    Some(Sink::Speakers) => "play"@,
                    Some(Sink::Cable) => "cable"@,
                    _ => "file"@,
                }),
                (match self.cable {
                    Some(n) => n@,
                    None => "CABLE Input"@,
                }),
                self.hotkey,
                self.driver@,
            ),
    {
        let mode = match self.sink() {
            Some(Sink::Speakers) => "play",
            Some(Sink::Cable) => "cable",
            _ => "file",
        };
        let cable = match &self.cable {
            Some(n) => n.as_str(),
            None => "CABLE Input",
        };
        bridge_config(mode, cable, &self.hotkey, self.driver.as_str())
    }

    /// The lines that a run without a window starts with.
    pub fn intro(&self) -> (out: Vec<String>)
        ensures
            text::texts(out@) == intro_lines(*self),
    {
        let mut out: Vec<String> = Vec::new();
        let sink = match self.sink() {
            Some(s) => s,
            None => {
                assert(text::texts(out@) =~= intro_lines(*self));
                return out;
            },
        };
        let (head, name) = match sink {
            Sink::Speakers => ("输出设备: ", DEFAULT_SPEAKERS),
            Sink::Cable => match &self.cable {
                Some(n) => ("输出设备: ", n.as_str()),
                None => ("输出设备: ", DEFAULT_SPEAKERS),
            },
            Sink::File => match &self.file {
                Some(n) => ("录音到: ", n.as_str()),
                None => ("录音到: ", ""),
            },
        };
        let mut first = text::owned(head);
        first.append(name);
        out.push(first);
        assert(text::texts(out@) =~= seq![head@ + name@]);
        if let Some(h) = &self.hotkey {
            let ghost before = text::texts(out@);
            let mut line = text::owned("联动热键: ");
            line.append(h.as_str());
            line.append(" [");
            line.append(self.driver.as_str());
            line.append("]");
            out.push(line);
            assert(text::texts(out@) =~= before + hotkey_line(*self));
        } else {
            assert(text::texts(out@) =~= seq![head@ + name@] + hotkey_line(*self));
        }
        let ghost before = text::texts(out@);
        let last = match sink {
            Sink::File => "按住鼠标语音键开始说话, Ctrl+C 结束。",
            _ => "按住鼠标语音键开始说话, Ctrl+C 退出。",
        };
        out.push(text::owned(last));
        assert(text::texts(out@) =~= before + seq![last@]);
        out
    }
}

/// An output device with its sample rate, by its place in the system's list.
pub open spec fn rate_line(i: nat, name: Seq<char>, rate: u32) -> Seq<char> {
    "  ["@ + text::decimal(i) + "] "@ + name + "  (rate="@ + text::decimal(rate as nat) + ")"@
}

/// The devices with a name, each by its place; a rate that is not known is shown as 0.
pub open spec fn rate_lines(devices: Seq<(Option<String>, Option<u32>)>) -> Seq<Seq<char>>
    decreases devices.len(),
{
    if devices.len() == 0 {
        Seq::empty()
    } else {
        let before = rate_lines(devices.drop_last());
        match devices.last().0 {
            Some(n) => before.push(
                rate_line(
                    (devices.len() - 1) as nat,
                    n@,
                    match devices.last().1 {
                        Some(r) => r,
                        None => 0,
                    },
                ),
            ),
            None => before,
        }
    }
}

/// The lines that list the output devices with their sample rates.
pub fn list_devices(devices: &Vec<(Option<String>, Option<u32>)>) -> (out: Vec<String>)
    ensures
        text::texts(out@) == seq!["可用音频输出设备:"@] + rate_lines(devices@),
{
    let mut out: Vec<String> = Vec::new();
    out.push(text::owned("可用音频输出设备:"));
    let ghost head = seq!["可用音频输出设备:"@];
    assert(devices@.take(0) =~= Seq::<(Option<String>, Option<u32>)>::empty());
    assert(text::texts(out@) =~= head + rate_lines(devices@.take(0)));
    let mut i: usize = 0;
    while i < devices.len()
        invariant
            i <= devices@.len(),
            text::texts(out@) == head + rate_lines(devices@.take(i as int)),
        decreases devices@.len() - i,
    {
        assert(devices@.take(i + 1).drop_last() =~= devices@.take(i as int));
        let ghost before = text::texts(out@);
        let rate: u32 = match devices[i].1 {
            Some(r) => r,
            None => 0,
        };
        if let Some(n) = &devices[i].0 {
            let mut line = text::owned("  [");
            text::push_decimal(&mut line, i as u64);
            line.append("] ");
            line.append(n.as_str());
            line.append("  (rate=");
            text::push_decimal(&mut line, rate as u64);
            line.append(")");
            out.push(line);
            assert(text::texts(out@) =~= before.push(rate_line(i as nat, n@, rate)));
        }
        i += 1;
        assert(text::texts(out@) =~= head + rate_lines(devices@.take(i as int)));
    }
    assert(devices@.take(i as int) =~= devices@);
    out
}

/// Without a hotkey on the command line both voice keys give voice and neither has a hotkey;
/// with one that can be chosen both have it.
pub proof fn law_hotkey_for_both(
    c: Config,
    mode: Seq<char>,
    cable_device: Seq<char>,
    hotkey: Option<String>,
    driver: Seq<char>,
)
    requires
        is_cli_config(c, mode, cable_device, hotkey, driver),
        hotkey matches Some(h) ==> hotkey::listed(h@),
    ensures
        config::is_bound(c.hotkey_forward) == (hotkey is Some),
        config::is_bound(c.hotkey_backward) == (hotkey is Some),
        config::is_bound(c.hotkey_forward) || c.ai_fwd,
        config::is_bound(c.hotkey_backward) || c.ai_bwd,
{
    if let Some(h) = hotkey {
        crate::panel::law_hotkeys_are_plain(h@);
    }
}

/// The speakers come before a sound card and a sound card before a file; without any of them the
/// audio goes nowhere.
pub proof fn law_sinks(c: Cli)
    ensures
        sink_of(c) == Some(Sink::Speakers) <==> c.play,
        sink_of(c) == Some(Sink::Cable) <==> !c.play && c.cable is Some,
        sink_of(c) == Some(Sink::File) <==> !c.play && c.cable is None && c.file is Some,
        sink_of(c) is None <==> !c.play && c.cable is None && c.file is None,
{
}

/// A run starts by saying where the audio goes, then which hotkey is linked, if any, and last how to
/// speak and how to end.
pub proof fn law_intro(c: Cli)
    ensures
        c.play ==> intro_lines(c)[0] == "输出设备: "@ + "(系统默认扬声器)"@,
        !c.play && c.cable is Some ==> intro_lines(c)[0] == "输出设备: "@ + c.cable->0@,
        !c.play && c.cable is None && c.file is Some ==> intro_lines(c)[0] == "录音到: "@
            + c.file->0@,
        (c.play || c.cable is Some || c.file is Some) && c.hotkey is Some ==> intro_lines(c).len()
            == 3 && intro_lines(c)[1] == "联动热键: "@ + c.hotkey->0@ + " ["@ + c.driver@ + "]"@,
        (c.play || c.cable is Some || c.file is Some) && c.hotkey is None ==> intro_lines(c).len()
            == 2,
        c.play || c.cable is Some ==> intro_lines(c).last()
            == "按住鼠标语音键开始说话, Ctrl+C 退出。"@,
        !c.play && c.cable is None && c.file is Some ==> intro_lines(c).last()
            == "按住鼠标语音键开始说话, Ctrl+C 结束。"@,
        !c.play && c.cable is None && c.file is None ==> intro_lines(c).len() == 0,
{
}

/// A bridge that is run from the command line has what the command line says, gives voice by either
/// key where no hotkey is given, and leaves everything else as in a fresh installation.
pub proof fn law_cli_settings(
    c: Config,
    mode: Seq<char>,
    cable_device: Seq<char>,
    hotkey: Option<String>,
    driver: Seq<char>,
)
    requires
        is_cli_config(c, mode, cable_device, hotkey, driver),
    ensures
        c.mode@ == mode,
        c.cable_device@ == cable_device,
        c.driver@ == driver,
        c.hotkey_forward == hotkey && c.hotkey_backward == hotkey,
        c.ai_fwd <==> hotkey is None,
        c.ai_bwd <==> hotkey is None,
        !c.auto_enter && !c.typeless_fwd && !c.typeless_bwd && !c.autostart && !c.minimize_to_tray
            && !c.auto_start_service,
        c.auto_enter_mode@ == "enter"@,
        c.auto_enter_delay == 500_000_000,
        c.wired_pids@.len() == 0 && c.wireless_pids@.len() == 0,
{
}

/// The list of devices leaves out those without a name, and gives the others by their place among
/// all, with their rate or 0.
pub proof fn law_rates(
    devices: Seq<(Option<String>, Option<u32>)>,
    name: String,
    rate: Option<u32>,
    r: u32,
)
    ensures
        rate_lines(Seq::empty()).len() == 0,
        rate_lines(devices.push((None, rate))) == rate_lines(devices),
        rate_lines(devices.push((Some(name), Some(r)))) == rate_lines(devices).push(
            "  ["@ + text::decimal(devices.len()) + "] "@ + name@ + "  (rate="@ + text::decimal(
                r as nat,
            ) + ")"@,
        ),
        rate_lines(devices.push((Some(name), None))) == rate_lines(devices).push(
            "  ["@ + text::decimal(devices.len()) + "] "@ + name@ + "  (rate="@ + text::decimal(0)
                + ")"@,
        ),
{
    assert(devices.push((None, rate)).drop_last() =~= devices);
    assert(devices.push((Some(name), Some(r))).drop_last() =~= devices);
    assert(devices.push((Some(name), None)).drop_last() =~= devices);
}

} // verus!
