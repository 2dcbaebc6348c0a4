use mousemic::bridge::{
    render_notice, stats_text, Bridge, Effect, Event, Notice, Phase, Request, Stats, VoiceKey,
};
use mousemic::config::Config;
use mousemic::hid::{AjazzDevice, Connected, LinkKind};
use mousemic::hotkey::{Backend, HotkeyError, Stroke};

const MS: u64 = 1_000_000;

fn config(forward: Option<&str>, backward: Option<&str>) -> Config {
    let mut c = Config::default();
    c.hotkey_forward = forward.map(|s| s.to_string());
    c.hotkey_backward = backward.map(|s| s.to_string());
    c
}

fn link(path: &str, product: &str, control: bool) -> Connected {
    Connected { path: path.to_string(), pid: 0xED03, product_string: product.to_string(), control }
}

fn device(path: &str, product: &str) -> AjazzDevice {
    AjazzDevice {
        path: path.to_string(),
        product_id: 0xED03,
        product_string: product.to_string(),
    }
}

fn audio_packet() -> [u8; 64] {
    let mut buf = [0u8; 64];
    buf[0] = 0xB1;
    buf[2] = 0x39;
    for i in 3..60 {
        buf[i] = i as u8;
    }
    buf
}

/// A bridge that has connected and waits for its first round.
fn connected(c: &Config) -> Bridge {
    let (mut b, _) = Bridge::new(c, false, true);
    assert_eq!(b.request(), Request::Start);
    b.run(Event::Start);
    assert_eq!(b.request(), Request::Connect);
    b.run(Event::Linked(Some(link("wd", "AJ200 Mouse", true))));
    assert_eq!(b.request(), Request::OpenDecoder);
    let (e, _) = b.run(Event::Decoder(true));
    assert_eq!(e, vec![Effect::Log(Notice::Connected(LinkKind::Wired))]);
    assert_eq!(b.request(), Request::Poll);
    b
}

/// One round with an audio packet that decodes.
fn voice(b: &mut Bridge, now: u64) -> Vec<Effect> {
    b.run(Event::Poll { now, stop: false });
    assert_eq!(b.request(), Request::Read);
    b.run(Event::Packet { n: 64, buf: audio_packet() });
    assert_eq!(b.request(), Request::Decode);
    b.run(Event::Decoded(Some(vec![1, 0, 2, 0])));
    assert_eq!(b.request(), Request::Settle);
    b.run(Event::Clock { now, queue: 0, callbacks: 0 }).0
}

/// One round without audio.
fn silence(b: &mut Bridge, now: u64) -> Vec<Effect> {
    b.run(Event::Poll { now, stop: false });
    if b.request() == Request::Probe {
        b.run(Event::Live(Some(device("wd", "AJ200 Mouse"))));
    }
    assert_eq!(b.request(), Request::Read);
    b.run(Event::Packet { n: 0, buf: [0; 64] });
    b.run(Event::Clock { now, queue: 0, callbacks: 0 }).0
}

fn keys(effects: &Vec<Effect>) -> Vec<Stroke> {
    effects
        .iter()
        .filter_map(|e| match e {
            Effect::Key(_, s) => Some(*s),
            _ => None,
        })
        .collect()
}

fn f9(keyup: bool) -> Stroke {
    Stroke { scancode: 0x43, extended: false, keyup }
}

#[test]
fn start_without_a_mouse_fails() {
    let (mut b, e) = Bridge::new(&config(None, None), false, false);
    assert!(e.is_empty());
    b.run(Event::Start);
    let (e, s) = b.run(Event::Linked(None));
    assert!(e.is_empty() && s.is_empty());
    assert_eq!(b.request(), Request::Fail);
}

#[test]
fn failed_start_switches_ai_off() {
    let (mut b, _) = Bridge::new(&config(Some("f9"), None), false, false);
    b.run(Event::Start);
    let (e, _) = b.run(Event::Linked(Some(link("wd", "AJ200 Mouse", true))));
    assert_eq!(e, vec![Effect::SetAi(true)]);
    let (e, _) = b.run(Event::Decoder(false));
    assert_eq!(e, vec![Effect::Log(Notice::DecoderFailed), Effect::SetAi(false)]);
    assert_eq!(b.request(), Request::Fail);
    assert!(b.close().is_empty());
}

#[test]
fn closing_at_any_time() {
    let mut b = connected(&config(Some("f9"), None));
    voice(&mut b, 10 * MS);
    let e = b.close();
    assert_eq!(e, vec![Effect::SetAi(false), Effect::Key(Backend::SendInput, f9(true))]);
    assert_eq!(b.request(), Request::Stop);
    assert!(b.close().is_empty());
}

#[test]
fn ai_is_switched_on_and_off() {
    let (mut b, _) = Bridge::new(&config(Some("f9"), None), false, false);
    b.run(Event::Start);
    let (e, _) = b.run(Event::Linked(Some(link("wd", "AJ200 Mouse", true))));
    assert_eq!(e, vec![Effect::SetAi(true)]);
    b.run(Event::Decoder(true));
    let (e, _) = b.run(Event::Poll { now: 1, stop: true });
    assert_eq!(e, vec![Effect::SetAi(false), Effect::Log(Notice::Stopped)]);
    assert_eq!(b.request(), Request::Stop);
}

#[test]
fn unknown_hotkey_is_told_of() {
    let (b, e) = Bridge::new(&config(Some("nope"), Some("f9")), false, false);
    assert_eq!(e, vec![Effect::Log(Notice::HotkeyFailed(VoiceKey::Forward, HotkeyError::UnknownName))]);
    assert!(b.forward.is_none());
    assert_eq!(b.key_name(VoiceKey::Forward), "");
    assert_eq!(b.key_name(VoiceKey::Backward), "f9");
    let mut c = config(Some("f9"), None);
    c.driver = "interception".to_string();
    let (b, e) = Bridge::new(&c, false, false);
    assert_eq!(
        e,
        vec![Effect::Log(Notice::HotkeyFailed(VoiceKey::Forward, HotkeyError::DriverUnavailable))]
    );
    assert!(b.forward.is_none());
    let (b, e) = Bridge::new(&c, true, false);
    assert!(e.is_empty());
    assert_eq!(b.forward.unwrap().backend, Backend::Interception);
}

#[test]
fn hotkey_is_held_while_there_is_audio() {
    let mut b = connected(&config(Some("f9"), None));
    let e = voice(&mut b, 10 * MS);
    assert_eq!(e[0], Effect::Log(Notice::HotkeyEngaged(VoiceKey::Forward)));
    assert_eq!(keys(&e), vec![f9(false)]);
    assert!(keys(&voice(&mut b, 20 * MS)).is_empty());
    assert!(keys(&silence(&mut b, 620 * MS)).is_empty());
    assert_eq!(keys(&silence(&mut b, 621 * MS)), vec![f9(true)]);
    assert!(keys(&silence(&mut b, 900 * MS)).is_empty());
}

#[test]
fn typeless_taps_at_both_ends() {
    let mut c = config(Some("f9"), None);
    c.typeless_fwd = true;
    let mut b = connected(&c);
    let e = voice(&mut b, 10 * MS);
    assert_eq!(
        e[1..],
        [
            Effect::Key(Backend::SendInput, f9(false)),
            Effect::Pause(30),
            Effect::Key(Backend::SendInput, f9(true)),
        ]
    );
    assert!(keys(&voice(&mut b, 20 * MS)).is_empty());
    assert_eq!(keys(&silence(&mut b, 700 * MS)), vec![f9(false), f9(true)]);
}

#[test]
fn cut_voice_is_tapped_to_its_end() {
    let mut c = config(Some("f9"), None);
    c.typeless_fwd = true;
    let mut b = connected(&c);
    voice(&mut b, 10 * MS);
    b.run(Event::Poll { now: 20 * MS, stop: false });
    let (e, _) = b.run(Event::ReadFailed);
    assert_eq!(keys(&e), vec![f9(false), f9(true)]);
    let mut b = connected(&c);
    voice(&mut b, 10 * MS);
    b.run(Event::Poll { now: 1500 * MS, stop: false });
    let (e, _) = b.run(Event::Live(Some(device("wl", "AJ200 2.4G"))));
    assert_eq!(keys(&e), vec![f9(false), f9(true)]);
    let mut b = connected(&c);
    voice(&mut b, 10 * MS);
    assert_eq!(keys(&b.close()), vec![f9(false), f9(true)]);
}

#[test]
fn debug_log_tells_the_ai_keys() {
    let (mut b, _) = Bridge::new(&config(Some("f9"), None), false, true);
    b.run(Event::Start);
    let (e, _) = b.run(Event::Linked(Some(link("wd", "AJ200 Mouse", true))));
    assert_eq!(e, vec![Effect::SetAi(true), Effect::Log(Notice::AiKeys(true, false))]);
    let (mut b, _) = Bridge::new(&config(None, None), false, true);
    b.run(Event::Start);
    let (e, _) = b.run(Event::Linked(Some(link("wd", "AJ200 Mouse", true))));
    assert_eq!(e, vec![Effect::SetAi(false), Effect::Log(Notice::AiKeys(false, false))]);
}

#[test]
fn packets_are_told_of_at_a_stop() {
    let mut b = connected(&config(None, None));
    voice(&mut b, 10 * MS);
    voice(&mut b, 20 * MS);
    let (e, _) = b.run(Event::Poll { now: 30 * MS, stop: true });
    assert_eq!(
        e,
        vec![
            Effect::SetAi(false),
            Effect::Log(Notice::Processed(2)),
            Effect::Log(Notice::Stopped),
        ]
    );
}

#[test]
fn voice_key_selects_the_hotkey() {
    let mut b = connected(&config(Some("f9"), Some("f10")));
    assert_eq!(b.on_control(&[0x0C, 0x04, 0x00]), None);
    let e = voice(&mut b, 10 * MS);
    assert_eq!(keys(&e), vec![Stroke { scancode: 0x44, extended: false, keyup: false }]);
    b.on_control(&[0x0C, 0x08, 0x00]);
    assert!(keys(&voice(&mut b, 20 * MS)).is_empty());
    let mut status = [0u8; 64];
    status[0] = 0x0A;
    status[1] = 0x13;
    status[18] = 55;
    assert_eq!(b.on_control(&status), Some((55, false)));
}

#[test]
fn voice_alone_presses_nothing() {
    let mut c = config(None, None);
    c.ai_fwd = true;
    c.auto_enter = true;
    c.auto_enter_delay = 0;
    let mut b = connected(&c);
    for i in 1..100u64 {
        assert!(keys(&voice(&mut b, i * MS)).is_empty());
    }
    for i in 100..1400u64 {
        assert!(keys(&silence(&mut b, i * MS)).is_empty());
    }
}

#[test]
fn enter_follows_the_voice_once() {
    let mut c = config(Some("f9"), None);
    c.auto_enter = true;
    c.auto_enter_mode = "ctrl_enter".to_string();
    c.auto_enter_delay = 100 * MS;
    let mut b = connected(&c);
    voice(&mut b, 10 * MS);
    let e = silence(&mut b, 700 * MS);
    assert_eq!(keys(&e), vec![f9(true)]);
    assert_eq!(e[1], Effect::Log(Notice::VoiceEnded));
    assert!(keys(&silence(&mut b, 799 * MS)).is_empty());
    let e = silence(&mut b, 800 * MS);
    assert_eq!(keys(&e).len(), 4);
    assert_eq!(*e.last().unwrap(), Effect::Log(Notice::AutoEnter));
    assert!(keys(&silence(&mut b, 900 * MS)).is_empty());
    voice(&mut b, 1000 * MS);
    silence(&mut b, 1601 * MS);
    assert_eq!(keys(&silence(&mut b, 1701 * MS)).len(), 4);
}

#[test]
fn samples_and_frames() {
    let mut b = connected(&config(None, None));
    b.run(Event::Poll { now: 1, stop: false });
    b.run(Event::Packet { n: 64, buf: audio_packet() });
    assert_eq!(b.frame(), (3u8..60).collect::<Vec<u8>>());
    let (_, samples) = b.run(Event::Decoded(Some(vec![1, 0, 0xFF, 0xFF, 9])));
    assert_eq!(samples, vec![1, -1]);
    assert_eq!(b.core.n_dec_ok, 1);
    b.run(Event::Clock { now: 1, queue: 0, callbacks: 0 });
    assert_eq!(b.core.n_pkts, 1);
    b.run(Event::Poll { now: 2, stop: false });
    b.run(Event::Packet { n: 63, buf: audio_packet() });
    assert_eq!(b.core.phase, Phase::Settling(false));
}

#[test]
fn two_failures_ask_for_a_decoder() {
    let mut b = connected(&config(None, None));
    for round in 0..2 {
        b.run(Event::Poll { now: 1, stop: false });
        b.run(Event::Packet { n: 64, buf: audio_packet() });
        b.run(Event::Decoded(None));
        if round == 0 {
            assert_eq!(b.request(), Request::Settle);
            b.run(Event::Clock { now: 1, queue: 0, callbacks: 0 });
        }
    }
    assert_eq!(b.request(), Request::OpenDecoder);
    assert_eq!(b.run(Event::Decoder(true)).0, vec![Effect::Log(Notice::DecoderRebuilt)]);
    assert_eq!(b.core.n_dec_fail, 2);
    assert_eq!(b.core.fail_streak, 0);
    assert!(b.has_room());
}

#[test]
fn another_link_takes_over() {
    let mut b = connected(&config(Some("f9"), None));
    voice(&mut b, 10 * MS);
    b.run(Event::Poll { now: 1500 * MS, stop: false });
    assert_eq!(b.request(), Request::Probe);
    let (e, _) = b.run(Event::Live(Some(device("wl", "AJ200 2.4G"))));
    assert_eq!(e[0], Effect::Log(Notice::Switching(LinkKind::Wireless)));
    assert_eq!(keys(&e), vec![f9(true)]);
    assert_eq!(b.request(), Request::Connect);
    assert_eq!(b.excluded_path(), None);
    b.run(Event::Linked(Some(link("wl", "AJ200 2.4G", false))));
    let (e, _) = b.run(Event::Decoder(true));
    assert_eq!(e, vec![Effect::Log(Notice::Switched(LinkKind::Wireless))]);
    assert_eq!(b.mode_label(), "无线");
    assert_eq!(b.request(), Request::Poll);
}

#[test]
fn failed_switch_is_retried() {
    let mut b = connected(&config(None, None));
    b.run(Event::Poll { now: 1500 * MS, stop: false });
    b.run(Event::Live(Some(device("wl", "AJ200 2.4G"))));
    let (e, _) = b.run(Event::Linked(None));
    assert_eq!(e, vec![Effect::Log(Notice::SwitchFailed), Effect::Pause(300)]);
    let (e, _) = b.run(Event::Poll { now: 1600 * MS, stop: false });
    assert_eq!(e, vec![Effect::Pause(200)]);
    assert_eq!(b.request(), Request::Poll);
}

#[test]
fn lost_mouse_is_waited_for() {
    let mut b = connected(&config(None, None));
    b.run(Event::Poll { now: 1500 * MS, stop: false });
    let (e, _) = b.run(Event::Live(None));
    assert_eq!(e, vec![Effect::Log(Notice::Disconnected)]);
    assert_eq!(b.run(Event::Linked(None)).0, vec![Effect::Pause(500)]);
    b.run(Event::Poll { now: 3000 * MS, stop: false });
    assert!(b.run(Event::Live(None)).0.is_empty());
    b.run(Event::Linked(Some(link("wd", "AJ200 Mouse", false))));
    let (e, _) = b.run(Event::Decoder(true));
    assert_eq!(e, vec![Effect::Log(Notice::Reconnected(LinkKind::Wired))]);
    assert_eq!(b.request(), Request::Read);
}

#[test]
fn failed_read_leaves_the_path_out() {
    let mut b = connected(&config(None, None));
    b.run(Event::Poll { now: 1, stop: false });
    assert_eq!(b.run(Event::ReadFailed).0, vec![Effect::Log(Notice::LinkLost)]);
    assert_eq!(b.excluded_path(), Some("wd"));
    b.run(Event::Linked(Some(link("wl", "AJ200 2.4G", false))));
    let (e, _) = b.run(Event::Decoder(false));
    assert_eq!(e, vec![Effect::Log(Notice::DecoderFailed), Effect::Pause(500)]);
    b.run(Event::Poll { now: 2, stop: false });
    b.run(Event::Packet { n: 64, buf: audio_packet() });
    assert_eq!(b.request(), Request::OpenDecoder);
    assert_eq!(b.run(Event::Decoder(true)).0, vec![Effect::Log(Notice::VoiceDetected)]);
    assert_eq!(b.request(), Request::Decode);
    b.run(Event::Decoded(None));
    b.run(Event::Clock { now: 3, queue: 0, callbacks: 0 });
    let (e, _) = b.run(Event::Poll { now: 4, stop: true });
    assert_eq!(e, vec![Effect::Log(Notice::Processed(1)), Effect::Log(Notice::Stopped)]);
}

#[test]
fn late_decoder_failure_skips_the_frame() {
    let mut b = connected(&config(None, None));
    b.run(Event::Poll { now: 1, stop: false });
    b.run(Event::ReadFailed);
    b.run(Event::Linked(Some(link("wl", "AJ200 2.4G", false))));
    b.run(Event::Decoder(false));
    b.run(Event::Poll { now: 2, stop: false });
    b.run(Event::Packet { n: 64, buf: audio_packet() });
    assert_eq!(b.run(Event::Decoder(false)).0, vec![Effect::Log(Notice::DecoderStartFailed)]);
    assert_eq!(b.request(), Request::Settle);
}

#[test]
fn started_bridge_never_gives_up() {
    let mut b = connected(&config(Some("f9"), None));
    for i in 1..50u64 {
        b.run(Event::Poll { now: i * 1500 * MS, stop: false });
        b.run(Event::Live(None));
        assert_eq!(b.request(), Request::Connect);
        b.run(Event::Linked(None));
        assert_eq!(b.request(), Request::Poll);
        assert!(b.core.n_dec_ok + b.core.n_dec_fail <= b.core.n_pkts);
    }
}

#[test]
fn stop_lets_the_keys_go() {
    let mut b = connected(&config(Some("f9"), None));
    voice(&mut b, 10 * MS);
    let (e, _) = b.run(Event::Poll { now: 20 * MS, stop: true });
    assert_eq!(keys(&e), vec![f9(true)]);
}

#[test]
fn stray_events_do_nothing() {
    let mut b = connected(&config(None, None));
    assert!(b.run(Event::ReadFailed).0.is_empty());
    assert!(b.run(Event::Decoder(true)).0.is_empty());
    assert_eq!(b.request(), Request::Poll);
}

#[test]
fn counters_once_a_second() {
    let mut b = connected(&config(None, None));
    voice(&mut b, 10 * MS);
    b.run(Event::Poll { now: 1000 * MS, stop: false });
    b.run(Event::Packet { n: 0, buf: [0; 64] });
    let (e, _) = b.run(Event::Clock { now: 1000 * MS, queue: 7, callbacks: 50 });
    let stats = Stats {
        packets: 1,
        decoded: 1,
        failed: 0,
        queue: 7,
        callbacks_since: 50,
        callbacks: 50,
        idle: 990 * MS,
    };
    assert_eq!(e, vec![Effect::Report(stats)]);
    assert_eq!(
        stats_text(stats, "1.0"),
        "语音包=1 解码OK=1 解码失败=0 队列≈7 回调+50次/秒 累计50次 最近音频1.0s前"
    );
}

#[test]
fn notices() {
    let t = |n| render_notice(n, "KEY", "WHY");
    assert_eq!(
        t(Notice::HotkeyFailed(VoiceKey::Forward, HotkeyError::DriverUnavailable)),
        "热键初始化失败 (将不联动): WHY"
    );
    assert!(t(Notice::HotkeyFailed(VoiceKey::Forward, HotkeyError::UnknownName))
        .starts_with("热键初始化失败 (将不联动): 未知热键名: KEY (可选: [\"L_alt\", "));
    assert_eq!(t(Notice::Connected(LinkKind::Wired)), "已连接鼠标音频接口 (有线模式), 等待语音键...");
    assert_eq!(t(Notice::Disconnected), "鼠标已断开, 等待重新连接...");
    assert_eq!(t(Notice::Reconnected(LinkKind::Wireless)), "已重新连接 (无线模式)。");
    assert_eq!(t(Notice::Switching(LinkKind::Unknown)), "检测到链路变化, 切换到未知模式...");
    assert_eq!(t(Notice::Switched(LinkKind::Wired)), "已切换至有线模式。");
    assert_eq!(t(Notice::SwitchFailed), "切换失败, 继续重试...");
    assert_eq!(t(Notice::DecoderFailed), "sbc 解码器初始化失败: WHY");
    assert_eq!(t(Notice::VoiceDetected), "检测到语音输入, 已启动音频解码。");
    assert_eq!(t(Notice::DecoderStartFailed), "解码器启动失败: WHY");
    assert_eq!(t(Notice::DecoderRebuilt), "解码器重建以恢复 mSBC 帧同步");
    assert_eq!(t(Notice::DecoderRebuildFailed), "解码器重建失败: WHY");
    assert_eq!(t(Notice::HotkeyEngaged(VoiceKey::Backward)), "联动热键已激活: 按住 KEY");
    assert_eq!(t(Notice::AiKeys(true, false)), "AI 键配置: 前进=开 后退=关");
    assert_eq!(t(Notice::LinkLost), "鼠标连接中断, 尝试重新连接...");
    assert_eq!(t(Notice::VoiceEnded), "语音结束, WHY秒后自动按 KEY");
    assert_eq!(t(Notice::AutoEnter), "自动回车: KEY");
    assert_eq!(t(Notice::Processed(120)), "已处理 120 个语音包。");
    assert_eq!(t(Notice::Stopped), "桥接已正常停止。");
}
