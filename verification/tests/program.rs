use mousemic::cli::{bridge_config, list_devices, Cli, Job, Sink};
use mousemic::dialog::{panic_text, show_error_box};
use mousemic::hid::HidInterface;
use mousemic::key_test::{is_watched, label, list_interfaces, report_line};
use mousemic::single_instance::{bring_existing_to_front, try_acquire, MutexOutcome, Raise};
use mousemic::{SAMPLE_RATE, VID, WINDOW_TITLE};

fn cli() -> Cli {
    Cli {
        list: false,
        list_hid: false,
        play: false,
        cable: None,
        file: None,
        hotkey: None,
        driver: "sendinput".to_string(),
        autostart: false,
    }
}

#[test]
fn jobs() {
    assert_eq!(cli().job(), Job::Gui(false));
    assert_eq!(Cli { autostart: true, ..cli() }.job(), Job::Gui(true));
    assert_eq!(Cli { list: true, list_hid: true, play: true, ..cli() }.job(), Job::List);
    assert_eq!(Cli { list_hid: true, play: true, ..cli() }.job(), Job::ListHid);
    assert_eq!(Cli { file: Some("a.wav".to_string()), ..cli() }.job(), Job::Headless);
}

#[test]
fn sinks() {
    let all = Cli {
        play: true,
        cable: Some("C".to_string()),
        file: Some("a.wav".to_string()),
        ..cli()
    };
    assert_eq!(all.sink(), Some(Sink::Speakers));
    assert_eq!(all.device(), None);
    let cable = Cli { play: false, ..all };
    assert_eq!(cable.sink(), Some(Sink::Cable));
    assert_eq!(cable.device(), Some("C"));
    let file = Cli { cable: None, ..cable };
    assert_eq!(file.sink(), Some(Sink::File));
    assert_eq!(cli().sink(), None);
}

#[test]
fn hotkey_check() {
    assert!(cli().check_hotkey().is_ok());
    assert!(Cli { hotkey: Some("f9".to_string()), ..cli() }.check_hotkey().is_ok());
    let e = Cli { hotkey: Some("right_alt".to_string()), ..cli() }.check_hotkey().unwrap_err();
    assert!(e.starts_with("未知热键名: right_alt (可选: [\"L_alt\", "));
}

#[test]
fn admission() {
    let play = Cli { play: true, ..cli() };
    assert_eq!(play.start_headless(true), Ok(Some(Sink::Speakers)));
    assert_eq!(play.start_headless(false), Err("mousemic 已在运行中, 已尝试激活已有窗口。".to_string()));
    let bad = Cli { play: true, hotkey: Some("x".to_string()), ..cli() };
    assert!(bad.start_headless(true).unwrap_err().starts_with("未知热键名: x"));
    assert!(bad.start_headless(false).unwrap_err().starts_with("mousemic"));
}

#[test]
fn settings_of_a_headless_run() {
    let c = Cli { play: true, ..cli() }.config();
    assert_eq!(c.mode, "play");
    assert_eq!(c.cable_device, "CABLE Input");
    assert_eq!((c.hotkey_forward, c.hotkey_backward), (None, None));
    assert!(c.ai_fwd && c.ai_bwd);
    let c = bridge_config("cable", "X", &Some("f9".to_string()), "interception");
    assert_eq!(c.hotkey_forward.as_deref(), Some("f9"));
    assert_eq!(c.hotkey_backward.as_deref(), Some("f9"));
    assert!(!c.ai_fwd && !c.ai_bwd && !c.auto_enter);
    assert_eq!((c.mode.as_str(), c.cable_device.as_str(), c.driver.as_str()), ("cable", "X", "interception"));
    let c = Cli { file: Some("a.wav".to_string()), ..cli() }.config();
    assert_eq!(c.mode, "file");
}

#[test]
fn intro_lines() {
    let play = Cli { play: true, hotkey: Some("f9".to_string()), ..cli() };
    assert_eq!(
        play.intro(),
        vec![
            "输出设备: (系统默认扬声器)",
            "联动热键: f9 [sendinput]",
            "按住鼠标语音键开始说话, Ctrl+C 退出。",
        ]
    );
    let file = Cli { file: Some("a.wav".to_string()), ..cli() };
    assert_eq!(file.intro(), vec!["录音到: a.wav", "按住鼠标语音键开始说话, Ctrl+C 结束。"]);
    let cable = Cli { cable: Some("C".to_string()), ..cli() };
    assert_eq!(cable.intro()[0], "输出设备: C");
    assert!(cli().intro().is_empty());
}

#[test]
fn device_rates() {
    let lines = list_devices(&vec![
        (Some("A".to_string()), Some(48000)),
        (None, Some(1)),
        (Some("B".to_string()), None),
    ]);
    assert_eq!(lines, vec!["可用音频输出设备:", "  [0] A  (rate=48000)", "  [2] B  (rate=0)"]);
}

#[test]
fn one_instance() {
    assert!(try_acquire(MutexOutcome::Created));
    assert!(!try_acquire(MutexOutcome::AlreadyExists));
    assert!(!try_acquire(MutexOutcome::Failed));
    assert!(!try_acquire(MutexOutcome::Invalid));
    assert_eq!(bring_existing_to_front(None), None);
    assert_eq!(bring_existing_to_front(Some(true)), Some(Raise::Restore));
    assert_eq!(bring_existing_to_front(Some(false)), Some(Raise::Show));
}

#[test]
fn error_boxes() {
    let b = show_error_box("oops");
    assert_eq!((b.title.as_str(), b.text.as_str()), ("MouseMic 错误", "oops"));
    assert_eq!(
        panic_text(Some("boom"), Some(("src/a.rs", 12))),
        "MouseMic 发生未捕获错误:\nboom (src/a.rs:12)"
    );
    assert_eq!(panic_text(None, None), "MouseMic 发生未捕获错误:\n未知错误");
}

#[test]
fn key_test_lines() {
    let h = HidInterface {
        vid: VID,
        pid: 0xED03,
        usage_page: 0xFFA0,
        usage: 2,
        interface_number: 1,
        path: "\\\\?\\hid#vid_363c&pid_ed03#7".to_string(),
        manufacturer: String::new(),
        product: String::new(),
    };
    let alien = HidInterface { vid: 1, path: "x".to_string(), ..h.clone() };
    let plain = HidInterface { usage_page: 0xFFAA, path: "x".to_string(), ..h.clone() };
    assert!(is_watched(&h) && !is_watched(&alien) && !is_watched(&plain));
    assert_eq!(
        list_interfaces(&vec![h, alien, plain]),
        vec![
            "找到 2 个 AJAZZ 接口:",
            "  up=0xFFA0 u=0x0002 pid=0xED03 vid_363c&pid_ed03",
            "  up=0xFFAA u=0x0002 pid=0xED03 ?",
        ]
    );
    let l = label(0xFFA0, 2, 0xED03);
    let mut buf = [0u8; 64];
    assert_eq!(report_line(&l, &buf, 64), None);
    buf[0] = 0x0C;
    buf[1] = 0x08;
    assert_eq!(report_line(&l, &buf, 0), None);
    assert_eq!(report_line("L", &buf, 64).unwrap(), "[L] ▼ 前进键按下");
    buf[1] = 0x04;
    assert_eq!(report_line("L", &buf, 64).unwrap(), "[L] ▼ 后退键按下");
    buf[1] = 0x00;
    assert_eq!(report_line("L", &buf, 64).unwrap(), "[L] ▲ 释放");
    buf[1] = 0xAB;
    assert_eq!(report_line("L", &buf, 64).unwrap(), "[L] 0x0C AB 00");
    buf[0] = 0x0A;
    assert_eq!(report_line("L", &buf, 2).unwrap(), "[L] 0A AB ");
    assert_eq!(report_line("L", &buf, 64).unwrap(), "[L] 0A AB 00 00 00 00 00 00 ");
}

#[test]
fn constants() {
    assert_eq!(VID, 0x363C);
    assert_eq!(SAMPLE_RATE, 16000);
    assert_eq!(WINDOW_TITLE, "AJAZZ 语音鼠标桥接器 v1.4.3");
}
