use mousemic::config::Config;
use mousemic::hid::HidInterface;
use mousemic::panel::{
    battery_text, cable_found, cable_items, deps_text, detect_mouse, found_pids, hotkey_item,
    hotkey_items, index_of, interception_status, list_devices, mode_hint, reminder_body,
    reminder_log, reminder_title, split_hotkey_sel, status_text, Action, AppState, BatteryWatch,
    CloseAction, LogBook, Msg, Reminder, Selection, VOICE_ONLY,
};

fn strings(list: &[&str]) -> Vec<String> {
    list.iter().map(|s| s.to_string()).collect()
}

fn iface(vid: u16, pid: u16) -> HidInterface {
    HidInterface {
        vid,
        pid,
        usage_page: 1,
        usage: 1,
        interface_number: 0,
        path: String::new(),
        manufacturer: String::new(),
        product: String::new(),
    }
}

#[test]
fn hotkey_items_and_back() {
    assert_eq!(hotkey_items().len(), 14);
    assert_eq!(hotkey_items()[..3], strings(&["无", "仅语音(无热键)", "L_alt"]));
    assert_eq!(split_hotkey_sel("无"), (None, false));
    assert_eq!(split_hotkey_sel(VOICE_ONLY), (None, true));
    assert_eq!(split_hotkey_sel("f9"), (Some("f9".to_string()), false));
    assert_eq!(hotkey_item(&None, false), "无");
    assert_eq!(hotkey_item(&None, true), VOICE_ONLY);
    assert_eq!(hotkey_item(&Some("无".to_string()), true), VOICE_ONLY);
    assert_eq!(hotkey_item(&Some("f9".to_string()), true), "f9");
    for item in hotkey_items() {
        let (name, ai) = split_hotkey_sel(&item);
        assert_eq!(hotkey_item(&name, ai), item);
    }
}

#[test]
fn places_in_lists() {
    let items = strings(&["a", "b", "b"]);
    assert_eq!(index_of(&items, "b"), 1);
    assert_eq!(index_of(&items, "x"), 0);
    assert_eq!(index_of(&Vec::new(), "x"), 0);
    assert_eq!(cable_items(vec![], "CABLE Input"), strings(&["CABLE Input"]));
    assert_eq!(cable_items(vec![], "Other"), strings(&["CABLE Input", "Other"]));
    assert_eq!(cable_items(strings(&["A", "B"]), "B"), strings(&["A", "B"]));
    assert_eq!(cable_items(strings(&["A"]), "B"), strings(&["A", "B"]));
    assert_eq!(cable_items(strings(&["A"]), ""), strings(&["A"]));
}

#[test]
fn settings_shown_and_saved() {
    let mut c = Config::default();
    c.mode = "play".to_string();
    c.hotkey_forward = Some("R_alt+space".to_string());
    c.hotkey_backward = None;
    c.ai_bwd = true;
    c.driver = "interception".to_string();
    c.auto_enter_mode = "ctrl_enter".to_string();
    c.auto_enter_delay = 2_000_000_000;
    c.typeless_bwd = true;
    c.wired_pids = strings(&["0xED03"]);
    c.wireless_pids = strings(&["0xED00", "60677"]);
    let mut s = AppState::default();
    s.pre_build(&c, false);
    assert!(!s.pending_hide);
    let cables = cable_items(strings(&["CABLE Input"]), "CABLE Input");
    let k = s.post_build(&cables);
    assert_eq!((k.fwd, k.bwd, k.driver, k.cable, k.enter_mode), (11, 1, 1, 0, 1));
    assert!(!k.mode.cable_enabled && k.mode.play_checked && !k.tray && !k.start);
    let saved = s.current_config(&Selection {
        fwd: Some(k.fwd),
        bwd: Some(k.bwd),
        driver: Some(k.driver),
        cable: None,
    });
    assert_eq!(saved.mode, "play");
    assert_eq!(saved.cable_device, "CABLE Input");
    assert_eq!(saved.hotkey_forward.as_deref(), Some("R_alt+space"));
    assert_eq!(saved.hotkey_backward, None);
    assert!(!saved.ai_fwd && saved.ai_bwd);
    assert_eq!(saved.driver, "interception");
    assert_eq!(saved.auto_enter_mode, "ctrl_enter");
    assert_eq!(saved.auto_enter_delay, 2_000_000_000);
    assert!(saved.typeless_bwd && !saved.typeless_fwd);
    assert_eq!(saved.wired_pids, strings(&["0xED03"]));
    assert_eq!(saved.wireless_pids, strings(&["0xED00", "60677"]));
}

#[test]
fn missing_selections() {
    let mut s = AppState::default();
    s.pre_build(&Config::default(), false);
    let c = s.current_config(&Selection {
        fwd: None,
        bwd: Some(99),
        driver: None,
        cable: Some("Other".to_string()),
    });
    assert_eq!(c.mode, "cable");
    assert_eq!(c.hotkey_forward, None);
    assert_eq!(c.hotkey_backward, None);
    assert_eq!(c.driver, "sendinput");
    assert_eq!(c.cable_device, "Other");
}

#[test]
fn tray_and_bridge_are_independent() {
    let mut c = Config::default();
    c.minimize_to_tray = true;
    let mut s = AppState::default();
    s.pre_build(&c, false);
    let k = s.post_build(&Vec::new());
    assert!(k.tray && !k.start);
    assert!(s.take_hide());
    assert!(!s.take_hide());
    c.minimize_to_tray = false;
    c.auto_start_service = true;
    let mut t = AppState::default();
    t.pre_build(&c, false);
    let k = t.post_build(&Vec::new());
    assert!(!k.tray && k.start);
    let mut u = AppState::default();
    u.pre_build(&Config::default(), true);
    let k = u.post_build(&Vec::new());
    assert!(k.tray && k.start);
}

#[test]
fn running_and_stopped() {
    let mut s = AppState::default();
    assert_eq!(s.on_close(), CloseAction::Exit);
    assert!(s.start_bridge(&Config::default()));
    assert_eq!(s.log.lines[0], "已启动: 模式=cable 前进=R_alt 后退=无 驱动=sendinput");
    assert!(!s.start_bridge(&Config::default()));
    assert_eq!(s.log.lines.len(), 1);
    assert_eq!(s.on_close(), CloseAction::Hide);
    s.battery.low_notified = true;
    s.stop_bridge();
    assert!(!s.running && !s.battery.low_notified);
    assert_eq!(s.log.lines[1], "桥接已停止。");
    assert_eq!(status_text(true), "● 运行中");
    assert_eq!(status_text(false), "● 已停止");
}

#[test]
fn start_line_keeps_to_the_limit() {
    let mut s = AppState::default();
    for _ in 0..1000 {
        s.append_log("x");
    }
    assert!(s.start_bridge(&Config::default()));
    assert_eq!(s.log.lines.len(), 800);
    assert!(s.log.lines[799].starts_with("已启动: "));
}

#[test]
fn changed_settings() {
    let mut s = AppState::default();
    let m = s.set_mode(false);
    assert!(!s.mode_play && !m.play_checked && m.cable_checked && m.cable_enabled);
    let m = s.set_mode(true);
    assert!(s.mode_play && m.play_checked && !m.cable_checked && !m.cable_enabled);
    s.set_mode(false);
    let none = Selection { fwd: None, bwd: None, driver: None, cable: None };
    assert_eq!(s.current_config(&none).mode, "cable");
    s.on_autostart_change(true);
    s.on_autostart_change(false);
    s.on_debug_change(true);
    s.on_debug_change(false);
    assert_eq!(
        s.log.lines,
        strings(&[
            "开机自启: 已开启",
            "开机自启: 已关闭",
            "调试日志已开启 (每秒输出语音包/解码/队列/回调统计数据)",
            "调试日志已关闭",
        ])
    );
    s.on_persist_setting(true, true, true, Some("Ctrl+Enter"), Some(11_000_000_000), true, false);
    assert_eq!(s.auto_enter_mode, "ctrl_enter");
    assert_eq!(s.auto_enter_delay, 10_000_000_000);
    assert!(s.minimize_to_tray && s.auto_start_service && s.auto_enter && s.typeless_fwd);
    s.on_persist_setting(false, false, false, None, None, false, true);
    assert_eq!(s.auto_enter_mode, "enter");
    assert_eq!(s.auto_enter_delay, 10_000_000_000);
    assert!(mode_hint(true).contains("扬声器试听"));
    assert!(mode_hint(false).contains("CABLE Output"));
}

#[test]
fn log_forgets_its_oldest_lines() {
    let mut log = LogBook::new();
    for i in 0..1000 {
        log.append(&format!("{}", i));
    }
    assert_eq!(log.lines.len(), 1000);
    log.append("new");
    assert_eq!(log.lines.len(), 800);
    assert_eq!(log.lines[0], "201");
    assert_eq!(log.lines[799], "new");
    let mut two = LogBook::new();
    two.append("a");
    two.append("b");
    assert_eq!(two.text(), "a\r\nb");
}

#[test]
fn battery_reminders() {
    let mut w = BatteryWatch::new();
    assert_eq!(w.on_battery_update(11, false), vec![]);
    assert_eq!(w.on_battery_update(10, false), vec![Reminder::Low(10)]);
    assert_eq!(w.on_battery_update(9, false), vec![]);
    assert_eq!(w.on_battery_update(50, true), vec![]);
    assert_eq!(w.on_battery_update(5, false), vec![Reminder::Low(5)]);
    assert_eq!(w.on_battery_update(100, true), vec![Reminder::Full]);
    assert_eq!(w.on_battery_update(100, true), vec![]);
    assert_eq!(w.on_battery_update(100, false), vec![]);
    assert_eq!(w.on_battery_update(100, true), vec![]);
    assert_eq!(w.on_battery_update(99, false), vec![]);
    assert_eq!(w.on_battery_update(100, true), vec![Reminder::Full]);
    assert_eq!(reminder_log(Reminder::Low(7)), "低电量提醒: 7%");
    assert_eq!(reminder_title(Reminder::Low(7)), "鼠标电量不足");
    assert_eq!(reminder_body(Reminder::Low(7)), "电量仅剩 7%，请及时充电。");
    assert_eq!(reminder_log(Reminder::Full), "充电完成提醒: 电池已充满");
    assert_eq!(reminder_title(Reminder::Full), "鼠标已充满");
    assert_eq!(reminder_body(Reminder::Full), "电池已充满，可以拔掉充电线。");
    assert_eq!(battery_text(80, true), "电量: 80% 充电中");
    assert_eq!(battery_text(80, false), "电量: 80%");
}

#[test]
fn messages_of_the_bridge() {
    let mut s = AppState::default();
    s.running = true;
    let out = s.on_tick(&vec![
        Msg::Log("hello".to_string()),
        Msg::Battery(8, false),
        Msg::Running(true),
        Msg::Running(false),
    ]);
    assert_eq!(
        out,
        vec![
            Action::Battery(8, false),
            Action::Balloon(Reminder::Low(8)),
            Action::RunState(false),
        ]
    );
    assert!(!s.running);
    assert_eq!(s.log.lines, strings(&["hello", "低电量提醒: 8%", "桥接已停止。"]));
    assert_eq!(s.on_tick(&vec![Msg::Running(false)]), vec![Action::RunState(false)]);
    assert_eq!(s.log.lines.len(), 3);
    assert!(s.on_tick(&vec![]).is_empty());
}

#[test]
fn mice_that_are_there() {
    let list = vec![
        iface(0x363C, 0xED03),
        iface(0x363C, 0x1234),
        iface(0x1111, 0xED05),
        iface(0x363C, 0xED00),
        iface(0x363C, 0xED03),
    ];
    assert_eq!(found_pids(&list), vec![0xED00, 0xED03]);
    let (status, info) = detect_mouse(Some(&list));
    assert_eq!(status, "AJ200 NL AI MC (PAW3311) / AJ200 NL AI MC (PAW3311)");
    assert_eq!(
        info,
        strings(&[
            "AJ200 NL AI MC (PAW3311)  PID=0xED00",
            "AJ200 NL AI MC (PAW3311)  PID=0xED03",
        ])
    );
    assert_eq!(detect_mouse(Some(&Vec::new())).0, "未检测到 (AJ200 系列)");
    let (status, info) = detect_mouse(None);
    assert_eq!(status, "检测失败 (HID 初始化错误)");
    assert!(info.is_empty());
}

#[test]
fn dependencies() {
    let found = vec![None, Some("Speakers".to_string()), Some("CABLE Input".to_string())];
    assert!(cable_found(&found));
    assert!(!cable_found(&vec![Some("cable".to_string())]));
    assert_eq!(interception_status(true, true), "已安装");
    assert_eq!(interception_status(true, false), "缺 DLL");
    assert_eq!(interception_status(false, true), "缺驱动");
    assert_eq!(interception_status(false, false), "未安装");
    assert_eq!(
        deps_text("M", &strings(&["x", "y"]), true, false, false),
        "鼠标: M\r\nVB-CABLE: 已安装\r\nInterception: 未安装\r\n\r\nx\r\ny\r\n"
    );
    assert_eq!(
        deps_text("M", &Vec::new(), false, true, true),
        "鼠标: M\r\nVB-CABLE: 未检测到\r\nInterception: 已安装\r\n"
    );
    assert_eq!(
        list_devices(&found),
        strings(&["可用输出设备:", "  [1] Speakers", "  [2] CABLE Input"])
    );
}
