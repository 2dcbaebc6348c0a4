use mousemic::config::{autostart_command, read_pid, Config};

#[test]
fn ai_enabled_decisions() {
    let mut c = Config::default();
    assert!(c.ai_forward_enabled());
    assert!(!c.ai_backward_enabled());
    c.ai_bwd = true;
    assert!(c.ai_backward_enabled());
    c.hotkey_forward = Some("无".to_string());
    c.ai_fwd = false;
    assert!(!c.ai_forward_enabled());
    c.hotkey_backward = Some("无".to_string());
    c.ai_bwd = false;
    assert!(!c.ai_backward_enabled());
}

#[test]
fn coerce_pids_formats() {
    let set = Config::coerce_pids(&[
        "0xED03".to_string(),
        "57003".to_string(),
        "1234".to_string(),
        "ED03".to_string(),
        "垃圾".to_string(),
    ]);
    assert!(set.contains(&0xED03));
    assert!(set.contains(&57003));
    assert!(set.contains(&1234));
    assert!(!set.contains(&0x1234));
    assert_eq!(set.len(), 3);
}

#[test]
fn product_ids_are_read() {
    assert_eq!(read_pid(" 0XfC0c "), Some(0xFC0C));
    assert_eq!(read_pid("65535"), Some(65535));
    assert_eq!(read_pid("+12"), Some(12));
    assert_eq!(read_pid("65536"), None);
    assert_eq!(read_pid("0x"), None);
    assert_eq!(read_pid(""), None);
    assert_eq!(read_pid("0x10000"), None);
    assert_eq!(read_pid("-1"), None);
}

#[test]
fn configured_pids() {
    let mut c = Config::default();
    assert!(c.wired_pids().is_empty());
    c.wired_pids = vec!["0xED03".to_string()];
    c.wireless_pids = vec!["60680".to_string(), "x".to_string()];
    assert!(c.wired_pids().contains(&0xED03));
    assert_eq!(c.wireless_pids().len(), 1);
    assert!(c.wireless_pids().contains(&60680));
}

#[test]
fn defaults() {
    let c = Config::default();
    assert_eq!(c.mode, "cable");
    assert_eq!(c.cable_device, "CABLE Input");
    assert_eq!(c.hotkey_forward.as_deref(), Some("R_alt"));
    assert_eq!(c.hotkey_backward, None);
    assert_eq!(c.driver, "sendinput");
    assert_eq!(c.auto_enter_mode, "enter");
    assert_eq!(c.auto_enter_delay, 500_000_000);
    assert!(!c.auto_enter && !c.typeless_fwd && !c.typeless_bwd && !c.autostart);
}

#[test]
fn saved_settings_come_back() {
    let mut c = Config::default();
    c.cable_device = "Voicemeeter".to_string();
    c.autostart = true;
    let saved = c.save(true);
    let loaded = Config::load(Some(saved), false);
    assert_eq!(loaded.cable_device, "Voicemeeter");
    assert!(!loaded.autostart);
    let fresh = Config::load(None, true);
    assert_eq!(fresh.cable_device, "CABLE Input");
    assert!(fresh.autostart);
}

#[test]
fn autostart_command_line() {
    assert_eq!(autostart_command("C:\\MouseMic.exe"), "\"C:\\MouseMic.exe\" --autostart");
}

#[test]
fn interception_is_opened_where_it_is_needed() {
    let mut c = Config::default();
    assert!(!c.wants_interception());
    c.driver = "interception".to_string();
    assert!(c.wants_interception());
    c.hotkey_forward = Some("无".to_string());
    assert!(!c.wants_interception());
    c.hotkey_backward = Some("f9".to_string());
    assert!(c.wants_interception());
}
