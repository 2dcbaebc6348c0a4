use mousemic::hotkey::{
    decode_hwid, hotkey_scan, hotkey_scans, inject_ctrl_enter, inject_enter, interception_stroke,
    is_listed, pick_keyboard, send_scan, unknown_name_text, Backend, HotKey, HotkeyError, Stroke,
    HOTKEY_NAMES,
};

fn down(scancode: u8, extended: bool) -> Stroke {
    Stroke { scancode, extended, keyup: false }
}

fn up(scancode: u8, extended: bool) -> Stroke {
    Stroke { scancode, extended, keyup: true }
}

#[test]
fn scan_codes() {
    assert_eq!(hotkey_scan("R_alt"), Some((0x38, true)));
    assert_eq!(hotkey_scan("left_alt"), Some((0x38, false)));
    assert_eq!(hotkey_scan("capslock"), Some((0x3A, false)));
    assert_eq!(hotkey_scan("R_alt+space"), None);
    assert_eq!(hotkey_scan("F9"), None);
    assert_eq!(hotkey_scans("R_alt + space"), Some(vec![(0x38, true), (0x39, false)]));
    assert_eq!(hotkey_scans(" f10 "), Some(vec![(0x44, false)]));
    assert_eq!(hotkey_scans("R_alt+"), None);
    assert_eq!(hotkey_scans(""), None);
    assert_eq!(
        hotkey_scans("R_ctrl+R_alt+f9"),
        Some(vec![(0x1D, true), (0x38, true), (0x43, false)])
    );
    assert_eq!(hotkey_scans("R_ctrl+x+f9"), None);
}

#[test]
fn listed_names_are_known() {
    for name in HOTKEY_NAMES {
        assert!(is_listed(name));
        assert!(hotkey_scans(name).is_some());
    }
    assert!(!is_listed("right_alt"));
}

#[test]
fn hotkey_errors() {
    assert_eq!(HotKey::new("x", "sendinput", true).err(), Some(HotkeyError::UnknownName));
    assert_eq!(
        HotKey::new("f9", "interception", false).err(),
        Some(HotkeyError::DriverUnavailable)
    );
    assert_eq!(HotKey::new("f9", "interception", true).unwrap().backend, Backend::Interception);
    assert_eq!(HotKey::new("f9", "other", false).unwrap().backend, Backend::SendInput);
    assert_eq!(
        unknown_name_text("x"),
        "未知热键名: x (可选: [\"L_alt\", \"R_alt\", \"R_ctrl\", \"R_shift\", \"f9\", \"f10\", \"space\", \"grave\", \"capslock\", \"R_alt+space\", \"R_alt+R_shift\", \"R_alt+R_ctrl\"])"
    );
    assert_eq!(unknown_name_text("x"), format!("未知热键名: {} (可选: {:?})", "x", HOTKEY_NAMES));
}

#[test]
fn press_and_release() {
    let mut h = HotKey::new("R_alt+space", "sendinput", false).unwrap();
    assert!(!h.is_down());
    assert_eq!(h.release(), vec![]);
    assert_eq!(h.press(), vec![down(0x38, true), down(0x39, false)]);
    assert_eq!(h.press(), vec![]);
    assert!(h.is_down());
    assert_eq!(h.release(), vec![up(0x39, false), up(0x38, true)]);
    assert!(!h.is_down());
    let (d, u) = h.tap();
    assert_eq!(d, vec![down(0x38, true), down(0x39, false)]);
    assert_eq!(u, vec![up(0x39, false), up(0x38, true)]);
    h.press();
    assert_eq!(h.close(), vec![up(0x39, false), up(0x38, true)]);
}

#[test]
fn enter_keys() {
    assert_eq!(inject_enter(), vec![down(0x1C, false), up(0x1C, false)]);
    assert_eq!(
        inject_ctrl_enter(),
        vec![down(0x1D, false), down(0x1C, false), up(0x1C, false), up(0x1D, false)]
    );
}

#[test]
fn stroke_records() {
    let k = send_scan(0x38, true, true);
    assert_eq!((k.scan, k.flags), (0x38, 0xB));
    assert_eq!(send_scan(0x39, false, false).flags, 0x8);
    let r = interception_stroke(0x38, true, true);
    assert_eq!(r[0], 0x38);
    assert_eq!(r[2], 3);
    assert_eq!(r.iter().filter(|b| **b != 0).count(), 2);
}

#[test]
fn hardware_ids() {
    let text: Vec<u16> = "HID\\VID_363C键".encode_utf16().collect();
    let id = decode_hwid(&text, 100);
    assert_eq!(id.iter().collect::<String>(), "HID\\VID_363C键");
    assert_eq!(decode_hwid(&text, 3).len(), 3);
    assert_eq!(decode_hwid(&[0xD83D, 0x41], 2), vec!['\0', 'A']);
}

#[test]
fn keyboard_choice() {
    let id = |s: &str| Some(s.chars().collect::<Vec<char>>());
    assert_eq!(pick_keyboard(&vec![None, id("GVInput"), id("VID_046D"), id("VID_363C")]), Some(4));
    assert_eq!(pick_keyboard(&vec![None, id("GVInput"), id("VID_046D"), id("ACPI")]), Some(3));
    assert_eq!(pick_keyboard(&vec![None, id("GVInput")]), None);
    assert_eq!(pick_keyboard(&vec![]), None);
}
