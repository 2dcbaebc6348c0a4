use mousemic::handshake::{
    arm_mouse, connect_audio, live_link, open_control, ArmEvent, ArmStage, ConnectEvent, ConnectStage,
};
use mousemic::hid::{
    ai_off, ai_on, build_arm_seq, classify_label, classify_link, control_paths, enumerate_audio,
    find_command_paths, fully_written, list_hid, parse_battery, parse_key, pkt, set_ai_key_mode,
    AiSession, HidInterface, KeyReport,
};
use std::collections::HashSet;

fn iface(vid: u16, pid: u16, page: u16, usage: u16, path: &str, product: &str) -> HidInterface {
    HidInterface {
        vid,
        pid,
        usage_page: page,
        usage,
        interface_number: 1,
        path: path.to_string(),
        manufacturer: "AJAZZ".to_string(),
        product: product.to_string(),
    }
}

fn none() -> HashSet<u16> {
    HashSet::new()
}

/// A receiver and a cable, with their command interfaces.
fn two_links() -> Vec<HidInterface> {
    vec![
        iface(0x363C, 0xED00, 0xFFAA, 1, "wl-audio", "AJ200 2.4G"),
        iface(0x363C, 0xED00, 0xFFA0, 1, "wl-cmd", "AJ200 2.4G"),
        iface(0x363C, 0xED03, 0xFFAA, 1, "wd-audio", "AJ200 Mouse"),
        iface(0x363C, 0xED03, 0xFFB1, 1, "wd-b1", "AJ200 Mouse"),
        iface(0x363C, 0xED03, 0xFFA0, 1, "wd-a0", "AJ200 Mouse"),
        iface(0x363C, 0xED03, 0x0001, 6, "wd-kbd", "AJ200 Mouse"),
    ]
}

#[test]
fn links_by_product_string() {
    let wired: HashSet<u16> = [0xED00].into_iter().collect();
    assert_eq!(classify_link("AJ200 2.4G Mouse", &wired, &none(), 0xED00), "wireless");
    assert_eq!(classify_link("aj200 MOUSE", &none(), &wired, 0xED00), "wired");
    assert_eq!(classify_link("AJ200", &wired, &none(), 0xED00), "wired");
    assert_eq!(classify_link("AJ200", &none(), &wired, 0xED00), "wireless");
    assert_eq!(classify_link("AJ200", &none(), &none(), 0xED00), "unknown");
    assert_eq!(classify_label("wired"), "有线");
    assert_eq!(classify_label("wireless"), "无线");
    assert_eq!(classify_label("?"), "未知");
}

#[test]
fn activation_packets() {
    let seq = build_arm_seq();
    assert_eq!(seq.len(), 8);
    let commands: Vec<u8> = seq.iter().map(|p| p[1]).collect();
    assert_eq!(commands, vec![0x13, 0x13, 0x14, 0x15, 0x17, 0x19, 0x51, 0x55]);
    assert!(seq.iter().all(|p| p[0] == 0x0B));
    assert_eq!(&seq[7][2..6], &[0x1a, 0x18, 0x01, 0x01]);
    assert_eq!(seq[0][2..], [0u8; 62]);
    let p = pkt(0x13, &[5; 80]);
    assert_eq!(p[63], 5);
    assert_eq!(p[1], 0x13);
}

#[test]
fn ai_reports() {
    let reports = |mut s: AiSession| {
        let mut all = Vec::new();
        while let Some(r) = s.pending() {
            assert_eq!(s.result(), None);
            assert_eq!(s.pause_ms(), if all.is_empty() { 0 } else { 50 });
            all.push(r);
            s.step(64);
        }
        assert_eq!(s.result(), Some(true));
        all
    };
    let on = reports(ai_on());
    let off = reports(ai_off());
    assert_eq!(on.len(), 2);
    assert_eq!(&on[0][..6], &[0x0b, 0x55, 0x1a, 0x10, 0x00, 0x01]);
    assert_eq!(&on[1][..6], &[0x0b, 0x55, 0x1a, 0x10, 0x01, 0x01]);
    assert_eq!(off[0][3], 0x08);
    assert_eq!(on[0][14], 0x08);
    assert_eq!(set_ai_key_mode(true), ai_on());
    assert_eq!(set_ai_key_mode(false), ai_off());
    for i in 0..64 {
        assert_eq!(on[0][i] == off[0][i], i != 3);
    }
}

#[test]
fn short_ai_report_ends_the_switching() {
    let mut s = ai_on();
    s.step(63);
    assert_eq!(s.pending(), None);
    assert_eq!(s.result(), Some(false));
    s.step(64);
    assert_eq!(s.result(), Some(false));
    let mut t = ai_off();
    t.step(64);
    assert!(t.pending().is_some());
    t.step(0);
    assert_eq!(t.pending(), None);
    assert_eq!(t.result(), Some(false));
}

#[test]
fn audio_interfaces_of_supported_mice() {
    let mut list = two_links();
    list.push(iface(0x363C, 0x0001, 0xFFAA, 1, "other", "Mouse"));
    list.push(iface(0x1111, 0xED03, 0xFFAA, 1, "alien", "Mouse"));
    let found = enumerate_audio(&list);
    let paths: Vec<&str> = found.iter().map(|d| d.path.as_str()).collect();
    assert_eq!(paths, vec!["wl-audio", "wd-audio"]);
}

#[test]
fn command_paths_in_order() {
    let list = two_links();
    assert_eq!(find_command_paths(&list, Some(0xED03)), vec!["wd-a0", "wd-b1"]);
    assert_eq!(find_command_paths(&list, Some(0xED00)), vec!["wl-cmd"]);
    assert_eq!(find_command_paths(&list, Some(0xED05)), vec!["wl-cmd"]);
    assert_eq!(find_command_paths(&list, None), vec!["wl-cmd"]);
    assert!(find_command_paths(&Vec::new(), Some(0xED03)).is_empty());
}

#[test]
fn control_interfaces() {
    let mut list = two_links();
    list.push(iface(0x363C, 0xED03, 0xFFA0, 2, "wd-ctl", "AJ200 Mouse"));
    assert!(control_paths(&list, 0xED03).contains(&"wd-ctl".to_string()));
    assert!(control_paths(&list, 0xED05).is_empty());
}

#[test]
fn first_control_interface_that_opens() {
    let list: Vec<HidInterface> = ["c1", "c2", "c3"]
        .iter()
        .map(|p| iface(0x363C, 0xED03, 0xFFA0, 2, p, "AJ200 Mouse"))
        .collect();
    let mut s = open_control(&list, 0xED03);
    assert_eq!(s.pending(), Some("c1"));
    s.step(false);
    assert_eq!(s.pending(), Some("c2"));
    s.step(true);
    assert_eq!(s.pending(), None);
    assert_eq!(s.result(), Some("c2"));
    let mut t = open_control(&list, 0xED03);
    for _ in 0..4 {
        t.step(false);
    }
    assert_eq!((t.pending(), t.result()), (None, None));
    let mut c = connect_audio(&two_links(), &none(), &none(), None);
    c.step(ConnectEvent::Armed(true));
    c.step(ConnectEvent::Opened(true));
    assert!(c.connected(&s).control);
    assert!(!c.connected(&t).control);
}

#[test]
fn status_and_key_reports() {
    let mut buf = [0u8; 64];
    buf[0] = 0x0A;
    buf[1] = 0x13;
    buf[17] = 1;
    buf[18] = 83;
    assert_eq!(parse_battery(&buf), Some((83, true)));
    buf[17] = 0;
    assert_eq!(parse_battery(&buf), Some((83, false)));
    assert_eq!(parse_battery(&buf[..18]), None);
    assert_eq!(parse_key(&buf), None);
    assert_eq!(parse_key(&[0x0C, 0x08, 0]), Some(KeyReport::Forward));
    assert_eq!(parse_key(&[0x0C, 0x04, 0]), Some(KeyReport::Backward));
    assert_eq!(parse_key(&[0x0C, 0x00, 0]), Some(KeyReport::Released));
    assert_eq!(parse_key(&[0x0C, 0x0C, 9]), Some(KeyReport::Other(0x0C, 9)));
    assert!(fully_written(64) && !fully_written(63));
}

#[test]
fn interface_list() {
    let lines = list_hid(&vec![
        iface(0x363C, 0xED00, 0xFFAA, 1, "p", "AJ200 2.4G"),
        HidInterface { interface_number: -1, ..iface(0x046D, 0x00AB, 0x0001, 1, "q", "KB") },
    ]);
    assert_eq!(lines.len(), 6);
    assert_eq!(lines[1], "  363C ED00   #  1  0xFFAA  AJAZZ AJ200 2.4G  <== AJAZZ  [无线]  [音频接口]");
    assert_eq!(lines[2], "  046D 00AB   # -1  0x0001  AJAZZ KB");
    assert_eq!(lines[3], "");
}

#[test]
fn handshake_goes_through() {
    let mut s = arm_mouse(&two_links(), Some(0xED03));
    assert_eq!(s.path(), "wd-a0");
    s.step(ArmEvent::Opened(true));
    for i in 0..8 {
        assert_eq!(s.stage(), ArmStage::Writing);
        assert_eq!(s.packet(), build_arm_seq()[i]);
        s.step(ArmEvent::Wrote(64));
        s.step(ArmEvent::Replied(Some(64)));
    }
    assert_eq!(s.stage(), ArmStage::Armed);
}

#[test]
fn handshake_tries_the_next_path() {
    let mut s = arm_mouse(&two_links(), Some(0xED03));
    s.step(ArmEvent::Opened(false));
    assert_eq!(s.path(), "wd-b1");
    s.step(ArmEvent::Opened(true));
    s.step(ArmEvent::Wrote(64));
    s.step(ArmEvent::Replied(None));
    assert_eq!(s.stage(), ArmStage::Failed);
    let mut t = arm_mouse(&two_links(), Some(0xED00));
    t.step(ArmEvent::Opened(true));
    t.step(ArmEvent::Wrote(63));
    assert_eq!(t.stage(), ArmStage::Failed);
    assert_eq!(arm_mouse(&Vec::new(), None).stage(), ArmStage::Failed);
}

#[test]
fn reply_that_times_out_fails() {
    let mut s = arm_mouse(&two_links(), Some(0xED00));
    s.step(ArmEvent::Opened(true));
    for _ in 0..7 {
        s.step(ArmEvent::Wrote(64));
        s.step(ArmEvent::Replied(Some(1)));
    }
    s.step(ArmEvent::Wrote(64));
    s.step(ArmEvent::Replied(Some(0)));
    assert_eq!(s.stage(), ArmStage::Failed);
}

#[test]
fn cable_before_receiver() {
    let mut s = connect_audio(&two_links(), &none(), &none(), None);
    assert_eq!(s.candidate().path, "wd-audio");
    s.step(ConnectEvent::Armed(false));
    assert_eq!(s.candidate().path, "wl-audio");
    s.step(ConnectEvent::Armed(true));
    s.step(ConnectEvent::Opened(true));
    assert_eq!(s.stage(), ConnectStage::Connected);
    let mut search = open_control(&two_links(), 0xED00);
    search.step(true);
    let c = s.connected(&search);
    assert_eq!(c.path, "wl-audio");
    assert_eq!(c.pid, 0xED00);
    assert!(!c.control);
}

#[test]
fn excluded_path_is_left_out() {
    let s = connect_audio(&two_links(), &none(), &none(), Some("wd-audio"));
    assert_eq!(s.candidates.len(), 1);
    assert_eq!(s.candidate().path, "wl-audio");
}

#[test]
fn failed_connection_is_explained() {
    let mut s = connect_audio(&two_links(), &none(), &none(), None);
    s.step(ConnectEvent::Armed(false));
    s.step(ConnectEvent::Armed(true));
    s.step(ConnectEvent::Opened(false));
    assert_eq!(s.stage(), ConnectStage::Failed);
    assert_eq!(
        s.failure_text(),
        "找到鼠标音频接口但无法建立连接。诊断: PID=ED03 (AJ200 Mouse) 命令通道握手失败; PID=ED00 音频接口打开失败"
    );
    let empty = connect_audio(&Vec::new(), &none(), &none(), None);
    assert_eq!(
        empty.failure_text(),
        "未找到鼠标音频 HID 接口 (usage_page=0xFFAA)。请确认鼠标已连接(无线接收器或数据线)。"
    );
}

#[test]
fn first_live_link() {
    let mut s = live_link(&two_links(), &none(), &none());
    assert_eq!(s.pending().unwrap().path, "wd-audio");
    s.step(false);
    assert_eq!(s.pending().unwrap().path, "wl-audio");
    s.step(true);
    assert!(s.pending().is_none());
    assert_eq!(s.result().unwrap().path, "wl-audio");
    let mut t = live_link(&two_links(), &none(), &none());
    t.step(false);
    t.step(false);
    assert!(t.pending().is_none() && t.result().is_none());
}
