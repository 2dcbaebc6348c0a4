use mousemic::devices::{
    describe_pid, is_supported, lookup, supported_devices, supported_pids,
};

#[test]
fn unique_pid_count() {
    assert_eq!(supported_pids().len(), 21);
    assert_eq!(supported_devices().len(), 22);
}

#[test]
fn lookup_shared_pid() {
    let recs = lookup(0xFC0C);
    assert_eq!(recs.len(), 2);
    assert!(describe_pid(0xFC0C).unwrap().contains("ULTRA+"));
    assert!(describe_pid(0xFC0C).unwrap().contains("ULTRA-3955"));
}

#[test]
fn unknown_pid_unsupported() {
    assert!(!is_supported(0x1234));
    assert!(describe_pid(0x1234).is_none());
    assert!(is_supported(0xED03));
}

#[test]
fn description_of_one_model() {
    assert_eq!(describe_pid(0xED03).unwrap(), "AJ200 NL AI MC (PAW3311)");
    assert_eq!(describe_pid(0xED1D).unwrap(), "AJ200P NL AI ULTRA-3955 (PAW3955, 飞轮)");
}

#[test]
fn described_exactly_where_supported() {
    let pids = supported_pids();
    for pid in 0xEC00u16..=0xFFFF {
        assert_eq!(describe_pid(pid).is_some(), pids.contains(&pid));
        assert_eq!(is_supported(pid), pids.contains(&pid));
        assert_eq!(lookup(pid).is_empty(), !pids.contains(&pid));
    }
}
