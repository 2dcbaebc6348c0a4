use mousemic::audio::{
    frames_in, missing_device_text, pick_output, spread, stream_plan, wanted_device, AudioOutput,
};

fn names(list: &[Option<&str>]) -> Vec<Option<String>> {
    list.iter().map(|n| n.map(|s| s.to_string())).collect()
}

#[test]
fn queue_in_order() {
    let mut out = AudioOutput::new(Some("CABLE Input"));
    assert_eq!(out.device_name(), "CABLE Input");
    assert_eq!(out.next_sample(), None);
    out.push_pcm(&[1, 2]);
    out.push_pcm(&[3]);
    assert_eq!(out.diagnostics(), (3, 0));
    assert_eq!(out.next_sample(), Some(1));
    assert_eq!(out.next_sample(), Some(2));
    assert_eq!(out.next_sample(), Some(3));
    assert_eq!(out.next_sample(), None);
}

#[test]
fn full_queue_drops_the_newest() {
    let mut out = AudioOutput::new(None);
    assert_eq!(out.device_name(), "<未知设备>");
    out.push_pcm(&vec![7; 31999]);
    out.push_pcm(&[8, 9]);
    assert_eq!(out.diagnostics().0, 32000);
    for _ in 0..31999 {
        assert_eq!(out.next_sample(), Some(7));
    }
    assert_eq!(out.next_sample(), Some(8));
    assert_eq!(out.next_sample(), None);
}

#[test]
fn batches_join() {
    let mut twice = AudioOutput::new(None);
    twice.push_pcm(&vec![1; 20000]);
    twice.push_pcm(&vec![2; 20000]);
    let mut once = AudioOutput::new(None);
    let all: Vec<i16> = [vec![1; 20000], vec![2; 20000]].concat();
    once.push_pcm(&all);
    assert_eq!(twice.queue, once.queue);
    assert_eq!(once.diagnostics().0, 32000);
}

#[test]
fn callbacks_are_counted() {
    let mut out = AudioOutput::new(None);
    out.count_callback();
    out.count_callback();
    assert_eq!(out.diagnostics(), (0, 2));
    out.callback_count = usize::MAX;
    out.count_callback();
    assert_eq!(out.diagnostics().1, 0);
}

#[test]
fn device_by_name() {
    let list = names(&[None, Some("Speakers"), Some("CABLE Input (VB-Audio)"), Some("cable input 2")]);
    assert_eq!(pick_output(&list, "cable INPUT"), Some(2));
    assert_eq!(pick_output(&list, "headset"), None);
    assert_eq!(pick_output(&list, ""), Some(1));
    assert_eq!(missing_device_text("X"), "找不到输出设备 'X' (用 --list 查看可用设备)");
    assert_eq!(wanted_device("play", "CABLE Input"), None);
    assert_eq!(wanted_device("cable", "CABLE Input"), Some("CABLE Input"));
}

#[test]
fn streams_and_frames() {
    let p = stream_plan(2, 48000, true);
    assert_eq!((p.channels, p.sample_rate, p.buffer_frames, p.float), (2, 48000, 960, true));
    assert_eq!(frames_in(7, 2), 3);
    assert_eq!(spread(&[0.5f32, -0.5], 2), vec![0.5, 0.5, -0.5, -0.5]);
    assert_eq!(spread(&[1i16, 2, 3], 1), vec![1, 2, 3]);
}
