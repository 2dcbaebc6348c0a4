//! A voice mouse as a microphone: the logic that turns the mSBC frames in the HID reports of an
//! AJAZZ mouse into PCM for a sound card, and the voice key into a hotkey.
//!
//! - [`hid`]: which interfaces of the mouse carry audio and commands, link classification, the
//!   reports that are sent and received.
//! - [`handshake`]: the exchanges that open a link.
//! - [`msbc`]: framing of mSBC frames and of the PCM they decode to.
//! - [`pcm`]: samples and their bytes.
//! - [`audio`]: the queue between the decoder and the sound card.
//! - [`wav`]: recording to a file.
//! - [`hotkey`]: which key strokes to inject.
//! - [`bridge`]: the main loop, as a state machine.
//! - [`config`]: settings.
//! - [`panel`]: the state of the window.
//! - [`cli`]: the command line.
//! - [`devices`]: supported models.
//! - [`text`]: characters, numbers and lists in texts.
//! - [`key_test`], [`single_instance`], [`dialog`]: what the program does beside the bridge.

use vstd::prelude::*;

pub mod audio;
pub mod bridge;
pub mod cli;
pub mod config;
pub mod devices;
pub mod dialog;
pub mod handshake;
pub mod hid;
pub mod hotkey;
pub mod key_test;
pub mod msbc;
pub mod panel;
pub mod pcm;
pub mod single_instance;
pub mod text;
pub mod wav;

verus! {

/// The vendor id of the mouse.
pub const VID: u16 = 0x363C;

/// The title of the main window, by which a running instance is found too.
pub const WINDOW_TITLE: &'static str = "AJAZZ 语音鼠标桥接器 v1.4.3";

/// The usage page of the audio interface.
pub const AUDIO_USAGE_PAGE: u16 = 0xFFAA;

/// The usage pages that may carry the command channel, best first.
pub const CMD_USAGE_PAGES: [u16; 3] = [0xFFA0, 0xFFB1, 0xFFDF];

/// The report id of an audio packet.
pub const REPORT_ID: u8 = 0xB1;

/// The sample rate of the decoded audio.
pub const SAMPLE_RATE: u32 = 16000;

/// The length of the frame in an audio packet, as its third byte gives it.
pub const AUDIO_PAYLOAD_LEN: u8 = 0x39;

/// How long the audio has to be gone before the voice key counts as let go, in nanoseconds.
pub const HOTKEY_IDLE_TIMEOUT: u64 = 600_000_000;

} // verus!
