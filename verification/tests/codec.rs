use mousemic::msbc::{Decoded, MsbcDecoder};
use mousemic::pcm::{pcm_from_samples, samples_from_pcm};
use mousemic::wav::{wav_header, WavWriter};

fn decoder() -> MsbcDecoder {
    MsbcDecoder::new(0, 240, 57).unwrap()
}

fn refused() -> Decoded {
    Decoded { rc: -2, written: 0, out: vec![0; 240] }
}

#[test]
fn sizes_are_those_the_codec_reports() {
    let dec = decoder();
    assert_eq!((dec.codesize, dec.framelen), (240, 57));
    assert!(MsbcDecoder::available());
}

#[test]
fn empty_and_refused_frames_give_nothing() {
    let dec = decoder();
    assert!(dec.frame_input(&[]).is_none());
    assert!(dec.decode_frame(&[], refused()).is_none());
    assert!(dec.decode_frame(&[0u8; 57], refused()).is_none());
}

#[test]
fn init_failure() {
    assert_eq!(MsbcDecoder::new(-12, 0, 0).err(), Some(-12));
}

#[test]
fn decode_outcomes() {
    let dec = decoder();
    let frame = [0xADu8; 57];
    let good = Decoded { rc: 57, written: 240, out: vec![7; 240] };
    assert_eq!(dec.decode_frame(&frame, good), Some(vec![7; 240]));
    let short = Decoded { rc: 57, written: 120, out: vec![7; 240] };
    assert_eq!(dec.decode_frame(&frame, short), None);
    let nothing = Decoded { rc: 57, written: 0, out: vec![7; 240] };
    assert_eq!(dec.decode_frame(&frame, nothing), None);
}

#[test]
fn frames_are_padded_and_cut() {
    let dec = decoder();
    let short = dec.frame_input(&[1, 2, 3]).unwrap();
    assert_eq!(&short[..4], &[1, 2, 3, 0]);
    let long = dec.frame_input(&[9u8; 70]).unwrap();
    assert_eq!(long[56], 9);
    assert_eq!(long[57], 0);
}

#[test]
fn rows_of_frames() {
    let dec = decoder();
    let row: Vec<u8> = (0..120).map(|i| i as u8).collect();
    let frames = dec.split_frames(&row);
    assert_eq!(frames.len(), 3);
    assert_eq!(frames[0].len(), 57);
    assert_eq!(frames[1][0], 57);
    assert_eq!(frames[2], vec![114, 115, 116, 117, 118, 119]);
    let pcm = dec.decode_all(&vec![Some(vec![1, 2]), None, Some(vec![3])]);
    assert_eq!(pcm, vec![1, 2, 3]);
    let whole = dec.decode_all(&vec![Some(vec![0; 240]); 4]);
    assert_eq!(whole.len(), 4 * 240);
}

#[test]
fn samples_and_bytes() {
    assert_eq!(samples_from_pcm(&[0x34, 0x12, 0xFF, 0xFF, 0x07]), vec![0x1234, -1]);
    assert_eq!(pcm_from_samples(&[-32768, 1]), vec![0x00, 0x80, 0x01, 0x00]);
    let all: Vec<i16> = vec![i16::MIN, -2, -1, 0, 1, 255, 256, i16::MAX];
    assert_eq!(samples_from_pcm(&pcm_from_samples(&all)), all);
}

#[test]
fn batches_append() {
    let mut bytes = pcm_from_samples(&[1, 2]);
    bytes.extend(pcm_from_samples(&[-3]));
    assert_eq!(bytes, pcm_from_samples(&[1, 2, -3]));
}

#[test]
fn header_bytes() {
    let h = wav_header(16000, 1, 4);
    assert_eq!(&h[0..4], b"RIFF");
    assert_eq!(&h[4..8], &[40, 0, 0, 0]);
    assert_eq!(&h[8..16], b"WAVEfmt ");
    assert_eq!(&h[24..28], &16000u32.to_le_bytes());
    assert_eq!(&h[28..32], &32000u32.to_le_bytes());
    assert_eq!(&h[32..36], &[2, 0, 16, 0]);
    assert_eq!(&h[36..40], b"data");
    assert_eq!(&h[40..44], &[4, 0, 0, 0]);
}

#[test]
fn recording() {
    let (mut w, head) = WavWriter::new(16000, 1);
    assert_eq!(head, wav_header(16000, 1, 0));
    assert!(w.has_room(2));
    assert_eq!(w.write_samples(&[1, -1]), vec![1, 0, 255, 255]);
    assert_eq!(w.data_len, 4);
    assert_eq!(w.close(), wav_header(16000, 1, 4));
    let full = WavWriter { data_len: u32::MAX - 37 };
    assert!(full.has_room(0));
    assert!(!full.has_room(1));
}
