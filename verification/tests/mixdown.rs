//! Behavior of the mixdown engine: decoding, channel averaging,
//! resampling, placement, saturation, and the callback's view.

use vvvst::mix::{
    build_mix, callback_action, downmix_mono, render_block, resample_linear, sat_add16,
    CallbackAction, MixBuffer,
};
use vvvst::models::{Phrase, SingingVoiceKey};
use vvvst::store::Voice;
use vvvst::wav::parse_wav;

fn key(s: &str) -> SingingVoiceKey {
    SingingVoiceKey(String::from(s))
}

fn phrase(start_millis: i64, voice: &str) -> Phrase {
    Phrase { start_millis, voice: key(voice) }
}

fn wav_bytes(channels: u16, rate: u32, samples: &[i16]) -> Vec<u8> {
    let mut v = Vec::new();
    v.extend_from_slice(b"RIFF");
    v.extend_from_slice(&0u32.to_le_bytes());
    v.extend_from_slice(b"WAVE");
    v.extend_from_slice(b"fmt ");
    v.extend_from_slice(&16u32.to_le_bytes());
    v.extend_from_slice(&1u16.to_le_bytes());
    v.extend_from_slice(&channels.to_le_bytes());
    v.extend_from_slice(&rate.to_le_bytes());
    v.extend_from_slice(&(rate * 2 * channels as u32).to_le_bytes());
    v.extend_from_slice(&(2 * channels).to_le_bytes());
    v.extend_from_slice(&16u16.to_le_bytes());
    v.extend_from_slice(b"data");
    v.extend_from_slice(&((samples.len() * 2) as u32).to_le_bytes());
    for s in samples {
        v.extend_from_slice(&s.to_le_bytes());
    }
    v
}

#[test]
fn saturating_add_clamps_instead_of_wrapping() {
    assert_eq!(sat_add16(30000, 30000), 32767);
    assert_eq!(sat_add16(-30000, -30000), -32768);
    assert_eq!(sat_add16(100, 100), 200);
    assert_eq!(sat_add16(32767, 1), 32767);
    assert_eq!(sat_add16(-32768, -1), -32768);
    assert_eq!(sat_add16(-32768, 32767), -1);
}

#[test]
fn wav_parser_reads_canonical_stream() {
    let bytes = wav_bytes(1, 48000, &[1000, -1000, 500]);
    let clip = parse_wav(&bytes).unwrap();
    assert_eq!(clip.channels, 1);
    assert_eq!(clip.sample_rate, 48000);
    assert_eq!(clip.samples, vec![1000, -1000, 500]);
}

#[test]
fn wav_parser_skips_unknown_chunks() {
    let mut bytes = Vec::new();
    bytes.extend_from_slice(b"RIFF");
    bytes.extend_from_slice(&0u32.to_le_bytes());
    bytes.extend_from_slice(b"WAVE");
    // a stray chunk before the format chunk
    bytes.extend_from_slice(b"LIST");
    bytes.extend_from_slice(&4u32.to_le_bytes());
    bytes.extend_from_slice(&[9, 9, 9, 9]);
    let rest = wav_bytes(1, 8000, &[7]);
    bytes.extend_from_slice(&rest[12..]);
    let clip = parse_wav(&bytes).unwrap();
    assert_eq!(clip.sample_rate, 8000);
    assert_eq!(clip.samples, vec![7]);
}

#[test]
fn wav_parser_rejects_malformed_streams() {
    assert!(parse_wav(&vec![]).is_none());
    assert!(parse_wav(&b"RIFFxxxxWAVA".to_vec()).is_none());
    // data chunk before any format chunk
    let mut bytes = Vec::new();
    bytes.extend_from_slice(b"RIFF");
    bytes.extend_from_slice(&0u32.to_le_bytes());
    bytes.extend_from_slice(b"WAVE");
    bytes.extend_from_slice(b"data");
    bytes.extend_from_slice(&2u32.to_le_bytes());
    bytes.extend_from_slice(&[0, 0]);
    assert!(parse_wav(&bytes).is_none());
    // truncated chunk
    let mut short = wav_bytes(1, 8000, &[7]);
    short.pop();
    assert!(parse_wav(&short).is_none());
}

#[test]
fn downmix_averages_channels_with_floor() {
    let samples: Vec<i16> = vec![100, 200, -5, -6];
    assert_eq!(downmix_mono(&samples, 2), vec![150, -6]);
    let mono: Vec<i16> = vec![3, -3];
    assert_eq!(downmix_mono(&mono, 1), vec![3, -3]);
}

#[test]
fn resample_at_same_rate_is_identity() {
    let samples: Vec<i16> = vec![5, -7, 32767, -32768, 0];
    assert_eq!(resample_linear(&samples, 44100, 44100), samples);
}

#[test]
fn resample_interpolates_linearly() {
    let samples: Vec<i16> = vec![0, 100];
    assert_eq!(resample_linear(&samples, 1, 2), vec![0, 50, 100, 100]);
    let down: Vec<i16> = vec![0, 50, 100, 100];
    assert_eq!(resample_linear(&down, 2, 1), vec![0, 100]);
}

#[test]
fn build_mix_places_clip_at_timeline_start() {
    let voices = vec![Voice { key: key("a"), data: wav_bytes(1, 48000, &[1000, -1000, 500]) }];
    let phrases = vec![phrase(0, "a")];
    assert_eq!(build_mix(&phrases, &voices, 48000), vec![1000, -1000, 500]);
}

#[test]
fn build_mix_offsets_by_start_time() {
    let voices = vec![Voice { key: key("a"), data: wav_bytes(1, 1000, &[7, 8]) }];
    // one second at 1000 frames per second: offset 1000... use 4 ms for brevity
    let phrases = vec![phrase(4, "a")];
    let mix = build_mix(&phrases, &voices, 1000);
    assert_eq!(mix, vec![0, 0, 0, 0, 7, 8]);
}

#[test]
fn build_mix_skips_absent_and_undecodable_voices() {
    let voices = vec![Voice { key: key("bad"), data: vec![1, 2, 3] }];
    let phrases = vec![phrase(0, "bad"), phrase(0, "missing"), phrase(2, "bad")];
    // nothing decodes, but the buffer still covers the last start
    let mix = build_mix(&phrases, &voices, 1000);
    assert_eq!(mix, vec![0, 0]);
}

#[test]
fn build_mix_saturates_overlapping_clips() {
    let voices = vec![Voice { key: key("loud"), data: wav_bytes(1, 1000, &[30000]) }];
    let phrases = vec![phrase(0, "loud"), phrase(0, "loud")];
    assert_eq!(build_mix(&phrases, &voices, 1000), vec![32767]);
}

#[test]
fn build_mix_drops_samples_before_time_zero() {
    let voices = vec![Voice { key: key("a"), data: wav_bytes(1, 1000, &[10, 20, 30]) }];
    let phrases = vec![phrase(-2, "a")];
    assert_eq!(build_mix(&phrases, &voices, 1000), vec![30]);
}

#[test]
fn build_mix_downmixes_stereo_clips() {
    let voices = vec![Voice { key: key("st"), data: wav_bytes(2, 1000, &[100, 200, -5, -6]) }];
    let phrases = vec![phrase(0, "st")];
    assert_eq!(build_mix(&phrases, &voices, 1000), vec![150, -6]);
}

#[test]
fn build_mix_resamples_to_target_rate() {
    let voices = vec![Voice { key: key("a"), data: wav_bytes(1, 1000, &[0, 100]) }];
    let phrases = vec![phrase(0, "a")];
    assert_eq!(build_mix(&phrases, &voices, 2000), vec![0, 50, 100, 100]);
}

#[test]
fn build_mix_is_deterministic() {
    let voices = vec![
        Voice { key: key("a"), data: wav_bytes(1, 1000, &[300, -300, 200]) },
        Voice { key: key("b"), data: wav_bytes(2, 500, &[15, 25, -10, -20]) },
    ];
    let phrases = vec![phrase(0, "a"), phrase(1, "b"), phrase(-1, "a")];
    let first = build_mix(&phrases, &voices, 4000);
    let second = build_mix(&phrases, &voices, 4000);
    assert_eq!(first, second);
}

#[test]
fn mix_buffer_snapshot_carries_rate() {
    let empty = MixBuffer::new();
    assert_eq!(empty.sample_rate, 0);
    assert!(empty.samples.is_empty());
    let voices = vec![Voice { key: key("a"), data: wav_bytes(1, 8000, &[5]) }];
    let built = MixBuffer::rebuilt(&vec![phrase(0, "a")], &voices, 8000);
    assert_eq!(built.sample_rate, 8000);
    assert_eq!(built.samples, vec![5]);
}

#[test]
fn callback_decides_silence_rebuild_or_copy() {
    assert_eq!(callback_action(false, 48000, 48000, true, 10), CallbackAction::Silence);
    assert_eq!(callback_action(true, 44100, 48000, true, 10), CallbackAction::Rebuild);
    assert_eq!(callback_action(true, 48000, 48000, true, 10), CallbackAction::Copy);
    assert_eq!(callback_action(true, 48000, 48000, false, 10), CallbackAction::Silence);
    assert_eq!(callback_action(true, 48000, 48000, true, 0), CallbackAction::Silence);
}

#[test]
fn render_block_pads_past_end_with_silence() {
    let mix: Vec<i16> = vec![1, 2, 3];
    assert_eq!(render_block(&mix, 0, 3), vec![1, 2, 3]);
    assert_eq!(render_block(&mix, 1, 4), vec![2, 3, 0, 0]);
    assert_eq!(render_block(&mix, 5, 2), vec![0, 0]);
}

#[test]
fn build_mix_with_no_phrases_is_empty() {
    let voices = vec![Voice { key: key("a"), data: wav_bytes(1, 1000, &[5]) }];
    assert!(build_mix(&vec![], &voices, 48000).is_empty());
    assert!(build_mix(&vec![phrase(0, "a")], &voices, 0).is_empty());
}
