use mynah::control::{control_reply, phase_status};
use mynah::daemon::{Event, Phase};
use mynah::pixels::{argb_from_premultiplied, bgra_from_rgba, dot_enlarged, icon_badge_color, icon_body_color, is_premultiplied, Rgba};
use mynah::settings::{choose_model, is_whisper_arch, language, sounds_disabled, stream_requested, ModelSource};
use mynah::sound::{Cue, Tone};
use mynah::stream::CommittedText;
use mynah::text::trim_str;
use mynah::tray::{phase_label, toggle_label, tray_title};
use mynah::wav::{read_wav_16k_mono, wav_fmt_truncated, WavError};

fn wav(fmt: (u16, u32, u16), data: &[u8]) -> Vec<u8> {
    let mut b = b"RIFF\0\0\0\0WAVE".to_vec();
    b.extend_from_slice(b"fmt ");
    b.extend_from_slice(&16u32.to_le_bytes());
    b.extend_from_slice(&1u16.to_le_bytes());
    b.extend_from_slice(&fmt.0.to_le_bytes());
    b.extend_from_slice(&fmt.1.to_le_bytes());
    b.extend_from_slice(&(fmt.1 * 2).to_le_bytes());
    b.extend_from_slice(&2u16.to_le_bytes());
    b.extend_from_slice(&fmt.2.to_le_bytes());
    b.extend_from_slice(b"data");
    b.extend_from_slice(&(data.len() as u32).to_le_bytes());
    b.extend_from_slice(data);
    b
}

#[test]
fn wav_samples() {
    let bytes = wav((1, 16000, 16), &[0x01, 0x00, 0xff, 0xff, 0x00, 0x80, 0x7f]);
    assert!(!wav_fmt_truncated(&bytes));
    assert_eq!(read_wav_16k_mono(&bytes), Ok(vec![1, -1, -32768]));
}

#[test]
fn wav_errors() {
    assert_eq!(read_wav_16k_mono(b"RIFF"), Err(WavError::NotWav));
    let mut bad = wav((1, 16000, 16), &[0; 4]);
    bad[0] = b'X';
    assert_eq!(read_wav_16k_mono(&bad), Err(WavError::NotWav));
    assert_eq!(
        read_wav_16k_mono(&wav((2, 44100, 16), &[0; 4])),
        Err(WavError::UnexpectedFormat { channels: 2, rate: 44100, bits: 16 })
    );
    let mut no_data = wav((1, 16000, 16), &[0; 8]);
    no_data[36..40].copy_from_slice(b"junk");
    assert_eq!(read_wav_16k_mono(&no_data), Err(WavError::NoData));
}

#[test]
fn wav_skips_other_chunks_and_cuts_short_data() {
    let mut b = b"RIFF\0\0\0\0WAVE".to_vec();
    b.extend_from_slice(b"LIST");
    b.extend_from_slice(&3u32.to_le_bytes());
    b.extend_from_slice(&[9, 9, 9, 0]);
    b.extend_from_slice(b"data");
    b.extend_from_slice(&100u32.to_le_bytes());
    b.extend_from_slice(&[0u8; 26]);
    b.extend_from_slice(&[0x02, 0x00]);
    assert_eq!(read_wav_16k_mono(&b).unwrap().len(), 14);
}

#[test]
fn wav_short_fmt_is_detected() {
    let mut b = b"RIFF\0\0\0\0WAVE".to_vec();
    b.extend_from_slice(b"fmt ");
    b.extend_from_slice(&4u32.to_le_bytes());
    b.extend_from_slice(&[0u8; 40]);
    assert!(wav_fmt_truncated(&b));
}

#[test]
fn control_protocol() {
    let (ev, reply) = control_reply(" toggle\n", Phase::Idle);
    assert!(matches!(ev, Some(Event::Toggle)));
    assert_eq!(reply, "ok");
    assert!(matches!(control_reply("cancel", Phase::Idle).0, Some(Event::Cancel)));
    assert!(matches!(control_reply("quit", Phase::Idle).0, Some(Event::Quit)));
    let (ev, reply) = control_reply("status", Phase::Transcribing);
    assert!(ev.is_none());
    assert_eq!(reply, "transcribing");
    assert_eq!(control_reply("dance", Phase::Idle).1, "unknown command");
    assert_eq!(phase_status(Phase::Loading), "loading");
}

#[test]
fn tray_texts() {
    assert_eq!(phase_label(Phase::Loading), "loading model\u{2026}");
    assert_eq!(phase_label(Phase::Idle), "idle");
    assert_eq!(tray_title(Phase::Recording), "mynah \u{2014} recording");
    assert_eq!(toggle_label(Phase::Recording), "Stop & type");
    assert_eq!(toggle_label(Phase::Idle), "Start dictation");
}

#[test]
fn settings_decisions() {
    assert!(stream_requested(Some("1")));
    assert!(!stream_requested(Some("true")));
    assert!(!stream_requested(None));
    assert!(sounds_disabled(Some("off")));
    assert!(sounds_disabled(Some("0")));
    assert!(!sounds_disabled(Some("on")));
    assert!(!sounds_disabled(None));
    assert_eq!(language(None, false), "en");
    assert_eq!(language(None, true), "en-US");
    assert_eq!(language(Some("de"), true), "de");
    assert_eq!(language(Some("en-GB"), true), "en-GB");
    assert!(is_whisper_arch("Whisper"));
    assert!(!is_whisper_arch("parakeet"));
}

#[test]
fn model_choice() {
    match choose_model(Some("/x/model.gguf"), true, Some("whisper")).unwrap() {
        ModelSource::Path(p) => assert_eq!(p, "/x/model.gguf"),
        other => panic!("{other:?}"),
    }
    match choose_model(None, true, Some("whisper")).unwrap() {
        ModelSource::DataFile(f) => assert_eq!(f, "nemotron-3.5-asr-streaming-0.6b-Q8_0.gguf"),
        other => panic!("{other:?}"),
    }
    match choose_model(None, false, None).unwrap() {
        ModelSource::DataFile(f) => assert_eq!(f, "parakeet-tdt-0.6b-v3-Q8_0.gguf"),
        other => panic!("{other:?}"),
    }
    match choose_model(None, false, Some("whisper")).unwrap() {
        ModelSource::DataFile(f) => assert_eq!(f, "ggml-large-v3-turbo-q5_0.bin"),
        other => panic!("{other:?}"),
    }
    assert_eq!(choose_model(None, false, Some("vosk")).unwrap_err().name, "vosk");
}

#[test]
fn committed_text_deltas() {
    let mut c = CommittedText::new();
    assert_eq!(c.delta(""), None);
    assert_eq!(c.delta("hel").as_deref(), Some("hel"));
    assert_eq!(c.delta("hel"), None);
    assert_eq!(c.delta("hello wörld").as_deref(), Some("lo wörld"));
    assert_eq!(c.emitted_bytes(), "hello wörld".len());
}

#[test]
fn committed_text_counts_bytes() {
    let mut c = CommittedText::new();
    assert_eq!(c.emitted_bytes(), 0);
    assert_eq!(c.delta("ab").as_deref(), Some("ab"));
    assert_eq!(c.emitted_bytes(), 2);
    assert_eq!(c.delta("\u{e9}x").as_deref(), Some("x"));
    assert_eq!(c.emitted_bytes(), 3);
    assert_eq!(c.delta("\u{e9}x"), None);
}

#[test]
fn cue_tones() {
    assert_eq!(Cue::Start.tone(), Tone { frequency_hz: 880, millis: 65 });
    assert_eq!(Cue::Stop.tone(), Tone { frequency_hz: 660, millis: 85 });
    assert_eq!(Cue::Stop.tone().hold_millis(), 110);
}

#[test]
fn pixel_conversions() {
    let rgba = [2u8, 3, 5, 40, 10, 20, 30, 255, 153, 99, 54, 180];
    assert!(is_premultiplied(&rgba));
    assert!(!is_premultiplied(&[50, 0, 0, 40]));
    assert!(!is_premultiplied(&[0, 0, 0]));
    assert_eq!(
        argb_from_premultiplied(&rgba),
        vec![40, 13, 19, 32, 255, 10, 20, 30, 180, 217, 140, 77]
    );
    assert_eq!(bgra_from_rgba(&[1, 2, 3, 4, 5, 6, 7, 8, 9]), vec![3, 2, 1, 4, 7, 6, 5, 8]);
}

#[test]
fn transparent_pixel_stays_black() {
    assert!(is_premultiplied(&[0, 0, 0, 0]));
    assert_eq!(argb_from_premultiplied(&[0, 0, 0, 0]), vec![0, 0, 0, 0]);
    assert_eq!(argb_from_premultiplied(&[7, 8, 9, 255]), vec![255, 7, 8, 9]);
}

#[test]
fn trims_ascii_whitespace() {
    let t: String = trim_str("  hello world \n").into_iter().collect();
    assert_eq!(t, "hello world");
    let t: String = trim_str("\t\r\n").into_iter().collect();
    assert_eq!(t, "");
    let t: String = trim_str("\u{3000}x\u{a0}").into_iter().collect();
    assert_eq!(t, "x");
}

#[test]
fn icon_colors_and_pulse() {
    assert_eq!(icon_body_color(Phase::Loading), Rgba { r: 150, g: 150, b: 150, a: 255 });
    assert_eq!(icon_body_color(Phase::Idle), Rgba { r: 232, g: 233, b: 240, a: 255 });
    assert_eq!(icon_badge_color(Phase::Recording), Some(Rgba { r: 247, g: 118, b: 142, a: 255 }));
    assert_eq!(icon_badge_color(Phase::Transcribing), Some(Rgba { r: 230, g: 175, b: 80, a: 255 }));
    assert_eq!(icon_badge_color(Phase::Idle), None);
    assert!(dot_enlarged(0, 2));
    assert!(!dot_enlarged(7, 0));
    assert!(dot_enlarged(8, 1));
}
