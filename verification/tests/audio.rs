use mynah::audio::{chunk_len_at_rate, CHUNK, TARGET_RATE};

#[test]
fn dc_offset_does_not_count_as_mic_level() {
    let samples = [0.3_f32; 480];
    let sum = samples.iter().sum::<f32>();
    let sum_sq = samples.iter().map(|sample| sample * sample).sum::<f32>();
    let frames = samples.len() as f32;
    let rms = (sum_sq / frames - (sum / frames).powi(2)).max(0.0).sqrt();

    assert!(rms < 1e-3);
}

#[test]
fn chunk_scales_with_device_rate() {
    assert_eq!(chunk_len_at_rate(TARGET_RATE), CHUNK);
    assert_eq!(chunk_len_at_rate(48000), 7680);
    assert_eq!(chunk_len_at_rate(44100), 7056);
    assert_eq!(chunk_len_at_rate(u32::MAX), 687194767);
}
