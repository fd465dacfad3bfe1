use apt_decoder::envelope::envelope_detection;
use apt_decoder::filter::low_pass_filter;
use apt_decoder::pipeline::{decode, downmix, AppState, DecodeConfig, DecodeError};
use apt_decoder::render::{normalize_image, render, RenderError};
use apt_decoder::resample::resample_signal;
use apt_decoder::sync::{find_sync_position, rotate_left, sync_apt, SyncPattern};

fn apt_line(len: usize, low: u32, high: u32) -> Vec<u32> {
    let pattern = SyncPattern::apt();
    let mut line = vec![low; len];
    for (i, p) in pattern.values.iter().enumerate() {
        line[i] = if *p > 0 { high } else { low };
    }
    line
}

#[test]
fn resample_same_rate_keeps_samples() {
    let r = resample_signal(&vec![1, 2, 3, 4], 8000, 8000);
    assert_eq!(r, vec![1, 2, 3]);
}

#[test]
fn resample_downsampling_values() {
    let x: Vec<i16> = (0..10).map(|i| (i * 100) as i16).collect();
    let r = resample_signal(&x, 48000, 20800);
    // floor(10 * 20800 / 48000) = 4
    assert!(r.len() == 4 || r.len() == 3);
    assert_eq!(r, vec![0, 230, 461, 692]);
}

#[test]
fn resample_length_within_one_of_nominal() {
    let x: Vec<i16> = (0..1000).map(|i| (i % 50) as i16).collect();
    let r = resample_signal(&x, 44100, 20800);
    let nominal = 1000 * 20800 / 44100;
    assert!(r.len() == nominal || r.len() + 1 == nominal);
}

#[test]
fn resample_upsampling_drops_the_tail() {
    let r = resample_signal(&vec![0, 100], 1, 10);
    assert_eq!(r, vec![0, 10, 20, 30, 40, 50, 60, 70, 80, 90]);
}

#[test]
fn resample_empty() {
    assert!(resample_signal(&vec![], 11025, 20800).is_empty());
}

#[test]
fn filter_constant_signal_is_unchanged() {
    let r = low_pass_filter(&vec![500; 20], 5000, 20800);
    assert_eq!(r, vec![500; 20]);
}

#[test]
fn filter_step_response() {
    let r = low_pass_filter(&vec![0, 1000, 1000], 5000, 20800);
    // alpha = 710 * 5000 / (113 * 20800 + 710 * 5000) = 3550000 / 5900400
    assert_eq!(r[0], 0);
    assert_eq!(r[1], 601);
    // 601 + 3550000 * 399 / 5900400 = 601 + 240
    assert_eq!(r[2], 841);
}

#[test]
fn filter_negative_step_rounds_toward_zero() {
    let r = low_pass_filter(&vec![0, -1000], 5000, 20800);
    assert_eq!(r, vec![0, -601]);
}

#[test]
fn filter_empty_input() {
    assert!(low_pass_filter(&vec![], 5000, 20800).is_empty());
}

#[test]
fn envelope_forward_peak() {
    let r = envelope_detection(&vec![-3, 1, -7, 2], 2, 20);
    assert_eq!(r, vec![6, 14, 14, 4]);
}

#[test]
fn envelope_is_nonnegative_and_scaled() {
    let x: Vec<i16> = vec![i16::MIN, -5, 0, 12, -300];
    let r = envelope_detection(&x, 3, 25);
    assert_eq!(r, vec![81920, 30, 750, 750, 750]);
    assert!(r.iter().all(|v| *v as i64 >= 0));
}

#[test]
fn envelope_zero_window() {
    assert_eq!(envelope_detection(&vec![5, 6], 0, 20), vec![0, 0]);
}

#[test]
fn sync_pattern_checks_values() {
    assert!(SyncPattern::from_values(vec![1, -1, 1]).is_some());
    assert!(SyncPattern::from_values(vec![1, 0, 1]).is_none());
    assert!(SyncPattern::from_values(vec![]).is_none());
    assert_eq!(SyncPattern::apt().values.len(), 36);
}

#[test]
fn coarse_search_finds_aligned_line() {
    let line = apt_line(200, 1000, 5000);
    assert_eq!(find_sync_position(&line, &SyncPattern::apt()), 0);
}

#[test]
fn coarse_search_finds_shifted_pattern() {
    let line = apt_line(200, 1000, 5000);
    let shifted = rotate_left(&line, 150);
    assert_eq!(find_sync_position(&shifted, &SyncPattern::apt()), 50);
}

#[test]
fn coarse_search_short_line_falls_back_to_zero() {
    assert_eq!(find_sync_position(&vec![7; 10], &SyncPattern::apt()), 0);
}

#[test]
fn rotation_round_trip() {
    let v: Vec<u32> = (0..17).collect();
    let k = 5;
    let there = rotate_left(&v, k);
    assert_eq!(there[0], 5);
    let back = rotate_left(&there, v.len() - k);
    assert_eq!(back, v);
}

#[test]
fn sync_keeps_whole_lines_only() {
    let mut signal = apt_line(100, 1000, 5000);
    signal.extend(apt_line(100, 1000, 5000));
    signal.extend(vec![3000; 30]);
    let synced = sync_apt(&signal, 100, &SyncPattern::apt(), 0);
    assert_eq!(synced.len(), 200);
    // each line is a rotation of its source line
    for row in 0..2 {
        let mut a = synced[row * 100..row * 100 + 100].to_vec();
        let mut b = signal[row * 100..row * 100 + 100].to_vec();
        a.sort();
        b.sort();
        assert_eq!(a, b);
    }
}

#[test]
fn sync_short_lines_use_coarse_fallback() {
    let signal: Vec<u32> = (0..40).collect();
    let synced = sync_apt(&signal, 10, &SyncPattern::apt(), 3);
    assert_eq!(synced, signal);
}

#[test]
fn sync_empty_signal() {
    assert!(sync_apt(&vec![1, 2, 3], 10, &SyncPattern::apt(), 120).is_empty());
}

fn ramp_signal(rows: usize, width: usize) -> Vec<u32> {
    (0..rows * width).map(|i| 1024 + ((i % width) as u32) * 32).collect()
}

#[test]
fn render_dimensions_and_pixels() {
    // frame width 10, reduction 2: columns 0, 2, 4, 6, 8
    let signal = ramp_signal(3, 10);
    let img = render(&signal, 20, 2).unwrap();
    assert_eq!(img.width(), 5);
    assert_eq!(img.height(), 3);
    // luminances 0, 2, 4, 6, 8 stretched onto 0..=255
    let row: Vec<u8> = (0..5).map(|x| img.pixel(x, 1)).collect();
    assert_eq!(row, vec![0, 63, 127, 191, 255]);
}

#[test]
fn render_is_deterministic() {
    let signal: Vec<u32> = (0..400).map(|i| (i * 37 % 9000) as u32).collect();
    let a = render(&signal, 40, 3).unwrap();
    let b = render(&signal, 40, 3).unwrap();
    assert_eq!(a.to_bytes(), b.to_bytes());
    assert_eq!((a.width(), a.height()), (b.width(), b.height()));
}

#[test]
fn render_normalization_reaches_both_ends() {
    let signal: Vec<u32> = (0..400).map(|i| 2000 + (i * 53 % 5000) as u32).collect();
    let img = render(&signal, 40, 3).unwrap();
    let bytes = img.to_bytes();
    assert_eq!(*bytes.iter().min().unwrap(), 0);
    assert_eq!(*bytes.iter().max().unwrap(), 255);
}

#[test]
fn render_luminance_clamps() {
    // levels below 1024 are black, levels of 9184 and above are white
    let signal = vec![0, 1023, 1024, 1056, 9183, 9184, 20000, 5000];
    let img = render(&signal, 16, 1).unwrap();
    assert_eq!(img.to_bytes(), vec![0, 0, 0, 1, 254, 255, 255, 124]);
}

#[test]
fn render_flat_signal_is_an_error() {
    assert_eq!(render(&vec![0; 20800], 20800, 5).err(), Some(RenderError::FlatImage));
}

#[test]
fn render_degenerate_width() {
    assert_eq!(render(&vec![5000; 10], 1, 1).err(), Some(RenderError::DegenerateWidth));
    assert_eq!(render(&vec![5000; 100], 20, 11).err(), Some(RenderError::DegenerateWidth));
    assert_eq!(render(&vec![5000; 100], 20, 0).err(), Some(RenderError::DegenerateWidth));
}

#[test]
fn render_empty_signal() {
    assert_eq!(render(&vec![5000; 100], 20800, 5).err(), Some(RenderError::EmptySignal));
}

#[test]
fn normalize_reports_flat_image() {
    let mut img = render(&ramp_signal(2, 10), 20, 1).unwrap();
    assert!(normalize_image(&mut img).is_ok());
    let flat = render(&vec![7000; 40], 20, 1);
    assert_eq!(flat.err(), Some(RenderError::FlatImage));
}

#[test]
fn downmix_keeps_first_channel() {
    assert_eq!(downmix(&vec![1, 2, 3, 4, 5], 2), vec![1, 3, 5]);
    assert_eq!(downmix(&vec![1, 2, 3, 4, 5, 6], 3), vec![1, 4]);
    assert_eq!(downmix(&vec![9, 8], 1), vec![9, 8]);
}

#[test]
fn default_config() {
    let c = DecodeConfig::default();
    assert_eq!(c.target_sample_rate, 20800);
    assert_eq!(c.cutoff_frequency_hz, 5000);
    assert_eq!(c.envelope_window_size, 10);
    assert_eq!(c.envelope_scale_tenths, 20);
    assert!(!c.sync_enabled);
    assert_eq!(c.sync_additional_offset, 120);
    assert_eq!(c.reduction_factor, 5);
}

#[test]
fn app_state_new() {
    let s = AppState::new(true, false, true);
    assert!(s.debug && !s.benchmark_ram && s.benchmark_cpu);
    assert!(!s.sync && !s.use_model && !s.use_sgbnr);
    let mut s2 = AppState::new(false, false, false);
    s2.sync = true;
    assert!(s2.decode_config().sync_enabled);
}

fn carrier(rate: u32, seconds: f64) -> Vec<i16> {
    let n = (rate as f64 * seconds) as usize;
    (0..n)
        .map(|i| {
            let t = i as f64 / rate as f64;
            let amplitude = 600.0 + 3400.0 * t / seconds;
            (amplitude * (2.0 * std::f64::consts::PI * 2400.0 * t).sin()) as i16
        })
        .collect()
}

#[test]
fn end_to_end_dimensions() {
    let samples = carrier(11025, 1.2);
    let config = DecodeConfig::default();
    let img = decode(&samples, 1, 11025, &config).unwrap();
    let envelope_len = resample_signal(&samples, 11025, 20800).len();
    assert_eq!(img.width(), 20800 / 2 / 5);
    assert_eq!(img.height() as usize, envelope_len / 10400);
    assert_eq!(img.height(), 2);
}

#[test]
fn end_to_end_with_sync_and_stereo() {
    let mono = carrier(20800, 1.1);
    let mut stereo = Vec::new();
    for s in &mono {
        stereo.push(*s);
        stereo.push(0);
    }
    let mut config = DecodeConfig::default();
    config.sync_enabled = true;
    let img = decode(&stereo, 2, 20800, &config).unwrap();
    assert_eq!(img.width(), 2080);
    assert_eq!(img.height(), 2);
}

#[test]
fn zero_cutoff_is_a_config_error() {
    let samples = carrier(11025, 1.2);
    let mut config = DecodeConfig::default();
    config.cutoff_frequency_hz = 0;
    assert_eq!(decode(&samples, 1, 11025, &config).err(), Some(DecodeError::Config));
}

#[test]
fn config_errors() {
    let samples = carrier(11025, 0.1);
    let mut config = DecodeConfig::default();
    config.cutoff_frequency_hz = 10400;
    assert_eq!(decode(&samples, 1, 11025, &config).err(), Some(DecodeError::Config));
    let config = DecodeConfig::default();
    assert_eq!(decode(&samples, 0, 11025, &config).err(), Some(DecodeError::Config));
    assert_eq!(decode(&samples, 1, 0, &config).err(), Some(DecodeError::Config));
    let mut config = DecodeConfig::default();
    config.reduction_factor = 0;
    assert_eq!(decode(&samples, 1, 11025, &config).err(), Some(DecodeError::Config));
}

#[test]
fn decode_short_recording_is_empty() {
    let samples = carrier(11025, 0.1);
    let config = DecodeConfig::default();
    assert_eq!(decode(&samples, 1, 11025, &config).err(), Some(DecodeError::EmptySignal));
}

#[test]
fn decode_silence_is_flat() {
    let config = DecodeConfig::default();
    assert_eq!(decode(&vec![0; 12000], 1, 11025, &config).err(), Some(DecodeError::FlatImage));
}

#[test]
fn decode_error_from_render() {
    assert_eq!(DecodeError::from_render(RenderError::EmptySignal), DecodeError::EmptySignal);
    assert_eq!(DecodeError::from_render(RenderError::FlatImage), DecodeError::FlatImage);
    assert_eq!(
        DecodeError::from_render(RenderError::DegenerateWidth),
        DecodeError::DegenerateWidth
    );
}
