use audioviz::spectrum::{bin_frequencies, build_frame, SpectrumConfig};

use spectrum_analyzer::scaling::divide_by_N_sqrt;
use spectrum_analyzer::windows::hann_window;
use spectrum_analyzer::{samples_fft_to_spectrum, FrequencyLimit};

fn default_cfg() -> SpectrumConfig {
    SpectrumConfig::for_rate(44100)
}

#[test]
fn default_layout_has_expected_shape() {
    let cfg = default_cfg();
    let freqs = bin_frequencies(&cfg);
    // Bins k = 1 ..= 69 of a 256-sample window at 44100 Hz fall in 50..=12000.
    assert_eq!(freqs.len(), 69);
    assert_eq!(freqs[0], 172); // k = 1: 44100 / 256
    assert_eq!(*freqs.last().unwrap(), 11886); // k = 69
    for w in freqs.windows(2) {
        assert!(w[0] < w[1]);
    }
    for f in &freqs {
        assert!(50 <= *f && *f <= 12000);
    }
}

#[test]
fn layout_is_a_function_of_the_config() {
    let cfg = default_cfg();
    assert_eq!(bin_frequencies(&cfg), bin_frequencies(&cfg));
    let other = SpectrumConfig {
        sample_rate: 48000,
        window_len: 512,
        freq_lo: 100,
        freq_hi: 8000,
    };
    let freqs = bin_frequencies(&other);
    for f in &freqs {
        assert!(100 <= *f && *f <= 8000);
    }
}

#[test]
fn frames_share_frequencies_only_magnitudes_differ() {
    let cfg = default_cfg();
    let n = bin_frequencies(&cfg).len();
    let mags_a: Vec<u64> = (0..n as u64).collect();
    let mags_b: Vec<u64> = (0..n as u64).map(|m| m * 31 + 7).collect();
    let a = build_frame(&cfg, &mags_a).unwrap();
    let b = build_frame(&cfg, &mags_b).unwrap();
    assert_eq!(a.bins.len(), b.bins.len());
    for (ba, bb) in a.bins.iter().zip(b.bins.iter()) {
        assert_eq!(ba.freq, bb.freq);
    }
    assert_eq!(a.bins[3].magnitude, 3);
    assert_eq!(b.bins[3].magnitude, 3 * 31 + 7);
}

#[test]
fn build_frame_rejects_wrong_bin_count() {
    let cfg = default_cfg();
    let n = bin_frequencies(&cfg).len();
    assert!(build_frame(&cfg, &vec![0u64; n - 1]).is_none());
    assert!(build_frame(&cfg, &vec![0u64; n + 1]).is_none());
    assert!(build_frame(&cfg, &vec![0u64; n]).is_some());
}

#[test]
fn layout_matches_transform_library() {
    // The fixed integer layout must agree, bin by bin, with the frequencies
    // the FFT library reports for the same window and range.
    let cfg = default_cfg();
    let freqs = bin_frequencies(&cfg);
    let samples: Vec<f32> = (0..256)
        .map(|n| (2.0 * std::f32::consts::PI * 440.0 * n as f32 / 44100.0).sin())
        .collect();
    let windowed = hann_window(&samples);
    let spectrum = samples_fft_to_spectrum(
        &windowed,
        44100,
        FrequencyLimit::Range(50.0f32.into(), 12000.0f32.into()),
        Some(&divide_by_N_sqrt),
    )
    .unwrap();
    let data = spectrum.data();
    assert_eq!(data.len(), freqs.len());
    for ((fr, _), f) in data.iter().zip(freqs.iter()) {
        assert_eq!(fr.val().floor() as u32, *f);
    }
}
