use audioviz::demux::encode_samples;
use audioviz::format::{SampleFormat, StreamDescriptor};
use audioviz::render::bar_length;
use audioviz::spectrum::{bin_frequencies, SpectrumConfig};
use audioviz::stream::StreamLoop;

use spectrum_analyzer::scaling::divide_by_N_sqrt;
use spectrum_analyzer::windows::hann_window;
use spectrum_analyzer::{samples_fft_to_spectrum, FrequencyLimit};

/// Fixed-point scale applied when magnitudes cross from the floating-point
/// transform into the integer pipeline.
const MAG_SCALE: f32 = 4096.0;

#[test]
fn sine_peaks_at_nearest_bin_and_outshines_high_bins() {
    let desc = StreamDescriptor {
        format: SampleFormat::S32Le,
        channels: 1,
        sample_rate: 44100,
        fragment_size: 4096,
    };
    let cfg = SpectrumConfig::for_rate(desc.sample_rate);
    let mut sl = StreamLoop::new(&desc, cfg);

    // 256 consecutive raw samples of a 1000 Hz sine, amplitude 10000.
    let samples: Vec<i32> = (0..256)
        .map(|n| {
            let t = n as f32 / 44100.0;
            (10000.0 * (2.0 * std::f32::consts::PI * 1000.0 * t).sin()).round() as i32
        })
        .collect();
    let bytes = encode_samples(&samples);

    // One data event carrying exactly one window triggers exactly one pass.
    let window = sl.handle_data(&bytes).unwrap().unwrap();
    assert_eq!(window, samples);

    // The transform pass itself.
    let float_window: Vec<f32> = window.iter().map(|s| *s as f32).collect();
    let windowed = hann_window(&float_window);
    let spectrum = samples_fft_to_spectrum(
        &windowed,
        desc.sample_rate,
        FrequencyLimit::Range(50.0f32.into(), 12000.0f32.into()),
        Some(&divide_by_N_sqrt),
    )
    .unwrap();
    let mags: Vec<u64> = spectrum
        .data()
        .iter()
        .map(|(_, m)| (m.val() * MAG_SCALE) as u64)
        .collect();

    let freqs = bin_frequencies(&cfg);
    assert_eq!(mags.len(), freqs.len());

    // The magnitude maximum sits at the bin nearest 1000 Hz.
    let nearest = (0..freqs.len())
        .min_by_key(|i| (freqs[*i] as i64 - 1000).abs())
        .unwrap();
    let peak = (0..mags.len()).max_by_key(|i| mags[*i]).unwrap();
    assert_eq!(peak, nearest);

    // Drive the smoother and renderer with the frame.
    let lines = sl.apply_spectrum(&mags).unwrap();
    assert_eq!(lines.len(), freqs.len());

    // The derived bar at the peak strictly exceeds every bar beyond 3000 Hz.
    let peak_bar = bar_length(sl.state.values[peak], freqs[peak]);
    assert!(peak_bar > 0);
    for i in 0..freqs.len() {
        if freqs[i] > 3000 {
            let bar = bar_length(sl.state.values[i], freqs[i]);
            assert!(bar < peak_bar);
        }
    }
}
