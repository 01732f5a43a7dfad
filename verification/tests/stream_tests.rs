use audioviz::demux::{encode_samples, DemuxError};
use audioviz::format::{SampleFormat, StreamDescriptor};
use audioviz::spectrum::{bin_frequencies, SpectrumConfig};
use audioviz::stream::{classify_channel, EventKind, StreamLoop, COMMAND_CHANNEL};

fn descriptor(format: SampleFormat) -> StreamDescriptor {
    StreamDescriptor {
        format,
        channels: 2,
        sample_rate: 44100,
        fragment_size: 4096,
    }
}

fn new_loop() -> StreamLoop {
    let desc = descriptor(SampleFormat::S32Le);
    let cfg = SpectrumConfig::for_rate(desc.sample_rate);
    StreamLoop::new(&desc, cfg)
}

fn bytes_of(range: std::ops::Range<i32>) -> Vec<u8> {
    encode_samples(&range.collect())
}

#[test]
fn sentinel_channel_is_a_command() {
    assert_eq!(classify_channel(COMMAND_CHANNEL), EventKind::Command);
    assert_eq!(classify_channel(u32::MAX), EventKind::Command);
    assert_eq!(classify_channel(0), EventKind::Data);
    assert_eq!(classify_channel(17), EventKind::Data);
}

#[test]
fn fewer_than_a_window_never_triggers_a_pass() {
    let mut sl = new_loop();
    // 255 samples across several events: zero transform invocations.
    assert_eq!(sl.handle_data(&bytes_of(0..100)), Ok(None));
    assert_eq!(sl.handle_data(&bytes_of(100..200)), Ok(None));
    assert_eq!(sl.handle_data(&bytes_of(200..255)), Ok(None));
    assert_eq!(sl.acc.len(), 255);
}

#[test]
fn exactly_one_window_triggers_exactly_one_pass() {
    let mut sl = new_loop();
    assert_eq!(sl.handle_data(&bytes_of(0..100)), Ok(None));
    assert_eq!(sl.handle_data(&bytes_of(100..200)), Ok(None));
    let window = sl.handle_data(&bytes_of(200..256)).unwrap().unwrap();
    let expected: Vec<i32> = (0..256).collect();
    assert_eq!(window, expected);
    // Empty data events afterwards carry no samples and trigger nothing.
    assert_eq!(sl.handle_data(&Vec::new()), Ok(None));
    assert_eq!(sl.handle_data(&Vec::new()), Ok(None));
}

#[test]
fn window_slides_over_the_most_recent_samples() {
    let mut sl = new_loop();
    let first = sl.handle_data(&bytes_of(0..300)).unwrap().unwrap();
    let expected: Vec<i32> = (44..300).collect();
    assert_eq!(first, expected);
    // Ten more samples: the next pass uses the most recent 256.
    let second = sl.handle_data(&bytes_of(300..310)).unwrap().unwrap();
    let expected: Vec<i32> = (54..310).collect();
    assert_eq!(second, expected);
}

#[test]
fn framing_errors_change_nothing() {
    let mut sl = new_loop();
    assert_eq!(sl.handle_data(&bytes_of(0..10)), Ok(None));
    let partial: Vec<u8> = vec![1, 2, 3];
    assert_eq!(sl.handle_data(&partial), Err(DemuxError::PartialFrame));
    assert_eq!(sl.acc.len(), 10);
}

#[test]
fn unsupported_format_is_fatal() {
    let desc = descriptor(SampleFormat::S16Le);
    let cfg = SpectrumConfig::for_rate(desc.sample_rate);
    let mut sl = StreamLoop::new(&desc, cfg);
    assert_eq!(
        sl.handle_data(&bytes_of(0..100)),
        Err(DemuxError::UnsupportedFormat)
    );
}

#[test]
fn apply_spectrum_updates_state_and_renders() {
    let mut sl = new_loop();
    let freqs = bin_frequencies(&sl.cfg);
    let n = freqs.len();
    // Wrong bin count: rejected, nothing changes.
    assert!(sl.apply_spectrum(&vec![5u64; n + 1]).is_none());
    assert!(sl.state.values.iter().all(|v| *v == 0));
    // Peak attack from the zero state.
    let mags: Vec<u64> = (0..n as u64).map(|i| i * 1000).collect();
    let lines = sl.apply_spectrum(&mags).unwrap();
    assert_eq!(lines.len(), n);
    assert_eq!(sl.state.values, mags);
    // A following all-zero frame decays every bin.
    let zero = vec![0u64; n];
    let _ = sl.apply_spectrum(&zero).unwrap();
    for (v, m) in sl.state.values.iter().zip(mags.iter()) {
        assert_eq!(*v, m * 98 / 100);
    }
}

#[test]
fn rendered_lines_match_line_renderer() {
    let mut sl = new_loop();
    let freqs = bin_frequencies(&sl.cfg);
    let n = freqs.len();
    let mags: Vec<u64> = (0..n as u64).map(|i| i * 1_000_000).collect();
    let lines = sl.apply_spectrum(&mags).unwrap();
    for i in 0..n {
        assert_eq!(lines[i], audioviz::render::render_line(freqs[i], mags[i]));
    }
}
