use audioviz::render::{bar_length, clear_sequence, dec_u64, isqrt, render_line};

#[test]
fn isqrt_exact_values() {
    assert_eq!(isqrt(0), 0);
    assert_eq!(isqrt(1), 1);
    assert_eq!(isqrt(3), 1);
    assert_eq!(isqrt(4), 2);
    assert_eq!(isqrt(99), 9);
    assert_eq!(isqrt(100), 10);
    assert_eq!(isqrt(u64::MAX as u128), 0xffff_ffff);
    assert_eq!(isqrt(u128::MAX), u64::MAX);
    let r = isqrt(123_456_789_012_345);
    assert!(r as u128 * r as u128 <= 123_456_789_012_345);
    assert!((r as u128 + 1) * (r as u128 + 1) > 123_456_789_012_345);
}

#[test]
fn bar_length_applies_scale_and_noise_floor() {
    // sqrt(mag * freq) / 3000 at or below 30 renders empty.
    assert_eq!(bar_length(0, 1000), 0);
    assert_eq!(bar_length(1, 1000), 0);
    // mag * freq = 72_900_000_000 -> isqrt = 270_000 -> /3000 = 90 -> -30 = 60.
    assert_eq!(bar_length(72_900_000, 1000), 60);
    // Exactly at the floor: 30 -> empty bar.
    // raw = 30 needs isqrt in [90_000, 92_999]: take 8_100_000_000 = 90_000^2.
    assert_eq!(bar_length(8_100_000_000 / 1000, 1000), 0);
    // Just above the floor: raw = 31 -> bar 1.
    // isqrt in [93_000, 95_999]: 93_000^2 = 8_649_000_000.
    assert_eq!(bar_length(8_649_000_000 / 1000, 1000), 1);
}

#[test]
fn bar_length_is_monotone_in_magnitude() {
    let mags = [0u64, 1, 10, 1_000, 72_900_000, 72_900_001, u64::MAX / 2];
    for f in [50u32, 172, 1000, 11885] {
        let mut prev = bar_length(mags[0], f);
        for m in &mags[1..] {
            let cur = bar_length(*m, f);
            assert!(cur >= prev);
            prev = cur;
        }
    }
}

#[test]
fn decimal_rendering() {
    assert_eq!(dec_u64(0), b"0".to_vec());
    assert_eq!(dec_u64(7), b"7".to_vec());
    assert_eq!(dec_u64(10), b"10".to_vec());
    assert_eq!(dec_u64(44100), b"44100".to_vec());
    assert_eq!(dec_u64(u64::MAX), u64::MAX.to_string().into_bytes());
}

#[test]
fn line_shape_is_exact() {
    // Empty bar: derived value 0.
    let line = render_line(172, 0);
    assert_eq!(line, b"0 - 172Hz => ".to_vec());
    // A bar of 60 markers.
    let line = render_line(1000, 72_900_000);
    let mut expected = b"60 - 1000Hz => ".to_vec();
    expected.extend(std::iter::repeat(b'|').take(60));
    assert_eq!(line, expected);
}

#[test]
fn clear_sequence_resets_cursor_and_screen() {
    assert_eq!(clear_sequence(), b"\x1b[2J\x1b[1;1H".to_vec());
}
