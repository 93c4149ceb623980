//! Display formatting of sizes and counts, checked against the `f64`
//! formatting they reproduce.

use rust_hf_downloader::headless::format_file_size;
use rust_hf_downloader::utils::{format_number, format_size};

fn float_size(bytes: u64) -> String {
    const GB: u64 = 1_073_741_824;
    const MB: u64 = 1_048_576;
    const KB: u64 = 1_024;
    if bytes >= GB {
        format!("{:.2} GB", bytes as f64 / GB as f64)
    } else if bytes >= MB {
        format!("{:.2} MB", bytes as f64 / MB as f64)
    } else if bytes >= KB {
        format!("{:.2} KB", bytes as f64 / KB as f64)
    } else {
        format!("{} B", bytes)
    }
}

fn float_number(n: u64) -> String {
    if n >= 1_000_000 {
        format!("{:.1}M", n as f64 / 1_000_000.0)
    } else if n >= 1_000 {
        format!("{:.1}K", n as f64 / 1_000.0)
    } else {
        n.to_string()
    }
}

fn samples() -> Vec<u64> {
    let mut v: Vec<u64> = vec![
        0, 1, 999, 1000, 1023, 1024, 1025, 1050, 1149, 1150, 1151, 1250, 1350, 9_950, 99_950,
        999_949, 999_950, 999_999, 1_000_000, 1_049_999, 1_050_000, 1_150_000, 1_250_000,
        1_048_575, 1_048_576, 1_073_741_823, 1_073_741_824, 1_207_959_552, 1_342_177_280,
        5_368_709_120, 123_456_789_012, 9_007_199_254_740_991, 9_007_199_254_740_993,
        18_014_398_509_481_985, 123_456_789_012_345_678, u64::MAX - 1, u64::MAX,
    ];
    // Exact ties of the printed decimals in each unit.
    for k in 0..200u64 {
        v.push(1024 + k * 5 + 2);
        v.push(1_048_576 + k * 5_243 * 7);
        v.push((1 << 30) + k * (1 << 27));
        v.push(1_000 + k * 50);
        v.push(1_000_000 + k * 50_000);
        v.push(k * 100_000_000_050);
    }
    let mut x: u64 = 0x9E37_79B9_7F4A_7C15;
    for _ in 0..3000 {
        x ^= x << 13;
        x ^= x >> 7;
        x ^= x << 17;
        v.push(x);
        v.push(x >> 20);
        v.push(x >> 40);
        v.push(x % 2_000_000);
    }
    v
}

#[test]
fn bytes_below_kb_boundary() {
    assert_eq!(format_size(0), "0 B");
    assert_eq!(format_size(1023), "1023 B");
}

#[test]
fn kb_boundary_switches_to_kb() {
    assert_eq!(format_size(1024), "1.00 KB");
}

#[test]
fn mb_and_gb_boundaries() {
    assert_eq!(format_size(1_048_576), "1.00 MB");
    assert_eq!(format_size(1_073_741_824), "1.00 GB");
    assert_eq!(format_size(5_368_709_120), "5.00 GB");
}

#[test]
fn format_number_abbreviates() {
    assert_eq!(format_number(999), "999");
    assert_eq!(format_number(1_000), "1.0K");
    assert_eq!(format_number(1_234_567), "1.2M");
}

#[test]
fn format_size_humanizes_units() {
    assert_eq!(format_size(0), "0 B");
    assert_eq!(format_size(512), "512 B");
    assert_eq!(format_size(2 * 1_048_576), "2.00 MB");
    assert_eq!(format_size(3 * 1_073_741_824), "3.00 GB");
}

#[test]
fn format_number_uses_compact_suffixes() {
    assert_eq!(format_number(0), "0");
    assert_eq!(format_number(999), "999");
    assert_eq!(format_number(1_500), "1.5K");
    assert_eq!(format_number(2_300_000), "2.3M");
}

#[test]
fn size_matches_float_formatting() {
    for b in samples() {
        assert_eq!(format_size(b), float_size(b), "bytes {}", b);
        assert_eq!(format_file_size(b), float_size(b), "bytes {}", b);
    }
}

#[test]
fn number_matches_float_formatting() {
    for n in samples() {
        assert_eq!(format_number(n), float_number(n), "count {}", n);
    }
}

#[test]
fn size_ties_round_to_even() {
    // 1.125 GB prints as 1.12, the way `{:.2}` rounds an exact tie.
    assert_eq!(format_size((1 << 30) + (1 << 27)), "1.12 GB");
    assert_eq!(format_size(1_073_741_824 * 3 / 2), "1.50 GB");
}
