use mnic_cli::clock::{format_compact_duration, format_full_duration, Duration};
use mnic_cli::net::{Ipv4Addr, SocketAddr};
use mnic_cli::text::{
    align_left, align_right, decimal_text, join_lines, lower_text, parse_unsigned, same_text,
    two_digit_text,
};
use mnic_cli::units::human_bytes;

/// The same amount worked out in floating point.
fn human_bytes_in_doubles(bytes: u64) -> String {
    let units = ["B", "KB", "MB", "GB"];
    let mut value = bytes as f64;
    let mut unit = 0;
    while value >= 1024.0 && unit < units.len() - 1 {
        value /= 1024.0;
        unit += 1;
    }
    if unit == 0 {
        format!("{bytes} {}", units[unit])
    } else {
        format!("{value:.2} {}", units[unit])
    }
}

#[test]
fn writes_amounts_with_units() {
    assert_eq!(human_bytes(0), "0 B");
    assert_eq!(human_bytes(1023), "1023 B");
    assert_eq!(human_bytes(1024), "1.00 KB");
    assert_eq!(human_bytes(1536), "1.50 KB");
    assert_eq!(human_bytes(1024 * 1024 - 1), "1024.00 KB");
    assert_eq!(human_bytes(1024 * 1024), "1.00 MB");
    assert_eq!(human_bytes(5 * 1024 * 1024 * 1024), "5.00 GB");
    assert_eq!(human_bytes(u64::MAX), "17179869184.00 GB");
}

#[test]
fn amounts_agree_with_doubles() {
    let mut value: u64 = 1;
    for _ in 0..200_000 {
        value = value.wrapping_mul(6364136223846793005).wrapping_add(1442695040888963407);
        let shifted = value >> (value % 61);
        assert_eq!(human_bytes(shifted), human_bytes_in_doubles(shifted), "{shifted}");
    }
    for bits in 0..64 {
        for offset in 0..2048_u64 {
            let around = (1_u64 << bits).wrapping_add(offset).wrapping_sub(1024);
            assert_eq!(human_bytes(around), human_bytes_in_doubles(around), "{around}");
        }
    }
}

#[test]
fn amounts_round_halves_to_even() {
    for unit in [1024_u64, 1024 * 1024, 1024 * 1024 * 1024] {
        for quarters in 1..4000_u64 {
            let tie = unit + quarters * unit / 8;
            assert_eq!(human_bytes(tie), human_bytes_in_doubles(tie), "{tie}");
        }
    }
    assert_eq!(human_bytes(1024 + 128), "1.12 KB");
    assert_eq!(human_bytes(1024 + 384), "1.38 KB");
}

#[test]
fn amounts_are_near_what_they_show() {
    let shown = human_bytes(123_456_789);
    assert_eq!(shown, "117.74 MB");
    let amount: f64 = shown.strip_suffix(" MB").unwrap().parse().unwrap();
    assert!((amount * 1024.0 * 1024.0 - 123_456_789.0).abs() <= 0.006 * 1024.0 * 1024.0);
}

#[test]
fn writes_durations_compactly() {
    assert_eq!(format_compact_duration(Duration::from_secs(0)), "00:00");
    assert_eq!(format_compact_duration(Duration::new(59, 999_999_999)), "00:59");
    assert_eq!(format_compact_duration(Duration::from_secs(192)), "03:12");
    assert_eq!(format_compact_duration(Duration::from_secs(3599)), "59:59");
    assert_eq!(format_compact_duration(Duration::from_secs(3600)), "01:00:00");
    assert_eq!(format_compact_duration(Duration::from_secs(360_000 + 61)), "100:01:01");
}

#[test]
fn writes_durations_in_full() {
    assert_eq!(format_full_duration(Duration::from_secs(0)), "00:00:00");
    assert_eq!(format_full_duration(Duration::new(59, 999_999_999)), "00:00:59");
    assert_eq!(format_full_duration(Duration::from_secs(192)), "00:03:12");
    assert_eq!(format_full_duration(Duration::from_secs(3600)), "01:00:00");
    assert_eq!(format_full_duration(Duration::from_secs(360_000 + 61)), "100:01:01");
}

#[test]
fn measures_time_between_readings() {
    let early = Duration::new(5, 900_000_000);
    let late = Duration::new(7, 100_000_000);
    let between = late.since(&early);
    assert_eq!((between.as_secs(), between.subsec_nanos()), (1, 200_000_000));
    let none = early.since(&late);
    assert_eq!((none.as_secs(), none.subsec_nanos()), (0, 0));
    assert!(late.exceeds(&early));
    assert!(!early.exceeds(&early));
}

#[test]
fn aligns_texts() {
    assert_eq!(align_left("ab", 4), "ab  ");
    assert_eq!(align_right("ab", 4), "  ab");
    assert_eq!(align_left("abcde", 4), "abcde");
    assert_eq!(align_right("é", 3), "  é");
}

#[test]
fn written_numbers_read_back() {
    for value in [0, 7, 10, 443, 65535, u64::MAX - 1, u64::MAX] {
        assert_eq!(decimal_text(value), value.to_string());
        assert_eq!(parse_unsigned(&decimal_text(value)), Some(value));
    }
    assert_eq!(two_digit_text(5), "05");
    assert_eq!(two_digit_text(123), "123");
}

#[test]
fn reads_numbers_as_std_does() {
    for text in [
        "", "+", "-1", "+7", "++7", "007", " 7", "7 ", "1a", "18446744073709551615",
        "18446744073709551616", "99999999999999999999999", "٣",
    ] {
        assert_eq!(parse_unsigned(text), text.parse::<u64>().ok(), "{text:?}");
    }
}

#[test]
fn lowers_only_ascii_letters() {
    assert_eq!(lower_text("Keep-Alive Ä"), "keep-alive Ä");
    assert!(same_text("a", "a"));
    assert!(!same_text("a", "A"));
}

#[test]
fn joins_lines() {
    assert_eq!(join_lines(&vec![]), "");
    assert_eq!(
        join_lines(&vec!["a".to_string(), String::new(), "b".to_string()]),
        "a\n\nb"
    );
}

#[test]
fn writes_addresses() {
    let ip = Ipv4Addr::new(192, 168, 0, 255);
    assert_eq!(ip.to_text(), "192.168.0.255");
    let address = SocketAddr::V4 { ip, port: 65535 };
    assert_eq!(address.to_text(), "192.168.0.255:65535");
    assert!(address.is_ipv4());
    assert!(!address.is_loopback());
    let six = SocketAddr::V6 { printed: "[::1]:80".to_string(), loopback: true };
    assert_eq!(six.duplicate().to_text(), "[::1]:80");
    assert!(!six.is_ipv4());
    assert!(six.is_loopback());
}
