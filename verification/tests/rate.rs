use mnic_cli::clock::Duration;
use mnic_cli::rate::{rate_of, seconds_text};

/// The same throughput worked out in floating point.
fn rate_in_doubles(bytes: u64, secs: u64, nanos: u32) -> u64 {
    (bytes as f64 / std::time::Duration::new(secs, nanos).as_secs_f64()) as u64
}

/// The same text written by the standard library.
fn seconds_in_doubles(secs: u64, nanos: u32) -> String {
    format!("{:.2}", std::time::Duration::new(secs, nanos).as_secs_f64())
}

fn next(value: &mut u64) -> u64 {
    *value = value.wrapping_mul(6364136223846793005).wrapping_add(1442695040888963407);
    *value
}

#[test]
fn writes_seconds_with_two_decimals() {
    assert_eq!(seconds_text(&Duration::from_secs(0)), "0.00");
    assert_eq!(seconds_text(&Duration::new(5, 210_000_000)), "5.21");
    assert_eq!(seconds_text(&Duration::new(0, 4_999_999)), "0.00");
    assert_eq!(seconds_text(&Duration::new(0, 995_000_000)), "0.99");
    assert_eq!(seconds_text(&Duration::new(0, 995_000_001)), "1.00");
    assert_eq!(seconds_text(&Duration::new(0, 125_000_000)), "0.12");
    assert_eq!(seconds_text(&Duration::new(59, 999_999_999)), "60.00");
    assert_eq!(seconds_text(&Duration::new(u64::MAX, 999_999_999)), "18446744073709551616.00");
}

#[test]
fn seconds_agree_with_doubles() {
    let mut value = 7;
    for _ in 0..100_000 {
        let nanos = (next(&mut value) >> 20) as u32 % 1_000_000_000;
        let bits = next(&mut value) >> 58;
        let secs = next(&mut value) >> bits;
        for (secs, nanos) in [(0, nanos), (secs, nanos), (secs % 100, nanos), (bits, nanos / 1000)] {
            assert_eq!(
                seconds_text(&Duration::new(secs, nanos)),
                seconds_in_doubles(secs, nanos),
                "{secs} {nanos}"
            );
        }
    }
    for hundredths in 0..200_u32 {
        for around in [0, 1, 2] {
            let nanos = (hundredths * 5_000_000 + around).saturating_sub(1) % 1_000_000_000;
            for secs in [0, 1, 2, 3, 4, 1 << 20, (1 << 52) - 1, 1 << 52, (1 << 53) - 1, 1 << 53] {
                assert_eq!(
                    seconds_text(&Duration::new(secs, nanos)),
                    seconds_in_doubles(secs, nanos),
                    "{secs} {nanos}"
                );
            }
        }
    }
}

#[test]
fn works_out_throughput() {
    assert_eq!(rate_of(0, &Duration::from_secs(3)), 0);
    assert_eq!(rate_of(1000, &Duration::from_secs(1)), 1000);
    assert_eq!(rate_of(1000, &Duration::from_secs(3)), 333);
    assert_eq!(rate_of(1000, &Duration::new(1, 500_000_000)), 666);
    assert_eq!(rate_of(7, &Duration::from_secs(10)), 0);
    assert_eq!(rate_of(u64::MAX, &Duration::from_secs(1)), u64::MAX);
}

#[test]
fn throughput_agrees_with_doubles() {
    let mut value = 11;
    for _ in 0..200_000 {
        let nanos = (next(&mut value) >> 20) as u32 % 1_000_000_000;
        let secs = 1 + (next(&mut value) >> 40) % 9;
        let bits = next(&mut value) >> 58;
        let bytes = next(&mut value) >> bits;
        for (bytes, secs, nanos) in [
            (bytes, secs, nanos),
            (bytes, secs, nanos / 1_000_000_000),
            (bytes, 10, 0),
            (bytes / 10 * secs, secs, 0),
            (bytes, secs, nanos % 8),
            (u64::MAX - bits, secs, nanos),
        ] {
            assert_eq!(
                rate_of(bytes, &Duration::new(secs, nanos)),
                rate_in_doubles(bytes, secs, nanos),
                "{bytes} {secs} {nanos}"
            );
        }
    }
}

#[test]
fn throughput_is_near_the_quotient() {
    let mut value = 13;
    let part = 1_i128 << 50;
    for _ in 0..10_000 {
        let nanos = 1_000_000_000 + (next(&mut value) >> 20) % 9_000_000_001;
        let bytes = next(&mut value) >> 11;
        let duration = Duration::new(nanos / 1_000_000_000, (nanos % 1_000_000_000) as u32);
        let rate = rate_of(bytes, &duration) as i128;
        let nanos = nanos as i128;
        let scaled = bytes as i128 * 1_000_000_000;
        assert!(rate * nanos - scaled <= scaled / part);
        assert!(scaled - (rate + 1) * nanos <= scaled / part);
        let rest = scaled % nanos;
        if rest >= scaled / part + 1 && nanos - rest > scaled / part {
            assert_eq!(rate, scaled / nanos);
        }
    }
}

#[test]
fn throughput_over_whole_seconds_is_the_whole_part() {
    let mut value = 17;
    for _ in 0..10_000 {
        let bytes = next(&mut value) >> 11;
        for secs in 1..=10 {
            assert_eq!(rate_of(bytes, &Duration::from_secs(secs)), bytes / secs);
        }
    }
}

#[test]
fn throughput_may_be_rounded_across_a_whole_number() {
    assert_eq!(rate_of(33, &Duration::new(1, 100_000_000)), 29);
    assert_eq!(rate_in_doubles(33, 1, 100_000_000), 29);
}
