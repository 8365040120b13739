//! Texts, addresses, times and sets.

use logcrab::filetype::SimpleFileState;
use logcrab::net::{format_groups, format_ipv4, format_ipv6_short, parse_octet, read_be16, read_be32};
use logcrab::string_set::StringSet;
use logcrab::text::{chars_of, dec_string, join, split};
use logcrab::time::{TimeSpan, Timestamp};

#[test]
fn numbers_are_written() {
    assert_eq!(dec_string(0), "0");
    assert_eq!(dec_string(u64::MAX), "18446744073709551615");
    assert_eq!(join(&vec!["a".to_string(), "b".to_string()], ", "), "a, b");
    let fields = split(&chars_of("1..2"), '.');
    assert_eq!(fields.len(), 3);
    assert!(fields[1].is_empty());
}

#[test]
fn addresses_are_written() {
    assert_eq!(format_ipv4(192, 168, 0, 1), "192.168.0.1");
    assert_eq!(read_be16(1, 2), 258);
    assert_eq!(read_be32(1, 0, 0, 2), 16_777_218);
    assert_eq!(format_groups(&[0, 1, 0xab, 0xcd], 0, 2), "1:abcd");
    assert_eq!(parse_octet(&vec!['2', '5', '5']), Some(255));
    assert_eq!(parse_octet(&vec!['2', '5', '6']), None);
    assert_eq!(parse_octet(&vec!['0', '1']), None);
    for (bytes, text) in [
        ([0u8; 16], "::"),
        ([0, 0, 0, 0, 0, 0, 0, 0, 0, 0, 0, 0, 0, 0, 0, 1], "::1"),
        ([0x20, 1, 0xd, 0xb8, 0, 0, 0, 0, 0, 0, 0, 0, 0, 0, 0, 1], "2001:db8::1"),
        ([0xfe, 0x80, 0, 0, 0, 0, 0, 0, 0, 1, 0, 0, 0, 0, 0, 0], "fe80::1:0:0:0"),
        ([0, 0, 0, 0, 0, 0, 0, 0, 0, 0, 0xff, 0xff, 1, 2, 3, 4], "::ffff:1.2.3.4"),
    ] {
        assert_eq!(format_ipv6_short(&bytes), text);
    }
}

#[test]
fn times_move() {
    let t = Timestamp { secs: 10, nanos: 0 };
    let u = Timestamp { secs: 12, nanos: 500_000_000 };
    assert_eq!(u.milliseconds_since(&t), 2500);
    assert_eq!(t.milliseconds_since(&u), -2500);
    assert!(t.is_before(&u) && t.is_not_after(&t) && !u.is_not_after(&t));
    assert!(t.can_add_ms(i64::MAX / 1_000_000));
    assert!(!Timestamp { secs: 8_210_266_876_799, nanos: 0 }.can_add_ms(1000));
    assert!(Timestamp { secs: 8_210_266_876_799, nanos: 0 }.can_add_us(999_999));
    assert!(!Timestamp { secs: 8_210_266_876_799, nanos: 0 }.can_add_us(1_000_000));
    assert!(Timestamp { secs: -8_334_601_228_800, nanos: 0 }.is_valid());
    assert!(!Timestamp { secs: -8_334_601_228_801, nanos: 0 }.is_valid());
    assert_eq!(Timestamp { secs: -1, nanos: 0 }.unix_milliseconds(), 0);
    assert_eq!(u.unix_milliseconds(), 12_500);
}

#[test]
fn lengths_of_time_are_compared() {
    let a = TimeSpan::milliseconds(-1500);
    assert_eq!(a, TimeSpan { secs: -1, nanos: -500_000_000 });
    assert_eq!(a.num_milliseconds(), -1500);
    let b = TimeSpan::milliseconds(1499);
    assert!(b.is_not_longer(&a) && !a.is_not_longer(&b));
    assert!(a.is_not_longer(&TimeSpan::milliseconds(1500)));
}

#[test]
fn sets_hold_each_text_once() {
    let mut s = StringSet::from_vec(vec!["a".to_string(), "a".to_string(), "b".to_string()]);
    assert_eq!(s.to_vec().len(), 2);
    s.insert("a".to_string());
    assert!(s.contains("a"));
    s.remove("a");
    assert!(!s.contains("a") && s.contains("b"));
    assert!(!StringSet::new().contains(""));
}

#[test]
fn leap_seconds_are_counted_once() {
    let leap = Timestamp { secs: 59, nanos: 1_500_000_000 };
    assert!(leap.is_valid());
    assert_eq!(Timestamp { secs: 60, nanos: 0 }.milliseconds_since(&leap), 500);
    assert_eq!(Timestamp { secs: 59, nanos: 0 }.milliseconds_since(&leap), -1500);
    assert_eq!(leap.milliseconds_since(&Timestamp { secs: 60, nanos: 0 }), -500);
    assert_eq!(leap.milliseconds_since(&Timestamp { secs: 58, nanos: 0 }), 2500);
    let midnight = Timestamp { secs: 86_399, nanos: 1_000_000_000 };
    assert_eq!(Timestamp { secs: 86_400, nanos: 0 }.milliseconds_since(&midnight), 0);
}

#[test]
fn leap_seconds_are_left() {
    let shown = |raw: Timestamp, ms: i64| {
        let mut state = SimpleFileState { time_offset_ms: ms, calibration: None };
        state.start_calibration(raw);
        state.calibration.unwrap().1.target_time
    };
    let leap = Timestamp { secs: 59, nanos: 1_500_000_000 };
    assert_eq!(shown(leap, 0), leap);
    assert_eq!(shown(leap, 400), Timestamp { secs: 59, nanos: 1_900_000_000 });
    assert_eq!(shown(leap, 500), Timestamp { secs: 60, nanos: 0 });
    assert_eq!(shown(leap, 2000), Timestamp { secs: 61, nanos: 500_000_000 });
    assert_eq!(shown(leap, -600), Timestamp { secs: 59, nanos: 900_000_000 });
    assert_eq!(shown(leap, -999), Timestamp { secs: 59, nanos: 501_000_000 });
    assert_eq!(shown(leap, -1000), Timestamp { secs: 59, nanos: 500_000_000 });
    assert_eq!(shown(leap, -3000), Timestamp { secs: 57, nanos: 500_000_000 });
    let last = Timestamp { secs: 8_210_266_876_799, nanos: 1_500_000_000 };
    assert!(last.can_add_ms(499) && !last.can_add_ms(500));
}
