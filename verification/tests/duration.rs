use runs::duration::Duration;

fn d(secs: u64, nanos: u32) -> Duration {
    Duration::new(secs, nanos).unwrap()
}

#[test]
fn duration_reads_clock_text() {
    assert_eq!(Duration::parse_clock(b"1:02:03"), Some(d(3723, 0)));
    assert_eq!(Duration::parse_clock(b"5:06:07"), Some(Duration::new_hour_min_sec(5, 6, 7)));
    assert_eq!(Duration::parse_clock(b"18:58.1"), Some(d(1138, 100_000_000)));
    assert_eq!(Duration::parse_clock(b"9:42"), Some(d(582, 0)));
    assert_eq!(Duration::parse_clock(b"0:00"), Some(Duration::zero()));
    assert_eq!(Duration::parse_clock(b"75:30"), Some(d(4530, 0)));
    assert_eq!(Duration::parse_clock(b"100:00:00.000000001"), Some(d(360_000, 1)));
    assert_eq!(Duration::parse_clock(b"0:01.1234567899"), Some(d(1, 123_456_789)));
    assert_eq!(Duration::parse_clock(b"0:01.5"), Some(d(1, 500_000_000)));
    assert_eq!(Duration::parse_clock(b"0:01.05"), Some(d(1, 50_000_000)));
}

#[test]
fn duration_rejects_what_is_no_clock_text() {
    for text in [
        "", "12", "1:2:03", "1:02:3", "1:60", "1:60:00", "1:00:60", "1:02:03:04", ":30", "1:",
        "1:02.", "1:02.5x", "a:02", "1:0a", " 1:02", "1:02 ", "-1:02", "1.5:02", "1:02:03.",
        "18446744073709551616:00",
    ] {
        assert_eq!(Duration::parse_clock(text.as_bytes()), None, "{text:?}");
    }
    // More hours than the longest duration has.
    assert_eq!(Duration::parse_clock(b"5124095576030432:00:00"), None);
    assert!(Duration::parse_clock(b"5124095576030431:00:00").is_some());
}

#[test]
fn duration_reads_milliseconds() {
    assert_eq!(Duration::parse_millis(b"16405000"), Some(d(16405, 0)));
    assert_eq!(Duration::parse_millis(b"1500"), Some(d(1, 500_000_000)));
    assert_eq!(Duration::parse_millis(b"0"), Some(Duration::zero()));
    assert_eq!(Duration::parse_millis(b"007"), Some(d(0, 7_000_000)));
    assert_eq!(
        Duration::parse_millis(b"18446744073709551615"),
        Some(d(18_446_744_073_709_551, 615_000_000))
    );
    for text in ["", "12a", "-5", "+5", "1.5", " 5", "18446744073709551616"] {
        assert_eq!(Duration::parse_millis(text.as_bytes()), None, "{text:?}");
    }
}

#[test]
fn duration_reads_either_form() {
    assert_eq!(Duration::parse(b"4:33:25"), Some(Duration::new_hour_min_sec(4, 33, 25)));
    assert_eq!(Duration::parse(b"16405000"), Some(Duration::new_hour_min_sec(4, 33, 25)));
    assert_eq!(Duration::from_text("4:33:25"), Duration::from_text("16405000"));
    assert_eq!(Duration::parse(b"4:33:2x"), None);
    assert_eq!(Duration::parse(b"164x"), None);
    assert_eq!(Duration::from_text(""), None);
}

#[test]
fn duration_writes_clock_text_with_tenths() {
    assert_eq!(d(3723, 0).to_text(), "1:02:03.0");
    assert_eq!(d(1138, 150_000_000).to_text(), "18:58.1");
    assert_eq!(d(59, 999_999_999).to_text(), "0:59.9");
    assert_eq!(d(3600, 0).to_text(), "1:00:00.0");
    assert_eq!(d(3599, 0).to_text(), "59:59.0");
    assert_eq!(Duration::zero().to_text(), "0:00.0");
    assert_eq!(d(360_000, 0).to_text(), "100:00:00.0");
    assert_eq!(d(6900, 0).to_clock_text(), b"1:55:00.0".to_vec());
    assert_eq!(Duration::max().to_text(), "5124095576030431:00:15.9");
}

#[test]
fn duration_formatted_and_read_again_is_the_same_to_the_tenth() {
    let first = Duration::parse(b"1:02:03").unwrap();
    let text = first.to_text();
    assert_eq!(text, "1:02:03.0");
    assert_eq!(Duration::from_text(&text), Some(first));

    for (secs, nanos) in [(0, 0), (59, 940_000_000), (3599, 999_999_999), (86_400, 123)] {
        let value = d(secs, nanos);
        let again = Duration::from_text(&value.to_text()).unwrap();
        assert_eq!(again, d(secs, nanos / 100_000_000 * 100_000_000));
        assert_eq!(again.to_text(), value.to_text());
    }
}

#[test]
fn duration_order_is_that_of_the_nanoseconds() {
    let mut values = vec![d(2, 0), d(1, 999_999_999), d(0, 5), d(1, 0), d(0, 0), d(2, 1), d(1, 0)];
    for a in &values {
        for b in &values {
            assert_eq!(a.is_less(b), a.as_nanos() < b.as_nanos());
            assert_eq!(a.is_at_most(b), a.as_nanos() <= b.as_nanos());
            assert_eq!(a.is_same(b), a.as_nanos() == b.as_nanos());
            assert_eq!(a < b, a.as_nanos() < b.as_nanos());
            assert_eq!(a == b, a.as_nanos() == b.as_nanos());
        }
    }
    values.sort();
    let nanos: Vec<u128> = values.iter().map(|v| v.as_nanos()).collect();
    let mut sorted = nanos.clone();
    sorted.sort();
    assert_eq!(nanos, sorted);
}

#[test]
fn duration_adds_and_divides() {
    assert_eq!(d(1, 600_000_000).checked_add(&d(2, 700_000_000)), Some(d(4, 300_000_000)));
    assert_eq!(Duration::max().checked_add(&d(0, 1)), None);
    assert_eq!(Duration::max().checked_add(&Duration::zero()), Some(Duration::max()));
    assert_eq!(Duration::max().saturating_add(&d(5, 0)), Duration::max());
    assert_eq!(d(3600, 0).saturating_add(&d(3300, 0)), d(6900, 0));
    assert_eq!(d(3, 0).divided_by(2), d(1, 500_000_000));
    assert_eq!(d(1, 0).divided_by(3), d(0, 333_333_333));
    assert_eq!(d(7, 5).divided_by(1), d(7, 5));
    assert_eq!(Duration::max().divided_by(u32::MAX).as_nanos(), Duration::max().as_nanos() / 4_294_967_295);
}

#[test]
fn duration_is_made_of_seconds_and_nanoseconds() {
    assert_eq!(d(5, 7).as_secs(), 5);
    assert_eq!(d(5, 7).subsec_nanos(), 7);
    assert_eq!(d(5, 7).as_nanos(), 5_000_000_007);
    assert_eq!(Duration::new(1, 2_500_000_000), Some(d(3, 500_000_000)));
    assert_eq!(Duration::new(u64::MAX, 999_999_999), Some(Duration::max()));
    assert_eq!(Duration::new(u64::MAX, 1_000_000_000), None);
    assert_eq!(Duration::from_nanos(5_000_000_007), Some(d(5, 7)));
    assert_eq!(Duration::from_nanos(Duration::max().as_nanos() + 1), None);
    assert_eq!(Duration::new_hour_min_sec(1, 2, 3), d(3723, 0));
    assert_eq!(Duration::new_hour_min_sec(0, 0, 9_999_999), d(9_999_999, 0));
}
