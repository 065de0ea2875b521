use countdown::instant::{Clock, Target};
use countdown::link::{create_link, decode_query, encode_query, title};
use countdown::remaining::{Parts, Remaining};
use countdown::ticker::{tick, Ticker};

const JUNE_FIRST_NOON_PDT: i64 = 1717268400;

fn june_first() -> Target {
    Target { timestamp: JUNE_FIRST_NOON_PDT, nanos: 0, offset: -7 * 3600 }
}

#[test]
fn encode_writes_escaped_timestamp_and_label() {
    let q = encode_query(&Some("Launch day".to_string()), &june_first());
    assert_eq!(q, "to=2024-06-01T12%3A00%3A00-07%3A00&name=Launch%20day");
}

#[test]
fn encode_escapes_positive_offset_and_reserved_bytes() {
    let t = Target { timestamp: 1704067200, nanos: 0, offset: 5 * 3600 + 30 * 60 };
    let q = encode_query(&Some("a&b=c+d/é".to_string()), &t);
    assert_eq!(q, "to=2024-01-01T05%3A30%3A00%2B05%3A30&name=a%26b%3Dc%2Bd%2F%C3%A9");
}

#[test]
fn round_trip_keeps_label_and_target() {
    for label in ["Launch day", "a&b=c+d?e%f", "Café ☕ 🎉", "x"] {
        let t = june_first();
        let q = encode_query(&Some(label.to_string()), &t);
        let link = decode_query(&q).unwrap();
        assert_eq!(link.label, Some(label.to_string()));
        assert_eq!(link.target, Some(t));
    }
}

#[test]
fn round_trip_keeps_fraction_and_odd_offset() {
    let t = Target { timestamp: -86_400 * 400, nanos: 123_456_789, offset: -(9 * 3600 + 30 * 60) };
    let q = encode_query(&Some("old".to_string()), &t);
    let link = decode_query(&q).unwrap();
    assert_eq!(link.target, Some(t));
    assert_eq!(link.label, Some("old".to_string()));
}

#[test]
fn encode_omits_missing_or_empty_label() {
    let none = encode_query(&None, &june_first());
    let empty = encode_query(&Some(String::new()), &june_first());
    assert!(!none.contains("name"));
    assert!(!empty.contains("name"));
    assert_eq!(none, empty);
    let link = decode_query(&empty).unwrap();
    assert_eq!(link.label, None);
    assert_eq!(link.target, Some(june_first()));
}

#[test]
fn decode_without_to_names_no_target() {
    let link = decode_query("name=Party").unwrap();
    assert_eq!(link.target, None);
    assert_eq!(link.label, Some("Party".to_string()));
    let bare = decode_query("").unwrap();
    assert_eq!(bare.target, None);
    assert_eq!(bare.label, None);
}

#[test]
fn decode_bad_date_is_an_error() {
    assert!(decode_query("to=not-a-date").is_err());
    assert!(decode_query("to=not-a-date&name=Party").is_err());
    assert!(decode_query("name=Party&to=not-a-date").is_err());
    assert!(decode_query("?name=Party&x=1&to=not-a-date").is_err());
    let e = decode_query("to=not-a-date").unwrap_err();
    assert!(!e.detail.is_empty());
}

#[test]
fn decode_reads_plain_query_forms() {
    let link = decode_query("?to=2024-06-01T12:00:00-07:00&name=New+Year%21").unwrap();
    assert_eq!(link.target, Some(june_first()));
    assert_eq!(link.label, Some("New Year!".to_string()));
}

#[test]
fn decode_takes_the_last_repeated_parameter() {
    let link = decode_query("name=first&to=bad&&name=second&to=2024-06-01T12%3A00%3A00-07%3A00").unwrap();
    assert_eq!(link.label, Some("second".to_string()));
    assert_eq!(link.target, Some(june_first()));
}

#[test]
fn decode_keeps_broken_escapes() {
    let link = decode_query("name=100%25%zz%4").unwrap();
    assert_eq!(link.label, Some("100%%zz%4".to_string()));
}

#[test]
fn tick_is_aligned_to_whole_seconds() {
    let start = Clock { secs: 1_700_000_000, nanos: 250_000_000 };
    let target = Target { timestamp: start.secs + 90, nanos: 0, offset: 0 };
    let first = tick(&target, &start);
    assert_eq!(first.delay_nanos, 750_000_000);
    assert_eq!(first.remaining.parts().seconds, 30);
    assert_eq!(first.remaining.parts().minutes, 1);
    let late = Clock { secs: start.secs + 1, nanos: 3_000_000 };
    let second = tick(&target, &late);
    assert_eq!(second.remaining.parts().seconds, 29);
    assert_eq!(second.delay_nanos, 997_000_000);
    let third = tick(&target, &Clock { secs: start.secs + 2, nanos: 0 });
    assert_eq!(third.remaining.parts().seconds, 28);
    assert_eq!(third.delay_nanos, 1_000_000_000);
}

#[test]
fn parts_of_nine_days_five_hours() {
    let secs: i128 = 9 * 86400 + 5 * 3600 + 3 * 60 + 2;
    let r = Remaining { nanos: secs * 1_000_000_000 };
    assert_eq!(r.parts(), Parts { weeks: 1, days: 2, hours: 5, minutes: 3, seconds: 2 });
}

#[test]
fn past_target_gives_negative_parts() {
    let now = Clock { secs: 1_700_000_000, nanos: 400_000_000 };
    let target = Target { timestamp: now.secs - 10, nanos: 0, offset: 3600 };
    let t = tick(&target, &now);
    assert!(t.remaining.nanos < 0);
    assert_eq!(t.remaining.parts(), Parts { weeks: 0, days: 0, hours: 0, minutes: 0, seconds: -10 });
    let long_ago = Remaining { nanos: -(8 * 86400 + 61) * 1_000_000_000 - 5 };
    assert_eq!(long_ago.parts(), Parts { weeks: -1, days: -1, hours: 0, minutes: -1, seconds: -1 });
}

#[test]
fn ticker_stops_firing_after_stop() {
    let target = june_first();
    let mut ticker = Ticker::new(target);
    let now = Clock { secs: JUNE_FIRST_NOON_PDT - 61, nanos: 10 };
    assert_eq!(ticker.fire(now), None);
    let first = ticker.start(now);
    assert_eq!(first.remaining.nanos, 61_000_000_000);
    assert_eq!(ticker.fire(now), Some(first));
    ticker.stop();
    assert_eq!(ticker.fire(now), None);
}

#[test]
fn ticker_reads_the_clock() {
    let mut ticker = Ticker::new(june_first());
    let t = ticker.start_now();
    assert!(t.delay_nanos > 0 && t.delay_nanos <= 1_000_000_000);
    assert!(t.remaining.nanos < 0);
    assert!(ticker.fire_now().is_some());
}

#[test]
fn titles_fall_back_to_countdown() {
    assert_eq!(title(&None), "Countdown");
    assert_eq!(title(&Some(String::new())), "Countdown");
    assert_eq!(title(&Some("Launch".to_string())), "Launch countdown");
}

#[test]
fn create_link_reads_local_minutes() {
    assert_eq!(create_link("x", "not a time"), None);
    assert_eq!(create_link("x", "2030-01-01T10:00:30"), None);
    let q = create_link("Trip", "2030-01-15T10:00").unwrap();
    let link = decode_query(&q).unwrap();
    assert_eq!(link.label, Some("Trip".to_string()));
    let t = link.target.unwrap();
    assert_eq!(t.nanos, 0);
    assert_eq!((t.timestamp + t.offset as i64) % 60, 0);
}

