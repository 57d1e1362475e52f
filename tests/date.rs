use refstore::date::{
    human_choice_of, human_format_comparing_to, Format, Human, Instant, Sign, Time, DEFAULT, ISO8601, ISO8601_STRICT,
    RFC2822, SHORT,
};

fn time() -> Time {
    Time { seconds_since_unix_epoch: 123456789, offset_in_seconds: 9000, sign: Sign::Plus }
}

fn text(r: Result<Vec<u8>, refstore::date::FormatError>) -> String {
    String::from_utf8(r.expect("formats")).unwrap()
}

fn custom(d: &[u8]) -> Format {
    Format::Custom(d.to_vec())
}

fn raw_time() -> Instant {
    time().to_instant()
}

fn plus(t: Instant, seconds: i64) -> Instant {
    Instant { seconds: t.seconds + seconds, offset: t.offset }
}

fn utc(t: Instant) -> Instant {
    Instant { seconds: t.seconds, offset: 0 }
}

const SECOND: i64 = 1;
const MINUTE: i64 = 60;
const DAY: i64 = 86400;
const WEEK: i64 = 7 * DAY;

#[test]
fn format_short() {
    assert_eq!(text(time().format(&custom(&SHORT))), "1973-11-30");
}

#[test]
fn format_unix() {
    let expected = "123456789";
    assert_eq!(text(time().format(&Format::Unix)), expected);
}

#[test]
fn format_raw() {
    let expected = "123456789 +0230";
    assert_eq!(text(time().format(&Format::Raw)), expected);
    assert_eq!(String::from_utf8(time().to_raw()).unwrap(), expected);
}

#[test]
fn format_iso8601() {
    assert_eq!(text(time().format(&custom(&ISO8601))), "1973-11-30 00:03:09 +0230");
}

#[test]
fn format_iso8601_strict() {
    assert_eq!(text(time().format(&custom(&ISO8601_STRICT))), "1973-11-30T00:03:09+02:30");
}

#[test]
fn format_rfc2822() {
    assert_eq!(text(time().format(&custom(&RFC2822))), "Fri, 30 Nov 1973 00:03:09 +0230");
}

#[test]
fn format_default() {
    assert_eq!(text(time().format(&custom(&DEFAULT))), "Fri Nov 30 1973 00:03:09 +0230");
}

#[test]
fn format_human() {
    let h = |f: Instant, c: Instant| text(human_format_comparing_to(f, c));
    assert_eq!(h(raw_time(), plus(raw_time(), -DAY)), "in the future");
    assert_eq!(h(raw_time(), raw_time()), "0 seconds ago");
    assert_eq!(h(raw_time(), plus(raw_time(), SECOND)), "1 second ago");
    assert_eq!(h(raw_time(), plus(raw_time(), SECOND * 89)), "89 seconds ago");
    assert_eq!(h(raw_time(), plus(raw_time(), MINUTE * 89)), "89 minutes ago");
    assert_eq!(h(raw_time(), plus(raw_time(), MINUTE * 90)), "2 hours ago");
    // Timezone does not match, but the time is the same
    assert_eq!(h(raw_time(), utc(raw_time())), "Fri 00:03 +0230");
    // Timezone matches, but was more than a week ago
    assert_eq!(h(raw_time(), plus(raw_time(), WEEK)), "Fri Nov 30 00:03");
    // Timezone does not match, more than a week ago
    assert_eq!(h(raw_time(), plus(utc(raw_time()), WEEK)), "Fri Nov 30 00:03");
    // Time was previous year
    assert_eq!(h(raw_time(), plus(raw_time(), DAY * 365)), "Nov 30 1973");
}

#[test]
fn format_custom_compile_time() {
    assert_eq!(
        text(time().format(&custom(b"[year]-[month]-[day] [hour]:[minute]:[second]"))),
        "1973-11-30 00:03:09",
    );
}

#[test]
fn human_choices_on_given_dates() {
    let f = Instant { seconds: 1000, offset: 0 };
    assert_eq!(human_choice_of(f, (2000, 1), Instant { seconds: 999, offset: 0 }, (2000, 1)), Human::InTheFuture);
    assert_eq!(human_choice_of(f, (2000, 1), Instant { seconds: 1000, offset: 0 }, (2001, 1)), Human::OtherYear);
    assert_eq!(human_choice_of(f, (2000, 1), Instant { seconds: 1000 + 4 * DAY + 1, offset: 0 }, (2000, 5)), Human::SameYear);
    assert_eq!(human_choice_of(f, (2000, 1), Instant { seconds: 1000 + 4 * DAY, offset: 0 }, (2000, 5)), Human::SameWeekNoOffset);
    assert_eq!(human_choice_of(f, (2000, 1), Instant { seconds: 1000 + DAY, offset: 60 }, (2000, 2)), Human::SameWeek);
    assert_eq!(human_choice_of(f, (2000, 1), Instant { seconds: 1000 + 150, offset: 0 }, (2000, 1)), Human::MinutesAgo(3));
    assert_eq!(human_choice_of(f, (2000, 1), Instant { seconds: 1000 + 5399, offset: 0 }, (2000, 1)), Human::MinutesAgo(90));
    assert_eq!(human_choice_of(f, (2000, 1), Instant { seconds: 1000 + 9000, offset: 0 }, (2000, 1)), Human::HoursAgo(3));
}

#[test]
fn negative_offsets_in_raw_form() {
    let t = Time { seconds_since_unix_epoch: 0, offset_in_seconds: -3600 * 5 - 60 * 7, sign: Sign::Minus };
    assert_eq!(String::from_utf8(t.to_raw()).unwrap(), "0 -0507");
    assert!(t.format(&custom(b"[not a component]")).is_err());
    let bad = Time { seconds_since_unix_epoch: 0, offset_in_seconds: 26 * 3600, sign: Sign::Plus };
    assert!(bad.format(&Format::Human).is_err());
    assert!(bad.format(&custom(&SHORT)).is_err());
    assert_eq!(String::from_utf8(bad.format(&Format::Raw).unwrap()).unwrap(), "0 +2600");
}
