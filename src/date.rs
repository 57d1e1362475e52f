//! Times as plain values, and how they are written out: as seconds, in the raw form of
//! commits and reflogs, by a format description, or relative to another time.
use vstd::prelude::*;
use crate::bytes::{append, decimal, decimal_bytes, to_vec};
use crate::store::padded;

verus! {

/// Whether an offset is written with `+` or `-`; a zero offset may carry either.
#[derive(Clone, Copy, Debug, PartialEq, Eq, Structural)]
pub enum Sign {
    Plus,
    Minus,
}

/// A point in time with the offset of the place it was recorded in.
#[derive(Clone, Copy, Debug, PartialEq, Eq, Structural)]
pub struct Time {
    pub seconds_since_unix_epoch: u32,
    pub offset_in_seconds: i32,
    pub sign: Sign,
}

/// How to write a time.
#[derive(Debug, PartialEq, Eq)]
pub enum Format {
    /// By a format description of the `time` crate, such as `SHORT`.
    Custom(Vec<u8>),
    /// The seconds since the Unix epoch.
    Unix,
    /// The seconds, then the offset as `+hhmm` or `-hhmm`.
    Raw,
    /// Relative to the current local time.
    Human,
}

/// A time could not be written: the description is not valid, or the time or offset is out
/// of the range the `time` crate handles.
#[derive(Debug, PartialEq, Eq)]
pub struct FormatError;

/// The description `SHORT`.
pub open spec fn short_spec() -> Seq<u8> {
    seq![91u8, 121, 101, 97, 114, 93, 45, 91, 109, 111, 110, 116, 104, 93, 45, 91, 100, 97, 121, 93]
}

/// The description `RFC2822`.
pub open spec fn rfc2822_spec() -> Seq<u8> {
    seq![91u8, 119, 101, 101, 107, 100, 97, 121, 32, 114, 101, 112, 114, 58, 115, 104, 111, 114, 116, 93, 44, 32, 91, 100, 97, 121, 93, 32, 91, 109, 111, 110, 116, 104, 32, 114, 101, 112, 114, 58, 115, 104, 111, 114, 116, 93, 32, 91, 121, 101, 97, 114, 93, 32, 91, 104, 111, 117, 114, 93, 58, 91, 109, 105, 110, 117, 116, 101, 93, 58, 91, 115, 101, 99, 111, 110, 100, 93, 32, 91, 111, 102, 102, 115, 101, 116, 95, 104, 111, 117, 114, 32, 115, 105, 103, 110, 58, 109, 97, 110, 100, 97, 116, 111, 114, 121, 93, 91, 111, 102, 102, 115, 101, 116, 95, 109, 105, 110, 117, 116, 101, 93]
}

/// The description `ISO8601`.
pub open spec fn iso8601_spec() -> Seq<u8> {
    seq![91u8, 121, 101, 97, 114, 93, 45, 91, 109, 111, 110, 116, 104, 93, 45, 91, 100, 97, 121, 93, 32, 91, 104, 111, 117, 114, 93, 58, 91, 109, 105, 110, 117, 116, 101, 93, 58, 91, 115, 101, 99, 111, 110, 100, 93, 32, 91, 111, 102, 102, 115, 101, 116, 95, 104, 111, 117, 114, 32, 115, 105, 103, 110, 58, 109, 97, 110, 100, 97, 116, 111, 114, 121, 93, 91, 111, 102, 102, 115, 101, 116, 95, 109, 105, 110, 117, 116, 101, 93]
}

/// The description `ISO8601_STRICT`.
pub open spec fn iso8601_strict_spec() -> Seq<u8> {
    seq![91u8, 121, 101, 97, 114, 93, 45, 91, 109, 111, 110, 116, 104, 93, 45, 91, 100, 97, 121, 93, 84, 91, 104, 111, 117, 114, 93, 58, 91, 109, 105, 110, 117, 116, 101, 93, 58, 91, 115, 101, 99, 111, 110, 100, 93, 91, 111, 102, 102, 115, 101, 116, 95, 104, 111, 117, 114, 32, 115, 105, 103, 110, 58, 109, 97, 110, 100, 97, 116, 111, 114, 121, 93, 58, 91, 111, 102, 102, 115, 101, 116, 95, 109, 105, 110, 117, 116, 101, 93]
}

/// The description `DEFAULT`.
pub open spec fn default_spec() -> Seq<u8> {
    seq![91u8, 119, 101, 101, 107, 100, 97, 121, 32, 114, 101, 112, 114, 58, 115, 104, 111, 114, 116, 93, 32, 91, 109, 111, 110, 116, 104, 32, 114, 101, 112, 114, 58, 115, 104, 111, 114, 116, 93, 32, 91, 100, 97, 121, 93, 32, 91, 121, 101, 97, 114, 93, 32, 91, 104, 111, 117, 114, 93, 58, 91, 109, 105, 110, 117, 116, 101, 93, 58, 91, 115, 101, 99, 111, 110, 100, 93, 32, 91, 111, 102, 102, 115, 101, 116, 95, 104, 111, 117, 114, 32, 115, 105, 103, 110, 58, 109, 97, 110, 100, 97, 116, 111, 114, 121, 93, 91, 111, 102, 102, 115, 101, 116, 95, 109, 105, 110, 117, 116, 101, 93]
}

/// One of the descriptions this library defines.
pub open spec fn known_description(d: Seq<u8>) -> bool {
    d == short_spec() || d == rfc2822_spec() || d == iso8601_spec() || d == iso8601_strict_spec()
        || d == default_spec() || d == human_other_year_spec() || d == human_same_year_spec()
        || d == human_same_week_spec() || d == human_same_week_no_offset_spec()
}

/// The first second of -9999-01-01 UTC, the earliest Unix time the `time` crate takes, by its
/// own day numbering.
pub open spec fn min_timestamp() -> int {
    -377705116800
}

/// The last second of 9999-12-31 UTC, the latest Unix time the `time` crate takes.
pub open spec fn max_timestamp() -> int {
    253402300799
}

/// A Unix time in a UTC offset that the `time` crate can place: the offset is at most
/// 25:59:59 either way, and both the time and the time shifted by the offset fall in the years
/// -9999 to 9999.
pub open spec fn instant_in_range(seconds: int, offset: int) -> bool {
    &&& -93599 <= offset <= 93599
    &&& min_timestamp() <= seconds <= max_timestamp()
    &&& min_timestamp() <= seconds + offset <= max_timestamp()
}

/// The year and the day of the month of day `days` after 1970-01-01 in the proleptic Gregorian
/// calendar.
pub open spec fn civil_from_days(days: int) -> (int, int) {
    let z = days + 719468;
    let era = z / 146097;
    let doe = z - era * 146097;
    let yoe = (doe - doe / 1460 + doe / 36524 - doe / 146096) / 365;
    let y = yoe + era * 400;
    let doy = doe - (365 * yoe + yoe / 4 - yoe / 100);
    let mp = (5 * doy + 2) / 153;
    let d = doy - (153 * mp + 2) / 5 + 1;
    let m = if mp < 10 { mp + 3 } else { mp - 9 };
    (if m <= 2 { y + 1 } else { y }, d)
}

/// The year and the day of the month of a Unix time in a UTC offset, both in seconds: the date
/// of the day the shifted time falls on.
pub open spec fn civil_date_of(seconds: int, offset: int) -> (int, int) {
    civil_from_days((seconds + offset) / 86400)
}

/// A Unix time in a UTC offset written by a format description.
pub uninterp spec fn described(seconds: int, offset: int, description: Seq<u8>) -> Seq<u8>;

/// Relies on `time::OffsetDateTime::from_unix_timestamp`, `UtcOffset::from_whole_seconds` and
/// `OffsetDateTime::checked_to_offset` to place the time, and on `year` and `day` to read the
/// proleptic Gregorian date in that offset; the day is in `1..=31`. All three accept a time and offset in range;
/// `from_whole_seconds` refuses an offset beyond 25:59:59 either way.
#[verifier::external_body]
fn civil_date(seconds: i64, offset: i32) -> (r: Option<(i32, u8)>)
    ensures
        instant_in_range(seconds as int, offset as int) ==> r is Some,
        !(-93599 <= offset <= 93599) ==> r is None,
        r is Some ==> (r->Some_0.0 as int, r->Some_0.1 as int) == civil_date_of(seconds as int, offset as int),
        r is Some ==> 1 <= r->Some_0.1 <= 31,
{
    let t = time::OffsetDateTime::from_unix_timestamp(seconds).ok()?;
    let t = t.checked_to_offset(time::UtcOffset::from_whole_seconds(offset).ok()?)?;
    Some((t.year(), t.day()))
}

/// Relies on `time::format_description::parse` to read the description and on
/// `OffsetDateTime::format` to write the time, placed as in `civil_date`. The descriptions of
/// this library parse, and formatting a placed time into memory by them does not fail; an
/// offset beyond 25:59:59 either way is refused by `UtcOffset::from_whole_seconds`.
#[verifier::external_body]
fn format_described(seconds: i64, offset: i32, description: &[u8]) -> (r: Option<Vec<u8>>)
    ensures
        instant_in_range(seconds as int, offset as int) && known_description(description@) ==> r is Some,
        !(-93599 <= offset <= 93599) ==> r is None,
        r is Some ==> r->Some_0@ == described(seconds as int, offset as int, description@),
{
    let items = time::format_description::parse(std::str::from_utf8(description).ok()?).ok()?;
    let t = time::OffsetDateTime::from_unix_timestamp(seconds).ok()?;
    let t = t.checked_to_offset(time::UtcOffset::from_whole_seconds(offset).ok()?)?;
    t.format(&items).ok().map(|s| s.into_bytes())
}

/// Relies on `time::OffsetDateTime::now_local`: the current time in the local offset, as
/// seconds and offset seconds, if the local offset can be determined. Like every
/// `OffsetDateTime`, it lies in the range the crate can place.
#[verifier::external_body]
fn now_local() -> (r: Option<(i64, i32)>)
    ensures
        r is Some ==> instant_in_range(r->Some_0.0 as int, r->Some_0.1 as int),
{
    let t = time::OffsetDateTime::now_local().ok()?;
    Some((t.unix_timestamp(), t.offset().whole_seconds()))
}

/// A time as the `time` crate places it: seconds since the epoch and offset in seconds.
#[derive(Clone, Copy, Debug, PartialEq, Eq, Structural)]
pub struct Instant {
    pub seconds: i64,
    pub offset: i32,
}

/// How a time is written relative to another.
#[derive(Clone, Copy, Debug, PartialEq, Eq, Structural)]
pub enum Human {
    /// It is later than the time compared to.
    InTheFuture,
    /// It is in another year: month, day and year.
    OtherYear,
    /// It is more than four days earlier in the same year: weekday, month, day and time.
    SameYear,
    /// The same day, less than 90 seconds earlier.
    SecondsAgo(u64),
    /// The same day, less than 90 minutes earlier, in rounded minutes.
    MinutesAgo(u64),
    /// The same day, in rounded hours.
    HoursAgo(u64),
    /// Within four days, another day, and the offsets differ: weekday, time and offset.
    SameWeek,
    /// Within four days, another day, in the same offset: weekday and time.
    SameWeekNoOffset,
}

/// How `format` is written relative to `compare`, given the year and day of each in its own
/// offset.
pub open spec fn human_choice(format: Instant, format_date: (int, int), compare: Instant, compare_date: (int, int)) -> Human {
    let d = compare.seconds - format.seconds;
    if format.seconds > compare.seconds {
        Human::InTheFuture
    } else if format_date.0 != compare_date.0 {
        Human::OtherYear
    } else if d > 4 * 86400 {
        Human::SameYear
    } else if format_date.1 == compare_date.1 {
        if d < 90 {
            Human::SecondsAgo(d as u64)
        } else if d < 5400 {
            Human::MinutesAgo(((d + 30) / 60) as u64)
        } else {
            Human::HoursAgo(((d + 1800) / 3600) as u64)
        }
    } else if format.offset != compare.offset {
        Human::SameWeek
    } else {
        Human::SameWeekNoOffset
    }
}

/// What a relative time is written as, as plain values.
pub enum HumanTextView {
    Text(Seq<u8>),
    Described(Seq<u8>),
}

/// What a relative time is written as: a fixed text, or the time by a format description.
pub enum HumanText {
    Text(Vec<u8>),
    Described(&'static [u8]),
}

impl View for HumanText {
    type V = HumanTextView;

    open spec fn view(&self) -> HumanTextView {
        match self {
            HumanText::Text(t) => HumanTextView::Text(t@),
            HumanText::Described(d) => HumanTextView::Described(d@),
        }
    }
}

/// The text of a relative time, or the description to write it with.
pub open spec fn human_text(h: Human) -> HumanTextView {
    match h {
        Human::InTheFuture => HumanTextView::Text(seq![105u8, 110, 32, 116, 104, 101, 32, 102, 117, 116, 117, 114, 101]),  // `in the future`
        Human::SecondsAgo(n) => if n == 1 {
            HumanTextView::Text(seq![49u8, 32, 115, 101, 99, 111, 110, 100, 32, 97, 103, 111])  // `1 second ago`
        } else {
            HumanTextView::Text(decimal(n as nat) + seq![32u8, 115, 101, 99, 111, 110, 100, 115, 32, 97, 103, 111])  // ` seconds ago`
        },
        Human::MinutesAgo(n) => HumanTextView::Text(decimal(n as nat) + seq![32u8, 109, 105, 110, 117, 116, 101, 115, 32, 97, 103, 111]),  // ` minutes ago`
        Human::HoursAgo(n) => HumanTextView::Text(decimal(n as nat) + seq![32u8, 104, 111, 117, 114, 115, 32, 97, 103, 111]),  // ` hours ago`
        Human::OtherYear => HumanTextView::Described(human_other_year_spec()),
        Human::SameYear => HumanTextView::Described(human_same_year_spec()),
        Human::SameWeek => HumanTextView::Described(human_same_week_spec()),
        Human::SameWeekNoOffset => HumanTextView::Described(human_same_week_no_offset_spec()),
    }
}

/// The raw form of a time: seconds, a space, the sign, then hours and minutes of the offset.
pub open spec fn raw_bytes(t: Time) -> Seq<u8> {
    let a: nat = if t.offset_in_seconds < 0 { (-t.offset_in_seconds) as nat } else { t.offset_in_seconds as nat };
    decimal(t.seconds_since_unix_epoch as nat) + seq![32u8, if t.sign == Sign::Minus { 45u8 } else { 43u8 }]
        + padded(a / 3600) + padded((a % 3600) / 60)
}

/// The description `HUMAN_OTHER_YEAR`.
pub open spec fn human_other_year_spec() -> Seq<u8> {
    seq![91u8, 109, 111, 110, 116, 104, 32, 114, 101, 112, 114, 58, 115, 104, 111, 114, 116, 93, 32, 91, 100, 97, 121, 93, 32, 91, 121, 101, 97, 114, 93]  // `[month repr:short] [day] [year]`
}

/// The description `HUMAN_SAME_YEAR`.
pub open spec fn human_same_year_spec() -> Seq<u8> {
    seq![91u8, 119, 101, 101, 107, 100, 97, 121, 32, 114, 101, 112, 114, 58, 115, 104, 111, 114, 116, 93, 32, 91, 109, 111, 110, 116, 104, 32, 114, 101, 112, 114, 58, 115, 104, 111, 114, 116, 93, 32, 91, 100, 97, 121, 93, 32, 91, 104, 111, 117, 114, 93, 58, 91, 109, 105, 110, 117, 116, 101, 93]  // `[weekday repr:short] [month repr:short] [day] [hour]:[minute]`
}

/// The description `HUMAN_SAME_WEEK`.
pub open spec fn human_same_week_spec() -> Seq<u8> {
    seq![91u8, 119, 101, 101, 107, 100, 97, 121, 32, 114, 101, 112, 114, 58, 115, 104, 111, 114, 116, 93, 32, 91, 104, 111, 117, 114, 93, 58, 91, 109, 105, 110, 117, 116, 101, 93, 32, 91, 111, 102, 102, 115, 101, 116, 95, 104, 111, 117, 114, 32, 115, 105, 103, 110, 58, 109, 97, 110, 100, 97, 116, 111, 114, 121, 93, 91, 111, 102, 102, 115, 101, 116, 95, 109, 105, 110, 117, 116, 101, 93]  // `[weekday repr:short] [hour]:[minute] [offset_hour sign:mandatory][offset_minute]`
}

/// The description `HUMAN_SAME_WEEK_NO_OFFSET`.
pub open spec fn human_same_week_no_offset_spec() -> Seq<u8> {
    seq![91u8, 119, 101, 101, 107, 100, 97, 121, 32, 114, 101, 112, 114, 58, 115, 104, 111, 114, 116, 93, 32, 91, 104, 111, 117, 114, 93, 58, 91, 109, 105, 110, 117, 116, 101, 93]  // `[weekday repr:short] [hour]:[minute]`
}


/// How `format` is written relative to `compare`, given the year and day of the month of
/// each in its own offset.
pub fn human_choice_of(format: Instant, format_date: (i32, u8), compare: Instant, compare_date: (i32, u8)) -> (r: Human)
    ensures
        r == human_choice(format, (format_date.0 as int, format_date.1 as int), compare, (compare_date.0 as int, compare_date.1 as int)),
{
    if format.seconds > compare.seconds {
        return Human::InTheFuture;
    }
    if format_date.0 != compare_date.0 {
        return Human::OtherYear;
    }
    let d = (compare.seconds as i128 - format.seconds as i128) as u64;
    if d > 4 * 86400 {
        return Human::SameYear;
    }
    if format_date.1 == compare_date.1 {
        if d < 90 {
            Human::SecondsAgo(d)
        } else if d < 5400 {
            Human::MinutesAgo((d + 30) / 60)
        } else {
            Human::HoursAgo((d + 1800) / 3600)
        }
    } else if format.offset != compare.offset {
        Human::SameWeek
    } else {
        Human::SameWeekNoOffset
    }
}

/// The text of a relative time, or the description to write it with.
pub fn human_text_of(h: Human) -> (r: HumanText)
    ensures
        r@ == human_text(h),
{
    match h {
        Human::InTheFuture => HumanText::Text(to_vec(&IN_THE_FUTURE)),
        Human::SecondsAgo(n) => if n == 1 {
            HumanText::Text(to_vec(&ONE_SECOND_AGO))
        } else {
            let mut r = decimal_bytes(n);
            append(&mut r, &SECONDS_AGO);
            HumanText::Text(r)
        },
        Human::MinutesAgo(n) => {
            let mut r = decimal_bytes(n);
            append(&mut r, &MINUTES_AGO);
            HumanText::Text(r)
        },
        Human::HoursAgo(n) => {
            let mut r = decimal_bytes(n);
            append(&mut r, &HOURS_AGO);
            HumanText::Text(r)
        },
        Human::OtherYear => HumanText::Described(&HUMAN_OTHER_YEAR),
        Human::SameYear => HumanText::Described(&HUMAN_SAME_YEAR),
        Human::SameWeek => HumanText::Described(&HUMAN_SAME_WEEK),
        Human::SameWeekNoOffset => HumanText::Described(&HUMAN_SAME_WEEK_NO_OFFSET),
    }
}

/// `format` written relative to `compare`.
pub open spec fn human_result(format: Instant, compare: Instant) -> Seq<u8> {
    let fd = civil_date_of(format.seconds as int, format.offset as int);
    let cd = civil_date_of(compare.seconds as int, compare.offset as int);
    match human_text(human_choice(format, fd, compare, cd)) {
        HumanTextView::Text(t) => t,
        HumanTextView::Described(desc) => described(format.seconds as int, format.offset as int, desc),
    }
}

/// The `time` crate can place this instant.
pub open spec fn in_range(i: Instant) -> bool {
    instant_in_range(i.seconds as int, i.offset as int)
}

/// Write `format` relative to `compare`: `in the future`, seconds, minutes or hours ago on the
/// same day, or the date and time with as much detail as the distance needs. It succeeds for
/// every pair of instants the `time` crate can place.
pub fn human_format_comparing_to(format: Instant, compare: Instant) -> (r: Result<Vec<u8>, FormatError>)
    ensures
        in_range(format) && in_range(compare) ==> r is Ok,
        r is Ok ==> r->Ok_0@ == human_result(format, compare),
{
    let fd = match civil_date(format.seconds, format.offset) {
        Some(d) => d,
        None => {
            return Err(FormatError);
        },
    };
    let cd = match civil_date(compare.seconds, compare.offset) {
        Some(d) => d,
        None => {
            return Err(FormatError);
        },
    };
    let h = human_choice_of(format, fd, compare, cd);
    match human_text_of(h) {
        HumanText::Text(t) => Ok(t),
        HumanText::Described(desc) => match format_described(format.seconds, format.offset, desc) {
            Some(b) => Ok(b),
            None => Err(FormatError),
        },
    }
}

/// The offset of `t` is one the `time` crate takes: at most 25:59:59 either way.
pub open spec fn valid_offset(t: Time) -> bool {
    -93599 <= t.offset_in_seconds <= 93599
}

/// `t` placed as the `time` crate places it.
pub open spec fn instant_of(t: Time) -> Instant {
    Instant { seconds: t.seconds_since_unix_epoch as i64, offset: t.offset_in_seconds }
}

impl Time {
    /// This time placed as the `time` crate places it.
    pub fn to_instant(&self) -> (r: Instant)
        requires
            valid_offset(*self),
        ensures
            r == instant_of(*self),
    {
        Instant { seconds: self.seconds_since_unix_epoch as i64, offset: self.offset_in_seconds }
    }

    /// The raw form: seconds, a space, the sign, then hours and minutes of the offset.
    pub fn to_raw(&self) -> (r: Vec<u8>)
        ensures
            r@ == raw_bytes(*self),
    {
        let mut out = decimal_bytes(self.seconds_since_unix_epoch as u64);
        out.push(32u8);
        out.push(if self.sign == Sign::Minus { 45u8 } else { 43u8 });
        let o = self.offset_in_seconds as i64;
        let a: u64 = if o < 0 { (-o) as u64 } else { o as u64 };
        let h = crate::store::padded_bytes(a / 3600);
        append(&mut out, h.as_slice());
        let m = crate::store::padded_bytes((a % 3600) / 60);
        append(&mut out, m.as_slice());
        assert(out@ =~= raw_bytes(*self));
        out
    }

    /// Write this time in `format`. Relative to the local time, if it cannot be determined the
    /// time is written by `DEFAULT`. With an offset of at most 25:59:59 either way, only a
    /// custom description that is not one of this library's can fail; with a larger offset
    /// every form but `Unix` and `Raw` fails.
    pub fn format(&self, format: &Format) -> (r: Result<Vec<u8>, FormatError>)
        ensures
            *format == Format::Unix ==> r is Ok && r->Ok_0@ == decimal(self.seconds_since_unix_epoch as nat),
            *format == Format::Raw ==> r is Ok && r->Ok_0@ == raw_bytes(*self),
            match format {
                Format::Custom(d) => (r is Ok ==> r->Ok_0@ == described(self.seconds_since_unix_epoch as int,
                    self.offset_in_seconds as int, d@))
                    && (valid_offset(*self) && known_description(d@) ==> r is Ok)
                    && (!valid_offset(*self) ==> r is Err),
                Format::Human => (valid_offset(*self) <==> r is Ok)
                    && (r is Ok ==> (exists|c: Instant| in_range(c) && r->Ok_0@ == #[trigger] human_result(instant_of(*self), c))
                        || r->Ok_0@ == described(self.seconds_since_unix_epoch as int, self.offset_in_seconds as int, default_spec())),
                _ => true,
            },
    {
        match format {
            Format::Unix => Ok(decimal_bytes(self.seconds_since_unix_epoch as u64)),
            Format::Raw => Ok(self.to_raw()),
            Format::Custom(d) => match format_described(self.seconds_since_unix_epoch as i64, self.offset_in_seconds, d.as_slice()) {
                Some(b) => Ok(b),
                None => Err(FormatError),
            },
            Format::Human => if !(-93599 <= self.offset_in_seconds && self.offset_in_seconds <= 93599) {
                Err(FormatError)
            } else {
                match now_local() {
                    Some((seconds, offset)) => {
                        let c = Instant { seconds, offset };
                        let r = human_format_comparing_to(self.to_instant(), c);
                        proof {
                            if r is Ok {
                                assert(in_range(c) && r->Ok_0@ == human_result(instant_of(*self), c));
                            }
                        }
                        r
                    },
                    None => match format_described(self.seconds_since_unix_epoch as i64, self.offset_in_seconds, &DEFAULT) {
                        Some(b) => Ok(b),
                        None => Err(FormatError),
                    },
                }
            },
        }
    }
}

/// E.g. `2018-12-24`.
pub const SHORT: [u8; 20] = [91u8, 121, 101, 97, 114, 93, 45, 91, 109, 111, 110, 116, 104, 93, 45, 91, 100, 97, 121, 93];  // `[year]-[month]-[day]`

/// E.g. `Thu, 18 Aug 2022 12:45:06 +0800`.
pub const RFC2822: [u8; 122] = [91u8, 119, 101, 101, 107, 100, 97, 121, 32, 114, 101, 112, 114, 58, 115, 104, 111, 114, 116, 93, 44, 32, 91, 100, 97, 121, 93, 32, 91, 109, 111, 110, 116, 104, 32, 114, 101, 112, 114, 58, 115, 104, 111, 114, 116, 93, 32, 91, 121, 101, 97, 114, 93, 32, 91, 104, 111, 117, 114, 93, 58, 91, 109, 105, 110, 117, 116, 101, 93, 58, 91, 115, 101, 99, 111, 110, 100, 93, 32, 91, 111, 102, 102, 115, 101, 116, 95, 104, 111, 117, 114, 32, 115, 105, 103, 110, 58, 109, 97, 110, 100, 97, 116, 111, 114, 121, 93, 91, 111, 102, 102, 115, 101, 116, 95, 109, 105, 110, 117, 116, 101, 93];  // `[weekday repr:short], [day] [month repr:short] [year] [hour]:[minute]:[second] [offset_hour sign:mandatory][offset_minute]`

/// E.g. `2022-08-17 22:04:58 +0200`.
pub const ISO8601: [u8; 89] = [91u8, 121, 101, 97, 114, 93, 45, 91, 109, 111, 110, 116, 104, 93, 45, 91, 100, 97, 121, 93, 32, 91, 104, 111, 117, 114, 93, 58, 91, 109, 105, 110, 117, 116, 101, 93, 58, 91, 115, 101, 99, 111, 110, 100, 93, 32, 91, 111, 102, 102, 115, 101, 116, 95, 104, 111, 117, 114, 32, 115, 105, 103, 110, 58, 109, 97, 110, 100, 97, 116, 111, 114, 121, 93, 91, 111, 102, 102, 115, 101, 116, 95, 109, 105, 110, 117, 116, 101, 93];  // `[year]-[month]-[day] [hour]:[minute]:[second] [offset_hour sign:mandatory][offset_minute]`

/// E.g. `2022-08-17T21:43:13+08:00`.
pub const ISO8601_STRICT: [u8; 89] = [91u8, 121, 101, 97, 114, 93, 45, 91, 109, 111, 110, 116, 104, 93, 45, 91, 100, 97, 121, 93, 84, 91, 104, 111, 117, 114, 93, 58, 91, 109, 105, 110, 117, 116, 101, 93, 58, 91, 115, 101, 99, 111, 110, 100, 93, 91, 111, 102, 102, 115, 101, 116, 95, 104, 111, 117, 114, 32, 115, 105, 103, 110, 58, 109, 97, 110, 100, 97, 116, 111, 114, 121, 93, 58, 91, 111, 102, 102, 115, 101, 116, 95, 109, 105, 110, 117, 116, 101, 93];  // `[year]-[month]-[day]T[hour]:[minute]:[second][offset_hour sign:mandatory]:[offset_minute]`

/// E.g. `Thu Sep 04 2022 10:45:06 -0400`.
pub const DEFAULT: [u8; 121] = [91u8, 119, 101, 101, 107, 100, 97, 121, 32, 114, 101, 112, 114, 58, 115, 104, 111, 114, 116, 93, 32, 91, 109, 111, 110, 116, 104, 32, 114, 101, 112, 114, 58, 115, 104, 111, 114, 116, 93, 32, 91, 100, 97, 121, 93, 32, 91, 121, 101, 97, 114, 93, 32, 91, 104, 111, 117, 114, 93, 58, 91, 109, 105, 110, 117, 116, 101, 93, 58, 91, 115, 101, 99, 111, 110, 100, 93, 32, 91, 111, 102, 102, 115, 101, 116, 95, 104, 111, 117, 114, 32, 115, 105, 103, 110, 58, 109, 97, 110, 100, 97, 116, 111, 114, 121, 93, 91, 111, 102, 102, 115, 101, 116, 95, 109, 105, 110, 117, 116, 101, 93];  // `[weekday repr:short] [month repr:short] [day] [year] [hour]:[minute]:[second] [offset_hour sign:mandatory][offset_minute]`

/// E.g. `Dec 31 2021`.
pub const HUMAN_OTHER_YEAR: [u8; 31] = [91u8, 109, 111, 110, 116, 104, 32, 114, 101, 112, 114, 58, 115, 104, 111, 114, 116, 93, 32, 91, 100, 97, 121, 93, 32, 91, 121, 101, 97, 114, 93];  // `[month repr:short] [day] [year]`

/// E.g. `Thu Sep 04 10:45`.
pub const HUMAN_SAME_YEAR: [u8; 61] = [91u8, 119, 101, 101, 107, 100, 97, 121, 32, 114, 101, 112, 114, 58, 115, 104, 111, 114, 116, 93, 32, 91, 109, 111, 110, 116, 104, 32, 114, 101, 112, 114, 58, 115, 104, 111, 114, 116, 93, 32, 91, 100, 97, 121, 93, 32, 91, 104, 111, 117, 114, 93, 58, 91, 109, 105, 110, 117, 116, 101, 93];  // `[weekday repr:short] [month repr:short] [day] [hour]:[minute]`

/// The day of the week is enough to tell the date, but the offsets differ.
pub const HUMAN_SAME_WEEK: [u8; 80] = [91u8, 119, 101, 101, 107, 100, 97, 121, 32, 114, 101, 112, 114, 58, 115, 104, 111, 114, 116, 93, 32, 91, 104, 111, 117, 114, 93, 58, 91, 109, 105, 110, 117, 116, 101, 93, 32, 91, 111, 102, 102, 115, 101, 116, 95, 104, 111, 117, 114, 32, 115, 105, 103, 110, 58, 109, 97, 110, 100, 97, 116, 111, 114, 121, 93, 91, 111, 102, 102, 115, 101, 116, 95, 109, 105, 110, 117, 116, 101, 93];  // `[weekday repr:short] [hour]:[minute] [offset_hour sign:mandatory][offset_minute]`

/// The day of the week is enough to tell the date.
pub const HUMAN_SAME_WEEK_NO_OFFSET: [u8; 36] = [91u8, 119, 101, 101, 107, 100, 97, 121, 32, 114, 101, 112, 114, 58, 115, 104, 111, 114, 116, 93, 32, 91, 104, 111, 117, 114, 93, 58, 91, 109, 105, 110, 117, 116, 101, 93];  // `[weekday repr:short] [hour]:[minute]`

const IN_THE_FUTURE: [u8; 13] = [105u8, 110, 32, 116, 104, 101, 32, 102, 117, 116, 117, 114, 101];  // `in the future`
const ONE_SECOND_AGO: [u8; 12] = [49u8, 32, 115, 101, 99, 111, 110, 100, 32, 97, 103, 111];  // `1 second ago`
const SECONDS_AGO: [u8; 12] = [32u8, 115, 101, 99, 111, 110, 100, 115, 32, 97, 103, 111];  // ` seconds ago`
const MINUTES_AGO: [u8; 12] = [32u8, 109, 105, 110, 117, 116, 101, 115, 32, 97, 103, 111];  // ` minutes ago`
const HOURS_AGO: [u8; 10] = [32u8, 104, 111, 117, 114, 115, 32, 97, 103, 111];  // ` hours ago`

} // verus!
