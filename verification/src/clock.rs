//! Points in time, as nanoseconds since the Unix epoch, and how they are written.

use vstd::prelude::*;
use vstd::string::*;

use crate::text;

verus! {

/// Nanoseconds since 1970-01-01 00:00:00 UTC.
pub type Timestamp = i128;

/// A length of time in nanoseconds.
pub type Nanos = u128;

pub const SECOND: i128 = 1_000_000_000;

pub const MILLISECOND: i128 = 1_000_000;

/// How long after `earlier` `now` is: nothing where it is not after it.
pub open spec fn since(now: Timestamp, earlier: Timestamp) -> int {
    if now > earlier {
        now - earlier
    } else {
        0
    }
}

pub fn elapsed(now: Timestamp, earlier: Timestamp) -> (r: Nanos)
    ensures
        r == since(now, earlier),
{
    if now <= earlier {
        0
    } else if earlier >= 0 || now < 0 {
        (now - earlier) as u128
    } else {
        (now as u128) + ((-(earlier + 1)) as u128) + 1
    }
}

/// The first instant that the system clock can hold.
pub const FIRST_INSTANT: i128 = -9_223_372_036_854_775_808_000_000_000;

/// `time` less `amount`, or `time` itself where the system clock cannot hold that.
pub open spec fn back_by(time: Timestamp, amount: int) -> Timestamp {
    if time - amount < FIRST_INSTANT {
        time
    } else {
        (time - amount) as i128
    }
}

pub fn go_back(time: Timestamp, amount: Nanos) -> (r: Timestamp)
    ensures
        r == back_by(time, amount as int),
{
    match time.checked_sub_unsigned(amount) {
        Some(t) if t >= FIRST_INSTANT => t,
        _ => time,
    }
}

/// The whole seconds since the epoch, rounded down.
pub open spec fn whole_seconds(time: Timestamp) -> int {
    (time as int) / (SECOND as int)
}

/// The nanoseconds past the whole second.
pub open spec fn subsecond(time: Timestamp) -> int {
    (time as int) % (SECOND as int)
}

pub const FIRST_SECOND: i64 = -8_334_601_228_800;

pub const LAST_SECOND: i64 = 8_210_266_876_799;

/// The time lies between the years -262143 and 262142, which calendar dates are held for.
pub open spec fn displayable(time: Timestamp) -> bool {
    FIRST_SECOND <= whole_seconds(time) <= LAST_SECOND
}

pub open spec fn displayable_opt(time: Option<Timestamp>) -> bool {
    match time {
        Some(t) => displayable(t),
        None => true,
    }
}

fn split_time(time: Timestamp) -> (r: (i64, u32))
    requires
        displayable(time),
    ensures
        r.0 == whole_seconds(time),
        r.1 == subsecond(time),
{
    let (secs, nanos): (i128, i128) = if time >= 0 {
        (time / SECOND, time % SECOND)
    } else {
        let m: i128 = -(time + 1);
        let q: i128 = m / SECOND;
        let rest: i128 = m % SECOND;
        proof {
            let t = time as int;
            assert(m == q * 1_000_000_000 + rest);
            assert(t == (-q - 1) * 1_000_000_000 + (999_999_999 - rest));
            vstd::arithmetic::div_mod::lemma_fundamental_div_mod_converse(
                t,
                1_000_000_000,
                -q - 1,
                999_999_999 - rest,
            );
        }
        (-q - 1, SECOND - 1 - rest)
    };
    (secs as i64, nanos as u32)
}

pub open spec fn two_digits(n: int) -> Seq<char> {
    text::zero_padded(text::decimal(n as nat), 2)
}

/// The hour, minute and second of the day, with `separator` between them.
pub open spec fn time_of_day(secs: int, separator: Seq<char>) -> Seq<char> {
    let day = secs % 86_400;
    two_digits(day / 3600) + separator + two_digits(day / 60 % 60) + separator + two_digits(day % 60)
}

pub open spec fn is_leap_year(y: int) -> bool {
    (y % 4 == 0 && y % 100 != 0) || y % 400 == 0
}

/// The leap years from year 1 to year `y`.
pub open spec fn leap_years_through(y: int) -> int {
    y / 4 - y / 100 + y / 400
}

/// The days of a common year that come before month `m`.
pub open spec fn days_before_month(m: int) -> int {
    if m == 1 { 0 } else if m == 2 { 31 } else if m == 3 { 59 } else if m == 4 { 90 }
    else if m == 5 { 120 } else if m == 6 { 151 } else if m == 7 { 181 } else if m == 8 { 212 }
    else if m == 9 { 243 } else if m == 10 { 273 } else if m == 11 { 304 } else { 334 }
}

pub open spec fn days_in_month(y: int, m: int) -> int {
    if m == 2 {
        if is_leap_year(y) { 29 } else { 28 }
    } else if m == 4 || m == 6 || m == 9 || m == 11 {
        30
    } else {
        31
    }
}

/// The days from 1970-01-01 to the given date of the Gregorian calendar.
pub open spec fn day_number(y: int, m: int, d: int) -> int {
    365 * (y - 1970) + leap_years_through(y - 1) - leap_years_through(1969) + days_before_month(m)
        + (if is_leap_year(y) && m > 2 { 1int } else { 0 }) + d - 1
}

/// `secs` falls on the day `y`-`m`-`d`, in a year of at most four digits.
pub open spec fn falls_on(secs: int, y: int, m: int, d: int) -> bool {
    0 <= y <= 9999 && 1 <= m <= 12 && 1 <= d <= days_in_month(y, m) && day_number(y, m, d) == secs
        / 86_400
}

/// Year, month and day with `separator` between them.
pub open spec fn date_text(y: int, m: int, d: int, separator: Seq<char>) -> Seq<char> {
    text::zero_padded(text::decimal(y as nat), 4) + separator + two_digits(m) + separator
        + two_digits(d)
}

/// What a UTC time looks like in a `strftime` pattern.
pub uninterp spec fn utc_text(secs: i64, nanos: u32, pattern: Seq<char>) -> Seq<char>;

/// The ways in which times are written.
#[derive(Clone, Copy, Debug, PartialEq, Eq, Structural)]
pub enum TimeStyle {
    /// `HHMMSS`
    Digits,
    /// `HH:MM:SS`
    Clock,
    /// `YYYYMMDD`
    Date,
    /// `YYYY-MM-DD HH:MM:SS`
    DateTime,
    /// `YYYY-MM-DD HH:MM:SS UTC`
    DateTimeUtc,
}

impl TimeStyle {
    pub open spec fn pattern(self) -> Seq<char> {
        match self {
            TimeStyle::Digits => "%H%M%S"@,
            TimeStyle::Clock => "%H:%M:%S"@,
            TimeStyle::Date => "%Y%m%d"@,
            TimeStyle::DateTime => "%Y-%m-%d %H:%M:%S"@,
            TimeStyle::DateTimeUtc => "%Y-%m-%d %H:%M:%S UTC"@,
        }
    }

    fn as_str(self) -> (r: &'static str)
        ensures
            r@ == self.pattern(),
    {
        match self {
            TimeStyle::Digits => "%H%M%S",
            TimeStyle::Clock => "%H:%M:%S",
            TimeStyle::Date => "%Y%m%d",
            TimeStyle::DateTime => "%Y-%m-%d %H:%M:%S",
            TimeStyle::DateTimeUtc => "%Y-%m-%d %H:%M:%S UTC",
        }
    }

    /// What a time looks like whose date is known.
    pub open spec fn shape(self, secs: int, y: int, m: int, d: int) -> Seq<char> {
        match self {
            TimeStyle::Digits => time_of_day(secs, seq![]),
            TimeStyle::Clock => time_of_day(secs, seq![':']),
            TimeStyle::Date => date_text(y, m, d, seq![]),
            TimeStyle::DateTime => date_text(y, m, d, seq!['-']) + seq![' '] + time_of_day(
                secs,
                seq![':'],
            ),
            TimeStyle::DateTimeUtc => date_text(y, m, d, seq!['-']) + seq![' '] + time_of_day(
                secs,
                seq![':'],
            ) + " UTC"@,
        }
    }

    pub open spec fn has_date(self) -> bool {
        self != TimeStyle::Digits && self != TimeStyle::Clock
    }
}

/// What is known of a time in that style: the whole text, but for the date of a year of more than
/// four digits.
pub open spec fn has_style(text: Seq<char>, style: TimeStyle, secs: int) -> bool {
    &&& !style.has_date() ==> text == style.shape(secs, 0, 0, 0)
    &&& forall|y: int, m: int, d: int| #[trigger]
        falls_on(secs, y, m, d) ==> text == style.shape(secs, y, m, d)
}

/// `chrono::DateTime::format` on the UTC time that `secs` and `nanos` make: the text is a function
/// of the time and the pattern; `%H`, `%M` and `%S` give two digits each, `%Y` four for the years 0
/// to 9999, `%m` and `%d` two, and the rest of the pattern stands as it is.
#[verifier::external_body]
fn format_utc(secs: i64, nanos: u32, pattern: &str) -> (r: String)
    requires
        FIRST_SECOND <= secs <= LAST_SECOND,
        nanos < 1_000_000_000,
        exists|style: TimeStyle| #[trigger] style.pattern() == pattern@,
    ensures
        r@ == utc_text(secs, nanos, pattern@),
        forall|style: TimeStyle| #[trigger]
            style.pattern() == pattern@ ==> has_style(r@, style, secs as int),
{
    chrono::DateTime::<chrono::Utc>::from_timestamp(secs, nanos).unwrap().format(pattern).to_string()
}

/// The seconds and nanoseconds since the epoch that an RFC 3339 text stands for.
pub uninterp spec fn rfc3339_instant(text: Seq<char>) -> Option<(i64, u32)>;

/// The text is `YYYY-MM-DDTHH:MM:SSZ` for that second.
pub open spec fn is_utc_text(text: Seq<char>, secs: int) -> bool {
    exists|y: int, m: int, d: int| #[trigger]
        falls_on(secs, y, m, d) && text == date_text(y, m, d, seq!['-']) + seq!['T'] + time_of_day(
            secs,
            seq![':'],
        ) + seq!['Z']
}

/// `chrono::DateTime::parse_from_rfc3339`: the instant, as seconds since the epoch and nanoseconds
/// past them, or nothing where the text is no such time. It is a function of the text alone; the
/// year has four digits and the offset is under a day, and a leap second counts as nanoseconds
/// above a thousand million. A UTC time of whole seconds gives these seconds.
#[verifier::external_body]
fn parse_instant(text: &str) -> (r: Option<(i64, u32)>)
    ensures
        r == rfc3339_instant(text@),
        r matches Some(i) ==> -62_167_305_600 <= i.0 <= 253_402_387_199 && i.1 < 2_000_000_000,
        forall|secs: int| #[trigger]
            is_utc_text(text@, secs) ==> r == Some((secs as i64, 0u32)),
{
    chrono::DateTime::parse_from_rfc3339(text).ok().map(
        |time| (time.timestamp(), time.timestamp_subsec_nanos()),
    )
}

/// The point in time that an RFC 3339 text stands for.
pub open spec fn rfc3339_time(text: Seq<char>) -> Option<Timestamp> {
    match rfc3339_instant(text) {
        Some((secs, nanos)) => Some((secs * SECOND + nanos) as i128),
        None => None,
    }
}

pub fn parse_rfc3339(text: &str) -> (r: Option<Timestamp>)
    ensures
        r == rfc3339_time(text@),
        r matches Some(t) ==> displayable(t),
        forall|secs: int| #[trigger]
            is_utc_text(text@, secs) ==> r == Some((secs * SECOND) as i128),
{
    match parse_instant(text) {
        Some((secs, nanos)) => {
            let whole: i128 = secs as i128;
            let part: i128 = nanos as i128;
            Some(whole * SECOND + part)
        },
        None => None,
    }
}

/// The time falls in a year of at most four digits.
pub open spec fn has_short_year(secs: int) -> bool {
    exists|y: int, m: int, d: int| falls_on(secs, y, m, d)
}

/// Year, month and day of a time in a year of at most four digits.
pub open spec fn date_of(secs: int) -> (int, int, int) {
    choose|y: int, m: int, d: int| falls_on(secs, y, m, d)
}

/// A time as it is written. Years of more than four digits are written as `utc_text` has them.
pub open spec fn written(time: Timestamp, style: TimeStyle) -> Seq<char> {
    let secs = whole_seconds(time);
    if !style.has_date() {
        style.shape(secs, 0, 0, 0)
    } else if has_short_year(secs) {
        let (y, m, d) = date_of(secs);
        style.shape(secs, y, m, d)
    } else {
        utc_text(secs as i64, subsecond(time) as u32, style.pattern())
    }
}

pub open spec fn written_opt(time: Option<Timestamp>, style: TimeStyle) -> Option<Seq<char>> {
    match time {
        Some(t) => Some(written(t, style)),
        None => None,
    }
}

fn write_time(time: Timestamp, style: TimeStyle) -> (r: String)
    requires
        displayable(time),
    ensures
        r@ == written(time, style),
{
    let (secs, nanos) = split_time(time);
    let r = format_utc(secs, nanos, style.as_str());
    assert(has_style(r@, style, secs as int));
    proof {
        if has_short_year(secs as int) {
            let (y, m, d) = date_of(secs as int);
            assert(falls_on(secs as int, y, m, d));
        }
    }
    r
}

/// Hour, minute and second: `HH:MM:SS`.
pub fn format_time(time: Timestamp) -> (r: String)
    requires
        displayable(time),
    ensures
        r@ == written(time, TimeStyle::Clock),
{
    write_time(time, TimeStyle::Clock)
}

pub fn format_time_opt(time: Option<Timestamp>) -> (r: Option<String>)
    requires
        displayable_opt(time),
    ensures
        text::text_opt(r) == written_opt(time, TimeStyle::Clock),
{
    match time {
        Some(t) => Some(format_time(t)),
        None => None,
    }
}

/// Date and time of day: `YYYY-MM-DD HH:MM:SS`.
pub fn format_datetime(time: Timestamp) -> (r: String)
    requires
        displayable(time),
    ensures
        r@ == written(time, TimeStyle::DateTime),
{
    write_time(time, TimeStyle::DateTime)
}

/// Date and time of day with the zone: `YYYY-MM-DD HH:MM:SS UTC`.
pub fn format_utc_clock(time: Timestamp) -> (r: String)
    requires
        displayable(time),
    ensures
        r@ == written(time, TimeStyle::DateTimeUtc),
{
    write_time(time, TimeStyle::DateTimeUtc)
}

/// The time of day as `HHMMSS`.
pub fn format_slot_time(time: Timestamp) -> (r: String)
    requires
        displayable(time),
    ensures
        r@ == written(time, TimeStyle::Digits),
{
    write_time(time, TimeStyle::Digits)
}

/// The time of day as `HHMMSS.f`, with the tenth of the second.
pub fn format_slot_time_tenths(time: Timestamp) -> (r: String)
    requires
        displayable(time),
    ensures
        r@ == written(time, TimeStyle::Digits) + "."@ + text::decimal(
            (subsecond(time) / 100_000_000) as nat,
        ),
{
    let (_, nanos) = split_time(time);
    let hms = write_time(time, TimeStyle::Digits);
    let tenth = text::decimal_text((nanos / 100_000_000) as u64);
    text::cat3(hms.as_str(), ".", tenth.as_str())
}

/// The date as `YYYYMMDD`.
pub fn format_adif_date(time: Timestamp) -> (r: String)
    requires
        displayable(time),
    ensures
        r@ == written(time, TimeStyle::Date),
{
    write_time(time, TimeStyle::Date)
}

/// The time of day as `HHMMSS`.
pub fn format_adif_time(time: Timestamp) -> (r: String)
    requires
        displayable(time),
    ensures
        r@ == written(time, TimeStyle::Digits),
{
    write_time(time, TimeStyle::Digits)
}

/// The whole milliseconds from the epoch to `time`: none before the epoch.
pub open spec fn epoch_millis(time: Timestamp) -> int {
    since(time, 0) / (MILLISECOND as int)
}

/// Milliseconds since the epoch, at most what fits.
pub fn system_time_to_epoch_ms(time: Timestamp) -> (r: u64)
    ensures
        r == (if epoch_millis(time) <= u64::MAX {
            epoch_millis(time)
        } else {
            u64::MAX as int
        }),
{
    let ms: u128 = elapsed(time, 0) / 1_000_000;
    if ms <= u64::MAX as u128 {
        ms as u64
    } else {
        u64::MAX
    }
}

/// `n / unit` to the nearest whole number, halves up.
pub open spec fn nearest(n: int, unit: int) -> int {
    (n + unit / 2) / unit
}

/// How long ago something was, in the unit that suits.
pub open spec fn relative_age(seconds: int) -> Seq<char> {
    if seconds < 90 {
        text::decimal((if seconds < 1 { 1 } else { seconds }) as nat) + " secs ago"@
    } else if seconds < 90 * 60 {
        text::decimal(nearest(seconds, 60) as nat) + " mins ago"@
    } else if seconds < 36 * 60 * 60 {
        text::decimal(nearest(seconds, 3600) as nat) + " hours ago"@
    } else {
        text::decimal(nearest(seconds, 86_400) as nat) + " days ago"@
    }
}

/// The age in words; whole units are rounded to the nearest.
pub fn format_relative_age(age: Nanos) -> (r: String)
    requires
        age < 0x20_0000_0000_0000 * 1_000_000_000,
    ensures
        r@ == relative_age((age / 1_000_000_000) as int),
{
    let seconds: u64 = (age / 1_000_000_000) as u64;
    if seconds < 90 {
        let shown: u64 = if seconds < 1 { 1 } else { seconds };
        text::cat2(text::decimal_text(shown).as_str(), " secs ago")
    } else if seconds < 90 * 60 {
        text::cat2(text::decimal_text((seconds + 30) / 60).as_str(), " mins ago")
    } else if seconds < 36 * 60 * 60 {
        text::cat2(text::decimal_text((seconds + 1800) / 3600).as_str(), " hours ago")
    } else {
        text::cat2(text::decimal_text((seconds + 43_200) / 86_400).as_str(), " days ago")
    }
}

/// A later year begins after every day of an earlier one.
proof fn lemma_years_apart(y1: int, m1: int, d1: int, y2: int)
    requires
        0 <= y1 < y2 <= 9999,
        1 <= m1 <= 12,
        1 <= d1 <= days_in_month(y1, m1),
    ensures
        day_number(y1, m1, d1) < day_number(y2, 1, 1),
{
    let before = leap_years_through(y1 - 1);
    let after = leap_years_through(y2 - 1);
    assert(leap_years_through(y1) == before + (if is_leap_year(y1) { 1int } else { 0 }));
    assert(leap_years_through(y1) <= after);
    assert(365 * (y2 - y1) >= 365);
}

/// A day has one date.
pub proof fn law_day_has_one_date(secs: int, y: int, m: int, d: int)
    requires
        falls_on(secs, y, m, d),
    ensures
        date_of(secs) == (y, m, d),
{
    let (a, b, c) = date_of(secs);
    assert(falls_on(secs, a, b, c));
    if a < y {
        lemma_years_apart(a, b, c, y);
        assert(day_number(y, 1, 1) <= day_number(y, m, d));
    }
    if y < a {
        lemma_years_apart(y, m, d, a);
        assert(day_number(a, 1, 1) <= day_number(a, b, c));
    }
    assert(a == y);
    assert(b == m && c == d);
}

/// An age is told in seconds below a minute and a half, in minutes below an hour and a half, in hours
/// below a day and a half, and in days from there on; the number is the nearest to the age.
pub proof fn law_age_is_told_in_a_fitting_unit(seconds: int) -> (count: int)
    requires
        0 <= seconds,
    ensures
        count >= 1,
        seconds < 90 ==> relative_age(seconds) == text::decimal(count as nat) + " secs ago"@ && (
        seconds >= 1 ==> count == seconds),
        90 <= seconds < 5_400 ==> relative_age(seconds) == text::decimal(count as nat)
            + " mins ago"@ && -30 <= count * 60 - seconds <= 30,
        5_400 <= seconds < 129_600 ==> relative_age(seconds) == text::decimal(count as nat)
            + " hours ago"@ && -1_800 <= count * 3_600 - seconds <= 1_800,
        129_600 <= seconds ==> relative_age(seconds) == text::decimal(count as nat) + " days ago"@
            && -43_200 <= count * 86_400 - seconds <= 43_200,
{
    if seconds < 1 {
        1
    } else if seconds < 90 {
        seconds
    } else if seconds < 5_400 {
        nearest(seconds, 60)
    } else if seconds < 129_600 {
        nearest(seconds, 3_600)
    } else {
        nearest(seconds, 86_400)
    }
}

proof fn lemma_leap_step(y: int)
    ensures
        leap_years_through(y) - leap_years_through(y - 1) == (if is_leap_year(y) {
            1int
        } else {
            0
        }),
{
    assert(y / 4 - (y - 1) / 4 == (if y % 4 == 0 {
        1int
    } else {
        0
    }));
    assert(y / 100 - (y - 1) / 100 == (if y % 100 == 0 {
        1int
    } else {
        0
    }));
    assert(y / 400 - (y - 1) / 400 == (if y % 400 == 0 {
        1int
    } else {
        0
    }));
    assert(y % 400 == 0 ==> y % 100 == 0);
    assert(y % 100 == 0 ==> y % 4 == 0);
}

/// Each month of a year follows the one before it: counting days goes on without a gap or an overlap
/// from the last day of a month to the first of the next.
pub proof fn law_months_follow_each_other(y: int, m: int)
    requires
        1 <= m < 12,
    ensures
        day_number(y, m, days_in_month(y, m)) + 1 == day_number(y, m + 1, 1),
{
}

/// The years follow each other likewise from the first of January 1970 on, and have 366 days where
/// their number is divided by four, but not by a hundred unless by four hundred, and else 365.
pub proof fn law_years_follow_each_other(y: int)
    ensures
        day_number(1970, 1, 1) == 0,
        day_number(y, 12, 31) + 1 == day_number(y + 1, 1, 1),
        day_number(y + 1, 1, 1) - day_number(y, 1, 1) == (if (y % 4 == 0 && y % 100 != 0) || y % 400
            == 0 {
            366
        } else {
            365int
        }),
{
    lemma_leap_step(y);
}

/// Going back from a time by an amount and as long forward again ends at the time; only where the
/// system clock does not reach back so far the time stays as it is.
pub proof fn law_going_back(time: Timestamp, amount: int)
    requires
        0 <= amount,
        time - amount <= i128::MAX,
    ensures
        time - amount >= -9_223_372_036_854_775_808_000_000_000 ==> back_by(time, amount) + amount
            == time,
        time - amount < -9_223_372_036_854_775_808_000_000_000 ==> back_by(time, amount) == time,
{
}

} // verus!
