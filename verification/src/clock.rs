//! Points in time as local calendar dates.
//!
//! A point in time is the number of nanoseconds since the start of 1970 in UTC.
use crate::text::{decimal, digit};
use chrono::TimeZone;
use vstd::prelude::*;
use vstd::string::*;

verus! {

/// A date of the Gregorian calendar, which is extended to all years.
pub ghost struct CivilDate {
    pub year: int,
    pub month: int,
    pub day: int,
}

/// Does the year have a 29th of February?
pub open spec fn is_leap(year: int) -> bool {
    year % 4 == 0 && (year % 100 != 0 || year % 400 == 0)
}

/// The number of days in a month.
pub open spec fn days_in_month(year: int, month: int) -> int {
    if month == 2 {
        if is_leap(year) {
            29
        } else {
            28
        }
    } else if month == 4 || month == 6 || month == 9 || month == 11 {
        30
    } else {
        31
    }
}

/// The days of a year before the first of a month.
pub open spec fn days_before_month(year: int, month: int) -> int
    decreases month,
{
    if month <= 1 {
        0
    } else {
        days_before_month(year, month - 1) + days_in_month(year, month - 1)
    }
}

/// The days from the first day of the year 1 to the first day of a year.
pub open spec fn days_before_year(year: int) -> int {
    let y = year - 1;
    365 * y + y / 4 - y / 100 + y / 400
}

/// Is this a date that the calendar has?
pub open spec fn valid_date(d: CivilDate) -> bool {
    1 <= d.month <= 12 && 1 <= d.day <= days_in_month(d.year, d.month)
}

/// The number of a day, where the first of January of the year 1 has the number 1.
pub open spec fn day_number(d: CivilDate) -> int {
    days_before_year(d.year) + days_before_month(d.year, d.month) + d.day
}

/// The date of the day with a given number.
pub open spec fn date_of_day(number: int) -> CivilDate {
    choose|d: CivilDate| valid_date(d) && day_number(d) == number
}

/// The number of the first of January 1970.
pub open spec fn epoch_day() -> int {
    719163
}

/// Two decimal digits.
pub open spec fn two_digits(n: int) -> Seq<char> {
    seq![digit(n / 10), digit(n % 10)]
}

/// At least four decimal digits.
pub open spec fn four_digits(n: int) -> Seq<char> {
    if n > 9999 {
        decimal(n as nat)
    } else {
        two_digits(n / 100) + two_digits(n % 100)
    }
}

/// A year in at least four digits, with a sign where it lies outside 0 to 9999.
pub open spec fn year_text(year: int) -> Seq<char> {
    if year < 0 {
        "-"@ + four_digits(-year)
    } else if year > 9999 {
        "+"@ + four_digits(year)
    } else {
        four_digits(year)
    }
}

/// A local time, given in seconds since the start of 1970 on the local clock, as
/// `YYYY-MM-DD HH:MM`.
pub open spec fn minute_text(local_seconds: int) -> Seq<char> {
    let date = date_of_day(epoch_day() + local_seconds / 86400);
    let of_day = local_seconds % 86400;
    year_text(date.year) + "-"@ + two_digits(date.month) + "-"@ + two_digits(date.day) + " "@
        + two_digits(of_day / 3600) + ":"@ + two_digits(of_day % 3600 / 60)
}

/// The first second that chrono can date, the start of the year -262143.
pub const EARLIEST_SECOND: i64 = -8_334_601_228_800;

/// The last second that chrono can date, the end of the year 262142.
pub const LATEST_SECOND: i64 = 8_210_266_876_799;

/// The whole seconds of a point in time.
pub open spec fn seconds_of(nanos: int) -> int {
    nanos / 1_000_000_000
}

/// Can the point in time be shown as a date?
pub open spec fn has_date(nanos: int) -> bool {
    EARLIEST_SECOND <= seconds_of(nanos) <= LATEST_SECOND
}

/// Is this a difference between local time and UTC that a time zone can have?
pub open spec fn is_offset(offset: int) -> bool {
    -86400 < offset < 86400
}

/// `Local::offset_from_utc_datetime` of chrono, on a moment that `DateTime::from_timestamp`
/// makes: the seconds by which the local clock of the machine is ahead of UTC at
/// that moment. Which they are is up to the time zone that the machine is set to;
/// they come to less than a day. Time zone data of the machine that chrono cannot
/// use make it panic.
#[verifier::external_body]
pub(crate) fn local_offset(seconds: i64) -> (offset: i32)
    requires
        EARLIEST_SECOND <= seconds <= LATEST_SECOND,
    ensures
        is_offset(offset as int),
{
    let utc = chrono::DateTime::from_timestamp(seconds, 0).unwrap();
    chrono::Local.offset_from_utc_datetime(&utc.naive_utc()).local_minus_utc()
}

/// `DateTime::format` of chrono with `%Y-%m-%d %H:%M`, on the moment that
/// `DateTime::from_timestamp` makes, in the zone of `FixedOffset::east_opt`: date and
/// time of day in the Gregorian calendar on a clock that is `offset` seconds ahead
/// of UTC.
#[verifier::external_body]
fn chrono_minute(seconds: i64, offset: i32) -> (res: String)
    requires
        EARLIEST_SECOND <= seconds <= LATEST_SECOND,
        is_offset(offset as int),
    ensures
        res@ == minute_text(seconds + offset),
{
    let zone = chrono::FixedOffset::east_opt(offset).unwrap();
    let utc = chrono::DateTime::from_timestamp(seconds, 0).unwrap();
    utc.with_timezone(&zone).format("%Y-%m-%d %H:%M").to_string()
}

fn whole_seconds(nanos: i128) -> (res: i128)
    ensures
        res == seconds_of(nanos as int),
{
    if nanos >= 0 {
        nanos / 1_000_000_000
    } else {
        let q: i128 = (-(nanos + 1)) / 1_000_000_000;
        -q - 1
    }
}

/// Can the point in time be shown as a date?
pub fn is_datable(nanos: i128) -> (res: bool)
    ensures
        res == has_date(nanos as int),
{
    let seconds: i128 = whole_seconds(nanos);
    EARLIEST_SECOND as i128 <= seconds && seconds <= LATEST_SECOND as i128
}

/// Shows a point in time on a clock that is `offset` seconds ahead of UTC.
pub fn format_minute(nanos: i128, offset: i32) -> (res: String)
    requires
        has_date(nanos as int),
        is_offset(offset as int),
    ensures
        res@ == minute_text(seconds_of(nanos as int) + offset),
{
    chrono_minute(whole_seconds(nanos) as i64, offset)
}

/// Is this an offset that the time zone of the machine has at that second? It is if
/// `local_offset` may return it.
pub closed spec fn is_local_offset(seconds: int, offset: int) -> bool {
    &&& -86400 < offset < 86400
    &&& EARLIEST_SECOND <= seconds <= LATEST_SECOND
    &&& call_ensures(local_offset, (seconds as i64,), offset as i32)
}

/// Is `text` what a point in time shows as on the local clock?
pub open spec fn is_time_text(time: Option<i128>, text: Seq<char>) -> bool {
    match time {
        Some(nanos) => exists|offset: int|
            {
                &&& #[trigger] is_local_offset(seconds_of(nanos as int), offset)
                &&& is_offset(offset)
                &&& text == minute_text(seconds_of(nanos as int) + offset)
            },
        None => text == "-"@,
    }
}

/// Shows the time of the last change on the local clock, or `-` where it is not known.
///
/// By how much the local clock is ahead of UTC at that time depends on the machine.
/// [`format_minute`] says what is shown for each difference.
pub fn format_time(time: Option<i128>) -> (res: String)
    requires
        time is Some ==> has_date(time->0 as int),
    ensures
        is_time_text(time, res@),
{
    match time {
        Some(nanos) => {
            let seconds: i64 = whole_seconds(nanos) as i64;
            let offset: i32 = local_offset(seconds);
            assert(is_local_offset(seconds as int, offset as int));
            format_minute(nanos, offset)
        },
        None => "-".to_string(),
    }
}

proof fn lemma_year_length(year: int)
    ensures
        days_before_year(year + 1) - days_before_year(year) == (if is_leap(year) {
            366int
        } else {
            365
        }),
{
}

proof fn lemma_month_table(year: int)
    ensures
        days_before_month(year, 1) == 0,
        days_before_month(year, 12) + 31 == (if is_leap(year) {
            366int
        } else {
            365
        }),
        forall|m: int|
            #![trigger days_before_month(year, m)]
            1 <= m <= 12 ==> 0 <= days_before_month(year, m) <= days_before_month(year, 12),
{
    reveal_with_fuel(days_before_month, 13);
}

/// Every day has a date.
pub proof fn every_day_has_a_date(number: int)
    ensures
        valid_date(date_of_day(number)),
        day_number(date_of_day(number)) == number,
{
    let d = lemma_date_exists(number);
    assert(valid_date(d) && day_number(d) == number);
}

proof fn lemma_date_exists(number: int) -> (d: CivilDate)
    ensures
        valid_date(d),
        day_number(d) == number,
    decreases (if number >= 1 {
            number - 1
        } else {
            1 - number
        }),
{
    if number == 1 {
        CivilDate { year: 1, month: 1, day: 1 }
    } else if number > 1 {
        let e = lemma_date_exists(number - 1);
        lemma_month_table(e.year);
        lemma_year_length(e.year);
        if e.day < days_in_month(e.year, e.month) {
            CivilDate { day: e.day + 1, ..e }
        } else if e.month < 12 {
            CivilDate { year: e.year, month: e.month + 1, day: 1 }
        } else {
            lemma_month_table(e.year + 1);
            CivilDate { year: e.year + 1, month: 1, day: 1 }
        }
    } else {
        let e = lemma_date_exists(number + 1);
        lemma_month_table(e.year);
        lemma_month_table(e.year - 1);
        lemma_year_length(e.year - 1);
        if e.day > 1 {
            CivilDate { day: e.day - 1, ..e }
        } else if e.month > 1 {
            CivilDate {
                year: e.year,
                month: e.month - 1,
                day: days_in_month(e.year, e.month - 1),
            }
        } else {
            CivilDate { year: e.year - 1, month: 12, day: 31 }
        }
    }
}

proof fn lemma_years_grow(a: int, b: int)
    requires
        a <= b,
    ensures
        days_before_year(a) <= days_before_year(b),
    decreases b - a,
{
    if a < b {
        lemma_years_grow(a, b - 1);
        lemma_year_length(b - 1);
    }
}

proof fn lemma_months_grow(year: int, a: int, b: int)
    requires
        1 <= a < b,
    ensures
        days_before_month(year, a) + days_in_month(year, a) <= days_before_month(year, b),
    decreases b - a,
{
    if a + 1 < b {
        lemma_months_grow(year, a, b - 1);
    }
}

proof fn lemma_day_in_year(d: CivilDate)
    requires
        valid_date(d),
    ensures
        days_before_year(d.year) < day_number(d) <= days_before_year(d.year + 1),
{
    lemma_year_length(d.year);
    lemma_month_table(d.year);
    if d.month < 12 {
        lemma_months_grow(d.year, d.month, 12);
    }
}

/// No two dates share a day.
pub proof fn dates_have_their_own_days(a: CivilDate, b: CivilDate)
    requires
        valid_date(a),
        valid_date(b),
        day_number(a) == day_number(b),
    ensures
        a == b,
{
    lemma_day_in_year(a);
    lemma_day_in_year(b);
    if a.year < b.year {
        lemma_years_grow(a.year + 1, b.year);
    } else if b.year < a.year {
        lemma_years_grow(b.year + 1, a.year);
    } else if a.month < b.month {
        lemma_months_grow(a.year, a.month, b.month);
    } else if b.month < a.month {
        lemma_months_grow(a.year, b.month, a.month);
    }
}

/// The date that a day shows is the one date that the calendar gives it.
pub proof fn date_of_day_is_the_date(d: CivilDate)
    requires
        valid_date(d),
    ensures
        date_of_day(day_number(d)) == d,
{
    every_day_has_a_date(day_number(d));
    dates_have_their_own_days(date_of_day(day_number(d)), d);
}

/// Is this a decimal digit?
pub open spec fn is_digit(c: char) -> bool {
    '0' <= c <= '9'
}

/// In the years 0 to 9999 a point in time shows as `YYYY-MM-DD HH:MM`: sixteen
/// characters, digits but for the four separators.
pub proof fn time_text_has_its_shape(local_seconds: int)
    requires
        0 <= date_of_day(epoch_day() + local_seconds / 86400).year <= 9999,
    ensures
        minute_text(local_seconds).len() == 16,
        minute_text(local_seconds)[4] == '-',
        minute_text(local_seconds)[7] == '-',
        minute_text(local_seconds)[10] == ' ',
        minute_text(local_seconds)[13] == ':',
        forall|i: int|
            #![trigger minute_text(local_seconds)[i]]
            0 <= i < 16 && i != 4 && i != 7 && i != 10 && i != 13 ==> is_digit(
                minute_text(local_seconds)[i],
            ),
{
    reveal_strlit("-");
    reveal_strlit(" ");
    reveal_strlit(":");
    every_day_has_a_date(epoch_day() + local_seconds / 86400);
    let date = date_of_day(epoch_day() + local_seconds / 86400);
    let year = year_text(date.year);
    let of_day = local_seconds % 86400;
    let text = minute_text(local_seconds);
    assert(year.len() == 4);
    lemma_two_digits(date.year / 100);
    lemma_two_digits(date.year % 100);
    lemma_two_digits(date.month);
    lemma_two_digits(date.day);
    lemma_two_digits(of_day / 3600);
    lemma_two_digits(of_day % 3600 / 60);
    assert(text.len() == 16);
    assert(text[0] == year[0] && text[1] == year[1] && text[2] == year[2] && text[3] == year[3]);
    assert(text[5] == two_digits(date.month)[0] && text[6] == two_digits(date.month)[1]);
    assert(text[8] == two_digits(date.day)[0] && text[9] == two_digits(date.day)[1]);
    assert(text[11] == two_digits(of_day / 3600)[0] && text[12] == two_digits(of_day / 3600)[1]);
    assert(text[14] == two_digits(of_day % 3600 / 60)[0]);
    assert(text[15] == two_digits(of_day % 3600 / 60)[1]);
}

proof fn lemma_two_digits(n: int)
    requires
        0 <= n < 100,
    ensures
        two_digits(n).len() == 2,
        is_digit(two_digits(n)[0]),
        is_digit(two_digits(n)[1]),
{
}

/// A known time shows as the minute that it is on a clock which is ahead of UTC by just what
/// the time zone of the machine says for that second.
pub(crate) proof fn known_time_shows_on_the_local_clock(nanos: i128, text: Seq<char>)
    requires
        is_time_text(Some(nanos), text),
    ensures
        exists|seconds: i64, offset: i32|
            {
                &&& seconds * 1_000_000_000 <= nanos < (seconds + 1) * 1_000_000_000
                &&& #[trigger] call_ensures(local_offset, (seconds,), offset)
                &&& -86400 < offset < 86400
                &&& text == minute_text(seconds + offset)
            },
{
    let whole = seconds_of(nanos as int);
    let o = choose|o: int| #[trigger] is_local_offset(whole, o) && text == minute_text(whole + o);
    let (seconds, offset) = (whole as i64, o as i32);
    assert(call_ensures(local_offset, (seconds,), offset));
    assert(text == minute_text(seconds + offset));
}

/// Showing a known time asks the machine for its time zone at that second and shows the minute
/// on the clock of that zone, no other.
pub(crate) proof fn shown_time_is_the_local_one(nanos: i128, text: String)
    requires
        call_ensures(format_time, (Some(nanos),), text),
    ensures
        exists|seconds: i64, offset: i32|
            {
                &&& seconds * 1_000_000_000 <= nanos < (seconds + 1) * 1_000_000_000
                &&& #[trigger] call_ensures(local_offset, (seconds,), offset)
                &&& text@ == minute_text(seconds + offset)
            },
{
    known_time_shows_on_the_local_clock(nanos, text@);
}

/// A time that is not known shows as a dash.
pub proof fn unknown_time_shows_a_dash(text: Seq<char>)
    ensures
        is_time_text(None, text) == (text == seq!['-']),
{
    reveal_strlit("-");
    assert("-"@ == seq!['-']);
}

/// A point in time lies in its second, also before 1970.
pub proof fn time_lies_in_its_second(nanos: int)
    ensures
        seconds_of(nanos) * 1_000_000_000 <= nanos < (seconds_of(nanos) + 1) * 1_000_000_000,
{
}

proof fn lemma_centuries(year: int)
    ensures
        year % 400 == 0 ==> year % 4 == 0,
{
    vstd::arithmetic::div_mod::lemma_mod_mod(year, 4, 100);
}

/// The months have the lengths that they have, and February has a 29th in the years that
/// four divides, but for those that a hundred divides and four hundred does not.
#[verifier::spinoff_prover]
pub proof fn months_have_their_lengths(year: int, month: int)
    requires
        1 <= month <= 12,
    ensures
        month == 1 || month == 3 || month == 5 || month == 7 || month == 8 || month == 10 || month
            == 12 ==> days_in_month(year, month) == 31,
        month == 4 || month == 6 || month == 9 || month == 11 ==> days_in_month(year, month) == 30,
        month == 2 && year % 4 != 0 ==> days_in_month(year, month) == 28,
        month == 2 && year % 4 == 0 && year % 100 != 0 ==> days_in_month(year, month) == 29,
        month == 2 && year % 100 == 0 && year % 400 != 0 ==> days_in_month(year, month) == 28,
        month == 2 && year % 400 == 0 ==> days_in_month(year, month) == 29,
{
    lemma_centuries(year);
}

/// Each day has the number after that of the day before: within a month, from a month to
/// the next, and from a year to the next. The first of January 1970 is where times begin.
pub proof fn days_follow_each_other(year: int, month: int, day: int)
    requires
        1 <= month <= 12,
    ensures
        day_number(CivilDate { year, month, day: day + 1 }) == day_number(
            CivilDate { year, month, day },
        ) + 1,
        month < 12 ==> day_number(CivilDate { year, month: month + 1, day: 1 }) == day_number(
            CivilDate { year, month, day: days_in_month(year, month) },
        ) + 1,
        day_number(CivilDate { year: year + 1, month: 1, day: 1 }) == day_number(
            CivilDate { year, month: 12, day: 31 },
        ) + 1,
        day_number(CivilDate { year: 1970, month: 1, day: 1 }) == epoch_day(),
{
    lemma_year_length(year);
    lemma_month_table(year);
    lemma_month_table(year + 1);
    lemma_month_table(1970);
}

/// The minute of a local time shows the date of its day and the time on that day, digit by
/// digit: four for the year, two for the month, the day, the hour and the minute.
#[verifier::spinoff_prover]
pub proof fn minute_shows_date_and_time(date: CivilDate, hour: int, minute: int, second: int)
    requires
        valid_date(date),
        0 <= date.year <= 9999,
        0 <= hour < 24,
        0 <= minute < 60,
        0 <= second < 60,
    ensures
        minute_text(
            86400 * (day_number(date) - day_number(CivilDate { year: 1970, month: 1, day: 1 }))
                + 3600 * hour + 60 * minute + second,
        ) == seq![
            (48 + date.year / 1000) as char,
            (48 + date.year / 100 % 10) as char,
            (48 + date.year / 10 % 10) as char,
            (48 + date.year % 10) as char,
            '-',
            (48 + date.month / 10) as char,
            (48 + date.month % 10) as char,
            '-',
            (48 + date.day / 10) as char,
            (48 + date.day % 10) as char,
            ' ',
            (48 + hour / 10) as char,
            (48 + hour % 10) as char,
            ':',
            (48 + minute / 10) as char,
            (48 + minute % 10) as char,
        ],
{
    reveal_strlit("-");
    reveal_strlit(" ");
    reveal_strlit(":");
    days_follow_each_other(1970, 1, 1);
    let local = 86400 * (day_number(date) - epoch_day()) + 3600 * hour + 60 * minute + second;
    assert(local / 86400 == day_number(date) - epoch_day());
    assert(local % 86400 == 3600 * hour + 60 * minute + second);
    date_of_day_is_the_date(date);
    let y = date.year;
    assert(y / 100 / 10 == y / 1000);
    assert(y % 100 / 10 == y / 10 % 10);
    assert(y % 100 % 10 == y % 10);
}

/// A year beyond 9999 shows with a plus before its digits, and one before the year 0 with a
/// minus before at least four.
pub proof fn far_years_show_a_sign(year: int)
    ensures
        year > 9999 ==> year_text(year) == seq!['+'] + decimal(year as nat),
        year < -9999 ==> year_text(year) == seq!['-'] + decimal((-year) as nat),
        -9999 <= year < 0 ==> year_text(year) == seq![
            '-',
            (48 + (-year) / 1000) as char,
            (48 + (-year) / 100 % 10) as char,
            (48 + (-year) / 10 % 10) as char,
            (48 + (-year) % 10) as char,
        ],
{
    reveal_strlit("-");
    reveal_strlit("+");
    assert("-"@ == seq!['-']);
    assert("+"@ == seq!['+']);
    let y = -year;
    assert(y >= 0 ==> y / 100 / 10 == y / 1000);
    assert(y >= 0 ==> y % 100 / 10 == y / 10 % 10);
    assert(y >= 0 ==> y % 100 % 10 == y % 10);
}

} // verus!
