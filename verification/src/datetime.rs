use vstd::arithmetic::div_mod::{lemma_fundamental_div_mod, lemma_fundamental_div_mod_converse};
use vstd::prelude::*;

verus! {

/// A local calendar time, as the staleness report renders it: plain fields,
/// already shifted into the user's time zone.
#[derive(Clone, Copy, Debug, PartialEq, Eq, Structural)]
pub struct CivilDateTime {
    pub year: u16,
    pub month: u8,
    pub day: u8,
    pub hour: u8,
    pub minute: u8,
    pub second: u8,
}

/// The decimal digit `d` as a character.
pub open spec fn digit(d: int) -> char {
    if d == 0 {
        '0'
    } else if d == 1 {
        '1'
    } else if d == 2 {
        '2'
    } else if d == 3 {
        '3'
    } else if d == 4 {
        '4'
    } else if d == 5 {
        '5'
    } else if d == 6 {
        '6'
    } else if d == 7 {
        '7'
    } else if d == 8 {
        '8'
    } else {
        '9'
    }
}

/// `n` zero-padded to two decimal digits.
pub open spec fn two_digits(n: int) -> Seq<char> {
    seq![digit(n / 10), digit(n % 10)]
}

/// `n` zero-padded to four decimal digits.
pub open spec fn four_digits(n: int) -> Seq<char> {
    seq![digit(n / 1000), digit((n / 100) % 10), digit((n / 10) % 10), digit(n % 10)]
}

/// The rendering of a calendar time: zero-padded `YYYY-MM-DD HH:MM:SS`, a
/// 24-hour clock and no time-zone suffix.
pub open spec fn formatted(dt: CivilDateTime) -> Seq<char> {
    four_digits(dt.year as int) + seq!['-'] + two_digits(dt.month as int) + seq!['-'] + two_digits(
        dt.day as int,
    ) + seq![' '] + two_digits(dt.hour as int) + seq![':'] + two_digits(dt.minute as int)
        + seq![':'] + two_digits(dt.second as int)
}

fn digit_str(d: u8) -> (r: &'static str)
    requires
        d < 10,
    ensures
        r@ =~= seq![digit(d as int)],
{
    proof {
        reveal_strlit("0");
        reveal_strlit("1");
        reveal_strlit("2");
        reveal_strlit("3");
        reveal_strlit("4");
        reveal_strlit("5");
        reveal_strlit("6");
        reveal_strlit("7");
        reveal_strlit("8");
        reveal_strlit("9");
    }
    match d {
        0 => "0",
        1 => "1",
        2 => "2",
        3 => "3",
        4 => "4",
        5 => "5",
        6 => "6",
        7 => "7",
        8 => "8",
        _ => "9",
    }
}

fn push_two_digits(s: &mut String, n: u8)
    requires
        n < 100,
    ensures
        final(s)@ == old(s)@ + two_digits(n as int),
{
    s.append(digit_str(n / 10));
    s.append(digit_str(n % 10));
    proof {
        assert(s@ =~= old(s)@ + two_digits(n as int));
    }
}

fn push_four_digits(s: &mut String, n: u16)
    requires
        n < 10000,
    ensures
        final(s)@ == old(s)@ + four_digits(n as int),
{
    s.append(digit_str((n / 1000) as u8));
    s.append(digit_str(((n / 100) % 10) as u8));
    s.append(digit_str(((n / 10) % 10) as u8));
    s.append(digit_str((n % 10) as u8));
    proof {
        assert(s@ =~= old(s)@ + four_digits(n as int));
    }
}

impl CivilDateTime {
    /// The field ranges a calendar time keeps: a four-digit year, real month
    /// and day numbers, and clock fields of a 24-hour day.
    pub open spec fn wf(&self) -> bool {
        &&& self.year <= 9999
        &&& 1 <= self.month <= 12
        &&& 1 <= self.day <= 31
        &&& self.hour <= 23
        &&& self.minute <= 59
        &&& self.second <= 59
    }

    /// Makes a calendar time out of plain fields, exactly when they lie in
    /// the ranges `wf` asks for.
    pub fn new(year: i32, month: u8, day: u8, hour: u8, minute: u8, second: u8) -> (r: Option<
        CivilDateTime,
    >)
        ensures
            if 0 <= year <= 9999 && 1 <= month <= 12 && 1 <= day <= 31 && hour <= 23 && minute
                <= 59 && second <= 59 {
                r == Some(
                    CivilDateTime { year: year as u16, month, day, hour, minute, second },
                ) && r.unwrap().wf()
            } else {
                r is None
            },
    {
        if 0 <= year && year <= 9999 && 1 <= month && month <= 12 && 1 <= day && day <= 31 && hour
            <= 23 && minute <= 59 && second <= 59 {
            Some(CivilDateTime { year: year as u16, month, day, hour, minute, second })
        } else {
            None
        }
    }
}

/// Renders a local calendar time as `formatted` says: zero-padded
/// `YYYY-MM-DD HH:MM:SS`.
pub fn format_datetime(dt: &CivilDateTime) -> (r: String)
    requires
        dt.wf(),
    ensures
        r@ == formatted(*dt),
{
    let mut s = String::new();
    push_four_digits(&mut s, dt.year);
    s.append("-");
    push_two_digits(&mut s, dt.month);
    s.append("-");
    push_two_digits(&mut s, dt.day);
    s.append(" ");
    push_two_digits(&mut s, dt.hour);
    s.append(":");
    push_two_digits(&mut s, dt.minute);
    s.append(":");
    push_two_digits(&mut s, dt.second);
    proof {
        reveal_strlit("-");
        reveal_strlit(" ");
        reveal_strlit(":");
        assert(s@ =~= formatted(*dt));
    }
    s
}

/// The whole days from `then_secs` up to `now_secs`, rounding towards minus
/// infinity: negative when `then_secs` lies in the future.
pub fn days_between(now_secs: i64, then_secs: i64) -> (r: i64)
    ensures
        r == (now_secs - then_secs) / 86400,
{
    if now_secs >= then_secs {
        let diff: u64 = ((now_secs as i128) - (then_secs as i128)) as u64;
        let q: u64 = diff / 86400;
        q as i64
    } else {
        let pos: u64 = ((then_secs as i128) - (now_secs as i128)) as u64;
        let q: u64 = pos / 86400;
        let rem: u64 = pos % 86400;
        if rem == 0 {
            proof {
                lemma_fundamental_div_mod(pos as int, 86400);
                lemma_fundamental_div_mod_converse(
                    now_secs - then_secs,
                    86400,
                    -(q as int),
                    0,
                );
            }
            -(q as i64)
        } else {
            proof {
                lemma_fundamental_div_mod(pos as int, 86400);
                lemma_fundamental_div_mod_converse(
                    now_secs - then_secs,
                    86400,
                    -(q as int) - 1,
                    86400 - (rem as int),
                );
            }
            -(q as i64) - 1
        }
    }
}

/// The day `year`-`month`-`day` denotes in the proleptic Gregorian calendar,
/// counted from 1970-01-01.
pub open spec fn days_from_civil(year: int, month: int, day: int) -> int {
    let shifted_year: int = if month <= 2 {
        year - 1
    } else {
        year
    };
    let era: int = shifted_year / 400;
    let year_of_era: int = shifted_year - era * 400;
    let shifted_month: int = if month > 2 {
        month - 3
    } else {
        month + 9
    };
    let day_of_year: int = (153 * shifted_month + 2) / 5 + day - 1;
    let day_of_era: int = year_of_era * 365 + year_of_era / 4 - year_of_era / 100 + day_of_year;
    era * 146097 + day_of_era - 719468
}

/// The Unix instant a civil time denotes, were its fields read in UTC.
pub open spec fn civil_secs(
    year: int,
    month: int,
    day: int,
    hour: int,
    minute: int,
    second: int,
) -> int {
    days_from_civil(year, month, day) * 86400 + hour * 3600 + minute * 60 + second
}

/// The least and greatest Unix instants the calendar conversion covers:
/// chrono's `DateTime::from_timestamp` answers `Some` exactly between the
/// first second of its earliest year and the last second of its latest.
pub const MIN_TIMESTAMP_SECS: i64 = -8334601228800;

/// See `MIN_TIMESTAMP_SECS`.
pub const MAX_TIMESTAMP_SECS: i64 = 8210266876799;

/// Instants lying at least a full day inside the years 1..=9999 (UTC): the
/// local time zone shifts the clock by strictly less than a day, so here the
/// local year keeps four digits.
pub const MIN_CIVIL_SECS: i64 = -62135510400;

/// See `MIN_CIVIL_SECS`.
pub const MAX_CIVIL_SECS: i64 = 253402214399;

/// Relies on chrono: `DateTime::from_timestamp` turns Unix seconds into a
/// UTC instant, `Some` exactly on `MIN_TIMESTAMP_SECS..=MAX_TIMESTAMP_SECS`;
/// `DateTime::with_timezone` shifts it into the machine's local time zone,
/// moving the clock by strictly less than one day; and the
/// `Datelike`/`Timelike` accessors read the shifted clock in the proleptic
/// Gregorian calendar, promising months in 1..=12, days in 1..=31, hours
/// below 24, and minutes and seconds below 60. So the fields denote, read
/// back through `civil_secs`, an instant strictly within one day of `secs`;
/// and inside `MIN_CIVIL_SECS..=MAX_CIVIL_SECS` the shifted year stays
/// within 1..=9999, whatever the time zone.
#[verifier::external_body]
fn local_clock_parts(secs: i64) -> (r: Option<(i32, u8, u8, u8, u8, u8)>)
    ensures
        r is Some <==> MIN_TIMESTAMP_SECS <= secs <= MAX_TIMESTAMP_SECS,
        r matches Some(p) ==> 1 <= p.1 <= 12 && 1 <= p.2 <= 31 && p.3 <= 23 && p.4 <= 59 && p.5
            <= 59,
        r matches Some(p) ==> secs - 86400 < civil_secs(
            p.0 as int,
            p.1 as int,
            p.2 as int,
            p.3 as int,
            p.4 as int,
            p.5 as int,
        ) < secs + 86400,
        r matches Some(p) ==> (MIN_CIVIL_SECS <= secs <= MAX_CIVIL_SECS ==> 1 <= p.0 <= 9999),
{
    match chrono::DateTime::<chrono::Utc>::from_timestamp(secs, 0) {
        Some(utc) => {
            let local = utc.with_timezone(&chrono::Local);
            Some((
                chrono::Datelike::year(&local),
                chrono::Datelike::month(&local) as u8,
                chrono::Datelike::day(&local) as u8,
                chrono::Timelike::hour(&local) as u8,
                chrono::Timelike::minute(&local) as u8,
                chrono::Timelike::second(&local) as u8,
            ))
        },
        None => None,
    }
}

/// The Unix instant `secs` as a local calendar time; `None` only when the
/// instant lies outside the range the calendar model covers, and never on
/// `MIN_CIVIL_SECS..=MAX_CIVIL_SECS`. The fields depend on the machine's
/// time zone, but always denote an instant strictly within one day of
/// `secs`, the time zone's greatest possible shift.
pub fn local_datetime(secs: i64) -> (r: Option<CivilDateTime>)
    ensures
        r matches Some(dt) ==> dt.wf(),
        MIN_CIVIL_SECS <= secs <= MAX_CIVIL_SECS ==> r is Some,
        r matches Some(dt) ==> secs - 86400 < civil_secs(
            dt.year as int,
            dt.month as int,
            dt.day as int,
            dt.hour as int,
            dt.minute as int,
            dt.second as int,
        ) < secs + 86400,
{
    match local_clock_parts(secs) {
        Some((year, month, day, hour, minute, second)) => CivilDateTime::new(
            year,
            month,
            day,
            hour,
            minute,
            second,
        ),
        None => None,
    }
}

} // verus!


