//! Timestamps and calendar dates, and their canonical key encoding: the
//! RFC 3339 text of the instant, rendered in UTC, as UTF-8 bytes
//! (e.g. `2016-11-08T00:00:00+00:00`). RFC 3339 is used because, at a fixed
//! UTC offset, its byte-wise lexical order matches chronological order.

use vstd::prelude::*;
use crate::key::concat_bytes;
use crate::key::Key;
use crate::key::ToKey;
use crate::lex::lemma_concat_lex_lt;
use crate::lex::lex_lt;

verus! {

/// The byte of a single decimal digit `n`.
pub open spec fn digit_byte(n: int) -> u8 {
    (0x30 + n) as u8
}

/// `n` rendered as exactly two decimal digits, zero-padded.
pub open spec fn two_digits(n: int) -> Seq<u8> {
    seq![digit_byte(n / 10), digit_byte(n % 10)]
}

/// `n` rendered as exactly four decimal digits, zero-padded.
pub open spec fn four_digits(n: int) -> Seq<u8> {
    two_digits(n / 100) + two_digits(n % 100)
}

/// The fixed `+00:00` offset suffix of a UTC-rendered RFC 3339 timestamp.
pub open spec fn utc_suffix() -> Seq<u8> {
    seq![0x2bu8, 0x30u8, 0x30u8, 0x3au8, 0x30u8, 0x30u8]
}

/// Whether `y` is a leap year in the proleptic Gregorian calendar.
pub open spec fn is_leap_year(y: int) -> bool {
    (y % 4 == 0 && y % 100 != 0) || y % 400 == 0
}

/// The number of days of month `m` in year `y`.
pub open spec fn days_in_month(y: int, m: int) -> int {
    if m == 2 {
        if is_leap_year(y) {
            29
        } else {
            28
        }
    } else if m == 4 || m == 6 || m == 9 || m == 11 {
        30
    } else {
        31
    }
}

/// An instant in UTC, at whole-second resolution, within the four-digit-year
/// range that RFC 3339 renders.
#[derive(PartialEq, Eq, Structural, Clone, Copy, Debug)]
pub struct Timestamp {
    pub year: u16,
    pub month: u8,
    pub day: u8,
    pub hour: u8,
    pub minute: u8,
    pub second: u8,
}

/// A calendar date, UTC-anchored, with no time of day.
///
/// A timezone-naive date is taken as already being in UTC: no shifting is
/// applied when it is promoted to a timestamp. Callers whose naive dates mean
/// local time must convert before building keys, or chronologically close
/// keys may sort out of order.
#[derive(PartialEq, Eq, Structural, Clone, Copy, Debug)]
pub struct CalendarDate {
    pub year: u16,
    pub month: u8,
    pub day: u8,
}

/// The RFC 3339 encoding of `t`, split at its fixed-width fields and
/// separators.
pub open spec fn rfc3339_chunks(t: Timestamp) -> Seq<Seq<u8>> {
    seq![
        four_digits(t.year as int),
        seq![0x2du8],
        two_digits(t.month as int),
        seq![0x2du8],
        two_digits(t.day as int),
        seq![0x54u8],
        two_digits(t.hour as int),
        seq![0x3au8],
        two_digits(t.minute as int),
        seq![0x3au8],
        two_digits(t.second as int),
        utc_suffix(),
    ]
}

/// The canonical key encoding of `t`: the bytes of
/// `YYYY-MM-DDThh:mm:ss+00:00`.
pub open spec fn rfc3339_bytes(t: Timestamp) -> Seq<u8> {
    four_digits(t.year as int) + seq![0x2du8] + two_digits(t.month as int) + seq![0x2du8]
        + two_digits(t.day as int) + seq![0x54u8] + two_digits(t.hour as int) + seq![0x3au8]
        + two_digits(t.minute as int) + seq![0x3au8] + two_digits(t.second as int) + utc_suffix()
}

proof fn lemma_rfc3339_chunks(t: Timestamp)
    ensures
        concat_bytes(rfc3339_chunks(t)) == rfc3339_bytes(t),
{
    reveal_with_fuel(concat_bytes, 13);
    assert(concat_bytes(rfc3339_chunks(t)) =~= rfc3339_bytes(t));
}

/// `t1` names an earlier instant than `t2`: the timestamps differ and the
/// most significant differing field is smaller in `t1`.
pub open spec fn chronologically_before(t1: Timestamp, t2: Timestamp) -> bool {
    if t1.year != t2.year {
        t1.year < t2.year
    } else if t1.month != t2.month {
        t1.month < t2.month
    } else if t1.day != t2.day {
        t1.day < t2.day
    } else if t1.hour != t2.hour {
        t1.hour < t2.hour
    } else if t1.minute != t2.minute {
        t1.minute < t2.minute
    } else {
        t1.second < t2.second
    }
}

fn days_in_month_count(year: u16, month: u8) -> (d: u8)
    ensures
        d as int == days_in_month(year as int, month as int),
{
    if month == 2 {
        if (year % 4 == 0 && year % 100 != 0) || year % 400 == 0 {
            29
        } else {
            28
        }
    } else if month == 4 || month == 6 || month == 9 || month == 11 {
        30
    } else {
        31
    }
}

fn push_two_digits(v: &mut Vec<u8>, n: u8)
    ensures
        final(v)@ == old(v)@ + two_digits(n as int),
{
    v.push(0x30 + n / 10);
    v.push(0x30 + n % 10);
    proof {
        assert(v@ =~= old(v)@ + two_digits(n as int));
    }
}

fn push_four_digits(v: &mut Vec<u8>, n: u16)
    ensures
        final(v)@ == old(v)@ + four_digits(n as int),
{
    let hi: u16 = n / 100;
    let lo: u16 = n % 100;
    v.push((0x30 + hi / 10) as u8);
    v.push((0x30 + hi % 10) as u8);
    v.push((0x30 + lo / 10) as u8);
    v.push((0x30 + lo % 10) as u8);
    proof {
        assert(v@ =~= old(v)@ + four_digits(n as int));
    }
}

impl Timestamp {
    /// The fields name a real instant: a valid proleptic Gregorian date with
    /// a four-digit year, and a time of day within bounds.
    pub open spec fn wf(&self) -> bool {
        &&& self.year <= 9999
        &&& 1 <= self.month <= 12
        &&& 1 <= self.day <= days_in_month(self.year as int, self.month as int)
        &&& self.hour <= 23
        &&& self.minute <= 59
        &&& self.second <= 59
    }

    /// Returns the timestamp with the given fields exactly when they name a
    /// real instant, and nothing otherwise.
    pub fn new(year: u16, month: u8, day: u8, hour: u8, minute: u8, second: u8) -> (r: Option<
        Timestamp,
    >)
        ensures
            ({
                let t = Timestamp { year, month, day, hour, minute, second };
                r == if t.wf() {
                    Some(t)
                } else {
                    None::<Timestamp>
                }
            }),
    {
        let ok = year <= 9999 && 1 <= month && month <= 12 && 1 <= day && day
            <= days_in_month_count(year, month) && hour <= 23 && minute <= 59 && second <= 59;
        if ok {
            Some(Timestamp { year, month, day, hour, minute, second })
        } else {
            None
        }
    }
}

/// A timestamp encodes as the RFC 3339 text of its instant, in UTC, as
/// UTF-8 bytes.
impl ToKey for Timestamp {
    open spec fn key_bytes(&self) -> Seq<u8> {
        rfc3339_bytes(*self)
    }

    fn to_key(&self) -> (k: Key) {
        let mut v: Vec<u8> = Vec::new();
        push_four_digits(&mut v, self.year);
        v.push(0x2d);
        push_two_digits(&mut v, self.month);
        v.push(0x2d);
        push_two_digits(&mut v, self.day);
        v.push(0x54);
        push_two_digits(&mut v, self.hour);
        v.push(0x3a);
        push_two_digits(&mut v, self.minute);
        v.push(0x3a);
        push_two_digits(&mut v, self.second);
        v.push(0x2b);
        v.push(0x30);
        v.push(0x30);
        v.push(0x3a);
        v.push(0x30);
        v.push(0x30);
        proof {
            assert(v@ =~= rfc3339_bytes(*self));
        }
        Key(v)
    }
}

impl CalendarDate {
    /// The fields name a real date: a valid proleptic Gregorian date with a
    /// four-digit year.
    pub open spec fn wf(&self) -> bool {
        &&& self.year <= 9999
        &&& 1 <= self.month <= 12
        &&& 1 <= self.day <= days_in_month(self.year as int, self.month as int)
    }

    /// The timestamp this date promotes to: the same date with a zero
    /// time of day (midnight, UTC).
    pub open spec fn midnight(&self) -> Timestamp {
        Timestamp {
            year: self.year,
            month: self.month,
            day: self.day,
            hour: 0,
            minute: 0,
            second: 0,
        }
    }

    /// Returns the date with the given fields exactly when they name a real
    /// date, and nothing otherwise.
    pub fn new(year: u16, month: u8, day: u8) -> (r: Option<CalendarDate>)
        ensures
            ({
                let d = CalendarDate { year, month, day };
                r == if d.wf() {
                    Some(d)
                } else {
                    None::<CalendarDate>
                }
            }),
    {
        let ok = year <= 9999 && 1 <= month && month <= 12 && 1 <= day && day
            <= days_in_month_count(year, month);
        if ok {
            Some(CalendarDate { year, month, day })
        } else {
            None
        }
    }

    /// Promotes this date to the timestamp at midnight UTC of the same day.
    pub fn to_timestamp(&self) -> (t: Timestamp)
        ensures
            t == self.midnight(),
    {
        Timestamp {
            year: self.year,
            month: self.month,
            day: self.day,
            hour: 0,
            minute: 0,
            second: 0,
        }
    }
}

/// A calendar date encodes by promotion: a zero time of day (00:00:00, UTC)
/// is appended, and the resulting timestamp's encoding rule applies.
impl ToKey for CalendarDate {
    open spec fn key_bytes(&self) -> Seq<u8> {
        rfc3339_bytes(self.midnight())
    }

    fn to_key(&self) -> (k: Key) {
        self.to_timestamp().to_key()
    }
}

proof fn lemma_two_digits_lt(m: int, n: int)
    requires
        0 <= m < n < 100,
    ensures
        lex_lt(two_digits(m), two_digits(n)),
{
    vstd::arithmetic::div_mod::lemma_div_is_ordered(m, n, 10);
    if m / 10 == n / 10 {
        vstd::arithmetic::div_mod::lemma_fundamental_div_mod(m, 10);
        vstd::arithmetic::div_mod::lemma_fundamental_div_mod(n, 10);
        assert(m % 10 < n % 10);
        assert(two_digits(m).drop_first() =~= seq![digit_byte(m % 10)]);
        assert(two_digits(n).drop_first() =~= seq![digit_byte(n % 10)]);
        assert(lex_lt(seq![digit_byte(m % 10)], seq![digit_byte(n % 10)]));
    } else {
        assert(two_digits(m)[0] < two_digits(n)[0]);
    }
}

proof fn lemma_four_digits_lt(m: int, n: int)
    requires
        0 <= m < n < 10000,
    ensures
        lex_lt(four_digits(m), four_digits(n)),
{
    vstd::arithmetic::div_mod::lemma_div_is_ordered(m, n, 100);
    if m / 100 == n / 100 {
        vstd::arithmetic::div_mod::lemma_fundamental_div_mod(m, 100);
        vstd::arithmetic::div_mod::lemma_fundamental_div_mod(n, 100);
        assert(m % 100 < n % 100);
        lemma_two_digits_lt(m % 100, n % 100);
        crate::lex::lemma_lex_lt_prepend(
            two_digits(m / 100),
            two_digits(m % 100),
            two_digits(n % 100),
        );
    } else {
        lemma_two_digits_lt(m / 100, n / 100);
        crate::lex::lemma_lex_lt_append(
            two_digits(m / 100),
            two_digits(n / 100),
            two_digits(m % 100),
            two_digits(n % 100),
        );
    }
}

/// Law: timestamp normalization. A UTC-anchored calendar date and the
/// explicit timestamp at midnight UTC of that date encode to byte-identical
/// keys.
pub proof fn lemma_date_normalization(d: CalendarDate, t: Timestamp)
    requires
        t.year == d.year,
        t.month == d.month,
        t.day == d.day,
        t.hour == 0,
        t.minute == 0,
        t.second == 0,
    ensures
        d.key_bytes() == t.key_bytes(),
{
    assert(t == d.midnight());
}

/// Law: composite build equivalence. A calendar date part and its
/// midnight-timestamp part are interchangeable under any common tail of
/// further encoded parts.
pub proof fn lemma_composite_build_equivalence(d: CalendarDate, t: Timestamp, tail: Seq<u8>)
    requires
        t.year == d.year,
        t.month == d.month,
        t.day == d.day,
        t.hour == 0,
        t.minute == 0,
        t.second == 0,
    ensures
        d.key_bytes() + tail == t.key_bytes() + tail,
{
    lemma_date_normalization(d, t);
}

/// Law: chronological-to-lexical order preservation. For two valid UTC
/// timestamps, the chronologically earlier one's encoding is smaller under
/// byte-wise lexical ordering.
pub proof fn lemma_order_preservation(t1: Timestamp, t2: Timestamp)
    requires
        t1.wf(),
        t2.wf(),
        chronologically_before(t1, t2),
    ensures
        lex_lt(rfc3339_bytes(t1), rfc3339_bytes(t2)),
{
    let xs = rfc3339_chunks(t1);
    let ys = rfc3339_chunks(t2);
    lemma_rfc3339_chunks(t1);
    lemma_rfc3339_chunks(t2);
    if t1.year != t2.year {
        lemma_four_digits_lt(t1.year as int, t2.year as int);
        lemma_concat_lex_lt(xs, ys, 0);
    } else if t1.month != t2.month {
        lemma_two_digits_lt(t1.month as int, t2.month as int);
        lemma_concat_lex_lt(xs, ys, 2);
    } else if t1.day != t2.day {
        lemma_two_digits_lt(t1.day as int, t2.day as int);
        lemma_concat_lex_lt(xs, ys, 4);
    } else if t1.hour != t2.hour {
        lemma_two_digits_lt(t1.hour as int, t2.hour as int);
        lemma_concat_lex_lt(xs, ys, 6);
    } else if t1.minute != t2.minute {
        lemma_two_digits_lt(t1.minute as int, t2.minute as int);
        lemma_concat_lex_lt(xs, ys, 8);
    } else {
        lemma_two_digits_lt(t1.second as int, t2.second as int);
        lemma_concat_lex_lt(xs, ys, 10);
    }
}

} // verus!
