//! The timestamp of a freeze, `YYYYMMDDTHHMMSSNNNNNN±ZZZZ`, and the instant it
//! stands for.
//!
//! The library reads the fields out of the text. Which instant a calendar date
//! and a time of day denote is the calendar's business and is asked of the
//! `chrono` crate.

use vstd::prelude::*;
use vstd::string::StringSliceAdditionalSpecFns;
use chrono::{FixedOffset, TimeZone, Timelike, Utc};
use crate::error::{BeadError, ErrorKind};
use crate::text::catenate;

verus! {

/// A point in time: whole seconds since 1970-01-01T00:00:00 UTC, and the
/// nanoseconds into that second.
#[derive(Clone, Copy, Debug, PartialEq, Eq, Structural)]
pub struct Instant {
    pub secs: i64,
    pub nanos: u32,
}

impl Instant {
    /// `self` is not later than `other`.
    pub open spec fn le(self, other: Instant) -> bool {
        self.secs < other.secs || (self.secs == other.secs && self.nanos <= other.nanos)
    }

    /// Whether `self` is not later than `other`.
    pub fn at_or_before(&self, other: &Instant) -> (b: bool)
        ensures
            b == self.le(*other),
    {
        self.secs < other.secs || (self.secs == other.secs && self.nanos <= other.nanos)
    }

    /// Whether `self` is later than `other`.
    pub fn after(&self, other: &Instant) -> (b: bool)
        ensures
            b == !self.le(*other),
    {
        !self.at_or_before(other)
    }
}

/// The fields of a timestamp as written, before any calendar is asked.
/// `offset` is the zone's distance east of UTC in seconds.
#[derive(Clone, Copy, Debug, PartialEq, Eq, Structural)]
pub struct TimestampFields {
    pub year: i32,
    pub month: u32,
    pub day: u32,
    pub hour: u32,
    pub minute: u32,
    pub second: u32,
    pub microsecond: u32,
    pub offset: i32,
}

/// The byte is one of `0` to `9`.
pub open spec fn is_digit(b: u8) -> bool {
    48 <= b <= 57
}

/// The number that the decimal digits `s` write; `None` where `s` is empty or
/// holds anything but digits.
pub open spec fn digits_value(s: Seq<u8>) -> Option<int>
    decreases s.len(),
{
    if s.len() == 0 || !is_digit(s.last()) {
        None
    } else if s.len() == 1 {
        Some(s.last() - 48)
    } else {
        match digits_value(s.drop_last()) {
            Some(v) => Some(10 * v + (s.last() - 48)),
            None => None,
        }
    }
}

/// The fields that the bytes `b` of a timestamp write. The text is 26 bytes:
/// four digits of year, two each of month and day, the letter `T`, two digits
/// each of hour, minute and second, six of microseconds, and the zone: `+` for
/// east of UTC or `-` for west, two digits of hours and two of minutes.
/// Anything else writes nothing.
pub open spec fn fields_of(b: Seq<u8>) -> Option<TimestampFields> {
    if b.len() != 26 || b[8] != 84 || (b[21] != 43 && b[21] != 45) {
        None
    } else {
        match (
            digits_value(b.subrange(0, 4)),
            digits_value(b.subrange(4, 6)),
            digits_value(b.subrange(6, 8)),
            digits_value(b.subrange(9, 11)),
            digits_value(b.subrange(11, 13)),
            digits_value(b.subrange(13, 15)),
            digits_value(b.subrange(15, 21)),
            digits_value(b.subrange(22, 24)),
            digits_value(b.subrange(24, 26)),
        ) {
            (
                Some(year),
                Some(month),
                Some(day),
                Some(hour),
                Some(minute),
                Some(second),
                Some(micro),
                Some(hours),
                Some(minutes),
            ) => {
                let sign: int = if b[21] == 43 { 1 } else { -1 };
                Some(
                    TimestampFields {
                        year: year as i32,
                        month: month as u32,
                        day: day as u32,
                        hour: hour as u32,
                        minute: minute as u32,
                        second: second as u32,
                        microsecond: micro as u32,
                        offset: (sign * (hours * 3600 + minutes * 60)) as i32,
                    },
                )
            },
            _ => None,
        }
    }
}

/// The instant that `chrono` gives for the local date and time of day in the
/// zone `offset` seconds east of UTC, with `nano` nanoseconds into the second;
/// `None` where it knows no such date or time.
pub uninterp spec fn utc_instant(
    year: int,
    month: int,
    day: int,
    hour: int,
    minute: int,
    second: int,
    nano: int,
    offset: int,
) -> Option<Instant>;

/// The zone offsets that exist: less than a day either way.
pub open spec fn offset_in_range(offset: int) -> bool {
    -86_400 < offset < 86_400
}

/// The instant that the fields denote, or `None` where the zone is out of range
/// or the calendar knows no such date and time.
pub open spec fn instant_of(f: TimestampFields) -> Option<Instant> {
    if offset_in_range(f.offset as int) {
        utc_instant(
            f.year as int,
            f.month as int,
            f.day as int,
            f.hour as int,
            f.minute as int,
            f.second as int,
            f.microsecond * 1000,
            f.offset as int,
        )
    } else {
        None
    }
}

/// The instant that the bytes of a timestamp denote.
pub open spec fn parsed(b: Seq<u8>) -> Option<Instant> {
    match fields_of(b) {
        Some(f) => instant_of(f),
        None => None,
    }
}

/// Largest number that `n` decimal digits can write.
pub open spec fn all_nines(n: nat) -> int
    decreases n,
{
    if n == 0 {
        0
    } else {
        10 * all_nines((n - 1) as nat) + 9
    }
}

/// Digits write a number from 0 to the one that as many nines write.
pub proof fn lemma_digits_bound(s: Seq<u8>)
    ensures
        digits_value(s) is Some ==> 0 <= digits_value(s)->Some_0 <= all_nines(s.len()),
    decreases s.len(),
{
    if s.len() > 1 {
        lemma_digits_bound(s.drop_last());
    } else if s.len() == 1 {
        assert(all_nines(1) == 9) by {
            reveal_with_fuel(all_nines, 2);
        }
    }
}

/// `FixedOffset::east_opt`, `TimeZone::with_ymd_and_hms`, `DateTime::with_nanosecond`,
/// `DateTime::with_timezone`, `DateTime::timestamp` and `DateTime::timestamp_subsec_nanos`
/// of `chrono`, called in that order: the date and time of day are taken as local
/// to the zone and turned into seconds and nanoseconds since the epoch in UTC.
/// The claim is that the answer depends on nothing but the eight numbers, and
/// that the nanoseconds of an instant are those that were given.
#[verifier::external_body]
fn to_utc(f: &TimestampFields, nano: u32) -> (r: Option<Instant>)
    requires
        offset_in_range(f.offset as int),
        nano < 1_000_000_000,
    ensures
        r == utc_instant(
            f.year as int,
            f.month as int,
            f.day as int,
            f.hour as int,
            f.minute as int,
            f.second as int,
            nano as int,
            f.offset as int,
        ),
        r is Some ==> r->Some_0.nanos == nano,
{
    let zone = FixedOffset::east_opt(f.offset)?;
    let local = zone.with_ymd_and_hms(f.year, f.month, f.day, f.hour, f.minute, f.second).single()?;
    let utc = local.with_nanosecond(nano)?.with_timezone(&Utc);
    Some(Instant { secs: utc.timestamp(), nanos: utc.timestamp_subsec_nanos() })
}

/// Reads the digits `b[from..to]`.
fn read_digits(b: &[u8], from: usize, to: usize) -> (r: Option<u32>)
    requires
        from <= to <= b@.len(),
        to - from <= 6,
    ensures
        match digits_value(b@.subrange(from as int, to as int)) {
            Some(v) => r == Some(v as u32) && 0 <= v <= 999_999,
            None => r is None,
        },
{
    if from == to {
        return None;
    }
    let mut acc: u32 = 0;
    let mut i: usize = from;
    loop
        invariant
            from <= i < to <= b@.len(),
            to - from <= 6,
            i == from ==> acc == 0,
            i > from ==> digits_value(b@.subrange(from as int, i as int)) == Some(acc as int),
            0 <= acc <= all_nines((i - from) as nat),
            all_nines((i - from) as nat) <= 99_999,
        decreases to - i,
    {
        let c: u8 = b[i];
        let ghost next = b@.subrange(from as int, i + 1);
        assert(next.drop_last() =~= b@.subrange(from as int, i as int));
        if c < 48 || c > 57 {
            proof {
                lemma_digit_missing(b@.subrange(from as int, to as int), i - from);
            }
            return None;
        }
        assert(all_nines((i + 1 - from) as nat) <= 999_999) by {
            reveal_with_fuel(all_nines, 7);
        }
        acc = acc * 10 + (c - 48) as u32;
        i += 1;
        assert(i < to ==> all_nines((i - from) as nat) <= 99_999) by {
            reveal_with_fuel(all_nines, 7);
        }
        if i == to {
            return Some(acc);
        }
    }
}

/// Digits that hold something else at one place write no number.
pub proof fn lemma_digit_missing(s: Seq<u8>, at: int)
    requires
        0 <= at < s.len(),
        !is_digit(s[at]),
    ensures
        digits_value(s) is None,
    decreases s.len(),
{
    if at < s.len() - 1 {
        lemma_digit_missing(s.drop_last(), at);
    }
}

/// The bytes have the form of a timestamp: 26 of them, `T` between date and
/// time, `+` or `-` in front of the zone, and a digit everywhere else.
pub open spec fn has_timestamp_form(b: Seq<u8>) -> bool {
    &&& b.len() == 26
    &&& b[8] == 84
    &&& (b[21] == 43 || b[21] == 45)
    &&& forall|i: int| 0 <= i < 26 && i != 8 && i != 21 ==> is_digit(#[trigger] b[i])
}

/// Digits, and at least one of them, write a number.
pub proof fn lemma_digits_present(s: Seq<u8>)
    requires
        s.len() > 0,
        forall|j: int| 0 <= j < s.len() ==> is_digit(#[trigger] s[j]),
    ensures
        digits_value(s) is Some,
    decreases s.len(),
{
    if s.len() > 1 {
        assert forall|j: int| 0 <= j < s.drop_last().len() implies is_digit(#[trigger] s.drop_last()[j]) by {
            assert(s.drop_last()[j] == s[j]);
        }
        lemma_digits_present(s.drop_last());
    }
}

/// What writes a number is digits throughout.
pub proof fn lemma_digits_only(s: Seq<u8>)
    requires
        digits_value(s) is Some,
    ensures
        s.len() > 0,
        forall|j: int| 0 <= j < s.len() ==> is_digit(#[trigger] s[j]),
{
    assert forall|j: int| 0 <= j < s.len() implies is_digit(#[trigger] s[j]) by {
        if !is_digit(s[j]) {
            lemma_digit_missing(s, j);
        }
    }
}

/// The fields of a part of the bytes are digits exactly where the bytes are.
proof fn lemma_part(b: Seq<u8>, from: int, to: int)
    requires
        0 <= from < to <= b.len(),
    ensures
        digits_value(b.subrange(from, to)) is Some <==> forall|i: int| from <= i < to ==> is_digit(#[trigger] b[i]),
{
    let s = b.subrange(from, to);
    if digits_value(s) is Some {
        lemma_digits_only(s);
        assert forall|i: int| from <= i < to implies is_digit(#[trigger] b[i]) by {
            assert(s[i - from] == b[i]);
        }
    }
    if forall|i: int| from <= i < to ==> is_digit(#[trigger] b[i]) {
        assert forall|j: int| 0 <= j < s.len() implies is_digit(#[trigger] s[j]) by {
            assert(s[j] == b[from + j]);
        }
        lemma_digits_present(s);
    }
}

/// Fields are read from exactly the texts that have the form of a timestamp:
/// nothing malformed is read, whatever the calendar would say to it.
pub proof fn lemma_fields_need_the_form(b: Seq<u8>)
    ensures
        fields_of(b) is Some <==> has_timestamp_form(b),
        parsed(b) is Some ==> has_timestamp_form(b),
{
    if b.len() == 26 {
        lemma_part(b, 0, 4);
        lemma_part(b, 4, 6);
        lemma_part(b, 6, 8);
        lemma_part(b, 9, 11);
        lemma_part(b, 11, 13);
        lemma_part(b, 13, 15);
        lemma_part(b, 15, 21);
        lemma_part(b, 22, 24);
        lemma_part(b, 24, 26);
    }
}

/// Reads the fields of a timestamp, without asking whether such a date exists.
pub fn timestamp_fields(timestamp: &str) -> (r: Option<TimestampFields>)
    ensures
        r == fields_of(timestamp.spec_bytes()),
        r is Some ==> r->Some_0.microsecond <= 999_999,
{
    let b: &[u8] = timestamp.as_bytes();
    if b.len() != 26 || b[8] != 84 || (b[21] != 43 && b[21] != 45) {
        return None;
    }
    proof {
        reveal_with_fuel(all_nines, 5);
        lemma_digits_bound(b@.subrange(0, 4));
        lemma_digits_bound(b@.subrange(22, 24));
        lemma_digits_bound(b@.subrange(24, 26));
    }
    let year = read_digits(b, 0, 4);
    let month = read_digits(b, 4, 6);
    let day = read_digits(b, 6, 8);
    let hour = read_digits(b, 9, 11);
    let minute = read_digits(b, 11, 13);
    let second = read_digits(b, 13, 15);
    let micro = read_digits(b, 15, 21);
    let zone_hours = read_digits(b, 22, 24);
    let zone_minutes = read_digits(b, 24, 26);
    match (year, month, day, hour, minute, second, micro, zone_hours, zone_minutes) {
        (
            Some(year),
            Some(month),
            Some(day),
            Some(hour),
            Some(minute),
            Some(second),
            Some(microsecond),
            Some(hours),
            Some(minutes),
        ) => {
            let sign: i32 = if b[21] == 43 { 1 } else { -1 };
            let offset: i32 = sign * (hours as i32 * 3600 + minutes as i32 * 60);
            Some(TimestampFields { year: year as i32, month, day, hour, minute, second, microsecond, offset })
        },
        _ => None,
    }
}

/// The error for a timestamp that cannot be read.
fn malformed(message: &str) -> (e: BeadError)
    ensures
        e@.kind == ErrorKind::InvalidInput,
{
    BeadError::InvalidInput(message.to_owned())
}

/// The error for a timestamp whose fields cannot be read: it names the first
/// field that is no number.
fn unreadable(timestamp: &str) -> (e: BeadError)
    ensures
        e@.kind == ErrorKind::InvalidInput,
{
    let b: &[u8] = timestamp.as_bytes();
    if b.len() != 26 || b[8] != 84 {
        BeadError::InvalidInput(catenate("Invalid timestamp: ", timestamp))
    } else if read_digits(b, 0, 4).is_none() {
        malformed("Invalid year in timestamp")
    } else if read_digits(b, 4, 6).is_none() {
        malformed("Invalid month in timestamp")
    } else if read_digits(b, 6, 8).is_none() {
        malformed("Invalid day in timestamp")
    } else if read_digits(b, 9, 11).is_none() {
        malformed("Invalid hour in timestamp")
    } else if read_digits(b, 11, 13).is_none() {
        malformed("Invalid minute in timestamp")
    } else if read_digits(b, 13, 15).is_none() {
        malformed("Invalid second in timestamp")
    } else if read_digits(b, 15, 21).is_none() {
        malformed("Invalid microsecond in timestamp")
    } else {
        malformed("Invalid timezone offset")
    }
}

/// Turns the fields of a timestamp into an instant, given what the calendar
/// answered for them: the answer itself where the zone exists and the calendar
/// knew the date, an error otherwise.
pub fn instant_from_fields(f: &TimestampFields, answer: Option<Instant>) -> (r: Result<Instant, BeadError>)
    ensures
        r is Ok <==> offset_in_range(f.offset as int) && answer is Some,
        r is Ok ==> Some(r->Ok_0) == answer,
        r is Err ==> r->Err_0@.kind == ErrorKind::InvalidInput,
{
    if !(-86_400 < f.offset && f.offset < 86_400) {
        return Err(malformed("Invalid timezone offset"));
    }
    match answer {
        Some(instant) => Ok(instant),
        None => Err(malformed("Invalid datetime components")),
    }
}

/// Parses a timestamp into the instant it denotes. It succeeds exactly where
/// the text has the form of a timestamp, the zone is less than a day from
/// UTC, and the calendar knows the date and the time of day.
pub fn parse_timestamp(timestamp: &str) -> (r: Result<Instant, BeadError>)
    ensures
        r is Ok <==> parsed(timestamp.spec_bytes()) is Some,
        r is Ok ==> Some(r->Ok_0) == parsed(timestamp.spec_bytes()),
        r is Ok ==> r->Ok_0.nanos == fields_of(timestamp.spec_bytes())->Some_0.microsecond * 1000,
        r is Err ==> r->Err_0@.kind == ErrorKind::InvalidInput,
{
    match timestamp_fields(timestamp) {
        None => Err(unreadable(timestamp)),
        Some(f) => {
            if -86_400 < f.offset && f.offset < 86_400 {
                let answer = to_utc(&f, f.microsecond * 1000);
                instant_from_fields(&f, answer)
            } else {
                instant_from_fields(&f, None)
            }
        },
    }
}

} // verus!
