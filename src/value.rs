use vstd::prelude::*;
use vstd::utf8::{decode_utf8, valid_utf8};

use chrono::{Datelike, Timelike};

use crate::error::ReplicationError;

verus! {

/// Column type code of `MYSQL_TYPE_TIMESTAMP2`.
pub const MYSQL_TYPE_TIMESTAMP2: u8 = 17;

/// Multiplier applied to the fractional part of a `TIMESTAMP2` payload to get nanoseconds.
pub const FRACTION_SCALE: u32 = 32;

/// A column value as the binlog row decoder produced it.
#[derive(Debug)]
pub enum RawValue {
    Null,
    Bytes(Vec<u8>),
    Int(i64),
    UInt(u64),
    /// An IEEE-754 single-precision number, by its bit pattern.
    Float(u32),
    /// An IEEE-754 double-precision number, by its bit pattern.
    Double(u64),
    Date { year: u16, month: u8, day: u8, hour: u8, minute: u8, second: u8, micros: u32 },
    Time { negative: bool, days: u32, hours: u8, minutes: u8, seconds: u8, micros: u32 },
}

/// A calendar date and time of day, without time zone.
#[derive(Debug, Clone, Copy, PartialEq, Eq, Structural)]
pub struct DateTime {
    pub year: i32,
    pub month: u32,
    pub day: u32,
    pub hour: u32,
    pub minute: u32,
    pub second: u32,
    pub nanosecond: u32,
}

/// A normalized value, as the storage engine downstream takes it.
#[derive(Debug)]
pub enum DfValue {
    Null,
    Int(i64),
    UnsignedInt(u64),
    /// A finite single-precision number, by its bit pattern.
    Float(u32),
    /// A finite double-precision number, by its bit pattern.
    Double(u64),
    Text(String),
    ByteArray(Vec<u8>),
    Timestamp(DateTime),
    Time { negative: bool, hours: u64, minutes: u8, seconds: u8, micros: u32 },
}

/// What a `RawValue` holds, over mathematical values.
pub ghost enum RawView {
    Null,
    Bytes(Seq<u8>),
    Int(int),
    UInt(int),
    Float(u32),
    Double(u64),
    Date { year: u16, month: u8, day: u8, hour: u8, minute: u8, second: u8, micros: u32 },
    Time { negative: bool, days: u32, hours: u8, minutes: u8, seconds: u8, micros: u32 },
}

/// What a `DfValue` holds, over mathematical values.
pub ghost enum EngineValue {
    Null,
    Int(int),
    UnsignedInt(int),
    Float(u32),
    Double(u64),
    Text(Seq<char>),
    ByteArray(Seq<u8>),
    Timestamp(DateTime),
    Time { negative: bool, hours: int, minutes: u8, seconds: u8, micros: u32 },
}

impl View for RawValue {
    type V = RawView;

    open spec fn view(&self) -> RawView {
        match self {
            RawValue::Null => RawView::Null,
            RawValue::Bytes(b) => RawView::Bytes(b@),
            RawValue::Int(i) => RawView::Int(*i as int),
            RawValue::UInt(u) => RawView::UInt(*u as int),
            RawValue::Float(f) => RawView::Float(*f),
            RawValue::Double(d) => RawView::Double(*d),
            RawValue::Date { year, month, day, hour, minute, second, micros } => RawView::Date {
                year: *year,
                month: *month,
                day: *day,
                hour: *hour,
                minute: *minute,
                second: *second,
                micros: *micros,
            },
            RawValue::Time { negative, days, hours, minutes, seconds, micros } => RawView::Time {
                negative: *negative,
                days: *days,
                hours: *hours,
                minutes: *minutes,
                seconds: *seconds,
                micros: *micros,
            },
        }
    }
}

impl View for DfValue {
    type V = EngineValue;

    open spec fn view(&self) -> EngineValue {
        match self {
            DfValue::Null => EngineValue::Null,
            DfValue::Int(i) => EngineValue::Int(*i as int),
            DfValue::UnsignedInt(u) => EngineValue::UnsignedInt(*u as int),
            DfValue::Float(f) => EngineValue::Float(*f),
            DfValue::Double(d) => EngineValue::Double(*d),
            DfValue::Text(s) => EngineValue::Text(s@),
            DfValue::ByteArray(b) => EngineValue::ByteArray(b@),
            DfValue::Timestamp(t) => EngineValue::Timestamp(*t),
            DfValue::Time { negative, hours, minutes, seconds, micros } => EngineValue::Time {
                negative: *negative,
                hours: *hours as int,
                minutes: *minutes,
                seconds: *seconds,
                micros: *micros,
            },
        }
    }
}

/// The proleptic Gregorian date (year, month, day) `days` days after 1970-01-01.
pub open spec fn civil_date(days: int) -> (int, int, int) {
    let z = days + 719468;
    let era = z / 146097;
    let doe = z - era * 146097;
    let yoe = (doe - doe / 1460 + doe / 36524 - doe / 146096) / 365;
    let doy = doe - (365 * yoe + yoe / 4 - yoe / 100);
    let mp = (5 * doy + 2) / 153;
    let day = doy - (153 * mp + 2) / 5 + 1;
    let month = if mp < 10 {
        mp + 3
    } else {
        mp - 9
    };
    (yoe + era * 400 + if month <= 2 {
        1int
    } else {
        0int
    }, month, day)
}

/// `t` is the calendar time `secs` seconds and `nanos` nanoseconds after the UNIX epoch.
pub open spec fn clock_matches(t: DateTime, secs: int, nanos: int) -> bool {
    &&& civil_date(secs / 86400) == (t.year as int, t.month as int, t.day as int)
    &&& t.hour == (secs % 86400) / 3600
    &&& t.minute == (secs % 3600) / 60
    &&& t.second == secs % 60
    &&& t.nanosecond == nanos
}

/// A timestamp made from a payload `At { secs, nanos }` is the calendar time they give.
pub open spec fn timestamp_clock(v: EngineValue, p: TimestampPayload) -> bool {
    match (v, p) {
        (EngineValue::Timestamp(t), TimestampPayload::At { secs, nanos }) => clock_matches(
            t,
            secs as int,
            nanos as int,
        ),
        _ => true,
    }
}

/// The UTC calendar time `secs` seconds and `nanos` nanoseconds after the UNIX epoch, or
/// `None` where the calendar cannot represent it.
pub uninterp spec fn utc_civil(secs: int, nanos: int) -> Option<DateTime>;

/// Relies on chrono's `DateTime::from_timestamp`: the calendar time of a UNIX timestamp in
/// UTC, `None` for seconds out of range or a nanosecond part of two seconds or more. The
/// date is the day count (`div_euclid`) taken through `NaiveDate::from_num_days_from_ce_opt`,
/// the proleptic Gregorian calendar; the time of day is the seconds modulo a day
/// (`rem_euclid`), with the nanoseconds as given. Which seconds are in range is left to
/// the name.
#[verifier::external_body]
fn utc_datetime(secs: i64, nanos: u32) -> (r: Option<DateTime>)
    ensures
        r == utc_civil(secs as int, nanos as int),
        nanos >= 2_000_000_000 ==> r is None,
        r matches Some(t) ==> clock_matches(t, secs as int, nanos as int),
{
    match chrono::DateTime::from_timestamp(secs, nanos) {
        Some(t) => Some(DateTime {
            year: t.year(),
            month: t.month(),
            day: t.day(),
            hour: t.hour(),
            minute: t.minute(),
            second: t.second(),
            nanosecond: t.nanosecond(),
        }),
        None => None,
    }
}

/// Relies on `String::from_utf8`: the text the bytes encode if they are valid UTF-8, else
/// the bytes back.
#[verifier::external_body]
pub(crate) fn utf8_string(b: Vec<u8>) -> (r: Result<String, Vec<u8>>)
    ensures
        r is Ok <==> valid_utf8(b@),
        r matches Ok(s) ==> s@ == decode_utf8(b@),
        r matches Err(v) ==> v@ == b@,
{
    String::from_utf8(b).map_err(|e| e.into_bytes())
}

pub open spec fn is_digit_byte(c: u8) -> bool {
    48 <= c <= 57
}

pub open spec fn digit_bytes(s: Seq<u8>) -> bool {
    s.len() >= 1 && forall|i: int| 0 <= i < s.len() ==> is_digit_byte(#[trigger] s[i])
}

/// The number a string of ASCII decimal digits denotes.
pub open spec fn byte_decimal(s: Seq<u8>) -> nat
    decreases s.len(),
{
    if s.len() == 0 {
        0
    } else {
        byte_decimal(s.drop_last()) * 10 + (s.last() - 48) as nat
    }
}

/// The integer an optional sign (`+` or `-`) and one or more ASCII digits denote.
pub open spec fn signed_decimal(s: Seq<u8>) -> Option<int> {
    if s.len() >= 1 && s[0] == 45 {
        if digit_bytes(s.drop_first()) {
            Some(-byte_decimal(s.drop_first()))
        } else {
            None
        }
    } else {
        unsigned_decimal(s)
    }
}

/// The integer an optional `+` and one or more ASCII digits denote.
pub open spec fn unsigned_decimal(s: Seq<u8>) -> Option<int> {
    if s.len() >= 1 && s[0] == 43 {
        if digit_bytes(s.drop_first()) {
            Some(byte_decimal(s.drop_first()) as int)
        } else {
            None
        }
    } else if digit_bytes(s) {
        Some(byte_decimal(s) as int)
    } else {
        None
    }
}

/// Index of the first `.` in `s` at or after index `i`.
pub open spec fn first_dot_from(s: Seq<u8>, i: int) -> Option<int>
    decreases s.len() - i,
{
    if i < 0 || i >= s.len() {
        None
    } else if s[i] == 46 {
        Some(i)
    } else {
        first_dot_from(s, i + 1)
    }
}

/// Index of the first `.` in `s`.
pub open spec fn first_dot(s: Seq<u8>) -> Option<int> {
    first_dot_from(s, 0)
}

/// What a `TIMESTAMP2` payload denotes.
#[derive(Debug, Clone, Copy, PartialEq, Eq, Structural)]
pub enum TimestampPayload {
    /// The reserved zero timestamp `0000-00-00 00:00:00`.
    Zero,
    /// A point in time, as seconds and nanoseconds after the UNIX epoch.
    At { secs: i64, nanos: u32 },
    /// A payload that is neither form.
    Malformed,
}

/// A signed decimal that fits an `i64`.
pub open spec fn signed_i64(s: Seq<u8>) -> Option<i64> {
    match signed_decimal(s) {
        Some(e) => if i64::MIN <= e <= i64::MAX {
            Some(e as i64)
        } else {
            None
        },
        None => None,
    }
}

/// An unsigned decimal that fits a `u32`.
pub open spec fn unsigned_u32(s: Seq<u8>) -> Option<u32> {
    match unsigned_decimal(s) {
        Some(e) => if e <= u32::MAX {
            Some(e as u32)
        } else {
            None
        },
        None => None,
    }
}

/// How a `TIMESTAMP2` payload reads. With metadata `[0]` it is a decimal number of
/// seconds, where `0` is the zero timestamp. With other metadata it is `<secs>.<frac>`,
/// and the fraction, read as an integer, is scaled by 32 to give nanoseconds.
pub open spec fn timestamp_payload(b: Seq<u8>, meta: Seq<u8>) -> TimestampPayload {
    if meta == seq![0u8] {
        match signed_i64(b) {
            Some(e) => if e == 0 {
                TimestampPayload::Zero
            } else {
                TimestampPayload::At { secs: e, nanos: 0 }
            },
            None => TimestampPayload::Malformed,
        }
    } else {
        match first_dot(b) {
            Some(i) => match (
                signed_i64(b.subrange(0, i)),
                unsigned_u32(b.subrange(i + 1, b.len() as int)),
            ) {
                (Some(secs), Some(frac)) => if frac * FRACTION_SCALE <= u32::MAX {
                    TimestampPayload::At { secs, nanos: (frac * FRACTION_SCALE) as u32 }
                } else {
                    TimestampPayload::Malformed
                },
                _ => TimestampPayload::Malformed,
            },
            None => TimestampPayload::Malformed,
        }
    }
}

/// The engine value of a `TIMESTAMP2` payload, `None` where it cannot be converted.
pub open spec fn timestamp_value(p: TimestampPayload) -> Option<EngineValue> {
    match p {
        TimestampPayload::Zero => Some(EngineValue::Null),
        TimestampPayload::At { secs, nanos } => match utc_civil(secs as int, nanos as int) {
            Some(t) => Some(EngineValue::Timestamp(t)),
            None => None,
        },
        TimestampPayload::Malformed => None,
    }
}

/// A finite number: its exponent bits are not all ones.
pub open spec fn finite_f32(bits: u32) -> bool {
    (bits / 0x80_0000) % 0x100 != 0xff
}

pub open spec fn finite_f64(bits: u64) -> bool {
    (bits / 0x10_0000_0000_0000) % 0x800 != 0x7ff
}

pub open spec fn is_leap_year(y: int) -> bool {
    (y % 4 == 0 && y % 100 != 0) || y % 400 == 0
}

pub open spec fn days_in_month(y: int, m: int) -> int {
    if m == 2 {
        if is_leap_year(y) {
            29
        } else {
            28
        }
    } else if m == 4 || m == 6 || m == 9 || m == 11 {
        30
    } else {
        31
    }
}

/// A date and time of day that the proleptic Gregorian calendar holds; the microseconds
/// may reach into a second second only as a leap second, at second 59.
pub open spec fn valid_date_time(
    year: int,
    month: int,
    day: int,
    hour: int,
    minute: int,
    second: int,
    micros: int,
) -> bool {
    &&& 1 <= month <= 12
    &&& 1 <= day <= days_in_month(year, month)
    &&& hour < 24
    &&& minute < 60
    &&& second < 60
    &&& (micros < 1_000_000 || (second == 59 && micros < 2_000_000))
}

/// The default conversion of a column value, `None` where it fails. These are this
/// library's own rules for the kinds that need no special handling.
pub open spec fn default_value(v: RawView) -> Option<EngineValue> {
    match v {
        RawView::Null => Some(EngineValue::Null),
        RawView::Bytes(b) => if valid_utf8(b) {
            Some(EngineValue::Text(decode_utf8(b)))
        } else {
            Some(EngineValue::ByteArray(b))
        },
        RawView::Int(i) => Some(EngineValue::Int(i)),
        RawView::UInt(u) => Some(EngineValue::UnsignedInt(u)),
        RawView::Float(f) => if finite_f32(f) {
            Some(EngineValue::Float(f))
        } else {
            None
        },
        RawView::Double(d) => if finite_f64(d) {
            Some(EngineValue::Double(d))
        } else {
            None
        },
        RawView::Date { year, month, day, hour, minute, second, micros } => if year == 0
            && month == 0 && day == 0 {
            Some(EngineValue::Null)
        } else if valid_date_time(
            year as int,
            month as int,
            day as int,
            hour as int,
            minute as int,
            second as int,
            micros as int,
        ) {
            Some(
                EngineValue::Timestamp(
                    DateTime {
                        year: year as i32,
                        month: month as u32,
                        day: day as u32,
                        hour: hour as u32,
                        minute: minute as u32,
                        second: second as u32,
                        nanosecond: (micros * 1000) as u32,
                    },
                ),
            )
        } else {
            None
        },
        RawView::Time { negative, days, hours, minutes, seconds, micros } => Some(
            EngineValue::Time {
                negative,
                hours: days * 24 + hours,
                minutes,
                seconds,
                micros,
            },
        ),
    }
}

/// The engine value of a column value of type `kind` with metadata `meta`, `None` where
/// the conversion fails.
pub open spec fn coerced(v: RawView, kind: u8, meta: Seq<u8>) -> Option<EngineValue> {
    match v {
        RawView::Bytes(b) => if kind == MYSQL_TYPE_TIMESTAMP2 {
            timestamp_value(timestamp_payload(b, meta))
        } else {
            default_value(v)
        },
        _ => default_value(v),
    }
}

/// The error of a failed conversion of a value of column type `kind`.
pub open spec fn is_coercion_error(e: ReplicationError, kind: u8) -> bool {
    e matches ReplicationError::Coercion { kind: k, .. } && k == kind
}

proof fn lemma_byte_decimal_grows(s: Seq<u8>, k: nat)
    requires
        k <= s.len(),
        forall|i: int| 0 <= i < s.len() ==> is_digit_byte(#[trigger] s[i]),
    ensures
        byte_decimal(s.subrange(0, k as int)) <= byte_decimal(s),
    decreases s.len() - k,
{
    if k < s.len() {
        let p = s.subrange(0, k as int);
        let q = s.subrange(0, (k + 1) as int);
        assert(q.drop_last() =~= p);
        assert(is_digit_byte(s[k as int]));
        assert(byte_decimal(q) >= byte_decimal(p)) by (nonlinear_arith)
            requires
                byte_decimal(q) == byte_decimal(p) * 10 + (q.last() - 48) as nat,
        ;
        lemma_byte_decimal_grows(s, k + 1);
    } else {
        assert(s.subrange(0, k as int) =~= s);
    }
}

/// The value of the ASCII digits `b[start..end]`, if there is at least one, all are digits
/// and the value fits a `u64`.
fn parse_digit_run(b: &[u8], start: usize, end: usize) -> (r: Option<u64>)
    requires
        start <= end <= b@.len(),
    ensures
        r is Some <==> digit_bytes(b@.subrange(start as int, end as int)) && byte_decimal(
            b@.subrange(start as int, end as int),
        ) <= u64::MAX,
        r matches Some(v) ==> v == byte_decimal(b@.subrange(start as int, end as int)),
{
    let ghost full = b@.subrange(start as int, end as int);
    if start == end {
        return None;
    }
    let mut v: u64 = 0;
    let mut k: usize = start;
    while k < end
        invariant
            start <= k <= end,
            end <= b@.len(),
            full == b@.subrange(start as int, end as int),
            forall|i: int| start <= i < k ==> is_digit_byte(#[trigger] b@[i]),
            v == byte_decimal(b@.subrange(start as int, k as int)),
        decreases end - k,
    {
        let c = b[k];
        let ghost pre = b@.subrange(start as int, k as int);
        let ghost next = b@.subrange(start as int, (k + 1) as int);
        proof {
            assert(next.drop_last() =~= pre);
        }
        if c < 48 || c > 57 {
            proof {
                assert(!is_digit_byte(full[k - start]));
            }
            return None;
        }
        let d = (c - 48) as u64;
        if v > (u64::MAX - d) / 10 {
            proof {
                assert(v * 10 + d > u64::MAX) by (nonlinear_arith)
                    requires
                        v > (u64::MAX - d) / 10,
                        d < 10,
                ;
                if digit_bytes(full) {
                    assert(full.subrange(0, (k + 1 - start) as int) =~= next);
                    lemma_byte_decimal_grows(full, (k + 1 - start) as nat);
                }
            }
            return None;
        }
        v = v * 10 + d;
        k = k + 1;
    }
    proof {
        assert forall|i: int| 0 <= i < full.len() implies is_digit_byte(#[trigger] full[i]) by {
            assert(full[i] == b@[start + i]);
        }
    }
    Some(v)
}

/// `b[start..end]` read as an optional `+` and one or more digits, if it fits a `u32`.
fn parse_u32(b: &[u8], start: usize, end: usize) -> (r: Option<u32>)
    requires
        start <= end <= b@.len(),
    ensures
        r == unsigned_u32(b@.subrange(start as int, end as int)),
{
    let ghost s = b@.subrange(start as int, end as int);
    let digits_from = if start < end && b[start] == 43 {
        start + 1
    } else {
        start
    };
    proof {
        if digits_from == start + 1 {
            assert(s.drop_first() =~= b@.subrange(digits_from as int, end as int));
        }
    }
    match parse_digit_run(b, digits_from, end) {
        Some(v) => if v <= u32::MAX as u64 {
            Some(v as u32)
        } else {
            None
        },
        None => None,
    }
}

/// `b[start..end]` read as an optional sign and one or more digits, if it fits an `i64`.
fn parse_i64(b: &[u8], start: usize, end: usize) -> (r: Option<i64>)
    requires
        start <= end <= b@.len(),
    ensures
        r == signed_i64(b@.subrange(start as int, end as int)),
{
    let ghost s = b@.subrange(start as int, end as int);
    let negative = start < end && b[start] == 45;
    let digits_from = if start < end && (b[start] == 45 || b[start] == 43) {
        start + 1
    } else {
        start
    };
    proof {
        if digits_from == start + 1 {
            assert(s.drop_first() =~= b@.subrange(digits_from as int, end as int));
        }
    }
    match parse_digit_run(b, digits_from, end) {
        Some(m) => if negative {
            if m <= 0x8000_0000_0000_0000 {
                if m == 0x8000_0000_0000_0000 {
                    Some(i64::MIN)
                } else {
                    Some(-(m as i64))
                }
            } else {
                None
            }
        } else if m <= i64::MAX as u64 {
            Some(m as i64)
        } else {
            None
        },
        None => {
            proof {
                let t = b@.subrange(digits_from as int, end as int);
                if digit_bytes(t) {
                    assert(byte_decimal(t) > u64::MAX);
                }
            }
            None
        },
    }
}

/// Index of the first `.` in `b`.
fn find_first_dot(b: &[u8]) -> (r: Option<usize>)
    ensures
        r is Some ==> first_dot(b@) == Some(r->0 as int) && r->0 < b@.len(),
        r is None ==> first_dot(b@) is None,
{
    let mut i: usize = 0;
    while i < b.len()
        invariant
            i <= b@.len(),
            first_dot(b@) == first_dot_from(b@, i as int),
        decreases b@.len() - i,
    {
        if b[i] == 46 {
            return Some(i);
        }
        i = i + 1;
    }
    None
}

/// Reads a `TIMESTAMP2` payload: with metadata `[0]` a number of seconds (`0` being the
/// zero timestamp), else `<secs>.<frac>` with the fraction scaled by 32 into nanoseconds.
pub fn parse_timestamp_payload(buf: &[u8], meta: &[u8]) -> (r: TimestampPayload)
    ensures
        r == timestamp_payload(buf@, meta@),
{
    let len = buf.len();
    if meta.len() == 1 && meta[0] == 0 {
        assert(meta@ =~= seq![0u8]);
        assert(buf@.subrange(0, len as int) =~= buf@);
        match parse_i64(buf, 0, len) {
            Some(e) => if e == 0 {
                TimestampPayload::Zero
            } else {
                TimestampPayload::At { secs: e, nanos: 0 }
            },
            None => TimestampPayload::Malformed,
        }
    } else {
        assert(meta@ != seq![0u8]) by {
            if meta@ == seq![0u8] {
                assert(meta@.len() == 1 && meta@[0] == 0);
            }
        }
        let dot = match find_first_dot(buf) {
            Some(d) => d,
            None => return TimestampPayload::Malformed,
        };
        let secs = parse_i64(buf, 0, dot);
        let frac = parse_u32(buf, dot + 1, len);
        match (secs, frac) {
            (Some(secs), Some(frac)) => if frac <= u32::MAX / FRACTION_SCALE {
                TimestampPayload::At { secs, nanos: frac * FRACTION_SCALE }
            } else {
                TimestampPayload::Malformed
            },
            _ => TimestampPayload::Malformed,
        }
    }
}

/// The engine value of the calendar time that a `TIMESTAMP2` value of column type `kind`
/// stands for; `None` (no such calendar time) is a conversion error.
pub fn timestamp_from_civil(civil: Option<DateTime>, kind: u8) -> (r: Result<
    DfValue,
    ReplicationError,
>)
    ensures
        match civil {
            Some(t) => r matches Ok(v) && v@ == EngineValue::Timestamp(t),
            None => r matches Err(e) && is_coercion_error(e, kind),
        },
{
    match civil {
        Some(t) => Ok(DfValue::Timestamp(t)),
        None => Err(
            ReplicationError::Coercion {
                kind,
                message: String::from_str("timestamp out of range"),
            },
        ),
    }
}

fn coercion_error(kind: u8) -> (e: ReplicationError)
    ensures
        is_coercion_error(e, kind),
{
    ReplicationError::Coercion { kind, message: String::from_str("unable to coerce value") }
}

fn leap_year(y: u16) -> (r: bool)
    ensures
        r == is_leap_year(y as int),
{
    (y % 4 == 0 && y % 100 != 0) || y % 400 == 0
}

fn month_length(y: u16, m: u8) -> (r: u8)
    ensures
        r == days_in_month(y as int, m as int),
{
    if m == 2 {
        if leap_year(y) {
            29
        } else {
            28
        }
    } else if m == 4 || m == 6 || m == 9 || m == 11 {
        30
    } else {
        31
    }
}

/// The default conversion of a column value of column type `kind`, by this library's own
/// rules (see `default_value`): bytes become text when they are valid UTF-8 and a byte
/// array otherwise; floating-point numbers must be finite; a date becomes a timestamp,
/// the all-zero date NULL and an impossible date an error; a time counts its days as hours.
pub fn default_conversion(val: &RawValue, kind: u8) -> (r: Result<DfValue, ReplicationError>)
    ensures
        match r {
            Ok(x) => default_value(val@) == Some(x@),
            Err(e) => default_value(val@) is None && is_coercion_error(e, kind),
        },
{
    match val {
        RawValue::Null => Ok(DfValue::Null),
        RawValue::Bytes(b) => match utf8_string(b.clone()) {
            Ok(s) => Ok(DfValue::Text(s)),
            Err(v) => Ok(DfValue::ByteArray(v)),
        },
        RawValue::Int(i) => Ok(DfValue::Int(*i)),
        RawValue::UInt(u) => Ok(DfValue::UnsignedInt(*u)),
        RawValue::Float(f) => if (*f / 0x80_0000) % 0x100 != 0xff {
            Ok(DfValue::Float(*f))
        } else {
            Err(coercion_error(kind))
        },
        RawValue::Double(d) => if (*d / 0x10_0000_0000_0000) % 0x800 != 0x7ff {
            Ok(DfValue::Double(*d))
        } else {
            Err(coercion_error(kind))
        },
        RawValue::Date { year, month, day, hour, minute, second, micros } => {
            if *year == 0 && *month == 0 && *day == 0 {
                Ok(DfValue::Null)
            } else if 1 <= *month && *month <= 12 && 1 <= *day && *day <= month_length(
                *year,
                *month,
            ) && *hour < 24 && *minute < 60 && *second < 60 && (*micros < 1_000_000 || (
            *second == 59 && *micros < 2_000_000)) {
                Ok(
                    DfValue::Timestamp(
                        DateTime {
                            year: *year as i32,
                            month: *month as u32,
                            day: *day as u32,
                            hour: *hour as u32,
                            minute: *minute as u32,
                            second: *second as u32,
                            nanosecond: *micros * 1000,
                        },
                    ),
                )
            } else {
                Err(coercion_error(kind))
            }
        },
        RawValue::Time { negative, days, hours, minutes, seconds, micros } => Ok(
            DfValue::Time {
                negative: *negative,
                hours: *days as u64 * 24 + *hours as u64,
                minutes: *minutes,
                seconds: *seconds,
                micros: *micros,
            },
        ),
    }
}

/// Converts a column value of column type `col_kind` with metadata `meta` into an engine
/// value. `TIMESTAMP2` payloads given as bytes are read by `parse_timestamp_payload` and
/// turned into UTC calendar time; every other value takes the default conversion.
pub fn binlog_val_to_noria_val(val: &RawValue, col_kind: u8, meta: &[u8]) -> (r: Result<
    DfValue,
    ReplicationError,
>)
    ensures
        match r {
            Ok(x) => coerced(val@, col_kind, meta@) == Some(x@),
            Err(e) => coerced(val@, col_kind, meta@) is None && is_coercion_error(e, col_kind),
        },
        match (r, val@) {
            (Ok(x), RawView::Bytes(b)) => col_kind == MYSQL_TYPE_TIMESTAMP2 ==> timestamp_clock(
                x@,
                timestamp_payload(b, meta@),
            ),
            _ => true,
        },
{
    match val {
        RawValue::Bytes(b) => if col_kind == MYSQL_TYPE_TIMESTAMP2 {
            match parse_timestamp_payload(b.as_slice(), meta) {
                TimestampPayload::Zero => Ok(DfValue::Null),
                TimestampPayload::At { secs, nanos } => timestamp_from_civil(
                    utc_datetime(secs, nanos),
                    col_kind,
                ),
                TimestampPayload::Malformed => Err(coercion_error(col_kind)),
            }
        } else {
            default_conversion(val, col_kind)
        },
        _ => default_conversion(val, col_kind),
    }
}

} // verus!
