use vstd::prelude::*;
use crate::opt::{Opt, NAIVE_UTC, OMIT_MICROSECONDS, UTC_Z};
use crate::exc::SerializeError;

verus! {

// The RFC 3339 text of dates, times and datetimes, written into a
// fixed-capacity buffer of 32 bytes.

#[verifier::external_type_specification]
#[verifier::external_body]
#[verifier::reject_recursive_types(T)]
pub struct ExHeaplessVec<T, const N: usize>(heapless::Vec<T, N>);

/// The buffer that holds the text of a date, time or datetime.
pub type DateTimeBuffer = heapless::Vec<u8, 32>;

/// The bytes a buffer holds.
pub uninterp spec fn buffer_bytes(buf: heapless::Vec<u8, 32>) -> Seq<u8>;

/// `heapless::Vec::new`: an empty buffer.
#[verifier::external_body]
fn buffer_new() -> (buf: DateTimeBuffer)
    ensures
        buffer_bytes(buf) == Seq::<u8>::empty(),
{
    heapless::Vec::new()
}

/// `heapless::Vec::push`: appends the byte when fewer than 32 are held;
/// otherwise hands it back and leaves the buffer as it was.
#[verifier::external_body]
fn buffer_push(buf: &mut DateTimeBuffer, b: u8) -> (r: Result<(), u8>)
    ensures
        r is Ok <==> buffer_bytes(*old(buf)).len() < 32,
        r matches Err(x) ==> x == b,
        buffer_bytes(*final(buf)) == if r is Ok { buffer_bytes(*old(buf)).push(b) } else { buffer_bytes(*old(buf)) },
{
    buf.push(b)
}

/// `heapless::Vec::extend_from_slice`: appends the bytes when they all fit
/// in 32; otherwise fails and leaves the buffer as it was.
#[verifier::external_body]
fn buffer_extend(buf: &mut DateTimeBuffer, s: &[u8]) -> (r: Result<(), ()>)
    ensures
        r is Ok <==> buffer_bytes(*old(buf)).len() + s@.len() <= 32,
        buffer_bytes(*final(buf)) == if r is Ok { buffer_bytes(*old(buf)) + s@ } else { buffer_bytes(*old(buf)) },
{
    buf.extend_from_slice(s)
}

/// `heapless::Vec::as_slice`: the bytes held.
#[verifier::external_body]
fn buffer_as_slice(buf: &DateTimeBuffer) -> (s: &[u8])
    ensures
        s@ == buffer_bytes(*buf),
{
    buf.as_slice()
}

/// The decimal digits of `n`, most significant first, as ASCII bytes.
pub open spec fn digits_of(n: nat) -> Seq<u8>
    decreases n,
{
    if n < 10 {
        seq![(48 + n) as u8]
    } else {
        digits_of(n / 10).push((48 + n % 10) as u8)
    }
}

/// The decimal text of an integer: its digits, after `-` when negative.
pub open spec fn int_text(n: int) -> Seq<u8> {
    if n < 0 {
        seq![45u8] + digits_of((-n) as nat)
    } else {
        digits_of(n as nat)
    }
}

/// `itoa::Buffer::format` on an `i64`: the crate documents it as printing
/// the integer's decimal representation, which is its digits after `-` for
/// a negative value.
#[verifier::external_body]
pub(crate) fn itoa_format(n: i64) -> (text: Vec<u8>)
    ensures
        text@ == int_text(n as int),
{
    itoa::Buffer::new().format(n).as_bytes().to_vec()
}

/// A number written with at least two digits.
pub open spec fn two_digits(v: int) -> Seq<u8> {
    if v < 10 { seq![48u8] + int_text(v) } else { int_text(v) }
}

/// The fraction of a second, `.` and six digits, or nothing when it is zero.
pub open spec fn micro_text(us: nat) -> Seq<u8> {
    if us == 0 {
        seq![]
    } else {
        seq![46u8] + Seq::new((6 - digits_of(us).len()) as nat, |i: int| 48u8) + digits_of(us)
    }
}

/// `YYYY-MM-DD`.
pub open spec fn date_text(year: int, month: int, day: int) -> Seq<u8> {
    int_text(year) + seq![45u8] + two_digits(month) + seq![45u8] + two_digits(day)
}

/// `HH:MM:SS`, then the fraction of a second unless it is left out.
pub open spec fn time_text(hour: int, minute: int, second: int, microsecond: nat, opts: Opt) -> Seq<u8> {
    two_digits(hour) + seq![58u8] + two_digits(minute) + seq![58u8] + two_digits(second) + if opts
        & OMIT_MICROSECONDS != OMIT_MICROSECONDS {
        micro_text(microsecond)
    } else {
        seq![]
    }
}

/// A UTC offset of `secs` seconds in whole minutes, rounded to the nearest
/// minute with half a minute rounding up: RFC 3339 writes offsets in hours
/// and minutes, so the closest representable offset is written.
pub open spec fn offset_total_minutes(secs: int) -> int {
    (secs + 30) / 60
}

/// The rounded offset is the representable offset closest to the true one,
/// and it is written as hours and a minutes field from 00 to 59, the
/// rounding carrying into the hours.
pub proof fn lemma_offset_rounding(secs: int)
    requires
        0 <= secs,
    ensures
        secs - 30 < offset_total_minutes(secs) * 60 <= secs + 30,
        0 <= offset_total_minutes(secs) % 60 < 60,
        offset_total_minutes(secs) == (offset_total_minutes(secs) / 60) * 60 + offset_total_minutes(
            secs,
        ) % 60,
{
}

/// The UTC offset of a datetime: `Z` or `+00:00` for UTC, else the sign,
/// hours and minutes; nothing for a naive datetime unless it is to be
/// taken as UTC. The offset is `day` days and `second` seconds, as a
/// `timedelta` holds it.
pub open spec fn offset_text(has_tz: bool, day: int, second: int, opts: Opt) -> Seq<u8> {
    if has_tz || opts & NAIVE_UTC == NAIVE_UTC {
        if second == 0 {
            if opts & UTC_Z == UTC_Z {
                seq![90u8]
            } else {
                seq![43u8, 48u8, 48u8, 58u8, 48u8, 48u8]
            }
        } else {
            let secs = if day == -1 { 86400 - second } else { second };
            let sign = if day == -1 { 45u8 } else { 43u8 };
            let total = offset_total_minutes(secs);
            seq![sign] + two_digits(total / 60) + seq![58u8] + two_digits(total % 60)
        }
    } else {
        seq![]
    }
}

/// A date.
pub struct Date {
    pub year: i32,
    pub month: u8,
    pub day: u8,
}

/// A time of day, with whether it has a time zone, and the options.
pub struct Time {
    pub hour: u8,
    pub minute: u8,
    pub second: u8,
    pub microsecond: u32,
    pub has_tz: bool,
    pub opts: Opt,
}

/// Where a datetime's UTC offset comes from.
pub enum TzInfo {
    /// No time zone: a naive datetime.
    Naive,
    /// The offset its time zone gives, in days and seconds.
    Offset { day: i32, second: i32 },
    /// A time zone of a library that is not supported.
    Unsupported,
}

/// A datetime, its time zone's offset, and the options.
pub struct DateTime {
    pub year: i32,
    pub month: u8,
    pub day: u8,
    pub hour: u8,
    pub minute: u8,
    pub second: u8,
    pub microsecond: u32,
    pub tz: TzInfo,
    pub opts: Opt,
}

/// The libraries whose time zones give a UTC offset, each asked in its own
/// way.
pub enum TzLibrary {
    /// pendulum: the datetime's `utcoffset()`.
    Pendulum,
    /// pytz: `tzinfo.normalize(dt).utcoffset()`.
    Pytz,
    /// dateutil, arrow and `datetime.timezone`: `tzinfo.utcoffset(dt)`.
    Dateutil,
}

/// Which library a time zone belongs to, by the attributes it has: `convert`
/// (pendulum), `normalize` (pytz), `dst` (the others), asked in that order;
/// none of them means it is not supported.
pub fn tz_library(has_convert: bool, has_normalize: bool, has_dst: bool) -> (lib: Option<TzLibrary>)
    ensures
        has_convert ==> lib == Some(TzLibrary::Pendulum),
        !has_convert && has_normalize ==> lib == Some(TzLibrary::Pytz),
        !has_convert && !has_normalize && has_dst ==> lib == Some(TzLibrary::Dateutil),
        !has_convert && !has_normalize && !has_dst ==> lib is None,
{
    if has_convert {
        Some(TzLibrary::Pendulum)
    } else if has_normalize {
        Some(TzLibrary::Pytz)
    } else if has_dst {
        Some(TzLibrary::Dateutil)
    } else {
        None
    }
}

/// The text of a datetime, given the offset it uses.
pub open spec fn datetime_text(dt: DateTime, has_tz: bool, day: int, second: int) -> Seq<u8> {
    date_text(dt.year as int, dt.month as int, dt.day as int) + seq![84u8] + time_text(
        dt.hour as int,
        dt.minute as int,
        dt.second as int,
        dt.microsecond as nat,
        dt.opts,
    ) + offset_text(has_tz, day, second, dt.opts)
}

/// The text of a datetime, or nothing for a time zone that is not
/// supported.
pub open spec fn spec_datetime(dt: DateTime) -> Option<Seq<u8>> {
    match dt.tz {
        TzInfo::Naive => Some(datetime_text(dt, false, 0, 0)),
        TzInfo::Offset { day, second } => Some(datetime_text(dt, true, day as int, second as int)),
        TzInfo::Unsupported => None,
    }
}

/// `10^k`.
pub open spec fn pow10(k: nat) -> nat
    decreases k,
{
    if k == 0 { 1 } else { 10 * pow10((k - 1) as nat) }
}

pub proof fn lemma_digits_len(n: nat, k: nat)
    requires
        1 <= k,
        n < pow10(k),
    ensures
        1 <= digits_of(n).len() <= k,
    decreases n,
{
    if n >= 10 {
        assert(k >= 2) by {
            if k == 1 {
                assert(pow10(1) == 10) by {
                    reveal_with_fuel(pow10, 2);
                }
            }
        }
        assert(n / 10 < pow10((k - 1) as nat)) by {
            assert(pow10(k) == 10 * pow10((k - 1) as nat));
        }
        lemma_digits_len(n / 10, (k - 1) as nat);
    }
}

pub proof fn lemma_small_text_len(v: int)
    requires
        0 <= v < 1000,
    ensures
        two_digits(v).len() <= 3,
        v < 100 ==> two_digits(v).len() == 2,
        1 <= int_text(v).len() <= 3,
{
    reveal_with_fuel(pow10, 4);
    lemma_digits_len(v as nat, 3);
    if v < 100 {
        lemma_digits_len(v as nat, 2);
        if v < 10 {
            lemma_digits_len(v as nat, 1);
        }
    }
    if v >= 10 {
        assert(digits_of(v as nat) == digits_of((v / 10) as nat).push((48 + v % 10) as u8));
        lemma_digits_len((v / 10) as nat, 2);
    }
}

pub proof fn lemma_year_text_len(y: int)
    requires
        i32::MIN <= y <= i32::MAX,
    ensures
        int_text(y).len() <= 11,
{
    reveal_with_fuel(pow10, 11);
    if y < 0 {
        lemma_digits_len((-y) as nat, 10);
    } else {
        lemma_digits_len(y as nat, 10);
    }
}

/// Appends one byte; the buffer has room.
fn push_byte(buf: &mut DateTimeBuffer, b: u8)
    requires
        buffer_bytes(*old(buf)).len() < 32,
    ensures
        buffer_bytes(*final(buf)) == buffer_bytes(*old(buf)).push(b),
{
    let r = buffer_push(buf, b);
    proof {
        assert(r is Ok);
    }
}

/// Appends bytes; the buffer has room.
fn extend_bytes(buf: &mut DateTimeBuffer, s: &[u8])
    requires
        buffer_bytes(*old(buf)).len() + s@.len() <= 32,
    ensures
        buffer_bytes(*final(buf)) == buffer_bytes(*old(buf)) + s@,
{
    let r = buffer_extend(buf, s);
    proof {
        assert(r is Ok);
    }
}

/// Appends the decimal text of `n`.
fn write_int(buf: &mut DateTimeBuffer, n: i64)
    requires
        buffer_bytes(*old(buf)).len() + int_text(n as int).len() <= 32,
    ensures
        buffer_bytes(*final(buf)) == buffer_bytes(*old(buf)) + int_text(n as int),
{
    let text = itoa_format(n);
    extend_bytes(buf, text.as_slice());
}

/// Appends a number with at least two digits.
fn write_double_digit(buf: &mut DateTimeBuffer, value: i64)
    requires
        0 <= value,
        buffer_bytes(*old(buf)).len() + two_digits(value as int).len() <= 32,
    ensures
        buffer_bytes(*final(buf)) == buffer_bytes(*old(buf)) + two_digits(value as int),
{
    if value < 10 {
        push_byte(buf, 48u8);
    }
    write_int(buf, value);
    proof {
        assert(buffer_bytes(*buf) =~= buffer_bytes(*old(buf)) + two_digits(value as int));
    }
}

/// Appends the fraction of a second: `.` and six digits, unless it is zero.
fn write_microsecond(buf: &mut DateTimeBuffer, microsecond: u32)
    requires
        microsecond < 1_000_000,
        buffer_bytes(*old(buf)).len() + micro_text(microsecond as nat).len() <= 32,
    ensures
        buffer_bytes(*final(buf)) == buffer_bytes(*old(buf)) + micro_text(microsecond as nat),
{
    if microsecond != 0 {
        push_byte(buf, 46u8);
        let formatted = itoa_format(microsecond as i64);
        proof {
            reveal_with_fuel(pow10, 7);
            lemma_digits_len(microsecond as nat, 6);
        }
        let zeros: [u8; 6] = [48u8, 48u8, 48u8, 48u8, 48u8, 48u8];
        let pad = vstd::slice::slice_subrange(zeros.as_slice(), 0, 6 - formatted.len());
        proof {
            assert(pad@ =~= Seq::new((6 - digits_of(microsecond as nat).len()) as nat, |i: int| 48u8));
        }
        extend_bytes(buf, pad);
        extend_bytes(buf, formatted.as_slice());
        proof {
            assert(buffer_bytes(*buf) =~= buffer_bytes(*old(buf)) + micro_text(microsecond as nat));
        }
    }
}

/// Appends `HH:MM:SS` and the fraction of a second unless it is left out.
fn write_time(buf: &mut DateTimeBuffer, hour: u8, minute: u8, second: u8, microsecond: u32, opts: Opt)
    requires
        microsecond < 1_000_000,
        buffer_bytes(*old(buf)).len() + time_text(hour as int, minute as int, second as int, microsecond as nat, opts).len() <= 32,
    ensures
        buffer_bytes(*final(buf)) == buffer_bytes(*old(buf)) + time_text(
            hour as int,
            minute as int,
            second as int,
            microsecond as nat,
            opts,
        ),
{
    let ghost start = buffer_bytes(*buf);
    proof {
        lemma_small_text_len(hour as int);
        lemma_small_text_len(minute as int);
        lemma_small_text_len(second as int);
    }
    write_double_digit(buf, hour as i64);
    push_byte(buf, 58u8);
    write_double_digit(buf, minute as i64);
    push_byte(buf, 58u8);
    write_double_digit(buf, second as i64);
    if opts & OMIT_MICROSECONDS != OMIT_MICROSECONDS {
        write_microsecond(buf, microsecond);
    }
    proof {
        assert(buffer_bytes(*buf) =~= start + time_text(hour as int, minute as int, second as int, microsecond as nat, opts));
    }
}

/// Appends `YYYY-MM-DD`.
fn write_date(buf: &mut DateTimeBuffer, year: i32, month: u8, day: u8)
    requires
        buffer_bytes(*old(buf)).len() + date_text(year as int, month as int, day as int).len() <= 32,
    ensures
        buffer_bytes(*final(buf)) == buffer_bytes(*old(buf)) + date_text(year as int, month as int, day as int),
{
    let ghost start = buffer_bytes(*buf);
    write_int(buf, year as i64);
    push_byte(buf, 45u8);
    write_double_digit(buf, month as i64);
    push_byte(buf, 45u8);
    write_double_digit(buf, day as i64);
    proof {
        assert(buffer_bytes(*buf) =~= start + date_text(year as int, month as int, day as int));
    }
}

impl Date {
    pub fn new(year: i32, month: u8, day: u8) -> (d: Self)
        ensures
            d.year == year,
            d.month == month,
            d.day == day,
    {
        Date { year, month, day }
    }

    /// The text of the date, `YYYY-MM-DD`.
    pub fn serialize(&self) -> (text: Vec<u8>)
        ensures
            text@ == date_text(self.year as int, self.month as int, self.day as int),
    {
        let mut buf = buffer_new();
        proof {
            lemma_year_text_len(self.year as int);
            lemma_small_text_len(self.month as int);
            lemma_small_text_len(self.day as int);
        }
        write_date(&mut buf, self.year, self.month, self.day);
        proof {
            assert(buffer_bytes(buf) =~= date_text(self.year as int, self.month as int, self.day as int));
        }
        vstd::slice::slice_to_vec(buffer_as_slice(&buf))
    }
}

impl Time {
    pub fn new(hour: u8, minute: u8, second: u8, microsecond: u32, has_tz: bool, opts: Opt) -> (t: Self)
        ensures
            t.hour == hour,
            t.minute == minute,
            t.second == second,
            t.microsecond == microsecond,
            t.has_tz == has_tz,
            t.opts == opts,
    {
        Time { hour, minute, second, microsecond, has_tz, opts }
    }

    /// The text of the time, `HH:MM:SS` and the fraction of a second unless
    /// it is left out; a time with a time zone cannot be written.
    pub fn serialize(&self) -> (r: Result<Vec<u8>, SerializeError>)
        requires
            self.microsecond < 1_000_000,
        ensures
            self.has_tz ==> r matches Err(SerializeError::TimeHasTzinfo),
            !self.has_tz ==> (r matches Ok(text) && text@ == time_text(
                self.hour as int,
                self.minute as int,
                self.second as int,
                self.microsecond as nat,
                self.opts,
            )),
    {
        if self.has_tz {
            return Err(SerializeError::TimeHasTzinfo);
        }
        let mut buf = buffer_new();
        proof {
            lemma_small_text_len(self.hour as int);
            lemma_small_text_len(self.minute as int);
            lemma_small_text_len(self.second as int);
            reveal_with_fuel(pow10, 7);
            if self.microsecond != 0 {
                lemma_digits_len(self.microsecond as nat, 6);
            }
        }
        write_time(&mut buf, self.hour, self.minute, self.second, self.microsecond, self.opts);
        proof {
            assert(buffer_bytes(buf) =~= time_text(
                self.hour as int,
                self.minute as int,
                self.second as int,
                self.microsecond as nat,
                self.opts,
            ));
        }
        Ok(vstd::slice::slice_to_vec(buffer_as_slice(&buf)))
    }
}

/// Appends the UTC offset of a datetime.
fn write_offset(buf: &mut DateTimeBuffer, has_tz: bool, offset_day: i32, offset_second: i32, opts: Opt)
    requires
        0 <= offset_second < 86400,
        buffer_bytes(*old(buf)).len() + offset_text(has_tz, offset_day as int, offset_second as int, opts).len() <= 32,
    ensures
        buffer_bytes(*final(buf)) == buffer_bytes(*old(buf)) + offset_text(
            has_tz,
            offset_day as int,
            offset_second as int,
            opts,
        ),
{
    let ghost start = buffer_bytes(*buf);
    if has_tz || opts & NAIVE_UTC == NAIVE_UTC {
        if offset_second == 0 {
            if opts & UTC_Z == UTC_Z {
                push_byte(buf, 90u8);
            } else {
                let utc: [u8; 6] = [43u8, 48u8, 48u8, 58u8, 48u8, 48u8];
                proof {
                    assert(utc@ =~= seq![43u8, 48u8, 48u8, 58u8, 48u8, 48u8]);
                }
                extend_bytes(buf, utc.as_slice());
            }
        } else {
            let mut secs = offset_second;
            if offset_day == -1 {
                push_byte(buf, 45u8);
                secs = 86400 - offset_second;
            } else {
                push_byte(buf, 43u8);
            }
            let total_minutes = (secs + 30) / 60;
            let offset_hour = total_minutes / 60;
            let offset_minute = total_minutes % 60;
            proof {
                lemma_small_text_len(offset_hour as int);
                lemma_small_text_len(offset_minute as int);
            }
            write_double_digit(buf, offset_hour as i64);
            push_byte(buf, 58u8);
            write_double_digit(buf, offset_minute as i64);
        }
    }
    proof {
        assert(buffer_bytes(*buf) =~= start + offset_text(has_tz, offset_day as int, offset_second as int, opts));
    }
}

impl DateTime {
    pub fn new(
        year: i32,
        month: u8,
        day: u8,
        hour: u8,
        minute: u8,
        second: u8,
        microsecond: u32,
        tz: TzInfo,
        opts: Opt,
    ) -> (dt: Self)
        ensures
            dt == (DateTime { year, month, day, hour, minute, second, microsecond, tz, opts }),
    {
        DateTime { year, month, day, hour, minute, second, microsecond, tz, opts }
    }

    /// The text of the datetime: date, `T`, time, and the UTC offset; a time
    /// zone of a library that is not supported cannot be written.
    pub fn serialize(&self) -> (r: Result<Vec<u8>, SerializeError>)
        requires
            self.microsecond < 1_000_000,
            self.tz matches TzInfo::Offset { second, .. } ==> 0 <= second < 86400,
            spec_datetime(*self) matches Some(t) ==> t.len() <= 32,
        ensures
            match spec_datetime(*self) {
                Some(t) => r matches Ok(text) && text@ == t,
                None => r matches Err(SerializeError::DatetimeLibraryUnsupported),
            },
    {
        let (has_tz, offset_day, offset_second) = match self.tz {
            TzInfo::Naive => (false, 0i32, 0i32),
            TzInfo::Offset { day, second } => (true, day, second),
            TzInfo::Unsupported => {
                return Err(SerializeError::DatetimeLibraryUnsupported);
            },
        };
        let ghost total = datetime_text(*self, has_tz, offset_day as int, offset_second as int);
        let mut buf = buffer_new();
        write_date(&mut buf, self.year, self.month, self.day);
        push_byte(&mut buf, 84u8);
        write_time(&mut buf, self.hour, self.minute, self.second, self.microsecond, self.opts);
        write_offset(&mut buf, has_tz, offset_day, offset_second, self.opts);
        proof {
            assert(buffer_bytes(buf) =~= total);
        }
        Ok(vstd::slice::slice_to_vec(buffer_as_slice(&buf)))
    }
}

} // verus!
