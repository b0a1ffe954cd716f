use vstd::prelude::*;
use crate::opt::Opt;

verus! {

/// The units of numpy's `datetime64` type.
#[derive(Clone, Copy, Debug, PartialEq, Eq, Structural)]
pub enum NumpyDatetimeUnit {
    NaT,
    Years,
    Months,
    Weeks,
    Days,
    Hours,
    Minutes,
    Seconds,
    Milliseconds,
    Microseconds,
    Nanoseconds,
    Picoseconds,
    Femtoseconds,
    Attoseconds,
    Generic,
}

/// The name of a unit.
pub open spec fn spec_unit_name(u: NumpyDatetimeUnit) -> Seq<char> {
    match u {
        NumpyDatetimeUnit::NaT => "NaT"@,
        NumpyDatetimeUnit::Years => "years"@,
        NumpyDatetimeUnit::Months => "months"@,
        NumpyDatetimeUnit::Weeks => "weeks"@,
        NumpyDatetimeUnit::Days => "days"@,
        NumpyDatetimeUnit::Hours => "hours"@,
        NumpyDatetimeUnit::Minutes => "minutes"@,
        NumpyDatetimeUnit::Seconds => "seconds"@,
        NumpyDatetimeUnit::Milliseconds => "milliseconds"@,
        NumpyDatetimeUnit::Microseconds => "microseconds"@,
        NumpyDatetimeUnit::Nanoseconds => "nanoseconds"@,
        NumpyDatetimeUnit::Picoseconds => "picoseconds"@,
        NumpyDatetimeUnit::Femtoseconds => "femtoseconds"@,
        NumpyDatetimeUnit::Attoseconds => "attoseconds"@,
        NumpyDatetimeUnit::Generic => "generic"@,
    }
}

/// The unit that numpy's code for a unit names (`Y`, `M`, `W`, `D`, `h`,
/// `m`, `s`, `ms`, `us`, `ns`, `ps`, `fs`, `as`, `generic`).
pub open spec fn spec_unit_of_code(code: Seq<u8>) -> Option<NumpyDatetimeUnit> {
    if code == seq![89u8] {
        Some(NumpyDatetimeUnit::Years)
    } else if code == seq![77u8] {
        Some(NumpyDatetimeUnit::Months)
    } else if code == seq![87u8] {
        Some(NumpyDatetimeUnit::Weeks)
    } else if code == seq![68u8] {
        Some(NumpyDatetimeUnit::Days)
    } else if code == seq![104u8] {
        Some(NumpyDatetimeUnit::Hours)
    } else if code == seq![109u8] {
        Some(NumpyDatetimeUnit::Minutes)
    } else if code == seq![115u8] {
        Some(NumpyDatetimeUnit::Seconds)
    } else if code == seq![109u8, 115u8] {
        Some(NumpyDatetimeUnit::Milliseconds)
    } else if code == seq![117u8, 115u8] {
        Some(NumpyDatetimeUnit::Microseconds)
    } else if code == seq![110u8, 115u8] {
        Some(NumpyDatetimeUnit::Nanoseconds)
    } else if code == seq![112u8, 115u8] {
        Some(NumpyDatetimeUnit::Picoseconds)
    } else if code == seq![102u8, 115u8] {
        Some(NumpyDatetimeUnit::Femtoseconds)
    } else if code == seq![97u8, 115u8] {
        Some(NumpyDatetimeUnit::Attoseconds)
    } else if code == seq![103u8, 101u8, 110u8, 101u8, 114u8, 105u8, 99u8] {
        Some(NumpyDatetimeUnit::Generic)
    } else {
        None
    }
}

/// The unit code inside a dtype description such as `<M8[ns]`: the bytes
/// from the fifth to the one before the last.
pub open spec fn descr_code(descr: Seq<u8>) -> Seq<u8> {
    descr.subrange(4, descr.len() - 1)
}

/// A date and time of day in UTC, as `jiff::civil::DateTime` holds it.
#[derive(Clone, Copy, Debug, PartialEq, Eq, Structural)]
pub struct CivilDateTime {
    pub year: i16,
    pub month: i8,
    pub day: i8,
    pub hour: i8,
    pub minute: i8,
    pub second: i8,
    pub subsec_nanosecond: i32,
}

/// The UTC date and time `second` seconds after the Unix epoch, if jiff can
/// represent that instant.
pub uninterp spec fn jiff_utc_from_second(second: int) -> Option<CivilDateTime>;

/// The same for milliseconds.
pub uninterp spec fn jiff_utc_from_millisecond(millisecond: int) -> Option<CivilDateTime>;

/// The same for microseconds.
pub uninterp spec fn jiff_utc_from_microsecond(microsecond: int) -> Option<CivilDateTime>;

/// The same for nanoseconds.
pub uninterp spec fn jiff_utc_from_nanosecond(nanosecond: int) -> Option<CivilDateTime>;

#[verifier::external_type_specification]
#[verifier::external_body]
pub struct ExJiffZoned(jiff::Zoned);

/// The date and time fields of a jiff zoned datetime, each read with its
/// getter; used by the wrappers below to hand them over as plain values.
#[verifier::external_body]
fn civil_parts(dt: jiff::Zoned) -> CivilDateTime {
    CivilDateTime {
        year: dt.year(),
        month: dt.month(),
        day: dt.day(),
        hour: dt.hour(),
        minute: dt.minute(),
        second: dt.second(),
        subsec_nanosecond: dt.subsec_nanosecond(),
    }
}

/// `jiff::Timestamp::from_second`, then its date and time in UTC: none when
/// the instant is out of jiff's range. What the date and time are is left
/// to jiff's calendar; the contract names it.
#[verifier::external_body]
fn utc_from_second(second: i64) -> (r: Option<CivilDateTime>)
    ensures
        r == jiff_utc_from_second(second as int),
{
    match jiff::Timestamp::from_second(second) {
        Ok(t) => Some(civil_parts(t.to_zoned(jiff::tz::TimeZone::UTC))),
        Err(_) => None,
    }
}

/// `jiff::Timestamp::from_millisecond`, then its date and time in UTC.
#[verifier::external_body]
fn utc_from_millisecond(millisecond: i64) -> (r: Option<CivilDateTime>)
    ensures
        r == jiff_utc_from_millisecond(millisecond as int),
{
    match jiff::Timestamp::from_millisecond(millisecond) {
        Ok(t) => Some(civil_parts(t.to_zoned(jiff::tz::TimeZone::UTC))),
        Err(_) => None,
    }
}

/// `jiff::Timestamp::from_microsecond`, then its date and time in UTC.
#[verifier::external_body]
fn utc_from_microsecond(microsecond: i64) -> (r: Option<CivilDateTime>)
    ensures
        r == jiff_utc_from_microsecond(microsecond as int),
{
    match jiff::Timestamp::from_microsecond(microsecond) {
        Ok(t) => Some(civil_parts(t.to_zoned(jiff::tz::TimeZone::UTC))),
        Err(_) => None,
    }
}

/// `jiff::Timestamp::from_nanosecond`, then its date and time in UTC.
#[verifier::external_body]
fn utc_from_nanosecond(nanosecond: i128) -> (r: Option<CivilDateTime>)
    ensures
        r == jiff_utc_from_nanosecond(nanosecond as int),
{
    match jiff::Timestamp::from_nanosecond(nanosecond) {
        Ok(t) => Some(civil_parts(t.to_zoned(jiff::tz::TimeZone::UTC))),
        Err(_) => None,
    }
}

/// Why a `datetime64` value cannot be written.
#[derive(Clone, Copy, Debug, PartialEq, Eq, Structural)]
pub enum NumpyDateTimeError {
    UnsupportedUnit(NumpyDatetimeUnit),
    Unrepresentable { unit: NumpyDatetimeUnit, val: i64 },
}

/// A `datetime64` value as a date and time, with the options to write it.
#[derive(Clone, Copy, Debug, PartialEq, Eq, Structural)]
pub struct NumpyDatetime64Repr {
    pub dt: CivilDateTime,
    pub opts: Opt,
}

/// The seconds in one of a unit that counts whole seconds.
pub open spec fn unit_seconds(u: NumpyDatetimeUnit) -> int {
    match u {
        NumpyDatetimeUnit::Weeks => 604800,
        NumpyDatetimeUnit::Days => 86400,
        NumpyDatetimeUnit::Hours => 3600,
        NumpyDatetimeUnit::Minutes => 60,
        _ => 1,
    }
}

/// Whether a value of a unit can be turned into a date without the
/// arithmetic overflowing: the year of a count of years, or the product of
/// a count of weeks, days, hours or minutes.
pub open spec fn datetime_defined(u: NumpyDatetimeUnit, val: int) -> bool {
    match u {
        NumpyDatetimeUnit::Years => val + 1970 <= i64::MAX,
        NumpyDatetimeUnit::Weeks | NumpyDatetimeUnit::Days | NumpyDatetimeUnit::Hours
        | NumpyDatetimeUnit::Minutes => i64::MIN <= val * unit_seconds(u) <= i64::MAX,
        _ => true,
    }
}

/// The date and time a value of a unit stands for, before the range of
/// years is checked: none when it cannot be represented.
pub open spec fn spec_civil(u: NumpyDatetimeUnit, val: int) -> Option<CivilDateTime> {
    match u {
        NumpyDatetimeUnit::Years => {
            let year = val + 1970;
            if 0 <= year <= 9999 {
                Some(CivilDateTime { year: year as i16, month: 1, day: 1, hour: 0, minute: 0, second: 0, subsec_nanosecond: 0 })
            } else {
                None
            }
        },
        NumpyDatetimeUnit::Months => {
            // Months count from January 1970, as numpy counts them: -1 is
            // December 1969 (the division rounds down).
            let year = val / 12 + 1970;
            let month = val % 12 + 1;
            if 0 <= year <= 9999 {
                Some(CivilDateTime { year: year as i16, month: month as i8, day: 1, hour: 0, minute: 0, second: 0, subsec_nanosecond: 0 })
            } else {
                None
            }
        },
        NumpyDatetimeUnit::Weeks | NumpyDatetimeUnit::Days | NumpyDatetimeUnit::Hours
        | NumpyDatetimeUnit::Minutes | NumpyDatetimeUnit::Seconds => jiff_utc_from_second(val * unit_seconds(u)),
        NumpyDatetimeUnit::Milliseconds => jiff_utc_from_millisecond(val),
        NumpyDatetimeUnit::Microseconds => jiff_utc_from_microsecond(val),
        _ => jiff_utc_from_nanosecond(val),
    }
}

/// Whether a unit can be turned into dates at all.
pub open spec fn unit_supported(u: NumpyDatetimeUnit) -> bool {
    match u {
        NumpyDatetimeUnit::Years | NumpyDatetimeUnit::Months | NumpyDatetimeUnit::Weeks
        | NumpyDatetimeUnit::Days | NumpyDatetimeUnit::Hours | NumpyDatetimeUnit::Minutes
        | NumpyDatetimeUnit::Seconds | NumpyDatetimeUnit::Milliseconds
        | NumpyDatetimeUnit::Microseconds | NumpyDatetimeUnit::Nanoseconds => true,
        _ => false,
    }
}

/// What a value of a unit becomes: its date and time when the unit is
/// supported and the year is in 0..=9999.
pub open spec fn spec_datetime(u: NumpyDatetimeUnit, val: i64, opts: Opt) -> Result<
    NumpyDatetime64Repr,
    NumpyDateTimeError,
> {
    if !unit_supported(u) {
        Err(NumpyDateTimeError::UnsupportedUnit(u))
    } else {
        spec_from_civil(u, val, spec_civil(u, val as int), opts)
    }
}

/// What a value becomes once its date and time are known (or known to
/// have none): the date and time when the year is in 0..=9999.
pub open spec fn spec_from_civil(u: NumpyDatetimeUnit, val: i64, civil: Option<CivilDateTime>, opts: Opt) -> Result<
    NumpyDatetime64Repr,
    NumpyDateTimeError,
> {
    match civil {
        Some(dt) => if 0 <= dt.year <= 9999 {
            Ok(NumpyDatetime64Repr { dt, opts })
        } else {
            Err(NumpyDateTimeError::Unrepresentable { unit: u, val })
        },
        None => Err(NumpyDateTimeError::Unrepresentable { unit: u, val }),
    }
}

/// The name of a unit.
pub fn as_str_of(u: NumpyDatetimeUnit) -> (s: &'static str)
    ensures
        s@ == spec_unit_name(u),
{
    match u {
        NumpyDatetimeUnit::NaT => "NaT",
        NumpyDatetimeUnit::Years => "years",
        NumpyDatetimeUnit::Months => "months",
        NumpyDatetimeUnit::Weeks => "weeks",
        NumpyDatetimeUnit::Days => "days",
        NumpyDatetimeUnit::Hours => "hours",
        NumpyDatetimeUnit::Minutes => "minutes",
        NumpyDatetimeUnit::Seconds => "seconds",
        NumpyDatetimeUnit::Milliseconds => "milliseconds",
        NumpyDatetimeUnit::Microseconds => "microseconds",
        NumpyDatetimeUnit::Nanoseconds => "nanoseconds",
        NumpyDatetimeUnit::Picoseconds => "picoseconds",
        NumpyDatetimeUnit::Femtoseconds => "femtoseconds",
        NumpyDatetimeUnit::Attoseconds => "attoseconds",
        NumpyDatetimeUnit::Generic => "generic",
    }
}

/// Whether `s` holds exactly the bytes `t`.
fn bytes_eq(s: &[u8], t: &[u8]) -> (r: bool)
    ensures
        r == (s@ == t@),
{
    if s.len() != t.len() {
        return false;
    }
    let mut i: usize = 0;
    while i < s.len()
        invariant
            s.len() == t.len(),
            i <= s.len(),
            forall|k: int| 0 <= k < i ==> s@[k] == t@[k],
        decreases s.len() - i,
    {
        if s[i] != t[i] {
            return false;
        }
        i = i + 1;
    }
    assert(s@ =~= t@);
    true
}

impl NumpyDatetimeUnit {
    /// The name of the unit.
    pub fn as_str(self) -> (s: &'static str)
        ensures
            s@ == spec_unit_name(self),
    {
        as_str_of(self)
    }

    /// The unit of an array's dtype, from the text of its description (as
    /// `<M8[ns]`): `NaT` when there is no text or it is too short.
    pub fn from_descr(descr: Option<&[u8]>) -> (u: Self)
        requires
            descr matches Some(d) ==> (d@.len() >= 5 ==> spec_unit_of_code(descr_code(d@)) is Some),
        ensures
            u == match descr {
                Some(d) => if d@.len() < 5 { NumpyDatetimeUnit::NaT } else { spec_unit_of_code(descr_code(d@))->0 },
                None => NumpyDatetimeUnit::NaT,
            },
    {
        let d = match descr {
            Some(d) => d,
            None => {
                return NumpyDatetimeUnit::NaT;
            },
        };
        if d.len() < 5 {
            return NumpyDatetimeUnit::NaT;
        }
        let code = vstd::slice::slice_subrange(d, 4, d.len() - 1);
        let y: [u8; 1] = [89u8];
        let mo: [u8; 1] = [77u8];
        let w: [u8; 1] = [87u8];
        let dd: [u8; 1] = [68u8];
        let h: [u8; 1] = [104u8];
        let mi: [u8; 1] = [109u8];
        let s: [u8; 1] = [115u8];
        let ms: [u8; 2] = [109u8, 115u8];
        let us: [u8; 2] = [117u8, 115u8];
        let ns: [u8; 2] = [110u8, 115u8];
        let ps: [u8; 2] = [112u8, 115u8];
        let fs: [u8; 2] = [102u8, 115u8];
        let a_s: [u8; 2] = [97u8, 115u8];
        proof {
            assert(y@ =~= seq![89u8]);
            assert(mo@ =~= seq![77u8]);
            assert(w@ =~= seq![87u8]);
            assert(dd@ =~= seq![68u8]);
            assert(h@ =~= seq![104u8]);
            assert(mi@ =~= seq![109u8]);
            assert(s@ =~= seq![115u8]);
            assert(ms@ =~= seq![109u8, 115u8]);
            assert(us@ =~= seq![117u8, 115u8]);
            assert(ns@ =~= seq![110u8, 115u8]);
            assert(ps@ =~= seq![112u8, 115u8]);
            assert(fs@ =~= seq![102u8, 115u8]);
            assert(a_s@ =~= seq![97u8, 115u8]);
        }
        if bytes_eq(code, y.as_slice()) {
            NumpyDatetimeUnit::Years
        } else if bytes_eq(code, mo.as_slice()) {
            NumpyDatetimeUnit::Months
        } else if bytes_eq(code, w.as_slice()) {
            NumpyDatetimeUnit::Weeks
        } else if bytes_eq(code, dd.as_slice()) {
            NumpyDatetimeUnit::Days
        } else if bytes_eq(code, h.as_slice()) {
            NumpyDatetimeUnit::Hours
        } else if bytes_eq(code, mi.as_slice()) {
            NumpyDatetimeUnit::Minutes
        } else if bytes_eq(code, s.as_slice()) {
            NumpyDatetimeUnit::Seconds
        } else if bytes_eq(code, ms.as_slice()) {
            NumpyDatetimeUnit::Milliseconds
        } else if bytes_eq(code, us.as_slice()) {
            NumpyDatetimeUnit::Microseconds
        } else if bytes_eq(code, ns.as_slice()) {
            NumpyDatetimeUnit::Nanoseconds
        } else if bytes_eq(code, ps.as_slice()) {
            NumpyDatetimeUnit::Picoseconds
        } else if bytes_eq(code, fs.as_slice()) {
            NumpyDatetimeUnit::Femtoseconds
        } else if bytes_eq(code, a_s.as_slice()) {
            NumpyDatetimeUnit::Attoseconds
        } else {
            NumpyDatetimeUnit::Generic
        }
    }

    /// The date and time a `datetime64` value of this unit stands for.
    pub fn datetime(self, val: i64, opts: Opt) -> (r: Result<NumpyDatetime64Repr, NumpyDateTimeError>)
        requires
            datetime_defined(self, val as int),
        ensures
            r == spec_datetime(self, val, opts),
    {
        let civil: Option<CivilDateTime> = match self {
            NumpyDatetimeUnit::Years => {
                let year = val + 1970;
                if !(0 <= year && year <= 9999) {
                    return Err(NumpyDateTimeError::Unrepresentable { unit: self, val });
                }
                Some(CivilDateTime { year: year as i16, month: 1, day: 1, hour: 0, minute: 0, second: 0, subsec_nanosecond: 0 })
            },
            NumpyDatetimeUnit::Months => {
                let mut q = val / 12;
                let mut m = val % 12;
                if m < 0 {
                    q = q - 1;
                    m = m + 12;
                }
                proof {
                    assert(q * 12 + m == val);
                    assert(q == val as int / 12 && m == val as int % 12) by (nonlinear_arith)
                        requires
                            q * 12 + m == val,
                            0 <= m < 12,
                    ;
                }
                let year = q + 1970;
                let month = m + 1;
                if !(0 <= year && year <= 9999) {
                    return Err(NumpyDateTimeError::Unrepresentable { unit: self, val });
                }
                Some(CivilDateTime { year: year as i16, month: month as i8, day: 1, hour: 0, minute: 0, second: 0, subsec_nanosecond: 0 })
            },
            NumpyDatetimeUnit::Weeks => utc_from_second(val * 7 * 24 * 60 * 60),
            NumpyDatetimeUnit::Days => utc_from_second(val * 24 * 60 * 60),
            NumpyDatetimeUnit::Hours => utc_from_second(val * 60 * 60),
            NumpyDatetimeUnit::Minutes => utc_from_second(val * 60),
            NumpyDatetimeUnit::Seconds => utc_from_second(val),
            NumpyDatetimeUnit::Milliseconds => utc_from_millisecond(val),
            NumpyDatetimeUnit::Microseconds => utc_from_microsecond(val),
            NumpyDatetimeUnit::Nanoseconds => utc_from_nanosecond(val as i128),
            _ => {
                return Err(NumpyDateTimeError::UnsupportedUnit(self));
            },
        };
        self.from_civil(val, civil, opts)
    }

    /// The value `val` of this unit, given its date and time (none when it
    /// has none): the date and time when the year is in 0..=9999.
    pub fn from_civil(self, val: i64, civil: Option<CivilDateTime>, opts: Opt) -> (r: Result<NumpyDatetime64Repr, NumpyDateTimeError>)
        ensures
            r == spec_from_civil(self, val, civil, opts),
    {
        match civil {
            Some(dt) => {
                if 0 <= dt.year && dt.year <= 9999 {
                    Ok(NumpyDatetime64Repr { dt, opts })
                } else {
                    Err(NumpyDateTimeError::Unrepresentable { unit: self, val })
                }
            },
            None => Err(NumpyDateTimeError::Unrepresentable { unit: self, val }),
        }
    }
}

impl NumpyDatetime64Repr {
    pub fn year(&self) -> (y: i32)
        ensures
            y == self.dt.year,
    {
        self.dt.year as i32
    }

    pub fn month(&self) -> (m: u8)
        requires
            self.dt.month >= 0,
        ensures
            m == self.dt.month,
    {
        self.dt.month as u8
    }

    pub fn day(&self) -> (d: u8)
        requires
            self.dt.day >= 0,
        ensures
            d == self.dt.day,
    {
        self.dt.day as u8
    }

    pub fn hour(&self) -> (h: u8)
        requires
            self.dt.hour >= 0,
        ensures
            h == self.dt.hour,
    {
        self.dt.hour as u8
    }

    pub fn minute(&self) -> (m: u8)
        requires
            self.dt.minute >= 0,
        ensures
            m == self.dt.minute,
    {
        self.dt.minute as u8
    }

    pub fn second(&self) -> (s: u8)
        requires
            self.dt.second >= 0,
        ensures
            s == self.dt.second,
    {
        self.dt.second as u8
    }

    /// The nanoseconds within the second.
    pub fn nanosecond(&self) -> (n: u32)
        requires
            self.dt.subsec_nanosecond >= 0,
        ensures
            n == self.dt.subsec_nanosecond,
    {
        self.dt.subsec_nanosecond as u32
    }

    /// The microseconds within the second.
    pub fn microsecond(&self) -> (n: u32)
        requires
            self.dt.subsec_nanosecond >= 0,
        ensures
            n == self.dt.subsec_nanosecond / 1000,
    {
        self.nanosecond() / 1_000
    }
}


// Laws of datetime64 units.

/// A unit that counts whole seconds stands for the UTC instant that many of
/// its lengths after the epoch: a week is 604800 seconds, a day 86400, an
/// hour 3600, a minute 60.
pub proof fn lemma_second_units(v: int)
    ensures
        spec_civil(NumpyDatetimeUnit::Weeks, v) == jiff_utc_from_second(v * 604800),
        spec_civil(NumpyDatetimeUnit::Days, v) == jiff_utc_from_second(v * 86400),
        spec_civil(NumpyDatetimeUnit::Hours, v) == jiff_utc_from_second(v * 3600),
        spec_civil(NumpyDatetimeUnit::Minutes, v) == jiff_utc_from_second(v * 60),
        spec_civil(NumpyDatetimeUnit::Seconds, v) == jiff_utc_from_second(v),
        spec_civil(NumpyDatetimeUnit::Milliseconds, v) == jiff_utc_from_millisecond(v),
        spec_civil(NumpyDatetimeUnit::Microseconds, v) == jiff_utc_from_microsecond(v),
        spec_civil(NumpyDatetimeUnit::Nanoseconds, v) == jiff_utc_from_nanosecond(v),
{
}

/// A count of years is the first instant of the year that many after 1970;
/// a count of months is the first instant of the month that many after
/// January 1970 (before it, for a negative count): twelve months make a
/// year, and the month is always 1 to 12.
pub proof fn lemma_calendar_units(v: int)
    ensures
        spec_civil(NumpyDatetimeUnit::Years, v) matches Some(dt) ==> dt.year == v + 1970 && dt.month == 1
            && dt.day == 1 && dt.hour == 0 && dt.minute == 0 && dt.second == 0 && dt.subsec_nanosecond == 0,
        0 <= v + 1970 <= 9999 ==> spec_civil(NumpyDatetimeUnit::Years, v) is Some,
        spec_civil(NumpyDatetimeUnit::Months, v) matches Some(dt) ==> (dt.year - 1970) * 12 + (dt.month - 1) == v
            && 1 <= dt.month <= 12 && dt.day == 1 && dt.hour == 0 && dt.minute == 0 && dt.second == 0
            && dt.subsec_nanosecond == 0,
        0 <= 1970 * 12 + v < 10000 * 12 ==> spec_civil(NumpyDatetimeUnit::Months, v) is Some,
{
}

/// Units finer than nanoseconds, and values without a unit, are not
/// written; every written value has a year from 0 to 9999.
pub proof fn lemma_unsupported_units(u: NumpyDatetimeUnit, v: i64, opts: Opt)
    ensures
        (u == NumpyDatetimeUnit::Picoseconds || u == NumpyDatetimeUnit::Femtoseconds
            || u == NumpyDatetimeUnit::Attoseconds || u == NumpyDatetimeUnit::Generic || u == NumpyDatetimeUnit::NaT)
            ==> spec_datetime(u, v, opts) == Err::<NumpyDatetime64Repr, NumpyDateTimeError>(
            NumpyDateTimeError::UnsupportedUnit(u),
        ),
        spec_datetime(u, v, opts) matches Ok(r) ==> 0 <= r.dt.year <= 9999 && r.opts == opts,
{
}
} // verus!
