//! Times written in an index: ScrapBook stores them as local wall-clock
//! time, in the compact form `YYYYMMDDhhmmss`, and the library stores UTC.
use vstd::prelude::*;
use chrono::{Datelike, Timelike};
use crate::parser::error::RdfError;
use crate::types::ResolveError;

verus! {

/// The format of times in an index.
pub const COMPACT_TIME_FORMAT: &'static str = "%Y%m%d%H%M%S";

/// A date and a time of day as a calendar and a clock on the wall show
/// them, with no time zone.
#[derive(Debug, Clone, Copy, PartialEq, Eq, Structural)]
pub struct WallClock {
    pub year: i32,
    pub month: u32,
    pub day: u32,
    pub hour: u32,
    pub minute: u32,
    pub second: u32,
}

/// Year, month, day, hour, minute and second.
pub type ClockFields = (int, int, int, int, int, int);

impl View for WallClock {
    type V = ClockFields;

    open spec fn view(&self) -> ClockFields {
        (self.year as int, self.month as int, self.day as int,
            self.hour as int, self.minute as int, self.second as int)
    }
}

/// The wall-clock time that `chrono::NaiveDateTime::parse_from_str` reads
/// from `s` in the format `%Y%m%d%H%M%S`, taken field by field; `None`
/// where it refuses `s`.
pub uninterp spec fn compact_time(s: Seq<char>) -> Option<(int, int, int, int, int, int)>;

/// Whether `c` is an ASCII digit.
pub open spec fn is_digit(c: char) -> bool {
    '0' <= c && c <= '9'
}

/// The number written by the `n` digits of `s` that start at `i`.
pub open spec fn number_at(s: Seq<char>, i: int, n: nat) -> int
    decreases n,
{
    if n == 0 {
        0
    } else {
        number_at(s, i, (n - 1) as nat) * 10 + (s[i + n - 1] as int - '0' as int)
    }
}

/// Whether `s` is fourteen ASCII digits whose last two, the second, are
/// below 60.
pub open spec fn plain_compact(s: Seq<char>) -> bool {
    &&& s.len() == 14
    &&& forall|i: int| 0 <= i < 14 ==> is_digit(#[trigger] s[i])
    &&& number_at(s, 12, 2) < 60
}

/// The fields that fourteen digits `YYYYMMDDhhmmss` write.
pub open spec fn compact_fields(s: Seq<char>) -> ClockFields {
    (number_at(s, 0, 4), number_at(s, 4, 2), number_at(s, 6, 2),
        number_at(s, 8, 2), number_at(s, 10, 2), number_at(s, 12, 2))
}

/// Whether `y` is a leap year of the proleptic Gregorian calendar.
pub open spec fn is_leap_year(y: int) -> bool {
    y % 4 == 0 && (y % 100 != 0 || y % 400 == 0)
}

/// The number of days of month `m` of year `y`.
pub open spec fn days_in_month(y: int, m: int) -> int {
    if m == 2 {
        if is_leap_year(y) { 29 } else { 28 }
    } else if m == 4 || m == 6 || m == 9 || m == 11 {
        30
    } else {
        31
    }
}

/// Whether the fields name a day of the calendar and a time of that day
/// (seconds below 60).
pub open spec fn is_valid_fields(f: ClockFields) -> bool {
    &&& 1 <= f.1 <= 12
    &&& 1 <= f.2 <= days_in_month(f.0, f.1)
    &&& 0 <= f.3 < 24
    &&& 0 <= f.4 < 60
    &&& 0 <= f.5 < 60
}

/// Calls `chrono::NaiveDateTime::parse_from_str` with the compact format and
/// reads the fields of what it returns. The contract claims that the result
/// is the one named by `compact_time`, and that on fourteen digits with
/// seconds below 60 (chrono's numeric fields then take four digits for the
/// year and two for each other field, and a leap second is not involved)
/// the call succeeds exactly when the numbers the digits write name a valid
/// date and time, and the fields are those numbers. Whatever it reads is a
/// valid date and time: chrono's values keep the second below 60.
#[verifier::external_body]
fn parse_compact(timestr: &str) -> (r: Option<WallClock>)
    ensures
        match r {
            Some(w) => compact_time(timestr@) == Some(w@),
            None => compact_time(timestr@) is None,
        },
        plain_compact(timestr@) ==> (r matches Some(w) ==> w@ == compact_fields(timestr@)),
        plain_compact(timestr@) ==> (r is Some <==> is_valid_fields(compact_fields(timestr@))),
        r matches Some(w) ==> is_valid_fields(w@),
{
    match chrono::NaiveDateTime::parse_from_str(timestr, COMPACT_TIME_FORMAT) {
        Ok(t) => Some(WallClock {
            year: t.year(), month: t.month(), day: t.day(),
            hour: t.hour(), minute: t.minute(), second: t.second(),
        }),
        Err(_) => None,
    }
}

/// What a time zone makes of a wall-clock time, as
/// `chrono::TimeZone::from_local_datetime` answers.
#[derive(Debug, Clone, Copy, PartialEq, Eq, Structural)]
pub enum LocalConversion {
    /// One instant, given by its UTC wall-clock time.
    Single(WallClock),
    /// Two instants (a fold, when clocks are turned back).
    Ambiguous,
    /// No instant (a gap, when clocks are turned forward).
    Nonexistent,
}

/// The answer of the UTC zone: a wall-clock time is its own instant.
pub fn utc(local: WallClock) -> (r: LocalConversion)
    ensures
        r == LocalConversion::Single(local),
{
    LocalConversion::Single(local)
}

/// Whether a time zone may be asked about any wall-clock time.
pub open spec fn zone_total<Z: Fn(WallClock) -> LocalConversion>(zone: Z) -> bool {
    forall|w: WallClock| call_requires(zone, (w,))
}

/// `a` is an answer that `zone` may give for the wall-clock time `w`.
pub open spec fn zone_answers<Z: Fn(WallClock) -> LocalConversion>(zone: Z, w: WallClock, a: LocalConversion) -> bool {
    call_ensures(zone, (w,), a)
}

/// The zone may fail to map the optional time `t` to a single instant.
pub open spec fn time_fails<Z: Fn(WallClock) -> LocalConversion>(zone: Z, t: Option<UnresolvedTime>) -> bool {
    t matches Some(t) && exists|a: LocalConversion| #[trigger] zone_answers(zone, t.0, a) && !(a is Single)
}

/// `u` is what converting the optional time `t` in `zone` gave: nothing for
/// no time, and otherwise the single instant the zone answered for `t`.
pub open spec fn converted<Z: Fn(WallClock) -> LocalConversion>(zone: Z, t: Option<UnresolvedTime>, u: Option<WallClock>) -> bool {
    match t {
        None => u is None,
        Some(t) => u matches Some(x) && zone_answers(zone, t.0, LocalConversion::Single(x)),
    }
}

/// A wall-clock time read from an index, not yet placed in a time zone.
#[derive(Debug)]
pub struct UnresolvedTime(pub WallClock);

impl View for UnresolvedTime {
    type V = ClockFields;

    open spec fn view(&self) -> ClockFields {
        self.0@
    }
}

/// An optional time by its fields.
pub open spec fn opt_time_view(t: Option<UnresolvedTime>) -> Option<ClockFields> {
    match t {
        Some(t) => Some(t@),
        None => None,
    }
}

/// The instant of a time zone's answer: only a single instant is accepted.
pub open spec fn instant_of(c: LocalConversion) -> Result<WallClock, ResolveError> {
    match c {
        LocalConversion::Single(t) => Ok(t),
        _ => Err(ResolveError::BadTimeConversion),
    }
}

impl UnresolvedTime {
    /// Wraps a wall-clock time.
    pub fn from_naive(naive: WallClock) -> (r: Self)
        ensures
            r.0 == naive,
    {
        UnresolvedTime(naive)
    }

    /// Reads a time in the compact form `YYYYMMDDhhmmss`.
    pub fn parse(timestr: &str) -> (r: Result<Self, RdfError>)
        ensures
            match r {
                Ok(t) => compact_time(timestr@) == Some(t@),
                Err(e) => compact_time(timestr@) is None
                    && e@ == crate::parser::error::RdfErrorView::InvalidTime(timestr@),
            },
            plain_compact(timestr@) ==> (r matches Ok(t) ==> t@ == compact_fields(timestr@)),
            plain_compact(timestr@) ==> (r is Ok <==> is_valid_fields(compact_fields(timestr@))),
            r matches Ok(t) ==> is_valid_fields(t@),
    {
        match parse_compact(timestr) {
            Some(w) => Ok(UnresolvedTime(w)),
            None => Err(RdfError::InvalidTime(String::from_str(timestr))),
        }
    }

    /// The UTC instant of a time zone's answer for this time.
    pub fn from_conversion(conversion: LocalConversion) -> (r: Result<WallClock, ResolveError>)
        ensures
            r == instant_of(conversion),
    {
        match conversion {
            LocalConversion::Single(t) => Ok(t),
            _ => Err(ResolveError::BadTimeConversion),
        }
    }

    /// The UTC instant of this wall-clock time in `zone`; a time that the
    /// zone maps to no instant or to two is an error.
    pub fn resolve<Z: Fn(WallClock) -> LocalConversion>(&self, zone: &Z) -> (r: Result<WallClock, ResolveError>)
        requires
            zone_total(*zone),
        ensures
            exists|a: LocalConversion| #[trigger] zone_answers(*zone, self.0, a) && r == instant_of(a),
    {
        let answer = zone(self.0);
        assert(zone_answers(*zone, self.0, answer));
        UnresolvedTime::from_conversion(answer)
    }
}

} // verus!
