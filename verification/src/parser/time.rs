//! Reading a time in the compact form and placing it in a time zone at
//! once.
use vstd::prelude::*;
use crate::types::time::{
    UnresolvedTime, WallClock, LocalConversion, compact_time, compact_fields, plain_compact,
    zone_total, zone_answers,
};

verus! {

/// Why a time could not be read and placed in a time zone.
#[derive(Debug, PartialEq, Eq)]
pub enum TimeError {
    /// The text is not a time in the form `YYYYMMDDhhmmss`.
    InvalidTime(String),
    /// The zone maps the time to no instant or to two.
    BadTimeConversion,
}

/// The wall-clock time with the fields `f`.
pub open spec fn clock_of(f: (int, int, int, int, int, int)) -> WallClock {
    WallClock {
        year: f.0 as i32,
        month: f.1 as u32,
        day: f.2 as u32,
        hour: f.3 as u32,
        minute: f.4 as u32,
        second: f.5 as u32,
    }
}

/// The wall-clock time that `s` writes in the compact form, as read.
pub open spec fn read_clock(s: Seq<char>) -> WallClock {
    clock_of(compact_time(s)->0)
}

/// Reads `timestr` in the compact form `YYYYMMDDhhmmss` and gives the
/// instant, as its UTC wall-clock time, that `zone` places it at.
pub fn parse<Z: Fn(WallClock) -> LocalConversion>(timestr: &str, zone: &Z) -> (r: Result<WallClock, TimeError>)
    requires
        zone_total(*zone),
    ensures
        match r {
            Ok(u) => compact_time(timestr@) is Some
                && zone_answers(*zone, read_clock(timestr@), LocalConversion::Single(u)),
            Err(TimeError::InvalidTime(s)) => compact_time(timestr@) is None && s@ == timestr@,
            Err(TimeError::BadTimeConversion) => compact_time(timestr@) is Some
                && exists|a: LocalConversion| #[trigger] zone_answers(*zone, read_clock(timestr@), a) && !(a is Single),
        },
        // for fourteen plain digits, the time read is the one they write
        plain_compact(timestr@) && compact_time(timestr@) is Some ==> read_clock(timestr@)@ == compact_fields(timestr@),
{
    let t = match UnresolvedTime::parse(timestr) {
        Ok(t) => t,
        Err(_) => return Err(TimeError::InvalidTime(String::from_str(timestr))),
    };
    assert(read_clock(timestr@) == t.0);
    let resolved = t.resolve(zone);
    let ghost a = choose|a: LocalConversion| #[trigger] zone_answers(*zone, t.0, a)
        && resolved == crate::types::time::instant_of(a);
    match resolved {
        Ok(u) => {
            assert(a == LocalConversion::Single(u));
            assert(zone_answers(*zone, t.0, LocalConversion::Single(u)));
            assert(read_clock(timestr@) == t.0);
            Ok(u)
        },
        Err(_) => {
            assert(!(a is Single));
            Err(TimeError::BadTimeConversion)
        },
    }
}

} // verus!
