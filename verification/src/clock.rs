use vstd::prelude::*;

verus! {

/// Where the system clock stands against the Unix epoch, from `std::time::SystemTime::now`
/// and `duration_since(UNIX_EPOCH)`: `(false, secs, nanos)` for a time `secs` seconds and
/// `nanos` nanoseconds after the epoch, `(true, secs, nanos)` for one that far before it.
/// What time it is depends on the clock and is not claimed; `nanos` is below one second,
/// as `Duration::subsec_nanos` documents. Neither call panics.
#[verifier::external_body]
fn system_clock() -> (r: (bool, u64, u32))
    ensures
        r.2 < 1_000_000_000,
{
    match std::time::SystemTime::now().duration_since(std::time::UNIX_EPOCH) {
        Ok(d) => (false, d.as_secs(), d.subsec_nanos()),
        Err(e) => (true, e.duration().as_secs(), e.duration().subsec_nanos()),
    }
}

/// The signed distance from the Unix epoch, in nanoseconds, of a clock reading.
pub open spec fn reading_nanos(before: bool, secs: u64, nanos: u32) -> int {
    if before {
        -(secs * 1_000_000_000 + nanos)
    } else {
        secs * 1_000_000_000 + nanos
    }
}

/// A clock reading as nanoseconds since the epoch, when an `i64` holds them (from 1677
/// to 2262), as `chrono`'s `timestamp_nanos_opt` gives them.
pub fn nanos_since_epoch(before: bool, secs: u64, nanos: u32) -> (r: Option<i64>)
    requires
        nanos < 1_000_000_000,
    ensures
        r == (if i64::MIN <= reading_nanos(before, secs, nanos) <= i64::MAX {
            Some(reading_nanos(before, secs, nanos) as i64)
        } else {
            None::<i64>
        }),
{
    let total: i128 = secs as i128 * 1_000_000_000 + nanos as i128;
    let v: i128 = if before { -total } else { total };
    if i64::MIN as i128 <= v && v <= i64::MAX as i128 {
        Some(v as i64)
    } else {
        None
    }
}

/// The whole seconds since the epoch, rounded down, of a clock reading.
pub open spec fn reading_secs(before: bool, secs: u64, nanos: u32) -> int {
    if before && nanos > 0 {
        -secs - 1
    } else if before {
        -secs
    } else {
        secs as int
    }
}

/// The nanoseconds past `reading_secs` of a clock reading.
pub open spec fn reading_subsec(before: bool, secs: u64, nanos: u32) -> int {
    if before && nanos > 0 {
        1_000_000_000 - nanos
    } else {
        nanos as int
    }
}

/// A clock reading as whole seconds since the epoch (rounded down) and the nanoseconds
/// past them, the form `chrono` takes timestamps in; `None` when the seconds do not fit
/// an `i64`.
pub fn split_reading(before: bool, secs: u64, nanos: u32) -> (r: Option<(i64, u32)>)
    requires
        nanos < 1_000_000_000,
    ensures
        match r {
            Some((s, n)) => secs <= i64::MAX && s == reading_secs(before, secs, nanos) && n == reading_subsec(before, secs, nanos)
                && n < 1_000_000_000 && s * 1_000_000_000 + n == reading_nanos(before, secs, nanos),
            None => secs > i64::MAX,
        },
{
    if secs > i64::MAX as u64 {
        return None;
    }
    let s = secs as i64;
    if !before {
        Some((s, nanos))
    } else if nanos == 0 {
        Some((-s, 0))
    } else {
        Some((-s - 1, 1_000_000_000 - nanos))
    }
}

/// The current time as nanoseconds since the Unix epoch; `None` for instants that an
/// `i64` of nanoseconds cannot hold (before 1677 or after 2262). The time itself is the
/// clock's and is not claimed.
pub fn utc_now_nanos() -> (r: Option<i64>) {
    let (before, secs, nanos) = system_clock();
    nanos_since_epoch(before, secs, nanos)
}

/// `t` has the shape that `chrono` writes `%Y-%m-%d` in: a year of four digits (with a
/// sign before it, and perhaps more digits, outside the years 0 to 9999), a dash, two
/// digits of month, a dash, two digits of day.
pub open spec fn is_date_text(t: Seq<char>) -> bool {
    let n = t.len();
    &&& n >= 10
    &&& t[n - 6] == '-' && t[n - 3] == '-'
    &&& is_digit(t[n - 5]) && is_digit(t[n - 4]) && is_digit(t[n - 2]) && is_digit(t[n - 1])
    &&& forall|i: int| 1 <= i < n - 6 ==> is_digit(#[trigger] t[i])
    &&& (is_digit(t[0]) && n == 10 || t[0] == '+' || t[0] == '-')
}

pub open spec fn is_digit(c: char) -> bool {
    '0' <= c && c <= '9'
}

/// The UTC date, as `chrono` writes it with `%Y-%m-%d`, of the instant `secs` seconds
/// and `nanos` nanoseconds after the Unix epoch; `None` where `chrono` holds no such
/// instant.
pub uninterp spec fn utc_date_text(secs: int, nanos: int) -> Option<Seq<char>>;

/// The UTC date of an instant, from `chrono::DateTime::from_timestamp` and
/// `format("%Y-%m-%d")`. `from_timestamp` gives `None` for instants outside `chrono`'s
/// years (about 262 000 years either side of year 0), so any instant within 8 * 10^12
/// seconds of the epoch has a date. The date text has the shape `is_date_text`
/// (chrono's `%Y` pads the year to four digits and signs years outside 0 to 9999; `%m`
/// and `%d` write two digits). Which date the seconds give is named, not spelled out.
#[verifier::external_body]
fn utc_date_of(secs: i64, nanos: u32) -> (r: Option<String>)
    ensures
        match r {
            Some(t) => Some(t@),
            None => None::<Seq<char>>,
        } == utc_date_text(secs as int, nanos as int),
        r matches Some(t) ==> is_date_text(t@),
        -8_000_000_000_000 <= secs <= 8_000_000_000_000 && nanos < 1_000_000_000 ==> r is Some,
{
    chrono::DateTime::from_timestamp(secs, nanos).map(|d| d.format("%Y-%m-%d").to_string())
}

/// The UTC date, `YYYY-MM-DD`, of a clock reading: `None` when `chrono` holds no date
/// for it; any reading less than 8 * 10^12 seconds from the epoch has one.
pub fn utc_date_at(before: bool, secs: u64, nanos: u32) -> (r: Option<String>)
    requires
        nanos < 1_000_000_000,
    ensures
        match r {
            Some(t) => Some(t@),
            None => None::<Seq<char>>,
        } == (if secs <= i64::MAX {
            utc_date_text(reading_secs(before, secs, nanos), reading_subsec(before, secs, nanos))
        } else {
            None::<Seq<char>>
        }),
        r matches Some(t) ==> is_date_text(t@),
        secs < 8_000_000_000_000 ==> r is Some,
{
    match split_reading(before, secs, nanos) {
        Some((s, n)) => utc_date_of(s, n),
        None => None,
    }
}

/// Today's date in UTC as `YYYY-MM-DD`, for the clock's reading; `None` only when the
/// clock reads a time more than 8 * 10^12 seconds from the epoch that `chrono` holds no
/// date for. Which day it is depends on the clock and is not claimed.
pub fn utc_date() -> (r: Option<String>)
    ensures
        r matches Some(t) ==> is_date_text(t@),
{
    let (before, secs, nanos) = system_clock();
    utc_date_at(before, secs, nanos)
}

} // verus!
