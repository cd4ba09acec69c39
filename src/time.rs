//! Time helpers: the clock in milliseconds, and times of day for display.

use vstd::prelude::*;

use chrono::TimeZone;

verus! {

/// Why the clock could not be read as milliseconds since the Unix epoch.
#[derive(Clone, Copy, Debug, PartialEq, Eq, Structural)]
pub enum TimeError {
    /// The clock stands before the epoch.
    BeforeEpoch,
    /// The count does not fit in 64 bits.
    Overflow,
    /// The time lies too close to the epoch to step back from it.
    TooEarly,
}

/// Two weeks, in milliseconds.
pub const TWO_WEEKS_MS: u64 = 1_209_600_000;

/// Relies on `SystemTime::elapsed` of `UNIX_EPOCH`: the milliseconds since
/// the epoch, or nothing when the clock stands before it.
#[verifier::external_body]
fn millis_since_epoch() -> (r: Option<u128>) {
    std::time::UNIX_EPOCH.elapsed().ok().map(|d| d.as_millis())
}

/// Turns a reading of the clock in milliseconds into a 64-bit count.
pub fn from_elapsed(ms: Option<u128>) -> (r: Result<u64, TimeError>)
    ensures
        ms is None ==> r == Err::<u64, TimeError>(TimeError::BeforeEpoch),
        ms matches Some(m) ==> (if m <= u64::MAX {
            r == Ok::<u64, TimeError>(m as u64)
        } else {
            r == Err::<u64, TimeError>(TimeError::Overflow)
        }),
{
    match ms {
        None => Err(TimeError::BeforeEpoch),
        Some(m) => if m <= u64::MAX as u128 {
            Ok(m as u64)
        } else {
            Err(TimeError::Overflow)
        },
    }
}

/// The current system time in milliseconds since the Unix epoch.
pub fn now() -> (r: Result<u64, TimeError>)
    ensures
        r matches Err(e) ==> e != TimeError::TooEarly,
{
    from_elapsed(millis_since_epoch())
}

/// The time two weeks before `now_ms`.
pub fn two_weeks_before(now_ms: u64) -> (r: Result<u64, TimeError>)
    ensures
        now_ms >= TWO_WEEKS_MS ==> r == Ok::<u64, TimeError>((now_ms - TWO_WEEKS_MS) as u64),
        now_ms < TWO_WEEKS_MS ==> r == Err::<u64, TimeError>(TimeError::TooEarly),
{
    if now_ms >= TWO_WEEKS_MS {
        Ok(now_ms - TWO_WEEKS_MS)
    } else {
        Err(TimeError::TooEarly)
    }
}

/// The time two weeks before a reading of the clock; an error of the
/// reading is passed on.
pub fn two_weeks_before_reading(reading: Result<u64, TimeError>) -> (r: Result<u64, TimeError>)
    ensures
        reading matches Err(e) ==> r == Err::<u64, TimeError>(e),
        reading matches Ok(ms) ==> r == two_weeks_before_spec(ms),
{
    match reading {
        Ok(ms) => two_weeks_before(ms),
        Err(e) => Err(e),
    }
}

/// The time two weeks before `now_ms`, or `TooEarly`.
pub open spec fn two_weeks_before_spec(now_ms: u64) -> Result<u64, TimeError> {
    if now_ms >= TWO_WEEKS_MS {
        Ok((now_ms - TWO_WEEKS_MS) as u64)
    } else {
        Err(TimeError::TooEarly)
    }
}

/// The time two weeks before the current system time: the start of the
/// range of posts requested for a channel. An error in reading the clock
/// is passed on (`BeforeEpoch`, `Overflow`); a clock less than two weeks
/// past the epoch gives `TooEarly`.
pub fn two_weeks_ago() -> (r: Result<u64, TimeError>)
    ensures
        r matches Ok(t) ==> t <= u64::MAX - TWO_WEEKS_MS,
{
    two_weeks_before_reading(now())
}

/// Whether `c` is an ASCII decimal digit.
pub open spec fn is_decimal(c: char) -> bool {
    '0' as u32 <= c as u32 <= '9' as u32
}

/// A time of day written `HH:MM` with hours `00` to `23` and minutes `00`
/// to `59`.
pub open spec fn is_clock_text(s: Seq<char>) -> bool {
    &&& s.len() == 5
    &&& is_decimal(s[0]) && is_decimal(s[1]) && s[2] == ':' && is_decimal(s[3]) && is_decimal(s[4])
    &&& (s[0] as u32 - 48) * 10 + (s[1] as u32 - 48) < 24
    &&& (s[3] as u32 - 48) < 6
}

/// What is shown in place of a time of day that cannot be found.
pub open spec fn no_clock_text() -> Seq<char> {
    seq!['X', 'X', ':', 'X', 'X']
}

/// The last millisecond of the year 9999, well within the range of times
/// chrono represents.
pub const LAST_CLOCK_MS: u64 = 253_402_300_799_999;

/// Relies on chrono's `Local::timestamp_millis_opt` and `%H:%M` formatting:
/// the local time of day of a timestamp in milliseconds. Its documentation
/// promises `Single` for every timestamp in range, `None` otherwise. `%H`
/// is the hour `00` to `23`, `%M` the minute `00` to `59`.
#[verifier::external_body]
fn local_clock(timestamp: u64) -> (r: Option<String>)
    ensures
        r matches Some(s) ==> is_clock_text(s@),
        timestamp <= LAST_CLOCK_MS ==> r is Some,
{
    match chrono::Local.timestamp_millis_opt(timestamp as i64) {
        chrono::LocalResult::Single(t) => Some(t.format("%H:%M").to_string()),
        _ => None,
    }
}

/// The text shown for a time of day: the time itself, or `XX:XX` when
/// there is none.
pub fn clock_or_placeholder(clock: Option<String>) -> (r: String)
    ensures
        clock matches Some(s) ==> r@ == s@,
        clock is None ==> r@ == no_clock_text(),
{
    match clock {
        Some(s) => s,
        None => {
            let mut r = String::new();
            crate::text::push_str(&mut r, "XX:XX");
            proof {
                reveal_strlit("XX:XX");
            }
            assert(r@ =~= no_clock_text());
            r
        },
    }
}

/// The local time of day of a timestamp in milliseconds, as `HH:MM`, or
/// `XX:XX` when the timestamp lies beyond the times that can be shown.
pub fn format(timestamp: u64) -> (r: String)
    ensures
        is_clock_text(r@) || r@ == no_clock_text(),
        timestamp <= LAST_CLOCK_MS ==> is_clock_text(r@),
{
    clock_or_placeholder(local_clock(timestamp))
}

} // verus!
