//! Wall-clock texts for the chrome.
//!
//! Everything here is UTC: a trading log that silently follows the laptop's timezone is a log that
//! cannot be compared with the venue's.

use crate::decimal;
use crate::text;
use vstd::prelude::*;

verus! {

const MS_PER_DAY: i64 = 86_400_000;

/// Reads `std::time::SystemTime::now`: the milliseconds since the Unix epoch, nothing where the
/// machine's clock stands before it.
///
/// Nothing is claimed of the reading, which is the machine's.
#[verifier::external_body]
fn since_epoch() -> (r: Option<u128>) {
    match std::time::SystemTime::now().duration_since(std::time::UNIX_EPOCH) {
        Ok(d) => Some(d.as_millis()),
        Err(_) => None,
    }
}

/// A reading of the clock as a stamp, the epoch where there is none.
pub open spec fn stamped(reading: Option<u128>) -> i64 {
    match reading {
        Some(ms) => ms as i64,
        None => 0,
    }
}

pub fn stamp_of(reading: Option<u128>) -> (r: i64)
    ensures
        r == stamped(reading),
        reading matches Some(ms) && ms <= i64::MAX ==> r == reading->0,
        reading is None ==> r == 0,
{
    match reading {
        Some(ms) => #[verifier::truncate]
        (ms as i64),
        None => 0,
    }
}

/// Milliseconds since the Unix epoch, now: the stamp of whatever the clock reads.
pub fn now_millis() -> (r: i64)
    ensures
        exists|reading: Option<u128>| r == #[trigger] stamped(reading),
{
    stamp_of(since_epoch())
}

/// Where in its day a moment is, in milliseconds. A stamp before the epoch wraps into a valid time
/// of day.
pub open spec fn of_day(millis: int) -> int {
    millis % 86_400_000
}

/// `HH:MM:SS` of a moment.
pub open spec fn time_text(millis: int) -> Seq<char> {
    let seconds = of_day(millis) / 1_000;
    decimal::padded(seconds / 3_600, 2) + ":"@ + decimal::padded(seconds / 60 % 60, 2) + ":"@
        + decimal::padded(seconds % 60, 2)
}

/// `HH:MM:SS` in UTC.
pub fn hms(millis: i64) -> (r: String)
    ensures
        r@ == time_text(millis as int),
{
    let at: u64 = parts(millis);
    time_of(at)
}

/// `HH:MM:SS.mmm` in UTC, for log lines where ordering within a second matters.
pub fn hms_millis(millis: i64) -> (r: String)
    ensures
        r@ == time_text(millis as int) + "."@ + decimal::padded(of_day(millis as int) % 1_000, 3),
{
    let at: u64 = parts(millis);
    let mut r = time_of(at);
    r.append(".");
    r.append(text::three_digits(at % 1_000).as_str());
    r
}

fn time_of(at: u64) -> (r: String)
    requires
        at < 86_400_000,
    ensures
        r@ == time_text(at as int),
{
    let seconds: u64 = at / 1_000;
    let mut r = text::two_digits(seconds / 3_600);
    r.append(":");
    r.append(text::two_digits(seconds / 60 % 60).as_str());
    r.append(":");
    r.append(text::two_digits(seconds % 60).as_str());
    r
}

/// Where in its day a moment is.
fn parts(millis: i64) -> (at: u64)
    ensures
        at == of_day(millis as int),
        at < 86_400_000,
        of_day(at as int) == at,
{
    let m: i128 = millis as i128;
    let back: i128 = m + 106_751_991_168 * (MS_PER_DAY as i128);
    (back % (MS_PER_DAY as i128)) as u64
}

/// A day is over after a day: the same time of day comes back, and the text is the same.
pub proof fn the_clock_comes_round(millis: int, days: int)
    ensures
        time_text(millis + days * 86_400_000) == time_text(millis),
{
    vstd::arithmetic::div_mod::lemma_mod_multiples_vanish(days, millis, 86_400_000);
}

/// What is shown is the time of day that a moment is so many hours, minutes and seconds into.
pub proof fn a_moment_shows_its_time(
    days: int,
    hours: int,
    minutes: int,
    seconds: int,
    millis: int,
)
    requires
        0 <= hours < 24,
        0 <= minutes < 60,
        0 <= seconds < 60,
        0 <= millis < 1_000,
    ensures
        ({
            let at = days * 86_400_000 + hours * 3_600_000 + minutes * 60_000 + seconds * 1_000
                + millis;
            &&& time_text(at) == decimal::padded(hours, 2) + ":"@ + decimal::padded(minutes, 2)
                + ":"@ + decimal::padded(seconds, 2)
            &&& of_day(at) % 1_000 == millis
        }),
{
    let within = hours * 3_600_000 + minutes * 60_000 + seconds * 1_000 + millis;
    let at = days * 86_400_000 + within;
    vstd::arithmetic::div_mod::lemma_mod_multiples_vanish(days, within, 86_400_000);
    lemma_split(hours, minutes, seconds, millis);
    let of = of_day(at) / 1_000;
    assert(of_day(at) == within);
    assert(of / 3_600 == hours);
    assert(of / 60 % 60 == minutes);
    assert(of % 60 == seconds);
}

proof fn lemma_split(hours: int, minutes: int, seconds: int, millis: int)
    requires
        0 <= hours < 24,
        0 <= minutes < 60,
        0 <= seconds < 60,
        0 <= millis < 1_000,
    ensures
        ({
            let within = hours * 3_600_000 + minutes * 60_000 + seconds * 1_000 + millis;
            &&& within % 86_400_000 == within
            &&& within / 1_000 / 3_600 == hours
            &&& within / 1_000 / 60 % 60 == minutes
            &&& within / 1_000 % 60 == seconds
            &&& within % 1_000 == millis
        }),
{
    let within = hours * 3_600_000 + minutes * 60_000 + seconds * 1_000 + millis;
    let whole = hours * 3_600 + minutes * 60 + seconds;
    assert(within == whole * 1_000 + millis);
    assert(within / 1_000 == whole);
    assert(whole / 60 == hours * 60 + minutes);
}

/// Whatever the stamp, the hours, minutes and seconds shown are those of a day.
pub proof fn times_are_times_of_day(millis: int)
    ensures
        0 <= of_day(millis) / 1_000 / 3_600 < 24,
        0 <= of_day(millis) / 1_000 / 60 % 60 < 60,
        0 <= of_day(millis) / 1_000 % 60 < 60,
{
}

} // verus!
