//! The wall clock and calendar arithmetic, which come from std's system
//! clock, chrono and chrono-english.

use vstd::prelude::*;
use chrono::TimeZone;

verus! {

/// The largest distance from the epoch, in seconds, of the timestamps that
/// are turned into local dates (well inside chrono's range of about
/// ±262,000 years).
pub open spec fn date_range() -> int {
    8_000_000_000_000
}

/// Seconds since the Unix epoch according to `std::time::SystemTime::now`,
/// or 0 when the clock is set before the epoch.  The clock is read, so
/// nothing is stated of the value.
#[verifier::external_body]
pub(crate) fn unix_now_secs() -> (r: u64) {
    std::time::SystemTime::now().duration_since(std::time::UNIX_EPOCH).map(|d| d.as_secs()).unwrap_or(0)
}

/// The current Unix time in seconds, as `unix_now_secs` reads it, held at
/// `i64::MAX` should the clock ever run past what an `i64` holds.
pub fn now_secs() -> (r: i64)
    ensures
        r >= 0,
{
    let t = unix_now_secs();
    if t > 9_223_372_036_854_775_807u64 {
        i64::MAX
    } else {
        t as i64
    }
}

/// `c` is one of the ten ASCII digits.
pub open spec fn is_digit(c: char) -> bool {
    '0' <= c && c <= '9'
}

/// Text that chrono-english reads without running into one of its panics:
/// it is ASCII (the parser slices words at byte 3), holds no run of more
/// than four digits (its arithmetic on the numbers it reads overflows for
/// large ones) and no hexadecimal number (a digit directly before an `x`).
pub open spec fn date_text_safe(t: Seq<char>) -> bool {
    &&& forall|i: int| 0 <= i < t.len() ==> (#[trigger] t[i] as int) < 128
    &&& forall|i: int|
        0 <= i && i + 4 < t.len() ==> !(is_digit(#[trigger] t[i]) && is_digit(t[i + 1]) && is_digit(t[i + 2])
            && is_digit(t[i + 3]) && is_digit(t[i + 4]))
    &&& forall|i: int| 0 <= i && i + 1 < t.len() && is_digit(#[trigger] t[i]) ==> t[i + 1] != 'x' && t[i + 1] != 'X'
}

fn digit_at(t: &str, i: usize) -> (r: bool)
    requires
        i < t@.len(),
    ensures
        r == is_digit(t@[i as int]),
{
    let c = t.get_char(i);
    '0' <= c && c <= '9'
}

/// Whether `t` is text that the date parser can be handed.
pub fn is_date_text_safe(t: &str) -> (r: bool)
    ensures
        r == date_text_safe(t@),
{
    let n = t.unicode_len();
    let mut i: usize = 0;
    while i < n
        invariant
            n == t@.len(),
            i <= n,
            forall|j: int| 0 <= j < i ==> (#[trigger] t@[j] as int) < 128,
            forall|j: int|
                0 <= j < i && j + 4 < n ==> !(is_digit(#[trigger] t@[j]) && is_digit(t@[j + 1]) && is_digit(t@[j + 2])
                    && is_digit(t@[j + 3]) && is_digit(t@[j + 4])),
            forall|j: int| 0 <= j < i && j + 1 < n && is_digit(#[trigger] t@[j]) ==> t@[j + 1] != 'x' && t@[j + 1] != 'X',
        decreases n - i,
    {
        let c = t.get_char(i);
        if (c as u32) >= 128 {
            return false;
        }
        if n - i > 4 && digit_at(t, i) && digit_at(t, i + 1) && digit_at(t, i + 2) && digit_at(t, i + 3) && digit_at(
            t,
            i + 4,
        ) {
            return false;
        }
        if i + 1 < n && digit_at(t, i) {
            let d = t.get_char(i + 1);
            if d == 'x' || d == 'X' {
                return false;
            }
        }
        i = i + 1;
    }
    true
}

/// `chrono_english::parse_date_string` in the UK dialect, relative to the
/// local time at Unix timestamp `now`, with the result as a Unix timestamp;
/// `None` when the text is not understood or `now` has no local time.  The
/// result depends on the machine's time zone, so nothing is stated of it;
/// the text is kept to what the parser handles without panicking.
#[verifier::external_body]
pub(crate) fn parse_english_date(text: &str, now: i64) -> (r: Option<i64>)
    requires
        date_text_safe(text@),
{
    let base = match chrono::Local.timestamp_opt(now, 0).single() {
        Some(b) => b,
        None => return None,
    };
    match chrono_english::parse_date_string(text, base, chrono_english::Dialect::Uk) {
        Ok(dt) => Some(dt.timestamp()),
        Err(_) => None,
    }
}

/// The local date and time at Unix timestamp `ts`, written by chrono's
/// `DateTime::format` with one of the two patterns the library uses (both
/// made of valid `strftime` items, so the writing cannot fail).  It depends
/// on the machine's time zone, so nothing is stated of it; `ts` is kept in
/// the range where chrono has a local time for it.
#[verifier::external_body]
pub(crate) fn format_local_time(ts: i64, fmt: &str) -> (r: String)
    requires
        -date_range() <= ts <= date_range(),
        fmt@ == "%Y-%m-%d"@ || fmt@ == "%Y-%m-%d %H:%M"@,
{
    chrono::Local.timestamp_opt(ts, 0).unwrap().format(fmt).to_string()
}

} // verus!
