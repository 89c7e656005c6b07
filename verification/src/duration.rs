//! Durations written out in days, hours, minutes and seconds.

use vstd::prelude::*;

verus! {

/// The decimal digit `d` (below ten).
pub open spec fn digit_char(d: nat) -> char {
    if d == 0 { '0' }
    else if d == 1 { '1' }
    else if d == 2 { '2' }
    else if d == 3 { '3' }
    else if d == 4 { '4' }
    else if d == 5 { '5' }
    else if d == 6 { '6' }
    else if d == 7 { '7' }
    else if d == 8 { '8' }
    else { '9' }
}

/// The decimal numeral of `n`, without leading zeros.
pub open spec fn decimal(n: nat) -> Seq<char>
    decreases n,
{
    if n < 10 {
        seq![digit_char(n)]
    } else {
        decimal(n / 10) + seq![digit_char(n % 10)]
    }
}

/// `u64::to_string`: the decimal numeral of `n`.
#[verifier::external_body]
pub(crate) fn decimal_string(n: u64) -> (r: String)
    ensures
        r@ == decimal(n as nat),
{
    n.to_string()
}

/// `acc` and `part` joined by a space (just `part` when `acc` is empty).
pub open spec fn joined(acc: Seq<char>, part: Seq<char>) -> Seq<char> {
    if acc.len() == 0 {
        part
    } else {
        acc + seq![' '] + part
    }
}

/// A count followed by its unit letter.
pub open spec fn amount(n: nat, unit: char) -> Seq<char> {
    decimal(n) + seq![unit]
}

/// The days, hours and minutes of `s` seconds, as "1d 2h 3m" with the zero
/// amounts left out.
pub open spec fn dhm(s: nat) -> Seq<char> {
    let days = s / 86400;
    let hours = (s % 86400) / 3600;
    let minutes = (s % 3600) / 60;
    let a = if days > 0 { amount(days, 'd') } else { Seq::empty() };
    let b = if hours > 0 { joined(a, amount(hours, 'h')) } else { a };
    if minutes > 0 { joined(b, amount(minutes, 'm')) } else { b }
}

/// `seconds` written as "1d 2h 3m 4s" with zero amounts left out (but at
/// least the seconds), preceded by "-" when negative.
pub open spec fn duration_text(seconds: int) -> Seq<char> {
    let s = if seconds < 0 { -seconds } else { seconds };
    let body = dhm(s as nat);
    let secs = (s % 60) as nat;
    let all = if secs > 0 || body.len() == 0 { joined(body, amount(secs, 's')) } else { body };
    if seconds < 0 { seq!['-'] + all } else { all }
}

/// Like `dhm`, but "none" for less than a minute.
pub open spec fn duration_stat_text(seconds: int) -> Seq<char> {
    let s = if seconds < 0 { -seconds } else { seconds };
    let body = dhm(s as nat);
    if body.len() == 0 { "none"@ } else { body }
}

proof fn lemma_decimal_nonempty(n: nat)
    ensures
        decimal(n).len() > 0,
    decreases n,
{
    if n >= 10 {
        lemma_decimal_nonempty(n / 10);
    }
}

/// Append `amount(n, unit)` to `acc`, separated by a space.
fn push_amount(acc: &mut String, n: u64, unit: &str)
    requires
        unit@.len() == 1,
    ensures
        final(acc)@ == joined(old(acc)@, amount(n as nat, unit@[0])),
        final(acc)@.len() > 0,
{
    proof {
        reveal_strlit(" ");
        lemma_decimal_nonempty(n as nat);
    }
    if acc.as_str().is_empty() {
    } else {
        acc.append(" ");
    }
    let d = decimal_string(n);
    acc.append(d.as_str());
    acc.append(unit);
    proof {
        assert(unit@ =~= seq![unit@[0]]);
        if old(acc)@.len() == 0 {
            assert(final(acc)@ =~= amount(n as nat, unit@[0]));
        } else {
            assert(final(acc)@ =~= old(acc)@ + seq![' '] + amount(n as nat, unit@[0]));
        }
    }
}

/// The days, hours and minutes of `s` seconds.
fn dhm_of(s: u64) -> (r: String)
    ensures
        r@ == dhm(s as nat),
{
    proof {
        reveal_strlit("d");
        reveal_strlit("h");
        reveal_strlit("m");
    }
    let days = s / 86400;
    let hours = (s % 86400) / 3600;
    let minutes = (s % 3600) / 60;
    let mut out = String::new();
    if days > 0 {
        push_amount(&mut out, days, "d");
    }
    if hours > 0 {
        push_amount(&mut out, hours, "h");
    }
    if minutes > 0 {
        push_amount(&mut out, minutes, "m");
    }
    out
}

/// `seconds` as "1d 2h 3m 4s", zero amounts left out but at least the
/// seconds shown, with a leading "-" when negative.
pub fn format_duration(seconds: i64) -> (r: String)
    requires
        seconds != i64::MIN,
    ensures
        r@ == duration_text(seconds as int),
{
    proof {
        reveal_strlit("s");
        reveal_strlit("-");
    }
    let s: u64 = if seconds < 0 { (-seconds) as u64 } else { seconds as u64 };
    let mut out = dhm_of(s);
    let secs = s % 60;
    if secs > 0 || out.as_str().is_empty() {
        push_amount(&mut out, secs, "s");
    }
    if seconds < 0 {
        let mut neg = String::from_str("-");
        neg.append(out.as_str());
        neg
    } else {
        out
    }
}

/// `seconds` as "1d 2h 3m" with zero amounts left out, or "none" for less
/// than a minute.
pub fn format_duration_stat(seconds: i64) -> (r: String)
    requires
        seconds != i64::MIN,
    ensures
        r@ == duration_stat_text(seconds as int),
{
    let s: u64 = if seconds < 0 { (-seconds) as u64 } else { seconds as u64 };
    let out = dhm_of(s);
    if out.as_str().is_empty() {
        String::from_str("none")
    } else {
        out
    }
}

} // verus!
