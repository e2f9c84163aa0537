//! In-game times.

use vstd::prelude::*;

use crate::text::{decimal, decimal2, push_decimal, push_decimal2, string_of};

verus! {

/// Hours and minutes in milliseconds.
pub open spec fn hours_minutes_millis(h: nat, m: nat) -> nat {
    h * 3600000 + m * 60000
}

/// Minutes and seconds in milliseconds.
pub open spec fn minutes_seconds_millis(m: nat, s: nat) -> nat {
    m * 60000 + s * 1000
}

/// The text `format_time` writes for `ms` milliseconds: whole hours, then
/// the minutes field, which is always `00`, then the seconds within the
/// minute.
pub open spec fn time_text(ms: nat) -> Seq<char> {
    let secs = ms / 1000;
    decimal(secs / 3600) + seq![':'] + decimal2(0) + seq![':'] + decimal2(secs % 60)
}

pub fn hrs_mins_secs_to_millis(time: (u8, u8)) -> (r: u64)
    ensures
        r as nat == hours_minutes_millis(time.0 as nat, time.1 as nat),
{
    let (hours, minutes) = (time.0 as u64, time.1 as u64);
    hours * 3600000 + minutes * 60000
}

/// The whole hours of `milliseconds` (truncated to a byte), and a minutes
/// field that the computation always leaves at 0.
pub fn millis_to_hrs_mins(milliseconds: u64) -> (r: (u8, u8))
    ensures
        r.0 as nat == (milliseconds as nat / 1000 / 3600) % 256,
        r.1 == 0,
{
    let seconds_total = milliseconds / 1000;
    let hours = seconds_total / (60 * 60);
    let minutes = (seconds_total % 60) / 60;
    assert((hours as u8) as nat == hours as nat % 256) by (bit_vector)
        requires hours == hours;
    (hours as u8, minutes as u8)
}

/// Minutes and seconds in milliseconds.
pub fn mins_secs_to_millis(time: (u8, u8)) -> (r: u64)
    ensures
        r as nat == minutes_seconds_millis(time.0 as nat, time.1 as nat),
{
    (time.0 as u64) * 60000 + (time.1 as u64) * 1000
}

/// The whole minutes (truncated to a byte) and the seconds within the
/// minute of `milliseconds`.
pub fn millis_to_mins_secs(milliseconds: u64) -> (r: (u8, u8))
    ensures
        r.0 as nat == (milliseconds as nat / 1000 / 60) % 256,
        r.1 as nat == (milliseconds as nat / 1000) % 60,
{
    let seconds_total = milliseconds / 1000;
    let minutes = seconds_total / 60;
    let seconds = seconds_total % 60;
    assert((minutes as u8) as nat == minutes as nat % 256) by (bit_vector)
        requires minutes == minutes;
    (minutes as u8, seconds as u8)
}

/// Formats an in-game time as `format!("{}:{:02}:{:02}", ...)` does for its
/// hours, minutes field and seconds.
pub fn format_time(milliseconds: u64) -> (r: String)
    ensures
        r@ == time_text(milliseconds as nat),
{
    let seconds_total = milliseconds / 1000;
    let hours = seconds_total / (60 * 60);
    let minutes = (seconds_total % 60) / 60;
    let seconds = (seconds_total % 60) % 60;
    let mut out: Vec<char> = Vec::new();
    push_decimal(&mut out, hours);
    out.push(':');
    push_decimal2(&mut out, minutes);
    out.push(':');
    push_decimal2(&mut out, seconds);
    assert(out@ == time_text(milliseconds as nat));
    string_of(&out)
}

/// Converting whole hours to milliseconds and back gives the hours again.
pub proof fn lemma_hours_round_trip(h: u8, m: u8)
    requires
        m == 0,
    ensures
        (hours_minutes_millis(h as nat, m as nat) / 1000 / 3600) % 256 == h,
{
    assert(hours_minutes_millis(h as nat, m as nat) / 1000 / 3600 == h);
}

/// Converting minutes and seconds to milliseconds and back gives them
/// again, for seconds within a minute.
pub proof fn lemma_minutes_seconds_round_trip(m: u8, s: u8)
    requires
        s < 60,
    ensures
        (minutes_seconds_millis(m as nat, s as nat) / 1000 / 60) % 256 == m,
        (minutes_seconds_millis(m as nat, s as nat) / 1000) % 60 == s,
{
    assert(minutes_seconds_millis(m as nat, s as nat) / 1000 == m * 60 + s);
}

} // verus!
