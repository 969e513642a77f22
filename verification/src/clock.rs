//! Instants in time and their RFC 3339 text form.

use vstd::prelude::*;

verus! {

/// An instant: whole seconds since the Unix epoch (UTC) plus a sub-second
/// part in nanoseconds.
#[derive(Debug, Clone, Copy, PartialEq, Eq, Structural)]
pub struct UtcTime {
    pub secs: i64,
    pub nanos: u32,
}

/// Nanoseconds since the Unix epoch.
pub open spec fn epoch_nanos(t: UtcTime) -> int {
    t.secs * 1_000_000_000 + t.nanos
}

/// Whether `a` comes strictly before `b`.
pub fn instant_before(a: UtcTime, b: UtcTime) -> (r: bool)
    ensures
        r == (epoch_nanos(a) < epoch_nanos(b)),
{
    let x: i128 = (a.secs as i128) * 1_000_000_000 + (a.nanos as i128);
    let y: i128 = (b.secs as i128) * 1_000_000_000 + (b.nanos as i128);
    x < y
}

/// An instant that the calendar can represent and print: a sub-second part
/// below one second and a year well inside the representable range.
pub open spec fn valid_time(t: UtcTime) -> bool {
    &&& t.nanos < 1_000_000_000
    &&& -8_000_000_000_000 <= t.secs <= 8_000_000_000_000
}

/// The instant an RFC 3339 text denotes, or `None` when it is not one.
pub uninterp spec fn rfc3339_instant(text: Seq<char>) -> Option<UtcTime>;

/// The RFC 3339 text of an instant (UTC offset, sub-seconds only when present).
pub uninterp spec fn rfc3339_text(t: UtcTime) -> Seq<char>;

/// Parses an RFC 3339 date-time with `chrono::DateTime::parse_from_rfc3339`,
/// converted to UTC. The contract names the parse's result (a function of
/// the text alone) without describing the grammar.
#[verifier::external_body]
pub fn parse_rfc3339(text: &str) -> (r: Option<UtcTime>)
    ensures
        r == rfc3339_instant(text@),
{
    match chrono::DateTime::parse_from_rfc3339(text) {
        Ok(t) => Some(UtcTime { secs: t.timestamp(), nanos: t.timestamp_subsec_nanos() }),
        Err(_) => None,
    }
}

/// Whether an instant falls in the years 0000 to 9999, which RFC 3339 can
/// write with its four-digit year.
pub open spec fn four_digit_year(t: UtcTime) -> bool {
    -62167219200 <= t.secs <= 253402300799
}

/// Prints an instant with `chrono::DateTime::<Utc>::to_rfc3339`. The contract
/// names the printed text (a function of the instant alone) and states that
/// `parse_from_rfc3339` reads it back when the year has four digits: the
/// text then carries the year, the time to the nanosecond (0, 3, 6 or 9
/// fraction digits) and the offset `+00:00`.
#[verifier::external_body]
pub fn format_rfc3339(t: UtcTime) -> (r: String)
    requires
        valid_time(t),
    ensures
        r@ == rfc3339_text(t),
        four_digit_year(t) ==> rfc3339_instant(r@) == Some(t),
{
    match chrono::DateTime::<chrono::Utc>::from_timestamp(t.secs, t.nanos) {
        Some(d) => d.to_rfc3339(),
        None => String::new(),
    }
}

/// The current instant, from `chrono::Utc::now()` (the system clock, which
/// never reports a leap second). Which instant comes is left open; it is a
/// valid time. `Utc::now` panics when the system clock is set before 1970;
/// that is a state of the machine, not of any argument, so no `requires`
/// can rule it out and this contract does not cover it.
#[verifier::external_body]
pub fn now_utc() -> (r: UtcTime)
    ensures
        valid_time(r),
{
    let n = chrono::Utc::now();
    UtcTime { secs: n.timestamp(), nanos: n.timestamp_subsec_nanos() }
}

} // verus!
