//! Dates: the Unix seconds of RFC 3339 and RFC 2822 date-times (through
//! chrono), and the wall clock (through std).

use vstd::prelude::*;

verus! {

/// The Unix seconds of an RFC 3339 date-time, as chrono reads it.
pub uninterp spec fn rfc3339_seconds(s: Seq<char>) -> Option<i64>;

/// `chrono::DateTime::parse_from_rfc3339(s)`, taken as Unix seconds: the
/// result is named by [`rfc3339_seconds`], a function of `s` alone.
#[verifier::external_body]
pub(crate) fn parse_rfc3339_seconds(s: &str) -> (r: Option<i64>)
    ensures
        r == rfc3339_seconds(s@),
{
    match chrono::DateTime::parse_from_rfc3339(s) {
        Ok(dt) => Some(dt.timestamp()),
        Err(_) => None,
    }
}

/// The Unix seconds of an RFC 2822 date-time, as chrono reads it.
pub uninterp spec fn rfc2822_seconds(s: Seq<char>) -> Option<i64>;

/// `chrono::DateTime::parse_from_rfc2822(s)`, taken as Unix seconds: the
/// result is named by [`rfc2822_seconds`], a function of `s` alone.
#[verifier::external_body]
pub(crate) fn parse_rfc2822_seconds(s: &str) -> (r: Option<i64>)
    ensures
        r == rfc2822_seconds(s@),
{
    match chrono::DateTime::parse_from_rfc2822(s) {
        Ok(dt) => Some(dt.timestamp()),
        Err(_) => None,
    }
}

#[verifier::external_type_specification]
#[verifier::external_body]
pub struct ExSystemTime(std::time::SystemTime);

/// `SystemTime::now` of std. Nothing is claimed of the result.
#[verifier::external_body]
pub(crate) fn system_now() -> (t: std::time::SystemTime) {
    std::time::SystemTime::now()
}

/// `SystemTime::duration_since(UNIX_EPOCH)` of std, `None` for a clock set
/// before the epoch. Nothing is claimed of the result.
#[verifier::external_body]
pub(crate) fn since_epoch(t: std::time::SystemTime) -> (d: Option<std::time::Duration>) {
    t.duration_since(std::time::UNIX_EPOCH).ok()
}

/// `UNIX_EPOCH.duration_since(t)` of std: how far `t` lies before the
/// epoch, `None` for a time after it. Nothing is claimed of the result.
#[verifier::external_body]
pub(crate) fn until_epoch(t: std::time::SystemTime) -> (d: Option<std::time::Duration>) {
    std::time::UNIX_EPOCH.duration_since(t).ok()
}

/// `Duration::as_secs` of std: the whole seconds of `d`. Nothing is claimed
/// of the result.
#[verifier::external_body]
pub(crate) fn whole_seconds(d: std::time::Duration) -> (s: u64) {
    d.as_secs()
}

/// `Duration::subsec_nanos` of std. Claimed, as its documentation says: the
/// fractional part of a second, below one billion.
#[verifier::external_body]
pub(crate) fn subsec_nanos(d: std::time::Duration) -> (n: u32)
    ensures
        n < 1_000_000_000,
{
    d.subsec_nanos()
}

/// The wall clock in whole Unix seconds, rounded down: negative for a clock
/// set before 1970, and held at the bounds of `i64` beyond them. Reading
/// the clock never fails; of the value read nothing is stated.
pub(crate) fn utc_now_seconds() -> (r: i64) {
    let t = system_now();
    match since_epoch(t) {
        Some(d) => {
            let s = whole_seconds(d);
            if s > 0x7fff_ffff_ffff_ffffu64 {
                0x7fff_ffff_ffff_ffffi64
            } else {
                s as i64
            }
        },
        None => match until_epoch(t) {
            Some(d) => {
                let s = whole_seconds(d);
                let whole: i64 = if s > 0x7fff_ffff_ffff_ffffu64 {
                    0x7fff_ffff_ffff_ffffi64
                } else {
                    s as i64
                };
                if subsec_nanos(d) > 0 {
                    -whole - 1
                } else {
                    -whole
                }
            },
            None => 0,
        },
    }
}

} // verus!
