//! Wall-clock and RFC 3339 helpers (through the `time` crate).

use vstd::prelude::*;
use vstd::string::*;

verus! {

/// RFC 3339 UTC text of the instant `ts` seconds after the Unix epoch, as
/// `time` formats it; `None` when `time` cannot represent or format it.
pub uninterp spec fn rfc3339_text(ts: i64) -> Option<Seq<char>>;

/// Unix seconds of an RFC 3339 timestamp, as `time` parses it; `None`
/// when `time` rejects the text.
pub uninterp spec fn rfc3339_unix(text: Seq<char>) -> Option<i64>;

/// Latest timestamp (9999-12-31T23:59:59Z) the `time` crate represents
/// without its `large-dates` feature.
pub open spec fn max_rfc3339_unix() -> i64 {
    253402300799
}

/// `time::OffsetDateTime::from_unix_timestamp(ts)` formatted with
/// `time::format_description::well_known::Rfc3339`. Trusted: the result is
/// the named text of `ts`, every instant from the epoch through the end of
/// year 9999 formats, and a formatted text (four-digit year, `T`, whole
/// seconds, `Z`) parses back to `ts`.
#[verifier::external_body]
fn format_unix_rfc3339(ts: i64) -> (r: Option<String>)
    ensures
        match r {
            Some(s) => rfc3339_text(ts) == Some(s@),
            None => rfc3339_text(ts) is None,
        },
        0 <= ts <= max_rfc3339_unix() ==> r is Some,
        r matches Some(s) ==> rfc3339_unix(s@) == Some(ts),
{
    time::OffsetDateTime::from_unix_timestamp(ts).ok()?.format(&time::format_description::well_known::Rfc3339).ok()
}

/// `time::OffsetDateTime::parse(s, &Rfc3339)` read back as unix seconds
/// (`unix_timestamp`); the parse error is rendered with its `Display`.
/// Trusted: an accepted text gives its named unix seconds; the error text
/// is not stated.
#[verifier::external_body]
fn parse_rfc3339_unix(s: &str) -> (r: Result<i64, String>)
    ensures
        match r {
            Ok(u) => rfc3339_unix(s@) == Some(u),
            Err(_) => rfc3339_unix(s@) is None,
        },
{
    match time::OffsetDateTime::parse(s, &time::format_description::well_known::Rfc3339) {
        Ok(t) => Ok(t.unix_timestamp()),
        Err(e) => Err(format!("{e}")),
    }
}

/// `std::time::SystemTime::now()` as whole seconds since the Unix epoch
/// (0 when the clock reads before the epoch). Trusted: the value depends
/// on the machine's clock; nothing is stated of it.
#[verifier::external_body]
pub(crate) fn unix_now() -> (r: u64) {
    std::time::SystemTime::now().duration_since(std::time::UNIX_EPOCH).map_or(0, |d| d.as_secs())
}

/// Fallback rendering for unrepresentable timestamps.
pub open spec fn epoch_text() -> Seq<char> {
    "1970-01-01T00:00:00Z"@
}

/// `unix` as a signed timestamp, clamped to `i64::MAX`.
pub open spec fn clamp_i64(unix: u64) -> i64 {
    if unix <= i64::MAX {
        unix as i64
    } else {
        i64::MAX
    }
}

/// RFC 3339 UTC text of unix seconds, the epoch when not representable.
pub open spec fn rfc3339_of_spec(unix: u64) -> Seq<char> {
    match rfc3339_text(clamp_i64(unix)) {
        Some(t) => t,
        None => epoch_text(),
    }
}

/// Format unix seconds as RFC 3339 UTC; seconds beyond `i64::MAX` clamp
/// to it, and an unrepresentable time renders as the epoch. Through the
/// end of year 9999 the text parses back to the same seconds, so
/// [`unix_of`] gives `unix` back.
pub fn rfc3339_of(unix: u64) -> (r: String)
    ensures
        r@ == rfc3339_of_spec(unix),
        unix <= max_rfc3339_unix() ==> rfc3339_unix(r@) == Some(unix as i64),
{
    let ts: i64 = if unix <= 0x7fff_ffff_ffff_ffffu64 {
        unix as i64
    } else {
        0x7fff_ffff_ffff_ffffi64
    };
    match format_unix_rfc3339(ts) {
        Some(s) => s,
        None => String::from_str("1970-01-01T00:00:00Z"),
    }
}

/// Wall clock as RFC 3339.
pub fn now_rfc3339() -> (r: String)
    ensures
        exists|u: u64| r@ == rfc3339_of_spec(u),
{
    let u = unix_now();
    rfc3339_of(u)
}

/// Parse an RFC 3339 timestamp to unix seconds; times before 1970 are
/// refused with `time must not be before 1970`, unparsable text with a
/// message starting `invalid RFC 3339 time: `.
pub fn unix_of(ts: &str) -> (r: Result<u64, String>)
    ensures
        match rfc3339_unix(ts@) {
            Some(u) => if u >= 0 {
                r == Ok::<u64, String>(u as u64)
            } else {
                r matches Err(m) && m@ == "time must not be before 1970"@
            },
            None => r matches Err(m) && m@.len() >= 23 && m@.subrange(0, 23) == "invalid RFC 3339 time: "@,
        },
{
    match parse_rfc3339_unix(ts) {
        Err(e) => {
            let mut m = String::from_str("invalid RFC 3339 time: ");
            proof {
                reveal_strlit("invalid RFC 3339 time: ");
            }
            m.append(e.as_str());
            assert(m@.subrange(0, 23) =~= "invalid RFC 3339 time: "@);
            Err(m)
        },
        Ok(u) => {
            if u < 0 {
                Err(String::from_str("time must not be before 1970"))
            } else {
                Ok(u as u64)
            }
        },
    }
}

} // verus!
