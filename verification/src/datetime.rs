use vstd::prelude::*;

verus! {

/// Instant a feed entry was published or updated, as seconds and
/// subsecond nanoseconds since the Unix epoch.
#[derive(PartialEq, Eq, Structural, Clone, Copy, Debug)]
pub struct Timestamp {
    pub secs: i64,
    pub nanos: u32,
}

/// Epoch seconds and nanoseconds of an RFC 2822 date string, if it parses.
pub uninterp spec fn rfc2822_epoch_of(s: Seq<char>) -> Option<(i64, u32)>;

/// Epoch seconds and nanoseconds of an RFC 3339 style UTC date string, if it parses.
pub uninterp spec fn utc_epoch_of(s: Seq<char>) -> Option<(i64, u32)>;

/// Relies on chrono's `DateTime::parse_from_rfc2822`, whose result depends on
/// the characters of the input alone; `timestamp` and `timestamp_subsec_nanos`
/// convert the parsed date to plain epoch values.
#[verifier::external_body]
fn parse_rfc2822(date: &str) -> (r: Option<Timestamp>)
    ensures
        r is Some <==> rfc2822_epoch_of(date@) is Some,
        r is Some ==> rfc2822_epoch_of(date@) == Some((r.unwrap().secs, r.unwrap().nanos)),
{
    match chrono::DateTime::parse_from_rfc2822(date) {
        Ok(d) => Some(Timestamp { secs: d.timestamp(), nanos: d.timestamp_subsec_nanos() }),
        Err(_) => None,
    }
}

/// Relies on chrono's `FromStr` for `DateTime<Utc>` (RFC 3339 style dates),
/// whose result depends on the characters of the input alone; `timestamp` and
/// `timestamp_subsec_nanos` convert the parsed date to plain epoch values.
#[verifier::external_body]
fn parse_utc(date: &str) -> (r: Option<Timestamp>)
    ensures
        r is Some <==> utc_epoch_of(date@) is Some,
        r is Some ==> utc_epoch_of(date@) == Some((r.unwrap().secs, r.unwrap().nanos)),
{
    match date.parse::<chrono::DateTime<chrono::Utc>>() {
        Ok(d) => Some(Timestamp { secs: d.timestamp(), nanos: d.timestamp_subsec_nanos() }),
        Err(_) => None,
    }
}

/// What `parse_date` returns: the RFC 2822 reading of the string when there is
/// one, otherwise the RFC 3339 style reading, otherwise nothing.
pub open spec fn spec_parse_date(s: Seq<char>) -> Option<Timestamp> {
    match rfc2822_epoch_of(s) {
        Some(p) => Some(Timestamp { secs: p.0, nanos: p.1 }),
        None => match utc_epoch_of(s) {
            Some(p) => Some(Timestamp { secs: p.0, nanos: p.1 }),
            None => None,
        },
    }
}

/// Parse a date string from a feed document, trying RFC 2822 first and a
/// plain UTC date second.
pub fn parse_date(date: &str) -> (r: Option<Timestamp>)
    ensures
        r == spec_parse_date(date@),
{
    match parse_rfc2822(date) {
        Some(t) => Some(t),
        None => parse_utc(date),
    }
}

} // verus!
