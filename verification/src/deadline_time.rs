//! Reading conference deadlines as UTC instants.
//!
//! Dates and times are read and converted by `chrono` and `chrono_tz`; the
//! choice of format, the end-of-day rule for bare dates and the treatment of
//! `AoE`, `UTC`, `GMT` and IANA zone names are this module's own, and proved.
//! Instants are held as a UNIX timestamp and a nanosecond part, the pair that
//! `DateTime::timestamp` and `DateTime::timestamp_subsec_nanos` give.

use chrono::{Datelike, TimeZone};
use vstd::prelude::*;
use vstd::utf8::encode_utf8;

use crate::common::{join2, join3, join5, owned};
use crate::text::{ascii_lower_seq, chars_equal, chars_of, string_of, to_ascii_lowercase, trim, trim_ws};

verus! {

/// Whether `chrono::DateTime::from_timestamp(secs, nanos)` gives an instant.
pub uninterp spec fn chrono_timestamp_ok(secs: i64, nanos: u32) -> bool;

/// The instant that `chrono::DateTime::parse_from_rfc3339` reads from `s`.
pub uninterp spec fn rfc3339_instant(s: Seq<char>) -> Option<(i64, u32)>;

/// The year, month and day that `chrono::NaiveDate::parse_from_str(s, "%Y-%m-%d")`
/// reads, or the text of the error with which it rejects `s`.
pub uninterp spec fn naive_date_parts(s: Seq<char>) -> Result<(i32, u32, u32), Seq<char>>;

/// The wall-clock time (timestamp as if in UTC) that
/// `NaiveDate::from_ymd_opt(y, m, d)` followed by `and_hms_opt(h, mi, s)` builds.
pub uninterp spec fn naive_from_parts(y: i32, m: u32, d: u32, h: u32, mi: u32, s: u32) -> Option<(i64, u32)>;

/// The wall-clock time that `chrono::NaiveDateTime::parse_from_str(s, fmt)` reads.
pub uninterp spec fn naive_datetime_parse(s: Seq<char>, fmt: Seq<char>) -> Option<(i64, u32)>;

/// The instant that `FixedOffset::west_opt(west)` followed by
/// `from_local_datetime(naive).single()` gives.
pub uninterp spec fn fixed_offset_local(secs: i64, nanos: u32, west: i32) -> Option<(i64, u32)>;

/// What `zone.parse::<chrono_tz::Tz>()` followed by `from_local_datetime(naive)`
/// gives: `None` for an unknown zone name, then `None` for a wall-clock time that
/// does not exist in the zone, else the earliest and the latest matching
/// instants (the same instant twice where it matches once).
pub uninterp spec fn zone_local(zone: Seq<char>, secs: i64, nanos: u32) -> Option<Option<((i64, u32), (i64, u32))>>;

/// The text that `DateTime::<Utc>::to_rfc3339` writes for the instant chrono
/// holds with this timestamp and nanosecond part. Besides the instants that
/// `DateTime::from_timestamp` accepts, chrono holds, after an offset with a
/// seconds part is applied, leap-second instants (a nanosecond part from one
/// to two seconds) at any second of the minute.
pub uninterp spec fn rfc3339_text(secs: i64, nanos: u32) -> Seq<char>;

/// The text that `NaiveDateTime`'s `Display` writes for the wall-clock time.
pub uninterp spec fn naive_text(secs: i64, nanos: u32) -> Seq<char>;

/// `DateTime::from_timestamp(secs, nanos).is_some()`.
#[verifier::external_body]
fn timestamp_is_valid(secs: i64, nanos: u32) -> (r: bool)
    ensures
        r == chrono_timestamp_ok(secs, nanos),
{
    chrono::DateTime::from_timestamp(secs, nanos).is_some()
}

/// `DateTime::parse_from_rfc3339`, read as its UTC instant. The instant is one
/// that `DateTime::from_timestamp` accepts back (chrono documents this round trip).
#[verifier::external_body]
pub(crate) fn parse_rfc3339(s: &str) -> (r: Option<(i64, u32)>)
    ensures
        r == rfc3339_instant(s@),
        r matches Some(t) ==> chrono_timestamp_ok(t.0, t.1),
{
    chrono::DateTime::parse_from_rfc3339(s).ok().map(|d| (d.timestamp(), d.timestamp_subsec_nanos()))
}

/// `NaiveDate::parse_from_str(s, "%Y-%m-%d")`, read as year, month and day,
/// its error as text.
#[verifier::external_body]
fn parse_naive_date(s: &str) -> (r: Result<(i32, u32, u32), String>)
    ensures
        match naive_date_parts(s@) {
            Ok(p) => r == Ok::<(i32, u32, u32), String>(p),
            Err(e) => r matches Err(x) && x@ == e,
        },
{
    let d = chrono::NaiveDate::parse_from_str(s, "%Y-%m-%d").map_err(|e| e.to_string())?;
    Ok((d.year(), d.month(), d.day()))
}

/// `NaiveDate::from_ymd_opt(y, m, d)` then `and_hms_opt(h, mi, s)`, read as a
/// wall-clock timestamp.
#[verifier::external_body]
fn naive_at(y: i32, m: u32, d: u32, h: u32, mi: u32, s: u32) -> (r: Option<(i64, u32)>)
    ensures
        r == naive_from_parts(y, m, d, h, mi, s),
        r matches Some(t) ==> chrono_timestamp_ok(t.0, t.1),
{
    let n = chrono::NaiveDate::from_ymd_opt(y, m, d)?.and_hms_opt(h, mi, s)?.and_utc();
    Some((n.timestamp(), n.timestamp_subsec_nanos()))
}

/// `NaiveDateTime::parse_from_str(s, fmt)`, read as a wall-clock timestamp.
#[verifier::external_body]
fn parse_naive_datetime(s: &str, fmt: &str) -> (r: Option<(i64, u32)>)
    ensures
        r == naive_datetime_parse(s@, fmt@),
        r matches Some(t) ==> chrono_timestamp_ok(t.0, t.1),
{
    let n = chrono::NaiveDateTime::parse_from_str(s, fmt).ok()?.and_utc();
    Some((n.timestamp(), n.timestamp_subsec_nanos()))
}

/// `FixedOffset::west_opt(west)` (which chrono documents as `None` unless
/// `-86400 < west < 86400`), then `from_local_datetime(naive).single()`, with
/// the instant's RFC 3339 text in UTC. A fixed offset maps local time `t` to
/// UTC time `t + west`, keeping the nanosecond part. Where `naive` is a leap
/// second and `west` has a seconds part, the instant is one that
/// `DateTime::from_timestamp` refuses, so nothing of that kind is stated.
#[verifier::external_body]
fn fixed_local_to_utc(secs: i64, nanos: u32, west: i32) -> (r: Option<Option<((i64, u32), String)>>)
    requires
        chrono_timestamp_ok(secs, nanos),
    ensures
        r is Some <==> -86400 < west < 86400,
        r matches Some(x) ==> (x matches Some(p) ==> fixed_offset_local(secs, nanos, west) == Some(p.0))
            && (x is None ==> fixed_offset_local(secs, nanos, west) is None),
        r matches Some(Some(p)) ==> p.0.0 == secs + west && p.0.1 == nanos && p.1@ == rfc3339_text(p.0.0, p.0.1),
{
    let naive = chrono::DateTime::from_timestamp(secs, nanos).unwrap().naive_utc();
    let off = chrono::FixedOffset::west_opt(west)?;
    let st = |d: chrono::DateTime<chrono::FixedOffset>| {
        ((d.timestamp(), d.timestamp_subsec_nanos()), d.with_timezone(&chrono::Utc).to_rfc3339())
    };
    Some(off.from_local_datetime(&naive).single().map(st))
}

/// `zone.parse::<chrono_tz::Tz>()`, then `from_local_datetime(naive)`: the
/// earliest and the latest matching instants (a single match twice), each
/// with its RFC 3339 text in UTC. Nothing is stated of whether `DateTime::from_timestamp` accepts
/// the instant (a zone whose offset has a seconds part moves a leap second
/// off the minute's last second).
#[verifier::external_body]
fn zone_local_to_utc(zone: &str, secs: i64, nanos: u32) -> (r: Option<Option<(((i64, u32), String), ((i64, u32), String))>>)
    requires
        chrono_timestamp_ok(secs, nanos),
    ensures
        r matches Some(x) ==> zone_local(zone@, secs, nanos) matches Some(y) && (x matches Some(p) ==> y == Some(
            (p.0.0, p.1.0),
        )) && (x is None ==> y is None),
        r is None ==> zone_local(zone@, secs, nanos) is None,
        r matches Some(Some(p)) ==> p.0.1@ == rfc3339_text(p.0.0.0, p.0.0.1) && p.1.1@ == rfc3339_text(
            p.1.0.0,
            p.1.0.1,
        ),
{
    let naive = chrono::DateTime::from_timestamp(secs, nanos).unwrap().naive_utc();
    let tz: chrono_tz::Tz = zone.parse().ok()?;
    let st = |d: chrono::DateTime<chrono_tz::Tz>| {
        ((d.timestamp(), d.timestamp_subsec_nanos()), d.with_timezone(&chrono::Utc).to_rfc3339())
    };
    Some(match tz.from_local_datetime(&naive) {
        chrono::LocalResult::Single(d) => Some((st(d), st(d))),
        chrono::LocalResult::Ambiguous(earliest, latest) => Some((st(earliest), st(latest))),
        chrono::LocalResult::None => None,
    })
}

/// `DateTime::<Utc>::to_rfc3339` of the instant.
#[verifier::external_body]
fn format_rfc3339(secs: i64, nanos: u32) -> (r: String)
    requires
        chrono_timestamp_ok(secs, nanos),
    ensures
        r@ == rfc3339_text(secs, nanos),
{
    chrono::DateTime::from_timestamp(secs, nanos).unwrap().to_rfc3339()
}

/// `NaiveDateTime`'s `Display` of the wall-clock time.
#[verifier::external_body]
fn format_naive(secs: i64, nanos: u32) -> (r: String)
    requires
        chrono_timestamp_ok(secs, nanos),
    ensures
        r@ == naive_text(secs, nanos),
{
    chrono::DateTime::from_timestamp(secs, nanos).unwrap().naive_utc().to_string()
}

/// An instant in UTC, as chrono holds it: a UNIX timestamp and a nanosecond
/// part (which exceeds 999,999,999 only for a leap second), with the RFC 3339
/// text chrono writes for it.
#[derive(Debug)]
pub struct UtcDateTime {
    secs: i64,
    nanos: u32,
    text: String,
}

impl View for UtcDateTime {
    type V = (i64, u32);

    closed spec fn view(&self) -> (i64, u32) {
        (self.secs, self.nanos)
    }
}

/// Instants are ordered by timestamp, then by nanoseconds.
pub open spec fn instant_le(a: (i64, u32), b: (i64, u32)) -> bool {
    a.0 < b.0 || (a.0 == b.0 && a.1 <= b.1)
}

impl UtcDateTime {
    #[verifier::type_invariant]
    closed spec fn valid(self) -> bool {
        self.text@ == rfc3339_text(self.secs, self.nanos)
    }

    /// The instant `secs` seconds and `nanos` nanoseconds after the UNIX epoch,
    /// where chrono can hold it.
    pub fn from_timestamp(secs: i64, nanos: u32) -> (r: Option<UtcDateTime>)
        ensures
            r is Some <==> chrono_timestamp_ok(secs, nanos),
            r matches Some(t) ==> t@ == (secs, nanos),
    {
        if timestamp_is_valid(secs, nanos) {
            Some(UtcDateTime::new(secs, nanos))
        } else {
            None
        }
    }

    fn new(secs: i64, nanos: u32) -> (r: UtcDateTime)
        requires
            chrono_timestamp_ok(secs, nanos),
        ensures
            r@ == (secs, nanos),
    {
        UtcDateTime { secs, nanos, text: format_rfc3339(secs, nanos) }
    }

    /// An instant with the text chrono writes for it.
    fn with_text(instant: (i64, u32), text: String) -> (r: UtcDateTime)
        requires
            text@ == rfc3339_text(instant.0, instant.1),
        ensures
            r@ == instant,
    {
        UtcDateTime { secs: instant.0, nanos: instant.1, text }
    }

    /// Seconds since the UNIX epoch.
    pub fn timestamp(&self) -> (r: i64)
        ensures
            r == self@.0,
    {
        self.secs
    }

    /// The nanosecond part.
    pub fn timestamp_subsec_nanos(&self) -> (r: u32)
        ensures
            r == self@.1,
    {
        self.nanos
    }

    /// The RFC 3339 text of the instant, with offset `+00:00`.
    pub fn to_rfc3339(&self) -> (r: String)
        ensures
            r@ == rfc3339_text(self@.0, self@.1),
    {
        proof {
            use_type_invariant(self);
        }
        self.text.clone()
    }

    /// Whether `self` is at or after `other`.
    pub fn is_at_or_after(&self, other: &UtcDateTime) -> (r: bool)
        ensures
            r == instant_le(other@, self@),
    {
        self.secs > other.secs || (self.secs == other.secs && self.nanos >= other.nanos)
    }
}

/// Whether `a` and `b` are equal ignoring ASCII case (`str::eq_ignore_ascii_case`).
pub open spec fn eq_ignore_ascii_case(a: Seq<char>, b: Seq<char>) -> bool {
    ascii_lower_seq(a) == ascii_lower_seq(b)
}

/// Whether `a` and `b` are equal ignoring ASCII case.
pub fn str_eq_ignore_ascii_case(a: &str, b: &str) -> (r: bool)
    ensures
        r == eq_ignore_ascii_case(a@, b@),
{
    let la = chars_of(to_ascii_lowercase(a).as_str());
    let lb = chars_of(to_ascii_lowercase(b).as_str());
    chars_equal(&la, &lb)
}

/// How a deadline's wall-clock time is placed in time; an error is its text.
pub open spec fn localize_spec(naive: (i64, u32), timezone: Seq<char>) -> Result<(i64, u32), Seq<char>> {
    let tz = trim_ws(timezone);
    if eq_ignore_ascii_case(tz, "AoE"@) {
        match fixed_offset_local(naive.0, naive.1, 43200) {
            Some(_) => Ok(((naive.0 + 43200) as i64, naive.1)),
            None => Err("Invalid AoE deadline"@),
        }
    } else if eq_ignore_ascii_case(tz, "UTC"@) || eq_ignore_ascii_case(tz, "GMT"@) {
        Ok(naive)
    } else {
        match zone_local(tz, naive.0, naive.1) {
            None => Err("Unsupported deadline timezone '"@ + tz + "'"@),
            Some(Some(p)) => Ok(p.1),
            Some(None) => Err(
                "Deadline time '"@ + naive_text(naive.0, naive.1) + "' does not exist in timezone '"@
                    + tz + "'"@,
            ),
        }
    }
}

/// The model of a result: the instant, or the error text.
pub open spec fn deadline_result(r: Result<UtcDateTime, String>) -> Result<(i64, u32), Seq<char>> {
    match r {
        Ok(t) => Ok(t@),
        Err(e) => Err(e@),
    }
}

/// Places the wall-clock time `naive` of a deadline in time: `AoE` is UTC-12
/// (the instant twelve hours after the wall-clock time read as UTC),
/// `UTC` and `GMT` are UTC, any other name is looked up as an IANA zone, where
/// an ambiguous time (a clock set back) takes the later of its two instants.
fn localize_deadline(naive: (i64, u32), timezone: &str) -> (r: Result<UtcDateTime, String>)
    requires
        chrono_timestamp_ok(naive.0, naive.1),
    ensures
        deadline_result(r) == localize_spec(naive, timezone@),
{
    let tz = trim(timezone);
    if str_eq_ignore_ascii_case(tz.as_str(), "AoE") {
        return match fixed_local_to_utc(naive.0, naive.1, 43200) {
            None => Err(owned("Invalid AoE offset")),
            Some(None) => Err(owned("Invalid AoE deadline")),
            Some(Some(p)) => Ok(UtcDateTime::with_text(p.0, p.1)),
        };
    }
    if str_eq_ignore_ascii_case(tz.as_str(), "UTC") || str_eq_ignore_ascii_case(tz.as_str(), "GMT") {
        return Ok(UtcDateTime::new(naive.0, naive.1));
    }
    match zone_local_to_utc(tz.as_str(), naive.0, naive.1) {
        None => Err(join3("Unsupported deadline timezone '", tz.as_str(), "'")),
        Some(Some((_, latest))) => Ok(UtcDateTime::with_text(latest.0, latest.1)),
        Some(None) => {
            let shown = format_naive(naive.0, naive.1);
            Err(
                join5(
                    "Deadline time '",
                    shown.as_str(),
                    "' does not exist in timezone '",
                    tz.as_str(),
                    "'",
                ),
            )
        },
    }
}


/// A deadline's text as it is read: trimmed, with every space made `T`.
pub open spec fn normalize_deadline(deadline: Seq<char>) -> Seq<char> {
    trim_ws(deadline).map_values(|c: char| if c == ' ' { 'T' } else { c })
}

/// The wall-clock time of a full timestamp: with seconds, else without.
pub open spec fn naive_timestamp(n: Seq<char>) -> Option<(i64, u32)> {
    match naive_datetime_parse(n, "%Y-%m-%dT%H:%M:%S"@) {
        Some(t) => Some(t),
        None => naive_datetime_parse(n, "%Y-%m-%dT%H:%M"@),
    }
}

/// The reading of a deadline. An RFC 3339 timestamp carries its own offset
/// and ignores `timezone`; a bare date (ten bytes of UTF-8) means 23:59:59 of that day
/// in `timezone`; otherwise a timestamp with or without seconds in
/// `timezone`. An error is its text.
pub open spec fn parse_deadline_spec(deadline: Seq<char>, timezone: Seq<char>) -> Result<(i64, u32), Seq<char>> {
    let n = normalize_deadline(deadline);
    match rfc3339_instant(n) {
        Some(t) => Ok(t),
        None => if encode_utf8(n).len() as usize == 10 {
            match naive_date_parts(n) {
                Err(e) => Err("Invalid deadline date '"@ + deadline + "': "@ + e),
                Ok(p) => match naive_from_parts(p.0, p.1, p.2, 23, 59, 59) {
                    None => Err("Invalid deadline date '"@ + deadline + "'"@),
                    Some(nv) => localize_spec(nv, timezone),
                },
            }
        } else {
            match naive_timestamp(n) {
                None => Err("Invalid deadline timestamp '"@ + deadline + "'"@),
                Some(nv) => localize_spec(nv, timezone),
            }
        },
    }
}

/// Reads a conference deadline as a UTC instant (see `parse_deadline_spec`).
pub fn parse_deadline_utc(deadline: &str, timezone: &str) -> (r: Result<UtcDateTime, String>)
    ensures
        deadline_result(r) == parse_deadline_spec(deadline@, timezone@),
{
    let trimmed = chars_of(trim(deadline).as_str());
    let mut replaced: Vec<char> = Vec::new();
    let mut i: usize = 0;
    while i < trimmed.len()
        invariant
            i <= trimmed@.len(),
            replaced@ == trimmed@.subrange(0, i as int).map_values(
                |c: char| if c == ' ' { 'T' } else { c },
            ),
        decreases trimmed@.len() - i,
    {
        let c = trimmed[i];
        replaced.push(if c == ' ' { 'T' } else { c });
        i += 1;
        assert(replaced@ =~= trimmed@.subrange(0, i as int).map_values(
            |c: char| if c == ' ' { 'T' } else { c },
        ));
    }
    assert(trimmed@.subrange(0, trimmed@.len() as int) =~= trimmed@);
    let normalized = string_of(&replaced);
    assert(normalized@ == normalize_deadline(deadline@));
    if let Some(t) = parse_rfc3339(normalized.as_str()) {
        return Ok(UtcDateTime::new(t.0, t.1));
    }
    let naive = if normalized.as_str().len() == 10 {
        let p = match parse_naive_date(normalized.as_str()) {
            Ok(p) => p,
            Err(e) => {
                let head = join3("Invalid deadline date '", deadline, "': ");
                return Err(join2(head.as_str(), e.as_str()));
            },
        };
        match naive_at(p.0, p.1, p.2, 23, 59, 59) {
            Some(nv) => nv,
            None => return Err(join3("Invalid deadline date '", deadline, "'")),
        }
    } else {
        match parse_naive_datetime(normalized.as_str(), "%Y-%m-%dT%H:%M:%S") {
            Some(nv) => nv,
            None => match parse_naive_datetime(normalized.as_str(), "%Y-%m-%dT%H:%M") {
                Some(nv) => nv,
                None => return Err(join3("Invalid deadline timestamp '", deadline, "'")),
            },
        }
    };
    localize_deadline(naive, timezone)
}

} // verus!
