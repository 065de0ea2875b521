use chrono::TimeZone;
use vstd::prelude::*;

verus! {

/// The earliest timestamp (seconds since the Unix epoch, UTC) that chrono can represent.
pub const MIN_TIMESTAMP: i64 = -8334601315200;

/// The latest timestamp (seconds since the Unix epoch, UTC) that chrono can represent.
pub const MAX_TIMESTAMP: i64 = 8210266876799;

/// Nanoseconds in one second.
pub const NANOS_PER_SEC: u32 = 1_000_000_000;

/// The moment a countdown runs to, together with the UTC offset it was written in.
#[derive(Clone, Copy, Debug, PartialEq, Eq, Structural)]
pub struct Target {
    /// Whole seconds since the Unix epoch, UTC.
    pub timestamp: i64,
    /// Nanoseconds past `timestamp`; a leap second shows as 1e9 or more.
    pub nanos: u32,
    /// Seconds east of UTC.
    pub offset: i32,
}

/// A reading of the current time.
#[derive(Clone, Copy, Debug, PartialEq, Eq, Structural)]
pub struct Clock {
    /// Whole seconds since the Unix epoch, UTC.
    pub secs: i64,
    /// Nanoseconds past `secs`.
    pub nanos: u32,
}

impl Target {
    /// The values a date and time of chrono with a fixed offset can take.
    pub open spec fn wf(&self) -> bool {
        &&& MIN_TIMESTAMP <= self.timestamp <= MAX_TIMESTAMP
        &&& self.nanos < 2 * NANOS_PER_SEC
        &&& self.nanos >= NANOS_PER_SEC ==> self.timestamp % 60 == 59
        &&& -86400 < self.offset < 86400
    }

    /// The moment, in nanoseconds since the Unix epoch.
    pub open spec fn instant_nanos(&self) -> int {
        self.timestamp * NANOS_PER_SEC + self.nanos
    }
}

impl Clock {
    pub open spec fn wf(&self) -> bool {
        &&& MIN_TIMESTAMP <= self.secs <= MAX_TIMESTAMP
        &&& self.nanos < NANOS_PER_SEC
    }

    /// The moment, in nanoseconds since the Unix epoch.
    pub open spec fn instant_nanos(&self) -> int {
        self.secs * NANOS_PER_SEC + self.nanos
    }
}

/// What chrono's RFC 3339 parser makes of a text: timestamp, nanoseconds and offset.
pub uninterp spec fn parsed_rfc3339(s: Seq<char>) -> Option<(int, int, int)>;

/// What chrono's `to_rfc3339` writes for a timestamp, nanoseconds and offset.
pub uninterp spec fn rfc3339_text(timestamp: int, nanos: int, offset: int) -> Seq<char>;

/// Relies on `FromStr for chrono::DateTime<FixedOffset>`, which reads RFC 3339
/// timestamps and a few close variants, and depends on the text alone; on success its timestamp, sub-second nanoseconds and offset
/// are read back, which a chrono value always holds within `Target::wf`. On failure
/// chrono's message is returned.
#[verifier::external_body]
pub(crate) fn parse_rfc3339(s: &str) -> (r: Result<Target, String>)
    ensures
        match r {
            Ok(t) => parsed_rfc3339(s@) == Some((t.timestamp as int, t.nanos as int, t.offset as int))
                && t.wf(),
            Err(_) => parsed_rfc3339(s@) is None,
        },
{
    match s.parse::<chrono::DateTime<chrono::FixedOffset>>() {
        Ok(dt) => Ok(Target {
            timestamp: dt.timestamp(),
            nanos: dt.timestamp_subsec_nanos(),
            offset: dt.offset().local_minus_utc(),
        }),
        Err(e) => Err(e.to_string()),
    }
}

/// Relies on `chrono::DateTime::from_timestamp`, `chrono::FixedOffset::east_opt`,
/// and `DateTime::to_rfc3339`: both constructors succeed on the values that
/// `Target::wf` admits, and the text depends on those values alone.
#[verifier::external_body]
pub(crate) fn format_rfc3339(t: &Target) -> (r: String)
    requires
        t.wf(),
    ensures
        r@ == rfc3339_text(t.timestamp as int, t.nanos as int, t.offset as int),
{
    let utc = chrono::DateTime::from_timestamp(t.timestamp, t.nanos).unwrap();
    let offset = chrono::FixedOffset::east_opt(t.offset).unwrap();
    utc.with_timezone(&offset).to_rfc3339()
}

/// Relies on `chrono::Utc::now`: it is built from the system clock (or the
/// browser's `Date`) with a sub-second part under one second, and like every
/// chrono value it lies in chrono's range.
#[verifier::external_body]
pub(crate) fn read_clock() -> (r: Clock)
    ensures
        r.wf(),
{
    let now = chrono::Utc::now();
    Clock { secs: now.timestamp(), nanos: now.timestamp_subsec_nanos() }
}

/// Relies on `chrono::NaiveDateTime::parse_from_str` with the format `%FT%R`
/// (date, hours and minutes) and on `chrono::Local::from_local_datetime`, which
/// places that wall-clock time in the machine's time zone; `None` where the text
/// does not parse or the local time does not name exactly one moment. A time
/// read to the minute has no sub-second part.
#[verifier::external_body]
pub(crate) fn read_local_minute(s: &str) -> (r: Option<Target>)
    ensures
        r matches Some(t) ==> t.wf() && t.nanos == 0,
{
    let naive = chrono::NaiveDateTime::parse_from_str(s, "%FT%R").ok()?;
    let dt = chrono::Local.from_local_datetime(&naive).single()?;
    Some(Target {
        timestamp: dt.timestamp(),
        nanos: dt.timestamp_subsec_nanos(),
        offset: dt.offset().local_minus_utc(),
    })
}

} // verus!
