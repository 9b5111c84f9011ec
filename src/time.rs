use vstd::prelude::*;

verus! {

/// Nanoseconds in one second.
pub const NANOS_PER_SEC: u32 = 1_000_000_000;

/// A UTC instant: whole seconds since the unix epoch and the nanoseconds
/// within that second.
///
/// Instants are ordered by seconds first, then by nanoseconds.
#[derive(Clone, Copy, Debug, PartialEq, Eq, Structural)]
pub struct Dt {
    pub secs: i64,
    pub nanos: u32,
}

/// What chrono reads from an RFC 3339 text: the unix seconds and the
/// sub-second nanoseconds of the instant it denotes, or nothing when the text
/// does not parse.
pub uninterp spec fn rfc3339_instant(s: Seq<char>) -> Option<(i64, u32)>;

/// Relies on `chrono::DateTime::parse_from_rfc3339` and on
/// `DateTime::timestamp` / `DateTime::timestamp_subsec_nanos`: the instant
/// depends on the text alone.
#[verifier::external_body]
fn rfc3339_parts(s: &str) -> (r: Option<(i64, u32)>)
    ensures
        r == rfc3339_instant(s@),
{
    match chrono::DateTime::parse_from_rfc3339(s) {
        Ok(d) => Some((d.timestamp(), d.timestamp_subsec_nanos())),
        Err(_) => None,
    }
}

/// Relies on `chrono::Utc::now`: the current instant of the system clock.
/// Nothing is known of the value.
#[verifier::external_body]
fn clock_now() -> (r: (i64, u32)) {
    let n = chrono::Utc::now();
    (n.timestamp(), n.timestamp_subsec_nanos())
}

impl Dt {
    /// `self` lies strictly before `other`.
    pub open spec fn earlier(self, other: Dt) -> bool {
        self.secs < other.secs || (self.secs == other.secs && self.nanos < other.nanos)
    }

    /// `self` lies before `other` or is the same instant.
    pub open spec fn no_later(self, other: Dt) -> bool {
        self.earlier(other) || self == other
    }

    /// Well-formed: the nanoseconds stay within one second.
    pub open spec fn wf(self) -> bool {
        self.nanos < NANOS_PER_SEC
    }

    /// The instant `secs` seconds and `nsecs` nanoseconds after the epoch;
    /// `None` when `nsecs` is a second or more.
    pub fn from_timestamp(secs: i64, nsecs: u32) -> (r: Option<Dt>)
        ensures
            r == (if nsecs < NANOS_PER_SEC {
                Some(Dt { secs, nanos: nsecs })
            } else {
                None::<Dt>
            }),
    {
        if nsecs < NANOS_PER_SEC {
            Some(Dt { secs, nanos: nsecs })
        } else {
            None
        }
    }

    /// Parses an RFC 3339 date-time (any offset; the instant is kept).
    pub fn parse_rfc3339(s: &str) -> (r: Option<Dt>)
        ensures
            r == (match rfc3339_instant(s@) {
                Some((secs, nsecs)) => if nsecs < NANOS_PER_SEC {
                    Some(Dt { secs, nanos: nsecs })
                } else {
                    None::<Dt>
                },
                None => None::<Dt>,
            }),
    {
        match rfc3339_parts(s) {
            Some((secs, nsecs)) => Dt::from_timestamp(secs, nsecs),
            None => None,
        }
    }

    /// The current instant of the system clock.
    pub fn now() -> (r: Dt) {
        let (secs, nanos) = clock_now();
        Dt { secs, nanos }
    }

    /// Seconds since the unix epoch.
    pub fn timestamp(&self) -> (r: i64)
        ensures
            r == self.secs,
    {
        self.secs
    }

    /// Nanoseconds within the second.
    pub fn timestamp_subsec_nanos(&self) -> (r: u32)
        ensures
            r == self.nanos,
    {
        self.nanos
    }

    /// Whether `self` lies strictly before `other`.
    pub fn is_earlier(&self, other: &Dt) -> (r: bool)
        ensures
            r == self.earlier(*other),
    {
        self.secs < other.secs || (self.secs == other.secs && self.nanos < other.nanos)
    }
}

} // verus!
