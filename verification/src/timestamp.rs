//! The shared timestamp policy: instants in UTC with sub-second precision,
//! a total comparison order, RFC 3339 text at the service boundary, and the
//! epoch origin as the default cursor for a first synchronization.

use vstd::prelude::*;

verus! {

/// Least whole-second value an `Instant` may carry: the first representable
/// calendar second (January 1, 262144 BCE).
pub const MIN_SECS: i64 = -8334601228800;

/// Greatest whole-second value an `Instant` may carry: the last representable
/// calendar second (December 31, 262142 CE, 23:59:59).
pub const MAX_SECS: i64 = 8210266876799;

/// A point in UTC time: whole seconds since the Unix epoch plus nanoseconds
/// since that second. A leap second is carried as nanoseconds of
/// 1,000,000,000 or more on the last second of a minute.
#[derive(Clone, Copy, PartialEq, Eq, Structural, Debug)]
pub struct Instant {
    pub secs: i64,
    pub nanos: u32,
}

impl Instant {
    /// The instant lies in the representable calendar range, and its
    /// nanoseconds overflow one second only in the leap-second position.
    pub open spec fn wf(self) -> bool {
        &&& MIN_SECS <= self.secs <= MAX_SECS
        &&& (self.nanos < 1_000_000_000 || (self.nanos < 2_000_000_000 && self.secs % 60 == 59))
    }

    /// Strict order on instants: by seconds, then by nanoseconds.
    pub open spec fn lt(self, other: Instant) -> bool {
        self.secs < other.secs || (self.secs == other.secs && self.nanos < other.nanos)
    }

    /// The epoch origin, 1970-01-01T00:00:00Z: the default cursor, so that a
    /// first synchronization pulls the entire data set.
    pub open spec fn epoch_spec() -> Instant {
        Instant { secs: 0i64, nanos: 0u32 }
    }

    /// The epoch origin as a runtime value.
    pub fn epoch() -> (r: Instant)
        ensures
            r == Instant::epoch_spec(),
    {
        Instant { secs: 0, nanos: 0 }
    }

    /// Decides well-formedness at runtime, for callers that receive an
    /// instant from outside the library.
    pub fn check_wf(&self) -> (r: bool)
        ensures
            r == self.wf(),
    {
        if self.secs < MIN_SECS || self.secs > MAX_SECS {
            return false;
        }
        if self.nanos < 1_000_000_000 {
            return true;
        }
        if self.nanos >= 2_000_000_000 {
            return false;
        }
        match self.secs.checked_rem_euclid(60) {
            Some(x) => x == 59,
            None => false,
        }
    }

    /// Decides the strict order `self < other`.
    pub fn before(&self, other: &Instant) -> (r: bool)
        ensures
            r == self.lt(*other),
    {
        self.secs < other.secs || (self.secs == other.secs && self.nanos < other.nanos)
    }
}

/// What chrono's RFC 3339 parser makes of a string: the instant as
/// (seconds, nanoseconds), or nothing when the text is rejected. The result
/// depends on the characters alone.
pub uninterp spec fn rfc3339_parse(s: Seq<char>) -> Option<(int, int)>;

/// The canonical RFC 3339 text chrono writes for an instant, with an
/// explicit UTC offset. The result depends on the instant alone.
pub uninterp spec fn rfc3339_format(secs: int, nanos: int) -> Seq<char>;

/// Relies on chrono's `str::parse::<DateTime<Utc>>` (RFC 3339 in chrono's
/// relaxed form) to read the text, and on `timestamp` /
/// `timestamp_subsec_nanos` to take the instant out. Every instant chrono
/// can represent lies in the range `wf` names, and chrono stores a parsed
/// leap second as nanoseconds past 10^9 on a minute's last second.
#[verifier::external_body]
pub(crate) fn parse_rfc3339(s: &str) -> (r: Option<Instant>)
    ensures
        (r is Some) == (rfc3339_parse(s@) is Some),
        r is Some ==> rfc3339_parse(s@) == Some(((r->0).secs as int, (r->0).nanos as int)),
        r is Some ==> (r->0).wf(),
{
    match s.parse::<chrono::DateTime<chrono::Utc>>() {
        Ok(t) => Some(Instant { secs: t.timestamp(), nanos: t.timestamp_subsec_nanos() }),
        Err(_) => None,
    }
}

/// Relies on chrono's `DateTime::from_timestamp`, which accepts every
/// instant `wf` names, and `to_rfc3339`, which writes it as RFC 3339 with a
/// UTC offset. chrono documents that `timestamp` and
/// `timestamp_subsec_nanos` round-trip through `from_timestamp`, and its
/// RFC 3339 text parses back to the instant it was written from.
#[verifier::external_body]
pub(crate) fn format_rfc3339(t: Instant) -> (r: String)
    requires
        t.wf(),
    ensures
        r@ == rfc3339_format(t.secs as int, t.nanos as int),
        rfc3339_parse(r@) == Some((t.secs as int, t.nanos as int)),
{
    let d = chrono::DateTime::<chrono::Utc>::from_timestamp(t.secs, t.nanos)
        .expect("a well-formed instant is representable");
    d.to_rfc3339()
}

/// Relies on chrono's `Utc::now`: the current wall-clock time, which lies
/// well inside the representable calendar range. Nothing more is assumed of
/// the clock. Like chrono itself, this aborts on a machine whose clock
/// stands before the Unix epoch.
#[verifier::external_body]
pub(crate) fn now_instant() -> (r: Instant)
    ensures
        r.wf(),
{
    let t = chrono::Utc::now();
    Instant { secs: t.timestamp(), nanos: t.timestamp_subsec_nanos() }
}

/// The cursor a caller-supplied checkpoint denotes: the parsed instant, or
/// the epoch origin when the checkpoint is absent or unreadable.
pub open spec fn cursor_spec(since: Option<Seq<char>>) -> Instant {
    match since {
        Option::Some(s) => match rfc3339_parse(s) {
            Option::Some((secs, nanos)) => Instant { secs: secs as i64, nanos: nanos as u32 },
            Option::None => Instant::epoch_spec(),
        },
        Option::None => Instant::epoch_spec(),
    }
}

/// View of an optional owned string as an optional character sequence.
pub open spec fn opt_view(o: Option<String>) -> Option<Seq<char>> {
    match o {
        Option::Some(s) => Option::Some(s@),
        Option::None => Option::None,
    }
}

/// Turns an optional caller-supplied checkpoint into the cursor to pull
/// from, defaulting to the epoch origin when it is absent or unreadable.
pub fn parse_cursor(since: &Option<String>) -> (r: Instant)
    ensures
        r == cursor_spec(opt_view(*since)),
        r.wf(),
{
    match since {
        Some(s) => match parse_rfc3339(s.as_str()) {
            Some(t) => t,
            None => Instant::epoch(),
        },
        None => Instant::epoch(),
    }
}

} // verus!
