//! Instants on the UTC time line, counted in whole seconds and nanoseconds
//! since 1970-01-01T00:00:00Z. An instant is any that an RFC 3339 timestamp
//! can denote: the years 0000 to 9999 of any offset, which in UTC reach one
//! day further on either side.

use vstd::prelude::*;

verus! {

/// Nanoseconds in one second.
pub const NANOS_PER_SEC: u32 = 1_000_000_000;

/// Seconds in one calendar day.
pub const SECS_PER_DAY: i64 = 86_400;

/// Nanoseconds in one calendar day.
pub const NANOS_PER_DAY: i128 = 86_400_000_000_000;

/// Seconds from the epoch to the first second of an instant: one day before
/// 0000-01-01T00:00:00Z. It is a whole number of days.
pub const MIN_SECS: i64 = -62_167_305_600;

/// Seconds from the epoch to the last second of an instant: one day after
/// 9999-12-31T23:59:59Z.
pub const MAX_SECS: i64 = 253_402_387_199;

/// Days from the epoch to the day of the first instant, the day before
/// 0000-01-01.
pub const MIN_DAY: i32 = -719_529;

/// Days from the epoch to the day of the last instant, the day after
/// 9999-12-31.
pub const MAX_DAY: i32 = 2_932_897;

/// Nanoseconds from the epoch to the first instant.
pub const MIN_NANOS: i128 = -62_167_305_600_000_000_000;

/// Nanoseconds from the epoch to the last instant.
pub const MAX_NANOS: i128 = 253_402_387_199_999_999_999;

/// Whether `n` nanoseconds since the epoch are an instant.
pub open spec fn representable(n: int) -> bool {
    MIN_NANOS <= n <= MAX_NANOS
}

/// What `chrono::DateTime::parse_from_rfc3339` reads from a text: the UTC
/// seconds since the epoch and the nanoseconds past that second, or nothing
/// where it rejects the text.
pub uninterp spec fn rfc3339_reading(text: Seq<char>) -> Option<(i64, u32)>;

/// The calendar date that `chrono` prints for the day that lies `day` days
/// after 1970-01-01, or nothing where `chrono` holds no such day.
pub uninterp spec fn date_reading(day: i32) -> Option<Seq<char>>;

/// `chrono::ParseError`, the finding of `chrono`'s parsers. It is carried
/// through unread.
#[verifier::external_type_specification]
#[verifier::external_body]
pub struct ExParseError(chrono::ParseError);

/// A point on the UTC time line that an RFC 3339 timestamp can denote.
#[derive(Clone, Copy, Debug, PartialEq, Eq)]
pub struct Instant {
    secs: i64,
    nanos: u32,
}

impl View for Instant {
    type V = int;

    /// Nanoseconds since the epoch.
    open spec fn view(&self) -> int {
        self.spec_secs() * NANOS_PER_SEC + self.spec_subsec_nanos()
    }
}

/// Calls `chrono::DateTime::parse_from_rfc3339` and hands out the UTC seconds
/// and nanoseconds of what it read. Trusted: the outcome is a function of the
/// text alone, named `rfc3339_reading`. What is read has a year of four
/// digits and an offset of less than a day, so its UTC second lies less than
/// a day outside the years 0000 to 9999; its nanoseconds stay under two
/// seconds, the second one being a leap second.
#[verifier::external_body]
fn read_rfc3339(text: &str) -> (r: Result<(i64, u32), chrono::ParseError>)
    ensures
        r matches Ok(parts) ==> rfc3339_reading(text@) == Some(parts),
        r matches Ok(parts) ==> MIN_SECS < parts.0 < MAX_SECS && parts.1 < 2_000_000_000,
        r is Err ==> rfc3339_reading(text@) is None,
{
    match chrono::DateTime::parse_from_rfc3339(text) {
        Ok(at) => Ok((at.timestamp(), at.timestamp_subsec_nanos())),
        Err(fault) => Err(fault),
    }
}

/// Calls `chrono::NaiveDate::from_epoch_days` and prints the date with
/// `chrono`'s `Display`. Trusted: the outcome is a function of the day number
/// alone, named `date_reading`, and `chrono` holds every day from the one
/// before 0000-01-01 to the one after 9999-12-31.
#[verifier::external_body]
fn print_date(day: i32) -> (r: Option<String>)
    ensures
        r matches Some(text) ==> date_reading(day) == Some(text@),
        r is None ==> date_reading(day) is None,
        MIN_DAY <= day <= MAX_DAY ==> r is Some,
{
    match chrono::NaiveDate::from_epoch_days(day) {
        Some(date) => Some(date.to_string()),
        None => None,
    }
}

/// The instant that a text denotes, in nanoseconds since the epoch: what the
/// RFC 3339 parser reads from it, or nothing where the parser rejects it.
pub open spec fn parsed_instant(text: Seq<char>) -> Option<int> {
    match rfc3339_reading(text) {
        Some(parts) => Some(parts.0 * NANOS_PER_SEC + parts.1),
        None => None,
    }
}

impl Instant {
    /// Whole seconds since the epoch, rounded towards the past.
    pub closed spec fn spec_secs(&self) -> i64 {
        self.secs
    }

    /// Nanoseconds past the whole second.
    pub closed spec fn spec_subsec_nanos(&self) -> u32 {
        self.nanos
    }

    /// The seconds lie in the range of instants and the nanoseconds within one
    /// second.
    #[verifier::type_invariant]
    pub open spec fn wf(self) -> bool {
        &&& MIN_SECS <= self.spec_secs() <= MAX_SECS
        &&& self.spec_subsec_nanos() < NANOS_PER_SEC
    }

    /// Whole days from the epoch to the UTC calendar day that holds this instant.
    pub open spec fn day_number(self) -> int {
        (self.spec_secs() as int) / (SECS_PER_DAY as int)
    }

    /// Where the UTC calendar day of this instant starts, in nanoseconds since
    /// the epoch.
    pub open spec fn day_start(self) -> int {
        self.day_number() * NANOS_PER_DAY
    }

    /// The calendar date of this instant in UTC: the date of its day, as
    /// `chrono` prints it.
    pub open spec fn date_text(self) -> Seq<char> {
        date_reading(self.day_number() as i32)->0
    }

    /// The instant `nanos` nanoseconds after the whole second `secs`, where
    /// that is an instant. A nanosecond count of a second or more carries over
    /// into the seconds.
    fn settle(secs: i64, nanos: u32) -> (r: Instant)
        requires
            representable(secs * NANOS_PER_SEC + nanos),
        ensures
            r.wf(),
            r@ == secs * NANOS_PER_SEC + nanos,
    {
        let carry: u32 = nanos / NANOS_PER_SEC;
        let rest: u32 = nanos % NANOS_PER_SEC;
        Instant { secs: secs + carry as i64, nanos: rest }
    }

    /// The instant `nanos` nanoseconds after the whole second `secs`, if that
    /// is an instant. A nanosecond count of a second or more carries over
    /// into the seconds.
    pub fn from_parts(secs: i64, nanos: u32) -> (r: Option<Instant>)
        ensures
            r is Some == representable(secs * NANOS_PER_SEC + nanos),
            r matches Some(t) ==> t.wf() && t@ == secs * NANOS_PER_SEC + nanos,
    {
        let total: i128 = secs as i128 * 1_000_000_000 + nanos as i128;
        if total < MIN_NANOS || total > MAX_NANOS {
            None
        } else {
            Some(Instant::settle(secs, nanos))
        }
    }

    /// The instant `n` nanoseconds after the epoch, if that is an instant.
    pub fn from_nanos(n: i128) -> (r: Option<Instant>)
        ensures
            r is Some == representable(n as int),
            r matches Some(t) ==> t.wf() && t@ == n,
    {
        if n < MIN_NANOS || n > MAX_NANOS {
            return None;
        }
        let offset: i128 = n - MIN_NANOS;
        let whole: i128 = offset / NANOS_PER_SEC as i128;
        let rest: i128 = offset % NANOS_PER_SEC as i128;
        Some(Instant { secs: (MIN_SECS as i128 + whole) as i64, nanos: rest as u32 })
    }

    /// Nanoseconds since the epoch.
    pub fn to_nanos(&self) -> (r: i128)
        ensures
            r == self@,
            representable(r as int),
            self.wf(),
    {
        proof {
            use_type_invariant(self);
        }
        self.secs as i128 * 1_000_000_000 + self.nanos as i128
    }

    /// Whole seconds since the epoch, rounded towards the past.
    #[verifier::when_used_as_spec(spec_secs)]
    pub fn secs(&self) -> (r: i64)
        ensures
            r == self.spec_secs(),
            self.wf(),
    {
        proof {
            use_type_invariant(self);
        }
        self.secs
    }

    /// Nanoseconds past the whole second.
    #[verifier::when_used_as_spec(spec_subsec_nanos)]
    pub fn subsec_nanos(&self) -> (r: u32)
        ensures
            r == self.spec_subsec_nanos(),
            self.wf(),
    {
        proof {
            use_type_invariant(self);
        }
        self.nanos
    }

    /// Whether this instant is strictly earlier than `other`.
    pub fn precedes(&self, other: &Instant) -> (r: bool)
        ensures
            r == (self@ < other@),
    {
        self.to_nanos() < other.to_nanos()
    }

    /// Whether this instant is `other` or earlier.
    pub fn not_after(&self, other: &Instant) -> (r: bool)
        ensures
            r == (self@ <= other@),
    {
        self.to_nanos() <= other.to_nanos()
    }

    /// The first instant of the UTC calendar day that holds this one.
    pub fn start_of_day(&self) -> (r: Instant)
        ensures
            r@ == self.day_start(),
            r@ <= self@ < r@ + NANOS_PER_DAY,
    {
        proof {
            use_type_invariant(self);
        }
        let into_day: i64 = (self.secs - MIN_SECS) % SECS_PER_DAY;
        let first: i64 = self.secs - into_day;
        assert(first == self.day_number() * SECS_PER_DAY);
        assert(first * NANOS_PER_SEC == self.day_number() * NANOS_PER_DAY) by (nonlinear_arith)
            requires
                first == self.day_number() * 86_400,
                NANOS_PER_SEC == 1_000_000_000,
                NANOS_PER_DAY == 86_400_000_000_000,
        ;
        Instant { secs: first, nanos: 0 }
    }

    /// Reads an RFC 3339 timestamp, such as `2024-03-01T00:00:00Z`. A text
    /// that the parser rejects gives the parser's finding. A leap second
    /// counts as the start of the second after it.
    pub fn parse(text: &str) -> (r: Result<Instant, chrono::ParseError>)
        ensures
            r is Ok == parsed_instant(text@) is Some,
            r matches Ok(t) ==> t.wf() && parsed_instant(text@) == Some(t@),
    {
        match read_rfc3339(text) {
            Ok(parts) => Ok(Instant::settle(parts.0, parts.1)),
            Err(cause) => Err(cause),
        }
    }

    /// Instants of one UTC calendar day have one date text.
    pub proof fn law_same_day_same_date(self, other: Instant)
        requires
            self.day_number() == other.day_number(),
        ensures
            self.date_text() == other.date_text(),
    {
    }

    /// Whole days from the epoch to the UTC calendar day of this instant.
    pub fn day(&self) -> (r: i32)
        ensures
            r == self.day_number(),
            MIN_DAY <= r <= MAX_DAY,
    {
        proof {
            use_type_invariant(self);
        }
        let since_first: i64 = (self.secs - MIN_SECS) / SECS_PER_DAY;
        (since_first - 719_529) as i32
    }

    /// The calendar date of this instant in UTC, such as `2024-03-01`.
    pub fn date_label(&self) -> (r: String)
        ensures
            r@ == self.date_text(),
    {
        match print_date(self.day()) {
            Some(text) => text,
            None => {
                proof {
                    assert(false);
                }
                String::new()
            },
        }
    }
}

} // verus!
