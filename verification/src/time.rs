//! Points in time, and how they are written.
use vstd::prelude::*;

verus! {

/// A point in time: the seconds since the start of 1970 (UTC), and the nanoseconds behind them.
/// Within a leap second there are a billion nanoseconds more.
#[derive(Debug, Clone, Copy, PartialEq, Eq, Structural)]
pub struct Timestamp {
    pub secs: i64,
    pub nanos: u32,
}

impl Timestamp {
    /// Whether the calendar has the point: it lies within a quarter of a million years, and a
    /// leap second ends a minute.
    pub open spec fn wf(self) -> bool {
        &&& -8_000_000_000_000 <= self.secs <= 8_000_000_000_000
        &&& self.nanos < 1_000_000_000 || (self.nanos < 2_000_000_000 && self.secs % 60 == 59)
    }

    /// Whether the point can be written with a year of four digits.
    pub open spec fn writable(self) -> bool {
        -62_167_219_200 <= self.secs <= 253_402_300_799 && self.nanos < 1_000_000_000
    }

    /// Whether the calendar has the point.
    pub fn is_valid(&self) -> (r: bool)
        ensures
            r == self.wf(),
    {
        if self.secs < -8_000_000_000_000 || self.secs > 8_000_000_000_000 {
            return false;
        }
        if self.nanos < 1_000_000_000 {
            return true;
        }
        self.nanos < 2_000_000_000 && second_of_minute(self.secs) == 59
    }
}

/// The second of the minute that a point lies in.
fn second_of_minute(secs: i64) -> (r: i64)
    requires
        -8_000_000_000_000 <= secs <= 8_000_000_000_000,
    ensures
        r == secs % 60,
{
    let shifted: u64 = (secs + 9_000_000_000_000) as u64;
    (shifted % 60) as i64
}

/// What `DateTime::parse_from_rfc3339` reads, as seconds and nanoseconds, or the message of its
/// error.
pub uninterp spec fn parsed_rfc3339(input: Seq<char>) -> Result<(int, int), Seq<char>>;

/// What `DateTime::to_rfc3339` writes for the seconds and nanoseconds of a point.
pub uninterp spec fn written_rfc3339(secs: int, nanos: int) -> Seq<char>;

/// Whether a text is read as a point.
pub open spec fn reads_as(written: Seq<char>, point: Timestamp) -> bool {
    parsed_rfc3339(written) == Ok::<(int, int), Seq<char>>((point.secs as int, point.nanos as int))
}

/// What a result with a point in time says.
pub open spec fn point_result(r: Result<Timestamp, String>) -> Result<(int, int), Seq<char>> {
    match r {
        Ok(point) => Ok((point.secs as int, point.nanos as int)),
        Err(message) => Err(message@),
    }
}

/// `chrono::DateTime::parse_from_rfc3339`, read in UTC.  What it returns is named; what it reads
/// has a year of four digits, so the calendar has it.
#[verifier::external_body]
fn read_rfc3339(input: &str) -> (r: Result<Timestamp, String>)
    ensures
        point_result(r) == parsed_rfc3339(input@),
        r is Ok ==> r->Ok_0.wf(),
{
    chrono::DateTime::parse_from_rfc3339(input).map(
        |t| Timestamp { secs: t.timestamp(), nanos: t.timestamp_subsec_nanos() },
    ).map_err(|e| e.to_string())
}

/// `chrono::DateTime::to_rfc3339` of a point in UTC.  What it returns is named; for a year of four
/// digits it is read back as the same point.
#[verifier::external_body]
fn write_rfc3339(point: Timestamp) -> (r: String)
    requires
        point.wf(),
    ensures
        r@ == written_rfc3339(point.secs as int, point.nanos as int),
        point.writable() ==> reads_as(r@, point),
{
    chrono::DateTime::from_timestamp(point.secs, point.nanos).unwrap().to_rfc3339()
}

impl Timestamp {
    /// The point that a text names.
    pub fn from_rfc3339(input: &str) -> (r: Result<Self, String>)
        ensures
            point_result(r) == parsed_rfc3339(input@),
            r is Ok ==> r->Ok_0.wf(),
    {
        read_rfc3339(input)
    }

    /// The text that names the point.  With a year of four digits it is read back as the point.
    pub fn to_rfc3339(self) -> (r: String)
        requires
            self.wf(),
        ensures
            r@ == written_rfc3339(self.secs as int, self.nanos as int),
            self.writable() ==> reads_as(r@, self),
    {
        write_rfc3339(self)
    }

    /// Whether the point is no later than another.
    pub open spec fn at_most(self, other: Timestamp) -> bool {
        self.secs < other.secs || (self.secs == other.secs && self.nanos <= other.nanos)
    }

    /// The start of the minute that the point lies in, in seconds.
    pub open spec fn minute_start(self) -> int {
        self.secs - self.secs % 60
    }

    /// The start of the minute that the point lies in, in seconds.
    pub fn start_of_minute(&self) -> (r: i64)
        requires
            self.wf(),
        ensures
            r == self.minute_start(),
    {
        self.secs - second_of_minute(self.secs)
    }
}

/// What an optional point in time is written as.
pub open spec fn opt_written(point: Option<Timestamp>) -> Option<Seq<char>> {
    match point {
        Some(point) => Some(written_rfc3339(point.secs as int, point.nanos as int)),
        None => None,
    }
}

/// What an optional point in time is written as.
pub fn written(point: Option<Timestamp>) -> (r: Option<String>)
    requires
        point is Some ==> point->0.wf(),
    ensures
        crate::text::opt_view(r) == opt_written(point),
{
    match point {
        Some(point) => Some(point.to_rfc3339()),
        None => None,
    }
}

/// A minute starts at a whole minute that is less than a minute ago.
pub proof fn law_minutes_start_at_whole_minutes(point: Timestamp)
    ensures
        point.minute_start() % 60 == 0,
        point.minute_start() <= point.secs < point.minute_start() + 60,
{
}

/// Points in time are ordered by their seconds, and within a second by what is beyond it.
pub proof fn law_points_are_ordered(a: Timestamp, b: Timestamp)
    ensures
        a.secs < b.secs ==> a.at_most(b) && !b.at_most(a),
        a.secs == b.secs ==> (a.at_most(b) <==> a.nanos <= b.nanos),
        a.at_most(b) && b.at_most(a) <==> a == b,
{
}

/// What is written of a point in time is that point, and nothing is written of none.
pub proof fn law_known_points_are_written(point: Option<Timestamp>)
    ensures
        point is None ==> opt_written(point) is None,
        point is Some ==> opt_written(point) == Some(
            written_rfc3339(point->0.secs as int, point->0.nanos as int),
        ),
{
}

} // verus!
