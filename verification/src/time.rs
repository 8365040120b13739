//! Points in time, and the calendar arithmetic that the `chrono` crate does on them.

use vstd::prelude::*;

verus! {

/// The first second that a calendar date can name.
pub const FIRST_SECOND: i64 = -8334601228800;

/// The last second that a calendar date can name.
pub const LAST_SECOND: i64 = 8210266876799;

/// A point in time: seconds since 1970 and nanoseconds into that second.
///
/// Nanoseconds of a thousand million and more mark a leap second.
#[derive(Debug, Clone, Copy, PartialEq, Eq, Structural)]
pub struct Timestamp {
    pub secs: i64,
    pub nanos: u32,
}

/// A signed length of time: whole seconds, rounded towards zero, and the rest in
/// nanoseconds, with the same sign.
#[derive(Debug, Clone, Copy, PartialEq, Eq, Structural)]
pub struct TimeSpan {
    pub secs: i64,
    pub nanos: i32,
}

/// The quotient of a division that rounds towards zero.
pub open spec fn quotient(a: int, b: int) -> int {
    if a >= 0 {
        a / b
    } else {
        -((-a) / b)
    }
}

impl TimeSpan {
    /// The length in nanoseconds.
    pub open spec fn total(self) -> int {
        self.secs * 1_000_000_000 + self.nanos
    }

    /// Whether the seconds and the rest have one sign and the rest is below a second.
    pub open spec fn valid(self) -> bool {
        &&& -1_000_000_000 < self.nanos < 1_000_000_000
        &&& self.secs > 0 ==> self.nanos >= 0
        &&& self.secs < 0 ==> self.nanos <= 0
        &&& -9223372036854775 <= self.secs <= 9223372036854775
    }

    /// The length of a number of milliseconds.
    pub fn milliseconds(ms: i64) -> (r: TimeSpan)
        requires
            ms > i64::MIN,
        ensures
            r.total() == ms * 1_000_000,
            r.valid(),
    {
        if ms >= 0 {
            TimeSpan { secs: ms / 1000, nanos: ((ms % 1000) as i32) * 1_000_000 }
        } else {
            let m: i64 = -ms;
            TimeSpan { secs: -(m / 1000), nanos: -(((m % 1000) as i32) * 1_000_000) }
        }
    }

    /// The length without its sign, in nanoseconds.
    pub open spec fn magnitude(self) -> int {
        if self.total() < 0 {
            -self.total()
        } else {
            self.total()
        }
    }

    fn magnitude_nanos(&self) -> (r: i128)
        ensures
            r == self.magnitude(),
    {
        let total: i128 = self.secs as i128 * 1_000_000_000 + self.nanos as i128;
        if total < 0 {
            -total
        } else {
            total
        }
    }

    /// Decides whether a length of time is not longer than another, whatever their signs.
    pub fn is_not_longer(&self, other: &TimeSpan) -> (r: bool)
        ensures
            r == (self.magnitude() <= other.magnitude()),
    {
        self.magnitude_nanos() <= other.magnitude_nanos()
    }

    /// The number of whole milliseconds, rounded towards zero.
    pub fn num_milliseconds(&self) -> (r: i64)
        requires
            self.valid(),
            -9_000_000_000_000_000 < self.secs < 9_000_000_000_000_000,
        ensures
            r == quotient(self.total(), 1_000_000),
    {
        if self.secs >= 0 && self.nanos >= 0 {
            let part: i64 = (self.nanos / 1_000_000) as i64;
            assert(self.total() / 1_000_000 == self.secs * 1000 + self.nanos as int / 1_000_000);
            self.secs * 1000 + part
        } else {
            let part: i64 = ((-self.nanos) / 1_000_000) as i64;
            assert((-self.total()) / 1_000_000 == (-self.secs) * 1000 + (-(self.nanos as int))
                / 1_000_000);
            self.secs * 1000 - part
        }
    }
}

impl Timestamp {
    /// Whether the calendar has a date for this point in time.
    pub open spec fn valid(self) -> bool {
        &&& FIRST_SECOND <= self.secs <= LAST_SECOND
        &&& self.nanos < 1_000_000_000 || (self.nanos < 2_000_000_000 && self.secs as int % 60 == 59)
    }

    /// Nanoseconds since 1970, a leap second counted as the second before it.
    pub open spec fn total(self) -> int {
        self.secs * 1_000_000_000 + self.nanos
    }

    /// Whether this point in time is before another.
    pub open spec fn lt(self, other: Timestamp) -> bool {
        self.secs < other.secs || (self.secs == other.secs && self.nanos < other.nanos)
    }

    /// Whether this point in time is not after another.
    pub open spec fn le(self, other: Timestamp) -> bool {
        self.secs < other.secs || (self.secs == other.secs && self.nanos <= other.nanos)
    }

    /// Decides whether this point in time is before another.
    pub fn is_before(&self, other: &Timestamp) -> (r: bool)
        ensures
            r == self.lt(*other),
    {
        self.secs < other.secs || (self.secs == other.secs && self.nanos < other.nanos)
    }

    /// Decides whether this point in time is not after another.
    pub fn is_not_after(&self, other: &Timestamp) -> (r: bool)
        ensures
            r == self.le(*other),
    {
        self.secs < other.secs || (self.secs == other.secs && self.nanos <= other.nanos)
    }

    /// Whether this point in time lies in a leap second, and moving it by `delta`
    /// nanoseconds leads no further than to the end of it or less than a second back.
    pub open spec fn stays_near_leap(self, delta: int) -> bool {
        self.is_leap() && -1_000_000_000 < delta && self.nanos + delta < 2_000_000_000
    }

    /// Nanoseconds since 1970 of the point in time `delta` nanoseconds later. A leap second
    /// that is passed is not counted.
    pub open spec fn moved_total(self, delta: int) -> int {
        if self.is_leap() && -1_000_000_000 < delta {
            self.total() + delta - 1_000_000_000
        } else {
            self.total() + delta
        }
    }

    /// Whether moving this point in time by `delta` nanoseconds stays in the range of
    /// the calendar.
    pub open spec fn can_move(self, delta: int) -> bool {
        &&& self.valid()
        &&& self.stays_near_leap(delta) || FIRST_SECOND * 1_000_000_000 <= self.moved_total(delta)
            <= LAST_SECOND * 1_000_000_000 + 999_999_999
    }

    /// The point in time as many nanoseconds after 1970, outside leap seconds.
    pub open spec fn of_total(total: int) -> Timestamp {
        Timestamp { secs: (total / 1_000_000_000) as i64, nanos: (total % 1_000_000_000) as u32 }
    }

    /// Whether this point in time lies in a leap second.
    pub open spec fn is_leap(self) -> bool {
        self.nanos >= 1_000_000_000
    }

    /// The point in time `delta` nanoseconds later.
    pub open spec fn shifted(self, delta: int) -> Timestamp {
        if self.stays_near_leap(delta) {
            Timestamp { secs: self.secs, nanos: (self.nanos + delta) as u32 }
        } else {
            Timestamp::of_total(self.moved_total(delta))
        }
    }

    /// The point in time `ms` milliseconds later.
    pub open spec fn plus_ms(self, ms: int) -> Timestamp {
        self.shifted(ms * 1_000_000)
    }

    /// The point in time `us` microseconds later.
    pub open spec fn plus_us(self, us: int) -> Timestamp {
        self.shifted(us * 1000)
    }

    /// Seconds since midnight.
    pub open spec fn second_of_day(self) -> int {
        self.secs as int % 86400
    }

    /// The nanoseconds from `from` to this point in time. The leap second of the one with
    /// the earlier time of day is counted.
    pub open spec fn since(self, from: Timestamp) -> int {
        let plain = self.total() - from.total();
        if self.second_of_day() > from.second_of_day() && from.is_leap() {
            plain + 1_000_000_000
        } else if self.second_of_day() < from.second_of_day() && self.is_leap() {
            plain - 1_000_000_000
        } else {
            plain
        }
    }

    /// Decides whether the calendar has a date for this point in time.
    pub fn is_valid(&self) -> (r: bool)
        ensures
            r == self.valid(),
    {
        FIRST_SECOND <= self.secs && self.secs <= LAST_SECOND && (self.nanos < 1_000_000_000 || (
        self.nanos < 2_000_000_000 && (self.secs - FIRST_SECOND) % 60 == 59))
    }

    fn can_add_nanos(&self, delta: i128) -> (r: bool)
        requires
            self.valid(),
            -0x1_0000_0000_0000_0000_0000_0000 < delta < 0x1_0000_0000_0000_0000_0000_0000,
        ensures
            r == self.can_move(delta as int),
    {
        let nanos: i128 = self.nanos as i128;
        let near: bool = nanos >= 1_000_000_000 && delta > -1_000_000_000;
        if near && nanos + delta < 2_000_000_000 {
            return true;
        }
        let sum: i128 = self.secs as i128 * 1_000_000_000 + nanos + delta;
        let total: i128 = if near {
            sum - 1_000_000_000
        } else {
            sum
        };
        FIRST_SECOND as i128 * 1_000_000_000 <= total && total <= LAST_SECOND as i128
            * 1_000_000_000 + 999_999_999
    }

    /// Decides whether moving by `ms` milliseconds stays in the range of the calendar.
    pub fn can_add_ms(&self, ms: i64) -> (r: bool)
        requires
            self.valid(),
        ensures
            r == self.can_move(ms * 1_000_000),
    {
        self.can_add_nanos(ms as i128 * 1_000_000)
    }
}

impl Timestamp {
    /// Decides whether moving by `us` microseconds stays in the range of the calendar.
    pub fn can_add_us(&self, us: i64) -> (r: bool)
        requires
            self.valid(),
        ensures
            r == self.can_move(us * 1000),
    {
        self.can_add_nanos(us as i128 * 1000)
    }

    /// Milliseconds since 1970, and none before.
    pub open spec fn unix_ms(self) -> int {
        let ms = self.secs * 1000 + self.nanos as int / 1_000_000;
        if ms < 0 {
            0
        } else {
            ms
        }
    }

    /// Milliseconds since 1970, and none before.
    pub fn unix_milliseconds(&self) -> (r: u64)
        requires
            self.valid(),
        ensures
            r == self.unix_ms(),
    {
        let ms: i64 = self.secs * 1000 + (self.nanos / 1_000_000) as i64;
        if ms < 0 {
            0
        } else {
            ms as u64
        }
    }

    /// The whole milliseconds from `from` to this point in time, rounded towards zero.
    pub open spec fn ms_since(self, from: Timestamp) -> i64 {
        quotient(self.since(from), 1_000_000) as i64
    }

    /// The whole milliseconds from `from` to this point in time, rounded towards zero.
    pub fn milliseconds_since(&self, from: &Timestamp) -> (r: i64)
        requires
            self.valid(),
            from.valid(),
        ensures
            r == self.ms_since(*from),
            r > i64::MIN,
    {
        signed_duration_since(*self, *from).num_milliseconds()
    }
}

/// Makes a point in time with `chrono::DateTime::from_timestamp`.
///
/// There is one exactly where the second lies between the first and the last of the
/// calendar and the nanoseconds lie below a thousand million, or below two thousand
/// million in the last second of a minute; it keeps both numbers.
#[verifier::external_body]
pub(crate) fn timestamp_opt(secs: i64, nanos: u32) -> (r: Option<Timestamp>)
    ensures
        r == (if (Timestamp { secs, nanos }).valid() {
            Some(Timestamp { secs, nanos })
        } else {
            None::<Timestamp>
        }),
{
    chrono::DateTime::from_timestamp(secs, nanos).map(
        |t| Timestamp { secs: t.timestamp(), nanos: t.timestamp_subsec_nanos() },
    )
}

/// Adds milliseconds to a point in time with `chrono::DateTime::checked_add_signed` and
/// `chrono::TimeDelta::milliseconds`.
///
/// Outside a leap second this is plain addition. In one, less than a second that does not
/// lead past its end is added to its nanoseconds; what leads past its end or a second and
/// more back leaves it out of the count.
#[verifier::external_body]
pub(crate) fn add_milliseconds(t: Timestamp, ms: i64) -> (r: Timestamp)
    requires
        t.can_move(ms * 1_000_000),
        ms > i64::MIN,
    ensures
        r == t.shifted(ms * 1_000_000),
        r.valid(),
{
    let t = chrono::DateTime::from_timestamp(t.secs, t.nanos).unwrap();
    let t = t.checked_add_signed(chrono::TimeDelta::milliseconds(ms)).unwrap();
    Timestamp { secs: t.timestamp(), nanos: t.timestamp_subsec_nanos() }
}

/// Adds microseconds to a point in time with `chrono::DateTime::checked_add_signed` and
/// `chrono::TimeDelta::microseconds`.
///
/// Leap seconds count as where milliseconds are added.
#[verifier::external_body]
pub(crate) fn add_microseconds(t: Timestamp, us: i64) -> (r: Timestamp)
    requires
        t.can_move(us * 1000),
    ensures
        r == t.shifted(us * 1000),
        r.valid(),
{
    let t = chrono::DateTime::from_timestamp(t.secs, t.nanos).unwrap();
    let t = t.checked_add_signed(chrono::TimeDelta::microseconds(us)).unwrap();
    Timestamp { secs: t.timestamp(), nanos: t.timestamp_subsec_nanos() }
}

/// Takes the length of time from `from` to `t` with
/// `chrono::DateTime::signed_duration_since`.
///
/// Outside leap seconds this is plain subtraction. A second is added where `from` lies in a
/// leap second and its time of day is the earlier, and taken off where `t` does and its time
/// of day is.
#[verifier::external_body]
pub(crate) fn signed_duration_since(t: Timestamp, from: Timestamp) -> (r: TimeSpan)
    requires
        t.valid(),
        from.valid(),
    ensures
        r.total() == t.since(from),
        r.valid(),
{
    let t = chrono::DateTime::from_timestamp(t.secs, t.nanos).unwrap();
    let from = chrono::DateTime::from_timestamp(from.secs, from.nanos).unwrap();
    let d = t.signed_duration_since(from);
    TimeSpan { secs: d.num_seconds(), nanos: d.subsec_nanos() }
}

/// Reads the clock with `chrono::Local::now`. Only that the calendar has the date is
/// known of it.
#[verifier::external_body]
pub(crate) fn now() -> (r: Timestamp)
    ensures
        r.valid(),
{
    let t = chrono::Local::now();
    Timestamp { secs: t.timestamp(), nanos: t.timestamp_subsec_nanos() }
}

/// Writes a date and time in the machine's time zone with the `Display` of
/// `chrono::DateTime`. What it writes depends on that time zone, so nothing is said of it.
#[verifier::external_body]
fn local_date_time(t: Timestamp) -> (r: String)
    requires
        t.valid(),
{
    let t = chrono::DateTime::from_timestamp(t.secs, t.nanos).unwrap();
    t.with_timezone(&chrono::Local).to_string()
}

/// Writes the time of day in the machine's time zone with `chrono::DateTime::format`.
/// What it writes depends on that time zone, so nothing is said of it.
#[verifier::external_body]
fn local_time_of_day(t: Timestamp) -> (r: String)
    requires
        t.valid(),
{
    let t = chrono::DateTime::from_timestamp(t.secs, t.nanos).unwrap();
    t.with_timezone(&chrono::Local).format("%H:%M:%S%.6f").to_string()
}

/// Whether a text is a date and time that can be written for a point in time.
pub closed spec fn is_date_time_of(t: Timestamp, clock: Seq<char>) -> bool {
    exists|s: String| call_ensures(local_date_time, (t,), s) && s@ == clock
}

/// Whether a text is a time of day that can be written for a point in time.
pub closed spec fn is_clock_of(t: Timestamp, clock: Seq<char>) -> bool {
    exists|s: String| call_ensures(local_time_of_day, (t,), s) && s@ == clock
}

/// Writes the date and the time in the machine's time zone.
pub(crate) fn date_time_text(t: Timestamp) -> (r: String)
    requires
        t.valid(),
    ensures
        is_date_time_of(t, r@),
{
    let s = local_date_time(t);
    assert(call_ensures(local_date_time, (t,), s));
    s
}

/// Writes the time of day in the machine's time zone.
pub(crate) fn clock_text(t: Timestamp) -> (r: String)
    requires
        t.valid(),
    ensures
        is_clock_of(t, r@),
{
    let s = local_time_of_day(t);
    assert(call_ensures(local_time_of_day, (t,), s));
    s
}

/// Outside leap seconds a point in time is known by its nanoseconds since 1970.
pub proof fn lemma_of_total(t: Timestamp, total: int)
    ensures
        t.valid() && !t.is_leap() ==> Timestamp::of_total(t.total()) == t,
        FIRST_SECOND * 1_000_000_000 <= total < (LAST_SECOND + 1) * 1_000_000_000 ==> {
            &&& Timestamp::of_total(total).total() == total
            &&& Timestamp::of_total(total).valid()
            &&& !Timestamp::of_total(total).is_leap()
        },
{
}

/// Whether moving a point in time can lead to another. Only from within a leap second does
/// a way lead into it; and out of one it leads back to times of day that are not later, and
/// on to times of day that are.
pub open spec fn reaches(from: Timestamp, to: Timestamp) -> bool {
    if !from.is_leap() {
        !to.is_leap()
    } else if to.secs == from.secs {
        true
    } else {
        !to.is_leap() && (to.secs > from.secs) == (to.second_of_day() > from.second_of_day())
    }
}

/// Moving a point in time by the milliseconds from it to another gives that other, where
/// these are whole and no leap second is in the way.
pub proof fn moving_by_the_difference_arrives(from: Timestamp, to: Timestamp)
    requires
        from.valid(),
        to.valid(),
        reaches(from, to),
        (to.total() - from.total()) % 1_000_000 == 0,
    ensures
        from.plus_ms(to.ms_since(from) as int) == to,
        from.can_move(to.ms_since(from) * 1_000_000),
{
    lemma_of_total(to, 0);
    let d = to.since(from);
    assert(d % 1_000_000 == 0);
    assert(quotient(d, 1_000_000) * 1_000_000 == d);
    assert(to.ms_since(from) == quotient(d, 1_000_000));
    assert(from.shifted(d) == to);
}

/// Whether moving a point in time by two numbers of milliseconds leads where moving it by
/// their sum does.
pub open spec fn offsets_add_up(t: Timestamp, a: int, b: int) -> bool {
    t.plus_ms(a).plus_ms(b) == t.plus_ms(a + b)
}

/// Outside leap seconds offsets add up.
pub proof fn offsets_add_up_outside_leap_seconds(t: Timestamp, a: int, b: int)
    requires
        !t.is_leap(),
        t.can_move(a * 1_000_000),
    ensures
        offsets_add_up(t, a, b),
{
    lemma_of_total(t, t.total() + a * 1_000_000);
}

/// Outside leap seconds moving a point in time by milliseconds or microseconds adds a million
/// or a thousand nanoseconds for each, and moving it back leads to where it was.
pub proof fn moving_adds_the_length(t: Timestamp, n: int)
    requires
        !t.is_leap(),
        t.valid(),
    ensures
        t.can_move(n * 1_000_000) ==> {
            &&& t.plus_ms(n).total() == t.total() + n * 1_000_000
            &&& t.plus_ms(n).nanos < 1_000_000_000
            &&& t.plus_ms(n).plus_ms(-n) == t
        },
        t.can_move(n * 1000) ==> {
            &&& t.plus_us(n).total() == t.total() + n * 1000
            &&& t.plus_us(n).nanos < 1_000_000_000
            &&& t.plus_us(n).plus_us(-n) == t
        },
        t.can_move(n) == (-8334601228800 * 1_000_000_000 <= t.secs * 1_000_000_000 + t.nanos + n
            <= 8210266876799 * 1_000_000_000 + 999_999_999),
{
    lemma_of_total(t, t.total() + n * 1_000_000);
    lemma_of_total(t, t.total() + n * 1000);
    assert((-n) * 1_000_000 == -(n * 1_000_000));
    assert((-n) * 1000 == -(n * 1000));
}

/// Points in time are compared by their nanoseconds since 1970, where they do not lie in leap
/// seconds, and their order is a total one in any case.
pub proof fn earlier_times_come_first(a: Timestamp, b: Timestamp, c: Timestamp)
    ensures
        a.nanos < 1_000_000_000 && b.nanos < 1_000_000_000 ==> {
            &&& a.lt(b) == (a.secs * 1_000_000_000 + a.nanos < b.secs * 1_000_000_000 + b.nanos)
            &&& a.le(b) == (a.secs * 1_000_000_000 + a.nanos <= b.secs * 1_000_000_000 + b.nanos)
        },
        a.lt(b) == !b.le(a),
        a.le(b) && b.le(a) ==> a == b,
        a.le(b) && b.le(c) ==> a.le(c),
{
}

/// Outside leap seconds the length of time between two points is the difference of their
/// nanoseconds since 1970, with the sign turned for the way back.
pub proof fn lengths_are_differences(a: Timestamp, b: Timestamp)
    requires
        !a.is_leap(),
        !b.is_leap(),
    ensures
        a.since(b) == (a.secs - b.secs) * 1_000_000_000 + a.nanos - b.nanos,
        a.since(b) == -b.since(a),
        a.since(b) > 0 <==> b.lt(a),
{
}

/// Milliseconds are counted towards zero: what is left over is less than one of them and has
/// the sign of the whole.
pub proof fn parts_of_milliseconds_are_left_out(a: int)
    ensures
        -1_000_000 < a - 1_000_000 * quotient(a, 1_000_000) < 1_000_000,
        a >= 0 ==> a - 1_000_000 * quotient(a, 1_000_000) >= 0,
        a <= 0 ==> a - 1_000_000 * quotient(a, 1_000_000) <= 0,
        quotient(-a, 1_000_000) == -quotient(a, 1_000_000),
{
}

/// Milliseconds since 1970 grow with the time, there are a thousand in a second, and there are
/// none before.
pub proof fn milliseconds_count_from_1970(t: Timestamp)
    requires
        t.nanos < 1_000_000_000,
    ensures
        t.secs >= 0 ==> t.unix_ms() * 1_000_000 <= t.secs * 1_000_000_000 + t.nanos < (t.unix_ms()
            + 1) * 1_000_000,
        t.secs < 0 ==> t.unix_ms() == 0,
        t.unix_ms() >= 0,
{
}

/// Lengths of time are compared without their signs.
pub proof fn lengths_are_compared_without_signs(a: TimeSpan, b: TimeSpan)
    requires
        a.total() == -b.total(),
    ensures
        a.magnitude() == b.magnitude(),
        a.magnitude() >= 0,
        a.magnitude() == a.secs * 1_000_000_000 + a.nanos || a.magnitude() == -(a.secs
            * 1_000_000_000 + a.nanos),
{
}

/// The calendar has dates for the seconds from its first to its last. A second has a
/// thousand million nanoseconds; only the last of a minute can have as many again.
pub proof fn the_calendar_has_two_ends(t: Timestamp)
    ensures
        t.valid() ==> -8334601228800 <= t.secs <= 8210266876799,
        -8334601228800 <= t.secs <= 8210266876799 && t.nanos < 1_000_000_000 ==> t.valid(),
        t.valid() && t.nanos >= 1_000_000_000 ==> t.secs as int % 60 == 59 && t.nanos
            < 2_000_000_000 && t.is_leap(),
        t.valid() && t.nanos < 1_000_000_000 ==> !t.is_leap(),
{
}

} // verus!
