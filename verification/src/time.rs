//! Durations, readings of the clock, and how a remaining time is put into words.

use vstd::prelude::*;

use crate::text::decimal_text;
use crate::text::is_digit;
use crate::text::join_text;
use crate::text::leading_words;
use crate::text::leading_words_text;
use crate::text::lemma_decimal_digits;
use crate::text::lemma_split_joined;

verus! {

/// The number of nanoseconds in a second.
pub const NANOS_PER_SEC: u128 = 1_000_000_000;

/// The longest duration, in nanoseconds: as many whole seconds as 64 bits can count, and a
/// fraction of one more.
pub const MAX_NANOS: u128 = 18_446_744_073_709_551_615_999_999_999;

/// A span of time, precise to the nanosecond.
#[derive(Clone, Copy, Debug)]
pub struct Duration {
    nanos: u128,
}

impl View for Duration {
    type V = nat;

    /// The length of the span in nanoseconds.
    closed spec fn view(&self) -> nat {
        self.nanos as nat
    }
}

impl Duration {
    /// No span is longer than the longest duration.
    #[verifier::type_invariant]
    pub closed spec fn in_range(self) -> bool {
        self.nanos <= MAX_NANOS
    }

    /// A span of whole seconds and a fraction of a second in nanoseconds. Nanoseconds beyond a
    /// second are carried over.
    pub fn new(secs: u64, nanos: u32) -> (span: Self)
        requires
            secs + nanos as nat / NANOS_PER_SEC as nat <= u64::MAX,
        ensures
            span@ == secs * NANOS_PER_SEC + nanos,
    {
        Duration { nanos: secs as u128 * NANOS_PER_SEC + nanos as u128 }
    }

    /// A span of whole seconds.
    pub fn from_secs(secs: u64) -> (span: Self)
        ensures
            span@ == secs * NANOS_PER_SEC,
    {
        Duration { nanos: secs as u128 * NANOS_PER_SEC }
    }

    /// The whole seconds of the span.
    pub fn as_secs(&self) -> (secs: u64)
        ensures
            secs == self@ / NANOS_PER_SEC as nat,
    {
        proof {
            use_type_invariant(self);
        }
        (self.nanos / NANOS_PER_SEC) as u64
    }

    /// The fraction of the span beyond its whole seconds, in nanoseconds.
    pub fn subsec_nanos(&self) -> (nanos: u32)
        ensures
            nanos == self@ % NANOS_PER_SEC as nat,
    {
        (self.nanos % NANOS_PER_SEC) as u32
    }

    /// The length of the span in nanoseconds.
    pub fn as_nanos(&self) -> (nanos: u128)
        ensures
            nanos == self@,
    {
        self.nanos
    }
}

/// A duration is no longer than the longest one.
pub proof fn lemma_duration_in_range(span: Duration)
    requires
        span.in_range(),
    ensures
        span@ <= MAX_NANOS,
{
}

/// A reading of a [`Clock`]: how long after the clock's start it was taken, in nanoseconds.
#[derive(Clone, Copy, Debug, PartialEq, Eq, Structural)]
pub struct Moment {
    pub nanos: u128,
}

/// The time from `earlier` until `now`, in nanoseconds: none if `earlier` is the later one.
pub open spec fn elapsed_nanos(earlier: Moment, now: Moment) -> nat {
    if earlier.nanos <= now.nanos {
        (now.nanos - earlier.nanos) as nat
    } else {
        0
    }
}

/// When a span of so many nanoseconds that began at `start` is over.
pub open spec fn end_of(start: Moment, nanos: nat) -> Moment {
    Moment { nanos: (start.nanos + nanos) as u128 }
}

impl Moment {
    /// Returns when a span that begins at this reading is over.
    pub fn after(&self, span: Duration) -> (end: Moment)
        requires
            self.nanos + span@ <= u128::MAX,
        ensures
            end == end_of(*self, span@),
    {
        Moment { nanos: self.nanos + span.as_nanos() }
    }

    /// Returns the time that has gone by at `now` since this reading, in nanoseconds.
    pub fn elapsed(&self, now: Moment) -> (nanos: u128)
        ensures
            nanos == elapsed_nanos(*self, now),
    {
        if self.nanos <= now.nanos {
            now.nanos - self.nanos
        } else {
            0
        }
    }
}

/// The monotonic clock reading of tokio. It is carried as it is.
#[verifier::external_type_specification]
#[verifier::external_body]
pub struct ExTokioInstant(tokio::time::Instant);

/// Reads tokio's monotonic clock with `tokio::time::Instant::now`. Nothing is claimed of the
/// reading.
#[verifier::external_body]
fn tokio_now() -> (reading: tokio::time::Instant)
{
    tokio::time::Instant::now()
}

/// Asks `tokio::time::Instant::elapsed` how long ago a reading was taken, in whole seconds and
/// nanoseconds. Of the answer it is claimed only that the nanoseconds are less than a second.
#[verifier::external_body]
fn tokio_elapsed(reading: &tokio::time::Instant) -> (span: (u64, u32))
    ensures
        span.1 < NANOS_PER_SEC,
{
    let span = reading.elapsed();
    (span.as_secs(), span.subsec_nanos())
}

/// A clock that starts at zero and never runs backwards.
pub struct Clock {
    start: tokio::time::Instant,
    latest: Moment,
}

impl View for Clock {
    type V = Moment;

    /// The latest reading that was taken, or zero.
    closed spec fn view(&self) -> Moment {
        self.latest
    }
}

impl Clock {
    /// Every reading is within the longest duration of the start.
    #[verifier::type_invariant]
    spec fn in_range(self) -> bool {
        self.latest.nanos <= MAX_NANOS
    }

    /// The reading of tokio's clock from which this one counts.
    pub closed spec fn started(self) -> tokio::time::Instant {
        self.start
    }

    /// Starts a clock.
    pub fn start() -> (clock: Self)
        ensures
            clock@ == (Moment { nanos: 0 }),
    {
        Clock { start: tokio_now(), latest: Moment { nanos: 0 } }
    }

    /// Reads the clock. A reading never precedes an earlier one, and is never further from the start
    /// than the longest duration.
    ///
    /// This asks how long ago the clock was started. See [`Clock::advance`] for what comes of each
    /// answer.
    pub fn now(&mut self) -> (now: Moment)
        ensures
            old(self)@.nanos <= now.nanos,
            now.nanos <= MAX_NANOS,
            final(self)@ == now,
            final(self).started() == old(self).started(),
    {
        proof {
            use_type_invariant(&*self);
        }
        let (secs, nanos) = tokio_elapsed(&self.start);
        self.advance(secs, nanos)
    }

    /// Takes a reading so many seconds and nanoseconds after the start, or the latest reading once
    /// more if that is later.
    pub fn advance(&mut self, secs: u64, nanos: u32) -> (now: Moment)
        requires
            nanos < NANOS_PER_SEC,
        ensures
            now.nanos == (if old(self)@.nanos < secs * NANOS_PER_SEC + nanos {
                secs * NANOS_PER_SEC + nanos
            } else {
                old(self)@.nanos as int
            }),
            now.nanos <= MAX_NANOS,
            final(self)@ == now,
            final(self).started() == old(self).started(),
    {
        proof {
            use_type_invariant(&*self);
        }
        let reading: u128 = secs as u128 * NANOS_PER_SEC + nanos as u128;
        if self.latest.nanos < reading {
            self.latest = Moment { nanos: reading };
        }
        self.latest
    }

    /// Takes note of a reading that was taken elsewhere.
    pub fn observe(&mut self, now: Moment)
        requires
            old(self)@.nanos <= now.nanos,
            now.nanos <= MAX_NANOS,
        ensures
            final(self)@ == now,
            final(self).started() == old(self).started(),
    {
        self.latest = now;
    }
}

/// The number of seconds in a year of 365.25 days.
pub const SECS_PER_YEAR: u64 = 31_557_600;

/// The number of seconds in a month of 30.44 days.
pub const SECS_PER_MONTH: u64 = 2_630_016;

/// The number of seconds in a day.
pub const SECS_PER_DAY: u64 = 86_400;

/// An amount of a unit in words, if it is not zero. Some units take a plural.
pub open spec fn unit_words(amount: nat, unit: Seq<char>, plural: bool) -> Seq<Seq<char>> {
    if amount == 0 {
        Seq::empty()
    } else if plural && amount > 1 {
        seq![decimal_text(amount) + unit + "s"@]
    } else {
        seq![decimal_text(amount) + unit]
    }
}

/// The words for a duration of so many seconds and nanoseconds: how much of each unit there is in
/// it, from the coarsest to the finest.
pub open spec fn duration_words(secs: nat, nanos: nat) -> Seq<Seq<char>> {
    let in_year = secs % SECS_PER_YEAR as nat;
    let in_month = in_year % SECS_PER_MONTH as nat;
    let in_day = in_month % SECS_PER_DAY as nat;
    unit_words(secs / SECS_PER_YEAR as nat, "year"@, true) + unit_words(
        in_year / SECS_PER_MONTH as nat,
        "month"@,
        true,
    ) + unit_words(in_month / SECS_PER_DAY as nat, "day"@, true) + unit_words(
        in_day / 3600,
        "h"@,
        false,
    ) + unit_words(in_day % 3600 / 60, "m"@, false) + unit_words(in_day % 60, "s"@, false)
        + unit_words(nanos / 1_000_000, "ms"@, false) + unit_words(
        nanos / 1000 % 1000,
        "us"@,
        false,
    ) + unit_words(nanos % 1000, "ns"@, false)
}

/// A duration of so many seconds and nanoseconds in words, such as `2h 37m`.
pub open spec fn duration_text(secs: nat, nanos: nat) -> Seq<char> {
    if secs == 0 && nanos == 0 {
        "0s"@
    } else {
        join_text(duration_words(secs, nanos), " "@)
    }
}

/// Writes a duration in words with the `Display` of `humantime::Duration`, in the crate's default
/// features. Claims that it writes how many years (of 365.25 days), months (of 30.44 days), days,
/// hours, minutes, seconds, milli-, micro- and nanoseconds there are in the duration, each with its
/// unit directly behind the number, a plural `s` on the first three, and a space between each two;
/// that it leaves out the units of which there are none; and that it writes `0s` for no time at all.
#[verifier::external_body]
fn humantime_format(secs: u64, nanos: u32) -> (text: String)
    requires
        nanos < NANOS_PER_SEC,
    ensures
        text@ == duration_text(secs as nat, nanos as nat),
{
    humantime::Duration::from(std::time::Duration::new(secs, nanos)).to_string()
}

/// The coarsest units of a duration of so many nanoseconds, at most `units` of them.
pub open spec fn coarse_text(nanos: nat, units: nat) -> Seq<char> {
    leading_words_text(
        duration_text(nanos / NANOS_PER_SEC as nat, nanos % NANOS_PER_SEC as nat),
        units,
    )
}

/// Writes a duration in at most `units` units.
fn format_coarsely(span: Duration, units: usize) -> (text: String)
    ensures
        text@ == coarse_text(span@, units as nat),
{
    let text = humantime_format(span.as_secs(), span.subsec_nanos());
    leading_words(text.as_str(), units)
}

/// Writes the time from `now` until `end`, in at most `units` units.
pub fn format_time_until(end: Moment, now: Moment, units: usize) -> (text: String)
    requires
        now.nanos <= end.nanos,
        end.nanos - now.nanos <= MAX_NANOS,
    ensures
        text@ == coarse_text((end.nanos - now.nanos) as nat, units as nat),
{
    format_coarsely(Duration { nanos: end.nanos - now.nanos }, units)
}

/// Writes the time that is left of `rate_limit` at `now`, if it began at `last_fulfilled`, in at
/// most `units` units.
pub fn format_remaining_time(
    last_fulfilled: Moment,
    rate_limit: Duration,
    now: Moment,
    units: usize,
) -> (text: String)
    requires
        elapsed_nanos(last_fulfilled, now) <= rate_limit@,
    ensures
        text@ == coarse_text(
            (rate_limit@ - elapsed_nanos(last_fulfilled, now)) as nat,
            units as nat,
        ),
{
    proof {
        use_type_invariant(&rate_limit);
    }
    let remaining = Duration { nanos: rate_limit.nanos - last_fulfilled.elapsed(now) };
    format_coarsely(remaining, units)
}

proof fn lemma_unit_words(amount: nat, unit: Seq<char>, plural: bool)
    requires
        !unit.contains(' '),
    ensures
        forall|i: int|
            0 <= i < unit_words(amount, unit, plural).len() ==> !(#[trigger] unit_words(
                amount,
                unit,
                plural,
            )[i]).contains(' '),
        amount > 0 ==> unit_words(amount, unit, plural).len() == 1,
{
    reveal_strlit("s");
    lemma_decimal_digits(amount);
    assert forall|i: int| 0 <= i < unit_words(amount, unit, plural).len() implies !(
    #[trigger] unit_words(amount, unit, plural)[i]).contains(' ') by {
        let word = unit_words(amount, unit, plural)[i];
        if word.contains(' ') {
            let at = choose|at: int| 0 <= at < word.len() && word[at] == ' ';
            let digits = decimal_text(amount);
            if at < digits.len() {
                assert(is_digit(digits[at]));
            } else if at < digits.len() + unit.len() {
                assert(unit[at - digits.len()] == ' ');
            }
        }
    }
}

/// There is some of a unit in a duration that is not zero.
#[verifier::spinoff_prover]
proof fn lemma_some_unit(secs: nat, nanos: nat)
    requires
        secs > 0 || nanos > 0,
        nanos < NANOS_PER_SEC,
    ensures
        ({
            let in_year = secs % SECS_PER_YEAR as nat;
            let in_month = in_year % SECS_PER_MONTH as nat;
            let in_day = in_month % SECS_PER_DAY as nat;
            ||| secs / SECS_PER_YEAR as nat > 0
            ||| in_year / SECS_PER_MONTH as nat > 0
            ||| in_month / SECS_PER_DAY as nat > 0
            ||| in_day / 3600 > 0
            ||| in_day % 3600 / 60 > 0
            ||| in_day % 60 > 0
            ||| nanos / 1_000_000 > 0
            ||| nanos / 1000 % 1000 > 0
            ||| nanos % 1000 > 0
        }),
{
}

#[verifier::spinoff_prover]
proof fn lemma_duration_words(secs: nat, nanos: nat)
    requires
        secs > 0 || nanos > 0,
        nanos < NANOS_PER_SEC,
    ensures
        duration_words(secs, nanos).len() > 0,
        forall|i: int|
            0 <= i < duration_words(secs, nanos).len() ==> !(#[trigger] duration_words(
                secs,
                nanos,
            )[i]).contains(' '),
{
    reveal_strlit("year");
    reveal_strlit("month");
    reveal_strlit("day");
    reveal_strlit("h");
    reveal_strlit("m");
    reveal_strlit("s");
    reveal_strlit("ms");
    reveal_strlit("us");
    reveal_strlit("ns");
    let in_year = secs % SECS_PER_YEAR as nat;
    let in_month = in_year % SECS_PER_MONTH as nat;
    let in_day = in_month % SECS_PER_DAY as nat;
    lemma_some_unit(secs, nanos);
    lemma_unit_words(secs / SECS_PER_YEAR as nat, "year"@, true);
    lemma_unit_words(in_year / SECS_PER_MONTH as nat, "month"@, true);
    lemma_unit_words(in_month / SECS_PER_DAY as nat, "day"@, true);
    lemma_unit_words(in_day / 3600, "h"@, false);
    lemma_unit_words(in_day % 3600 / 60, "m"@, false);
    lemma_unit_words(in_day % 60, "s"@, false);
    lemma_unit_words(nanos / 1_000_000, "ms"@, false);
    lemma_unit_words(nanos / 1000 % 1000, "us"@, false);
    lemma_unit_words(nanos % 1000, "ns"@, false);
}

/// The remaining time is told in its coarsest units: in the first words for it, as many as asked
/// for, or all of them if there are no more.
pub proof fn law_time_is_told_in_its_coarsest_units(nanos: nat, units: nat)
    requires
        nanos > 0,
    ensures
        ({
            let words = duration_words(nanos / NANOS_PER_SEC as nat, nanos % NANOS_PER_SEC as nat);
            let count = if units < words.len() {
                units
            } else {
                words.len()
            };
            &&& words.len() > 0
            &&& coarse_text(nanos, units) == join_text(words.take(count as int), " "@)
        }),
{
    let (secs, rest) = (nanos / NANOS_PER_SEC as nat, nanos % NANOS_PER_SEC as nat);
    lemma_duration_words(secs, rest);
    reveal_strlit(" ");
    assert(" "@ =~= seq![' ']);
    lemma_split_joined(duration_words(secs, rest), ' ');
}

/// The time that has gone by, added to when it began, is now, unless that is later; and a span is
/// over as long after it began as it lasts.
pub proof fn law_times_add_up(start: Moment, now: Moment, nanos: nat)
    ensures
        start.nanos <= now.nanos ==> start.nanos + elapsed_nanos(start, now) == now.nanos,
        start.nanos > now.nanos ==> elapsed_nanos(start, now) == 0,
        start.nanos + nanos <= u128::MAX ==> end_of(start, nanos).nanos == start.nanos + nanos,
{
}

/// A clock never goes back: it shows the later of what it showed and what it is told.
pub proof fn law_clocks_go_forward(clock: &mut Clock, secs: u64, nanos: u32, now: Moment)
    requires
        call_ensures(Clock::advance, (clock, secs, nanos), now),
    ensures
        final(clock)@ == now,
        now.nanos >= old(clock)@.nanos,
        now.nanos >= secs * 1_000_000_000 + nanos,
        now.nanos == old(clock)@.nanos || now.nanos == secs * 1_000_000_000 + nanos,
{
}

/// A span is made of its seconds and nanoseconds, and is taken apart into them.
pub proof fn law_spans_are_taken_apart(secs: u64, nanos: u32, span: Duration, parts: (u64, u32))
    requires
        nanos < 1_000_000_000,
        call_ensures(Duration::new, (secs, nanos), span),
        call_ensures(Duration::as_secs, (&span,), parts.0),
        call_ensures(Duration::subsec_nanos, (&span,), parts.1),
    ensures
        parts == (secs, nanos),
{
}

/// What is told of a limit is the time until it ends.
pub proof fn law_the_remaining_time_is_told(
    last_fulfilled: Moment,
    rate_limit: Duration,
    now: Moment,
    units: usize,
    remaining: String,
    until: String,
)
    requires
        last_fulfilled.nanos <= now.nanos <= last_fulfilled.nanos + rate_limit@ <= u128::MAX,
        call_ensures(
            format_remaining_time,
            (last_fulfilled, rate_limit, now, units),
            remaining,
        ),
        call_ensures(
            format_time_until,
            (end_of(last_fulfilled, rate_limit@), now, units),
            until,
        ),
    ensures
        remaining@ == until@,
{
}

} // verus!
