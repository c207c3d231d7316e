//! Retries of outbound mutations.

use crate::model::ids::Timestamp;
use std::time::Duration;
use vstd::prelude::*;

verus! {

/// The length of a `Duration` in nanoseconds, as `Duration::as_nanos` counts it.
pub uninterp spec fn duration_nanos(d: Duration) -> nat;

/// `Duration::from_secs`: a duration of that many whole seconds.
pub assume_specification[ Duration::from_secs ](secs: u64) -> (d: Duration)
    ensures
        duration_nanos(d) == secs * 1_000_000_000,
;

/// Longest delay that `chrono` represents: `i64::MAX` milliseconds.
pub open spec fn max_delay_nanos() -> nat {
    9_223_372_036_854_775_807_000_000
}

/// Latest point in time that `chrono` represents, in nanoseconds.
pub open spec fn max_timestamp_nanos() -> int {
    8_210_266_876_799_999_999_999
}

/// `chrono::TimeDelta::from_std`, read back as whole seconds and the
/// nanoseconds beyond them: the duration itself, or `None` where it is longer
/// than `i64::MAX` milliseconds.
#[verifier::external_body]
fn time_delta(d: Duration) -> (out: Option<(i64, i32)>)
    ensures
        match out {
            Some((secs, nanos)) => {
                &&& duration_nanos(d) <= max_delay_nanos()
                &&& 0 <= nanos < 1_000_000_000
                &&& secs >= 0
                &&& secs * 1_000_000_000 + nanos == duration_nanos(d)
            },
            None => duration_nanos(d) > max_delay_nanos(),
        },
{
    chrono::TimeDelta::from_std(d).ok().map(|t| (t.num_seconds(), t.subsec_nanos()))
}

/// Waits between the attempts of an outbound mutation, and how many attempts
/// it gets.
#[derive(Clone, Debug)]
pub struct BackoffSchedule {
    delays: Vec<Duration>,
    max_attempts: u32,
}

/// What becomes of a mutation that failed.
#[derive(Clone, Copy, Debug, PartialEq, Eq)]
pub enum Failure {
    /// It is tried again after the delay.
    Retry { delay: Duration },
    /// It used up its attempts.
    DeadLetter,
}

impl BackoffSchedule {
    /// The waits, in order.
    pub closed spec fn waits(&self) -> Seq<Duration> {
        self.delays@
    }

    /// The attempts a mutation gets in all.
    pub closed spec fn cap(&self) -> u32 {
        self.max_attempts
    }

    /// 5 s, 30 s, 2 min and 10 min, with five attempts in all.
    pub fn standard() -> (out: Self)
        ensures
            out.cap() == 5,
            out.waits().len() == 4,
            duration_nanos(out.waits()[0]) == 5_000_000_000,
            duration_nanos(out.waits()[1]) == 30_000_000_000,
            duration_nanos(out.waits()[2]) == 120_000_000_000,
            duration_nanos(out.waits()[3]) == 600_000_000_000,
    {
        let mut delays: Vec<Duration> = Vec::new();
        delays.push(Duration::from_secs(5));
        delays.push(Duration::from_secs(30));
        delays.push(Duration::from_secs(2 * 60));
        delays.push(Duration::from_secs(10 * 60));
        BackoffSchedule { delays, max_attempts: 5 }
    }

    /// A schedule of one's own; at least one attempt is made.
    pub fn new(delays: Vec<Duration>, max_attempts: u32) -> (out: Self)
        ensures
            out.waits() == delays@,
            out.cap() == if max_attempts == 0 {
                1
            } else {
                max_attempts
            },
    {
        BackoffSchedule {
            delays,
            max_attempts: if max_attempts == 0 {
                1
            } else {
                max_attempts
            },
        }
    }

    /// The attempts a mutation gets in all.
    pub fn max_attempts(&self) -> (out: u32)
        ensures
            out == self.cap(),
    {
        self.max_attempts
    }

    /// Which wait follows after `attempts_made` attempts: the first after one,
    /// and the last one again once the schedule is through.
    pub open spec fn wait_index(&self, attempts_made: u32) -> int {
        let after = if attempts_made == 0 {
            0
        } else {
            attempts_made - 1
        };
        if after < self.waits().len() {
            after
        } else {
            self.waits().len() - 1
        }
    }

    /// `d` is the wait after `attempts_made` attempts; none where the schedule
    /// is empty.
    pub open spec fn is_wait(&self, attempts_made: u32, d: Duration) -> bool {
        if self.waits().len() == 0 {
            duration_nanos(d) == 0
        } else {
            d == self.waits()[self.wait_index(attempts_made)]
        }
    }

    /// The wait before the next attempt.
    pub fn delay_for(&self, attempts_made: u32) -> (out: Duration)
        ensures
            self.is_wait(attempts_made, out),
    {
        if self.delays.len() == 0 {
            return Duration::from_secs(0);
        }
        let mut idx: usize = if attempts_made == 0 {
            0
        } else {
            (attempts_made - 1) as usize
        };
        if idx >= self.delays.len() {
            idx = self.delays.len() - 1;
        }
        self.delays[idx]
    }

    /// What becomes of a mutation that failed after `attempts` earlier ones:
    /// it is tried again while this failure leaves an attempt.
    pub fn on_failure(&self, attempts: u32) -> (out: Failure)
        ensures
            out is DeadLetter <==> attempts + 1 >= self.cap(),
            out matches Failure::Retry { delay } ==> self.is_wait((attempts + 1) as u32, delay),
    {
        if attempts < self.max_attempts && self.max_attempts - attempts > 1 {
            Failure::Retry { delay: self.delay_for(attempts + 1) }
        } else {
            Failure::DeadLetter
        }
    }
}

impl Default for BackoffSchedule {
    fn default() -> (out: Self)
        ensures
            out.cap() == 5,
            out.waits().len() == 4,
            duration_nanos(out.waits()[0]) == 5_000_000_000,
            duration_nanos(out.waits()[1]) == 30_000_000_000,
            duration_nanos(out.waits()[2]) == 120_000_000_000,
            duration_nanos(out.waits()[3]) == 600_000_000_000,
    {
        Self::standard()
    }
}

/// The nanoseconds a delay counts for: a delay longer than `chrono` can hold
/// counts for none.
pub open spec fn counted_nanos(d: Duration) -> int {
    if duration_nanos(d) <= max_delay_nanos() {
        duration_nanos(d) as int
    } else {
        0
    }
}

/// When a mutation that failed at `failed_at` is tried again; `None` where
/// that lies past the last point in time that `chrono` represents.
pub fn retry_at(failed_at: Timestamp, delay: Duration) -> (out: Option<Timestamp>)
    requires
        failed_at.0 <= max_timestamp_nanos(),
    ensures
        out == if failed_at.0 + counted_nanos(delay) <= max_timestamp_nanos() {
            Some(Timestamp((failed_at.0 + counted_nanos(delay)) as i128))
        } else {
            None
        },
{
    let nanos: i128 = match time_delta(delay) {
        Some((secs, rest)) => secs as i128 * 1_000_000_000 + rest as i128,
        None => 0,
    };
    let next: i128 = failed_at.0 + nanos;
    if next <= 8_210_266_876_799_999_999_999 {
        Some(Timestamp(next))
    } else {
        None
    }
}

/// The first wait follows the first attempt, each next one the next, and the
/// last one all that come after; an empty schedule waits no time.
pub proof fn law_waits_follow_the_schedule(s: BackoffSchedule, attempts_made: u32, d: Duration)
    requires
        s.is_wait(attempts_made, d),
    ensures
        s.waits().len() == 0 ==> duration_nanos(d) == 0,
        1 <= attempts_made <= s.waits().len() ==> d == s.waits()[attempts_made - 1],
        0 < s.waits().len() < attempts_made ==> d == s.waits().last(),
        attempts_made == 0 && s.waits().len() > 0 ==> d == s.waits()[0],
{
}

/// A delay counts in full as far as `i64::MAX` milliseconds, and beyond that for
/// nothing.
pub proof fn law_delays_count_in_full(d: Duration)
    ensures
        duration_nanos(d) <= 9_223_372_036_854_775_807_000_000 ==> counted_nanos(d)
            == duration_nanos(d),
        duration_nanos(d) > 9_223_372_036_854_775_807_000_000 ==> counted_nanos(d) == 0,
{
}

/// The standard schedule waits 5 s, 30 s, 2 min and 10 min, with five attempts in
/// all; one of one's own has its own waits, and at least one attempt.
pub proof fn law_schedules_have_their_waits(
    standard: BackoffSchedule,
    own: BackoffSchedule,
    delays: Vec<Duration>,
    max_attempts: u32,
)
    requires
        call_ensures(BackoffSchedule::standard, (), standard),
        call_ensures(BackoffSchedule::new, (delays, max_attempts), own),
    ensures
        standard.cap() == 5,
        standard.waits().len() == 4,
        duration_nanos(standard.waits()[0]) == 5 * 1_000_000_000,
        duration_nanos(standard.waits()[1]) == 30 * 1_000_000_000,
        duration_nanos(standard.waits()[2]) == 120 * 1_000_000_000,
        duration_nanos(standard.waits()[3]) == 600 * 1_000_000_000,
        own.waits() == delays@,
        max_attempts > 0 ==> own.cap() == max_attempts,
        max_attempts == 0 ==> own.cap() == 1,
{
}

/// A mutation is tried again while a failure leaves it an attempt, and after the
/// delay: at the time of the failure and as much later as the delay is long.
pub proof fn law_retry_comes_after_the_delay(
    s: &BackoffSchedule,
    attempts: u32,
    failure: Failure,
    failed_at: Timestamp,
    delay: Duration,
    at: Option<Timestamp>,
)
    requires
        call_ensures(BackoffSchedule::on_failure, (s, attempts), failure),
        call_ensures(retry_at, (failed_at, delay), at),
    ensures
        failure is DeadLetter <==> attempts + 1 >= s.cap(),
        failure matches Failure::Retry { delay } ==> {
            &&& attempts < s.waits().len() ==> delay == s.waits()[attempts as int]
            &&& 0 < s.waits().len() <= attempts ==> delay == s.waits().last()
            &&& s.waits().len() == 0 ==> duration_nanos(delay) == 0
        },
        at matches Some(t) ==> (duration_nanos(delay) <= 9_223_372_036_854_775_807_000_000 ==> t.0
            == failed_at.0 + duration_nanos(delay)),
        duration_nanos(delay) <= 9_223_372_036_854_775_807_000_000 ==> (at is None <==> failed_at.0
            + duration_nanos(delay) > 8_210_266_876_799_999_999_999),
{
}

} // verus!
