//! Timer arithmetic: the wall clock in microseconds, the calibration of a
//! cycle counter against it, and the split of one run into phases.
//!
//! The cycle counter itself is read by the caller, who hands its samples in as
//! plain numbers.

use std::time::{Duration, SystemTime, SystemTimeError, UNIX_EPOCH};
use vstd::prelude::*;

verus! {

/// Ticks per second of the wall clock: it counts microseconds.
pub open spec fn os_timer_freq() -> nat {
    1_000_000
}

/// How long a calibration waits, in milliseconds.
pub const MILLIS_TO_WAIT: u64 = 1000;

/// How long a calibration waits, in ticks of the wall clock.
pub open spec fn os_wait_time() -> nat {
    os_timer_freq() * (MILLIS_TO_WAIT as nat) / 1000
}

/// The frequency of the wall clock, in ticks per second.
pub fn get_os_timer_freq() -> (freq: u64)
    ensures
        freq == os_timer_freq(),
{
    1_000_000
}

/// `std::time::SystemTime`, a reading of the system clock; opaque here.
#[verifier::external_type_specification]
#[verifier::external_body]
pub struct ExSystemTime(SystemTime);

/// `std::time::SystemTimeError`, the error of a time before the one it is
/// measured from; opaque here.
#[verifier::external_type_specification]
#[verifier::external_body]
pub struct ExSystemTimeError(SystemTimeError);

/// `SystemTime::now`: the time of the system clock. Nothing is claimed of it.
pub assume_specification[ SystemTime::now ]() -> (now: SystemTime)
;

/// `Duration::as_secs`: the whole seconds of a duration. Nothing is claimed
/// of their number.
pub assume_specification[ Duration::as_secs ](duration: &Duration) -> (secs: u64)
;

/// `Duration::subsec_micros`: the part of a duration below one second, in
/// whole microseconds, which is less than a million.
pub assume_specification[ Duration::subsec_micros ](duration: &Duration) -> (micros: u32)
    ensures
        micros < 1_000_000,
;

/// `SystemTime::duration_since`, asked of `UNIX_EPOCH`: how long `time` is
/// behind the start of the epoch, or an error where it is before it. Nothing
/// is claimed of either.
#[verifier::external_body]
fn since_epoch(time: &SystemTime) -> (elapsed: Result<Duration, SystemTimeError>) {
    time.duration_since(UNIX_EPOCH)
}

/// The ticks of the wall clock in `secs` seconds and `micros` microseconds,
/// where 64 bits hold them.
pub fn os_timer_ticks(secs: u64, micros: u32) -> (ticks: Option<u64>)
    ensures
        ticks == if secs * os_timer_freq() + micros <= u64::MAX {
            Some((secs * os_timer_freq() + micros) as u64)
        } else {
            None
        },
{
    match get_os_timer_freq().checked_mul(secs) {
        Some(whole) => whole.checked_add(micros as u64),
        None => None,
    }
}

/// The wall clock: microseconds since the start of the epoch. `None` where
/// the system clock stands before the epoch, or so far behind it that 64 bits
/// do not hold the count.
pub fn read_os_timer() -> (ticks: Option<u64>) {
    let now = SystemTime::now();
    match since_epoch(&now) {
        Ok(since_the_epoch) => os_timer_ticks(
            since_the_epoch.as_secs(),
            since_the_epoch.subsec_micros(),
        ),
        Err(_) => None,
    }
}

/// The frequency of a cycle counter that went `cpu_elapsed` cycles while the
/// wall clock went `os_elapsed` ticks, rounded down: the cycles per tick,
/// times the ticks per second.
pub open spec fn guessed_freq(cpu_elapsed: nat, os_elapsed: nat) -> nat
    recommends
        os_elapsed > 0,
{
    os_timer_freq() * cpu_elapsed / os_elapsed
}

/// Guesses the frequency of the cycle counter from what it and the wall clock
/// counted over the same stretch of time. `None` where the wall clock did not
/// move, or where 64 bits do not hold the guess.
pub fn guess_cpu_freq(cpu_elapsed: u64, os_elapsed: u64) -> (freq: Option<u64>)
    ensures
        freq == if os_elapsed > 0 && guessed_freq(cpu_elapsed as nat, os_elapsed as nat)
            <= u64::MAX {
            Some(guessed_freq(cpu_elapsed as nat, os_elapsed as nat) as u64)
        } else {
            None
        },
{
    if os_elapsed == 0 {
        return None;
    }
    let os_freq: u128 = get_os_timer_freq() as u128;
    let scaled: u128 = os_freq * (cpu_elapsed as u128);
    let guess: u128 = scaled / (os_elapsed as u128);
    if guess <= u64::MAX as u128 {
        Some(guess as u64)
    } else {
        None
    }
}

/// A calibration of the cycle counter against the wall clock, as far as it
/// has come.
#[derive(Clone, Copy, Debug, PartialEq, Eq, Structural)]
pub enum Calibration {
    /// The wall clock is polled until the wait is over.
    Waiting { cpu_start: u64, os_start: u64 },
    /// The wait was over after `os_elapsed` ticks; the cycle counter is to be
    /// read.
    Elapsed { cpu_start: u64, os_elapsed: u64 },
    /// The guessed frequency.
    Done { cpu_freq: u64 },
    /// The cycle counter ran backwards, or 64 bits do not hold the guess.
    Failed,
}

/// A timer as it was read.
#[derive(Clone, Copy, Debug, PartialEq, Eq, Structural)]
pub enum TimerReading {
    /// The wall clock, in its ticks.
    Os(u64),
    /// The cycle counter.
    Cpu(u64),
}

/// The timer that a calibration wants read next.
#[derive(Clone, Copy, Debug, PartialEq, Eq, Structural)]
pub enum TimerRequest {
    /// Read the wall clock.
    Os,
    /// Read the cycle counter.
    Cpu,
    /// The calibration has ended.
    Nothing,
}

impl Calibration {
    /// The state after a reading. While waiting, a reading of the wall clock
    /// ends the wait once the clock has gone the waiting time. After the
    /// wait, a reading of the cycle counter gives the guess. A reading that
    /// was not asked for changes nothing.
    pub open spec fn after(self, reading: TimerReading) -> Calibration {
        match (self, reading) {
            (Calibration::Waiting { cpu_start, os_start }, TimerReading::Os(os_end)) => {
                if os_end - os_start >= os_wait_time() {
                    Calibration::Elapsed { cpu_start, os_elapsed: (os_end - os_start) as u64 }
                } else {
                    self
                }
            },
            (Calibration::Elapsed { cpu_start, os_elapsed }, TimerReading::Cpu(cpu_end)) => {
                if cpu_end >= cpu_start && os_elapsed > 0 && guessed_freq(
                    (cpu_end - cpu_start) as nat,
                    os_elapsed as nat,
                ) <= u64::MAX {
                    Calibration::Done {
                        cpu_freq: guessed_freq((cpu_end - cpu_start) as nat, os_elapsed as nat) as u64,
                    }
                } else {
                    Calibration::Failed
                }
            },
            _ => self,
        }
    }

    /// A calibration at its start, with both timers as they were just read.
    pub fn start(cpu_start: u64, os_start: u64) -> (calibration: Calibration)
        ensures
            calibration == (Calibration::Waiting { cpu_start, os_start }),
    {
        Calibration::Waiting { cpu_start, os_start }
    }

    /// The timer to read next.
    pub fn request(&self) -> (request: TimerRequest)
        ensures
            request == match *self {
                Calibration::Waiting { .. } => TimerRequest::Os,
                Calibration::Elapsed { .. } => TimerRequest::Cpu,
                _ => TimerRequest::Nothing,
            },
    {
        match self {
            Calibration::Waiting { .. } => TimerRequest::Os,
            Calibration::Elapsed { .. } => TimerRequest::Cpu,
            _ => TimerRequest::Nothing,
        }
    }

    /// Takes a reading.
    pub fn advance(self, reading: TimerReading) -> (next: Calibration)
        ensures
            next == self.after(reading),
    {
        match (self, reading) {
            (Calibration::Waiting { cpu_start, os_start }, TimerReading::Os(os_end)) => {
                let os_wait_time: u64 = get_os_timer_freq() * MILLIS_TO_WAIT / 1000;
                if os_end >= os_start && os_end - os_start >= os_wait_time {
                    Calibration::Elapsed { cpu_start, os_elapsed: os_end - os_start }
                } else {
                    self
                }
            },
            (Calibration::Elapsed { cpu_start, os_elapsed }, TimerReading::Cpu(cpu_end)) => {
                if cpu_end < cpu_start {
                    return Calibration::Failed;
                }
                match guess_cpu_freq(cpu_end - cpu_start, os_elapsed) {
                    Some(cpu_freq) => Calibration::Done { cpu_freq },
                    None => Calibration::Failed,
                }
            },
            _ => self,
        }
    }
}

/// A calibration that runs as asked gives the guess from what the two timers
/// counted between its start and the end of the wait.
pub proof fn lemma_calibration(cpu_start: u64, os_start: u64, os_end: u64, cpu_end: u64)
    requires
        cpu_start <= cpu_end,
        os_end - os_start >= os_wait_time(),
        guessed_freq((cpu_end - cpu_start) as nat, (os_end - os_start) as nat) <= u64::MAX,
    ensures
        (Calibration::Waiting { cpu_start, os_start }).after(TimerReading::Os(os_end)).after(
            TimerReading::Cpu(cpu_end),
        ) == (Calibration::Done {
            cpu_freq: guessed_freq(
                (cpu_end - cpu_start) as nat,
                (os_end - os_start) as nat,
            ) as u64,
        }),
{
}

/// The cycle counter as it was read at the five points of a run: at its
/// start, after the file was read, after the working state was set up, after
/// the parse, and after the sum.
#[derive(Clone, Copy, Debug, PartialEq, Eq)]
pub struct PhaseTimestamps {
    pub start: u64,
    pub after_read: u64,
    pub after_setup: u64,
    pub after_parse: u64,
    pub after_sum: u64,
}

/// How many cycles each phase of a run took, and the whole run.
#[derive(Clone, Copy, Debug, PartialEq, Eq)]
pub struct PhaseDurations {
    pub read: u64,
    pub setup: u64,
    pub parse: u64,
    pub sum: u64,
    pub total: u64,
}

impl PhaseTimestamps {
    /// No sample is less than the one before it.
    pub open spec fn ordered(self) -> bool {
        self.start <= self.after_read <= self.after_setup <= self.after_parse <= self.after_sum
    }

    /// The phases between the samples.
    pub open spec fn phases(self) -> PhaseDurations
        recommends
            self.ordered(),
    {
        PhaseDurations {
            read: (self.after_read - self.start) as u64,
            setup: (self.after_setup - self.after_read) as u64,
            parse: (self.after_parse - self.after_setup) as u64,
            sum: (self.after_sum - self.after_parse) as u64,
            total: (self.after_sum - self.start) as u64,
        }
    }

    /// The cycles of each phase and of the whole run, where the samples are in
    /// order. The phases do not overlap: together they are the whole run.
    pub fn durations(&self) -> (durations: Option<PhaseDurations>)
        ensures
            durations == if self.ordered() {
                Some(self.phases())
            } else {
                None
            },
            durations matches Some(d) ==> d.read + d.setup + d.parse + d.sum == d.total,
    {
        if self.start <= self.after_read && self.after_read <= self.after_setup && self.after_setup
            <= self.after_parse && self.after_parse <= self.after_sum {
            Some(
                PhaseDurations {
                    read: self.after_read - self.start,
                    setup: self.after_setup - self.after_read,
                    parse: self.after_parse - self.after_setup,
                    sum: self.after_sum - self.after_parse,
                    total: self.after_sum - self.start,
                },
            )
        } else {
            None
        }
    }
}

} // verus!
