use haversine::platform_metrics::{
    get_os_timer_freq, guess_cpu_freq, os_timer_ticks, read_os_timer, Calibration,
    PhaseDurations, PhaseTimestamps, TimerReading, TimerRequest, MILLIS_TO_WAIT,
};

#[test]
fn the_wall_clock_counts_microseconds() {
    assert_eq!(get_os_timer_freq(), 1_000_000);
}

#[test]
fn ticks_are_seconds_times_a_million_plus_micros() {
    assert_eq!(os_timer_ticks(0, 0), Some(0));
    assert_eq!(os_timer_ticks(1, 5), Some(1_000_005));
    assert_eq!(os_timer_ticks(1_700_000_000, 999_999), Some(1_700_000_000_999_999));
    assert_eq!(os_timer_ticks(0, 4_000_000_000), Some(4_000_000_000));
}

#[test]
fn ticks_that_do_not_fit_are_none() {
    assert_eq!(os_timer_ticks(18_446_744_073_709, 551_615), Some(u64::MAX));
    assert_eq!(os_timer_ticks(18_446_744_073_709, 551_616), None);
    assert_eq!(os_timer_ticks(18_446_744_073_710, 0), None);
    assert_eq!(os_timer_ticks(u64::MAX, 0), None);
}

#[test]
fn the_wall_clock_reads_a_time_of_today() {
    let first = read_os_timer().unwrap();
    // 2020-01-01 in microseconds since the epoch.
    assert!(first > 1_577_836_800_000_000);
    let second = read_os_timer().unwrap();
    assert!(second > 1_577_836_800_000_000);
}

#[test]
fn the_guess_is_cycles_per_second() {
    assert_eq!(guess_cpu_freq(3_000_000_000, 1_000_000), Some(3_000_000_000));
    assert_eq!(guess_cpu_freq(24_000_000, 1_000_000), Some(24_000_000));
    assert_eq!(guess_cpu_freq(24_000_123, 1_000_005), Some(24_000_002));
    assert_eq!(guess_cpu_freq(10, 3), Some(3_333_333));
    assert_eq!(guess_cpu_freq(0, 1_000_000), Some(0));
    assert_eq!(guess_cpu_freq(1, 1_000_001), Some(0));
}

#[test]
fn the_guess_takes_products_beyond_64_bits() {
    assert_eq!(guess_cpu_freq(u64::MAX, 1_000_000), Some(u64::MAX));
    assert_eq!(guess_cpu_freq(u64::MAX, 2_000_000), Some(u64::MAX / 2));
    assert_eq!(guess_cpu_freq(20_000_000_000_000, 4_000_000), Some(5_000_000_000_000));
}

#[test]
fn no_guess_without_elapsed_time_or_room() {
    assert_eq!(guess_cpu_freq(5, 0), None);
    assert_eq!(guess_cpu_freq(0, 0), None);
    assert_eq!(guess_cpu_freq(u64::MAX, 999_999), None);
    assert_eq!(guess_cpu_freq(u64::MAX, 1), None);
}

#[test]
fn the_wait_is_a_second() {
    assert_eq!(MILLIS_TO_WAIT, 1000);
    let c = Calibration::start(0, 0);
    assert_eq!(c.advance(TimerReading::Os(999_999)), c);
    assert_eq!(
        c.advance(TimerReading::Os(1_000_000)),
        Calibration::Elapsed { cpu_start: 0, os_elapsed: 1_000_000 }
    );
}

#[test]
fn a_calibration_runs_to_its_guess() {
    let mut c = Calibration::start(500, 10_000_000);
    assert_eq!(c, Calibration::Waiting { cpu_start: 500, os_start: 10_000_000 });
    assert_eq!(c.request(), TimerRequest::Os);
    c = c.advance(TimerReading::Os(10_000_000));
    assert_eq!(c.request(), TimerRequest::Os);
    c = c.advance(TimerReading::Os(10_400_000));
    assert_eq!(c, Calibration::Waiting { cpu_start: 500, os_start: 10_000_000 });
    c = c.advance(TimerReading::Os(11_000_004));
    assert_eq!(c, Calibration::Elapsed { cpu_start: 500, os_elapsed: 1_000_004 });
    assert_eq!(c.request(), TimerRequest::Cpu);
    c = c.advance(TimerReading::Cpu(2_400_010_099));
    assert_eq!(c, Calibration::Done { cpu_freq: 2_399_999_999 });
    assert_eq!(c.request(), TimerRequest::Nothing);
}

#[test]
fn a_wall_clock_that_ran_backwards_is_waited_out() {
    let c = Calibration::start(0, 5_000_000);
    assert_eq!(c.advance(TimerReading::Os(4_000_000)), c);
    assert_eq!(c.advance(TimerReading::Os(0)), c);
}

#[test]
fn a_cycle_counter_that_ran_backwards_fails_the_calibration() {
    let c = Calibration::Elapsed { cpu_start: 100, os_elapsed: 1_000_000 };
    assert_eq!(c.advance(TimerReading::Cpu(99)), Calibration::Failed);
    assert_eq!(c.advance(TimerReading::Cpu(100)), Calibration::Done { cpu_freq: 0 });
}

#[test]
fn a_guess_without_room_fails_the_calibration() {
    let c = Calibration::Elapsed { cpu_start: 0, os_elapsed: 999_999 };
    assert_eq!(c.advance(TimerReading::Cpu(u64::MAX)), Calibration::Failed);
    assert_eq!(Calibration::Failed.request(), TimerRequest::Nothing);
}

#[test]
fn readings_not_asked_for_change_nothing() {
    let waiting = Calibration::start(1, 2);
    assert_eq!(waiting.advance(TimerReading::Cpu(77)), waiting);
    let elapsed = Calibration::Elapsed { cpu_start: 1, os_elapsed: 1_000_000 };
    assert_eq!(elapsed.advance(TimerReading::Os(77)), elapsed);
    let done = Calibration::Done { cpu_freq: 9 };
    assert_eq!(done.advance(TimerReading::Os(77)), done);
    assert_eq!(done.advance(TimerReading::Cpu(77)), done);
    assert_eq!(Calibration::Failed.advance(TimerReading::Cpu(77)), Calibration::Failed);
    assert_eq!(Calibration::Failed.advance(TimerReading::Os(77)), Calibration::Failed);
}

#[test]
fn phases_are_the_differences_of_the_samples() {
    let samples = PhaseTimestamps {
        start: 1_000,
        after_read: 1_250,
        after_setup: 1_260,
        after_parse: 9_260,
        after_sum: 11_000,
    };
    assert_eq!(
        samples.durations(),
        Some(PhaseDurations { read: 250, setup: 10, parse: 8_000, sum: 1_740, total: 10_000 })
    );
}

#[test]
fn phases_add_up_to_the_total() {
    let samples = PhaseTimestamps {
        start: 3,
        after_read: 3,
        after_setup: 17,
        after_parse: u64::MAX - 1,
        after_sum: u64::MAX,
    };
    let d = samples.durations().unwrap();
    assert_eq!(d.read, 0);
    assert_eq!(d.total, u64::MAX - 3);
    assert_eq!(d.read as u128 + d.setup as u128 + d.parse as u128 + d.sum as u128, d.total as u128);
}

#[test]
fn samples_out_of_order_have_no_phases() {
    let good = PhaseTimestamps { start: 1, after_read: 2, after_setup: 3, after_parse: 4, after_sum: 5 };
    assert!(good.durations().is_some());
    assert_eq!(PhaseTimestamps { start: 3, ..good }.durations(), None);
    assert_eq!(PhaseTimestamps { after_read: 4, ..good }.durations(), None);
    assert_eq!(PhaseTimestamps { after_setup: 5, ..good }.durations(), None);
    assert_eq!(PhaseTimestamps { after_parse: 6, ..good }.durations(), None);
    assert_eq!(PhaseTimestamps { after_sum: 0, ..good }.durations(), None);
}
