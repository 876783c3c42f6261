use lines::scheduler::{time_until_next_wakeup, PollCycle};

#[test]
fn cycle_with_slack_keeps_the_cadence() {
    // Target interval 100 ms, dispatched work 30 ms: the sleep fills the
    // interval exactly, so consecutive cycle starts are 100 ms apart.
    let mut cycle = PollCycle::new(100, 0);
    let work_done_at: u64 = 0 + 30;
    let sleep = cycle.sleep_duration(work_done_at);
    assert_eq!(sleep, 70);
    let next_start = work_done_at + sleep;
    assert!(next_start - 0 >= 100);
    assert!(next_start - 0 < 110);
    // The next cycle measures from its own wakeup, so jitter does not
    // accumulate: the second gap is again exactly one interval.
    cycle.advance(next_start);
    let second_sleep = cycle.sleep_duration(next_start + 30);
    assert_eq!(next_start + 30 + second_sleep - next_start, 100);
}

#[test]
fn overrunning_cycle_starts_the_next_immediately() {
    // Target interval 50 ms, dispatched work 80 ms: no catch-up, no
    // negative sleep — the next cycle starts at once.
    let cycle = PollCycle::new(50, 0);
    let sleep = cycle.sleep_duration(0 + 80);
    assert_eq!(sleep, 0);
}

#[test]
fn sleep_is_the_remainder_of_the_interval() {
    assert_eq!(time_until_next_wakeup(1000, 1030, 100), 70);
    assert_eq!(time_until_next_wakeup(1000, 1100, 100), 0);
    assert_eq!(time_until_next_wakeup(1000, 1250, 100), 0);
    assert_eq!(time_until_next_wakeup(1000, 1000, 100), 100);
    assert_eq!(time_until_next_wakeup(1000, 1030, 0), 0);
}
