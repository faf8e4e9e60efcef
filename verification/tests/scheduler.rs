use esindex_exporter::scheduler::{RefreshScheduler, SchedulerState};

#[test]
fn first_refresh_starts_at_once() {
    let scheduler = RefreshScheduler::new(60);
    assert_eq!(scheduler.state(), SchedulerState::Warming);
    assert_eq!(scheduler.next_wait(0), 0);
    assert_eq!(scheduler.next_wait(5_000), 0);
}

#[test]
fn wait_is_the_interval_less_the_time_the_refresh_took() {
    let mut scheduler = RefreshScheduler::new(60);
    scheduler.cycle_completed();
    assert_eq!(scheduler.state(), SchedulerState::Steady);
    assert_eq!(scheduler.next_wait(5_000), 55_000);
}

#[test]
fn refresh_that_overran_the_interval_is_followed_at_once() {
    let mut scheduler = RefreshScheduler::new(60);
    scheduler.cycle_completed();
    assert_eq!(scheduler.next_wait(65_000), 0);
    assert_eq!(scheduler.next_wait(60_000), 0);
    assert_eq!(scheduler.next_wait(u64::MAX), 0);
}

#[test]
fn refresh_that_took_no_time_waits_the_whole_interval() {
    let mut scheduler = RefreshScheduler::new(60);
    scheduler.cycle_completed();
    assert_eq!(scheduler.next_wait(0), 60_000);
    assert_eq!(scheduler.next_wait(59_999), 1);
}

#[test]
fn steady_stays_steady() {
    let mut scheduler = RefreshScheduler::new(1);
    scheduler.cycle_completed();
    scheduler.cycle_completed();
    assert_eq!(scheduler.state(), SchedulerState::Steady);
    assert_eq!(scheduler.interval_millis(), 1_000);
    assert_eq!(scheduler.next_wait(400), 600);
}

#[test]
fn interval_in_milliseconds() {
    assert_eq!(RefreshScheduler::new(60).interval_millis(), 60_000);
    assert_eq!(RefreshScheduler::new(0).interval_millis(), 0);
    assert_eq!(RefreshScheduler::new(u64::MAX / 1000).interval_millis(), u64::MAX / 1000 * 1000);
    assert_eq!(RefreshScheduler::new(u64::MAX / 1000 + 1).interval_millis(), u64::MAX);
    assert_eq!(RefreshScheduler::new(u64::MAX).interval_millis(), u64::MAX);
}

#[test]
fn zero_interval_never_waits() {
    let mut scheduler = RefreshScheduler::new(0);
    scheduler.cycle_completed();
    assert_eq!(scheduler.next_wait(0), 0);
    assert_eq!(scheduler.next_wait(10), 0);
}
