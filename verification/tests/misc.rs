use regicide::error::Error;
use regicide::pacer::{Pacer, TICK_NANOS};

#[test]
fn join_error_says_so() {
    assert_eq!(Error::JoinError.to_string(), "Error joining game");
}

#[test]
fn pacer_keeps_the_schedule() {
    assert_eq!(TICK_NANOS, 10_000_000);
    let mut pacer = Pacer::new(1_000);
    // Work done after 4 ms: sleep the remaining 6.
    assert_eq!(pacer.pause(4_001_000), 6_000_000);
    // The next deadline is 20 ms after the start, whenever the sleep ended.
    assert_eq!(pacer.pause(10_500_000), 9_501_000);
    // A tick that ran late is not waited for, and the one after it is cut
    // short: deadlines were at 30 and 40 ms.
    assert_eq!(pacer.pause(37_001_000), 0);
    assert_eq!(pacer.pause(38_001_000), 2_000_000);
    assert_eq!(pacer.pause(50_001_000), 0);
    assert_eq!(pacer.pause(50_001_001), 9_999_999);
}

#[test]
fn pacer_does_not_wrap() {
    let mut pacer = Pacer::new(u64::MAX - 5);
    assert_eq!(pacer.pause(u64::MAX - 1), 1);
    assert_eq!(pacer.pause(u64::MAX), 0);
    assert_eq!(pacer.pause(0), u64::MAX);
}
