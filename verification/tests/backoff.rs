use kubectl_tail::backoff::{
    delay_ms, next_delay_ms, RetryStep, WatchRetry, INITIAL_DELAY_MS, JITTER_PERCENT,
    MAX_DELAY_MS,
};

#[test]
fn the_wait_doubles_up_to_the_cap() {
    assert_eq!(INITIAL_DELAY_MS, 1000);
    assert_eq!(MAX_DELAY_MS, 30000);
    assert_eq!(delay_ms(0), 1000);
    assert_eq!(delay_ms(1), 2000);
    assert_eq!(delay_ms(2), 4000);
    assert_eq!(delay_ms(3), 8000);
    assert_eq!(delay_ms(4), 16000);
    assert_eq!(delay_ms(5), 30000);
    assert_eq!(delay_ms(6), 30000);
    assert_eq!(delay_ms(64), 30000);
    assert_eq!(delay_ms(u32::MAX), 30000);
}

#[test]
fn jitter_stays_within_a_fifth() {
    assert_eq!(JITTER_PERCENT, 20);
    assert_eq!(next_delay_ms(0, 0), 800);
    assert_eq!(next_delay_ms(0, 255), 1200);
    assert_eq!(next_delay_ms(0, 128), 1000);
    assert_eq!(next_delay_ms(1, 0), 1600);
    assert_eq!(next_delay_ms(9, 0), 24000);
    assert_eq!(next_delay_ms(9, 255), 36000);
    for failures in 0..8 {
        for roll in [0u8, 1, 17, 127, 128, 200, 254, 255] {
            let base = delay_ms(failures);
            let delay = next_delay_ms(failures, roll);
            assert!(delay >= base * 80 / 100 && delay <= base * 120 / 100);
        }
    }
}

#[test]
fn only_the_first_failure_of_a_run_is_reported() {
    let mut retry = WatchRetry::new();
    assert_eq!(retry.on_failure(0), RetryStep { delay_ms: 800, report: true });
    assert_eq!(retry.on_failure(255), RetryStep { delay_ms: 2400, report: false });
    assert_eq!(retry.on_failure(0), RetryStep { delay_ms: 3200, report: false });
    retry.on_event();
    assert_eq!(retry.on_failure(128), RetryStep { delay_ms: 1000, report: true });
    retry.on_event();
    retry.on_event();
    assert!(retry.on_failure(7).report);
    for _ in 0..40 {
        assert!(!retry.on_failure(0).report);
    }
    assert_eq!(retry.on_failure(0), RetryStep { delay_ms: 24000, report: false });
}
