use supurr::exchange::ExchangeError;
use supurr::poll_guard::{HasItems, PollGuard, PollOutcome};
use supurr::runner::RunnerConfig;

#[test]
fn has_items_vec() {
    let empty: Vec<i32> = vec![];
    assert!(!empty.has_items());

    let non_empty = vec![1, 2, 3];
    assert!(non_empty.has_items());
}

#[test]
fn looks_exhausted_threshold() {
    let config = RunnerConfig::default();
    let mut guard = PollGuard::new("test", &config);

    assert!(!guard.looks_exhausted(3));

    guard.consecutive_empties = 2;
    assert!(!guard.looks_exhausted(3));

    guard.consecutive_empties = 3;
    assert!(guard.looks_exhausted(3));
}

#[test]
fn increase_backoff_exponential() {
    let config = RunnerConfig {
        initial_backoff_ms: 100,
        max_backoff_ms: 1000,
        backoff_multiplier_pct: 200,
        ..RunnerConfig::default()
    };
    let mut guard = PollGuard::new("test", &config);

    // First backoff: 0 → initial
    guard.increase_backoff();
    assert_eq!(guard.backoff_ms, 100);

    // Second: 100 * 2 = 200
    guard.increase_backoff();
    assert_eq!(guard.backoff_ms, 200);

    // Third: 200 * 2 = 400
    guard.increase_backoff();
    assert_eq!(guard.backoff_ms, 400);

    // Fourth: 400 * 2 = 800
    guard.increase_backoff();
    assert_eq!(guard.backoff_ms, 800);

    // Fifth: 800 * 2 = 1600 → cap at 1000
    guard.increase_backoff();
    assert_eq!(guard.backoff_ms, 1000);
}

#[test]
fn outcomes_of_polls() {
    let mut guard = PollGuard::new("fills", &RunnerConfig::default());
    assert!(matches!(guard.execute(Ok(vec![1])), PollOutcome::Data(v) if v == vec![1]));
    assert!(matches!(guard.execute(Ok(Vec::<i32>::new())), PollOutcome::Empty));
    assert_eq!(guard.consecutive_empties, 1);
    assert!(matches!(
        guard.execute(Err::<Vec<i32>, _>(ExchangeError::Timeout)),
        PollOutcome::Empty
    ));
    assert_eq!(guard.delay_ms(), 1000);
    assert!(matches!(
        guard.execute(Err::<Vec<i32>, _>(ExchangeError::Unavailable)),
        PollOutcome::Degraded(ExchangeError::Unavailable)
    ));
    assert_eq!(guard.delay_ms(), 2000);
    assert!(matches!(
        guard.execute(Err::<Vec<i32>, _>(ExchangeError::Rejected("no".to_string()))),
        PollOutcome::Fatal(ExchangeError::Rejected(_))
    ));
    assert_eq!(guard.delay_ms(), 2000);
    assert!(matches!(guard.execute(Ok(vec![7])), PollOutcome::Data(_)));
    assert_eq!(guard.delay_ms(), 0);
    assert!(!guard.looks_exhausted(1));
}
