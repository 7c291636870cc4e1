use push_notifications_service::retry::{RetryStep, RetryWaiter};

fn run_until_done(max_attempts: u32, outcomes: &[Result<u32, String>]) -> (usize, RetryStep<u32, String>) {
    let mut waiter = RetryWaiter::new(max_attempts, 1000);
    let mut calls = 0;
    loop {
        let outcome = outcomes[calls].clone();
        calls += 1;
        match waiter.record(outcome) {
            RetryStep::RetryAfter(pause) => {
                assert_eq!(pause, 1000);
                assert!(!waiter.is_finished());
            }
            done => {
                assert!(waiter.is_finished());
                return (calls, done);
            }
        }
    }
}

#[test]
fn always_failing_condition_times_out_after_max_attempts() {
    let outcomes: Vec<Result<u32, String>> = (0..10).map(|i| Err(format!("not yet {i}"))).collect();
    let (calls, step) = run_until_done(5, &outcomes);
    assert_eq!(calls, 5);
    match step {
        RetryStep::TimedOut(e) => {
            assert_eq!(e.attempts, 5);
            assert_eq!(e.last_error, "not yet 4");
        }
        _ => panic!("expected a timeout"),
    }
}

#[test]
fn success_on_attempt_k_makes_k_calls() {
    let outcomes: Vec<Result<u32, String>> =
        vec![Err("a".to_string()), Err("b".to_string()), Ok(7), Err("c".to_string())];
    let (calls, step) = run_until_done(5, &outcomes);
    assert_eq!(calls, 3);
    assert!(matches!(step, RetryStep::Ready(7)));
}

#[test]
fn success_on_the_last_allowed_attempt() {
    let outcomes: Vec<Result<u32, String>> = vec![Err("a".to_string()), Ok(1)];
    let (calls, step) = run_until_done(2, &outcomes);
    assert_eq!(calls, 2);
    assert!(matches!(step, RetryStep::Ready(1)));
}

#[test]
fn single_attempt_waiter_fails_at_once() {
    let outcomes: Vec<Result<u32, String>> = vec![Err("down".to_string())];
    let (calls, step) = run_until_done(1, &outcomes);
    assert_eq!(calls, 1);
    match step {
        RetryStep::TimedOut(e) => assert_eq!(e.last_error, "down"),
        _ => panic!("expected a timeout"),
    }
}
