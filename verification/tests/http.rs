//! Retrying requests.
use wdpkr_core::http::{
    backoff, failure_message, is_retryable_standard, is_server_error, next_step, Attempt, RetryPolicy,
    RetryStep,
};

#[test]
fn standard_retryable_set() {
    assert!(is_retryable_standard(429));
    assert!(is_retryable_standard(500));
    assert!(is_retryable_standard(502));
    assert!(is_retryable_standard(503));
    assert!(is_retryable_standard(529));
    assert!(!is_retryable_standard(200));
    assert!(!is_retryable_standard(400));
    assert!(!is_retryable_standard(401));
    assert!(!is_retryable_standard(404));
}

#[test]
fn server_error_set() {
    assert!(is_server_error(500));
    assert!(is_server_error(502));
    assert!(is_server_error(599));
    assert!(!is_server_error(200));
    assert!(!is_server_error(429));
    assert!(!is_server_error(404));
}

#[test]
fn backoff_is_exponential() {
    let p = RetryPolicy::standard(3, 1000);
    assert_eq!(backoff(&p, 0), 1000);
    assert_eq!(backoff(&p, 1), 2000);
    assert_eq!(backoff(&p, 2), 4000);
    assert_eq!(backoff(&p, 3), 8000);
}

#[test]
fn backoff_respects_base_delay() {
    let p = RetryPolicy::server_errors(3, 500);
    assert_eq!(backoff(&p, 0), 500);
    assert_eq!(backoff(&p, 1), 1000);
    assert_eq!(backoff(&p, 2), 2000);
}

#[test]
fn constructors_wire_the_right_predicate() {
    let std = RetryPolicy::standard(3, 1000);
    assert!(std.retries(429));
    let srv = RetryPolicy::server_errors(3, 1000);
    assert!(!srv.retries(429));
    assert!(srv.retries(500));
}

#[test]
fn retries_stop_after_the_last() {
    let p = RetryPolicy::standard(2, 100);
    assert_eq!(next_step(&p, 0, Attempt::Status(503)), RetryStep::Retry { delay_ms: 100 });
    assert_eq!(next_step(&p, 1, Attempt::Status(503)), RetryStep::Retry { delay_ms: 200 });
    assert_eq!(next_step(&p, 2, Attempt::Status(503)), RetryStep::Return);
    assert_eq!(next_step(&p, 0, Attempt::Status(200)), RetryStep::Return);
    assert_eq!(next_step(&p, 0, Attempt::Status(404)), RetryStep::Return);
}

#[test]
fn lost_connections_are_retried_then_reported() {
    let p = RetryPolicy::standard(1, 100);
    assert_eq!(next_step(&p, 0, Attempt::NoResponse), RetryStep::Retry { delay_ms: 100 });
    assert_eq!(next_step(&p, 1, Attempt::NoResponse), RetryStep::Fail);
    assert_eq!(failure_message("Voyage API"), "Voyage API request failed");
}

#[test]
fn only_5xx_statuses_are_server_errors() {
    assert!(!is_server_error(499));
    assert!(is_server_error(500));
    assert!(is_server_error(599));
    assert!(!is_server_error(600));
    assert!(!is_server_error(u16::MAX));
    let p = RetryPolicy::server_errors(3, 100);
    assert_eq!(next_step(&p, 0, Attempt::Status(599)), RetryStep::Retry { delay_ms: 100 });
    assert_eq!(next_step(&p, 0, Attempt::Status(600)), RetryStep::Return);
}

#[test]
fn a_policy_with_many_retries_answers() {
    let p = RetryPolicy::standard(100, 1000);
    assert_eq!(next_step(&p, 0, Attempt::Status(200)), RetryStep::Return);
    assert_eq!(next_step(&p, 70, Attempt::Status(200)), RetryStep::Return);
    assert_eq!(next_step(&p, 0, Attempt::Status(503)), RetryStep::Retry { delay_ms: 1000 });
    assert_eq!(next_step(&p, 100, Attempt::NoResponse), RetryStep::Fail);
    let edge = RetryPolicy::standard(65, 1);
    assert_eq!(next_step(&edge, 63, Attempt::NoResponse), RetryStep::Retry { delay_ms: 1 << 63 });
}
