use claude_sdk_verified::error_handling::{
    circuit_open_error, http_status_text, is_retryable, status_line, transform_http_error,
    ErrorHandler, ErrorHandlingConfig, RetryPolicy, RetryStep, WorkflowError,
};
use claude_sdk_verified::recovery::{
    breaker_open_error, CircuitBreaker, CircuitState, PartialResultRecovery, ReconnectStep,
    StreamReconnectionManager,
};
use claude_sdk_verified::time::Duration;

#[test]
fn error_handling_test_circuit_breaker() {
    let config = ErrorHandlingConfig {
        failure_threshold: 2,
        recovery_timeout: Duration::from_millis(100),
        ..Default::default()
    };
    let mut handler = ErrorHandler::new(config);
    handler.record_failure_at(0);
    assert!(!handler.is_circuit_open_at(0));
    handler.record_failure_at(0);
    assert!(handler.is_circuit_open_at(0));
    assert!(handler.is_circuit_open_at(99));
    assert!(!handler.is_circuit_open_at(100));
    handler.record_success();
    assert!(!handler.is_circuit_open_at(0));
}

#[test]
fn retry_decisions_follow_the_policy() {
    let config = ErrorHandlingConfig::default();
    let mut handler = ErrorHandler::new(config);
    let err = WorkflowError::TimeoutError("slow".to_string());
    let delay = config.retry_policy.initial_delay;
    match handler.after_failed_attempt(1, &err, delay, 0) {
        RetryStep::Retry { wait, next_wait } => {
            assert_eq!(wait, delay);
            assert_eq!(next_wait.millis, 2 * delay.millis);
        }
        RetryStep::GiveUp => panic!("a timeout is retried"),
    }
    let fatal = WorkflowError::AuthenticationError { message: "no".to_string() };
    assert!(!is_retryable(&fatal));
    assert_eq!(handler.after_failed_attempt(1, &fatal, delay, 0), RetryStep::GiveUp);
}

#[test]
fn backoff_doubles_up_to_the_cap() {
    let policy = RetryPolicy {
        max_attempts: 5,
        initial_delay: Duration::from_millis(100),
        max_delay: Duration::from_millis(250),
        exponential_backoff: true,
    };
    assert_eq!(policy.next_delay(Duration::from_millis(100)).millis, 200);
    assert_eq!(policy.next_delay(Duration::from_millis(200)).millis, 250);
    let flat = RetryPolicy { exponential_backoff: false, ..policy };
    assert_eq!(flat.next_delay(Duration::from_millis(100)).millis, 100);
}

#[test]
fn http_errors_map_to_workflow_errors() {
    match transform_http_error(401, "github") {
        WorkflowError::AuthenticationError { message } => assert_eq!(message, "github authentication failed"),
        e => panic!("unexpected {:?}", e),
    }
    match transform_http_error(404, "github") {
        WorkflowError::NotFound { resource } => assert_eq!(resource, "github resource"),
        e => panic!("unexpected {:?}", e),
    }
    assert!(matches!(transform_http_error(429, "github"), WorkflowError::RateLimitExceeded));
    match transform_http_error(503, "github") {
        WorkflowError::ExternalServiceError { service, message } => {
            assert_eq!(service, "github");
            assert_eq!(message, "Service temporarily unavailable");
        }
        e => panic!("unexpected {:?}", e),
    }
    match transform_http_error(500, "github") {
        WorkflowError::ExternalServiceError { message, .. } => {
            assert_eq!(message, "HTTP error: 500 Internal Server Error")
        }
        e => panic!("unexpected {:?}", e),
    }
    assert_eq!(http_status_text(418), "418 I'm a teapot");
    assert_eq!(http_status_text(599), "599 <unknown status code>");
    assert_eq!(status_line(200, Some("OK")), "200 OK");
    match circuit_open_error("slack") {
        WorkflowError::ExternalServiceError { service, message } => {
            assert_eq!(service, "slack");
            assert_eq!(message, "Circuit breaker is open due to repeated failures");
        }
        e => panic!("unexpected {:?}", e),
    }
}

#[test]
fn recovery_test_circuit_breaker() {
    let mut breaker = CircuitBreaker::new(2, 2, Duration::from_millis(1000));
    assert_eq!(breaker.current_state(), CircuitState::Closed);
    breaker.on_failure_at(10);
    breaker.on_failure_at(20);
    assert_eq!(breaker.current_state(), CircuitState::Open);
    assert!(!breaker.allows_call_at(500));
    assert!(breaker.allows_call_at(1020));
    assert_eq!(breaker.current_state(), CircuitState::HalfOpen);
    breaker.on_success_at(1030);
    assert_eq!(breaker.current_state(), CircuitState::HalfOpen);
    breaker.on_success_at(1040);
    assert_eq!(breaker.current_state(), CircuitState::Closed);
    assert_eq!(breaker_open_error(), "Service unavailable - circuit breaker is open");
}

#[test]
fn half_open_failure_reopens_the_breaker() {
    let mut breaker = CircuitBreaker::new(1, 3, Duration::from_millis(10));
    breaker.on_failure_at(0);
    assert_eq!(breaker.current_state(), CircuitState::Open);
    assert!(breaker.allows_call_at(10));
    breaker.on_failure_at(11);
    assert_eq!(breaker.current_state(), CircuitState::Open);
    assert!(!breaker.allows_call_at(15));
}

#[test]
fn test_partial_result_recovery() {
    let mut recovery = PartialResultRecovery::new(3);
    recovery.save_partial("chunk1".to_string());
    recovery.save_partial("chunk2".to_string());
    recovery.save_partial("chunk3".to_string());

    let recovered = recovery.recover();
    assert_eq!(recovered.len(), 3);
    assert_eq!(recovered[0], "chunk1");
    assert_eq!(recovered[2], "chunk3");

    recovery.save_partial("chunk4".to_string());
    let recovered = recovery.recover();
    assert_eq!(recovered.len(), 3);
    assert_eq!(recovered[0], "chunk2");
    assert_eq!(recovery.last_checkpoint(), Some(3));
    recovery.clear();
    assert!(recovery.recover().is_empty());
    assert_eq!(recovery.last_checkpoint(), None);
}

#[test]
fn reconnection_backs_off_and_gives_up() {
    let mut manager = StreamReconnectionManager::new(3, Duration::from_millis(100));
    assert_eq!(manager.calculate_backoff(0).millis, 100);
    assert_eq!(manager.calculate_backoff(3).millis, 800);
    assert_eq!(manager.calculate_backoff(20).millis, 60_000);
    let delays: Vec<u128> = (0..3)
        .map(|_| match manager.begin_attempt() {
            ReconnectStep::Attempt { delay, .. } => delay.millis,
            ReconnectStep::GiveUp => panic!("too early"),
        })
        .collect();
    assert_eq!(delays, vec![100, 200, 400]);
    assert_eq!(manager.begin_attempt(), ReconnectStep::GiveUp);
    assert_eq!(manager.current_attempts(), 0);
    manager.on_failure();
    manager.on_success();
    assert_eq!(manager.total_connections(), 2);
    assert_eq!(manager.successful_connections(), 1);
}

#[test]
fn durations_hold_any_number_of_seconds() {
    let d = Duration::from_secs(u64::MAX);
    assert_eq!(d.as_millis(), u64::MAX as u128 * 1000);
    assert_eq!(d.as_secs(), u64::MAX);
    assert_eq!(Duration::from_millis(1500).as_secs(), 1);
}

#[test]
fn after_a_success_fewer_failures_than_the_threshold_keep_the_circuit_closed() {
    let config = ErrorHandlingConfig {
        failure_threshold: 3,
        recovery_timeout: Duration::from_millis(100),
        ..Default::default()
    };
    let mut handler = ErrorHandler::new(config);
    for t in 0..3 {
        handler.record_failure_at(t);
    }
    assert!(handler.is_circuit_open_at(10));
    handler.record_success();
    handler.record_failure_at(20);
    handler.record_failure_at(30);
    assert_eq!(handler.consecutive_failures(), 2);
    assert!(!handler.is_circuit_open_at(30));
    assert!(!handler.is_circuit_open_at(1000));
    handler.record_failure_at(40);
    assert!(handler.is_circuit_open_at(40));
}

#[test]
fn partial_results_keep_the_latest_and_checkpoint_their_count() {
    let mut r = PartialResultRecovery::new(2);
    for chunk in ["a", "b", "c", "d", "e"] {
        r.save_partial(chunk.to_string());
    }
    assert_eq!(r.recover(), vec!["d".to_string(), "e".to_string()]);
    assert_eq!(r.last_checkpoint(), Some(2));
}
