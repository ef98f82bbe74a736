//! Tests for the core types, errors, option flags and configuration.

use ucosiii::config::CFG_PRIO_IDLE;
use ucosiii::config::CFG_PRIO_MAX;
use ucosiii::config::CFG_STK_SIZE_MIN;
use ucosiii::config::CFG_TICK_RATE_HZ;
use ucosiii::error::OsError;
use ucosiii::types::OsPendStatus;
use ucosiii::types::OsTaskState;
use ucosiii::types::opt::NONE;
use ucosiii::types::opt::PEND_NON_BLOCKING;
use ucosiii::types::opt::POST_FIFO;
use ucosiii::types::opt::POST_NO_SCHED;

#[test]
fn test_error_variants() {
    assert!(OsError::NoError.is_ok());
    assert!(!OsError::NoError.is_err());

    assert!(!OsError::Timeout.is_ok());
    assert!(OsError::Timeout.is_err());

    assert_eq!(OsError::NoError, OsError::NoError);
    assert_ne!(OsError::NoError, OsError::Timeout);
}

#[test]
fn test_error_debug() {
    // Ensure errors can be formatted for debugging
    let err = OsError::PendIsr;
    let _ = format!("{:?}", err);
}

#[test]
fn test_task_state_enum() {
    let state = OsTaskState::Ready;
    assert_eq!(state, OsTaskState::Ready);
    assert_ne!(state, OsTaskState::Delayed);
}

#[test]
fn test_pend_status_enum() {
    let status = OsPendStatus::PendOk;
    assert_eq!(status, OsPendStatus::PendOk);
    assert_ne!(status, OsPendStatus::Timeout);
}

#[test]
fn test_option_flags() {
    assert_eq!(NONE, 0);
    assert_eq!(PEND_NON_BLOCKING, 0x8000);
    assert_eq!(POST_NO_SCHED, 0x8000);

    // Test combining flags
    let combined = POST_FIFO | POST_NO_SCHED;
    assert_eq!(combined & POST_NO_SCHED, POST_NO_SCHED);
}

#[test]
fn test_config_values() {
    assert!(CFG_PRIO_MAX >= 8, "Need at least 8 priority levels");
    assert!(CFG_PRIO_MAX <= 256, "Too many priority levels");

    assert!(CFG_STK_SIZE_MIN >= 32, "Stack too small");

    assert!(CFG_TICK_RATE_HZ >= 10, "Tick rate too slow");
    assert!(CFG_TICK_RATE_HZ <= 10000, "Tick rate too fast");

    // Idle priority should be lowest
    assert_eq!(CFG_PRIO_IDLE, (CFG_PRIO_MAX - 1) as u8);
}
