//! Tests for the operation registry: registration, cancellation,
//! pre-cancellation tombstones, guard release and the lazy sweep.

use simple_tools::registry::{CancelledError, OperationRegistry, SWEEP_THRESHOLD};

/// A fixed "now" for tests that do not care about time.
const NOW: u64 = 1_000_000_000;

#[test]
fn test_try_register_success() {
    let mut registry = OperationRegistry::new();
    let result = registry.try_register("op1", NOW);

    assert!(result.is_ok());
    let guard = result.unwrap();
    assert!(!registry.is_cancelled("op1"));
    assert!(registry.is_active("op1"));

    registry.release(guard);
}

#[test]
fn test_try_register_returns_error_if_tombstone_exists() {
    let mut registry = OperationRegistry::new();

    // Pre-cancel the operation
    registry.cancel("op1", NOW);
    assert!(registry.is_tombstone("op1"));

    // Try to register - should fail
    let result = registry.try_register("op1", NOW);
    assert!(result.is_err());
    assert_eq!(result.unwrap_err(), CancelledError);
}

#[test]
fn test_try_register_removes_tombstone_on_check() {
    let mut registry = OperationRegistry::new();

    // Pre-cancel the operation
    registry.cancel("op1", NOW);
    assert!(registry.is_tombstone("op1"));

    // Try to register - should fail and remove tombstone
    let _ = registry.try_register("op1", NOW);
    assert!(!registry.contains("op1"));
}

#[test]
fn test_cancel_sets_flag_for_active_operation() {
    let mut registry = OperationRegistry::new();
    let guard = registry.try_register("op1", NOW).unwrap();

    assert!(!registry.is_cancelled("op1"));
    registry.cancel("op1", NOW);
    assert!(registry.is_cancelled("op1"));

    registry.release(guard);
}

#[test]
fn test_cancel_creates_tombstone_for_unknown_id() {
    let mut registry = OperationRegistry::new();

    assert!(!registry.contains("op1"));
    registry.cancel("op1", NOW);
    assert!(registry.is_tombstone("op1"));
}

#[test]
fn test_cancel_is_idempotent() {
    let mut registry = OperationRegistry::new();
    let guard = registry.try_register("op1", NOW).unwrap();

    registry.cancel("op1", NOW);
    registry.cancel("op1", NOW + 1);
    registry.cancel("op1", NOW + 2);

    assert!(registry.is_cancelled("op1"));
    assert!(registry.is_active("op1"));
    assert_eq!(registry.len(), 1);

    registry.release(guard);
}

#[test]
fn test_guard_drop_removes_active_entry() {
    let mut registry = OperationRegistry::new();

    let guard = registry.try_register("op1", NOW).unwrap();
    assert!(registry.contains("op1"));
    registry.release(guard);

    assert!(!registry.contains("op1"));
}

#[test]
fn test_guard_drop_does_not_remove_other_entries() {
    let mut registry = OperationRegistry::new();

    let guard1 = registry.try_register("op1", NOW).unwrap();
    let guard2 = registry.try_register("op2", NOW).unwrap();

    assert!(registry.contains("op1"));
    assert!(registry.contains("op2"));

    registry.release(guard1);

    assert!(!registry.contains("op1"));
    assert!(registry.contains("op2"));

    registry.release(guard2);
}

#[test]
fn test_guard_reports_its_id() {
    let mut registry = OperationRegistry::new();
    let guard = registry.try_register("op1", NOW).unwrap();
    assert_eq!(guard.id(), "op1");
    registry.release(guard);
}

#[test]
fn test_lazy_sweep_not_triggered_under_threshold() {
    let mut registry = OperationRegistry::new();

    // Add old tombstone (120 seconds old)
    registry.insert_tombstone_with_age("old_tombstone", 120_000, NOW);

    // Register a few operations (under threshold)
    for i in 0..10 {
        registry.cancel(&format!("op{}", i), NOW);
    }

    // Old tombstone should still exist (no sweep triggered)
    assert!(registry.contains("old_tombstone"));
}

#[test]
fn test_lazy_sweep_triggered_at_threshold() {
    let mut registry = OperationRegistry::new();

    // Add old tombstone (120 seconds old)
    registry.insert_tombstone_with_age("old_tombstone", 120_000, NOW);

    // Add entries to exceed threshold
    for i in 0..SWEEP_THRESHOLD + 1 {
        registry.cancel(&format!("tombstone{}", i), NOW);
    }

    // Trigger sweep by registering
    let _ = registry.try_register("trigger", NOW);

    // Old tombstone should be removed
    assert!(!registry.contains("old_tombstone"));
}

#[test]
fn test_lazy_sweep_removes_old_tombstones() {
    let mut registry = OperationRegistry::new();

    // Add old tombstones
    registry.insert_tombstone_with_age("old1", 120_000, NOW);
    registry.insert_tombstone_with_age("old2", 90_000, NOW);

    // Add recent tombstones
    registry.cancel("recent1", NOW);
    registry.cancel("recent2", NOW);

    // Fill to threshold
    for i in 0..SWEEP_THRESHOLD {
        registry.cancel(&format!("filler{}", i), NOW);
    }

    // Trigger sweep
    let _ = registry.try_register("trigger", NOW);

    // Old tombstones should be removed
    assert!(!registry.contains("old1"));
    assert!(!registry.contains("old2"));

    // Recent tombstones should remain
    assert!(registry.contains("recent1"));
    assert!(registry.contains("recent2"));
}

#[test]
fn test_lazy_sweep_keeps_recent_tombstones() {
    let mut registry = OperationRegistry::new();

    // Add recent tombstone (30 seconds old, under the 60 second limit)
    registry.insert_tombstone_with_age("recent", 30_000, NOW);

    // Fill to threshold
    for i in 0..SWEEP_THRESHOLD + 1 {
        registry.cancel(&format!("filler{}", i), NOW);
    }

    // Trigger sweep
    let _ = registry.try_register("trigger", NOW);

    // Recent tombstone should remain
    assert!(registry.contains("recent"));
}

#[test]
fn test_lazy_sweep_keeps_active_operations() {
    let mut registry = OperationRegistry::new();

    // Register active operation
    let guard = registry.try_register("active", NOW).unwrap();

    // Fill to threshold with tombstones
    for i in 0..SWEEP_THRESHOLD + 1 {
        registry.cancel(&format!("tombstone{}", i), NOW);
    }

    // Trigger sweep
    let _ = registry.try_register("trigger", NOW);

    // Active operation should remain
    assert!(registry.is_active("active"));

    registry.release(guard);
}

#[test]
fn test_multiple_operations_independent() {
    let mut registry = OperationRegistry::new();

    let guard1 = registry.try_register("op1", NOW).unwrap();
    let guard2 = registry.try_register("op2", NOW).unwrap();
    let guard3 = registry.try_register("op3", NOW).unwrap();

    // Cancel only op2
    registry.cancel("op2", NOW);

    assert!(!registry.is_cancelled("op1"));
    assert!(registry.is_cancelled("op2"));
    assert!(!registry.is_cancelled("op3"));

    registry.release(guard1);
    registry.release(guard2);
    registry.release(guard3);
}

#[test]
fn test_cancelled_error_message() {
    assert_eq!(CancelledError.message(), "Operation was cancelled");
}

#[test]
fn test_registry_starts_empty() {
    let registry = OperationRegistry::new();
    assert!(registry.is_empty());
    assert_eq!(registry.len(), 0);
}

#[test]
fn test_precancel_then_register_consumes_tombstone_once() {
    let mut registry = OperationRegistry::new();

    registry.cancel("op1", NOW);
    let result = registry.try_register("op1", NOW + 1);
    assert!(result.is_err());
    assert!(!registry.contains("op1"));

    // The tombstone was consumed: a second attempt now succeeds.
    let result = registry.try_register("op1", NOW + 2);
    assert!(result.is_ok());
    registry.release(result.unwrap());
}

#[test]
fn test_reregistering_active_id_replaces_entry() {
    // An id registered twice while still active is silently replaced; the
    // first guard's release then removes the second registration's entry.
    let mut registry = OperationRegistry::new();

    let guard1 = registry.try_register("op1", NOW).unwrap();
    registry.cancel("op1", NOW);
    assert!(registry.is_cancelled("op1"));

    let guard2 = registry.try_register("op1", NOW).unwrap();
    // The replacement entry carries a fresh, unset flag.
    assert!(!registry.is_cancelled("op1"));

    registry.release(guard1);
    // The stale release removed the live entry under the shared id.
    assert!(!registry.contains("op1"));
    registry.release(guard2);
}
